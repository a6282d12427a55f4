//! Song-wide settings: MIDI, mixer, effects, and the MIDI control mappings.
use vstd::prelude::*;

use crate::reader::{M8Result, ParseError, Reader};
use crate::text::{decimal, push_decimal};
use crate::version::{version_at_least, Version};

verus! {

#[derive(PartialEq, Eq, Debug, Clone)]
pub struct MidiSettings {
    pub receive_sync: bool,
    pub receive_transport: u8,
    pub send_sync: bool,
    pub send_transport: u8,
    pub record_note_channel: u8,
    pub record_note_velocity: bool,
    pub record_note_delay_kill_commands: u8,
    pub control_map_channel: u8,
    pub song_row_cue_channel: u8,
    pub track_input_channel: [u8; 8],
    pub track_input_intrument: [u8; 8],
    pub track_input_program_change: bool,
    pub track_input_mode: u8,
}

#[derive(PartialEq, Eq, Debug, Clone, Copy)]
pub struct LimiterParameter {
    pub level: u8,
    pub attack_release: Option<(u8, u8, bool)>,
}

#[derive(PartialEq, Eq, Debug, Clone)]
pub struct MixerSettings {
    pub master_volume: u8,
    pub track_volume: [u8; 8],
    pub chorus_volume: u8,
    pub delay_volume: u8,
    pub reverb_volume: u8,
    pub analog_input: AnalogInputSettings,
    pub usb_input: InputMixerSettings,
    pub dj_filter: u8,
    pub dj_peak: u8,
    pub dj_filter_type: u8,
    pub limiter: LimiterParameter,
    pub ott_level: Option<u8>,
}

#[derive(PartialEq, Eq, Debug, Clone, Copy)]
pub struct InputMixerSettings {
    pub volume: u8,
    pub mfx: u8,
    pub delay: u8,
    pub reverb: u8,
}

#[derive(PartialEq, Eq, Debug, Clone, Copy)]
pub enum AnalogInputSettings {
    Stereo(InputMixerSettings),
    DualMono((InputMixerSettings, InputMixerSettings)),
}

/// Effect filter configuration, used by firmware older than the equalizers.
#[derive(PartialEq, Eq, Debug, Clone, Copy)]
pub struct EffectFilter {
    pub high_pass: u8,
    pub low_pass: u8,
}

#[allow(non_camel_case_types)]
#[derive(PartialEq, Eq, Structural, Copy, Clone, Debug)]
pub enum FxKind {
    Chorus,
    Phaser,
    Flanger,
}

#[derive(PartialEq, Eq, Debug, Clone, Copy)]
pub struct OttConfiguration {
    pub time: u8,
    pub color: u8,
}

#[derive(PartialEq, Eq, Debug, Clone)]
pub struct EffectsSettings {
    pub mfx_kind: Option<FxKind>,
    pub chorus_mod_depth: u8,
    pub chorus_mod_freq: u8,
    pub chorus_width: u8,
    pub chorus_reverb_send: u8,
    pub delay_filter: Option<EffectFilter>,
    pub delay_time_l: u8,
    pub delay_time_r: u8,
    pub delay_feedback: u8,
    pub delay_width: u8,
    pub delay_reverb_send: u8,
    pub reverb_filter: Option<EffectFilter>,
    pub reverb_size: u8,
    pub reverb_damping: u8,
    pub reverb_mod_depth: u8,
    pub reverb_mod_freq: u8,
    pub reverb_width: u8,
    pub reverb_shimmer: Option<u8>,
    pub ott_configuration: Option<OttConfiguration>,
}

#[derive(PartialEq, Eq, Debug, Clone, Copy)]
pub struct MidiMapping {
    pub channel: u8,
    pub control_number: u8,
    pub value: u8,
    pub typ: u8,
    pub param_index: u8,
    pub min_value: u8,
    pub max_value: u8,
}

impl Default for FxKind {
    fn default() -> (r: FxKind)
        ensures
            r == FxKind::Chorus,
    {
        FxKind::Chorus
    }
}

/// The kind of multi-effect coded by `b`, if any.
pub open spec fn fx_kind_of(b: u8) -> Option<FxKind> {
    if b == 0 {
        Some(FxKind::Chorus)
    } else if b == 1 {
        Some(FxKind::Phaser)
    } else if b == 2 {
        Some(FxKind::Flanger)
    } else {
        None
    }
}

impl From<FxKind> for u8 {
    fn from(k: FxKind) -> (r: u8) {
        match k {
            FxKind::Chorus => 0,
            FxKind::Phaser => 1,
            FxKind::Flanger => 2,
        }
    }
}

impl vstd::std_specs::convert::FromSpecImpl<FxKind> for u8 {
    open spec fn obeys_from_spec() -> bool {
        true
    }

    open spec fn from_spec(k: FxKind) -> u8 {
        match k {
            FxKind::Chorus => 0,
            FxKind::Phaser => 1,
            FxKind::Flanger => 2,
        }
    }
}

impl FxKind {
    pub fn from_u8(b: u8) -> (r: Option<FxKind>)
        ensures
            r == fx_kind_of(b),
    {
        match b {
            0 => Some(FxKind::Chorus),
            1 => Some(FxKind::Phaser),
            2 => Some(FxKind::Flanger),
            _ => None,
        }
    }
}

/// The message of an unknown multi-effect code.
pub open spec fn unknown_mfx_message(b: u8) -> Seq<char> {
    seq!['U', 'n', 'k', 'n', 'o', 'w', 'n', ' ', 'M', 'F', 'X', ' ', 'k', 'i', 'n', 'd', ' '] + decimal(b as nat)
}

/// Bytes that the mixer settings take for firmware `ver`.
pub open spec fn mixer_size(ver: Version) -> int {
    28 + (if version_at_least(ver, 6, 0) { 3int } else { 0 }) + (if version_at_least(ver, 6, 1) { 1int } else { 0 })
}

/// Bytes that the effects settings take for firmware `ver`.
pub open spec fn effects_size(ver: Version) -> int {
    22 + if version_at_least(ver, 6, 1) { 4int } else { 0 }
}

impl InputMixerSettings {
    /// Reads the three send levels of an input whose volume is known.
    pub fn from_reader(reader: &mut Reader, volume: u8) -> (r: Self)
        requires
            old(reader).remaining() >= 3,
        ensures
            r == (InputMixerSettings {
                volume,
                mfx: old(reader).ahead(0),
                delay: old(reader).ahead(1),
                reverb: old(reader).ahead(2),
            }),
            final(reader).advanced(old(reader), 3),
    {
        let chorus = reader.read();
        let delay = reader.read();
        let reverb = reader.read();
        Self { volume, mfx: chorus, delay, reverb }
    }
}

fn read_array8(reader: &mut Reader) -> (r: [u8; 8])
    requires
        old(reader).remaining() >= 8,
    ensures
        forall|i: int| 0 <= i < 8 ==> #[trigger] r@[i] == old(reader).ahead(i),
        final(reader).advanced(old(reader), 8),
{
    let b0 = reader.read();
    let b1 = reader.read();
    let b2 = reader.read();
    let b3 = reader.read();
    let b4 = reader.read();
    let b5 = reader.read();
    let b6 = reader.read();
    let b7 = reader.read();
    let r = [b0, b1, b2, b3, b4, b5, b6, b7];
    assert(r@[0] == b0 && r@[1] == b1 && r@[2] == b2 && r@[3] == b3);
    assert(r@[4] == b4 && r@[5] == b5 && r@[6] == b6 && r@[7] == b7);
    r
}

impl MidiSettings {
    /// Reads the MIDI settings block: 27 bytes.
    pub fn from_reader(reader: &mut Reader) -> (r: M8Result<Self>)
        requires
            old(reader).remaining() >= 27,
        ensures
            r matches Ok(m) && {
                &&& m.receive_sync == (old(reader).ahead(0) != 0)
                &&& m.receive_transport == old(reader).ahead(1)
                &&& m.send_sync == (old(reader).ahead(2) != 0)
                &&& m.send_transport == old(reader).ahead(3)
                &&& m.record_note_channel == old(reader).ahead(4)
                &&& m.record_note_velocity == (old(reader).ahead(5) != 0)
                &&& m.record_note_delay_kill_commands == old(reader).ahead(6)
                &&& m.control_map_channel == old(reader).ahead(7)
                &&& m.song_row_cue_channel == old(reader).ahead(8)
                &&& forall|i: int| 0 <= i < 8 ==> #[trigger] m.track_input_channel@[i] == old(reader).ahead(9 + i)
                &&& forall|i: int| 0 <= i < 8 ==> #[trigger] m.track_input_intrument@[i] == old(reader).ahead(17 + i)
                &&& m.track_input_program_change == (old(reader).ahead(25) != 0)
                &&& m.track_input_mode == old(reader).ahead(26)
            },
            final(reader).advanced(old(reader), 27),
    {
        let receive_sync = reader.read_bool();
        let receive_transport = reader.read();
        let send_sync = reader.read_bool();
        let send_transport = reader.read();
        let record_note_channel = reader.read();
        let record_note_velocity = reader.read_bool();
        let record_note_delay_kill_commands = reader.read();
        let control_map_channel = reader.read();
        let song_row_cue_channel = reader.read();
        let track_input_channel = read_array8(reader);
        let track_input_intrument = read_array8(reader);
        let track_input_program_change = reader.read_bool();
        let track_input_mode = reader.read();
        Ok(Self {
            receive_sync,
            receive_transport,
            send_sync,
            send_transport,
            record_note_channel,
            record_note_velocity,
            record_note_delay_kill_commands,
            control_map_channel,
            song_row_cue_channel,
            track_input_channel,
            track_input_intrument,
            track_input_program_change,
            track_input_mode,
        })
    }
}

impl MixerSettings {
    /// Reads the mixer block. Firmware 6.0 adds the limiter's attack, release
    /// and soft clip; 6.1 adds the OTT level.
    pub fn from_reader(reader: &mut Reader, ver: Version) -> (r: M8Result<Self>)
        requires
            old(reader).remaining() >= mixer_size(ver),
        ensures
            r matches Ok(m) && {
                let b = |k: int| old(reader).ahead(k);
                let left = InputMixerSettings { volume: b(13), mfx: b(16), delay: b(17), reverb: b(18) };
                let right = InputMixerSettings { volume: b(13), mfx: b(19), delay: b(20), reverb: b(21) };
                &&& m.master_volume == b(0)
                &&& m.limiter.level == b(1)
                &&& forall|i: int| 0 <= i < 8 ==> #[trigger] m.track_volume@[i] == b(2 + i)
                &&& m.chorus_volume == b(10)
                &&& m.delay_volume == b(11)
                &&& m.reverb_volume == b(12)
                &&& m.analog_input == if b(14) == 255 {
                    AnalogInputSettings::Stereo(left)
                } else {
                    AnalogInputSettings::DualMono((left, right))
                }
                &&& m.usb_input == (InputMixerSettings { volume: b(15), mfx: b(22), delay: b(23), reverb: b(24) })
                &&& m.dj_filter == b(25)
                &&& m.dj_peak == b(26)
                &&& m.dj_filter_type == b(27)
                &&& m.limiter.attack_release == if version_at_least(ver, 6, 0) {
                    Some((b(28), b(29), b(30) != 0))
                } else {
                    None
                }
                &&& m.ott_level == if version_at_least(ver, 6, 1) {
                    Some(if version_at_least(ver, 6, 0) { b(31) } else { b(28) })
                } else {
                    None
                }
            },
            final(reader).advanced(old(reader), mixer_size(ver)),
    {
        let master_volume = reader.read();
        let master_limit = reader.read();
        let track_volume = read_array8(reader);
        let chorus_volume = reader.read();
        let delay_volume = reader.read();
        let reverb_volume = reader.read();
        let analog_input_volume = (reader.read(), reader.read());
        let usb_input_volume = reader.read();
        let analog_input_l = InputMixerSettings::from_reader(reader, analog_input_volume.0);
        let analog_input_r = InputMixerSettings::from_reader(reader, analog_input_volume.0);
        let usb_input_chorus = reader.read();
        let usb_input_delay = reader.read();
        let usb_input_reverb = reader.read();
        let analog_input = if analog_input_volume.1 == 255 {
            AnalogInputSettings::Stereo(analog_input_l)
        } else {
            AnalogInputSettings::DualMono((analog_input_l, analog_input_r))
        };
        let usb_input = InputMixerSettings {
            volume: usb_input_volume,
            mfx: usb_input_chorus,
            delay: usb_input_delay,
            reverb: usb_input_reverb,
        };
        let dj_filter = reader.read();
        let dj_peak = reader.read();
        let dj_filter_type = reader.read();
        let limiter_conf = if !ver.at_least(6, 0) {
            None
        } else {
            let limiter_attack = reader.read();
            let limiter_release = reader.read();
            let soft_clip = reader.read();
            Some((limiter_attack, limiter_release, soft_clip != 0))
        };
        let ott_level = if ver.at_least(6, 1) {
            Some(reader.read())
        } else {
            None
        };
        Ok(Self {
            master_volume,
            track_volume,
            chorus_volume,
            delay_volume,
            reverb_volume,
            analog_input,
            usb_input,
            dj_filter,
            dj_peak,
            dj_filter_type,
            limiter: LimiterParameter { level: master_limit, attack_release: limiter_conf },
            ott_level,
        })
    }
}

impl EffectFilter {
    fn from_reader(reader: &mut Reader) -> (r: M8Result<Self>)
        requires
            old(reader).remaining() >= 2,
        ensures
            r == Ok::<EffectFilter, ParseError>(EffectFilter { high_pass: old(reader).ahead(0), low_pass: old(reader).ahead(1) }),
            final(reader).advanced(old(reader), 2),
    {
        let high_pass = reader.read();
        let low_pass = reader.read();
        Ok(EffectFilter { high_pass, low_pass })
    }
}

impl OttConfiguration {
    pub fn from_reader(reader: &mut Reader, _version: Version) -> (r: M8Result<Self>)
        requires
            old(reader).remaining() >= 2,
        ensures
            r == Ok::<OttConfiguration, ParseError>(OttConfiguration { time: old(reader).ahead(0), color: old(reader).ahead(1) }),
            final(reader).advanced(old(reader), 2),
    {
        let time = reader.read();
        let color = reader.read();
        Ok(Self { time, color })
    }
}

impl EffectsSettings {
    /// Reads the effects block. Firmware before 4.0 keeps the delay and
    /// reverb filters; 6.1 adds the shimmer, the OTT configuration and the
    /// multi-effect kind, whose unknown codes are refused.
    pub fn from_reader(reader: &mut Reader, version: Version) -> (r: M8Result<Self>)
        requires
            old(reader).remaining() >= effects_size(version),
        ensures
            ({
                let b = |k: int| old(reader).ahead(k);
                let v61 = version_at_least(version, 6, 1);
                &&& (v61 && fx_kind_of(b(25)) is None) <==> r is Err
                &&& r matches Err(e) ==> e.0@ == unknown_mfx_message(b(25))
                &&& r matches Ok(m) ==> {
                    &&& m.chorus_mod_depth == b(0)
                    &&& m.chorus_mod_freq == b(1)
                    &&& m.chorus_width == b(2)
                    &&& m.chorus_reverb_send == b(3)
                    &&& m.delay_filter == if version_at_least(version, 4, 0) {
                        None
                    } else {
                        Some(EffectFilter { high_pass: b(7), low_pass: b(8) })
                    }
                    &&& m.delay_time_l == b(9)
                    &&& m.delay_time_r == b(10)
                    &&& m.delay_feedback == b(11)
                    &&& m.delay_width == b(12)
                    &&& m.delay_reverb_send == b(13)
                    &&& m.reverb_filter == if version_at_least(version, 4, 0) {
                        None
                    } else {
                        Some(EffectFilter { high_pass: b(15), low_pass: b(16) })
                    }
                    &&& m.reverb_size == b(17)
                    &&& m.reverb_damping == b(18)
                    &&& m.reverb_mod_depth == b(19)
                    &&& m.reverb_mod_freq == b(20)
                    &&& m.reverb_width == b(21)
                    &&& m.reverb_shimmer == if v61 { Some(b(22)) } else { None }
                    &&& m.ott_configuration == if v61 {
                        Some(OttConfiguration { time: b(23), color: b(24) })
                    } else {
                        None
                    }
                    &&& m.mfx_kind == if v61 { fx_kind_of(b(25)) } else { None }
                }
            }),
            r is Ok ==> final(reader).advanced(old(reader), effects_size(version)),
    {
        let chorus_mod_depth = reader.read();
        let chorus_mod_freq = reader.read();
        let chorus_width = reader.read();
        let chorus_reverb_send = reader.read();
        reader.read_bytes(3);
        let delay_filter = EffectFilter::from_reader(reader)?;
        let delay_filter = if version.at_least(4, 0) {
            None
        } else {
            Some(delay_filter)
        };
        let delay_time_l = reader.read();
        let delay_time_r = reader.read();
        let delay_feedback = reader.read();
        let delay_width = reader.read();
        let delay_reverb_send = reader.read();
        reader.read_bytes(1);
        let reverb_filter = EffectFilter::from_reader(reader)?;
        let reverb_filter = if version.at_least(4, 0) {
            None
        } else {
            Some(reverb_filter)
        };
        let reverb_size = reader.read();
        let reverb_damping = reader.read();
        let reverb_mod_depth = reader.read();
        let reverb_mod_freq = reader.read();
        let reverb_width = reader.read();
        let (reverb_shimmer, ott_configuration, mfx_kind) = if version.at_least(6, 1) {
            let shimmer = Some(reader.read());
            let ott = OttConfiguration::from_reader(reader, version)?;
            let mfx = reader.read();
            match FxKind::from_u8(mfx) {
                Some(kind) => (shimmer, Some(ott), Some(kind)),
                None => {
                    let mut message = String::new();
                    proof {
                        reveal_strlit("Unknown MFX kind ");
                    }
                    message.append("Unknown MFX kind ");
                    push_decimal(&mut message, mfx);
                    assert(message@ =~= unknown_mfx_message(mfx));
                    return Err(ParseError(message));
                },
            }
        } else {
            (None, None, None)
        };
        Ok(Self {
            mfx_kind,
            chorus_mod_depth,
            chorus_mod_freq,
            chorus_width,
            chorus_reverb_send,
            delay_filter,
            delay_time_l,
            delay_time_r,
            delay_feedback,
            delay_width,
            delay_reverb_send,
            reverb_filter,
            reverb_size,
            reverb_damping,
            reverb_mod_depth,
            reverb_mod_freq,
            reverb_width,
            reverb_shimmer,
            ott_configuration,
        })
    }
}

impl MidiMapping {
    /// Reads one control mapping: 7 bytes.
    pub fn from_reader(reader: &mut Reader) -> (r: M8Result<Self>)
        requires
            old(reader).remaining() >= 7,
        ensures
            r == Ok::<MidiMapping, ParseError>(MidiMapping {
                channel: old(reader).ahead(0),
                control_number: old(reader).ahead(1),
                value: old(reader).ahead(2),
                typ: old(reader).ahead(3),
                param_index: old(reader).ahead(4),
                min_value: old(reader).ahead(5),
                max_value: old(reader).ahead(6),
            }),
            final(reader).advanced(old(reader), 7),
    {
        Ok(Self {
            channel: reader.read(),
            control_number: reader.read(),
            value: reader.read(),
            typ: reader.read(),
            param_index: reader.read(),
            min_value: reader.read(),
            max_value: reader.read(),
        })
    }

    /// An unused mapping has channel zero.
    pub fn empty(&self) -> (r: bool)
        ensures
            r == (self.channel == 0),
    {
        self.channel == 0
    }
}

} // verus!
