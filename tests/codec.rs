use m8_files::chord::Chord;
use m8_files::reader::{ParseError, Reader, Writer};
use m8_files::settings::{
    AnalogInputSettings, EffectFilter, EffectsSettings, FxKind, InputMixerSettings, MidiMapping,
    MidiSettings, MixerSettings, OttConfiguration,
};
use m8_files::version::Version;

fn bytes(n: u8) -> Vec<u8> {
    (1..=n).collect()
}

#[test]
fn version_comparisons() {
    let v = Version::new(4, 1);
    assert_eq!(v, Version { major: 4, minor: 1, patch: 0 });
    assert!(v.at_least(4, 0));
    assert!(v.at_least(4, 1));
    assert!(!v.at_least(4, 2));
    assert!(!v.at_least(5, 0));
    assert!(Version::new(6, 0).at_least(4, 9));
    assert!(v.after(&Version { major: 4, minor: 1, patch: 7 }));
    assert!(!Version::new(3, 9).after(&Version::new(4, 0)));
}

#[test]
fn version_header_bytes() {
    let mut w = Writer::new();
    Version { major: 6, minor: 2, patch: 1 }.write(&mut w);
    let mut expected = b"M8VERSION".to_vec();
    expected.push(0);
    expected.extend_from_slice(&[0x21, 6, 0, 0x10]);
    assert_eq!(w.buffer, expected);
    assert_eq!(w.buffer.len(), Version::SIZE);
}

#[test]
fn version_round_trip() {
    let v = Version { major: 4, minor: 1, patch: 3 };
    let mut w = Writer::new();
    v.write(&mut w);
    let mut r = Reader::new(w.buffer);
    assert_eq!(Version::from_reader(&mut r), Ok(v));
    assert_eq!(r.position, Version::SIZE);
}

#[test]
fn version_from_reader_masks_nibbles() {
    let mut buf = vec![0u8; 10];
    buf.extend_from_slice(&[0x5A, 0xF3, 9, 9]);
    let mut r = Reader::new(buf);
    assert_eq!(Version::from_reader(&mut r), Ok(Version { major: 3, minor: 5, patch: 0xA }));
}

#[test]
fn reader_reads_in_order() {
    let mut r = Reader::new(vec![0, 7, 1, 2, 3]);
    assert!(!r.read_bool());
    assert_eq!(r.read(), 7);
    assert_eq!(r.read_bytes(3), vec![1, 2, 3]);
    assert_eq!(r.position, 5);
}

#[test]
fn writer_pads_strings() {
    let mut w = Writer::new();
    w.write_string("AB", 4);
    w.write_string("LONGER", 3);
    assert_eq!(w.buffer, vec![b'A', b'B', 0, 0, b'L', b'O', b'N']);
}

#[test]
fn midi_mapping_fields_and_emptiness() {
    let mut r = Reader::new(bytes(7));
    let m = MidiMapping::from_reader(&mut r).unwrap();
    assert_eq!(
        m,
        MidiMapping { channel: 1, control_number: 2, value: 3, typ: 4, param_index: 5, min_value: 6, max_value: 7 }
    );
    assert!(!m.empty());
    assert!(MidiMapping { channel: 0, ..m }.empty());
}

#[test]
fn input_mixer_settings_take_the_given_volume() {
    let mut r = Reader::new(vec![9, 8, 7]);
    let s = InputMixerSettings::from_reader(&mut r, 0x40);
    assert_eq!(s, InputMixerSettings { volume: 0x40, mfx: 9, delay: 8, reverb: 7 });
}

#[test]
fn midi_settings_fields() {
    let mut r = Reader::new(bytes(27));
    let m = MidiSettings::from_reader(&mut r).unwrap();
    assert!(m.receive_sync);
    assert_eq!(m.receive_transport, 2);
    assert_eq!(m.song_row_cue_channel, 9);
    assert_eq!(m.track_input_channel, [10, 11, 12, 13, 14, 15, 16, 17]);
    assert_eq!(m.track_input_intrument, [18, 19, 20, 21, 22, 23, 24, 25]);
    assert_eq!(m.track_input_mode, 27);
    assert_eq!(r.position, 27);
}

#[test]
fn mixer_settings_old_firmware() {
    let mut buf = bytes(28);
    buf[14] = 255;
    let mut r = Reader::new(buf);
    let m = MixerSettings::from_reader(&mut r, Version::new(4, 0)).unwrap();
    assert_eq!(m.master_volume, 1);
    assert_eq!(m.limiter.level, 2);
    assert_eq!(m.track_volume, [3, 4, 5, 6, 7, 8, 9, 10]);
    assert_eq!(m.analog_input, AnalogInputSettings::Stereo(InputMixerSettings { volume: 14, mfx: 17, delay: 18, reverb: 19 }));
    assert_eq!(m.usb_input, InputMixerSettings { volume: 16, mfx: 23, delay: 24, reverb: 25 });
    assert_eq!(m.dj_filter_type, 28);
    assert_eq!(m.limiter.attack_release, None);
    assert_eq!(m.ott_level, None);
    assert_eq!(r.position, 28);
}

#[test]
fn mixer_settings_new_firmware() {
    let mut buf = bytes(32);
    buf[30] = 0;
    let mut r = Reader::new(buf);
    let m = MixerSettings::from_reader(&mut r, Version::new(6, 1)).unwrap();
    assert_eq!(
        m.analog_input,
        AnalogInputSettings::DualMono((
            InputMixerSettings { volume: 14, mfx: 17, delay: 18, reverb: 19 },
            InputMixerSettings { volume: 14, mfx: 20, delay: 21, reverb: 22 }
        ))
    );
    assert_eq!(m.limiter.attack_release, Some((29, 30, false)));
    assert_eq!(m.ott_level, Some(32));
    assert_eq!(r.position, 32);
}

#[test]
fn effects_settings_before_equalizers_keep_filters() {
    let mut r = Reader::new(bytes(22));
    let e = EffectsSettings::from_reader(&mut r, Version::new(3, 0)).unwrap();
    assert_eq!(e.chorus_mod_depth, 1);
    assert_eq!(e.delay_filter, Some(EffectFilter { high_pass: 8, low_pass: 9 }));
    assert_eq!(e.delay_time_l, 10);
    assert_eq!(e.reverb_filter, Some(EffectFilter { high_pass: 16, low_pass: 17 }));
    assert_eq!(e.reverb_width, 22);
    assert_eq!(e.mfx_kind, None);
    assert_eq!(e.reverb_shimmer, None);
}

#[test]
fn effects_settings_new_firmware() {
    let mut buf = bytes(26);
    buf[25] = 2;
    let mut r = Reader::new(buf);
    let e = EffectsSettings::from_reader(&mut r, Version::new(6, 1)).unwrap();
    assert_eq!(e.delay_filter, None);
    assert_eq!(e.reverb_shimmer, Some(23));
    assert_eq!(e.ott_configuration, Some(OttConfiguration { time: 24, color: 25 }));
    assert_eq!(e.mfx_kind, Some(FxKind::Flanger));
    assert_eq!(r.position, 26);
}

#[test]
fn effects_settings_refuse_unknown_mfx() {
    let mut buf = bytes(26);
    buf[25] = 7;
    let mut r = Reader::new(buf);
    let e = EffectsSettings::from_reader(&mut r, Version::new(6, 2));
    assert_eq!(e, Err(ParseError("Unknown MFX kind 7".to_string())));
}

#[test]
fn ott_configuration_and_fx_kind() {
    let mut r = Reader::new(vec![3, 4]);
    assert_eq!(OttConfiguration::from_reader(&mut r, Version::new(6, 1)), Ok(OttConfiguration { time: 3, color: 4 }));
    assert_eq!(FxKind::from_u8(0), Some(FxKind::Chorus));
    assert_eq!(FxKind::from_u8(1), Some(FxKind::Phaser));
    assert_eq!(FxKind::from_u8(3), None);
}

#[test]
fn version_default_is_four_zero() {
    assert_eq!(Version::default(), Version { major: 4, minor: 0, patch: 0 });
}

#[test]
fn chord_round_trip_and_display() {
    let mut r = Reader::new(vec![0b0000_0101, 0x0C, 0xFF, 0x01, 4, 5, 6]);
    let c = Chord::read(&mut r);
    assert_eq!(c, Chord { mask: 5, offsets: [0x0C, 0xFF, 0x01, 4, 5, 6] });
    assert!(c.is_osc_on(0));
    assert!(!c.is_osc_on(1));
    assert!(c.is_osc_on(2));
    assert!(!c.is_osc_on(7));
    assert_eq!(c.offset_str(0), "0C");
    assert_eq!(c.offset_str(1), "--");
    assert_eq!(c.offset_str(2), "01");
    let mut w = Writer::new();
    c.write(&mut w);
    assert_eq!(w.buffer, vec![5, 0x0C, 0xFF, 0x01, 4, 5, 6]);
    let full = Chord { mask: 0xFF, offsets: [0xAB, 0, 0, 0, 0, 0x10] };
    assert_eq!(full.offset_str(0), "AB");
    assert_eq!(full.offset_str(5), "10");
}
