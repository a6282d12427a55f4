use m8_files::mapping::{AllocationError, MoveKind, MoveLog};
use m8_files::remapper::Remapper;
use m8_files::song::{
    Chain, ChainStep, EqBand, Equ, Fx, Instrument, InstrumentKind, Phrase, PhraseStep, Song, Table,
    TableStep,
};
use m8_files::version::Version;

const INS: u8 = 7;
const NXT: u8 = 9;
const TBL: u8 = 10;
const TBX: u8 = 11;
const EQI: u8 = 3;
const EQM: u8 = 4;
const VOL: u8 = 12;

fn command_names() -> Vec<String> {
    ["ARP", "CHA", "DEL", "EQI", "EQM", "GRV", "HOP", "INS", "KIL", "NXT", "TBL", "TBX", "VOL"]
        .iter()
        .map(|s| s.to_string())
        .collect()
}

fn fx(command: u8, value: u8) -> Fx {
    Fx { command, value }
}

fn step(note: u8, instrument: u8, fx1: Fx) -> PhraseStep {
    PhraseStep { note, velocity: 0x40, instrument, fx1, fx2: Fx::empty(), fx3: Fx::empty() }
}

fn phrase(steps: &[PhraseStep]) -> Phrase {
    let mut all: Vec<PhraseStep> = steps.to_vec();
    while all.len() < 16 {
        all.push(PhraseStep::empty());
    }
    Phrase { steps: all }
}

fn table(fxs: &[Fx]) -> Table {
    let mut steps: Vec<TableStep> = fxs
        .iter()
        .map(|f| TableStep { transpose: 0, velocity: 0xFF, fx1: *f, fx2: Fx::empty(), fx3: Fx::empty() })
        .collect();
    while steps.len() < 16 {
        steps.push(TableStep::empty());
    }
    Table { steps }
}

fn chain(phrases: &[u8]) -> Chain {
    let mut steps: Vec<ChainStep> =
        phrases.iter().map(|p| ChainStep { phrase: *p, transpose: 0 }).collect();
    while steps.len() < 16 {
        steps.push(ChainStep::empty());
    }
    Chain { steps }
}

fn equ(level: u8) -> Equ {
    let b = EqBand { mode: 1, gain: level, frequency: 0x40 + level, q: 0x20 };
    Equ { low: b, mid: b, high: b }
}

fn instrument(kind: InstrumentKind, name: &str, eq: u8) -> Instrument {
    Instrument { kind, name: name.to_string(), associated_eq: eq, params: vec![1, 2, 3, eq] }
}

fn empty_song(version: Version) -> Song {
    let eq_count = if version.at_least(4, 1) { 128 } else { 32 } + 4;
    Song {
        version,
        sequence: vec![0xFF; 255],
        eqs: vec![Equ::cleared(); eq_count],
        instruments: (0..128).map(|_| Instrument::none()).collect(),
        tables: (0..256).map(|_| table(&[])).collect(),
        phrases: (0..255).map(|_| phrase(&[])).collect(),
        chains: (0..255).map(|_| chain(&[])).collect(),
    }
}

/// A populated source song of an older firmware.
fn track_eq() -> Song {
    let mut s = empty_song(Version { major: 4, minor: 0, patch: 0 });
    for i in 0..8u8 {
        s.eqs[i as usize] = equ(i + 1);
    }
    s.instruments[0] = instrument(InstrumentKind::WavSynth, "WAV", 0);
    s.instruments[1] = instrument(InstrumentKind::Sampler, "KICK", 1);
    s.instruments[2] = instrument(InstrumentKind::FmSynth, "BELL", 0);
    s.instruments[3] = instrument(InstrumentKind::MacroSynth, "PAD", 2);
    s.instruments[4] = instrument(InstrumentKind::HyperSynth, "CHORD", 4);
    s.instruments[5] = instrument(InstrumentKind::MidiOut, "MIDI", 0);
    s.instruments[6] = instrument(InstrumentKind::WavSynth, "PING", 5);
    s.instruments[7] = instrument(InstrumentKind::WavSynth, "PONG", 6);
    s.instruments[8] = instrument(InstrumentKind::External, "EXT", 7);
    // instrument 3 switches to instrument 2 from its table
    s.tables[3] = table(&[fx(NXT, 2), fx(VOL, 0x30)]);
    // instruments 6 and 7 switch to each other
    s.tables[6] = table(&[fx(NXT, 7)]);
    s.tables[7] = table(&[fx(NXT, 6)]);
    s.tables[0x81] = table(&[fx(VOL, 0x10), fx(EQM, 3)]);
    s.tables[0x82] = table(&[fx(TBL, 0x81)]);

    s.phrases[0] = phrase(&[step(0x24, 0, Fx::empty()), step(0x30, 0, fx(VOL, 0x20))]);
    s.phrases[1] = phrase(&[step(0x24, 2, Fx::empty())]);
    s.phrases[2] = phrase(&[step(0x24, 3, Fx::empty())]);
    s.phrases[0x10] = phrase(&[step(0x24, 4, fx(INS, 8))]);
    s.phrases[0x20] = phrase(&[step(0x24, 1, Fx::empty())]);
    s.phrases[0x21] = phrase(&[step(0x24, 1, fx(EQI, 2))]);
    s.phrases[0x30] = phrase(&[step(0x24, 6, Fx::empty())]);
    s.phrases[0x40] = phrase(&[step(0x24, 0, fx(TBX, 0x81))]);
    s.phrases[0x41] = phrase(&[step(0x24, 0xFF, fx(TBX, 0x82))]);

    s.chains[0] = chain(&[0]);
    s.chains[1] = chain(&[1, 0]);
    s.chains[2] = chain(&[2]);
    s.chains[0x10] = chain(&[0x10, 0x10]);
    s.chains[0x20] = chain(&[0x20]);
    s.chains[0x21] = chain(&[0x21, 0x20]);
    s.chains[0x30] = chain(&[0x30]);
    s.chains[0x40] = chain(&[0x40]);
    s.chains[0x41] = chain(&[0x41]);
    s.sequence[0] = 0;
    s.sequence[1] = 1;
    s.sequence[2] = 2;
    s
}

/// An empty destination song of a newer firmware.
fn empty_6() -> Song {
    empty_song(Version { major: 6, minor: 0, patch: 0 })
}

fn do_copy(chain_number: u8) -> Remapper {
    let track_eq = track_eq();
    let mut empty_song = empty_6();
    let remapper = Remapper::create(&track_eq, &empty_song, &command_names(), &vec![chain_number])
        .expect("Mapping failure");

    remapper.apply(&track_eq, &mut empty_song);
    remapper
}

#[test]
fn copy_chain_0() {
    do_copy(0x0);
}

#[test]
fn copy_chain_1() {
    do_copy(0x1);
}

#[test]
fn copy_chain_2() {
    do_copy(0x2);
}

#[test]
fn copy_chain_10() {
    do_copy(0x10);
}

#[test]
fn copy_chain_20() {
    let remap = do_copy(0x20);
    assert!(remap.eq_mapping.to_move.contains(&0x01));
}

#[test]
fn copy_chain_21() {
    do_copy(0x21);
}

#[test]
fn copy_chain_30() {
    do_copy(0x30);
}

#[test]
fn copy_chain_40() {
    let remap = do_copy(0x40);
    assert!(remap.table_mapping.to_move.contains(&0x81))
}

fn slots(mapping: &[u8], to_move: &[u8]) -> Vec<u8> {
    to_move.iter().map(|x| mapping[*x as usize]).collect()
}

fn all_distinct(v: &[u8]) -> bool {
    let mut seen = std::collections::HashSet::new();
    v.iter().all(|x| seen.insert(*x))
}

#[test]
fn copied_entities_land_rewritten_at_their_slots() {
    let from = track_eq();
    let mut to = empty_6();
    let plan = Remapper::create(&from, &to, &command_names(), &vec![0x10, 0x40, 0x21]).unwrap();
    plan.apply(&from, &mut to);
    for i in &plan.instrument_mapping.to_move {
        let dst = plan.instrument_mapping.mapping[*i as usize] as usize;
        let src = &from.instruments[*i as usize];
        assert_eq!(to.instruments[dst].kind, src.kind);
        assert_eq!(to.instruments[dst].name, src.name);
        let eq = src.associated_eq as usize;
        if src.kind != InstrumentKind::MidiOut {
            assert_eq!(to.instruments[dst].associated_eq, plan.eq_mapping.mapping[eq]);
        }
    }
    for e in &plan.eq_mapping.to_move {
        let dst = plan.eq_mapping.mapping[*e as usize] as usize;
        assert_eq!(to.eqs[dst], from.eqs[*e as usize]);
    }
    for p in &plan.phrase_mapping.to_move {
        let dst = plan.phrase_mapping.mapping[*p as usize] as usize;
        let expected =
            from.phrases[*p as usize].map_instruments(&plan.instrument_mapping, &plan.table_mapping, &plan.eq_mapping);
        assert_eq!(to.phrases[dst], expected);
    }
    // instrument 4's INS command now names where instrument 8 went
    let p = plan.phrase_mapping.mapping[0x10] as usize;
    assert_eq!(to.phrases[p].steps[0].fx1.value, plan.instrument_mapping.mapping[8]);
    // the TBX command of phrase 0x40 names where table 0x81 went
    let p = plan.phrase_mapping.mapping[0x40] as usize;
    assert_eq!(to.phrases[p].steps[0].fx1.value, plan.table_mapping.mapping[0x81]);
    let c = plan.out_chain(0x21) as usize;
    assert_eq!(to.chains[c].steps[0].phrase, plan.phrase_mapping.mapping[0x21]);
    assert_eq!(to.chains[c].steps[1].phrase, plan.phrase_mapping.mapping[0x20]);
}

#[test]
fn no_two_entities_share_a_new_slot() {
    let from = track_eq();
    let to = empty_6();
    let roots = vec![0, 1, 2, 0x10, 0x20, 0x21, 0x30, 0x40, 0x41];
    let plan = Remapper::create(&from, &to, &command_names(), &roots).unwrap();
    assert!(all_distinct(&slots(&plan.eq_mapping.mapping, &plan.eq_mapping.to_move)));
    assert!(all_distinct(&slots(&plan.instrument_mapping.mapping, &plan.instrument_mapping.to_move)));
    assert!(all_distinct(&slots(&plan.table_mapping.mapping, &plan.table_mapping.to_move)));
    assert!(all_distinct(&slots(&plan.phrase_mapping.mapping, &plan.phrase_mapping.to_move)));
    assert!(all_distinct(&slots(&plan.chain_mapping.mapping, &plan.chain_mapping.to_move)));
    assert_eq!(plan.chain_mapping.to_move.len(), roots.len());
}

#[test]
fn mutual_next_commands_terminate_and_place_each_once() {
    let plan = do_copy(0x30);
    let moved = &plan.instrument_mapping.to_move;
    assert_eq!(moved.iter().filter(|i| **i == 6).count(), 1);
    assert_eq!(moved.iter().filter(|i| **i == 7).count(), 1);
    assert_ne!(plan.instrument_mapping.mapping[6], plan.instrument_mapping.mapping[7]);
}

#[test]
fn equal_entities_in_the_destination_are_reused() {
    let from = track_eq();
    let plan = Remapper::create(&from, &from, &command_names(), &vec![0, 1, 2]).unwrap();
    assert!(plan.phrase_mapping.to_move.is_empty());
    assert!(plan.chain_mapping.to_move.is_empty());
    assert!(plan.instrument_mapping.to_move.is_empty());
    assert!(plan.eq_mapping.to_move.is_empty());
    assert_eq!(plan.out_chain(1), 1);
    assert_eq!(plan.phrase_mapping.mapping[1], 1);
}

#[test]
fn equal_phrase_in_destination_is_not_copied() {
    let from = track_eq();
    let mut to = empty_6();
    let first = Remapper::create(&from, &to, &command_names(), &vec![0]).unwrap();
    first.apply(&from, &mut to);
    let second = Remapper::create(&from, &to, &command_names(), &vec![0]).unwrap();
    assert!(second.phrase_mapping.to_move.is_empty());
    assert!(second.chain_mapping.to_move.is_empty());
    assert_eq!(second.phrase_mapping.mapping[0], first.phrase_mapping.mapping[0]);
    assert_eq!(second.out_chain(0), first.out_chain(0));
}

#[test]
fn apply_is_deterministic() {
    let from = track_eq();
    let roots = vec![0, 0x10, 0x20, 0x40];
    let plan = Remapper::create(&from, &empty_6(), &command_names(), &roots).unwrap();
    let mut a = empty_6();
    plan.apply(&from, &mut a);
    let mut b = empty_6();
    plan.apply(&from, &mut b);
    assert_eq!(a, b);
    assert_ne!(a, empty_6());
}

#[test]
fn create_leaves_both_songs_unchanged() {
    let from = track_eq();
    let to = empty_6();
    let _ = Remapper::create(&from, &to, &command_names(), &vec![0, 0x40]).unwrap();
    assert_eq!(from, track_eq());
    assert_eq!(to, empty_6());
}

#[test]
fn renumber_without_moves_is_a_no_op() {
    let song = track_eq();
    let plan = Remapper::default_ver(song.version, &command_names());
    let mut copy = song.clone();
    plan.renumber(&mut copy);
    assert_eq!(copy, song);
}

#[test]
fn renumber_of_an_unfragmented_song_plans_nothing() {
    let song = track_eq();
    let plan = Remapper::create(&song, &song, &command_names(), &vec![0, 1, 2]).unwrap();
    let mut copy = song.clone();
    plan.renumber(&mut copy);
    assert_eq!(copy, song);
}

#[test]
fn renumber_moves_and_clears() {
    let mut song = track_eq();
    let mut plan = Remapper::default_ver(song.version, &command_names());
    plan.phrase_mapping.mapping[0x40] = 0x50;
    plan.phrase_mapping.to_move.push(0x40);
    plan.chain_mapping.mapping[0x40] = 0x60;
    plan.chain_mapping.to_move.push(0x40);
    let before = song.clone();
    plan.renumber(&mut song);
    assert_eq!(song.phrases[0x50], before.phrases[0x40]);
    assert!(song.phrases[0x40].is_empty());
    assert_eq!(song.chains[0x60].steps[0].phrase, 0x50);
    assert!(song.chains[0x40].is_empty());
}

#[test]
fn instrument_exhaustion_names_the_instrument() {
    let from = track_eq();
    let mut to = empty_6();
    for i in 0..128 {
        to.instruments[i] = instrument(InstrumentKind::Sampler, "FULL", 0);
    }
    let r = Remapper::create(&from, &to, &command_names(), &vec![0]);
    assert_eq!(r.err(), Some(AllocationError { kind: MoveKind::INS, index: 0 }));
}

#[test]
fn chain_exhaustion_names_the_chain() {
    let from = track_eq();
    let mut to = empty_6();
    for i in 0..255 {
        to.sequence[i] = i as u8;
    }
    let r = Remapper::create(&from, &to, &command_names(), &vec![0x20]);
    assert_eq!(r.err(), Some(AllocationError { kind: MoveKind::CHN, index: 0x20 }));
}

#[test]
fn phrase_exhaustion_names_the_phrase() {
    let from = track_eq();
    let mut to = empty_6();
    for i in 0..255 {
        to.phrases[i] = phrase(&[step(i as u8, 0xFF, fx(VOL, i as u8))]);
    }
    let r = Remapper::create(&from, &to, &command_names(), &vec![0x20]);
    assert_eq!(r.err(), Some(AllocationError { kind: MoveKind::PHR, index: 0x20 }));
}

#[test]
fn table_exhaustion_names_the_table() {
    let from = track_eq();
    let mut to = empty_6();
    for i in 128..256 {
        to.tables[i] = table(&[fx(VOL, i as u8)]);
    }
    let r = Remapper::create(&from, &to, &command_names(), &vec![0x40]);
    assert_eq!(r.err(), Some(AllocationError { kind: MoveKind::TBL, index: 0x81 }));
}

#[test]
fn eq_exhaustion_names_the_equalizer() {
    let from = track_eq();
    let mut to = empty_song(Version { major: 4, minor: 0, patch: 0 });
    for i in 0..32 {
        to.instruments[i] = instrument(InstrumentKind::Sampler, "FULL", i as u8);
    }
    let r = Remapper::create(&from, &to, &command_names(), &vec![0x20]);
    assert_eq!(r.err(), Some(AllocationError { kind: MoveKind::EQ, index: 1 }));
}

#[test]
fn instrument_eq_keeps_the_instrument_number() {
    let mut from = empty_song(Version { major: 6, minor: 0, patch: 0 });
    from.eqs[5] = equ(9);
    from.instruments[5] = instrument(InstrumentKind::WavSynth, "SAME", 5);
    from.phrases[0] = phrase(&[step(0x24, 5, Fx::empty())]);
    from.chains[0] = chain(&[0]);
    let plan = Remapper::create(&from, &empty_6(), &command_names(), &vec![0]).unwrap();
    assert_eq!(plan.eq_mapping.to_move, vec![5]);
    assert_eq!(plan.eq_mapping.mapping[5], 5);
    assert_eq!(plan.instrument_mapping.mapping[5], 5);
}

#[test]
fn backward_policy_takes_the_highest_free_equalizer() {
    let plan = do_copy(0x20);
    assert_eq!(plan.eq_mapping.mapping[1], 127);
}

#[test]
fn out_of_range_roots_are_skipped() {
    let from = track_eq();
    let plan = Remapper::create(&from, &empty_6(), &command_names(), &vec![0xFF]).unwrap();
    assert!(plan.chain_mapping.to_move.is_empty());
    assert!(plan.phrase_mapping.to_move.is_empty());
}

#[test]
fn describe_reports_every_move_in_kind_order() {
    let plan = do_copy(0x40);
    let mut c = MoveLog::new();
    plan.describe(&mut c);
    let moves = c.moves;
    let total = plan.eq_mapping.to_move.len()
        + plan.instrument_mapping.to_move.len()
        + plan.table_mapping.to_move.len()
        + plan.phrase_mapping.to_move.len()
        + plan.chain_mapping.to_move.len();
    assert_eq!(moves.len(), total);
    assert!(moves.contains(&(MoveKind::TBL, 0x81, plan.table_mapping.mapping[0x81] as usize)));
    assert_eq!(moves.last(), Some(&(MoveKind::CHN, 0x40, plan.out_chain(0x40) as usize)));
    let order = |k: &MoveKind| match k {
        MoveKind::EQ => 0,
        MoveKind::INS => 1,
        MoveKind::TBL => 2,
        MoveKind::PHR => 3,
        MoveKind::CHN => 4,
    };
    assert!(moves.windows(2).all(|w| order(&w[0].0) <= order(&w[1].0)));
}

#[test]
fn empty_instrument_takes_a_slot_of_its_own() {
    let mut from = track_eq();
    from.phrases[0x50] = phrase(&[step(0x24, 5 + 0x60, Fx::empty()), step(0x24, 0, Fx::empty())]);
    from.chains[0x50] = chain(&[0x50]);
    let mut to = empty_6();
    let plan = Remapper::create(&from, &to, &command_names(), &vec![0x50]).unwrap();
    let empty_ix = 0x65usize;
    assert_ne!(plan.instrument_mapping.mapping[empty_ix], plan.instrument_mapping.mapping[0]);
    plan.apply(&from, &mut to);
    let slot = plan.instrument_mapping.mapping[empty_ix] as usize;
    assert_eq!(to.instruments[slot].kind, InstrumentKind::Empty);
    assert_eq!(to.instruments[plan.instrument_mapping.mapping[0] as usize].name, "WAV");
}

#[test]
fn equal_equalizer_in_use_is_reused() {
    let from = track_eq();
    let mut to = empty_6();
    to.eqs[3] = from.eqs[1];
    to.instruments[9] = instrument(InstrumentKind::Sampler, "USER", 3);
    let plan = Remapper::create(&from, &to, &command_names(), &vec![0x20]).unwrap();
    assert_eq!(plan.eq_mapping.mapping[1], 3);
    assert!(!plan.eq_mapping.to_move.contains(&1));
}

#[test]
fn equal_equalizer_in_a_free_slot_is_reused_and_kept() {
    let from = track_eq();
    let mut to = empty_6();
    to.eqs[127] = from.eqs[1];
    to.eqs[3] = from.eqs[1];
    let plan = Remapper::create(&from, &to, &command_names(), &vec![0x20, 0x21]).unwrap();
    assert!(!plan.eq_mapping.to_move.contains(&1));
    assert_eq!(plan.eq_mapping.mapping[1], 3);
    // the next copied equalizer does not land on the reused slot
    assert!(plan.eq_mapping.to_move.contains(&2));
    assert_eq!(plan.eq_mapping.mapping[2], 127);
    let mut after = to.clone();
    plan.apply(&from, &mut after);
    assert_eq!(after.eqs[3], from.eqs[1]);
}

#[test]
fn blank_phrase_reuses_a_free_blank_slot() {
    let mut from = track_eq();
    from.chains[0x60] = chain(&[0x70, 0x20]);
    let to = empty_6();
    let plan = Remapper::create(&from, &to, &command_names(), &vec![0x60]).unwrap();
    assert!(!plan.phrase_mapping.to_move.contains(&0x70));
    assert_eq!(plan.phrase_mapping.mapping[0x70], 0);
    assert_ne!(plan.phrase_mapping.mapping[0x20], 0);
}

#[test]
fn unreached_entities_keep_their_index() {
    let plan = do_copy(0x20);
    assert_eq!(plan.phrase_mapping.mapping[0x40], 0x40);
    assert_eq!(plan.chain_mapping.mapping[0x40], 0x40);
    assert_eq!(plan.instrument_mapping.mapping[8], 8);
    assert_eq!(plan.table_mapping.mapping[0x81], 0x81);
    assert_eq!(plan.eq_mapping.mapping[7], 7);
}

#[test]
fn partly_filled_destination_with_room_succeeds() {
    let from = track_eq();
    let mut to = empty_6();
    for i in 0..100 {
        to.instruments[i] = instrument(InstrumentKind::Sampler, "BUSY", 0);
    }
    for i in 0..200 {
        to.sequence[i % 255] = i as u8;
    }
    let plan = Remapper::create(&from, &to, &command_names(), &vec![0x30]).unwrap();
    assert_eq!(plan.instrument_mapping.to_move.len(), 2);
    assert!(plan.instrument_mapping.mapping[6] >= 100);
    assert!(plan.instrument_mapping.mapping[7] >= 100);
}

#[test]
fn blank_root_chain_reuses_a_free_blank_chain() {
    let from = track_eq();
    let to = empty_6();
    let plan = Remapper::create(&from, &to, &command_names(), &vec![0x90, 0x20]).unwrap();
    assert!(!plan.chain_mapping.to_move.contains(&0x90));
    assert_eq!(plan.out_chain(0x90), 0);
    assert_ne!(plan.out_chain(0x20), 0);
}
