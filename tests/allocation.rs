use m8_files::mapping::{
    find_indices, ChainMapping, EqMapping, InstrumentMapping, MoveKind, PhraseMapping, TableMapping,
};
use m8_files::settings::FxKind;
use m8_files::remapper::Remapper;
use m8_files::slots::{try_allocate, try_allocate_rev};
use m8_files::song::{Chain, ChainStep, Fx, Phrase, PhraseStep};
use m8_files::text::push_decimal;
use m8_files::version::Version;

fn names() -> Vec<String> {
    ["ARP", "EQI", "INS", "TBX", "NXT", "EQM", "TBL"].iter().map(|s| s.to_string()).collect()
}

#[test]
fn forward_keeps_a_free_hint() {
    assert_eq!(try_allocate(&vec![true, false, true, false], 1), Some(1));
}

#[test]
fn forward_scans_up_from_the_hint() {
    assert_eq!(try_allocate(&vec![false, true, true, false, false], 1), Some(3));
}

#[test]
fn forward_wraps_to_the_start() {
    assert_eq!(try_allocate(&vec![true, false, true, true], 2), Some(1));
}

#[test]
fn forward_reports_a_full_table() {
    assert_eq!(try_allocate(&vec![true, true, true], 0), None);
}

#[test]
fn backward_takes_the_highest_free_slot() {
    assert_eq!(try_allocate_rev(&vec![false, false, true, false, true], 0), Some(3));
    assert_eq!(try_allocate_rev(&vec![false, true, true, true], 2), Some(0));
    assert_eq!(try_allocate_rev(&vec![true, true], 1), None);
}

#[test]
fn classifier_finds_command_codes() {
    let n = names();
    assert_eq!(find_indices(&n, "INS", "NXT"), vec![2, 4]);
    assert_eq!(find_indices(&n, "TBX", "TBL"), vec![3, 6]);
    assert_eq!(find_indices(&n, "EQI", "EQM"), vec![1, 5]);
    assert_eq!(find_indices(&n, "XXX", "YYY"), Vec::<u8>::new());
}

#[test]
fn default_plan_is_identity_for_the_version() {
    let p = Remapper::default_ver(Version::new(6, 0), &names());
    assert_eq!(p.eq_mapping.mapping.len(), 128);
    assert_eq!(EqMapping::default_ver(Version::new(4, 0), &names()).mapping.len(), 32);
    assert_eq!(p.instrument_mapping.instrument_tracking_commands, vec![2, 4]);
    assert_eq!(p.table_mapping.table_tracking_commands, vec![3, 6]);
    assert_eq!(p.eq_mapping.eq_tracking_commands, vec![1, 5]);
    assert_eq!(p.phrase_mapping.mapping[200], 200);
    assert_eq!(p.out_chain(17), 17);
    assert_eq!(p.table_mapping.mapping[255], 255);
}

#[test]
fn phrase_references_are_rewritten() {
    let mut p = Remapper::default_ver(Version::new(6, 0), &names());
    p.instrument_mapping.mapping[3] = 9;
    p.table_mapping.mapping[0x90] = 0xA0;
    p.eq_mapping.mapping[4] = 7;
    let phrase = Phrase {
        steps: vec![
            PhraseStep {
                note: 1,
                velocity: 2,
                instrument: 3,
                fx1: Fx { command: 2, value: 3 },
                fx2: Fx { command: 3, value: 0x90 },
                fx3: Fx { command: 5, value: 4 },
            },
            PhraseStep::empty(),
        ],
    };
    let r = phrase.map_instruments(&p.instrument_mapping, &p.table_mapping, &p.eq_mapping);
    assert_eq!(r.steps[0].instrument, 9);
    assert_eq!(r.steps[0].fx1, Fx { command: 2, value: 9 });
    assert_eq!(r.steps[0].fx2, Fx { command: 3, value: 0xA0 });
    assert_eq!(r.steps[0].fx3, Fx { command: 5, value: 7 });
    assert_eq!(r.steps[1], PhraseStep::empty());
}

#[test]
fn chain_phrases_are_rewritten() {
    let mut pm = PhraseMapping::default();
    pm.mapping[4] = 40;
    let c = Chain { steps: vec![ChainStep { phrase: 4, transpose: 2 }, ChainStep::empty()] };
    let r = c.map(&pm);
    assert_eq!(r.steps[0], ChainStep { phrase: 40, transpose: 2 });
    assert_eq!(r.steps[1], ChainStep::empty());
}

#[test]
fn remap_table_records_the_move() {
    let mut t = TableMapping::new(vec![3]);
    t.remap_table(0x81, 0x90);
    assert_eq!(t.mapping[0x81], 0x90);
    assert_eq!(t.to_move, vec![0x81]);
}

#[test]
fn decimal_text() {
    let mut s = String::new();
    push_decimal(&mut s, 0);
    push_decimal(&mut s, 7);
    s.push(' ');
    push_decimal(&mut s, 42);
    s.push(' ');
    push_decimal(&mut s, 255);
    assert_eq!(s, "07 42 255");
}

#[test]
fn mapping_reports() {
    let mut p = Remapper::default_ver(Version::new(6, 0), &names());
    p.eq_mapping.mapping[1] = 127;
    p.eq_mapping.to_move.push(1);
    p.chain_mapping.mapping[0x20] = 3;
    p.chain_mapping.to_move.push(0x20);
    assert_eq!(p.eq_mapping.print(), " Eq 1 => 127\n");
    assert_eq!(p.chain_mapping.print(), " chain 32 => 3\n");
    assert_eq!(p.print(), " Eq 1 => 127\n\n\n\n chain 32 => 3\n\n");
    let i = InstrumentMapping::new(vec![]);
    assert_eq!(i.print(), "");
    let c = ChainMapping::default();
    assert_eq!(c.print(), "");
}

#[test]
fn kind_codes() {
    assert_eq!(u8::from(MoveKind::EQ), 0);
    assert_eq!(u8::from(MoveKind::TBL), 4);
    assert_eq!(MoveKind::from_u8(2), Some(MoveKind::PHR));
    assert_eq!(MoveKind::from_u8(5), None);
    assert_eq!(MoveKind::default(), MoveKind::EQ);
    assert_eq!(u8::from(FxKind::Flanger), 2);
    assert_eq!(FxKind::default(), FxKind::Chorus);
}
