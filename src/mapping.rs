//! Per-kind index mappings, the command classifier, and the rewriting of the
//! references that an entity holds.
use vstd::prelude::*;

use crate::song::{
    Chain, ChainStep, EMPTY_BYTE, Fx, InstrumentModel, N_CHAINS, N_INSTRUMENTS, N_PHRASES, N_TABLES,
    Phrase, PhraseStep, Table, TableStep,
};
use crate::song::{instrument_eq_count, spec_instrument_eq_count};
use crate::text::{move_lines, print_moves};
use crate::version::Version;

verus! {

/// Kind of entity reported by [`RemapperDescriptorBuilder::moved`].
#[allow(non_camel_case_types)]
#[derive(PartialEq, Eq, Structural, Copy, Clone, Debug)]
pub enum MoveKind {
    EQ,
    INS,
    PHR,
    CHN,
    TBL,
}

impl Default for MoveKind {
    fn default() -> (r: MoveKind)
        ensures
            r == MoveKind::EQ,
    {
        MoveKind::EQ
    }
}

/// Code of a move kind.
pub open spec fn move_kind_code(k: MoveKind) -> u8 {
    match k {
        MoveKind::EQ => 0,
        MoveKind::INS => 1,
        MoveKind::PHR => 2,
        MoveKind::CHN => 3,
        MoveKind::TBL => 4,
    }
}

impl From<MoveKind> for u8 {
    fn from(k: MoveKind) -> (r: u8) {
        match k {
            MoveKind::EQ => 0,
            MoveKind::INS => 1,
            MoveKind::PHR => 2,
            MoveKind::CHN => 3,
            MoveKind::TBL => 4,
        }
    }
}

impl vstd::std_specs::convert::FromSpecImpl<MoveKind> for u8 {
    open spec fn obeys_from_spec() -> bool {
        true
    }

    open spec fn from_spec(k: MoveKind) -> u8 {
        move_kind_code(k)
    }
}

impl MoveKind {
    /// The move kind with code `b`, if any.
    pub fn from_u8(b: u8) -> (r: Option<MoveKind>)
        ensures
            r matches Some(k) ==> move_kind_code(k) == b,
            r is None <==> b > 4,
    {
        match b {
            0 => Some(MoveKind::EQ),
            1 => Some(MoveKind::INS),
            2 => Some(MoveKind::PHR),
            3 => Some(MoveKind::CHN),
            4 => Some(MoveKind::TBL),
            _ => None,
        }
    }
}

/// No free slot was left in the destination for source entity `index` of kind `kind`.
#[derive(PartialEq, Eq, Structural, Copy, Clone, Debug)]
pub struct AllocationError {
    pub kind: MoveKind,
    pub index: usize,
}

/// Receives, one by one, the entities that a plan copies.
pub trait RemapperDescriptorBuilder {
    /// The moves received so far, in order.
    spec fn log(&self) -> Seq<(MoveKind, usize, usize)>;

    /// Receives one move: entity `from` of kind `kind` goes to slot `to`.
    fn moved(&mut self, kind: MoveKind, from: usize, to: usize)
        ensures
            final(self).log() == old(self).log().push((kind, from, to)),
    ;
}

/// A builder that keeps every move it receives, in order.
pub struct MoveLog {
    pub moves: Vec<(MoveKind, usize, usize)>,
}

impl MoveLog {
    pub fn new() -> (r: MoveLog)
        ensures
            r.log() == Seq::<(MoveKind, usize, usize)>::empty(),
    {
        MoveLog { moves: Vec::new() }
    }
}

impl RemapperDescriptorBuilder for MoveLog {
    open spec fn log(&self) -> Seq<(MoveKind, usize, usize)> {
        self.moves@
    }

    fn moved(&mut self, kind: MoveKind, from: usize, to: usize) {
        self.moves.push((kind, from, to));
    }
}

/// The moves of one kind, in the order of `to_move`.
pub open spec fn moves_of(kind: MoveKind, map: Seq<u8>, to_move: Seq<u8>) -> Seq<(MoveKind, usize, usize)> {
    Seq::new(to_move.len(), |k: int| (kind, to_move[k] as usize, map[to_move[k] as int] as usize))
}

/// Position `v` through mapping `m`; a value outside the mapping is kept.
pub open spec fn map_index(m: Seq<u8>, v: u8) -> u8 {
    if (v as int) < m.len() {
        m[v as int]
    } else {
        v
    }
}

/// The mapping that sends every index to itself.
pub open spec fn identity_mapping(n: nat) -> Seq<u8> {
    Seq::new(n, |i: int| i as u8)
}

/// Command code `c` (never the empty code) names one of the two commands `a` and `b` in the ordered
/// command-name table `names`.
pub open spec fn names_command(names: Seq<String>, c: u8, a: Seq<char>, b: Seq<char>) -> bool {
    c != EMPTY_BYTE && (c as int) < names.len() && (names[c as int]@ == a || names[c as int]@ == b)
}

pub open spec fn instrument_command_names() -> (Seq<char>, Seq<char>) {
    (seq!['I', 'N', 'S'], seq!['N', 'X', 'T'])
}

pub open spec fn table_command_names() -> (Seq<char>, Seq<char>) {
    (seq!['T', 'B', 'X'], seq!['T', 'B', 'L'])
}

pub open spec fn eq_command_names() -> (Seq<char>, Seq<char>) {
    (seq!['E', 'Q', 'I'], seq!['E', 'Q', 'M'])
}

/// The codes of `names` (its positions) that classify as one of `pair`.
pub open spec fn classifies(codes: Seq<u8>, names: Seq<String>, pair: (Seq<char>, Seq<char>)) -> bool {
    forall|c: u8| #[trigger] codes.contains(c) <==> names_command(names, c, pair.0, pair.1)
}

/// The identity mapping over `n` slots.
fn make_mapping(n: usize) -> (r: Vec<u8>)
    requires
        n <= 256,
    ensures
        r@ == identity_mapping(n as nat),
{
    let mut arr: Vec<u8> = Vec::new();
    let mut i: usize = 0;
    while i < n
        invariant
            i <= n <= 256,
            arr@ == identity_mapping(i as nat),
        decreases n - i,
    {
        arr.push(i as u8);
        i += 1;
        assert(arr@ =~= identity_mapping(i as nat));
    }
    arr
}

/// Positions in `names` of the commands called `first` or `second`; the
/// empty command code is never one of them.
pub fn find_indices(names: &Vec<String>, first: &str, second: &str) -> (r: Vec<u8>)
    requires
        names@.len() <= 256,
    ensures
        forall|c: u8| #[trigger] r@.contains(c) <==> names_command(names@, c, first@, second@),
{
    let a = first.to_owned();
    let b = second.to_owned();
    let mut r: Vec<u8> = Vec::new();
    let mut i: usize = 0;
    while i < names.len()
        invariant
            i <= names@.len() <= 256,
            a@ == first@,
            b@ == second@,
            forall|c: u8|
                #[trigger] r@.contains(c) <==> ((c as int) < i && names_command(names@, c, first@, second@)),
        decreases names.len() - i,
    {
        let ghost before = r@;
        if i < EMPTY_BYTE as usize && (names[i] == a || names[i] == b) {
            r.push(i as u8);
        }
        proof {
            assert forall|c: u8| #[trigger] r@.contains(c) <==> ((c as int) < i + 1 && names_command(
                names@,
                c,
                first@,
                second@,
            )) by {
                if c as int == i as int && names_command(names@, c, first@, second@) {
                    assert(r@[r@.len() - 1] == c);
                }
                if r@.contains(c) && !before.contains(c) {
                    let k = choose|k: int| 0 <= k < r@.len() && r@[k] == c;
                    if k < before.len() {
                        assert(before[k] == c);
                    }
                }
                if before.contains(c) {
                    let k = choose|k: int| 0 <= k < before.len() && before[k] == c;
                    assert(r@[k] == c);
                }
            }
        }
        i += 1;
    }
    r
}

/// `cmds` holds `c`.
pub(crate) fn tracks(cmds: &Vec<u8>, c: u8) -> (r: bool)
    ensures
        r == cmds@.contains(c),
{
    let mut i: usize = 0;
    while i < cmds.len()
        invariant
            i <= cmds@.len(),
            forall|k: int| 0 <= k < i ==> cmds@[k] != c,
        decreases cmds.len() - i,
    {
        if cmds[i] == c {
            assert(cmds@[i as int] == c);
            return true;
        }
        i += 1;
    }
    false
}

/// `mapping[v]`, or `v` itself when it lies outside the mapping.
fn map_value(mapping: &Vec<u8>, v: u8) -> (r: u8)
    ensures
        r == map_index(mapping@, v),
{
    if (v as usize) < mapping.len() {
        mapping[v as usize]
    } else {
        v
    }
}

/// Equalizer placement, and the commands whose value is an equalizer.
pub struct EqMapping {
    /// Command codes that take an equalizer index as value; they depend on
    /// the song's version.
    pub eq_tracking_commands: Vec<u8>,
    /// Destination index of each source equalizer.
    pub mapping: Vec<u8>,
    /// Source equalizers to be copied.
    pub to_move: Vec<u8>,
}

/// Instrument placement, and the commands whose value is an instrument.
pub struct InstrumentMapping {
    pub instrument_tracking_commands: Vec<u8>,
    pub mapping: Vec<u8>,
    pub to_move: Vec<u8>,
}

/// Table placement, and the commands whose value is a table.
pub struct TableMapping {
    pub table_tracking_commands: Vec<u8>,
    pub mapping: Vec<u8>,
    pub to_move: Vec<u8>,
}

/// Phrase placement.
pub struct PhraseMapping {
    pub mapping: Vec<u8>,
    pub to_move: Vec<u8>,
}

/// Chain placement.
pub struct ChainMapping {
    pub mapping: Vec<u8>,
    pub to_move: Vec<u8>,
}

/// Every entry of `to_move` indexes `mapping`.
pub open spec fn moves_in_range(mapping: Seq<u8>, to_move: Seq<u8>) -> bool {
    forall|k: int| 0 <= k < to_move.len() ==> (#[trigger] to_move[k] as int) < mapping.len()
}

/// What a command does to a value: a reference is sent through the mapping of its kind.
pub open spec fn remap_fx(fx: Fx, im: InstrumentMapping, tm: TableMapping, em: EqMapping) -> Fx {
    if im.instrument_tracking_commands@.contains(fx.command) {
        Fx { value: map_index(im.mapping@, fx.value), ..fx }
    } else if tm.table_tracking_commands@.contains(fx.command) {
        Fx { value: map_index(tm.mapping@, fx.value), ..fx }
    } else if em.eq_tracking_commands@.contains(fx.command) {
        Fx { value: map_index(em.mapping@, fx.value), ..fx }
    } else {
        fx
    }
}

pub open spec fn remap_phrase_step(
    st: PhraseStep,
    im: InstrumentMapping,
    tm: TableMapping,
    em: EqMapping,
) -> PhraseStep {
    PhraseStep {
        instrument: map_index(im.mapping@, st.instrument),
        fx1: remap_fx(st.fx1, im, tm, em),
        fx2: remap_fx(st.fx2, im, tm, em),
        fx3: remap_fx(st.fx3, im, tm, em),
        ..st
    }
}

pub open spec fn remap_table_step(
    st: TableStep,
    im: InstrumentMapping,
    tm: TableMapping,
    em: EqMapping,
) -> TableStep {
    TableStep {
        fx1: remap_fx(st.fx1, im, tm, em),
        fx2: remap_fx(st.fx2, im, tm, em),
        fx3: remap_fx(st.fx3, im, tm, em),
        ..st
    }
}

/// A phrase with its instrument column and its reference commands rewritten.
pub open spec fn remap_phrase(
    p: Seq<PhraseStep>,
    im: InstrumentMapping,
    tm: TableMapping,
    em: EqMapping,
) -> Seq<PhraseStep> {
    Seq::new(p.len(), |i: int| remap_phrase_step(p[i], im, tm, em))
}

/// A table with its reference commands rewritten.
pub open spec fn remap_table(
    t: Seq<TableStep>,
    im: InstrumentMapping,
    tm: TableMapping,
    em: EqMapping,
) -> Seq<TableStep> {
    Seq::new(t.len(), |i: int| remap_table_step(t[i], im, tm, em))
}

/// A chain with its phrase column rewritten.
pub open spec fn remap_chain(c: Seq<ChainStep>, pm: PhraseMapping) -> Seq<ChainStep> {
    Seq::new(c.len(), |i: int| ChainStep { phrase: map_index(pm.mapping@, c[i].phrase), ..c[i] })
}

/// An instrument with its equalizer rewritten.
pub open spec fn remap_instrument(i: InstrumentModel, em: EqMapping) -> InstrumentModel {
    match i.equ() {
        Some(e) => if (e as int) < em.mapping@.len() {
            i.with_eq(em.mapping@[e as int])
        } else {
            i
        },
        None => i,
    }
}

fn map_fx(fx: Fx, im: &InstrumentMapping, tm: &TableMapping, em: &EqMapping) -> (r: Fx)
    ensures
        r == remap_fx(fx, *im, *tm, *em),
{
    if tracks(&im.instrument_tracking_commands, fx.command) {
        Fx { command: fx.command, value: map_value(&im.mapping, fx.value) }
    } else if tracks(&tm.table_tracking_commands, fx.command) {
        Fx { command: fx.command, value: map_value(&tm.mapping, fx.value) }
    } else if tracks(&em.eq_tracking_commands, fx.command) {
        Fx { command: fx.command, value: map_value(&em.mapping, fx.value) }
    } else {
        fx
    }
}

impl Phrase {
    /// This phrase with its instrument, table and equalizer references rewritten.
    pub fn map_instruments(&self, im: &InstrumentMapping, tm: &TableMapping, em: &EqMapping) -> (r: Phrase)
        ensures
            r@ == remap_phrase(self@, *im, *tm, *em),
    {
        let mut steps: Vec<PhraseStep> = Vec::new();
        let mut i: usize = 0;
        while i < self.steps.len()
            invariant
                i <= self.steps@.len(),
                steps@ =~= remap_phrase(self@, *im, *tm, *em).subrange(0, i as int),
            decreases self.steps.len() - i,
        {
            let st = self.steps[i];
            steps.push(
                PhraseStep {
                    note: st.note,
                    velocity: st.velocity,
                    instrument: map_value(&im.mapping, st.instrument),
                    fx1: map_fx(st.fx1, im, tm, em),
                    fx2: map_fx(st.fx2, im, tm, em),
                    fx3: map_fx(st.fx3, im, tm, em),
                },
            );
            i += 1;
        }
        Phrase { steps }
    }
}

impl Table {
    /// This table with its instrument, table and equalizer references rewritten.
    pub fn map_instr(&self, im: &InstrumentMapping, tm: &TableMapping, em: &EqMapping) -> (r: Table)
        ensures
            r@ == remap_table(self@, *im, *tm, *em),
    {
        let mut steps: Vec<TableStep> = Vec::new();
        let mut i: usize = 0;
        while i < self.steps.len()
            invariant
                i <= self.steps@.len(),
                steps@ =~= remap_table(self@, *im, *tm, *em).subrange(0, i as int),
            decreases self.steps.len() - i,
        {
            let st = self.steps[i];
            steps.push(
                TableStep {
                    transpose: st.transpose,
                    velocity: st.velocity,
                    fx1: map_fx(st.fx1, im, tm, em),
                    fx2: map_fx(st.fx2, im, tm, em),
                    fx3: map_fx(st.fx3, im, tm, em),
                },
            );
            i += 1;
        }
        Table { steps }
    }
}

impl Chain {
    /// This chain with its phrase references rewritten.
    pub fn map(&self, pm: &PhraseMapping) -> (r: Chain)
        ensures
            r@ == remap_chain(self@, *pm),
    {
        let mut steps: Vec<ChainStep> = Vec::new();
        let mut i: usize = 0;
        while i < self.steps.len()
            invariant
                i <= self.steps@.len(),
                steps@ =~= remap_chain(self@, *pm).subrange(0, i as int),
            decreases self.steps.len() - i,
        {
            let st = self.steps[i];
            steps.push(ChainStep { phrase: map_value(&pm.mapping, st.phrase), transpose: st.transpose });
            i += 1;
        }
        Chain { steps }
    }
}

impl EqMapping {
    /// The text that `print` returns.
    pub open spec fn print_spec(&self) -> Seq<char> {
        move_lines(seq!['E', 'q'], self.mapping@, self.to_move@, self.to_move@.len() as int)
    }

    /// Nothing placed yet, for a song of version `ver` whose command-name table is `names`.
    pub fn default_ver(ver: Version, names: &Vec<String>) -> (r: EqMapping)
        requires
            names@.len() <= 256,
        ensures
            classifies(r.eq_tracking_commands@, names@, eq_command_names()),
            r.mapping@ == identity_mapping(spec_instrument_eq_count(ver)),
            r.to_move@ == Seq::<u8>::empty(),
    {
        proof {
            reveal_strlit("EQI");
            reveal_strlit("EQM");
            assert("EQI"@ =~= eq_command_names().0);
            assert("EQM"@ =~= eq_command_names().1);
        }
        let eq_tracking_commands = find_indices(names, "EQI", "EQM");
        EqMapping {
            eq_tracking_commands,
            mapping: make_mapping(instrument_eq_count(ver)),
            to_move: Vec::new(),
        }
    }

    /// Hands `builder` one move per entity to be copied, in list order.
    pub fn describe<T: RemapperDescriptorBuilder>(&self, builder: &mut T)
        requires
            moves_in_range(self.mapping@, self.to_move@),
        ensures
            final(builder).log() == old(builder).log() + moves_of(MoveKind::EQ, self.mapping@, self.to_move@),
    {
        let mut k: usize = 0;
        while k < self.to_move.len()
            invariant
                k <= self.to_move@.len(),
                moves_in_range(self.mapping@, self.to_move@),
                builder.log() == old(builder).log() + moves_of(MoveKind::EQ, self.mapping@, self.to_move@.subrange(0, k as int)),
            decreases self.to_move.len() - k,
        {
            let ixu = self.to_move[k] as usize;
            builder.moved(MoveKind::EQ, ixu, self.mapping[ixu] as usize);
            k += 1;
            assert(moves_of(MoveKind::EQ, self.mapping@, self.to_move@.subrange(0, k as int)) =~= moves_of(MoveKind::EQ,
                self.mapping@, self.to_move@.subrange(0, k - 1)).push((MoveKind::EQ, ixu, self.mapping@[ixu as int] as usize)));
        }
        assert(self.to_move@.subrange(0, k as int) =~= self.to_move@);
    }

    /// One line ` Eq <from> => <to>` per entity to be copied.
    pub fn print(&self) -> (r: String)
        requires
            moves_in_range(self.mapping@, self.to_move@),
        ensures
            r@ == self.print_spec(),
    {
        proof {
            reveal_strlit("Eq");
            assert("Eq"@ =~= seq!['E', 'q']);
        }
        print_moves("Eq", &self.mapping, &self.to_move)
    }
}

impl InstrumentMapping {
    /// The text that `print` returns.
    pub open spec fn print_spec(&self) -> Seq<char> {
        move_lines(seq!['i', 'n', 's', 't', 'r'], self.mapping@, self.to_move@, self.to_move@.len() as int)
    }

    /// Nothing placed yet; `instrument_tracking_commands` are the codes whose value is an instrument.
    pub fn new(instrument_tracking_commands: Vec<u8>) -> (r: Self)
        ensures
            r.instrument_tracking_commands@ == instrument_tracking_commands@,
            r.mapping@ == identity_mapping(N_INSTRUMENTS as nat),
            r.to_move@ == Seq::<u8>::empty(),
    {
        Self { instrument_tracking_commands, mapping: make_mapping(N_INSTRUMENTS), to_move: Vec::new() }
    }

    /// Hands `builder` one move per entity to be copied, in list order.
    pub fn describe<T: RemapperDescriptorBuilder>(&self, builder: &mut T)
        requires
            moves_in_range(self.mapping@, self.to_move@),
        ensures
            final(builder).log() == old(builder).log() + moves_of(MoveKind::INS, self.mapping@, self.to_move@),
    {
        let mut k: usize = 0;
        while k < self.to_move.len()
            invariant
                k <= self.to_move@.len(),
                moves_in_range(self.mapping@, self.to_move@),
                builder.log() == old(builder).log() + moves_of(MoveKind::INS, self.mapping@, self.to_move@.subrange(0, k as int)),
            decreases self.to_move.len() - k,
        {
            let ixu = self.to_move[k] as usize;
            builder.moved(MoveKind::INS, ixu, self.mapping[ixu] as usize);
            k += 1;
            assert(moves_of(MoveKind::INS, self.mapping@, self.to_move@.subrange(0, k as int)) =~= moves_of(MoveKind::INS,
                self.mapping@, self.to_move@.subrange(0, k - 1)).push((MoveKind::INS, ixu, self.mapping@[ixu as int] as usize)));
        }
        assert(self.to_move@.subrange(0, k as int) =~= self.to_move@);
    }

    /// One line ` instr <from> => <to>` per entity to be copied.
    pub fn print(&self) -> (r: String)
        requires
            moves_in_range(self.mapping@, self.to_move@),
        ensures
            r@ == self.print_spec(),
    {
        proof {
            reveal_strlit("instr");
            assert("instr"@ =~= seq!['i', 'n', 's', 't', 'r']);
        }
        print_moves("instr", &self.mapping, &self.to_move)
    }
}

impl TableMapping {
    /// The text that `print` returns.
    pub open spec fn print_spec(&self) -> Seq<char> {
        move_lines(seq!['t', 'a', 'b', 'l', 'e'], self.mapping@, self.to_move@, self.to_move@.len() as int)
    }

    /// Nothing placed yet; `table_tracking_commands` are the codes whose value is a table.
    pub fn new(table_tracking_commands: Vec<u8>) -> (r: Self)
        ensures
            r.table_tracking_commands@ == table_tracking_commands@,
            r.mapping@ == identity_mapping(N_TABLES as nat),
            r.to_move@ == Seq::<u8>::empty(),
    {
        Self { table_tracking_commands, mapping: make_mapping(N_TABLES), to_move: Vec::new() }
    }

    /// Places source table `from` at `to` and records it as to be copied.
    pub fn remap_table(&mut self, from: u8, to: u8)
        requires
            (from as int) < old(self).mapping@.len(),
        ensures
            final(self).mapping@ == old(self).mapping@.update(from as int, to),
            final(self).to_move@ == old(self).to_move@.push(from),
            final(self).table_tracking_commands == old(self).table_tracking_commands,
    {
        self.mapping.set(from as usize, to);
        self.to_move.push(from);
    }

    /// Hands `builder` one move per entity to be copied, in list order.
    pub fn describe<T: RemapperDescriptorBuilder>(&self, builder: &mut T)
        requires
            moves_in_range(self.mapping@, self.to_move@),
        ensures
            final(builder).log() == old(builder).log() + moves_of(MoveKind::TBL, self.mapping@, self.to_move@),
    {
        let mut k: usize = 0;
        while k < self.to_move.len()
            invariant
                k <= self.to_move@.len(),
                moves_in_range(self.mapping@, self.to_move@),
                builder.log() == old(builder).log() + moves_of(MoveKind::TBL, self.mapping@, self.to_move@.subrange(0, k as int)),
            decreases self.to_move.len() - k,
        {
            let ixu = self.to_move[k] as usize;
            builder.moved(MoveKind::TBL, ixu, self.mapping[ixu] as usize);
            k += 1;
            assert(moves_of(MoveKind::TBL, self.mapping@, self.to_move@.subrange(0, k as int)) =~= moves_of(MoveKind::TBL,
                self.mapping@, self.to_move@.subrange(0, k - 1)).push((MoveKind::TBL, ixu, self.mapping@[ixu as int] as usize)));
        }
        assert(self.to_move@.subrange(0, k as int) =~= self.to_move@);
    }

    /// One line ` table <from> => <to>` per entity to be copied.
    pub fn print(&self) -> (r: String)
        requires
            moves_in_range(self.mapping@, self.to_move@),
        ensures
            r@ == self.print_spec(),
    {
        proof {
            reveal_strlit("table");
            assert("table"@ =~= seq!['t', 'a', 'b', 'l', 'e']);
        }
        print_moves("table", &self.mapping, &self.to_move)
    }
}

impl Default for PhraseMapping {
    fn default() -> (r: Self)
        ensures
            r.mapping@ == identity_mapping(N_PHRASES as nat),
            r.to_move@ == Seq::<u8>::empty(),
    {
        Self { mapping: make_mapping(N_PHRASES), to_move: Vec::new() }
    }
}

impl PhraseMapping {
    /// The text that `print` returns.
    pub open spec fn print_spec(&self) -> Seq<char> {
        move_lines(seq!['p', 'h', 'r', 'a', 's', 'e'], self.mapping@, self.to_move@, self.to_move@.len() as int)
    }

    /// Hands `builder` one move per entity to be copied, in list order.
    pub fn describe<T: RemapperDescriptorBuilder>(&self, builder: &mut T)
        requires
            moves_in_range(self.mapping@, self.to_move@),
        ensures
            final(builder).log() == old(builder).log() + moves_of(MoveKind::PHR, self.mapping@, self.to_move@),
    {
        let mut k: usize = 0;
        while k < self.to_move.len()
            invariant
                k <= self.to_move@.len(),
                moves_in_range(self.mapping@, self.to_move@),
                builder.log() == old(builder).log() + moves_of(MoveKind::PHR, self.mapping@, self.to_move@.subrange(0, k as int)),
            decreases self.to_move.len() - k,
        {
            let ixu = self.to_move[k] as usize;
            builder.moved(MoveKind::PHR, ixu, self.mapping[ixu] as usize);
            k += 1;
            assert(moves_of(MoveKind::PHR, self.mapping@, self.to_move@.subrange(0, k as int)) =~= moves_of(MoveKind::PHR,
                self.mapping@, self.to_move@.subrange(0, k - 1)).push((MoveKind::PHR, ixu, self.mapping@[ixu as int] as usize)));
        }
        assert(self.to_move@.subrange(0, k as int) =~= self.to_move@);
    }

    /// One line ` phrase <from> => <to>` per entity to be copied.
    pub fn print(&self) -> (r: String)
        requires
            moves_in_range(self.mapping@, self.to_move@),
        ensures
            r@ == self.print_spec(),
    {
        proof {
            reveal_strlit("phrase");
            assert("phrase"@ =~= seq!['p', 'h', 'r', 'a', 's', 'e']);
        }
        print_moves("phrase", &self.mapping, &self.to_move)
    }
}

impl Default for ChainMapping {
    fn default() -> (r: Self)
        ensures
            r.mapping@ == identity_mapping(N_CHAINS as nat),
            r.to_move@ == Seq::<u8>::empty(),
    {
        Self { mapping: make_mapping(N_CHAINS), to_move: Vec::new() }
    }
}

impl ChainMapping {
    /// The text that `print` returns.
    pub open spec fn print_spec(&self) -> Seq<char> {
        move_lines(seq!['c', 'h', 'a', 'i', 'n'], self.mapping@, self.to_move@, self.to_move@.len() as int)
    }

    /// Hands `builder` one move per entity to be copied, in list order.
    pub fn describe<T: RemapperDescriptorBuilder>(&self, builder: &mut T)
        requires
            moves_in_range(self.mapping@, self.to_move@),
        ensures
            final(builder).log() == old(builder).log() + moves_of(MoveKind::CHN, self.mapping@, self.to_move@),
    {
        let mut k: usize = 0;
        while k < self.to_move.len()
            invariant
                k <= self.to_move@.len(),
                moves_in_range(self.mapping@, self.to_move@),
                builder.log() == old(builder).log() + moves_of(MoveKind::CHN, self.mapping@, self.to_move@.subrange(0, k as int)),
            decreases self.to_move.len() - k,
        {
            let ixu = self.to_move[k] as usize;
            builder.moved(MoveKind::CHN, ixu, self.mapping[ixu] as usize);
            k += 1;
            assert(moves_of(MoveKind::CHN, self.mapping@, self.to_move@.subrange(0, k as int)) =~= moves_of(MoveKind::CHN,
                self.mapping@, self.to_move@.subrange(0, k - 1)).push((MoveKind::CHN, ixu, self.mapping@[ixu as int] as usize)));
        }
        assert(self.to_move@.subrange(0, k as int) =~= self.to_move@);
    }

    /// One line ` chain <from> => <to>` per entity to be copied.
    pub fn print(&self) -> (r: String)
        requires
            moves_in_range(self.mapping@, self.to_move@),
        ensures
            r@ == self.print_spec(),
    {
        proof {
            reveal_strlit("chain");
            assert("chain"@ =~= seq!['c', 'h', 'a', 'i', 'n']);
        }
        print_moves("chain", &self.mapping, &self.to_move)
    }
}

} // verus!
