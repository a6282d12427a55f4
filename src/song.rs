//! In-memory model of a decoded song document: five fixed-capacity entity
//! tables tied together by numeric index references.
use vstd::prelude::*;

use crate::version::Version;

verus! {

/// Number of instrument slots (and of tables bound one-to-one to an instrument).
pub const N_INSTRUMENTS: usize = 128;

/// Number of table slots.
pub const N_TABLES: usize = 256;

/// Number of phrase slots.
pub const N_PHRASES: usize = 255;

/// Number of chain slots.
pub const N_CHAINS: usize = 255;

/// Equalizers addressable by instruments on firmware that has one per instrument.
pub const INSTRUMENT_EQ_COUNT_V4_1: usize = 128;

/// Equalizers addressable by instruments on older firmware.
pub const INSTRUMENT_EQ_COUNT_V4: usize = 32;

/// Equalizers kept after the addressable ones for the song's own use.
pub const INTERNAL_EQ_COUNT: usize = 4;

/// Value of an unused command, note or reference byte.
pub const EMPTY_BYTE: u8 = 0xFF;

pub open spec fn spec_instrument_eq_count(v: Version) -> nat {
    if v.major > 4 || (v.major == 4 && v.minor >= 1) {
        INSTRUMENT_EQ_COUNT_V4_1 as nat
    } else {
        INSTRUMENT_EQ_COUNT_V4 as nat
    }
}

/// Number of equalizers that instruments and commands can address in a song of version `v`.
pub fn instrument_eq_count(v: Version) -> (r: usize)
    ensures
        r == spec_instrument_eq_count(v),
{
    if v.at_least(4, 1) {
        INSTRUMENT_EQ_COUNT_V4_1
    } else {
        INSTRUMENT_EQ_COUNT_V4
    }
}

/// One effect command and its argument.
#[derive(PartialEq, Eq, Structural, Clone, Copy, Debug)]
pub struct Fx {
    pub command: u8,
    pub value: u8,
}

impl Fx {
    pub open spec fn empty_spec() -> Fx {
        Fx { command: EMPTY_BYTE, value: 0 }
    }

    pub fn empty() -> (r: Fx)
        ensures
            r == Fx::empty_spec(),
    {
        Fx { command: EMPTY_BYTE, value: 0 }
    }
}

/// One row of a phrase.
#[derive(PartialEq, Eq, Structural, Clone, Copy, Debug)]
pub struct PhraseStep {
    pub note: u8,
    pub velocity: u8,
    pub instrument: u8,
    pub fx1: Fx,
    pub fx2: Fx,
    pub fx3: Fx,
}

impl PhraseStep {
    pub open spec fn empty_spec() -> PhraseStep {
        PhraseStep {
            note: EMPTY_BYTE,
            velocity: EMPTY_BYTE,
            instrument: EMPTY_BYTE,
            fx1: Fx::empty_spec(),
            fx2: Fx::empty_spec(),
            fx3: Fx::empty_spec(),
        }
    }

    pub fn empty() -> (r: PhraseStep)
        ensures
            r == PhraseStep::empty_spec(),
    {
        PhraseStep {
            note: EMPTY_BYTE,
            velocity: EMPTY_BYTE,
            instrument: EMPTY_BYTE,
            fx1: Fx::empty(),
            fx2: Fx::empty(),
            fx3: Fx::empty(),
        }
    }
}

/// One row of a table.
#[derive(PartialEq, Eq, Structural, Clone, Copy, Debug)]
pub struct TableStep {
    pub transpose: u8,
    pub velocity: u8,
    pub fx1: Fx,
    pub fx2: Fx,
    pub fx3: Fx,
}

impl TableStep {
    pub open spec fn empty_spec() -> TableStep {
        TableStep {
            transpose: 0,
            velocity: EMPTY_BYTE,
            fx1: Fx::empty_spec(),
            fx2: Fx::empty_spec(),
            fx3: Fx::empty_spec(),
        }
    }

    pub fn empty() -> (r: TableStep)
        ensures
            r == TableStep::empty_spec(),
    {
        TableStep { transpose: 0, velocity: EMPTY_BYTE, fx1: Fx::empty(), fx2: Fx::empty(), fx3: Fx::empty() }
    }
}

/// One row of a chain: a phrase and the transposition it is played with.
#[derive(PartialEq, Eq, Structural, Clone, Copy, Debug)]
pub struct ChainStep {
    pub phrase: u8,
    pub transpose: u8,
}

impl ChainStep {
    pub open spec fn empty_spec() -> ChainStep {
        ChainStep { phrase: EMPTY_BYTE, transpose: 0 }
    }

    pub fn empty() -> (r: ChainStep)
        ensures
            r == ChainStep::empty_spec(),
    {
        ChainStep { phrase: EMPTY_BYTE, transpose: 0 }
    }
}

/// One band of an equalizer.
#[derive(PartialEq, Eq, Structural, Clone, Copy, Debug)]
pub struct EqBand {
    pub mode: u8,
    pub gain: u8,
    pub frequency: u8,
    pub q: u8,
}

/// A three-band equalizer.
#[derive(PartialEq, Eq, Structural, Clone, Copy, Debug)]
pub struct Equ {
    pub low: EqBand,
    pub mid: EqBand,
    pub high: EqBand,
}

impl Equ {
    pub open spec fn cleared_spec() -> Equ {
        let b = EqBand { mode: 0, gain: 0, frequency: 0, q: 0 };
        Equ { low: b, mid: b, high: b }
    }

    pub fn cleared() -> (r: Equ)
        ensures
            r == Equ::cleared_spec(),
    {
        let b = EqBand { mode: 0, gain: 0, frequency: 0, q: 0 };
        Equ { low: b, mid: b, high: b }
    }
}

/// The synth engine of an instrument slot.
#[derive(PartialEq, Eq, Structural, Clone, Copy, Debug)]
pub enum InstrumentKind {
    Empty,
    WavSynth,
    MacroSynth,
    Sampler,
    MidiOut,
    FmSynth,
    HyperSynth,
    External,
}

/// An instrument: its engine, its name, the equalizer it uses, and the
/// engine-specific parameter bytes.
#[derive(Clone, Debug, PartialEq, Eq)]
pub struct Instrument {
    pub kind: InstrumentKind,
    pub name: String,
    pub associated_eq: u8,
    pub params: Vec<u8>,
}

/// Mathematical value of an [`Instrument`].
pub struct InstrumentModel {
    pub kind: InstrumentKind,
    pub name: Seq<char>,
    pub associated_eq: u8,
    pub params: Seq<u8>,
}

impl View for Instrument {
    type V = InstrumentModel;

    open spec fn view(&self) -> InstrumentModel {
        InstrumentModel {
            kind: self.kind,
            name: self.name@,
            associated_eq: self.associated_eq,
            params: self.params@,
        }
    }
}

impl InstrumentModel {
    /// The equalizer this instrument refers to; empty slots and MIDI outputs have none.
    pub open spec fn equ(self) -> Option<u8> {
        if self.kind == InstrumentKind::Empty || self.kind == InstrumentKind::MidiOut {
            None
        } else {
            Some(self.associated_eq)
        }
    }

    pub open spec fn with_eq(self, eq: u8) -> InstrumentModel {
        InstrumentModel { associated_eq: eq, ..self }
    }

    pub open spec fn empty_spec() -> InstrumentModel {
        InstrumentModel {
            kind: InstrumentKind::Empty,
            name: Seq::empty(),
            associated_eq: 0,
            params: Seq::empty(),
        }
    }
}

impl Instrument {
    /// An empty instrument slot.
    pub fn none() -> (r: Instrument)
        ensures
            r@ == InstrumentModel::empty_spec(),
    {
        Instrument {
            kind: InstrumentKind::Empty,
            name: String::new(),
            associated_eq: 0,
            params: Vec::new(),
        }
    }

    pub fn equ(&self) -> (r: Option<u8>)
        ensures
            r == self@.equ(),
    {
        match self.kind {
            InstrumentKind::Empty | InstrumentKind::MidiOut => None,
            _ => Some(self.associated_eq),
        }
    }

    pub fn set_eq(&mut self, eq: u8)
        ensures
            final(self)@ == old(self)@.with_eq(eq),
    {
        self.associated_eq = eq;
    }

    pub fn is_none(&self) -> (r: bool)
        ensures
            r == (self@.kind == InstrumentKind::Empty),
    {
        match self.kind {
            InstrumentKind::Empty => true,
            _ => false,
        }
    }

    /// A copy of this instrument.
    pub fn duplicate(&self) -> (r: Instrument)
        ensures
            r@ == self@,
    {
        Instrument {
            kind: self.kind,
            name: self.name.clone(),
            associated_eq: self.associated_eq,
            params: self.params.clone(),
        }
    }

    /// Structural equality over every field.
    pub fn same_as(&self, other: &Instrument) -> (r: bool)
        ensures
            r == (self@ == other@),
    {
        let r = self.kind == other.kind && self.name == other.name && self.associated_eq
            == other.associated_eq && self.params == other.params;
        proof {
            if r {
                assert(self.params@ =~= other.params@);
            }
        }
        r
    }
}

/// Equality of two step sequences, element by element.
fn same_phrase_steps(a: &Vec<PhraseStep>, b: &Vec<PhraseStep>) -> (r: bool)
    ensures
        r == (a@ == b@),
{
    if a.len() != b.len() {
        return false;
    }
    let mut i: usize = 0;
    while i < a.len()
        invariant
            a.len() == b.len(),
            i <= a.len(),
            forall|k: int| 0 <= k < i ==> a@[k] == b@[k],
        decreases a.len() - i,
    {
        if a[i] != b[i] {
            return false;
        }
        i += 1;
    }
    assert(a@ =~= b@);
    true
}

/// Equality of two step sequences, element by element.
fn same_chain_steps(a: &Vec<ChainStep>, b: &Vec<ChainStep>) -> (r: bool)
    ensures
        r == (a@ == b@),
{
    if a.len() != b.len() {
        return false;
    }
    let mut i: usize = 0;
    while i < a.len()
        invariant
            a.len() == b.len(),
            i <= a.len(),
            forall|k: int| 0 <= k < i ==> a@[k] == b@[k],
        decreases a.len() - i,
    {
        if a[i] != b[i] {
            return false;
        }
        i += 1;
    }
    assert(a@ =~= b@);
    true
}

/// A phrase: a sequence of note rows.
#[derive(Clone, Debug, PartialEq, Eq)]
pub struct Phrase {
    pub steps: Vec<PhraseStep>,
}

impl View for Phrase {
    type V = Seq<PhraseStep>;

    open spec fn view(&self) -> Seq<PhraseStep> {
        self.steps@
    }
}

/// A table: a sequence of command rows.
#[derive(Clone, Debug, PartialEq, Eq)]
pub struct Table {
    pub steps: Vec<TableStep>,
}

impl View for Table {
    type V = Seq<TableStep>;

    open spec fn view(&self) -> Seq<TableStep> {
        self.steps@
    }
}

/// A chain: a sequence of phrase rows.
#[derive(Clone, Debug, PartialEq, Eq)]
pub struct Chain {
    pub steps: Vec<ChainStep>,
}

impl View for Chain {
    type V = Seq<ChainStep>;

    open spec fn view(&self) -> Seq<ChainStep> {
        self.steps@
    }
}

pub open spec fn phrase_is_empty(p: Seq<PhraseStep>) -> bool {
    forall|i: int| 0 <= i < p.len() ==> p[i] == PhraseStep::empty_spec()
}

pub open spec fn table_is_empty(t: Seq<TableStep>) -> bool {
    forall|i: int| 0 <= i < t.len() ==> t[i] == TableStep::empty_spec()
}

pub open spec fn chain_is_empty(c: Seq<ChainStep>) -> bool {
    forall|i: int| 0 <= i < c.len() ==> c[i] == ChainStep::empty_spec()
}

pub open spec fn cleared_phrase(p: Seq<PhraseStep>) -> Seq<PhraseStep> {
    Seq::new(p.len(), |i: int| PhraseStep::empty_spec())
}

pub open spec fn cleared_table(t: Seq<TableStep>) -> Seq<TableStep> {
    Seq::new(t.len(), |i: int| TableStep::empty_spec())
}

pub open spec fn cleared_chain(c: Seq<ChainStep>) -> Seq<ChainStep> {
    Seq::new(c.len(), |i: int| ChainStep::empty_spec())
}

impl Phrase {
    pub fn duplicate(&self) -> (r: Phrase)
        ensures
            r@ == self@,
    {
        Phrase { steps: self.steps.clone() }
    }

    pub fn same_as(&self, other: &Phrase) -> (r: bool)
        ensures
            r == (self@ == other@),
    {
        same_phrase_steps(&self.steps, &other.steps)
    }

    pub fn is_empty(&self) -> (r: bool)
        ensures
            r == phrase_is_empty(self@),
    {
        let mut i: usize = 0;
        let e = PhraseStep::empty();
        while i < self.steps.len()
            invariant
                i <= self.steps.len(),
                e == PhraseStep::empty_spec(),
                forall|k: int| 0 <= k < i ==> self@[k] == PhraseStep::empty_spec(),
            decreases self.steps.len() - i,
        {
            if self.steps[i] != e {
                return false;
            }
            i += 1;
        }
        true
    }

    /// Every row becomes an empty row; the length is kept.
    pub fn clear(&mut self)
        ensures
            final(self)@ == cleared_phrase(old(self)@),
    {
        let n = self.steps.len();
        let mut steps: Vec<PhraseStep> = Vec::new();
        let mut i: usize = 0;
        while i < n
            invariant
                i <= n,
                steps@.len() == i,
                forall|k: int| 0 <= k < i ==> steps@[k] == PhraseStep::empty_spec(),
            decreases n - i,
        {
            steps.push(PhraseStep::empty());
            i += 1;
        }
        self.steps = steps;
        assert(self@ =~= cleared_phrase(old(self)@));
    }
}

impl Table {
    pub fn duplicate(&self) -> (r: Table)
        ensures
            r@ == self@,
    {
        Table { steps: self.steps.clone() }
    }

    pub fn is_empty(&self) -> (r: bool)
        ensures
            r == table_is_empty(self@),
    {
        let mut i: usize = 0;
        let e = TableStep::empty();
        while i < self.steps.len()
            invariant
                i <= self.steps.len(),
                e == TableStep::empty_spec(),
                forall|k: int| 0 <= k < i ==> self@[k] == TableStep::empty_spec(),
            decreases self.steps.len() - i,
        {
            if self.steps[i] != e {
                return false;
            }
            i += 1;
        }
        true
    }

    /// Every row becomes an empty row; the length is kept.
    pub fn clear(&mut self)
        ensures
            final(self)@ == cleared_table(old(self)@),
    {
        let n = self.steps.len();
        let mut steps: Vec<TableStep> = Vec::new();
        let mut i: usize = 0;
        while i < n
            invariant
                i <= n,
                steps@.len() == i,
                forall|k: int| 0 <= k < i ==> steps@[k] == TableStep::empty_spec(),
            decreases n - i,
        {
            steps.push(TableStep::empty());
            i += 1;
        }
        self.steps = steps;
        assert(self@ =~= cleared_table(old(self)@));
    }
}

impl Chain {
    pub fn duplicate(&self) -> (r: Chain)
        ensures
            r@ == self@,
    {
        Chain { steps: self.steps.clone() }
    }

    pub fn same_as(&self, other: &Chain) -> (r: bool)
        ensures
            r == (self@ == other@),
    {
        same_chain_steps(&self.steps, &other.steps)
    }

    pub fn is_empty(&self) -> (r: bool)
        ensures
            r == chain_is_empty(self@),
    {
        let mut i: usize = 0;
        let e = ChainStep::empty();
        while i < self.steps.len()
            invariant
                i <= self.steps.len(),
                e == ChainStep::empty_spec(),
                forall|k: int| 0 <= k < i ==> self@[k] == ChainStep::empty_spec(),
            decreases self.steps.len() - i,
        {
            if self.steps[i] != e {
                return false;
            }
            i += 1;
        }
        true
    }

    /// Every row becomes an empty row; the length is kept.
    pub fn clear(&mut self)
        ensures
            final(self)@ == cleared_chain(old(self)@),
    {
        let n = self.steps.len();
        let mut steps: Vec<ChainStep> = Vec::new();
        let mut i: usize = 0;
        while i < n
            invariant
                i <= n,
                steps@.len() == i,
                forall|k: int| 0 <= k < i ==> steps@[k] == ChainStep::empty_spec(),
            decreases n - i,
        {
            steps.push(ChainStep::empty());
            i += 1;
        }
        self.steps = steps;
        assert(self@ =~= cleared_chain(old(self)@));
    }
}

/// A decoded song document.
#[derive(Clone, Debug, PartialEq, Eq)]
pub struct Song {
    pub version: Version,
    /// Play order: chain indices, `EMPTY_BYTE` where a row is unused.
    pub sequence: Vec<u8>,
    pub eqs: Vec<Equ>,
    pub instruments: Vec<Instrument>,
    pub tables: Vec<Table>,
    pub phrases: Vec<Phrase>,
    pub chains: Vec<Chain>,
}

/// Mathematical value of a [`Song`].
pub struct SongModel {
    pub version: Version,
    pub sequence: Seq<u8>,
    pub eqs: Seq<Equ>,
    pub instruments: Seq<InstrumentModel>,
    pub tables: Seq<Seq<TableStep>>,
    pub phrases: Seq<Seq<PhraseStep>>,
    pub chains: Seq<Seq<ChainStep>>,
}

impl View for Song {
    type V = SongModel;

    open spec fn view(&self) -> SongModel {
        SongModel {
            version: self.version,
            sequence: self.sequence@,
            eqs: self.eqs@,
            instruments: self.instruments@.map_values(|i: Instrument| i@),
            tables: self.tables@.map_values(|t: Table| t@),
            phrases: self.phrases@.map_values(|p: Phrase| p@),
            chains: self.chains@.map_values(|c: Chain| c@),
        }
    }
}

impl SongModel {
    /// Every table has the capacity that the format fixes.
    pub open spec fn wf(self) -> bool {
        &&& self.eqs.len() == spec_instrument_eq_count(self.version) + INTERNAL_EQ_COUNT
        &&& self.instruments.len() == N_INSTRUMENTS
        &&& self.tables.len() == N_TABLES
        &&& self.phrases.len() == N_PHRASES
        &&& self.chains.len() == N_CHAINS
    }
}

impl Song {
    /// Number of equalizers held by the song, the internal ones included.
    pub fn eq_count(&self) -> (r: usize)
        ensures
            r == self.eqs@.len(),
    {
        self.eqs.len()
    }
}

} // verus!
