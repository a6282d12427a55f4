//! Discovery of the equalizers, instruments and tables that a selection of
//! phrases reaches, and their placement in the destination song.
use vstd::prelude::*;

use crate::mapping::{
    identity_mapping, remap_instrument, tracks, AllocationError, EqMapping, InstrumentMapping,
    MoveKind, TableMapping,
};
use crate::placement::{
    accounted, copy_slot, copy_slots, count_true, lemma_account_new, lemma_accounted_frame,
    lemma_bound, lemma_exhausted, lemma_policy_frame, lemma_policy_new, lemma_no_room,
    lemma_place, lemma_push_contains, lemma_reuse, lemma_taken_by_step, lemma_unseen_count,
    lemma_unseen_mark, placement_inv, policy_placed, policy_slot, taken_by, unseen,
};
use crate::slots::{
    chain_occupancy, empty_destination, eq_occupancy, find_allocated_instruments,
    find_allocated_tables, find_referenced_eq, instrument_occupancy, is_backward_slot,
    is_forward_slot, phrase_occupancy, table_occupancy, try_allocate, try_allocate_rev,
};
use crate::remapper::{is_root_row, root_row};
use crate::song::{
    instrument_eq_count, spec_instrument_eq_count, Equ, Fx, Instrument, InstrumentModel, N_CHAINS,
    N_INSTRUMENTS, N_PHRASES, N_TABLES, PhraseStep, Song, SongModel, TableStep,
};

verus! {

/// The equalizer of instrument `m`, when it is in range, is processed.
pub open spec fn eq_ref_processed(m: InstrumentModel, eq_flags: Seq<bool>) -> bool {
    match m.equ() {
        Some(e) => (e as int) < eq_flags.len() ==> eq_flags[e as int],
        None => true,
    }
}

/// Equalizer `e` is accounted for among the addressable equalizers of the
/// destination that some instrument uses; or it was given the slot of its
/// own number (that of the instrument it belongs to), and is copied there.
pub open spec fn eq_accounted(from: SongModel, to: SongModel, map: Seq<u8>, to_move: Seq<u8>, e: int) -> bool {
    let n = spec_instrument_eq_count(to.version);
    ||| accounted(to.eqs.subrange(0, n as int), from.eqs[e], map, to_move, e)
    ||| (to_move.contains(e as u8) && map[e] == e as u8)
}

/// Command `fx` refers only to entities of the sets `fi`, `ft`, `fe`, as far
/// as the command codes `ic`, `tc`, `ec` make it a reference.
pub open spec fn refs_in(ic: Seq<u8>, tc: Seq<u8>, ec: Seq<u8>, fx: Fx, fi: Seq<bool>, ft: Seq<bool>, fe: Seq<bool>) -> bool {
    &&& (ic.contains(fx.command) && (fx.value as int) < N_INSTRUMENTS) ==> fi[fx.value as int]
    &&& (tc.contains(fx.command) && (fx.value as int) < N_TABLES) ==> ft[fx.value as int]
    &&& (ec.contains(fx.command) && (fx.value as int) < fe.len()) ==> fe[fx.value as int]
}

/// Phrase row `st` refers only to entities of the sets.
pub open spec fn row_refs_in(ic: Seq<u8>, tc: Seq<u8>, ec: Seq<u8>, st: PhraseStep, fi: Seq<bool>, ft: Seq<bool>, fe: Seq<bool>) -> bool {
    &&& (st.instrument as int) < N_INSTRUMENTS ==> fi[st.instrument as int]
    &&& refs_in(ic, tc, ec, st.fx1, fi, ft, fe)
    &&& refs_in(ic, tc, ec, st.fx2, fi, ft, fe)
    &&& refs_in(ic, tc, ec, st.fx3, fi, ft, fe)
}

/// The sets `fi`, `ft`, `fe` of instruments, tables and equalizers of `from`
/// hold what the phrases of the root chains refer to, and are closed under
/// references: an instrument brings its table and its equalizer, a table the
/// targets of its commands.
pub open spec fn closed_under(
    from: SongModel,
    roots: Seq<u8>,
    ic: Seq<u8>,
    tc: Seq<u8>,
    ec: Seq<u8>,
    fi: Seq<bool>,
    ft: Seq<bool>,
    fe: Seq<bool>,
) -> bool {
    &&& fi.len() == N_INSTRUMENTS
    &&& ft.len() == N_TABLES
    &&& fe.len() == spec_instrument_eq_count(from.version)
    &&& forall|k: int, s: int, q: int| is_root_row(from, roots, k, s, q)
        ==> row_refs_in(ic, tc, ec, #[trigger] root_row(from, roots, k, s, q), fi, ft, fe)
    &&& forall|i: int| 0 <= i < N_INSTRUMENTS && #[trigger] fi[i] ==> ft[i] && eq_ref_processed(from.instruments[i], fe)
    &&& forall|t: int, q: int| 0 <= t < N_TABLES && ft[t] && 0 <= q < from.tables[t].len()
        ==> refs_in(ic, tc, ec, #[trigger] from.tables[t][q].fx1, fi, ft, fe)
            && refs_in(ic, tc, ec, from.tables[t][q].fx2, fi, ft, fe) && refs_in(ic, tc, ec, from.tables[t][q].fx3, fi, ft, fe)
}

/// Instrument `i` lies in every set closed under references: the roots reach it.
pub open spec fn must_instrument(from: SongModel, roots: Seq<u8>, ic: Seq<u8>, tc: Seq<u8>, ec: Seq<u8>, i: int) -> bool {
    forall|fi: Seq<bool>, ft: Seq<bool>, fe: Seq<bool>| #[trigger] closed_under(from, roots, ic, tc, ec, fi, ft, fe) ==> fi[i]
}

/// Table `t` lies in every set closed under references.
pub open spec fn must_table(from: SongModel, roots: Seq<u8>, ic: Seq<u8>, tc: Seq<u8>, ec: Seq<u8>, t: int) -> bool {
    forall|fi: Seq<bool>, ft: Seq<bool>, fe: Seq<bool>| #[trigger] closed_under(from, roots, ic, tc, ec, fi, ft, fe) ==> ft[t]
}

/// Equalizer `e` lies in every set closed under references.
pub open spec fn must_eq(from: SongModel, roots: Seq<u8>, ic: Seq<u8>, tc: Seq<u8>, ec: Seq<u8>, e: int) -> bool {
    forall|fi: Seq<bool>, ft: Seq<bool>, fe: Seq<bool>| #[trigger] closed_under(from, roots, ic, tc, ec, fi, ft, fe) ==> fe[e]
}

/// Command `fx` refers only to what every closed set holds.
pub open spec fn must_fx(from: SongModel, roots: Seq<u8>, ic: Seq<u8>, tc: Seq<u8>, ec: Seq<u8>, fx: Fx) -> bool {
    forall|fi: Seq<bool>, ft: Seq<bool>, fe: Seq<bool>| #[trigger] closed_under(from, roots, ic, tc, ec, fi, ft, fe)
        ==> refs_in(ic, tc, ec, fx, fi, ft, fe)
}

/// Phrase row `st` refers only to what every closed set holds.
pub open spec fn must_row(from: SongModel, roots: Seq<u8>, ic: Seq<u8>, tc: Seq<u8>, ec: Seq<u8>, st: PhraseStep) -> bool {
    forall|fi: Seq<bool>, ft: Seq<bool>, fe: Seq<bool>| #[trigger] closed_under(from, roots, ic, tc, ec, fi, ft, fe)
        ==> row_refs_in(ic, tc, ec, st, fi, ft, fe)
}

/// Phrase `p` is played by some row of a root chain.
pub open spec fn phrase_played(from: SongModel, roots: Seq<u8>, p: int) -> bool {
    exists|k: int, s: int| 0 <= k < roots.len() && roots[k] < N_CHAINS && 0 <= s < from.chains[roots[k] as int].len()
        && #[trigger] from.chains[roots[k] as int][s].phrase == p
}

/// Which equalizers the roots reach.
pub open spec fn reached_eqs(from: SongModel, roots: Seq<u8>, ic: Seq<u8>, tc: Seq<u8>, ec: Seq<u8>) -> Seq<bool> {
    Seq::new(spec_instrument_eq_count(from.version), |j: int| must_eq(from, roots, ic, tc, ec, j))
}

/// Which instruments the roots reach.
pub open spec fn reached_instruments(from: SongModel, roots: Seq<u8>, ic: Seq<u8>, tc: Seq<u8>, ec: Seq<u8>) -> Seq<bool> {
    Seq::new(N_INSTRUMENTS as nat, |j: int| must_instrument(from, roots, ic, tc, ec, j))
}

/// Which tables the roots reach.
pub open spec fn reached_tables(from: SongModel, roots: Seq<u8>, ic: Seq<u8>, tc: Seq<u8>, ec: Seq<u8>) -> Seq<bool> {
    Seq::new(N_TABLES as nat, |t: int| must_table(from, roots, ic, tc, ec, t))
}

/// Which tables not bound to an instrument the roots reach (index 0 stands
/// for the first such table).
pub open spec fn reached_free_tables(from: SongModel, roots: Seq<u8>, ic: Seq<u8>, tc: Seq<u8>, ec: Seq<u8>) -> Seq<bool> {
    Seq::new((N_TABLES - N_INSTRUMENTS) as nat, |j: int| must_table(from, roots, ic, tc, ec, N_INSTRUMENTS + j))
}

/// Which phrases the root chains play.
pub open spec fn played_phrases(from: SongModel, roots: Seq<u8>) -> Seq<bool> {
    Seq::new(N_PHRASES as nat, |p: int| phrase_played(from, roots, p))
}

/// Which chains are roots.
pub open spec fn root_chains(roots: Seq<u8>) -> Seq<bool> {
    Seq::new(N_CHAINS as nat, |c: int| roots.contains(c as u8))
}

/// Error `e` is owed: the kind it names ran out of slots. The entity it
/// names is one the roots reach, and the destination had fewer free slots of
/// that kind than there are entities of that kind that the roots reach.
pub open spec fn exhausted(from: SongModel, to: SongModel, roots: Seq<u8>, ic: Seq<u8>, tc: Seq<u8>, ec: Seq<u8>, e: AllocationError) -> bool {
    match e.kind {
        MoveKind::EQ => e.index < spec_instrument_eq_count(from.version) && must_eq(from, roots, ic, tc, ec, e.index as int)
            && unseen(eq_occupancy(to, spec_instrument_eq_count(to.version))) < count_true(reached_eqs(from, roots, ic, tc, ec)),
        MoveKind::INS => e.index < N_INSTRUMENTS && must_instrument(from, roots, ic, tc, ec, e.index as int)
            && unseen(instrument_occupancy(to)) < count_true(reached_instruments(from, roots, ic, tc, ec)),
        MoveKind::TBL => N_INSTRUMENTS <= e.index < N_TABLES && must_table(from, roots, ic, tc, ec, e.index as int)
            && unseen(table_occupancy(to)) < count_true(reached_free_tables(from, roots, ic, tc, ec)),
        MoveKind::PHR => e.index < N_PHRASES && phrase_played(from, roots, e.index as int)
            && unseen(phrase_occupancy(to)) < count_true(played_phrases(from, roots)),
        MoveKind::CHN => e.index < N_CHAINS && roots.contains(e.index as u8)
            && unseen(chain_occupancy(to)) < count_true(root_chains(roots)),
    }
}

/// Slot `m` is the one the equalizer policy picks for source equalizer `e`:
/// its own number when it stands for the instrument of that number and both
/// slots are free; else the first addressable equalizer of the destination
/// that is equal and receives no copy; else the free slot with the highest
/// index.
pub open spec fn chosen_eq_slot(st: InstrumentAllocatorState, from: SongModel, to: SongModel, e: int, aligned: bool, m: int) -> bool {
    let n = st.allocated_eqs@.len();
    let map = st.eq_mapping.mapping@;
    let tm = st.eq_mapping.to_move@;
    if aligned && e < n && !st.allocated_eqs@[e] && !st.allocated_instruments@[e] {
        m == e
    } else if exists|j: int| 0 <= j < n && #[trigger] to.eqs[j] == from.eqs[e] && !copy_slot(map, tm, j) {
        0 <= m < n && to.eqs[m] == from.eqs[e] && !copy_slot(map, tm, m) && forall|j: int| 0 <= j < m
            && #[trigger] to.eqs[j] == from.eqs[e] ==> copy_slot(map, tm, j)
    } else {
        is_backward_slot(st.allocated_eqs@, m)
    }
}

/// Transient state of one discovery pass.
pub struct InstrumentAllocatorState {
    /// Instruments on the recursion stack (cycle guard).
    pub seen_instruments: Vec<bool>,
    /// Tables on the recursion stack (cycle guard).
    pub seen_tables: Vec<bool>,
    /// Source instruments already processed.
    pub instrument_flags: Vec<bool>,
    /// Source tables already processed.
    pub table_flags: Vec<bool>,
    /// Source equalizers already processed.
    pub eq_flags: Vec<bool>,
    /// Destination equalizer slots taken.
    pub allocated_eqs: Vec<bool>,
    /// Destination table slots taken.
    pub allocated_tables: Vec<bool>,
    /// Destination instrument slots taken.
    pub allocated_instruments: Vec<bool>,
    pub instrument_mapping: InstrumentMapping,
    pub eq_mapping: EqMapping,
    pub table_mapping: TableMapping,
    /// The root chains of the pass.
    pub roots: Ghost<Seq<u8>>,
}

impl InstrumentAllocatorState {
    /// The state is sound for a pass from `from` towards `to`: sizes, the
    /// recursion guards, the placement of each kind, closure under references
    /// and the account of every processed entity.
    pub open spec fn wf(&self, from: SongModel, to: SongModel) -> bool {
        &&& from.wf()
        &&& to.wf()
        &&& self.seen_instruments@.len() == N_INSTRUMENTS
        &&& self.seen_tables@.len() == N_TABLES
        &&& self.instrument_flags@.len() == N_INSTRUMENTS
        &&& self.table_flags@.len() == N_TABLES
        &&& self.eq_flags@.len() == spec_instrument_eq_count(from.version)
        &&& self.instrument_mapping.mapping@.len() == N_INSTRUMENTS
        &&& self.table_mapping.mapping@.len() == N_TABLES
        &&& forall|i: int| 0 <= i < N_INSTRUMENTS && #[trigger] self.seen_instruments@[i] ==> !self.instrument_flags@[i]
        &&& forall|i: int| 0 <= i < N_TABLES && #[trigger] self.seen_tables@[i] ==> !self.table_flags@[i]
        &&& forall|k: int| 0 <= k < self.table_mapping.to_move@.len() ==> #[trigger] self.table_mapping.to_move@[k] >= N_INSTRUMENTS
        &&& placement_inv(
            self.allocated_eqs@,
            eq_occupancy(to, spec_instrument_eq_count(to.version)),
            self.eq_mapping.mapping@,
            self.eq_mapping.to_move@,
            self.eq_flags@,
            0,
        )
        &&& placement_inv(
            self.allocated_instruments@,
            instrument_occupancy(to),
            self.instrument_mapping.mapping@,
            self.instrument_mapping.to_move@,
            self.instrument_flags@,
            0,
        )
        &&& placement_inv(
            self.allocated_tables@,
            table_occupancy(to),
            self.table_mapping.mapping@,
            self.table_mapping.to_move@,
            self.table_flags@,
            N_INSTRUMENTS as int,
        )
        &&& self.closed(from)
        &&& self.accounts(from, to)
        &&& self.reached(from)
        &&& self.untouched_identity()
        &&& self.placed_forward(to)
    }

    /// Every taken slot is taken by the plan; every copied instrument and
    /// table got the slot that the forward policy picks, every copied
    /// equalizer the one the backward policy (or the aligned choice) picks.
    pub open spec fn placed_forward(&self, to: SongModel) -> bool {
        &&& forall|j: int| 0 <= j < N_INSTRUMENTS && #[trigger] self.allocated_instruments@[j]
            ==> taken_by(instrument_occupancy(to), self.instrument_mapping.mapping@, self.instrument_flags@, j)
        &&& forall|q: int| 0 <= q < self.instrument_mapping.to_move@.len() ==> #[trigger] policy_placed(
            instrument_occupancy(to), self.instrument_mapping.mapping@, self.instrument_mapping.to_move@, self.instrument_flags@, q, false)
        &&& forall|j: int| 0 <= j < self.allocated_eqs@.len() && #[trigger] self.allocated_eqs@[j]
            ==> taken_by(eq_occupancy(to, spec_instrument_eq_count(to.version)), self.eq_mapping.mapping@, self.eq_flags@, j)
        &&& forall|q: int| 0 <= q < self.eq_mapping.to_move@.len() ==> #[trigger] policy_placed(
            eq_occupancy(to, spec_instrument_eq_count(to.version)), self.eq_mapping.mapping@, self.eq_mapping.to_move@,
            self.eq_flags@, q, true)
        &&& forall|j: int| 0 <= j < N_TABLES && #[trigger] self.allocated_tables@[j]
            ==> taken_by(table_occupancy(to), self.table_mapping.mapping@, self.table_flags@, j)
        &&& forall|q: int| 0 <= q < self.table_mapping.to_move@.len() ==> #[trigger] policy_placed(
            table_occupancy(to), self.table_mapping.mapping@, self.table_mapping.to_move@, self.table_flags@, q, false)
    }

    /// Entities not processed keep their own index.
    pub open spec fn untouched_identity(&self) -> bool {
        &&& forall|i: int| 0 <= i < N_INSTRUMENTS && !#[trigger] self.instrument_flags@[i]
            ==> self.instrument_mapping.mapping@[i] == i as u8
        &&& forall|t: int| 0 <= t < N_TABLES && !#[trigger] self.table_flags@[t] ==> self.table_mapping.mapping@[t] == t as u8
        &&& forall|e: int| 0 <= e < self.eq_flags@.len() && !#[trigger] self.eq_flags@[e] ==> self.eq_mapping.mapping@[e] == e as u8
    }

    /// Instrument `i` is reached from the roots of this pass.
    pub open spec fn must_i(&self, from: SongModel, i: int) -> bool {
        must_instrument(from, self.roots@, self.instrument_mapping.instrument_tracking_commands@,
            self.table_mapping.table_tracking_commands@, self.eq_mapping.eq_tracking_commands@, i)
    }

    /// Table `t` is reached from the roots of this pass.
    pub open spec fn must_t(&self, from: SongModel, t: int) -> bool {
        must_table(from, self.roots@, self.instrument_mapping.instrument_tracking_commands@,
            self.table_mapping.table_tracking_commands@, self.eq_mapping.eq_tracking_commands@, t)
    }

    /// Equalizer `e` is reached from the roots of this pass.
    pub open spec fn must_e(&self, from: SongModel, e: int) -> bool {
        must_eq(from, self.roots@, self.instrument_mapping.instrument_tracking_commands@,
            self.table_mapping.table_tracking_commands@, self.eq_mapping.eq_tracking_commands@, e)
    }

    /// What command `fx` refers to is reached from the roots of this pass.
    pub open spec fn must_f(&self, from: SongModel, fx: Fx) -> bool {
        must_fx(from, self.roots@, self.instrument_mapping.instrument_tracking_commands@,
            self.table_mapping.table_tracking_commands@, self.eq_mapping.eq_tracking_commands@, fx)
    }

    /// What phrase row `st` refers to is reached from the roots of this pass.
    pub open spec fn must_r(&self, from: SongModel, st: PhraseStep) -> bool {
        must_row(from, self.roots@, self.instrument_mapping.instrument_tracking_commands@,
            self.table_mapping.table_tracking_commands@, self.eq_mapping.eq_tracking_commands@, st)
    }

    /// Error `e` is owed for this pass.
    pub open spec fn owes(&self, from: SongModel, to: SongModel, e: AllocationError) -> bool {
        &&& (e.kind == MoveKind::EQ || e.kind == MoveKind::INS || e.kind == MoveKind::TBL)
        &&& exhausted(from, to, self.roots@, self.instrument_mapping.instrument_tracking_commands@,
            self.table_mapping.table_tracking_commands@, self.eq_mapping.eq_tracking_commands@, e)
    }

    /// Every processed entity is reached from the roots.
    pub open spec fn reached(&self, from: SongModel) -> bool {
        &&& forall|i: int| 0 <= i < N_INSTRUMENTS && #[trigger] self.instrument_flags@[i] ==> self.must_i(from, i)
        &&& forall|t: int| 0 <= t < N_TABLES && #[trigger] self.table_flags@[t] ==> self.must_t(from, t)
        &&& forall|e: int| 0 <= e < self.eq_flags@.len() && #[trigger] self.eq_flags@[e] ==> self.must_e(from, e)
    }

    /// A reference command's target is processed or on the recursion stack.
    pub open spec fn covers_fx(&self, fx: Fx) -> bool {
        &&& (self.instrument_mapping.instrument_tracking_commands@.contains(fx.command) && (fx.value as int) < N_INSTRUMENTS)
            ==> (self.instrument_flags@[fx.value as int] || self.seen_instruments@[fx.value as int])
        &&& (self.table_mapping.table_tracking_commands@.contains(fx.command) && (fx.value as int) < N_TABLES)
            ==> (self.table_flags@[fx.value as int] || self.seen_tables@[fx.value as int])
        &&& (self.eq_mapping.eq_tracking_commands@.contains(fx.command) && (fx.value as int) < self.eq_flags@.len())
            ==> self.eq_flags@[fx.value as int]
    }

    /// The instrument column and the commands of phrase row `st` are covered.
    pub open spec fn covers_step(&self, st: PhraseStep) -> bool {
        &&& (st.instrument as int) < N_INSTRUMENTS ==> (self.instrument_flags@[st.instrument as int]
            || self.seen_instruments@[st.instrument as int])
        &&& self.covers_fx(st.fx1)
        &&& self.covers_fx(st.fx2)
        &&& self.covers_fx(st.fx3)
    }

    /// Every command of the first `n` rows of `t` is covered.
    pub open spec fn covers_rows(&self, t: Seq<TableStep>, n: int) -> bool {
        forall|q: int| 0 <= q < n ==> self.covers_fx(#[trigger] t[q].fx1) && self.covers_fx(t[q].fx2) && self.covers_fx(t[q].fx3)
    }

    /// Every command of table `t` is covered.
    pub open spec fn covers_table(&self, t: Seq<TableStep>) -> bool {
        forall|q: int| 0 <= q < t.len() ==> self.covers_fx(#[trigger] t[q].fx1) && self.covers_fx(t[q].fx2) && self.covers_fx(t[q].fx3)
    }

    /// What a processed instrument or table refers to is processed, or on
    /// the recursion stack.
    pub open spec fn closed(&self, from: SongModel) -> bool {
        &&& forall|i: int| 0 <= i < N_INSTRUMENTS && #[trigger] self.instrument_flags@[i] ==> {
            &&& (self.table_flags@[i] || self.seen_tables@[i])
            &&& eq_ref_processed(from.instruments[i], self.eq_flags@)
        }
        &&& forall|t: int| 0 <= t < N_TABLES && #[trigger] self.table_flags@[t] ==> self.covers_table(from.tables[t])
    }

    /// Every processed entity is accounted for: an instrument is copied or
    /// found equal (its equalizer rewritten) in the destination, an equalizer
    /// is copied or found equal, a free-standing table is copied.
    pub open spec fn accounts(&self, from: SongModel, to: SongModel) -> bool {
        &&& forall|i: int| 0 <= i < N_INSTRUMENTS && #[trigger] self.instrument_flags@[i] ==> accounted(
            to.instruments,
            remap_instrument(from.instruments[i], self.eq_mapping),
            self.instrument_mapping.mapping@,
            self.instrument_mapping.to_move@,
            i,
        )
        &&& forall|e: int| 0 <= e < self.eq_flags@.len() && #[trigger] self.eq_flags@[e] ==> eq_accounted(
            from, to, self.eq_mapping.mapping@, self.eq_mapping.to_move@, e)
        &&& forall|t: int| N_INSTRUMENTS <= t < N_TABLES && #[trigger] self.table_flags@[t]
            ==> self.table_mapping.to_move@.contains(t as u8)
    }

    /// Processed entities stay processed and keep their slots; what is to be
    /// copied stays so.
    pub open spec fn grows_from(&self, other: &Self) -> bool {
        &&& forall|i: int| 0 <= i < N_INSTRUMENTS && #[trigger] other.instrument_flags@[i] ==> self.instrument_flags@[i]
            && self.instrument_mapping.mapping@[i] == other.instrument_mapping.mapping@[i]
        &&& forall|t: int| 0 <= t < N_TABLES && #[trigger] other.table_flags@[t] ==> self.table_flags@[t]
            && self.table_mapping.mapping@[t] == other.table_mapping.mapping@[t]
        &&& forall|e: int| 0 <= e < other.eq_flags@.len() && #[trigger] other.eq_flags@[e] ==> self.eq_flags@[e]
            && self.eq_mapping.mapping@[e] == other.eq_mapping.mapping@[e]
        &&& forall|x: u8| #[trigger] other.instrument_mapping.to_move@.contains(x) ==> self.instrument_mapping.to_move@.contains(x)
        &&& forall|x: u8| #[trigger] other.table_mapping.to_move@.contains(x) ==> self.table_mapping.to_move@.contains(x)
        &&& forall|x: u8| #[trigger] other.eq_mapping.to_move@.contains(x) ==> self.eq_mapping.to_move@.contains(x)
    }

    /// The command classification does not change during a pass.
    pub open spec fn same_commands(&self, other: &Self) -> bool {
        &&& self.instrument_mapping.instrument_tracking_commands@ == other.instrument_mapping.instrument_tracking_commands@
        &&& self.table_mapping.table_tracking_commands@ == other.table_mapping.table_tracking_commands@
        &&& self.eq_mapping.eq_tracking_commands@ == other.eq_mapping.eq_tracking_commands@
        &&& self.roots == other.roots
    }

    /// What a successful step leaves as it found it: the recursion guards and the commands.
    pub open spec fn restores(&self, other: &Self) -> bool {
        &&& self.same_commands(other)
        &&& self.seen_instruments@ == other.seen_instruments@
        &&& self.seen_tables@ == other.seen_tables@
    }

    pub open spec fn measure(&self) -> nat {
        unseen(self.seen_instruments@) + unseen(self.seen_tables@)
    }

    /// A pass over `from` towards `to`, with nothing placed yet.
    pub fn new(
        from_song: &Song,
        to_song: &Song,
        roots: &Vec<u8>,
        instrument_mapping: InstrumentMapping,
        table_mapping: TableMapping,
        eq_mapping: EqMapping,
    ) -> (r: InstrumentAllocatorState)
        requires
            from_song@.wf(),
            to_song@.wf(),
            instrument_mapping.mapping@.len() == N_INSTRUMENTS,
            instrument_mapping.to_move@.len() == 0,
            table_mapping.mapping@.len() == N_TABLES,
            table_mapping.to_move@.len() == 0,
            eq_mapping.mapping@.len() == spec_instrument_eq_count(from_song@.version),
            eq_mapping.to_move@.len() == 0,
            instrument_mapping.mapping@ == identity_mapping(N_INSTRUMENTS as nat),
            table_mapping.mapping@ == identity_mapping(N_TABLES as nat),
            eq_mapping.mapping@ == identity_mapping(spec_instrument_eq_count(from_song@.version)),
        ensures
            r.wf(from_song@, to_song@),
            r.instrument_mapping == instrument_mapping,
            r.table_mapping == table_mapping,
            r.eq_mapping == eq_mapping,
            forall|i: int| 0 <= i < N_INSTRUMENTS ==> !#[trigger] r.seen_instruments@[i],
            forall|i: int| 0 <= i < N_TABLES ==> !#[trigger] r.seen_tables@[i],
            forall|i: int| 0 <= i < N_INSTRUMENTS ==> !#[trigger] r.instrument_flags@[i],
            forall|i: int| 0 <= i < N_TABLES ==> !#[trigger] r.table_flags@[i],
            forall|i: int| 0 <= i < r.eq_flags@.len() ==> !#[trigger] r.eq_flags@[i],
            r.roots@ == roots@,
    {
        let n_eq_to = instrument_eq_count(to_song.version);
        let n_eq_from = instrument_eq_count(from_song.version);
        let r = InstrumentAllocatorState {
            seen_instruments: vec![false; N_INSTRUMENTS],
            seen_tables: vec![false; N_TABLES],
            instrument_flags: vec![false; N_INSTRUMENTS],
            table_flags: vec![false; N_TABLES],
            eq_flags: vec![false; n_eq_from],
            allocated_eqs: find_referenced_eq(to_song, n_eq_to),
            allocated_tables: find_allocated_tables(to_song),
            allocated_instruments: find_allocated_instruments(to_song),
            instrument_mapping,
            eq_mapping,
            table_mapping,
            roots: Ghost(roots@),
        };
        proof {
            lemma_unseen_count(r.eq_flags@.subrange(0, n_eq_from as int), 0);
            lemma_unseen_count(r.instrument_flags@.subrange(0, N_INSTRUMENTS as int), 0);
            lemma_unseen_count(r.table_flags@.subrange(N_INSTRUMENTS as int, N_TABLES as int), 0);
        }
        r
    }

    /// Places source equalizer `equ`, which has not been processed yet.
    fn allocate_eq(&mut self, from: &Song, to: &Song, equ: usize, is_instrument_eq: bool) -> (r: Result<(), AllocationError>)
        requires
            old(self).wf(from@, to@),
            equ < old(self).eq_flags@.len(),
            !old(self).eq_flags@[equ as int],
            old(self).must_e(from@, equ as int),
            is_instrument_eq ==> equ < N_INSTRUMENTS,
        ensures
            r is Ok ==> final(self).wf(from@, to@) && final(self).restores(old(self)) && final(self).grows_from(old(self)),
            empty_destination(from@, to@) ==> r is Ok,
            r is Ok ==> final(self).eq_flags@[equ as int],
            r is Ok ==> final(self).eq_mapping.to_move@ == old(self).eq_mapping.to_move@
                || final(self).eq_mapping.to_move@ == old(self).eq_mapping.to_move@.push(equ as u8),
            is_instrument_eq && equ < old(self).allocated_eqs@.len() && !old(self).allocated_eqs@[equ as int]
                && !old(self).allocated_instruments@[equ as int] ==> r is Ok && final(self).eq_mapping.mapping@[equ as int]
                == equ as u8 && final(self).eq_mapping.to_move@ == old(self).eq_mapping.to_move@.push(equ as u8),
            r is Ok ==> chosen_eq_slot(*old(self), from@, to@, equ as int, is_instrument_eq,
                final(self).eq_mapping.mapping@[equ as int] as int),
            r matches Err(e) ==> e.kind == MoveKind::EQ && e.index == equ && old(self).owes(from@, to@, e),
    {
        let ghost o = *self;
        let from_eq = from.eqs[equ];
        if is_instrument_eq && equ < self.allocated_eqs.len() && !self.allocated_eqs[equ]
            && !self.allocated_instruments[equ] {
            proof {
                lemma_place(o.allocated_eqs@, eq_occupancy(to@, spec_instrument_eq_count(to@.version)),
                    o.eq_mapping.mapping@, o.eq_mapping.to_move@, o.eq_flags@, equ as int, equ as int, 0);
            }
            self.eq_flags.set(equ, true);
            self.allocated_eqs.set(equ, true);
            self.eq_mapping.mapping.set(equ, equ as u8);
            self.eq_mapping.to_move.push(equ as u8);
            proof {
                lemma_push_contains(o.eq_mapping.to_move@, equ as u8, equ as u8);
                lemma_eq_step(o, *self, from@, to@, equ as int);
            }
            return Ok(());
        }
        let copied = copy_slots(&self.eq_mapping.mapping, &self.eq_mapping.to_move, self.allocated_eqs.len());
        match find_eq(to, &copied, from_eq) {
            Some(j) => {
                proof {
                    assert forall|q: int| 0 <= q < o.eq_mapping.to_move@.len()
                        implies #[trigger] o.eq_mapping.to_move@[q] as int != equ by {}
                    if o.eq_mapping.to_move@.contains(equ as u8) {
                        let q = choose|q: int| 0 <= q < o.eq_mapping.to_move@.len() && o.eq_mapping.to_move@[q] == equ as u8;
                        assert(o.eq_mapping.to_move@[q] as int != equ);
                    }
                    assert(to@.eqs.subrange(0, copied@.len() as int)[j as int] == to@.eqs[j as int]);
                    lemma_reuse(o.allocated_eqs@, eq_occupancy(to@, spec_instrument_eq_count(to@.version)),
                        o.eq_mapping.mapping@, o.eq_mapping.to_move@, o.eq_flags@, equ as int, j as u8, 0);
                }
                self.eq_flags.set(equ, true);
                self.eq_mapping.mapping.set(equ, j as u8);
                self.allocated_eqs.set(j, true);
                proof {
                    let dest = to@.eqs.subrange(0, copied@.len() as int);
                    assert forall|i: int| 0 <= i < j && #[trigger] dest[i] == from_eq
                        implies copy_slot(o.eq_mapping.mapping@, o.eq_mapping.to_move@, i) by {
                        assert(dest[i] == to@.eqs[i]);
                        assert(copied@[i]);
                    }
                    assert(dest[j as int] == from@.eqs[equ as int]);
                    lemma_account_new(dest, from@.eqs[equ as int], o.eq_mapping.mapping@, o.eq_mapping.to_move@, equ as int,
                        j as u8, false);
                    assert(self.eq_mapping.mapping@ == o.eq_mapping.mapping@.update(equ as int, j as u8));
                    lemma_eq_step(o, *self, from@, to@, equ as int);
                }
                Ok(())
            },
            None => {
                let n = self.allocated_eqs.len();
                let hint: u8 = if equ <= n { equ as u8 } else { n as u8 };
                match try_allocate_rev(&self.allocated_eqs, hint) {
                    None => {
                        proof {
                            if empty_destination(from@, to@) {
                                let init = eq_occupancy(to@, spec_instrument_eq_count(to@.version));
                                lemma_no_room(o.allocated_eqs@, init, o.eq_mapping.mapping@, o.eq_mapping.to_move@, o.eq_flags@, 0, equ as int);
                                lemma_unseen_count(init, 0);
                            }
                            let must = reached_eqs(from@, o.roots@, o.instrument_mapping.instrument_tracking_commands@, o.table_mapping.table_tracking_commands@, o.eq_mapping.eq_tracking_commands@);
                            lemma_exhausted(o.allocated_eqs@, eq_occupancy(to@, spec_instrument_eq_count(to@.version)),
                                o.eq_mapping.mapping@, o.eq_mapping.to_move@, o.eq_flags@, 0, equ as int, must);
                        }
                        Err(AllocationError { kind: MoveKind::EQ, index: equ })
                    },
                    Some(eq_slot) => {
                        proof {
                            lemma_place(o.allocated_eqs@, eq_occupancy(to@, spec_instrument_eq_count(to@.version)),
                                o.eq_mapping.mapping@, o.eq_mapping.to_move@, o.eq_flags@, equ as int, eq_slot as int, 0);
                        }
                        self.eq_flags.set(equ, true);
                        self.allocated_eqs.set(eq_slot, true);
                        self.eq_mapping.mapping.set(equ, eq_slot as u8);
                        self.eq_mapping.to_move.push(equ as u8);
                        proof {
                            lemma_push_contains(o.eq_mapping.to_move@, equ as u8, equ as u8);
                            assert forall|q: int| 0 <= q < o.eq_mapping.to_move@.len()
                                implies #[trigger] o.eq_mapping.to_move@[q] as int != equ by {}
                            let dest = to@.eqs.subrange(0, copied@.len() as int);
                            assert forall|i: int| 0 <= i < dest.len() && #[trigger] dest[i] == from@.eqs[equ as int]
                                implies copy_slot(o.eq_mapping.mapping@, o.eq_mapping.to_move@, i) by {
                                assert(dest[i] == to@.eqs[i]);
                                assert(copied@[i]);
                            }
                            lemma_account_new(dest, from@.eqs[equ as int], o.eq_mapping.mapping@, o.eq_mapping.to_move@,
                                equ as int, eq_slot as u8, true);
                            lemma_eq_step(o, *self, from@, to@, equ as int);
                        }
                        Ok(())
                    },
                }
            },
        }
    }

    pub fn is_touching_instrument(&self, cmd: u8) -> (r: bool)
        ensures
            r == self.instrument_mapping.instrument_tracking_commands@.contains(cmd),
    {
        tracks(&self.instrument_mapping.instrument_tracking_commands, cmd)
    }

    pub fn is_touching_table(&self, cmd: u8) -> (r: bool)
        ensures
            r == self.table_mapping.table_tracking_commands@.contains(cmd),
    {
        tracks(&self.table_mapping.table_tracking_commands, cmd)
    }

    pub fn is_touching_eq(&self, cmd: u8) -> (r: bool)
        ensures
            r == self.eq_mapping.eq_tracking_commands@.contains(cmd),
    {
        tracks(&self.eq_mapping.eq_tracking_commands, cmd)
    }

    /// Processes equalizer `eq_ix` unless it is out of range or already done.
    pub fn touch_eq(&mut self, from: &Song, to: &Song, eq_ix: usize, is_instrument_eq: bool) -> (r: Result<(), AllocationError>)
        requires
            old(self).wf(from@, to@),
            is_instrument_eq ==> eq_ix < N_INSTRUMENTS,
            eq_ix < old(self).eq_flags@.len() ==> old(self).must_e(from@, eq_ix as int),
        ensures
            r is Ok ==> final(self).wf(from@, to@) && final(self).restores(old(self)) && final(self).grows_from(old(self)),
            empty_destination(from@, to@) ==> r is Ok,
            r matches Err(e) ==> old(self).owes(from@, to@, e),
            r is Ok && eq_ix < old(self).eq_flags@.len() ==> final(self).eq_flags@[eq_ix as int],
    {
        if eq_ix < self.eq_flags.len() && !self.eq_flags[eq_ix] {
            self.allocate_eq(from, to, eq_ix, is_instrument_eq)?;
        }
        Ok(())
    }

    /// Follows one command: an instrument, table or equalizer reference is processed.
    pub fn touch_fx(&mut self, from: &Song, to: &Song, fx: Fx) -> (r: Result<(), AllocationError>)
        requires
            old(self).wf(from@, to@),
            old(self).must_f(from@, fx),
        ensures
            r matches Err(e) ==> old(self).owes(from@, to@, e),
            r is Ok ==> final(self).wf(from@, to@) && final(self).restores(old(self)) && final(self).grows_from(old(self)),
            empty_destination(from@, to@) ==> r is Ok,
            r is Ok ==> final(self).covers_fx(fx),
        decreases old(self).measure(), 2nat,
    {
        let ghost s0 = *self;
        if self.is_touching_instrument(fx.command) {
            self.touch_instrument(from, to, fx.value as usize)?;
        }
        let ghost s1 = *self;
        if self.is_touching_table(fx.command) {
            self.touch_table(from, to, fx.value as usize)?;
        }
        let ghost s2 = *self;
        if self.is_touching_eq(fx.command) {
            self.touch_eq(from, to, fx.value as usize, false)?;
        }
        proof {
            lemma_grows_trans(s0, s1, s2);
            lemma_grows_trans(s0, s2, *self);
            lemma_grows_trans(s1, s2, *self);
        }
        Ok(())
    }

    /// Processes what one phrase row refers to: its instrument and its commands.
    pub fn touch_step(&mut self, from: &Song, to: &Song, step: PhraseStep) -> (r: Result<(), AllocationError>)
        requires
            old(self).wf(from@, to@),
            old(self).must_r(from@, step),
        ensures
            r matches Err(e) ==> old(self).owes(from@, to@, e),
            r is Ok ==> final(self).wf(from@, to@) && final(self).restores(old(self)) && final(self).grows_from(old(self)),
            empty_destination(from@, to@) ==> r is Ok,
            r is Ok ==> final(self).covers_step(step),
    {
        let ghost s0 = *self;
        self.touch_instrument(from, to, step.instrument as usize)?;
        let ghost s1 = *self;
        self.touch_fx(from, to, step.fx1)?;
        let ghost s2 = *self;
        self.touch_fx(from, to, step.fx2)?;
        let ghost s3 = *self;
        self.touch_fx(from, to, step.fx3)?;
        proof {
            lemma_grows_trans(s2, s3, *self);
            lemma_grows_trans(s1, s2, *self);
            lemma_grows_trans(s0, s1, *self);
            lemma_covers_mono(s2, *self, step.fx1);
            lemma_covers_mono(s3, *self, step.fx2);
        }
        Ok(())
    }

    /// Processes table `table_ix` and everything its commands reach.
    pub fn touch_table(&mut self, from: &Song, to: &Song, table_ix: usize) -> (r: Result<(), AllocationError>)
        requires
            old(self).wf(from@, to@),
            table_ix < N_TABLES ==> old(self).must_t(from@, table_ix as int),
        ensures
            r matches Err(e) ==> old(self).owes(from@, to@, e),
            table_ix >= N_TABLES || old(self).table_flags@[table_ix as int] || old(self).seen_tables@[table_ix as int]
                ==> r is Ok && *final(self) == *old(self),
            r is Ok ==> final(self).wf(from@, to@) && final(self).restores(old(self)) && final(self).grows_from(old(self)),
            empty_destination(from@, to@) ==> r is Ok,
            r is Ok && table_ix < N_TABLES ==> final(self).table_flags@[table_ix as int] || final(self).seen_tables@[table_ix as int],
        decreases old(self).measure(), 1nat,
    {
        if table_ix >= N_TABLES || self.table_flags[table_ix] {
            return Ok(());
        }
        if self.seen_tables[table_ix] {
            return Ok(());
        }
        let ghost o = *self;
        proof {
            lemma_unseen_mark(self.seen_tables@, table_ix as int);
        }
        self.seen_tables.set(table_ix, true);
        let ghost marked = *self;
        proof {
            lemma_mark_seen(o, marked, from@, to@);
        }
        let table = &from.tables[table_ix];
        proof {
            assert(table@ == from@.tables[table_ix as int]);
        }
        let mut s: usize = 0;
        while s < table.steps.len()
            invariant
                self.wf(from@, to@),
                self.restores(&marked),
                marked.measure() < o.measure(),
                o.measure() == old(self).measure(),
                marked.seen_tables@ == o.seen_tables@.update(table_ix as int, true),
                marked.seen_instruments@ == o.seen_instruments@,
                marked.same_commands(&o),
                self.grows_from(&marked),
                self.same_commands(old(self)),
                self.must_t(from@, table_ix as int),
                !old(self).table_flags@[table_ix as int],
                !old(self).seen_tables@[table_ix as int],
                marked.instrument_flags@.len() == N_INSTRUMENTS,
                marked.table_flags@.len() == N_TABLES,
                marked.eq_flags@.len() == self.eq_flags@.len(),
                table_ix < N_TABLES,
                table@ == from@.tables[table_ix as int],
                s <= table.steps@.len(),
                self.covers_rows(table@, s as int),
            decreases table.steps.len() - s,
        {
            let st = table.steps[s];
            proof {
                lemma_table_row_reached(*self, from@, table_ix as int, s as int);
            }
            let ghost pre = *self;
            assert(self.measure() == marked.measure());
            assert(self.measure() < o.measure());
            self.touch_fx(from, to, st.fx1)?;
            let ghost s1 = *self;
            assert(self.measure() == marked.measure());
            self.touch_fx(from, to, st.fx2)?;
            let ghost s2 = *self;
            assert(self.measure() == marked.measure());
            self.touch_fx(from, to, st.fx3)?;
            proof {
                lemma_grows_trans(pre, s1, s2);
                lemma_grows_trans(pre, s2, *self);
                lemma_grows_trans(s1, s2, *self);
                lemma_grows_trans(marked, pre, *self);
                assert(st == table@[s as int]);
                lemma_covers_mono(s1, *self, st.fx1);
                lemma_covers_mono(s2, *self, st.fx2);
                lemma_covers_rows_step(pre, *self, table@, s as int);
                assert(self.covers_rows(table@, s + 1));
            }
            s += 1;
        }
        let ghost before = *self;
        assert(before.seen_tables@[table_ix as int]);
        self.seen_tables.set(table_ix, false);
        proof {
            assert(self.seen_tables@ =~= o.seen_tables@);
        }
        if table_ix >= N_INSTRUMENTS {
            match try_allocate(&self.allocated_tables, table_ix as u8) {
                None => {
                    proof {
                        if empty_destination(from@, to@) {
                            lemma_no_room(before.allocated_tables@, table_occupancy(to@), before.table_mapping.mapping@,
                                before.table_mapping.to_move@, before.table_flags@, N_INSTRUMENTS as int, table_ix as int);
                            lemma_unseen_count(table_occupancy(to@), N_INSTRUMENTS as int);
                        }
                        let must = reached_free_tables(from@, before.roots@, before.instrument_mapping.instrument_tracking_commands@, before.table_mapping.table_tracking_commands@, before.eq_mapping.eq_tracking_commands@);
                        lemma_exhausted(before.allocated_tables@, table_occupancy(to@), before.table_mapping.mapping@,
                            before.table_mapping.to_move@, before.table_flags@, N_INSTRUMENTS as int, table_ix as int, must);
                        assert(before.must_t(from@, table_ix as int));
                    }
                    return Err(AllocationError { kind: MoveKind::TBL, index: table_ix });
                },
                Some(new_ix) => {
                    proof {
                        lemma_place(before.allocated_tables@, table_occupancy(to@), before.table_mapping.mapping@,
                            before.table_mapping.to_move@, before.table_flags@, table_ix as int, new_ix as int, N_INSTRUMENTS as int);
                    }
                    self.table_flags.set(table_ix, true);
                    self.table_mapping.remap_table(table_ix as u8, new_ix as u8);
                    self.allocated_tables.set(new_ix, true);
                    proof {
                        lemma_push_contains(before.table_mapping.to_move@, table_ix as u8, table_ix as u8);
                        lemma_table_step(before, *self, from@, to@, table_ix as int);
                    }
                },
            }
        } else {
            proof {
                lemma_bound(before.allocated_tables@, table_occupancy(to@), before.table_mapping.mapping@,
                    before.table_mapping.to_move@, before.table_flags@, table_ix as int, N_INSTRUMENTS as int);
                assert(before.table_mapping.mapping@.update(table_ix as int, before.table_mapping.mapping@[table_ix as int])
                    =~= before.table_mapping.mapping@);
            }
            self.table_flags.set(table_ix, true);
            proof {
                lemma_table_step(before, *self, from@, to@, table_ix as int);
            }
        }
        proof {
            lemma_grows_trans(marked, before, *self);
            lemma_grows_trans(o, marked, *self);
        }
        Ok(())
    }

    /// Processes instrument `instr_ix`: its equalizer, its table, then its own slot.
    pub fn touch_instrument(&mut self, from: &Song, to: &Song, instr_ix: usize) -> (r: Result<(), AllocationError>)
        requires
            old(self).wf(from@, to@),
            instr_ix < N_INSTRUMENTS ==> old(self).must_i(from@, instr_ix as int),
        ensures
            r matches Err(e) ==> old(self).owes(from@, to@, e),
            instr_ix >= N_INSTRUMENTS || old(self).instrument_flags@[instr_ix as int]
                || old(self).seen_instruments@[instr_ix as int] ==> r is Ok && *final(self) == *old(self),
            r is Ok ==> final(self).wf(from@, to@) && final(self).restores(old(self)) && final(self).grows_from(old(self)),
            empty_destination(from@, to@) ==> r is Ok,
            r is Ok && instr_ix < N_INSTRUMENTS ==> final(self).instrument_flags@[instr_ix as int]
                || final(self).seen_instruments@[instr_ix as int],
        decreases old(self).measure(), 1nat,
    {
        if instr_ix >= N_INSTRUMENTS || self.instrument_flags[instr_ix] {
            return Ok(());
        }
        if self.seen_instruments[instr_ix] {
            return Ok(());
        }
        let ghost o = *self;
        proof {
            lemma_unseen_mark(self.seen_instruments@, instr_ix as int);
        }
        self.seen_instruments.set(instr_ix, true);
        let ghost marked = *self;
        proof {
            lemma_mark_seen(o, marked, from@, to@);
        }
        let mut instr = from.instruments[instr_ix].duplicate();
        proof {
            assert(from.instruments@[instr_ix as int]@ == from@.instruments[instr_ix as int]);
        }
        match instr.equ() {
            None => {},
            Some(equ) => {
                let equ = equ as usize;
                if equ < self.eq_flags.len() && !self.eq_flags[equ] {
                    let is_instrum_eq = from.version.at_least(4, 1) && equ == instr_ix;
                    self.allocate_eq(from, to, equ, is_instrum_eq)?;
                }
                if equ < self.eq_mapping.mapping.len() {
                    instr.set_eq(self.eq_mapping.mapping[equ]);
                }
            },
        }
        let ghost with_eq = *self;
        proof {
            assert(with_eq.grows_from(&marked));
            assert(instr@ == remap_instrument(from@.instruments[instr_ix as int], with_eq.eq_mapping));
            assert(eq_ref_processed(from@.instruments[instr_ix as int], with_eq.eq_flags@));
        }
        assert(self.restores(&marked));
        self.touch_table(from, to, instr_ix)?;
        let ghost before = *self;
        proof {
            lemma_grows_trans(marked, with_eq, before);
            lemma_remap_instrument_frame(from@.instruments[instr_ix as int], with_eq.eq_mapping, before.eq_mapping);
            assert(before.table_flags@[instr_ix as int] || before.seen_tables@[instr_ix as int]);
        }
        assert(before.seen_instruments@[instr_ix as int]);
        self.seen_instruments.set(instr_ix, false);
        proof {
            assert(self.seen_instruments@ =~= o.seen_instruments@);
        }
        let copied = copy_slots(&self.instrument_mapping.mapping, &self.instrument_mapping.to_move, N_INSTRUMENTS);
        match find_instrument(to, &copied, &instr) {
            Some(to_instr_ix) => {
                proof {
                    lemma_reuse(before.allocated_instruments@, instrument_occupancy(to@),
                        before.instrument_mapping.mapping@, before.instrument_mapping.to_move@,
                        before.instrument_flags@, instr_ix as int, to_instr_ix as u8, 0);
                }
                self.instrument_flags.set(instr_ix, true);
                self.instrument_mapping.mapping.set(instr_ix, to_instr_ix as u8);
                self.allocated_instruments.set(to_instr_ix, true);
                proof {
                    assert forall|q: int| 0 <= q < before.instrument_mapping.to_move@.len()
                        implies #[trigger] before.instrument_mapping.to_move@[q] as int != instr_ix by {}
                    if before.instrument_mapping.to_move@.contains(instr_ix as u8) {
                        let q = choose|q: int| 0 <= q < before.instrument_mapping.to_move@.len()
                            && before.instrument_mapping.to_move@[q] == instr_ix as u8;
                        assert(before.instrument_mapping.to_move@[q] as int != instr_ix);
                    }
                    assert forall|i: int| 0 <= i < to_instr_ix && #[trigger] to@.instruments[i] == instr@
                        implies copy_slot(before.instrument_mapping.mapping@, before.instrument_mapping.to_move@, i) by {
                        assert(copied@[i]);
                    }
                    assert(!copied@[to_instr_ix as int]);
                    lemma_account_new(to@.instruments, instr@, before.instrument_mapping.mapping@,
                        before.instrument_mapping.to_move@, instr_ix as int, to_instr_ix as u8, false);
                    lemma_instrument_step(before, *self, from@, to@, instr_ix as int);
                }
            },
            None => match try_allocate(&self.allocated_instruments, instr_ix as u8) {
                None => {
                    proof {
                        if empty_destination(from@, to@) {
                            lemma_no_room(before.allocated_instruments@, instrument_occupancy(to@),
                                before.instrument_mapping.mapping@, before.instrument_mapping.to_move@,
                                before.instrument_flags@, 0, instr_ix as int);
                            lemma_unseen_count(instrument_occupancy(to@), 0);
                        }
                        let must = reached_instruments(from@, before.roots@, before.instrument_mapping.instrument_tracking_commands@, before.table_mapping.table_tracking_commands@, before.eq_mapping.eq_tracking_commands@);
                        lemma_exhausted(before.allocated_instruments@, instrument_occupancy(to@),
                            before.instrument_mapping.mapping@, before.instrument_mapping.to_move@,
                            before.instrument_flags@, 0, instr_ix as int, must);
                    }
                    return Err(AllocationError { kind: MoveKind::INS, index: instr_ix });
                },
                Some(to_instr_ix) => {
                    proof {
                        lemma_place(before.allocated_instruments@, instrument_occupancy(to@),
                            before.instrument_mapping.mapping@, before.instrument_mapping.to_move@,
                            before.instrument_flags@, instr_ix as int, to_instr_ix as int, 0);
                    }
                    self.instrument_flags.set(instr_ix, true);
                    self.instrument_mapping.mapping.set(instr_ix, to_instr_ix as u8);
                    self.allocated_instruments.set(to_instr_ix, true);
                    self.instrument_mapping.to_move.push(instr_ix as u8);
                    proof {
                        lemma_push_contains(before.instrument_mapping.to_move@, instr_ix as u8, instr_ix as u8);
                        assert forall|q: int| 0 <= q < before.instrument_mapping.to_move@.len()
                            implies #[trigger] before.instrument_mapping.to_move@[q] as int != instr_ix by {}
                        assert forall|i: int| 0 <= i < to@.instruments.len() && #[trigger] to@.instruments[i] == instr@
                            implies copy_slot(before.instrument_mapping.mapping@, before.instrument_mapping.to_move@, i) by {
                            assert(copied@[i]);
                        }
                        lemma_account_new(to@.instruments, instr@, before.instrument_mapping.mapping@,
                            before.instrument_mapping.to_move@, instr_ix as int, to_instr_ix as u8, true);
                        lemma_instrument_step(before, *self, from@, to@, instr_ix as int);
                    }
                },
            },
        }
        proof {
            lemma_grows_trans(marked, before, *self);
            lemma_grows_trans(o, marked, *self);
        }
        Ok(())
    }
}

/// First addressable equalizer of `to` equal to `e` whose slot receives no
/// copy (as `copied` marks).
fn find_eq(to: &Song, copied: &Vec<bool>, e: Equ) -> (r: Option<usize>)
    requires
        copied@.len() <= to@.eqs.len(),
    ensures
        r matches Some(j) ==> j < copied@.len() && !copied@[j as int] && to@.eqs[j as int] == e && forall|i: int|
            0 <= i < j && #[trigger] to@.eqs[i] == e ==> copied@[i],
        r is None ==> forall|i: int| 0 <= i < copied@.len() && #[trigger] to@.eqs[i] == e ==> copied@[i],
{
    let mut j: usize = 0;
    while j < copied.len()
        invariant
            j <= copied@.len(),
            copied@.len() <= to@.eqs.len(),
            forall|i: int| 0 <= i < j && #[trigger] to@.eqs[i] == e ==> copied@[i],
        decreases copied.len() - j,
    {
        if !copied[j] && to.eqs[j] == e {
            return Some(j);
        }
        j += 1;
    }
    None
}

/// First instrument of `to` equal to `instr` whose slot receives no copy (as
/// `copied` marks).
fn find_instrument(to: &Song, copied: &Vec<bool>, instr: &Instrument) -> (r: Option<usize>)
    requires
        copied@.len() == to@.instruments.len(),
    ensures
        r matches Some(j) ==> j < to@.instruments.len() && !copied@[j as int] && to@.instruments[j as int] == instr@
            && forall|i: int| 0 <= i < j && #[trigger] to@.instruments[i] == instr@ ==> copied@[i],
        r is None ==> forall|i: int| 0 <= i < to@.instruments.len() && #[trigger] to@.instruments[i] == instr@ ==> copied@[i],
{
    let mut j: usize = 0;
    while j < to.instruments.len()
        invariant
            j <= to.instruments@.len(),
            copied@.len() == to@.instruments.len(),
            forall|i: int| 0 <= i < j && #[trigger] to@.instruments[i] == instr@ ==> copied@[i],
        decreases to.instruments.len() - j,
    {
        proof {
            assert(to@.instruments[j as int] == to.instruments@[j as int]@);
        }
        if !copied[j] && to.instruments[j].same_as(instr) {
            return Some(j);
        }
        j += 1;
    }
    None
}

/// `m` sends the equalizer of instrument `i` to the same slot in `a` and `b`.
pub open spec fn same_eq_target(i: InstrumentModel, a: Seq<u8>, b: Seq<u8>) -> bool {
    match i.equ() {
        Some(e) => (e as int) < a.len() ==> a[e as int] == b[e as int],
        None => true,
    }
}

proof fn lemma_remap_instrument_frame(i: InstrumentModel, a: EqMapping, b: EqMapping)
    requires
        a.mapping@.len() == b.mapping@.len(),
        same_eq_target(i, a.mapping@, b.mapping@),
    ensures
        remap_instrument(i, a) == remap_instrument(i, b),
{
}

/// A step that only grows the flags, keeps the guards and the commands, and
/// keeps what other entities see, keeps every command covered.
proof fn lemma_covers_mono(a: InstrumentAllocatorState, b: InstrumentAllocatorState, fx: Fx)
    requires
        a.covers_fx(fx),
        b.grows_from(&a),
        b.restores(&a),
        a.instrument_flags@.len() == N_INSTRUMENTS,
        a.table_flags@.len() == N_TABLES,
        a.eq_flags@.len() == b.eq_flags@.len(),
    ensures
        b.covers_fx(fx),
{
}

proof fn lemma_covers_table_mono(a: InstrumentAllocatorState, b: InstrumentAllocatorState, t: Seq<TableStep>)
    requires
        a.covers_table(t),
        b.grows_from(&a),
        b.restores(&a),
        a.instrument_flags@.len() == N_INSTRUMENTS,
        a.table_flags@.len() == N_TABLES,
        a.eq_flags@.len() == b.eq_flags@.len(),
    ensures
        b.covers_table(t),
{
    assert forall|q: int| 0 <= q < t.len() implies b.covers_fx(#[trigger] t[q].fx1) && b.covers_fx(t[q].fx2) && b.covers_fx(t[q].fx3) by {
        lemma_covers_mono(a, b, t[q].fx1);
        lemma_covers_mono(a, b, t[q].fx2);
        lemma_covers_mono(a, b, t[q].fx3);
    }
}

pub proof fn lemma_grows_trans(a: InstrumentAllocatorState, b: InstrumentAllocatorState, c: InstrumentAllocatorState)
    requires
        b.grows_from(&a),
        c.grows_from(&b),
        a.instrument_flags@.len() == N_INSTRUMENTS,
        a.table_flags@.len() == N_TABLES,
        a.eq_flags@.len() == b.eq_flags@.len(),
    ensures
        c.grows_from(&a),
{
}

/// Processing equalizer `equ` (and nothing else) keeps the state sound.
proof fn lemma_eq_step(o: InstrumentAllocatorState, n: InstrumentAllocatorState, from: SongModel, to: SongModel, equ: int)
    requires
        n.roots == o.roots,
        o.must_e(from, equ),
        o.wf(from, to),
        0 <= equ < o.eq_flags@.len(),
        !o.eq_flags@[equ],
        n.eq_flags@ == o.eq_flags@.update(equ, true),
        n.eq_mapping.mapping@ == o.eq_mapping.mapping@.update(equ, n.eq_mapping.mapping@[equ]),
        n.eq_mapping.to_move@ == o.eq_mapping.to_move@ || n.eq_mapping.to_move@ == o.eq_mapping.to_move@.push(equ as u8),
        n.eq_mapping.eq_tracking_commands@ == o.eq_mapping.eq_tracking_commands@,
        n.instrument_mapping == o.instrument_mapping,
        n.table_mapping == o.table_mapping,
        n.instrument_flags == o.instrument_flags,
        n.table_flags == o.table_flags,
        n.seen_instruments == o.seen_instruments,
        n.seen_tables == o.seen_tables,
        n.allocated_instruments == o.allocated_instruments,
        n.allocated_tables == o.allocated_tables,
        placement_inv(n.allocated_eqs@, eq_occupancy(to, spec_instrument_eq_count(to.version)), n.eq_mapping.mapping@,
            n.eq_mapping.to_move@, n.eq_flags@, 0),
        eq_accounted(from, to, n.eq_mapping.mapping@, n.eq_mapping.to_move@, equ),
        n.eq_mapping.to_move@ != o.eq_mapping.to_move@ ==> (n.eq_mapping.mapping@[equ] as int) < o.allocated_eqs@.len()
            && !o.allocated_eqs@[n.eq_mapping.mapping@[equ] as int],
        n.allocated_eqs@ == o.allocated_eqs@.update(n.eq_mapping.mapping@[equ] as int, true),
        (n.eq_mapping.mapping@[equ] as int) < o.allocated_eqs@.len(),
        n.eq_mapping.to_move@ != o.eq_mapping.to_move@ ==> policy_slot(o.allocated_eqs@, equ,
            n.eq_mapping.mapping@[equ] as int, true),
    ensures
        n.wf(from, to),
        n.restores(&o),
        n.grows_from(&o),
{
    assert forall|x: u8| #[trigger] o.eq_mapping.to_move@.contains(x) implies n.eq_mapping.to_move@.contains(x) by {
        lemma_push_contains(o.eq_mapping.to_move@, equ as u8, x);
    }
    assert(n.grows_from(&o));
    assert forall|t: int| 0 <= t < N_TABLES && #[trigger] n.table_flags@[t] implies n.covers_table(from.tables[t]) by {
        lemma_covers_table_mono(o, n, from.tables[t]);
    }
    assert forall|i: int| 0 <= i < N_INSTRUMENTS && #[trigger] n.instrument_flags@[i] implies accounted(
        to.instruments,
        remap_instrument(from.instruments[i], n.eq_mapping),
        n.instrument_mapping.mapping@,
        n.instrument_mapping.to_move@,
        i,
    ) by {
        assert(eq_ref_processed(from.instruments[i], o.eq_flags@));
        lemma_remap_instrument_frame(from.instruments[i], n.eq_mapping, o.eq_mapping);
    }
    assert forall|e: int| 0 <= e < n.eq_flags@.len() && #[trigger] n.eq_flags@[e] implies eq_accounted(
        from, to, n.eq_mapping.mapping@, n.eq_mapping.to_move@, e) by {
        if e != equ {
            assert(o.eq_flags@[e]);
            lemma_push_contains(o.eq_mapping.to_move@, equ as u8, e as u8);
            assert forall|k: int| 0 <= k < o.eq_mapping.to_move@.len() implies #[trigger] o.eq_mapping.to_move@[k] as int != equ by {}
            let nt = spec_instrument_eq_count(to.version);
            if accounted(to.eqs.subrange(0, nt as int), from.eqs[e], o.eq_mapping.mapping@, o.eq_mapping.to_move@, e) {
                lemma_accounted_frame(to.eqs.subrange(0, nt as int), from.eqs[e], o.eq_mapping.mapping@, o.eq_mapping.to_move@,
                    e, equ, n.eq_mapping.mapping@[equ], n.eq_mapping.to_move@ != o.eq_mapping.to_move@, o.allocated_eqs@);
            }
        }
    }
    let init = eq_occupancy(to, spec_instrument_eq_count(to.version));
    let v = n.eq_mapping.mapping@[equ];
    let pushed = n.eq_mapping.to_move@ != o.eq_mapping.to_move@;
    assert forall|k: int| 0 <= k < o.eq_mapping.to_move@.len() implies (#[trigger] o.eq_mapping.to_move@[k] as int)
        < o.eq_mapping.mapping@.len() && o.eq_mapping.to_move@[k] as int != equ by {}
    assert(o.eq_mapping.mapping@.update(equ, v) =~= n.eq_mapping.mapping@);
    assert(pushed ==> n.eq_mapping.to_move@ == o.eq_mapping.to_move@.push(equ as u8));
    assert forall|j: int| 0 <= j < n.allocated_eqs@.len() && #[trigger] n.allocated_eqs@[j] implies taken_by(init,
        n.eq_mapping.mapping@, n.eq_flags@, j) by {
        if j == v as int {
            assert(n.eq_flags@[equ] && n.eq_mapping.mapping@[equ] as int == j);
        } else {
            assert(o.allocated_eqs@[j]);
            lemma_taken_by_step(init, o.eq_mapping.mapping@, o.eq_flags@, equ, v, j);
        }
    }
    assert forall|q: int| 0 <= q < n.eq_mapping.to_move@.len() implies #[trigger] policy_placed(init,
        n.eq_mapping.mapping@, n.eq_mapping.to_move@, n.eq_flags@, q, true) by {
        if q < o.eq_mapping.to_move@.len() {
            lemma_policy_frame(init, o.eq_mapping.mapping@, o.eq_mapping.to_move@, o.eq_flags@, q, equ, v, pushed, true);
        } else {
            lemma_policy_new(init, o.allocated_eqs@, o.eq_mapping.mapping@, o.eq_mapping.to_move@, o.eq_flags@, equ,
                v as int, true);
        }
    }
}

/// Finishing table `t`, taken off the recursion stack and processed (and,
/// when free-standing, given a slot), keeps the state sound.
proof fn lemma_table_step(b: InstrumentAllocatorState, n: InstrumentAllocatorState, from: SongModel, to: SongModel, t: int)
    requires
        n.roots == b.roots,
        b.must_t(from, t),
        b.wf(from, to),
        0 <= t < N_TABLES,
        b.seen_tables@[t],
        b.covers_table(from.tables[t]),
        n.seen_tables@ == b.seen_tables@.update(t, false),
        n.table_flags@ == b.table_flags@.update(t, true),
        n.table_mapping.mapping@ == b.table_mapping.mapping@.update(t, n.table_mapping.mapping@[t]),
        t < N_INSTRUMENTS ==> n.table_mapping.to_move@ == b.table_mapping.to_move@,
        t >= N_INSTRUMENTS ==> n.table_mapping.to_move@ == b.table_mapping.to_move@.push(t as u8),
        n.table_mapping.table_tracking_commands@ == b.table_mapping.table_tracking_commands@,
        n.instrument_mapping == b.instrument_mapping,
        n.eq_mapping == b.eq_mapping,
        n.instrument_flags == b.instrument_flags,
        n.eq_flags == b.eq_flags,
        n.seen_instruments == b.seen_instruments,
        n.allocated_instruments == b.allocated_instruments,
        n.allocated_eqs == b.allocated_eqs,
        placement_inv(n.allocated_tables@, table_occupancy(to), n.table_mapping.mapping@, n.table_mapping.to_move@,
            n.table_flags@, N_INSTRUMENTS as int),
        t >= N_INSTRUMENTS ==> n.allocated_tables@ == b.allocated_tables@.update(n.table_mapping.mapping@[t] as int, true)
            && is_forward_slot(b.allocated_tables@, t, n.table_mapping.mapping@[t] as int),
        t < N_INSTRUMENTS ==> n.allocated_tables@ == b.allocated_tables@ && n.table_mapping.mapping@ == b.table_mapping.mapping@,
    ensures
        n.wf(from, to),
        n.grows_from(&b),
{
    assert forall|x: u8| #[trigger] b.table_mapping.to_move@.contains(x) implies n.table_mapping.to_move@.contains(x) by {
        lemma_push_contains(b.table_mapping.to_move@, t as u8, x);
    }
    assert forall|k: int| 0 <= k < n.table_mapping.to_move@.len() implies #[trigger] n.table_mapping.to_move@[k] >= N_INSTRUMENTS by {
        if k < b.table_mapping.to_move@.len() {
            assert(n.table_mapping.to_move@[k] == b.table_mapping.to_move@[k]);
        }
    }
    assert forall|f: Fx| b.covers_fx(f) implies #[trigger] n.covers_fx(f) by {}
    assert forall|u: int| 0 <= u < N_TABLES && #[trigger] n.table_flags@[u] implies n.covers_table(from.tables[u]) by {
        let tu = from.tables[u];
        assert(b.covers_table(tu));
        assert forall|q: int| 0 <= q < tu.len() implies n.covers_fx(#[trigger] tu[q].fx1) && n.covers_fx(tu[q].fx2)
            && n.covers_fx(tu[q].fx3) by {
            assert(b.covers_fx(tu[q].fx1) && b.covers_fx(tu[q].fx2) && b.covers_fx(tu[q].fx3));
        }
    }
    assert forall|u: int| N_INSTRUMENTS <= u < N_TABLES && #[trigger] n.table_flags@[u] implies n.table_mapping.to_move@.contains(u as u8) by {
        if u == t {
            lemma_push_contains(b.table_mapping.to_move@, t as u8, t as u8);
        }
    }
    let init = table_occupancy(to);
    let v = n.table_mapping.mapping@[t];
    assert forall|k: int| 0 <= k < b.table_mapping.to_move@.len() implies (#[trigger] b.table_mapping.to_move@[k] as int)
        < b.table_mapping.mapping@.len() && b.table_mapping.to_move@[k] as int != t by {}
    assert forall|j: int| 0 <= j < N_TABLES && #[trigger] n.allocated_tables@[j] implies taken_by(init, n.table_mapping.mapping@,
        n.table_flags@, j) by {
        if t >= N_INSTRUMENTS && j == v as int {
            assert(n.table_flags@[t] && n.table_mapping.mapping@[t] as int == j);
        } else {
            assert(b.allocated_tables@[j]);
            lemma_taken_by_step(init, b.table_mapping.mapping@, b.table_flags@, t, v, j);
            assert(b.table_mapping.mapping@.update(t, v) == n.table_mapping.mapping@);
        }
    }
    assert(b.table_mapping.mapping@.update(t, v) =~= n.table_mapping.mapping@);
    assert forall|q: int| 0 <= q < n.table_mapping.to_move@.len() implies #[trigger] policy_placed(init,
        n.table_mapping.mapping@, n.table_mapping.to_move@, n.table_flags@, q, false) by {
        if q < b.table_mapping.to_move@.len() {
            lemma_policy_frame(init, b.table_mapping.mapping@, b.table_mapping.to_move@, b.table_flags@, q, t, v,
                t >= N_INSTRUMENTS, false);
        } else {
            lemma_policy_new(init, b.allocated_tables@, b.table_mapping.mapping@, b.table_mapping.to_move@,
                b.table_flags@, t, v as int, false);
        }
    }
}

/// Finishing instrument `i`, taken off the recursion stack, processed and
/// accounted for, keeps the state sound.
proof fn lemma_instrument_step(b: InstrumentAllocatorState, n: InstrumentAllocatorState, from: SongModel, to: SongModel, i: int)
    requires
        n.roots == b.roots,
        b.must_i(from, i),
        b.wf(from, to),
        0 <= i < N_INSTRUMENTS,
        b.seen_instruments@[i],
        b.table_flags@[i] || b.seen_tables@[i],
        eq_ref_processed(from.instruments[i], b.eq_flags@),
        n.seen_instruments@ == b.seen_instruments@.update(i, false),
        n.instrument_flags@ == b.instrument_flags@.update(i, true),
        n.instrument_mapping.mapping@ == b.instrument_mapping.mapping@.update(i, n.instrument_mapping.mapping@[i]),
        n.instrument_mapping.to_move@ == b.instrument_mapping.to_move@ || n.instrument_mapping.to_move@
            == b.instrument_mapping.to_move@.push(i as u8),
        n.instrument_mapping.instrument_tracking_commands@ == b.instrument_mapping.instrument_tracking_commands@,
        n.table_mapping == b.table_mapping,
        n.eq_mapping == b.eq_mapping,
        n.table_flags == b.table_flags,
        n.eq_flags == b.eq_flags,
        n.seen_tables == b.seen_tables,
        n.allocated_tables == b.allocated_tables,
        n.allocated_eqs == b.allocated_eqs,
        placement_inv(n.allocated_instruments@, instrument_occupancy(to), n.instrument_mapping.mapping@,
            n.instrument_mapping.to_move@, n.instrument_flags@, 0),
        accounted(to.instruments, remap_instrument(from.instruments[i], b.eq_mapping), n.instrument_mapping.mapping@,
            n.instrument_mapping.to_move@, i),
        n.instrument_mapping.to_move@ != b.instrument_mapping.to_move@ ==> (n.instrument_mapping.mapping@[i] as int)
            < b.allocated_instruments@.len() && !b.allocated_instruments@[n.instrument_mapping.mapping@[i] as int],
        n.allocated_instruments@ == b.allocated_instruments@.update(n.instrument_mapping.mapping@[i] as int, true),
        (n.instrument_mapping.mapping@[i] as int) < b.allocated_instruments@.len(),
        n.instrument_mapping.to_move@ != b.instrument_mapping.to_move@ ==> is_forward_slot(b.allocated_instruments@, i,
            n.instrument_mapping.mapping@[i] as int),
    ensures
        n.wf(from, to),
        n.grows_from(&b),
{
    assert forall|x: u8| #[trigger] b.instrument_mapping.to_move@.contains(x) implies n.instrument_mapping.to_move@.contains(x) by {
        lemma_push_contains(b.instrument_mapping.to_move@, i as u8, x);
    }
    assert forall|f: Fx| b.covers_fx(f) implies #[trigger] n.covers_fx(f) by {}
    assert forall|u: int| 0 <= u < N_TABLES && #[trigger] n.table_flags@[u] implies n.covers_table(from.tables[u]) by {
        let tu = from.tables[u];
        assert(b.covers_table(tu));
        assert forall|q: int| 0 <= q < tu.len() implies n.covers_fx(#[trigger] tu[q].fx1) && n.covers_fx(tu[q].fx2)
            && n.covers_fx(tu[q].fx3) by {
            assert(b.covers_fx(tu[q].fx1) && b.covers_fx(tu[q].fx2) && b.covers_fx(tu[q].fx3));
        }
    }
    assert forall|x: int| 0 <= x < N_INSTRUMENTS && #[trigger] n.instrument_flags@[x] implies accounted(
        to.instruments,
        remap_instrument(from.instruments[x], n.eq_mapping),
        n.instrument_mapping.mapping@,
        n.instrument_mapping.to_move@,
        x,
    ) by {
        if x != i {
            assert(b.instrument_flags@[x]);
            assert forall|k: int| 0 <= k < b.instrument_mapping.to_move@.len()
                implies #[trigger] b.instrument_mapping.to_move@[k] as int != i by {}
            lemma_accounted_frame(to.instruments, remap_instrument(from.instruments[x], b.eq_mapping),
                b.instrument_mapping.mapping@, b.instrument_mapping.to_move@, x, i, n.instrument_mapping.mapping@[i],
                n.instrument_mapping.to_move@ != b.instrument_mapping.to_move@, b.allocated_instruments@);
        }
    }
    let init = instrument_occupancy(to);
    let v = n.instrument_mapping.mapping@[i];
    let pushed = n.instrument_mapping.to_move@ != b.instrument_mapping.to_move@;
    assert forall|k: int| 0 <= k < b.instrument_mapping.to_move@.len() implies (#[trigger] b.instrument_mapping.to_move@[k] as int)
        < b.instrument_mapping.mapping@.len() && b.instrument_mapping.to_move@[k] as int != i by {}
    assert(b.instrument_mapping.mapping@.update(i, v) =~= n.instrument_mapping.mapping@);
    assert(pushed ==> n.instrument_mapping.to_move@ == b.instrument_mapping.to_move@.push(i as u8));
    assert(!pushed ==> n.instrument_mapping.to_move@ == b.instrument_mapping.to_move@);
    assert forall|j: int| 0 <= j < N_INSTRUMENTS && #[trigger] n.allocated_instruments@[j] implies taken_by(init,
        n.instrument_mapping.mapping@, n.instrument_flags@, j) by {
        if j == v as int {
            assert(n.instrument_flags@[i] && n.instrument_mapping.mapping@[i] as int == j);
        } else {
            assert(b.allocated_instruments@[j]);
            lemma_taken_by_step(init, b.instrument_mapping.mapping@, b.instrument_flags@, i, v, j);
        }
    }
    assert forall|q: int| 0 <= q < n.instrument_mapping.to_move@.len() implies #[trigger] policy_placed(init,
        n.instrument_mapping.mapping@, n.instrument_mapping.to_move@, n.instrument_flags@, q, false) by {
        if q < b.instrument_mapping.to_move@.len() {
            lemma_policy_frame(init, b.instrument_mapping.mapping@, b.instrument_mapping.to_move@, b.instrument_flags@, q, i,
                v, pushed, false);
        } else {
            lemma_policy_new(init, b.allocated_instruments@, b.instrument_mapping.mapping@, b.instrument_mapping.to_move@,
                b.instrument_flags@, i, v as int, false);
        }
    }
}

/// Pushing an unprocessed entity on the recursion stack keeps the state sound.
proof fn lemma_mark_seen(o: InstrumentAllocatorState, n: InstrumentAllocatorState, from: SongModel, to: SongModel)
    requires
        n.roots == o.roots,
        o.wf(from, to),
        n.seen_instruments@.len() == N_INSTRUMENTS,
        n.seen_tables@.len() == N_TABLES,
        forall|i: int| 0 <= i < N_INSTRUMENTS && #[trigger] o.seen_instruments@[i] ==> n.seen_instruments@[i],
        forall|i: int| 0 <= i < N_TABLES && #[trigger] o.seen_tables@[i] ==> n.seen_tables@[i],
        forall|i: int| 0 <= i < N_INSTRUMENTS && #[trigger] n.seen_instruments@[i] ==> !o.instrument_flags@[i],
        forall|i: int| 0 <= i < N_TABLES && #[trigger] n.seen_tables@[i] ==> !o.table_flags@[i],
        n.instrument_mapping == o.instrument_mapping,
        n.table_mapping == o.table_mapping,
        n.eq_mapping == o.eq_mapping,
        n.instrument_flags == o.instrument_flags,
        n.table_flags == o.table_flags,
        n.eq_flags == o.eq_flags,
        n.allocated_instruments == o.allocated_instruments,
        n.allocated_tables == o.allocated_tables,
        n.allocated_eqs == o.allocated_eqs,
    ensures
        n.wf(from, to),
        n.grows_from(&o),
{
    assert forall|f: Fx| o.covers_fx(f) implies #[trigger] n.covers_fx(f) by {}
    assert forall|u: int| 0 <= u < N_TABLES && #[trigger] n.table_flags@[u] implies n.covers_table(from.tables[u]) by {
        let tu = from.tables[u];
        assert(o.covers_table(tu));
        assert forall|q: int| 0 <= q < tu.len() implies n.covers_fx(#[trigger] tu[q].fx1) && n.covers_fx(tu[q].fx2)
            && n.covers_fx(tu[q].fx3) by {
            assert(o.covers_fx(tu[q].fx1) && o.covers_fx(tu[q].fx2) && o.covers_fx(tu[q].fx3));
        }
    }
}

pub proof fn lemma_covers_step_mono(a: InstrumentAllocatorState, b: InstrumentAllocatorState, st: PhraseStep)
    requires
        a.covers_step(st),
        b.grows_from(&a),
        b.restores(&a),
        a.instrument_flags@.len() == N_INSTRUMENTS,
        a.table_flags@.len() == N_TABLES,
        a.eq_flags@.len() == b.eq_flags@.len(),
    ensures
        b.covers_step(st),
{
    lemma_covers_mono(a, b, st.fx1);
    lemma_covers_mono(a, b, st.fx2);
    lemma_covers_mono(a, b, st.fx3);
}


/// The commands of a reached table are reached.
proof fn lemma_table_row_reached(st: InstrumentAllocatorState, from: SongModel, t: int, q: int)
    requires
        0 <= t < N_TABLES,
        0 <= q < from.tables[t].len(),
        st.must_t(from, t),
    ensures
        st.must_f(from, from.tables[t][q].fx1),
        st.must_f(from, from.tables[t][q].fx2),
        st.must_f(from, from.tables[t][q].fx3),
{
    let ic = st.instrument_mapping.instrument_tracking_commands@;
    let tc = st.table_mapping.table_tracking_commands@;
    let ec = st.eq_mapping.eq_tracking_commands@;
    let row = from.tables[t][q];
    assert forall|fi: Seq<bool>, ft: Seq<bool>, fe: Seq<bool>| #[trigger] closed_under(from, st.roots@, ic, tc, ec, fi, ft, fe)
        implies refs_in(ic, tc, ec, row.fx1, fi, ft, fe) && refs_in(ic, tc, ec, row.fx2, fi, ft, fe)
        && refs_in(ic, tc, ec, row.fx3, fi, ft, fe) by {
        assert(ft[t]);
    }
}

/// Covering one more row, after steps that only grow the state, keeps the
/// rows covered so far covered.
proof fn lemma_covers_rows_step(pre: InstrumentAllocatorState, cur: InstrumentAllocatorState, t: Seq<TableStep>, s: int)
    requires
        0 <= s < t.len(),
        forall|q: int| 0 <= q < s ==> pre.covers_fx(#[trigger] t[q].fx1) && pre.covers_fx(t[q].fx2) && pre.covers_fx(t[q].fx3),
        cur.grows_from(&pre),
        cur.restores(&pre),
        pre.instrument_flags@.len() == N_INSTRUMENTS,
        pre.table_flags@.len() == N_TABLES,
        pre.eq_flags@.len() == cur.eq_flags@.len(),
        cur.covers_fx(t[s].fx1),
        cur.covers_fx(t[s].fx2),
        cur.covers_fx(t[s].fx3),
    ensures
        cur.covers_rows(t, s + 1),
{
    assert forall|q: int| 0 <= q < s + 1 implies cur.covers_fx(#[trigger] t[q].fx1) && cur.covers_fx(t[q].fx2)
        && cur.covers_fx(t[q].fx3) by {
        if q < s {
            lemma_covers_mono(pre, cur, t[q].fx1);
            lemma_covers_mono(pre, cur, t[q].fx2);
            lemma_covers_mono(pre, cur, t[q].fx3);
        }
    }
}
} // verus!
