//! The two commits of a plan: `apply` across songs, `renumber` within one.
use vstd::prelude::*;

use crate::mapping::{moves_in_range, remap_chain, remap_instrument, remap_phrase, remap_table};
use crate::placement::placed;
use crate::slots::table_occupancy;
use crate::song::{
    cleared_chain, cleared_phrase, cleared_table, spec_instrument_eq_count, ChainStep, Equ,
    Instrument, InstrumentModel, N_CHAINS, N_INSTRUMENTS, N_PHRASES, N_TABLES, PhraseStep, Song,
    SongModel, TableStep,
};
use crate::remapper::Remapper;

verus! {

/// Some of the first `n` entries of `to_move` are placed at `j`.
pub open spec fn targeted(map: Seq<u8>, to_move: Seq<u8>, n: int, j: int) -> bool {
    exists|k: int| 0 <= k < n && #[trigger] to_move[k] < 256 && map[to_move[k] as int] as int == j
}

/// `after` is `before` with the value of each of the first `n` entries of
/// `to_move` written at its slot, and nothing else changed.
pub open spec fn lands<T>(before: Seq<T>, after: Seq<T>, map: Seq<u8>, to_move: Seq<u8>, n: int, value: spec_fn(int) -> T) -> bool {
    &&& after.len() == before.len()
    &&& forall|k: int| 0 <= k < n ==> after[map[#[trigger] to_move[k] as int] as int] == value(to_move[k] as int)
    &&& forall|j: int| 0 <= j < after.len() && !targeted(map, to_move, n, j) ==> #[trigger] after[j] == before[j]
}

/// Writing the value of entry `n` at its slot extends a landing of the first `n` entries.
proof fn lemma_lands_step<T>(before: Seq<T>, mid: Seq<T>, map: Seq<u8>, to_move: Seq<u8>, n: int, value: spec_fn(int) -> T, v: T)
    requires
        lands(before, mid, map, to_move, n, value),
        0 <= n < to_move.len(),
        forall|a: int| 0 <= a <= n ==> (map[#[trigger] to_move[a] as int] as int) < mid.len(),
        moves_in_range(map, to_move),
        (map[to_move[n] as int] as int) < mid.len(),
        forall|a: int| 0 <= a < n ==> map[#[trigger] to_move[a] as int] != map[to_move[n] as int],
        v == value(to_move[n] as int),
    ensures
        lands(before, mid.update(map[to_move[n] as int] as int, v), map, to_move, n + 1, value),
{
    let d = map[to_move[n] as int] as int;
    let after = mid.update(d, v);
    assert forall|k: int| 0 <= k < n + 1 implies after[map[#[trigger] to_move[k] as int] as int] == value(to_move[k] as int) by {
        if k < n {
            assert(map[to_move[k] as int] != map[to_move[n] as int]);
            assert((map[to_move[k] as int] as int) < mid.len());
        }
    }
    assert forall|j: int| 0 <= j < after.len() && !targeted(map, to_move, n + 1, j) implies #[trigger] after[j] == before[j] by {
        if j == d {
            assert(to_move[n] < 256);
            assert(targeted(map, to_move, n + 1, j));
        }
        if targeted(map, to_move, n, j) {
            let k = choose|k: int| 0 <= k < n && #[trigger] to_move[k] < 256 && map[to_move[k] as int] as int == j;
            assert(targeted(map, to_move, n + 1, j));
        }
    }
}

impl Remapper {
    /// Copies into `to` every entity of `from` that the plan moves, rewritten,
    /// at its planned slot; an instrument brings its bound table along.
    /// Nothing else of `to` changes.
    pub fn apply(&self, from: &Song, to: &mut Song)
        requires
            self.valid_for(from@, old(to)@),
        ensures
            self.applied(from@, old(to)@, final(to)@),
    {
        let ghost t0 = to@;
        let ghost fr = from@;
        let ghost eq_value = |x: int| fr.eqs[x];
        let mut k: usize = 0;
        while k < self.eq_mapping.to_move.len()
            invariant
                self.valid_for(fr, t0),
                fr == from@,
                eq_value == (|x: int| fr.eqs[x]),
                k <= self.eq_mapping.to_move@.len(),
                to@.eqs.len() == t0.eqs.len(),
                to@ == (SongModel { eqs: to@.eqs, ..t0 }),
                lands(t0.eqs, to@.eqs, self.eq_mapping.mapping@, self.eq_mapping.to_move@, k as int, eq_value),
            decreases self.eq_mapping.to_move.len() - k,
        {
            let equ = self.eq_mapping.to_move[k] as usize;
            let to_index = self.eq_mapping.mapping[equ] as usize;
            let ghost mid = to@.eqs;
            proof {
                assert(self.eq_mapping.to_move@[k as int] == equ as u8);
                assert forall|a: int| 0 <= a < k implies self.eq_mapping.mapping@[#[trigger] self.eq_mapping.to_move@[a] as int]
                    != self.eq_mapping.mapping@[self.eq_mapping.to_move@[k as int] as int] by {}
                assert forall|a: int| 0 <= a <= k implies (self.eq_mapping.mapping@[#[trigger] self.eq_mapping.to_move@[a] as int] as int)
                    < mid.len() by {}
                lemma_lands_step(t0.eqs, mid, self.eq_mapping.mapping@, self.eq_mapping.to_move@, k as int, eq_value, fr.eqs[equ as int]);
            }
            let v = from.eqs[equ];
            to.eqs.set(to_index, v);
            proof {
                assert(to@ =~= (SongModel { eqs: to@.eqs, ..t0 }));
            }
            k += 1;
        }
        let ghost t1 = to@;
        let ghost instr_value = |x: int| remap_instrument(fr.instruments[x], self.eq_mapping);
        let ghost table_value = |x: int| remap_table(fr.tables[x], self.instrument_mapping, self.table_mapping, self.eq_mapping);
        let mut k: usize = 0;
        while k < self.instrument_mapping.to_move.len()
            invariant
                self.valid_for(fr, t0),
                fr == from@,
                instr_value == (|x: int| remap_instrument(fr.instruments[x], self.eq_mapping)),
                table_value == (|x: int| remap_table(fr.tables[x], self.instrument_mapping, self.table_mapping, self.eq_mapping)),
                k <= self.instrument_mapping.to_move@.len(),
                t1.instruments == t0.instruments,
                t1.tables == t0.tables,
                to@ == (SongModel { instruments: to@.instruments, tables: to@.tables, ..t1 }),
                lands(t0.instruments, to@.instruments, self.instrument_mapping.mapping@, self.instrument_mapping.to_move@, k as int, instr_value),
                lands(t0.tables, to@.tables, self.instrument_mapping.mapping@, self.instrument_mapping.to_move@, k as int, table_value),
            decreases self.instrument_mapping.to_move.len() - k,
        {
            let instr_id = self.instrument_mapping.to_move[k] as usize;
            let to_index = self.instrument_mapping.mapping[instr_id] as usize;
            let ghost mid = to@;
            let mut instr = from.instruments[instr_id].duplicate();
            match instr.equ() {
                None => {},
                Some(eq) => {
                    if (eq as usize) < self.eq_mapping.mapping.len() {
                        instr.set_eq(self.eq_mapping.mapping[eq as usize]);
                    }
                },
            }
            let table = from.tables[instr_id].map_instr(&self.instrument_mapping, &self.table_mapping, &self.eq_mapping);
            proof {
                assert(from.instruments@[instr_id as int]@ == fr.instruments[instr_id as int]);
                assert(from.tables@[instr_id as int]@ == fr.tables[instr_id as int]);
                assert(self.instrument_mapping.to_move@[k as int] == instr_id as u8);
                assert forall|a: int| 0 <= a < k implies self.instrument_mapping.mapping@[#[trigger] self.instrument_mapping.to_move@[a] as int]
                    != self.instrument_mapping.mapping@[self.instrument_mapping.to_move@[k as int] as int] by {}
                assert forall|a: int| 0 <= a <= k implies (self.instrument_mapping.mapping@[#[trigger] self.instrument_mapping.to_move@[a] as int] as int)
                    < N_INSTRUMENTS by {}
                lemma_lands_step(t0.instruments, mid.instruments, self.instrument_mapping.mapping@, self.instrument_mapping.to_move@,
                    k as int, instr_value, instr@);
                lemma_lands_step(t0.tables, mid.tables, self.instrument_mapping.mapping@, self.instrument_mapping.to_move@,
                    k as int, table_value, table@);
            }
            to.tables.set(to_index, table);
            to.instruments.set(to_index, instr);
            proof {
                assert(to@.instruments =~= mid.instruments.update(to_index as int, instr@));
                assert(to@.tables =~= mid.tables.update(to_index as int, table@));
                assert(to@ =~= (SongModel { instruments: to@.instruments, tables: to@.tables, ..t1 }));
            }
            k += 1;
        }
        let ghost t2 = to@;
        let mut k: usize = 0;
        while k < self.table_mapping.to_move.len()
            invariant
                self.valid_for(fr, t0),
                fr == from@,
                table_value == (|x: int| remap_table(fr.tables[x], self.instrument_mapping, self.table_mapping, self.eq_mapping)),
                k <= self.table_mapping.to_move@.len(),
                t2.tables.len() == N_TABLES,
                to@ == (SongModel { tables: to@.tables, ..t2 }),
                lands(t2.tables, to@.tables, self.table_mapping.mapping@, self.table_mapping.to_move@, k as int, table_value),
            decreases self.table_mapping.to_move.len() - k,
        {
            let table_id = self.table_mapping.to_move[k] as usize;
            let to_index = self.table_mapping.mapping[table_id] as usize;
            let ghost mid = to@;
            let table = from.tables[table_id].map_instr(&self.instrument_mapping, &self.table_mapping, &self.eq_mapping);
            proof {
                assert(from.tables@[table_id as int]@ == fr.tables[table_id as int]);
                assert(self.table_mapping.to_move@[k as int] == table_id as u8);
                assert forall|a: int| 0 <= a < k implies self.table_mapping.mapping@[#[trigger] self.table_mapping.to_move@[a] as int]
                    != self.table_mapping.mapping@[self.table_mapping.to_move@[k as int] as int] by {}
                assert forall|a: int| 0 <= a <= k implies (self.table_mapping.mapping@[#[trigger] self.table_mapping.to_move@[a] as int] as int)
                    < N_TABLES by {}
                lemma_lands_step(t2.tables, mid.tables, self.table_mapping.mapping@, self.table_mapping.to_move@,
                    k as int, table_value, table@);
            }
            to.tables.set(to_index, table);
            proof {
                assert(to@.tables =~= mid.tables.update(to_index as int, table@));
                assert(to@ =~= (SongModel { tables: to@.tables, ..t2 }));
            }
            k += 1;
        }
        proof {
            let im = self.instrument_mapping;
            let tmm = self.table_mapping;
            assert forall|k: int| 0 <= k < im.to_move@.len() implies to@.tables[im.mapping@[#[trigger] im.to_move@[k] as int] as int]
                == table_value(im.to_move@[k] as int) by {
                let d = im.mapping@[im.to_move@[k] as int] as int;
                assert(d < N_INSTRUMENTS);
                if targeted(tmm.mapping@, tmm.to_move@, tmm.to_move@.len() as int, d) {
                    let q = choose|q: int| 0 <= q < tmm.to_move@.len() && #[trigger] tmm.to_move@[q] < 256
                        && tmm.mapping@[tmm.to_move@[q] as int] as int == d;
                    assert(table_occupancy(t0)[d]);
                }
            }
            assert forall|j: int| 0 <= j < N_TABLES
                && !targeted(im.mapping@, im.to_move@, im.to_move@.len() as int, j)
                && !targeted(tmm.mapping@, tmm.to_move@, tmm.to_move@.len() as int, j)
                implies #[trigger] to@.tables[j] == t0.tables[j] by {
                assert(t2.tables[j] == t0.tables[j]);
            }
        }
        let ghost t3 = to@;
        let ghost phrase_value = |x: int| remap_phrase(fr.phrases[x], self.instrument_mapping, self.table_mapping, self.eq_mapping);
        let mut k: usize = 0;
        while k < self.phrase_mapping.to_move.len()
            invariant
                self.valid_for(fr, t0),
                fr == from@,
                phrase_value == (|x: int| remap_phrase(fr.phrases[x], self.instrument_mapping, self.table_mapping, self.eq_mapping)),
                k <= self.phrase_mapping.to_move@.len(),
                t3.phrases == t0.phrases,
                to@ == (SongModel { phrases: to@.phrases, ..t3 }),
                lands(t0.phrases, to@.phrases, self.phrase_mapping.mapping@, self.phrase_mapping.to_move@, k as int, phrase_value),
            decreases self.phrase_mapping.to_move.len() - k,
        {
            let phrase_id = self.phrase_mapping.to_move[k] as usize;
            let to_index = self.phrase_mapping.mapping[phrase_id] as usize;
            let ghost mid = to@;
            let phrase = from.phrases[phrase_id].map_instruments(&self.instrument_mapping, &self.table_mapping, &self.eq_mapping);
            proof {
                assert(from.phrases@[phrase_id as int]@ == fr.phrases[phrase_id as int]);
                assert(self.phrase_mapping.to_move@[k as int] == phrase_id as u8);
                assert forall|a: int| 0 <= a < k implies self.phrase_mapping.mapping@[#[trigger] self.phrase_mapping.to_move@[a] as int]
                    != self.phrase_mapping.mapping@[self.phrase_mapping.to_move@[k as int] as int] by {}
                assert forall|a: int| 0 <= a <= k implies (self.phrase_mapping.mapping@[#[trigger] self.phrase_mapping.to_move@[a] as int] as int)
                    < N_PHRASES by {}
                lemma_lands_step(t0.phrases, mid.phrases, self.phrase_mapping.mapping@, self.phrase_mapping.to_move@,
                    k as int, phrase_value, phrase@);
            }
            to.phrases.set(to_index, phrase);
            proof {
                assert(to@.phrases =~= mid.phrases.update(to_index as int, phrase@));
                assert(to@ =~= (SongModel { phrases: to@.phrases, ..t3 }));
            }
            k += 1;
        }
        let ghost t4 = to@;
        let ghost chain_value = |x: int| remap_chain(fr.chains[x], self.phrase_mapping);
        let mut k: usize = 0;
        while k < self.chain_mapping.to_move.len()
            invariant
                self.valid_for(fr, t0),
                fr == from@,
                chain_value == (|x: int| remap_chain(fr.chains[x], self.phrase_mapping)),
                k <= self.chain_mapping.to_move@.len(),
                t4.chains == t0.chains,
                to@ == (SongModel { chains: to@.chains, ..t4 }),
                lands(t0.chains, to@.chains, self.chain_mapping.mapping@, self.chain_mapping.to_move@, k as int, chain_value),
            decreases self.chain_mapping.to_move.len() - k,
        {
            let chain_id = self.chain_mapping.to_move[k] as usize;
            let to_index = self.chain_mapping.mapping[chain_id] as usize;
            let ghost mid = to@;
            let chain = from.chains[chain_id].map(&self.phrase_mapping);
            proof {
                assert(from.chains@[chain_id as int]@ == fr.chains[chain_id as int]);
                assert(self.chain_mapping.to_move@[k as int] == chain_id as u8);
                assert forall|a: int| 0 <= a < k implies self.chain_mapping.mapping@[#[trigger] self.chain_mapping.to_move@[a] as int]
                    != self.chain_mapping.mapping@[self.chain_mapping.to_move@[k as int] as int] by {}
                assert forall|a: int| 0 <= a <= k implies (self.chain_mapping.mapping@[#[trigger] self.chain_mapping.to_move@[a] as int] as int)
                    < N_CHAINS by {}
                lemma_lands_step(t0.chains, mid.chains, self.chain_mapping.mapping@, self.chain_mapping.to_move@,
                    k as int, chain_value, chain@);
            }
            to.chains.set(to_index, chain);
            proof {
                assert(to@.chains =~= mid.chains.update(to_index as int, chain@));
                assert(to@ =~= (SongModel { chains: to@.chains, ..t4 }));
            }
            k += 1;
        }
    }
}

/// The first `n` moves of `to_move` done in order: slot `map[x]` receives
/// `f` of what slot `x` holds, then slot `x` is cleared.
pub open spec fn relocated<T>(s: Seq<T>, map: Seq<u8>, to_move: Seq<u8>, n: int, f: spec_fn(T) -> T, clear: spec_fn(T) -> T) -> Seq<T>
    decreases n,
{
    if n <= 0 {
        s
    } else {
        let prev = relocated(s, map, to_move, n - 1, f, clear);
        let src = to_move[n - 1] as int;
        let moved = prev.update(map[src] as int, f(prev[src]));
        moved.update(src, clear(moved[src]))
    }
}

/// The first `n` instrument moves done in order: the instrument and its bound
/// table go to the new slot, and the old instrument slot is emptied.
pub open spec fn relocated_instruments(
    instruments: Seq<InstrumentModel>,
    tables: Seq<Seq<TableStep>>,
    map: Seq<u8>,
    to_move: Seq<u8>,
    n: int,
) -> (Seq<InstrumentModel>, Seq<Seq<TableStep>>)
    decreases n,
{
    if n <= 0 {
        (instruments, tables)
    } else {
        let prev = relocated_instruments(instruments, tables, map, to_move, n - 1);
        let src = to_move[n - 1] as int;
        let dst = map[src] as int;
        (prev.0.update(dst, prev.0[src]).update(src, InstrumentModel::empty_spec()), prev.1.update(dst, prev.1[src]))
    }
}

proof fn lemma_relocated_len<T>(s: Seq<T>, map: Seq<u8>, to_move: Seq<u8>, n: int, f: spec_fn(T) -> T, clear: spec_fn(T) -> T)
    requires
        indexes_within(map, to_move, s.len()),
        n <= to_move.len(),
    ensures
        relocated(s, map, to_move, n, f, clear).len() == s.len(),
    decreases n,
{
    if n > 0 {
        lemma_relocated_len(s, map, to_move, n - 1, f, clear);
    }
}

proof fn lemma_relocated_instruments_len(
    instruments: Seq<InstrumentModel>,
    tables: Seq<Seq<TableStep>>,
    map: Seq<u8>,
    to_move: Seq<u8>,
    n: int,
)
    requires
        indexes_within(map, to_move, instruments.len()),
        instruments.len() <= tables.len(),
        n <= to_move.len(),
    ensures
        relocated_instruments(instruments, tables, map, to_move, n).0.len() == instruments.len(),
        relocated_instruments(instruments, tables, map, to_move, n).1.len() == tables.len(),
    decreases n,
{
    if n > 0 {
        lemma_relocated_instruments_len(instruments, tables, map, to_move, n - 1);
    }
}

/// The song that `renumber` makes of `s` under `plan`.
pub open spec fn renumbered(plan: Remapper, s: SongModel) -> SongModel {
    let im = plan.instrument_mapping;
    let tm = plan.table_mapping;
    let em = plan.eq_mapping;
    let pm = plan.phrase_mapping;
    let cm = plan.chain_mapping;
    let ins = relocated_instruments(s.instruments, s.tables, im.mapping@, im.to_move@, im.to_move@.len() as int);
    let tables = relocated(ins.1, tm.mapping@, tm.to_move@, tm.to_move@.len() as int,
        |t: Seq<TableStep>| remap_table(t, im, tm, em), |t: Seq<TableStep>| cleared_table(t));
    let phrases = relocated(s.phrases, pm.mapping@, pm.to_move@, pm.to_move@.len() as int,
        |p: Seq<PhraseStep>| p, |p: Seq<PhraseStep>| cleared_phrase(p));
    let chains = relocated(s.chains, cm.mapping@, cm.to_move@, cm.to_move@.len() as int,
        |c: Seq<ChainStep>| c, |c: Seq<ChainStep>| cleared_chain(c));
    SongModel {
        version: s.version,
        sequence: s.sequence,
        eqs: relocated(s.eqs, em.mapping@, em.to_move@, em.to_move@.len() as int, |e: Equ| e, |e: Equ| Equ::cleared_spec()),
        instruments: ins.0.map_values(|i: InstrumentModel| remap_instrument(i, em)),
        tables,
        phrases: phrases.map_values(|p: Seq<PhraseStep>| remap_phrase(p, im, tm, em)),
        chains: chains.map_values(|c: Seq<ChainStep>| remap_chain(c, pm)),
    }
}

/// Every move of `to_move` reads and writes inside a table of `cap` slots.
pub open spec fn indexes_within(map: Seq<u8>, to_move: Seq<u8>, cap: nat) -> bool {
    &&& moves_in_range(map, to_move)
    &&& forall|k: int| 0 <= k < to_move.len() ==> (#[trigger] to_move[k] as int) < cap && (map[to_move[k] as int] as int) < cap
}

impl Remapper {
    /// The plan can be carried out inside song `s`.
    pub open spec fn fits(&self, s: SongModel) -> bool {
        &&& s.wf()
        &&& self.eq_mapping.mapping@.len() == spec_instrument_eq_count(s.version)
        &&& self.instrument_mapping.mapping@.len() == N_INSTRUMENTS
        &&& self.table_mapping.mapping@.len() == N_TABLES
        &&& self.phrase_mapping.mapping@.len() == N_PHRASES
        &&& self.chain_mapping.mapping@.len() == N_CHAINS
        &&& indexes_within(self.eq_mapping.mapping@, self.eq_mapping.to_move@, spec_instrument_eq_count(s.version))
        &&& indexes_within(self.instrument_mapping.mapping@, self.instrument_mapping.to_move@, N_INSTRUMENTS as nat)
        &&& indexes_within(self.table_mapping.mapping@, self.table_mapping.to_move@, N_TABLES as nat)
        &&& indexes_within(self.phrase_mapping.mapping@, self.phrase_mapping.to_move@, N_PHRASES as nat)
        &&& indexes_within(self.chain_mapping.mapping@, self.chain_mapping.to_move@, N_CHAINS as nat)
    }

    /// Carries the plan out inside one song: every entity to be moved goes to
    /// its new slot and its old slot is cleared, then the references of the
    /// instruments (their equalizer), of every phrase and of every chain are
    /// rewritten through the plan.
    pub fn renumber(&self, song: &mut Song)
        requires
            self.fits(old(song)@),
        ensures
            final(song)@ == renumbered(*self, old(song)@),
    {
        let ghost s0 = song@;
        let ghost em = self.eq_mapping;
        let ghost eq_id = |e: Equ| e;
        let ghost eq_clear = |e: Equ| Equ::cleared_spec();
        let mut k: usize = 0;
        while k < self.eq_mapping.to_move.len()
            invariant
                self.fits(s0),
                em == self.eq_mapping,
                eq_id == (|e: Equ| e),
                eq_clear == (|e: Equ| Equ::cleared_spec()),
                k <= em.to_move@.len(),
                song@ == (SongModel { eqs: relocated(s0.eqs, em.mapping@, em.to_move@, k as int, eq_id, eq_clear), ..s0 }),
            decreases self.eq_mapping.to_move.len() - k,
        {
            let equ = self.eq_mapping.to_move[k] as usize;
            let to_index = self.eq_mapping.mapping[equ] as usize;
            proof {
                lemma_relocated_len(s0.eqs, em.mapping@, em.to_move@, k as int, eq_id, eq_clear);
                assert(em.to_move@[k as int] == equ as u8);
            }
            let v = song.eqs[equ];
            song.eqs.set(to_index, v);
            song.eqs.set(equ, Equ::cleared());
            proof {
                assert(song@ =~= (SongModel { eqs: relocated(s0.eqs, em.mapping@, em.to_move@, k + 1, eq_id, eq_clear), ..s0 }));
            }
            k += 1;
        }
        let ghost s1 = song@;
        let ghost im = self.instrument_mapping;
        let mut k: usize = 0;
        while k < self.instrument_mapping.to_move.len()
            invariant
                self.fits(s0),
                im == self.instrument_mapping,
                k <= im.to_move@.len(),
                s1.instruments == s0.instruments,
                s1.tables == s0.tables,
                song@ == (SongModel {
                    instruments: relocated_instruments(s0.instruments, s0.tables, im.mapping@, im.to_move@, k as int).0,
                    tables: relocated_instruments(s0.instruments, s0.tables, im.mapping@, im.to_move@, k as int).1,
                    ..s1
                }),
            decreases self.instrument_mapping.to_move.len() - k,
        {
            let instr_id = self.instrument_mapping.to_move[k] as usize;
            let to_index = self.instrument_mapping.mapping[instr_id] as usize;
            proof {
                lemma_relocated_instruments_len(s0.instruments, s0.tables, im.mapping@, im.to_move@, k as int);
                assert(im.to_move@[k as int] == instr_id as u8);
            }
            let instr = song.instruments[instr_id].duplicate();
            let table = song.tables[instr_id].duplicate();
            let ghost mid = song@;
            song.tables.set(to_index, table);
            song.instruments.set(to_index, instr);
            song.instruments.set(instr_id, Instrument::none());
            proof {
                assert(song.instruments@[instr_id as int]@ == InstrumentModel::empty_spec());
                assert(song@.instruments =~= mid.instruments.update(to_index as int, mid.instruments[instr_id as int]).update(
                    instr_id as int, InstrumentModel::empty_spec()));
                assert(song@.tables =~= mid.tables.update(to_index as int, mid.tables[instr_id as int]));
                assert(song@ =~= (SongModel {
                    instruments: relocated_instruments(s0.instruments, s0.tables, im.mapping@, im.to_move@, k + 1).0,
                    tables: relocated_instruments(s0.instruments, s0.tables, im.mapping@, im.to_move@, k + 1).1,
                    ..s1
                }));
            }
            k += 1;
        }
        proof {
            lemma_relocated_instruments_len(s0.instruments, s0.tables, im.mapping@, im.to_move@, im.to_move@.len() as int);
        }
        let ghost s2 = song@;
        let ghost tmm = self.table_mapping;
        let ghost table_f = |t: Seq<TableStep>| remap_table(t, im, tmm, em);
        let ghost table_clear = |t: Seq<TableStep>| cleared_table(t);
        let mut k: usize = 0;
        while k < self.table_mapping.to_move.len()
            invariant
                self.fits(s0),
                im == self.instrument_mapping,
                tmm == self.table_mapping,
                em == self.eq_mapping,
                table_f == (|t: Seq<TableStep>| remap_table(t, im, tmm, em)),
                table_clear == (|t: Seq<TableStep>| cleared_table(t)),
                k <= tmm.to_move@.len(),
                s2.tables.len() == N_TABLES,
                song@ == (SongModel { tables: relocated(s2.tables, tmm.mapping@, tmm.to_move@, k as int, table_f, table_clear), ..s2 }),
            decreases self.table_mapping.to_move.len() - k,
        {
            let table_id = self.table_mapping.to_move[k] as usize;
            let to_index = self.table_mapping.mapping[table_id] as usize;
            proof {
                lemma_relocated_len(s2.tables, tmm.mapping@, tmm.to_move@, k as int, table_f, table_clear);
                assert(tmm.to_move@[k as int] == table_id as u8);
            }
            let ghost mid = song@;
            let table = song.tables[table_id].map_instr(&self.instrument_mapping, &self.table_mapping, &self.eq_mapping);
            song.tables.set(to_index, table);
            let mut old_table = song.tables[table_id].duplicate();
            old_table.clear();
            song.tables.set(table_id, old_table);
            proof {
                let moved = mid.tables.update(to_index as int, table_f(mid.tables[table_id as int]));
                assert(song@.tables =~= moved.update(table_id as int, table_clear(moved[table_id as int])));
                assert(song@ =~= (SongModel { tables: relocated(s2.tables, tmm.mapping@, tmm.to_move@, k + 1, table_f, table_clear), ..s2 }));
            }
            k += 1;
        }
        proof {
            lemma_relocated_len(s2.tables, tmm.mapping@, tmm.to_move@, tmm.to_move@.len() as int, table_f, table_clear);
        }
        let ghost s3 = song@;
        let mut i: usize = 0;
        while i < N_INSTRUMENTS
            invariant
                self.fits(s0),
                em == self.eq_mapping,
                i <= N_INSTRUMENTS,
                s3.instruments.len() == N_INSTRUMENTS,
                song@ == (SongModel { instruments: song@.instruments, ..s3 }),
                song@.instruments.len() == N_INSTRUMENTS,
                forall|q: int| 0 <= q < i ==> #[trigger] song@.instruments[q] == remap_instrument(s3.instruments[q], em),
                forall|q: int| i <= q < N_INSTRUMENTS ==> #[trigger] song@.instruments[q] == s3.instruments[q],
            decreases N_INSTRUMENTS - i,
        {
            let ghost mid = song@;
            proof {
                assert(mid.instruments[i as int] == song.instruments@[i as int]@);
                assert(mid.instruments[i as int] == s3.instruments[i as int]);
            }
            let mut instr = song.instruments[i].duplicate();
            match instr.equ() {
                None => {},
                Some(eq) => {
                    if (eq as usize) < self.eq_mapping.mapping.len() {
                        instr.set_eq(self.eq_mapping.mapping[eq as usize]);
                    }
                },
            }
            song.instruments.set(i, instr);
            proof {
                assert(song@.instruments =~= mid.instruments.update(i as int, remap_instrument(s3.instruments[i as int], em)));
                assert(song@ =~= (SongModel { instruments: song@.instruments, ..s3 }));
            }
            i += 1;
        }
        proof {
            assert(song@.instruments =~= s3.instruments.map_values(|x: InstrumentModel| remap_instrument(x, em)));
        }
        let ghost s4 = song@;
        let ghost pm = self.phrase_mapping;
        let ghost phrase_id = |p: Seq<PhraseStep>| p;
        let ghost phrase_clear = |p: Seq<PhraseStep>| cleared_phrase(p);
        let mut k: usize = 0;
        while k < self.phrase_mapping.to_move.len()
            invariant
                self.fits(s0),
                pm == self.phrase_mapping,
                phrase_id == (|p: Seq<PhraseStep>| p),
                phrase_clear == (|p: Seq<PhraseStep>| cleared_phrase(p)),
                k <= pm.to_move@.len(),
                s4.phrases == s0.phrases,
                song@ == (SongModel { phrases: relocated(s0.phrases, pm.mapping@, pm.to_move@, k as int, phrase_id, phrase_clear), ..s4 }),
            decreases self.phrase_mapping.to_move.len() - k,
        {
            let src = self.phrase_mapping.to_move[k] as usize;
            let to_index = self.phrase_mapping.mapping[src] as usize;
            proof {
                lemma_relocated_len(s0.phrases, pm.mapping@, pm.to_move@, k as int, phrase_id, phrase_clear);
                assert(pm.to_move@[k as int] == src as u8);
            }
            let ghost mid = song@;
            let phrase = song.phrases[src].duplicate();
            song.phrases.set(to_index, phrase);
            let mut old_phrase = song.phrases[src].duplicate();
            old_phrase.clear();
            song.phrases.set(src, old_phrase);
            proof {
                let moved = mid.phrases.update(to_index as int, mid.phrases[src as int]);
                assert(song@.phrases =~= moved.update(src as int, cleared_phrase(moved[src as int])));
                assert(song@ =~= (SongModel { phrases: relocated(s0.phrases, pm.mapping@, pm.to_move@, k + 1, phrase_id, phrase_clear), ..s4 }));
            }
            k += 1;
        }
        proof {
            lemma_relocated_len(s0.phrases, pm.mapping@, pm.to_move@, pm.to_move@.len() as int, phrase_id, phrase_clear);
        }
        let ghost s5 = song@;
        let mut p: usize = 0;
        while p < N_PHRASES
            invariant
                self.fits(s0),
                im == self.instrument_mapping,
                tmm == self.table_mapping,
                em == self.eq_mapping,
                p <= N_PHRASES,
                s5.phrases.len() == N_PHRASES,
                song@ == (SongModel { phrases: song@.phrases, ..s5 }),
                song@.phrases.len() == N_PHRASES,
                forall|q: int| 0 <= q < p ==> #[trigger] song@.phrases[q] == remap_phrase(s5.phrases[q], im, tmm, em),
                forall|q: int| p <= q < N_PHRASES ==> #[trigger] song@.phrases[q] == s5.phrases[q],
            decreases N_PHRASES - p,
        {
            let ghost mid = song@;
            proof {
                assert(mid.phrases[p as int] == song.phrases@[p as int]@);
                assert(mid.phrases[p as int] == s5.phrases[p as int]);
            }
            let np = song.phrases[p].map_instruments(&self.instrument_mapping, &self.table_mapping, &self.eq_mapping);
            song.phrases.set(p, np);
            proof {
                assert(song@.phrases =~= mid.phrases.update(p as int, remap_phrase(s5.phrases[p as int], im, tmm, em)));
                assert(song@ =~= (SongModel { phrases: song@.phrases, ..s5 }));
            }
            p += 1;
        }
        proof {
            assert(song@.phrases =~= s5.phrases.map_values(|x: Seq<PhraseStep>| remap_phrase(x, im, tmm, em)));
        }
        let ghost s6 = song@;
        let ghost cm = self.chain_mapping;
        let ghost chain_id = |c: Seq<ChainStep>| c;
        let ghost chain_clear = |c: Seq<ChainStep>| cleared_chain(c);
        let mut k: usize = 0;
        while k < self.chain_mapping.to_move.len()
            invariant
                self.fits(s0),
                cm == self.chain_mapping,
                chain_id == (|c: Seq<ChainStep>| c),
                chain_clear == (|c: Seq<ChainStep>| cleared_chain(c)),
                k <= cm.to_move@.len(),
                s6.chains == s0.chains,
                song@ == (SongModel { chains: relocated(s0.chains, cm.mapping@, cm.to_move@, k as int, chain_id, chain_clear), ..s6 }),
            decreases self.chain_mapping.to_move.len() - k,
        {
            let src = self.chain_mapping.to_move[k] as usize;
            let to_index = self.chain_mapping.mapping[src] as usize;
            proof {
                lemma_relocated_len(s0.chains, cm.mapping@, cm.to_move@, k as int, chain_id, chain_clear);
                assert(cm.to_move@[k as int] == src as u8);
            }
            let ghost mid = song@;
            let chain = song.chains[src].duplicate();
            song.chains.set(to_index, chain);
            let mut old_chain = song.chains[src].duplicate();
            old_chain.clear();
            song.chains.set(src, old_chain);
            proof {
                let moved = mid.chains.update(to_index as int, mid.chains[src as int]);
                assert(song@.chains =~= moved.update(src as int, cleared_chain(moved[src as int])));
                assert(song@ =~= (SongModel { chains: relocated(s0.chains, cm.mapping@, cm.to_move@, k + 1, chain_id, chain_clear), ..s6 }));
            }
            k += 1;
        }
        proof {
            lemma_relocated_len(s0.chains, cm.mapping@, cm.to_move@, cm.to_move@.len() as int, chain_id, chain_clear);
        }
        let ghost s7 = song@;
        let mut c: usize = 0;
        while c < N_CHAINS
            invariant
                self.fits(s0),
                pm == self.phrase_mapping,
                c <= N_CHAINS,
                s7.chains.len() == N_CHAINS,
                song@ == (SongModel { chains: song@.chains, ..s7 }),
                song@.chains.len() == N_CHAINS,
                forall|q: int| 0 <= q < c ==> #[trigger] song@.chains[q] == remap_chain(s7.chains[q], pm),
                forall|q: int| c <= q < N_CHAINS ==> #[trigger] song@.chains[q] == s7.chains[q],
            decreases N_CHAINS - c,
        {
            let ghost mid = song@;
            proof {
                assert(mid.chains[c as int] == song.chains@[c as int]@);
                assert(mid.chains[c as int] == s7.chains[c as int]);
            }
            let nc = song.chains[c].map(&self.phrase_mapping);
            song.chains.set(c, nc);
            proof {
                assert(song@.chains =~= mid.chains.update(c as int, remap_chain(s7.chains[c as int], pm)));
                assert(song@ =~= (SongModel { chains: song@.chains, ..s7 }));
            }
            c += 1;
        }
        proof {
            assert(song@.chains =~= s7.chains.map_values(|x: Seq<ChainStep>| remap_chain(x, pm)));
            assert(song@ =~= renumbered(*self, s0));
        }
    }
}

impl Remapper {
    /// What `apply` leaves in `after` when it copies from `from` into `to`.
    pub open spec fn applied(&self, from: SongModel, to: SongModel, after: SongModel) -> bool {
        &&& after.wf()
        &&& after.version == to.version
        &&& after.sequence == to.sequence
        &&& lands(to.eqs, after.eqs, self.eq_mapping.mapping@, self.eq_mapping.to_move@,
            self.eq_mapping.to_move@.len() as int, |x: int| from.eqs[x])
        &&& lands(to.instruments, after.instruments, self.instrument_mapping.mapping@,
            self.instrument_mapping.to_move@, self.instrument_mapping.to_move@.len() as int,
            |x: int| remap_instrument(from.instruments[x], self.eq_mapping))
        &&& forall|k: int| 0 <= k < self.instrument_mapping.to_move@.len() ==> after.tables[
            self.instrument_mapping.mapping@[#[trigger] self.instrument_mapping.to_move@[k] as int] as int]
            == remap_table(from.tables[self.instrument_mapping.to_move@[k] as int], self.instrument_mapping, self.table_mapping, self.eq_mapping)
        &&& forall|k: int| 0 <= k < self.table_mapping.to_move@.len() ==> after.tables[
            self.table_mapping.mapping@[#[trigger] self.table_mapping.to_move@[k] as int] as int]
            == remap_table(from.tables[self.table_mapping.to_move@[k] as int], self.instrument_mapping, self.table_mapping, self.eq_mapping)
        &&& forall|j: int| 0 <= j < N_TABLES
            && !targeted(self.instrument_mapping.mapping@, self.instrument_mapping.to_move@, self.instrument_mapping.to_move@.len() as int, j)
            && !targeted(self.table_mapping.mapping@, self.table_mapping.to_move@, self.table_mapping.to_move@.len() as int, j)
            ==> #[trigger] after.tables[j] == to.tables[j]
        &&& lands(to.phrases, after.phrases, self.phrase_mapping.mapping@, self.phrase_mapping.to_move@,
            self.phrase_mapping.to_move@.len() as int,
            |x: int| remap_phrase(from.phrases[x], self.instrument_mapping, self.table_mapping, self.eq_mapping))
        &&& lands(to.chains, after.chains, self.chain_mapping.mapping@, self.chain_mapping.to_move@,
            self.chain_mapping.to_move@.len() as int, |x: int| remap_chain(from.chains[x], self.phrase_mapping))
    }
}

} // verus!
