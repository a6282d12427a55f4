//! Occupancy of the destination document, and the two slot-search policies.
use vstd::prelude::*;

use crate::song::{
    chain_is_empty, phrase_is_empty, spec_instrument_eq_count, table_is_empty, ChainStep,
    InstrumentKind, InstrumentModel, N_CHAINS, N_INSTRUMENTS, N_PHRASES, N_TABLES, Song, SongModel,
};

verus! {

/// Equalizer `j` is in use when some instrument refers to it.
pub open spec fn eq_occupancy(song: SongModel, n: nat) -> Seq<bool> {
    Seq::new(n, |j: int| exists|i: int| 0 <= i < song.instruments.len() && refers_eq(#[trigger] song.instruments[i], j))
}

pub open spec fn refers_eq(m: InstrumentModel, j: int) -> bool {
    m.equ() matches Some(e) && e as int == j
}

/// An instrument slot is in use unless it is empty.
pub open spec fn instrument_occupancy(song: SongModel) -> Seq<bool> {
    Seq::new(N_INSTRUMENTS as nat, |i: int| song.instruments[i].kind != InstrumentKind::Empty)
}

/// Tables bound to an instrument are always taken; the others when they hold a row.
pub open spec fn table_occupancy(song: SongModel) -> Seq<bool> {
    Seq::new(N_TABLES as nat, |i: int| i < N_INSTRUMENTS || !table_is_empty(song.tables[i]))
}

pub open spec fn phrase_referenced(song: SongModel, p: int) -> bool {
    chains_play(song, song.chains.len() as int, p)
}

/// A phrase is in use when a chain plays it or it holds a row.
pub open spec fn phrase_occupancy(song: SongModel) -> Seq<bool> {
    Seq::new(N_PHRASES as nat, |p: int| phrase_referenced(song, p) || !phrase_is_empty(song.phrases[p]))
}

pub open spec fn chain_referenced(song: SongModel, c: int) -> bool {
    exists|k: int| 0 <= k < song.sequence.len() && #[trigger] song.sequence[k] == c
}

/// A chain is in use when the play order names it or it holds a row.
pub open spec fn chain_occupancy(song: SongModel) -> Seq<bool> {
    Seq::new(N_CHAINS as nat, |c: int| chain_referenced(song, c) || !chain_is_empty(song.chains[c]))
}

/// The destination `to` has every slot free (but the tables bound to an
/// instrument), and at least as many addressable equalizers as `from`.
pub open spec fn empty_destination(from: SongModel, to: SongModel) -> bool {
    &&& spec_instrument_eq_count(from.version) <= spec_instrument_eq_count(to.version)
    &&& forall|j: int| 0 <= j < spec_instrument_eq_count(to.version)
        ==> !#[trigger] eq_occupancy(to, spec_instrument_eq_count(to.version))[j]
    &&& forall|i: int| 0 <= i < N_INSTRUMENTS ==> !#[trigger] instrument_occupancy(to)[i]
    &&& forall|t: int| N_INSTRUMENTS <= t < N_TABLES ==> !#[trigger] table_occupancy(to)[t]
    &&& forall|p: int| 0 <= p < N_PHRASES ==> !#[trigger] phrase_occupancy(to)[p]
    &&& forall|c: int| 0 <= c < N_CHAINS ==> !#[trigger] chain_occupancy(to)[c]
}

/// Equalizers of `song` below `n` that some instrument refers to.
pub fn find_referenced_eq(song: &Song, n: usize) -> (r: Vec<bool>)
    ensures
        r@ == eq_occupancy(song@, n as nat),
{
    let mut allocated_eqs: Vec<bool> = vec![false; n];
    let mut i: usize = 0;
    while i < song.instruments.len()
        invariant
            i <= song.instruments.len(),
            allocated_eqs@.len() == n,
            forall|j: int|
                0 <= j < n ==> (allocated_eqs@[j] <==> exists|k: int|
                    0 <= k < i && refers_eq(#[trigger] song@.instruments[k], j)),
        decreases song.instruments.len() - i,
    {
        let ghost before = allocated_eqs@;
        match song.instruments[i].equ() {
            None => {},
            Some(eq) => {
                if (eq as usize) < allocated_eqs.len() {
                    allocated_eqs.set(eq as usize, true);
                }
            },
        }
        proof {
            assert(song@.instruments[i as int] == song.instruments@[i as int]@);
            assert forall|j: int| 0 <= j < n implies (allocated_eqs@[j] <==> exists|k: int|
                0 <= k < i + 1 && refers_eq(#[trigger] song@.instruments[k], j)) by {
                if refers_eq(song@.instruments[i as int], j) {
                    assert(allocated_eqs@[j]);
                }
                if allocated_eqs@[j] && !before[j] {
                    assert(refers_eq(song@.instruments[i as int], j));
                }
                if exists|k: int| 0 <= k < i + 1 && refers_eq(#[trigger] song@.instruments[k], j) {
                    let k = choose|k: int| 0 <= k < i + 1 && refers_eq(#[trigger] song@.instruments[k], j);
                    if k < i {
                        assert(before[j]);
                    }
                }
            }
        }
        i += 1;
    }
    assert(allocated_eqs@ =~= eq_occupancy(song@, n as nat));
    allocated_eqs
}

/// Instrument slots of `song` that hold an instrument.
pub fn find_allocated_instruments(song: &Song) -> (r: Vec<bool>)
    requires
        song@.wf(),
    ensures
        r@ == instrument_occupancy(song@),
{
    let mut allocated: Vec<bool> = Vec::new();
    let mut i: usize = 0;
    while i < N_INSTRUMENTS
        invariant
            i <= N_INSTRUMENTS,
            song@.wf(),
            allocated@.len() == i,
            forall|k: int| 0 <= k < i ==> allocated@[k] == instrument_occupancy(song@)[k],
        decreases N_INSTRUMENTS - i,
    {
        let taken = !song.instruments[i].is_none();
        proof {
            assert(song@.instruments[i as int] == song.instruments@[i as int]@);
        }
        allocated.push(taken);
        i += 1;
    }
    assert(allocated@ =~= instrument_occupancy(song@));
    allocated
}

/// Table slots of `song` that are taken.
pub fn find_allocated_tables(song: &Song) -> (r: Vec<bool>)
    requires
        song@.wf(),
    ensures
        r@ == table_occupancy(song@),
{
    let mut allocated: Vec<bool> = Vec::new();
    let mut i: usize = 0;
    while i < N_TABLES
        invariant
            i <= N_TABLES,
            song@.wf(),
            allocated@.len() == i,
            forall|k: int| 0 <= k < i ==> allocated@[k] == table_occupancy(song@)[k],
        decreases N_TABLES - i,
    {
        let taken = i < N_INSTRUMENTS || !song.tables[i].is_empty();
        proof {
            assert(song@.tables[i as int] == song.tables@[i as int]@);
        }
        allocated.push(taken);
        i += 1;
    }
    assert(allocated@ =~= table_occupancy(song@));
    allocated
}

/// Some of the first `n` rows of chain `c` play phrase `p`.
pub open spec fn chain_plays(c: Seq<ChainStep>, n: int, p: int) -> bool {
    exists|s: int| 0 <= s < n && #[trigger] c[s].phrase == p
}

/// Some of the first `n` chains of `song` play phrase `p`.
pub open spec fn chains_play(song: SongModel, n: int, p: int) -> bool {
    exists|c: int| 0 <= c < n && #[trigger] chain_plays(song.chains[c], song.chains[c].len() as int, p)
}

proof fn lemma_chain_plays_step(c: Seq<ChainStep>, n: int, p: int)
    requires
        0 <= n < c.len(),
    ensures
        chain_plays(c, n + 1, p) <==> (chain_plays(c, n, p) || c[n].phrase == p),
{
    if chain_plays(c, n + 1, p) && c[n].phrase != p {
        let s = choose|s: int| 0 <= s < n + 1 && #[trigger] c[s].phrase == p;
        assert(chain_plays(c, n, p));
    }
    if c[n].phrase == p {
        assert(chain_plays(c, n + 1, p));
    }
}

proof fn lemma_chains_play_step(song: SongModel, n: int, p: int)
    requires
        0 <= n < song.chains.len(),
    ensures
        chains_play(song, n + 1, p) <==> (chains_play(song, n, p) || chain_plays(
            song.chains[n],
            song.chains[n].len() as int,
            p,
        )),
{
    if chains_play(song, n + 1, p) && !chain_plays(song.chains[n], song.chains[n].len() as int, p) {
        let c = choose|c: int| 0 <= c < n + 1 && #[trigger] chain_plays(song.chains[c], song.chains[c].len() as int, p);
        assert(chains_play(song, n, p));
    }
    if chain_plays(song.chains[n], song.chains[n].len() as int, p) {
        assert(chains_play(song, n + 1, p));
    }
}

/// Phrase slots of `song` that are taken.
pub fn find_referenced_phrases(song: &Song) -> (r: Vec<bool>)
    requires
        song@.wf(),
    ensures
        r@ == phrase_occupancy(song@),
{
    let mut allocated: Vec<bool> = vec![false; N_PHRASES];
    let mut c: usize = 0;
    while c < song.chains.len()
        invariant
            c <= song.chains.len(),
            song@.wf(),
            allocated@.len() == N_PHRASES,
            forall|p: int| 0 <= p < N_PHRASES ==> #[trigger] allocated@[p] == chains_play(song@, c as int, p),
        decreases song.chains.len() - c,
    {
        let chain = &song.chains[c];
        let ghost before = allocated@;
        let mut s: usize = 0;
        proof {
            assert(song@.chains[c as int] == chain@);
        }
        while s < chain.steps.len()
            invariant
                c < song.chains.len(),
                chain@ == song@.chains[c as int],
                s <= chain.steps.len(),
                allocated@.len() == N_PHRASES,
                before.len() == N_PHRASES,
                forall|p: int|
                    0 <= p < N_PHRASES ==> #[trigger] allocated@[p] == (before[p] || chain_plays(chain@, s as int, p)),
            decreases chain.steps.len() - s,
        {
            let phrase = chain.steps[s].phrase as usize;
            let ghost prev = allocated@;
            if phrase < N_PHRASES {
                allocated.set(phrase, true);
            }
            s += 1;
            proof {
                assert forall|p: int| 0 <= p < N_PHRASES implies allocated@[p] == (before[p] || chain_plays(
                    chain@,
                    s as int,
                    p,
                )) by {
                    lemma_chain_plays_step(chain@, s - 1, p);
                    assert(prev[p] == (before[p] || chain_plays(chain@, s - 1, p)));
                }
            }
        }
        assert(s == chain@.len());
        proof {
            assert forall|p: int| 0 <= p < N_PHRASES implies allocated@[p] == chains_play(song@, c + 1, p) by {
                lemma_chains_play_step(song@, c as int, p);
            }
        }
        c += 1;
    }
    let mut p: usize = 0;
    while p < N_PHRASES
        invariant
            p <= N_PHRASES,
            song@.wf(),
            allocated@.len() == N_PHRASES,
            forall|q: int| 0 <= q < p ==> allocated@[q] == phrase_occupancy(song@)[q],
            forall|q: int| p <= q < N_PHRASES ==> allocated@[q] == phrase_referenced(song@, q),
        decreases N_PHRASES - p,
    {
        if !song.phrases[p].is_empty() {
            allocated.set(p, true);
        }
        proof {
            assert(song@.phrases[p as int] == song.phrases@[p as int]@);
        }
        p += 1;
    }
    assert(allocated@ =~= phrase_occupancy(song@));
    allocated
}

/// Chain slots of `song` that are taken.
pub fn find_referenced_chains(song: &Song) -> (r: Vec<bool>)
    requires
        song@.wf(),
    ensures
        r@ == chain_occupancy(song@),
{
    let mut allocated: Vec<bool> = vec![false; N_CHAINS];
    let mut k: usize = 0;
    while k < song.sequence.len()
        invariant
            k <= song.sequence.len(),
            allocated@.len() == N_CHAINS,
            forall|c: int|
                0 <= c < N_CHAINS ==> (allocated@[c] <==> exists|k2: int|
                    0 <= k2 < k && #[trigger] song@.sequence[k2] == c),
        decreases song.sequence.len() - k,
    {
        let chain = song.sequence[k] as usize;
        if chain < N_CHAINS {
            allocated.set(chain, true);
        }
        proof {
            assert forall|c: int| 0 <= c < N_CHAINS implies (allocated@[c] <==> exists|k2: int|
                0 <= k2 < k + 1 && #[trigger] song@.sequence[k2] == c) by {
                if song@.sequence[k as int] == c {
                    assert(allocated@[c]);
                }
            }
        }
        k += 1;
    }
    let mut c: usize = 0;
    while c < N_CHAINS
        invariant
            c <= N_CHAINS,
            song@.wf(),
            allocated@.len() == N_CHAINS,
            forall|q: int| 0 <= q < c ==> allocated@[q] == chain_occupancy(song@)[q],
            forall|q: int| c <= q < N_CHAINS ==> allocated@[q] == chain_referenced(song@, q),
        decreases N_CHAINS - c,
    {
        if !song.chains[c].is_empty() {
            allocated.set(c, true);
        }
        proof {
            assert(song@.chains[c as int] == song.chains@[c as int]@);
        }
        c += 1;
    }
    assert(allocated@ =~= chain_occupancy(song@));
    allocated
}

/// Slot chosen by the forward policy: the first free slot at or after the hint,
/// or failing that the first free slot of the table.
pub open spec fn is_forward_slot(s: Seq<bool>, hint: int, p: int) -> bool {
    &&& 0 <= p < s.len()
    &&& !s[p]
    &&& (exists|j: int| hint <= j < s.len() && !#[trigger] s[j]) ==> hint <= p && forall|j: int|
        hint <= j < p ==> #[trigger] s[j]
    &&& !(exists|j: int| hint <= j < s.len() && !#[trigger] s[j]) ==> forall|j: int|
        0 <= j < p ==> #[trigger] s[j]
}

/// Slot chosen by the backward policy: the free slot with the highest index.
pub open spec fn is_backward_slot(s: Seq<bool>, p: int) -> bool {
    &&& 0 <= p < s.len()
    &&& !s[p]
    &&& forall|j: int| p < j < s.len() ==> #[trigger] s[j]
}

pub open spec fn all_taken(s: Seq<bool>) -> bool {
    forall|j: int| 0 <= j < s.len() ==> #[trigger] s[j]
}

/// Forward policy: keep the hint when it is free, else scan forward from it,
/// else scan the whole table from the start.
pub fn try_allocate(allocation_state: &Vec<bool>, previous_id: u8) -> (r: Option<usize>)
    requires
        (previous_id as int) < allocation_state@.len(),
    ensures
        r is None <==> all_taken(allocation_state@),
        r.is_some() ==> is_forward_slot(allocation_state@, previous_id as int, r.unwrap() as int),
{
    let prev = previous_id as usize;
    let n = allocation_state.len();
    let mut i: usize = prev;
    while i < n
        invariant
            prev <= i <= n,
            prev == previous_id as usize,
            n == allocation_state@.len(),
            forall|j: int| prev <= j < i ==> #[trigger] allocation_state@[j],
        decreases n - i,
    {
        if !allocation_state[i] {
            assert(!allocation_state@[i as int]);
            assert(is_forward_slot(allocation_state@, prev as int, i as int));
            return Some(i);
        }
        i += 1;
    }
    assert(!exists|j: int| prev <= j < n && !#[trigger] allocation_state@[j]);
    let mut i: usize = 0;
    while i < n
        invariant
            i <= n,
            prev == previous_id as usize,
            n == allocation_state@.len(),
            forall|j: int| prev <= j < n ==> #[trigger] allocation_state@[j],
            forall|j: int| 0 <= j < i ==> #[trigger] allocation_state@[j],
        decreases n - i,
    {
        if !allocation_state[i] {
            return Some(i);
        }
        i += 1;
    }
    None
}

/// Backward policy: the free slot with the highest index, looked for from the
/// end of the table down to the hint first, then below it.
pub fn try_allocate_rev(allocation_state: &Vec<bool>, previous_id: u8) -> (r: Option<usize>)
    requires
        (previous_id as int) <= allocation_state@.len(),
    ensures
        r is None <==> all_taken(allocation_state@),
        r.is_some() ==> is_backward_slot(allocation_state@, r.unwrap() as int),
{
    let prev = previous_id as usize;
    let n = allocation_state.len();
    let mut i: usize = n;
    while i > prev
        invariant
            prev <= i <= n,
            prev == previous_id as usize,
            n == allocation_state@.len(),
            forall|j: int| i <= j < n ==> #[trigger] allocation_state@[j],
        decreases i,
    {
        if !allocation_state[i - 1] {
            return Some(i - 1);
        }
        i -= 1;
    }
    while i > 0
        invariant
            i <= prev,
            prev <= n,
            n == allocation_state@.len(),
            forall|j: int| i <= j < n ==> #[trigger] allocation_state@[j],
        decreases i,
    {
        if !allocation_state[i - 1] {
            return Some(i - 1);
        }
        i -= 1;
    }
    None
}

} // verus!
