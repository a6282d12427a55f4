//! Properties that relate planning and committing.
use vstd::prelude::*;

use crate::mapping::{
    identity_mapping, map_index, remap_chain, remap_fx, remap_instrument, remap_phrase,
    remap_phrase_step, remap_table,
};
use crate::placement::{accounted, copy_slot};
use crate::song::{
    cleared_chain, cleared_phrase, cleared_table, spec_instrument_eq_count, ChainStep, EMPTY_BYTE,
    Fx, InstrumentModel, N_CHAINS, N_INSTRUMENTS, N_PHRASES, N_TABLES, PhraseStep, SongModel,
    TableStep,
};
use crate::commit::{indexes_within, lands, relocated, renumbered, targeted};
use crate::remapper::Remapper;

verus! {

/// Once a plan made for root chains `roots` is applied, every phrase those
/// chains play and every root chain stands at its planned slot of the
/// destination in its rewritten form.
pub proof fn lemma_roots_land(plan: Remapper, from: SongModel, to: SongModel, after: SongModel, roots: Seq<u8>)
    requires
        plan.valid_for(from, to),
        plan.covers_roots(from, to, roots),
        plan.applied(from, to, after),
    ensures
        forall|k: int, s: int|
            0 <= k < roots.len() && roots[k] < N_CHAINS && 0 <= s < from.chains[roots[k] as int].len()
                && #[trigger] from.chains[roots[k] as int][s].phrase < N_PHRASES
                ==> after.phrases[plan.phrase_mapping.mapping@[from.chains[roots[k] as int][s].phrase as int] as int]
                == plan.phrase_target(from, from.chains[roots[k] as int][s].phrase as int),
        forall|k: int|
            0 <= k < roots.len() && #[trigger] roots[k] < N_CHAINS
                ==> after.chains[plan.chain_mapping.mapping@[roots[k] as int] as int] == plan.chain_target(from, roots[k] as int),
{
    let pm = plan.phrase_mapping;
    let cm = plan.chain_mapping;
    assert forall|k: int, s: int|
        0 <= k < roots.len() && roots[k] < N_CHAINS && 0 <= s < from.chains[roots[k] as int].len()
            && #[trigger] from.chains[roots[k] as int][s].phrase < N_PHRASES
            implies after.phrases[pm.mapping@[from.chains[roots[k] as int][s].phrase as int] as int]
            == plan.phrase_target(from, from.chains[roots[k] as int][s].phrase as int) by {
        let p = from.chains[roots[k] as int][s].phrase;
        let target = plan.phrase_target(from, p as int);
        if pm.to_move@.contains(p) {
            let q = choose|q: int| 0 <= q < pm.to_move@.len() && pm.to_move@[q] == p;
            assert(after.phrases[pm.mapping@[pm.to_move@[q] as int] as int] == target);
        } else {
            let d = pm.mapping@[p as int] as int;
            if targeted(pm.mapping@, pm.to_move@, pm.to_move@.len() as int, d) {
                let q = choose|q: int| 0 <= q < pm.to_move@.len() && #[trigger] pm.to_move@[q] < 256
                    && pm.mapping@[pm.to_move@[q] as int] as int == d;
                assert(copy_slot(pm.mapping@, pm.to_move@, d));
            }
        }
    }
    assert forall|k: int|
        0 <= k < roots.len() && #[trigger] roots[k] < N_CHAINS
            implies after.chains[cm.mapping@[roots[k] as int] as int] == plan.chain_target(from, roots[k] as int) by {
        let c = roots[k];
        let target = plan.chain_target(from, c as int);
        if cm.to_move@.contains(c) {
            let q = choose|q: int| 0 <= q < cm.to_move@.len() && cm.to_move@[q] == c;
            assert(after.chains[cm.mapping@[cm.to_move@[q] as int] as int] == target);
        } else {
            let d = cm.mapping@[c as int] as int;
            if targeted(cm.mapping@, cm.to_move@, cm.to_move@.len() as int, d) {
                let q = choose|q: int| 0 <= q < cm.to_move@.len() && #[trigger] cm.to_move@[q] < 256
                    && cm.mapping@[cm.to_move@[q] as int] as int == d;
                assert(copy_slot(cm.mapping@, cm.to_move@, d));
            }
        }
    }
}

/// Within a valid plan no source entity is listed twice to be copied, and no
/// two copied entities of one kind share a destination slot.
pub proof fn lemma_moved_once(plan: Remapper, from: SongModel, to: SongModel)
    requires
        plan.valid_for(from, to),
    ensures
        forall|a: int, b: int| 0 <= a < b < plan.eq_mapping.to_move@.len() ==>
            #[trigger] plan.eq_mapping.to_move@[a] != #[trigger] plan.eq_mapping.to_move@[b]
            && plan.eq_mapping.mapping@[plan.eq_mapping.to_move@[a] as int] != plan.eq_mapping.mapping@[plan.eq_mapping.to_move@[b] as int],
        forall|a: int, b: int| 0 <= a < b < plan.instrument_mapping.to_move@.len() ==>
            #[trigger] plan.instrument_mapping.to_move@[a] != #[trigger] plan.instrument_mapping.to_move@[b]
            && plan.instrument_mapping.mapping@[plan.instrument_mapping.to_move@[a] as int] != plan.instrument_mapping.mapping@[plan.instrument_mapping.to_move@[b] as int],
        forall|a: int, b: int| 0 <= a < b < plan.table_mapping.to_move@.len() ==>
            #[trigger] plan.table_mapping.to_move@[a] != #[trigger] plan.table_mapping.to_move@[b]
            && plan.table_mapping.mapping@[plan.table_mapping.to_move@[a] as int] != plan.table_mapping.mapping@[plan.table_mapping.to_move@[b] as int],
        forall|a: int, b: int| 0 <= a < b < plan.phrase_mapping.to_move@.len() ==>
            #[trigger] plan.phrase_mapping.to_move@[a] != #[trigger] plan.phrase_mapping.to_move@[b]
            && plan.phrase_mapping.mapping@[plan.phrase_mapping.to_move@[a] as int] != plan.phrase_mapping.mapping@[plan.phrase_mapping.to_move@[b] as int],
        forall|a: int, b: int| 0 <= a < b < plan.chain_mapping.to_move@.len() ==>
            #[trigger] plan.chain_mapping.to_move@[a] != #[trigger] plan.chain_mapping.to_move@[b]
            && plan.chain_mapping.mapping@[plan.chain_mapping.to_move@[a] as int] != plan.chain_mapping.mapping@[plan.chain_mapping.to_move@[b] as int],
{
}

/// A plan that moves nothing and maps every index to itself leaves a song
/// unchanged when renumbering it.
pub proof fn lemma_renumber_without_moves(plan: Remapper, s: SongModel)
    requires
        s.wf(),
        plan.eq_mapping.mapping@ == identity_mapping(spec_instrument_eq_count(s.version)),
        plan.instrument_mapping.mapping@ == identity_mapping(N_INSTRUMENTS as nat),
        plan.table_mapping.mapping@ == identity_mapping(N_TABLES as nat),
        plan.phrase_mapping.mapping@ == identity_mapping(N_PHRASES as nat),
        plan.chain_mapping.mapping@ == identity_mapping(N_CHAINS as nat),
        plan.eq_mapping.to_move@.len() == 0,
        plan.instrument_mapping.to_move@.len() == 0,
        plan.table_mapping.to_move@.len() == 0,
        plan.phrase_mapping.to_move@.len() == 0,
        plan.chain_mapping.to_move@.len() == 0,
    ensures
        renumbered(plan, s) == s,
{
    let im = plan.instrument_mapping;
    let tm = plan.table_mapping;
    let em = plan.eq_mapping;
    let pm = plan.phrase_mapping;
    assert forall|i: int| 0 <= i < s.instruments.len() implies #[trigger] remap_instrument(s.instruments[i], em) == s.instruments[i] by {
        let x = s.instruments[i];
        if let Some(e) = x.equ() {
            if (e as int) < em.mapping@.len() {
                assert(em.mapping@[e as int] == e);
            }
        }
    }
    assert(s.instruments.map_values(|i: InstrumentModel| remap_instrument(i, em)) =~= s.instruments);
    assert forall|p: int| 0 <= p < s.phrases.len() implies #[trigger] remap_phrase(s.phrases[p], im, tm, em) == s.phrases[p] by {
        let ph = s.phrases[p];
        assert forall|q: int| 0 <= q < ph.len() implies #[trigger] remap_phrase_step(ph[q], im, tm, em) == ph[q] by {
            let st = ph[q];
            assert forall|f: Fx| #[trigger] remap_fx(f, im, tm, em) == f by {
                if (f.value as int) < im.mapping@.len() {
                    assert(im.mapping@[f.value as int] == f.value);
                }
                if (f.value as int) < tm.mapping@.len() {
                    assert(tm.mapping@[f.value as int] == f.value);
                }
                if (f.value as int) < em.mapping@.len() {
                    assert(em.mapping@[f.value as int] == f.value);
                }
            }
            if (st.instrument as int) < im.mapping@.len() {
                assert(im.mapping@[st.instrument as int] == st.instrument);
            }
            assert(remap_fx(st.fx1, im, tm, em) == st.fx1);
            assert(remap_fx(st.fx2, im, tm, em) == st.fx2);
            assert(remap_fx(st.fx3, im, tm, em) == st.fx3);
        }
        assert(remap_phrase(ph, im, tm, em) =~= ph);
    }
    assert(s.phrases.map_values(|p: Seq<PhraseStep>| remap_phrase(p, im, tm, em)) =~= s.phrases);
    assert forall|c: int| 0 <= c < s.chains.len() implies #[trigger] remap_chain(s.chains[c], pm) == s.chains[c] by {
        let ch = s.chains[c];
        assert forall|q: int| 0 <= q < ch.len() implies (ChainStep { phrase: map_index(pm.mapping@, ch[q].phrase), ..ch[q] })
            == #[trigger] ch[q] by {
            if (ch[q].phrase as int) < pm.mapping@.len() {
                assert(pm.mapping@[ch[q].phrase as int] == ch[q].phrase);
            }
        }
        assert(remap_chain(ch, pm) =~= ch);
    }
    assert(s.chains.map_values(|c: Seq<ChainStep>| remap_chain(c, pm)) =~= s.chains);
    assert(renumbered(plan, s) =~= s);
}

/// Once a plan is applied, every instrument that the root chains reach
/// stands at its planned slot in its rewritten form; every table they reach
/// that is not bound to an instrument stands, rewritten, at its slot; every
/// equalizer they reach stands at its slot.
pub proof fn lemma_reached_land(
    plan: Remapper,
    from: SongModel,
    to: SongModel,
    after: SongModel,
    roots: Seq<u8>,
    fi: Seq<bool>,
    ft: Seq<bool>,
    fe: Seq<bool>,
)
    requires
        plan.valid_for(from, to),
        plan.reach_closed(from, to, roots, fi, ft, fe),
        plan.applied(from, to, after),
    ensures
        forall|i: int| 0 <= i < N_INSTRUMENTS && #[trigger] fi[i]
            ==> after.instruments[plan.instrument_mapping.mapping@[i] as int] == remap_instrument(from.instruments[i], plan.eq_mapping),
        forall|t: int| N_INSTRUMENTS <= t < N_TABLES && #[trigger] ft[t]
            ==> after.tables[plan.table_mapping.mapping@[t] as int] == remap_table(from.tables[t], plan.instrument_mapping,
                plan.table_mapping, plan.eq_mapping),
        forall|e: int| 0 <= e < fe.len() && #[trigger] fe[e]
            ==> after.eqs[plan.eq_mapping.mapping@[e] as int] == from.eqs[e],
{
    let im = plan.instrument_mapping;
    let tm = plan.table_mapping;
    let em = plan.eq_mapping;
    assert forall|i: int| 0 <= i < N_INSTRUMENTS && #[trigger] fi[i]
        implies after.instruments[im.mapping@[i] as int] == remap_instrument(from.instruments[i], em) by {
        let target = remap_instrument(from.instruments[i], em);
        if im.to_move@.contains(i as u8) {
            let q = choose|q: int| 0 <= q < im.to_move@.len() && im.to_move@[q] == i as u8;
            assert(after.instruments[im.mapping@[im.to_move@[q] as int] as int] == target);
        } else {
            let d = im.mapping@[i] as int;
            if targeted(im.mapping@, im.to_move@, im.to_move@.len() as int, d) {
                let q = choose|q: int| 0 <= q < im.to_move@.len() && #[trigger] im.to_move@[q] < 256
                    && im.mapping@[im.to_move@[q] as int] as int == d;
                assert(copy_slot(im.mapping@, im.to_move@, d));
            }
        }
    }
    assert forall|t: int| N_INSTRUMENTS <= t < N_TABLES && #[trigger] ft[t]
        implies after.tables[tm.mapping@[t] as int] == remap_table(from.tables[t], im, tm, em) by {
        let q = choose|q: int| 0 <= q < tm.to_move@.len() && tm.to_move@[q] == t as u8;
        assert(after.tables[tm.mapping@[tm.to_move@[q] as int] as int] == remap_table(from.tables[t], im, tm, em));
    }
    assert forall|e: int| 0 <= e < fe.len() && #[trigger] fe[e]
        implies after.eqs[em.mapping@[e] as int] == from.eqs[e] by {
        let n = spec_instrument_eq_count(to.version);
        if em.to_move@.contains(e as u8) {
            let q = choose|q: int| 0 <= q < em.to_move@.len() && em.to_move@[q] == e as u8;
            assert(after.eqs[em.mapping@[em.to_move@[q] as int] as int] == from.eqs[e]);
        } else {
            let d = em.mapping@[e] as int;
            assert(to.eqs.subrange(0, n as int)[d] == to.eqs[d]);
            if targeted(em.mapping@, em.to_move@, em.to_move@.len() as int, d) {
                let q = choose|q: int| 0 <= q < em.to_move@.len() && #[trigger] em.to_move@[q] < 256
                    && em.mapping@[em.to_move@[q] as int] as int == d;
                assert(copy_slot(em.mapping@, em.to_move@, d));
            }
        }
    }
}

proof fn lemma_lands_unique<T>(before: Seq<T>, a: Seq<T>, b: Seq<T>, map: Seq<u8>, to_move: Seq<u8>, value: spec_fn(int) -> T)
    requires
        lands(before, a, map, to_move, to_move.len() as int, value),
        lands(before, b, map, to_move, to_move.len() as int, value),
    ensures
        a == b,
{
    assert forall|j: int| 0 <= j < a.len() implies a[j] == b[j] by {
        if targeted(map, to_move, to_move.len() as int, j) {
            let k = choose|k: int| 0 <= k < to_move.len() && #[trigger] to_move[k] < 256 && map[to_move[k] as int] as int == j;
            assert(a[map[to_move[k] as int] as int] == value(to_move[k] as int));
            assert(b[map[to_move[k] as int] as int] == value(to_move[k] as int));
        }
    }
    assert(a =~= b);
}

/// Applying one plan to the same two songs always gives the same song.
pub proof fn lemma_apply_deterministic(plan: Remapper, from: SongModel, to: SongModel, a: SongModel, b: SongModel)
    requires
        plan.valid_for(from, to),
        plan.applied(from, to, a),
        plan.applied(from, to, b),
    ensures
        a == b,
{
    let im = plan.instrument_mapping;
    let tm = plan.table_mapping;
    let em = plan.eq_mapping;
    lemma_lands_unique(to.eqs, a.eqs, b.eqs, em.mapping@, em.to_move@, |x: int| from.eqs[x]);
    lemma_lands_unique(to.instruments, a.instruments, b.instruments, im.mapping@, im.to_move@,
        |x: int| remap_instrument(from.instruments[x], em));
    lemma_lands_unique(to.phrases, a.phrases, b.phrases, plan.phrase_mapping.mapping@, plan.phrase_mapping.to_move@,
        |x: int| remap_phrase(from.phrases[x], im, tm, em));
    lemma_lands_unique(to.chains, a.chains, b.chains, plan.chain_mapping.mapping@, plan.chain_mapping.to_move@,
        |x: int| remap_chain(from.chains[x], plan.phrase_mapping));
    assert forall|j: int| 0 <= j < N_TABLES implies #[trigger] a.tables[j] == b.tables[j] by {
        if targeted(im.mapping@, im.to_move@, im.to_move@.len() as int, j) {
            let k = choose|k: int| 0 <= k < im.to_move@.len() && #[trigger] im.to_move@[k] < 256
                && im.mapping@[im.to_move@[k] as int] as int == j;
            assert(a.tables[im.mapping@[im.to_move@[k] as int] as int] == b.tables[im.mapping@[im.to_move@[k] as int] as int]);
        } else if targeted(tm.mapping@, tm.to_move@, tm.to_move@.len() as int, j) {
            let k = choose|k: int| 0 <= k < tm.to_move@.len() && #[trigger] tm.to_move@[k] < 256
                && tm.mapping@[tm.to_move@[k] as int] as int == j;
            assert(a.tables[tm.mapping@[tm.to_move@[k] as int] as int] == b.tables[tm.mapping@[tm.to_move@[k] as int] as int]);
        }
    }
    assert(a.tables =~= b.tables);
    assert(a == b);
}


/// Rewriting references through a plan whose command codes come from a
/// command-name table leaves a cleared phrase, table or chain as it is: the
/// slots that `renumber` clears stay empty.
pub proof fn lemma_cleared_unchanged(
    plan: Remapper,
    names: Seq<String>,
    p: Seq<PhraseStep>,
    t: Seq<TableStep>,
    c: Seq<ChainStep>,
)
    requires
        plan.classified_by(names),
        plan.instrument_mapping.mapping@.len() == N_INSTRUMENTS,
        plan.phrase_mapping.mapping@.len() == N_PHRASES,
    ensures
        remap_phrase(cleared_phrase(p), plan.instrument_mapping, plan.table_mapping, plan.eq_mapping) == cleared_phrase(p),
        remap_table(cleared_table(t), plan.instrument_mapping, plan.table_mapping, plan.eq_mapping) == cleared_table(t),
        remap_chain(cleared_chain(c), plan.phrase_mapping) == cleared_chain(c),
{
    let im = plan.instrument_mapping;
    let tm = plan.table_mapping;
    let em = plan.eq_mapping;
    assert(!im.instrument_tracking_commands@.contains(EMPTY_BYTE));
    assert(!tm.table_tracking_commands@.contains(EMPTY_BYTE));
    assert(!em.eq_tracking_commands@.contains(EMPTY_BYTE));
    assert(remap_fx(Fx::empty_spec(), im, tm, em) == Fx::empty_spec());
    assert(remap_phrase_step(PhraseStep::empty_spec(), im, tm, em) == PhraseStep::empty_spec());
    assert(remap_phrase(cleared_phrase(p), im, tm, em) =~= cleared_phrase(p));
    assert(remap_table(cleared_table(t), im, tm, em) =~= cleared_table(t));
    assert(remap_chain(cleared_chain(c), plan.phrase_mapping) =~= cleared_chain(c));
}

/// A reused entity sits in a slot that was in use in the destination, a
/// copied one in a slot that was free: no reused phrase, chain or instrument
/// shares its slot with a copied entity of the same kind.
pub proof fn lemma_reused_apart(plan: Remapper, from: SongModel, to: SongModel, roots: Seq<u8>, fi: Seq<bool>, ft: Seq<bool>, fe: Seq<bool>)
    requires
        plan.valid_for(from, to),
        plan.covers_roots(from, to, roots),
        plan.reach_closed(from, to, roots, fi, ft, fe),
    ensures
        forall|k: int, s: int, q: int|
            0 <= k < roots.len() && roots[k] < N_CHAINS && 0 <= s < from.chains[roots[k] as int].len()
                && #[trigger] from.chains[roots[k] as int][s].phrase < N_PHRASES
                && !plan.phrase_mapping.to_move@.contains(from.chains[roots[k] as int][s].phrase) && 0 <= q
                < plan.phrase_mapping.to_move@.len() ==> plan.phrase_mapping.mapping@[from.chains[roots[k] as int][s].phrase as int]
                != plan.phrase_mapping.mapping@[#[trigger] plan.phrase_mapping.to_move@[q] as int],
        forall|k: int, q: int|
            0 <= k < roots.len() && #[trigger] roots[k] < N_CHAINS && !plan.chain_mapping.to_move@.contains(roots[k]) && 0 <= q
                < plan.chain_mapping.to_move@.len() ==> plan.chain_mapping.mapping@[roots[k] as int]
                != plan.chain_mapping.mapping@[#[trigger] plan.chain_mapping.to_move@[q] as int],
        forall|i: int, q: int|
            0 <= i < N_INSTRUMENTS && #[trigger] fi[i] && !plan.instrument_mapping.to_move@.contains(i as u8) && 0 <= q
                < plan.instrument_mapping.to_move@.len() ==> plan.instrument_mapping.mapping@[i]
                != plan.instrument_mapping.mapping@[#[trigger] plan.instrument_mapping.to_move@[q] as int],
{
}

/// When no move reads a slot that another move writes, and all sources and
/// all targets are distinct, each target receives `f` of its source, each
/// source is cleared, and every other slot keeps its value.
pub proof fn lemma_relocated_apart<T>(s: Seq<T>, map: Seq<u8>, to_move: Seq<u8>, n: int, f: spec_fn(T) -> T, clear: spec_fn(T) -> T)
    requires
        0 <= n <= to_move.len(),
        indexes_within(map, to_move, s.len()),
        forall|a: int, b: int| 0 <= a < b < to_move.len() ==> #[trigger] to_move[a] != #[trigger] to_move[b],
        forall|a: int, b: int| 0 <= a < b < to_move.len() ==> map[#[trigger] to_move[a] as int] != map[#[trigger] to_move[b] as int],
        forall|a: int, b: int| 0 <= a < to_move.len() && 0 <= b < to_move.len() ==> map[#[trigger] to_move[a] as int] != #[trigger] to_move[b],
    ensures
        relocated(s, map, to_move, n, f, clear).len() == s.len(),
        forall|k: int| 0 <= k < n ==> relocated(s, map, to_move, n, f, clear)[map[#[trigger] to_move[k] as int] as int]
            == f(s[to_move[k] as int]),
        forall|k: int| 0 <= k < n ==> relocated(s, map, to_move, n, f, clear)[#[trigger] to_move[k] as int]
            == clear(s[to_move[k] as int]),
        forall|j: int| 0 <= j < s.len() && (forall|k: int| 0 <= k < n ==> #[trigger] to_move[k] != j && map[to_move[k] as int] != j)
            ==> relocated(s, map, to_move, n, f, clear)[j] == s[j],
    decreases n,
{
    if n > 0 {
        lemma_relocated_apart(s, map, to_move, n - 1, f, clear);
        let prev = relocated(s, map, to_move, n - 1, f, clear);
        let src = to_move[n - 1] as int;
        let dst = map[src] as int;
        assert(to_move[n - 1] < 256 && (src as int) < s.len() && dst < s.len());
        assert forall|k: int| 0 <= k < n - 1 implies #[trigger] to_move[k] != src && map[to_move[k] as int] != src by {
            assert(to_move[k] != to_move[n - 1]);
            assert(map[to_move[k] as int] != to_move[n - 1]);
        }
        assert(prev[src] == s[src]);
        assert(dst != src) by {
            assert(map[to_move[n - 1] as int] != to_move[n - 1]);
        }
        assert forall|k: int| 0 <= k < n - 1 implies map[#[trigger] to_move[k] as int] != dst && to_move[k] as int != dst by {
            assert(map[to_move[k] as int] != map[to_move[n - 1] as int]);
            assert(map[to_move[n - 1] as int] != to_move[k]);
        }
    }
}

/// Two reached instruments that the destination does not hold (such as two
/// that switch to each other with NXT) are each copied exactly once, to two
/// distinct slots.
pub proof fn lemma_pair_copied_once(
    plan: Remapper,
    from: SongModel,
    to: SongModel,
    roots: Seq<u8>,
    fi: Seq<bool>,
    ft: Seq<bool>,
    fe: Seq<bool>,
    a: int,
    b: int,
)
    requires
        plan.valid_for(from, to),
        plan.reach_closed(from, to, roots, fi, ft, fe),
        0 <= a < N_INSTRUMENTS,
        0 <= b < N_INSTRUMENTS,
        a != b,
        fi[a],
        fi[b],
        forall|j: int| 0 <= j < to.instruments.len() ==> #[trigger] to.instruments[j] != remap_instrument(from.instruments[a], plan.eq_mapping),
        forall|j: int| 0 <= j < to.instruments.len() ==> #[trigger] to.instruments[j] != remap_instrument(from.instruments[b], plan.eq_mapping),
    ensures
        plan.instrument_mapping.to_move@.contains(a as u8),
        plan.instrument_mapping.to_move@.contains(b as u8),
        forall|k1: int, k2: int| 0 <= k1 < plan.instrument_mapping.to_move@.len() && 0 <= k2 < plan.instrument_mapping.to_move@.len()
            && #[trigger] plan.instrument_mapping.to_move@[k1] == #[trigger] plan.instrument_mapping.to_move@[k2] ==> k1 == k2,
        plan.instrument_mapping.mapping@[a] != plan.instrument_mapping.mapping@[b],
{
    let im = plan.instrument_mapping;
    assert(accounted(to.instruments, remap_instrument(from.instruments[a], plan.eq_mapping), im.mapping@, im.to_move@, a));
    assert(accounted(to.instruments, remap_instrument(from.instruments[b], plan.eq_mapping), im.mapping@, im.to_move@, b));
    lemma_moved_once(plan, from, to);
    let ka = choose|k: int| 0 <= k < im.to_move@.len() && im.to_move@[k] == a as u8;
    let kb = choose|k: int| 0 <= k < im.to_move@.len() && im.to_move@[k] == b as u8;
    assert(ka != kb);
    if ka < kb {
        assert(im.mapping@[im.to_move@[ka] as int] != im.mapping@[im.to_move@[kb] as int]);
    } else {
        assert(im.mapping@[im.to_move@[kb] as int] != im.mapping@[im.to_move@[ka] as int]);
    }
    assert forall|k1: int, k2: int| 0 <= k1 < im.to_move@.len() && 0 <= k2 < im.to_move@.len()
        && #[trigger] im.to_move@[k1] == #[trigger] im.to_move@[k2] implies k1 == k2 by {
        if k1 < k2 {
            assert(im.to_move@[k1] != im.to_move@[k2]);
        } else if k2 < k1 {
            assert(im.to_move@[k2] != im.to_move@[k1]);
        }
    }
}
} // verus!
