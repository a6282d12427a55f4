//! Soundness of a slot placement: fresh, distinct slots, and the account of
//! every processed entity.
use vstd::prelude::*;

use crate::mapping::moves_in_range;
use crate::slots::{is_backward_slot, is_forward_slot};

verus! {

/// Placement of one kind: the slots taken in the destination (`alloc`) cover
/// those taken from the start (`init`); every entity to be copied has been
/// processed, has an index of at least `lo`, and sits in a slot that was free
/// at the start and is now taken; no two of them share a slot. Every
/// processed entity from `lo` on sits in a taken slot, and the slots taken
/// during the pass are no more than the entities processed from `lo` on.
pub open spec fn placement_inv(
    alloc: Seq<bool>,
    init: Seq<bool>,
    map: Seq<u8>,
    to_move: Seq<u8>,
    flags: Seq<bool>,
    lo: int,
) -> bool {
    &&& alloc.len() == init.len()
    &&& flags.len() == map.len()
    &&& 0 <= lo <= flags.len()
    &&& unseen(init) - unseen(alloc) + unseen(flags.subrange(lo, flags.len() as int)) <= flags.len() - lo
    &&& forall|j: int| 0 <= j < init.len() && #[trigger] init[j] ==> alloc[j]
    &&& forall|k: int|
        0 <= k < to_move.len() ==> {
            &&& (#[trigger] to_move[k] as int) < map.len()
            &&& lo <= to_move[k]
            &&& flags[to_move[k] as int]
            &&& (map[to_move[k] as int] as int) < alloc.len()
            &&& alloc[map[to_move[k] as int] as int]
            &&& !init[map[to_move[k] as int] as int]
        }
    &&& forall|a: int, b: int|
        0 <= a < b < to_move.len() ==> map[#[trigger] to_move[a] as int] != map[#[trigger] to_move[b] as int]
    &&& forall|x: int| lo <= x < flags.len() && #[trigger] flags[x] ==> (map[x] as int) < alloc.len() && alloc[map[x] as int]
}

/// The entities of one kind to be copied sit in distinct destination slots,
/// each below `init.len()` and free in the destination before the plan.
pub open spec fn placed(map: Seq<u8>, to_move: Seq<u8>, init: Seq<bool>) -> bool {
    &&& moves_in_range(map, to_move)
    &&& forall|k: int|
        0 <= k < to_move.len() ==> (map[#[trigger] to_move[k] as int] as int) < init.len()
            && !init[map[to_move[k] as int] as int]
    &&& forall|a: int, b: int|
        0 <= a < b < to_move.len() ==> map[#[trigger] to_move[a] as int] != map[#[trigger] to_move[b] as int]
}

/// Slot `j` receives a copy: some entity to be copied is placed there.
pub open spec fn copy_slot(map: Seq<u8>, to_move: Seq<u8>, j: int) -> bool {
    exists|k: int| 0 <= k < to_move.len() && map[#[trigger] to_move[k] as int] as int == j
}

/// `x` is accounted for in a placement towards `dest`: either it is to be
/// copied and every slot of `dest` holding `target` receives a copy, or it
/// is not copied and its slot is the first slot of `dest` that holds
/// `target` and receives no copy.
pub open spec fn accounted<T>(dest: Seq<T>, target: T, map: Seq<u8>, to_move: Seq<u8>, x: int) -> bool {
    ||| (to_move.contains(x as u8) && forall|j: int| 0 <= j < dest.len() && #[trigger] dest[j] == target
        ==> copy_slot(map, to_move, j))
    ||| (!to_move.contains(x as u8) && (map[x] as int) < dest.len() && dest[map[x] as int] == target
        && !copy_slot(map, to_move, map[x] as int) && forall|j: int| 0 <= j < map[x] && #[trigger] dest[j] == target
        ==> copy_slot(map, to_move, j))
}

/// Number of `false` entries of `s`.
pub open spec fn unseen(s: Seq<bool>) -> nat
    decreases s.len(),
{
    if s.len() == 0 {
        0
    } else {
        unseen(s.drop_last()) + if s.last() {
            0nat
        } else {
            1nat
        }
    }
}

pub proof fn lemma_unseen_mark(s: Seq<bool>, i: int)
    requires
        0 <= i < s.len(),
        !s[i],
    ensures
        unseen(s.update(i, true)) + 1 == unseen(s),
    decreases s.len(),
{
    if i == s.len() - 1 {
        assert(s.update(i, true).drop_last() =~= s.drop_last());
    } else {
        lemma_unseen_mark(s.drop_last(), i);
        assert(s.update(i, true).drop_last() =~= s.drop_last().update(i, true));
    }
}

/// A sequence whose first `lo` entries are true and the rest false has
/// `len - lo` false entries.
pub proof fn lemma_unseen_count(s: Seq<bool>, lo: int)
    requires
        0 <= lo <= s.len(),
        forall|j: int| 0 <= j < lo ==> #[trigger] s[j],
        forall|j: int| lo <= j < s.len() ==> !#[trigger] s[j],
    ensures
        unseen(s) == s.len() - lo,
    decreases s.len(),
{
    if s.len() > 0 {
        if lo == s.len() {
            lemma_unseen_count(s.drop_last(), lo - 1);
        } else {
            lemma_unseen_count(s.drop_last(), lo);
        }
    }
}

/// When every slot is taken, no more entities fit than the free slots the
/// destination had at the start: a further unprocessed one, from `lo` on,
/// proves the start had fewer free slots than there are entities from `lo` on.
pub proof fn lemma_no_room(alloc: Seq<bool>, init: Seq<bool>, map: Seq<u8>, to_move: Seq<u8>, flags: Seq<bool>, lo: int, x: int)
    requires
        placement_inv(alloc, init, map, to_move, flags, lo),
        forall|j: int| 0 <= j < alloc.len() ==> #[trigger] alloc[j],
        lo <= x < flags.len(),
        !flags[x],
    ensures
        unseen(init) < flags.len() - lo,
{
    lemma_unseen_count(alloc, alloc.len() as int);
    lemma_unseen_mark(flags.subrange(lo, flags.len() as int), x - lo);
}

pub proof fn lemma_push_contains(s: Seq<u8>, y: u8, x: u8)
    ensures
        s.push(y).contains(x) <==> (s.contains(x) || x == y),
{
    if s.contains(x) {
        let k = choose|k: int| 0 <= k < s.len() && s[k] == x;
        assert(s.push(y)[k] == x);
    }
    if x == y {
        assert(s.push(y)[s.len() as int] == x);
    }
    if s.push(y).contains(x) && x != y {
        let k = choose|k: int| 0 <= k < s.push(y).len() && s.push(y)[k] == x;
        assert(s[k] == x);
    }
}

/// Processing `x` and giving it slot `slot`, free until now, keeps the placement sound.
pub proof fn lemma_place(alloc: Seq<bool>, init: Seq<bool>, map: Seq<u8>, to_move: Seq<u8>, flags: Seq<bool>, x: int, slot: int, lo: int)
    requires
        placement_inv(alloc, init, map, to_move, flags, lo),
        lo <= x,
        0 <= x < map.len(),
        map.len() <= 256,
        !flags[x],
        0 <= slot < alloc.len(),
        alloc.len() <= 256,
        !alloc[slot],
    ensures
        placement_inv(alloc.update(slot, true), init, map.update(x, slot as u8), to_move.push(x as u8), flags.update(x, true), lo),
{
    lemma_unseen_mark(alloc, slot);
    lemma_unseen_mark(flags.subrange(lo, flags.len() as int), x - lo);
    assert(flags.update(x, true).subrange(lo, flags.len() as int) =~= flags.subrange(lo, flags.len() as int).update(x - lo, true));
    let alloc2 = alloc.update(slot, true);
    let map2 = map.update(x, slot as u8);
    let tm2 = to_move.push(x as u8);
    let flags2 = flags.update(x, true);
    assert forall|k: int| 0 <= k < to_move.len() implies #[trigger] to_move[k] as int != x by {}
    assert forall|k: int| 0 <= k < tm2.len() implies {
        &&& (#[trigger] tm2[k] as int) < map2.len()
        &&& flags2[tm2[k] as int]
        &&& (map2[tm2[k] as int] as int) < alloc2.len()
        &&& alloc2[map2[tm2[k] as int] as int]
        &&& !init[map2[tm2[k] as int] as int]
    } by {
        if k < to_move.len() {
            assert(tm2[k] == to_move[k]);
        }
    }
    assert forall|a: int, b: int| 0 <= a < b < tm2.len() implies map2[#[trigger] tm2[a] as int] != map2[#[trigger] tm2[b] as int] by {
        assert(tm2[a] == to_move[a]);
        if b < to_move.len() {
            assert(tm2[b] == to_move[b]);
        } else {
            assert(alloc[map[to_move[a] as int] as int]);
        }
    }
    assert forall|y: int| lo <= y < flags2.len() && #[trigger] flags2[y] implies (map2[y] as int) < alloc2.len()
        && alloc2[map2[y] as int] by {
        if y != x {
            assert(flags[y]);
        }
    }
}

/// Processing `x` (from `lo` on) without copying it, and placing it at slot
/// `v`, which is taken from now on, keeps the placement sound.
pub proof fn lemma_reuse(alloc: Seq<bool>, init: Seq<bool>, map: Seq<u8>, to_move: Seq<u8>, flags: Seq<bool>, x: int, v: u8, lo: int)
    requires
        placement_inv(alloc, init, map, to_move, flags, lo),
        lo <= x < map.len(),
        !flags[x],
        (v as int) < alloc.len(),
    ensures
        placement_inv(alloc.update(v as int, true), init, map.update(x, v), to_move, flags.update(x, true), lo),
{
    let alloc2 = alloc.update(v as int, true);
    let map2 = map.update(x, v);
    let flags2 = flags.update(x, true);
    lemma_unseen_mark(flags.subrange(lo, flags.len() as int), x - lo);
    assert(flags2.subrange(lo, flags.len() as int) =~= flags.subrange(lo, flags.len() as int).update(x - lo, true));
    if alloc[v as int] {
        assert(alloc2 =~= alloc);
    } else {
        lemma_unseen_mark(alloc, v as int);
    }
    assert forall|k: int| 0 <= k < to_move.len() implies #[trigger] to_move[k] as int != x by {}
    assert forall|a: int, b: int| 0 <= a < b < to_move.len() implies map2[#[trigger] to_move[a] as int] != map2[#[trigger] to_move[b] as int] by {
        assert(to_move[a] as int != x);
        assert(to_move[b] as int != x);
    }
    assert forall|y: int| lo <= y < flags2.len() && #[trigger] flags2[y] implies (map2[y] as int) < alloc2.len()
        && alloc2[map2[y] as int] by {
        if y != x {
            assert(flags[y]);
        }
    }
}

/// Processing `x` below `lo`, which keeps its slot, keeps the placement sound.
pub proof fn lemma_bound(alloc: Seq<bool>, init: Seq<bool>, map: Seq<u8>, to_move: Seq<u8>, flags: Seq<bool>, x: int, lo: int)
    requires
        placement_inv(alloc, init, map, to_move, flags, lo),
        0 <= x < lo,
    ensures
        placement_inv(alloc, init, map, to_move, flags.update(x, true), lo),
{
    assert(flags.update(x, true).subrange(lo, flags.len() as int) =~= flags.subrange(lo, flags.len() as int));
    assert forall|y: int| lo <= y < flags.len() && #[trigger] flags.update(x, true)[y] implies (map[y] as int) < alloc.len()
        && alloc[map[y] as int] by {
        assert(flags[y]);
    }
    assert forall|k: int| 0 <= k < to_move.len() implies #[trigger] flags.update(x, true)[to_move[k] as int] by {
        assert(flags[to_move[k] as int]);
    }
}

/// A successful allocation pass leaves a sound placement.
pub proof fn lemma_placed(alloc: Seq<bool>, init: Seq<bool>, map: Seq<u8>, to_move: Seq<u8>, flags: Seq<bool>, lo: int)
    requires
        placement_inv(alloc, init, map, to_move, flags, lo),
    ensures
        placed(map, to_move, init),
{
    assert forall|k: int| 0 <= k < to_move.len() implies (map[#[trigger] to_move[k] as int] as int) < init.len()
        && !init[map[to_move[k] as int] as int] by {}
}

/// Adding `y`, not yet listed, at slot `v` adds `v` to the slots that
/// receive a copy, and no other.
pub proof fn lemma_copy_slot_step(map: Seq<u8>, to_move: Seq<u8>, y: int, v: u8, pushed: bool, j: int)
    requires
        forall|k: int| 0 <= k < to_move.len() ==> (#[trigger] to_move[k] as int) < map.len(),
        0 <= y < map.len(),
        forall|k: int| 0 <= k < to_move.len() ==> #[trigger] to_move[k] as int != y,
        y < 256,
    ensures
        copy_slot(map.update(y, v), if pushed { to_move.push(y as u8) } else { to_move }, j)
            <==> (copy_slot(map, to_move, j) || (pushed && j == v as int)),
{
    let map2 = map.update(y, v);
    let tm2 = if pushed { to_move.push(y as u8) } else { to_move };
    if copy_slot(map, to_move, j) {
        let k = choose|k: int| 0 <= k < to_move.len() && map[#[trigger] to_move[k] as int] as int == j;
        assert(tm2[k] == to_move[k]);
        assert(to_move[k] as int != y);
        assert(map2[to_move[k] as int] == map[to_move[k] as int]);
        assert(map2[tm2[k] as int] as int == j);
    }
    if pushed && j == v as int {
        assert(tm2[to_move.len() as int] == y as u8);
        assert(map2[tm2[to_move.len() as int] as int] as int == j);
    }
    if copy_slot(map2, tm2, j) {
        let k = choose|k: int| 0 <= k < tm2.len() && map2[#[trigger] tm2[k] as int] as int == j;
        if k < to_move.len() {
            assert(tm2[k] == to_move[k]);
            assert(to_move[k] as int != y);
            assert(map2[to_move[k] as int] == map[to_move[k] as int]);
            assert(map[to_move[k] as int] as int == j);
        }
    }
}

/// Placing `y`, not yet listed, leaves the account of any other `x` as it
/// was, when a copy goes to a slot that is not yet taken.
pub proof fn lemma_accounted_frame<T>(
    dest: Seq<T>,
    target: T,
    map: Seq<u8>,
    to_move: Seq<u8>,
    x: int,
    y: int,
    v: u8,
    pushed: bool,
    alloc: Seq<bool>,
)
    requires
        forall|k: int| 0 <= k < to_move.len() ==> (#[trigger] to_move[k] as int) < map.len(),
        accounted(dest, target, map, to_move, x),
        x != y,
        0 <= x < map.len(),
        0 <= y < map.len(),
        map.len() <= 256,
        forall|k: int| 0 <= k < to_move.len() ==> #[trigger] to_move[k] as int != y,
        pushed ==> (map[x] as int) < alloc.len() && alloc[map[x] as int] && (v as int) < alloc.len() && !alloc[v as int],
    ensures
        accounted(dest, target, map.update(y, v), if pushed { to_move.push(y as u8) } else { to_move }, x),
{
    lemma_push_contains(to_move, y as u8, x as u8);
    let map2 = map.update(y, v);
    let tm2 = if pushed { to_move.push(y as u8) } else { to_move };
    assert forall|j: int| copy_slot(map, to_move, j) implies #[trigger] copy_slot(map2, tm2, j) by {
        lemma_copy_slot_step(map, to_move, y, v, pushed, j);
    }
    if !to_move.contains(x as u8) {
        lemma_copy_slot_step(map, to_move, y, v, pushed, map[x] as int);
    }
}

/// The entity `y` just placed is accounted for: copied when every equal
/// slot receives a copy, else placed at the first equal slot that receives
/// none.
pub proof fn lemma_account_new<T>(
    dest: Seq<T>,
    target: T,
    map: Seq<u8>,
    to_move: Seq<u8>,
    y: int,
    v: u8,
    pushed: bool,
)
    requires
        forall|k: int| 0 <= k < to_move.len() ==> (#[trigger] to_move[k] as int) < map.len(),
        0 <= y < map.len(),
        y < 256,
        forall|k: int| 0 <= k < to_move.len() ==> #[trigger] to_move[k] as int != y,
        pushed ==> forall|j: int| 0 <= j < dest.len() && #[trigger] dest[j] == target ==> copy_slot(map, to_move, j),
        !pushed ==> (v as int) < dest.len() && dest[v as int] == target && !copy_slot(map, to_move, v as int)
            && forall|j: int| 0 <= j < v && #[trigger] dest[j] == target ==> copy_slot(map, to_move, j),
    ensures
        accounted(dest, target, map.update(y, v), if pushed { to_move.push(y as u8) } else { to_move }, y),
{
    let map2 = map.update(y, v);
    let tm2 = if pushed { to_move.push(y as u8) } else { to_move };
    lemma_push_contains(to_move, y as u8, y as u8);
    if to_move.contains(y as u8) {
        let k = choose|k: int| 0 <= k < to_move.len() && to_move[k] == y as u8;
        assert(to_move[k] as int != y);
    }
    assert forall|j: int| copy_slot(map, to_move, j) implies #[trigger] copy_slot(map2, tm2, j) by {
        lemma_copy_slot_step(map, to_move, y, v, pushed, j);
    }
    if !pushed {
        lemma_copy_slot_step(map, to_move, y, v, pushed, v as int);
    }
}

/// A slot in use from the start never receives a copy: when every slot
/// equal to `target` receives one, no slot in use holds `target`.
pub proof fn lemma_none_in_use<T>(
    dest: Seq<T>,
    target: T,
    alloc: Seq<bool>,
    init: Seq<bool>,
    map: Seq<u8>,
    to_move: Seq<u8>,
    flags: Seq<bool>,
    lo: int,
)
    requires
        placement_inv(alloc, init, map, to_move, flags, lo),
        dest.len() == init.len(),
        forall|j: int| 0 <= j < dest.len() && #[trigger] dest[j] == target ==> copy_slot(map, to_move, j),
    ensures
        forall|j: int| 0 <= j < dest.len() && #[trigger] init[j] ==> dest[j] != target,
{
    assert forall|j: int| 0 <= j < dest.len() && #[trigger] init[j] implies dest[j] != target by {
        if dest[j] == target {
            let k = choose|k: int| 0 <= k < to_move.len() && map[#[trigger] to_move[k] as int] as int == j;
            assert(!init[map[to_move[k] as int] as int]);
        }
    }
}

/// Slot `j` is taken by the plan: in use from the start, or given to some
/// entity marked in `flags` (copied there or reused there).
pub open spec fn taken_by(init: Seq<bool>, map: Seq<u8>, flags: Seq<bool>, j: int) -> bool {
    init[j] || exists|x: int| 0 <= x < flags.len() && #[trigger] flags[x] && map[x] as int == j
}

/// Slot `m` is what the policy picks for entity `x` when `taken` marks the
/// slots taken: the forward policy from `x`; or, for the backward policy,
/// the free slot with the highest index, or slot `x` itself when free.
pub open spec fn policy_slot(taken: Seq<bool>, x: int, m: int, backward: bool) -> bool {
    if backward {
        is_backward_slot(taken, m) || (m == x && 0 <= m < taken.len() && !taken[m])
    } else {
        is_forward_slot(taken, x, m)
    }
}

/// `taken` is a state of the destination the pass can have been in when the
/// `k`-th copied entity was placed: it holds the slots in use from the start
/// and the slots of the earlier copies, takes only slots the plan takes, and
/// the policy picks the entity's slot there.
pub open spec fn slot_witness(
    taken: Seq<bool>,
    init: Seq<bool>,
    map: Seq<u8>,
    to_move: Seq<u8>,
    flags: Seq<bool>,
    k: int,
    backward: bool,
) -> bool {
    &&& taken.len() == init.len()
    &&& forall|j: int| 0 <= j < init.len() && #[trigger] init[j] ==> taken[j]
    &&& forall|i: int| 0 <= i < k ==> taken[map[#[trigger] to_move[i] as int] as int]
    &&& forall|j: int| 0 <= j < taken.len() && #[trigger] taken[j] ==> taken_by(init, map, flags, j)
    &&& policy_slot(taken, to_move[k] as int, map[to_move[k] as int] as int, backward)
}

/// The `k`-th copied entity got the slot that the policy picks.
pub open spec fn policy_placed(init: Seq<bool>, map: Seq<u8>, to_move: Seq<u8>, flags: Seq<bool>, k: int, backward: bool) -> bool {
    exists|taken: Seq<bool>| #[trigger] slot_witness(taken, init, map, to_move, flags, k, backward)
}


/// Processing `x` keeps every slot taken by the plan taken.
pub proof fn lemma_taken_by_step(init: Seq<bool>, map: Seq<u8>, flags: Seq<bool>, x: int, v: u8, j: int)
    requires
        0 <= x < flags.len(),
        flags.len() == map.len(),
        !flags[x],
        taken_by(init, map, flags, j),
    ensures
        taken_by(init, map.update(x, v), flags.update(x, true), j),
{
    if !init[j] {
        let y = choose|y: int| 0 <= y < flags.len() && #[trigger] flags[y] && map[y] as int == j;
        assert(y != x);
        assert(flags.update(x, true)[y] && map.update(x, v)[y] as int == j);
    }
}

/// Processing `x`, not yet listed, leaves the placement of the `k`-th
/// copied entity by the policy as it was.
pub proof fn lemma_policy_frame(init: Seq<bool>, map: Seq<u8>, to_move: Seq<u8>, flags: Seq<bool>, k: int, x: int, v: u8, pushed: bool, backward: bool)
    requires
        policy_placed(init, map, to_move, flags, k, backward),
        0 <= k < to_move.len(),
        0 <= x < flags.len(),
        x < 256,
        flags.len() == map.len(),
        !flags[x],
        forall|i: int| 0 <= i < to_move.len() ==> (#[trigger] to_move[i] as int) < map.len() && to_move[i] as int != x,
    ensures
        policy_placed(init, map.update(x, v), if pushed { to_move.push(x as u8) } else { to_move }, flags.update(x, true), k, backward),
{
    let taken = choose|taken: Seq<bool>| #[trigger] slot_witness(taken, init, map, to_move, flags, k, backward);
    let map2 = map.update(x, v);
    let tm2 = if pushed { to_move.push(x as u8) } else { to_move };
    let flags2 = flags.update(x, true);
    assert forall|i: int| 0 <= i < k implies taken[map2[#[trigger] tm2[i] as int] as int] by {
        assert(tm2[i] == to_move[i]);
        assert(taken[map[to_move[i] as int] as int]);
    }
    assert forall|j: int| 0 <= j < taken.len() && #[trigger] taken[j] implies taken_by(init, map2, flags2, j) by {
        lemma_taken_by_step(init, map, flags, x, v, j);
    }
    assert(tm2[k] == to_move[k]);
    assert(slot_witness(taken, init, map2, tm2, flags2, k, backward));
}

/// Placing `x` at the slot the policy picks in the current state `alloc`
/// makes it a copy placed by the policy.
pub proof fn lemma_policy_new(init: Seq<bool>, alloc: Seq<bool>, map: Seq<u8>, to_move: Seq<u8>, flags: Seq<bool>, x: int, slot: int, backward: bool)
    requires
        alloc.len() == init.len(),
        forall|j: int| 0 <= j < init.len() && #[trigger] init[j] ==> alloc[j],
        forall|i: int| 0 <= i < to_move.len() ==> (#[trigger] to_move[i] as int) < map.len() && to_move[i] as int != x
            && alloc[map[to_move[i] as int] as int],
        forall|j: int| 0 <= j < alloc.len() && #[trigger] alloc[j] ==> taken_by(init, map, flags, j),
        policy_slot(alloc, x, slot, backward),
        0 <= x < flags.len(),
        x < 256,
        0 <= slot < 256,
        flags.len() == map.len(),
        !flags[x],
    ensures
        policy_placed(init, map.update(x, slot as u8), to_move.push(x as u8), flags.update(x, true), to_move.len() as int, backward),
{
    let map2 = map.update(x, slot as u8);
    let tm2 = to_move.push(x as u8);
    let flags2 = flags.update(x, true);
    let k = to_move.len() as int;
    assert forall|i: int| 0 <= i < k implies alloc[map2[#[trigger] tm2[i] as int] as int] by {
        assert(tm2[i] == to_move[i]);
    }
    assert forall|j: int| 0 <= j < alloc.len() && #[trigger] alloc[j] implies taken_by(init, map2, flags2, j) by {
        lemma_taken_by_step(init, map, flags, x, slot as u8, j);
    }
    assert(tm2[k] == x as u8);
    assert(slot_witness(alloc, init, map2, tm2, flags2, k, backward));
}

/// Which slots below `n` receive a copy.
pub fn copy_slots(map: &Vec<u8>, to_move: &Vec<u8>, n: usize) -> (r: Vec<bool>)
    requires
        moves_in_range(map@, to_move@),
    ensures
        r@.len() == n,
        forall|j: int| 0 <= j < n ==> #[trigger] r@[j] == copy_slot(map@, to_move@, j),
{
    let mut r: Vec<bool> = vec![false; n];
    let mut i: usize = 0;
    while i < to_move.len()
        invariant
            i <= to_move@.len(),
            r@.len() == n,
            moves_in_range(map@, to_move@),
            forall|j: int| 0 <= j < n ==> #[trigger] r@[j] == copy_slot(map@, to_move@.subrange(0, i as int), j),
        decreases to_move.len() - i,
    {
        let d = map[to_move[i] as usize] as usize;
        let ghost prev = r@;
        if d < n {
            r.set(d, true);
        }
        proof {
            let t0 = to_move@.subrange(0, i as int);
            let t1 = to_move@.subrange(0, i + 1);
            assert(t1 =~= t0.push(to_move@[i as int]));
            assert forall|j: int| 0 <= j < n implies #[trigger] r@[j] == copy_slot(map@, t1, j) by {
                assert(prev[j] == copy_slot(map@, t0, j));
                if copy_slot(map@, t0, j) {
                    let k = choose|k: int| 0 <= k < t0.len() && map@[#[trigger] t0[k] as int] as int == j;
                    assert(t1[k] == t0[k]);
                }
                if j == d {
                    assert(t1[i as int] == to_move@[i as int]);
                }
                if copy_slot(map@, t1, j) && j != d {
                    let k = choose|k: int| 0 <= k < t1.len() && map@[#[trigger] t1[k] as int] as int == j;
                    if k < i {
                        assert(t0[k] == t1[k]);
                    }
                }
            }
        }
        i += 1;
    }
    assert(to_move@.subrange(0, to_move@.len() as int) =~= to_move@);
    r
}


/// Number of `true` entries of `s`.
pub open spec fn count_true(s: Seq<bool>) -> int {
    s.len() - unseen(s)
}

/// A sequence with more `true` entries, pointwise, has fewer `false` ones.
pub proof fn lemma_unseen_sub(a: Seq<bool>, b: Seq<bool>, x: int)
    requires
        a.len() == b.len(),
        forall|j: int| 0 <= j < a.len() && #[trigger] a[j] ==> b[j],
        0 <= x < a.len(),
        b[x],
        !a[x],
    ensures
        unseen(b) < unseen(a),
    decreases a.len(),
{
    lemma_unseen_le(a.drop_last(), b.drop_last());
    if x < a.len() - 1 {
        lemma_unseen_sub(a.drop_last(), b.drop_last(), x);
    }
}

pub proof fn lemma_unseen_le(a: Seq<bool>, b: Seq<bool>)
    requires
        a.len() == b.len(),
        forall|j: int| 0 <= j < a.len() && #[trigger] a[j] ==> b[j],
    ensures
        unseen(b) <= unseen(a),
    decreases a.len(),
{
    if a.len() > 0 {
        lemma_unseen_le(a.drop_last(), b.drop_last());
    }
}

/// When every slot is taken and entity `x` (from `lo` on) is still
/// unprocessed, the destination had fewer free slots at the start than there
/// are entities in `must` (indices from `lo` on), provided `must` holds every
/// processed entity and `x`.
pub proof fn lemma_exhausted(
    alloc: Seq<bool>,
    init: Seq<bool>,
    map: Seq<u8>,
    to_move: Seq<u8>,
    flags: Seq<bool>,
    lo: int,
    x: int,
    must: Seq<bool>,
)
    requires
        placement_inv(alloc, init, map, to_move, flags, lo),
        forall|j: int| 0 <= j < alloc.len() ==> #[trigger] alloc[j],
        lo <= x < flags.len(),
        !flags[x],
        must.len() == flags.len() - lo,
        forall|j: int| lo <= j < flags.len() && #[trigger] flags[j] ==> must[j - lo],
        must[x - lo],
    ensures
        unseen(init) < count_true(must),
{
    lemma_unseen_count(alloc, alloc.len() as int);
    let sub = flags.subrange(lo, flags.len() as int);
    assert forall|j: int| 0 <= j < sub.len() && #[trigger] sub[j] implies must[j] by {
        assert(flags[j + lo]);
    }
    lemma_unseen_sub(sub, must, x - lo);
}

} // verus!
