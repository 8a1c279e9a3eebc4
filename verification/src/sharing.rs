//! What every walk keeps of the graph it walked: ids are given in order, every
//! reference points back, and a copy made from the value has the same value.
use crate::construct::plan;
use crate::marshal::{begin, candidates, child_limit, container_id, register, Met, Question, Reply, Tracking};
use crate::round_trip::{
    canonical, canonical_children, heap_of, keys_fit, law_built_value_reads_back, nesting,
    nesting_of_children, next_after, next_after_children, perform_all, points_back,
    points_back_children, reread,
};
use crate::value::{Kind, Val};
use crate::walk::{
    children_of, first_same, found, room, run, value_of, well_behaved, Heap, Rules,
};
use vstd::prelude::*;

verus! {

/// Whether the leaves of a graph are leaves: none of them is a container, a
/// buffer or a reference.
pub open spec fn leaves_are_leaves(heap: Heap) -> bool {
    forall|h: u64|
        {
            let r = #[trigger] (heap.look)(h);
            r matches Reply::Leaf(v) ==> !(v is Node || v is Ref || v is Bytes)
        }
}

/// Whether position `i` of the object behind `h` holds a child.
pub open spec fn holds_child(heap: Heap, h: u64, i: nat) -> bool {
    &&& (heap.look)(h) matches Reply::Container { kind, .. }
    &&& kind == Kind::Obj
    &&& (heap.open)(h) matches Some(n)
    &&& i < n
    &&& (heap.child)(h, i) is Child
}

/// Whether no object of a graph has one key twice.
pub open spec fn keys_differ(heap: Heap) -> bool {
    forall|h: u64, i: nat, j: nat|
        i < j && #[trigger] holds_child(heap, h, i) && #[trigger] holds_child(heap, h, j)
            ==> child_key(heap, h, i) != child_key(heap, h, j)
}

/// The key of a child.
pub open spec fn child_key(heap: Heap, h: u64, i: nat) -> Seq<char> {
    match (heap.child)(h, i) {
        Reply::Child { key, .. } => key,
        _ => Seq::empty(),
    }
}

/// Whether every id given so far is below `next`, the one that comes next.
spec fn ids_below(met: Met, next: nat) -> bool {
    &&& met.next == next
    &&& forall|k: u64, j: int|
        0 <= j < candidates(met, k).len() ==> (#[trigger] candidates(met, k)[j]).1 < next
}

proof fn lemma_register_below(tracking: Tracking, met: Met, next: nat, key: u64, h: u64)
    requires
        tracking != Tracking::Off,
        ids_below(met, next),
        next < u32::MAX,
    ensures
        ids_below(register(tracking, met, key, h), next + 1),
{
    let m = register(tracking, met, key, h);
    assert forall|k: u64, j: int| 0 <= j < candidates(m, k).len() implies (
    #[trigger] candidates(m, k)[j]).1 < next + 1 by {
        if k != key {
            assert(candidates(m, k) == candidates(met, k));
        } else if j < candidates(met, k).len() {
            assert(candidates(m, k)[j] == candidates(met, k)[j]);
        }
    }
}

proof fn lemma_found_below(heap: Heap, tracking: Tracking, met: Met, next: nat, key: u64, h: u64)
    requires
        ids_below(met, next),
    ensures
        found(heap, tracking, met, key, h) matches Some(id) ==> id < next,
{
    let c = candidates(met, key);
    let handles = c.map_values(|p: (u64, u32)| p.0);
    lemma_first_in(heap, h, handles);
    if c.len() > 0 {
        assert(candidates(met, key)[0] == c[0]);
        match first_same(heap, h, handles) {
            Some(i) => {
                assert(candidates(met, key)[i as int] == c[i as int]);
            },
            None => {},
        }
    }
}

proof fn lemma_first_in(heap: Heap, h: u64, c: Seq<u64>)
    ensures
        first_same(heap, h, c) matches Some(i) ==> i < c.len(),
    decreases c.len(),
{
    if c.len() > 0 {
        lemma_first_in(heap, h, c.skip(1));
    }
}

proof fn lemma_value(heap: Heap, rules: Rules, h: u64, depth: nat, met: Met, next: nat)
    requires
        well_behaved(heap),
        leaves_are_leaves(heap),
        rules.tracking != Tracking::Off,
        ids_below(met, next),
        depth <= rules.max_depth,
        next_after(value_of(heap, rules, h, depth, met).0, next) <= u32::MAX,
    ensures
        ({
            let (v, m) = value_of(heap, rules, h, depth, met);
            &&& points_back(v, next)
            &&& keys_differ(heap) ==> canonical(v, next)
            &&& ids_below(m, next_after(v, next))
            &&& depth + nesting(v) <= rules.max_depth
        }),
    decreases room(rules, depth), 0nat, 0nat,
{
    match (heap.look)(h) {
        Reply::Buffer(key) => {
            lemma_found_below(heap, rules.tracking, met, next, key, h);
            if found(heap, rules.tracking, met, key, h) is None {
                lemma_register_below(rules.tracking, met, next, key, h);
            }
        },
        Reply::Container { kind, key } => {
            lemma_found_below(heap, rules.tracking, met, next, key, h);
            if found(heap, rules.tracking, met, key, h) is None && depth < rules.max_depth
                && (heap.open)(h) is Some {
                let (v, m) = value_of(heap, rules, h, depth, met);
                let met1 = register(rules.tracking, met, key, h);
                let n = (heap.open)(h)->0;
                let limit = child_limit(kind, n);
                let c = children_of(heap, rules, h, kind, 0, limit, depth + 1, met1);
                assert(v == Val::Node {
                    kind,
                    id: container_id(rules.tracking, met),
                    keys: c.0,
                    items: c.1,
                });
                lemma_grows(v, 0, next + 1);
                lemma_register_below(rules.tracking, met, next, key, h);
                lemma_lengths(heap, rules, h, kind, 0, limit, depth + 1, met1);
                assert(v->items.skip(0) =~= c.1);
                lemma_children(heap, rules, h, kind, 0, limit, depth + 1, met1, next + 1, v, 0);
            }
        },
        _ => {},
    }
}

proof fn lemma_grows(v: Val, i: nat, next: nat)
    requires
        v is Node,
    ensures
        next <= next_after_children(v, i, next),
    decreases v, 0nat, v->items.len() - i,
{
    if i < v->items.len() {
        lemma_grows_value(v->items[i as int], next);
        lemma_grows(v, i + 1, next_after(v->items[i as int], next));
    }
}

proof fn lemma_grows_value(v: Val, next: nat)
    ensures
        next <= next_after(v, next),
    decreases v, 1nat, 0nat,
{
    if v is Node {
        lemma_grows(v, 0, next + 1);
    }
}

/// Whether a key is that of a child of `h` from position `i` on.
spec fn key_from(heap: Heap, h: u64, i: nat, key: Seq<char>) -> bool {
    exists|k: nat| i <= k && #[trigger] holds_child(heap, h, k) && child_key(heap, h, k) == key
}

/// The keys of an object are those of its children, each once; all children of
/// another container are read.
proof fn lemma_lengths(
    heap: Heap,
    rules: Rules,
    h: u64,
    kind: Kind,
    i: nat,
    limit: nat,
    depth: nat,
    met: Met,
)
    requires
        well_behaved(heap),
        (heap.look)(h) matches Reply::Container { kind: k, .. } && k == kind,
        (heap.open)(h) matches Some(n) && limit <= n,
        i <= limit,
    ensures
        ({
            let c = children_of(heap, rules, h, kind, i, limit, depth, met);
            &&& if kind == Kind::Obj {
                c.0.len() == c.1.len()
            } else {
                c.0.len() == 0 && c.1.len() == limit - i
            }
            &&& forall|j: int| 0 <= j < c.0.len() ==> key_from(heap, h, i, #[trigger] c.0[j])
            &&& keys_differ(heap) ==> c.0.no_duplicates()
        }),
    decreases limit - i,
{
    if i < limit {
        let c = children_of(heap, rules, h, kind, i, limit, depth, met);
        assert forall|key: Seq<char>| #[trigger]
            key_from(heap, h, i + 1, key) implies key_from(heap, h, i, key) by {
            let k = choose|k: nat|
                i + 1 <= k && #[trigger] holds_child(heap, h, k) && child_key(heap, h, k) == key;
            assert(i <= k && holds_child(heap, h, k));
        }
        match (heap.child)(h, i) {
            Reply::Child { key, handle } => {
                let (v, met1) = value_of(heap, rules, handle, depth, met);
                lemma_lengths(heap, rules, h, kind, i + 1, limit, depth, met1);
                let rest = children_of(heap, rules, h, kind, i + 1, limit, depth, met1);
                if kind == Kind::Obj {
                    assert(holds_child(heap, h, i));
                    assert(key_from(heap, h, i, key));
                    assert forall|j: int| 0 <= j < c.0.len() implies key_from(
                        heap,
                        h,
                        i,
                        #[trigger] c.0[j],
                    ) by {
                        if j > 0 {
                            assert(c.0[j] == rest.0[j - 1]);
                            assert(key_from(heap, h, i + 1, rest.0[j - 1]));
                        }
                    }
                    if keys_differ(heap) {
                        assert forall|a: int, b: int| 0 <= a < b < c.0.len() implies c.0[a]
                            != c.0[b] by {
                            assert(c.0[b] == rest.0[b - 1]);
                            if a > 0 {
                                assert(c.0[a] == rest.0[a - 1]);
                            } else {
                                assert(key_from(heap, h, i + 1, rest.0[b - 1]));
                            }
                        }
                    }
                }
            },
            _ => {
                lemma_lengths(heap, rules, h, kind, i + 1, limit, depth, met);
                assert forall|j: int| 0 <= j < c.0.len() implies key_from(
                    heap,
                    h,
                    i,
                    #[trigger] c.0[j],
                ) by {
                    assert(key_from(heap, h, i + 1, c.0[j]));
                }
            },
        }
    }
}

proof fn lemma_children(
    heap: Heap,
    rules: Rules,
    h: u64,
    kind: Kind,
    i: nat,
    limit: nat,
    depth: nat,
    met: Met,
    next: nat,
    v: Val,
    at: nat,
)
    requires
        well_behaved(heap),
        leaves_are_leaves(heap),
        rules.tracking != Tracking::Off,
        ids_below(met, next),
        depth <= rules.max_depth,
        i <= limit,
        v is Node,
        at <= v->items.len(),
        v->items.skip(at as int) == children_of(heap, rules, h, kind, i, limit, depth, met).1,
        next_after_children(v, at, next) <= u32::MAX,
    ensures
        points_back_children(v, at, next),
        keys_differ(heap) ==> canonical_children(v, at, next),
        ids_below(
            children_of(heap, rules, h, kind, i, limit, depth, met).2,
            next_after_children(v, at, next),
        ),
        depth + nesting_of_children(v, at) <= rules.max_depth,
    decreases room(rules, depth), 1nat, limit - i,
{
    let c = children_of(heap, rules, h, kind, i, limit, depth, met);
    assert(v->items.skip(at as int).len() == v->items.len() - at);
    if i < limit {
        match (heap.child)(h, i) {
            Reply::Child { key, handle } => {
                let (item, met1) = value_of(heap, rules, handle, depth, met);
                let rest = children_of(heap, rules, h, kind, i + 1, limit, depth, met1);
                assert(c.1 == seq![item] + rest.1);
                assert(v->items[at as int] == v->items.skip(at as int)[0]);
                assert(v->items[at as int] == item);
                assert(v->items.skip(at as int + 1) =~= rest.1) by {
                    assert(v->items.skip(at as int + 1) =~= v->items.skip(at as int).skip(1));
                }
                lemma_grows(v, at + 1, next_after(item, next));
                lemma_value(heap, rules, handle, depth, met, next);
                lemma_children(
                    heap,
                    rules,
                    h,
                    kind,
                    i + 1,
                    limit,
                    depth,
                    met1,
                    next_after(item, next),
                    v,
                    at + 1,
                );
            },
            _ => {
                lemma_children(heap, rules, h, kind, i + 1, limit, depth, met, next, v, at);
            },
        }
    }
}

/// In the value of a walk, ids count the containers and buffers that are in it,
/// in the order in which they were met and without a gap, and every reference
/// is to one that comes before it.
pub proof fn law_references_point_back(heap: Heap, rules: Rules, root: u64)
    requires
        well_behaved(heap),
        leaves_are_leaves(heap),
        rules.tracking != Tracking::Off,
        next_after(
            value_of(heap, rules, root, 0, Met { seen: Map::empty(), next: 0 }).0,
            0,
        ) <= u32::MAX,
    ensures
        points_back(value_of(heap, rules, root, 0, Met { seen: Map::empty(), next: 0 }).0, 0),
{
    lemma_value(heap, rules, root, 0, Met { seen: Map::empty(), next: 0 }, 0);
}

/// Where no object has one key twice, the value of a walk besides holds every
/// key once, and it is no deeper than the walk was allowed to go.
pub proof fn law_walk_is_canonical(heap: Heap, rules: Rules, root: u64)
    requires
        well_behaved(heap),
        leaves_are_leaves(heap),
        keys_differ(heap),
        rules.tracking != Tracking::Off,
        next_after(
            value_of(heap, rules, root, 0, Met { seen: Map::empty(), next: 0 }).0,
            0,
        ) <= u32::MAX,
    ensures
        ({
            let v = value_of(heap, rules, root, 0, Met { seen: Map::empty(), next: 0 }).0;
            canonical(v, 0) && nesting(v) <= rules.max_depth
        }),
{
    lemma_value(heap, rules, root, 0, Met { seen: Map::empty(), next: 0 }, 0);
}

/// A copy built from the value of a walk, walked in its turn with the same
/// depth, has that value again: what was shared is shared and what was cyclic
/// is cyclic.
pub proof fn law_copy_has_same_value(
    heap: Heap,
    rules: Rules,
    root: u64,
    tracking: Tracking,
    key: spec_fn(u64) -> u64,
    read: spec_fn(Val) -> Val,
)
    requires
        well_behaved(heap),
        leaves_are_leaves(heap),
        keys_differ(heap),
        rules.tracking != Tracking::Off,
        keys_fit(tracking, key),
        ({
            let v = value_of(heap, rules, root, 0, Met { seen: Map::empty(), next: 0 }).0;
            next_after(v, 0) <= u32::MAX && plan(v, 0, Map::empty()).ops.len() <= u64::MAX
        }),
    ensures
        ({
            let v = value_of(heap, rules, root, 0, Met { seen: Map::empty(), next: 0 }).0;
            let p = plan(v, 0, Map::empty());
            let copy = heap_of(perform_all(Map::empty(), 0, p.ops), key, read);
            let top = p.reg as u64;
            exists|n: nat|
                (#[trigger] run(
                    copy,
                    begin(tracking, rules.max_depth, top),
                    Question::Look(top),
                    n,
                )).1 == Question::Done(reread(v, read))
        }),
{
    let v = value_of(heap, rules, root, 0, Met { seen: Map::empty(), next: 0 }).0;
    lemma_value(heap, rules, root, 0, Met { seen: Map::empty(), next: 0 }, 0);
    law_built_value_reads_back(v, tracking, rules.max_depth, key, read);
}

} // verus!
