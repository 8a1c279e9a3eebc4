//! What a finished walk has computed: over an object graph that answers
//! consistently, the machine of `marshal` ends with exactly the value that the
//! recursive definition here gives.
use crate::marshal::{
    begin, candidates, child_limit, container_id, enter, fresh_id, give, meet, proceed, register,
    step, Ask, Met, Open, Question, Reply, Stage, Tracking, Walk,
};
use crate::value::{Kind, Val};
use vstd::prelude::*;

verus! {

/// An object graph as the walk sees it, by its answers.
pub ghost struct Heap {
    /// What lies behind a handle.
    pub look: spec_fn(u64) -> Reply,
    /// Whether two handles are of one object.
    pub same: spec_fn(u64, u64) -> bool,
    /// What an object reads as.
    pub text: spec_fn(u64) -> Seq<char>,
    /// What a buffer holds.
    pub bytes: spec_fn(u64) -> Seq<u8>,
    /// How many children a container has.
    pub open: spec_fn(u64) -> Option<nat>,
    /// The children of a container.
    pub child: spec_fn(u64, nat) -> Reply,
}

/// Whether every answer is of the right kind: what lies behind a handle is a
/// leaf, a buffer or a container, and every child of a container that opens is
/// there, but for those of an object, which may be gone.
pub open spec fn well_behaved(heap: Heap) -> bool {
    &&& forall|h: u64|
        {
            let r = #[trigger] (heap.look)(h);
            r is Leaf || r is Buffer || r is Container
        }
    &&& forall|h: u64, i: nat|
        ({
            &&& (heap.look)(h) is Container
            &&& (heap.open)(h) is Some
            &&& i < (heap.open)(h)->0
        }) ==> {
            let r = #[trigger] (heap.child)(h, i);
            r is Child || (r is NoChild && (heap.look)(h)->Container_kind == Kind::Obj)
        }
}

/// The position of the first candidate that is the same object.
pub open spec fn first_same(heap: Heap, handle: u64, c: Seq<u64>) -> Option<nat>
    decreases c.len(),
{
    if c.len() == 0 {
        None
    } else if (heap.same)(c[0], handle) {
        Some(0)
    } else {
        match first_same(heap, handle, c.skip(1)) {
            Some(i) => Some(i + 1),
            None => None,
        }
    }
}

/// The graph's answer to a question.
pub open spec fn reply(heap: Heap, q: Question) -> Reply {
    match q {
        Question::Look(h) => (heap.look)(h),
        Question::Match { handle, candidates } => Reply::Matched(
            first_same(heap, handle, candidates),
        ),
        Question::Describe(h) => Reply::Text((heap.text)(h)),
        Question::Copy(h) => Reply::Copied((heap.bytes)(h)),
        Question::Open(h) => Reply::Opened((heap.open)(h)),
        Question::Child { handle, index } => (heap.child)(handle, index),
        Question::Done(_) => Reply::NoChild,
    }
}

/// The walk after `n` questions and answers; once done it stays done.
pub open spec fn run(heap: Heap, w: Walk, q: Question, n: nat) -> (Walk, Question)
    decreases n,
{
    if n == 0 || q is Done {
        (w, q)
    } else {
        let (w2, q2) = step(w, reply(heap, q));
        run(heap, w2, q2, (n - 1) as nat)
    }
}

/// The id under which an object was met, if it was.
pub open spec fn found(heap: Heap, tracking: Tracking, met: Met, key: u64, h: u64) -> Option<u32> {
    let c = candidates(met, key);
    if tracking == Tracking::Off || c.len() == 0 {
        None
    } else if tracking == Tracking::Exact {
        Some(c[0].1)
    } else {
        match first_same(heap, h, c.map_values(|p: (u64, u32)| p.0)) {
            Some(i) => Some(c[i as int].1),
            None => None,
        }
    }
}

/// How the walk is set up.
pub ghost struct Rules {
    pub tracking: Tracking,
    pub max_depth: nat,
}

/// How deep the walk may still go.
pub open spec fn room(rules: Rules, depth: nat) -> nat {
    if depth <= rules.max_depth {
        (rules.max_depth - depth) as nat
    } else {
        0
    }
}

/// The value of what lies behind `h`, and the objects met afterwards.
pub open spec fn value_of(heap: Heap, rules: Rules, h: u64, depth: nat, met: Met) -> (Val, Met)
    decreases room(rules, depth), 0nat, 0nat,
{
    match (heap.look)(h) {
        Reply::Buffer(key) => match found(heap, rules.tracking, met, key, h) {
            Some(id) => (Val::Ref(id), met),
            None => (
                Val::Bytes { id: fresh_id(rules.tracking, met), bytes: (heap.bytes)(h) },
                register(rules.tracking, met, key, h),
            ),
        },
        Reply::Container { kind, key } => match found(heap, rules.tracking, met, key, h) {
            Some(id) => (Val::Ref(id), met),
            None => if depth >= rules.max_depth {
                (Val::Str((heap.text)(h)), met)
            } else {
                match (heap.open)(h) {
                    None => (Val::Str((heap.text)(h)), met),
                    Some(n) => {
                        let id = container_id(rules.tracking, met);
                        let met1 = register(rules.tracking, met, key, h);
                        let c = children_of(
                            heap,
                            rules,
                            h,
                            kind,
                            0,
                            child_limit(kind, n),
                            depth + 1,
                            met1,
                        );
                        (Val::Node { kind, id, keys: c.0, items: c.1 }, c.2)
                    },
                }
            },
        },
        Reply::Leaf(v) => (v, met),
        _ => (Val::Undefined, met),
    }
}

/// The keys and values of a container's children from the `i`-th on.
pub open spec fn children_of(
    heap: Heap,
    rules: Rules,
    h: u64,
    kind: Kind,
    i: nat,
    limit: nat,
    depth: nat,
    met: Met,
) -> (Seq<Seq<char>>, Seq<Val>, Met)
    decreases room(rules, depth), 1nat, limit - i,
{
    if i >= limit {
        (Seq::empty(), Seq::empty(), met)
    } else {
        match (heap.child)(h, i) {
            Reply::Child { key, handle } => {
                let (v, met1) = value_of(heap, rules, handle, depth, met);
                let rest = children_of(heap, rules, h, kind, i + 1, limit, depth, met1);
                (
                    if kind == Kind::Obj {
                        seq![key] + rest.0
                    } else {
                        rest.0
                    },
                    seq![v] + rest.1,
                    rest.2,
                )
            },
            _ => children_of(heap, rules, h, kind, i + 1, limit, depth, met),
        }
    }
}

proof fn lemma_run_more(heap: Heap, w: Walk, q: Question, a: nat, b: nat)
    ensures
        run(heap, w, q, a + b) == run(heap, run(heap, w, q, a).0, run(heap, w, q, a).1, b),
    decreases a,
{
    if a > 0 && !(q is Done) {
        let (w2, q2) = step(w, reply(heap, q));
        lemma_run_more(heap, w2, q2, (a - 1) as nat, b);
        assert((a + b - 1) as nat == (a - 1) as nat + b);
    } else if q is Done {
        assert(run(heap, w, q, a + b) == (w, q));
    }
}

/// A value is looked at and handed on.
proof fn lemma_value(heap: Heap, w: Walk, h: u64) -> (n: nat)
    requires
        well_behaved(heap),
        w.stage == Stage::Look(h),
    ensures
        ({
            let rules = Rules { tracking: w.tracking, max_depth: w.max_depth };
            let (v, met) = value_of(heap, rules, h, w.stack.len(), w.met);
            run(heap, w, Question::Look(h), n) == give(Walk { met, ..w }, v)
        }),
    decreases
            room(Rules { tracking: w.tracking, max_depth: w.max_depth }, w.stack.len()),
            0nat,
            2nat,
{
    let rules = Rules { tracking: w.tracking, max_depth: w.max_depth };
    let depth = w.stack.len();
    let q = Question::Look(h);
    reveal_with_fuel(run, 2);
    let (w1, q1) = step(w, (heap.look)(h));
    assert(run(heap, w, q, 1) == (w1, q1));
    match (heap.look)(h) {
        Reply::Leaf(v) => { 1 },
        Reply::Buffer(key) => lemma_object(heap, w, h, key, None),
        Reply::Container { kind, key } => lemma_object(heap, w, h, key, Some(kind)),
        _ => { 1 },
    }
}

proof fn lemma_object(heap: Heap, w: Walk, h: u64, key: u64, kind: Option<Kind>) -> (n: nat)
    requires
        well_behaved(heap),
        w.stage == Stage::Look(h),
        (heap.look)(h) == match kind {
            None => Reply::Buffer(key),
            Some(k) => Reply::Container { kind: k, key },
        },
    ensures
        ({
            let rules = Rules { tracking: w.tracking, max_depth: w.max_depth };
            let (v, met) = value_of(heap, rules, h, w.stack.len(), w.met);
            run(heap, w, Question::Look(h), n) == give(Walk { met, ..w }, v)
        }),
    decreases
            room(Rules { tracking: w.tracking, max_depth: w.max_depth }, w.stack.len()),
            0nat,
            1nat,
{
    let rules = Rules { tracking: w.tracking, max_depth: w.max_depth };
    let q = Question::Look(h);
    reveal_with_fuel(run, 2);
    let (w1, q1) = step(w, (heap.look)(h));
    assert((w1, q1) == meet(w, h, key, kind));
    assert(run(heap, w, q, 1) == (w1, q1));
    let c = candidates(w.met, key);
    if w.tracking == Tracking::Off || c.len() == 0 {
        let k = lemma_enter(heap, w, h, key, kind);
        lemma_run_more(heap, w, q, 1, k);
        1 + k
    } else if w.tracking == Tracking::Exact {
        1
    } else {
        let handles = c.map_values(|p: (u64, u32)| p.0);
        lemma_first_same(heap, h, handles);
        let (w2, q2) = step(w1, reply(heap, q1));
        assert(run(heap, w1, q1, 1) == (w2, q2));
        lemma_run_more(heap, w, q, 1, 1);
        match first_same(heap, h, handles) {
            Some(i) => { 2 },
            None => {
                assert((w2, q2) == enter(w1, h, key, kind));
                assert(enter(w1, h, key, kind) == enter(w, h, key, kind));
                let k = lemma_enter(heap, w, h, key, kind);
                lemma_run_more(heap, w, q, 2, k);
                2 + k
            },
        }
    }
}

proof fn lemma_first_same(heap: Heap, h: u64, c: Seq<u64>)
    ensures
        first_same(heap, h, c) matches Some(i) ==> i < c.len() && (heap.same)(c[i as int], h),
        first_same(heap, h, c) is None ==> forall|i: int|
            0 <= i < c.len() ==> !(heap.same)(#[trigger] c[i], h),
    decreases c.len(),
{
    if c.len() > 0 && !(heap.same)(c[0], h) {
        lemma_first_same(heap, h, c.skip(1));
        assert forall|i: int|
            first_same(heap, h, c) is None && 0 <= i < c.len() implies !(heap.same)(
            #[trigger] c[i],
            h,
        ) by {
            if i > 0 {
                assert(c.skip(1)[i - 1] == c[i]);
            }
        }
    }
}

/// An object that was not met before is taken in and handed on.
proof fn lemma_enter(heap: Heap, w: Walk, h: u64, key: u64, kind: Option<Kind>) -> (n: nat)
    requires
        well_behaved(heap),
        found(heap, w.tracking, w.met, key, h) is None,
        (heap.look)(h) == match kind {
            None => Reply::Buffer(key),
            Some(k) => Reply::Container { kind: k, key },
        },
    ensures
        ({
            let rules = Rules { tracking: w.tracking, max_depth: w.max_depth };
            let (v, met) = value_of(heap, rules, h, w.stack.len(), w.met);
            let (w1, q1) = enter(w, h, key, kind);
            run(heap, w1, q1, n) == give(Walk { met, ..w }, v)
        }),
    decreases
            room(Rules { tracking: w.tracking, max_depth: w.max_depth }, w.stack.len()),
            0nat,
            0nat,
{
    let rules = Rules { tracking: w.tracking, max_depth: w.max_depth };
    let depth = w.stack.len();
    reveal_with_fuel(run, 2);
    let (w1, q1) = enter(w, h, key, kind);
    let (w2, q2) = step(w1, reply(heap, q1));
    assert(run(heap, w1, q1, 1) == (w2, q2));
    match kind {
        None => { 1 },
        Some(k) => {
            if depth >= w.max_depth {
                1
            } else {
                let id = container_id(w.tracking, w.met);
                let met1 = register(w.tracking, w.met, key, h);
                match (heap.open)(h) {
                    None => {
                        let (w3, q3) = step(w2, reply(heap, q2));
                        assert(run(heap, w2, q2, 1) == (w3, q3));
                        lemma_run_more(heap, w1, q1, 1, 1);
                        2
                    },
                    Some(n) => {
                        let limit = child_limit(k, n);
                        let f = Open {
                            kind: k,
                            id,
                            handle: h,
                            limit,
                            next: 0,
                            keys: Seq::empty(),
                            items: Seq::empty(),
                        };
                        let c = children_of(heap, rules, h, k, 0, limit, depth + 1, met1);
                        let m = lemma_children(heap, Walk { met: met1, ..w }, f);
                        assert(f.keys + c.0 =~= c.0);
                        assert(f.items + c.1 =~= c.1);
                        let (stack, stage, q) = proceed(w.stack, f);
                        assert((w2, q2) == (Walk { met: met1, stack, stage, ..w }, q));
                        lemma_run_more(heap, w1, q1, 1, m);
                        1 + m
                    },
                }
            }
        },
    }
}

/// An open container reads its remaining children and is handed on.
proof fn lemma_children(heap: Heap, w: Walk, f: Open) -> (n: nat)
    requires
        well_behaved(heap),
        f.next <= f.limit,
        (heap.look)(f.handle) matches Reply::Container { kind, .. } && kind == f.kind,
        (heap.open)(f.handle) matches Some(n) && f.limit <= n,
    ensures
        ({
            let rules = Rules { tracking: w.tracking, max_depth: w.max_depth };
            let c = children_of(
                heap,
                rules,
                f.handle,
                f.kind,
                f.next,
                f.limit,
                w.stack.len() + 1,
                w.met,
            );
            let (stack, stage, q) = proceed(w.stack, f);
            let v = Val::Node { kind: f.kind, id: f.id, keys: f.keys + c.0, items: f.items + c.1 };
            run(heap, Walk { stack, stage, ..w }, q, n) == give(Walk { met: c.2, ..w }, v)
        }),
    decreases
            room(Rules { tracking: w.tracking, max_depth: w.max_depth }, w.stack.len() + 1),
            1nat,
            f.limit - f.next,
{
    let rules = Rules { tracking: w.tracking, max_depth: w.max_depth };
    let depth = w.stack.len() + 1;
    reveal_with_fuel(run, 2);
    let c = children_of(heap, rules, f.handle, f.kind, f.next, f.limit, depth, w.met);
    let (stack, stage, q) = proceed(w.stack, f);
    let w0 = Walk { stack, stage, ..w };
    if f.next >= f.limit {
        assert(f.keys + c.0 =~= f.keys);
        assert(f.items + c.1 =~= f.items);
        if w.stack.len() == 0 {
            assert(stack =~= w.stack);
        }
        0
    } else {
        assert(stack.drop_last() =~= w.stack);
        let (w1, q1) = step(w0, (heap.child)(f.handle, f.next));
        assert(run(heap, w0, q, 1) == (w1, q1));
        match (heap.child)(f.handle, f.next) {
            Reply::Child { key, handle } => {
                let g = Open {
                    next: f.next + 1,
                    keys: if f.kind == Kind::Obj {
                        f.keys.push(key)
                    } else {
                        f.keys
                    },
                    ..f
                };
                assert(w1.stack == w.stack.push(g));
                let k = lemma_value(heap, w1, handle);
                let (v, met1) = value_of(heap, rules, handle, depth, w.met);
                let g2 = Open { items: g.items.push(v), ..g };
                assert(w1.stack.drop_last() =~= w.stack);
                let (s3, st3, q3) = proceed(w.stack, g2);
                assert(give(Walk { met: met1, ..w1 }, v) == (Walk {
                    met: met1,
                    stack: s3,
                    stage: st3,
                    ..w
                }, q3));
                let m = lemma_children(heap, Walk { met: met1, ..w }, g2);
                lemma_run_more(heap, w0, q, 1, k);
                lemma_run_more(heap, w0, q, 1 + k, m);
                let rest = children_of(
                    heap,
                    rules,
                    f.handle,
                    f.kind,
                    f.next + 1,
                    f.limit,
                    depth,
                    met1,
                );
                assert(g2.keys + rest.0 =~= f.keys + c.0);
                assert(g2.items + rest.1 =~= f.items + c.1);
                1 + k + m
            },
            _ => {
                let g = Open { next: f.next + 1, ..f };
                let m = lemma_children(heap, w, g);
                assert(w1 == (Walk {
                    stack: proceed(w.stack, g).0,
                    stage: proceed(w.stack, g).1,
                    ..w
                }));
                lemma_run_more(heap, w0, q, 1, m);
                1 + m
            },
        }
    }
}

/// Over a graph that answers consistently, a walk comes to an end, and its
/// value is the one defined by recursion over the graph.
pub proof fn law_walk_ends_with_value(heap: Heap, tracking: Tracking, max_depth: nat, root: u64)
    requires
        well_behaved(heap),
    ensures
        exists|n: nat|
            (#[trigger] run(heap, begin(tracking, max_depth, root), Question::Look(root), n)).1
                == Question::Done(
                value_of(
                    heap,
                    Rules { tracking, max_depth },
                    root,
                    0,
                    Met { seen: Map::empty(), next: 0 },
                ).0,
            ),
{
    let w = begin(tracking, max_depth, root);
    let n = lemma_value(heap, w, root);
    assert(run(heap, w, Question::Look(root), n).1 == Question::Done(
        value_of(
            heap,
            Rules { tracking, max_depth },
            root,
            0,
            Met { seen: Map::empty(), next: 0 },
        ).0,
    ));
}

/// What lies behind a handle decides its value. A leaf is itself. An object that
/// was met before is a reference to it. Else a buffer is its own bytes, with an id
/// where identities are tracked; and a container is a node of its own kind, unless
/// it lies too deep or cannot be opened: it is then what it reads as.
pub proof fn law_value_is_what_lies_there(heap: Heap, rules: Rules, h: u64, depth: nat, met: Met)
    ensures
        ({
            let (v, after) = value_of(heap, rules, h, depth, met);
            match (heap.look)(h) {
                Reply::Leaf(leaf) => v == leaf && after == met,
                Reply::Buffer(key) => match found(heap, rules.tracking, met, key, h) {
                    Some(id) => v == Val::Ref(id) && after == met,
                    None => {
                        &&& v matches Val::Bytes { id, bytes }
                        &&& bytes == (heap.bytes)(h)
                        &&& id is Some <==> rules.tracking != Tracking::Off
                        &&& id is Some ==> candidates(after, key).contains((h, id->0))
                    },
                },
                Reply::Container { kind, key } => match found(heap, rules.tracking, met, key, h) {
                    Some(id) => v == Val::Ref(id) && after == met,
                    None => if depth < rules.max_depth && (heap.open)(h) is Some {
                        v matches Val::Node { kind: k, .. } && k == kind
                    } else {
                        v == Val::Str((heap.text)(h)) && after == met
                    },
                },
                _ => true,
            }
        }),
{
    match (heap.look)(h) {
        Reply::Buffer(key) => {
            let c = candidates(met, key);
            if rules.tracking != Tracking::Off && found(heap, rules.tracking, met, key, h) is None {
                let after = register(rules.tracking, met, key, h);
                assert(candidates(after, key) == c.push((h, met.next)));
                assert(c.push((h, met.next)).last() == (h, met.next));
            }
        },
        _ => {},
    }
}

/// Whether a value is that of what lies behind a handle, with some objects met
/// before.
pub open spec fn is_value_of(heap: Heap, rules: Rules, h: u64, depth: nat, v: Val) -> bool {
    exists|met: Met| #[trigger] value_of(heap, rules, h, depth, met).0 == v
}

/// The children of a container are read one by one from the first, none twice and
/// none left out: the value of each stands in its place, one level deeper, and of
/// an object its key with it.
pub proof fn law_container_keeps_its_children(
    heap: Heap,
    rules: Rules,
    h: u64,
    kind: Kind,
    i: nat,
    limit: nat,
    depth: nat,
    met: Met,
    k: nat,
)
    requires
        i <= k < limit,
        forall|j: nat| i <= j < limit ==> #[trigger] (heap.child)(h, j) is Child,
    ensures
        ({
            let c = children_of(heap, rules, h, kind, i, limit, depth, met);
            &&& c.1.len() == limit - i
            &&& is_value_of(heap, rules, (heap.child)(h, k)->Child_handle, depth, c.1[k - i])
            &&& kind == Kind::Obj ==> c.0.len() == limit - i && c.0[k - i] == (heap.child)(
                h,
                k,
            )->Child_key
            &&& kind != Kind::Obj ==> c.0.len() == 0
        }),
    decreases limit - i,
{
    assert((heap.child)(h, i) is Child);
    let handle = (heap.child)(h, i)->Child_handle;
    let (v, met1) = value_of(heap, rules, handle, depth, met);
    let rest = children_of(heap, rules, h, kind, i + 1, limit, depth, met1);
    let c = children_of(heap, rules, h, kind, i, limit, depth, met);
    assert(c.1 == seq![v] + rest.1);
    if i + 1 < limit {
        if k > i {
            law_container_keeps_its_children(
                heap,
                rules,
                h,
                kind,
                i + 1,
                limit,
                depth,
                met1,
                k,
            );
            assert(c.1[k - i] == rest.1[k - i - 1]);
        } else {
            law_container_keeps_its_children(
                heap,
                rules,
                h,
                kind,
                i + 1,
                limit,
                depth,
                met1,
                i + 1,
            );
            assert(value_of(heap, rules, handle, depth, met).0 == c.1[0]);
        }
    } else {
        assert(value_of(heap, rules, handle, depth, met).0 == c.1[0]);
    }
}

/// A property that is gone when it is read leaves no trace: the object has the
/// properties that are left, in order.
pub proof fn law_missing_child_is_passed_over(
    heap: Heap,
    rules: Rules,
    h: u64,
    kind: Kind,
    i: nat,
    limit: nat,
    depth: nat,
    met: Met,
)
    requires
        i < limit,
        (heap.child)(h, i) is NoChild,
    ensures
        children_of(heap, rules, h, kind, i, limit, depth, met) == children_of(
            heap,
            rules,
            h,
            kind,
            i + 1,
            limit,
            depth,
            met,
        ),
{
}

/// All children of a container are read; of a map, which has them in pairs, all
/// but one that has no other.
pub proof fn law_all_children_are_read(kind: Kind, n: nat)
    ensures
        kind != Kind::JsMap || n % 2 == 0 ==> child_limit(kind, n) == n,
        kind == Kind::JsMap && n % 2 == 1 ==> child_limit(kind, n) == n - 1,
{
}

/// No two objects are given one id, as long as ids last: each that is registered
/// gets the next one, and what was registered keeps its own.
pub proof fn law_ids_tell_objects_apart(
    tracking: Tracking,
    met: Met,
    key: u64,
    handle: u64,
    other: u64,
)
    requires
        tracking != Tracking::Off,
        met.next < u32::MAX,
    ensures
        ({
            let after = register(tracking, met, key, handle);
            &&& after.next == met.next + 1
            &&& fresh_id(tracking, met) == Some(met.next)
            &&& container_id(tracking, met) == met.next
            &&& candidates(after, key) == candidates(met, key).push((handle, met.next))
            &&& other != key ==> candidates(after, other) == candidates(met, other)
        }),
        register(Tracking::Off, met, key, handle) == met,
        fresh_id(Tracking::Off, met) is None,
        container_id(Tracking::Off, met) == 0,
        !met.seen.contains_key(other) ==> candidates(met, other).len() == 0,
{
}

/// Objects that share an identity hash are not taken for one another: by hash an
/// object counts as met only where one that was met is the very same, and then under
/// that one's id. By exact keys what was met under the key is it, and without
/// tracking nothing is ever met.
pub proof fn law_met_objects_are_the_same(
    heap: Heap,
    tracking: Tracking,
    met: Met,
    key: u64,
    h: u64,
    k: int,
)
    requires
        0 <= k < candidates(met, key).len(),
    ensures
        ({
            let c = candidates(met, key);
            let id = found(heap, tracking, met, key, h);
            &&& tracking == Tracking::ByHash && id is Some ==> exists|j: int|
                0 <= j < c.len() && (heap.same)((#[trigger] c[j]).0, h) && c[j].1 == id->0
            &&& tracking == Tracking::ByHash && (heap.same)(c[k].0, h) ==> id is Some
            &&& tracking == Tracking::Exact ==> id == Some(c[0].1)
            &&& tracking == Tracking::Off ==> id is None
        }),
{
    let c = candidates(met, key);
    let handles = c.map_values(|p: (u64, u32)| p.0);
    lemma_first_same(heap, h, handles);
    assert(handles[k] == c[k].0);
    if tracking == Tracking::ByHash && found(heap, tracking, met, key, h) is Some {
        let i = first_same(heap, h, handles)->0;
        assert(handles[i as int] == c[i as int].0);
    }
}

/// A question of the walk is told from every other, and its end by the value alone.
pub proof fn law_questions_are_told_apart(a: Ask, b: Ask)
    requires
        a@ == b@,
    ensures
        a matches Ask::Look(h) ==> b == Ask::Look(h),
        a matches Ask::Describe(h) ==> b == Ask::Describe(h),
        a matches Ask::Copy(h) ==> b == Ask::Copy(h),
        a matches Ask::Open(h) ==> b == Ask::Open(h),
        a matches Ask::Child { handle, index } ==> b == (Ask::Child { handle, index }),
        a matches Ask::Match { handle, candidates } ==> (b matches Ask::Match {
            handle: h,
            candidates: c,
        } && handle == h && candidates@ == c@),
        a matches Ask::Done(v) ==> (b matches Ask::Done(w) && v@ == w@),
{
}

} // verus!
