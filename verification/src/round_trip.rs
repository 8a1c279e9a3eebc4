//! Building a value and walking it again.
//!
//! The laws here speak of an engine that does what the instructions of
//! `construct` say and answers the questions of `marshal` accordingly: what is
//! put into a container stays there, in the order in which it came.
use crate::construct::{plan, plan_children, Op};
use crate::marshal::{begin, candidates, child_limit, register, Met, Question, Reply, Tracking};
use crate::value::{Kind, Val};
use crate::walk::{
    children_of, found, first_same, law_walk_ends_with_value, run, value_of, Heap, Rules,
};
use vstd::prelude::*;

verus! {

/// What a register of the engine holds.
#[verifier::ext_equal]
pub ghost enum Cell {
    Leaf(Val),
    Key(Seq<char>),
    Container { kind: Kind, keys: Seq<Seq<char>>, kids: Seq<nat> },
}

/// Puts children into the container in a register.
pub open spec fn put(
    store: Map<nat, Cell>,
    target: nat,
    keys: Seq<Seq<char>>,
    kids: Seq<nat>,
) -> Map<nat, Cell> {
    match store[target] {
        Cell::Container { kind, keys: k, kids: c } => store.insert(
            target,
            Cell::Container { kind, keys: k + keys, kids: c + kids },
        ),
        _ => store,
    }
}

/// The text of a key.
pub open spec fn key_text(c: Cell) -> Seq<char> {
    match c {
        Cell::Key(t) => t,
        _ => Seq::empty(),
    }
}

/// The registers after instruction number `at`.
pub open spec fn perform(store: Map<nat, Cell>, at: nat, op: Op) -> Map<nat, Cell> {
    match op {
        Op::Leaf(v) => store.insert(at, Cell::Leaf(v)),
        Op::New { kind, .. } => store.insert(
            at,
            Cell::Container { kind, keys: Seq::empty(), kids: Seq::empty() },
        ),
        Op::Key { text, .. } => store.insert(at, Cell::Key(text)),
        Op::SetIndex { target, value, .. } => put(store, target, Seq::empty(), seq![value]),
        Op::SetAdd { target, value } => put(store, target, Seq::empty(), seq![value]),
        Op::MapSet { target, key, value } => put(store, target, Seq::empty(), seq![key, value]),
        Op::SetKey { target, key, value } => put(
            store,
            target,
            seq![key_text(store[key])],
            seq![value],
        ),
    }
}

/// The registers after instructions that are numbered from `base` on.
pub open spec fn perform_all(store: Map<nat, Cell>, base: nat, ops: Seq<Op>) -> Map<nat, Cell>
    decreases ops.len(),
{
    if ops.len() == 0 {
        store
    } else {
        perform_all(perform(store, base, ops[0]), base + 1, ops.skip(1))
    }
}

/// Whether ids are given in the order in which containers and binary data are
/// met, counted from `next`, and every reference is to one that was met.
pub open spec fn canonical(v: Val, next: nat) -> bool
    decreases v, 1nat, 0nat,
{
    match v {
        Val::Bytes { id, .. } => id matches Some(i) && i == next,
        Val::Ref(id) => id < next,
        Val::Node { kind, id, keys, items } => {
            &&& id == next
            &&& if kind == Kind::Obj {
                keys.len() == items.len() && keys.no_duplicates()
            } else {
                keys.len() == 0
            }
            &&& kind == Kind::JsMap ==> items.len() % 2 == 0
            &&& canonical_children(v, 0, next + 1)
        },
        _ => true,
    }
}

pub open spec fn canonical_children(v: Val, i: nat, next: nat) -> bool
    decreases v, 0nat, v->items.len() - i,
{
    match v {
        Val::Node { items, .. } => i < items.len() ==> canonical(items[i as int], next)
            && canonical_children(v, i + 1, next_after(items[i as int], next)),
        _ => true,
    }
}

/// Whether ids count containers and binary data from `next` on, in the order in
/// which they come and without a gap, and every reference is to one that came.
pub open spec fn points_back(v: Val, next: nat) -> bool
    decreases v, 1nat, 0nat,
{
    match v {
        Val::Bytes { id, .. } => id matches Some(i) && i == next,
        Val::Ref(id) => id < next,
        Val::Node { id, .. } => id == next && points_back_children(v, 0, next + 1),
        _ => true,
    }
}

pub open spec fn points_back_children(v: Val, i: nat, next: nat) -> bool
    decreases v, 0nat, v->items.len() - i,
{
    match v {
        Val::Node { items, .. } => i < items.len() ==> points_back(items[i as int], next)
            && points_back_children(v, i + 1, next_after(items[i as int], next)),
        _ => true,
    }
}

/// The first id that is free after `v`.
pub open spec fn next_after(v: Val, next: nat) -> nat
    decreases v, 1nat, 0nat,
{
    match v {
        Val::Bytes { .. } => next + 1,
        Val::Node { .. } => next_after_children(v, 0, next + 1),
        _ => next,
    }
}

pub open spec fn next_after_children(v: Val, i: nat, next: nat) -> nat
    decreases v, 0nat, v->items.len() - i,
{
    match v {
        Val::Node { items, .. } => if i < items.len() {
            next_after_children(v, i + 1, next_after(items[i as int], next))
        } else {
            next
        },
        _ => next,
    }
}

/// How many containers lie one inside the other.
pub open spec fn nesting(v: Val) -> nat
    decreases v, 1nat, 0nat,
{
    match v {
        Val::Node { .. } => 1 + nesting_of_children(v, 0),
        _ => 0,
    }
}

pub open spec fn nesting_of_children(v: Val, i: nat) -> nat
    decreases v, 0nat, v->items.len() - i,
{
    match v {
        Val::Node { items, .. } => if i < items.len() {
            let a = nesting(items[i as int]);
            let b = nesting_of_children(v, i + 1);
            if a >= b {
                a
            } else {
                b
            }
        } else {
            0
        },
        _ => 0,
    }
}

/// Whether register `r` holds `v`, with all new objects in registers from `lo`
/// up to `hi`.
pub open spec fn holds(
    store: Map<nat, Cell>,
    r: nat,
    v: Val,
    built: Map<u32, nat>,
    lo: nat,
    hi: nat,
) -> bool
    decreases v, 1nat,
{
    match v {
        Val::Ref(id) => built.contains_key(id) && r == built[id],
        Val::Bytes { id, .. } => {
            &&& lo <= r < hi
            &&& store[r] == Cell::Leaf(v)
            &&& id matches Some(i) && built.contains_key(i) && built[i] == r
        },
        Val::Node { kind, id, keys, items } => {
            &&& lo <= r < hi
            &&& built.contains_key(id) && built[id] == r
            &&& store[r] is Container
            &&& store[r]->kind == kind
            &&& store[r]->keys == keys
            &&& store[r]->kids.len() == items.len()
            &&& all_hold(store, store[r]->kids, v, built, lo, hi)
        },
        _ => lo <= r < hi && store[r] == Cell::Leaf(v),
    }
}

/// Whether the registers `kids` hold the children of `v`, in order.
pub open spec fn all_hold(
    store: Map<nat, Cell>,
    kids: Seq<nat>,
    v: Val,
    built: Map<u32, nat>,
    lo: nat,
    hi: nat,
) -> bool
    decreases v, 0nat,
{
    match v {
        Val::Node { items, .. } => forall|i: int|
            0 <= i < kids.len() && i < items.len() ==> holds(
                store,
                #[trigger] kids[i],
                items[i],
                built,
                lo,
                hi,
            ),
        _ => true,
    }
}

/// Whether exactly the ids below `next` are built, in registers below `base`
/// and no two in one.
pub open spec fn covers(built: Map<u32, nat>, next: nat, base: nat) -> bool {
    &&& forall|id: u32| #[trigger] built.contains_key(id) <==> id < next
    &&& forall|id: u32| built.contains_key(id) ==> #[trigger] built[id] < base
    &&& forall|a: u32, b: u32|
        built.contains_key(a) && built.contains_key(b) && #[trigger] built[a] == #[trigger] built[b]
            ==> a == b
}

/// Whether every register of a built id holds an object.
pub open spec fn objects(store: Map<nat, Cell>, built: Map<u32, nat>) -> bool {
    forall|id: u32| #[trigger]
        built.contains_key(id) ==> {
            let c = store[built[id]];
            c is Container || (c matches Cell::Leaf(v) && v is Bytes)
        }
}

/// Whether everything built in `a` is built in `b`, in the same register.
spec fn within(a: Map<u32, nat>, b: Map<u32, nat>) -> bool {
    forall|id: u32| #[trigger] a.contains_key(id) ==> b.contains_key(id) && b[id] == a[id]
}

proof fn lemma_perform_more(store: Map<nat, Cell>, base: nat, a: Seq<Op>, b: Seq<Op>)
    ensures
        perform_all(store, base, a + b) == perform_all(
            perform_all(store, base, a),
            base + a.len(),
            b,
        ),
    decreases a.len(),
{
    if a.len() == 0 {
        assert(a + b =~= b);
    } else {
        assert((a + b).skip(1) =~= a.skip(1) + b);
        lemma_perform_more(perform(store, base, a[0]), base + 1, a.skip(1), b);
    }
}

proof fn lemma_perform_one(store: Map<nat, Cell>, base: nat, op: Op)
    ensures
        perform_all(store, base, seq![op]) == perform(store, base, op),
{
    assert(seq![op].skip(1) =~= Seq::empty());
    reveal_with_fuel(perform_all, 2);
}

/// What a register holds does not depend on registers outside its range.
proof fn lemma_holds(
    s1: Map<nat, Cell>,
    s2: Map<nat, Cell>,
    r: nat,
    v: Val,
    b1: Map<u32, nat>,
    b2: Map<u32, nat>,
    lo1: nat,
    hi1: nat,
    lo2: nat,
    hi2: nat,
)
    requires
        holds(s1, r, v, b1, lo1, hi1),
        forall|k: nat| lo1 <= k < hi1 ==> s1[k] == #[trigger] s2[k],
        within(b1, b2),
        lo2 <= lo1,
        hi1 <= hi2,
    ensures
        holds(s2, r, v, b2, lo2, hi2),
    decreases v,
{
    match v {
        Val::Node { kind, id, keys, items } => {
            assert(s2[r] == s1[r]);
            let kids = s1[r]->kids;
            assert forall|i: int| 0 <= i < items.len() implies holds(
                s2,
                #[trigger] kids[i],
                items[i],
                b2,
                lo2,
                hi2,
            ) by {
                lemma_holds(s1, s2, kids[i], items[i], b1, b2, lo1, hi1, lo2, hi2);
            }
            assert(all_hold(s2, kids, v, b2, lo2, hi2));
        },
        Val::Ref(_) => {},
        _ => {
            assert(s2[r] == s1[r]);
        },
    }
}

/// What the instructions for `v` lead to.
spec fn builds(
    store: Map<nat, Cell>,
    v: Val,
    base: nat,
    built: Map<u32, nat>,
    next: nat,
) -> bool {
    let p = plan(v, base, built);
    let end = base + p.ops.len();
    let s2 = perform_all(store, base, p.ops);
    &&& holds(s2, p.reg, v, p.built, base, end)
    &&& covers(p.built, next_after(v, next), end)
    &&& within(built, p.built)
    &&& objects(s2, p.built)
    &&& next <= next_after(v, next)
    &&& forall|k: nat| k < base ==> #[trigger] s2[k] == store[k]
}

proof fn lemma_build(store: Map<nat, Cell>, v: Val, base: nat, built: Map<u32, nat>, next: nat)
    requires
        canonical(v, next),
        covers(built, next, base),
        objects(store, built),
    ensures
        builds(store, v, base, built, next),
    decreases v, 1nat, 0nat,
{
    let p = plan(v, base, built);
    match v {
        Val::Ref(id) => {
            assert(built.contains_key(id));
        },
        Val::Bytes { id, .. } => {
            lemma_perform_one(store, base, Op::Leaf(v));
        },
        Val::Node { kind, id, keys, items } => {
            let first = p.ops[0];
            let b1 = built.insert(id, base);
            let rest = plan_children(v, 0, base, base + 1, b1);
            let s1 = perform(store, base, first);
            assert(p.ops =~= seq![first] + rest.0);
            lemma_perform_one(store, base, first);
            lemma_perform_more(store, base, seq![first], rest.0);
            assert(covers(b1, next + 1, base + 1));
            assert(v->keys.take(0) =~= Seq::empty());
            assert(all_hold(s1, s1[base]->kids, v, b1, base + 1, base + 1));
            assert forall|k: u32| #[trigger] b1.contains_key(k) implies ({
                let c = s1[b1[k]];
                c is Container || (c matches Cell::Leaf(w) && w is Bytes)
            }) by {
                if k != id {
                    assert(built.contains_key(k));
                }
            }
            assert(filled(s1, v, 0, base, base + 1, b1));
            lemma_build_children(s1, v, 0, base, base + 1, b1, next + 1);
            assert(b1.contains_key(id));
            let s2 = perform_all(store, base, p.ops);
            let end = base + p.ops.len();
            assert(kind == Kind::Obj ==> keys.take(items.len() as int) =~= keys);
            assert(kind != Kind::Obj ==> keys =~= Seq::empty());
            let kids = s2[base]->kids;
            assert forall|i: int| 0 <= i < kids.len() && i < items.len() implies holds(
                s2,
                #[trigger] kids[i],
                items[i],
                p.built,
                base,
                end,
            ) by {
                lemma_holds(s2, s2, kids[i], items[i], p.built, p.built, base + 1, end, base, end);
            }
            assert(all_hold(s2, kids, v, p.built, base, end));
            assert forall|k: u32| #[trigger] built.contains_key(k) implies p.built.contains_key(k)
                && p.built[k] == built[k] by {
                assert(b1.contains_key(k));
            }
        },
        _ => {
            lemma_perform_one(store, base, Op::Leaf(v));
        },
    }
}

/// The children that are already in a container.
spec fn filled(
    store: Map<nat, Cell>,
    v: Val,
    i: nat,
    target: nat,
    base: nat,
    built: Map<u32, nat>,
) -> bool {
    &&& store[target] is Container
    &&& store[target]->kind == v->kind
    &&& store[target]->keys == if v->kind == Kind::Obj {
        v->keys.take(i as int)
    } else {
        Seq::empty()
    }
    &&& store[target]->kids.len() == i
    &&& all_hold(store, store[target]->kids, v, built, target + 1, base)
}

proof fn lemma_build_children(
    store: Map<nat, Cell>,
    v: Val,
    i: nat,
    target: nat,
    base: nat,
    built: Map<u32, nat>,
    next: nat,
)
    requires
        v is Node,
        i <= v->items.len(),
        v->kind == Kind::Obj ==> v->keys.len() == v->items.len(),
        v->kind == Kind::JsMap ==> i % 2 == 0 && v->items.len() % 2 == 0,
        canonical_children(v, i, next),
        covers(built, next, base),
        objects(store, built),
        target < base,
        filled(store, v, i, target, base, built),
    ensures
        ({
            let c = plan_children(v, i, target, base, built);
            let end = base + c.0.len();
            let s2 = perform_all(store, base, c.0);
            &&& filled(s2, v, v->items.len(), target, end, c.1)
            &&& covers(c.1, next_after_children(v, i, next), end)
            &&& within(built, c.1)
            &&& objects(s2, c.1)
            &&& next <= next_after_children(v, i, next)
            &&& forall|k: nat| k < base && k != target ==> #[trigger] s2[k] == store[k]
        }),
    decreases v, 0nat, v->items.len() - i,
{
    if i < v->items.len() {
        let kind = v->kind;
        let c = plan_children(v, i, target, base, built);
        if kind == Kind::Array || kind == Kind::JsSet {
            let p = plan(v->items[i as int], base, built);
            lemma_build(store, v->items[i as int], base, built, next);
            let s1 = perform_all(store, base, p.ops);
            let set = if kind == Kind::Array {
                Op::SetIndex { target, index: i, value: p.reg }
            } else {
                Op::SetAdd { target, value: p.reg }
            };
            let at = base + p.ops.len();
            let s2 = perform(s1, at, set);
            lemma_step(store, s1, s2, v, i, 1, target, base, base, at, built, p.built, seq![p.reg]);
            let n1 = next_after(v->items[i as int], next);
            lemma_build_children(s2, v, i + 1, target, at + 1, p.built, n1);
            let rest = plan_children(v, i + 1, target, at + 1, p.built);
            assert(c.0 =~= p.ops + (seq![set] + rest.0));
            lemma_perform_more(store, base, p.ops, seq![set] + rest.0);
            lemma_perform_more(s1, at, seq![set], rest.0);
            lemma_perform_one(s1, at, set);
        } else if kind == Kind::Obj {
            let key = Op::Key {
                text: v->keys[i as int],
                skip: plan(v->items[i as int], base + 1, built).ops.len() + 1,
            };
            let s0 = perform(store, base, key);
            let p = plan(v->items[i as int], base + 1, built);
            lemma_build(s0, v->items[i as int], base + 1, built, next);
            let s1 = perform_all(s0, base + 1, p.ops);
            let set = Op::SetKey { target, key: base, value: p.reg };
            let at = base + 1 + p.ops.len();
            let s2 = perform(s1, at, set);
            lemma_step(
                store,
                s1,
                s2,
                v,
                i,
                1,
                target,
                base,
                base + 1,
                at,
                built,
                p.built,
                seq![p.reg],
            );
            let n1 = next_after(v->items[i as int], next);
            lemma_build_children(s2, v, i + 1, target, at + 1, p.built, n1);
            let rest = plan_children(v, i + 1, target, at + 1, p.built);
            assert(c.0 =~= seq![key] + (p.ops + (seq![set] + rest.0)));
            lemma_perform_more(store, base, seq![key], p.ops + (seq![set] + rest.0));
            lemma_perform_one(store, base, key);
            lemma_perform_more(s0, base + 1, p.ops, seq![set] + rest.0);
            lemma_perform_more(s1, at, seq![set], rest.0);
            lemma_perform_one(s1, at, set);
        } else {
            let k = plan(v->items[i as int], base, built);
            lemma_build(store, v->items[i as int], base, built, next);
            let s0 = perform_all(store, base, k.ops);
            let mid = base + k.ops.len();
            let n1 = next_after(v->items[i as int], next);
            assert(canonical_children(v, i + 1, n1));
            let p = plan(v->items[i as int + 1], mid, k.built);
            lemma_build(s0, v->items[i as int + 1], mid, k.built, n1);
            let s1 = perform_all(s0, mid, p.ops);
            let set = Op::MapSet { target, key: k.reg, value: p.reg };
            let at = mid + p.ops.len();
            let s2 = perform(s1, at, set);
            lemma_holds(
                s0,
                s1,
                k.reg,
                v->items[i as int],
                k.built,
                p.built,
                base,
                mid,
                base,
                at,
            );
            lemma_holds(
                s1,
                s1,
                p.reg,
                v->items[i as int + 1],
                p.built,
                p.built,
                mid,
                at,
                base,
                at,
            );
            lemma_step(
                store,
                s1,
                s2,
                v,
                i,
                2,
                target,
                base,
                base,
                at,
                built,
                p.built,
                seq![k.reg, p.reg],
            );
            let n2 = next_after(v->items[i as int + 1], n1);
            reveal_with_fuel(canonical_children, 2);
            reveal_with_fuel(next_after_children, 2);
            lemma_build_children(s2, v, i + 2, target, at + 1, p.built, n2);
            let rest = plan_children(v, i + 2, target, at + 1, p.built);
            assert(c.0 =~= k.ops + (p.ops + (seq![set] + rest.0)));
            lemma_perform_more(store, base, k.ops, p.ops + (seq![set] + rest.0));
            lemma_perform_more(s0, mid, p.ops, seq![set] + rest.0);
            lemma_perform_more(s1, at, seq![set], rest.0);
            lemma_perform_one(s1, at, set);
        }
    } else {
        assert(v->kind == Kind::Obj ==> v->keys.take(i as int) =~= v->keys);
    }
}

/// Putting `n` more children, held in registers `more`, into a container.
proof fn lemma_step(
    store: Map<nat, Cell>,
    s1: Map<nat, Cell>,
    s2: Map<nat, Cell>,
    v: Val,
    i: nat,
    n: nat,
    target: nat,
    base: nat,
    from: nat,
    at: nat,
    built: Map<u32, nat>,
    built1: Map<u32, nat>,
    more: Seq<nat>,
)
    requires
        v is Node,
        i + n <= v->items.len(),
        more.len() == n,
        target < base <= from <= at,
        filled(store, v, i, target, base, built),
        v->kind == Kind::Obj ==> n == 1 && v->keys.len() == v->items.len(),
        forall|k: nat| k < base ==> #[trigger] s1[k] == store[k],
        s2 == put(
            s1,
            target,
            if v->kind == Kind::Obj {
                seq![v->keys[i as int]]
            } else {
                Seq::empty()
            },
            more,
        ),
        within(built, built1),
        objects(s1, built1),
        forall|j: int|
            0 <= j < n ==> holds(s1, #[trigger] more[j], v->items[i + j], built1, from, at),
    ensures
        filled(s2, v, i + n, target, at + 1, built1),
        objects(s2, built1),
        forall|k: nat| k < base && k != target ==> #[trigger] s2[k] == store[k],
{
    let old_kids = store[target]->kids;
    let kids = old_kids + more;
    assert(s1[target] == store[target]);
    assert(s2[target]->kids == kids);
    assert forall|j: int| 0 <= j < kids.len() && j < v->items.len() implies holds(
        s2,
        #[trigger] kids[j],
        v->items[j],
        built1,
        target + 1,
        at + 1,
    ) by {
        if j < i {
            assert(kids[j] == old_kids[j]);
            lemma_holds(
                store,
                s2,
                kids[j],
                v->items[j],
                built,
                built1,
                target + 1,
                base,
                target + 1,
                at + 1,
            );
        } else {
            assert(kids[j] == more[j - i]);
            assert(v->items[i + (j - i)] == v->items[j]);
            lemma_holds(
                s1,
                s2,
                kids[j],
                v->items[j],
                built1,
                built1,
                from,
                at,
                target + 1,
                at + 1,
            );
        }
    }
    assert(all_hold(s2, kids, v, built1, target + 1, at + 1));
    if v->kind == Kind::Obj {
        assert(v->keys.take(i as int) + seq![v->keys[i as int]] =~= v->keys.take((i + 1) as int));
    } else {
        assert(Seq::<Seq<char>>::empty() + Seq::<Seq<char>>::empty() =~= Seq::empty());
    }
}

/// What walking the registers of `store` is answered. `key` gives an object's
/// identity key, and `read` what a leaf reads back as.
pub open spec fn heap_of(
    store: Map<nat, Cell>,
    key: spec_fn(u64) -> u64,
    read: spec_fn(Val) -> Val,
) -> Heap {
    Heap {
        look: |h: u64|
            match store[h as nat] {
                Cell::Leaf(v) => if v is Bytes {
                    Reply::Buffer(key(h))
                } else {
                    Reply::Leaf(read(v))
                },
                Cell::Key(_) => Reply::Leaf(Val::Undefined),
                Cell::Container { kind, .. } => Reply::Container { kind, key: key(h) },
            },
        same: |a: u64, b: u64| a == b,
        text: |h: u64| Seq::empty(),
        bytes: |h: u64|
            match store[h as nat] {
                Cell::Leaf(Val::Bytes { bytes, .. }) => bytes,
                _ => Seq::empty(),
            },
        open: |h: u64|
            match store[h as nat] {
                Cell::Container { kids, .. } => Some(kids.len()),
                _ => None,
            },
        child: |h: u64, i: nat|
            match store[h as nat] {
                Cell::Container { kind, keys, kids } => Reply::Child {
                    key: if kind == Kind::Obj {
                        keys[i as int]
                    } else {
                        Seq::empty()
                    },
                    handle: kids[i as int] as u64,
                },
                _ => Reply::Child { key: Seq::empty(), handle: 0 },
            },
    }
}

/// `v` with every leaf replaced by what it reads back as.
pub open spec fn reread(v: Val, read: spec_fn(Val) -> Val) -> Val
    decreases v,
{
    match v {
        Val::Node { kind, id, keys, items } => Val::Node {
            kind,
            id,
            keys,
            items: Seq::new(
                items.len(),
                |i: int|
                    if 0 <= i < items.len() {
                        reread(items[i], read)
                    } else {
                        Val::Undefined
                    },
            ),
        },
        Val::Bytes { .. } => v,
        Val::Ref(_) => v,
        _ => read(v),
    }
}

/// Whether exactly the objects with ids below `next` were met.
spec fn known(met: Met, built: Map<u32, nat>, next: nat, key: spec_fn(u64) -> u64) -> bool {
    &&& met.next == next
    &&& forall|k: u64, j: int|
        0 <= j < candidates(met, k).len() ==> {
            let c = #[trigger] candidates(met, k)[j];
            c.1 < next && built[c.1] == c.0 && key(c.0) == k
        }
    &&& forall|id: u32| id < next ==> #[trigger] listed(met, key, built[id] as u64, id)
}

spec fn listed(met: Met, key: spec_fn(u64) -> u64, h: u64, id: u32) -> bool {
    exists|j: int|
        0 <= j < candidates(met, key(h)).len() && #[trigger] candidates(met, key(h))[j] == (h, id)
}

/// Whether identity keys are good enough for the way objects are tracked.
pub open spec fn keys_fit(tracking: Tracking, key: spec_fn(u64) -> u64) -> bool {
    &&& tracking != Tracking::Off
    &&& tracking == Tracking::Exact ==> forall|a: u64, b: u64|
        #[trigger] key(a) == #[trigger] key(b) ==> a == b
}

proof fn lemma_first(heap: Heap, h: u64, c: Seq<u64>)
    requires
        heap.same == (|a: u64, b: u64| a == b),
    ensures
        match first_same(heap, h, c) {
            Some(i) => i < c.len() && c[i as int] == h,
            None => forall|i: int| 0 <= i < c.len() ==> #[trigger] c[i] != h,
        },
    decreases c.len(),
{
    if c.len() > 0 && c[0] != h {
        lemma_first(heap, h, c.skip(1));
        if first_same(heap, h, c) is None {
            assert forall|i: int| 0 <= i < c.len() implies #[trigger] c[i] != h by {
                if i > 0 {
                    assert(c.skip(1)[i - 1] == c[i]);
                }
            }
        }
    }
}

proof fn lemma_found(
    heap: Heap,
    tracking: Tracking,
    met: Met,
    built: Map<u32, nat>,
    next: nat,
    total: nat,
    base: nat,
    key: spec_fn(u64) -> u64,
    id: u32,
)
    requires
        heap.same == (|a: u64, b: u64| a == b),
        keys_fit(tracking, key),
        known(met, built, next, key),
        covers(built, total, base),
        base <= u64::MAX,
        next <= total,
        id < total,
    ensures
        found(heap, tracking, met, key(built[id] as u64), built[id] as u64) == if id < next {
            Some(id)
        } else {
            None
        },
{
    assert(built.contains_key(id));
    let h = built[id] as u64;
    let c = candidates(met, key(h));
    let handles = c.map_values(|p: (u64, u32)| p.0);
    lemma_first(heap, h, handles);
    assert forall|j: int| 0 <= j < c.len() && (#[trigger] c[j]).0 == h implies c[j].1 == id && id
        < next by {
        assert(candidates(met, key(h))[j] == c[j]);
        assert(built.contains_key(c[j].1));
        assert(built[c[j].1] == built[id]);
    }
    if id < next {
        assert(listed(met, key, built[id] as u64, id));
        let j = choose|j: int| 0 <= j < c.len() && #[trigger] c[j] == (h, id);
        assert(handles[j] == h);
        if tracking == Tracking::Exact {
            assert(candidates(met, key(h))[0] == c[0]);
            assert(key(c[0].0) == key(h));
        }
    } else if c.len() > 0 {
        if tracking == Tracking::Exact {
            assert(candidates(met, key(h))[0] == c[0]);
            assert(key(c[0].0) == key(h));
        } else {
            match first_same(heap, h, handles) {
                Some(i) => {
                    assert(handles[i as int] == c[i as int].0);
                },
                None => {},
            }
        }
    }
}

proof fn lemma_register(
    tracking: Tracking,
    met: Met,
    built: Map<u32, nat>,
    next: nat,
    key: spec_fn(u64) -> u64,
    h: u64,
)
    requires
        tracking != Tracking::Off,
        known(met, built, next, key),
        next < u32::MAX,
        built[next as u32] == h,
    ensures
        known(register(tracking, met, key(h), h), built, next + 1, key),
{
    let m = register(tracking, met, key(h), h);
    assert forall|k: u64, j: int| 0 <= j < candidates(m, k).len() implies ({
        let c = #[trigger] candidates(m, k)[j];
        c.1 < next + 1 && built[c.1] == c.0 && key(c.0) == k
    }) by {
        if k != key(h) {
            assert(candidates(m, k) == candidates(met, k));
        } else if j < candidates(met, k).len() {
            assert(candidates(m, k)[j] == candidates(met, k)[j]);
        }
    }
    assert forall|id: u32| id < next + 1 implies #[trigger] listed(m, key, built[id] as u64, id) by {
        let g = built[id] as u64;
        if id < next {
            assert(listed(met, key, g, id));
            let j = choose|j: int|
                0 <= j < candidates(met, key(g)).len() && #[trigger] candidates(met, key(g))[j] == (
                g,
                id,
            );
            if key(g) != key(h) {
                assert(candidates(m, key(g)) == candidates(met, key(g)));
            }
            assert(candidates(m, key(g))[j] == (g, id));
        } else {
            let j = candidates(met, key(h)).len() as int;
            assert(candidates(m, key(g))[j] == (g, id));
        }
    }
}

/// The setting of a walk over built registers.
ghost struct Scene {
    store: Map<nat, Cell>,
    built: Map<u32, nat>,
    total: nat,
    end: nat,
    key: spec_fn(u64) -> u64,
    read: spec_fn(Val) -> Val,
    rules: Rules,
}

spec fn scene_fits(s: Scene) -> bool {
    &&& keys_fit(s.rules.tracking, s.key)
    &&& covers(s.built, s.total, s.end)
    &&& objects(s.store, s.built)
    &&& s.end <= u64::MAX
    &&& s.total <= u32::MAX
}

proof fn lemma_next_grows(v: Val, next: nat)
    ensures
        next <= next_after(v, next),
    decreases v, 1nat, 0nat,
{
    if v is Node {
        lemma_next_grows_children(v, 0, next + 1);
    }
}

proof fn lemma_next_grows_children(v: Val, i: nat, next: nat)
    requires
        v is Node,
    ensures
        next <= next_after_children(v, i, next),
    decreases v, 0nat, v->items.len() - i,
{
    if i < v->items.len() {
        lemma_next_grows(v->items[i as int], next);
        lemma_next_grows_children(v, i + 1, next_after(v->items[i as int], next));
    }
}

proof fn lemma_reads(s: Scene, r: nat, v: Val, depth: nat, met: Met, next: nat)
    requires
        scene_fits(s),
        holds(s.store, r, v, s.built, 0, s.end),
        canonical(v, next),
        known(met, s.built, next, s.key),
        next_after(v, next) <= s.total,
        depth + nesting(v) <= s.rules.max_depth,
    ensures
        ({
            let got = value_of(heap_of(s.store, s.key, s.read), s.rules, r as u64, depth, met);
            got.0 == reread(v, s.read) && known(got.1, s.built, next_after(v, next), s.key)
        }),
    decreases v, 1nat, 0nat,
{
    let heap = heap_of(s.store, s.key, s.read);
    let h = r as u64;
    lemma_next_grows(v, next);
    match v {
        Val::Ref(id) => {
            assert(s.built.contains_key(id));
            lemma_found(heap, s.rules.tracking, met, s.built, next, s.total, s.end, s.key, id);
        },
        Val::Bytes { id, bytes } => {
            lemma_found(
                heap,
                s.rules.tracking,
                met,
                s.built,
                next,
                s.total,
                s.end,
                s.key,
                next as u32,
            );
            lemma_register(s.rules.tracking, met, s.built, next, s.key, h);
        },
        Val::Node { kind, id, keys, items } => {
            lemma_next_grows_children(v, 0, next + 1);
            lemma_found(heap, s.rules.tracking, met, s.built, next, s.total, s.end, s.key, id);
            lemma_register(s.rules.tracking, met, s.built, next, s.key, h);
            let met1 = register(s.rules.tracking, met, (s.key)(h), h);
            let limit = child_limit(kind, items.len());
            assert(limit == items.len());
            lemma_reads_children(s, r, v, 0, depth + 1, met1, next + 1);
            let c = children_of(heap, s.rules, h, kind, 0, limit, depth + 1, met1);
            assert(reread(v, s.read)->items =~= c.1);
            assert(keys.skip(0) =~= keys);
            assert(kind != Kind::Obj ==> keys =~= Seq::empty());
        },
        _ => {},
    }
}

proof fn lemma_reads_children(
    s: Scene,
    r: nat,
    v: Val,
    i: nat,
    depth: nat,
    met: Met,
    next: nat,
)
    requires
        scene_fits(s),
        v is Node,
        i <= v->items.len(),
        holds(s.store, r, v, s.built, 0, s.end),
        v->kind == Kind::Obj ==> v->keys.len() == v->items.len(),
        canonical_children(v, i, next),
        known(met, s.built, next, s.key),
        next_after_children(v, i, next) <= s.total,
        depth + nesting_of_children(v, i) <= s.rules.max_depth,
    ensures
        ({
            let heap = heap_of(s.store, s.key, s.read);
            let c = children_of(
                heap,
                s.rules,
                r as u64,
                v->kind,
                i,
                v->items.len(),
                depth,
                met,
            );
            &&& c.0 == if v->kind == Kind::Obj {
                v->keys.skip(i as int)
            } else {
                Seq::empty()
            }
            &&& c.1.len() == v->items.len() - i
            &&& forall|j: int|
                0 <= j < c.1.len() ==> #[trigger] c.1[j] == reread(v->items[i + j], s.read)
            &&& known(c.2, s.built, next_after_children(v, i, next), s.key)
        }),
    decreases v, 0nat, v->items.len() - i,
{
    let heap = heap_of(s.store, s.key, s.read);
    let n = v->items.len();
    let c = children_of(heap, s.rules, r as u64, v->kind, i, n, depth, met);
    if i < n {
        let item = v->items[i as int];
        let kids = s.store[r]->kids;
        assert(holds(s.store, kids[i as int], item, s.built, 0, s.end));
        let n1 = next_after(item, next);
        lemma_next_grows_children(v, i + 1, n1);
        lemma_reads(s, kids[i as int], item, depth, met, next);
        let got = value_of(heap, s.rules, kids[i as int] as u64, depth, met);
        lemma_reads_children(s, r, v, i + 1, depth, got.1, n1);
        let rest = children_of(heap, s.rules, r as u64, v->kind, i + 1, n, depth, got.1);
        assert((heap.child)(r as u64, i) is Child);
        assert(c.1 == seq![got.0] + rest.1);
        assert forall|j: int| 0 <= j < c.1.len() implies #[trigger] c.1[j] == reread(
            v->items[i + j],
            s.read,
        ) by {
            if j > 0 {
                assert(c.1[j] == rest.1[j - 1]);
                assert(v->items[(i + 1) + (j - 1)] == v->items[i + j]);
            }
        }
        if v->kind == Kind::Obj {
            assert(seq![v->keys[i as int]] + v->keys.skip(i as int + 1) =~= v->keys.skip(i as int));
        }
    } else if v->kind == Kind::Obj {
        assert(v->keys.skip(i as int) =~= Seq::empty());
    }
}

/// A value that is built and then walked comes back as it was, except for what
/// the engine reads its leaves as: every container has its kind, its id, its
/// keys and its children, and every reference is to the same container.
pub proof fn law_built_value_reads_back(
    v: Val,
    tracking: Tracking,
    max_depth: nat,
    key: spec_fn(u64) -> u64,
    read: spec_fn(Val) -> Val,
)
    requires
        canonical(v, 0),
        next_after(v, 0) <= u32::MAX,
        nesting(v) <= max_depth,
        plan(v, 0, Map::empty()).ops.len() <= u64::MAX,
        keys_fit(tracking, key),
    ensures
        ({
            let p = plan(v, 0, Map::empty());
            let heap = heap_of(perform_all(Map::empty(), 0, p.ops), key, read);
            let root = p.reg as u64;
            exists|n: nat|
                (#[trigger] run(heap, begin(tracking, max_depth, root), Question::Look(root), n)).1
                    == Question::Done(reread(v, read))
        }),
{
    let p = plan(v, 0, Map::empty());
    let none = Map::<u32, nat>::empty();
    let store = perform_all(Map::empty(), 0, p.ops);
    lemma_build(Map::empty(), v, 0, none, 0);
    let rules = Rules { tracking, max_depth };
    let s = Scene {
        store,
        built: p.built,
        total: next_after(v, 0),
        end: p.ops.len(),
        key,
        read,
        rules,
    };
    let met = Met { seen: Map::empty(), next: 0 };
    assert(known(met, p.built, 0, key));
    lemma_reads(s, p.reg, v, 0, met, 0);
    let heap = heap_of(store, key, read);
    law_walk_ends_with_value(heap, tracking, max_depth, p.reg as u64);
}

} // verus!
