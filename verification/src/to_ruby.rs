//! Building a `JsVal` as a Ruby value.
use crate::classify::{finite_bits, is_marked, is_ruby_leaf, ruby_leaf, RubyLeaf};
use crate::construct::{jsval_to_js, op_views, plan, plan_children, BuildOp, Op};
use crate::errors::{plain, RubyClass, RubyError};
use crate::value::{
    entry_vals, law_list_views, law_map_view, law_obj_view, pair_vals, vals, JsVal, Kind, Val,
};
use vstd::prelude::*;

verus! {

/// One instruction; instruction number `k` leaves its result in register `k`.
#[derive(Debug)]
pub enum RubyOp {
    /// Make a value that holds no other value.
    Leaf(RubyLeaf),
    /// Make an empty container: an array, a set, and of an object or a map a hash,
    /// which is to be marked where it is made of a map.
    New { kind: Kind, from_map: bool },
    /// Make a string that is a key.
    Key { text: String },
    /// Append to an array.
    Push { target: usize, value: usize },
    /// Store in a hash.
    Store { target: usize, key: usize, value: usize },
    /// Add to a set.
    Add { target: usize, value: usize },
}

/// Whether an instruction of a plan is `r` in Ruby.
pub open spec fn is_ruby_op(op: Op, r: RubyOp) -> bool {
    match op {
        Op::Leaf(v) => r matches RubyOp::Leaf(l) && is_ruby_leaf(v, Ok(l)),
        Op::New { kind, .. } => r == (RubyOp::New { kind, from_map: is_marked(kind) }),
        Op::Key { text, .. } => r matches RubyOp::Key { text: t } && t@ == text,
        Op::SetIndex { target, value, .. } => r matches RubyOp::Push { target: t, value: x } && t
            == target && x == value,
        Op::SetKey { target, key, value } => r matches RubyOp::Store { target: t, key: k, value: x }
            && t == target && k == key && x == value,
        Op::MapSet { target, key, value } => r matches RubyOp::Store { target: t, key: k, value: x }
            && t == target && k == key && x == value,
        Op::SetAdd { target, value } => r matches RubyOp::Add { target: t, value: x } && t == target
            && x == value,
    }
}

/// Whether a date that is no time is somewhere in a value.
pub open spec fn holds_invalid_date(v: Val) -> bool
    decreases v, 1nat,
{
    match v {
        Val::Date(ms) => !finite_bits(ms),
        Val::Node { .. } => invalid_date_among(v, 0),
        _ => false,
    }
}

/// Whether one is in the children of a container from the `from`-th on.
pub open spec fn invalid_date_among(v: Val, from: int) -> bool
    decreases v, 0nat,
{
    match v {
        Val::Node { items, .. } => exists|i: int|
            from <= i && 0 <= i < items.len() && holds_invalid_date(#[trigger] items[i]),
        _ => false,
    }
}

/// Whether the children of every map come in pairs.
spec fn paired(v: Val) -> bool
    decreases v, 1nat,
{
    match v {
        Val::Node { kind, items, .. } => (kind == Kind::JsMap ==> items.len() % 2 == 0)
            && all_paired(v),
        _ => true,
    }
}

spec fn all_paired(v: Val) -> bool
    decreases v, 0nat,
{
    match v {
        Val::Node { items, .. } => forall|i: int|
            0 <= i < items.len() ==> paired(#[trigger] items[i]),
        _ => true,
    }
}

proof fn lemma_paired(val: JsVal)
    ensures
        paired(val@),
    decreases val,
{
    match val {
        JsVal::Array { id, items } => {
            law_list_views(id, items);
            assert forall|i: int| 0 <= i < items@.len() implies paired(
                #[trigger] vals(items@)[i],
            ) by {
                lemma_paired(items@[i]);
            }
            assert(all_paired(val@));
        },
        JsVal::JsSet { id, items } => {
            law_list_views(id, items);
            assert forall|i: int| 0 <= i < items@.len() implies paired(
                #[trigger] vals(items@)[i],
            ) by {
                lemma_paired(items@[i]);
            }
            assert(all_paired(val@));
        },
        JsVal::Obj { id, entries } => {
            law_obj_view(id, entries);
            assert forall|i: int| 0 <= i < entries@.len() implies paired(
                #[trigger] entry_vals(entries@)[i],
            ) by {
                lemma_paired(entries@[i].1);
            }
            assert(all_paired(val@));
        },
        JsVal::JsMap { id, pairs } => {
            law_map_view(id, pairs);
            assert forall|i: int| 0 <= i < 2 * pairs@.len() implies paired(
                #[trigger] pair_vals(pairs@)[i],
            ) by {
                if i % 2 == 0 {
                    lemma_paired(pairs@[i / 2].0);
                } else {
                    lemma_paired(pairs@[i / 2].1);
                }
            }
            assert(all_paired(val@));
        },
        _ => {},
    }
}

spec fn bad_op(op: Op) -> bool {
    op matches Op::Leaf(v) && (v matches Val::Date(ms) && !finite_bits(ms))
}

/// Whether one of some instructions makes a date that is no time.
spec fn bad_ops(ops: Seq<Op>) -> bool {
    exists|i: int| 0 <= i < ops.len() && bad_op(#[trigger] ops[i])
}

proof fn lemma_bad_concat(a: Seq<Op>, b: Seq<Op>)
    ensures
        bad_ops(a + b) == (bad_ops(a) || bad_ops(b)),
{
    let c = a + b;
    if bad_ops(a) {
        let i = choose|i: int| 0 <= i < a.len() && bad_op(#[trigger] a[i]);
        assert(c[i] == a[i]);
    }
    if bad_ops(b) {
        let i = choose|i: int| 0 <= i < b.len() && bad_op(#[trigger] b[i]);
        assert(c[a.len() + i] == b[i]);
    }
    if bad_ops(c) {
        let i = choose|i: int| 0 <= i < c.len() && bad_op(#[trigger] c[i]);
        if i < a.len() {
            assert(a[i] == c[i]);
        } else {
            assert(b[i - a.len()] == c[i]);
        }
    }
}

proof fn lemma_bad_one(op: Op)
    ensures
        bad_ops(seq![op]) == bad_op(op),
{
    assert(seq![op][0] == op);
}

proof fn lemma_among(v: Val, i: int)
    requires
        v is Node,
        0 <= i < v->items.len(),
    ensures
        invalid_date_among(v, i) == (holds_invalid_date(v->items[i]) || invalid_date_among(
            v,
            i + 1,
        )),
{
    if invalid_date_among(v, i) {
        let j = choose|j: int|
            i <= j && 0 <= j < v->items.len() && holds_invalid_date(#[trigger] v->items[j]);
        if j != i {
            assert(holds_invalid_date(v->items[j]));
        }
    }
    if invalid_date_among(v, i + 1) {
        let j = choose|j: int|
            i + 1 <= j && 0 <= j < v->items.len() && holds_invalid_date(#[trigger] v->items[j]);
        assert(holds_invalid_date(v->items[j]));
    }
}

/// The instructions for a value make a date that is no time just where one is in
/// the value.
proof fn lemma_dates(v: Val, base: nat, built: Map<u32, nat>)
    requires
        paired(v),
    ensures
        bad_ops(plan(v, base, built).ops) == holds_invalid_date(v),
    decreases v, 1nat, 0nat,
{
    match v {
        Val::Ref(id) => {
            lemma_bad_one(Op::Leaf(Val::Undefined));
        },
        Val::Node { kind, id, items, .. } => {
            let len = if kind == Kind::Array {
                items.len()
            } else {
                0
            };
            let rest = plan_children(v, 0, base, base + 1, built.insert(id, base));
            lemma_bad_one(Op::New { kind, len });
            lemma_bad_concat(seq![Op::New { kind, len }], rest.0);
            lemma_dates_of_children(v, 0, base, base + 1, built.insert(id, base));
        },
        _ => {
            lemma_bad_one(Op::Leaf(v));
        },
    }
}

proof fn lemma_dates_of_children(v: Val, i: nat, target: nat, base: nat, built: Map<u32, nat>)
    requires
        v is Node,
        paired(v),
        v->kind == Kind::JsMap ==> i % 2 == 0,
    ensures
        bad_ops(plan_children(v, i, target, base, built).0) == invalid_date_among(v, i as int),
    decreases v, 0nat, v->items.len() - i,
{
    let items = v->items;
    if i < items.len() {
        assert(paired(items[i as int]));
        lemma_among(v, i as int);
        match v->kind {
            Kind::Array => {
                let p = plan(items[i as int], base, built);
                let set = Op::SetIndex { target, index: i, value: p.reg };
                let at = base + p.ops.len() + 1;
                let rest = plan_children(v, i + 1, target, at, p.built);
                lemma_dates(items[i as int], base, built);
                lemma_dates_of_children(v, i + 1, target, at, p.built);
                lemma_bad_one(set);
                lemma_bad_concat(p.ops, seq![set]);
                lemma_bad_concat(p.ops + seq![set], rest.0);
            },
            Kind::JsSet => {
                let p = plan(items[i as int], base, built);
                let set = Op::SetAdd { target, value: p.reg };
                let at = base + p.ops.len() + 1;
                let rest = plan_children(v, i + 1, target, at, p.built);
                lemma_dates(items[i as int], base, built);
                lemma_dates_of_children(v, i + 1, target, at, p.built);
                lemma_bad_one(set);
                lemma_bad_concat(p.ops, seq![set]);
                lemma_bad_concat(p.ops + seq![set], rest.0);
            },
            Kind::Obj => {
                let p = plan(items[i as int], base + 1, built);
                let key = Op::Key { text: v->keys[i as int], skip: p.ops.len() + 1 };
                let set = Op::SetKey { target, key: base, value: p.reg };
                let at = base + p.ops.len() + 2;
                let rest = plan_children(v, i + 1, target, at, p.built);
                lemma_dates(items[i as int], base + 1, built);
                lemma_dates_of_children(v, i + 1, target, at, p.built);
                lemma_bad_one(key);
                lemma_bad_one(set);
                lemma_bad_concat(seq![key], p.ops);
                lemma_bad_concat(seq![key] + p.ops, seq![set]);
                lemma_bad_concat(seq![key] + p.ops + seq![set], rest.0);
            },
            Kind::JsMap => {
                assert(i + 1 < items.len());
                assert(paired(items[i as int + 1]));
                lemma_among(v, i as int + 1);
                let k = plan(items[i as int], base, built);
                let p = plan(items[i as int + 1], base + k.ops.len(), k.built);
                let set = Op::MapSet { target, key: k.reg, value: p.reg };
                let at = base + k.ops.len() + p.ops.len() + 1;
                let rest = plan_children(v, i + 2, target, at, p.built);
                lemma_dates(items[i as int], base, built);
                lemma_dates(items[i as int + 1], base + k.ops.len(), k.built);
                lemma_dates_of_children(v, i + 2, target, at, p.built);
                lemma_bad_one(set);
                lemma_bad_concat(k.ops, p.ops);
                lemma_bad_concat(k.ops + p.ops, seq![set]);
                lemma_bad_concat(k.ops + p.ops + seq![set], rest.0);
            },
        }
    } else {
        assert(!bad_ops(Seq::empty()));
    }
}

/// The instructions that build `val` as a Ruby value, and the register that then
/// holds it. Containers are remembered as `construct` says, so that what was
/// shared is shared. A date that is no time, however deep it lies, makes the
/// whole conversion fail.
pub fn jsval_to_ruby(val: JsVal) -> (r: Result<(Vec<RubyOp>, usize), RubyError>)
    ensures
        match r {
            Ok((ops, root)) => {
                let p = plan(val@, 0, Map::empty());
                &&& !holds_invalid_date(val@)
                &&& ops@.len() == p.ops.len()
                &&& forall|i: int|
                    0 <= i < ops@.len() ==> is_ruby_op(p.ops[i], #[trigger] ops@[i])
                &&& root == p.reg
            },
            Err(e) => holds_invalid_date(val@) && e@ == plain(
                RubyClass::RangeError,
                "invalid Date"@,
            ),
        },
{
    let ghost p = plan(val@, 0, Map::empty());
    proof {
        lemma_paired(val);
        lemma_dates(val@, 0, Map::empty());
    }
    let ghost bad = holds_invalid_date(val@);
    let (ops, root): (Vec<BuildOp>, usize) = jsval_to_js(val);
    let ghost all = ops@;
    let mut out: Vec<RubyOp> = Vec::new();
    for op in iter: ops
        invariant
            iter.seq() == all,
            op_views(all) == p.ops,
            bad == holds_invalid_date(val@),
            bad == bad_ops(p.ops),
            out@.len() == iter.index(),
            forall|i: int| 0 <= i < out@.len() ==> !bad_op(#[trigger] p.ops[i]),
            forall|i: int| 0 <= i < out@.len() ==> is_ruby_op(p.ops[i], #[trigger] out@[i]),
    {
        let ghost n = out@.len() as int;
        let ghost before = out@;
        assert(p.ops[n] == op@);
        let made = match op {
            BuildOp::Leaf(v) => match ruby_leaf(v) {
                Ok(l) => RubyOp::Leaf(l),
                Err(e) => {
                    assert(bad_op(p.ops[n]));
                    return Err(e);
                },
            },
            BuildOp::New { kind, .. } => RubyOp::New { kind, from_map: kind == Kind::JsMap },
            BuildOp::Key { text, .. } => RubyOp::Key { text },
            BuildOp::SetIndex { target, value, .. } => RubyOp::Push { target, value },
            BuildOp::SetKey { target, key, value } => RubyOp::Store { target, key, value },
            BuildOp::MapSet { target, key, value } => RubyOp::Store { target, key, value },
            BuildOp::SetAdd { target, value } => RubyOp::Add { target, value },
        };
        out.push(made);
        assert forall|i: int| 0 <= i < out@.len() implies is_ruby_op(
            p.ops[i],
            #[trigger] out@[i],
        ) by {
            if i < n {
                assert(out@[i] == before[i]);
            }
        }
    }
    assert(!bad);
    Ok((out, root))
}

/// Each instruction does in Ruby what it does in JavaScript, on the same registers:
/// what is made of a map, and nothing else, is marked, and keys and values are
/// stored as they are.
pub proof fn law_ruby_instruction_is_the_same(op: Op, r: RubyOp)
    requires
        is_ruby_op(op, r),
    ensures
        op matches Op::New { kind, len } ==> r == (RubyOp::New {
            kind,
            from_map: kind == Kind::JsMap,
        }),
        op matches Op::Key { text, skip } ==> (r matches RubyOp::Key { text: t } && t@ == text),
        op matches Op::SetIndex { target, index, value } ==> (r matches RubyOp::Push {
            target: t,
            value: x,
        } && t == target && x == value),
        op matches Op::SetAdd { target, value } ==> (r matches RubyOp::Add { target: t, value: x }
            && t == target && x == value),
        op matches Op::SetKey { target, key, value } ==> (r matches RubyOp::Store {
            target: t,
            key: k,
            value: x,
        } && t == target && k == key && x == value),
        op matches Op::MapSet { target, key, value } ==> (r matches RubyOp::Store {
            target: t,
            key: k,
            value: x,
        } && t == target && k == key && x == value),
        op matches Op::Leaf(v) ==> (r matches RubyOp::Leaf(l) && is_ruby_leaf(v, Ok(l))),
{
}

/// A value holds an invalid date exactly where it is one or one of its parts holds
/// one, however deep and in whichever place.
pub proof fn law_invalid_date_is_found_in_any_part(
    kind: Kind,
    id: u32,
    keys: Seq<Seq<char>>,
    items: Seq<Val>,
    ms: u64,
)
    ensures
        holds_invalid_date(Val::Date(ms)) <==> !finite_bits(ms),
        holds_invalid_date(Val::Node { kind, id, keys, items }) <==> exists|i: int|
            0 <= i < items.len() && holds_invalid_date(#[trigger] items[i]),
        !holds_invalid_date(Val::Undefined) && !holds_invalid_date(Val::Num(ms)),
{
    let v = Val::Node { kind, id, keys, items };
    if holds_invalid_date(v) {
        let i = choose|i: int|
            0 <= i && 0 <= i < v->items.len() && holds_invalid_date(#[trigger] v->items[i]);
        assert(holds_invalid_date(items[i]));
    }
    if exists|i: int| 0 <= i < items.len() && holds_invalid_date(#[trigger] items[i]) {
        let i = choose|i: int| 0 <= i < items.len() && holds_invalid_date(#[trigger] items[i]);
        assert(holds_invalid_date(v->items[i]));
    }
}

} // verus!
