//! Building a `JsVal` inside an engine, as a straight list of instructions.
//!
//! Instruction number `k` leaves its result in register `k`. A container is
//! created, and remembered under its id, before its children are, so that a
//! reference from a descendant finds the very same object.
use crate::value::{
    entry_keys, entry_vals, law_list_views, law_map_view, law_obj_view, pair_vals, vals, JsVal, Kind,
    Val,
};
use std::collections::HashMap;
use vstd::prelude::*;

verus! {

broadcast use vstd::std_specs::hash::group_hash_axioms;

/// One instruction; registers are instruction numbers.
#[derive(Debug)]
pub enum BuildOp {
    /// Make a value that holds no other value.
    Leaf(JsVal),
    /// Make an empty container; `len` is the number of an array's elements.
    New { kind: Kind, len: usize },
    /// Make a property key. If the engine cannot, the next `skip` instructions
    /// are passed over and their registers stay empty.
    Key { text: String, skip: usize },
    SetIndex { target: usize, index: usize, value: usize },
    SetKey { target: usize, key: usize, value: usize },
    MapSet { target: usize, key: usize, value: usize },
    SetAdd { target: usize, value: usize },
}

/// The mathematical value of an instruction.
#[verifier::ext_equal]
pub ghost enum Op {
    Leaf(Val),
    New { kind: Kind, len: nat },
    Key { text: Seq<char>, skip: nat },
    SetIndex { target: nat, index: nat, value: nat },
    SetKey { target: nat, key: nat, value: nat },
    MapSet { target: nat, key: nat, value: nat },
    SetAdd { target: nat, value: nat },
}

impl View for BuildOp {
    type V = Op;

    open spec fn view(&self) -> Op {
        match self {
            BuildOp::Leaf(v) => Op::Leaf(v@),
            BuildOp::New { kind, len } => Op::New { kind: *kind, len: *len as nat },
            BuildOp::Key { text, skip } => Op::Key { text: text@, skip: *skip as nat },
            BuildOp::SetIndex { target, index, value } => Op::SetIndex {
                target: *target as nat,
                index: *index as nat,
                value: *value as nat,
            },
            BuildOp::SetKey { target, key, value } => Op::SetKey {
                target: *target as nat,
                key: *key as nat,
                value: *value as nat,
            },
            BuildOp::MapSet { target, key, value } => Op::MapSet {
                target: *target as nat,
                key: *key as nat,
                value: *value as nat,
            },
            BuildOp::SetAdd { target, value } => Op::SetAdd {
                target: *target as nat,
                value: *value as nat,
            },
        }
    }
}

/// The values of a list of instructions.
pub open spec fn op_views(v: Seq<BuildOp>) -> Seq<Op> {
    v.map_values(|o: BuildOp| o@)
}

/// What building a value takes: the instructions, the register that then holds
/// the value, and the registers of the containers built so far, by id.
pub ghost struct Plan {
    pub ops: Seq<Op>,
    pub reg: nat,
    pub built: Map<u32, nat>,
}

/// The plan for `v` when `base` instructions come before it.
pub open spec fn plan(v: Val, base: nat, built: Map<u32, nat>) -> Plan
    decreases v, 1nat, 0nat,
{
    match v {
        Val::Ref(id) => if built.contains_key(id) {
            Plan { ops: Seq::empty(), reg: built[id], built }
        } else {
            Plan { ops: seq![Op::Leaf(Val::Undefined)], reg: base, built }
        },
        Val::Bytes { id, .. } => Plan {
            ops: seq![Op::Leaf(v)],
            reg: base,
            built: match id {
                Some(i) => built.insert(i, base),
                None => built,
            },
        },
        Val::Node { kind, id, items, .. } => {
            let first = Op::New {
                kind,
                len: if kind == Kind::Array {
                    items.len()
                } else {
                    0
                },
            };
            let rest = plan_children(v, 0, base, base + 1, built.insert(id, base));
            Plan { ops: seq![first] + rest.0, reg: base, built: rest.1 }
        },
        _ => Plan { ops: seq![Op::Leaf(v)], reg: base, built },
    }
}

/// The instructions for the children of a container from the `i`-th on.
pub open spec fn plan_children(
    v: Val,
    i: nat,
    target: nat,
    base: nat,
    built: Map<u32, nat>,
) -> (Seq<Op>, Map<u32, nat>)
    decreases v, 0nat, v->items.len() - i,
{
    match v {
        Val::Node { kind, keys, items, .. } => if i >= items.len() {
            (Seq::empty(), built)
        } else {
            match kind {
                Kind::Array => {
                    let p = plan(items[i as int], base, built);
                    let set = Op::SetIndex { target, index: i, value: p.reg };
                    let rest = plan_children(v, i + 1, target, base + p.ops.len() + 1, p.built);
                    (p.ops + seq![set] + rest.0, rest.1)
                },
                Kind::JsSet => {
                    let p = plan(items[i as int], base, built);
                    let set = Op::SetAdd { target, value: p.reg };
                    let rest = plan_children(v, i + 1, target, base + p.ops.len() + 1, p.built);
                    (p.ops + seq![set] + rest.0, rest.1)
                },
                Kind::Obj => {
                    let p = plan(items[i as int], base + 1, built);
                    let key = Op::Key { text: keys[i as int], skip: p.ops.len() + 1 };
                    let set = Op::SetKey { target, key: base, value: p.reg };
                    let rest = plan_children(v, i + 1, target, base + p.ops.len() + 2, p.built);
                    (seq![key] + p.ops + seq![set] + rest.0, rest.1)
                },
                Kind::JsMap => if i + 1 >= items.len() {
                    (Seq::empty(), built)
                } else {
                    let k = plan(items[i as int], base, built);
                    let p = plan(items[i as int + 1], base + k.ops.len(), k.built);
                    let set = Op::MapSet { target, key: k.reg, value: p.reg };
                    let rest = plan_children(
                        v,
                        i + 2,
                        target,
                        base + k.ops.len() + p.ops.len() + 1,
                        p.built,
                    );
                    (k.ops + p.ops + seq![set] + rest.0, rest.1)
                },
            }
        },
        _ => (Seq::empty(), built),
    }
}

/// The containers built so far, by id.
pub open spec fn built_view(m: Map<u32, usize>) -> Map<u32, nat> {
    m.map_values(|r: usize| r as nat)
}

struct Builder {
    ops: Vec<BuildOp>,
    built: HashMap<u32, usize>,
}

impl Builder {
    spec fn ops(self) -> Seq<Op> {
        op_views(self.ops@)
    }

    spec fn built(self) -> Map<u32, nat> {
        built_view(self.built@)
    }

    fn push(&mut self, op: BuildOp) -> (reg: usize)
        ensures
            final(self).ops() == old(self).ops().push(op@),
            final(self).built == old(self).built,
            reg == old(self).ops().len(),
    {
        let reg: usize = self.ops.len();
        self.ops.push(op);
        assert(self.ops() =~= old(self).ops().push(op@));
        reg
    }

    fn remember(&mut self, id: u32, reg: usize)
        ensures
            final(self).ops == old(self).ops,
            final(self).built() == old(self).built().insert(id, reg as nat),
    {
        self.built.insert(id, reg);
        assert(self.built() =~= old(self).built().insert(id, reg as nat));
    }

    fn add_list(&mut self, kind: Kind, id: u32, items: Vec<JsVal>) -> (reg: usize)
        requires
            kind == Kind::Array || kind == Kind::JsSet,
        ensures
            ({
                let v = Val::Node { kind, id, keys: Seq::empty(), items: vals(items@) };
                let p = plan(v, old(self).ops().len(), old(self).built());
                &&& final(self).ops() == old(self).ops() + p.ops
                &&& reg == p.reg
                &&& final(self).built() == p.built
            }),
        decreases items, 0nat,
    {
        let ghost v = Val::Node { kind, id, keys: Seq::empty(), items: vals(items@) };
        let ghost p = plan(v, self.ops().len(), self.built());
        let len: usize = if kind == Kind::Array { items.len() } else { 0 };
        let target: usize = self.push(BuildOp::New { kind, len });
        self.remember(id, target);
        proof {
            let rest = plan_children(v, 0, target as nat, target as nat + 1, self.built());
            assert(old(self).ops() + p.ops =~= self.ops() + rest.0);
        }
        let ghost all = items@;
        let count: usize = items.len();
        let mut i: usize = 0;
        for it in iter: items
            invariant
                count == all.len(),
                v == (Val::Node { kind, id, keys: Seq::empty(), items: vals(all) }),
                kind == Kind::Array || kind == Kind::JsSet,
                iter.seq() == all,
                items@ == all,
                i == iter.index(),
                p == plan(v, old(self).ops().len(), old(self).built()),
                old(self).ops() + p.ops == self.ops() + plan_children(
                    v,
                    i as nat,
                    target as nat,
                    self.ops().len(),
                    self.built(),
                ).0,
                p.built == plan_children(
                    v,
                    i as nat,
                    target as nat,
                    self.ops().len(),
                    self.built(),
                ).1,
        {
            let value: usize = self.build(it);
            if kind == Kind::Array {
                self.push(BuildOp::SetIndex { target, index: i, value });
            } else {
                self.push(BuildOp::SetAdd { target, value });
            }
            i = i + 1;
        }
        target
    }

    fn add_object(&mut self, id: u32, entries: Vec<(String, JsVal)>) -> (reg: usize)
        ensures
            ({
                let v = Val::Node {
                    kind: Kind::Obj,
                    id,
                    keys: entry_keys(entries@),
                    items: entry_vals(entries@),
                };
                let p = plan(v, old(self).ops().len(), old(self).built());
                &&& final(self).ops() == old(self).ops() + p.ops
                &&& reg == p.reg
                &&& final(self).built() == p.built
            }),
        decreases entries, 0nat,
    {
        let ghost all = entries@;
        let ghost v = Val::Node {
            kind: Kind::Obj,
            id,
            keys: entry_keys(all),
            items: entry_vals(all),
        };
        let ghost p = plan(v, self.ops().len(), self.built());
        let target: usize = self.push(BuildOp::New { kind: Kind::Obj, len: 0 });
        self.remember(id, target);
        proof {
            let rest = plan_children(v, 0, target as nat, target as nat + 1, self.built());
            assert(old(self).ops() + p.ops =~= self.ops() + rest.0);
        }
        let count: usize = entries.len();
        let mut i: usize = 0;
        for it in iter: entries
            invariant
                v == (Val::Node {
                    kind: Kind::Obj,
                    id,
                    keys: entry_keys(all),
                    items: entry_vals(all),
                }),
                count == all.len(),
                iter.seq() == all,
                entries@ == all,
                i == iter.index(),
                p == plan(v, old(self).ops().len(), old(self).built()),
                old(self).ops() + p.ops == self.ops() + plan_children(
                    v,
                    i as nat,
                    target as nat,
                    self.ops().len(),
                    self.built(),
                ).0,
                p.built == plan_children(
                    v,
                    i as nat,
                    target as nat,
                    self.ops().len(),
                    self.built(),
                ).1,
        {
            let ghost before = self.ops();
            let ghost c = plan(it.1@, self.ops().len() + 1, self.built());
            let (text, child) = it;
            let ghost name = text@;
            let key: usize = self.push(BuildOp::Key { text, skip: 0 });
            assert(self.ops()[key as int] == Op::Key { text: name, skip: 0 });
            let value: usize = self.build(child);
            assert(self.ops()[key as int] == Op::Key { text: name, skip: 0 });
            self.push(BuildOp::SetKey { target, key, value });
            assert(self.ops()[key as int] == Op::Key { text: name, skip: 0 });
            let ghost filled = self.ops();
            assert(self.ops@.len() == filled.len());
            assert(filled.len() == key + 2 + c.ops.len());
            let skip: usize = self.ops.len() - key - 1;
            match &mut self.ops[key] {
                BuildOp::Key { skip: s, .. } => {
                    *s = skip;
                },
                _ => {},
            }
            proof {
                let first = Op::Key { text: name, skip: c.ops.len() + 1 };
                let last = Op::SetKey {
                    target: target as nat,
                    key: key as nat,
                    value: value as nat,
                };
                assert(self.ops() =~= filled.update(key as int, first));
                assert(self.ops() =~= before + (seq![first] + c.ops + seq![last]));
            }
            i = i + 1;
        }
        target
    }

    fn add_map(&mut self, id: u32, pairs: Vec<(JsVal, JsVal)>) -> (reg: usize)
        ensures
            ({
                let v = Val::Node {
                    kind: Kind::JsMap,
                    id,
                    keys: Seq::empty(),
                    items: pair_vals(pairs@),
                };
                let p = plan(v, old(self).ops().len(), old(self).built());
                &&& final(self).ops() == old(self).ops() + p.ops
                &&& reg == p.reg
                &&& final(self).built() == p.built
            }),
        decreases pairs, 0nat,
    {
        let ghost all = pairs@;
        let ghost v = Val::Node { kind: Kind::JsMap, id, keys: Seq::empty(), items: pair_vals(all) };
        let ghost p = plan(v, self.ops().len(), self.built());
        let target: usize = self.push(BuildOp::New { kind: Kind::JsMap, len: 0 });
        self.remember(id, target);
        proof {
            let rest = plan_children(v, 0, target as nat, target as nat + 1, self.built());
            assert(old(self).ops() + p.ops =~= self.ops() + rest.0);
        }
        for it in iter: pairs
            invariant
                v == (Val::Node {
                    kind: Kind::JsMap,
                    id,
                    keys: Seq::empty(),
                    items: pair_vals(all),
                }),
                iter.seq() == all,
                pairs@ == all,
                p == plan(v, old(self).ops().len(), old(self).built()),
                old(self).ops() + p.ops == self.ops() + plan_children(
                    v,
                    (2 * iter.index()) as nat,
                    target as nat,
                    self.ops().len(),
                    self.built(),
                ).0,
                p.built == plan_children(
                    v,
                    (2 * iter.index()) as nat,
                    target as nat,
                    self.ops().len(),
                    self.built(),
                ).1,
        {
            let ghost n = 2 * iter.index();
            assert(pair_vals(all)[n] == it.0@);
            assert(pair_vals(all)[n + 1] == it.1@);
            let (k, w) = it;
            let key: usize = self.build(k);
            let value: usize = self.build(w);
            self.push(BuildOp::MapSet { target, key, value });
        }
        target
    }

    fn build(&mut self, val: JsVal) -> (reg: usize)
        ensures
            ({
                let p = plan(val@, old(self).ops().len(), old(self).built());
                &&& final(self).ops() == old(self).ops() + p.ops
                &&& reg == p.reg
                &&& final(self).built() == p.built
            }),
        decreases val, 1nat,
    {
        match val {
            JsVal::Ref(id) => {
                let known: Option<usize> = match self.built.get(&id) {
                    Some(r) => Some(*r),
                    None => None,
                };
                match known {
                    Some(r) => {
                        assert(self.ops() =~= self.ops() + Seq::<Op>::empty());
                        r
                    },
                    None => self.push(BuildOp::Leaf(JsVal::Undefined)),
                }
            },
            JsVal::Bytes { id, bytes } => {
                let reg: usize = self.push(BuildOp::Leaf(JsVal::Bytes { id, bytes }));
                match id {
                    Some(i) => self.remember(i, reg),
                    None => {},
                }
                reg
            },
            JsVal::Array { id, items } => {
                proof {
                    law_list_views(id, items);
                }
                self.add_list(Kind::Array, id, items)
            },
            JsVal::JsSet { id, items } => {
                proof {
                    law_list_views(id, items);
                }
                self.add_list(Kind::JsSet, id, items)
            },
            JsVal::Obj { id, entries } => {
                proof {
                    law_obj_view(id, entries);
                }
                self.add_object(id, entries)
            },
            JsVal::JsMap { id, pairs } => {
                proof {
                    law_map_view(id, pairs);
                }
                self.add_map(id, pairs)
            },
            leaf => self.push(BuildOp::Leaf(leaf)),
        }
    }
}

/// The instructions that build `val` in an engine, and the register that then
/// holds it. A reference to an id that was not built reads as `undefined`.
pub fn jsval_to_js(val: JsVal) -> (plan_of: (Vec<BuildOp>, usize))
    ensures
        op_views(plan_of.0@) == plan(val@, 0, Map::empty()).ops,
        plan_of.1 == plan(val@, 0, Map::empty()).reg,
{
    let mut b = Builder { ops: Vec::new(), built: HashMap::new() };
    assert(b.ops() =~= Seq::empty());
    assert(b.built() =~= Map::empty());
    let reg: usize = b.build(val);
    assert(b.ops() =~= plan(val@, 0, Map::empty()).ops);
    (b.ops, reg)
}

/// A reference to a container that was built takes no instruction: it is the very
/// register of that container. One to a container that was not is undefined.
pub proof fn law_reference_is_the_container(id: u32, base: nat, built: Map<u32, nat>)
    ensures
        built.contains_key(id) ==> plan(Val::Ref(id), base, built).ops.len() == 0 && plan(
            Val::Ref(id),
            base,
            built,
        ).reg == built[id],
        !built.contains_key(id) ==> plan(Val::Ref(id), base, built).ops == seq![
            Op::Leaf(Val::Undefined),
        ],
        plan(Val::Ref(id), base, built).built == built,
{
}

/// A value without parts is made as it is, by one instruction. A container is made
/// empty, of its own kind, before anything that is put into it, and is known by its
/// id from then on.
pub proof fn law_container_is_made_first(v: Val, base: nat, built: Map<u32, nat>)
    requires
        !(v is Ref),
    ensures
        ({
            let p = plan(v, base, built);
            &&& p.reg == base
            &&& p.ops.len() >= 1
            &&& match v {
                Val::Node { kind, id, items, .. } => {
                    &&& p.ops[0] matches Op::New { kind: k, len }
                    &&& k == kind
                    &&& kind == Kind::Array ==> len == items.len()
                },
                Val::Bytes { id: Some(i), .. } => p.ops == seq![Op::Leaf(v)]
                    && p.built == built.insert(i, base),
                _ => p.ops == seq![Op::Leaf(v)] && p.built == built,
            }
        }),
{
}

} // verus!
