//! A Ruby value that crosses into JavaScript and back again: what comes out is
//! equal to what went in, and what was shared or cyclic is so again.
use crate::bigint::magnitude;
use crate::classify::{atom_of, crosses_as, finite_bits, Atom};
use crate::construct::plan;
use crate::doubles::double_is;
use crate::marshal::{begin, Met, Question, Tracking};
use crate::round_trip::{
    canonical, canonical_children, heap_of, keys_fit, law_built_value_reads_back, nesting,
    nesting_of_children, next_after, next_after_children, perform_all, reread,
};
use crate::sharing::{keys_differ, law_copy_has_same_value, law_walk_is_canonical, leaves_are_leaves};
use crate::value::Val;
use crate::walk::{run, value_of, well_behaved, Heap, Rules};
use vstd::prelude::*;

verus! {

/// What an engine may read a leaf back as that was made in it: the leaf itself,
/// the same number as a double or as an integer, and other limbs of the same
/// big integer.
pub open spec fn like(v: Val, w: Val) -> bool {
    ||| w == v
    ||| (v matches Val::Int(i) && (w matches Val::Num(bits) && double_is(bits, i as int)))
    ||| (v matches Val::Num(bits) && (w matches Val::Int(i) && double_is(bits, i as int)))
    ||| (v matches Val::BigInt { negative: n, words: a } && (w matches Val::BigInt {
        negative: m,
        words: b,
    } && n == m && magnitude(a) == magnitude(b)))
}

/// Whether an engine keeps a leaf as it is: null, a boolean, text, a big integer
/// or a number that is finite. Of dates and of what is no number at all nothing
/// is said.
pub open spec fn lasts(v: Val) -> bool {
    match v {
        Val::Null => true,
        Val::Bool(_) => true,
        Val::Int(_) => true,
        Val::Num(bits) => finite_bits(bits),
        Val::Str(_) => true,
        Val::BigInt { .. } => true,
        _ => false,
    }
}

/// Whether an engine reads back what was made in it: a leaf as a leaf, and one
/// that lasts as one like it.
pub open spec fn reads_back(read: spec_fn(Val) -> Val) -> bool {
    forall|v: Val|
        {
            let w = #[trigger] read(v);
            &&& lasts(v) ==> like(v, w)
            &&& !(v is Node || v is Bytes || v is Ref) ==> !(w is Node || w is Bytes || w is Ref)
        }
}

/// Whether two Ruby values are equal as Ruby's `==` has it: an integer is equal
/// to the double that it is.
pub open spec fn ruby_equal(a: Atom, b: Atom) -> bool {
    ||| a == b
    ||| (a matches Atom::Integer(n) && (b matches Atom::Float(bits) && double_is(bits, n)))
    ||| (a matches Atom::Float(bits) && (b matches Atom::Integer(n) && double_is(bits, n)))
}

/// Whether a value that came back is equal to the one that went in: containers,
/// binary strings and references are the same, and every leaf that lasts is equal
/// to whatever Ruby value crossed as the leaf in its place.
pub open spec fn came_back(v: Val, w: Val) -> bool
    decreases v, 1nat,
{
    match v {
        Val::Node { kind, id, keys, items } => {
            &&& w is Node
            &&& (w->kind, w->Node_id, w->keys) == (kind, id, keys)
            &&& w->items.len() == items.len()
            &&& all_came_back(v, w)
        },
        Val::Bytes { .. } => w == v,
        Val::Ref(_) => w == v,
        _ => forall|a: Atom|
            lasts(v) && #[trigger] crosses_as(a, v) ==> ruby_equal(a, atom_of(w)),
    }
}

/// Whether the children came back, one by one.
pub open spec fn all_came_back(v: Val, w: Val) -> bool
    decreases v, 0nat,
{
    match v {
        Val::Node { items, .. } => forall|i: int|
            0 <= i < items.len() ==> came_back(#[trigger] items[i], w->items[i]),
        _ => true,
    }
}

/// A Ruby value without identity that crosses as a leaf, is read back by the
/// engine and made a Ruby value again is equal to what it was: nil, the
/// booleans, integers of any size, floats and text.
pub proof fn law_atom_comes_back(a: Atom, v: Val, w: Val)
    requires
        crosses_as(a, v),
        like(v, w),
    ensures
        ruby_equal(a, atom_of(w)),
{
}

proof fn lemma_reread_comes_back(v: Val, read: spec_fn(Val) -> Val)
    requires
        reads_back(read),
    ensures
        came_back(v, reread(v, read)),
    decreases v,
{
    let w = reread(v, read);
    match v {
        Val::Node { kind, id, keys, items } => {
            assert forall|i: int| 0 <= i < items.len() implies came_back(
                #[trigger] items[i],
                w->items[i],
            ) by {
                lemma_reread_comes_back(items[i], read);
            }
            assert(all_came_back(v, w));
        },
        Val::Bytes { .. } => {},
        Val::Ref(_) => {},
        _ => {
            assert(w == read(v));
            assert forall|a: Atom| lasts(v) && #[trigger] crosses_as(a, v) implies ruby_equal(
                a,
                atom_of(w),
            ) by {
                law_atom_comes_back(a, v, w);
            }
        },
    }
}

/// What is read back has its ids and its shape as they were.
proof fn lemma_reread_keeps(v: Val, read: spec_fn(Val) -> Val, next: nat)
    requires
        reads_back(read),
    ensures
        canonical(v, next) ==> canonical(reread(v, read), next),
        next_after(reread(v, read), next) == next_after(v, next),
        nesting(reread(v, read)) == nesting(v),
    decreases v, 1nat, 0nat,
{
    match v {
        Val::Node { .. } => {
            lemma_reread_keeps_children(v, read, 0, next + 1);
        },
        Val::Bytes { .. } => {},
        Val::Ref(_) => {},
        _ => {
            assert(reread(v, read) == read(v));
        },
    }
}

proof fn lemma_reread_keeps_children(v: Val, read: spec_fn(Val) -> Val, i: nat, next: nat)
    requires
        reads_back(read),
        v is Node,
    ensures
        ({
            let w = reread(v, read);
            &&& canonical_children(v, i, next) ==> canonical_children(w, i, next)
            &&& next_after_children(w, i, next) == next_after_children(v, i, next)
            &&& nesting_of_children(w, i) == nesting_of_children(v, i)
        }),
    decreases v, 0nat, v->items.len() - i,
{
    let w = reread(v, read);
    assert(w->items.len() == v->items.len());
    if i < v->items.len() {
        let item = v->items[i as int];
        assert(w->items[i as int] == reread(item, read));
        lemma_reread_keeps(item, read, next);
        lemma_reread_keeps_children(v, read, i + 1, next_after(item, next));
    }
}

/// A Ruby value handed to JavaScript and handed back is equal to what it was.
/// `heap` is the Ruby value as it is walked on its way in; the engine builds it
/// and reads it as `read` says; what is walked there is built in Ruby. The value
/// found there has come back: arrays, sets, hashes and binary strings are the
/// same, and what was shared or cyclic is shared or cyclic in the same way.
pub proof fn law_ruby_value_comes_back(
    heap: Heap,
    max_depth: nat,
    root: u64,
    tracking: Tracking,
    js_key: spec_fn(u64) -> u64,
    read: spec_fn(Val) -> Val,
    ruby_key: spec_fn(u64) -> u64,
)
    requires
        well_behaved(heap),
        leaves_are_leaves(heap),
        keys_differ(heap),
        keys_fit(tracking, js_key),
        keys_fit(Tracking::Exact, ruby_key),
        reads_back(read),
        ({
            let rules = Rules { tracking: Tracking::Exact, max_depth };
            let v = value_of(heap, rules, root, 0, Met { seen: Map::empty(), next: 0 }).0;
            &&& next_after(v, 0) <= u32::MAX
            &&& plan(v, 0, Map::empty()).ops.len() <= u64::MAX
            &&& plan(reread(v, read), 0, Map::empty()).ops.len() <= u64::MAX
        }),
    ensures
        ({
            let rules = Rules { tracking: Tracking::Exact, max_depth };
            let v = value_of(heap, rules, root, 0, Met { seen: Map::empty(), next: 0 }).0;
            let w = reread(v, read);
            let p = plan(v, 0, Map::empty());
            let q = plan(w, 0, Map::empty());
            let js = heap_of(perform_all(Map::empty(), 0, p.ops), js_key, read);
            let ruby = heap_of(perform_all(Map::empty(), 0, q.ops), ruby_key, |x: Val| x);
            &&& exists|n: nat|
                (#[trigger] run(
                    js,
                    begin(tracking, max_depth, p.reg as u64),
                    Question::Look(p.reg as u64),
                    n,
                )).1 == Question::Done(w)
            &&& exists|n: nat|
                (#[trigger] run(
                    ruby,
                    begin(Tracking::Exact, max_depth, q.reg as u64),
                    Question::Look(q.reg as u64),
                    n,
                )).1 == Question::Done(w)
            &&& came_back(v, w)
        }),
{
    let rules = Rules { tracking: Tracking::Exact, max_depth };
    let v = value_of(heap, rules, root, 0, Met { seen: Map::empty(), next: 0 }).0;
    let w = reread(v, read);
    law_copy_has_same_value(heap, rules, root, tracking, js_key, read);
    law_walk_is_canonical(heap, rules, root);
    lemma_reread_keeps(v, read, 0);
    lemma_reread_comes_back(v, read);
    let same = |x: Val| x;
    law_built_value_reads_back(w, Tracking::Exact, max_depth, ruby_key, same);
    lemma_reread_same(w, same);
}

proof fn lemma_reread_same(v: Val, read: spec_fn(Val) -> Val)
    requires
        forall|x: Val| #[trigger] read(x) == x,
    ensures
        reread(v, read) == v,
    decreases v,
{
    match v {
        Val::Node { kind, id, keys, items } => {
            let w = reread(v, read);
            assert forall|i: int| 0 <= i < items.len() implies w->items[i] == items[i] by {
                lemma_reread_same(items[i], read);
            }
            assert(w->items =~= items);
        },
        _ => {},
    }
}

} // verus!
