//! Values that cross between the two engines, as plain data.
use crate::text::views;
use vstd::prelude::*;

verus! {

/// A value on its way between JavaScript and Ruby.
///
/// Numbers that are doubles travel as their IEEE-754 bit pattern. Containers
/// carry the id under which they were first met, so that a later occurrence
/// of the same object, a sibling or a cycle back to an ancestor, is a `Ref`.
#[derive(Debug)]
pub enum JsVal {
    Undefined,
    Null,
    Bool(bool),
    Int(i64),
    /// A double, by its bits.
    Num(u64),
    Str(String),
    /// Binary data; `id` is `None` where its identity is not tracked.
    Bytes { id: Option<u32>, bytes: Vec<u8> },
    /// Sign and little-endian limbs.
    BigInt { negative: bool, words: Vec<u64> },
    /// Milliseconds since the Unix epoch, a double by its bits.
    Date(u64),
    Array { id: u32, items: Vec<JsVal> },
    Obj { id: u32, entries: Vec<(String, JsVal)> },
    JsMap { id: u32, pairs: Vec<(JsVal, JsVal)> },
    JsSet { id: u32, items: Vec<JsVal> },
    /// A container that was emitted before, by its id.
    Ref(u32),
}

/// The four kinds of container.
#[derive(Debug, Clone, Copy, PartialEq, Eq, Structural)]
pub enum Kind {
    Array,
    Obj,
    JsMap,
    JsSet,
}

/// The mathematical value of a `JsVal`: every container is its kind, its id,
/// its keys (of an object) and its children in order. A map's children are
/// its keys and values in turn.
#[verifier::ext_equal]
pub ghost enum Val {
    Undefined,
    Null,
    Bool(bool),
    Int(i64),
    Num(u64),
    Str(Seq<char>),
    Bytes { id: Option<u32>, bytes: Seq<u8> },
    BigInt { negative: bool, words: Seq<u64> },
    Date(u64),
    Node { kind: Kind, id: u32, keys: Seq<Seq<char>>, items: Seq<Val> },
    Ref(u32),
}

impl View for JsVal {
    type V = Val;

    open spec fn view(&self) -> Val
        decreases self,
    {
        match self {
            JsVal::Undefined => Val::Undefined,
            JsVal::Null => Val::Null,
            JsVal::Bool(b) => Val::Bool(*b),
            JsVal::Int(i) => Val::Int(*i),
            JsVal::Num(n) => Val::Num(*n),
            JsVal::Str(s) => Val::Str(s@),
            JsVal::Bytes { id, bytes } => Val::Bytes { id: *id, bytes: bytes@ },
            JsVal::BigInt { negative, words } => Val::BigInt { negative: *negative, words: words@ },
            JsVal::Date(ms) => Val::Date(*ms),
            JsVal::Array { id, items } => Val::Node {
                kind: Kind::Array,
                id: *id,
                keys: Seq::empty(),
                items: Seq::new(
                    items@.len(),
                    |i: int|
                        if 0 <= i < items@.len() {
                            items@[i].view()
                        } else {
                            Val::Undefined
                        },
                ),
            },
            JsVal::JsSet { id, items } => Val::Node {
                kind: Kind::JsSet,
                id: *id,
                keys: Seq::empty(),
                items: Seq::new(
                    items@.len(),
                    |i: int|
                        if 0 <= i < items@.len() {
                            items@[i].view()
                        } else {
                            Val::Undefined
                        },
                ),
            },
            JsVal::Obj { id, entries } => Val::Node {
                kind: Kind::Obj,
                id: *id,
                keys: Seq::new(entries@.len(), |i: int| entries@[i].0@),
                items: Seq::new(
                    entries@.len(),
                    |i: int|
                        if 0 <= i < entries@.len() {
                            entries@[i].1.view()
                        } else {
                            Val::Undefined
                        },
                ),
            },
            JsVal::JsMap { id, pairs } => Val::Node {
                kind: Kind::JsMap,
                id: *id,
                keys: Seq::empty(),
                items: Seq::new(
                    2 * pairs@.len(),
                    |i: int|
                        if 0 <= i < 2 * pairs@.len() {
                            if i % 2 == 0 {
                                pairs@[i / 2].0.view()
                            } else {
                                pairs@[i / 2].1.view()
                            }
                        } else {
                            Val::Undefined
                        },
                ),
            },
            JsVal::Ref(id) => Val::Ref(*id),
        }
    }
}

/// The values of a vector, one by one.
pub open spec fn vals(v: Seq<JsVal>) -> Seq<Val> {
    Seq::new(v.len(), |i: int| v[i]@)
}

/// Why an operation failed.
#[derive(Debug)]
pub enum VmError {
    /// The source did not compile.
    Parse(String),
    /// A failure of the binding itself, with no JavaScript stack.
    Runtime(String),
    /// A thrown JavaScript exception, with its stack frames.
    JsError { message: String, backtrace: Vec<String> },
    /// The watchdog or an explicit termination stopped the script.
    Terminated,
}

/// The mathematical value of a `VmError`.
#[verifier::ext_equal]
pub ghost enum Fault {
    Parse(Seq<char>),
    Runtime(Seq<char>),
    JsError { message: Seq<char>, backtrace: Seq<Seq<char>> },
    Terminated,
}

impl View for VmError {
    type V = Fault;

    open spec fn view(&self) -> Fault {
        match self {
            VmError::Parse(m) => Fault::Parse(m@),
            VmError::Runtime(m) => Fault::Runtime(m@),
            VmError::JsError { message, backtrace } => Fault::JsError {
                message: message@,
                backtrace: views(backtrace@),
            },
            VmError::Terminated => Fault::Terminated,
        }
    }
}

/// The mathematical value of what an operation gave.
pub open spec fn outcome(r: Result<JsVal, VmError>) -> Result<Val, Fault> {
    match r {
        Ok(v) => Ok(v@),
        Err(e) => Err(e@),
    }
}

/// The keys of an object's entries.
pub open spec fn entry_keys(entries: Seq<(String, JsVal)>) -> Seq<Seq<char>> {
    Seq::new(entries.len(), |i: int| entries[i].0@)
}

/// The values of an object's entries.
pub open spec fn entry_vals(entries: Seq<(String, JsVal)>) -> Seq<Val> {
    Seq::new(entries.len(), |i: int| entries[i].1@)
}

/// The keys and values of a map's pairs, in turn.
pub open spec fn pair_vals(pairs: Seq<(JsVal, JsVal)>) -> Seq<Val> {
    Seq::new(
        2 * pairs.len(),
        |i: int|
            if i % 2 == 0 {
                pairs[i / 2].0@
            } else {
                pairs[i / 2].1@
            },
    )
}

/// What an array and a set are.
pub proof fn law_list_views(id: u32, items: Vec<JsVal>)
    ensures
        (JsVal::Array { id, items })@ == (Val::Node {
            kind: Kind::Array,
            id,
            keys: Seq::empty(),
            items: vals(items@),
        }),
        (JsVal::JsSet { id, items })@ == (Val::Node {
            kind: Kind::JsSet,
            id,
            keys: Seq::empty(),
            items: vals(items@),
        }),
{
    reveal_with_fuel(<JsVal as View>::view, 2);
    let a = (JsVal::Array { id, items })@;
    assert(a->items =~= vals(items@));
    let s = (JsVal::JsSet { id, items })@;
    assert(s->items =~= vals(items@));
}

/// What an object is.
pub proof fn law_obj_view(id: u32, entries: Vec<(String, JsVal)>)
    ensures
        (JsVal::Obj { id, entries })@ == (Val::Node {
            kind: Kind::Obj,
            id,
            keys: entry_keys(entries@),
            items: entry_vals(entries@),
        }),
{
    reveal_with_fuel(<JsVal as View>::view, 2);
    let o = (JsVal::Obj { id, entries })@;
    assert(o->items =~= entry_vals(entries@));
    assert(o->keys =~= entry_keys(entries@));
}

/// What a map is.
pub proof fn law_map_view(id: u32, pairs: Vec<(JsVal, JsVal)>)
    ensures
        (JsVal::JsMap { id, pairs })@ == (Val::Node {
            kind: Kind::JsMap,
            id,
            keys: Seq::empty(),
            items: pair_vals(pairs@),
        }),
{
    reveal_with_fuel(<JsVal as View>::view, 2);
    let m = (JsVal::JsMap { id, pairs })@;
    assert(m->items =~= pair_vals(pairs@));
}

/// The mathematical value of a value without parts tells it from every other: two
/// such values with one mathematical value are of one kind and hold the same.
pub proof fn law_leaves_are_told_apart(a: JsVal, b: JsVal)
    requires
        a@ == b@,
    ensures
        a is Undefined <==> b is Undefined,
        a is Null <==> b is Null,
        a matches JsVal::Bool(x) ==> (b matches JsVal::Bool(y) && x == y),
        a matches JsVal::Int(x) ==> (b matches JsVal::Int(y) && x == y),
        a matches JsVal::Num(x) ==> (b matches JsVal::Num(y) && x == y),
        a matches JsVal::Str(x) ==> (b matches JsVal::Str(y) && x@ == y@),
        a matches JsVal::Bytes { id, bytes } ==> (b matches JsVal::Bytes { id: i, bytes: y } && id
            == i && bytes@ == y@),
        a matches JsVal::BigInt { negative, words } ==> (b matches JsVal::BigInt {
            negative: n,
            words: w,
        } && negative == n && words@ == w@),
        a matches JsVal::Date(x) ==> (b matches JsVal::Date(y) && x == y),
        a matches JsVal::Ref(x) ==> (b matches JsVal::Ref(y) && x == y),
{
}

/// What an operation gave is told from everything else it could have given: a value
/// is never taken for a failure, nor one failure for another.
pub proof fn law_outcomes_are_told_apart(a: Result<JsVal, VmError>, b: Result<JsVal, VmError>)
    requires
        outcome(a) == outcome(b),
    ensures
        a is Ok <==> b is Ok,
        a matches Ok(x) ==> (b matches Ok(y) && x@ == y@),
        a matches Err(VmError::Parse(x)) ==> (b matches Err(VmError::Parse(y)) && x@ == y@),
        a matches Err(VmError::Runtime(x)) ==> (b matches Err(VmError::Runtime(y)) && x@ == y@),
        a matches Err(VmError::JsError { message, backtrace }) ==> (b matches Err(
            VmError::JsError { message: m, backtrace: t },
        ) && message@ == m@ && views(backtrace@) == views(t@)),
        a matches Err(VmError::Terminated) ==> b matches Err(VmError::Terminated),
{
}

} // verus!
