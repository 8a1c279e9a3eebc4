//! Values as JSON text, for the arguments of a call that is written out as
//! source.
use crate::bigint::{hex_char, hex_fixed, push_hex_fixed};
use crate::classify::finite_bits;
use crate::text::{chars_of, push_signed_decimal, signed_decimal};
use crate::value::{
    entry_keys, entry_vals, law_list_views, law_map_view, law_obj_view, vals, JsVal, Kind, Val,
};
use vstd::prelude::*;

verus! {

broadcast use vstd::string::group_string_axioms;

/// A character inside a JSON string.
pub open spec fn escape(c: char) -> Seq<char> {
    if c == '"' {
        seq!['\\', '"']
    } else if c == '\\' {
        seq!['\\', '\\']
    } else if c == '\n' {
        seq!['\\', 'n']
    } else if c == '\r' {
        seq!['\\', 'r']
    } else if c == '\t' {
        seq!['\\', 't']
    } else if (c as u32) < 0x20 {
        seq!['\\', 'u'] + hex_fixed(c as u32 as nat, 4)
    } else {
        seq![c]
    }
}

/// Characters inside a JSON string.
pub open spec fn escape_all(s: Seq<char>) -> Seq<char>
    decreases s.len(),
{
    if s.len() == 0 {
        Seq::empty()
    } else {
        escape_all(s.drop_last()) + escape(s.last())
    }
}

/// A JSON string.
pub open spec fn quote(s: Seq<char>) -> Seq<char> {
    seq!['"'] + escape_all(s) + seq!['"']
}

/// Text as a JSON string.
pub fn json_quote(s: &str) -> (r: String)
    ensures
        r@ == quote(s@),
{
    let cs: Vec<char> = chars_of(s);
    let mut out = String::new();
    out.push('"');
    let mut i: usize = 0;
    assert(cs@.take(0) =~= Seq::empty());
    assert(out@ =~= seq!['"'] + escape_all(cs@.take(0)));
    while i < cs.len()
        invariant
            i <= cs@.len(),
            out@ == seq!['"'] + escape_all(cs@.take(i as int)),
        decreases cs.len() - i,
    {
        let c: char = cs[i];
        let ghost before = out@;
        assert(cs@.take(i + 1).drop_last() =~= cs@.take(i as int));
        if c == '"' {
            out.push('\\');
            out.push('"');
        } else if c == '\\' {
            out.push('\\');
            out.push('\\');
        } else if c == '\n' {
            out.push('\\');
            out.push('n');
        } else if c == '\r' {
            out.push('\\');
            out.push('r');
        } else if c == '\t' {
            out.push('\\');
            out.push('t');
        } else if (c as u32) < 0x20 {
            out.push('\\');
            out.push('u');
            let ghost lead = out@;
            let code: u64 = c as u32 as u64;
            assert(code as nat == c as u32 as nat);
            push_hex_fixed(&mut out, code, 4);
            assert(out@ == lead + hex_fixed(c as u32 as nat, 4));
            assert(lead =~= before + seq!['\\', 'u']);
            assert(out@ =~= before + (seq!['\\', 'u'] + hex_fixed(c as u32 as nat, 4)));
        } else {
            out.push(c);
        }
        assert(out@ =~= before + escape(c));
        assert(out@ =~= seq!['"'] + escape_all(cs@.take(i + 1)));
        i = i + 1;
    }
    assert(cs@.take(i as int) =~= s@);
    out.push('"');
    assert(out@ =~= quote(s@));
    out
}

/// What a JSON string reads as, and what is left after it; the opening quote is
/// behind us. Nothing is read where a control character stands in it.
pub open spec fn read_string(t: Seq<char>) -> Option<(Seq<char>, Seq<char>)>
    decreases t.len(),
{
    if t.len() == 0 {
        None
    } else if t[0] == '"' {
        Some((Seq::empty(), t.skip(1)))
    } else if t[0] == '\\' {
        if t.len() >= 6 && t[1] == 'u' {
            prepend(hex_read(t.subrange(2, 6)), read_string(t.skip(6)))
        } else if t.len() >= 2 {
            prepend(short_escape(t[1]), read_string(t.skip(2)))
        } else {
            None
        }
    } else if (t[0] as u32) < 0x20 {
        None
    } else {
        prepend(Some(t[0]), read_string(t.skip(1)))
    }
}

/// A character before what was read after it.
pub open spec fn prepend(c: Option<char>, rest: Option<(Seq<char>, Seq<char>)>) -> Option<
    (Seq<char>, Seq<char>),
> {
    match (c, rest) {
        (Some(x), Some((s, left))) => Some((seq![x] + s, left)),
        _ => None,
    }
}

/// The escapes of one character.
pub open spec fn short_escape(c: char) -> Option<char> {
    if c == '"' || c == '\\' {
        Some(c)
    } else if c == 'n' {
        Some('\n')
    } else if c == 'r' {
        Some('\r')
    } else if c == 't' {
        Some('\t')
    } else {
        None
    }
}

/// The control character whose number stands in four digits.
pub open spec fn hex_read(d: Seq<char>) -> Option<char> {
    if exists|c: char| (c as u32) < 0x20 && #[trigger] hex_fixed(c as u32 as nat, 4) == d {
        Some(choose|c: char| (c as u32) < 0x20 && #[trigger] hex_fixed(c as u32 as nat, 4) == d)
    } else {
        None
    }
}

proof fn lemma_hex_reads_back(c: char)
    requires
        (c as u32) < 0x20,
    ensures
        hex_read(hex_fixed(c as u32 as nat, 4)) == Some(c),
        hex_fixed(c as u32 as nat, 4).len() == 4,
{
    let d = hex_fixed(c as u32 as nat, 4);
    reveal_with_fuel(hex_fixed, 5);
    let x = choose|x: char| (x as u32) < 0x20 && #[trigger] hex_fixed(x as u32 as nat, 4) == d;
    let n = c as u32 as nat;
    let m = x as u32 as nat;
    assert(d[3] == hex_char(n % 16));
    assert(d[2] == hex_char((n / 16) % 16));
    let e = hex_fixed(m, 4);
    assert(e[3] == hex_char(m % 16));
    assert(e[2] == hex_char((m / 16) % 16));
    assert(n % 16 == m % 16);
    assert((n / 16) % 16 == (m / 16) % 16);
    assert(n == m);
}

proof fn lemma_reads_back(s: Seq<char>, rest: Seq<char>)
    ensures
        read_string(escape_front(s) + (seq!['"'] + rest)) == Some((s, rest)),
    decreases s.len(),
{
    if s.len() == 0 {
        let t = escape_front(s) + (seq!['"'] + rest);
        assert(t[0] == '"');
        assert(t.skip(1) =~= rest);
        assert(s =~= Seq::empty());
    } else {
        let c = s[0];
        let tail = escape_front(s.skip(1)) + (seq!['"'] + rest);
        lemma_reads_back(s.skip(1), rest);
        let t = escape_front(s) + (seq!['"'] + rest);
        assert(t =~= escape(c) + tail);
        assert(seq![c] + s.skip(1) =~= s);
        let e = escape(c);
        if c == '"' || c == '\\' || c == '\n' || c == '\r' || c == '\t' {
            assert(t[0] == '\\' && t[1] == e[1]);
            assert(t.skip(2) =~= tail);
        } else if (c as u32) < 0x20 {
            lemma_hex_reads_back(c);
            assert(t[0] == '\\' && t[1] == 'u');
            assert(t.subrange(2, 6) =~= hex_fixed(c as u32 as nat, 4));
            assert(t.skip(6) =~= tail);
        } else {
            assert(t[0] == c);
            assert(t.skip(1) =~= tail);
        }
    }
}

/// `escape_all`, from the front.
spec fn escape_front(s: Seq<char>) -> Seq<char>
    decreases s.len(),
{
    if s.len() == 0 {
        Seq::empty()
    } else {
        escape(s[0]) + escape_front(s.skip(1))
    }
}

proof fn lemma_escape_front(s: Seq<char>)
    ensures
        escape_front(s) == escape_all(s),
    decreases s.len(),
{
    if s.len() == 1 {
        assert(s.drop_last() =~= Seq::empty());
        assert(s.skip(1) =~= Seq::empty());
        reveal_with_fuel(escape_front, 2);
        reveal_with_fuel(escape_all, 2);
        assert(escape_front(s) =~= escape(s[0]));
        assert(escape_all(s) =~= escape(s[0]));
    } else if s.len() > 1 {
        lemma_escape_front(s.skip(1));
        lemma_escape_front(s.drop_last());
        lemma_escape_front(s.skip(1).drop_last());
        assert(s.skip(1).drop_last() =~= s.drop_last().skip(1));
        assert(s.skip(1).last() == s.last());
        assert(s.drop_last()[0] == s[0]);
        assert(escape_front(s) =~= escape_all(s));
    }
}

/// A JSON string reads back as the text that was quoted, and ends where it
/// should whatever comes after it.
pub proof fn law_quoted_text_reads_back(s: Seq<char>, rest: Seq<char>)
    ensures
        ({
            let t = quote(s) + rest;
            t[0] == '"' && read_string(t.skip(1)) == Some((s, rest))
        }),
{
    lemma_escape_front(s);
    lemma_reads_back(s, rest);
    let t = quote(s) + rest;
    assert(t.skip(1) =~= escape_front(s) + (seq!['"'] + rest));
}

/// A symbol of JSON text: a character, or a finite double whose digits are still
/// to be written, by its bits.
pub ghost enum Sym {
    Char(char),
    Double(u64),
}

/// A piece of JSON text.
#[derive(Debug)]
pub enum Piece {
    Text(String),
    /// A finite double, by its bits, to be written in its shortest form.
    Double(u64),
}

/// Characters as symbols.
pub open spec fn syms(s: Seq<char>) -> Seq<Sym> {
    s.map_values(|c: char| Sym::Char(c))
}

/// The symbols of one piece.
pub open spec fn piece_syms(p: Piece) -> Seq<Sym> {
    match p {
        Piece::Text(t) => syms(t@),
        Piece::Double(b) => seq![Sym::Double(b)],
    }
}

/// The symbols of pieces, one after the other.
pub open spec fn flat(p: Seq<Piece>) -> Seq<Sym>
    decreases p.len(),
{
    if p.len() == 0 {
        Seq::empty()
    } else {
        flat(p.drop_last()) + piece_syms(p.last())
    }
}

/// Whether a value has a JSON form: no container but arrays and objects, and
/// nothing that JSON has no word for.
pub open spec fn has_json(v: Val) -> bool
    decreases v, 1nat,
{
    match v {
        Val::Node { kind, keys, items, .. } => (kind == Kind::Array || (kind == Kind::Obj
            && keys.len() == items.len())) && all_have_json(v),
        Val::Bytes { .. } => false,
        Val::BigInt { .. } => false,
        Val::Date(_) => false,
        Val::Ref(_) => false,
        _ => true,
    }
}

pub open spec fn all_have_json(v: Val) -> bool
    decreases v, 0nat,
{
    match v {
        Val::Node { items, .. } => forall|i: int|
            0 <= i < items.len() ==> has_json(#[trigger] items[i]),
        _ => true,
    }
}

/// Whether a value has a JSON form.
pub fn is_json(val: &JsVal) -> (r: bool)
    ensures
        r == has_json(val@),
    decreases val, 1nat,
{
    match val {
        JsVal::Array { id, items } => {
            proof {
                law_list_views(*id, *items);
            }
            let r: bool = are_json(items);
            assert(r == has_json(val@)) by {
                assert(val@->items == vals(items@));
                if r {
                    assert forall|i: int| 0 <= i < val@->items.len() implies has_json(
                        #[trigger] val@->items[i],
                    ) by {
                        assert(has_json(items@[i]@));
                    }
                } else {
                    let i = choose|i: int| 0 <= i < items@.len() && !has_json(#[trigger] items@[i]@);
                    assert(val@->items[i] == items@[i]@);
                }
            }
            r
        },
        JsVal::Obj { id, entries } => {
            proof {
                law_obj_view(*id, *entries);
            }
            let r: bool = entries_are_json(entries);
            assert(r == has_json(val@)) by {
                assert(val@->items == entry_vals(entries@));
                if r {
                    assert forall|i: int| 0 <= i < val@->items.len() implies has_json(
                        #[trigger] val@->items[i],
                    ) by {
                        assert(has_json(entries@[i].1@));
                    }
                } else {
                    let i = choose|i: int|
                        0 <= i < entries@.len() && !has_json((#[trigger] entries@[i]).1@);
                    assert(val@->items[i] == entries@[i].1@);
                }
            }
            r
        },
        JsVal::JsMap { id, pairs } => {
            proof {
                law_map_view(*id, *pairs);
            }
            false
        },
        JsVal::JsSet { id, items } => {
            proof {
                law_list_views(*id, *items);
            }
            false
        },
        JsVal::Bytes { .. } => false,
        JsVal::BigInt { .. } => false,
        JsVal::Date(_) => false,
        JsVal::Ref(_) => false,
        _ => true,
    }
}

fn are_json(items: &Vec<JsVal>) -> (r: bool)
    ensures
        r == forall|i: int| 0 <= i < items@.len() ==> has_json(#[trigger] items@[i]@),
    decreases items, 0nat,
{
    let mut i: usize = 0;
    while i < items.len()
        invariant
            i <= items@.len(),
            forall|j: int| 0 <= j < i ==> has_json(#[trigger] items@[j]@),
        decreases items.len() - i,
    {
        if !is_json(&items[i]) {
            assert(!has_json(items@[i as int]@));
            return false;
        }
        i = i + 1;
    }
    true
}

fn entries_are_json(entries: &Vec<(String, JsVal)>) -> (r: bool)
    ensures
        r == forall|i: int| 0 <= i < entries@.len() ==> has_json((#[trigger] entries@[i]).1@),
    decreases entries, 0nat,
{
    let mut i: usize = 0;
    while i < entries.len()
        invariant
            i <= entries@.len(),
            forall|j: int| 0 <= j < i ==> has_json((#[trigger] entries@[j]).1@),
        decreases entries.len() - i,
    {
        if !is_json(&entries[i].1) {
            assert(!has_json(entries@[i as int].1@));
            return false;
        }
        i = i + 1;
    }
    true
}

/// A value as JSON. What is undefined, and a double that is not finite, is null.
pub open spec fn json(v: Val) -> Seq<Sym>
    decreases v, 1nat, 0nat,
{
    match v {
        Val::Bool(b) => if b {
            syms("true"@)
        } else {
            syms("false"@)
        },
        Val::Int(i) => syms(signed_decimal(i as int)),
        Val::Num(n) => if finite_bits(n) {
            seq![Sym::Double(n)]
        } else {
            syms("null"@)
        },
        Val::Str(s) => syms(quote(s)),
        Val::Node { kind, items, .. } => if kind == Kind::Obj {
            syms("{"@) + json_members(v, items.len()) + syms("}"@)
        } else {
            syms("["@) + json_members(v, items.len()) + syms("]"@)
        },
        _ => syms("null"@),
    }
}

/// The first `n` members of a container, with commas between them.
pub open spec fn json_members(v: Val, n: nat) -> Seq<Sym>
    decreases v, 0nat, n,
{
    match v {
        Val::Node { kind, keys, items, .. } => if n == 0 || n > items.len() {
            Seq::empty()
        } else {
            let before = json_members(v, (n - 1) as nat);
            let comma = if n > 1 {
                syms(","@)
            } else {
                Seq::empty()
            };
            let key = if kind == Kind::Obj {
                syms(quote(keys[n - 1])) + syms(":"@)
            } else {
                Seq::empty()
            };
            before + comma + key + json(items[n - 1])
        },
        _ => Seq::empty(),
    }
}

/// JSON text being written.
struct Writer {
    pieces: Vec<Piece>,
}

impl Writer {
    spec fn syms(self) -> Seq<Sym> {
        flat(self.pieces@)
    }

    fn put(&mut self, t: &str)
        ensures
            final(self).syms() == old(self).syms() + syms(t@),
    {
        let p = Piece::Text(t.to_string());
        self.pieces.push(p);
        assert(self.pieces@.drop_last() =~= old(self).pieces@);
    }

    fn double(&mut self, bits: u64)
        ensures
            final(self).syms() == old(self).syms() + seq![Sym::Double(bits)],
    {
        self.pieces.push(Piece::Double(bits));
        assert(self.pieces@.drop_last() =~= old(self).pieces@);
    }

    fn array(&mut self, id: u32, items: &Vec<JsVal>)
        requires
            forall|i: int| 0 <= i < items@.len() ==> has_json(#[trigger] items@[i]@),
        ensures
            final(self).syms() == old(self).syms() + json(
                Val::Node { kind: Kind::Array, id, keys: Seq::empty(), items: vals(items@) },
            ),
        decreases items, 0nat,
    {
        let ghost v = Val::Node { kind: Kind::Array, id, keys: Seq::empty(), items: vals(items@) };
        self.put("[");
        let ghost start = self.syms();
        let mut i: usize = 0;
        assert(start + json_members(v, 0) =~= start);
        while i < items.len()
            invariant
                i <= items@.len(),
                v == (Val::Node {
                    kind: Kind::Array,
                    id,
                    keys: Seq::empty(),
                    items: vals(items@),
                }),
                forall|i: int| 0 <= i < items@.len() ==> has_json(#[trigger] items@[i]@),
                self.syms() == start + json_members(v, i as nat),
            decreases items.len() - i,
        {
            let ghost before = self.syms();
            if i > 0 {
                self.put(",");
            }
            self.value(&items[i]);
            assert(vals(items@)[i as int] == items@[i as int]@);
            assert(self.syms() =~= start + json_members(v, (i + 1) as nat));
            i = i + 1;
        }
        self.put("]");
        assert(self.syms() =~= old(self).syms() + json(v));
    }

    fn object(&mut self, id: u32, entries: &Vec<(String, JsVal)>)
        requires
            forall|i: int| 0 <= i < entries@.len() ==> has_json((#[trigger] entries@[i]).1@),
        ensures
            final(self).syms() == old(self).syms() + json(
                Val::Node {
                    kind: Kind::Obj,
                    id,
                    keys: entry_keys(entries@),
                    items: entry_vals(entries@),
                },
            ),
        decreases entries, 0nat,
    {
        let ghost v = Val::Node {
            kind: Kind::Obj,
            id,
            keys: entry_keys(entries@),
            items: entry_vals(entries@),
        };
        self.put("{");
        let ghost start = self.syms();
        let mut i: usize = 0;
        assert(start + json_members(v, 0) =~= start);
        while i < entries.len()
            invariant
                i <= entries@.len(),
                v == (Val::Node {
                    kind: Kind::Obj,
                    id,
                    keys: entry_keys(entries@),
                    items: entry_vals(entries@),
                }),
                forall|i: int| 0 <= i < entries@.len() ==> has_json((#[trigger] entries@[i]).1@),
                self.syms() == start + json_members(v, i as nat),
            decreases entries.len() - i,
        {
            if i > 0 {
                self.put(",");
            }
            let key: String = json_quote(entries[i].0.as_str());
            self.put(key.as_str());
            self.put(":");
            assert(has_json(entries@[i as int].1@));
            self.value(&entries[i].1);
            assert(entry_vals(entries@)[i as int] == entries@[i as int].1@);
            assert(entry_keys(entries@)[i as int] == entries@[i as int].0@);
            assert(self.syms() =~= start + json_members(v, (i + 1) as nat));
            i = i + 1;
        }
        self.put("}");
        assert(self.syms() =~= old(self).syms() + json(v));
    }

    fn value(&mut self, val: &JsVal)
        requires
            has_json(val@),
        ensures
            final(self).syms() == old(self).syms() + json(val@),
        decreases val, 1nat,
    {
        match val {
            JsVal::Bool(b) => {
                if *b {
                    self.put("true")
                } else {
                    self.put("false")
                }
            },
            JsVal::Int(i) => {
                let mut t = String::new();
                push_signed_decimal(&mut t, *i);
                assert(t@ =~= signed_decimal(*i as int));
                self.put(t.as_str())
            },
            JsVal::Num(n) => {
                if (*n >> 52) & 0x7ff != 0x7ff {
                    self.double(*n)
                } else {
                    self.put("null")
                }
            },
            JsVal::Str(s) => {
                let t: String = json_quote(s.as_str());
                self.put(t.as_str())
            },
            JsVal::Array { id, items } => {
                proof {
                    law_list_views(*id, *items);
                    assert(all_have_json(val@));
                    assert(val@->items == vals(items@));
                    assert forall|i: int| 0 <= i < items@.len() implies has_json(
                        #[trigger] items@[i]@,
                    ) by {
                        assert(val@->items[i] == items@[i]@);
                    }
                }
                self.array(*id, items)
            },
            JsVal::Obj { id, entries } => {
                proof {
                    law_obj_view(*id, *entries);
                    assert(all_have_json(val@));
                    assert forall|i: int| 0 <= i < entries@.len() implies has_json(
                        (#[trigger] entries@[i]).1@,
                    ) by {
                        assert(val@->items[i] == entries@[i].1@);
                    }
                }
                self.object(*id, entries)
            },
            _ => self.put("null"),
        }
    }
}

/// A value as pieces of JSON text.
pub fn jsval_to_json(val: &JsVal) -> (r: Vec<Piece>)
    requires
        has_json(val@),
    ensures
        flat(r@) == json(val@),
{
    let mut w = Writer { pieces: Vec::new() };
    w.value(val);
    assert(w.syms() =~= json(val@));
    w.pieces
}

/// Values as JSON, with commas between them.
pub open spec fn json_list(v: Seq<Val>) -> Seq<Sym>
    decreases v.len(),
{
    if v.len() == 0 {
        Seq::empty()
    } else if v.len() == 1 {
        json(v[0])
    } else {
        json_list(v.drop_last()) + syms(","@) + json(v.last())
    }
}

/// The source of a call of a function with arguments that are written out.
pub open spec fn call_text(name: Seq<char>, args: Seq<Val>) -> Seq<Sym> {
    syms("("@) + syms(name) + syms(")(...["@) + json_list(args) + syms("])"@)
}

/// The source of a call of a function with arguments that are written out.
pub fn call_source(name: &str, args: &Vec<JsVal>) -> (r: Vec<Piece>)
    requires
        forall|i: int| 0 <= i < args@.len() ==> has_json(#[trigger] args@[i]@),
    ensures
        flat(r@) == call_text(name@, vals(args@)),
{
    let mut w = Writer { pieces: Vec::new() };
    w.put("(");
    w.put(name);
    w.put(")(...[");
    let ghost start = w.syms();
    let ghost v = vals(args@);
    let mut i: usize = 0;
    assert(v.take(0) =~= Seq::empty());
    assert(start + json_list(v.take(0)) =~= start);
    while i < args.len()
        invariant
            i <= args@.len(),
            v == vals(args@),
            forall|i: int| 0 <= i < args@.len() ==> has_json(#[trigger] args@[i]@),
            w.syms() == start + json_list(v.take(i as int)),
        decreases args.len() - i,
    {
        let ghost t = v.take(i + 1);
        assert(t.drop_last() =~= v.take(i as int));
        assert(t.last() == args@[i as int]@);
        if i > 0 {
            w.put(",");
        } else {
            assert(v.take(0) =~= Seq::empty());
        }
        w.value(&args[i]);
        assert(w.syms() =~= start + json_list(t));
        i = i + 1;
    }
    assert(v.take(i as int) =~= v);
    w.put("])");
    assert(w.syms() =~= call_text(name@, v));
    w.pieces
}

/// What is no container is JSON by its own value: a truth value by its word, an
/// integer by its digits, a finite double by itself, text as a string of it, and
/// what JSON has no number or word for as null.
pub proof fn law_json_of_scalars(i: i64, bits: u64, s: Seq<char>)
    ensures
        json(Val::Bool(true)) == syms("true"@),
        json(Val::Bool(false)) == syms("false"@),
        json(Val::Int(i)) == syms(signed_decimal(i as int)),
        finite_bits(bits) ==> json(Val::Num(bits)) == seq![Sym::Double(bits)],
        !finite_bits(bits) ==> json(Val::Num(bits)) == json(Val::Null),
        json(Val::Undefined) == json(Val::Null),
        json(Val::Null) == syms("null"@),
        json(Val::Str(s)) == syms(quote(s)),
{
}

/// Values one after the other are their texts with one comma between each two.
pub proof fn law_json_list_grows_by_one(v: Seq<Val>, x: Val)
    ensures
        json_list(Seq::empty()) == Seq::<Sym>::empty(),
        json_list(seq![x]) == json(x),
        v.len() > 0 ==> json_list(v.push(x)) == json_list(v) + syms(","@) + json(x),
{
    assert(v.push(x).drop_last() =~= v);
}

proof fn lemma_members_are_a_list(v: Val, n: nat)
    requires
        v is Node,
        v->kind != Kind::Obj,
        n <= v->items.len(),
    ensures
        json_members(v, n) == json_list(v->items.take(n as int)),
    decreases n,
{
    let items = v->items;
    if n > 0 {
        lemma_members_are_a_list(v, (n - 1) as nat);
        let t = items.take(n as int);
        assert(t.drop_last() =~= items.take(n - 1));
        assert(t.last() == items[n - 1]);
        if n == 1 {
            assert(json_members(v, 0) =~= Seq::empty());
            assert(json_members(v, n) =~= json(items[0]));
        } else {
            let before = json_members(v, (n - 1) as nat);
            assert(before + syms(","@) + Seq::<Sym>::empty() + json(items[n - 1]) =~= before + syms(
                ","@,
            ) + json(items[n - 1]));
        }
    }
}

/// An array is the list of its items in brackets, whatever its id.
pub proof fn law_json_array_is_its_items(id: u32, keys: Seq<Seq<char>>, items: Seq<Val>)
    ensures
        json(Val::Node { kind: Kind::Array, id, keys, items }) == syms("["@) + json_list(
            items,
        ) + syms("]"@),
{
    let v = Val::Node { kind: Kind::Array, id, keys, items };
    lemma_members_are_a_list(v, items.len());
    assert(items.take(items.len() as int) =~= items);
}

/// What stands between the braces of an object.
pub open spec fn json_entries(keys: Seq<Seq<char>>, items: Seq<Val>) -> Seq<Sym>
    decreases items.len(),
{
    if items.len() == 0 {
        Seq::empty()
    } else {
        let entry = syms(quote(keys[0])) + syms(":"@) + json(items[0]);
        if items.len() == 1 {
            entry
        } else {
            entry + syms(","@) + json_entries(keys.skip(1), items.skip(1))
        }
    }
}

proof fn lemma_entries_grow(keys: Seq<Seq<char>>, items: Seq<Val>)
    requires
        keys.len() == items.len(),
        items.len() > 1,
    ensures
        json_entries(keys, items) == json_entries(keys.drop_last(), items.drop_last()) + syms(","@)
            + (syms(quote(keys.last())) + syms(":"@) + json(items.last())),
    decreases items.len(),
{
    let k = keys.skip(1);
    let v = items.skip(1);
    let entry = syms(quote(keys[0])) + syms(":"@) + json(items[0]);
    if items.len() == 2 {
        reveal_with_fuel(json_entries, 2);
        assert(json_entries(k, v) == syms(quote(k[0])) + syms(":"@) + json(v[0]));
        assert(keys.drop_last()[0] == keys[0]);
    } else {
        lemma_entries_grow(k, v);
        assert(k.drop_last() =~= keys.drop_last().skip(1));
        assert(v.drop_last() =~= items.drop_last().skip(1));
        assert(k.last() == keys.last() && v.last() == items.last());
        let tail = syms(quote(keys.last())) + syms(":"@) + json(items.last());
        let inner = json_entries(k.drop_last(), v.drop_last());
        assert(json_entries(keys, items) == entry + syms(","@) + json_entries(k, v));
        assert(json_entries(keys.drop_last(), items.drop_last()) == entry + syms(","@)
            + inner);
        assert(entry + syms(","@) + (inner + syms(","@) + tail) =~= (entry
            + syms(","@) + inner) + syms(","@) + tail);
    }
}

proof fn lemma_members_are_entries(v: Val, n: nat)
    requires
        v is Node,
        v->kind == Kind::Obj,
        v->keys.len() == v->items.len(),
        n <= v->items.len(),
    ensures
        json_members(v, n) == json_entries(v->keys.take(n as int), v->items.take(n as int)),
    decreases n,
{
    if n > 0 {
        lemma_members_are_entries(v, (n - 1) as nat);
        let k = v->keys.take(n as int);
        let t = v->items.take(n as int);
        assert(k.drop_last() =~= v->keys.take(n - 1));
        assert(t.drop_last() =~= v->items.take(n - 1));
        let before = json_members(v, (n - 1) as nat);
        let tail = syms(quote(v->keys[n - 1])) + syms(":"@) + json(v->items[n - 1]);
        if n == 1 {
            assert(json_members(v, 0) =~= Seq::empty());
            assert(json_members(v, n) =~= tail);
        } else {
            lemma_entries_grow(k, t);
            assert(json_members(v, n) =~= before + syms(","@) + tail);
        }
    }
}

/// An object is its entries in braces, each its key as a string, a colon and its
/// value, in order and with one comma between each two; its id says nothing.
pub proof fn law_json_object_is_its_entries(id: u32, keys: Seq<Seq<char>>, items: Seq<Val>)
    requires
        keys.len() == items.len(),
    ensures
        json(Val::Node { kind: Kind::Obj, id, keys, items }) == syms("{"@) + json_entries(
            keys,
            items,
        ) + syms("}"@),
{
    let v = Val::Node { kind: Kind::Obj, id, keys, items };
    lemma_members_are_entries(v, items.len());
    assert(items.take(items.len() as int) =~= items);
    assert(keys.take(keys.len() as int) =~= keys);
}

/// A value has a JSON form exactly where it is built of what JSON has: one part
/// that has none, however deep, takes it from the whole.
pub proof fn law_json_form_is_whole_or_none(
    kind: Kind,
    id: u32,
    keys: Seq<Seq<char>>,
    items: Seq<Val>,
    i: int,
)
    requires
        0 <= i < items.len(),
        kind == Kind::Obj ==> keys.len() == items.len(),
    ensures
        ({
            let v = Val::Node { kind, id, keys, items };
            &&& has_json(v) ==> has_json(items[i]) && (kind == Kind::Array || kind == Kind::Obj)
            &&& !has_json(items[i]) ==> !has_json(v)
            &&& (kind == Kind::Array || kind == Kind::Obj) && (forall|j: int|
                0 <= j < items.len() ==> has_json(#[trigger] items[j])) ==> has_json(v)
        }),
        has_json(Val::Undefined) && has_json(Val::Null),
        forall|b: bool| #[trigger] has_json(Val::Bool(b)),
        forall|n: i64| #[trigger] has_json(Val::Int(n)),
        forall|n: u64| #[trigger] has_json(Val::Num(n)),
        forall|n: u64| !#[trigger] has_json(Val::Date(n)),
        forall|s: Seq<char>| #[trigger] has_json(Val::Str(s)),
        forall|n: u32| !#[trigger] has_json(Val::Ref(n)),
        forall|o: Option<u32>, b: Seq<u8>| !#[trigger] has_json(Val::Bytes { id: o, bytes: b }),
        forall|n: bool, w: Seq<u64>| !#[trigger] has_json(Val::BigInt { negative: n, words: w }),
{
    let v = Val::Node { kind, id, keys, items };
    assert(v->items[i] == items[i]);
    if forall|j: int| 0 <= j < items.len() ==> has_json(#[trigger] items[j]) {
        assert forall|j: int| 0 <= j < v->items.len() implies has_json(#[trigger] v->items[j]) by {
            assert(has_json(items[j]));
        }
    }
}

/// The source of a call is the function in brackets and the list of its arguments,
/// spread. One more argument is one more in the list, and nothing else.
pub proof fn law_call_is_written_out(name: Seq<char>, args: Seq<Val>, x: Val)
    ensures
        call_text(name, Seq::empty()) == syms("("@) + syms(name) + syms(")(...["@) + syms("])"@),
        args.len() > 0 ==> call_text(name, args.push(x)) == syms("("@) + syms(name) + syms(
            ")(...["@,
        ) + (json_list(args) + syms(","@) + json(x)) + syms("])"@),
{
    law_json_list_grows_by_one(args, x);
    assert(call_text(name, Seq::empty()) =~= syms("("@) + syms(name) + syms(")(...["@) + syms(
        "])"@,
    ));
}

/// Pieces are written one after the other, each as it is: text by its characters, a
/// double by itself.
pub proof fn law_pieces_are_written_in_order(a: Seq<Piece>, b: Seq<Piece>, t: String, bits: u64)
    ensures
        flat(Seq::empty()) == Seq::<Sym>::empty(),
        flat(a + b) == flat(a) + flat(b),
        flat(seq![Piece::Text(t)]) == syms(t@),
        flat(seq![Piece::Double(bits)]) == seq![Sym::Double(bits)],
    decreases b.len(),
{
    let text = seq![Piece::Text(t)];
    let double = seq![Piece::Double(bits)];
    assert(text.drop_last() =~= Seq::empty());
    assert(double.drop_last() =~= Seq::empty());
    assert(text.last() == Piece::Text(t));
    assert(flat(text.drop_last()) =~= Seq::empty());
    assert(flat(text) == flat(text.drop_last()) + piece_syms(text.last()));
    assert(Seq::<Sym>::empty() + syms(t@) =~= syms(t@));
    assert(flat(double) =~= seq![Sym::Double(bits)]);
    if b.len() == 0 {
        assert(a + b =~= a);
        assert(flat(a) + flat(b) =~= flat(a));
    } else {
        law_pieces_are_written_in_order(a, b.drop_last(), t, bits);
        assert((a + b).drop_last() =~= a + b.drop_last());
        assert(flat(a + b) =~= flat(a) + flat(b));
    }
}

} // verus!
