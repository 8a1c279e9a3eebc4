//! Which kind of value lies behind a handle of either engine.
use crate::bigint::{
    all_hex, ascii, cuts_cleanly, hex_text, hex_to_words, hex_value, law_hex_text_keeps_magnitude,
    law_limbs_keep_value, magnitude, text_limbs, words_to_hex,
};
use crate::doubles::magnitude_of;
use crate::errors::{plain, raise, Raised, RubyClass, RubyError};
use crate::value::{JsVal, Kind, Val};
use vstd::prelude::*;
use vstd::string::StringSliceAdditionalSpecFns;
use vstd::utf8::{decode_utf8, valid_utf8};

verus! {

broadcast use vstd::string::group_string_axioms;

/// `std::string::FromUtf8Error`, carried through only.
#[verifier::external_type_specification]
#[verifier::external_body]
pub struct ExFromUtf8Error(std::string::FromUtf8Error);

/// `String::from_utf8`: bytes become a string exactly where they are valid
/// UTF-8, and the string is what they encode.
pub assume_specification[ String::from_utf8 ](vec: Vec<u8>) -> (r: Result<
    String,
    std::string::FromUtf8Error,
>)
    ensures
        r is Ok <==> valid_utf8(vec@),
        r matches Ok(s) ==> s@ == decode_utf8(vec@),
;

/// What `String::from_utf8_lossy` makes of bytes.
pub uninterp spec fn lossy_text(bytes: Seq<u8>) -> Seq<char>;

/// `String::from_utf8_lossy`: the result is a function of the bytes, and where
/// they are valid UTF-8 it is what they encode. How invalid sequences are
/// replaced is not stated.
#[verifier::external_body]
fn from_utf8_lossy(bytes: &Vec<u8>) -> (s: String)
    ensures
        s@ == lossy_text(bytes@),
        valid_utf8(bytes@) ==> s@ == decode_utf8(bytes@),
{
    String::from_utf8_lossy(bytes).into_owned()
}

/// What a JavaScript value answers to the type tests of its engine.
#[derive(Debug, Clone, Copy)]
pub struct JsTraits {
    pub undefined: bool,
    pub null: bool,
    pub boolean: bool,
    pub int32: bool,
    pub number: bool,
    pub big_int: bool,
    pub date: bool,
    pub buffer_view: bool,
    pub array_buffer: bool,
    pub shared_array_buffer: bool,
    pub map: bool,
    pub set: bool,
    pub array: bool,
    pub object: bool,
    pub function: bool,
}

/// How a JavaScript value crosses.
#[derive(Debug, Clone, Copy, PartialEq, Eq, Structural)]
pub enum JsKind {
    Undefined,
    Null,
    Boolean,
    Int32,
    Number,
    BigInt,
    Date,
    BufferView,
    ArrayBuffer,
    SharedArrayBuffer,
    Container(Kind),
    Text,
}

/// The first test that holds decides: a date, a buffer, a map, a set and an
/// array are all objects too. A function, and whatever is left, crosses as text.
pub open spec fn kind_of_js(t: JsTraits) -> JsKind {
    if t.undefined {
        JsKind::Undefined
    } else if t.null {
        JsKind::Null
    } else if t.boolean {
        JsKind::Boolean
    } else if t.int32 {
        JsKind::Int32
    } else if t.number {
        JsKind::Number
    } else if t.big_int {
        JsKind::BigInt
    } else if t.date {
        JsKind::Date
    } else if t.buffer_view {
        JsKind::BufferView
    } else if t.array_buffer {
        JsKind::ArrayBuffer
    } else if t.shared_array_buffer {
        JsKind::SharedArrayBuffer
    } else if t.map {
        JsKind::Container(Kind::JsMap)
    } else if t.set {
        JsKind::Container(Kind::JsSet)
    } else if t.array {
        JsKind::Container(Kind::Array)
    } else if t.object && !t.function {
        JsKind::Container(Kind::Obj)
    } else {
        JsKind::Text
    }
}

/// How a JavaScript value crosses, by its type tests.
pub fn js_kind(t: &JsTraits) -> (r: JsKind)
    ensures
        r == kind_of_js(*t),
{
    if t.undefined {
        JsKind::Undefined
    } else if t.null {
        JsKind::Null
    } else if t.boolean {
        JsKind::Boolean
    } else if t.int32 {
        JsKind::Int32
    } else if t.number {
        JsKind::Number
    } else if t.big_int {
        JsKind::BigInt
    } else if t.date {
        JsKind::Date
    } else if t.buffer_view {
        JsKind::BufferView
    } else if t.array_buffer {
        JsKind::ArrayBuffer
    } else if t.shared_array_buffer {
        JsKind::SharedArrayBuffer
    } else if t.map {
        JsKind::Container(Kind::JsMap)
    } else if t.set {
        JsKind::Container(Kind::JsSet)
    } else if t.array {
        JsKind::Container(Kind::Array)
    } else if t.object && !t.function {
        JsKind::Container(Kind::Obj)
    } else {
        JsKind::Text
    }
}

/// Whether one of the tests for values that are no objects holds.
pub open spec fn is_primitive(t: JsTraits) -> bool {
    t.undefined || t.null || t.boolean || t.int32 || t.number || t.big_int
}

/// Whether one of the tests for buffers holds.
pub open spec fn is_buffer(t: JsTraits) -> bool {
    t.buffer_view || t.array_buffer || t.shared_array_buffer
}

/// A value crosses as a plain object only where no more special test holds: a
/// date crosses as a date whatever else it answers to, and so do, in their turn,
/// a buffer, a map, a set and an array.
pub proof fn law_special_objects_are_not_plain(t: JsTraits)
    requires
        !is_primitive(t),
    ensures
        t.date <==> kind_of_js(t) == JsKind::Date,
        !t.date && t.buffer_view <==> kind_of_js(t) == JsKind::BufferView,
        !t.date && !t.buffer_view && t.array_buffer <==> kind_of_js(t) == JsKind::ArrayBuffer,
        !t.date && !t.buffer_view && !t.array_buffer && t.shared_array_buffer <==> kind_of_js(t)
            == JsKind::SharedArrayBuffer,
        !t.date && !is_buffer(t) && t.map <==> kind_of_js(t) == JsKind::Container(Kind::JsMap),
        !t.date && !is_buffer(t) && !t.map && t.set <==> kind_of_js(t) == JsKind::Container(
            Kind::JsSet,
        ),
        !t.date && !is_buffer(t) && !t.map && !t.set && t.array <==> kind_of_js(t)
            == JsKind::Container(Kind::Array),
        t.object && !t.function && !t.date && !is_buffer(t) && !t.map && !t.set && !t.array
            <==> kind_of_js(t) == JsKind::Container(Kind::Obj),
{
}

/// A value that is no object crosses as what it is, whatever else it answers to:
/// a number that is a whole one of 32 bits as that.
pub proof fn law_primitives_cross_as_they_are(t: JsTraits)
    ensures
        t.undefined <==> kind_of_js(t) == JsKind::Undefined,
        !t.undefined && t.null <==> kind_of_js(t) == JsKind::Null,
        !t.undefined && !t.null && t.boolean <==> kind_of_js(t) == JsKind::Boolean,
        !t.undefined && !t.null && !t.boolean && t.int32 <==> kind_of_js(t) == JsKind::Int32,
        !t.undefined && !t.null && !t.boolean && !t.int32 && t.number <==> kind_of_js(t)
            == JsKind::Number,
        is_primitive(t) && !t.undefined && !t.null && !t.boolean && !t.int32 && !t.number
            <==> kind_of_js(t) == JsKind::BigInt,
{
}

/// That a value is an object, or a function, decides nothing where a more special
/// test holds; a function that is nothing else crosses as text.
pub proof fn law_object_test_comes_last(t: JsTraits, object: bool, function: bool)
    ensures
        ({
            let other = JsTraits { object, function, ..t };
            &&& kind_of_js(t) != JsKind::Text && kind_of_js(t) != JsKind::Container(Kind::Obj)
                ==> kind_of_js(other) == kind_of_js(t)
            &&& kind_of_js(t) == JsKind::Text && function ==> kind_of_js(other) == JsKind::Text
            &&& kind_of_js(t) == JsKind::Text && object && !function ==> kind_of_js(other)
                == JsKind::Container(Kind::Obj)
        }),
        kind_of_js(t) == JsKind::Text ==> t.function || !t.object,
{
}

/// The tests that a Ruby value is put to, one by one.
#[derive(Debug, Clone, Copy, PartialEq, Eq, Structural)]
pub enum RubyTest {
    IsNil,
    IsTrue,
    IsFalse,
    IsTime,
    IsInteger,
    ConvertsToFloat,
    IsSymbol,
    IsString,
    ReadsAsString,
    IsSet,
    ConvertsToArray,
    ConvertsToHash,
}

/// The tests in the order in which they are made. A time comes before the
/// numbers, since it converts to one; an integer comes before the floats.
pub open spec fn ruby_tests() -> Seq<RubyTest> {
    seq![
        RubyTest::IsNil,
        RubyTest::IsTrue,
        RubyTest::IsFalse,
        RubyTest::IsTime,
        RubyTest::IsInteger,
        RubyTest::ConvertsToFloat,
        RubyTest::IsSymbol,
        RubyTest::IsString,
        RubyTest::ReadsAsString,
        RubyTest::IsSet,
        RubyTest::ConvertsToArray,
        RubyTest::ConvertsToHash,
    ]
}

/// The test that is made after `n` tests have failed; `None` after the last.
pub fn ruby_test(n: usize) -> (r: Option<RubyTest>)
    ensures
        r == if n < ruby_tests().len() {
            Some(ruby_tests()[n as int])
        } else {
            None
        },
{
    match n {
        0 => Some(RubyTest::IsNil),
        1 => Some(RubyTest::IsTrue),
        2 => Some(RubyTest::IsFalse),
        3 => Some(RubyTest::IsTime),
        4 => Some(RubyTest::IsInteger),
        5 => Some(RubyTest::ConvertsToFloat),
        6 => Some(RubyTest::IsSymbol),
        7 => Some(RubyTest::IsString),
        8 => Some(RubyTest::ReadsAsString),
        9 => Some(RubyTest::IsSet),
        10 => Some(RubyTest::ConvertsToArray),
        11 => Some(RubyTest::ConvertsToHash),
        _ => None,
    }
}

/// What a key of a Ruby hash is.
#[derive(Debug, Clone, Copy, PartialEq, Eq, Structural)]
pub enum HashKey {
    Text,
    Symbol,
    Other,
}

/// What a Ruby value that passed a test crosses as, if it is a container. A hash
/// that was made of a map is a map again. Of other hashes one whose keys are all
/// strings and symbols is an object, and any other is a map, since the keys of an
/// object are strings.
pub open spec fn kind_of_ruby(test: RubyTest, keys: Seq<HashKey>, from_map: bool) -> Option<Kind> {
    match test {
        RubyTest::IsSet => Some(Kind::JsSet),
        RubyTest::ConvertsToArray => Some(Kind::Array),
        RubyTest::ConvertsToHash => if from_map || keys.contains(HashKey::Other) {
            Some(Kind::JsMap)
        } else {
            Some(Kind::Obj)
        },
        _ => None,
    }
}

/// The container that a Ruby value crosses as, by the test that it passed, the
/// keys that it has as a hash, and whether that hash is marked as made of a map;
/// `None` for what is no container.
pub fn container_kind(test: RubyTest, keys: &Vec<HashKey>, from_map: bool) -> (r: Option<Kind>)
    ensures
        r == kind_of_ruby(test, keys@, from_map),
{
    match test {
        RubyTest::IsSet => Some(Kind::JsSet),
        RubyTest::ConvertsToArray => Some(Kind::Array),
        RubyTest::ConvertsToHash => {
            if from_map {
                return Some(Kind::JsMap);
            }
            let mut i: usize = 0;
            while i < keys.len()
                invariant
                    test == RubyTest::ConvertsToHash,
                    i <= keys@.len(),
                    forall|j: int| 0 <= j < i ==> #[trigger] keys@[j] != HashKey::Other,
                decreases keys@.len() - i,
            {
                if keys[i] == HashKey::Other {
                    assert(keys@.contains(keys@[i as int]));
                    return Some(Kind::JsMap);
                }
                i = i + 1;
            }
            Some(Kind::Obj)
        },
        _ => None,
    }
}

/// Whether the Ruby value that is made of a container is marked as made of a map:
/// objects and maps both become hashes, and only maps are marked.
pub open spec fn is_marked(kind: Kind) -> bool {
    kind == Kind::JsMap
}

/// A JavaScript map that crossed into Ruby goes back as a map, whatever keys it
/// has, and an object, whose hash has strings for keys, goes back as an object.
pub proof fn law_hash_goes_back_as_it_came(kind: Kind, keys: Seq<HashKey>)
    requires
        kind == Kind::JsMap || kind == Kind::Obj,
        kind == Kind::Obj ==> forall|j: int|
            0 <= j < keys.len() ==> #[trigger] keys[j] == HashKey::Text,
    ensures
        kind_of_ruby(RubyTest::ConvertsToHash, keys, is_marked(kind)) == Some(kind),
{
}

/// A hash that is not marked crosses by its keys alone: as an object where each of
/// them is a string or a symbol, wherever it stands, and as a map as soon as one
/// is anything else.
pub proof fn law_symbol_keys_count_as_text(keys: Seq<HashKey>)
    ensures
        (forall|j: int| 0 <= j < keys.len() ==> #[trigger] keys[j] != HashKey::Other)
            ==> kind_of_ruby(RubyTest::ConvertsToHash, keys, false) == Some(Kind::Obj),
        (exists|j: int| 0 <= j < keys.len() && #[trigger] keys[j] == HashKey::Other)
            ==> kind_of_ruby(RubyTest::ConvertsToHash, keys, false) == Some(Kind::JsMap),
{
    if exists|j: int| 0 <= j < keys.len() && #[trigger] keys[j] == HashKey::Other {
        let j = choose|j: int| 0 <= j < keys.len() && #[trigger] keys[j] == HashKey::Other;
        assert(keys.contains(keys[j]));
    }
}

/// To put a symbol in place of a string among the keys of a hash, or a string in
/// place of a symbol, changes nothing; nor does the order of the keys.
pub proof fn law_hash_keys_may_be_exchanged(
    keys: Seq<HashKey>,
    i: int,
    key: HashKey,
    other: Seq<HashKey>,
    test: RubyTest,
    from_map: bool,
)
    requires
        0 <= i < keys.len(),
        key != HashKey::Other,
        keys[i] != HashKey::Other,
        other.to_multiset() == keys.to_multiset(),
    ensures
        kind_of_ruby(test, keys.update(i, key), from_map) == kind_of_ruby(test, keys, from_map),
        kind_of_ruby(test, other, from_map) == kind_of_ruby(test, keys, from_map),
{
    broadcast use vstd::seq_lib::group_to_multiset_ensures;

    let changed = keys.update(i, key);
    if keys.contains(HashKey::Other) {
        let j = choose|j: int| 0 <= j < keys.len() && keys[j] == HashKey::Other;
        assert(changed[j] == HashKey::Other);
        assert(changed.contains(changed[j]));
    }
    if changed.contains(HashKey::Other) {
        let j = choose|j: int| 0 <= j < changed.len() && changed[j] == HashKey::Other;
        assert(keys[j] == HashKey::Other);
        assert(keys.contains(keys[j]));
    }
    assert(other.contains(HashKey::Other) <==> other.to_multiset().contains(HashKey::Other));
    assert(keys.contains(HashKey::Other) <==> keys.to_multiset().contains(HashKey::Other));
}

/// Only sets, arrays and hashes are containers. The mark of a map and the keys
/// say nothing of a set or an array, and a marked hash is a map whatever its keys.
pub proof fn law_ruby_containers(test: RubyTest, keys: Seq<HashKey>, from_map: bool)
    ensures
        kind_of_ruby(test, keys, from_map) is Some <==> test == RubyTest::IsSet || test
            == RubyTest::ConvertsToArray || test == RubyTest::ConvertsToHash,
        kind_of_ruby(test, keys, from_map) == Some(Kind::JsSet) <==> test == RubyTest::IsSet,
        kind_of_ruby(test, keys, from_map) == Some(Kind::Array) <==> test
            == RubyTest::ConvertsToArray,
        kind_of_ruby(RubyTest::ConvertsToHash, keys, true) == Some(Kind::JsMap),
        kind_of_ruby(RubyTest::ConvertsToHash, keys, from_map) == Some(Kind::Obj) ==> !from_map,
{
}

/// Whether one test is made before another.
pub open spec fn tried_before(a: RubyTest, b: RubyTest) -> bool {
    exists|i: int, j: int|
        0 <= i < j < ruby_tests().len() && #[trigger] ruby_tests()[i] == a
            && #[trigger] ruby_tests()[j] == b
}

/// No test is made twice, and each comes where it must: what a value is goes
/// before what it converts to. A time, which converts to a number, is tried before
/// the numbers; an integer, which converts to a float, before the floats; text
/// before containers, and a set before what converts to an array or a hash.
pub proof fn law_ruby_tests_in_order()
    ensures
        ruby_tests().no_duplicates(),
        tried_before(RubyTest::IsNil, RubyTest::IsTime),
        tried_before(RubyTest::IsTrue, RubyTest::IsTime),
        tried_before(RubyTest::IsFalse, RubyTest::IsTime),
        tried_before(RubyTest::IsTime, RubyTest::IsInteger),
        tried_before(RubyTest::IsInteger, RubyTest::ConvertsToFloat),
        tried_before(RubyTest::ConvertsToFloat, RubyTest::IsSymbol),
        tried_before(RubyTest::IsSymbol, RubyTest::IsString),
        tried_before(RubyTest::IsString, RubyTest::ReadsAsString),
        tried_before(RubyTest::ReadsAsString, RubyTest::IsSet),
        tried_before(RubyTest::IsSet, RubyTest::ConvertsToArray),
        tried_before(RubyTest::ConvertsToArray, RubyTest::ConvertsToHash),
{
    let t = ruby_tests();
    assert(t[0] == RubyTest::IsNil && t[1] == RubyTest::IsTrue && t[2] == RubyTest::IsFalse);
    assert(t[3] == RubyTest::IsTime && t[4] == RubyTest::IsInteger);
    assert(t[5] == RubyTest::ConvertsToFloat && t[6] == RubyTest::IsSymbol);
    assert(t[7] == RubyTest::IsString && t[8] == RubyTest::ReadsAsString);
    assert(t[9] == RubyTest::IsSet && t[10] == RubyTest::ConvertsToArray);
    assert(t[11] == RubyTest::ConvertsToHash);
}

/// How a JavaScript value crosses where only plain data does: numbers, text,
/// arrays and objects.
pub open spec fn plain_kind_of_js(t: JsTraits) -> JsKind {
    if t.undefined {
        JsKind::Undefined
    } else if t.null {
        JsKind::Null
    } else if t.boolean {
        JsKind::Boolean
    } else if t.int32 {
        JsKind::Int32
    } else if t.number {
        JsKind::Number
    } else if t.array {
        JsKind::Container(Kind::Array)
    } else if t.object && !t.function {
        JsKind::Container(Kind::Obj)
    } else {
        JsKind::Text
    }
}

/// How a JavaScript value crosses where only plain data does.
pub fn plain_js_kind(t: &JsTraits) -> (r: JsKind)
    ensures
        r == plain_kind_of_js(*t),
{
    if t.undefined {
        JsKind::Undefined
    } else if t.null {
        JsKind::Null
    } else if t.boolean {
        JsKind::Boolean
    } else if t.int32 {
        JsKind::Int32
    } else if t.number {
        JsKind::Number
    } else if t.array {
        JsKind::Container(Kind::Array)
    } else if t.object && !t.function {
        JsKind::Container(Kind::Obj)
    } else {
        JsKind::Text
    }
}

/// The tests that a Ruby value is put to where only plain data crosses.
#[derive(Debug, Clone, Copy, PartialEq, Eq, Structural)]
pub enum PlainRubyTest {
    IsNil,
    IsTrue,
    IsFalse,
    ConvertsToInteger,
    ConvertsToFloat,
    ConvertsToString,
    ConvertsToArray,
    ConvertsToHash,
}

/// The tests in the order in which they are made. A value that lies too deep is
/// not tried as an array or a hash.
pub open spec fn plain_ruby_tests(too_deep: bool) -> Seq<PlainRubyTest> {
    let flat = seq![
        PlainRubyTest::IsNil,
        PlainRubyTest::IsTrue,
        PlainRubyTest::IsFalse,
        PlainRubyTest::ConvertsToInteger,
        PlainRubyTest::ConvertsToFloat,
        PlainRubyTest::ConvertsToString,
    ];
    if too_deep {
        flat
    } else {
        flat + seq![PlainRubyTest::ConvertsToArray, PlainRubyTest::ConvertsToHash]
    }
}

/// The test that is made after `n` tests have failed; `None` after the last.
pub fn plain_ruby_test(n: usize, too_deep: bool) -> (r: Option<PlainRubyTest>)
    ensures
        r == if n < plain_ruby_tests(too_deep).len() {
            Some(plain_ruby_tests(too_deep)[n as int])
        } else {
            None
        },
{
    match n {
        0 => Some(PlainRubyTest::IsNil),
        1 => Some(PlainRubyTest::IsTrue),
        2 => Some(PlainRubyTest::IsFalse),
        3 => Some(PlainRubyTest::ConvertsToInteger),
        4 => Some(PlainRubyTest::ConvertsToFloat),
        5 => Some(PlainRubyTest::ConvertsToString),
        6 => {
            if too_deep {
                None
            } else {
                Some(PlainRubyTest::ConvertsToArray)
            }
        },
        7 => {
            if too_deep {
                None
            } else {
                Some(PlainRubyTest::ConvertsToHash)
            }
        },
        _ => None,
    }
}

/// Where only plain data crosses, what is no plain data goes by its outermost
/// shape: a value that is no array, and any object but a function, is an object,
/// and a big integer is text. All else crosses as elsewhere.
pub proof fn law_plain_data_crosses_as_elsewhere(t: JsTraits)
    ensures
        t.undefined || t.null || t.boolean || t.int32 || t.number ==> plain_kind_of_js(t)
            == kind_of_js(t),
        !is_primitive(t) && t.array ==> plain_kind_of_js(t) == JsKind::Container(Kind::Array),
        !is_primitive(t) && !t.array && t.object && !t.function ==> plain_kind_of_js(t)
            == JsKind::Container(Kind::Obj),
        !is_primitive(t) && !t.array && (!t.object || t.function) ==> plain_kind_of_js(t)
            == JsKind::Text,
        t.big_int && !t.undefined && !t.null && !t.boolean && !t.int32 && !t.number && !t.array
            && !t.object ==> plain_kind_of_js(t) == JsKind::Text,
        !t.date && !is_buffer(t) && !t.map && !t.set && !t.big_int ==> plain_kind_of_js(t)
            == kind_of_js(t),
{
}

/// Whether one test is made before another where only plain data crosses.
pub open spec fn plain_tried_before(a: PlainRubyTest, b: PlainRubyTest) -> bool {
    exists|i: int, j: int|
        0 <= i < j < plain_ruby_tests(false).len() && #[trigger] plain_ruby_tests(false)[i] == a
            && #[trigger] plain_ruby_tests(false)[j] == b
}

/// A value that lies too deep is put to the same tests in the same order but for
/// those for arrays and hashes, which come last; an integer is tried before the
/// floats, and numbers before text.
pub proof fn law_plain_ruby_tests_in_order(n: int)
    ensures
        plain_ruby_tests(false).no_duplicates(),
        0 <= n < plain_ruby_tests(true).len() ==> plain_ruby_tests(true)[n]
            == plain_ruby_tests(false)[n],
        plain_ruby_tests(true).len() <= n < plain_ruby_tests(false).len() ==> (
        plain_ruby_tests(false)[n] == PlainRubyTest::ConvertsToArray || plain_ruby_tests(false)[n]
            == PlainRubyTest::ConvertsToHash),
        !plain_ruby_tests(true).contains(PlainRubyTest::ConvertsToArray),
        !plain_ruby_tests(true).contains(PlainRubyTest::ConvertsToHash),
        plain_tried_before(PlainRubyTest::IsNil, PlainRubyTest::ConvertsToInteger),
        plain_tried_before(PlainRubyTest::IsTrue, PlainRubyTest::ConvertsToInteger),
        plain_tried_before(PlainRubyTest::IsFalse, PlainRubyTest::ConvertsToInteger),
        plain_tried_before(PlainRubyTest::ConvertsToInteger, PlainRubyTest::ConvertsToFloat),
        plain_tried_before(PlainRubyTest::ConvertsToFloat, PlainRubyTest::ConvertsToString),
        plain_tried_before(PlainRubyTest::ConvertsToString, PlainRubyTest::ConvertsToArray),
        plain_tried_before(PlainRubyTest::ConvertsToArray, PlainRubyTest::ConvertsToHash),
{
    let t = plain_ruby_tests(false);
    assert(t[0] == PlainRubyTest::IsNil && t[1] == PlainRubyTest::IsTrue);
    assert(t[2] == PlainRubyTest::IsFalse && t[3] == PlainRubyTest::ConvertsToInteger);
    assert(t[4] == PlainRubyTest::ConvertsToFloat && t[5] == PlainRubyTest::ConvertsToString);
    assert(t[6] == PlainRubyTest::ConvertsToArray && t[7] == PlainRubyTest::ConvertsToHash);
}

/// What is raised for a Ruby value that fails every test.
pub fn unsupported_type() -> (r: RubyError)
    ensures
        r@ == plain(RubyClass::TypeError, "unsupported type crossing into JS"@),
{
    raise(RubyClass::TypeError, "unsupported type crossing into JS")
}

/// A Ruby value that holds no other value and has no identity.
pub ghost enum Atom {
    Nil,
    Bool(bool),
    /// Of any size.
    Integer(int),
    /// A double, by its bits.
    Float(u64),
    /// A string that is valid UTF-8.
    Text(Seq<char>),
}

/// Whether a Ruby value crosses as `v`: an integer as a number where it is a
/// double for sure, and else as a `BigInt` of the same sign and magnitude.
pub open spec fn crosses_as(a: Atom, v: Val) -> bool {
    match a {
        Atom::Nil => v == Val::Null,
        Atom::Bool(b) => v == Val::Bool(b),
        Atom::Integer(n) => if magnitude_of(n) <= MAX_EXACT_INTEGER {
            v matches Val::Int(i) && i == n
        } else {
            v matches Val::BigInt { negative, words } && negative == (n < 0) && magnitude(words)
                == magnitude_of(n)
        },
        Atom::Float(bits) => v == Val::Num(bits),
        Atom::Text(t) => v == Val::Str(t),
    }
}

/// The Ruby value that is made of a leaf without identity, but for dates.
pub open spec fn atom_of(v: Val) -> Atom {
    match v {
        Val::Bool(b) => Atom::Bool(b),
        Val::Int(i) => Atom::Integer(i as int),
        Val::Num(bits) => Atom::Float(bits),
        Val::Str(t) => Atom::Text(t),
        Val::BigInt { negative, words } => Atom::Integer(signed(negative, magnitude(words))),
        _ => Atom::Nil,
    }
}

/// An integer by its sign and magnitude.
pub open spec fn signed(negative: bool, magnitude: nat) -> int {
    if negative {
        -(magnitude as int)
    } else {
        magnitude as int
    }
}

/// The largest magnitude up to which every integer is a double: two to the 53.
pub const MAX_EXACT_INTEGER: i64 = 0x20_0000_0000_0000;

/// A Ruby integer that is small enough to be a JavaScript number. `None` for
/// one that has to cross as a `BigInt`.
pub fn small_integer(i: i64) -> (r: Option<JsVal>)
    ensures
        match r {
            Some(v) => -0x20_0000_0000_0000 <= i <= 0x20_0000_0000_0000 && v@ == Val::Int(i)
                && crosses_as(Atom::Integer(i as int), v@),
            None => !(-0x20_0000_0000_0000 <= i <= 0x20_0000_0000_0000),
        },
{
    if -MAX_EXACT_INTEGER <= i && i <= MAX_EXACT_INTEGER {
        Some(JsVal::Int(i))
    } else {
        None
    }
}

/// A Ruby integer that crosses as a `BigInt`, from its sign and the hexadecimal
/// digits of its magnitude.
pub fn big_integer(negative: bool, hex: &str) -> (r: JsVal)
    requires
        cuts_cleanly(hex.spec_bytes()),
    ensures
        r@ == (Val::BigInt { negative, words: text_limbs(hex.spec_bytes()) }),
        all_hex(hex.spec_bytes()) && hex_value(hex.spec_bytes()) > MAX_EXACT_INTEGER ==> crosses_as(
            Atom::Integer(signed(negative, hex_value(hex.spec_bytes()))),
            r@,
        ),
{
    proof {
        if all_hex(hex.spec_bytes()) {
            law_limbs_keep_value(hex.spec_bytes());
        }
    }
    JsVal::BigInt { negative, words: hex_to_words(hex) }
}

/// The encoding tag of a Ruby string.
#[derive(Debug, Clone, Copy, PartialEq, Eq, Structural)]
pub enum StringTag {
    Binary,
    Utf8,
    OtherText,
}

/// What becomes of a Ruby string.
#[derive(Debug)]
pub enum StringStep {
    Value(JsVal),
    /// The string is to be transcoded to UTF-8 first, and then looked at again.
    Transcode,
    Raise(RubyError),
}

/// What a text-tagged string crosses as: invalid bytes are an error, never
/// replaced.
pub open spec fn text_value(bytes: Seq<u8>) -> Result<Val, Raised> {
    if valid_utf8(bytes) {
        Ok(Val::Str(decode_utf8(bytes)))
    } else {
        Err(plain(RubyClass::EncodingError, "text-tagged String contains invalid UTF-8 bytes"@))
    }
}

/// What a Ruby string crosses as; `None` where it is to be transcoded first.
pub open spec fn string_crosses(tag: StringTag, bytes: Seq<u8>) -> Option<Result<Val, Raised>> {
    match tag {
        StringTag::Binary => Some(Ok(Val::Bytes { id: None, bytes })),
        StringTag::OtherText => None,
        StringTag::Utf8 => Some(text_value(bytes)),
    }
}

/// A binary string crosses as its own bytes, be they text or not; a UTF-8 string
/// as the text that they encode, and only where they encode one; and any other text
/// is transcoded whatever its bytes are.
pub proof fn law_strings_cross_by_their_tag(bytes: Seq<u8>)
    ensures
        string_crosses(StringTag::Binary, bytes) == Some(
            Ok::<Val, Raised>(Val::Bytes { id: None, bytes }),
        ),
        string_crosses(StringTag::OtherText, bytes) is None,
        valid_utf8(bytes) ==> string_crosses(StringTag::Utf8, bytes) == Some(
            Ok::<Val, Raised>(Val::Str(decode_utf8(bytes))),
        ),
        !valid_utf8(bytes) ==> (string_crosses(StringTag::Utf8, bytes) matches Some(Err(e))
            && e.class == RubyClass::EncodingError),
{
}

/// A Ruby string crosses by its encoding tag: binary as bytes, with no identity
/// here, any text as text.
pub fn string_to_jsval(tag: StringTag, bytes: Vec<u8>) -> (r: StringStep)
    ensures
        match (r, string_crosses(tag, bytes@)) {
            (StringStep::Value(v), Some(Ok(want))) => v@ == want,
            (StringStep::Raise(e), Some(Err(want))) => e@ == want,
            (StringStep::Transcode, None) => true,
            _ => false,
        },
{
    match tag {
        StringTag::Binary => StringStep::Value(JsVal::Bytes { id: None, bytes }),
        StringTag::OtherText => StringStep::Transcode,
        StringTag::Utf8 => match String::from_utf8(bytes) {
            Ok(s) => StringStep::Value(JsVal::Str(s)),
            Err(_) => StringStep::Raise(
                raise(
                    RubyClass::EncodingError,
                    "text-tagged String contains invalid UTF-8 bytes",
                ),
            ),
        },
    }
}

/// What a symbol crosses as.
pub open spec fn symbol_crosses(name: Option<String>) -> Result<Val, Raised> {
    match name {
        Some(n) => Ok(Val::Str(n@)),
        None => Err(plain(RubyClass::EncodingError, "symbol name is not valid UTF-8"@)),
    }
}

/// A symbol crosses as the text of its name, as the string of that name does.
pub proof fn law_symbol_crosses_as_its_name(name: String, bytes: Seq<u8>)
    requires
        valid_utf8(bytes),
        decode_utf8(bytes) == name@,
    ensures
        symbol_crosses(Some(name)) == Ok::<Val, Raised>(Val::Str(name@)),
        string_crosses(StringTag::Utf8, bytes) == Some(symbol_crosses(Some(name))),
        symbol_crosses(None) matches Err(e) && e.class == RubyClass::EncodingError,
{
}

/// A symbol crosses as text; `None` is a name that is not valid UTF-8.
pub fn symbol_to_jsval(name: Option<String>) -> (r: Result<JsVal, RubyError>)
    ensures
        match (r, symbol_crosses(name)) {
            (Ok(v), Ok(want)) => v@ == want,
            (Err(e), Err(want)) => e@ == want,
            _ => false,
        },
{
    match name {
        Some(n) => Ok(JsVal::Str(n)),
        None => Err(raise(RubyClass::EncodingError, "symbol name is not valid UTF-8")),
    }
}

/// The property key that a key of a Ruby hash becomes.
pub open spec fn property_key(bytes: Option<Seq<u8>>) -> Result<Seq<char>, Raised> {
    match bytes {
        Some(b) => if valid_utf8(b) {
            Ok(decode_utf8(b))
        } else {
            Err(plain(RubyClass::EncodingError, "hash key is not valid UTF-8"@))
        },
        None => Err(plain(RubyClass::TypeError, "hash key's to_s did not return a String"@)),
    }
}

/// A key becomes a property key exactly where it is valid UTF-8, and then the very
/// text that it encodes. Invalid bytes are an error of encoding, and what gave no
/// string is one of type.
pub proof fn law_keys_are_never_altered(bytes: Seq<u8>)
    ensures
        property_key(Some(bytes)) is Ok <==> valid_utf8(bytes),
        valid_utf8(bytes) ==> property_key(Some(bytes)) == Ok::<Seq<char>, Raised>(
            decode_utf8(bytes),
        ),
        property_key(Some(bytes)) matches Err(e) ==> e.class == RubyClass::EncodingError,
        property_key(None) matches Err(e) && e.class == RubyClass::TypeError,
{
}

/// A key of a Ruby hash as a property key: a key has nowhere to put raw bytes,
/// so it must be valid UTF-8. `bytes` are those of the key itself where it is a
/// string and else of what its `to_s` gave; `None` where that was no string.
pub fn hash_key(bytes: Option<Vec<u8>>) -> (r: Result<String, RubyError>)
    ensures
        match (
            r,
            property_key(
                match bytes {
                    Some(b) => Some(b@),
                    None => None,
                },
            ),
        ) {
            (Ok(s), Ok(want)) => s@ == want,
            (Err(e), Err(want)) => e@ == want,
            _ => false,
        },
{
    match bytes {
        Some(b) => match String::from_utf8(b) {
            Ok(s) => Ok(s),
            Err(_) => Err(raise(RubyClass::EncodingError, "hash key is not valid UTF-8")),
        },
        None => Err(raise(RubyClass::TypeError, "hash key's to_s did not return a String")),
    }
}

/// The text of a Ruby container that lies too deep.
pub open spec fn described_as(bytes: Option<Seq<u8>>) -> Result<Seq<char>, Raised> {
    match bytes {
        Some(b) => Ok(lossy_text(b)),
        None => Err(plain(RubyClass::TypeError, "to_s did not return a String"@)),
    }
}

/// What lies too deep is described by whatever text its `to_s` gave, valid or not;
/// it fails only where that gave none.
pub proof fn law_description_fails_only_without_text(bytes: Seq<u8>)
    ensures
        described_as(Some(bytes)) == Ok::<Seq<char>, Raised>(lossy_text(bytes)),
        described_as(None) matches Err(e) && e.class == RubyClass::TypeError,
{
}

/// The text of a Ruby container that lies too deep, from the bytes of its
/// `to_s`; `None` where that was no string.
pub fn lossy_string(bytes: Option<Vec<u8>>) -> (r: Result<String, RubyError>)
    ensures
        match (
            r,
            described_as(
                match bytes {
                    Some(b) => Some(b@),
                    None => None,
                },
            ),
        ) {
            (Ok(s), Ok(want)) => s@ == want,
            (Err(e), Err(want)) => e@ == want,
            _ => false,
        },
        bytes matches Some(b) ==> (r matches Ok(s) ==> (valid_utf8(b@) ==> s@ == decode_utf8(
            b@,
        ))),
{
    match bytes {
        Some(b) => Ok(from_utf8_lossy(&b)),
        None => Err(raise(RubyClass::TypeError, "to_s did not return a String")),
    }
}

/// Whether the bits are those of a double that is neither infinite nor NaN.
pub open spec fn finite_bits(bits: u64) -> bool {
    (bits >> 52) & 0x7ff != 0x7ff
}

/// A value without children as a Ruby value.
#[derive(Debug)]
pub enum RubyLeaf {
    Nil,
    Bool(bool),
    Integer(i64),
    /// A double, by its bits.
    Float(u64),
    Text(String),
    Binary(Vec<u8>),
    /// The hexadecimal digits of the magnitude.
    BigInteger { negative: bool, hex: String },
    /// Milliseconds since the Unix epoch, a double by its bits.
    Time(u64),
}

/// The value of a leaf in Ruby, but for binary strings and times. A big integer
/// is read from its digits.
pub open spec fn leaf_atom(l: RubyLeaf) -> Option<Atom> {
    match l {
        RubyLeaf::Nil => Some(Atom::Nil),
        RubyLeaf::Bool(b) => Some(Atom::Bool(b)),
        RubyLeaf::Integer(i) => Some(Atom::Integer(i as int)),
        RubyLeaf::Float(bits) => Some(Atom::Float(bits)),
        RubyLeaf::Text(t) => Some(Atom::Text(t@)),
        RubyLeaf::BigInteger { negative, hex } => Some(
            Atom::Integer(signed(negative, hex_value(ascii(hex@)))),
        ),
        _ => None,
    }
}

/// What a leaf is in Ruby.
pub open spec fn is_ruby_leaf(v: Val, r: Result<RubyLeaf, RubyError>) -> bool {
    match v {
        Val::Bool(b) => r matches Ok(RubyLeaf::Bool(x)) && x == b,
        Val::Int(i) => r matches Ok(RubyLeaf::Integer(x)) && x == i,
        Val::Num(n) => r matches Ok(RubyLeaf::Float(x)) && x == n,
        Val::Str(s) => r matches Ok(RubyLeaf::Text(x)) && x@ == s,
        Val::Bytes { bytes, .. } => r matches Ok(RubyLeaf::Binary(x)) && x@ == bytes,
        Val::BigInt { negative, words } => r matches Ok(
            RubyLeaf::BigInteger { negative: n, hex },
        ) && n == negative && hex@ == hex_text(words),
        Val::Date(ms) => if finite_bits(ms) {
            r matches Ok(RubyLeaf::Time(x)) && x == ms
        } else {
            r matches Err(e) && e@ == plain(RubyClass::RangeError, "invalid Date"@)
        },
        _ => r matches Ok(RubyLeaf::Nil),
    }
}

/// What is made of a leaf in Ruby has its value; a big integer keeps every digit.
pub proof fn law_ruby_leaf_keeps_value(v: Val, l: RubyLeaf)
    requires
        is_ruby_leaf(v, Ok(l)),
        !(v is Bytes || v is Date),
    ensures
        leaf_atom(l) == Some(atom_of(v)),
{
    match v {
        Val::BigInt { words, .. } => law_hex_text_keeps_magnitude(words),
        _ => {},
    }
}

/// Bytes and dates keep their value too: a buffer is a binary string of its bytes,
/// and a date a time of its milliseconds. A date without any is an error, and
/// nothing else is.
pub proof fn law_bytes_and_dates_keep_value(v: Val, r: Result<RubyLeaf, RubyError>)
    requires
        is_ruby_leaf(v, r),
    ensures
        v matches Val::Bytes { id, bytes } ==> (r matches Ok(RubyLeaf::Binary(b)) && b@ == bytes),
        v matches Val::Date(ms) ==> (finite_bits(ms) ==> (r matches Ok(RubyLeaf::Time(t)) && t
            == ms)),
        r is Err <==> (v matches Val::Date(ms) && !finite_bits(ms)),
        r matches Err(e) ==> e@.class == RubyClass::RangeError,
{
}

/// An integer crosses as a number exactly where its magnitude is two to the 53 at
/// most, and is then that number; any other crosses as a `BigInt` of its own sign
/// and magnitude. It never crosses as anything else.
pub proof fn law_integers_cross_exactly(n: int, v: Val)
    requires
        crosses_as(Atom::Integer(n), v),
    ensures
        -9007199254740992 <= n <= 9007199254740992 ==> (v matches Val::Int(i) && i == n),
        !(-9007199254740992 <= n <= 9007199254740992) ==> (v matches Val::BigInt {
            negative,
            words,
        } && signed(negative, magnitude(words)) == n),
        atom_of(v) == Atom::Integer(n),
{
}

/// What crosses in one way is one value: no two Ruby values without parts cross as
/// the same.
pub proof fn law_atoms_cross_apart(a: Atom, b: Atom, v: Val)
    requires
        crosses_as(a, v),
        crosses_as(b, v),
    ensures
        a == b,
{
}

/// The Ruby value of a leaf. An invalid date is an error, never nil.
pub fn ruby_leaf(v: JsVal) -> (r: Result<RubyLeaf, RubyError>)
    ensures
        is_ruby_leaf(v@, r),
{
    match v {
        JsVal::Bool(b) => Ok(RubyLeaf::Bool(b)),
        JsVal::Int(i) => Ok(RubyLeaf::Integer(i)),
        JsVal::Num(n) => Ok(RubyLeaf::Float(n)),
        JsVal::Str(s) => Ok(RubyLeaf::Text(s)),
        JsVal::Bytes { bytes, .. } => Ok(RubyLeaf::Binary(bytes)),
        JsVal::BigInt { negative, words } => Ok(
            RubyLeaf::BigInteger { negative, hex: words_to_hex(&words) },
        ),
        JsVal::Date(ms) => {
            if (ms >> 52) & 0x7ff != 0x7ff {
                Ok(RubyLeaf::Time(ms))
            } else {
                Err(raise(RubyClass::RangeError, "invalid Date"))
            }
        },
        _ => Ok(RubyLeaf::Nil),
    }
}

/// The bytes of a code cache handed in from Ruby.
pub open spec fn cache_bytes(given: Option<(String, Vec<u8>)>) -> Result<Option<Seq<u8>>, Raised> {
    match given {
        None => Ok(None),
        Some((encoding, bytes)) => if encoding@ == "ASCII-8BIT"@ {
            Ok(Some(bytes@))
        } else {
            Err(
                plain(
                    RubyClass::EncodingError,
                    "cached_data must be ASCII-8BIT (binary), got "@ + encoding@,
                ),
            )
        },
    }
}

/// A code cache is taken as it is, exactly where it is a binary string, and its
/// bytes are never changed; no cache is no error.
pub proof fn law_only_binary_caches_are_taken(encoding: String, bytes: Vec<u8>)
    ensures
        cache_bytes(None) == Ok::<Option<Seq<u8>>, Raised>(None),
        encoding@ == "ASCII-8BIT"@ ==> cache_bytes(Some((encoding, bytes))) == Ok::<
            Option<Seq<u8>>,
            Raised,
        >(Some(bytes@)),
        encoding@ != "ASCII-8BIT"@ ==> (cache_bytes(Some((encoding, bytes))) matches Err(e)
            && e.class == RubyClass::EncodingError && e.message
            == "cached_data must be ASCII-8BIT (binary), got "@ + encoding@),
{
}

/// The bytes of a code cache handed in from Ruby: only a binary string is
/// taken, since one read as text may have been transcoded.
pub fn binary_bytes(given: Option<(String, Vec<u8>)>) -> (r: Result<Option<Vec<u8>>, RubyError>)
    ensures
        match (r, cache_bytes(given)) {
            (Ok(Some(b)), Ok(Some(want))) => b@ == want,
            (Ok(None), Ok(None)) => true,
            (Err(e), Err(want)) => e@ == want,
            _ => false,
        },
{
    match given {
        None => Ok(None),
        Some((encoding, bytes)) => {
            if encoding == "ASCII-8BIT".to_string() {
                Ok(Some(bytes))
            } else {
                let mut message = "cached_data must be ASCII-8BIT (binary), got ".to_string();
                message.append(encoding.as_str());
                Err(raise(RubyClass::EncodingError, message.as_str()))
            }
        },
    }
}

} // verus!
