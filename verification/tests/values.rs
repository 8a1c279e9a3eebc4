use rusty_racer::bigint::{hex_to_words, words_to_hex};
use rusty_racer::classify::{
    big_integer, binary_bytes, hash_key, js_kind, lossy_string, plain_js_kind, plain_ruby_test,
    ruby_leaf, ruby_test, small_integer, string_to_jsval, symbol_to_jsval, unsupported_type,
    JsKind, JsTraits, PlainRubyTest, RubyLeaf, RubyTest, StringStep, StringTag,
};
use rusty_racer::doubles::{exact_double, whole_double};
use rusty_racer::errors::{err_class, vm_err, RubyClass};
use rusty_racer::times::{time_of_date, time_to_jsval};
use rusty_racer::value::{JsVal, Kind, VmError};

fn no_traits() -> JsTraits {
    JsTraits {
        undefined: false,
        null: false,
        boolean: false,
        int32: false,
        number: false,
        big_int: false,
        date: false,
        buffer_view: false,
        array_buffer: false,
        shared_array_buffer: false,
        map: false,
        set: false,
        array: false,
        object: false,
        function: false,
    }
}

#[test]
fn hex_of_no_limbs_is_zero() {
    assert_eq!(words_to_hex(&vec![]), "0");
    assert_eq!(words_to_hex(&vec![0]), "0");
}

#[test]
fn hex_pads_every_limb_but_the_top_one() {
    assert_eq!(words_to_hex(&vec![1, 0xff]), "ff0000000000000001");
    assert_eq!(words_to_hex(&vec![0xabc]), "abc");
}

#[test]
fn limbs_of_hex() {
    assert_eq!(hex_to_words(""), vec![0]);
    assert_eq!(hex_to_words("0"), vec![0]);
    assert_eq!(hex_to_words("ff0000000000000001"), vec![1, 0xff]);
    assert_eq!(hex_to_words("DEADbeef"), vec![0xdeadbeef]);
    assert_eq!(hex_to_words("xyz"), vec![0]);
}

#[test]
fn limbs_round_trip_through_hex() {
    for words in [vec![7u64], vec![u64::MAX, 1], vec![0, 0, 5], vec![u64::MAX, u64::MAX, u64::MAX]] {
        assert_eq!(hex_to_words(&words_to_hex(&words)), words);
    }
}

#[test]
fn integers_up_to_two_to_the_53_are_numbers() {
    let limit = 1i64 << 53;
    assert!(matches!(small_integer(limit), Some(JsVal::Int(i)) if i == limit));
    assert!(matches!(small_integer(-limit), Some(JsVal::Int(i)) if i == -limit));
    assert!(matches!(small_integer(0), Some(JsVal::Int(0))));
    assert!(small_integer(limit + 1).is_none());
    assert!(small_integer(-limit - 1).is_none());
    assert!(small_integer(i64::MIN).is_none());
}

#[test]
fn larger_integers_cross_exactly() {
    match big_integer(true, "20000000000001") {
        JsVal::BigInt { negative, words } => {
            assert!(negative);
            assert_eq!(words, vec![(1u64 << 53) + 1]);
        }
        other => panic!("{other:?}"),
    }
    match ruby_leaf(big_integer(true, "123456789abcdef0123456789")) {
        Ok(RubyLeaf::BigInteger { negative, hex }) => {
            assert!(negative);
            assert_eq!(hex, "123456789abcdef0123456789");
        }
        other => panic!("{other:?}"),
    }
}

#[test]
fn the_first_test_that_holds_decides_in_javascript() {
    let mut t = no_traits();
    assert_eq!(js_kind(&t), JsKind::Text);
    t.object = true;
    assert_eq!(js_kind(&t), JsKind::Container(Kind::Obj));
    t.function = true;
    assert_eq!(js_kind(&t), JsKind::Text);
    t.function = false;
    t.array = true;
    assert_eq!(js_kind(&t), JsKind::Container(Kind::Array));
    t.set = true;
    assert_eq!(js_kind(&t), JsKind::Container(Kind::JsSet));
    t.map = true;
    assert_eq!(js_kind(&t), JsKind::Container(Kind::JsMap));
    t.shared_array_buffer = true;
    assert_eq!(js_kind(&t), JsKind::SharedArrayBuffer);
    t.array_buffer = true;
    assert_eq!(js_kind(&t), JsKind::ArrayBuffer);
    t.buffer_view = true;
    assert_eq!(js_kind(&t), JsKind::BufferView);
    t.date = true;
    assert_eq!(js_kind(&t), JsKind::Date);
    t.big_int = true;
    assert_eq!(js_kind(&t), JsKind::BigInt);
    t.number = true;
    assert_eq!(js_kind(&t), JsKind::Number);
    t.int32 = true;
    assert_eq!(js_kind(&t), JsKind::Int32);
    t.boolean = true;
    assert_eq!(js_kind(&t), JsKind::Boolean);
    t.null = true;
    assert_eq!(js_kind(&t), JsKind::Null);
    t.undefined = true;
    assert_eq!(js_kind(&t), JsKind::Undefined);
}

#[test]
fn plain_data_knows_no_dates() {
    let mut t = no_traits();
    t.object = true;
    t.date = true;
    assert_eq!(plain_js_kind(&t), JsKind::Container(Kind::Obj));
    t.array = true;
    assert_eq!(plain_js_kind(&t), JsKind::Container(Kind::Array));
}

#[test]
fn ruby_tests_come_in_order() {
    let mut order = Vec::new();
    let mut n = 0;
    while let Some(t) = ruby_test(n) {
        order.push(t);
        n += 1;
    }
    assert_eq!(order.len(), 12);
    let at = |t: RubyTest| order.iter().position(|o| *o == t).unwrap();
    assert!(at(RubyTest::IsTime) < at(RubyTest::IsInteger));
    assert!(at(RubyTest::IsInteger) < at(RubyTest::ConvertsToFloat));
    assert!(at(RubyTest::IsSet) < at(RubyTest::ConvertsToArray));
    assert_eq!(order[0], RubyTest::IsNil);
    assert_eq!(order[11], RubyTest::ConvertsToHash);
}

#[test]
fn plain_ruby_tests_stop_at_containers_when_too_deep() {
    assert_eq!(plain_ruby_test(5, true), Some(PlainRubyTest::ConvertsToString));
    assert_eq!(plain_ruby_test(6, true), None);
    assert_eq!(plain_ruby_test(6, false), Some(PlainRubyTest::ConvertsToArray));
    assert_eq!(plain_ruby_test(7, false), Some(PlainRubyTest::ConvertsToHash));
    assert_eq!(plain_ruby_test(8, false), None);
}

#[test]
fn a_string_crosses_by_its_tag() {
    match string_to_jsval(StringTag::Binary, vec![0xff, 0]) {
        StringStep::Value(JsVal::Bytes { id, bytes }) => {
            assert_eq!(id, None);
            assert_eq!(bytes, vec![0xff, 0]);
        }
        other => panic!("{other:?}"),
    }
    match string_to_jsval(StringTag::Utf8, "gr\u{fc}n".as_bytes().to_vec()) {
        StringStep::Value(JsVal::Str(s)) => assert_eq!(s, "gr\u{fc}n"),
        other => panic!("{other:?}"),
    }
    assert!(matches!(string_to_jsval(StringTag::OtherText, vec![0xff]), StringStep::Transcode));
}

#[test]
fn invalid_text_is_an_error() {
    match string_to_jsval(StringTag::Utf8, vec![b'a', 0xff]) {
        StringStep::Raise(e) => {
            assert_eq!(e.class, RubyClass::EncodingError);
            assert_eq!(e.message, "text-tagged String contains invalid UTF-8 bytes");
            assert!(e.backtrace.is_none());
        }
        other => panic!("{other:?}"),
    }
}

#[test]
fn symbols_cross_as_text() {
    assert!(matches!(symbol_to_jsval(Some("a".to_string())), Ok(JsVal::Str(s)) if s == "a"));
    let e = symbol_to_jsval(None).unwrap_err();
    assert_eq!(e.class, RubyClass::EncodingError);
    assert_eq!(e.message, "symbol name is not valid UTF-8");
}

#[test]
fn hash_keys_are_text() {
    assert_eq!(hash_key(Some(b"key".to_vec())).unwrap(), "key");
    let e = hash_key(Some(vec![0xc3])).unwrap_err();
    assert_eq!((e.class, e.message.as_str()), (RubyClass::EncodingError, "hash key is not valid UTF-8"));
    let e = hash_key(None).unwrap_err();
    assert_eq!(e.class, RubyClass::TypeError);
    assert_eq!(e.message, "hash key's to_s did not return a String");
}

#[test]
fn text_of_deep_containers_is_lossy() {
    assert_eq!(lossy_string(Some(b"[1, 2]".to_vec())).unwrap(), "[1, 2]");
    assert_eq!(lossy_string(Some(vec![b'a', 0xff, b'b'])).unwrap(), "a\u{fffd}b");
    let e = lossy_string(None).unwrap_err();
    assert_eq!((e.class, e.message.as_str()), (RubyClass::TypeError, "to_s did not return a String"));
}

#[test]
fn leaves_become_ruby_values() {
    assert!(matches!(ruby_leaf(JsVal::Undefined), Ok(RubyLeaf::Nil)));
    assert!(matches!(ruby_leaf(JsVal::Null), Ok(RubyLeaf::Nil)));
    assert!(matches!(ruby_leaf(JsVal::Bool(true)), Ok(RubyLeaf::Bool(true))));
    assert!(matches!(ruby_leaf(JsVal::Int(-3)), Ok(RubyLeaf::Integer(-3))));
    let pi = 3.25f64.to_bits();
    assert!(matches!(ruby_leaf(JsVal::Num(pi)), Ok(RubyLeaf::Float(b)) if b == pi));
    assert!(matches!(ruby_leaf(JsVal::Bytes { id: Some(3), bytes: vec![1] }), Ok(RubyLeaf::Binary(b)) if b == vec![1]));
}

#[test]
fn an_invalid_date_is_an_error() {
    let ms = 1_700_000_000_123.5f64.to_bits();
    assert!(matches!(ruby_leaf(JsVal::Date(ms)), Ok(RubyLeaf::Time(b)) if b == ms));
    assert!(matches!(ruby_leaf(JsVal::Date((-0.0f64).to_bits())), Ok(RubyLeaf::Time(_))));
    for bad in [f64::NAN, f64::INFINITY, f64::NEG_INFINITY] {
        let e = ruby_leaf(JsVal::Date(bad.to_bits())).unwrap_err();
        assert_eq!(e.class, RubyClass::RangeError);
        assert_eq!(e.message, "invalid Date");
    }
}

#[test]
fn a_code_cache_must_be_binary() {
    assert_eq!(binary_bytes(None).unwrap(), None);
    assert_eq!(binary_bytes(Some(("ASCII-8BIT".to_string(), vec![1, 2]))).unwrap(), Some(vec![1, 2]));
    let e = binary_bytes(Some(("UTF-8".to_string(), vec![1]))).unwrap_err();
    assert_eq!(e.class, RubyClass::EncodingError);
    assert_eq!(e.message, "cached_data must be ASCII-8BIT (binary), got UTF-8");
}

#[test]
fn unsupported_types_are_named() {
    let e = unsupported_type();
    assert_eq!((e.class, e.message.as_str()), (RubyClass::TypeError, "unsupported type crossing into JS"));
}

#[test]
fn failures_have_their_classes() {
    let e = vm_err(VmError::Parse("bad".to_string()));
    assert_eq!((e.class, e.message.as_str()), (RubyClass::ParseError, "bad"));
    assert!(e.backtrace.is_none());
    let e = vm_err(VmError::Runtime("worse".to_string()));
    assert_eq!((e.class, e.message.as_str()), (RubyClass::RuntimeError, "worse"));
    assert!(e.backtrace.is_none());
    let e = vm_err(VmError::JsError { message: "Error: boom".to_string(), backtrace: vec![] });
    assert_eq!((e.class, e.message.as_str()), (RubyClass::RuntimeError, "Error: boom"));
    assert_eq!(e.backtrace, Some(vec![]));
    let e = vm_err(VmError::Terminated);
    assert_eq!(e.class, RubyClass::ScriptTerminatedError);
    assert_eq!(e.message, "JavaScript was terminated (timeout or stop)");
}

#[test]
fn classes_are_found_by_name() {
    assert_eq!(err_class(RubyClass::SnapshotError), (true, "SnapshotError"));
    assert_eq!(err_class(RubyClass::StandardRuntimeError), (false, "RuntimeError"));
    assert_eq!(err_class(RubyClass::RuntimeError), (true, "RuntimeError"));
    assert_eq!(err_class(RubyClass::EncodingError), (false, "EncodingError"));
}

#[test]
fn integers_are_doubles_and_back() {
    let limit = 1i64 << 53;
    for n in [0, 1, -1, 2, 3, 1001, -1001, 1 << 52, (1 << 52) + 1, limit - 1, 1 - limit, 8_640_000_000_000_000] {
        assert_eq!(exact_double(n), (n as f64).to_bits());
        assert_eq!(whole_double((n as f64).to_bits()), Some(n));
    }
    assert_eq!(whole_double((-0.0f64).to_bits()), Some(0));
    for d in [0.5, -1.5, 1e-300, 5e-324, 9007199254740992.0, 1e300, f64::INFINITY, f64::NAN] {
        assert_eq!(whole_double(d.to_bits()), None);
    }
}

fn date_of(seconds: i64, nanoseconds: u32) -> Option<f64> {
    time_to_jsval(seconds, nanoseconds).map(|v| match v {
        JsVal::Date(bits) => f64::from_bits(bits),
        other => panic!("{other:?}"),
    })
}

#[test]
fn times_are_dates_to_the_millisecond() {
    assert_eq!(date_of(1, 1_000_000), Some(1001.0));
    assert_eq!(date_of(0, 0), Some(0.0));
    assert_eq!(date_of(-1, 999_000_000), Some(-1.0));
    assert_eq!(date_of(-2, 0), Some(-2000.0));
    assert_eq!(date_of(8_640_000_000_000, 0), Some(8.64e15));
    assert_eq!(date_of(1, 1), None);
    assert_eq!(date_of(i64::MAX, 0), None);
    assert_eq!(date_of(i64::MIN, 0), None);
    let time = |ms: f64| time_of_date(ms.to_bits());
    assert_eq!(time(1001.0), Some((1, 1_000_000)));
    assert_eq!(time(-1.0), Some((-1, 999_000_000)));
    assert_eq!(time(-2000.0), Some((-2, 0)));
    assert_eq!(time(0.5), None);
    assert_eq!(time(f64::NAN), None);
    for ms in [0.0, 999.0, 1000.0, -999.0, -1001.0, 1718000000123.0, -8.64e15] {
        let (s, n) = time(ms).unwrap();
        assert_eq!(date_of(s, n), Some(ms));
    }
}
