use rusty_racer::classify::{
    big_integer, container_kind, small_integer, string_to_jsval, HashKey, RubyLeaf, RubyTest,
    StringStep, StringTag,
};
use rusty_racer::construct::{jsval_to_js, BuildOp};
use rusty_racer::errors::RubyClass;
use rusty_racer::marshal::{Answer, Ask, Marshaller, Tracking, MAX_MARSHAL_DEPTH};
use rusty_racer::to_ruby::{jsval_to_ruby, RubyOp};
use rusty_racer::value::{JsVal, Kind};

/// An object of a small engine: handles are positions.
enum Obj {
    Leaf(JsVal),
    Bytes(Vec<u8>),
    Node { kind: Kind, keys: Vec<String>, kids: Vec<u64> },
    Closed(String),
}

struct Engine {
    objects: Vec<Obj>,
    /// What identity keys are taken modulo, so that they collide.
    hashes: u64,
}

fn copy_leaf(v: &JsVal) -> JsVal {
    match v {
        JsVal::Undefined => JsVal::Undefined,
        JsVal::Null => JsVal::Null,
        JsVal::Bool(b) => JsVal::Bool(*b),
        JsVal::Int(i) => JsVal::Int(*i),
        JsVal::Num(n) => JsVal::Num(*n),
        JsVal::Str(s) => JsVal::Str(s.clone()),
        JsVal::Date(d) => JsVal::Date(*d),
        JsVal::BigInt { negative, words } => JsVal::BigInt { negative: *negative, words: words.clone() },
        _ => unreachable!(),
    }
}

impl Engine {
    fn walk(&self, tracking: Tracking, depth: usize, root: u64) -> JsVal {
        let (mut m, mut ask) = Marshaller::start(tracking, depth, root);
        loop {
            let answer = match ask {
                Ask::Done(v) => return v,
                Ask::Look(h) => match &self.objects[h as usize] {
                    Obj::Leaf(v) => Answer::Leaf(copy_leaf(v)),
                    Obj::Bytes(_) => Answer::Buffer(h % self.hashes),
                    Obj::Node { kind, .. } => Answer::Container { kind: *kind, key: h % self.hashes },
                    Obj::Closed(_) => Answer::Container { kind: Kind::Obj, key: h % self.hashes },
                },
                Ask::Match { handle, candidates } => {
                    Answer::Matched(candidates.iter().position(|c| *c == handle))
                }
                Ask::Describe(h) => Answer::Text(match &self.objects[h as usize] {
                    Obj::Closed(t) => t.clone(),
                    _ => format!("object {h}"),
                }),
                Ask::Copy(h) => match &self.objects[h as usize] {
                    Obj::Bytes(b) => Answer::Copied(b.clone()),
                    _ => unreachable!(),
                },
                Ask::Open(h) => match &self.objects[h as usize] {
                    Obj::Node { kids, .. } => Answer::Opened(Some(kids.len())),
                    _ => Answer::Opened(None),
                },
                Ask::Child { handle, index } => match &self.objects[handle as usize] {
                    Obj::Node { kind, keys, kids } => Answer::Child {
                        key: if *kind == Kind::Obj { keys[index].clone() } else { String::new() },
                        handle: kids[index],
                    },
                    _ => unreachable!(),
                },
            };
            ask = m.step(answer);
        }
    }

    fn build(val: JsVal, hashes: u64) -> (Engine, u64) {
        let (ops, root) = jsval_to_js(val);
        let mut objects: Vec<Obj> = Vec::new();
        let mut names: Vec<String> = Vec::new();
        for op in ops {
            let mut name = String::new();
            let made = match op {
                BuildOp::Leaf(JsVal::Bytes { bytes, .. }) => Obj::Bytes(bytes),
                BuildOp::Leaf(v) => Obj::Leaf(v),
                BuildOp::New { kind, .. } => Obj::Node { kind, keys: vec![], kids: vec![] },
                BuildOp::Key { text, .. } => {
                    name = text;
                    Obj::Leaf(JsVal::Undefined)
                }
                BuildOp::SetIndex { target, index, value } => {
                    if let Obj::Node { kids, .. } = &mut objects[target] {
                        assert_eq!(kids.len(), index);
                        kids.push(value as u64);
                    }
                    Obj::Leaf(JsVal::Undefined)
                }
                BuildOp::SetAdd { target, value } => {
                    if let Obj::Node { kids, .. } = &mut objects[target] {
                        kids.push(value as u64);
                    }
                    Obj::Leaf(JsVal::Undefined)
                }
                BuildOp::MapSet { target, key, value } => {
                    if let Obj::Node { kids, .. } = &mut objects[target] {
                        kids.push(key as u64);
                        kids.push(value as u64);
                    }
                    Obj::Leaf(JsVal::Undefined)
                }
                BuildOp::SetKey { target, key, value } => {
                    let text = names[key].clone();
                    if let Obj::Node { keys, kids, .. } = &mut objects[target] {
                        keys.push(text);
                        kids.push(value as u64);
                    }
                    Obj::Leaf(JsVal::Undefined)
                }
            };
            objects.push(made);
            names.push(name);
        }
        (Engine { objects, hashes }, root as u64)
    }
}

fn show(v: &JsVal) -> String {
    format!("{v:?}")
}

fn arr(kids: Vec<u64>) -> Obj {
    Obj::Node { kind: Kind::Array, keys: vec![], kids }
}

#[test]
fn a_shared_child_is_a_reference() {
    // [x, x] with x = [1]
    let e = Engine { objects: vec![arr(vec![1, 1]), arr(vec![2]), Obj::Leaf(JsVal::Int(1))], hashes: 7 };
    let v = e.walk(Tracking::ByHash, MAX_MARSHAL_DEPTH, 0);
    assert_eq!(show(&v), "Array { id: 0, items: [Array { id: 1, items: [Int(1)] }, Ref(1)] }");
}

#[test]
fn a_cycle_is_a_reference_to_an_ancestor() {
    let e = Engine {
        objects: vec![
            Obj::Node { kind: Kind::Obj, keys: vec!["me".to_string(), "n".to_string()], kids: vec![0, 1] },
            Obj::Leaf(JsVal::Null),
        ],
        hashes: 1,
    };
    for tracking in [Tracking::ByHash, Tracking::Exact] {
        let v = e.walk(tracking, MAX_MARSHAL_DEPTH, 0);
        assert_eq!(show(&v), "Obj { id: 0, entries: [(\"me\", Ref(0)), (\"n\", Null)] }");
    }
}

#[test]
fn colliding_hashes_are_told_apart() {
    let e = Engine { objects: vec![arr(vec![1, 2, 1]), arr(vec![]), arr(vec![])], hashes: 1 };
    let v = e.walk(Tracking::ByHash, MAX_MARSHAL_DEPTH, 0);
    assert_eq!(
        show(&v),
        "Array { id: 0, items: [Array { id: 1, items: [] }, Array { id: 2, items: [] }, Ref(1)] }"
    );
}

#[test]
fn what_lies_too_deep_is_text_without_an_id() {
    // 0 -> 1 -> 2, and 1 again beside it
    let e = Engine { objects: vec![arr(vec![1, 2]), arr(vec![2]), arr(vec![])], hashes: 9 };
    let v = e.walk(Tracking::ByHash, 1, 0);
    assert_eq!(show(&v), "Array { id: 0, items: [Str(\"object 1\"), Str(\"object 2\")] }");
    let v = e.walk(Tracking::ByHash, 2, 0);
    assert_eq!(
        show(&v),
        "Array { id: 0, items: [Array { id: 1, items: [Str(\"object 2\")] }, Array { id: 2, items: [] }] }"
    );
}

#[test]
fn bytes_stay_bytes_however_deep() {
    let e = Engine { objects: vec![arr(vec![1, 1]), Obj::Bytes(vec![9, 8])], hashes: 5 };
    let v = e.walk(Tracking::ByHash, 1, 0);
    assert_eq!(show(&v), "Array { id: 0, items: [Bytes { id: Some(1), bytes: [9, 8] }, Ref(1)] }");
}

#[test]
fn an_object_that_does_not_open_is_text() {
    let e = Engine { objects: vec![Obj::Closed("proxy".to_string())], hashes: 5 };
    assert_eq!(show(&e.walk(Tracking::ByHash, 4, 0)), "Str(\"proxy\")");
}

#[test]
fn an_object_that_does_not_open_has_no_id() {
    let e = Engine {
        objects: vec![
            arr(vec![1, 1, 2, 1, 2]),
            Obj::Closed("proxy".to_string()),
            arr(vec![1]),
        ],
        hashes: 7,
    };
    for tracking in [Tracking::ByHash, Tracking::Exact] {
        assert_eq!(
            show(&e.walk(tracking, 4, 0)),
            "Array { id: 0, items: [Str(\"proxy\"), Str(\"proxy\"), \
             Array { id: 1, items: [Str(\"proxy\")] }, Str(\"proxy\"), Ref(1)] }"
        );
    }
}

#[test]
fn without_tracking_there_are_no_references() {
    let e = Engine { objects: vec![arr(vec![1, 1]), arr(vec![])], hashes: 5 };
    let v = e.walk(Tracking::Off, 64, 0);
    assert_eq!(
        show(&v),
        "Array { id: 0, items: [Array { id: 0, items: [] }, Array { id: 0, items: [] }] }"
    );
}

fn sample() -> JsVal {
    JsVal::Array {
        id: 0,
        items: vec![
            JsVal::Obj {
                id: 1,
                entries: vec![
                    ("a".to_string(), JsVal::Int(1)),
                    ("b".to_string(), JsVal::Ref(0)),
                    ("c".to_string(), JsVal::Bytes { id: Some(2), bytes: vec![1, 2, 3] }),
                ],
            },
            JsVal::JsMap {
                id: 3,
                pairs: vec![(JsVal::Str("k".to_string()), JsVal::Ref(1)), (JsVal::Ref(2), JsVal::Null)],
            },
            JsVal::JsSet { id: 4, items: vec![JsVal::Ref(4), JsVal::Bool(true)] },
            JsVal::BigInt { negative: true, words: vec![5] },
            JsVal::Date(0),
        ],
    }
}

#[test]
fn a_built_value_reads_back() {
    for hashes in [1, 3, 1000] {
        let (e, root) = Engine::build(sample(), hashes);
        let v = e.walk(Tracking::ByHash, MAX_MARSHAL_DEPTH, root);
        assert_eq!(show(&v), show(&sample()));
    }
    let (e, root) = Engine::build(sample(), 1_000_000);
    assert_eq!(show(&e.walk(Tracking::Exact, MAX_MARSHAL_DEPTH, root)), show(&sample()));
}

#[test]
fn a_copy_of_a_walked_graph_has_its_value() {
    let e = Engine {
        objects: vec![arr(vec![1, 2, 1]), arr(vec![0]), Obj::Bytes(vec![4])],
        hashes: 2,
    };
    let v = e.walk(Tracking::ByHash, MAX_MARSHAL_DEPTH, 0);
    let shown = show(&v);
    let (copy, root) = Engine::build(v, 2);
    assert_eq!(show(&copy.walk(Tracking::ByHash, MAX_MARSHAL_DEPTH, root)), shown);
}

#[test]
fn the_plan_of_an_object_can_pass_over_a_key() {
    let v = JsVal::Obj {
        id: 0,
        entries: vec![("k".to_string(), JsVal::Array { id: 1, items: vec![JsVal::Int(7)] })],
    };
    let (ops, root) = jsval_to_js(v);
    assert_eq!(root, 0);
    assert_eq!(
        format!("{ops:?}"),
        "[New { kind: Obj, len: 0 }, Key { text: \"k\", skip: 4 }, New { kind: Array, len: 1 }, \
         Leaf(Int(7)), SetIndex { target: 2, index: 0, value: 3 }, \
         SetKey { target: 0, key: 1, value: 2 }]"
    );
}

#[test]
fn a_reference_to_nothing_is_undefined() {
    let (ops, root) = jsval_to_js(JsVal::Ref(5));
    assert_eq!(root, 0);
    assert_eq!(format!("{ops:?}"), "[Leaf(Undefined)]");
}

fn invalid_date(v: JsVal) -> bool {
    match jsval_to_ruby(v) {
        Ok(_) => false,
        Err(e) => {
            assert_eq!((e.class, e.message.as_str()), (RubyClass::RangeError, "invalid Date"));
            true
        }
    }
}

#[test]
fn an_invalid_date_anywhere_fails_the_conversion() {
    let nan = || JsVal::Date(f64::NAN.to_bits());
    let fine = || JsVal::Date(1500.0f64.to_bits());
    assert!(invalid_date(nan()));
    assert!(invalid_date(JsVal::Date(f64::INFINITY.to_bits())));
    assert!(!invalid_date(fine()));
    assert!(!invalid_date(JsVal::Num(f64::NAN.to_bits())));
    assert!(invalid_date(JsVal::Array { id: 0, items: vec![JsVal::Int(1), nan()] }));
    assert!(!invalid_date(JsVal::Array { id: 0, items: vec![JsVal::Int(1), fine()] }));
    assert!(invalid_date(JsVal::JsMap { id: 0, pairs: vec![(nan(), JsVal::Null)] }));
    assert!(invalid_date(JsVal::JsMap { id: 0, pairs: vec![(JsVal::Null, nan())] }));
    assert!(invalid_date(JsVal::Array {
        id: 0,
        items: vec![JsVal::Obj {
            id: 1,
            entries: vec![("d".to_string(), JsVal::JsSet { id: 2, items: vec![nan()] })],
        }],
    }));
}

#[test]
fn a_ruby_value_is_made_step_by_step() {
    let v = JsVal::Array {
        id: 0,
        items: vec![
            JsVal::Obj { id: 1, entries: vec![("k".to_string(), JsVal::Undefined)] },
            JsVal::JsMap { id: 2, pairs: vec![(JsVal::Int(1), JsVal::Str("a".to_string()))] },
            JsVal::JsSet { id: 3, items: vec![JsVal::Ref(1)] },
        ],
    };
    let (ops, root) = jsval_to_ruby(v).unwrap();
    assert_eq!(root, 0);
    assert_eq!(
        format!("{ops:?}"),
        "[New { kind: Array, from_map: false }, \
         New { kind: Obj, from_map: false }, Key { text: \"k\" }, Leaf(Nil), Store { target: 1, key: 2, value: 3 }, \
         Push { target: 0, value: 1 }, \
         New { kind: JsMap, from_map: true }, Leaf(Integer(1)), Leaf(Text(\"a\")), \
         Store { target: 6, key: 7, value: 8 }, Push { target: 0, value: 6 }, \
         New { kind: JsSet, from_map: false }, Add { target: 11, value: 1 }, Push { target: 0, value: 11 }]"
    );
}

#[test]
fn a_hash_with_other_keys_is_a_map() {
    let hash = RubyTest::ConvertsToHash;
    assert_eq!(container_kind(hash, &vec![], false), Some(Kind::Obj));
    assert_eq!(container_kind(hash, &vec![HashKey::Text, HashKey::Symbol], false), Some(Kind::Obj));
    assert_eq!(container_kind(hash, &vec![HashKey::Other], false), Some(Kind::JsMap));
    assert_eq!(container_kind(hash, &vec![HashKey::Text, HashKey::Other], false), Some(Kind::JsMap));
    assert_eq!(container_kind(RubyTest::ConvertsToArray, &vec![HashKey::Other], false), Some(Kind::Array));
    assert_eq!(container_kind(RubyTest::IsSet, &vec![], false), Some(Kind::JsSet));
    assert_eq!(container_kind(RubyTest::IsString, &vec![HashKey::Other], true), None);
}

#[test]
fn a_map_goes_back_as_a_map_whatever_its_keys() {
    let hash = RubyTest::ConvertsToHash;
    let mark = |v: JsVal| match jsval_to_ruby(v).unwrap().0[0] {
        RubyOp::New { from_map, .. } => from_map,
        _ => unreachable!(),
    };
    let map = mark(JsVal::JsMap { id: 0, pairs: vec![] });
    for keys in [vec![], vec![HashKey::Text], vec![HashKey::Text, HashKey::Other]] {
        assert_eq!(container_kind(hash, &keys, map), Some(Kind::JsMap));
    }
    let object = mark(JsVal::Obj { id: 0, entries: vec![] });
    for keys in [vec![], vec![HashKey::Text, HashKey::Text]] {
        assert_eq!(container_kind(hash, &keys, object), Some(Kind::Obj));
    }
    assert!(!mark(JsVal::Array { id: 0, items: vec![] }));
    assert!(!mark(JsVal::JsSet { id: 0, items: vec![] }));
}

/// The one leaf that a value is in Ruby.
fn leaf(v: JsVal) -> RubyLeaf {
    let (mut ops, root) = jsval_to_ruby(v).unwrap();
    assert_eq!((ops.len(), root), (1, 0));
    match ops.pop() {
        Some(RubyOp::Leaf(l)) => l,
        other => panic!("{other:?}"),
    }
}

#[test]
fn ruby_values_come_back() {
    for i in [0, 1, -1, 1 << 53, -(1 << 53)] {
        assert!(matches!(leaf(small_integer(i).unwrap()), RubyLeaf::Integer(j) if j == i));
    }
    for hex in ["20000000000001", "7fffffffffffffffffffffffffffffff", "10000000000000000"] {
        for sign in [false, true] {
            match leaf(big_integer(sign, hex)) {
                RubyLeaf::BigInteger { negative, hex: h } => assert_eq!((negative, h.as_str()), (sign, hex)),
                other => panic!("{other:?}"),
            }
        }
    }
    match string_to_jsval(StringTag::Utf8, "h\u{e9}".as_bytes().to_vec()) {
        StringStep::Value(v) => assert!(matches!(leaf(v), RubyLeaf::Text(t) if t == "h\u{e9}")),
        other => panic!("{other:?}"),
    }
    match string_to_jsval(StringTag::Binary, vec![0xff, 0]) {
        StringStep::Value(v) => assert!(matches!(leaf(v), RubyLeaf::Binary(b) if b == [0xff, 0])),
        other => panic!("{other:?}"),
    }
    assert!(matches!(leaf(JsVal::Null), RubyLeaf::Nil));
    assert!(matches!(leaf(JsVal::Bool(true)), RubyLeaf::Bool(true)));
}
