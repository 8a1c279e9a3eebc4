use rusty_racer::channel::{
    callback_step, dispose, eval_route, marshal_batch, pump_step, sent, CallbackAction,
    CallbackAnswer, Element, Message, PumpAction, Route, ThreadAction, ThreadRequest,
    ThreadService,
};
use rusty_racer::failures::Thrown;
use rusty_racer::graph_load::{Entry, GraphLoad, LoadAction, LoadEvent, UnitCompiled};
use rusty_racer::imports::{
    dependency, dynamic_import, imported_module, resolve_imported, resolve_module_via_ruby,
    stamped_realm, Ask, Attempt, DynamicImport, ImportAction, ImportEvent, ImportStart, Resolved,
};
use rusty_racer::json::{call_source, is_json, json_quote, jsval_to_json, Piece};
use rusty_racer::loader::Registry;
use rusty_racer::paths::{AttachAction, AttachEvent, AttachPaths, CallAction, CallEvent, CallPath};
use rusty_racer::registry::IsolateState;
use rusty_racer::service::ModuleStatus;
use rusty_racer::stack_limit::{
    align_down, is_native, moves_scan_start, query_region_bounds, v8_stack_limit, Probe,
    RegionCache, ScanProbe, BLIND_GUARD, FIBER_HEADROOM, FIBER_RESERVE, NATIVE_GUARD,
};
use rusty_racer::text::{lines_of, split_on};
use rusty_racer::value::{JsVal, VmError};

fn show<T: std::fmt::Debug>(t: &T) -> String {
    format!("{t:?}")
}

#[test]
fn texts_are_split() {
    assert_eq!(split_on("a.b..c", '.'), ["a", "b", "", "c"]);
    assert_eq!(split_on("", '.'), [""]);
    assert_eq!(lines_of("a\r\nb\n\nc"), ["a", "b", "", "c"]);
    assert!(lines_of("").is_empty());
}

#[test]
fn a_dotted_path_is_read_part_by_part() {
    let (mut c, a) = CallPath::start("app.run", false);
    assert_eq!(show(&a), "Read(\"app\")");
    assert_eq!(show(&c.step(CallEvent::Read)), "Read(\"run\")");
    assert_eq!(show(&c.step(CallEvent::Read)), "Call { read_result: true }");
    assert_eq!(show(&c.step(CallEvent::Returned(JsVal::Int(4)))), "Done(Ok(Int(4)))");
}

#[test]
fn a_void_call_reads_no_result() {
    let (mut c, _) = CallPath::start("f", true);
    assert_eq!(show(&c.step(CallEvent::Read)), "Call { read_result: false }");
    assert_eq!(show(&c.step(CallEvent::Returned(JsVal::Int(4)))), "Done(Ok(Undefined))");
}

#[test]
fn a_call_fails_where_the_path_breaks() {
    let fails = |e: CallEvent| {
        let (mut c, _) = CallPath::start("a.b", false);
        c.step(CallEvent::Read);
        match c.step(e) {
            CallAction::Done(Err(VmError::Runtime(m))) => m,
            other => panic!("{other:?}"),
        }
    };
    assert_eq!(
        fails(CallEvent::NotObject),
        "`a.b`: cannot read `b` (a preceding path segment is not an object)"
    );
    assert_eq!(fails(CallEvent::KeyTooLarge), "property name too large");
    assert_eq!(
        fails(CallEvent::Unreadable { terminated: false, exception: None }),
        "cannot read `b` of `a.b`"
    );
    assert_eq!(
        fails(CallEvent::Unreadable { terminated: false, exception: Some("E".to_string()) }),
        "E"
    );
    let (mut c, _) = CallPath::start("a", false);
    c.step(CallEvent::Read);
    assert_eq!(show(&c.step(CallEvent::NotFunction)), "Done(Err(Runtime(\"`a` is not a function\")))");
    let (mut c, _) = CallPath::start("a", false);
    c.step(CallEvent::Read);
    let thrown = Thrown { exception: None, own_stack: None, recorded_stack: None };
    assert_eq!(show(&c.step(CallEvent::Failed { terminated: true, thrown })), "Done(Err(Terminated))");
}

fn names(n: &[&str]) -> Vec<String> {
    n.iter().map(|s| s.to_string()).collect()
}

#[test]
fn attaching_makes_what_is_on_the_way() {
    let (mut p, a) = AttachPaths::start(names(&["a.b.f", "g"]), true);
    assert_eq!(show(&a), "Build(0)");
    let mut trace = Vec::new();
    loop {
        let a = p.step(AttachEvent::Ready);
        trace.push(show(&a));
        if matches!(a, AttachAction::Done(_)) {
            break;
        }
    }
    assert_eq!(
        trace,
        ["Enter(\"a\")", "Enter(\"b\")", "Store(\"f\")", "Build(1)", "Store(\"g\")", "Done(Ok(Undefined))"]
    );
}

#[test]
fn attaching_fails_by_name() {
    let fails = |name: &str, many: bool, steps: usize, e: AttachEvent| {
        let (mut p, mut a) = AttachPaths::start(names(&[name]), many);
        for _ in 0..steps {
            a = p.step(AttachEvent::Ready);
        }
        if !matches!(a, AttachAction::Done(_)) {
            a = p.step(e);
        }
        match a {
            AttachAction::Done(Err(VmError::Runtime(m))) => m,
            other => panic!("{other:?}"),
        }
    };
    assert_eq!(fails("a.f", false, 0, AttachEvent::Refused), "failed to build function");
    assert_eq!(fails("a.f", true, 0, AttachEvent::Refused), "failed to build function for `a.f`");
    assert_eq!(fails("a.f", true, 1, AttachEvent::Occupied), "`a.f`: `a` exists and is not an object");
    assert_eq!(fails("a.f", true, 1, AttachEvent::Refused), "`a.f`: cannot create `a`");
    assert_eq!(fails("a.f", true, 2, AttachEvent::Refused), "`a.f`: target is not writable/extensible");
    assert_eq!(fails("a.f", true, 2, AttachEvent::KeyTooLarge), "name too large");
    assert_eq!(fails("a.", true, 1, AttachEvent::Ready), "invalid attach name `a.`");
    assert_eq!(fails(".f", true, 1, AttachEvent::Ready), "invalid attach name `.f`");
    assert_eq!(fails("", true, 1, AttachEvent::Ready), "invalid attach name ``");
}

fn loaded() -> IsolateState<u8, char, char, u8> {
    let mut s = IsolateState::new(None, true);
    s.set_main(1);
    s.add_module(11, 'm', "m.js".to_string(), 0);
    s
}

#[test]
fn a_resolver_answers_with_a_module_or_nil() {
    assert_eq!(resolve_module_via_ruby(Resolved::Nil).unwrap(), None);
    let module = |same_isolate, disposed| Resolved::Module { id: 3, same_isolate, disposed };
    assert_eq!(resolve_module_via_ruby(module(true, false)).unwrap(), Some(3));
    assert_eq!(resolve_module_via_ruby(module(true, true)).unwrap(), None);
    assert_eq!(
        resolve_module_via_ruby(module(false, false)).unwrap_err().message,
        "module resolver returned a Module from a different Context"
    );
    assert_eq!(
        resolve_module_via_ruby(Resolved::Other).unwrap_err().message,
        "module resolver must return a RustyRacer::Module or nil"
    );
}

#[test]
fn the_block_is_asked_before_the_resolver() {
    assert_eq!(resolve_imported(true, true, true, true, Some(2)), Ask::Block);
    assert_eq!(resolve_imported(true, true, false, true, Some(2)), Ask::Resolver { realm: 2 });
    assert_eq!(resolve_imported(true, true, false, true, None), Ask::Resolver { realm: 0 });
    assert_eq!(resolve_imported(true, true, false, false, Some(2)), Ask::Nobody);
    assert_eq!(resolve_imported(false, true, true, true, Some(2)), Ask::Nobody);
    assert_eq!(resolve_imported(true, false, true, true, Some(2)), Ask::Nobody);
}

#[test]
fn imports_stay_in_their_realm() {
    let s = loaded();
    assert_eq!(dependency(&s, Some(0), Some(0)), Some(&'m'));
    assert_eq!(dependency(&s, Some(0), Some(1)), None);
    assert_eq!(dependency(&s, Some(0), None), None);
    assert_eq!(dependency(&s, None, Some(0)), None);
    assert_eq!(imported_module(&s, None, Some(0)).unwrap_err(), "import() was not resolved to a module");
    assert_eq!(imported_module(&s, Some(0), Some(1)).unwrap_err(), "resolved module not found");
    assert_eq!(imported_module(&s, Some(0), Some(0)), Ok(&'m'));
    assert_eq!(stamped_realm(&s, Some(0)), Some((0, &1)));
    assert_eq!(stamped_realm(&s, Some(5)), None);
    assert_eq!(stamped_realm(&s, None), None);
}

#[test]
fn a_dynamic_import_needs_a_resolver() {
    assert!(matches!(dynamic_import(false, true, None), ImportStart::Reject(m) if m == "dynamic import has no owner"));
    assert!(matches!(dynamic_import(true, false, None), ImportStart::Reject(m) if m == "import() was not resolved to a module"));
    assert!(matches!(dynamic_import(true, true, Some(4)), ImportStart::Ask { realm: 4 }));
    assert!(matches!(dynamic_import(true, true, None), ImportStart::Ask { realm: 0 }));
}

#[test]
fn a_dynamic_import_links_evaluates_and_chains() {
    let mut s = loaded();
    let (mut d, a) = DynamicImport::start();
    assert_eq!(show(&a), "AskStatus");
    let status = ImportEvent::Status;
    assert_eq!(show(&d.step(&mut s, status(ModuleStatus::Uninstantiated))), "Link");
    assert_eq!(show(&d.step(&mut s, ImportEvent::Linked(Attempt::Done))), "AskStatus");
    assert_eq!(show(&d.step(&mut s, status(ModuleStatus::Instantiated))), "Evaluate");
    let ran = ImportEvent::Evaluated { attempt: Attempt::Done, promise: true };
    assert_eq!(show(&d.step(&mut s, ran)), "Chain");
    assert_eq!(show(&d.step(&mut s, ImportEvent::Chained(Attempt::Done))), "Settled");
}

#[test]
fn a_dynamic_import_does_not_link_while_another_does() {
    let mut s = loaded();
    let (mut outer, _) = DynamicImport::start();
    outer.step(&mut s, ImportEvent::Status(ModuleStatus::Uninstantiated));
    let (mut inner, _) = DynamicImport::start();
    match inner.step(&mut s, ImportEvent::Status(ModuleStatus::Uninstantiated)) {
        ImportAction::Reject(m) => {
            assert_eq!(m, "cannot link a dynamic import while another module is instantiating");
        }
        other => panic!("{other:?}"),
    }
    // Terminating leaves the import alone and frees the way.
    assert_eq!(show(&outer.step(&mut s, ImportEvent::Linked(Attempt::Terminated))), "Leave");
    let (mut next, _) = DynamicImport::start();
    assert_eq!(show(&next.step(&mut s, ImportEvent::Status(ModuleStatus::Uninstantiated))), "Link");
}

#[test]
fn a_dynamic_import_is_rejected() {
    let reject = |first: ModuleStatus, events: &[ImportEvent]| {
        let mut s = loaded();
        let (mut d, _) = DynamicImport::start();
        let mut a = d.step(&mut s, ImportEvent::Status(first));
        for e in events {
            a = d.step(&mut s, *e);
        }
        show(&a)
    };
    let done = |attempt, promise| ImportEvent::Evaluated { attempt, promise };
    assert_eq!(reject(ModuleStatus::Errored, &[]), "RejectErrored");
    assert_eq!(
        reject(ModuleStatus::Evaluating, &[]),
        "Reject(\"dynamically imported module is busy (instantiating/evaluating)\")"
    );
    assert_eq!(
        reject(ModuleStatus::Uninstantiated, &[ImportEvent::Linked(Attempt::Failed)]),
        "Reject(\"failed to link dynamically imported module\")"
    );
    assert_eq!(
        reject(ModuleStatus::Uninstantiated, &[ImportEvent::Linked(Attempt::Thrown)]),
        "RejectThrown"
    );
    assert_eq!(
        reject(ModuleStatus::Evaluated, &[done(Attempt::Done, false)]),
        "Reject(\"module evaluation did not yield a promise\")"
    );
    assert_eq!(
        reject(ModuleStatus::Evaluated, &[done(Attempt::Failed, false)]),
        "Reject(\"dynamically imported module failed to evaluate\")"
    );
    assert_eq!(
        reject(ModuleStatus::Evaluated, &[done(Attempt::Done, true), ImportEvent::Chained(Attempt::Failed)]),
        "Reject(\"failed to settle dynamic import\")"
    );
}

/// Loads a graph over a table of URLs, each with its imports. A specifier is the
/// URL itself, and one that is not in the table leads nowhere.
fn load(
    table: &[(&str, &[&str])],
    registry: &mut Registry<String>,
    strict: bool,
    entry: &str,
) -> (Result<Vec<String>, VmError>, Vec<String>) {
    let find = |url: &str| table.iter().find(|t| t.0 == url);
    let mut fetches = Vec::new();
    let (mut l, mut a) = GraphLoad::start(entry.to_string(), strict, registry);
    loop {
        let e = match a {
            LoadAction::Done(r) => return (r, fetches),
            LoadAction::Fetch(urls) => {
                fetches.extend(urls.iter().cloned());
                LoadEvent::Fetched(Some(urls.iter().map(|u| find(u).map(|t| t.0.to_string())).collect()))
            }
            LoadAction::Compile { url, source } => {
                assert_eq!(url, source);
                LoadEvent::Compiled(UnitCompiled::Done {
                    hash: 5,
                    handle: url.clone(),
                    imports: find(&url).unwrap().1.iter().map(|s| s.to_string()).collect(),
                })
            }
            LoadAction::Resolve(edges) => LoadEvent::Resolved(Some(
                edges.iter().map(|e| if e.0.starts_with('!') { None } else { Some(e.0.clone()) }).collect(),
            )),
            LoadAction::Link(_) => LoadEvent::Linked(Entry::Fulfilled),
        };
        a = l.step(registry, e);
    }
}

#[test]
fn a_graph_is_loaded_level_by_level() {
    let table: &[(&str, &[&str])] = &[("/a", &["/b", "/c"]), ("/b", &["/c", "/a"]), ("/c", &["/d"]), ("/d", &[])];
    for strict in [true, false] {
        let mut r = Registry::new();
        let (got, fetches) = load(table, &mut r, strict, "/a");
        assert_eq!(got.unwrap(), ["/a", "/b", "/c", "/d"]);
        assert_eq!(fetches, ["/a", "/b", "/c", "/d"]);
        assert_eq!(r.bucket(5), vec![0, 1, 2, 3]);
        assert_eq!(r.resolve_module(1, &"/c".to_string()), Some(&"/c".to_string()));
        assert_eq!(r.resolve_module(2, &"/a".to_string()), None);
        assert_eq!(r.handle(4), None);
    }
}

#[test]
fn what_is_loaded_is_not_fetched_again() {
    let table: &[(&str, &[&str])] = &[("/a", &["/b"]), ("/b", &[]), ("/x", &["/b"])];
    let mut r = Registry::new();
    load(table, &mut r, false, "/a").0.unwrap();
    let (got, fetches) = load(table, &mut r, false, "/x");
    assert_eq!(got.unwrap(), ["/x"]);
    assert_eq!(fetches, ["/x"]);
    let (got, fetches) = load(table, &mut r, false, "/a");
    assert!(got.unwrap().is_empty());
    assert!(fetches.is_empty());
    assert!(r.contains(&"/b".to_string()));
    r.clear();
    assert!(r.get(&"/b".to_string()).is_none());
}

#[test]
fn a_strict_load_fails_on_what_is_missing() {
    let table: &[(&str, &[&str])] = &[("/a", &["/gone"]), ("/b", &["!x"])];
    let mut r = Registry::new();
    assert_eq!(show(&load(table, &mut r, true, "/a").0), "Err(Runtime(\"fetch failed: /gone\"))");
    assert_eq!(show(&load(table, &mut Registry::new(), true, "/b").0), "Err(Runtime(\"unresolvable: !x from /b\"))");
    // Another load leaves that to linking.
    assert_eq!(show(&load(table, &mut Registry::new(), false, "/a").0), "Ok([\"/a\"])");
    assert_eq!(show(&load(table, &mut Registry::new(), false, "/b").0), "Ok([\"/b\"])");
    assert_eq!(
        show(&load(table, &mut Registry::new(), false, "/none").0),
        "Err(Runtime(\"entry module not loaded: /none\"))"
    );
}

#[test]
fn a_load_ends_with_its_entry() {
    let end = |strict: bool, e: Entry| {
        let mut r: Registry<char> = Registry::new();
        r.register("/a".to_string(), 1, 'a');
        let (mut l, mut a) = GraphLoad::start("/a".to_string(), strict, &r);
        if strict {
            l.step(&mut r, LoadEvent::Fetched(Some(vec![Some(String::new())])));
            let unit = UnitCompiled::Done { hash: 1, handle: 'a', imports: vec![] };
            a = l.step(&mut r, LoadEvent::Compiled(unit));
        }
        assert_eq!(show(&a), "Link(\"/a\")");
        show(&l.step(&mut r, LoadEvent::Linked(e)))
    };
    assert_eq!(end(false, Entry::NotLinked), "Done(Err(Runtime(\"instantiate failed: /a\")))");
    assert_eq!(end(true, Entry::NotLinked), "Done(Err(Runtime(\"instantiate failed\")))");
    assert_eq!(end(false, Entry::NotEvaluated), "Done(Err(Runtime(\"module evaluation failed\")))");
    assert_eq!(end(true, Entry::NotEvaluated), "Done(Err(Runtime(\"evaluate failed\")))");
    assert_eq!(end(true, Entry::Plain), "Done(Err(Runtime(\"not a promise\")))");
    assert_eq!(end(false, Entry::Plain), "Done(Ok([]))");
    assert_eq!(end(false, Entry::Pending), "Done(Ok([]))");
    assert_eq!(end(true, Entry::Pending), "Done(Err(Runtime(\"module evaluation not fulfilled\")))");
    assert_eq!(end(false, Entry::Rejected("why".to_string())), "Done(Err(Runtime(\"why\")))");
    assert_eq!(end(true, Entry::Fulfilled), "Done(Ok([\"/a\"]))");
}

#[test]
fn a_load_fails_with_its_callbacks() {
    let mut r: Registry<char> = Registry::new();
    let (mut l, _) = GraphLoad::start("/a".to_string(), false, &r);
    assert_eq!(
        show(&l.step(&mut r, LoadEvent::Fetched(None))),
        "Done(Err(Runtime(\"fetch_batch callback failed\")))"
    );
    let step = |unit: UnitCompiled<char>| {
        let mut r: Registry<char> = Registry::new();
        let (mut l, _) = GraphLoad::start("/a".to_string(), false, &r);
        l.step(&mut r, LoadEvent::Fetched(Some(vec![Some("src".to_string())])));
        let a = l.step(&mut r, LoadEvent::Compiled(unit));
        (l, r, a)
    };
    assert_eq!(show(&step(UnitCompiled::Failed).2), "Done(Err(Parse(\"compile failed: /a\")))");
    assert_eq!(show(&step(UnitCompiled::TooLarge).2), "Done(Err(Runtime(\"source alloc\")))");
    let unit = UnitCompiled::Done { hash: 1, handle: 'a', imports: vec!["./b".to_string()] };
    let (mut l, mut r, a) = step(unit);
    assert_eq!(show(&a), "Resolve([(\"./b\", \"/a\")])");
    assert_eq!(
        show(&l.step(&mut r, LoadEvent::Resolved(None))),
        "Done(Err(Runtime(\"resolve callback failed\")))"
    );
}

fn text(pieces: &[Piece]) -> String {
    let mut out = String::new();
    for p in pieces {
        match p {
            Piece::Text(t) => out.push_str(t),
            Piece::Double(bits) => out.push_str(&format!("{}", f64::from_bits(*bits))),
        }
    }
    out
}

#[test]
fn text_is_quoted() {
    assert_eq!(json_quote("a\"b\\c\n\r\t\u{1}\u{e9}"), "\"a\\\"b\\\\c\\n\\r\\t\\u0001\u{e9}\"");
    assert_eq!(json_quote(""), "\"\"");
}

#[test]
fn values_are_written_as_json() {
    let v = JsVal::Obj {
        id: 0,
        entries: vec![
            ("a".to_string(), JsVal::Array { id: 1, items: vec![JsVal::Int(-1), JsVal::Null, JsVal::Bool(true)] }),
            ("b".to_string(), JsVal::Num(1.5f64.to_bits())),
            ("c".to_string(), JsVal::Num(f64::NAN.to_bits())),
            ("d".to_string(), JsVal::Undefined),
        ],
    };
    assert_eq!(text(&jsval_to_json(&v)), "{\"a\":[-1,null,true],\"b\":1.5,\"c\":null,\"d\":null}");
    assert_eq!(text(&call_source("f.g", &vec![JsVal::Int(1), JsVal::Str("x".to_string())])), "(f.g)(...[1,\"x\"])");
    assert_eq!(text(&call_source("f", &vec![])), "(f)(...[])");
}

#[test]
fn the_native_stack_has_a_fixed_limit() {
    let native = (0x10_0000, 0x90_0000);
    assert!(is_native(0x50_0000, native));
    assert_eq!(v8_stack_limit(0x50_0000, native, (0, 0)), Some(0x10_0000 + NATIVE_GUARD));
    assert_eq!(v8_stack_limit(0x8f_0000, native, (1, 2)), Some(0x10_0000 + NATIVE_GUARD));
    assert!(!moves_scan_start(0x50_0000, native, 1, 1));
}

#[test]
fn a_full_stack_keeps_its_limit_between_bottom_and_pointer() {
    let native = (0x10_0000, 0x90_0000);
    let bottom = native.0;
    // At the guard and below it there is no room for the guard.
    assert_eq!(
        v8_stack_limit(bottom + NATIVE_GUARD, native, (0, 0)),
        Some(bottom + NATIVE_GUARD - FIBER_HEADROOM)
    );
    assert_eq!(
        v8_stack_limit(bottom + NATIVE_GUARD + 1, native, (0, 0)),
        Some(bottom + NATIVE_GUARD)
    );
    assert_eq!(v8_stack_limit(bottom + 0x1000, native, (0, 0)), Some(bottom + 1));
    let region = (0xa0_0000, 0xb0_0000);
    assert_eq!(v8_stack_limit(region.0 + FIBER_HEADROOM, native, region), Some(region.0 + 1));
    assert_eq!(v8_stack_limit(region.0 + 0x100, native, region), Some(region.0 + 1));
    assert_eq!(v8_stack_limit(region.0 + 2, native, region), Some(region.0 + 1));
    for depth in [2, 3, 0x1fff, 0x2000, 0x2001, 0x1_2000, 0x2_0000, 0x2_0001, 0x8_0000] {
        let n = v8_stack_limit(bottom + depth, native, (0, 0)).unwrap();
        assert!(bottom < n && n < bottom + depth);
        let f = v8_stack_limit(region.0 + depth, native, region).unwrap();
        assert!(region.0 < f && f < region.0 + depth);
    }
    // A stack at the very end of the address space.
    let top = usize::MAX;
    assert_eq!(v8_stack_limit(top, (top - 10, top), (0, 0)), Some(top - 9));
}

#[test]
fn a_fiber_keeps_a_reserve_and_headroom() {
    let native = (0x10_0000, 0x90_0000);
    let region = (0xa0_0000, 0xb0_0000);
    assert_eq!(v8_stack_limit(0xaf_0000, native, region), Some(0xa0_0000 + FIBER_RESERVE));
    assert_eq!(v8_stack_limit(0xa0_4000, native, region), Some(0xa0_4000 - FIBER_HEADROOM));
    assert_eq!(v8_stack_limit(0xaf_0000, native, (0, 0)), Some(0xaf_0000 - BLIND_GUARD));
    assert!(moves_scan_start(0xaf_0000, native, 1, 1));
    assert!(!moves_scan_start(0xaf_0000, native, 0, 1));
    assert!(!moves_scan_start(0xaf_0000, native, 1, 0));
    assert_eq!(align_down(0x1007, 8), 0x1000);
}

#[test]
fn a_region_is_found_in_the_memory_map() {
    let maps = "00400000-00452000 r-xp 00000000 08:02 173521 /usr/bin/x\n\
                nonsense\n\
                7f00-zz rw-p\n\
                7fff0000-7fff8000 rw-p 00000000 00:00 0 [stack]\n";
    assert_eq!(query_region_bounds(maps, 0x7fff_1000), (0x7fff_0000, 0x7fff_8000));
    assert_eq!(query_region_bounds(maps, 0x40_0000), (0x40_0000, 0x45_2000));
    assert_eq!(query_region_bounds(maps, 0x45_2000), (0, 0));
    assert_eq!(query_region_bounds("", 5), (0, 0));
}

#[test]
fn the_last_region_is_kept() {
    let mut c = RegionCache::new();
    assert_eq!(c.get(5), None);
    c.put((4, 8));
    c.put((0, 0));
    assert_eq!(c.get(4), Some((4, 8)));
    assert_eq!(c.get(8), None);
}

#[test]
fn the_probe_is_certain_or_gives_up() {
    let probe = |values: &[usize]| {
        let mut p = ScanProbe::start();
        for v in values {
            p.step(*v);
        }
        p.probe
    };
    assert_eq!(probe(&[1, 0x500, 0x900, 0x900, 0x900]), Probe::Done(0x500));
    assert_eq!(probe(&[0]), Probe::Done(0));
    assert_eq!(probe(&[1, 0]), Probe::Done(0));
    assert_eq!(probe(&[1, 0x500, 0]), Probe::Done(0));
    assert_eq!(probe(&[1, 0x500, 0x900, 0x901]), Probe::Done(0));
    assert_eq!(probe(&[1, 0x500, 0x900, 0x900, 0x901]), Probe::Done(0));
}

fn thread(request: ThreadRequest, namespace: bool, fired: bool) -> Vec<ThreadAction> {
    let mut s = ThreadService::start(request, namespace);
    let mut out = vec![s.last];
    while !matches!(s.last, ThreadAction::Next | ThreadAction::Exit) {
        out.push(s.step(fired));
    }
    out
}

#[test]
fn requests_on_the_engine_thread() {
    assert_eq!(
        thread(ThreadRequest::Eval { timeout_ms: 0 }, true, false),
        [ThreadAction::PushReply, ThreadAction::Run, ThreadAction::PopReply, ThreadAction::Reply, ThreadAction::Next]
    );
    assert_eq!(
        thread(ThreadRequest::Eval { timeout_ms: 9 }, true, true),
        [
            ThreadAction::PushReply,
            ThreadAction::Watch(9),
            ThreadAction::Run,
            ThreadAction::Unwatch,
            ThreadAction::CancelTerminate,
            ThreadAction::PopReply,
            ThreadAction::Reply,
            ThreadAction::Next,
        ]
    );
    assert!(!thread(ThreadRequest::Eval { timeout_ms: 9 }, true, false).contains(&ThreadAction::CancelTerminate));
    assert_eq!(
        thread(ThreadRequest::Reset, true, false),
        [
            ThreadAction::FreshRealm,
            ThreadAction::ClearModules,
            ThreadAction::InstallNamespace,
            ThreadAction::Reply,
            ThreadAction::Next,
        ]
    );
    assert!(!thread(ThreadRequest::Reset, false, false).contains(&ThreadAction::InstallNamespace));
    assert_eq!(thread(ThreadRequest::Dispose, true, false), [ThreadAction::Exit]);
    assert_eq!(
        thread(ThreadRequest::Attach, true, false),
        [ThreadAction::Attach, ThreadAction::Reply, ThreadAction::Next]
    );
    assert_eq!(
        thread(ThreadRequest::LoadModuleGraph, false, false),
        [
            ThreadAction::PushReply,
            ThreadAction::LoadGraph,
            ThreadAction::PopReply,
            ThreadAction::ReplyGraph,
            ThreadAction::Next,
        ]
    );
}

#[test]
fn every_request_on_the_engine_thread_has_one_reply() {
    let requests = [
        ThreadRequest::Eval { timeout_ms: 5 },
        ThreadRequest::Attach,
        ThreadRequest::LoadModuleGraph,
        ThreadRequest::Reset,
        ThreadRequest::Dispose,
        ThreadRequest::Attach,
    ];
    let mut replies = Vec::new();
    let mut pending = false;
    'served: for (k, r) in requests.iter().enumerate() {
        assert!(!pending);
        for a in thread(*r, true, true) {
            match a {
                ThreadAction::Unwatch => pending = true,
                ThreadAction::CancelTerminate => pending = false,
                ThreadAction::Reply | ThreadAction::ReplyGraph => replies.push((k, a)),
                ThreadAction::Exit => break 'served,
                _ => {}
            }
        }
    }
    assert_eq!(
        replies,
        [
            (0, ThreadAction::Reply),
            (1, ThreadAction::Reply),
            (2, ThreadAction::ReplyGraph),
            (3, ThreadAction::Reply),
        ]
    );
}

#[test]
fn callbacks_wait_for_their_answer() {
    assert!(matches!(callback_step(CallbackAnswer::Result(Ok(JsVal::Null))), CallbackAction::Return(JsVal::Null)));
    assert!(matches!(callback_step(CallbackAnswer::NestedEval), CallbackAction::EvalAndWait));
    for (a, want) in [
        (CallbackAnswer::Result(Err("m".to_string())), "m"),
        (CallbackAnswer::Batch, "unexpected module-graph answer in host callback"),
        (CallbackAnswer::Gone, "host function caller went away"),
    ] {
        assert!(matches!(callback_step(a), CallbackAction::Throw(m) if m == want));
    }
}

#[test]
fn the_pump_serves_until_the_request_is_done() {
    assert!(matches!(pump_step(Message::Done(Ok(JsVal::Int(1))), false), PumpAction::Return(JsVal::Int(1))));
    assert!(matches!(pump_step(Message::Done(Err(VmError::Terminated)), false), PumpAction::Raise(_)));
    assert!(matches!(pump_step(Message::GraphDone(Ok(vec![])), true), PumpAction::ReturnGraph(u) if u.is_empty()));
    assert!(matches!(pump_step(Message::Callback { host_fn_id: 3 }, false), PumpAction::CallProc { host_fn_id: 3 }));
    assert!(matches!(pump_step(Message::FetchBatch { count: 2 }, true), PumpAction::Fetch { count: 2 }));
    assert!(matches!(pump_step(Message::ResolveBatch { count: 2 }, true), PumpAction::Resolve { count: 2 }));
    assert!(matches!(pump_step(Message::FetchBatch { count: 2 }, false), PumpAction::AnswerNothing { count: 2 }));
    assert!(matches!(pump_step(Message::Gone, false), PumpAction::Raise(e) if e.message == "V8 thread went away mid-request"));
}

#[test]
fn evaluations_are_routed_and_sent() {
    assert_eq!(eval_route(0), Route::Queue);
    assert_eq!(eval_route(2), Route::Nested);
    assert!(sent(false, true).is_ok());
    assert_eq!(sent(true, true).unwrap_err().message, "disposed context");
    assert_eq!(sent(false, false).unwrap_err().message, "V8 thread is gone");
    let mut disposed = false;
    assert!(dispose(&mut disposed));
    assert!(!dispose(&mut disposed));
    assert!(disposed);
}

#[test]
fn a_batch_is_answered_in_full() {
    let batch = || {
        Some(vec![
            Element::Text("a".to_string()),
            Element::Nil,
            Element::List(Some("b".to_string())),
            Element::Other,
        ])
    };
    let some = |s: &str| Some(s.to_string());
    assert_eq!(marshal_batch(batch(), 5, true), vec![some("a"), None, some("b"), None, None]);
    assert_eq!(marshal_batch(batch(), 3, false), vec![some("a"), None, None]);
    assert_eq!(marshal_batch(None, 2, true), vec![None, None]);
}

#[test]
fn json_has_no_word_for_some_values() {
    assert!(is_json(&JsVal::Undefined));
    assert!(is_json(&JsVal::Array { id: 0, items: vec![JsVal::Obj { id: 1, entries: vec![] }] }));
    assert!(!is_json(&JsVal::Array { id: 0, items: vec![JsVal::Date(0)] }));
    assert!(!is_json(&JsVal::Obj { id: 0, entries: vec![("a".to_string(), JsVal::Ref(0))] }));
    assert!(!is_json(&JsVal::JsMap { id: 0, pairs: vec![] }));
}

#[test]
fn a_call_reaches_what_was_attached() {
    for name in ["f", "a.f", "a.b.c.f"] {
        let (mut p, mut a) = AttachPaths::start(names(&[name]), false);
        let mut stored = Vec::new();
        loop {
            match a {
                AttachAction::Done(r) => {
                    assert!(r.is_ok());
                    break;
                }
                AttachAction::Build(_) => stored.clear(),
                AttachAction::Enter(part) | AttachAction::Store(part) => stored.push(part),
            }
            a = p.step(AttachEvent::Ready);
        }
        let (mut c, mut a) = CallPath::start(name, false);
        let mut read = Vec::new();
        while let CallAction::Read(part) = a {
            read.push(part);
            a = c.step(CallEvent::Read);
        }
        assert!(matches!(a, CallAction::Call { .. }));
        assert_eq!(read, stored);
    }
}
