use rusty_racer::errors::RubyClass;
use rusty_racer::lifecycle::{
    attach_many_request, attach_request, call_without_name, check_live, code_cache_from_reply,
    compiled_from_reply, context_dispose_due, host_function, host_result, reply_value,
    settle_realm_end, DropAction, Handle, Lifecycle, ResolverSlot,
};
use rusty_racer::namespace::{
    context_global, member_name, namespace_members, recorder, reject_event_code, Member,
    RealmToken, RejectEvent,
};
use rusty_racer::platform::{platform_set_flags, Flag};
use rusty_racer::procs::{ProcSlot, ProcTable};
use rusty_racer::registry::IsolateState;
use rusty_racer::request::{Compiled, Request, VmReply};
use rusty_racer::snapshot::{build_snapshot, snapshot_plan, Snapshot};
use rusty_racer::value::{JsVal, VmError};
use rusty_racer::watchdog::{Tick, Watchdog};

const MS: u64 = 1_000_000;

#[test]
fn no_deadline_arms_nothing() {
    let mut d = Watchdog::new();
    assert!(d.can_arm());
    assert_eq!(d.arm(0, 0), None);
    assert_eq!(d.tick(0), Tick::Sleep);
    assert!(!d.disarm(None));
}

#[test]
fn a_deadline_terminates_once() {
    let mut d = Watchdog::new();
    let g = d.arm(0, 10);
    assert_eq!(d.tick(4 * MS), Tick::SleepFor(6 * MS as u128));
    assert_eq!(d.tick(10 * MS), Tick::Terminate);
    assert_eq!(d.tick(11 * MS), Tick::Sleep);
    assert!(d.disarm(g));
    assert!(!d.disarm(g));
}

#[test]
fn a_deadline_that_did_not_pass_is_not_seen() {
    let mut d = Watchdog::new();
    let g = d.arm(0, 10);
    assert!(!d.disarm(g));
    assert_eq!(d.tick(99 * MS), Tick::Sleep);
}

#[test]
fn a_nested_deadline_leaves_the_outer_one() {
    let mut d = Watchdog::new();
    let outer = d.arm(0, 100);
    let inner = d.arm(0, 10);
    assert_eq!(d.tick(0), Tick::SleepFor(10 * MS as u128));
    assert_eq!(d.tick(10 * MS), Tick::Terminate);
    assert!(d.disarm(inner));
    assert_eq!(d.tick(20 * MS), Tick::SleepFor(80 * MS as u128));
    assert!(!d.disarm(outer));
}

#[test]
fn an_outer_deadline_may_pass_first() {
    let mut d = Watchdog::new();
    let outer = d.arm(0, 10);
    let inner = d.arm(0, 100);
    assert_eq!(d.tick(10 * MS), Tick::Terminate);
    assert!(!d.disarm(inner));
    assert!(d.disarm(outer));
}

#[test]
fn each_deadline_that_passed_is_told() {
    let mut d = Watchdog::new();
    let outer = d.arm(0, 20);
    let inner = d.arm(0, 10);
    assert_eq!(d.tick(10 * MS), Tick::Terminate);
    assert_eq!(d.tick(20 * MS), Tick::Terminate);
    assert!(d.disarm(inner));
    assert!(d.disarm(outer));
    assert!(!d.disarm(inner));
    assert!(!d.disarm(outer));
}

#[test]
fn nested_deadlines_come_and_go() {
    let mut d = Watchdog::new();
    let outer = d.arm(0, 100);
    let request = d.arm(MS, 50);
    let a = d.arm(2 * MS, 10);
    let b = d.arm(2 * MS, 0);
    assert_eq!(d.tick(3 * MS), Tick::SleepFor(9 * MS as u128));
    let c = d.arm(3 * MS, 90);
    assert!(!d.disarm(a));
    assert!(!d.disarm(c));
    assert!(!d.disarm(b));
    assert!(!d.disarm(request));
    assert_eq!(d.tick(4 * MS), Tick::SleepFor(96 * MS as u128));
    assert!(!d.disarm(outer));
    assert_eq!(d.tick(5 * MS), Tick::Sleep);
}

#[test]
fn a_request_without_deadline_leaves_passed_ones() {
    let mut d = Watchdog::new();
    let outer = d.arm(0, 10);
    assert_eq!(d.tick(10 * MS), Tick::Terminate);
    let none = d.arm(11 * MS, 0);
    assert!(!d.disarm(none));
    let later = d.arm(11 * MS, 5);
    assert!(!d.disarm(later));
    assert!(d.disarm(outer));
}

#[test]
fn shutting_down_goes_before_deadlines() {
    let mut d = Watchdog::new();
    d.arm(0, 1);
    d.shut_down();
    assert_eq!(d.tick(5 * MS), Tick::Exit);
}

fn proc(t: &mut ProcTable<char>, context_id: i32, p: char) -> usize {
    t.allocate(ProcSlot { context_id, proc: Some(p) })
}

#[test]
fn attaching_disturbs_nothing() {
    let mut t = ProcTable::new();
    let a = proc(&mut t, 0, 'a');
    let b = proc(&mut t, 1, 'b');
    assert_eq!((a, b), (0, 1));
    assert_eq!((t.get(a), t.get(b), t.get(2)), (Some(&'a'), Some(&'b'), None));
}

#[test]
fn releasing_a_realm_frees_its_slots() {
    let mut t = ProcTable::new();
    let a = proc(&mut t, 0, 'a');
    let b = proc(&mut t, 1, 'b');
    let c = proc(&mut t, 1, 'c');
    t.release(1);
    t.release(1);
    assert_eq!((t.get(a), t.get(b), t.get(c)), (Some(&'a'), None, None));
    let d = proc(&mut t, 2, 'd');
    let e = proc(&mut t, 2, 'e');
    let f = proc(&mut t, 2, 'f');
    assert_eq!((d, e, f), (2, 1, 3));
}

#[test]
fn attach_requests_hold_their_slots() {
    let mut t = ProcTable::new();
    let r = attach_request(&mut t, 3, "a.b".to_string(), 'x', 9);
    assert_eq!(
        format!("{r:?}"),
        "Attach { context_id: 3, name: \"a.b\", host_fn_id: 0, timeout_ms: 9 }"
    );
    assert!(attach_many_request(&mut t, 3, Vec::<(String, char)>::new(), 0).is_none());
    let r = attach_many_request(&mut t, 3, vec![("p".to_string(), 'p'), ("q".to_string(), 'q')], 0);
    match r {
        Some(Request::AttachMany { entries, .. }) => {
            assert_eq!(entries, vec![("p".to_string(), 1), ("q".to_string(), 2)]);
        }
        other => panic!("{other:?}"),
    }
    assert_eq!(host_function(&t, 2), Ok(&'q'));
    assert_eq!(host_function(&t, 3), Err("unknown host function".to_string()));
}

#[test]
fn a_realm_that_ends_takes_its_procs() {
    let mut t = ProcTable::new();
    let a = proc(&mut t, 1, 'a');
    let e = settle_realm_end(&mut t, 1, VmReply::Done(Err(VmError::Runtime("no".to_string()))));
    assert_eq!(e.unwrap_err().message, "no");
    assert_eq!(t.get(a), Some(&'a'));
    assert!(settle_realm_end(&mut t, 1, VmReply::Done(Ok(JsVal::Null))).is_ok());
    assert_eq!(t.get(a), None);
}

#[test]
fn host_results_pass_through() {
    assert!(matches!(host_result(Ok(Some(Ok(JsVal::Int(1))))), Ok(JsVal::Int(1))));
    assert_eq!(host_result(Ok(Some(Err("m".to_string())))).unwrap_err(), "m");
    assert_eq!(host_result(Ok(None)).unwrap_err(), "host function did not complete");
    assert_eq!(host_result(Err("raised".to_string())).unwrap_err(), "raised");
}

#[test]
fn an_isolate_is_confined_to_its_thread() {
    let mut l = Lifecycle::new(7, 0);
    assert!(l.ensure_owner_and_live(7).is_ok());
    let e = l.ensure_owner_and_live(8).unwrap_err();
    assert_eq!(e.class, RubyClass::WrongThreadError);
    assert!(e.message.starts_with("isolate used from a thread other than the one that created it"));
    assert!(l.enter(8).is_err());
    assert_eq!(l.depth, 0);
}

#[test]
fn operations_nest() {
    let mut l = Lifecycle::new(7, 0);
    assert!(l.enter(7).unwrap());
    assert!(!l.enter(7).unwrap());
    assert!(l.leave(Some(VmReply::CodeCache(Ok(None)))).is_ok());
    assert_eq!((l.depth, l.disposed), (1, false));
    let e = l.dispose(7).unwrap_err();
    assert_eq!(
        e.message,
        "RustyRacer: cannot dispose an isolate from within a running op or host callback"
    );
    let e = l.leave(None).unwrap_err();
    assert_eq!(e.message, "internal error: operation panicked; the isolate has been disposed");
    assert_eq!((l.depth, l.disposed), (0, true));
}

#[test]
fn an_operation_brackets_those_inside_it() {
    let mut l = Lifecycle::new(7, 0);
    assert!(l.enter(7).unwrap());
    // One that panics inside ends the isolate, and the one around it still replies.
    assert!(!l.enter(7).unwrap());
    assert!(l.leave(None).is_err());
    assert_eq!(l.enter(7).unwrap_err().message, "disposed context");
    assert_eq!(l.enter(8).unwrap_err().class, RubyClass::WrongThreadError);
    assert!(l.leave(Some(VmReply::CodeCache(Ok(None)))).is_ok());
    assert_eq!((l.depth, l.disposed), (0, true));
    assert_eq!(l.enter(7).unwrap_err().message, "disposed context");
}

#[test]
fn disposal_is_final() {
    let mut l = Lifecycle::new(7, 0);
    assert_eq!(l.dispose(8).unwrap_err().message, "dispose must run on the isolate's owner thread");
    assert!(l.dispose(7).unwrap());
    assert!(!l.dispose(7).unwrap());
    assert_eq!(l.enter(7).unwrap_err().message, "disposed context");
    assert_eq!(l.dropped(7), DropAction::Nothing);
}

#[test]
fn dropping_tears_down_on_the_owner_thread_only() {
    let mut l = Lifecycle::new(7, 0);
    assert_eq!(l.dropped(9), DropAction::Leak);
    assert_eq!(l.dropped(7), DropAction::TearDown);
    assert_eq!(l.dropped(7), DropAction::Nothing);
}

#[test]
fn a_timeout_of_zero_is_the_default_one() {
    let l = Lifecycle::new(7, 250);
    assert_eq!(l.timeout(0), 250);
    assert_eq!(l.timeout(5), 5);
}

#[test]
fn handles_refuse_after_disposal() {
    assert!(check_live(Handle::Module, false, false).is_ok());
    assert_eq!(check_live(Handle::Context, true, false).unwrap_err().message, "disposed context");
    assert_eq!(check_live(Handle::Module, false, true).unwrap_err().message, "disposed module");
    assert_eq!(check_live(Handle::Script, true, true).unwrap_err().message, "disposed script");
    assert!(context_dispose_due(1, false));
    assert!(!context_dispose_due(0, false));
    assert!(!context_dispose_due(1, true));
    let e = call_without_name();
    assert_eq!((e.class, e.message.as_str()), (RubyClass::ArgumentError, "call requires a function name"));
}

#[test]
fn replies_are_read_by_kind() {
    let c = || Compiled { id: 4, cached_data: Some(vec![1]), cache_rejected: true };
    assert!(matches!(reply_value(VmReply::Done(Ok(JsVal::Null))), Ok(JsVal::Null)));
    assert_eq!(
        reply_value(VmReply::CodeCache(Ok(None))).unwrap_err().message,
        "internal: unexpected reply kind"
    );
    assert_eq!(compiled_from_reply(VmReply::ModuleCompiled(Ok(c())), true).unwrap().id, 4);
    assert_eq!(
        compiled_from_reply(VmReply::ModuleCompiled(Ok(c())), false).unwrap_err().message,
        "internal: unexpected compile reply"
    );
    assert!(compiled_from_reply(VmReply::ScriptCompiled(Ok(c())), false).unwrap().cache_rejected);
    assert_eq!(
        compiled_from_reply(VmReply::ScriptCompiled(Err(VmError::Parse("p".to_string()))), false)
            .unwrap_err()
            .class,
        RubyClass::ParseError
    );
    assert_eq!(code_cache_from_reply(VmReply::CodeCache(Ok(Some(vec![2])))).unwrap(), Some(vec![2]));
    assert_eq!(
        code_cache_from_reply(VmReply::Done(Ok(JsVal::Null))).unwrap_err().message,
        "internal: unexpected code-cache reply"
    );
}

#[test]
fn a_nested_resolver_is_put_back() {
    let mut slot: ResolverSlot<&str, &str> = ResolverSlot { resolver: None, raised: None };
    let outer = slot.park("outer");
    slot.raised = Some("first");
    let inner = slot.park("inner");
    assert_eq!((slot.resolver, slot.raised), (Some("inner"), None));
    assert_eq!(slot.restore(inner), None);
    assert_eq!((slot.resolver, slot.raised), (Some("outer"), Some("first")));
    assert_eq!(slot.restore(outer), Some("first"));
    assert_eq!(slot.resolver, None);
}

#[test]
fn flags_are_one_line() {
    let flags = vec![
        Flag { name: "single-threaded".to_string(), value: None },
        Flag { name: "stack-size".to_string(), value: Some("900".to_string()) },
    ];
    assert_eq!(
        platform_set_flags(false, "Isolate.new", &flags).unwrap(),
        "--single-threaded --stack-size=900"
    );
    assert_eq!(platform_set_flags(false, "Isolate.new", &vec![]).unwrap(), "");
    let e = platform_set_flags(true, "Isolate.new", &flags).unwrap_err();
    assert_eq!(e.class, RubyClass::PlatformAlreadyInitialized);
    assert_eq!(
        e.message,
        "the V8 platform is already initialized; set flags before the first Isolate.new"
    );
}

#[test]
fn snapshots_are_planned_and_made() {
    let p = snapshot_plan("x = 1", false);
    assert_eq!((p.run, p.filename, p.fresh_context), (true, "<snapshot>", false));
    let p = snapshot_plan("", true);
    assert_eq!((p.run, p.filename, p.fresh_context), (false, "<warmup>", true));
    assert_eq!(build_snapshot(None, Some(vec![1, 2])).unwrap(), vec![1, 2]);
    assert_eq!(build_snapshot(None, None).unwrap_err().message, "snapshot creation failed");
    let e = build_snapshot(Some(VmError::Terminated), Some(vec![1])).unwrap_err();
    assert_eq!((e.class, e.message.as_str()), (RubyClass::SnapshotError, "snapshot code was terminated"));
    let e = build_snapshot(Some(VmError::Parse("bad".to_string())), None).unwrap_err();
    assert_eq!(e.message, "bad");
}

#[test]
fn snapshots_are_loaded_and_warmed_up() {
    let bad = "invalid V8 snapshot blob (corrupt, truncated, or built for a different V8 version)";
    assert_eq!(Snapshot::load(vec![], true).unwrap_err().message, bad);
    assert_eq!(Snapshot::load(vec![1], false).unwrap_err().message, bad);
    let mut s = Snapshot::load(vec![1, 2, 3], true).unwrap();
    assert_eq!(s.size(), 3);
    assert!(s.warmup(build_snapshot(None, None)).is_err());
    assert_eq!(s.blob, vec![1, 2, 3]);
    assert!(s.warmup(Ok(vec![4])).is_ok());
    assert_eq!(s.size(), 1);
}

#[test]
fn the_namespace_has_four_members() {
    let names: Vec<&str> = namespace_members().into_iter().map(member_name).collect();
    assert_eq!(names.len(), 4);
    for n in ["drainMicrotasks", "contextGlobal", "contextOf", "setPromiseRejectHandler"] {
        assert!(names.contains(&n));
    }
    assert_eq!(member_name(Member::ContextOf), "contextOf");
}

#[test]
fn globals_are_found_by_id() {
    let mut s: IsolateState<u8, u8, u8, u8> = IsolateState::new(Some("host".to_string()), true);
    s.set_main(50);
    assert!(s.ids_left(Request::CreateContext.job()));
    assert!(s.ids_left(Request::Reset { context_id: 0 }.job()));
    assert_eq!(s.host_namespace(), Some("host".to_string()));
    assert_eq!(context_global(&s, Some(0)), Ok(&50));
    assert_eq!(context_global(&s, Some(-3)), Err("unknown context -3".to_string()));
    assert_eq!(context_global(&s, None), Err("contextGlobal expects a context id".to_string()));
}

#[test]
fn rejections_are_numbered() {
    assert_eq!(reject_event_code(RejectEvent::RejectWithNoHandler), 0);
    assert_eq!(reject_event_code(RejectEvent::HandlerAddedAfterReject), 1);
    assert_eq!(reject_event_code(RejectEvent::RejectAfterResolved), 2);
    assert_eq!(reject_event_code(RejectEvent::ResolveAfterResolved), 3);
    assert_eq!(recorder(Some('f'), Some(3)), Some((3, 'f')));
    assert_eq!(recorder(Some('f'), None), Some((0, 'f')));
    assert_eq!(recorder(None::<char>, Some(3)), None);
}

#[test]
fn all_realms_share_the_first_token() {
    let mut t = RealmToken::new();
    assert_eq!(t.get(), None);
    t.adopt('a');
    t.adopt('b');
    assert_eq!(t.get(), Some(&'a'));
}
