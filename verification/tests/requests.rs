use rusty_racer::failures::{CompileFailure, CompileMode, Thrown};
use rusty_racer::registry::IsolateState;
use rusty_racer::request::{Request, VmReply};
use rusty_racer::service::{Action, Compilation, Evaluation, Event, ModuleStatus, Service};
use rusty_racer::value::{JsVal, VmError};

type State = IsolateState<u32, &'static str, &'static str, u8>;
type Ev = Event<u32, &'static str, &'static str>;

fn state(auto: bool) -> State {
    let mut s = State::new(None, auto);
    s.set_main(100);
    s
}

fn eval(context_id: i32) -> Request {
    Request::Eval { context_id, source: "1".to_string(), filename: "a.js".to_string(), timeout_ms: 0 }
}

fn compile(context_id: i32, url: &str, cache: Option<Vec<u8>>, produce: bool, eager: bool) -> Request {
    Request::CompileModule {
        context_id,
        source: String::new(),
        filename: url.to_string(),
        cached_data: cache,
        produce_cache: produce,
        eager,
    }
}

fn script(context_id: i32) -> Request {
    Request::CompileScript {
        context_id,
        source: String::new(),
        filename: "s.js".to_string(),
        cached_data: None,
        produce_cache: false,
        eager: false,
    }
}

fn thrown(text: &str) -> Thrown {
    Thrown { exception: Some(text.to_string()), own_stack: None, recorded_stack: None }
}

/// Services a request, answering each action, and gives the reply and the trace.
fn run(
    s: &mut State,
    r: &Request,
    outermost: bool,
    mut answer: impl FnMut(&mut State, &Action) -> Ev,
) -> (VmReply, Vec<String>) {
    let (mut service, mut action) = Service::start(r, outermost, s);
    let mut trace = Vec::new();
    loop {
        if let Action::Reply(reply) = action {
            return (reply, trace);
        }
        trace.push(format!("{action:?}"));
        let e = answer(s, &action);
        action = service.step(s, e);
    }
}

/// An engine on which all goes well.
fn fine(_: &mut State, a: &Action) -> Ev {
    match a {
        Action::Run { .. } => Event::Ran(Ok(JsVal::Int(7))),
        Action::AskTerminating => Event::Terminating(false),
        Action::AskStatus { .. } => Event::Status { status: ModuleStatus::Uninstantiated, exception: None },
        Action::Evaluate { .. } => Event::Evaluated(Evaluation::Promise),
        Action::AskPromise => Event::Promise(None),
        Action::Disarm => Event::Disarmed(false),
        Action::NewRealm { id } => Event::Fresh(200 + *id as u32),
        Action::Compile { .. } => Event::ModuleCompiled(Compilation::Done {
            handle: "m",
            hash: 1,
            produced: Some(vec![1]),
            rejected: true,
        }),
        Action::Link { .. } => Event::Linked { ok: true, terminated: false, thrown: thrown("") },
        Action::Namespace { .. } => Event::Value(JsVal::Null),
        Action::ScriptCache { .. } => Event::Cache(Some(vec![9])),
        Action::ModuleCache { .. } => Event::Cache(None),
        _ => Event::Ready,
    }
}

fn show(r: &VmReply) -> String {
    format!("{r:?}")
}

fn error_of(r: VmReply) -> String {
    match r {
        VmReply::Done(Err(VmError::Runtime(m))) => m,
        other => panic!("{other:?}"),
    }
}

/// Compiles a module in a realm and gives its id.
fn module(s: &mut State, context: i32) -> i32 {
    match run(s, &compile(context, "m.js", None, false, false), false, fine).0 {
        VmReply::ModuleCompiled(Ok(c)) => c.id,
        other => panic!("{other:?}"),
    }
}

#[test]
fn evaluating_at_the_bottom_of_the_stack() {
    let mut s = state(true);
    let (reply, trace) = run(&mut s, &eval(0), true, fine);
    assert_eq!(show(&reply), "Done(Ok(Int(7)))");
    assert_eq!(
        trace,
        ["CancelTerminate", "Arm(0)", "Run { realm: 0 }", "AskTerminating", "Checkpoint { realm: 0 }", "Disarm"]
    );
    assert!(!s.is_active(0));
}

#[test]
fn microtasks_run_only_when_due() {
    let mut s = state(false);
    let (_, trace) = run(&mut s, &eval(0), true, fine);
    assert_eq!(trace, ["CancelTerminate", "Arm(0)", "Run { realm: 0 }", "Disarm"]);
    let mut s = state(true);
    let (_, trace) = run(&mut s, &eval(0), false, fine);
    assert_eq!(trace, ["Arm(0)", "Run { realm: 0 }", "Disarm"]);
    let (_, trace) = run(&mut s, &eval(0), true, |s, a| match a {
        Action::AskTerminating => Event::Terminating(true),
        _ => fine(s, a),
    });
    assert!(!trace.contains(&"Checkpoint { realm: 0 }".to_string()));
}

#[test]
fn draining_runs_in_the_main_realm_in_either_mode() {
    for auto in [true, false] {
        let mut s = state(auto);
        let (reply, trace) = run(&mut s, &Request::DrainMicrotasks { timeout_ms: 5 }, true, fine);
        assert_eq!(show(&reply), "Done(Ok(Undefined))");
        assert_eq!(trace, ["CancelTerminate", "Arm(5)", "Checkpoint { realm: 0 }", "Disarm"]);
    }
}

#[test]
fn an_unknown_realm_runs_nothing() {
    let mut s = state(true);
    let (reply, trace) = run(&mut s, &eval(9), true, fine);
    assert_eq!(error_of(reply), "realm disposed or unknown");
    assert_eq!(trace, ["CancelTerminate", "Arm(0)", "Disarm"]);
}

#[test]
fn a_deadline_overrides_what_ran_and_is_swept() {
    let mut s = state(true);
    let late = |s: &mut State, a: &Action| match a {
        Action::Disarm => Event::Disarmed(true),
        _ => fine(s, a),
    };
    let (reply, trace) = run(&mut s, &eval(0), true, late);
    assert_eq!(show(&reply), "Done(Err(Terminated))");
    assert_eq!(trace.last().unwrap(), "CancelTerminate");
    // The next one begins clean.
    let (reply, trace) = run(&mut s, &eval(0), true, fine);
    assert_eq!(show(&reply), "Done(Ok(Int(7)))");
    assert_eq!(trace.last().unwrap(), "Disarm");
    // What did not run keeps its own failure.
    let (reply, _) = run(&mut s, &eval(9), true, late);
    assert_eq!(error_of(reply), "realm disposed or unknown");
}

#[test]
fn a_nested_deadline_is_swept_by_the_outermost_request() {
    let mut s = state(true);
    let (reply, trace) = run(&mut s, &eval(0), true, |s, a| match a {
        Action::Run { .. } => {
            let (inner, steps) = run(s, &eval(0), false, |s, a| match a {
                Action::Disarm => Event::Disarmed(true),
                _ => fine(s, a),
            });
            assert_eq!(show(&inner), "Done(Err(Terminated))");
            assert!(!steps.contains(&"CancelTerminate".to_string()));
            Event::Ran(Ok(JsVal::Null))
        }
        _ => fine(s, a),
    });
    assert_eq!(show(&reply), "Done(Ok(Null))");
    assert_eq!(trace.last().unwrap(), "CancelTerminate");
}

#[test]
fn realms_are_made_and_disposed() {
    let mut s = state(true);
    let (reply, _) = run(&mut s, &Request::CreateContext, true, fine);
    assert_eq!(show(&reply), "Done(Ok(Int(1)))");
    assert_eq!(s.context_for(1), Some(&201));
    let m = module(&mut s, 1);
    let kept = module(&mut s, 0);
    let (reply, _) = run(&mut s, &Request::DisposeContext { context_id: 1 }, true, fine);
    assert_eq!(show(&reply), "Done(Ok(Undefined))");
    assert!(!s.has_context(1));
    assert!(s.module_handle(m).is_none());
    assert!(s.module_handle(kept).is_some());
    // Ids are not used again, and disposing twice does nothing.
    let (reply, _) = run(&mut s, &Request::DisposeContext { context_id: 1 }, true, fine);
    assert_eq!(show(&reply), "Done(Ok(Undefined))");
    let (reply, _) = run(&mut s, &Request::CreateContext, true, fine);
    assert_eq!(show(&reply), "Done(Ok(Int(2)))");
}

#[test]
fn resetting_swaps_one_realm() {
    let mut s = state(true);
    run(&mut s, &Request::CreateContext, true, fine);
    let gone = module(&mut s, 0);
    let kept = module(&mut s, 1);
    s.set_promise_reject_handler(Some((0, 5)));
    let (reply, trace) = run(&mut s, &Request::Reset { context_id: 0 }, true, fine);
    assert_eq!(show(&reply), "Done(Ok(Undefined))");
    assert_eq!(trace, ["CancelTerminate", "NewRealm { id: 0 }"]);
    assert_eq!(s.context_for(0), Some(&200));
    assert_eq!(s.context_for(1), Some(&201));
    assert!(s.module_handle(gone).is_none());
    assert!(s.module_handle(kept).is_some());
    assert!(s.promise_reject_handler().is_none());
}

#[test]
fn a_handler_of_another_realm_survives_a_reset() {
    let mut s = state(true);
    run(&mut s, &Request::CreateContext, true, fine);
    s.set_promise_reject_handler(Some((1, 5)));
    run(&mut s, &Request::Reset { context_id: 0 }, true, fine);
    assert_eq!(s.promise_reject_handler(), Some(&5));
}

#[test]
fn resetting_is_refused() {
    let mut s = state(true);
    assert_eq!(
        error_of(run(&mut s, &Request::Reset { context_id: 4 }, true, fine).0),
        "context disposed or unknown"
    );
    // While a request for the realm is on the stack, and during a checkpoint.
    let mut seen = Vec::new();
    run(&mut s, &eval(0), true, |s, a| {
        if matches!(a, Action::Run { .. } | Action::Checkpoint { .. }) {
            seen.push(error_of(run(s, &Request::Reset { context_id: 0 }, false, fine).0));
            seen.push(error_of(run(s, &Request::DisposeContext { context_id: 0 }, false, fine).0));
        }
        fine(s, a)
    });
    assert_eq!(
        seen,
        [
            "cannot reset a realm while a request for it is suspended on the V8 stack",
            "cannot dispose a realm while a request for it is suspended on the V8 stack",
            "cannot reset a realm during a microtask checkpoint",
            "cannot dispose a realm during a microtask checkpoint",
        ]
    );
    assert_eq!(s.context_for(0), Some(&100));
}

#[test]
fn a_checkpoint_keeps_every_realm() {
    let mut s = state(true);
    run(&mut s, &Request::CreateContext, true, fine);
    let before = s.begin_drain();
    assert!(!before);
    let nested = s.begin_drain();
    assert!(nested);
    s.end_drain(nested);
    for id in [0, 1, 9] {
        assert_eq!(
            error_of(run(&mut s, &Request::Reset { context_id: id }, false, fine).0),
            "cannot reset a realm during a microtask checkpoint"
        );
        assert_eq!(
            error_of(run(&mut s, &Request::DisposeContext { context_id: id }, false, fine).0),
            "cannot dispose a realm during a microtask checkpoint"
        );
    }
    assert_eq!((s.context_for(0), s.context_for(1)), (Some(&100), Some(&201)));
    s.end_drain(before);
    let (r, _) = run(&mut s, &Request::Reset { context_id: 1 }, false, fine);
    assert_eq!(show(&r), "Done(Ok(Undefined))");
}

#[test]
fn a_leftover_termination_is_cleared_by_the_outermost_only() {
    let mut s = state(false);
    let mut inner = Vec::new();
    let (_, outer) = run(&mut s, &eval(0), true, |s, a| {
        if matches!(a, Action::Run { .. }) {
            inner = run(s, &eval(0), false, |s, a| match a {
                Action::Disarm => Event::Disarmed(true),
                _ => fine(s, a),
            })
            .1;
        }
        fine(s, a)
    });
    assert_eq!(inner, ["Arm(0)", "Run { realm: 0 }", "Disarm"]);
    assert_eq!(outer, ["CancelTerminate", "Arm(0)", "Run { realm: 0 }", "Disarm", "CancelTerminate"]);
    assert!(!s.is_active(0));
}

#[test]
fn the_cache_of_a_script_that_is_gone_is_nothing() {
    let mut s = state(true);
    let compiled = |_: &mut State, _: &Action| {
        Event::ScriptCompiled(Compilation::Done {
            handle: "s",
            hash: 0,
            produced: None,
            rejected: false,
        })
    };
    let mut ids = Vec::new();
    for context in [0, 1] {
        if context == 1 {
            run(&mut s, &Request::CreateContext, true, fine);
        }
        let (r, _) = run(&mut s, &script(context), false, compiled);
        match r {
            VmReply::ScriptCompiled(Ok(c)) => ids.push(c.id),
            other => panic!("{other:?}"),
        }
    }
    for id in &ids {
        let (r, _) = run(&mut s, &Request::ScriptCodeCache { script_id: *id }, true, fine);
        assert_eq!(show(&r), "CodeCache(Ok(Some([9])))");
    }
    run(&mut s, &Request::Reset { context_id: 0 }, true, fine);
    run(&mut s, &Request::DisposeContext { context_id: 1 }, true, fine);
    for id in &ids {
        let (r, trace) = run(&mut s, &Request::ScriptCodeCache { script_id: *id }, true, fine);
        assert_eq!(show(&r), "CodeCache(Ok(None))");
        assert_eq!(trace, ["CancelTerminate"]);
    }
}

#[test]
fn a_sibling_realm_may_be_reset_from_within() {
    let mut s = state(false);
    run(&mut s, &Request::CreateContext, true, fine);
    run(&mut s, &eval(0), true, |s, a| {
        if matches!(a, Action::Run { .. }) {
            let (r, _) = run(s, &Request::Reset { context_id: 1 }, false, fine);
            assert_eq!(show(&r), "Done(Ok(Undefined))");
        }
        fine(s, a)
    });
}

#[test]
fn compiling_takes_a_cache_before_anything() {
    let mut s = state(true);
    let mode = |s: &mut State, r: &Request| {
        let mut got = None;
        run(s, r, true, |s, a| {
            if let Action::Compile { mode, .. } = a {
                got = Some(*mode);
            }
            fine(s, a)
        });
        got.unwrap()
    };
    assert_eq!(mode(&mut s, &compile(0, "a", Some(vec![1]), false, true)), CompileMode::ConsumeCache);
    assert_eq!(mode(&mut s, &compile(0, "a", None, false, true)), CompileMode::Eager);
    assert_eq!(mode(&mut s, &compile(0, "a", None, false, false)), CompileMode::Lazy);
}

#[test]
fn a_compilation_reports_its_cache() {
    let mut s = state(true);
    let (r, _) = run(&mut s, &compile(0, "a.js", None, true, false), true, fine);
    assert_eq!(
        show(&r),
        "ModuleCompiled(Ok(Compiled { id: 0, cached_data: Some([1]), cache_rejected: false }))"
    );
    let (r, _) = run(&mut s, &compile(0, "b.js", Some(vec![2]), false, false), true, fine);
    assert_eq!(
        show(&r),
        "ModuleCompiled(Ok(Compiled { id: 1, cached_data: None, cache_rejected: true }))"
    );
    assert_eq!(s.module_url(1).unwrap(), "b.js");
    assert_eq!(s.module_bucket(1), vec![0, 1]);
}

#[test]
fn compilations_fail_with_their_place() {
    let mut s = state(true);
    let (r, _) = run(&mut s, &compile(0, "a.js", None, false, false), true, |s, a| match a {
        Action::Compile { .. } => Event::ModuleCompiled(Compilation::Failed {
            terminated: false,
            failure: CompileFailure {
                exception: Some("SyntaxError: x".to_string()),
                resource: None,
                line: Some(3),
            },
        }),
        _ => fine(s, a),
    });
    assert_eq!(show(&r), "ModuleCompiled(Err(Parse(\"SyntaxError: x at a.js:3\")))");
    // The location is under the name of the request, unless the engine has one.
    for (resource, want) in [(None, "s.js"), (Some("t.js".to_string()), "t.js")] {
        let (r, _) = run(&mut s, &script(0), true, |s, a| match a {
            Action::Compile { .. } => Event::ScriptCompiled(Compilation::Failed {
                terminated: false,
                failure: CompileFailure { exception: None, resource: resource.clone(), line: None },
            }),
            _ => fine(s, a),
        });
        assert_eq!(show(&r), format!("ScriptCompiled(Err(Parse(\"script parse error at {want}\")))"));
    }
    let (r, _) = run(&mut s, &script(0), true, |s, a| match a {
        Action::Compile { .. } => Event::ScriptCompiled(Compilation::Failed {
            terminated: true,
            failure: CompileFailure { exception: None, resource: None, line: None },
        }),
        _ => fine(s, a),
    });
    assert_eq!(show(&r), "ScriptCompiled(Err(Terminated))");
    let (r, _) = run(&mut s, &compile(0, "a.js", None, false, false), true, |s, a| match a {
        Action::Compile { .. } => Event::ModuleCompiled(Compilation::TooLarge),
        _ => fine(s, a),
    });
    assert!(matches!(r, VmReply::ModuleCompiled(Err(VmError::Runtime(_)))));
    let (r, _) = run(&mut s, &compile(8, "a.js", None, false, false), true, fine);
    assert_eq!(show(&r), "ModuleCompiled(Err(Runtime(\"context disposed or unknown\")))");
    let (r, _) = run(&mut s, &script(8), true, fine);
    assert_eq!(show(&r), "ScriptCompiled(Err(Runtime(\"context disposed or unknown\")))");
}

#[test]
fn a_script_is_compiled_run_and_dropped() {
    let mut s = state(false);
    let (r, _) = run(&mut s, &script(0), true, |s, a| match a {
        Action::Compile { .. } => Event::ScriptCompiled(Compilation::Done {
            handle: "s",
            hash: 0,
            produced: None,
            rejected: false,
        }),
        _ => fine(s, a),
    });
    assert_eq!(
        show(&r),
        "ScriptCompiled(Ok(Compiled { id: 0, cached_data: None, cache_rejected: false }))"
    );
    let (r, _) = run(&mut s, &Request::RunScript { script_id: 0, timeout_ms: 0 }, true, fine);
    assert_eq!(show(&r), "Done(Ok(Int(7)))");
    let (r, _) = run(&mut s, &Request::ScriptCodeCache { script_id: 0 }, true, fine);
    assert_eq!(show(&r), "CodeCache(Ok(Some([9])))");
    run(&mut s, &Request::DisposeScript { script_id: 0 }, true, fine);
    let (r, _) = run(&mut s, &Request::RunScript { script_id: 0, timeout_ms: 0 }, true, fine);
    assert_eq!(error_of(r), "unknown script");
    let (r, _) = run(&mut s, &Request::ScriptCodeCache { script_id: 0 }, true, fine);
    assert_eq!(show(&r), "CodeCache(Ok(None))");
}

fn with_status(status: ModuleStatus) -> impl FnMut(&mut State, &Action) -> Ev {
    move |s: &mut State, a: &Action| match a {
        Action::AskStatus { .. } => Event::Status { status, exception: Some("E".to_string()) },
        _ => fine(s, a),
    }
}

#[test]
fn linking_goes_by_status() {
    let mut s = state(true);
    let id = module(&mut s, 0);
    let link = Request::InstantiateModule { module_id: id };
    let (r, trace) = run(&mut s, &link, true, fine);
    assert_eq!(show(&r), "Done(Ok(Undefined))");
    assert_eq!(trace.last().unwrap(), "Link { module: 0, realm: 0 }");
    for done in [ModuleStatus::Instantiated, ModuleStatus::Evaluating, ModuleStatus::Evaluated] {
        let (r, trace) = run(&mut s, &link, true, with_status(done));
        assert_eq!(show(&r), "Done(Ok(Undefined))");
        assert_eq!(trace.last().unwrap(), "AskStatus { module: 0 }");
    }
    let (r, _) = run(&mut s, &link, true, with_status(ModuleStatus::Errored));
    assert_eq!(show(&r), "Done(Err(JsError { message: \"E\", backtrace: [] }))");
    let (r, _) = run(&mut s, &Request::InstantiateModule { module_id: 77 }, true, fine);
    assert_eq!(error_of(r), "unknown module");
}

#[test]
fn linking_is_not_nested() {
    let mut s = state(true);
    let id = module(&mut s, 0);
    let link = Request::InstantiateModule { module_id: id };
    let mut inner = None;
    run(&mut s, &link, true, |s, a| {
        if matches!(a, Action::Link { .. }) {
            inner = Some(error_of(run(s, &Request::InstantiateModule { module_id: id }, false, fine).0));
        }
        fine(s, a)
    });
    assert!(inner.unwrap().starts_with("instantiate is not re-entrant"));
    // The flag does not outlive the failure of a link.
    run(&mut s, &link, true, |s, a| match a {
        Action::Link { .. } => Event::Linked { ok: false, terminated: false, thrown: thrown("no") },
        _ => fine(s, a),
    });
    assert_eq!(show(&run(&mut s, &link, true, fine).0), "Done(Ok(Undefined))");
}

#[test]
fn evaluating_a_module_goes_by_status() {
    let mut s = state(false);
    let id = module(&mut s, 0);
    let go = Request::EvaluateModule { module_id: id, timeout_ms: 0 };
    let (r, _) = run(&mut s, &go, true, fine);
    assert_eq!(error_of(r), "module must be instantiated before evaluate");
    let (r, trace) = run(&mut s, &go, true, with_status(ModuleStatus::Instantiated));
    assert_eq!(show(&r), "Done(Ok(Undefined))");
    assert!(trace.contains(&"AskPromise".to_string()));
    let (r, trace) = run(&mut s, &go, true, with_status(ModuleStatus::Evaluated));
    assert_eq!(show(&r), "Done(Ok(Undefined))");
    assert!(!trace.iter().any(|t| t.starts_with("Evaluate ")));
    let (r, _) = run(&mut s, &go, true, with_status(ModuleStatus::Errored));
    assert_eq!(show(&r), "Done(Err(JsError { message: \"E\", backtrace: [] }))");
}

#[test]
fn a_rejection_after_the_microtasks_is_seen() {
    let mut s = state(true);
    let id = module(&mut s, 0);
    let go = Request::EvaluateModule { module_id: id, timeout_ms: 0 };
    let mut ready = with_status(ModuleStatus::Instantiated);
    let (r, trace) = run(&mut s, &go, true, |s, a| match a {
        Action::AskPromise => Event::Promise(Some("late".to_string())),
        _ => ready(s, a),
    });
    assert_eq!(show(&r), "Done(Err(JsError { message: \"late\", backtrace: [] }))");
    let drained = trace.iter().position(|t| t.starts_with("Checkpoint")).unwrap();
    let asked = trace.iter().position(|t| t == "AskPromise").unwrap();
    assert!(drained < asked);
}

#[test]
fn a_namespace_needs_a_linked_module() {
    let mut s = state(true);
    let id = module(&mut s, 0);
    let ns = Request::ModuleNamespace { module_id: id };
    assert_eq!(
        error_of(run(&mut s, &ns, true, fine).0),
        "module must be instantiated before namespace"
    );
    assert_eq!(show(&run(&mut s, &ns, true, with_status(ModuleStatus::Evaluated)).0), "Done(Ok(Null))");
}

#[test]
fn a_status_is_a_name() {
    let mut s = state(true);
    let id = module(&mut s, 0);
    let ask = Request::ModuleStatus { module_id: id };
    for (status, name) in [
        (ModuleStatus::Uninstantiated, "uninstantiated"),
        (ModuleStatus::Instantiating, "instantiating"),
        (ModuleStatus::Instantiated, "instantiated"),
        (ModuleStatus::Evaluating, "evaluating"),
        (ModuleStatus::Evaluated, "evaluated"),
        (ModuleStatus::Errored, "errored"),
    ] {
        let (r, _) = run(&mut s, &ask, true, with_status(status));
        assert_eq!(show(&r), format!("Done(Ok(Str(\"{name}\")))"));
    }
    run(&mut s, &Request::DisposeModule { module_id: id }, true, fine);
    assert_eq!(error_of(run(&mut s, &ask, true, fine).0), "unknown module");
    let (r, _) = run(&mut s, &Request::ModuleCodeCache { module_id: id }, true, fine);
    assert_eq!(show(&r), "CodeCache(Ok(None))");
}
