//! What a request does for what it asks, and what it is replied with for what
//! the engine answers.
use crate::failures::{js_error, CompileFailure, CompileMode, Thrown};
use crate::registry::{
    context_of, dispose_refusal, find_module, find_script, iso_wf, modules_without, reset_refusal,
    scripts_without, Iso, Mod, Scr,
};
use crate::request::{opt_bytes, Comp, Job, Outcome};
use crate::service::{
    advance, after_run, begin, evaluated, module_target, realm_of, script_target, Act, Action,
    Compilation, Evaluation, Event, Evt, ModuleStatus, Srv, Step, Work,
};
use crate::value::{outcome, Fault, JsVal, Val, VmError};
use crate::whole_request::{first, fresh};
use vstd::prelude::*;

verus! {

/// Whether a request that has come this far has its reply, at once or after the
/// sweep of a termination.
pub open spec fn replied<C, M, S, F>(at: (Srv, Iso<C, M, S, F>, Act), o: Outcome) -> bool {
    if at.2 is CancelTerminate {
        advance(at.0, at.1, Evt::<C, M, S>::Ready).2 == Act::Reply(o)
    } else {
        at.2 == Act::Reply(o)
    }
}

/// What the engine answers from the end of a run to the disarming, and the
/// isolate as it is at each of these answers.
pub ghost struct WindUp<C, M, S, F> {
    /// Whether the engine is being terminated.
    pub stopping: bool,
    pub at_stopping: Iso<C, M, S, F>,
    pub at_drained: Iso<C, M, S, F>,
    /// The reason of the promise, where it is rejected.
    pub promise: Option<Seq<char>>,
    pub at_promise: Iso<C, M, S, F>,
    /// Whether the deadline passed.
    pub fired: bool,
    pub at_disarmed: Iso<C, M, S, F>,
}

/// How a request that is past its run comes to the disarming.
pub open spec fn wound_up<C, M, S, F>(
    at: (Srv, Iso<C, M, S, F>, Act),
    w: WindUp<C, M, S, F>,
) -> (Srv, Iso<C, M, S, F>, Act) {
    let asked = if at.2 is AskTerminating {
        advance(at.0, w.at_stopping, Evt::<C, M, S>::Terminating(w.stopping))
    } else {
        at
    };
    let drained = if asked.2 is Checkpoint {
        advance(asked.0, w.at_drained, Evt::<C, M, S>::Ready)
    } else {
        asked
    };
    if drained.2 is AskPromise {
        advance(drained.0, w.at_promise, Evt::<C, M, S>::Promise(w.promise))
    } else {
        drained
    }
}

/// Whether a request that is past its run is disarmed and has its reply.
pub open spec fn comes_to<C, M, S, F>(
    at: (Srv, Iso<C, M, S, F>, Act),
    w: WindUp<C, M, S, F>,
    o: Outcome,
) -> bool {
    let end = wound_up(at, w);
    end.2 == Act::Disarm && replied(
        advance(end.0, w.at_disarmed, Evt::<C, M, S>::Disarmed(w.fired)),
        o,
    )
}

/// What a request that is past its run comes to.
#[verifier::spinoff_prover]
proof fn lemma_past_run<C, M, S, F>(
    v: Srv,
    s: Iso<C, M, S, F>,
    work: Work,
    w: WindUp<C, M, S, F>,
)
    ensures
        comes_to(
            after_run(v, s, work),
            w,
            Outcome::Done(
                if w.fired && work.ran {
                    Err(Fault::Terminated)
                } else if work.remembered && work.result is Ok && w.promise is Some {
                    Err(Fault::JsError { message: w.promise->0, backtrace: Seq::empty() })
                } else {
                    work.result
                },
            ),
        ),
{
}

/// A request that runs JavaScript is replied with exactly what the run came to,
/// be it a value or a failure, unless its deadline passed: it is then replied that
/// it was terminated.
pub proof fn law_run_is_replied<C, M, S, F>(
    v: Srv,
    s: Iso<C, M, S, F>,
    realm: i32,
    r: Result<Val, Fault>,
    w: WindUp<C, M, S, F>,
)
    requires
        v.step == (Step::Running { realm }),
    ensures
        comes_to(
            advance(v, s, Evt::Ran(r)),
            w,
            Outcome::Done(
                if w.fired {
                    Err(Fault::Terminated)
                } else {
                    r
                },
            ),
        ),
{
    lemma_past_run(v, s, Work { realm, ran: true, result: r, remembered: false }, w);
}

/// After a run the outermost request in the automatic mode has the microtasks run
/// in the realm of the run, unless the engine is being terminated. Any other
/// request goes on to disarm at once.
pub proof fn law_microtasks_follow_the_run<C, M, S, F>(
    v: Srv,
    s: Iso<C, M, S, F>,
    realm: i32,
    r: Result<Val, Fault>,
    between: Iso<C, M, S, F>,
)
    requires
        v.step == (Step::Running { realm }),
    ensures
        ({
            let (v1, s1, a) = advance(v, s, Evt::Ran(r));
            if v.outermost && s.auto {
                &&& a == Act::AskTerminating
                &&& advance(v1, between, Evt::<C, M, S>::Terminating(false)).2 == (
                Act::Checkpoint { realm })
                &&& advance(v1, between, Evt::<C, M, S>::Terminating(true)).2 == Act::Disarm
            } else {
                a == Act::Disarm
            }
        }),
{
}

/// A request that is outermost or not begins in the same way, and one that may
/// run JavaScript has its watchdog armed with the timeout it came with before
/// anything runs.
pub proof fn law_runs_are_armed<C, M, S, F>(v: Srv, s: Iso<C, M, S, F>, ms: u64)
    requires
        match v.job {
            Job::Run { timeout_ms, .. } => timeout_ms == ms,
            Job::RunScript { timeout_ms, .. } => timeout_ms == ms,
            Job::Evaluate { timeout_ms, .. } => timeout_ms == ms,
            Job::Drain { timeout_ms } => timeout_ms == ms,
            _ => false,
        },
    ensures
        begin(v, s).2 == Act::Arm(ms),
        begin(v, s).0.step == Step::Arming,
        begin(Srv { outermost: !v.outermost, ..v }, s).2 == Act::Arm(ms),
{
}

/// Nothing is armed, run, evaluated or drained for a request that runs no
/// JavaScript.
#[verifier::rlimit(60)]
#[verifier::spinoff_prover]
pub proof fn law_other_requests_run_nothing<C, M, S, F>(
    v: Srv,
    s: Iso<C, M, S, F>,
    e: Evt<C, M, S>,
)
    requires
        !(v.job is Run || v.job is RunScript || v.job is Evaluate || v.job is Drain),
        v.step is Cancelling || v.step is Renewing || v.step is Creating
            || v.step is CompilingModule || v.step is CompilingScript || v.step is LinkStatus
            || v.step is Linking || v.step is NamespaceStatus || v.step is Namespace
            || v.step is StatusName || v.step is Caching || v.step is Sweeping,
    ensures
        ({
            let a = advance(v, s, e).2;
            !(a is Arm || a is Run || a is Evaluate || a is Checkpoint || a is AskTerminating
                || a is AskPromise || a is Disarm)
        }),
{
}

/// Source is run in the realm that it is for, and where there is no such realm
/// the request is replied so, whether a deadline passed or not.
pub proof fn law_eval_runs_in_its_realm<C, M, S, F>(
    v: Srv,
    s: Iso<C, M, S, F>,
    context: i32,
    timeout_ms: u64,
    between: Iso<C, M, S, F>,
    w: WindUp<C, M, S, F>,
)
    requires
        v.job == (Job::Run { context, timeout_ms }),
    ensures
        ({
            let at = advance(begin(v, s).0, between, Evt::<C, M, S>::Ready);
            if context_of(between, context) is Some {
                &&& at.2 == (Act::Run { realm: context })
                &&& at.0.step == (Step::Running { realm: context })
                &&& at.1 == between
            } else {
                comes_to(
                    at,
                    w,
                    Outcome::Done(Err(Fault::Runtime("realm disposed or unknown"@))),
                )
            }
        }),
{
}

/// A script is run in the realm that it was compiled in. One that is not there,
/// or whose realm is not, is replied so, whether a deadline passed or not.
pub proof fn law_script_runs_in_its_realm<C, M, S, F>(
    v: Srv,
    s: Iso<C, M, S, F>,
    script: i32,
    timeout_ms: u64,
    between: Iso<C, M, S, F>,
    w: WindUp<C, M, S, F>,
)
    requires
        v.job == (Job::RunScript { script, timeout_ms }),
    ensures
        ({
            let at = advance(begin(v, s).0, between, Evt::<C, M, S>::Ready);
            match find_script(between.scripts, script) {
                Some(found) => if context_of(between, found.context) is Some {
                    &&& at.2 == (Act::Run { realm: found.context })
                    &&& at.0.step == (Step::Running { realm: found.context })
                    &&& at.1 == between
                } else {
                    comes_to(
                        at,
                        w,
                        Outcome::Done(Err(Fault::Runtime("script's context is gone"@))),
                    )
                },
                None => comes_to(
                    at,
                    w,
                    Outcome::Done(Err(Fault::Runtime("unknown script"@))),
                ),
            }
        }),
{
}

/// Draining runs the microtasks of the main realm and is replied with nothing,
/// or that it was terminated.
pub proof fn law_drain_is_replied<C, M, S, F>(
    v: Srv,
    s: Iso<C, M, S, F>,
    timeout_ms: u64,
    between: Iso<C, M, S, F>,
    w: WindUp<C, M, S, F>,
)
    requires
        v.job == (Job::Drain { timeout_ms }),
    ensures
        ({
            let at = advance(begin(v, s).0, between, Evt::<C, M, S>::Ready);
            &&& between.main is Some ==> at.2 == (Act::Checkpoint { realm: 0 })
            &&& between.main is None ==> at.2 == Act::Disarm
            &&& comes_to(
                at,
                w,
                Outcome::Done(
                    if w.fired {
                        Err(Fault::Terminated)
                    } else {
                        Ok(Val::Undefined)
                    },
                ),
            )
        }),
{
}

/// Evaluating a module begins with its status, where the module and the realm that
/// it was compiled in are there, and is else replied so, whether a deadline passed
/// or not.
pub proof fn law_evaluation_needs_its_module<C, M, S, F>(
    v: Srv,
    s: Iso<C, M, S, F>,
    module: i32,
    timeout_ms: u64,
    between: Iso<C, M, S, F>,
    w: WindUp<C, M, S, F>,
)
    requires
        v.job == (Job::Evaluate { module, timeout_ms }),
    ensures
        ({
            let at = advance(begin(v, s).0, between, Evt::<C, M, S>::Ready);
            match find_module(between.modules, module) {
                Some(m) => if context_of(between, m.context) is Some {
                    &&& at.2 == (Act::AskStatus { module })
                    &&& at.0.step == (Step::EvaluateStatus { module, realm: m.context })
                    &&& at.1 == between
                } else {
                    comes_to(
                        at,
                        w,
                        Outcome::Done(Err(Fault::Runtime("module's context is gone"@))),
                    )
                },
                None => comes_to(
                    at,
                    w,
                    Outcome::Done(Err(Fault::Runtime("unknown module"@))),
                ),
            }
        }),
{
}

/// A module is evaluated only where it is linked and was not evaluated yet. One
/// that was is replied with nothing, one that failed with its exception, and one
/// that is not linked is refused; none of these runs JavaScript, so no deadline
/// overrides them.
pub proof fn law_evaluation_goes_by_status<C, M, S, F>(
    v: Srv,
    s: Iso<C, M, S, F>,
    module: i32,
    realm: i32,
    status: ModuleStatus,
    exception: Seq<char>,
    w: WindUp<C, M, S, F>,
)
    requires
        v.step == (Step::EvaluateStatus { module, realm }),
    ensures
        ({
            let at = advance(v, s, Evt::<C, M, S>::Status { status, exception });
            match status {
                ModuleStatus::Instantiated => at.2 == (Act::Evaluate { module, realm })
                    && at.0.step == (Step::Evaluating { realm }),
                ModuleStatus::Evaluated => comes_to(at, w, Outcome::Done(Ok(Val::Undefined))),
                ModuleStatus::Errored => comes_to(
                    at,
                    w,
                    Outcome::Done(
                        Err(Fault::JsError { message: exception, backtrace: Seq::empty() }),
                    ),
                ),
                _ => comes_to(
                    at,
                    w,
                    Outcome::Done(
                        Err(Fault::Runtime("module must be instantiated before evaluate"@)),
                    ),
                ),
            }
        }),
{
    let idle = Work { realm, ran: false, result: Ok(Val::Undefined), remembered: false };
    let failed = Fault::JsError { message: exception, backtrace: Seq::empty() };
    let refused = Fault::Runtime("module must be instantiated before evaluate"@);
    lemma_past_run(v, s, idle, w);
    lemma_past_run(v, s, Work { result: Err(failed), ..idle }, w);
    lemma_past_run(v, s, Work { result: Err(refused), ..idle }, w);
}

/// What an evaluation is replied with, unless a deadline passed: the reason of a
/// promise that is rejected, be it at once or once the microtasks ran, and else
/// nothing, since the value of a module is its namespace. What gave no promise and no
/// value is a failed run.
pub open spec fn evaluation_reply(e: Evaluation, promise: Option<Seq<char>>) -> Result<
    Val,
    Fault,
> {
    match e {
        Evaluation::Rejected(reason) => Err(
            Fault::JsError { message: reason@, backtrace: Seq::empty() },
        ),
        Evaluation::Promise => match promise {
            Some(reason) => Err(Fault::JsError { message: reason, backtrace: Seq::empty() }),
            None => Ok(Val::Undefined),
        },
        Evaluation::Plain => Ok(Val::Undefined),
        Evaluation::Nothing { terminated, thrown } => if terminated {
            Err(Fault::Terminated)
        } else {
            Err(js_error(thrown))
        },
    }
}

/// An evaluation is replied with what became of its promise, or of the run where it
/// gave none, and a deadline that passed overrides all of it.
pub proof fn law_evaluation_is_replied<C, M, S, F>(
    v: Srv,
    s: Iso<C, M, S, F>,
    realm: i32,
    e: Evaluation,
    w: WindUp<C, M, S, F>,
)
    requires
        v.step == (Step::Evaluating { realm }),
    ensures
        comes_to(
            advance(v, s, Evt::<C, M, S>::Evaluated(e)),
            w,
            Outcome::Done(
                if w.fired {
                    Err(Fault::Terminated)
                } else {
                    evaluation_reply(e, w.promise)
                },
            ),
        ),
{
    lemma_past_run(v, s, evaluated(e, realm), w);
}

/// The promise of an evaluation is looked at again exactly where it was not rejected
/// at once, and only after the microtasks.
pub proof fn law_promise_is_looked_at_after_microtasks<C, M, S, F>(
    v: Srv,
    s: Iso<C, M, S, F>,
    realm: i32,
    e: Evaluation,
)
    requires
        v.step == (Step::Evaluating { realm }),
    ensures
        ({
            let at = advance(v, s, Evt::<C, M, S>::Evaluated(e));
            &&& v.outermost && s.auto ==> at.2 == Act::AskTerminating
            &&& !(v.outermost && s.auto) ==> (at.2 == Act::AskPromise <==> e is Promise)
            &&& !(v.outermost && s.auto) ==> (at.2 == Act::Disarm <==> !(e is Promise))
        }),
{
}

/// A namespace that is asked for is read in the module's own realm, once the
/// module is linked, and the request is replied with exactly what was read.
pub proof fn law_namespace_is_replied<C, M, S, F>(
    v: Srv,
    s: Iso<C, M, S, F>,
    module: i32,
    between: Iso<C, M, S, F>,
    later: Iso<C, M, S, F>,
    status: ModuleStatus,
    exception: Seq<char>,
    value: Val,
)
    requires
        v.job == (Job::Namespace { module }),
    ensures
        ({
            let at = begin(v, s);
            match find_module(s.modules, module) {
                Some(m) => if context_of(s, m.context) is Some {
                    let read = advance(
                        at.0,
                        between,
                        Evt::<C, M, S>::Status { status, exception },
                    );
                    &&& at.2 == (Act::AskStatus { module })
                    &&& if status == ModuleStatus::Uninstantiated || status
                        == ModuleStatus::Instantiating {
                        replied(
                            read,
                            Outcome::Done(
                                Err(
                                    Fault::Runtime(
                                        "module must be instantiated before namespace"@,
                                    ),
                                ),
                            ),
                        )
                    } else {
                        &&& read.2 == (Act::Namespace { module, realm: m.context })
                        &&& replied(
                            advance(read.0, later, Evt::<C, M, S>::Value(value)),
                            Outcome::Done(Ok(value)),
                        )
                    }
                } else {
                    replied(at, Outcome::Done(Err(Fault::Runtime("module's context is gone"@))))
                },
                None => replied(at, Outcome::Done(Err(Fault::Runtime("unknown module"@)))),
            }
        }),
{
}

/// Whatever request is told the value of a namespace is replied with that value.
pub proof fn law_namespace_value_is_handed_on<C, M, S, F>(
    v: Srv,
    s: Iso<C, M, S, F>,
    value: Val,
)
    requires
        v.step == Step::Namespace,
    ensures
        replied(advance(v, s, Evt::<C, M, S>::Value(value)), Outcome::Done(Ok(value))),
{
}

/// The sweep of a termination changes nothing of the reply or the isolate.
pub proof fn law_sweep_hands_the_reply_on<C, M, S, F>(
    v: Srv,
    s: Iso<C, M, S, F>,
    o: Outcome,
    e: Evt<C, M, S>,
)
    requires
        v.step == Step::Sweeping(o),
    ensures
        advance(v, s, e).2 == Act::Reply(o),
        advance(v, s, e).1 == s,
{
}

/// A module is linked only where it is not yet, in its own realm. The request is
/// replied with nothing where the module is linked then, or was before, with the
/// exception of a module that failed, and else with why linking failed.
pub proof fn law_link_is_replied<C, M, S, F>(
    v: Srv,
    s: Iso<C, M, S, F>,
    module: i32,
    between: Iso<C, M, S, F>,
    later: Iso<C, M, S, F>,
    status: ModuleStatus,
    exception: Seq<char>,
    ok: bool,
    terminated: bool,
    thrown: Thrown,
)
    requires
        v.job == (Job::Instantiate { module }),
        !s.instantiating,
    ensures
        ({
            let at = begin(v, s);
            match find_module(s.modules, module) {
                Some(m) => if context_of(s, m.context) is Some {
                    let link = advance(
                        at.0,
                        between,
                        Evt::<C, M, S>::Status { status, exception },
                    );
                    &&& at.2 == (Act::AskStatus { module })
                    &&& match status {
                        ModuleStatus::Errored => replied(
                            link,
                            Outcome::Done(
                                Err(
                                    Fault::JsError {
                                        message: exception,
                                        backtrace: Seq::empty(),
                                    },
                                ),
                            ),
                        ),
                        ModuleStatus::Uninstantiated | ModuleStatus::Instantiating => {
                            let end = advance(
                                link.0,
                                later,
                                Evt::<C, M, S>::Linked { ok, terminated, thrown },
                            );
                            &&& link.2 == (Act::Link { module, realm: m.context })
                            &&& ok ==> replied(end, Outcome::Done(Ok(Val::Undefined)))
                            &&& !ok && terminated ==> replied(
                                end,
                                Outcome::Done(Err(Fault::Terminated)),
                            )
                            &&& !ok && !terminated ==> replied(
                                end,
                                Outcome::Done(Err(js_error(thrown))),
                            )
                        },
                        _ => replied(link, Outcome::Done(Ok(Val::Undefined))),
                    }
                } else {
                    replied(at, Outcome::Done(Err(Fault::Runtime("module's context is gone"@))))
                },
                None => replied(at, Outcome::Done(Err(Fault::Runtime("unknown module"@)))),
            }
        }),
{
}

/// The status of a module that is there is replied by its name, which tells it
/// from every other status; a module that is not there is unknown. Nothing of the
/// isolate changes.
pub proof fn law_status_is_replied<C, M, S, F>(
    v: Srv,
    s: Iso<C, M, S, F>,
    module: i32,
    between: Iso<C, M, S, F>,
    status: ModuleStatus,
    exception: Seq<char>,
)
    requires
        v.job == (Job::Status { module }),
    ensures
        ({
            let at = begin(v, s);
            if find_module(s.modules, module) is Some {
                &&& at.2 == (Act::AskStatus { module })
                &&& replied(
                    advance(at.0, between, Evt::<C, M, S>::Status { status, exception }),
                    Outcome::Done(
                        Ok(
                            Val::Str(
                                match status {
                                    ModuleStatus::Uninstantiated => "uninstantiated"@,
                                    ModuleStatus::Instantiating => "instantiating"@,
                                    ModuleStatus::Instantiated => "instantiated"@,
                                    ModuleStatus::Evaluating => "evaluating"@,
                                    ModuleStatus::Evaluated => "evaluated"@,
                                    ModuleStatus::Errored => "errored"@,
                                },
                            ),
                        ),
                    ),
                )
            } else {
                replied(at, Outcome::Done(Err(Fault::Runtime("unknown module"@))))
            }
        }),
{
}

/// The realm that compiling goes on in, or the reply where there is none: source
/// is compiled in the realm that it is for, in the mode that the request gives.
pub proof fn law_source_is_compiled_in_its_realm<C, M, S, F>(
    v: Srv,
    s: Iso<C, M, S, F>,
    context: i32,
    has_cache: bool,
    produce: bool,
    eager: bool,
)
    ensures
        ({
            let mode = if has_cache {
                CompileMode::ConsumeCache
            } else if eager {
                CompileMode::Eager
            } else {
                CompileMode::Lazy
            };
            let gone = Fault::Runtime("context disposed or unknown"@);
            &&& v.job == (Job::CompileModule {
                context,
                has_cache,
                produce,
                eager,
            }) ==> if context_of(s, context) is Some {
                &&& begin(v, s).2 == (Act::Compile { realm: context, mode, produce })
                &&& begin(v, s).0.step == (Step::CompilingModule { realm: context })
            } else {
                replied(begin(v, s), Outcome::ModuleCompiled(Err(gone)))
            }
            &&& v.job == (Job::CompileScript {
                context,
                has_cache,
                produce,
                eager,
            }) ==> if context_of(s, context) is Some {
                &&& begin(v, s).2 == (Act::Compile { realm: context, mode, produce })
                &&& begin(v, s).0.step == (Step::CompilingScript { realm: context })
            } else {
                replied(begin(v, s), Outcome::ScriptCompiled(Err(gone)))
            }
        }),
{
}

proof fn lemma_find_pushed_module<M>(modules: Seq<Mod<M>>, m: Mod<M>, id: i32)
    requires
        forall|i: int| 0 <= i < modules.len() ==> (#[trigger] modules[i]).id != m.id,
    ensures
        find_module(modules.push(m), id) == if id == m.id {
            Some(m)
        } else {
            find_module(modules, id)
        },
        find_module(modules, m.id) is None,
    decreases modules.len(),
{
    let all = modules.push(m);
    if modules.len() == 0 {
        assert(all.skip(1) =~= Seq::empty());
        reveal_with_fuel(find_module, 2);
    } else {
        let rest = modules.skip(1);
        assert(all.skip(1) =~= rest.push(m));
        assert forall|i: int| 0 <= i < rest.len() implies (#[trigger] rest[i]).id != m.id by {
            assert(rest[i] == modules[i + 1]);
        }
        lemma_find_pushed_module(rest, m, id);
        assert(all[0] == modules[0]);
    }
}

proof fn lemma_find_pushed_script<S>(scripts: Seq<Scr<S>>, m: Scr<S>, id: i32)
    requires
        forall|i: int| 0 <= i < scripts.len() ==> (#[trigger] scripts[i]).id != m.id,
    ensures
        find_script(scripts.push(m), id) == if id == m.id {
            Some(m)
        } else {
            find_script(scripts, id)
        },
        find_script(scripts, m.id) is None,
    decreases scripts.len(),
{
    let all = scripts.push(m);
    if scripts.len() == 0 {
        assert(all.skip(1) =~= Seq::empty());
        reveal_with_fuel(find_script, 2);
    } else {
        let rest = scripts.skip(1);
        assert(all.skip(1) =~= rest.push(m));
        assert forall|i: int| 0 <= i < rest.len() implies (#[trigger] rest[i]).id != m.id by {
            assert(rest[i] == scripts[i + 1]);
        }
        lemma_find_pushed_script(rest, m, id);
        assert(all[0] == scripts[0]);
    }
}

/// A module that was compiled is found under the id that is replied, with its own
/// handle, name and realm; no module had that id before, and every other one is
/// found as before. A cache is replied where one was asked for, and a rejection
/// only where one was supplied.
pub proof fn law_compiled_module_is_found<C, M, S, F>(
    v: Srv,
    s: Iso<C, M, S, F>,
    realm: i32,
    handle: M,
    hash: i32,
    produced: Option<Vec<u8>>,
    rejected: bool,
    other: i32,
)
    requires
        iso_wf(s),
        v.step == (Step::CompilingModule { realm }),
        v.job is CompileModule,
        s.next_module < i32::MAX,
        other != s.next_module,
    ensures
        ({
            let done = Compilation::Done { handle, hash, produced, rejected };
            let at = advance(v, s, Evt::<C, M, S>::ModuleCompiled(done));
            let id = s.next_module;
            &&& find_module(s.modules, id) is None
            &&& find_module(at.1.modules, id) == Some(
                Mod { id, hash, handle, url: v.name, context: realm },
            )
            &&& find_module(at.1.modules, other) == find_module(s.modules, other)
            &&& at.1.next_module == id + 1
            &&& (at.1.scripts, at.1.contexts, at.1.main) == (s.scripts, s.contexts, s.main)
            &&& replied(
                at,
                Outcome::ModuleCompiled(
                    Ok(
                        Comp {
                            id,
                            cached_data: if v.job->CompileModule_produce {
                                opt_bytes(produced)
                            } else {
                                None
                            },
                            cache_rejected: v.job->CompileModule_has_cache && rejected,
                        },
                    ),
                ),
            )
        }),
{
    lemma_find_pushed_module(
        s.modules,
        Mod { id: s.next_module, hash, handle, url: v.name, context: realm },
        other,
    );
    lemma_find_pushed_module(
        s.modules,
        Mod { id: s.next_module, hash, handle, url: v.name, context: realm },
        s.next_module,
    );
}

/// The same of a script.
pub proof fn law_compiled_script_is_found<C, M, S, F>(
    v: Srv,
    s: Iso<C, M, S, F>,
    realm: i32,
    handle: S,
    hash: i32,
    produced: Option<Vec<u8>>,
    rejected: bool,
    other: i32,
)
    requires
        iso_wf(s),
        v.step == (Step::CompilingScript { realm }),
        v.job is CompileScript,
        s.next_script < i32::MAX,
        other != s.next_script,
    ensures
        ({
            let done = Compilation::Done { handle, hash, produced, rejected };
            let at = advance(v, s, Evt::<C, M, S>::ScriptCompiled(done));
            let id = s.next_script;
            &&& find_script(s.scripts, id) is None
            &&& find_script(at.1.scripts, id) == Some(Scr { id, handle, context: realm })
            &&& find_script(at.1.scripts, other) == find_script(s.scripts, other)
            &&& at.1.next_script == id + 1
            &&& (at.1.modules, at.1.contexts, at.1.main) == (s.modules, s.contexts, s.main)
            &&& replied(
                at,
                Outcome::ScriptCompiled(
                    Ok(
                        Comp {
                            id,
                            cached_data: if v.job->CompileScript_produce {
                                opt_bytes(produced)
                            } else {
                                None
                            },
                            cache_rejected: v.job->CompileScript_has_cache && rejected,
                        },
                    ),
                ),
            )
        }),
{
    lemma_find_pushed_script(
        s.scripts,
        Scr { id: s.next_script, handle, context: realm },
        other,
    );
    lemma_find_pushed_script(
        s.scripts,
        Scr { id: s.next_script, handle, context: realm },
        s.next_script,
    );
}

/// A compilation that gave nothing registers nothing and uses no id. It is replied
/// with a parse error that begins with the exception and ends with the file, unless
/// the engine was terminated, and source that is too large is replied so.
pub proof fn law_failed_compilation_leaves_nothing<C, M, S, F>(
    v: Srv,
    s: Iso<C, M, S, F>,
    realm: i32,
    module: bool,
    terminated: bool,
    failure: CompileFailure,
)
    requires
        if module {
            v.step == (Step::CompilingModule { realm })
        } else {
            v.step == (Step::CompilingScript { realm })
        },
    ensures
        ({
            let large = advance(
                v,
                s,
                if module {
                    Evt::<C, M, S>::ModuleCompiled(Compilation::TooLarge)
                } else {
                    Evt::<C, M, S>::ScriptCompiled(Compilation::TooLarge)
                },
            );
            let failed = advance(
                v,
                s,
                if module {
                    Evt::<C, M, S>::ModuleCompiled(Compilation::Failed { terminated, failure })
                } else {
                    Evt::<C, M, S>::ScriptCompiled(Compilation::Failed { terminated, failure })
                },
            );
            let reply = |f: Fault|
                if module {
                    Outcome::ModuleCompiled(Err(f))
                } else {
                    Outcome::ScriptCompiled(Err(f))
                };
            &&& (large.1.modules, large.1.scripts, large.1.next_module, large.1.next_script) == (
                s.modules,
                s.scripts,
                s.next_module,
                s.next_script,
            )
            &&& (failed.1.modules, failed.1.scripts, failed.1.next_module, failed.1.next_script)
                == (s.modules, s.scripts, s.next_module, s.next_script)
            &&& replied(
                large,
                reply(
                    Fault::Runtime(
                        if module {
                            "module source too large"@
                        } else {
                            "script source too large"@
                        },
                    ),
                ),
            )
            &&& terminated ==> replied(failed, reply(Fault::Terminated))
            &&& !terminated && failure.exception is Some && failure.resource is None
                && failure.line is None ==> replied(
                failed,
                reply(Fault::Parse(failure.exception->0@ + (" at "@ + v.name))),
            )
        }),
{
}

/// A realm that is created is found under the id that is replied; no realm had
/// that id before, and every other one is as before.
pub proof fn law_created_realm_is_found<C, M, S, F>(
    v: Srv,
    s: Iso<C, M, S, F>,
    made: C,
    other: i32,
)
    requires
        iso_wf(s),
        v.job == Job::Create,
        s.next_context < i32::MAX,
        other != s.next_context,
    ensures
        ({
            let asked = begin(v, s);
            let id = s.next_context;
            let at = advance(asked.0, asked.1, Evt::<C, M, S>::Fresh(made));
            &&& asked.2 == (Act::NewRealm { id })
            &&& asked.1.next_context == id + 1
            &&& context_of(s, id) is None
            &&& context_of(asked.1, id) is None
            &&& context_of(at.1, id) == Some(made)
            &&& context_of(at.1, other) == context_of(s, other)
            &&& (at.1.modules, at.1.scripts, at.1.handler) == (s.modules, s.scripts, s.handler)
            &&& replied(at, Outcome::Done(Ok(Val::Int(id as i64))))
        }),
{
}

/// A reset that is not refused makes a realm under the same id and is replied with
/// nothing once it is made; one that is refused makes none.
pub proof fn law_reset_is_replied<C, M, S, F>(
    v: Srv,
    s: Iso<C, M, S, F>,
    context: i32,
    made: C,
    between: Iso<C, M, S, F>,
)
    requires
        v.job == (Job::Reset { context }),
    ensures
        ({
            let asked = begin(v, s);
            match reset_refusal(s, context) {
                Some(f) => replied(asked, Outcome::Done(Err(f))),
                None => {
                    let at = advance(asked.0, between, Evt::<C, M, S>::Fresh(made));
                    &&& asked.2 == (Act::NewRealm { id: context })
                    &&& asked.1.contexts == s.contexts && asked.1.main == s.main
                    &&& context_of(at.1, context) == Some(made)
                    &&& replied(at, Outcome::Done(Ok(Val::Undefined)))
                },
            }
        }),
{
}

/// A realm is reset or disposed exactly where it may be: no microtasks run, no
/// request for it is on the stack, and, for a reset, it is there. Which of these
/// fails is what is told, the microtasks first.
pub proof fn law_realm_ends_only_when_free<C, M, S, F>(s: Iso<C, M, S, F>, id: i32)
    ensures
        reset_refusal(s, id) is None <==> !s.draining && !s.active.contains(id) && (id == 0
            || s.contexts.contains_key(id)),
        dispose_refusal(s, id) is None <==> !s.draining && !s.active.contains(id),
        s.draining ==> reset_refusal(s, id) == Some(
            Fault::Runtime("cannot reset a realm during a microtask checkpoint"@),
        ) && dispose_refusal(s, id) == Some(
            Fault::Runtime("cannot dispose a realm during a microtask checkpoint"@),
        ),
        !s.draining && id != 0 && !s.contexts.contains_key(id) ==> reset_refusal(s, id) == Some(
            Fault::Runtime("context disposed or unknown"@),
        ),
        !s.draining && s.active.contains(id) && (id == 0 || s.contexts.contains_key(id))
            ==> reset_refusal(s, id) == Some(
            Fault::Runtime(
                "cannot reset a realm while a request for it is suspended on the V8 stack"@,
            ),
        ),
        !s.draining && s.active.contains(id) ==> dispose_refusal(s, id) == Some(
            Fault::Runtime(
                "cannot dispose a realm while a request for it is suspended on the V8 stack"@,
            ),
        ),
{
}

/// A disposal of a realm that is not refused is replied with nothing, and the realm
/// is gone; to dispose one that is not there is no failure.
pub proof fn law_dispose_is_replied<C, M, S, F>(v: Srv, s: Iso<C, M, S, F>, context: i32)
    requires
        v.job == (Job::Dispose { context }),
        dispose_refusal(s, context) is None,
    ensures
        replied(begin(v, s), Outcome::Done(Ok(Val::Undefined))),
        context != 0 ==> context_of(begin(v, s).1, context) is None,
        begin(v, s).1.main == s.main,
        forall|id: i32|
            id != context ==> #[trigger] context_of(begin(v, s).1, id) == context_of(s, id),
{
}

proof fn lemma_find_last_module<M>(modules: Seq<Mod<M>>, id: i32)
    requires
        modules.len() > 0,
    ensures
        find_module(modules, id) == match find_module(modules.drop_last(), id) {
            Some(m) => Some(m),
            None => if modules.last().id == id {
                Some(modules.last())
            } else {
                None
            },
        },
    decreases modules.len(),
{
    if modules.len() == 1 {
        assert(modules.drop_last() =~= Seq::empty());
        assert(modules.skip(1) =~= Seq::empty());
        reveal_with_fuel(find_module, 2);
    } else {
        assert(modules.skip(1).drop_last() =~= modules.drop_last().skip(1));
        assert(modules.skip(1).last() == modules.last());
        assert(modules.drop_last()[0] == modules[0]);
        lemma_find_last_module(modules.skip(1), id);
    }
}

proof fn lemma_find_last_script<S>(scripts: Seq<Scr<S>>, id: i32)
    requires
        scripts.len() > 0,
    ensures
        find_script(scripts, id) == match find_script(scripts.drop_last(), id) {
            Some(m) => Some(m),
            None => if scripts.last().id == id {
                Some(scripts.last())
            } else {
                None
            },
        },
    decreases scripts.len(),
{
    if scripts.len() == 1 {
        assert(scripts.drop_last() =~= Seq::empty());
        assert(scripts.skip(1) =~= Seq::empty());
        reveal_with_fuel(find_script, 2);
    } else {
        assert(scripts.skip(1).drop_last() =~= scripts.drop_last().skip(1));
        assert(scripts.skip(1).last() == scripts.last());
        assert(scripts.drop_last()[0] == scripts[0]);
        lemma_find_last_script(scripts.skip(1), id);
    }
}

proof fn lemma_find_without<M, S>(
    modules: Seq<Mod<M>>,
    scripts: Seq<Scr<S>>,
    gone: i32,
    id: i32,
)
    ensures
        find_module(modules_without(modules, gone), id) == if id == gone {
            None
        } else {
            find_module(modules, id)
        },
        find_script(scripts_without(scripts, gone), id) == if id == gone {
            None
        } else {
            find_script(scripts, id)
        },
    decreases modules.len() + scripts.len(),
{
    if modules.len() > 0 {
        let rest = modules.drop_last();
        lemma_find_without(rest, scripts, gone, id);
        lemma_find_last_module(modules, id);
        let before = modules_without(rest, gone);
        if modules.last().id != gone {
            let all = before.push(modules.last());
            lemma_find_last_module(all, id);
            assert(all.drop_last() =~= before);
        }
    } else if scripts.len() > 0 {
        let rest = scripts.drop_last();
        lemma_find_without(modules, rest, gone, id);
        lemma_find_last_script(scripts, id);
        let before = scripts_without(rest, gone);
        if scripts.last().id != gone {
            let all = before.push(scripts.last());
            lemma_find_last_script(all, id);
            assert(all.drop_last() =~= before);
        }
    }
}

/// A module that is disposed is not found any more, and every other one is; to
/// dispose one that is not there is no failure.
pub proof fn law_disposed_module_is_gone<C, M, S, F>(
    v: Srv,
    s: Iso<C, M, S, F>,
    module: i32,
    other: i32,
)
    requires
        v.job == (Job::DisposeModule { module }),
        other != module,
    ensures
        replied(begin(v, s), Outcome::Done(Ok(Val::Undefined))),
        find_module(begin(v, s).1.modules, module) is None,
        find_module(begin(v, s).1.modules, other) == find_module(s.modules, other),
        begin(v, s).1.scripts == s.scripts && begin(v, s).1.contexts == s.contexts,
{
    lemma_find_without(s.modules, s.scripts, module, module);
    lemma_find_without(s.modules, s.scripts, module, other);
}

/// The same of a script.
pub proof fn law_disposed_script_is_gone<C, M, S, F>(
    v: Srv,
    s: Iso<C, M, S, F>,
    script: i32,
    other: i32,
)
    requires
        v.job == (Job::DisposeScript { script }),
        other != script,
    ensures
        replied(begin(v, s), Outcome::Done(Ok(Val::Undefined))),
        find_script(begin(v, s).1.scripts, script) is None,
        find_script(begin(v, s).1.scripts, other) == find_script(s.scripts, other),
        begin(v, s).1.modules == s.modules && begin(v, s).1.contexts == s.contexts,
{
    lemma_find_without(s.modules, s.scripts, script, script);
    lemma_find_without(s.modules, s.scripts, script, other);
}

/// A code cache is replied with exactly the bytes that the engine gave, or with
/// none; what cannot be found is no failure.
pub proof fn law_code_cache_is_replied<C, M, S, F>(
    v: Srv,
    s: Iso<C, M, S, F>,
    id: i32,
    between: Iso<C, M, S, F>,
    bytes: Option<Seq<u8>>,
)
    requires
        v.job == (Job::ScriptCache { script: id }) || v.job == (Job::ModuleCache { module: id }),
    ensures
        ({
            let asked = begin(v, s);
            let given = advance(asked.0, between, Evt::<C, M, S>::Cache(bytes));
            if v.job is ScriptCache {
                if find_script(s.scripts, id) is Some {
                    asked.2 == (Act::ScriptCache { script: id }) && replied(
                        given,
                        Outcome::CodeCache(Ok(bytes)),
                    )
                } else {
                    replied(asked, Outcome::CodeCache(Ok(None)))
                }
            } else {
                match find_module(s.modules, id) {
                    Some(m) => if context_of(s, m.context) is Some {
                        asked.2 == (Act::ModuleCache { module: id, realm: m.context }) && replied(
                            given,
                            Outcome::CodeCache(Ok(bytes)),
                        )
                    } else {
                        replied(asked, Outcome::CodeCache(Ok(None)))
                    },
                    None => replied(asked, Outcome::CodeCache(Ok(None))),
                }
            }
        }),
{
}

/// The realm that is kept while a request is on the stack is the one that it runs
/// in: that of the request itself, of its module or of its script, and the main one
/// while microtasks are drained.
pub proof fn law_request_holds_its_realm<C, M, S, F>(s: Iso<C, M, S, F>, j: Job, id: i32)
    ensures
        j matches Job::Run { context, .. } ==> realm_of(s, j) == Some(context),
        j matches Job::CompileModule { context, .. } ==> realm_of(s, j) == Some(context),
        j matches Job::CompileScript { context, .. } ==> realm_of(s, j) == Some(context),
        j is Drain ==> realm_of(s, j) == Some(0i32),
        j == (Job::Instantiate { module: id }) || j == (Job::Namespace { module: id }) || (
        j is Evaluate && j->Evaluate_module == id) ==> realm_of(s, j) == match find_module(
            s.modules,
            id,
        ) {
            Some(m) => Some(m.context),
            None => None,
        },
        j is RunScript && j->RunScript_script == id ==> realm_of(s, j) == match find_script(
            s.scripts,
            id,
        ) {
            Some(m) => Some(m.context),
            None => None,
        },
        j is Create || j is Reset || j is Dispose || j is Status || j is DisposeModule
            || j is DisposeScript || j is ScriptCache || j is ModuleCache ==> realm_of(s, j) is None,
        module_target(s, id) matches Ok(realm) ==> (find_module(s.modules, id) matches Some(m)
            && m.context == realm) && context_of(s, realm) is Some,
        script_target(s, id) matches Ok(realm) ==> (find_script(s.scripts, id) matches Some(m)
            && m.context == realm) && context_of(s, realm) is Some,
{
}

/// Whether a step changed only what it is for: what a request asks for, the mode
/// and the namespace stay, and realms, modules, scripts and the recorder change
/// only where one of them is made, swapped or disposed.
pub open spec fn only_what_is_said<C, M, S, F>(
    v: Srv,
    s: Iso<C, M, S, F>,
    at: (Srv, Iso<C, M, S, F>, Act),
) -> bool {
    let (v1, s1, a) = at;
    let begins = v.step is Cancelling;
    &&& v1.job == v.job && v1.name == v.name && v1.outermost == v.outermost
    &&& s1.auto == s.auto && s1.namespace == s.namespace
    &&& !(begins && v.job is Dispose) && !(v.step is Renewing) && !(v.step is Creating)
        ==> s1.main == s.main && s1.contexts == s.contexts && s1.handler == s.handler
    &&& !(begins && (v.job is Dispose || v.job is DisposeModule)) && !(v.step is Renewing) && !(
    v.step is CompilingModule) ==> s1.modules == s.modules && s1.next_module == s.next_module
    &&& !(begins && (v.job is Dispose || v.job is DisposeScript)) && !(v.step is Renewing) && !(
    v.step is CompilingScript) ==> s1.scripts == s.scripts && s1.next_script == s.next_script
    &&& !(begins && v.job is Create) ==> s1.next_context == s.next_context
}

#[verifier::spinoff_prover]
proof fn lemma_beginning_changes<C, M, S, F>(v: Srv, s: Iso<C, M, S, F>)
    requires
        v.step is Cancelling,
    ensures
        only_what_is_said(v, s, begin(v, s)),
{
}

#[verifier::spinoff_prover]
proof fn lemma_running_changes<C, M, S, F>(v: Srv, s: Iso<C, M, S, F>, e: Evt<C, M, S>)
    requires
        v.step is Arming || v.step is Running || v.step is Terminating || v.step is Draining
            || v.step is EvaluateStatus || v.step is Evaluating || v.step is Settling
            || v.step is Disarming,
    ensures
        only_what_is_said(v, s, advance(v, s, e)),
{
}

/// No step changes anything but what it is for.
#[verifier::rlimit(60)]
#[verifier::spinoff_prover]
pub proof fn law_steps_change_only_what_they_say<C, M, S, F>(
    v: Srv,
    s: Iso<C, M, S, F>,
    e: Evt<C, M, S>,
)
    ensures
        only_what_is_said(v, s, advance(v, s, e)),
{
    match v.step {
        Step::Cancelling => {
            assert(advance(v, s, e) == begin(v, s));
            lemma_beginning_changes(v, s);
        },
        Step::Renewing { .. } => {},
        Step::Creating { .. } => {},
        Step::CompilingModule { .. } => {},
        Step::CompilingScript { .. } => {},
        Step::LinkStatus { .. } => {},
        Step::Linking => {},
        Step::NamespaceStatus { .. } => {},
        Step::Namespace => {},
        Step::StatusName => {},
        Step::Caching => {},
        Step::Sweeping(_) => {},
        Step::Done => {},
        _ => {
            lemma_running_changes(v, s, e);
        },
    }
}

/// The outermost request clears a termination first, and then begins as a nested
/// one does at once: with the same first thing to do and the same change of the
/// isolate, as long as no deadline has left a mark.
pub proof fn law_outermost_begins_as_nested<C, M, S, F>(
    job: Job,
    name: Seq<char>,
    s: Iso<C, M, S, F>,
)
    requires
        !s.watchdog_fired,
    ensures
        ({
            let outer = first(fresh(job, name, true), s);
            let inner = first(fresh(job, name, false), s);
            let begun = advance(outer.0, s, Evt::<C, M, S>::Ready);
            &&& outer.2 == Act::CancelTerminate
            &&& outer.1 == s
            &&& begun.2 == inner.2
            &&& begun.1 == inner.1
            &&& begun.0.step == inner.0.step
            &&& (begun.0.job, begun.0.name, begun.0.outermost) == (job, name, true)
            &&& (inner.0.job, inner.0.name, inner.0.outermost) == (job, name, false)
        }),
{
}

/// What is to be done is told from everything else that could be: by its kind, and by
/// the realm, module, script, timeout or reply that it is about.
pub proof fn law_actions_are_told_apart(a: Action, b: Action)
    requires
        a@ == b@,
    ensures
        a is CancelTerminate <==> b is CancelTerminate,
        a is AskTerminating <==> b is AskTerminating,
        a is AskPromise <==> b is AskPromise,
        a is Disarm <==> b is Disarm,
        a matches Action::Arm(x) ==> (b matches Action::Arm(y) && x == y),
        a matches Action::Run { realm } ==> (b matches Action::Run { realm: r } && realm == r),
        a matches Action::Checkpoint { realm } ==> (b matches Action::Checkpoint { realm: r }
            && realm == r),
        a matches Action::AskStatus { module } ==> (b matches Action::AskStatus { module: m }
            && module == m),
        a matches Action::Evaluate { module, realm } ==> (b matches Action::Evaluate {
            module: m,
            realm: r,
        } && module == m && realm == r),
        a matches Action::NewRealm { id } ==> (b matches Action::NewRealm { id: i } && id == i),
        a matches Action::Compile { realm, mode, produce } ==> (b matches Action::Compile {
            realm: r,
            mode: m,
            produce: p,
        } && realm == r && mode == m && produce == p),
        a matches Action::Link { module, realm } ==> (b matches Action::Link {
            module: m,
            realm: r,
        } && module == m && realm == r),
        a matches Action::Namespace { module, realm } ==> (b matches Action::Namespace {
            module: m,
            realm: r,
        } && module == m && realm == r),
        a matches Action::ScriptCache { script } ==> (b matches Action::ScriptCache { script: x }
            && script == x),
        a matches Action::ModuleCache { module, realm } ==> (b matches Action::ModuleCache {
            module: m,
            realm: r,
        } && module == m && realm == r),
        a matches Action::Reply(r) ==> (b matches Action::Reply(q) && r@ == q@),
{
}

/// The engine's answers are taken as they are: what a run or a namespace came to, and
/// what is known of a status, a promise, a deadline or a cache.
pub proof fn law_answers_are_taken_as_they_are<C, M, S>(
    r: Result<JsVal, VmError>,
    v: JsVal,
    b: bool,
    status: ModuleStatus,
    text: String,
    bytes: Vec<u8>,
)
    ensures
        Event::<C, M, S>::Ran(r)@ == Evt::<C, M, S>::Ran(outcome(r)),
        Event::<C, M, S>::Value(v)@ == Evt::<C, M, S>::Value(v@),
        Event::<C, M, S>::Terminating(b)@ == Evt::<C, M, S>::Terminating(b),
        Event::<C, M, S>::Disarmed(b)@ == Evt::<C, M, S>::Disarmed(b),
        (Event::<C, M, S>::Status { status, exception: Some(text) })@ == (Evt::<
            C,
            M,
            S,
        >::Status { status, exception: text@ }),
        (Event::<C, M, S>::Status { status, exception: None })@ == (Evt::<C, M, S>::Status {
            status,
            exception: Seq::empty(),
        }),
        Event::<C, M, S>::Promise(Some(text))@ == Evt::<C, M, S>::Promise(Some(text@)),
        Event::<C, M, S>::Promise(None)@ == Evt::<C, M, S>::Promise(None),
        Event::<C, M, S>::Cache(Some(bytes))@ == Evt::<C, M, S>::Cache(Some(bytes@)),
        Event::<C, M, S>::Cache(None)@ == Evt::<C, M, S>::Cache(None),
{
}

} // verus!
