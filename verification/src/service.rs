//! Servicing one request, as a machine: each step takes what the engine
//! answered and gives the next thing to do. A request may run JavaScript that
//! issues further requests; each of them is serviced by a machine of its own
//! on the same `IsolateState`, from its first step to its reply, between two
//! steps of the one around it.
use crate::failures::{
    compile_failure, compile_fault, compile_source, run_failure, run_fault, runtime_error,
    source_too_large, too_large, CompileFailure, CompileMode, SourceKind, Thrown,
};
use crate::registry::{
    after_dispose, after_reset, context_of, dispose_refusal, find_module, find_script, iso_wf,
    module_realm, modules_without, reset_refusal, script_realm, scripts_without, Iso,
    IsolateState, Mod, Scr,
};
use crate::request::{job, source_name, opt_bytes, Comp, Compiled, Job, Outcome, Request, VmReply};
use crate::text::views;
use crate::value::{outcome, Fault, JsVal, Val, VmError};
use crate::whole_request::{first, fresh};
use vstd::prelude::*;

verus! {

broadcast use vstd::string::group_string_axioms;

/// How far a module has come.
#[derive(Debug, Clone, Copy, PartialEq, Eq, Structural)]
pub enum ModuleStatus {
    Uninstantiated,
    Instantiating,
    Instantiated,
    Evaluating,
    Evaluated,
    Errored,
}

/// What is to be done next.
#[derive(Debug)]
pub enum Action {
    /// Clear a pending termination of the engine.
    CancelTerminate,
    /// Arm the watchdog; zero is no deadline.
    Arm(u64),
    /// Do what the request says, in a realm.
    Run { realm: i32 },
    /// Tell whether the engine is being terminated.
    AskTerminating,
    /// Run the microtasks that are due, in a realm.
    Checkpoint { realm: i32 },
    /// Tell the status of a module, and its exception where it has one.
    AskStatus { module: i32 },
    /// Evaluate a module, in a realm.
    Evaluate { module: i32, realm: i32 },
    /// Tell whether the promise of the evaluation is rejected by now.
    AskPromise,
    /// Disarm the watchdog.
    Disarm,
    /// Make a fresh realm under an id.
    NewRealm { id: i32 },
    /// Compile the request's source in a realm.
    Compile { realm: i32, mode: CompileMode, produce: bool },
    /// Link a module, in a realm.
    Link { module: i32, realm: i32 },
    /// Read a module's namespace, in a realm.
    Namespace { module: i32, realm: i32 },
    /// Serialise what is compiled of a script.
    ScriptCache { script: i32 },
    /// Serialise what is compiled of a module, in a realm.
    ModuleCache { module: i32, realm: i32 },
    /// The request is done.
    Reply(VmReply),
}

/// What evaluating a module gave.
#[derive(Debug)]
pub enum Evaluation {
    /// A promise that is already rejected, with its reason.
    Rejected(String),
    /// A promise that is not rejected. It is to be remembered.
    Promise,
    /// A value that is no promise.
    Plain,
    /// Nothing.
    Nothing { terminated: bool, thrown: Thrown },
}

/// What compiling gave; `H` is the engine's handle.
#[derive(Debug)]
pub enum Compilation<H> {
    /// The source is too large for the engine.
    TooLarge,
    /// Nothing.
    Failed { terminated: bool, failure: CompileFailure },
    Done {
        handle: H,
        hash: i32,
        /// A fresh bytecode cache.
        produced: Option<Vec<u8>>,
        /// Whether the engine did not take the supplied cache.
        rejected: bool,
    },
}

/// The answer to an action.
#[derive(Debug)]
pub enum Event<C, M, S> {
    /// It is done.
    Ready,
    /// What running came to.
    Ran(Result<JsVal, VmError>),
    Terminating(bool),
    Status { status: ModuleStatus, exception: Option<String> },
    Evaluated(Evaluation),
    /// The reason of the promise, where it is rejected.
    Promise(Option<String>),
    /// Whether the deadline passed.
    Disarmed(bool),
    Fresh(C),
    ModuleCompiled(Compilation<M>),
    ScriptCompiled(Compilation<S>),
    Linked { ok: bool, terminated: bool, thrown: Thrown },
    Value(JsVal),
    Cache(Option<Vec<u8>>),
}

/// What the part of a request that runs JavaScript came to so far.
struct Body {
    realm: i32,
    /// Whether JavaScript ran.
    ran: bool,
    result: Result<JsVal, VmError>,
    /// Whether there is a promise to look at after the microtasks ran.
    remembered: bool,
}

enum Stage {
    Cancelling,
    Arming,
    Running { realm: i32 },
    Terminating(Body),
    Draining { before: bool, body: Body },
    EvaluateStatus { module: i32, realm: i32 },
    Evaluating { realm: i32 },
    Settling(Body),
    Disarming { ran: bool, result: Result<JsVal, VmError> },
    Renewing { id: i32 },
    Creating { id: i32 },
    CompilingModule { realm: i32 },
    CompilingScript { realm: i32 },
    LinkStatus { module: i32, realm: i32 },
    Linking,
    NamespaceStatus { module: i32, realm: i32 },
    Namespace,
    StatusName,
    Caching,
    Sweeping(VmReply),
    Done,
}

/// One request being serviced.
pub struct Service {
    job: Job,
    name: String,
    outermost: bool,
    realm: Option<i32>,
    stage: Stage,
}

/// The mathematical value of a `Body`.
pub ghost struct Work {
    pub realm: i32,
    pub ran: bool,
    pub result: Result<Val, Fault>,
    pub remembered: bool,
}

/// Where a request stands.
pub ghost enum Step {
    Cancelling,
    Arming,
    Running { realm: i32 },
    Terminating(Work),
    Draining { before: bool, body: Work },
    EvaluateStatus { module: i32, realm: i32 },
    Evaluating { realm: i32 },
    Settling(Work),
    Disarming { ran: bool, result: Result<Val, Fault> },
    Renewing { id: i32 },
    Creating { id: i32 },
    CompilingModule { realm: i32 },
    CompilingScript { realm: i32 },
    LinkStatus { module: i32, realm: i32 },
    Linking,
    NamespaceStatus { module: i32, realm: i32 },
    Namespace,
    StatusName,
    Caching,
    Sweeping(Outcome),
    Done,
}

/// The mathematical value of a request being serviced.
pub ghost struct Srv {
    pub job: Job,
    /// The name under which a module or a script is compiled.
    pub name: Seq<char>,
    /// Whether no other request is on the stack.
    pub outermost: bool,
    /// The realm that was put on the stack of active ones.
    pub realm: Option<i32>,
    pub step: Step,
}

/// The mathematical value of an action.
pub ghost enum Act {
    CancelTerminate,
    Arm(u64),
    Run { realm: i32 },
    AskTerminating,
    Checkpoint { realm: i32 },
    AskStatus { module: i32 },
    Evaluate { module: i32, realm: i32 },
    AskPromise,
    Disarm,
    NewRealm { id: i32 },
    Compile { realm: i32, mode: CompileMode, produce: bool },
    Link { module: i32, realm: i32 },
    Namespace { module: i32, realm: i32 },
    ScriptCache { script: i32 },
    ModuleCache { module: i32, realm: i32 },
    Reply(Outcome),
}

/// The mathematical value of an answer.
pub ghost enum Evt<C, M, S> {
    Ready,
    Ran(Result<Val, Fault>),
    Terminating(bool),
    Status { status: ModuleStatus, exception: Seq<char> },
    Evaluated(Evaluation),
    Promise(Option<Seq<char>>),
    Disarmed(bool),
    Fresh(C),
    ModuleCompiled(Compilation<M>),
    ScriptCompiled(Compilation<S>),
    Linked { ok: bool, terminated: bool, thrown: Thrown },
    Value(Val),
    Cache(Option<Seq<u8>>),
}

impl View for Action {
    type V = Act;

    open spec fn view(&self) -> Act {
        match self {
            Action::CancelTerminate => Act::CancelTerminate,
            Action::Arm(ms) => Act::Arm(*ms),
            Action::Run { realm } => Act::Run { realm: *realm },
            Action::AskTerminating => Act::AskTerminating,
            Action::Checkpoint { realm } => Act::Checkpoint { realm: *realm },
            Action::AskStatus { module } => Act::AskStatus { module: *module },
            Action::Evaluate { module, realm } => Act::Evaluate { module: *module, realm: *realm },
            Action::AskPromise => Act::AskPromise,
            Action::Disarm => Act::Disarm,
            Action::NewRealm { id } => Act::NewRealm { id: *id },
            Action::Compile { realm, mode, produce } => Act::Compile {
                realm: *realm,
                mode: *mode,
                produce: *produce,
            },
            Action::Link { module, realm } => Act::Link { module: *module, realm: *realm },
            Action::Namespace { module, realm } => Act::Namespace {
                module: *module,
                realm: *realm,
            },
            Action::ScriptCache { script } => Act::ScriptCache { script: *script },
            Action::ModuleCache { module, realm } => Act::ModuleCache {
                module: *module,
                realm: *realm,
            },
            Action::Reply(r) => Act::Reply(r@),
        }
    }
}

/// The text of an optional string, empty where there is none.
pub open spec fn opt_text(s: Option<String>) -> Seq<char> {
    match s {
        Some(t) => t@,
        None => Seq::empty(),
    }
}

impl<C, M, S> View for Event<C, M, S> {
    type V = Evt<C, M, S>;

    open spec fn view(&self) -> Evt<C, M, S> {
        match self {
            Event::Ready => Evt::Ready,
            Event::Ran(r) => Evt::Ran(outcome(*r)),
            Event::Terminating(b) => Evt::Terminating(*b),
            Event::Status { status, exception } => Evt::Status {
                status: *status,
                exception: opt_text(*exception),
            },
            Event::Evaluated(e) => Evt::Evaluated(*e),
            Event::Promise(p) => Evt::Promise(
                match p {
                    Some(t) => Some(t@),
                    None => None,
                },
            ),
            Event::Disarmed(b) => Evt::Disarmed(*b),
            Event::Fresh(c) => Evt::Fresh(*c),
            Event::ModuleCompiled(c) => Evt::ModuleCompiled(*c),
            Event::ScriptCompiled(c) => Evt::ScriptCompiled(*c),
            Event::Linked { ok, terminated, thrown } => Evt::Linked {
                ok: *ok,
                terminated: *terminated,
                thrown: *thrown,
            },
            Event::Value(v) => Evt::Value(v@),
            Event::Cache(b) => Evt::Cache(opt_bytes(*b)),
        }
    }
}

impl Body {
    spec fn view(self) -> Work {
        Work {
            realm: self.realm,
            ran: self.ran,
            result: outcome(self.result),
            remembered: self.remembered,
        }
    }
}

impl Stage {
    spec fn view(self) -> Step {
        match self {
            Stage::Cancelling => Step::Cancelling,
            Stage::Arming => Step::Arming,
            Stage::Running { realm } => Step::Running { realm },
            Stage::Terminating(b) => Step::Terminating(b.view()),
            Stage::Draining { before, body } => Step::Draining { before, body: body.view() },
            Stage::EvaluateStatus { module, realm } => Step::EvaluateStatus { module, realm },
            Stage::Evaluating { realm } => Step::Evaluating { realm },
            Stage::Settling(b) => Step::Settling(b.view()),
            Stage::Disarming { ran, result } => Step::Disarming { ran, result: outcome(result) },
            Stage::Renewing { id } => Step::Renewing { id },
            Stage::Creating { id } => Step::Creating { id },
            Stage::CompilingModule { realm } => Step::CompilingModule { realm },
            Stage::CompilingScript { realm } => Step::CompilingScript { realm },
            Stage::LinkStatus { module, realm } => Step::LinkStatus { module, realm },
            Stage::Linking => Step::Linking,
            Stage::NamespaceStatus { module, realm } => Step::NamespaceStatus { module, realm },
            Stage::Namespace => Step::Namespace,
            Stage::StatusName => Step::StatusName,
            Stage::Caching => Step::Caching,
            Stage::Sweeping(r) => Step::Sweeping(r@),
            Stage::Done => Step::Done,
        }
    }
}

impl View for Service {
    type V = Srv;

    closed spec fn view(&self) -> Srv {
        Srv {
            job: self.job,
            name: self.name@,
            outermost: self.outermost,
            realm: self.realm,
            step: self.stage.view(),
        }
    }
}

/// The realm that a request runs in, where it runs in one: while the request is
/// on the stack, that realm cannot be reset or disposed.
pub open spec fn realm_of<C, M, S, F>(s: Iso<C, M, S, F>, j: Job) -> Option<i32> {
    match j {
        Job::Run { context, .. } => Some(context),
        Job::CompileModule { context, .. } => Some(context),
        Job::CompileScript { context, .. } => Some(context),
        Job::Drain { .. } => Some(0),
        Job::Instantiate { module } => module_realm(s.modules, module),
        Job::Evaluate { module, .. } => module_realm(s.modules, module),
        Job::Namespace { module } => module_realm(s.modules, module),
        Job::RunScript { script, .. } => script_realm(s.scripts, script),
        _ => None,
    }
}

/// The realm that a request runs in.
pub fn request_realm<C, M, S, F>(state: &IsolateState<C, M, S, F>, j: Job) -> (r: Option<i32>)
    ensures
        r == realm_of(state@, j),
{
    match j {
        Job::Run { context, .. } => Some(context),
        Job::CompileModule { context, .. } => Some(context),
        Job::CompileScript { context, .. } => Some(context),
        Job::Drain { .. } => Some(0),
        Job::Instantiate { module } => match state.module_handle(module) {
            Some((_, c)) => Some(c),
            None => None,
        },
        Job::Evaluate { module, .. } => match state.module_handle(module) {
            Some((_, c)) => Some(c),
            None => None,
        },
        Job::Namespace { module } => match state.module_handle(module) {
            Some((_, c)) => Some(c),
            None => None,
        },
        Job::RunScript { script, .. } => match state.script_handle(script) {
            Some((_, c)) => Some(c),
            None => None,
        },
        _ => None,
    }
}

/// The realm to enter for a module, or why there is none.
pub open spec fn module_target<C, M, S, F>(s: Iso<C, M, S, F>, id: i32) -> Result<i32, Fault> {
    match find_module(s.modules, id) {
        None => Err(Fault::Runtime("unknown module"@)),
        Some(m) => if context_of(s, m.context) is Some {
            Ok(m.context)
        } else {
            Err(Fault::Runtime("module's context is gone"@))
        },
    }
}

/// The realm to enter for a script, or why there is none.
pub open spec fn script_target<C, M, S, F>(s: Iso<C, M, S, F>, id: i32) -> Result<i32, Fault> {
    match find_script(s.scripts, id) {
        None => Err(Fault::Runtime("unknown script"@)),
        Some(e) => if context_of(s, e.context) is Some {
            Ok(e.context)
        } else {
            Err(Fault::Runtime("script's context is gone"@))
        },
    }
}

/// An exception without frames.
pub open spec fn bare_error(message: Seq<char>) -> Fault {
    Fault::JsError { message, backtrace: Seq::empty() }
}

/// The request ends with a reply. Its realm leaves the stack, and the outermost
/// request clears a termination that a deadline has left behind.
pub open spec fn finish<C, M, S, F>(v: Srv, s: Iso<C, M, S, F>, o: Outcome) -> (
    Srv,
    Iso<C, M, S, F>,
    Act,
) {
    let s1 = if v.realm is Some && s.active.len() > 0 {
        Iso { active: s.active.drop_last(), ..s }
    } else {
        s
    };
    if v.outermost && s1.watchdog_fired {
        (
            Srv { step: Step::Sweeping(o), ..v },
            Iso { watchdog_fired: false, ..s1 },
            Act::CancelTerminate,
        )
    } else {
        (Srv { step: Step::Done, ..v }, s1, Act::Reply(o))
    }
}

/// The request ends with a value or a failure.
pub open spec fn done<C, M, S, F>(v: Srv, s: Iso<C, M, S, F>, r: Result<Val, Fault>) -> (
    Srv,
    Iso<C, M, S, F>,
    Act,
) {
    finish(v, s, Outcome::Done(r))
}

/// The request begins: its realm goes on the stack.
pub open spec fn begin<C, M, S, F>(v: Srv, s: Iso<C, M, S, F>) -> (Srv, Iso<C, M, S, F>, Act) {
    let realm = realm_of(s, v.job);
    let v1 = Srv { realm, ..v };
    let s1 = match realm {
        Some(id) => Iso { active: s.active.push(id), ..s },
        None => s,
    };
    dispatch(v1, s1)
}

/// The first thing that a request needs.
pub open spec fn dispatch<C, M, S, F>(v: Srv, s: Iso<C, M, S, F>) -> (Srv, Iso<C, M, S, F>, Act) {
    match v.job {
        Job::Run { timeout_ms, .. } => (Srv { step: Step::Arming, ..v }, s, Act::Arm(timeout_ms)),
        Job::RunScript { timeout_ms, .. } => (
            Srv { step: Step::Arming, ..v },
            s,
            Act::Arm(timeout_ms),
        ),
        Job::Evaluate { timeout_ms, .. } => (
            Srv { step: Step::Arming, ..v },
            s,
            Act::Arm(timeout_ms),
        ),
        Job::Drain { timeout_ms } => (Srv { step: Step::Arming, ..v }, s, Act::Arm(timeout_ms)),
        Job::Reset { context } => match reset_refusal(s, context) {
            Some(f) => done(v, s, Err(f)),
            None => (
                Srv { step: Step::Renewing { id: context }, ..v },
                s,
                Act::NewRealm { id: context },
            ),
        },
        Job::Create => (
            Srv { step: Step::Creating { id: s.next_context }, ..v },
            Iso { next_context: (s.next_context + 1) as i32, ..s },
            Act::NewRealm { id: s.next_context },
        ),
        Job::Dispose { context } => match dispose_refusal(s, context) {
            Some(f) => done(v, s, Err(f)),
            None => done(v, after_dispose(s, context), Ok(Val::Undefined)),
        },
        Job::CompileModule { context, has_cache, produce, eager } => if context_of(
            s,
            context,
        ) is Some {
            (
                Srv { step: Step::CompilingModule { realm: context }, ..v },
                s,
                Act::Compile { realm: context, mode: mode_of(has_cache, eager), produce },
            )
        } else {
            finish(
                v,
                s,
                Outcome::ModuleCompiled(Err(Fault::Runtime("context disposed or unknown"@))),
            )
        },
        Job::CompileScript { context, has_cache, produce, eager } => if context_of(
            s,
            context,
        ) is Some {
            (
                Srv { step: Step::CompilingScript { realm: context }, ..v },
                s,
                Act::Compile { realm: context, mode: mode_of(has_cache, eager), produce },
            )
        } else {
            finish(
                v,
                s,
                Outcome::ScriptCompiled(Err(Fault::Runtime("context disposed or unknown"@))),
            )
        },
        Job::Instantiate { module } => if s.instantiating {
            done(v, s, Err(Fault::Runtime(not_reentrant())))
        } else {
            match module_target(s, module) {
                Err(f) => done(v, s, Err(f)),
                Ok(realm) => (
                    Srv { step: Step::LinkStatus { module, realm }, ..v },
                    Iso { instantiating: true, ..s },
                    Act::AskStatus { module },
                ),
            }
        },
        Job::Namespace { module } => match module_target(s, module) {
            Err(f) => done(v, s, Err(f)),
            Ok(realm) => (
                Srv { step: Step::NamespaceStatus { module, realm }, ..v },
                s,
                Act::AskStatus { module },
            ),
        },
        Job::Status { module } => if find_module(s.modules, module) is Some {
            (Srv { step: Step::StatusName, ..v }, s, Act::AskStatus { module })
        } else {
            done(v, s, Err(Fault::Runtime("unknown module"@)))
        },
        Job::DisposeModule { module } => done(
            v,
            Iso { modules: modules_without(s.modules, module), ..s },
            Ok(Val::Undefined),
        ),
        Job::DisposeScript { script } => done(
            v,
            Iso { scripts: scripts_without(s.scripts, script), ..s },
            Ok(Val::Undefined),
        ),
        Job::ScriptCache { script } => if find_script(s.scripts, script) is Some {
            (Srv { step: Step::Caching, ..v }, s, Act::ScriptCache { script })
        } else {
            finish(v, s, Outcome::CodeCache(Ok(None)))
        },
        Job::ModuleCache { module } => match module_target(s, module) {
            Err(_) => finish(v, s, Outcome::CodeCache(Ok(None))),
            Ok(realm) => (
                Srv { step: Step::Caching, ..v },
                s,
                Act::ModuleCache { module, realm },
            ),
        },
    }
}

/// What a nested linking is refused with.
pub open spec fn not_reentrant() -> Seq<char> {
    "instantiate is not re-entrant: another module is currently instantiating (compile the dependency and return it; the outer instantiate links it)"@
}

/// How source is compiled.
pub open spec fn mode_of(has_cache: bool, eager: bool) -> CompileMode {
    if has_cache {
        CompileMode::ConsumeCache
    } else if eager {
        CompileMode::Eager
    } else {
        CompileMode::Lazy
    }
}

/// The watchdog is armed: the part that may run JavaScript begins.
pub open spec fn enter<C, M, S, F>(v: Srv, s: Iso<C, M, S, F>) -> (Srv, Iso<C, M, S, F>, Act) {
    match v.job {
        Job::Run { context, .. } => if context_of(s, context) is Some {
            (
                Srv { step: Step::Running { realm: context }, ..v },
                s,
                Act::Run { realm: context },
            )
        } else {
            disarm(v, s, false, Err(Fault::Runtime("realm disposed or unknown"@)))
        },
        Job::RunScript { script, .. } => match script_target(s, script) {
            Ok(realm) => (Srv { step: Step::Running { realm }, ..v }, s, Act::Run { realm }),
            Err(f) => disarm(v, s, false, Err(f)),
        },
        Job::Evaluate { module, .. } => match module_target(s, module) {
            Ok(realm) => (
                Srv { step: Step::EvaluateStatus { module, realm }, ..v },
                s,
                Act::AskStatus { module },
            ),
            Err(f) => disarm(v, s, false, Err(f)),
        },
        _ => if context_of(s, 0) is Some {
            let body = Work { realm: 0, ran: true, result: Ok(Val::Undefined), remembered: false };
            (
                Srv { step: Step::Draining { before: s.draining, body }, ..v },
                Iso { draining: true, ..s },
                Act::Checkpoint { realm: 0 },
            )
        } else {
            disarm(v, s, true, Ok(Val::Undefined))
        },
    }
}

/// What remains is to disarm the watchdog.
pub open spec fn disarm<C, M, S, F>(
    v: Srv,
    s: Iso<C, M, S, F>,
    ran: bool,
    result: Result<Val, Fault>,
) -> (Srv, Iso<C, M, S, F>, Act) {
    (Srv { step: Step::Disarming { ran, result }, ..v }, s, Act::Disarm)
}

/// JavaScript ran: the outermost request runs the microtasks, where that is the
/// isolate's mode and the engine is not being terminated.
pub open spec fn after_run<C, M, S, F>(v: Srv, s: Iso<C, M, S, F>, w: Work) -> (
    Srv,
    Iso<C, M, S, F>,
    Act,
) {
    if v.outermost && s.auto {
        (Srv { step: Step::Terminating(w), ..v }, s, Act::AskTerminating)
    } else {
        after_drain(v, s, w)
    }
}

/// The microtasks ran, or are not to run.
pub open spec fn after_drain<C, M, S, F>(v: Srv, s: Iso<C, M, S, F>, w: Work) -> (
    Srv,
    Iso<C, M, S, F>,
    Act,
) {
    if w.remembered && w.result is Ok {
        (Srv { step: Step::Settling(w), ..v }, s, Act::AskPromise)
    } else {
        disarm(v, s, w.ran, w.result)
    }
}

/// The watchdog is disarmed: where its deadline passed, whatever JavaScript
/// came to is overridden.
pub open spec fn settle<C, M, S, F>(
    v: Srv,
    s: Iso<C, M, S, F>,
    ran: bool,
    result: Result<Val, Fault>,
    fired: bool,
) -> (Srv, Iso<C, M, S, F>, Act) {
    if fired {
        done(
            v,
            Iso { watchdog_fired: true, ..s },
            if ran {
                Err(Fault::Terminated)
            } else {
                result
            },
        )
    } else {
        done(v, s, result)
    }
}

/// The status of a module that is to be evaluated is known.
pub open spec fn evaluate_by_status<C, M, S, F>(
    v: Srv,
    s: Iso<C, M, S, F>,
    module: i32,
    realm: i32,
    status: ModuleStatus,
    exception: Seq<char>,
) -> (Srv, Iso<C, M, S, F>, Act) {
    let idle = Work { realm, ran: false, result: Ok(Val::Undefined), remembered: false };
    match status {
        ModuleStatus::Instantiated => (
            Srv { step: Step::Evaluating { realm }, ..v },
            s,
            Act::Evaluate { module, realm },
        ),
        ModuleStatus::Evaluated => after_run(v, s, idle),
        ModuleStatus::Errored => after_run(
            v,
            s,
            Work { result: Err(bare_error(exception)), ..idle },
        ),
        _ => after_run(
            v,
            s,
            Work {
                result: Err(Fault::Runtime("module must be instantiated before evaluate"@)),
                ..idle
            },
        ),
    }
}

/// What evaluating a module came to.
pub open spec fn evaluated(e: Evaluation, realm: i32) -> Work {
    match e {
        Evaluation::Rejected(reason) => Work {
            realm,
            ran: true,
            result: Err(bare_error(reason@)),
            remembered: false,
        },
        Evaluation::Promise => Work {
            realm,
            ran: true,
            result: Ok(Val::Undefined),
            remembered: true,
        },
        Evaluation::Plain => Work {
            realm,
            ran: true,
            result: Ok(Val::Undefined),
            remembered: false,
        },
        Evaluation::Nothing { terminated, thrown } => Work {
            realm,
            ran: true,
            result: Err(run_fault(terminated, thrown)),
            remembered: false,
        },
    }
}

/// The status of a module that is to be linked is known.
pub open spec fn link_by_status<C, M, S, F>(
    v: Srv,
    s: Iso<C, M, S, F>,
    module: i32,
    realm: i32,
    status: ModuleStatus,
    exception: Seq<char>,
) -> (Srv, Iso<C, M, S, F>, Act) {
    let free = Iso { instantiating: false, ..s };
    match status {
        ModuleStatus::Instantiated => done(v, free, Ok(Val::Undefined)),
        ModuleStatus::Evaluating => done(v, free, Ok(Val::Undefined)),
        ModuleStatus::Evaluated => done(v, free, Ok(Val::Undefined)),
        ModuleStatus::Errored => done(v, free, Err(bare_error(exception))),
        _ => (Srv { step: Step::Linking, ..v }, s, Act::Link { module, realm }),
    }
}

/// The name of a status.
pub open spec fn status_name(status: ModuleStatus) -> Seq<char> {
    match status {
        ModuleStatus::Uninstantiated => "uninstantiated"@,
        ModuleStatus::Instantiating => "instantiating"@,
        ModuleStatus::Instantiated => "instantiated"@,
        ModuleStatus::Evaluating => "evaluating"@,
        ModuleStatus::Evaluated => "evaluated"@,
        ModuleStatus::Errored => "errored"@,
    }
}

/// What is handed back for a compilation that succeeded.
pub open spec fn compiled_as(
    id: i32,
    produced: Option<Vec<u8>>,
    rejected: bool,
    has_cache: bool,
    produce: bool,
) -> Comp {
    Comp {
        id,
        cached_data: if produce {
            opt_bytes(produced)
        } else {
            None
        },
        cache_rejected: has_cache && rejected,
    }
}

/// Whether an answer is one to what was asked.
pub open spec fn fits<C, M, S, F>(v: Srv, s: Iso<C, M, S, F>, e: Evt<C, M, S>) -> bool {
    match v.step {
        Step::Cancelling => e is Ready && (v.job is Create ==> s.next_context < i32::MAX),
        Step::Arming => e is Ready && (v.job is Run || v.job is RunScript || v.job is Evaluate
            || v.job is Drain),
        Step::Running { .. } => e is Ran,
        Step::Terminating(_) => e is Terminating,
        Step::Draining { .. } => e is Ready,
        Step::EvaluateStatus { .. } => e is Status,
        Step::Evaluating { .. } => e is Evaluated,
        Step::Settling(_) => e is Promise,
        Step::Disarming { .. } => e is Disarmed,
        Step::Renewing { id } => e is Fresh && 0 <= id < s.next_context,
        Step::Creating { id } => e is Fresh && 1 <= id < s.next_context,
        Step::CompilingModule { .. } => e is ModuleCompiled && v.job is CompileModule
            && s.next_module < i32::MAX,
        Step::CompilingScript { .. } => e is ScriptCompiled && v.job is CompileScript
            && s.next_script < i32::MAX,
        Step::LinkStatus { .. } => e is Status,
        Step::Linking => e is Linked,
        Step::NamespaceStatus { .. } => e is Status,
        Step::Namespace => e is Value,
        Step::StatusName => e is Status,
        Step::Caching => e is Cache,
        Step::Sweeping(_) => e is Ready,
        Step::Done => false,
    }
}

/// One step: what was answered decides what is done next.
pub open spec fn advance<C, M, S, F>(v: Srv, s: Iso<C, M, S, F>, e: Evt<C, M, S>) -> (
    Srv,
    Iso<C, M, S, F>,
    Act,
) {
    match v.step {
        Step::Cancelling => begin(v, s),
        Step::Arming => enter(v, s),
        Step::Running { realm } => after_run(
            v,
            s,
            Work { realm, ran: true, result: e->Ran_0, remembered: false },
        ),
        Step::Terminating(w) => if e->Terminating_0 {
            after_drain(v, s, w)
        } else {
            (
                Srv { step: Step::Draining { before: s.draining, body: w }, ..v },
                Iso { draining: true, ..s },
                Act::Checkpoint { realm: w.realm },
            )
        },
        Step::Draining { before, body } => after_drain(v, Iso { draining: before, ..s }, body),
        Step::EvaluateStatus { module, realm } => evaluate_by_status(
            v,
            s,
            module,
            realm,
            e->Status_status,
            e->Status_exception,
        ),
        Step::Evaluating { realm } => after_run(v, s, evaluated(e->Evaluated_0, realm)),
        Step::Settling(w) => match e->Promise_0 {
            Some(reason) => disarm(v, s, w.ran, Err(bare_error(reason))),
            None => disarm(v, s, w.ran, w.result),
        },
        Step::Disarming { ran, result } => settle(v, s, ran, result, e->Disarmed_0),
        Step::Renewing { id } => done(v, after_reset(s, id, e->Fresh_0), Ok(Val::Undefined)),
        Step::Creating { id } => done(
            v,
            Iso { contexts: s.contexts.insert(id, e->Fresh_0), ..s },
            Ok(Val::Int(id as i64)),
        ),
        Step::CompilingModule { realm } => match e->ModuleCompiled_0 {
            Compilation::TooLarge => finish(
                v,
                s,
                Outcome::ModuleCompiled(Err(too_large(SourceKind::Module))),
            ),
            Compilation::Failed { terminated, failure } => finish(
                v,
                s,
                Outcome::ModuleCompiled(
                    Err(compile_fault(SourceKind::Module, terminated, failure, v.name)),
                ),
            ),
            Compilation::Done { handle, hash, produced, rejected } => {
                let id = s.next_module;
                let entry = Mod { id, hash, handle, url: v.name, context: realm };
                finish(
                    v,
                    Iso {
                        modules: s.modules.push(entry),
                        next_module: (id + 1) as i32,
                        ..s
                    },
                    Outcome::ModuleCompiled(
                        Ok(
                            compiled_as(
                                id,
                                produced,
                                rejected,
                                v.job->CompileModule_has_cache,
                                v.job->CompileModule_produce,
                            ),
                        ),
                    ),
                )
            },
        },
        Step::CompilingScript { realm } => match e->ScriptCompiled_0 {
            Compilation::TooLarge => finish(
                v,
                s,
                Outcome::ScriptCompiled(Err(too_large(SourceKind::Script))),
            ),
            Compilation::Failed { terminated, failure } => finish(
                v,
                s,
                Outcome::ScriptCompiled(
                    Err(compile_fault(SourceKind::Script, terminated, failure, v.name)),
                ),
            ),
            Compilation::Done { handle, produced, rejected, .. } => {
                let id = s.next_script;
                finish(
                    v,
                    Iso {
                        scripts: s.scripts.push(Scr { id, handle, context: realm }),
                        next_script: (id + 1) as i32,
                        ..s
                    },
                    Outcome::ScriptCompiled(
                        Ok(
                            compiled_as(
                                id,
                                produced,
                                rejected,
                                v.job->CompileScript_has_cache,
                                v.job->CompileScript_produce,
                            ),
                        ),
                    ),
                )
            },
        },
        Step::LinkStatus { module, realm } => link_by_status(
            v,
            s,
            module,
            realm,
            e->Status_status,
            e->Status_exception,
        ),
        Step::Linking => done(
            v,
            Iso { instantiating: false, ..s },
            if e->ok {
                Ok(Val::Undefined)
            } else {
                Err(run_fault(e->Linked_terminated, e->Linked_thrown))
            },
        ),
        Step::NamespaceStatus { module, realm } => if e->Status_status
            == ModuleStatus::Uninstantiated || e->Status_status == ModuleStatus::Instantiating {
            done(
                v,
                s,
                Err(Fault::Runtime("module must be instantiated before namespace"@)),
            )
        } else {
            (Srv { step: Step::Namespace, ..v }, s, Act::Namespace { module, realm })
        },
        Step::Namespace => done(v, s, Ok(e->Value_0)),
        Step::StatusName => done(v, s, Ok(Val::Str(status_name(e->Status_status)))),
        Step::Caching => finish(v, s, Outcome::CodeCache(Ok(e->Cache_0))),
        Step::Sweeping(o) => (Srv { step: Step::Done, ..v }, s, Act::Reply(o)),
        Step::Done => (v, s, Act::Disarm),
    }
}

fn failed(message: &str) -> (r: Result<JsVal, VmError>)
    ensures
        outcome(r) == Err::<Val, Fault>(Fault::Runtime(message@)),
{
    Err(runtime_error(message))
}

fn threw(message: String) -> (r: Result<JsVal, VmError>)
    ensures
        outcome(r) == Err::<Val, Fault>(bare_error(message@)),
{
    let backtrace: Vec<String> = Vec::new();
    assert(views(backtrace@) =~= Seq::empty());
    Err(VmError::JsError { message, backtrace })
}

fn text_of(s: Option<String>) -> (r: String)
    ensures
        r@ == opt_text(s),
{
    match s {
        Some(t) => t,
        None => String::new(),
    }
}

/// The realm to enter for a module, or why there is none.
fn find_module_target<C, M, S, F>(state: &IsolateState<C, M, S, F>, module: i32) -> (r: Result<
    i32,
    VmError,
>)
    ensures
        match (r, module_target(state@, module)) {
            (Ok(c), Ok(want)) => c == want,
            (Err(e), Err(f)) => e@ == f,
            _ => false,
        },
{
    match state.module_handle(module) {
        None => Err(runtime_error("unknown module")),
        Some((_, c)) => {
            if state.has_context(c) {
                Ok(c)
            } else {
                Err(runtime_error("module's context is gone"))
            }
        },
    }
}

/// The realm to enter for a script, or why there is none.
fn find_script_target<C, M, S, F>(state: &IsolateState<C, M, S, F>, script: i32) -> (r: Result<
    i32,
    VmError,
>)
    ensures
        match (r, script_target(state@, script)) {
            (Ok(c), Ok(want)) => c == want,
            (Err(e), Err(f)) => e@ == f,
            _ => false,
        },
{
    match state.script_handle(script) {
        None => Err(runtime_error("unknown script")),
        Some((_, c)) => {
            if state.has_context(c) {
                Ok(c)
            } else {
                Err(runtime_error("script's context is gone"))
            }
        },
    }
}

impl Service {
    /// Begins to service a request. Only the outermost request clears a
    /// termination that came before it.
    pub fn start<C, M, S, F>(
        request: &Request,
        outermost: bool,
        state: &mut IsolateState<C, M, S, F>,
    ) -> (r: (Service, Action))
        requires
            iso_wf(old(state)@),
            !outermost && job(*request) is Create ==> old(state)@.next_context < i32::MAX,
        ensures
            iso_wf(final(state)@),
            (r.0@, final(state)@, r.1@) == first(
                fresh(job(*request), source_name(*request), outermost),
                old(state)@,
            ),
    {
        let mut v = Service {
            job: request.job(),
            name: request.source_name(),
            outermost,
            realm: None,
            stage: Stage::Cancelling,
        };
        if outermost {
            (v, Action::CancelTerminate)
        } else {
            let a = v.begin(state);
            (v, a)
        }
    }

    fn finish<C, M, S, F>(&mut self, state: &mut IsolateState<C, M, S, F>, reply: VmReply) -> (a:
        Action)
        requires
            iso_wf(old(state)@),
        ensures
            iso_wf(final(state)@),
            (final(self)@, final(state)@, a@) == finish(old(self)@, old(state)@, reply@),
    {
        if self.realm.is_some() {
            state.pop_active();
        }
        if self.outermost && state.watchdog_fired() {
            state.set_watchdog_fired(false);
            self.stage = Stage::Sweeping(reply);
            Action::CancelTerminate
        } else {
            self.stage = Stage::Done;
            Action::Reply(reply)
        }
    }

    fn done<C, M, S, F>(
        &mut self,
        state: &mut IsolateState<C, M, S, F>,
        result: Result<JsVal, VmError>,
    ) -> (a: Action)
        requires
            iso_wf(old(state)@),
        ensures
            iso_wf(final(state)@),
            (final(self)@, final(state)@, a@) == done(old(self)@, old(state)@, outcome(result)),
    {
        self.finish(state, VmReply::Done(result))
    }

    fn begin<C, M, S, F>(&mut self, state: &mut IsolateState<C, M, S, F>) -> (a: Action)
        requires
            iso_wf(old(state)@),
            old(self)@.job is Create ==> old(state)@.next_context < i32::MAX,
        ensures
            iso_wf(final(state)@),
            (final(self)@, final(state)@, a@) == begin(old(self)@, old(state)@),
    {
        let realm: Option<i32> = request_realm(state, self.job);
        self.realm = realm;
        match realm {
            Some(id) => state.push_active(id),
            None => {},
        }
        self.dispatch(state)
    }

    fn dispatch<C, M, S, F>(&mut self, state: &mut IsolateState<C, M, S, F>) -> (a: Action)
        requires
            iso_wf(old(state)@),
            old(self)@.job is Create ==> old(state)@.next_context < i32::MAX,
        ensures
            iso_wf(final(state)@),
            (final(self)@, final(state)@, a@) == dispatch(old(self)@, old(state)@),
    {
        match self.job {
            Job::Run { timeout_ms, .. } => {
                self.stage = Stage::Arming;
                Action::Arm(timeout_ms)
            },
            Job::RunScript { timeout_ms, .. } => {
                self.stage = Stage::Arming;
                Action::Arm(timeout_ms)
            },
            Job::Evaluate { timeout_ms, .. } => {
                self.stage = Stage::Arming;
                Action::Arm(timeout_ms)
            },
            Job::Drain { timeout_ms } => {
                self.stage = Stage::Arming;
                Action::Arm(timeout_ms)
            },
            Job::Reset { context } => match state.check_reset(context) {
                Err(e) => self.done(state, Err(e)),
                Ok(_) => {
                    self.stage = Stage::Renewing { id: context };
                    Action::NewRealm { id: context }
                },
            },
            Job::Create => {
                let id: i32 = state.reserve_context();
                self.stage = Stage::Creating { id };
                Action::NewRealm { id }
            },
            Job::Dispose { context } => match state.dispose_context(context) {
                Err(e) => self.done(state, Err(e)),
                Ok(_) => self.done(state, Ok(JsVal::Undefined)),
            },
            Job::CompileModule { context, has_cache, produce, eager } => {
                if state.has_context(context) {
                    self.stage = Stage::CompilingModule { realm: context };
                    Action::Compile {
                        realm: context,
                        mode: compile_source(has_cache, eager),
                        produce,
                    }
                } else {
                    self.finish(
                        state,
                        VmReply::ModuleCompiled(
                            Err(runtime_error("context disposed or unknown")),
                        ),
                    )
                }
            },
            Job::CompileScript { context, has_cache, produce, eager } => {
                if state.has_context(context) {
                    self.stage = Stage::CompilingScript { realm: context };
                    Action::Compile {
                        realm: context,
                        mode: compile_source(has_cache, eager),
                        produce,
                    }
                } else {
                    self.finish(
                        state,
                        VmReply::ScriptCompiled(
                            Err(runtime_error("context disposed or unknown")),
                        ),
                    )
                }
            },
            Job::Instantiate { module } => {
                if state.instantiating() {
                    return self.done(
                        state,
                        failed(
                            "instantiate is not re-entrant: another module is currently instantiating (compile the dependency and return it; the outer instantiate links it)",
                        ),
                    );
                }
                match find_module_target(state, module) {
                    Err(e) => self.done(state, Err(e)),
                    Ok(realm) => {
                        state.set_instantiating(true);
                        self.stage = Stage::LinkStatus { module, realm };
                        Action::AskStatus { module }
                    },
                }
            },
            Job::Namespace { module } => match find_module_target(state, module) {
                Err(e) => self.done(state, Err(e)),
                Ok(realm) => {
                    self.stage = Stage::NamespaceStatus { module, realm };
                    Action::AskStatus { module }
                },
            },
            Job::Status { module } => {
                if state.module_handle(module).is_some() {
                    self.stage = Stage::StatusName;
                    Action::AskStatus { module }
                } else {
                    self.done(state, failed("unknown module"))
                }
            },
            Job::DisposeModule { module } => {
                state.dispose_module(module);
                self.done(state, Ok(JsVal::Undefined))
            },
            Job::DisposeScript { script } => {
                state.dispose_script(script);
                self.done(state, Ok(JsVal::Undefined))
            },
            Job::ScriptCache { script } => {
                if state.script_handle(script).is_some() {
                    self.stage = Stage::Caching;
                    Action::ScriptCache { script }
                } else {
                    self.finish(state, VmReply::CodeCache(Ok(None)))
                }
            },
            Job::ModuleCache { module } => match find_module_target(state, module) {
                Err(_) => self.finish(state, VmReply::CodeCache(Ok(None))),
                Ok(realm) => {
                    self.stage = Stage::Caching;
                    Action::ModuleCache { module, realm }
                },
            },
        }
    }

    fn disarm(&mut self, ran: bool, result: Result<JsVal, VmError>) -> (a: Action)
        ensures
            final(self)@ == (Srv {
                step: Step::Disarming { ran, result: outcome(result) },
                ..old(self)@
            }),
            a@ == Act::Disarm,
    {
        self.stage = Stage::Disarming { ran, result };
        Action::Disarm
    }

    fn enter<C, M, S, F>(&mut self, state: &mut IsolateState<C, M, S, F>) -> (a: Action)
        requires
            iso_wf(old(state)@),
        ensures
            iso_wf(final(state)@),
            (final(self)@, final(state)@, a@) == enter(old(self)@, old(state)@),
    {
        match self.job {
            Job::Run { context, .. } => {
                if state.has_context(context) {
                    self.stage = Stage::Running { realm: context };
                    Action::Run { realm: context }
                } else {
                    self.disarm(false, failed("realm disposed or unknown"))
                }
            },
            Job::RunScript { script, .. } => match find_script_target(state, script) {
                Ok(realm) => {
                    self.stage = Stage::Running { realm };
                    Action::Run { realm }
                },
                Err(e) => self.disarm(false, Err(e)),
            },
            Job::Evaluate { module, .. } => match find_module_target(state, module) {
                Ok(realm) => {
                    self.stage = Stage::EvaluateStatus { module, realm };
                    Action::AskStatus { module }
                },
                Err(e) => self.disarm(false, Err(e)),
            },
            _ => {
                if state.has_context(0) {
                    let body = Body {
                        realm: 0,
                        ran: true,
                        result: Ok(JsVal::Undefined),
                        remembered: false,
                    };
                    let before = state.begin_drain();
                    self.stage = Stage::Draining { before, body };
                    Action::Checkpoint { realm: 0 }
                } else {
                    self.disarm(true, Ok(JsVal::Undefined))
                }
            },
        }
    }

    fn after_run<C, M, S, F>(&mut self, state: &IsolateState<C, M, S, F>, body: Body) -> (a:
        Action)
        ensures
            (final(self)@, state@, a@) == after_run(old(self)@, state@, body.view()),
    {
        if self.outermost && state.auto_microtasks() {
            self.stage = Stage::Terminating(body);
            Action::AskTerminating
        } else {
            self.after_drain(state, body)
        }
    }

    fn after_drain<C, M, S, F>(&mut self, state: &IsolateState<C, M, S, F>, body: Body) -> (a:
        Action)
        ensures
            (final(self)@, state@, a@) == after_drain(old(self)@, state@, body.view()),
    {
        if body.remembered && body.result.is_ok() {
            self.stage = Stage::Settling(body);
            Action::AskPromise
        } else {
            self.disarm(body.ran, body.result)
        }
    }

    fn settle<C, M, S, F>(
        &mut self,
        state: &mut IsolateState<C, M, S, F>,
        ran: bool,
        result: Result<JsVal, VmError>,
        fired: bool,
    ) -> (a: Action)
        requires
            iso_wf(old(state)@),
        ensures
            iso_wf(final(state)@),
            (final(self)@, final(state)@, a@) == settle(
                old(self)@,
                old(state)@,
                ran,
                outcome(result),
                fired,
            ),
    {
        if fired {
            state.set_watchdog_fired(true);
            if ran {
                return self.done(state, Err(VmError::Terminated));
            }
        }
        self.done(state, result)
    }

    fn evaluate_by_status<C, M, S, F>(
        &mut self,
        state: &IsolateState<C, M, S, F>,
        module: i32,
        realm: i32,
        status: ModuleStatus,
        exception: Option<String>,
    ) -> (a: Action)
        ensures
            (final(self)@, state@, a@) == evaluate_by_status(
                old(self)@,
                state@,
                module,
                realm,
                status,
                opt_text(exception),
            ),
    {
        let result: Result<JsVal, VmError> = match status {
            ModuleStatus::Instantiated => {
                self.stage = Stage::Evaluating { realm };
                return Action::Evaluate { module, realm };
            },
            ModuleStatus::Evaluated => Ok(JsVal::Undefined),
            ModuleStatus::Errored => threw(text_of(exception)),
            _ => failed("module must be instantiated before evaluate"),
        };
        self.after_run(state, Body { realm, ran: false, result, remembered: false })
    }

    fn link_by_status<C, M, S, F>(
        &mut self,
        state: &mut IsolateState<C, M, S, F>,
        module: i32,
        realm: i32,
        status: ModuleStatus,
        exception: Option<String>,
    ) -> (a: Action)
        requires
            iso_wf(old(state)@),
        ensures
            iso_wf(final(state)@),
            (final(self)@, final(state)@, a@) == link_by_status(
                old(self)@,
                old(state)@,
                module,
                realm,
                status,
                opt_text(exception),
            ),
    {
        let result: Result<JsVal, VmError> = match status {
            ModuleStatus::Instantiated => Ok(JsVal::Undefined),
            ModuleStatus::Evaluating => Ok(JsVal::Undefined),
            ModuleStatus::Evaluated => Ok(JsVal::Undefined),
            ModuleStatus::Errored => threw(text_of(exception)),
            _ => {
                self.stage = Stage::Linking;
                return Action::Link { module, realm };
            },
        };
        state.set_instantiating(false);
        self.done(state, result)
    }
}

/// What evaluating a module came to.
fn evaluation_body(e: Evaluation, realm: i32) -> (r: Body)
    ensures
        r.view() == evaluated(e, realm),
{
    match e {
        Evaluation::Rejected(reason) => Body {
            realm,
            ran: true,
            result: threw(reason),
            remembered: false,
        },
        Evaluation::Promise => Body {
            realm,
            ran: true,
            result: Ok(JsVal::Undefined),
            remembered: true,
        },
        Evaluation::Plain => Body {
            realm,
            ran: true,
            result: Ok(JsVal::Undefined),
            remembered: false,
        },
        Evaluation::Nothing { terminated, thrown } => Body {
            realm,
            ran: true,
            result: Err(run_failure(terminated, thrown)),
            remembered: false,
        },
    }
}

fn name_of(status: ModuleStatus) -> (r: String)
    ensures
        r@ == status_name(status),
{
    match status {
        ModuleStatus::Uninstantiated => "uninstantiated".to_string(),
        ModuleStatus::Instantiating => "instantiating".to_string(),
        ModuleStatus::Instantiated => "instantiated".to_string(),
        ModuleStatus::Evaluating => "evaluating".to_string(),
        ModuleStatus::Evaluated => "evaluated".to_string(),
        ModuleStatus::Errored => "errored".to_string(),
    }
}

impl Service {
    fn module_compiled<C, M, S, F>(
        &mut self,
        state: &mut IsolateState<C, M, S, F>,
        realm: i32,
        c: Compilation<M>,
    ) -> (a: Action)
        requires
            iso_wf(old(state)@),
            old(self)@.job is CompileModule,
            old(state)@.next_module < i32::MAX,
        ensures
            iso_wf(final(state)@),
            (final(self)@, final(state)@, a@) == advance(
                Srv { step: Step::CompilingModule { realm }, ..old(self)@ },
                old(state)@,
                Evt::<C, M, S>::ModuleCompiled(c),
            ),
    {
        match c {
            Compilation::TooLarge => self.finish(
                state,
                VmReply::ModuleCompiled(Err(source_too_large(SourceKind::Module))),
            ),
            Compilation::Failed { terminated, failure } => self.finish(
                state,
                VmReply::ModuleCompiled(
                    Err(
                        compile_failure(
                            SourceKind::Module,
                            terminated,
                            failure,
                            self.name.as_str(),
                        ),
                    ),
                ),
            ),
            Compilation::Done { handle, hash, produced, rejected } => {
                let id: i32 = state.add_module(hash, handle, self.name.clone(), realm);
                let (has_cache, produce): (bool, bool) = match self.job {
                    Job::CompileModule { has_cache, produce, .. } => (has_cache, produce),
                    _ => (false, false),
                };
                let cached_data: Option<Vec<u8>> = if produce { produced } else { None };
                self.finish(
                    state,
                    VmReply::ModuleCompiled(
                        Ok(Compiled { id, cached_data, cache_rejected: has_cache && rejected }),
                    ),
                )
            },
        }
    }

    fn script_compiled<C, M, S, F>(
        &mut self,
        state: &mut IsolateState<C, M, S, F>,
        realm: i32,
        c: Compilation<S>,
    ) -> (a: Action)
        requires
            iso_wf(old(state)@),
            old(self)@.job is CompileScript,
            old(state)@.next_script < i32::MAX,
        ensures
            iso_wf(final(state)@),
            (final(self)@, final(state)@, a@) == advance(
                Srv { step: Step::CompilingScript { realm }, ..old(self)@ },
                old(state)@,
                Evt::<C, M, S>::ScriptCompiled(c),
            ),
    {
        match c {
            Compilation::TooLarge => self.finish(
                state,
                VmReply::ScriptCompiled(Err(source_too_large(SourceKind::Script))),
            ),
            Compilation::Failed { terminated, failure } => self.finish(
                state,
                VmReply::ScriptCompiled(
                    Err(
                        compile_failure(
                            SourceKind::Script,
                            terminated,
                            failure,
                            self.name.as_str(),
                        ),
                    ),
                ),
            ),
            Compilation::Done { handle, produced, rejected, .. } => {
                let id: i32 = state.add_script(handle, realm);
                let (has_cache, produce): (bool, bool) = match self.job {
                    Job::CompileScript { has_cache, produce, .. } => (has_cache, produce),
                    _ => (false, false),
                };
                let cached_data: Option<Vec<u8>> = if produce { produced } else { None };
                self.finish(
                    state,
                    VmReply::ScriptCompiled(
                        Ok(Compiled { id, cached_data, cache_rejected: has_cache && rejected }),
                    ),
                )
            },
        }
    }

    /// Takes the answer to the last action and gives the next one.
    #[verifier::rlimit(60)]
    #[verifier::spinoff_prover]
    pub fn step<C, M, S, F>(
        &mut self,
        state: &mut IsolateState<C, M, S, F>,
        event: Event<C, M, S>,
    ) -> (a: Action)
        requires
            iso_wf(old(state)@),
            fits(old(self)@, old(state)@, event@),
        ensures
            iso_wf(final(state)@),
            (final(self)@, final(state)@, a@) == advance(old(self)@, old(state)@, event@),
    {
        let mut stage = Stage::Done;
        std::mem::swap(&mut stage, &mut self.stage);
        match (stage, event) {
            (Stage::Cancelling, _) => self.begin(state),
            (Stage::Arming, _) => self.enter(state),
            (Stage::Running { realm }, Event::Ran(result)) => self.after_run(
                state,
                Body { realm, ran: true, result, remembered: false },
            ),
            (Stage::Terminating(body), Event::Terminating(terminating)) => {
                if terminating {
                    self.after_drain(state, body)
                } else {
                    let realm: i32 = body.realm;
                    let before = state.begin_drain();
                    self.stage = Stage::Draining { before, body };
                    Action::Checkpoint { realm }
                }
            },
            (Stage::Draining { before, body }, _) => {
                state.end_drain(before);
                self.after_drain(state, body)
            },
            (
                Stage::EvaluateStatus { module, realm },
                Event::Status { status, exception },
            ) => self.evaluate_by_status(state, module, realm, status, exception),
            (Stage::Evaluating { realm }, Event::Evaluated(e)) => self.after_run(
                state,
                evaluation_body(e, realm),
            ),
            (Stage::Settling(body), Event::Promise(p)) => match p {
                Some(reason) => self.disarm(body.ran, threw(reason)),
                None => self.disarm(body.ran, body.result),
            },
            (Stage::Disarming { ran, result }, Event::Disarmed(fired)) => self.settle(
                state,
                ran,
                result,
                fired,
            ),
            (Stage::Renewing { id }, Event::Fresh(context)) => {
                state.reset(id, context);
                self.done(state, Ok(JsVal::Undefined))
            },
            (Stage::Creating { id }, Event::Fresh(context)) => {
                state.add_context(id, context);
                self.done(state, Ok(JsVal::Int(id as i64)))
            },
            (Stage::CompilingModule { realm }, Event::ModuleCompiled(c)) => self.module_compiled(
                state,
                realm,
                c,
            ),
            (Stage::CompilingScript { realm }, Event::ScriptCompiled(c)) => self.script_compiled(
                state,
                realm,
                c,
            ),
            (
                Stage::LinkStatus { module, realm },
                Event::Status { status, exception },
            ) => self.link_by_status(state, module, realm, status, exception),
            (Stage::Linking, Event::Linked { ok, terminated, thrown }) => {
                state.set_instantiating(false);
                let result: Result<JsVal, VmError> = if ok {
                    Ok(JsVal::Undefined)
                } else {
                    Err(run_failure(terminated, thrown))
                };
                self.done(state, result)
            },
            (Stage::NamespaceStatus { module, realm }, Event::Status { status, .. }) => {
                if status == ModuleStatus::Uninstantiated || status
                    == ModuleStatus::Instantiating {
                    self.done(state, failed("module must be instantiated before namespace"))
                } else {
                    self.stage = Stage::Namespace;
                    Action::Namespace { module, realm }
                }
            },
            (Stage::Namespace, Event::Value(v)) => self.done(state, Ok(v)),
            (Stage::StatusName, Event::Status { status, .. }) => self.done(
                state,
                Ok(JsVal::Str(name_of(status))),
            ),
            (Stage::Caching, Event::Cache(bytes)) => self.finish(
                state,
                VmReply::CodeCache(Ok(bytes)),
            ),
            (Stage::Sweeping(reply), _) => Action::Reply(reply),
            _ => Action::Disarm,
        }
    }
}

} // verus!
