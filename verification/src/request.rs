//! The operations of an isolate and their replies.
use crate::value::{outcome, Fault, JsVal, Val, VmError};
use vstd::prelude::*;

verus! {

/// One operation. `context_id` names the realm that it runs in: zero is the
/// main realm, any other one comes from `CreateContext`. A timeout of zero is
/// none.
#[derive(Debug)]
pub enum Request {
    Eval { context_id: i32, source: String, filename: String, timeout_ms: u64 },
    /// Calls the function at a dotted path. With `void` the result is not read.
    Call { context_id: i32, name: String, args: Vec<JsVal>, void: bool, timeout_ms: u64 },
    /// Runs the microtasks that are due.
    DrainMicrotasks { timeout_ms: u64 },
    Attach { context_id: i32, name: String, host_fn_id: usize, timeout_ms: u64 },
    /// Attaches many host functions, in order.
    AttachMany { context_id: i32, entries: Vec<(String, usize)>, timeout_ms: u64 },
    /// Swaps a realm for a fresh one.
    Reset { context_id: i32 },
    CreateContext,
    DisposeContext { context_id: i32 },
    CompileModule {
        context_id: i32,
        source: String,
        filename: String,
        cached_data: Option<Vec<u8>>,
        produce_cache: bool,
        eager: bool,
    },
    InstantiateModule { module_id: i32 },
    EvaluateModule { module_id: i32, timeout_ms: u64 },
    ModuleNamespace { module_id: i32 },
    ModuleStatus { module_id: i32 },
    DisposeModule { module_id: i32 },
    CompileScript {
        context_id: i32,
        source: String,
        filename: String,
        cached_data: Option<Vec<u8>>,
        produce_cache: bool,
        eager: bool,
    },
    RunScript { script_id: i32, timeout_ms: u64 },
    DisposeScript { script_id: i32 },
    ScriptCodeCache { script_id: i32 },
    ModuleCodeCache { module_id: i32 },
}

/// What a compilation gives back.
#[derive(Debug)]
pub struct Compiled {
    pub id: i32,
    /// A fresh bytecode cache, where one was asked for.
    pub cached_data: Option<Vec<u8>>,
    /// Whether a supplied cache was not taken.
    pub cache_rejected: bool,
}

/// The reply to a request.
#[derive(Debug)]
pub enum VmReply {
    Done(Result<JsVal, VmError>),
    ModuleCompiled(Result<Compiled, VmError>),
    ScriptCompiled(Result<Compiled, VmError>),
    CodeCache(Result<Option<Vec<u8>>, VmError>),
}

/// The mathematical value of what a compilation gives back.
pub ghost struct Comp {
    pub id: i32,
    pub cached_data: Option<Seq<u8>>,
    pub cache_rejected: bool,
}

/// The mathematical value of a reply.
pub ghost enum Outcome {
    Done(Result<Val, Fault>),
    ModuleCompiled(Result<Comp, Fault>),
    ScriptCompiled(Result<Comp, Fault>),
    CodeCache(Result<Option<Seq<u8>>, Fault>),
}

/// Optional bytes.
pub open spec fn opt_bytes(b: Option<Vec<u8>>) -> Option<Seq<u8>> {
    match b {
        Some(v) => Some(v@),
        None => None,
    }
}

/// What a compilation came to.
pub open spec fn compiled(r: Result<Compiled, VmError>) -> Result<Comp, Fault> {
    match r {
        Ok(c) => Ok(
            Comp {
                id: c.id,
                cached_data: opt_bytes(c.cached_data),
                cache_rejected: c.cache_rejected,
            },
        ),
        Err(e) => Err(e@),
    }
}

impl View for VmReply {
    type V = Outcome;

    open spec fn view(&self) -> Outcome {
        match self {
            VmReply::Done(r) => Outcome::Done(outcome(*r)),
            VmReply::ModuleCompiled(r) => Outcome::ModuleCompiled(compiled(*r)),
            VmReply::ScriptCompiled(r) => Outcome::ScriptCompiled(compiled(*r)),
            VmReply::CodeCache(r) => Outcome::CodeCache(
                match r {
                    Ok(b) => Ok(opt_bytes(*b)),
                    Err(e) => Err(e@),
                },
            ),
        }
    }
}

/// What a request asks of the registries, without its texts.
#[derive(Debug, Clone, Copy, PartialEq, Eq, Structural)]
pub enum Job {
    /// Runs JavaScript in a realm.
    Run { context: i32, timeout_ms: u64 },
    RunScript { script: i32, timeout_ms: u64 },
    Evaluate { module: i32, timeout_ms: u64 },
    Drain { timeout_ms: u64 },
    Reset { context: i32 },
    Create,
    Dispose { context: i32 },
    CompileModule { context: i32, has_cache: bool, produce: bool, eager: bool },
    CompileScript { context: i32, has_cache: bool, produce: bool, eager: bool },
    Instantiate { module: i32 },
    Namespace { module: i32 },
    Status { module: i32 },
    DisposeModule { module: i32 },
    DisposeScript { script: i32 },
    ScriptCache { script: i32 },
    ModuleCache { module: i32 },
}

/// What a request asks of the registries.
pub open spec fn job(r: Request) -> Job {
    match r {
        Request::Eval { context_id, timeout_ms, .. } => Job::Run {
            context: context_id,
            timeout_ms,
        },
        Request::Call { context_id, timeout_ms, .. } => Job::Run {
            context: context_id,
            timeout_ms,
        },
        Request::Attach { context_id, timeout_ms, .. } => Job::Run {
            context: context_id,
            timeout_ms,
        },
        Request::AttachMany { context_id, timeout_ms, .. } => Job::Run {
            context: context_id,
            timeout_ms,
        },
        Request::DrainMicrotasks { timeout_ms } => Job::Drain { timeout_ms },
        Request::Reset { context_id } => Job::Reset { context: context_id },
        Request::CreateContext => Job::Create,
        Request::DisposeContext { context_id } => Job::Dispose { context: context_id },
        Request::CompileModule { context_id, cached_data, produce_cache, eager, .. } =>
        Job::CompileModule {
            context: context_id,
            has_cache: cached_data is Some,
            produce: produce_cache,
            eager,
        },
        Request::CompileScript { context_id, cached_data, produce_cache, eager, .. } =>
        Job::CompileScript {
            context: context_id,
            has_cache: cached_data is Some,
            produce: produce_cache,
            eager,
        },
        Request::InstantiateModule { module_id } => Job::Instantiate { module: module_id },
        Request::EvaluateModule { module_id, timeout_ms } => Job::Evaluate {
            module: module_id,
            timeout_ms,
        },
        Request::ModuleNamespace { module_id } => Job::Namespace { module: module_id },
        Request::ModuleStatus { module_id } => Job::Status { module: module_id },
        Request::DisposeModule { module_id } => Job::DisposeModule { module: module_id },
        Request::RunScript { script_id, timeout_ms } => Job::RunScript {
            script: script_id,
            timeout_ms,
        },
        Request::DisposeScript { script_id } => Job::DisposeScript { script: script_id },
        Request::ScriptCodeCache { script_id } => Job::ScriptCache { script: script_id },
        Request::ModuleCodeCache { module_id } => Job::ModuleCache { module: module_id },
    }
}

/// The name under which a module or a script is compiled.
pub open spec fn source_name(r: Request) -> Seq<char> {
    match r {
        Request::CompileModule { filename, .. } => filename@,
        Request::CompileScript { filename, .. } => filename@,
        _ => Seq::empty(),
    }
}

impl Request {
    /// What the request asks of the registries.
    pub fn job(&self) -> (r: Job)
        ensures
            r == job(*self),
    {
        match self {
            Request::Eval { context_id, timeout_ms, .. } => Job::Run {
                context: *context_id,
                timeout_ms: *timeout_ms,
            },
            Request::Call { context_id, timeout_ms, .. } => Job::Run {
                context: *context_id,
                timeout_ms: *timeout_ms,
            },
            Request::Attach { context_id, timeout_ms, .. } => Job::Run {
                context: *context_id,
                timeout_ms: *timeout_ms,
            },
            Request::AttachMany { context_id, timeout_ms, .. } => Job::Run {
                context: *context_id,
                timeout_ms: *timeout_ms,
            },
            Request::DrainMicrotasks { timeout_ms } => Job::Drain { timeout_ms: *timeout_ms },
            Request::Reset { context_id } => Job::Reset { context: *context_id },
            Request::CreateContext => Job::Create,
            Request::DisposeContext { context_id } => Job::Dispose { context: *context_id },
            Request::CompileModule { context_id, cached_data, produce_cache, eager, .. } =>
            Job::CompileModule {
                context: *context_id,
                has_cache: cached_data.is_some(),
                produce: *produce_cache,
                eager: *eager,
            },
            Request::CompileScript { context_id, cached_data, produce_cache, eager, .. } =>
            Job::CompileScript {
                context: *context_id,
                has_cache: cached_data.is_some(),
                produce: *produce_cache,
                eager: *eager,
            },
            Request::InstantiateModule { module_id } => Job::Instantiate { module: *module_id },
            Request::EvaluateModule { module_id, timeout_ms } => Job::Evaluate {
                module: *module_id,
                timeout_ms: *timeout_ms,
            },
            Request::ModuleNamespace { module_id } => Job::Namespace { module: *module_id },
            Request::ModuleStatus { module_id } => Job::Status { module: *module_id },
            Request::DisposeModule { module_id } => Job::DisposeModule { module: *module_id },
            Request::RunScript { script_id, timeout_ms } => Job::RunScript {
                script: *script_id,
                timeout_ms: *timeout_ms,
            },
            Request::DisposeScript { script_id } => Job::DisposeScript { script: *script_id },
            Request::ScriptCodeCache { script_id } => Job::ScriptCache { script: *script_id },
            Request::ModuleCodeCache { module_id } => Job::ModuleCache { module: *module_id },
        }
    }

    /// The name under which a module or a script is compiled; empty for other
    /// requests.
    pub fn source_name(&self) -> (r: String)
        ensures
            r@ == source_name(*self),
    {
        match self {
            Request::CompileModule { filename, .. } => filename.clone(),
            Request::CompileScript { filename, .. } => filename.clone(),
            _ => String::new(),
        }
    }
}

/// Whatever runs JavaScript at once asks the same of the registries: the realm and
/// the timeout that it comes with. Which source, name or function it is for says
/// nothing there.
pub proof fn law_runs_ask_the_same(
    context_id: i32,
    timeout_ms: u64,
    text: String,
    other: String,
    args: Vec<JsVal>,
    void: bool,
    host_fn_id: usize,
    entries: Vec<(String, usize)>,
)
    ensures
        ({
            let run = Job::Run { context: context_id, timeout_ms };
            &&& job(Request::Eval { context_id, source: text, filename: other, timeout_ms }) == run
            &&& job(Request::Call { context_id, name: text, args, void, timeout_ms }) == run
            &&& job(Request::Attach { context_id, name: text, host_fn_id, timeout_ms }) == run
            &&& job(Request::AttachMany { context_id, entries, timeout_ms }) == run
        }),
{
}

/// A compilation is asked for with its realm and with whether a cache comes with
/// it, is to be made, and everything is to be compiled, and goes under the file's
/// name; what the source or the cache is says nothing to the registries.
pub proof fn law_compilations_keep_their_options(
    context_id: i32,
    source: String,
    filename: String,
    cached_data: Option<Vec<u8>>,
    produce_cache: bool,
    eager: bool,
)
    ensures
        ({
            let module = Request::CompileModule {
                context_id,
                source,
                filename,
                cached_data,
                produce_cache,
                eager,
            };
            let script = Request::CompileScript {
                context_id,
                source,
                filename,
                cached_data,
                produce_cache,
                eager,
            };
            &&& source_name(module) == filename@
            &&& source_name(script) == filename@
            &&& job(module) == (Job::CompileModule {
                context: context_id,
                has_cache: cached_data is Some,
                produce: produce_cache,
                eager,
            })
            &&& job(script) == (Job::CompileScript {
                context: context_id,
                has_cache: cached_data is Some,
                produce: produce_cache,
                eager,
            })
        }),
{
}

/// A request that names a realm, a module or a script asks for that one.
pub proof fn law_requests_keep_their_ids(id: i32, timeout_ms: u64)
    ensures
        job(Request::DrainMicrotasks { timeout_ms }) == (Job::Drain { timeout_ms }),
        job(Request::Reset { context_id: id }) == (Job::Reset { context: id }),
        job(Request::DisposeContext { context_id: id }) == (Job::Dispose { context: id }),
        job(Request::InstantiateModule { module_id: id }) == (Job::Instantiate { module: id }),
        job(Request::EvaluateModule { module_id: id, timeout_ms }) == (Job::Evaluate {
            module: id,
            timeout_ms,
        }),
        job(Request::ModuleNamespace { module_id: id }) == (Job::Namespace { module: id }),
        job(Request::ModuleStatus { module_id: id }) == (Job::Status { module: id }),
        job(Request::DisposeModule { module_id: id }) == (Job::DisposeModule { module: id }),
        job(Request::RunScript { script_id: id, timeout_ms }) == (Job::RunScript {
            script: id,
            timeout_ms,
        }),
        job(Request::DisposeScript { script_id: id }) == (Job::DisposeScript { script: id }),
        job(Request::ScriptCodeCache { script_id: id }) == (Job::ScriptCache { script: id }),
        job(Request::ModuleCodeCache { module_id: id }) == (Job::ModuleCache { module: id }),
{
}

/// A reply is told from every other: by its kind, and by what it holds.
pub proof fn law_replies_are_told_apart(a: VmReply, b: VmReply)
    requires
        a@ == b@,
    ensures
        a matches VmReply::Done(r) ==> (b matches VmReply::Done(q) && outcome(r) == outcome(q)),
        a matches VmReply::ModuleCompiled(r) ==> (b matches VmReply::ModuleCompiled(q) && (r is Ok
            <==> q is Ok)),
        a matches VmReply::ScriptCompiled(r) ==> (b matches VmReply::ScriptCompiled(q) && (r is Ok
            <==> q is Ok)),
        a matches VmReply::ModuleCompiled(Ok(c)) ==> (b matches VmReply::ModuleCompiled(Ok(d))
            && c.id == d.id && opt_bytes(c.cached_data) == opt_bytes(d.cached_data)
            && c.cache_rejected == d.cache_rejected),
        a matches VmReply::ScriptCompiled(Ok(c)) ==> (b matches VmReply::ScriptCompiled(Ok(d))
            && c.id == d.id && opt_bytes(c.cached_data) == opt_bytes(d.cached_data)
            && c.cache_rejected == d.cache_rejected),
        a matches VmReply::ModuleCompiled(Err(e)) ==> (b matches VmReply::ModuleCompiled(Err(f))
            && e@ == f@),
        a matches VmReply::ScriptCompiled(Err(e)) ==> (b matches VmReply::ScriptCompiled(Err(f))
            && e@ == f@),
        a matches VmReply::CodeCache(Ok(c)) ==> (b matches VmReply::CodeCache(Ok(d)) && opt_bytes(c)
            == opt_bytes(d)),
        a matches VmReply::CodeCache(Err(e)) ==> (b matches VmReply::CodeCache(Err(f)) && e@ == f@),
{
}

/// Optional bytes are there exactly where they are, and the same.
pub proof fn law_optional_bytes_are_kept(b: Vec<u8>)
    ensures
        opt_bytes(Some(b)) == Some(b@),
        opt_bytes(None) is None,
{
}

} // verus!
