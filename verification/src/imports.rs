//! Resolving imports: the static ones met while linking, and `import()`.
use crate::errors::{plain, raise, Raised, RubyClass, RubyError};
use crate::registry::{
    after_dispose, after_reset, context_of, find_module, iso_wf, Iso, IsolateState,
};
use crate::service::ModuleStatus;
use vstd::prelude::*;

verus! {

broadcast use vstd::string::group_string_axioms;

/// What a resolver written in Ruby returned.
#[derive(Debug, Clone, Copy, PartialEq, Eq, Structural)]
pub enum Resolved {
    Nil,
    /// A module, of this isolate or of another.
    Module { id: i32, same_isolate: bool, disposed: bool },
    /// Anything else.
    Other,
}

/// The module that a resolver names.
pub open spec fn named_module(ret: Resolved) -> Result<Option<i32>, Raised> {
    match ret {
        Resolved::Nil => Ok(None),
        Resolved::Other => Err(
            plain(
                RubyClass::TypeError,
                "module resolver must return a RustyRacer::Module or nil"@,
            ),
        ),
        Resolved::Module { id, same_isolate, disposed } => if !same_isolate {
            Err(
                plain(
                    RubyClass::StandardRuntimeError,
                    "module resolver returned a Module from a different Context"@,
                ),
            )
        } else if disposed {
            Ok(None)
        } else {
            Ok(Some(id))
        },
    }
}

/// A resolver names a module exactly where it returned a live one of this isolate,
/// and that very one. A module of another isolate is an error whether it is
/// disposed or not, and anything that is no module is one of type.
pub proof fn law_resolver_names_live_modules_of_its_isolate(
    ret: Resolved,
    id: i32,
    same_isolate: bool,
    disposed: bool,
)
    ensures
        named_module(ret) == Ok::<Option<i32>, Raised>(Some(id)) <==> ret == (Resolved::Module {
            id,
            same_isolate: true,
            disposed: false,
        }),
        named_module(Resolved::Module { id, same_isolate: true, disposed: true }) == Ok::<
            Option<i32>,
            Raised,
        >(None),
        named_module(Resolved::Nil) == Ok::<Option<i32>, Raised>(None),
        named_module(Resolved::Module { id, same_isolate: false, disposed }) matches Err(e)
            && e.class == RubyClass::StandardRuntimeError,
        named_module(ret) is Err <==> ret is Other || (ret is Module && !ret->same_isolate),
        named_module(Resolved::Other) matches Err(e) && e.class == RubyClass::TypeError,
{
}

/// The module that a resolver names. Nil, and a module that was disposed, is
/// none; ids count per isolate, so a module of another one is an error.
pub fn resolve_module_via_ruby(ret: Resolved) -> (r: Result<Option<i32>, RubyError>)
    ensures
        match (r, named_module(ret)) {
            (Ok(o), Ok(want)) => o == want,
            (Err(e), Err(want)) => e@ == want,
            _ => false,
        },
{
    match ret {
        Resolved::Nil => Ok(None),
        Resolved::Other => Err(
            raise(
                RubyClass::TypeError,
                "module resolver must return a RustyRacer::Module or nil",
            ),
        ),
        Resolved::Module { id, same_isolate, disposed } => {
            if !same_isolate {
                Err(
                    raise(
                        RubyClass::StandardRuntimeError,
                        "module resolver returned a Module from a different Context",
                    ),
                )
            } else if disposed {
                Ok(None)
            } else {
                Ok(Some(id))
            }
        },
    }
}

/// Whom to ask for the module behind an import.
#[derive(Debug, Clone, Copy, PartialEq, Eq, Structural)]
pub enum Ask {
    /// Nobody: the import stays unresolved.
    Nobody,
    /// The block given for the linking at hand. What it raises is kept, to be
    /// raised again in place of the link failure.
    Block,
    /// The resolver of dynamic imports, with the realm that it is for. What it
    /// raises only leaves the import unresolved.
    Resolver { realm: i32 },
}

/// Whom to ask for a static import.
pub open spec fn whom_to_ask(
    referrer_known: bool,
    has_owner: bool,
    has_block: bool,
    has_resolver: bool,
    here: Option<i32>,
) -> Ask {
    if !referrer_known || !has_owner {
        Ask::Nobody
    } else if has_block {
        Ask::Block
    } else if has_resolver {
        Ask::Resolver {
            realm: match here {
                Some(id) => id,
                None => 0,
            },
        }
    } else {
        Ask::Nobody
    }
}

/// A static import of a known module is put to the block of the linking where
/// there is one, whatever resolver there is, and else to the resolver of dynamic
/// imports, for the realm being linked. With neither, or without an owner or a
/// known referrer, nobody is asked.
pub proof fn law_block_goes_before_resolver(
    referrer_known: bool,
    has_owner: bool,
    has_block: bool,
    has_resolver: bool,
    here: Option<i32>,
)
    ensures
        ({
            let ask = whom_to_ask(referrer_known, has_owner, has_block, has_resolver, here);
            &&& ask == Ask::Block <==> referrer_known && has_owner && has_block
            &&& ask is Resolver <==> referrer_known && has_owner && !has_block && has_resolver
            &&& ask is Resolver && here is Some ==> ask == (Ask::Resolver { realm: here->0 })
            &&& ask is Resolver && here is None ==> ask == (Ask::Resolver { realm: 0 })
        }),
{
}

/// Whom to ask for a static import. `here` is the realm being linked.
pub fn resolve_imported(
    referrer_known: bool,
    has_owner: bool,
    has_block: bool,
    has_resolver: bool,
    here: Option<i32>,
) -> (r: Ask)
    ensures
        r == whom_to_ask(referrer_known, has_owner, has_block, has_resolver, here),
{
    if !referrer_known || !has_owner {
        Ask::Nobody
    } else if has_block {
        Ask::Block
    } else if has_resolver {
        match here {
            Some(id) => Ask::Resolver { realm: id },
            None => Ask::Resolver { realm: 0 },
        }
    } else {
        Ask::Nobody
    }
}

/// Whether a module may stand for an import in a realm: it must be registered
/// and have been compiled in that very realm.
pub open spec fn importable<C, M, S, F>(
    s: Iso<C, M, S, F>,
    module: Option<i32>,
    here: Option<i32>,
) -> Option<M> {
    match module {
        Some(id) => match find_module(s.modules, id) {
            Some(m) => if here == Some(m.context) {
                Some(m.handle)
            } else {
                None
            },
            None => None,
        },
        None => None,
    }
}

/// The handle of a module that may stand for an import in a realm.
pub fn dependency<C, M, S, F>(
    state: &IsolateState<C, M, S, F>,
    module: Option<i32>,
    here: Option<i32>,
) -> (r: Option<&M>)
    ensures
        match (r, importable(state@, module, here)) {
            (Some(h), Some(want)) => *h == want,
            (None, None) => true,
            _ => false,
        },
{
    let id: i32 = match module {
        Some(id) => id,
        None => {
            return None;
        },
    };
    match state.module_handle(id) {
        Some((h, c)) => match here {
            Some(realm) => {
                if realm == c {
                    Some(h)
                } else {
                    None
                }
            },
            None => None,
        },
        None => None,
    }
}

/// The live realm that a context's stamp names.
pub open spec fn stamped<C, M, S, F>(s: Iso<C, M, S, F>, stamp: Option<i32>) -> Option<(i32, C)> {
    match stamp {
        Some(id) => match context_of(s, id) {
            Some(c) => Some((id, c)),
            None => None,
        },
        None => None,
    }
}

/// A stamp names the realm that lives under its id now: after a reset the fresh one,
/// to which the context that was reset away is not equal.
pub proof fn law_stamp_names_the_realm_of_now<C, M, S, F>(
    s: Iso<C, M, S, F>,
    id: i32,
    fresh: C,
)
    ensures
        stamped(s, Some(id)) matches Some((i, c)) ==> i == id && context_of(s, id) == Some(c),
        stamped(s, Some(id)) is None <==> context_of(s, id) is None,
        stamped(s, None) is None,
        stamped(after_reset(s, id, fresh), Some(id)) == Some((id, fresh)),
        id != 0 ==> stamped(after_dispose(s, id), Some(id)) is None,
{
}

/// The live realm that a context's stamp names, to be held against the context:
/// one that was reset away still carries its stamp.
pub fn stamped_realm<C, M, S, F>(state: &IsolateState<C, M, S, F>, stamp: Option<i32>) -> (r:
    Option<(i32, &C)>)
    ensures
        match (r, stamped(state@, stamp)) {
            (Some((i, c)), Some(want)) => (i, *c) == want,
            (None, None) => true,
            _ => false,
        },
{
    match stamp {
        Some(id) => match state.context_for(id) {
            Some(c) => Some((id, c)),
            None => None,
        },
        None => None,
    }
}

/// How an `import()` begins.
#[derive(Debug)]
pub enum ImportStart {
    Reject(String),
    Ask { realm: i32 },
}

/// The realm that the resolver of an `import()` is asked for, or the text that the
/// import is rejected with.
pub open spec fn import_asks(has_owner: bool, has_resolver: bool, here: Option<i32>) -> Result<
    i32,
    Seq<char>,
> {
    if !has_owner {
        Err("dynamic import has no owner"@)
    } else if !has_resolver {
        Err("import() was not resolved to a module"@)
    } else {
        Ok(
            match here {
                Some(id) => id,
                None => 0,
            },
        )
    }
}

/// An `import()` asks the resolver exactly where there is one and an owner, for
/// the realm that the import runs in, the main one where that is unknown.
pub proof fn law_import_asks_for_its_realm(
    has_owner: bool,
    has_resolver: bool,
    here: Option<i32>,
    id: i32,
)
    ensures
        import_asks(has_owner, has_resolver, here) is Ok <==> has_owner && has_resolver,
        import_asks(true, true, Some(id)) == Ok::<i32, Seq<char>>(id),
        import_asks(true, true, None) == Ok::<i32, Seq<char>>(0),
        import_asks(false, has_resolver, here) == Err::<i32, Seq<char>>(
            "dynamic import has no owner"@,
        ),
        import_asks(true, false, here) == Err::<i32, Seq<char>>(
            "import() was not resolved to a module"@,
        ),
{
}

/// How an `import()` begins in a realm: with its resolver, if there is one.
pub fn dynamic_import(has_owner: bool, has_resolver: bool, here: Option<i32>) -> (r: ImportStart)
    ensures
        match (r, import_asks(has_owner, has_resolver, here)) {
            (ImportStart::Ask { realm }, Ok(want)) => realm == want,
            (ImportStart::Reject(m), Err(want)) => m@ == want,
            _ => false,
        },
{
    if !has_owner {
        ImportStart::Reject("dynamic import has no owner".to_string())
    } else if !has_resolver {
        ImportStart::Reject("import() was not resolved to a module".to_string())
    } else {
        match here {
            Some(id) => ImportStart::Ask { realm: id },
            None => ImportStart::Ask { realm: 0 },
        }
    }
}

/// Why an `import()` that was resolved, or not, is rejected. `here` is the realm
/// that it runs in.
pub open spec fn import_rejection<C, M, S, F>(
    s: Iso<C, M, S, F>,
    module: Option<i32>,
    here: Option<i32>,
) -> Option<Seq<char>> {
    if module is None {
        Some("import() was not resolved to a module"@)
    } else if importable(s, module, here) is None {
        Some("resolved module not found"@)
    } else {
        None
    }
}

/// The module that completes an `import()`, or the text that it is rejected with.
pub fn imported_module<C, M, S, F>(
    state: &IsolateState<C, M, S, F>,
    module: Option<i32>,
    here: Option<i32>,
) -> (r: Result<&M, String>)
    ensures
        match (r, import_rejection(state@, module, here)) {
            (Ok(h), None) => importable(state@, module, here) == Some(*h),
            (Err(m), Some(want)) => m@ == want,
            _ => false,
        },
{
    if module.is_none() {
        return Err("import() was not resolved to a module".to_string());
    }
    match dependency(state, module, here) {
        Some(h) => Ok(h),
        None => Err("resolved module not found".to_string()),
    }
}

/// What is to be done next to complete an `import()`.
#[derive(Debug)]
pub enum ImportAction {
    AskStatus,
    Link,
    Evaluate,
    /// Settle the import from the evaluation's promise, with the namespace.
    Chain,
    /// Reject the import with a new error.
    Reject(String),
    /// Reject it with the exception that was thrown.
    RejectThrown,
    /// Reject it with the module's own exception.
    RejectErrored,
    /// The import is settled.
    Settled,
    /// Leave the import as it is: the engine is being terminated, and that is
    /// for the request around it.
    Leave,
}

/// What an engine call that may fail came to.
#[derive(Debug, Clone, Copy, PartialEq, Eq, Structural)]
pub enum Attempt {
    Done,
    Terminated,
    Thrown,
    Failed,
}

/// The answer to an `ImportAction`.
#[derive(Debug, Clone, Copy, PartialEq, Eq, Structural)]
pub enum ImportEvent {
    Status(ModuleStatus),
    Linked(Attempt),
    /// What evaluating came to, and whether a value it gave is a promise.
    Evaluated { attempt: Attempt, promise: bool },
    Chained(Attempt),
}

/// The mathematical value of an `ImportAction`.
pub ghost enum ImportAct {
    AskStatus,
    Link,
    Evaluate,
    Chain,
    Reject(Seq<char>),
    RejectThrown,
    RejectErrored,
    Settled,
    Leave,
}

impl View for ImportAction {
    type V = ImportAct;

    open spec fn view(&self) -> ImportAct {
        match self {
            ImportAction::AskStatus => ImportAct::AskStatus,
            ImportAction::Link => ImportAct::Link,
            ImportAction::Evaluate => ImportAct::Evaluate,
            ImportAction::Chain => ImportAct::Chain,
            ImportAction::Reject(m) => ImportAct::Reject(m@),
            ImportAction::RejectThrown => ImportAct::RejectThrown,
            ImportAction::RejectErrored => ImportAct::RejectErrored,
            ImportAction::Settled => ImportAct::Settled,
            ImportAction::Leave => ImportAct::Leave,
        }
    }
}

/// Where the completion of an `import()` stands.
#[derive(Debug, Clone, Copy, PartialEq, Eq, Structural)]
pub enum ImportStage {
    Status,
    Linking,
    LinkedStatus,
    Evaluating,
    Chaining,
    Done,
}

/// Whether an answer is one to what was asked.
pub open spec fn import_fits(stage: ImportStage, e: ImportEvent) -> bool {
    match stage {
        ImportStage::Status => e is Status,
        ImportStage::Linking => e is Linked,
        ImportStage::LinkedStatus => e is Status,
        ImportStage::Evaluating => e is Evaluated,
        ImportStage::Chaining => e is Chained,
        ImportStage::Done => false,
    }
}

/// The module is linked, or was before.
pub open spec fn import_by_status(status: ModuleStatus) -> (ImportStage, ImportAct) {
    match status {
        ModuleStatus::Errored => (ImportStage::Done, ImportAct::RejectErrored),
        ModuleStatus::Instantiated => (ImportStage::Evaluating, ImportAct::Evaluate),
        ModuleStatus::Evaluated => (ImportStage::Evaluating, ImportAct::Evaluate),
        _ => (
            ImportStage::Done,
            ImportAct::Reject(
                "dynamically imported module is busy (instantiating/evaluating)"@,
            ),
        ),
    }
}

/// One step of completing an `import()`.
pub open spec fn import_step<C, M, S, F>(
    stage: ImportStage,
    s: Iso<C, M, S, F>,
    e: ImportEvent,
) -> (ImportStage, Iso<C, M, S, F>, ImportAct) {
    match e {
        ImportEvent::Status(status) => if stage == ImportStage::Status && status
            == ModuleStatus::Uninstantiated {
            if s.instantiating {
                (
                    ImportStage::Done,
                    s,
                    ImportAct::Reject(
                        "cannot link a dynamic import while another module is instantiating"@,
                    ),
                )
            } else {
                (ImportStage::Linking, Iso { instantiating: true, ..s }, ImportAct::Link)
            }
        } else {
            (import_by_status(status).0, s, import_by_status(status).1)
        },
        ImportEvent::Linked(a) => {
            let free = Iso { instantiating: false, ..s };
            match a {
                Attempt::Done => (ImportStage::LinkedStatus, free, ImportAct::AskStatus),
                Attempt::Terminated => (ImportStage::Done, free, ImportAct::Leave),
                Attempt::Thrown => (ImportStage::Done, free, ImportAct::RejectThrown),
                Attempt::Failed => (
                    ImportStage::Done,
                    free,
                    ImportAct::Reject("failed to link dynamically imported module"@),
                ),
            }
        },
        ImportEvent::Evaluated { attempt, promise } => match attempt {
            Attempt::Done => if promise {
                (ImportStage::Chaining, s, ImportAct::Chain)
            } else {
                (
                    ImportStage::Done,
                    s,
                    ImportAct::Reject("module evaluation did not yield a promise"@),
                )
            },
            Attempt::Terminated => (ImportStage::Done, s, ImportAct::Leave),
            Attempt::Thrown => (ImportStage::Done, s, ImportAct::RejectThrown),
            Attempt::Failed => (
                ImportStage::Done,
                s,
                ImportAct::Reject("dynamically imported module failed to evaluate"@),
            ),
        },
        ImportEvent::Chained(a) => match a {
            Attempt::Done => (ImportStage::Done, s, ImportAct::Settled),
            Attempt::Terminated => (ImportStage::Done, s, ImportAct::Leave),
            _ => (
                ImportStage::Done,
                s,
                ImportAct::Reject("failed to settle dynamic import"@),
            ),
        },
    }
}

/// The completion of an `import()`: its module is linked where it is not yet,
/// and evaluated, and the import settled from that.
pub struct DynamicImport {
    pub stage: ImportStage,
}

impl DynamicImport {
    /// Begins with the module's status.
    pub fn start() -> (r: (DynamicImport, ImportAction))
        ensures
            r.0.stage == ImportStage::Status,
            r.1@ == ImportAct::AskStatus,
    {
        (DynamicImport { stage: ImportStage::Status }, ImportAction::AskStatus)
    }

    fn reject(&mut self, message: &str) -> (a: ImportAction)
        ensures
            final(self).stage == ImportStage::Done,
            a@ == ImportAct::Reject(message@),
    {
        self.stage = ImportStage::Done;
        ImportAction::Reject(message.to_string())
    }

    /// Takes the answer to the last action and gives the next one.
    pub fn step<C, M, S, F>(
        &mut self,
        state: &mut IsolateState<C, M, S, F>,
        e: ImportEvent,
    ) -> (a: ImportAction)
        requires
            iso_wf(old(state)@),
            import_fits(old(self).stage, e),
        ensures
            iso_wf(final(state)@),
            (final(self).stage, final(state)@, a@) == import_step(
                old(self).stage,
                old(state)@,
                e,
            ),
    {
        match e {
            ImportEvent::Status(status) => {
                if self.stage == ImportStage::Status && status == ModuleStatus::Uninstantiated {
                    if state.instantiating() {
                        return self.reject(
                            "cannot link a dynamic import while another module is instantiating",
                        );
                    }
                    state.set_instantiating(true);
                    self.stage = ImportStage::Linking;
                    return ImportAction::Link;
                }
                match status {
                    ModuleStatus::Errored => {
                        self.stage = ImportStage::Done;
                        ImportAction::RejectErrored
                    },
                    ModuleStatus::Instantiated => {
                        self.stage = ImportStage::Evaluating;
                        ImportAction::Evaluate
                    },
                    ModuleStatus::Evaluated => {
                        self.stage = ImportStage::Evaluating;
                        ImportAction::Evaluate
                    },
                    _ => self.reject(
                        "dynamically imported module is busy (instantiating/evaluating)",
                    ),
                }
            },
            ImportEvent::Linked(attempt) => {
                state.set_instantiating(false);
                match attempt {
                    Attempt::Done => {
                        self.stage = ImportStage::LinkedStatus;
                        ImportAction::AskStatus
                    },
                    Attempt::Terminated => {
                        self.stage = ImportStage::Done;
                        ImportAction::Leave
                    },
                    Attempt::Thrown => {
                        self.stage = ImportStage::Done;
                        ImportAction::RejectThrown
                    },
                    Attempt::Failed => self.reject("failed to link dynamically imported module"),
                }
            },
            ImportEvent::Evaluated { attempt, promise } => match attempt {
                Attempt::Done => {
                    if promise {
                        self.stage = ImportStage::Chaining;
                        ImportAction::Chain
                    } else {
                        self.reject("module evaluation did not yield a promise")
                    }
                },
                Attempt::Terminated => {
                    self.stage = ImportStage::Done;
                    ImportAction::Leave
                },
                Attempt::Thrown => {
                    self.stage = ImportStage::Done;
                    ImportAction::RejectThrown
                },
                Attempt::Failed => self.reject("dynamically imported module failed to evaluate"),
            },
            ImportEvent::Chained(attempt) => match attempt {
                Attempt::Done => {
                    self.stage = ImportStage::Done;
                    ImportAction::Settled
                },
                Attempt::Terminated => {
                    self.stage = ImportStage::Done;
                    ImportAction::Leave
                },
                _ => self.reject("failed to settle dynamic import"),
            },
        }
    }
}

/// A module stands for an import only in the realm it was compiled in.
pub proof fn law_imports_stay_in_their_realm<C, M, S, F>(
    s: Iso<C, M, S, F>,
    module: i32,
    here: Option<i32>,
)
    ensures
        importable(s, Some(module), here) is Some ==> find_module(s.modules, module) is Some
            && here == Some(find_module(s.modules, module)->0.context),
        here is None ==> importable(s, Some(module), here) is None,
{
}

/// An `import()` never links while a module graph is being linked, and however
/// its own linking ends, the mark is cleared.
pub proof fn law_import_links_alone<C, M, S, F>(
    stage: ImportStage,
    s: Iso<C, M, S, F>,
    e: ImportEvent,
)
    requires
        import_fits(stage, e),
    ensures
        import_step(stage, s, e).2 is Link ==> !s.instantiating && import_step(
            stage,
            s,
            e,
        ).1.instantiating,
        stage == ImportStage::Linking ==> !import_step(stage, s, e).1.instantiating,
{
}

/// A termination that lands while an `import()` is completed is left to the
/// request around it: the import is neither rejected nor settled.
pub proof fn law_import_leaves_termination<C, M, S, F>(
    stage: ImportStage,
    s: Iso<C, M, S, F>,
    promise: bool,
)
    ensures
        import_step(stage, s, ImportEvent::Linked(Attempt::Terminated)).2 == ImportAct::Leave,
        import_step(
            stage,
            s,
            ImportEvent::Evaluated { attempt: Attempt::Terminated, promise },
        ).2 == ImportAct::Leave,
        import_step(stage, s, ImportEvent::Chained(Attempt::Terminated)).2 == ImportAct::Leave,
{
}

/// How many answers an `import()` can still need.
pub open spec fn import_answers_left(stage: ImportStage) -> nat {
    match stage {
        ImportStage::Status => 5,
        ImportStage::Linking => 4,
        ImportStage::LinkedStatus => 3,
        ImportStage::Evaluating => 2,
        ImportStage::Chaining => 1,
        ImportStage::Done => 0,
    }
}

/// Every `import()` ends: each answer brings its end nearer, and at the end it is
/// rejected, settled, or left to the request around it.
pub proof fn law_import_ends<C, M, S, F>(stage: ImportStage, s: Iso<C, M, S, F>, e: ImportEvent)
    requires
        import_fits(stage, e),
    ensures
        ({
            let (next, _, a) = import_step(stage, s, e);
            &&& import_answers_left(next) < import_answers_left(stage)
            &&& next == ImportStage::Done <==> a is Reject || a is RejectThrown
                || a is RejectErrored || a is Settled || a is Leave
        }),
{
}

/// A module that is registered stands for an import in the realm that it was
/// compiled in, by its own handle, and for that reason alone is an `import()` of it
/// not rejected.
pub proof fn law_registered_module_is_importable<C, M, S, F>(
    s: Iso<C, M, S, F>,
    module: Option<i32>,
    here: Option<i32>,
)
    ensures
        module is None ==> importable(s, module, here) is None && import_rejection(s, module, here)
            == Some("import() was not resolved to a module"@),
        module matches Some(id) ==> match find_module(s.modules, id) {
            Some(m) => if here == Some(m.context) {
                importable(s, module, here) == Some(m.handle) && import_rejection(
                    s,
                    module,
                    here,
                ) is None
            } else {
                importable(s, module, here) is None && import_rejection(s, module, here) == Some(
                    "resolved module not found"@,
                )
            },
            None => importable(s, module, here) is None && import_rejection(s, module, here)
                == Some("resolved module not found"@),
        },
{
}

/// A module is linked for an `import()` exactly where it is not yet, and evaluated
/// once it is linked, however it came to be; one that failed rejects the import
/// with its own exception, and one that is being linked or evaluated is refused.
/// After linking a module that is still not linked is refused too.
pub proof fn law_import_goes_by_status<C, M, S, F>(s: Iso<C, M, S, F>, status: ModuleStatus)
    ensures
        ({
            let before = import_step(ImportStage::Status, s, ImportEvent::Status(status));
            let linked = import_step(ImportStage::LinkedStatus, s, ImportEvent::Status(status));
            let ready = status == ModuleStatus::Instantiated || status == ModuleStatus::Evaluated;
            &&& before.2 is Evaluate <==> ready
            &&& linked.2 is Evaluate <==> ready
            &&& before.2 is Link <==> status == ModuleStatus::Uninstantiated && !s.instantiating
            &&& !(linked.2 is Link)
            &&& before.2 is RejectErrored <==> status == ModuleStatus::Errored
            &&& linked.2 is RejectErrored <==> status == ModuleStatus::Errored
            &&& status == ModuleStatus::Uninstantiated && s.instantiating ==> before.2
                == ImportAct::Reject(
                "cannot link a dynamic import while another module is instantiating"@,
            )
            &&& status == ModuleStatus::Instantiating || status == ModuleStatus::Evaluating
                ==> before.2 == ImportAct::Reject(
                "dynamically imported module is busy (instantiating/evaluating)"@,
            )
        }),
{
}

/// What completing an `import()` comes to at each engine call: what was done goes
/// on, to the status after linking, to the chaining of a promise after evaluating,
/// and to the end after chaining; what was thrown rejects the import as it is, and
/// what merely failed rejects it with a text for the call.
pub proof fn law_import_follows_each_call<C, M, S, F>(
    stage: ImportStage,
    s: Iso<C, M, S, F>,
    promise: bool,
)
    ensures
        ({
            let link = |a: Attempt| import_step(stage, s, ImportEvent::Linked(a)).2;
            let run = |a: Attempt|
                import_step(stage, s, ImportEvent::Evaluated { attempt: a, promise }).2;
            let chain = |a: Attempt| import_step(stage, s, ImportEvent::Chained(a)).2;
            &&& link(Attempt::Done) == ImportAct::AskStatus
            &&& link(Attempt::Thrown) == ImportAct::RejectThrown
            &&& link(Attempt::Failed) == ImportAct::Reject(
                "failed to link dynamically imported module"@,
            )
            &&& promise ==> run(Attempt::Done) == ImportAct::Chain
            &&& !promise ==> run(Attempt::Done) == ImportAct::Reject(
                "module evaluation did not yield a promise"@,
            )
            &&& run(Attempt::Thrown) == ImportAct::RejectThrown
            &&& run(Attempt::Failed) == ImportAct::Reject(
                "dynamically imported module failed to evaluate"@,
            )
            &&& chain(Attempt::Done) == ImportAct::Settled
            &&& chain(Attempt::Thrown) == ImportAct::Reject("failed to settle dynamic import"@)
            &&& chain(Attempt::Failed) == ImportAct::Reject("failed to settle dynamic import"@)
        }),
{
}

/// Completing an `import()` changes nothing of the isolate but the mark that
/// modules are linked.
pub proof fn law_import_changes_only_the_mark<C, M, S, F>(
    stage: ImportStage,
    s: Iso<C, M, S, F>,
    e: ImportEvent,
)
    ensures
        ({
            let after = import_step(stage, s, e).1;
            Iso { instantiating: s.instantiating, ..after } == s
        }),
        e is Evaluated || e is Chained ==> import_step(stage, s, e).1 == s,
{
}

/// What is to be done for an `import()` is told from everything else, and so is the
/// text of a rejection.
pub proof fn law_import_actions_are_told_apart(a: ImportAction, b: ImportAction)
    requires
        a@ == b@,
    ensures
        a is AskStatus <==> b is AskStatus,
        a is Link <==> b is Link,
        a is Evaluate <==> b is Evaluate,
        a is Chain <==> b is Chain,
        a is RejectThrown <==> b is RejectThrown,
        a is RejectErrored <==> b is RejectErrored,
        a is Settled <==> b is Settled,
        a is Leave <==> b is Leave,
        a matches ImportAction::Reject(m) ==> (b matches ImportAction::Reject(n) && m@ == n@),
{
}

} // verus!
