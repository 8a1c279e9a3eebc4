//! The registries of one isolate: its realms, compiled modules and scripts, and
//! the flags that requests running in it share.
use crate::failures::runtime_error;
use crate::request::Job;
use crate::value::{Fault, VmError};
use std::collections::HashMap;
use vstd::prelude::*;

verus! {

broadcast use vstd::std_specs::hash::group_hash_axioms;

/// A compiled module.
pub struct ModuleEntry<M> {
    pub id: i32,
    /// The engine's identity hash; two modules may share one.
    pub hash: i32,
    pub handle: M,
    /// The name it was compiled under.
    pub url: String,
    /// The realm that it was compiled in.
    pub context: i32,
}

/// A compiled script.
pub struct ScriptEntry<S> {
    pub id: i32,
    pub handle: S,
    /// The realm that it was compiled in.
    pub context: i32,
}

/// The mathematical value of a compiled module.
pub ghost struct Mod<M> {
    pub id: i32,
    pub hash: i32,
    pub handle: M,
    pub url: Seq<char>,
    pub context: i32,
}

/// The mathematical value of a compiled script.
pub ghost struct Scr<S> {
    pub id: i32,
    pub handle: S,
    pub context: i32,
}

/// The state of one isolate. The parameters are the engine's handles of
/// contexts, modules, scripts and functions.
pub struct IsolateState<C, M, S, F> {
    main_context: Option<C>,
    contexts: HashMap<i32, C>,
    next_context_id: i32,
    modules: Vec<ModuleEntry<M>>,
    next_module_id: i32,
    scripts: Vec<ScriptEntry<S>>,
    next_script_id: i32,
    promise_reject_handler: Option<(i32, F)>,
    host_namespace: Option<String>,
    active_realms: Vec<i32>,
    instantiating: bool,
    watchdog_fired: bool,
    auto_microtasks: bool,
    draining: bool,
}

/// The mathematical value of an isolate's state.
#[verifier::ext_equal]
pub ghost struct Iso<C, M, S, F> {
    /// The realm with id zero.
    pub main: Option<C>,
    /// The other realms.
    pub contexts: Map<i32, C>,
    pub next_context: i32,
    /// Compiled modules, in the order of their ids.
    pub modules: Seq<Mod<M>>,
    pub next_module: i32,
    /// Compiled scripts, in the order of their ids.
    pub scripts: Seq<Scr<S>>,
    pub next_script: i32,
    /// The recorder of promise rejections and the realm that it is from.
    pub handler: Option<(i32, F)>,
    /// The name of the host namespace that every realm gets.
    pub namespace: Option<Seq<char>>,
    /// The realms of the requests on the stack, innermost last.
    pub active: Seq<i32>,
    /// Whether a module graph is being linked.
    pub instantiating: bool,
    /// Whether a deadline passed since the last outermost request ended.
    pub watchdog_fired: bool,
    /// Whether microtasks run at the end of every outermost request.
    pub auto: bool,
    /// Whether microtasks are running.
    pub draining: bool,
}

/// The value of a module entry.
pub open spec fn mod_view<M>(e: ModuleEntry<M>) -> Mod<M> {
    Mod { id: e.id, hash: e.hash, handle: e.handle, url: e.url@, context: e.context }
}

/// The value of a script entry.
pub open spec fn scr_view<S>(e: ScriptEntry<S>) -> Scr<S> {
    Scr { id: e.id, handle: e.handle, context: e.context }
}

impl<C, M, S, F> View for IsolateState<C, M, S, F> {
    type V = Iso<C, M, S, F>;

    closed spec fn view(&self) -> Iso<C, M, S, F> {
        Iso {
            main: self.main_context,
            contexts: self.contexts@,
            next_context: self.next_context_id,
            modules: self.modules@.map_values(|e: ModuleEntry<M>| mod_view(e)),
            next_module: self.next_module_id,
            scripts: self.scripts@.map_values(|e: ScriptEntry<S>| scr_view(e)),
            next_script: self.next_script_id,
            handler: self.promise_reject_handler,
            namespace: match self.host_namespace {
                Some(n) => Some(n@),
                None => None,
            },
            active: self.active_realms@,
            instantiating: self.instantiating,
            watchdog_fired: self.watchdog_fired,
            auto: self.auto_microtasks,
            draining: self.draining,
        }
    }
}

/// What always holds: ids are given in order and never twice, and the realm
/// with id zero is the main one.
pub open spec fn iso_wf<C, M, S, F>(s: Iso<C, M, S, F>) -> bool {
    &&& s.next_context >= 1
    &&& forall|id: i32| #[trigger] s.contexts.contains_key(id) ==> 1 <= id < s.next_context
    &&& 0 <= s.next_module
    &&& forall|i: int| 0 <= i < s.modules.len() ==> 0 <= (#[trigger] s.modules[i]).id < s.next_module
    &&& forall|i: int, j: int|
        0 <= i < j < s.modules.len() ==> (#[trigger] s.modules[i]).id < (#[trigger] s.modules[j]).id
    &&& 0 <= s.next_script
    &&& forall|i: int| 0 <= i < s.scripts.len() ==> 0 <= (#[trigger] s.scripts[i]).id < s.next_script
    &&& forall|i: int, j: int|
        0 <= i < j < s.scripts.len() ==> (#[trigger] s.scripts[i]).id < (#[trigger] s.scripts[j]).id
}

/// An isolate without realms, in which nothing was compiled.
pub open spec fn new_iso<C, M, S, F>(namespace: Option<Seq<char>>, auto: bool) -> Iso<C, M, S, F> {
    Iso {
        main: None,
        contexts: Map::empty(),
        next_context: 1,
        modules: Seq::empty(),
        next_module: 0,
        scripts: Seq::empty(),
        next_script: 0,
        handler: None,
        namespace,
        active: Seq::empty(),
        instantiating: false,
        watchdog_fired: false,
        auto,
        draining: false,
    }
}

/// A new isolate has no realm, module, script or recorder under any id, nothing is
/// running in it, and it has the mode and the namespace that it was made with. Ids
/// begin at zero, but for those of realms, where zero is the main one.
pub proof fn law_new_isolate_is_empty<C, M, S, F>(
    namespace: Option<Seq<char>>,
    auto: bool,
    id: i32,
    j: Job,
)
    ensures
        ({
            let s = new_iso::<C, M, S, F>(namespace, auto);
            &&& iso_wf(s)
            &&& context_of(s, id) is None
            &&& find_module(s.modules, id) is None
            &&& find_script(s.scripts, id) is None
            &&& recorder_of(s) is None
            &&& !s.active.contains(id) && !s.instantiating && !s.draining && !s.watchdog_fired
            &&& s.auto == auto && s.namespace == namespace
            &&& (s.next_context, s.next_module, s.next_script) == (1i32, 0i32, 0i32)
            &&& has_ids(s, j)
        }),
{
}

/// The realm with an id.
pub open spec fn context_of<C, M, S, F>(s: Iso<C, M, S, F>, id: i32) -> Option<C> {
    if id == 0 {
        s.main
    } else if s.contexts.contains_key(id) {
        Some(s.contexts[id])
    } else {
        None
    }
}

/// The module with an id.
pub open spec fn find_module<M>(modules: Seq<Mod<M>>, id: i32) -> Option<Mod<M>>
    decreases modules.len(),
{
    if modules.len() == 0 {
        None
    } else if modules[0].id == id {
        Some(modules[0])
    } else {
        find_module(modules.skip(1), id)
    }
}

/// The script with an id.
pub open spec fn find_script<S>(scripts: Seq<Scr<S>>, id: i32) -> Option<Scr<S>>
    decreases scripts.len(),
{
    if scripts.len() == 0 {
        None
    } else if scripts[0].id == id {
        Some(scripts[0])
    } else {
        find_script(scripts.skip(1), id)
    }
}

/// The realm in which a module was compiled.
pub open spec fn module_realm<M>(modules: Seq<Mod<M>>, id: i32) -> Option<i32> {
    match find_module(modules, id) {
        Some(m) => Some(m.context),
        None => None,
    }
}

/// The name a module was compiled under.
pub open spec fn url_of<M>(modules: Seq<Mod<M>>, id: i32) -> Option<Seq<char>> {
    match find_module(modules, id) {
        Some(m) => Some(m.url),
        None => None,
    }
}

/// The name and the realm of a module are those that it was registered with, and no
/// module that is not there has either.
pub proof fn law_module_keeps_its_name_and_realm<M>(modules: Seq<Mod<M>>, id: i32)
    ensures
        find_module(modules, id) matches Some(m) ==> url_of(modules, id) == Some(m.url)
            && module_realm(modules, id) == Some(m.context),
        find_module(modules, id) is None ==> url_of(modules, id) is None && module_realm(
            modules,
            id,
        ) is None,
{
}

/// The realm in which a script was compiled.
pub open spec fn script_realm<S>(scripts: Seq<Scr<S>>, id: i32) -> Option<i32> {
    match find_script(scripts, id) {
        Some(e) => Some(e.context),
        None => None,
    }
}

/// Whether there is an id left for what a request makes.
pub open spec fn has_ids<C, M, S, F>(s: Iso<C, M, S, F>, j: Job) -> bool {
    match j {
        Job::Create => s.next_context < i32::MAX,
        Job::CompileModule { .. } => s.next_module < i32::MAX,
        Job::CompileScript { .. } => s.next_script < i32::MAX,
        _ => true,
    }
}

/// Only what makes a realm, a module or a script can run out of ids, each of its
/// own kind, and it does so with the last one alone.
pub proof fn law_ids_run_out_by_kind<C, M, S, F>(s: Iso<C, M, S, F>, j: Job)
    ensures
        !(j is Create || j is CompileModule || j is CompileScript) ==> has_ids(s, j),
        j is Create ==> (has_ids(s, j) <==> s.next_context != i32::MAX),
        j is CompileModule ==> (has_ids(s, j) <==> s.next_module != i32::MAX),
        j is CompileScript ==> (has_ids(s, j) <==> s.next_script != i32::MAX),
{
}

/// The modules that share an identity hash, in the order of their ids.
pub open spec fn bucket<M>(modules: Seq<Mod<M>>, hash: i32) -> Seq<i32>
    decreases modules.len(),
{
    if modules.len() == 0 {
        Seq::empty()
    } else {
        let before = bucket(modules.drop_last(), hash);
        if modules.last().hash == hash {
            before.push(modules.last().id)
        } else {
            before
        }
    }
}

/// The modules of other realms.
pub open spec fn modules_outside<M>(modules: Seq<Mod<M>>, context: i32) -> Seq<Mod<M>>
    decreases modules.len(),
{
    if modules.len() == 0 {
        Seq::empty()
    } else {
        let before = modules_outside(modules.drop_last(), context);
        if modules.last().context != context {
            before.push(modules.last())
        } else {
            before
        }
    }
}

/// The scripts of other realms.
pub open spec fn scripts_outside<S>(scripts: Seq<Scr<S>>, context: i32) -> Seq<Scr<S>>
    decreases scripts.len(),
{
    if scripts.len() == 0 {
        Seq::empty()
    } else {
        let before = scripts_outside(scripts.drop_last(), context);
        if scripts.last().context != context {
            before.push(scripts.last())
        } else {
            before
        }
    }
}

/// All modules but the one with an id.
pub open spec fn modules_without<M>(modules: Seq<Mod<M>>, id: i32) -> Seq<Mod<M>>
    decreases modules.len(),
{
    if modules.len() == 0 {
        Seq::empty()
    } else {
        let before = modules_without(modules.drop_last(), id);
        if modules.last().id != id {
            before.push(modules.last())
        } else {
            before
        }
    }
}

/// All scripts but the one with an id.
pub open spec fn scripts_without<S>(scripts: Seq<Scr<S>>, id: i32) -> Seq<Scr<S>>
    decreases scripts.len(),
{
    if scripts.len() == 0 {
        Seq::empty()
    } else {
        let before = scripts_without(scripts.drop_last(), id);
        if scripts.last().id != id {
            before.push(scripts.last())
        } else {
            before
        }
    }
}

/// The state once everything compiled in a realm, and a recorder from it, is gone.
pub open spec fn without_artifacts<C, M, S, F>(
    s: Iso<C, M, S, F>,
    context: i32,
) -> Iso<C, M, S, F> {
    Iso {
        modules: modules_outside(s.modules, context),
        scripts: scripts_outside(s.scripts, context),
        handler: match s.handler {
            Some(h) => if h.0 == context {
                None
            } else {
                Some(h)
            },
            None => None,
        },
        ..s
    }
}

/// The state once a recorder is registered, or cleared.
pub open spec fn with_recorder<C, M, S, F>(s: Iso<C, M, S, F>, handler: Option<(i32, F)>) -> Iso<
    C,
    M,
    S,
    F,
> {
    Iso { handler, ..s }
}

/// The recorder of promise rejections.
pub open spec fn recorder_of<C, M, S, F>(s: Iso<C, M, S, F>) -> Option<F> {
    match s.handler {
        Some(h) => Some(h.1),
        None => None,
    }
}

/// The recorder that was registered last is the one that is told, until it is cleared
/// or its realm ends; a realm's end does not touch one from elsewhere.
pub proof fn law_last_recorder_is_told<C, M, S, F>(
    s: Iso<C, M, S, F>,
    realm: i32,
    f: F,
    other: i32,
    fresh: C,
)
    requires
        other != realm,
    ensures
        ({
            let t = with_recorder(s, Some((realm, f)));
            &&& recorder_of(t) == Some(f)
            &&& recorder_of(with_recorder(t, None)) is None
            &&& recorder_of(after_reset(t, realm, fresh)) is None
            &&& recorder_of(after_reset(t, other, fresh)) == Some(f)
            &&& recorder_of(after_dispose(t, realm)) is None
            &&& recorder_of(after_dispose(t, other)) == Some(f)
            &&& (t.main, t.contexts, t.modules, t.scripts) == (
                s.main,
                s.contexts,
                s.modules,
                s.scripts,
            )
        }),
{
}

/// Why a realm may not be reset, if so.
pub open spec fn reset_refusal<C, M, S, F>(s: Iso<C, M, S, F>, id: i32) -> Option<Fault> {
    if s.draining {
        Some(Fault::Runtime("cannot reset a realm during a microtask checkpoint"@))
    } else if id != 0 && !s.contexts.contains_key(id) {
        Some(Fault::Runtime("context disposed or unknown"@))
    } else if s.active.contains(id) {
        Some(
            Fault::Runtime(
                "cannot reset a realm while a request for it is suspended on the V8 stack"@,
            ),
        )
    } else {
        None
    }
}

/// Why a realm may not be disposed, if so.
pub open spec fn dispose_refusal<C, M, S, F>(s: Iso<C, M, S, F>, id: i32) -> Option<Fault> {
    if s.draining {
        Some(Fault::Runtime("cannot dispose a realm during a microtask checkpoint"@))
    } else if s.active.contains(id) {
        Some(
            Fault::Runtime(
                "cannot dispose a realm while a request for it is suspended on the V8 stack"@,
            ),
        )
    } else {
        None
    }
}

/// The state once a realm was swapped for a fresh one under the same id.
pub open spec fn after_reset<C, M, S, F>(
    s: Iso<C, M, S, F>,
    id: i32,
    fresh: C,
) -> Iso<C, M, S, F> {
    let swapped = if id == 0 {
        Iso { main: Some(fresh), ..s }
    } else {
        Iso { contexts: s.contexts.insert(id, fresh), ..s }
    };
    without_artifacts(swapped, id)
}

/// The state once a realm is gone. The main realm itself stays.
pub open spec fn after_dispose<C, M, S, F>(s: Iso<C, M, S, F>, id: i32) -> Iso<C, M, S, F> {
    without_artifacts(Iso { contexts: s.contexts.remove(id), ..s }, id)
}

proof fn lemma_modules_outside<M>(modules: Seq<Mod<M>>, context: i32, next: i32)
    requires
        forall|i: int| 0 <= i < modules.len() ==> 0 <= (#[trigger] modules[i]).id < next,
        forall|i: int, j: int|
            0 <= i < j < modules.len() ==> (#[trigger] modules[i]).id < (#[trigger] modules[j]).id,
    ensures
        ({
            let k = modules_outside(modules, context);
            &&& forall|i: int| 0 <= i < k.len() ==> 0 <= (#[trigger] k[i]).id < next
            &&& forall|i: int| 0 <= i < k.len() ==> modules.contains(#[trigger] k[i])
            &&& forall|i: int, j: int|
                0 <= i < j < k.len() ==> (#[trigger] k[i]).id < (#[trigger] k[j]).id
        }),
    decreases modules.len(),
{
    if modules.len() > 0 {
        let rest = modules.drop_last();
        lemma_modules_outside(rest, context, next);
        let before = modules_outside(rest, context);
        let k = modules_outside(modules, context);
        assert forall|i: int| 0 <= i < before.len() implies modules.contains(#[trigger] before[i])
            && before[i].id < modules.last().id by {
            assert(rest.contains(before[i]));
            let j = choose|j: int| 0 <= j < rest.len() && rest[j] == before[i];
            assert(modules[j] == before[i]);
        }
        assert forall|i: int| 0 <= i < k.len() implies modules.contains(#[trigger] k[i]) && 0
            <= k[i].id < next by {
            if i < before.len() {
                assert(k[i] == before[i]);
            } else {
                assert(modules[modules.len() - 1] == k[i]);
            }
        }
        assert forall|i: int, j: int| 0 <= i < j < k.len() implies (#[trigger] k[i]).id < (
        #[trigger] k[j]).id by {
            assert(k[i] == before[i]);
        }
    }
}

proof fn lemma_modules_without<M>(modules: Seq<Mod<M>>, id: i32, next: i32)
    requires
        forall|i: int| 0 <= i < modules.len() ==> 0 <= (#[trigger] modules[i]).id < next,
        forall|i: int, j: int|
            0 <= i < j < modules.len() ==> (#[trigger] modules[i]).id < (#[trigger] modules[j]).id,
    ensures
        ({
            let k = modules_without(modules, id);
            &&& forall|i: int| 0 <= i < k.len() ==> 0 <= (#[trigger] k[i]).id < next
            &&& forall|i: int| 0 <= i < k.len() ==> modules.contains(#[trigger] k[i])
            &&& forall|i: int, j: int|
                0 <= i < j < k.len() ==> (#[trigger] k[i]).id < (#[trigger] k[j]).id
        }),
    decreases modules.len(),
{
    if modules.len() > 0 {
        let rest = modules.drop_last();
        lemma_modules_without(rest, id, next);
        let before = modules_without(rest, id);
        let k = modules_without(modules, id);
        assert forall|i: int| 0 <= i < before.len() implies modules.contains(#[trigger] before[i])
            && before[i].id < modules.last().id by {
            assert(rest.contains(before[i]));
            let j = choose|j: int| 0 <= j < rest.len() && rest[j] == before[i];
            assert(modules[j] == before[i]);
        }
        assert forall|i: int| 0 <= i < k.len() implies modules.contains(#[trigger] k[i]) && 0
            <= k[i].id < next by {
            if i < before.len() {
                assert(k[i] == before[i]);
            } else {
                assert(modules[modules.len() - 1] == k[i]);
            }
        }
        assert forall|i: int, j: int| 0 <= i < j < k.len() implies (#[trigger] k[i]).id < (
        #[trigger] k[j]).id by {
            assert(k[i] == before[i]);
        }
    }
}

proof fn lemma_scripts_outside<S>(scripts: Seq<Scr<S>>, context: i32, next: i32)
    requires
        forall|i: int| 0 <= i < scripts.len() ==> 0 <= (#[trigger] scripts[i]).id < next,
        forall|i: int, j: int|
            0 <= i < j < scripts.len() ==> (#[trigger] scripts[i]).id < (#[trigger] scripts[j]).id,
    ensures
        ({
            let k = scripts_outside(scripts, context);
            &&& forall|i: int| 0 <= i < k.len() ==> 0 <= (#[trigger] k[i]).id < next
            &&& forall|i: int| 0 <= i < k.len() ==> scripts.contains(#[trigger] k[i])
            &&& forall|i: int, j: int|
                0 <= i < j < k.len() ==> (#[trigger] k[i]).id < (#[trigger] k[j]).id
        }),
    decreases scripts.len(),
{
    if scripts.len() > 0 {
        let rest = scripts.drop_last();
        lemma_scripts_outside(rest, context, next);
        let before = scripts_outside(rest, context);
        let k = scripts_outside(scripts, context);
        assert forall|i: int| 0 <= i < before.len() implies scripts.contains(#[trigger] before[i])
            && before[i].id < scripts.last().id by {
            assert(rest.contains(before[i]));
            let j = choose|j: int| 0 <= j < rest.len() && rest[j] == before[i];
            assert(scripts[j] == before[i]);
        }
        assert forall|i: int| 0 <= i < k.len() implies scripts.contains(#[trigger] k[i]) && 0
            <= k[i].id < next by {
            if i < before.len() {
                assert(k[i] == before[i]);
            } else {
                assert(scripts[scripts.len() - 1] == k[i]);
            }
        }
        assert forall|i: int, j: int| 0 <= i < j < k.len() implies (#[trigger] k[i]).id < (
        #[trigger] k[j]).id by {
            assert(k[i] == before[i]);
        }
    }
}

proof fn lemma_scripts_without<S>(scripts: Seq<Scr<S>>, id: i32, next: i32)
    requires
        forall|i: int| 0 <= i < scripts.len() ==> 0 <= (#[trigger] scripts[i]).id < next,
        forall|i: int, j: int|
            0 <= i < j < scripts.len() ==> (#[trigger] scripts[i]).id < (#[trigger] scripts[j]).id,
    ensures
        ({
            let k = scripts_without(scripts, id);
            &&& forall|i: int| 0 <= i < k.len() ==> 0 <= (#[trigger] k[i]).id < next
            &&& forall|i: int| 0 <= i < k.len() ==> scripts.contains(#[trigger] k[i])
            &&& forall|i: int, j: int|
                0 <= i < j < k.len() ==> (#[trigger] k[i]).id < (#[trigger] k[j]).id
        }),
    decreases scripts.len(),
{
    if scripts.len() > 0 {
        let rest = scripts.drop_last();
        lemma_scripts_without(rest, id, next);
        let before = scripts_without(rest, id);
        let k = scripts_without(scripts, id);
        assert forall|i: int| 0 <= i < before.len() implies scripts.contains(#[trigger] before[i])
            && before[i].id < scripts.last().id by {
            assert(rest.contains(before[i]));
            let j = choose|j: int| 0 <= j < rest.len() && rest[j] == before[i];
            assert(scripts[j] == before[i]);
        }
        assert forall|i: int| 0 <= i < k.len() implies scripts.contains(#[trigger] k[i]) && 0
            <= k[i].id < next by {
            if i < before.len() {
                assert(k[i] == before[i]);
            } else {
                assert(scripts[scripts.len() - 1] == k[i]);
            }
        }
        assert forall|i: int, j: int| 0 <= i < j < k.len() implies (#[trigger] k[i]).id < (
        #[trigger] k[j]).id by {
            assert(k[i] == before[i]);
        }
    }
}

impl<C, M, S, F> IsolateState<C, M, S, F> {
    /// A state without any realm.
    pub fn new(host_namespace: Option<String>, auto_microtasks: bool) -> (r: Self)
        ensures
            iso_wf(r@),
            r@ == new_iso::<C, M, S, F>(
                match host_namespace {
                    Some(n) => Some(n@),
                    None => None,
                },
                auto_microtasks,
            ),
    {
        let r = IsolateState {
            main_context: None,
            contexts: HashMap::new(),
            next_context_id: 1,
            modules: Vec::new(),
            next_module_id: 0,
            scripts: Vec::new(),
            next_script_id: 0,
            promise_reject_handler: None,
            host_namespace,
            active_realms: Vec::new(),
            instantiating: false,
            watchdog_fired: false,
            auto_microtasks,
            draining: false,
        };
        proof {
            assert(r@.modules =~= Seq::empty());
            assert(r@.scripts =~= Seq::empty());
            assert(r@.contexts =~= Map::empty());
        }
        r
    }

    /// The realm with an id.
    pub fn context_for(&self, context_id: i32) -> (r: Option<&C>)
        ensures
            match (r, context_of(self@, context_id)) {
                (Some(c), Some(want)) => *c == want,
                (None, None) => true,
                _ => false,
            },
    {
        if context_id == 0 {
            match &self.main_context {
                Some(c) => Some(c),
                None => None,
            }
        } else {
            self.contexts.get(&context_id)
        }
    }

    /// Whether there is a realm with an id.
    pub fn has_context(&self, context_id: i32) -> (r: bool)
        ensures
            r == context_of(self@, context_id) is Some,
    {
        match self.context_for(context_id) {
            Some(_) => true,
            None => false,
        }
    }

    fn module_index(&self, module_id: i32) -> (r: Option<usize>)
        ensures
            match (r, find_module(self@.modules, module_id)) {
                (Some(i), Some(m)) => i < self.modules@.len() && mod_view(self.modules@[i as int])
                    == m,
                (None, None) => true,
                _ => false,
            },
    {
        let mut i: usize = 0;
        let ghost all = self@.modules;
        assert(all.skip(0) =~= all);
        while i < self.modules.len()
            invariant
                i <= self.modules@.len(),
                all == self@.modules,
                all.len() == self.modules@.len(),
                find_module(all, module_id) == find_module(all.skip(i as int), module_id),
            decreases self.modules.len() - i,
        {
            assert(all[i as int] == mod_view(self.modules@[i as int]));
            assert(all.skip(i as int)[0] == all[i as int]);
            if self.modules[i].id == module_id {
                return Some(i);
            }
            assert(all.skip(i as int).skip(1) =~= all.skip(i + 1));
            i = i + 1;
        }
        None
    }

    /// The handle of a module and the realm it was compiled in.
    pub fn module_handle(&self, module_id: i32) -> (r: Option<(&M, i32)>)
        ensures
            match (r, find_module(self@.modules, module_id)) {
                (Some((h, c)), Some(m)) => *h == m.handle && c == m.context,
                (None, None) => true,
                _ => false,
            },
    {
        match self.module_index(module_id) {
            Some(i) => Some((&self.modules[i].handle, self.modules[i].context)),
            None => None,
        }
    }

    /// The name a module was compiled under.
    pub fn module_url(&self, module_id: i32) -> (r: Option<String>)
        ensures
            match (r, url_of(self@.modules, module_id)) {
                (Some(u), Some(want)) => u@ == want,
                (None, None) => true,
                _ => false,
            },
    {
        match self.module_index(module_id) {
            Some(i) => Some(self.modules[i].url.clone()),
            None => None,
        }
    }

    /// The ids of the modules that share an identity hash, oldest first: the
    /// one to look for is among them.
    pub fn module_bucket(&self, hash: i32) -> (r: Vec<i32>)
        ensures
            r@ == bucket(self@.modules, hash),
    {
        let mut out: Vec<i32> = Vec::new();
        let mut i: usize = 0;
        let ghost all = self@.modules;
        assert(all.take(0) =~= Seq::empty());
        while i < self.modules.len()
            invariant
                i <= self.modules@.len(),
                all == self@.modules,
                all.len() == self.modules@.len(),
                out@ == bucket(all.take(i as int), hash),
            decreases self.modules.len() - i,
        {
            assert(all[i as int] == mod_view(self.modules@[i as int]));
            assert(all.take(i + 1).drop_last() =~= all.take(i as int));
            if self.modules[i].hash == hash {
                out.push(self.modules[i].id);
            }
            i = i + 1;
        }
        assert(all.take(i as int) =~= all);
        out
    }

    /// The handle of a script and the realm it was compiled in.
    pub fn script_handle(&self, script_id: i32) -> (r: Option<(&S, i32)>)
        ensures
            match (r, find_script(self@.scripts, script_id)) {
                (Some((h, c)), Some(e)) => *h == e.handle && c == e.context,
                (None, None) => true,
                _ => false,
            },
    {
        let mut i: usize = 0;
        let ghost all = self@.scripts;
        assert(all.skip(0) =~= all);
        while i < self.scripts.len()
            invariant
                i <= self.scripts@.len(),
                all == self@.scripts,
                all.len() == self.scripts@.len(),
                find_script(all, script_id) == find_script(all.skip(i as int), script_id),
            decreases self.scripts.len() - i,
        {
            assert(all[i as int] == scr_view(self.scripts@[i as int]));
            assert(all.skip(i as int)[0] == all[i as int]);
            if self.scripts[i].id == script_id {
                return Some((&self.scripts[i].handle, self.scripts[i].context));
            }
            assert(all.skip(i as int).skip(1) =~= all.skip(i + 1));
            i = i + 1;
        }
        None
    }

    /// Takes in a compiled module under the next id.
    pub fn add_module(&mut self, hash: i32, handle: M, url: String, context: i32) -> (id: i32)
        requires
            iso_wf(old(self)@),
            old(self)@.next_module < i32::MAX,
        ensures
            id == old(self)@.next_module,
            iso_wf(final(self)@),
            final(self)@ == (Iso {
                modules: old(self)@.modules.push(Mod { id, hash, handle, url: url@, context }),
                next_module: (id + 1) as i32,
                ..old(self)@
            }),
    {
        let id: i32 = self.next_module_id;
        self.next_module_id = id + 1;
        self.modules.push(ModuleEntry { id, hash, handle, url, context });
        assert(self@.modules =~= old(self)@.modules.push(
            Mod { id, hash, handle, url: url@, context },
        ));
        assert(self@.scripts =~= old(self)@.scripts);
        id
    }

    /// Takes in a compiled script under the next id.
    pub fn add_script(&mut self, handle: S, context: i32) -> (id: i32)
        requires
            iso_wf(old(self)@),
            old(self)@.next_script < i32::MAX,
        ensures
            id == old(self)@.next_script,
            iso_wf(final(self)@),
            final(self)@ == (Iso {
                scripts: old(self)@.scripts.push(Scr { id, handle, context }),
                next_script: (id + 1) as i32,
                ..old(self)@
            }),
    {
        let id: i32 = self.next_script_id;
        self.next_script_id = id + 1;
        self.scripts.push(ScriptEntry { id, handle, context });
        assert(self@.scripts =~= old(self)@.scripts.push(Scr { id, handle, context }));
        assert(self@.modules =~= old(self)@.modules);
        id
    }

    /// Forgets a module; one that is not there is no error.
    pub fn dispose_module(&mut self, module_id: i32)
        requires
            iso_wf(old(self)@),
        ensures
            iso_wf(final(self)@),
            final(self)@ == (Iso {
                modules: modules_without(old(self)@.modules, module_id),
                ..old(self)@
            }),
    {
        let ghost all = self@.modules;
        proof {
            lemma_modules_without(all, module_id, self@.next_module);
        }
        let mut before: Vec<ModuleEntry<M>> = Vec::new();
        std::mem::swap(&mut before, &mut self.modules);
        let ghost entries = before@;
        assert(all =~= entries.map_values(|e: ModuleEntry<M>| mod_view(e)));
        assert(all.take(0) =~= Seq::empty());
        assert(self@.modules =~= Seq::empty());
        for e in iter: before
            invariant
                iter.seq() == entries,
                all == entries.map_values(|e: ModuleEntry<M>| mod_view(e)),
                self@ == (Iso {
                    modules: modules_without(all.take(iter.index()), module_id),
                    ..old(self)@
                }),
        {
            let ghost i = iter.index();
            assert(all[i] == mod_view(e));
            assert(all.take(i + 1).drop_last() =~= all.take(i));
            let ghost kept = self@.modules;
            if e.id != module_id {
                self.modules.push(e);
                assert(self@.modules =~= kept.push(mod_view(e)));
            }
        }
        assert(all.take(all.len() as int) =~= all);
    }

    /// Forgets a script; one that is not there is no error.
    pub fn dispose_script(&mut self, script_id: i32)
        requires
            iso_wf(old(self)@),
        ensures
            iso_wf(final(self)@),
            final(self)@ == (Iso {
                scripts: scripts_without(old(self)@.scripts, script_id),
                ..old(self)@
            }),
    {
        let ghost all = self@.scripts;
        proof {
            lemma_scripts_without(all, script_id, self@.next_script);
        }
        let mut before: Vec<ScriptEntry<S>> = Vec::new();
        std::mem::swap(&mut before, &mut self.scripts);
        let ghost entries = before@;
        assert(all =~= entries.map_values(|e: ScriptEntry<S>| scr_view(e)));
        assert(all.take(0) =~= Seq::empty());
        assert(self@.scripts =~= Seq::empty());
        for e in iter: before
            invariant
                iter.seq() == entries,
                all == entries.map_values(|e: ScriptEntry<S>| scr_view(e)),
                self@ == (Iso {
                    scripts: scripts_without(all.take(iter.index()), script_id),
                    ..old(self)@
                }),
        {
            let ghost i = iter.index();
            assert(all[i] == scr_view(e));
            assert(all.take(i + 1).drop_last() =~= all.take(i));
            let ghost kept = self@.scripts;
            if e.id != script_id {
                self.scripts.push(e);
                assert(self@.scripts =~= kept.push(scr_view(e)));
            }
        }
        assert(all.take(all.len() as int) =~= all);
    }

    fn drop_modules_of(&mut self, context_id: i32)
        ensures
            final(self)@ == (Iso {
                modules: modules_outside(old(self)@.modules, context_id),
                ..old(self)@
            }),
    {
        let ghost all = self@.modules;
        let mut before: Vec<ModuleEntry<M>> = Vec::new();
        std::mem::swap(&mut before, &mut self.modules);
        let ghost entries = before@;
        assert(all =~= entries.map_values(|e: ModuleEntry<M>| mod_view(e)));
        assert(all.take(0) =~= Seq::empty());
        assert(self@.modules =~= Seq::empty());
        for e in iter: before
            invariant
                iter.seq() == entries,
                all == entries.map_values(|e: ModuleEntry<M>| mod_view(e)),
                self@ == (Iso {
                    modules: modules_outside(all.take(iter.index()), context_id),
                    ..old(self)@
                }),
        {
            let ghost i = iter.index();
            assert(all[i] == mod_view(e));
            assert(all.take(i + 1).drop_last() =~= all.take(i));
            let ghost kept = self@.modules;
            if e.context != context_id {
                self.modules.push(e);
                assert(self@.modules =~= kept.push(mod_view(e)));
            }
        }
        assert(all.take(all.len() as int) =~= all);
    }

    fn drop_scripts_of(&mut self, context_id: i32)
        ensures
            final(self)@ == (Iso {
                scripts: scripts_outside(old(self)@.scripts, context_id),
                ..old(self)@
            }),
    {
        let ghost all = self@.scripts;
        let mut before: Vec<ScriptEntry<S>> = Vec::new();
        std::mem::swap(&mut before, &mut self.scripts);
        let ghost entries = before@;
        assert(all =~= entries.map_values(|e: ScriptEntry<S>| scr_view(e)));
        assert(all.take(0) =~= Seq::empty());
        assert(self@.scripts =~= Seq::empty());
        for e in iter: before
            invariant
                iter.seq() == entries,
                all == entries.map_values(|e: ScriptEntry<S>| scr_view(e)),
                self@ == (Iso {
                    scripts: scripts_outside(all.take(iter.index()), context_id),
                    ..old(self)@
                }),
        {
            let ghost i = iter.index();
            assert(all[i] == scr_view(e));
            assert(all.take(i + 1).drop_last() =~= all.take(i));
            let ghost kept = self@.scripts;
            if e.context != context_id {
                self.scripts.push(e);
                assert(self@.scripts =~= kept.push(scr_view(e)));
            }
        }
        assert(all.take(all.len() as int) =~= all);
    }

    /// Forgets everything that was compiled in a realm, and a recorder from it.
    fn drop_context_artifacts(&mut self, context_id: i32)
        requires
            iso_wf(old(self)@),
        ensures
            iso_wf(final(self)@),
            final(self)@ == without_artifacts(old(self)@, context_id),
    {
        proof {
            lemma_modules_outside(self@.modules, context_id, self@.next_module);
            lemma_scripts_outside(self@.scripts, context_id, self@.next_script);
        }
        self.drop_modules_of(context_id);
        self.drop_scripts_of(context_id);
        let ghost before = self@;
        let gone: bool = match &self.promise_reject_handler {
            Some(h) => h.0 == context_id,
            None => false,
        };
        if gone {
            self.promise_reject_handler = None;
        }
        assert(self@.modules =~= before.modules);
        assert(self@.scripts =~= before.scripts);
    }

    /// Sets the realm with id zero.
    pub fn set_main(&mut self, context: C)
        ensures
            final(self)@ == (Iso { main: Some(context), ..old(self)@ }),
            iso_wf(old(self)@) ==> iso_wf(final(self)@),
    {
        self.main_context = Some(context);
        assert(self@.modules =~= old(self)@.modules);
        assert(self@.scripts =~= old(self)@.scripts);
    }

    /// Takes the next realm id.
    pub fn reserve_context(&mut self) -> (id: i32)
        requires
            iso_wf(old(self)@),
            old(self)@.next_context < i32::MAX,
        ensures
            iso_wf(final(self)@),
            id == old(self)@.next_context,
            final(self)@ == (Iso { next_context: (id + 1) as i32, ..old(self)@ }),
    {
        let id: i32 = self.next_context_id;
        self.next_context_id = id + 1;
        assert(self@.modules =~= old(self)@.modules);
        assert(self@.scripts =~= old(self)@.scripts);
        id
    }

    /// Takes in a fresh realm under a reserved id.
    pub fn add_context(&mut self, id: i32, context: C)
        requires
            iso_wf(old(self)@),
            1 <= id < old(self)@.next_context,
        ensures
            iso_wf(final(self)@),
            final(self)@ == (Iso {
                contexts: old(self)@.contexts.insert(id, context),
                ..old(self)@
            }),
    {
        self.contexts.insert(id, context);
        assert(self@.modules =~= old(self)@.modules);
        assert(self@.scripts =~= old(self)@.scripts);
    }

    /// Whether a request for a realm is on the stack.
    pub fn is_active(&self, context_id: i32) -> (r: bool)
        ensures
            r == self@.active.contains(context_id),
    {
        let mut i: usize = 0;
        while i < self.active_realms.len()
            invariant
                i <= self.active_realms@.len(),
                forall|j: int| 0 <= j < i ==> self.active_realms@[j] != context_id,
            decreases self.active_realms.len() - i,
        {
            if self.active_realms[i] == context_id {
                assert(self@.active[i as int] == context_id);
                return true;
            }
            i = i + 1;
        }
        false
    }

    /// Whether a realm may be reset: not while microtasks run, nor while a
    /// request for it is on the stack.
    pub fn check_reset(&self, context_id: i32) -> (r: Result<(), VmError>)
        ensures
            match (r, reset_refusal(self@, context_id)) {
                (Ok(_), None) => true,
                (Err(e), Some(f)) => e@ == f,
                _ => false,
            },
    {
        if self.draining {
            Err(runtime_error("cannot reset a realm during a microtask checkpoint"))
        } else if context_id != 0 && !self.contexts.contains_key(&context_id) {
            Err(runtime_error("context disposed or unknown"))
        } else if self.is_active(context_id) {
            Err(
                runtime_error(
                    "cannot reset a realm while a request for it is suspended on the V8 stack",
                ),
            )
        } else {
            Ok(())
        }
    }

    /// Swaps a realm for a fresh one and forgets what was compiled in it.
    pub fn reset(&mut self, context_id: i32, fresh: C)
        requires
            iso_wf(old(self)@),
            0 <= context_id < old(self)@.next_context,
        ensures
            iso_wf(final(self)@),
            final(self)@ == after_reset(old(self)@, context_id, fresh),
    {
        if context_id == 0 {
            self.main_context = Some(fresh);
        } else {
            self.contexts.insert(context_id, fresh);
        }
        assert(self@.modules =~= old(self)@.modules);
        assert(self@.scripts =~= old(self)@.scripts);
        self.drop_context_artifacts(context_id);
    }

    /// Disposes a realm, unless microtasks run or a request for it is on the
    /// stack. A realm that is not there is no error.
    pub fn dispose_context(&mut self, context_id: i32) -> (r: Result<(), VmError>)
        requires
            iso_wf(old(self)@),
        ensures
            iso_wf(final(self)@),
            match (r, dispose_refusal(old(self)@, context_id)) {
                (Ok(_), None) => final(self)@ == after_dispose(old(self)@, context_id),
                (Err(e), Some(f)) => e@ == f && final(self)@ == old(self)@,
                _ => false,
            },
    {
        if self.draining {
            Err(runtime_error("cannot dispose a realm during a microtask checkpoint"))
        } else if self.is_active(context_id) {
            Err(
                runtime_error(
                    "cannot dispose a realm while a request for it is suspended on the V8 stack",
                ),
            )
        } else {
            self.contexts.remove(&context_id);
            assert(self@.modules =~= old(self)@.modules);
            assert(self@.scripts =~= old(self)@.scripts);
            assert(self@.contexts =~= old(self)@.contexts.remove(context_id));
            self.drop_context_artifacts(context_id);
            Ok(())
        }
    }

    /// Registers the recorder of promise rejections, or clears it.
    pub fn set_promise_reject_handler(&mut self, handler: Option<(i32, F)>)
        ensures
            final(self)@ == with_recorder(old(self)@, handler),
            iso_wf(old(self)@) ==> iso_wf(final(self)@),
    {
        self.promise_reject_handler = handler;
        assert(self@.modules =~= old(self)@.modules);
        assert(self@.scripts =~= old(self)@.scripts);
    }

    /// The recorder of promise rejections.
    pub fn promise_reject_handler(&self) -> (r: Option<&F>)
        ensures
            match (r, recorder_of(self@)) {
                (Some(f), Some(want)) => *f == want,
                (None, None) => true,
                _ => false,
            },
    {
        match &self.promise_reject_handler {
            Some(h) => Some(&h.1),
            None => None,
        }
    }

    /// The name of the host namespace.
    pub fn host_namespace(&self) -> (r: Option<String>)
        ensures
            match (r, self@.namespace) {
                (Some(n), Some(want)) => n@ == want,
                (None, None) => true,
                _ => false,
            },
    {
        match &self.host_namespace {
            Some(n) => Some(n.clone()),
            None => None,
        }
    }

    /// Whether there is an id left for what a request makes: a realm, a module or
    /// a script. Other requests need none.
    pub fn ids_left(&self, j: Job) -> (r: bool)
        ensures
            r == has_ids(self@, j),
    {
        match j {
            Job::Create => self.next_context_id < i32::MAX,
            Job::CompileModule { .. } => self.next_module_id < i32::MAX,
            Job::CompileScript { .. } => self.next_script_id < i32::MAX,
            _ => true,
        }
    }

    /// Puts a realm on the stack of active ones.
    pub(crate) fn push_active(&mut self, context_id: i32)
        ensures
            final(self)@ == (Iso { active: old(self)@.active.push(context_id), ..old(self)@ }),
            iso_wf(old(self)@) ==> iso_wf(final(self)@),
    {
        self.active_realms.push(context_id);
        assert(self@.modules =~= old(self)@.modules);
        assert(self@.scripts =~= old(self)@.scripts);
    }

    /// Takes the innermost realm off the stack of active ones.
    pub(crate) fn pop_active(&mut self)
        ensures
            final(self)@ == (Iso {
                active: if old(self)@.active.len() == 0 {
                    old(self)@.active
                } else {
                    old(self)@.active.drop_last()
                },
                ..old(self)@
            }),
            iso_wf(old(self)@) ==> iso_wf(final(self)@),
    {
        self.active_realms.pop();
        assert(self@.modules =~= old(self)@.modules);
        assert(self@.scripts =~= old(self)@.scripts);
    }

    pub(crate) fn instantiating(&self) -> (r: bool)
        ensures
            r == self@.instantiating,
    {
        self.instantiating
    }

    pub(crate) fn set_instantiating(&mut self, on: bool)
        ensures
            final(self)@ == (Iso { instantiating: on, ..old(self)@ }),
            iso_wf(old(self)@) ==> iso_wf(final(self)@),
    {
        self.instantiating = on;
        assert(self@.modules =~= old(self)@.modules);
        assert(self@.scripts =~= old(self)@.scripts);
    }

    pub(crate) fn watchdog_fired(&self) -> (r: bool)
        ensures
            r == self@.watchdog_fired,
    {
        self.watchdog_fired
    }

    pub(crate) fn set_watchdog_fired(&mut self, on: bool)
        ensures
            final(self)@ == (Iso { watchdog_fired: on, ..old(self)@ }),
            iso_wf(old(self)@) ==> iso_wf(final(self)@),
    {
        self.watchdog_fired = on;
        assert(self@.modules =~= old(self)@.modules);
        assert(self@.scripts =~= old(self)@.scripts);
    }

    pub(crate) fn auto_microtasks(&self) -> (r: bool)
        ensures
            r == self@.auto,
    {
        self.auto_microtasks
    }

    /// Marks that a microtask checkpoint is draining, and gives the mark as it
    /// was, to be handed to `end_drain`.
    pub fn begin_drain(&mut self) -> (before: bool)
        ensures
            (final(self)@, before) == drain_begun(old(self)@),
            iso_wf(old(self)@) ==> iso_wf(final(self)@),
    {
        let before: bool = self.draining;
        self.draining = true;
        assert(self@.modules =~= old(self)@.modules);
        assert(self@.scripts =~= old(self)@.scripts);
        before
    }

    /// Puts the mark back to what it was before a checkpoint.
    pub fn end_drain(&mut self, before: bool)
        ensures
            final(self)@ == drain_ended(old(self)@, before),
            iso_wf(old(self)@) ==> iso_wf(final(self)@),
    {
        self.draining = before;
        assert(self@.modules =~= old(self)@.modules);
        assert(self@.scripts =~= old(self)@.scripts);
    }
}

/// Whatever is taken out of the registries, or put in under an id that was given,
/// leaves them valid.
pub proof fn law_removal_keeps_validity<C, M, S, F>(
    s: Iso<C, M, S, F>,
    context: i32,
    fresh: C,
    module: i32,
    script: i32,
)
    requires
        iso_wf(s),
    ensures
        0 <= context < s.next_context ==> iso_wf(after_reset(s, context, fresh)),
        iso_wf(after_dispose(s, context)),
        iso_wf(Iso { modules: modules_without(s.modules, module), ..s }),
        iso_wf(Iso { scripts: scripts_without(s.scripts, script), ..s }),
{
    lemma_modules_outside(s.modules, context, s.next_module);
    lemma_scripts_outside(s.scripts, context, s.next_script);
    lemma_modules_without(s.modules, module, s.next_module);
    lemma_scripts_without(s.scripts, script, s.next_script);
}

/// The state once a checkpoint has begun, and what its mark was before.
pub open spec fn drain_begun<C, M, S, F>(s: Iso<C, M, S, F>) -> (Iso<C, M, S, F>, bool) {
    (Iso { draining: true, ..s }, s.draining)
}

/// The state once the mark of a checkpoint is put back.
pub open spec fn drain_ended<C, M, S, F>(s: Iso<C, M, S, F>, before: bool) -> Iso<C, M, S, F> {
    Iso { draining: before, ..s }
}

/// A checkpoint that begins and ends leaves everything as it was, and one inside
/// another leaves the outer one's mark in place.
pub proof fn law_checkpoints_nest<C, M, S, F>(s: Iso<C, M, S, F>)
    ensures
        ({
            let (inside, before) = drain_begun(s);
            let (deeper, kept) = drain_begun(inside);
            &&& inside.draining
            &&& drain_ended(inside, before) == s
            &&& drain_ended(deeper, kept) == inside
            &&& drain_ended(drain_ended(deeper, kept), before) == s
        }),
{
}

/// While a microtask checkpoint drains, every reset and every disposal of a
/// realm is refused, whatever realm it is and however deep checkpoints nest;
/// with the last of them over, the registries are as they were.
pub proof fn law_drain_keeps_realms<C, M, S, F>(s: Iso<C, M, S, F>, id: i32)
    ensures
        ({
            let d = Iso { draining: true, ..s };
            &&& reset_refusal(d, id) == Some(
                Fault::Runtime("cannot reset a realm during a microtask checkpoint"@),
            )
            &&& dispose_refusal(d, id) == Some(
                Fault::Runtime("cannot dispose a realm during a microtask checkpoint"@),
            )
            &&& Iso { draining: true, ..d } == d
            &&& Iso { draining: s.draining, ..d } == s
        }),
{
}

/// Exactly the modules with an identity hash are looked at for it.
pub proof fn law_bucket_holds_its_hash<M>(modules: Seq<Mod<M>>, hash: i32, i: int)
    requires
        0 <= i < modules.len(),
        forall|a: int, b: int|
            0 <= a < b < modules.len() ==> (#[trigger] modules[a]).id < (#[trigger] modules[b]).id,
    ensures
        bucket(modules, hash).contains(modules[i].id) <==> modules[i].hash == hash,
        forall|a: int|
            0 <= a < bucket(modules, hash).len() ==> exists|k: int|
                0 <= k < modules.len() && (#[trigger] modules[k]).id == #[trigger] bucket(
                    modules,
                    hash,
                )[a] && modules[k].hash == hash,
    decreases modules.len(),
{
    let rest = modules.drop_last();
    let before = bucket(rest, hash);
    let all = bucket(modules, hash);
    let last = modules.len() - 1;
    if rest.len() > 0 {
        let k: int = if i < last {
            i
        } else {
            0
        };
        law_bucket_holds_its_hash(rest, hash, k);
    } else {
        assert(before =~= Seq::<i32>::empty());
    }
    assert forall|a: int| 0 <= a < all.len() implies exists|k: int|
        0 <= k < modules.len() && (#[trigger] modules[k]).id == #[trigger] all[a]
            && modules[k].hash == hash by {
        if a < before.len() {
            assert(all[a] == before[a]);
            let k = choose|k: int|
                0 <= k < rest.len() && (#[trigger] rest[k]).id == before[a] && rest[k].hash == hash;
            assert(modules[k] == rest[k]);
        } else {
            assert(modules[last].id == all[a]);
        }
    }
    if modules[i].hash == hash {
        if i < last {
            assert(rest[i] == modules[i]);
            let a = choose|a: int| 0 <= a < before.len() && before[a] == modules[i].id;
            assert(all[a] == modules[i].id);
        } else {
            assert(all[all.len() - 1] == modules[i].id);
        }
    } else if all.contains(modules[i].id) {
        let a = choose|a: int| 0 <= a < all.len() && all[a] == modules[i].id;
        let k = choose|k: int|
            0 <= k < modules.len() && (#[trigger] modules[k]).id == all[a] && modules[k].hash
                == hash;
        if k < i {
            assert(modules[k].id < modules[i].id);
        } else if i < k {
            assert(modules[i].id < modules[k].id);
        }
    }
}

/// A recorder goes with the realm that it is from, and with no other; what the end
/// of a realm has no part in stays as it is.
pub proof fn law_recorder_goes_with_its_realm<C, M, S, F>(s: Iso<C, M, S, F>, id: i32, fresh: C)
    ensures
        ({
            let kept = |t: Iso<C, M, S, F>|
                {
                    &&& t.handler == match s.handler {
                        Some(h) => if h.0 == id {
                            None
                        } else {
                            Some(h)
                        },
                        None => None,
                    }
                    &&& (t.active, t.instantiating, t.watchdog_fired, t.auto, t.draining) == (
                        s.active,
                        s.instantiating,
                        s.watchdog_fired,
                        s.auto,
                        s.draining,
                    )
                    &&& (t.next_context, t.next_module, t.next_script, t.namespace) == (
                        s.next_context,
                        s.next_module,
                        s.next_script,
                        s.namespace,
                    )
                };
            &&& kept(after_reset(s, id, fresh))
            &&& kept(after_dispose(s, id))
            &&& id != 0 ==> after_reset(s, id, fresh).main == s.main
            &&& after_dispose(s, id).main == s.main
        }),
{
}

} // verus!
