//! What holds of every request, whatever the engine answers.
use crate::failures::CompileMode;
use crate::registry::{
    after_dispose, after_reset, context_of, dispose_refusal, find_module, find_script, iso_wf,
    modules_outside, reset_refusal, scripts_outside, Iso, Mod, Scr,
};
use crate::request::{Job, Outcome};
use crate::service::{
    advance, begin, dispatch, finish, fits, mode_of, not_reentrant, settle, Act, Evt, Srv, Step,
};
use crate::value::{Fault, Val};
use vstd::prelude::*;

verus! {

/// What the stack of active realms is while a request is serviced: what it was
/// before, with the request's own realm on top from its beginning to its end.
pub open spec fn on_stack(v: Srv, active: Seq<i32>, below: Seq<i32>) -> bool {
    match v.step {
        Step::Cancelling => active == below && v.realm is None,
        Step::Sweeping(_) => active == below,
        Step::Done => active == below,
        _ => active == match v.realm {
            Some(id) => below.push(id),
            None => below,
        },
    }
}

/// A request leaves the stack of active realms as it found it: each step keeps
/// the request's own realm on top of what was there, and the last takes it off.
/// Requests serviced in between do the same, so they change nothing here.
#[verifier::rlimit(60)]
#[verifier::spinoff_prover]
pub proof fn law_request_leaves_stack<C, M, S, F>(
    v: Srv,
    s: Iso<C, M, S, F>,
    e: Evt<C, M, S>,
    below: Seq<i32>,
)
    requires
        fits(v, s, e),
        on_stack(v, s.active, below),
    ensures
        on_stack(advance(v, s, e).0, advance(v, s, e).1.active, below),
{
    match v.step {
        Step::Cancelling => {
            law_begin_enters_stack(v, s);
        },
        _ => {
            match v.realm {
                Some(id) => {
                    assert(below.push(id).drop_last() =~= below);
                },
                None => {},
            }
        },
    }
}

/// A request that begins puts its realm on the stack, or has ended and left the
/// stack as it was.
pub proof fn law_begin_enters_stack<C, M, S, F>(v: Srv, s: Iso<C, M, S, F>)
    ensures
        on_stack(begin(v, s).0, begin(v, s).1.active, s.active),
{
    let realm = crate::service::realm_of(s, v.job);
    match realm {
        Some(id) => {
            assert(s.active.push(id).drop_last() =~= s.active);
        },
        None => {},
    }
}

/// How many answers a request can still need.
pub open spec fn answers_left(step: Step) -> nat {
    match step {
        Step::Cancelling => 10,
        Step::Arming => 9,
        Step::EvaluateStatus { .. } => 8,
        Step::Running { .. } => 7,
        Step::Evaluating { .. } => 7,
        Step::Terminating(_) => 6,
        Step::Draining { .. } => 5,
        Step::Settling(_) => 4,
        Step::Disarming { .. } => 3,
        Step::LinkStatus { .. } => 3,
        Step::NamespaceStatus { .. } => 3,
        Step::Sweeping(_) => 1,
        Step::Done => 0,
        _ => 2,
    }
}

/// Every request ends: whatever the engine answers, each answer brings its reply
/// nearer, and it has ended exactly when the reply is given.
#[verifier::rlimit(60)]
#[verifier::spinoff_prover]
pub proof fn law_request_ends<C, M, S, F>(v: Srv, s: Iso<C, M, S, F>, e: Evt<C, M, S>)
    requires
        fits(v, s, e),
    ensures
        answers_left(advance(v, s, e).0.step) < answers_left(v.step),
        advance(v, s, e).2 is Reply <==> advance(v, s, e).0.step is Done,
{
}

/// What the marks of an isolate are while a request is serviced: that microtasks
/// run, and that modules are linked, as they were before, but for what the
/// request itself is doing.
pub open spec fn marked<C, M, S, F>(
    v: Srv,
    s: Iso<C, M, S, F>,
    draining: bool,
    instantiating: bool,
) -> bool {
    &&& match v.step {
        Step::Draining { before, .. } => s.draining && before == draining,
        _ => s.draining == draining,
    }
    &&& match v.step {
        Step::LinkStatus { .. } => s.instantiating && !instantiating,
        Step::Linking => s.instantiating && !instantiating,
        _ => s.instantiating == instantiating,
    }
}

/// A request leaves the marks of the isolate as it found them, whichever way it
/// ends. Requests serviced in between do the same.
#[verifier::rlimit(60)]
#[verifier::spinoff_prover]
pub proof fn law_request_restores_marks<C, M, S, F>(
    v: Srv,
    s: Iso<C, M, S, F>,
    e: Evt<C, M, S>,
    draining: bool,
    instantiating: bool,
)
    requires
        fits(v, s, e),
        marked(v, s, draining, instantiating),
    ensures
        marked(advance(v, s, e).0, advance(v, s, e).1, draining, instantiating),
{
}

/// While a request for a realm is on the stack, or microtasks run, the realm may
/// be neither reset nor disposed; nor may one be reset that is not there.
pub proof fn law_live_realm_is_kept<C, M, S, F>(s: Iso<C, M, S, F>, id: i32)
    ensures
        s.active.contains(id) || s.draining ==> reset_refusal(s, id) is Some && dispose_refusal(
            s,
            id,
        ) is Some,
        id != 0 && context_of(s, id) is None ==> reset_refusal(s, id) is Some,
{
}

/// A reset or a disposal that is refused is answered with the refusal and leaves
/// every realm, module, script and recorder as it is.
pub proof fn law_refusal_changes_nothing<C, M, S, F>(v: Srv, s: Iso<C, M, S, F>, id: i32)
    requires
        (v.job == (Job::Reset { context: id }) && reset_refusal(s, id) is Some) || (v.job == (
        Job::Dispose { context: id }) && dispose_refusal(s, id) is Some),
    ensures
        ({
            let want = Outcome::Done(
                Err(
                    if v.job is Reset {
                        reset_refusal(s, id)->0
                    } else {
                        dispose_refusal(s, id)->0
                    },
                ),
            );
            let (v1, s1, a) = dispatch(v, s);
            &&& (s1.main, s1.contexts, s1.modules, s1.scripts, s1.handler) == (
                s.main,
                s.contexts,
                s.modules,
                s.scripts,
                s.handler,
            )
            &&& a == Act::Reply(want) || (a is CancelTerminate && v1.step == Step::Sweeping(want))
        }),
{
}

proof fn lemma_find_module<M>(modules: Seq<Mod<M>>, id: i32)
    ensures
        match find_module(modules, id) {
            Some(m) => modules.contains(m) && m.id == id,
            None => forall|i: int| 0 <= i < modules.len() ==> (#[trigger] modules[i]).id != id,
        },
    decreases modules.len(),
{
    if modules.len() > 0 && modules[0].id != id {
        let rest = modules.skip(1);
        lemma_find_module(rest, id);
        match find_module(rest, id) {
            Some(m) => {
                let j = choose|j: int| 0 <= j < rest.len() && rest[j] == m;
                assert(modules[j + 1] == m);
            },
            None => {
                assert forall|i: int| 0 <= i < modules.len() implies (
                #[trigger] modules[i]).id != id by {
                    if i > 0 {
                        assert(rest[i - 1] == modules[i]);
                    }
                }
            },
        }
    } else if modules.len() > 0 {
        assert(modules.contains(modules[0]));
    }
}

proof fn lemma_find_script<S>(scripts: Seq<Scr<S>>, id: i32)
    ensures
        match find_script(scripts, id) {
            Some(m) => scripts.contains(m) && m.id == id,
            None => forall|i: int| 0 <= i < scripts.len() ==> (#[trigger] scripts[i]).id != id,
        },
    decreases scripts.len(),
{
    if scripts.len() > 0 && scripts[0].id != id {
        let rest = scripts.skip(1);
        lemma_find_script(rest, id);
        match find_script(rest, id) {
            Some(m) => {
                let j = choose|j: int| 0 <= j < rest.len() && rest[j] == m;
                assert(scripts[j + 1] == m);
            },
            None => {
                assert forall|i: int| 0 <= i < scripts.len() implies (
                #[trigger] scripts[i]).id != id by {
                    if i > 0 {
                        assert(rest[i - 1] == scripts[i]);
                    }
                }
            },
        }
    } else if scripts.len() > 0 {
        assert(scripts.contains(scripts[0]));
    }
}

proof fn lemma_modules_outside<M>(modules: Seq<Mod<M>>, context: i32)
    ensures
        forall|m: Mod<M>| #[trigger]
            modules_outside(modules, context).contains(m) <==> modules.contains(m) && m.context
                != context,
    decreases modules.len(),
{
    if modules.len() > 0 {
        let rest = modules.drop_last();
        lemma_modules_outside(rest, context);
        let before = modules_outside(rest, context);
        let all = modules_outside(modules, context);
        assert forall|m: Mod<M>| #[trigger] all.contains(m) <==> modules.contains(m) && m.context
            != context by {
            assert(modules =~= rest.push(modules.last()));
            if all.contains(m) {
                let i = choose|i: int| 0 <= i < all.len() && all[i] == m;
                if i < before.len() {
                    assert(before[i] == m);
                    assert(before.contains(m));
                    let j = choose|j: int| 0 <= j < rest.len() && rest[j] == m;
                    assert(modules[j] == m);
                } else {
                    assert(modules[modules.len() - 1] == m);
                }
            }
            if modules.contains(m) && m.context != context {
                let j = choose|j: int| 0 <= j < modules.len() && modules[j] == m;
                if j < rest.len() {
                    assert(rest[j] == m);
                    assert(before.contains(m));
                    let i = choose|i: int| 0 <= i < before.len() && before[i] == m;
                    assert(all[i] == m);
                } else {
                    assert(all[all.len() - 1] == m);
                }
            }
        }
    }
}

proof fn lemma_scripts_outside<S>(scripts: Seq<Scr<S>>, context: i32)
    ensures
        forall|m: Scr<S>| #[trigger]
            scripts_outside(scripts, context).contains(m) <==> scripts.contains(m) && m.context
                != context,
    decreases scripts.len(),
{
    if scripts.len() > 0 {
        let rest = scripts.drop_last();
        lemma_scripts_outside(rest, context);
        let before = scripts_outside(rest, context);
        let all = scripts_outside(scripts, context);
        assert forall|m: Scr<S>| #[trigger] all.contains(m) <==> scripts.contains(m) && m.context
            != context by {
            assert(scripts =~= rest.push(scripts.last()));
            if all.contains(m) {
                let i = choose|i: int| 0 <= i < all.len() && all[i] == m;
                if i < before.len() {
                    assert(before[i] == m);
                    assert(before.contains(m));
                    let j = choose|j: int| 0 <= j < rest.len() && rest[j] == m;
                    assert(scripts[j] == m);
                } else {
                    assert(scripts[scripts.len() - 1] == m);
                }
            }
            if scripts.contains(m) && m.context != context {
                let j = choose|j: int| 0 <= j < scripts.len() && scripts[j] == m;
                if j < rest.len() {
                    assert(rest[j] == m);
                    assert(before.contains(m));
                    let i = choose|i: int| 0 <= i < before.len() && before[i] == m;
                    assert(all[i] == m);
                } else {
                    assert(all[all.len() - 1] == m);
                }
            }
        }
    }
}

/// Ids tell modules apart.
proof fn lemma_unique_modules<M>(modules: Seq<Mod<M>>, a: Mod<M>, b: Mod<M>)
    requires
        forall|i: int, j: int|
            0 <= i < j < modules.len() ==> (#[trigger] modules[i]).id < (#[trigger] modules[j]).id,
        modules.contains(a),
        modules.contains(b),
        a.id == b.id,
    ensures
        a == b,
{
    let i = choose|i: int| 0 <= i < modules.len() && modules[i] == a;
    let j = choose|j: int| 0 <= j < modules.len() && modules[j] == b;
    if i < j {
        assert(modules[i].id < modules[j].id);
    } else if j < i {
        assert(modules[j].id < modules[i].id);
    }
}

proof fn lemma_unique_scripts<S>(scripts: Seq<Scr<S>>, a: Scr<S>, b: Scr<S>)
    requires
        forall|i: int, j: int|
            0 <= i < j < scripts.len() ==> (#[trigger] scripts[i]).id < (#[trigger] scripts[j]).id,
        scripts.contains(a),
        scripts.contains(b),
        a.id == b.id,
    ensures
        a == b,
{
    let i = choose|i: int| 0 <= i < scripts.len() && scripts[i] == a;
    let j = choose|j: int| 0 <= j < scripts.len() && scripts[j] == b;
    if i < j {
        assert(scripts[i].id < scripts[j].id);
    } else if j < i {
        assert(scripts[j].id < scripts[i].id);
    }
}

proof fn lemma_module_survives<M>(modules: Seq<Mod<M>>, context: i32, id: i32)
    requires
        forall|i: int, j: int|
            0 <= i < j < modules.len() ==> (#[trigger] modules[i]).id < (#[trigger] modules[j]).id,
    ensures
        find_module(modules_outside(modules, context), id) == match find_module(modules, id) {
            Some(m) => if m.context == context {
                None
            } else {
                Some(m)
            },
            None => None,
        },
{
    let kept = modules_outside(modules, context);
    lemma_modules_outside(modules, context);
    lemma_find_module(modules, id);
    lemma_find_module(kept, id);
    match find_module(kept, id) {
        Some(m) => {
            assert(kept.contains(m));
            assert(modules.contains(m));
            match find_module(modules, id) {
                Some(n) => lemma_unique_modules(modules, m, n),
                None => {
                    let i = choose|i: int| 0 <= i < modules.len() && modules[i] == m;
                    assert(modules[i].id != id);
                },
            }
        },
        None => match find_module(modules, id) {
            Some(n) => {
                if n.context != context {
                    assert(kept.contains(n));
                    let i = choose|i: int| 0 <= i < kept.len() && kept[i] == n;
                    assert(kept[i].id != id);
                }
            },
            None => {},
        },
    }
}

proof fn lemma_script_survives<S>(scripts: Seq<Scr<S>>, context: i32, id: i32)
    requires
        forall|i: int, j: int|
            0 <= i < j < scripts.len() ==> (#[trigger] scripts[i]).id < (#[trigger] scripts[j]).id,
    ensures
        find_script(scripts_outside(scripts, context), id) == match find_script(scripts, id) {
            Some(m) => if m.context == context {
                None
            } else {
                Some(m)
            },
            None => None,
        },
{
    let kept = scripts_outside(scripts, context);
    lemma_scripts_outside(scripts, context);
    lemma_find_script(scripts, id);
    lemma_find_script(kept, id);
    match find_script(kept, id) {
        Some(m) => {
            assert(kept.contains(m));
            assert(scripts.contains(m));
            match find_script(scripts, id) {
                Some(n) => lemma_unique_scripts(scripts, m, n),
                None => {
                    let i = choose|i: int| 0 <= i < scripts.len() && scripts[i] == m;
                    assert(scripts[i].id != id);
                },
            }
        },
        None => match find_script(scripts, id) {
            Some(n) => {
                if n.context != context {
                    assert(kept.contains(n));
                    let i = choose|i: int| 0 <= i < kept.len() && kept[i] == n;
                    assert(kept[i].id != id);
                }
            },
            None => {},
        },
    }
}

/// After a reset the id names the fresh realm; what was compiled in the old one
/// is gone, and every other realm and what was compiled there is as before.
pub proof fn law_reset_swaps_one_realm<C, M, S, F>(
    s: Iso<C, M, S, F>,
    id: i32,
    fresh: C,
    other: i32,
    module: i32,
    script: i32,
)
    requires
        iso_wf(s),
        reset_refusal(s, id) is None,
        other != id,
    ensures
        ({
            let t = after_reset(s, id, fresh);
            &&& context_of(t, id) == Some(fresh)
            &&& context_of(t, other) == context_of(s, other)
            &&& find_module(t.modules, module) == match find_module(s.modules, module) {
                Some(m) => if m.context == id {
                    None
                } else {
                    Some(m)
                },
                None => None,
            }
            &&& find_script(t.scripts, script) == match find_script(s.scripts, script) {
                Some(m) => if m.context == id {
                    None
                } else {
                    Some(m)
                },
                None => None,
            }
            &&& t.handler matches Some(h) ==> h.0 != id && s.handler == Some(h)
        }),
{
    lemma_module_survives(s.modules, id, module);
    lemma_script_survives(s.scripts, id, script);
}

/// After a realm is disposed nothing of it is left, and every other realm and
/// what was compiled there is as before.
pub proof fn law_dispose_removes_one_realm<C, M, S, F>(
    s: Iso<C, M, S, F>,
    id: i32,
    other: i32,
    module: i32,
    script: i32,
)
    requires
        iso_wf(s),
        dispose_refusal(s, id) is None,
        id != 0,
        other != id,
    ensures
        ({
            let t = after_dispose(s, id);
            &&& context_of(t, id) is None
            &&& context_of(t, other) == context_of(s, other)
            &&& find_module(t.modules, module) == match find_module(s.modules, module) {
                Some(m) => if m.context == id {
                    None
                } else {
                    Some(m)
                },
                None => None,
            }
            &&& find_script(t.scripts, script) == match find_script(s.scripts, script) {
                Some(m) => if m.context == id {
                    None
                } else {
                    Some(m)
                },
                None => None,
            }
        }),
{
    lemma_module_survives(s.modules, id, module);
    lemma_script_survives(s.scripts, id, script);
}

/// Ids are never given twice: no step makes the next one smaller.
pub proof fn law_ids_only_grow<C, M, S, F>(v: Srv, s: Iso<C, M, S, F>, e: Evt<C, M, S>)
    requires
        fits(v, s, e),
    ensures
        s.next_context <= advance(v, s, e).1.next_context,
        s.next_module <= advance(v, s, e).1.next_module,
        s.next_script <= advance(v, s, e).1.next_script,
{
}

/// Only the outermost request clears a termination, and only it clears the mark
/// that a deadline passed: a nested request never hides the termination of a
/// request around it.
pub proof fn law_nested_request_keeps_termination<C, M, S, F>(
    v: Srv,
    s: Iso<C, M, S, F>,
    e: Evt<C, M, S>,
)
    requires
        fits(v, s, e),
        !v.outermost,
    ensures
        !(advance(v, s, e).2 is CancelTerminate),
        s.watchdog_fired ==> advance(v, s, e).1.watchdog_fired,
        !(begin(v, s).2 is CancelTerminate),
        s.watchdog_fired ==> begin(v, s).1.watchdog_fired,
{
}

/// When the outermost request ends, no mark of a passed deadline is left, and
/// where there was one the termination is cleared before the reply.
pub proof fn law_outermost_request_sweeps<C, M, S, F>(v: Srv, s: Iso<C, M, S, F>, o: Outcome)
    requires
        v.outermost,
    ensures
        !finish(v, s, o).1.watchdog_fired,
        s.watchdog_fired ==> finish(v, s, o).2 is CancelTerminate && finish(v, s, o).0.step
            == Step::Sweeping(o),
        !s.watchdog_fired ==> finish(v, s, o).2 == Act::Reply(o),
{
}

/// A deadline that passed overrides whatever JavaScript came to, and nothing
/// else: a request that ran no JavaScript keeps its own failure.
pub proof fn law_deadline_overrides_only_what_ran<C, M, S, F>(
    v: Srv,
    s: Iso<C, M, S, F>,
    ran: bool,
    result: Result<Val, Fault>,
)
    ensures
        ({
            let want = Outcome::Done(
                if ran {
                    Err(Fault::Terminated)
                } else {
                    result
                },
            );
            let (v1, s1, a) = settle(v, s, ran, result, true);
            if v.outermost {
                v1.step == Step::Sweeping(want)
            } else {
                a == Act::Reply(want) && s1.watchdog_fired
            }
        }),
        ({
            let (v1, s1, a) = settle(v, s, ran, result, false);
            (v1.step == Step::Sweeping(Outcome::Done(result)) || a == Act::Reply(
                Outcome::Done(result),
            ))
        }),
{
}

/// Microtasks run where they are asked for, and else only at the end of an
/// outermost request in the automatic mode while the engine is not being
/// terminated. While they run, no realm is reset or disposed; afterwards the
/// mark is what it was.
pub proof fn law_microtasks_run_only_when_due<C, M, S, F>(
    v: Srv,
    s: Iso<C, M, S, F>,
    e: Evt<C, M, S>,
)
    requires
        fits(v, s, e),
    ensures
        ({
            let (v1, s1, a) = advance(v, s, e);
            &&& a is Checkpoint ==> s1.draining && v1.step is Draining
                && v1.step->Draining_before == s.draining && (v.job is Drain || (
            v.step is Terminating && e->Terminating_0 == false))
            &&& v1.step is Terminating ==> v1.outermost && s.auto
            &&& v.step is Draining ==> s1.draining == v.step->Draining_before
        }),
{
}

/// A module graph is linked by one request at a time: while one links, another
/// is refused and changes nothing but the stack, and whichever way linking ends
/// the mark is cleared.
pub proof fn law_linking_is_not_nested<C, M, S, F>(
    v: Srv,
    s: Iso<C, M, S, F>,
    module: i32,
    e: Evt<C, M, S>,
)
    ensures
        s.instantiating && v.job == (Job::Instantiate { module }) ==> dispatch(v, s) == finish(
            v,
            s,
            Outcome::Done(Err(Fault::Runtime(not_reentrant()))),
        ),
        (v.step is LinkStatus || v.step is Linking) && fits(v, s, e) ==> {
            let (v1, s1, a) = advance(v, s, e);
            a is Link || !s1.instantiating
        },
{
}

/// A supplied bytecode cache goes before eager compilation.
pub proof fn law_cache_goes_before_eager(eager: bool)
    ensures
        mode_of(true, eager) == CompileMode::ConsumeCache,
        mode_of(false, true) == CompileMode::Eager,
        mode_of(false, false) == CompileMode::Lazy,
{
}

} // verus!
