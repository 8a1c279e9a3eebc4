//! What holds of a request from its beginning to its reply, with requests of
//! host functions serviced in between.
use crate::registry::{
    after_dispose, after_reset, dispose_refusal, find_module, find_script, iso_wf,
    law_removal_keeps_validity, reset_refusal, Iso,
};
use crate::request::{Job, Outcome};
use crate::service::{
    advance, begin, dispatch, finish, fits, module_target, realm_of, Act, Evt, Srv, Step,
};
use crate::service_laws::{
    answers_left, law_begin_enters_stack, law_dispose_removes_one_realm, law_ids_only_grow,
    law_nested_request_keeps_termination, law_request_ends, law_request_leaves_stack,
    law_request_restores_marks, law_reset_swaps_one_realm, marked, on_stack,
};
use vstd::prelude::*;

verus! {

/// A request before anything is done for it.
pub open spec fn fresh(job: Job, name: Seq<char>, outermost: bool) -> Srv {
    Srv { job, name, outermost, realm: None, step: Step::Cancelling }
}

/// What a request begins with: the outermost one clears a termination that was
/// left behind before anything else.
pub open spec fn first<C, M, S, F>(v: Srv, s: Iso<C, M, S, F>) -> (Srv, Iso<C, M, S, F>, Act) {
    if v.outermost {
        (v, s, Act::CancelTerminate)
    } else {
        begin(v, s)
    }
}

/// What is known of a request and the isolate after `n` answers. Before answer
/// number `i` the isolate is `between[i]`: requests in between may have changed
/// it.
pub open spec fn reached<C, M, S, F>(
    v: Srv,
    s: Iso<C, M, S, F>,
    between: Seq<Iso<C, M, S, F>>,
    events: Seq<Evt<C, M, S>>,
    n: nat,
) -> (Srv, Iso<C, M, S, F>, Act)
    decreases n,
{
    if n == 0 {
        first(v, s)
    } else {
        let before = reached(v, s, between, events, (n - 1) as nat);
        advance(before.0, between[n - 1], events[n - 1])
    }
}

/// Whether the ids that a request has taken for a realm have been given.
pub open spec fn reserved<C, M, S, F>(v: Srv, s: Iso<C, M, S, F>) -> bool {
    match v.step {
        Step::Renewing { id } => 0 <= id < s.next_context,
        Step::Creating { id } => 1 <= id < s.next_context,
        _ => true,
    }
}

/// What requests in between may do: they keep the stack of active realms, the
/// marks and the validity of the isolate, and use up ids.
pub open spec fn kept_between<C, M, S, F>(a: Iso<C, M, S, F>, b: Iso<C, M, S, F>) -> bool {
    &&& iso_wf(b)
    &&& b.active == a.active
    &&& b.draining == a.draining
    &&& b.instantiating == a.instantiating
    &&& a.next_context <= b.next_context
}

/// Whether the first `n` answers are each to what was asked, with nothing in
/// between but what such requests may do. Of the ids that the request has taken
/// nothing is asked.
pub open spec fn proper<C, M, S, F>(
    v: Srv,
    s: Iso<C, M, S, F>,
    between: Seq<Iso<C, M, S, F>>,
    events: Seq<Evt<C, M, S>>,
    n: nat,
) -> bool
    decreases n,
{
    n > 0 ==> {
        let before = reached(v, s, between, events, (n - 1) as nat);
        &&& proper(v, s, between, events, (n - 1) as nat)
        &&& kept_between(before.1, between[n - 1])
        &&& reserved(before.0, between[n - 1]) ==> fits(before.0, between[n - 1], events[n - 1])
    }
}

/// Whether the request leaves ids for realms to be given.
pub open spec fn ids_to_give<C, M, S, F>(v: Srv, s: Iso<C, M, S, F>) -> bool {
    !v.outermost && v.job is Create ==> s.next_context < i32::MAX
}

/// What holds at every point of a request.
spec fn holds_at<C, M, S, F>(v: Srv, s: Iso<C, M, S, F>, at: (Srv, Iso<C, M, S, F>, Act)) -> bool {
    &&& on_stack(at.0, at.1.active, s.active)
    &&& marked(at.0, at.1, s.draining, s.instantiating)
    &&& reserved(at.0, at.1)
    &&& at.0.outermost == v.outermost
    &&& at.2 is Reply <==> at.0.step is Done
}

#[verifier::spinoff_prover]
proof fn lemma_reserved<C, M, S, F>(v: Srv, s: Iso<C, M, S, F>, e: Evt<C, M, S>)
    requires
        fits(v, s, e),
        iso_wf(s),
    ensures
        reserved(advance(v, s, e).0, advance(v, s, e).1),
        advance(v, s, e).0.outermost == v.outermost,
{
}

/// Every step of a request keeps the registries valid.
#[verifier::rlimit(60)]
#[verifier::spinoff_prover]
pub proof fn law_request_keeps_validity<C, M, S, F>(v: Srv, s: Iso<C, M, S, F>, e: Evt<C, M, S>)
    requires
        fits(v, s, e),
        iso_wf(s),
    ensures
        iso_wf(advance(v, s, e).1),
{
    match v.step {
        Step::Cancelling => {
            let active = match realm_of(s, v.job) {
                Some(id) => s.active.push(id),
                None => s.active,
            };
            let t = Iso { active, ..s };
            assert(iso_wf(t));
            match v.job {
                Job::Dispose { context } => {
                    law_removal_keeps_validity(t, context, arbitrary(), 0, 0);
                },
                Job::DisposeModule { module } => {
                    law_removal_keeps_validity(t, 0, arbitrary(), module, 0);
                },
                Job::DisposeScript { script } => {
                    law_removal_keeps_validity(t, 0, arbitrary(), 0, script);
                },
                _ => {},
            }
        },
        Step::Renewing { id } => {
            law_removal_keeps_validity(s, id, e->Fresh_0, 0, 0);
        },
        _ => {},
    }
}

proof fn lemma_reached<C, M, S, F>(
    v: Srv,
    s: Iso<C, M, S, F>,
    between: Seq<Iso<C, M, S, F>>,
    events: Seq<Evt<C, M, S>>,
    n: nat,
)
    requires
        iso_wf(s),
        v.step == Step::Cancelling,
        v.realm is None,
        ids_to_give(v, s),
        proper(v, s, between, events, n),
    ensures
        holds_at(v, s, reached(v, s, between, events, n)),
        n > 0 ==> fits(
            reached(v, s, between, events, (n - 1) as nat).0,
            between[n - 1],
            events[n - 1],
        ),
        n + answers_left(reached(v, s, between, events, n).0.step) <= 10,
    decreases n,
{
    if n == 0 {
        if !v.outermost {
            let e = Evt::<C, M, S>::Ready;
            assert(advance(v, s, e) == begin(v, s));
            law_begin_enters_stack(v, s);
            law_request_restores_marks(v, s, e, s.draining, s.instantiating);
            lemma_reserved(v, s, e);
            law_request_ends(v, s, e);
        }
    } else {
        lemma_reached(v, s, between, events, (n - 1) as nat);
        let before = reached(v, s, between, events, (n - 1) as nat);
        let b = between[n - 1];
        let e = events[n - 1];
        assert(reserved(before.0, b));
        law_request_leaves_stack(before.0, b, e, s.active);
        law_request_restores_marks(before.0, b, e, s.draining, s.instantiating);
        lemma_reserved(before.0, b, e);
        law_request_ends(before.0, b, e);
    }
}

/// Whichever way a request ends, and whatever is serviced in between, the stack
/// of active realms and the marks of the isolate are as they were before it.
pub proof fn law_whole_request_restores<C, M, S, F>(
    job: Job,
    name: Seq<char>,
    outermost: bool,
    s: Iso<C, M, S, F>,
    between: Seq<Iso<C, M, S, F>>,
    events: Seq<Evt<C, M, S>>,
    n: nat,
)
    requires
        iso_wf(s),
        ids_to_give(fresh(job, name, outermost), s),
        proper(fresh(job, name, outermost), s, between, events, n),
        reached(fresh(job, name, outermost), s, between, events, n).2 is Reply,
    ensures
        ({
            let after = reached(fresh(job, name, outermost), s, between, events, n).1;
            &&& after.active == s.active
            &&& after.draining == s.draining
            &&& after.instantiating == s.instantiating
        }),
{
    lemma_reached(fresh(job, name, outermost), s, between, events, n);
}

proof fn lemma_ends_between<C, M, S, F>(
    v: Srv,
    s: Iso<C, M, S, F>,
    between: Seq<Iso<C, M, S, F>>,
    events: Seq<Evt<C, M, S>>,
    n: nat,
)
    requires
        iso_wf(s),
        v.step == Step::Cancelling,
        v.realm is None,
        ids_to_give(v, s),
        proper(v, s, between, events, n),
    ensures
        iso_wf(reached(v, s, between, events, n).1),
        s.next_context <= reached(v, s, between, events, n).1.next_context,
    decreases n,
{
    if n == 0 {
        if !v.outermost {
            let e = Evt::<C, M, S>::Ready;
            assert(advance(v, s, e) == begin(v, s));
            law_request_keeps_validity(v, s, e);
            law_ids_only_grow(v, s, e);
        }
    } else {
        lemma_ends_between(v, s, between, events, (n - 1) as nat);
        lemma_reached(v, s, between, events, n);
        let before = reached(v, s, between, events, (n - 1) as nat);
        law_request_keeps_validity(before.0, between[n - 1], events[n - 1]);
        law_ids_only_grow(before.0, between[n - 1], events[n - 1]);
    }
}

/// A whole request is one of those that may be serviced in between another, so
/// that requests may nest as deep as they like.
pub proof fn law_whole_request_nests<C, M, S, F>(
    job: Job,
    name: Seq<char>,
    s: Iso<C, M, S, F>,
    between: Seq<Iso<C, M, S, F>>,
    events: Seq<Evt<C, M, S>>,
    n: nat,
)
    requires
        iso_wf(s),
        ids_to_give(fresh(job, name, false), s),
        proper(fresh(job, name, false), s, between, events, n),
        reached(fresh(job, name, false), s, between, events, n).2 is Reply,
    ensures
        kept_between(s, reached(fresh(job, name, false), s, between, events, n).1),
{
    lemma_reached(fresh(job, name, false), s, between, events, n);
    lemma_ends_between(fresh(job, name, false), s, between, events, n);
}

/// A request has its reply after ten answers at most, whatever they are.
pub proof fn law_whole_request_ends<C, M, S, F>(
    job: Job,
    name: Seq<char>,
    outermost: bool,
    s: Iso<C, M, S, F>,
    between: Seq<Iso<C, M, S, F>>,
    events: Seq<Evt<C, M, S>>,
    n: nat,
)
    requires
        iso_wf(s),
        ids_to_give(fresh(job, name, outermost), s),
        proper(fresh(job, name, outermost), s, between, events, n),
    ensures
        n <= 10,
        n == 10 ==> reached(fresh(job, name, outermost), s, between, events, n).2 is Reply,
{
    lemma_reached(fresh(job, name, outermost), s, between, events, n);
}

/// Whether a termination that was pending before the request is pending still
/// when its action number `n` is done.
pub open spec fn left_over<C, M, S, F>(
    v: Srv,
    s: Iso<C, M, S, F>,
    between: Seq<Iso<C, M, S, F>>,
    events: Seq<Evt<C, M, S>>,
    pending: bool,
    n: nat,
) -> bool
    decreases n,
{
    if n == 0 {
        pending
    } else {
        left_over(v, s, between, events, pending, (n - 1) as nat) && !(reached(
            v,
            s,
            between,
            events,
            (n - 1) as nat,
        ).2 is CancelTerminate)
    }
}

/// The outermost request clears what was left behind before it does anything
/// else, so that nothing it does runs into a termination that is not its own; a
/// nested request clears nothing, so that the termination of a request around it
/// is not lost.
pub proof fn law_whole_request_and_termination<C, M, S, F>(
    job: Job,
    name: Seq<char>,
    outermost: bool,
    s: Iso<C, M, S, F>,
    between: Seq<Iso<C, M, S, F>>,
    events: Seq<Evt<C, M, S>>,
    pending: bool,
    n: nat,
)
    requires
        iso_wf(s),
        ids_to_give(fresh(job, name, outermost), s),
        proper(fresh(job, name, outermost), s, between, events, n),
    ensures
        ({
            let v = fresh(job, name, outermost);
            if outermost {
                &&& reached(v, s, between, events, 0).2 == Act::CancelTerminate
                &&& n > 0 ==> !left_over(v, s, between, events, pending, n)
            } else {
                &&& left_over(v, s, between, events, pending, n) == pending
                &&& !(reached(v, s, between, events, n).2 is CancelTerminate)
            }
        }),
    decreases n,
{
    let v = fresh(job, name, outermost);
    lemma_reached(v, s, between, events, n);
    if n > 0 {
        law_whole_request_and_termination(
            job,
            name,
            outermost,
            s,
            between,
            events,
            pending,
            (n - 1) as nat,
        );
        let before = reached(v, s, between, events, (n - 1) as nat);
        lemma_reached(v, s, between, events, (n - 1) as nat);
        if !outermost {
            law_nested_request_keeps_termination(before.0, between[n - 1], events[n - 1]);
        }
    } else if !outermost {
        law_nested_request_keeps_termination(v, s, Evt::<C, M, S>::Ready);
    }
}

/// A code cache of a script is nothing, and no failure, where the script is
/// gone: disposed, or with its realm since that was reset or disposed. Where it
/// is there, the engine is asked, and what it gives is handed on.
pub proof fn law_code_cache_of_script<C, M, S, F>(
    v: Srv,
    s: Iso<C, M, S, F>,
    script: i32,
    realm: i32,
    made: C,
    bytes: Option<Seq<u8>>,
)
    requires
        iso_wf(s),
        v.job == (Job::ScriptCache { script }),
    ensures
        find_script(s.scripts, script) is None ==> dispatch(v, s) == finish(
            v,
            s,
            Outcome::CodeCache(Ok(None)),
        ),
        find_script(s.scripts, script) is Some ==> {
            let (v1, s1, a) = dispatch(v, s);
            &&& a == (Act::ScriptCache { script })
            &&& s1 == s
            &&& advance(v1, s1, Evt::<C, M, S>::Cache(bytes)) == finish(
                v1,
                s1,
                Outcome::CodeCache(Ok(bytes)),
            )
        },
        find_script(s.scripts, script) matches Some(e) && e.context == realm && reset_refusal(
            s,
            realm,
        ) is None ==> dispatch(v, after_reset(s, realm, made)) == finish(
            v,
            after_reset(s, realm, made),
            Outcome::CodeCache(Ok(None)),
        ),
        find_script(s.scripts, script) matches Some(e) && e.context == realm && realm != 0
            && dispose_refusal(s, realm) is None ==> dispatch(v, after_dispose(s, realm))
            == finish(v, after_dispose(s, realm), Outcome::CodeCache(Ok(None))),
{
    let other: i32 = if realm == 0 {
        1
    } else {
        0
    };
    if reset_refusal(s, realm) is None {
        law_reset_swaps_one_realm(s, realm, made, other, 0, script);
    }
    if realm != 0 && dispose_refusal(s, realm) is None {
        law_dispose_removes_one_realm(s, realm, other, 0, script);
    }
}

/// The same of a module, which besides needs its realm.
pub proof fn law_code_cache_of_module<C, M, S, F>(
    v: Srv,
    s: Iso<C, M, S, F>,
    module: i32,
    realm: i32,
    made: C,
    bytes: Option<Seq<u8>>,
)
    requires
        iso_wf(s),
        v.job == (Job::ModuleCache { module }),
    ensures
        module_target(s, module) is Err ==> dispatch(v, s) == finish(
            v,
            s,
            Outcome::CodeCache(Ok(None)),
        ),
        module_target(s, module) matches Ok(home) ==> {
            let (v1, s1, a) = dispatch(v, s);
            &&& a == (Act::ModuleCache { module, realm: home })
            &&& s1 == s
            &&& advance(v1, s1, Evt::<C, M, S>::Cache(bytes)) == finish(
                v1,
                s1,
                Outcome::CodeCache(Ok(bytes)),
            )
        },
        find_module(s.modules, module) matches Some(e) && e.context == realm && reset_refusal(
            s,
            realm,
        ) is None ==> dispatch(v, after_reset(s, realm, made)) == finish(
            v,
            after_reset(s, realm, made),
            Outcome::CodeCache(Ok(None)),
        ),
        find_module(s.modules, module) matches Some(e) && e.context == realm && realm != 0
            && dispose_refusal(s, realm) is None ==> dispatch(v, after_dispose(s, realm))
            == finish(v, after_dispose(s, realm), Outcome::CodeCache(Ok(None))),
{
    let other: i32 = if realm == 0 {
        1
    } else {
        0
    };
    if reset_refusal(s, realm) is None {
        law_reset_swaps_one_realm(s, realm, made, other, module, 0);
    }
    if realm != 0 && dispose_refusal(s, realm) is None {
        law_dispose_removes_one_realm(s, realm, other, module, 0);
    }
}

} // verus!
