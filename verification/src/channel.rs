//! The engine on a thread of its own, with requests and answers over channels:
//! what each side does with a message.
use crate::errors::{plain, raise, raised, vm_err, Raised, RubyClass, RubyError};
use crate::graph_load::opt_views;
use crate::text::views;
use crate::value::{JsVal, VmError};
use vstd::prelude::*;

verus! {

broadcast use vstd::string::group_string_axioms;

/// A request to the engine's thread, without its texts.
#[derive(Debug, Clone, Copy, PartialEq, Eq, Structural)]
pub enum ThreadRequest {
    Eval { timeout_ms: u64 },
    Attach,
    Reset,
    LoadModuleGraph,
    Dispose,
}

/// What the engine's thread does next for a request.
#[derive(Debug, Clone, Copy, PartialEq, Eq, Structural)]
pub enum ThreadAction {
    /// Make the request's own reply channel the one that callbacks go to.
    PushReply,
    /// Start a watchdog for so many milliseconds.
    Watch(u64),
    /// Run the source.
    Run,
    /// Stop the watchdog, and tell whether it has terminated the engine.
    Unwatch,
    CancelTerminate,
    PopReply,
    /// Make the host function and store it on the global object.
    Attach,
    /// Make a fresh realm the current one.
    FreshRealm,
    /// Forget the compiled modules.
    ClearModules,
    InstallNamespace,
    /// Load the module graph.
    LoadGraph,
    /// Reply with what running, attaching or resetting came to.
    Reply,
    /// Reply with what loading the module graph came to.
    ReplyGraph,
    /// Take the next request.
    Next,
    /// Leave the loop: the realm is dropped, and the engine after it.
    Exit,
}

/// A request on its way through the engine's thread.
#[derive(Debug, Clone, Copy)]
pub struct ThreadService {
    pub request: ThreadRequest,
    pub has_namespace: bool,
    pub last: ThreadAction,
}

/// What comes after an action that is done; `fired` is told by `Unwatch`.
pub open spec fn thread_next(
    request: ThreadRequest,
    has_namespace: bool,
    last: ThreadAction,
    fired: bool,
) -> ThreadAction {
    match (request, last) {
        (ThreadRequest::Eval { timeout_ms }, ThreadAction::PushReply) => if timeout_ms > 0 {
            ThreadAction::Watch(timeout_ms)
        } else {
            ThreadAction::Run
        },
        (ThreadRequest::Eval { .. }, ThreadAction::Watch(_)) => ThreadAction::Run,
        (ThreadRequest::Eval { timeout_ms }, ThreadAction::Run) => if timeout_ms > 0 {
            ThreadAction::Unwatch
        } else {
            ThreadAction::PopReply
        },
        (ThreadRequest::Eval { .. }, ThreadAction::Unwatch) => if fired {
            ThreadAction::CancelTerminate
        } else {
            ThreadAction::PopReply
        },
        (ThreadRequest::Eval { .. }, ThreadAction::CancelTerminate) => ThreadAction::PopReply,
        (ThreadRequest::LoadModuleGraph, ThreadAction::PushReply) => ThreadAction::LoadGraph,
        (ThreadRequest::LoadModuleGraph, ThreadAction::LoadGraph) => ThreadAction::PopReply,
        (ThreadRequest::LoadModuleGraph, ThreadAction::PopReply) => ThreadAction::ReplyGraph,
        (_, ThreadAction::PopReply) => ThreadAction::Reply,
        (_, ThreadAction::Attach) => ThreadAction::Reply,
        (_, ThreadAction::FreshRealm) => ThreadAction::ClearModules,
        (_, ThreadAction::ClearModules) => if has_namespace {
            ThreadAction::InstallNamespace
        } else {
            ThreadAction::Reply
        },
        (_, ThreadAction::InstallNamespace) => ThreadAction::Reply,
        _ => ThreadAction::Next,
    }
}

/// What a request begins with.
pub open spec fn thread_first(request: ThreadRequest) -> ThreadAction {
    match request {
        ThreadRequest::Eval { .. } => ThreadAction::PushReply,
        ThreadRequest::Attach => ThreadAction::Attach,
        ThreadRequest::Reset => ThreadAction::FreshRealm,
        ThreadRequest::LoadModuleGraph => ThreadAction::PushReply,
        ThreadRequest::Dispose => ThreadAction::Exit,
    }
}

impl ThreadService {
    /// Begins with a request that was received.
    pub fn start(request: ThreadRequest, has_namespace: bool) -> (r: ThreadService)
        ensures
            r == (ThreadService { request, has_namespace, last: thread_first(request) }),
    {
        let last: ThreadAction = match request {
            ThreadRequest::Eval { .. } => ThreadAction::PushReply,
            ThreadRequest::Attach => ThreadAction::Attach,
            ThreadRequest::Reset => ThreadAction::FreshRealm,
            ThreadRequest::LoadModuleGraph => ThreadAction::PushReply,
            ThreadRequest::Dispose => ThreadAction::Exit,
        };
        ThreadService { request, has_namespace, last }
    }

    /// The last action is done; gives the next one.
    pub fn step(&mut self, fired: bool) -> (a: ThreadAction)
        ensures
            a == thread_next(old(self).request, old(self).has_namespace, old(self).last, fired),
            *final(self) == (ThreadService { last: a, ..*old(self) }),
    {
        let a: ThreadAction = match (self.request, self.last) {
            (ThreadRequest::Eval { timeout_ms }, ThreadAction::PushReply) => {
                if timeout_ms > 0 {
                    ThreadAction::Watch(timeout_ms)
                } else {
                    ThreadAction::Run
                }
            },
            (ThreadRequest::Eval { .. }, ThreadAction::Watch(_)) => ThreadAction::Run,
            (ThreadRequest::Eval { timeout_ms }, ThreadAction::Run) => {
                if timeout_ms > 0 {
                    ThreadAction::Unwatch
                } else {
                    ThreadAction::PopReply
                }
            },
            (ThreadRequest::Eval { .. }, ThreadAction::Unwatch) => {
                if fired {
                    ThreadAction::CancelTerminate
                } else {
                    ThreadAction::PopReply
                }
            },
            (ThreadRequest::Eval { .. }, ThreadAction::CancelTerminate) => ThreadAction::PopReply,
            (ThreadRequest::LoadModuleGraph, ThreadAction::PushReply) => ThreadAction::LoadGraph,
            (ThreadRequest::LoadModuleGraph, ThreadAction::LoadGraph) => ThreadAction::PopReply,
            (ThreadRequest::LoadModuleGraph, ThreadAction::PopReply) => ThreadAction::ReplyGraph,
            (_, ThreadAction::PopReply) => ThreadAction::Reply,
            (_, ThreadAction::Attach) => ThreadAction::Reply,
            (_, ThreadAction::FreshRealm) => ThreadAction::ClearModules,
            (_, ThreadAction::ClearModules) => {
                if self.has_namespace {
                    ThreadAction::InstallNamespace
                } else {
                    ThreadAction::Reply
                }
            },
            (_, ThreadAction::InstallNamespace) => ThreadAction::Reply,
            _ => ThreadAction::Next,
        };
        self.last = a;
        a
    }
}

/// The actions of a request, in order, as far as `fired` is told by `Unwatch`.
pub open spec fn thread_run(
    request: ThreadRequest,
    has_namespace: bool,
    fired: bool,
    at: ThreadAction,
    n: nat,
) -> Seq<ThreadAction>
    decreases n,
{
    if n == 0 || at is Next || at is Exit {
        seq![at]
    } else {
        seq![at] + thread_run(
            request,
            has_namespace,
            fired,
            thread_next(request, has_namespace, at, fired),
            (n - 1) as nat,
        )
    }
}

/// An evaluation goes through these actions: its reply channel is in place while
/// it runs and gone before the reply, a watchdog that was started is stopped
/// before it, and a termination of its own is cleared before it, so that it
/// cannot reach the next request.
pub proof fn law_eval_on_thread(timeout_ms: u64, has_namespace: bool, fired: bool)
    ensures
        thread_run(
            ThreadRequest::Eval { timeout_ms },
            has_namespace,
            fired,
            thread_first(ThreadRequest::Eval { timeout_ms }),
            8,
        ) == if timeout_ms == 0 {
            seq![
                ThreadAction::PushReply,
                ThreadAction::Run,
                ThreadAction::PopReply,
                ThreadAction::Reply,
                ThreadAction::Next,
            ]
        } else if fired {
            seq![
                ThreadAction::PushReply,
                ThreadAction::Watch(timeout_ms),
                ThreadAction::Run,
                ThreadAction::Unwatch,
                ThreadAction::CancelTerminate,
                ThreadAction::PopReply,
                ThreadAction::Reply,
                ThreadAction::Next,
            ]
        } else {
            seq![
                ThreadAction::PushReply,
                ThreadAction::Watch(timeout_ms),
                ThreadAction::Run,
                ThreadAction::Unwatch,
                ThreadAction::PopReply,
                ThreadAction::Reply,
                ThreadAction::Next,
            ]
        },
{
    reveal_with_fuel(thread_run, 9);
    let got = thread_run(
        ThreadRequest::Eval { timeout_ms },
        has_namespace,
        fired,
        thread_first(ThreadRequest::Eval { timeout_ms }),
        8,
    );
    if timeout_ms == 0 {
        assert(got =~= seq![
            ThreadAction::PushReply,
            ThreadAction::Run,
            ThreadAction::PopReply,
            ThreadAction::Reply,
            ThreadAction::Next,
        ]);
    } else if fired {
        assert(got =~= seq![
            ThreadAction::PushReply,
            ThreadAction::Watch(timeout_ms),
            ThreadAction::Run,
            ThreadAction::Unwatch,
            ThreadAction::CancelTerminate,
            ThreadAction::PopReply,
            ThreadAction::Reply,
            ThreadAction::Next,
        ]);
    } else {
        assert(got =~= seq![
            ThreadAction::PushReply,
            ThreadAction::Watch(timeout_ms),
            ThreadAction::Run,
            ThreadAction::Unwatch,
            ThreadAction::PopReply,
            ThreadAction::Reply,
            ThreadAction::Next,
        ]);
    }
}

/// A reset goes through these actions: the fresh realm has no modules, and the
/// host namespace where there is one.
pub proof fn law_reset_on_thread(has_namespace: bool)
    ensures
        thread_run(
            ThreadRequest::Reset,
            has_namespace,
            false,
            thread_first(ThreadRequest::Reset),
            8,
        ) == if has_namespace {
            seq![
                ThreadAction::FreshRealm,
                ThreadAction::ClearModules,
                ThreadAction::InstallNamespace,
                ThreadAction::Reply,
                ThreadAction::Next,
            ]
        } else {
            seq![
                ThreadAction::FreshRealm,
                ThreadAction::ClearModules,
                ThreadAction::Reply,
                ThreadAction::Next,
            ]
        },
{
    reveal_with_fuel(thread_run, 9);
    let got = thread_run(
        ThreadRequest::Reset,
        has_namespace,
        false,
        thread_first(ThreadRequest::Reset),
        8,
    );
    if has_namespace {
        assert(got =~= seq![
            ThreadAction::FreshRealm,
            ThreadAction::ClearModules,
            ThreadAction::InstallNamespace,
            ThreadAction::Reply,
            ThreadAction::Next,
        ]);
    } else {
        assert(got =~= seq![
            ThreadAction::FreshRealm,
            ThreadAction::ClearModules,
            ThreadAction::Reply,
            ThreadAction::Next,
        ]);
    }
}

/// The actions of a whole request.
pub open spec fn request_actions(request: ThreadRequest, has_namespace: bool, fired: bool) -> Seq<
    ThreadAction,
> {
    thread_run(request, has_namespace, fired, thread_first(request), 8)
}

/// Attaching, loading and disposing go through these actions: a load has its
/// reply channel in place while it runs, as an evaluation does, and a disposal
/// leaves the loop at once.
pub proof fn law_other_requests_on_thread(has_namespace: bool, fired: bool)
    ensures
        request_actions(ThreadRequest::Attach, has_namespace, fired) == seq![
            ThreadAction::Attach,
            ThreadAction::Reply,
            ThreadAction::Next,
        ],
        request_actions(ThreadRequest::LoadModuleGraph, has_namespace, fired) == seq![
            ThreadAction::PushReply,
            ThreadAction::LoadGraph,
            ThreadAction::PopReply,
            ThreadAction::ReplyGraph,
            ThreadAction::Next,
        ],
        request_actions(ThreadRequest::Dispose, has_namespace, fired) == seq![ThreadAction::Exit],
{
    reveal_with_fuel(thread_run, 9);
    assert(request_actions(ThreadRequest::Attach, has_namespace, fired) =~= seq![
        ThreadAction::Attach,
        ThreadAction::Reply,
        ThreadAction::Next,
    ]);
    assert(request_actions(ThreadRequest::LoadModuleGraph, has_namespace, fired) =~= seq![
        ThreadAction::PushReply,
        ThreadAction::LoadGraph,
        ThreadAction::PopReply,
        ThreadAction::ReplyGraph,
        ThreadAction::Next,
    ]);
}

/// The reply that a request ends with; a disposal has none.
pub open spec fn terminal(request: ThreadRequest) -> Option<ThreadAction> {
    match request {
        ThreadRequest::LoadModuleGraph => Some(ThreadAction::ReplyGraph),
        ThreadRequest::Dispose => None,
        _ => Some(ThreadAction::Reply),
    }
}

/// Whether an action is a reply.
pub open spec fn is_reply(a: ThreadAction) -> bool {
    a is Reply || a is ReplyGraph
}

/// The replies among some actions, each with the number of its request.
pub open spec fn replies(log: Seq<(int, ThreadAction)>) -> Seq<(int, ThreadAction)>
    decreases log.len(),
{
    if log.len() == 0 {
        Seq::empty()
    } else if is_reply(log[0].1) {
        seq![log[0]] + replies(log.skip(1))
    } else {
        replies(log.skip(1))
    }
}

/// The actions of request number `k`, each with that number.
pub open spec fn numbered(actions: Seq<ThreadAction>, k: int) -> Seq<(int, ThreadAction)> {
    actions.map_values(|a: ThreadAction| (k, a))
}

/// The actions of the engine's thread for the requests from number `k` on, until
/// it leaves its loop; `fired` tells of each request whether its watchdog has
/// terminated the engine.
pub open spec fn thread_log(
    requests: Seq<ThreadRequest>,
    has_namespace: bool,
    fired: spec_fn(int) -> bool,
    k: int,
) -> Seq<(int, ThreadAction)>
    decreases requests.len() - k,
{
    if k < 0 || k >= requests.len() {
        Seq::empty()
    } else {
        numbered(request_actions(requests[k], has_namespace, fired(k)), k) + if requests[k]
            == ThreadRequest::Dispose {
            Seq::empty()
        } else {
            thread_log(requests, has_namespace, fired, k + 1)
        }
    }
}

/// How many requests come before the first disposal, or the end, from number
/// `k` on.
pub open spec fn before_disposal(requests: Seq<ThreadRequest>, k: int) -> nat
    decreases requests.len() - k,
{
    if k < 0 || k >= requests.len() || requests[k] == ThreadRequest::Dispose {
        0
    } else {
        1 + before_disposal(requests, k + 1)
    }
}

proof fn lemma_replies_concat(a: Seq<(int, ThreadAction)>, b: Seq<(int, ThreadAction)>)
    ensures
        replies(a + b) == replies(a) + replies(b),
    decreases a.len(),
{
    if a.len() == 0 {
        assert(a + b =~= b);
        assert(replies(a) + replies(b) =~= replies(b));
    } else {
        assert((a + b).skip(1) =~= a.skip(1) + b);
        lemma_replies_concat(a.skip(1), b);
        assert(seq![a[0]] + (replies(a.skip(1)) + replies(b)) =~= (seq![a[0]] + replies(
            a.skip(1),
        )) + replies(b));
    }
}

/// Every request but a disposal is replied to exactly once, just before the next
/// request is taken, and with the reply of its kind.
pub proof fn law_one_reply(request: ThreadRequest, has_namespace: bool, fired: bool)
    ensures
        ({
            let actions = request_actions(request, has_namespace, fired);
            let n = actions.len() as int;
            match terminal(request) {
                Some(t) => {
                    &&& n >= 2
                    &&& actions[n - 1] is Next
                    &&& actions[n - 2] == t
                    &&& forall|i: int| 0 <= i < n - 2 ==> !is_reply(#[trigger] actions[i])
                },
                None => actions == seq![ThreadAction::Exit],
            }
        }),
{
    match request {
        ThreadRequest::Eval { timeout_ms } => law_eval_on_thread(timeout_ms, has_namespace, fired),
        ThreadRequest::Reset => {
            reveal_with_fuel(thread_run, 9);
        },
        _ => law_other_requests_on_thread(has_namespace, fired),
    }
}

proof fn lemma_no_replies(log: Seq<(int, ThreadAction)>)
    requires
        forall|i: int| 0 <= i < log.len() ==> !is_reply((#[trigger] log[i]).1),
    ensures
        replies(log) == Seq::<(int, ThreadAction)>::empty(),
    decreases log.len(),
{
    if log.len() > 0 {
        assert(!is_reply(log[0].1));
        assert forall|i: int| 0 <= i < log.skip(1).len() implies !is_reply(
            (#[trigger] log.skip(1)[i]).1,
        ) by {
            assert(log.skip(1)[i] == log[i + 1]);
        }
        lemma_no_replies(log.skip(1));
    }
}

proof fn lemma_replies_of_request(
    request: ThreadRequest,
    has_namespace: bool,
    fired: bool,
    k: int,
)
    ensures
        replies(numbered(request_actions(request, has_namespace, fired), k)) == match terminal(
            request,
        ) {
            Some(t) => seq![(k, t)],
            None => Seq::empty(),
        },
{
    let actions = request_actions(request, has_namespace, fired);
    let log = numbered(actions, k);
    law_one_reply(request, has_namespace, fired);
    match terminal(request) {
        Some(t) => {
            let n = actions.len() as int;
            let front = log.take(n - 2);
            let back = log.skip(n - 2);
            assert(log =~= front + back);
            lemma_replies_concat(front, back);
            assert forall|i: int| 0 <= i < front.len() implies !is_reply((#[trigger] front[i]).1) by {
                assert(front[i].1 == actions[i]);
            }
            lemma_no_replies(front);
            reveal_with_fuel(replies, 3);
            assert(back[0] == (k, t));
            assert(back.skip(1)[0] == (k, ThreadAction::Next));
            assert(back.skip(1).skip(1).len() == 0);
            assert(replies(back) =~= seq![(k, t)]);
            assert(replies(front) + replies(back) =~= seq![(k, t)]);
        },
        None => {
            lemma_no_replies(log);
        },
    }
}

/// Over any sequence of requests, every one before the first disposal gets one
/// reply of its kind, in the order of the requests, and nothing after it is
/// served.
pub proof fn law_requests_are_answered_in_order(
    requests: Seq<ThreadRequest>,
    has_namespace: bool,
    fired: spec_fn(int) -> bool,
)
    ensures
        ({
            let m = before_disposal(requests, 0);
            let got = replies(thread_log(requests, has_namespace, fired, 0));
            &&& m <= requests.len()
            &&& m < requests.len() ==> requests[m as int] == ThreadRequest::Dispose
            &&& got.len() == m
            &&& forall|i: int|
                0 <= i < m ==> (#[trigger] got[i]).0 == i && Some(got[i].1) == terminal(
                    requests[i],
                )
        }),
        forall|j: int|
            0 <= j < thread_log(requests, has_namespace, fired, 0).len() ==> (
            #[trigger] thread_log(requests, has_namespace, fired, 0)[j]).0 <= before_disposal(
                requests,
                0,
            ),
{
    lemma_log(requests, has_namespace, fired, 0);
}

proof fn lemma_log(
    requests: Seq<ThreadRequest>,
    has_namespace: bool,
    fired: spec_fn(int) -> bool,
    k: int,
)
    requires
        0 <= k <= requests.len(),
    ensures
        ({
            let m = before_disposal(requests, k);
            let got = replies(thread_log(requests, has_namespace, fired, k));
            &&& k + m <= requests.len()
            &&& k + m < requests.len() ==> requests[k + m] == ThreadRequest::Dispose
            &&& got.len() == m
            &&& forall|i: int|
                0 <= i < m ==> (#[trigger] got[i]).0 == k + i && Some(got[i].1) == terminal(
                    requests[k + i],
                )
        }),
        forall|j: int|
            0 <= j < thread_log(requests, has_namespace, fired, k).len() ==> (
            #[trigger] thread_log(requests, has_namespace, fired, k)[j]).0 <= k + before_disposal(
                requests,
                k,
            ),
    decreases requests.len() - k,
{
    if k < requests.len() {
        let head = numbered(request_actions(requests[k], has_namespace, fired(k)), k);
        lemma_replies_of_request(requests[k], has_namespace, fired(k), k);
        let log = thread_log(requests, has_namespace, fired, k);
        if requests[k] == ThreadRequest::Dispose {
            assert(log =~= head);
        } else {
            let rest = thread_log(requests, has_namespace, fired, k + 1);
            lemma_replies_concat(head, rest);
            lemma_log(requests, has_namespace, fired, k + 1);
            let m = before_disposal(requests, k);
            let got = replies(log);
            let tail = replies(rest);
            assert(got.len() == 1 + tail.len());
            assert forall|i: int| 0 <= i < m implies (#[trigger] got[i]).0 == k + i && Some(
                got[i].1,
            ) == terminal(requests[k + i]) by {
                if i > 0 {
                    assert(got[i] == tail[i - 1]);
                }
            }
            assert forall|j: int| 0 <= j < log.len() implies (#[trigger] log[j]).0 <= k + m by {
                if j >= head.len() {
                    assert(log[j] == rest[j - head.len()]);
                }
            }
        }
    }
}

/// Whether a termination is still pending in the engine after some actions: a
/// watchdog that fired has asked for it by the time it is stopped.
pub open spec fn pending_after(pending: bool, actions: Seq<ThreadAction>, fired: bool) -> bool
    decreases actions.len(),
{
    if actions.len() == 0 {
        pending
    } else {
        let before = pending_after(pending, actions.drop_last(), fired);
        match actions.last() {
            ThreadAction::Unwatch => before || fired,
            ThreadAction::CancelTerminate => false,
            _ => before,
        }
    }
}

/// Whether one is pending when request number `k` is taken.
pub open spec fn pending_at(
    requests: Seq<ThreadRequest>,
    has_namespace: bool,
    fired: spec_fn(int) -> bool,
    k: nat,
) -> bool
    decreases k,
{
    if k == 0 {
        false
    } else {
        pending_after(
            pending_at(requests, has_namespace, fired, (k - 1) as nat),
            request_actions(requests[k - 1], has_namespace, fired(k - 1)),
            fired(k - 1),
        )
    }
}

proof fn lemma_pending_step(pending: bool, actions: Seq<ThreadAction>, a: ThreadAction, fired: bool)
    ensures
        pending_after(pending, actions.push(a), fired) == match a {
            ThreadAction::Unwatch => pending_after(pending, actions, fired) || fired,
            ThreadAction::CancelTerminate => false,
            _ => pending_after(pending, actions, fired),
        },
{
    assert(actions.push(a).drop_last() =~= actions);
}

/// Where no watchdog that fired is stopped, nothing becomes pending.
proof fn lemma_nothing_pending(actions: Seq<ThreadAction>, fired: bool)
    requires
        fired ==> forall|i: int|
            0 <= i < actions.len() ==> #[trigger] actions[i] != ThreadAction::Unwatch,
    ensures
        !pending_after(false, actions, fired),
    decreases actions.len(),
{
    if actions.len() > 0 {
        let rest = actions.drop_last();
        assert(actions[actions.len() - 1] == actions.last());
        assert forall|i: int| fired && 0 <= i < rest.len() implies #[trigger] rest[i]
            != ThreadAction::Unwatch by {
            assert(actions[i] == rest[i]);
        }
        lemma_nothing_pending(rest, fired);
    }
}

proof fn lemma_request_leaves_nothing(request: ThreadRequest, has_namespace: bool, fired: bool)
    ensures
        !pending_after(false, request_actions(request, has_namespace, fired), fired),
{
    let actions = request_actions(request, has_namespace, fired);
    match request {
        ThreadRequest::Eval { timeout_ms } => {
            law_eval_on_thread(timeout_ms, has_namespace, fired);
            if timeout_ms > 0 && fired {
                let first = seq![
                    ThreadAction::PushReply,
                    ThreadAction::Watch(timeout_ms),
                    ThreadAction::Run,
                    ThreadAction::Unwatch,
                ];
                let a = first.push(ThreadAction::CancelTerminate);
                let b = a.push(ThreadAction::PopReply);
                let c = b.push(ThreadAction::Reply);
                let d = c.push(ThreadAction::Next);
                assert(actions =~= d);
                lemma_pending_step(false, first, ThreadAction::CancelTerminate, fired);
                lemma_pending_step(false, a, ThreadAction::PopReply, fired);
                lemma_pending_step(false, b, ThreadAction::Reply, fired);
                lemma_pending_step(false, c, ThreadAction::Next, fired);
            } else {
                lemma_nothing_pending(actions, fired);
            }
        },
        ThreadRequest::Reset => {
            reveal_with_fuel(thread_run, 9);
            lemma_nothing_pending(actions, fired);
        },
        _ => {
            law_other_requests_on_thread(has_namespace, fired);
            lemma_nothing_pending(actions, fired);
        },
    }
}

/// The timeout of one request never reaches a later one: when a request is
/// taken, no termination is pending.
pub proof fn law_timeout_stays_with_its_request(
    requests: Seq<ThreadRequest>,
    has_namespace: bool,
    fired: spec_fn(int) -> bool,
    k: nat,
)
    requires
        k <= requests.len(),
    ensures
        !pending_at(requests, has_namespace, fired, k),
    decreases k,
{
    if k > 0 {
        law_timeout_stays_with_its_request(requests, has_namespace, fired, (k - 1) as nat);
        lemma_request_leaves_nothing(requests[k - 1], has_namespace, fired(k - 1));
    }
}

/// What the engine's thread is answered while it waits inside a host function.
#[derive(Debug)]
pub enum CallbackAnswer {
    Result(Result<JsVal, String>),
    /// The host function evaluates something in its turn.
    NestedEval,
    /// An answer to a batch of the module graph.
    Batch,
    /// The asking thread is gone.
    Gone,
}

/// What the engine's thread does with such an answer.
#[derive(Debug)]
pub enum CallbackAction {
    Return(JsVal),
    Throw(String),
    /// Evaluate, reply to it, and wait on.
    EvalAndWait,
}

/// Whether an action is the one for an answer to a host function's call.
pub open spec fn is_callback_action(answer: CallbackAnswer, a: CallbackAction) -> bool {
    match answer {
        CallbackAnswer::Result(Ok(v)) => a matches CallbackAction::Return(w) && w@ == v@,
        CallbackAnswer::Result(Err(m)) => a matches CallbackAction::Throw(t) && t@ == m@,
        CallbackAnswer::NestedEval => a is EvalAndWait,
        CallbackAnswer::Batch => a matches CallbackAction::Throw(t) && t@
            == "unexpected module-graph answer in host callback"@,
        CallbackAnswer::Gone => a matches CallbackAction::Throw(t) && t@
            == "host function caller went away"@,
    }
}

/// The call of a host function returns a value exactly where it was answered with
/// one, and that value; it throws the message that it was answered with, or that no
/// answer will come; and it waits on, with nothing returned, exactly while the host
/// function evaluates something in its turn.
pub proof fn law_callback_returns_what_was_answered(answer: CallbackAnswer, a: CallbackAction)
    requires
        is_callback_action(answer, a),
    ensures
        a is EvalAndWait <==> answer is NestedEval,
        a is Return <==> (answer matches CallbackAnswer::Result(r) && r is Ok),
        answer matches CallbackAnswer::Result(Ok(v)) ==> (a matches CallbackAction::Return(w) && w@
            == v@),
        answer matches CallbackAnswer::Result(Err(m)) ==> (a matches CallbackAction::Throw(t) && t@
            == m@),
        answer is Gone ==> (a matches CallbackAction::Throw(t) && t@
            == "host function caller went away"@),
        answer is Batch ==> (a matches CallbackAction::Throw(t) && t@
            == "unexpected module-graph answer in host callback"@),
{
}

/// What the engine's thread does with an answer to a host function's call.
pub fn callback_step(answer: CallbackAnswer) -> (a: CallbackAction)
    ensures
        is_callback_action(answer, a),
{
    match answer {
        CallbackAnswer::Result(Ok(v)) => CallbackAction::Return(v),
        CallbackAnswer::Result(Err(m)) => CallbackAction::Throw(m),
        CallbackAnswer::NestedEval => CallbackAction::EvalAndWait,
        CallbackAnswer::Batch => CallbackAction::Throw(
            "unexpected module-graph answer in host callback".to_string(),
        ),
        CallbackAnswer::Gone => CallbackAction::Throw(
            "host function caller went away".to_string(),
        ),
    }
}

/// A message to the Ruby thread that waits for a request.
#[derive(Debug)]
pub enum Message {
    Done(Result<JsVal, VmError>),
    GraphDone(Result<Vec<String>, VmError>),
    Callback { host_fn_id: usize },
    FetchBatch { count: usize },
    ResolveBatch { count: usize },
    /// The engine's thread is gone.
    Gone,
}

/// What the Ruby thread does with a message.
#[derive(Debug)]
pub enum PumpAction {
    Return(JsVal),
    ReturnGraph(Vec<String>),
    Raise(RubyError),
    /// Call a host function, answer, and wait on.
    CallProc { host_fn_id: usize },
    /// Ask the loader's block for sources, answer, and wait on.
    Fetch { count: usize },
    /// Ask the loader's block for URLs, answer, and wait on.
    Resolve { count: usize },
    /// Answer a batch with nothing, and wait on.
    AnswerNothing { count: usize },
}

/// Whether an action is the one for a message.
pub open spec fn is_pump_action(message: Message, loading: bool, a: PumpAction) -> bool {
    match message {
        Message::Done(Ok(v)) => a matches PumpAction::Return(w) && w@ == v@,
        Message::Done(Err(e)) => a matches PumpAction::Raise(r) && r@ == raised(e@),
        Message::GraphDone(Ok(u)) => a matches PumpAction::ReturnGraph(w) && views(w@) == views(u@),
        Message::GraphDone(Err(e)) => a matches PumpAction::Raise(r) && r@ == raised(e@),
        Message::Callback { host_fn_id } => a matches PumpAction::CallProc { host_fn_id: h } && h
            == host_fn_id,
        Message::FetchBatch { count } => if loading {
            a matches PumpAction::Fetch { count: n } && n == count
        } else {
            a matches PumpAction::AnswerNothing { count: n } && n == count
        },
        Message::ResolveBatch { count } => if loading {
            a matches PumpAction::Resolve { count: n } && n == count
        } else {
            a matches PumpAction::AnswerNothing { count: n } && n == count
        },
        Message::Gone => a matches PumpAction::Raise(r) && r@ == plain(
            RubyClass::StandardRuntimeError,
            "V8 thread went away mid-request"@,
        ),
    }
}

/// A request ends for the Ruby thread exactly with a result of it, or with the
/// engine's thread: with the value that came, or with what is raised for the
/// failure. Everything else is answered, for as many as it asks for, and waited on
/// after; only a load is asked for sources and URLs.
pub proof fn law_pump_ends_with_the_result(message: Message, loading: bool, a: PumpAction)
    requires
        is_pump_action(message, loading, a),
    ensures
        a is Return || a is ReturnGraph || a is Raise <==> message is Done || message is GraphDone
            || message is Gone,
        message matches Message::Done(Ok(v)) ==> (a matches PumpAction::Return(w) && w@ == v@),
        message matches Message::Done(Err(e)) ==> (a matches PumpAction::Raise(r) && r@ == raised(
            e@,
        )),
        message matches Message::GraphDone(Ok(u)) ==> (a matches PumpAction::ReturnGraph(w)
            && views(w@) == views(u@)),
        message matches Message::GraphDone(Err(e)) ==> (a matches PumpAction::Raise(r) && r@
            == raised(e@)),
        message is Gone ==> (a matches PumpAction::Raise(r) && r@.class
            == RubyClass::StandardRuntimeError && r@.message == "V8 thread went away mid-request"@),
        a is Fetch || a is Resolve ==> loading,
        a is AnswerNothing ==> !loading,
        message matches Message::Callback { host_fn_id } ==> a == (PumpAction::CallProc {
            host_fn_id,
        }),
        message matches Message::FetchBatch { count } ==> a == (PumpAction::Fetch { count }) || a
            == (PumpAction::AnswerNothing { count }),
        message matches Message::ResolveBatch { count } ==> a == (PumpAction::Resolve { count })
            || a == (PumpAction::AnswerNothing { count }),
{
}

/// What the Ruby thread does with a message while it waits; `loading` tells
/// whether its request is the load of a module graph.
pub fn pump_step(message: Message, loading: bool) -> (a: PumpAction)
    ensures
        is_pump_action(message, loading, a),
{
    match message {
        Message::Done(Ok(v)) => PumpAction::Return(v),
        Message::Done(Err(e)) => PumpAction::Raise(vm_err(e)),
        Message::GraphDone(Ok(u)) => PumpAction::ReturnGraph(u),
        Message::GraphDone(Err(e)) => PumpAction::Raise(vm_err(e)),
        Message::Callback { host_fn_id } => PumpAction::CallProc { host_fn_id },
        Message::FetchBatch { count } => {
            if loading {
                PumpAction::Fetch { count }
            } else {
                PumpAction::AnswerNothing { count }
            }
        },
        Message::ResolveBatch { count } => {
            if loading {
                PumpAction::Resolve { count }
            } else {
                PumpAction::AnswerNothing { count }
            }
        },
        Message::Gone => PumpAction::Raise(
            raise(RubyClass::StandardRuntimeError, "V8 thread went away mid-request"),
        ),
    }
}

/// Where an evaluation is sent.
#[derive(Debug, Clone, Copy, PartialEq, Eq, Structural)]
pub enum Route {
    /// Into the call of the host function that this thread serves: the engine's
    /// thread waits there, and its queue would not be read.
    Nested,
    Queue,
}

/// Where an evaluation is sent from a thread that serves some host functions'
/// calls.
pub open spec fn route_of(serving: nat) -> Route {
    if serving > 0 {
        Route::Nested
    } else {
        Route::Queue
    }
}

/// While any host function's call is served, however many, an evaluation never
/// goes to the queue, which would not be read; else it always does.
pub proof fn law_queue_is_used_only_when_read(serving: nat)
    ensures
        route_of(0) == Route::Queue,
        route_of(serving + 1) == Route::Nested,
{
}

/// Where an evaluation is sent from a thread that serves some host functions'
/// calls.
pub fn eval_route(serving: usize) -> (r: Route)
    ensures
        r == route_of(serving as nat),
{
    if serving > 0 {
        Route::Nested
    } else {
        Route::Queue
    }
}

/// Why a request is not sent, if so.
pub open spec fn sending_refusal(disposed: bool, delivered: bool) -> Option<Raised> {
    if disposed {
        Some(plain(RubyClass::StandardRuntimeError, "disposed context"@))
    } else if !delivered {
        Some(plain(RubyClass::StandardRuntimeError, "V8 thread is gone"@))
    } else {
        None
    }
}

/// A request is sent exactly where it was delivered and the context is not
/// disposed; that it is disposed is told first.
pub proof fn law_sending_fails_only_with_cause(disposed: bool, delivered: bool)
    ensures
        sending_refusal(disposed, delivered) is None <==> !disposed && delivered,
        sending_refusal(true, delivered) == Some(
            plain(RubyClass::StandardRuntimeError, "disposed context"@),
        ),
        sending_refusal(false, false) == Some(
            plain(RubyClass::StandardRuntimeError, "V8 thread is gone"@),
        ),
{
}

/// What sending a request comes to: a disposed context takes none, and where the
/// engine's thread is gone sending fails.
pub fn sent(disposed: bool, delivered: bool) -> (r: Result<(), RubyError>)
    ensures
        match (r, sending_refusal(disposed, delivered)) {
            (Ok(_), None) => true,
            (Err(e), Some(want)) => e@ == want,
            _ => false,
        },
{
    if disposed {
        Err(raise(RubyClass::StandardRuntimeError, "disposed context"))
    } else if !delivered {
        Err(raise(RubyClass::StandardRuntimeError, "V8 thread is gone"))
    } else {
        Ok(())
    }
}

/// Marks a context as disposed, and tells whether the engine's thread is to be
/// told: only the first time.
pub fn dispose(disposed: &mut bool) -> (tell: bool)
    ensures
        *final(disposed),
        tell == !*old(disposed),
{
    let tell: bool = !*disposed;
    *disposed = true;
    tell
}

/// An element of what a block returned for a batch.
#[derive(Debug)]
pub enum Element {
    Nil,
    Text(String),
    /// A list, with its first element where that is text.
    List(Option<String>),
    Other,
}

/// The text of an element: a list stands for its first element where a source
/// may come with its cache.
pub open spec fn element_text(e: Element, lists: bool) -> Option<Seq<char>> {
    match e {
        Element::Text(t) => Some(t@),
        Element::List(Some(t)) => if lists {
            Some(t@)
        } else {
            None
        },
        _ => None,
    }
}

fn text_of(e: &Element, lists: bool) -> (r: Option<String>)
    ensures
        opt_views(seq![r])[0] == element_text(*e, lists),
{
    match e {
        Element::Text(t) => Some(t.clone()),
        Element::List(Some(t)) => {
            if lists {
                Some(t.clone())
            } else {
                None
            }
        },
        _ => None,
    }
}

/// The texts for a batch of `count`: what is missing or of another kind is
/// none, and what is too much is left out. `None` where no list was returned.
pub open spec fn batch_texts(ret: Option<Vec<Element>>, count: nat, lists: bool) -> Seq<
    Option<Seq<char>>,
> {
    Seq::new(
        count,
        |i: int|
            match ret {
                Some(v) => if i < v@.len() {
                    element_text(v@[i], lists)
                } else {
                    None
                },
                None => None,
            },
    )
}

/// The texts for a batch: sources where `lists` may stand for their first
/// element, URLs where they may not.
pub fn marshal_batch(ret: Option<Vec<Element>>, count: usize, lists: bool) -> (r: Vec<
    Option<String>,
>)
    ensures
        opt_views(r@) == batch_texts(ret, count as nat, lists),
{
    let mut out: Vec<Option<String>> = Vec::new();
    let mut i: usize = 0;
    let ghost want = batch_texts(ret, count as nat, lists);
    assert(opt_views(out@) =~= want.take(0));
    while i < count
        invariant
            i <= count,
            want == batch_texts(ret, count as nat, lists),
            opt_views(out@) == want.take(i as int),
        decreases count - i,
    {
        let ghost before = out@;
        let item: Option<String> = match &ret {
            Some(v) => {
                if i < v.len() {
                    text_of(&v[i], lists)
                } else {
                    None
                }
            },
            None => None,
        };
        assert(opt_views(seq![item])[0] == want[i as int]);
        out.push(item);
        proof {
            assert(opt_views(before).len() == i);
            let x = opt_views(out@)[i as int];
            assert(want[i as int] == x);
            assert(opt_views(out@) =~= opt_views(before).push(x));
            assert(want.take(i + 1) =~= want.take(i as int).push(want[i as int]));
        }
        i = i + 1;
    }
    assert(want.take(i as int) =~= want);
    out
}

/// Each entry of a batch is answered with the text that stands in its own place:
/// text for itself, a list for its first element where sources are asked for and
/// for nothing where URLs are, and anything else for nothing. A batch of fewer
/// entries is answered with the first of them.
pub proof fn law_batch_is_answered_in_place(
    ret: Vec<Element>,
    count: nat,
    lists: bool,
    i: int,
    fewer: nat,
)
    requires
        0 <= i < count,
        fewer <= count,
    ensures
        ({
            let got = batch_texts(Some(ret), count, lists);
            &&& i >= ret@.len() ==> got[i] is None
            &&& i < ret@.len() ==> match ret@[i] {
                Element::Text(t) => got[i] == Some(t@),
                Element::List(Some(t)) => lists ==> got[i] == Some(t@),
                Element::List(None) => got[i] is None,
                Element::Nil => got[i] is None,
                Element::Other => got[i] is None,
            }
            &&& i < ret@.len() && ret@[i] is List && !lists ==> got[i] is None
            &&& got.take(fewer as int) == batch_texts(Some(ret), fewer, lists)
        }),
{
    assert(batch_texts(Some(ret), count, lists).take(fewer as int) =~= batch_texts(
        Some(ret),
        fewer,
        lists,
    ));
}

/// A batch is answered for each of its entries, whatever the block returned.
pub proof fn law_batch_is_answered_in_full(ret: Option<Vec<Element>>, count: nat, lists: bool)
    ensures
        batch_texts(ret, count, lists).len() == count,
        ret is None ==> forall|i: int|
            0 <= i < count ==> #[trigger] batch_texts(ret, count, lists)[i] is None,
{
}

} // verus!
