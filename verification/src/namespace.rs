//! The host namespace of a realm, and the events that it can be told of.
use crate::registry::{context_of, Iso, IsolateState};
use crate::text::{push_signed_decimal, signed_decimal};
use vstd::prelude::*;

verus! {

broadcast use vstd::string::group_string_axioms;

/// A function of the host namespace.
#[derive(Debug, Clone, Copy, PartialEq, Eq, Structural)]
pub enum Member {
    DrainMicrotasks,
    ContextGlobal,
    ContextOf,
    SetPromiseRejectHandler,
}

/// The functions in the order in which they are installed.
pub open spec fn members() -> Seq<Member> {
    seq![
        Member::DrainMicrotasks,
        Member::ContextGlobal,
        Member::ContextOf,
        Member::SetPromiseRejectHandler,
    ]
}

/// The functions of the host namespace.
pub fn namespace_members() -> (r: Vec<Member>)
    ensures
        r@ == members(),
{
    let mut v: Vec<Member> = Vec::new();
    v.push(Member::DrainMicrotasks);
    v.push(Member::ContextGlobal);
    v.push(Member::ContextOf);
    v.push(Member::SetPromiseRejectHandler);
    assert(v@ =~= members());
    v
}

/// The name of a function of the host namespace.
pub open spec fn name_of(m: Member) -> Seq<char> {
    match m {
        Member::DrainMicrotasks => "drainMicrotasks"@,
        Member::ContextGlobal => "contextGlobal"@,
        Member::ContextOf => "contextOf"@,
        Member::SetPromiseRejectHandler => "setPromiseRejectHandler"@,
    }
}

/// Every function of the namespace is installed, each once and under a name of its
/// own.
pub proof fn law_members_are_installed_once(a: Member, b: Member)
    ensures
        members().contains(a),
        members().no_duplicates(),
        name_of(a) == name_of(b) ==> a == b,
        name_of(a).len() > 0,
{
    assert(members()[0] == Member::DrainMicrotasks);
    assert(members()[1] == Member::ContextGlobal);
    assert(members()[2] == Member::ContextOf);
    assert(members()[3] == Member::SetPromiseRejectHandler);
    reveal_strlit("drainMicrotasks");
    reveal_strlit("contextGlobal");
    reveal_strlit("contextOf");
    reveal_strlit("setPromiseRejectHandler");
    assert("drainMicrotasks"@.len() == 15 && "contextGlobal"@.len() == 13);
    assert("contextOf"@.len() == 9 && "setPromiseRejectHandler"@.len() == 23);
}

/// The name of a function of the host namespace.
pub fn member_name(m: Member) -> (r: &'static str)
    ensures
        r@ == name_of(m),
{
    match m {
        Member::DrainMicrotasks => "drainMicrotasks",
        Member::ContextGlobal => "contextGlobal",
        Member::ContextOf => "contextOf",
        Member::SetPromiseRejectHandler => "setPromiseRejectHandler",
    }
}

/// The realm whose global object is asked for, or what is thrown.
pub open spec fn global_of<C, M, S, F>(s: Iso<C, M, S, F>, id: Option<i32>) -> Result<C, Seq<char>> {
    match id {
        None => Err("contextGlobal expects a context id"@),
        Some(i) => match context_of(s, i) {
            Some(c) => Ok(c),
            None => Err("unknown context "@ + signed_decimal(i as int)),
        },
    }
}

/// The global object of exactly the realm with the given id is found; an id that
/// names none is told by its number, and what is no id is refused.
pub proof fn law_global_is_found_by_id<C, M, S, F>(s: Iso<C, M, S, F>, id: i32, c: C)
    ensures
        global_of(s, Some(id)) == Ok::<C, Seq<char>>(c) <==> context_of(s, id) == Some(c),
        context_of(s, id) is None ==> (global_of(s, Some(id)) matches Err(m) && m
            == "unknown context "@ + signed_decimal(id as int)),
        global_of(s, None) is Err,
{
}

/// The realm whose global object is asked for, or what is thrown. `id` is
/// `None` where the argument is no number.
pub fn context_global<C, M, S, F>(state: &IsolateState<C, M, S, F>, id: Option<i32>) -> (r: Result<
    &C,
    String,
>)
    ensures
        match (r, global_of(state@, id)) {
            (Ok(c), Ok(want)) => *c == want,
            (Err(m), Err(want)) => m@ == want,
            _ => false,
        },
{
    match id {
        None => Err("contextGlobal expects a context id".to_string()),
        Some(i) => match state.context_for(i) {
            Some(c) => Ok(c),
            None => {
                let mut m = "unknown context ".to_string();
                push_signed_decimal(&mut m, i as i64);
                Err(m)
            },
        },
    }
}

/// What the engine tells of a promise.
#[derive(Debug, Clone, Copy, PartialEq, Eq, Structural)]
pub enum RejectEvent {
    RejectWithNoHandler,
    HandlerAddedAfterReject,
    RejectAfterResolved,
    ResolveAfterResolved,
}

/// The number under which the recorder is told of an event.
pub open spec fn code_of(e: RejectEvent) -> int {
    match e {
        RejectEvent::RejectWithNoHandler => 0,
        RejectEvent::HandlerAddedAfterReject => 1,
        RejectEvent::RejectAfterResolved => 2,
        RejectEvent::ResolveAfterResolved => 3,
    }
}

/// The numbers tell the events apart and are the engine's own: they count up from
/// zero, in the order in which a promise can come to them.
pub proof fn law_events_are_told_apart(a: RejectEvent, b: RejectEvent)
    ensures
        code_of(a) == code_of(b) ==> a == b,
        0 <= code_of(a) < 4,
        code_of(RejectEvent::RejectWithNoHandler) < code_of(RejectEvent::HandlerAddedAfterReject)
            < code_of(RejectEvent::RejectAfterResolved) < code_of(
            RejectEvent::ResolveAfterResolved,
        ),
{
}

/// The number under which the recorder is told of an event.
pub fn reject_event_code(e: RejectEvent) -> (r: i32)
    ensures
        r == code_of(e),
{
    match e {
        RejectEvent::RejectWithNoHandler => 0,
        RejectEvent::HandlerAddedAfterReject => 1,
        RejectEvent::RejectAfterResolved => 2,
        RejectEvent::ResolveAfterResolved => 3,
    }
}

/// What registering a recorder stores.
pub open spec fn recorded<F>(function: Option<F>, realm: Option<i32>) -> Option<(i32, F)> {
    match function {
        Some(f) => Some(
            (
                match realm {
                    Some(i) => i,
                    None => 0,
                },
                f,
            ),
        ),
        None => None,
    }
}

/// A function is recorded as it is, with its own realm, so that it goes with that
/// realm and no other; what is no function clears the recorder whatever realm it is
/// from.
pub proof fn law_recorder_belongs_to_its_realm<F>(f: F, id: i32, realm: Option<i32>)
    ensures
        recorded(Some(f), Some(id)) == Some((id, f)),
        recorded(Some(f), None) == Some((0i32, f)),
        recorded(None::<F>, realm) is None,
{
}

/// What registering a recorder stores: a function with the realm it is from,
/// the main one where that is unknown. Anything else clears the recorder.
pub fn recorder<F>(function: Option<F>, realm: Option<i32>) -> (r: Option<(i32, F)>)
    ensures
        r == recorded(function, realm),
{
    match function {
        Some(f) => match realm {
            Some(i) => Some((i, f)),
            None => Some((0, f)),
        },
        None => None,
    }
}

/// The token once a realm has brought one.
pub open spec fn adopted<T>(held: Option<T>, token: T) -> Option<T> {
    match held {
        Some(t) => Some(t),
        None => Some(token),
    }
}

/// The first token that is brought is the one of every realm from then on.
pub proof fn law_first_token_is_shared<T>(first: T, later: T)
    ensures
        adopted(None, first) == Some(first),
        adopted(adopted(None, first), later) == Some(first),
{
}

/// The security token that all realms of an isolate share: they are of one
/// origin, and each may reach the others' globals.
pub struct RealmToken<T> {
    token: Option<T>,
}

impl<T> RealmToken<T> {
    pub closed spec fn view(&self) -> Option<T> {
        self.token
    }

    /// No realm was made yet.
    pub fn new() -> (r: RealmToken<T>)
        ensures
            r@ is None,
    {
        RealmToken { token: None }
    }

    /// The token, once the first realm has brought one.
    pub fn get(&self) -> (r: Option<&T>)
        ensures
            match (r, self@) {
                (Some(t), Some(want)) => *t == want,
                (None, None) => true,
                _ => false,
            },
    {
        match &self.token {
            Some(t) => Some(t),
            None => None,
        }
    }

    /// Takes the first realm's token; one that is there stays, so realms made
    /// later, and those that a reset swaps in, share it.
    pub fn adopt(&mut self, token: T)
        ensures
            final(self)@ == adopted(old(self)@, token),
    {
        match &self.token {
            Some(_) => {},
            None => {
                self.token = Some(token);
            },
        }
    }
}

} // verus!
