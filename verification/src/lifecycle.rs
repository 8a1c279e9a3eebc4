//! Who may use an isolate and when, and what its replies become on the Ruby
//! side.
use crate::errors::{plain, raise, raised, vm_err, Raised, RubyClass, RubyError};
use crate::procs::{
    attached, law_attach_disturbs_nothing, law_function_lives_as_long_as_its_realm,
    law_release_is_exact_and_idempotent, lemma_attached_stays_valid, proc_of, procs_wf, released,
    ProcSlot, ProcTable, Procs,
};
use crate::request::{job, opt_bytes, Comp, Compiled, Job, Outcome, Request, VmReply};
use crate::value::{Fault, JsVal, Val};
use vstd::prelude::*;

verus! {

broadcast use vstd::string::group_string_axioms;

/// The life of an isolate. It belongs to the thread that made it, named here by
/// a number, and operations on it nest.
#[derive(Debug)]
pub struct Lifecycle {
    pub owner: u64,
    pub disposed: bool,
    /// How many operations are on the stack.
    pub depth: u32,
    /// In milliseconds; zero is none.
    pub default_timeout_ms: u64,
}

/// What to do with an isolate whose last handle is gone.
#[derive(Debug, Clone, Copy, PartialEq, Eq, Structural)]
pub enum DropAction {
    /// It was disposed before.
    Nothing,
    /// It can be torn down here.
    TearDown,
    /// It cannot be torn down on this thread: it is leaked and counted, and only
    /// its watchdog is stopped.
    Leak,
}

/// Why an operation may not run on the current thread, if so.
pub open spec fn refusal(l: Lifecycle, thread: u64) -> Option<Raised> {
    if thread != l.owner {
        Some(
            plain(
                RubyClass::WrongThreadError,
                "isolate used from a thread other than the one that created it (an isolate is thread-confined; only #terminate is thread-safe)"@,
            ),
        )
    } else if l.disposed {
        Some(plain(RubyClass::StandardRuntimeError, "disposed context"@))
    } else {
        None
    }
}

/// The isolate while one more operation is on the stack.
pub open spec fn entered(l: Lifecycle) -> Lifecycle {
    Lifecycle { depth: (l.depth + 1) as u32, ..l }
}

/// The isolate once an operation has left the stack. One that gave no reply has
/// left the engine in an unknown state.
pub open spec fn left(l: Lifecycle, replied: bool) -> Lifecycle {
    Lifecycle { depth: (l.depth - 1) as u32, disposed: l.disposed || !replied, ..l }
}

/// What is raised for an operation that gave no reply.
pub open spec fn panicked() -> Raised {
    plain(
        RubyClass::StandardRuntimeError,
        "internal error: operation panicked; the isolate has been disposed"@,
    )
}

/// Why an isolate may not be disposed, if so. Disposing it twice is fine.
pub open spec fn dispose_refusal(l: Lifecycle, thread: u64) -> Option<Raised> {
    if thread != l.owner {
        Some(
            plain(
                RubyClass::WrongThreadError,
                "dispose must run on the isolate's owner thread"@,
            ),
        )
    } else if !l.disposed && l.depth != 0 {
        Some(
            plain(
                RubyClass::StandardRuntimeError,
                "RustyRacer: cannot dispose an isolate from within a running op or host callback"@,
            ),
        )
    } else {
        None
    }
}

/// A live isolate of a thread, with nothing running.
pub open spec fn new_life(owner: u64, default_timeout_ms: u64) -> Lifecycle {
    Lifecycle { owner, disposed: false, depth: 0, default_timeout_ms }
}

/// A new isolate may be used, by the thread that made it and by no other, and
/// disposed; its first operation is the outermost, and it has the timeout that it was
/// made with.
pub proof fn law_new_isolate_belongs_to_its_thread(owner: u64, ms: u64, thread: u64)
    ensures
        ({
            let l = new_life(owner, ms);
            &&& refusal(l, thread) is None <==> thread == owner
            &&& entering(l, owner).1 == Ok::<bool, Raised>(true)
            &&& disposed_by(l, owner).1 == Ok::<bool, Raised>(true)
            &&& dropped_on(l, owner).1 == DropAction::TearDown
            &&& timeout_of(l, 0) == ms
        }),
{
}

/// What beginning an operation comes to, and whether it is the outermost one.
pub open spec fn entering(l: Lifecycle, thread: u64) -> (Lifecycle, Result<bool, Raised>) {
    match refusal(l, thread) {
        Some(why) => (l, Err(why)),
        None => (entered(l), Ok(l.depth == 0)),
    }
}

/// What disposing an isolate comes to, and whether it is to be torn down now.
pub open spec fn disposed_by(l: Lifecycle, thread: u64) -> (Lifecycle, Result<bool, Raised>) {
    match dispose_refusal(l, thread) {
        Some(why) => (l, Err(why)),
        None => (Lifecycle { disposed: true, ..l }, Ok(!l.disposed)),
    }
}

/// What the last handle's end comes to on a thread.
pub open spec fn dropped_on(l: Lifecycle, thread: u64) -> (Lifecycle, DropAction) {
    if l.disposed {
        (l, DropAction::Nothing)
    } else if thread == l.owner {
        (Lifecycle { disposed: true, ..l }, DropAction::TearDown)
    } else {
        (l, DropAction::Leak)
    }
}

/// The timeout of an operation.
pub open spec fn timeout_of(l: Lifecycle, given_ms: u64) -> u64 {
    if given_ms == 0 {
        l.default_timeout_ms
    } else {
        given_ms
    }
}

impl Lifecycle {
    /// A live isolate of a thread, with nothing running.
    pub fn new(owner: u64, default_timeout_ms: u64) -> (r: Lifecycle)
        ensures
            r == new_life(owner, default_timeout_ms),
    {
        Lifecycle { owner, disposed: false, depth: 0, default_timeout_ms }
    }

    /// Refuses an operation from another thread, or on a disposed isolate.
    pub fn ensure_owner_and_live(&self, thread: u64) -> (r: Result<(), RubyError>)
        ensures
            match (r, refusal(*self, thread)) {
                (Ok(_), None) => true,
                (Err(e), Some(want)) => e@ == want,
                _ => false,
            },
    {
        if thread != self.owner {
            return Err(
                raise(
                    RubyClass::WrongThreadError,
                    "isolate used from a thread other than the one that created it (an isolate is thread-confined; only #terminate is thread-safe)",
                ),
            );
        }
        if self.disposed {
            return Err(raise(RubyClass::StandardRuntimeError, "disposed context"));
        }
        Ok(())
    }

    /// Begins an operation and tells whether it is the outermost one.
    pub fn enter(&mut self, thread: u64) -> (r: Result<bool, RubyError>)
        requires
            old(self).depth < u32::MAX,
        ensures
            *final(self) == entering(*old(self), thread).0,
            match (r, entering(*old(self), thread).1) {
                (Ok(outermost), Ok(want)) => outermost == want,
                (Err(e), Err(want)) => e@ == want,
                _ => false,
            },
    {
        match self.ensure_owner_and_live(thread) {
            Err(e) => Err(e),
            Ok(_) => {
                let outermost: bool = self.depth == 0;
                self.depth = self.depth + 1;
                Ok(outermost)
            },
        }
    }

    /// Ends an operation. One that gave no reply has left the engine in an
    /// unknown state, so the isolate counts as disposed from then on.
    pub fn leave(&mut self, reply: Option<VmReply>) -> (r: Result<VmReply, RubyError>)
        requires
            old(self).depth > 0,
        ensures
            *final(self) == left(*old(self), reply is Some),
            match (reply, r) {
                (Some(want), Ok(got)) => got == want,
                (None, Err(e)) => e@ == panicked(),
                _ => false,
            },
    {
        self.depth = self.depth - 1;
        match reply {
            Some(r) => Ok(r),
            None => {
                self.disposed = true;
                Err(
                    raise(
                        RubyClass::StandardRuntimeError,
                        "internal error: operation panicked; the isolate has been disposed",
                    ),
                )
            },
        }
    }

    /// Disposes the isolate, and tells whether it is to be torn down now.
    pub fn dispose(&mut self, thread: u64) -> (r: Result<bool, RubyError>)
        ensures
            *final(self) == disposed_by(*old(self), thread).0,
            match (r, disposed_by(*old(self), thread).1) {
                (Ok(tear_down), Ok(want)) => tear_down == want,
                (Err(e), Err(want)) => e@ == want,
                _ => false,
            },
    {
        if thread != self.owner {
            return Err(
                raise(
                    RubyClass::WrongThreadError,
                    "dispose must run on the isolate's owner thread",
                ),
            );
        }
        if self.disposed {
            return Ok(false);
        }
        if self.depth != 0 {
            return Err(
                raise(
                    RubyClass::StandardRuntimeError,
                    "RustyRacer: cannot dispose an isolate from within a running op or host callback",
                ),
            );
        }
        self.disposed = true;
        Ok(true)
    }

    /// What to do when the last handle of the isolate goes, on some thread.
    pub fn dropped(&mut self, thread: u64) -> (r: DropAction)
        ensures
            (*final(self), r) == dropped_on(*old(self), thread),
    {
        if self.disposed {
            DropAction::Nothing
        } else if thread == self.owner {
            self.disposed = true;
            DropAction::TearDown
        } else {
            DropAction::Leak
        }
    }

    /// The timeout of an operation: its own, or else the isolate's.
    pub fn timeout(&self, given_ms: u64) -> (r: u64)
        ensures
            r == timeout_of(*self, given_ms),
    {
        if given_ms == 0 {
            self.default_timeout_ms
        } else {
            given_ms
        }
    }
}

/// No operation runs in a disposed isolate, while its own thread may dispose it
/// again.
pub proof fn law_disposal_is_final(l: Lifecycle, thread: u64)
    requires
        l.disposed,
    ensures
        refusal(l, thread) is Some,
        thread == l.owner ==> dispose_refusal(l, thread) is None,
{
}

/// An isolate is not disposed under a running operation, and only its own
/// thread may use or dispose it.
pub proof fn law_running_isolate_is_kept(l: Lifecycle, thread: u64)
    ensures
        !l.disposed && l.depth > 0 ==> dispose_refusal(l, thread) is Some,
        thread != l.owner ==> refusal(l, thread) is Some && dispose_refusal(l, thread) is Some,
        thread != l.owner ==> refusal(l, thread)->0.class == RubyClass::WrongThreadError
            && dispose_refusal(l, thread)->0.class == RubyClass::WrongThreadError,
        thread == l.owner ==> (dispose_refusal(l, thread) matches Some(e) ==> e.class
            == RubyClass::StandardRuntimeError),
        thread == l.owner && (l.disposed || l.depth == 0) ==> dispose_refusal(l, thread) is None,
        thread == l.owner && !l.disposed ==> refusal(l, thread) is None,
        refusal(l, thread) matches Some(e) ==> entering(l, thread) == (l, Err::<bool, Raised>(e)),
{
}

/// An isolate is torn down once, by its own thread: whichever way it is told so
/// first, by disposing it or by the end of its last handle, nothing tells so again,
/// and only its own thread is told.
pub proof fn law_isolate_is_torn_down_once(l: Lifecycle, first: u64, second: u64)
    ensures
        ({
            let (a, told) = disposed_by(l, first);
            let (b, action) = dropped_on(l, first);
            &&& told == Ok::<bool, Raised>(true) ==> first == l.owner && !l.disposed && l.depth == 0
            &&& told == Ok::<bool, Raised>(true) ==> disposed_by(a, second).1 != Ok::<bool, Raised>(
                true,
            ) && dropped_on(a, second).1 == DropAction::Nothing
            &&& action == DropAction::TearDown <==> first == l.owner && !l.disposed
            &&& action == DropAction::TearDown ==> disposed_by(b, second).1 != Ok::<bool, Raised>(
                true,
            ) && dropped_on(b, second).1 == DropAction::Nothing
            &&& action == DropAction::Leak ==> b == l
            &&& told is Ok ==> a.disposed && refusal(a, second) is Some
            &&& told is Err ==> a == l
        }),
        l.depth == 0 && !l.disposed ==> disposed_by(l, l.owner).1 == Ok::<bool, Raised>(true),
        l.disposed ==> disposed_by(l, l.owner).1 == Ok::<bool, Raised>(false),
{
}

/// An operation that comes with a timeout has that one, and any other the
/// isolate's.
pub proof fn law_own_timeout_goes_first(l: Lifecycle, given_ms: u64, default_ms: u64)
    ensures
        given_ms > 0 ==> timeout_of(l, given_ms) == given_ms && timeout_of(
            Lifecycle { default_timeout_ms: default_ms, ..l },
            given_ms,
        ) == given_ms,
        timeout_of(l, 0) == l.default_timeout_ms,
{
}

/// An operation that is entered and left leaves the isolate as it was, unless it
/// gave no reply: the isolate is then disposed. Only the first of nested ones is
/// the outermost.
pub proof fn law_leaving_undoes_entering(l: Lifecycle, thread: u64)
    requires
        l.depth < u32::MAX - 1,
        thread == l.owner,
        !l.disposed,
    ensures
        entering(l, thread) == (entered(l), Ok::<bool, Raised>(l.depth == 0)),
        entering(entered(l), thread).1 == Ok::<bool, Raised>(false),
        entered(l).depth == l.depth + 1,
        left(entered(l), true) == l,
        left(entered(l), false) == (Lifecycle { disposed: true, ..l }),
{
}

/// An operation with those that run inside it, from host functions.
pub ghost struct Call {
    pub thread: u64,
    pub nested: Seq<Call>,
    /// Whether it gives a reply; else it panics.
    pub replies: bool,
}

/// What an operation came to.
pub ghost enum Ran {
    /// It gave its reply, and whether it was the outermost.
    Replied { outermost: bool },
    Raised(Raised),
}

/// The isolate after an operation, and what that came to.
pub open spec fn ran(l: Lifecycle, c: Call) -> (Lifecycle, Ran)
    decreases c, 1nat, 0nat,
{
    match refusal(l, c.thread) {
        Some(why) => (l, Ran::Raised(why)),
        None => {
            let inside = ran_nested(entered(l), c, 0);
            (
                left(inside, c.replies),
                if c.replies {
                    Ran::Replied { outermost: l.depth == 0 }
                } else {
                    Ran::Raised(panicked())
                },
            )
        },
    }
}

/// The isolate after the operations inside `c` from number `i` on.
pub open spec fn ran_nested(l: Lifecycle, c: Call, i: nat) -> Lifecycle
    decreases c, 0nat, c.nested.len() - i,
{
    if i >= c.nested.len() {
        l
    } else {
        ran_nested(ran(l, c.nested[i as int]).0, c, i + 1)
    }
}

/// Whether the operations in `c` nest no deeper than `room` says.
pub open spec fn fits_in(c: Call, room: nat) -> bool
    decreases c,
{
    room > 0 && forall|i: int|
        0 <= i < c.nested.len() ==> fits_in(#[trigger] c.nested[i], (room - 1) as nat)
}

proof fn lemma_ran(l: Lifecycle, c: Call)
    requires
        fits_in(c, (u32::MAX - l.depth) as nat),
    ensures
        ({
            let after = ran(l, c).0;
            &&& after.depth == l.depth
            &&& after.owner == l.owner
            &&& after.default_timeout_ms == l.default_timeout_ms
            &&& l.disposed ==> after == l
        }),
    decreases c, 1nat, 0nat,
{
    if refusal(l, c.thread) is None {
        lemma_ran_nested(entered(l), c, 0);
    }
}

proof fn lemma_ran_nested(l: Lifecycle, c: Call, i: nat)
    requires
        l.depth > 0,
        fits_in(c, (u32::MAX - l.depth + 1) as nat),
    ensures
        ({
            let after = ran_nested(l, c, i);
            &&& after.depth == l.depth
            &&& after.owner == l.owner
            &&& after.default_timeout_ms == l.default_timeout_ms
            &&& l.disposed ==> after == l
        }),
    decreases c, 0nat, c.nested.len() - i,
{
    if i < c.nested.len() {
        assert(fits_in(c.nested[i as int], (u32::MAX - l.depth) as nat));
        lemma_ran(l, c.nested[i as int]);
        lemma_ran_nested(ran(l, c.nested[i as int]).0, c, i + 1);
    }
}

/// A whole operation, whatever runs inside it: the depth is as it was. From
/// another thread it raises a wrong-thread error, and else in a disposed isolate
/// that it is disposed, with nothing changed either way. Otherwise it gives its
/// reply, unless it panicked: that raises, and the isolate is disposed.
pub proof fn law_run_brackets_operation(l: Lifecycle, c: Call)
    requires
        fits_in(c, (u32::MAX - l.depth) as nat),
    ensures
        ({
            let (after, came) = ran(l, c);
            &&& after.depth == l.depth
            &&& after.owner == l.owner
            &&& if c.thread != l.owner {
                &&& after == l
                &&& came matches Ran::Raised(e)
                &&& e.class == RubyClass::WrongThreadError
            } else if l.disposed {
                &&& after == l
                &&& came == Ran::Raised(
                    plain(RubyClass::StandardRuntimeError, "disposed context"@),
                )
            } else if c.replies {
                came == (Ran::Replied { outermost: l.depth == 0 })
            } else {
                came == Ran::Raised(panicked()) && after.disposed
            }
        }),
{
    lemma_ran(l, c);
}

/// Once an operation has panicked, every later one raises.
pub proof fn law_panic_ends_the_isolate(l: Lifecycle, c: Call, later: Call)
    requires
        fits_in(c, (u32::MAX - l.depth) as nat),
        refusal(l, c.thread) is None,
        !c.replies,
    ensures
        ran(ran(l, c).0, later).1 is Raised,
        ran(ran(l, c).0, later).0 == ran(l, c).0,
{
    lemma_ran(l, c);
}

/// A handle on something of an isolate.
#[derive(Debug, Clone, Copy, PartialEq, Eq, Structural)]
pub enum Handle {
    Context,
    Module,
    Script,
}

/// What is raised for a handle that is disposed.
pub open spec fn disposed_message(h: Handle) -> Seq<char> {
    match h {
        Handle::Context => "disposed context"@,
        Handle::Module => "disposed module"@,
        Handle::Script => "disposed script"@,
    }
}

/// Why a handle may not be used, if so.
pub open spec fn handle_refusal(h: Handle, disposed: bool, isolate_disposed: bool) -> Option<
    Raised,
> {
    if disposed || isolate_disposed {
        Some(plain(RubyClass::StandardRuntimeError, disposed_message(h)))
    } else {
        None
    }
}

/// A handle is refused where it or its isolate is disposed, and else never; the
/// refusal is the same either way, and tells what kind of handle it is.
pub proof fn law_disposed_handle_is_refused(h: Handle, disposed: bool, isolate_disposed: bool)
    ensures
        handle_refusal(h, disposed, isolate_disposed) is None <==> !disposed && !isolate_disposed,
        handle_refusal(h, true, isolate_disposed) == handle_refusal(h, disposed, true),
        handle_refusal(h, true, isolate_disposed) == Some(
            plain(
                RubyClass::StandardRuntimeError,
                "disposed "@ + match h {
                    Handle::Context => "context"@,
                    Handle::Module => "module"@,
                    Handle::Script => "script"@,
                },
            ),
        ),
{
    reveal_strlit("disposed ");
    reveal_strlit("context");
    reveal_strlit("module");
    reveal_strlit("script");
    reveal_strlit("disposed context");
    reveal_strlit("disposed module");
    reveal_strlit("disposed script");
    assert("disposed context"@ =~= "disposed "@ + "context"@);
    assert("disposed module"@ =~= "disposed "@ + "module"@);
    assert("disposed script"@ =~= "disposed "@ + "script"@);
}

/// Refuses a handle that is disposed, or whose isolate is.
pub fn check_live(h: Handle, disposed: bool, isolate_disposed: bool) -> (r: Result<(), RubyError>)
    ensures
        r is Ok <==> !disposed && !isolate_disposed,
        match (r, handle_refusal(h, disposed, isolate_disposed)) {
            (Ok(_), None) => true,
            (Err(e), Some(want)) => e@ == want,
            _ => false,
        },
{
    if disposed || isolate_disposed {
        let m: &str = match h {
            Handle::Context => "disposed context",
            Handle::Module => "disposed module",
            Handle::Script => "disposed script",
        };
        Err(raise(RubyClass::StandardRuntimeError, m))
    } else {
        Ok(())
    }
}

/// Whether disposing a context's handle has anything to do.
pub open spec fn dispose_due(id: i32, disposed: bool) -> bool {
    id != 0 && !disposed
}

/// Every context but the main one can be disposed, and none twice.
pub proof fn law_context_is_disposed_once(id: i32)
    ensures
        !dispose_due(0, false),
        !dispose_due(id, true),
        id != 0 ==> dispose_due(id, false),
{
}

/// Whether disposing a context's handle has anything to do: the main context
/// lives with its isolate, and a handle is disposed once.
pub fn context_dispose_due(id: i32, disposed: bool) -> (r: bool)
    ensures
        r == dispose_due(id, disposed),
{
    id != 0 && !disposed
}

/// The value of a reply, or what is raised.
pub open spec fn value_of_reply(o: Outcome) -> Result<Val, Raised> {
    match o {
        Outcome::Done(Ok(v)) => Ok(v),
        Outcome::Done(Err(f)) => Err(raised(f)),
        _ => Err(plain(RubyClass::StandardRuntimeError, "internal: unexpected reply kind"@)),
    }
}

/// The value of a reply, or what is raised.
pub fn reply_value(reply: VmReply) -> (r: Result<JsVal, RubyError>)
    ensures
        match (r, value_of_reply(reply@)) {
            (Ok(v), Ok(want)) => v@ == want,
            (Err(e), Err(want)) => e@ == want,
            _ => false,
        },
{
    match reply {
        VmReply::Done(Ok(v)) => Ok(v),
        VmReply::Done(Err(e)) => Err(vm_err(e)),
        _ => Err(raise(RubyClass::StandardRuntimeError, "internal: unexpected reply kind")),
    }
}

/// What a compilation's reply comes to.
pub open spec fn compiled_of_reply(o: Outcome, module: bool) -> Result<Comp, Raised> {
    match o {
        Outcome::ModuleCompiled(r) if module => match r {
            Ok(c) => Ok(c),
            Err(f) => Err(raised(f)),
        },
        Outcome::ScriptCompiled(r) if !module => match r {
            Ok(c) => Ok(c),
            Err(f) => Err(raised(f)),
        },
        _ => Err(plain(RubyClass::StandardRuntimeError, "internal: unexpected compile reply"@)),
    }
}

/// What a compilation's reply comes to, of a module or of a script.
pub fn compiled_from_reply(reply: VmReply, module: bool) -> (r: Result<Compiled, RubyError>)
    ensures
        match (r, compiled_of_reply(reply@, module)) {
            (Ok(c), Ok(want)) => c.id == want.id && opt_bytes(c.cached_data) == want.cached_data
                && c.cache_rejected == want.cache_rejected,
            (Err(e), Err(want)) => e@ == want,
            _ => false,
        },
{
    match reply {
        VmReply::ModuleCompiled(c) => {
            if module {
                match c {
                    Ok(c) => Ok(c),
                    Err(e) => Err(vm_err(e)),
                }
            } else {
                Err(
                    raise(
                        RubyClass::StandardRuntimeError,
                        "internal: unexpected compile reply",
                    ),
                )
            }
        },
        VmReply::ScriptCompiled(c) => {
            if module {
                Err(
                    raise(
                        RubyClass::StandardRuntimeError,
                        "internal: unexpected compile reply",
                    ),
                )
            } else {
                match c {
                    Ok(c) => Ok(c),
                    Err(e) => Err(vm_err(e)),
                }
            }
        },
        _ => Err(raise(RubyClass::StandardRuntimeError, "internal: unexpected compile reply")),
    }
}

/// The bytes of a code cache's reply.
pub open spec fn cache_of_reply(o: Outcome) -> Result<Option<Seq<u8>>, Raised> {
    match o {
        Outcome::CodeCache(Ok(b)) => Ok(b),
        Outcome::CodeCache(Err(f)) => Err(raised(f)),
        _ => Err(plain(RubyClass::StandardRuntimeError, "internal: unexpected code-cache reply"@)),
    }
}

/// The bytes of a code cache's reply.
pub fn code_cache_from_reply(reply: VmReply) -> (r: Result<Option<Vec<u8>>, RubyError>)
    ensures
        match (r, cache_of_reply(reply@)) {
            (Ok(b), Ok(want)) => opt_bytes(b) == want,
            (Err(e), Err(want)) => e@ == want,
            _ => false,
        },
{
    match reply {
        VmReply::CodeCache(Ok(b)) => Ok(b),
        VmReply::CodeCache(Err(e)) => Err(vm_err(e)),
        _ => Err(
            raise(RubyClass::StandardRuntimeError, "internal: unexpected code-cache reply"),
        ),
    }
}

/// A reply of the kind that was asked for is handed on as it is, a value with
/// nothing changed and a failure as what is raised for it. Any other kind of reply
/// is an error and never a value.
pub proof fn law_reply_is_handed_on(
    o: Outcome,
    v: Val,
    c: Comp,
    b: Option<Seq<u8>>,
    f: Fault,
    module: bool,
)
    ensures
        value_of_reply(Outcome::Done(Ok(v))) == Ok::<Val, Raised>(v),
        value_of_reply(Outcome::Done(Err(f))) == Err::<Val, Raised>(raised(f)),
        !(o is Done) ==> (value_of_reply(o) matches Err(e) && e.class
            == RubyClass::StandardRuntimeError),
        compiled_of_reply(Outcome::ModuleCompiled(Ok(c)), true) == Ok::<Comp, Raised>(c),
        compiled_of_reply(Outcome::ScriptCompiled(Ok(c)), false) == Ok::<Comp, Raised>(c),
        compiled_of_reply(Outcome::ModuleCompiled(Err(f)), true) == Err::<Comp, Raised>(raised(f)),
        compiled_of_reply(Outcome::ScriptCompiled(Err(f)), false) == Err::<Comp, Raised>(
            raised(f),
        ),
        !(o is ModuleCompiled && module) && !(o is ScriptCompiled && !module) ==> (
        compiled_of_reply(o, module) matches Err(e) && e.class == RubyClass::StandardRuntimeError),
        cache_of_reply(Outcome::CodeCache(Ok(b))) == Ok::<Option<Seq<u8>>, Raised>(b),
        cache_of_reply(Outcome::CodeCache(Err(f))) == Err::<Option<Seq<u8>>, Raised>(raised(f)),
        !(o is CodeCache) ==> (cache_of_reply(o) matches Err(e) && e.class
            == RubyClass::StandardRuntimeError),
{
}

/// The host functions once a request to end a realm has its reply.
pub open spec fn procs_after_end<P>(t: Procs<P>, context_id: i32, o: Outcome) -> Procs<P> {
    match value_of_reply(o) {
        Ok(_) => released(t, context_id),
        Err(_) => t,
    }
}

/// Where ending a realm failed, every host function stays callable; where it
/// succeeded, exactly those of the realm are gone.
pub proof fn law_only_an_ended_realm_loses_its_functions<P>(
    t: Procs<P>,
    context_id: i32,
    f: Fault,
    v: Val,
    id: int,
)
    requires
        procs_wf(t),
        0 <= id < t.slots.len(),
    ensures
        procs_after_end(t, context_id, Outcome::Done(Err(f))) == t,
        ({
            let after = procs_after_end(t, context_id, Outcome::Done(Ok(v)));
            if t.slots[id].context_id == context_id {
                proc_of(after, id) is None
            } else {
                proc_of(after, id) == proc_of(t, id)
            }
        }),
{
    law_release_is_exact_and_idempotent(t, context_id, id);
}

/// The reply to a reset or a disposal of a realm. Its host functions are
/// released once the realm is gone, and only then: a request that was refused
/// keeps them callable.
pub fn settle_realm_end<P>(procs: &mut ProcTable<P>, context_id: i32, reply: VmReply) -> (r:
    Result<JsVal, RubyError>)
    requires
        procs_wf(old(procs)@),
    ensures
        procs_wf(final(procs)@),
        final(procs)@ == procs_after_end(old(procs)@, context_id, reply@),
        match (r, value_of_reply(reply@)) {
            (Ok(v), Ok(want)) => v@ == want,
            (Err(e), Err(want)) => e@ == want,
            _ => false,
        },
{
    match reply_value(reply) {
        Ok(v) => {
            procs.release(context_id);
            Ok(v)
        },
        Err(e) => Err(e),
    }
}

/// Whether a request is the one that attaches a function.
pub open spec fn is_attach_request(
    r: Request,
    context_id: i32,
    name: Seq<char>,
    id: nat,
    timeout_ms: u64,
) -> bool {
    r matches Request::Attach { context_id: c, name: n, host_fn_id, timeout_ms: t } && c
        == context_id && n@ == name && host_fn_id == id && t == timeout_ms
}

/// Attaching asks for the realm, the name and the timeout that it was called with,
/// and for the id that the function was given.
pub proof fn law_attach_asks_for_its_function(
    r: Request,
    context_id: i32,
    name: Seq<char>,
    id: nat,
    timeout_ms: u64,
)
    requires
        is_attach_request(r, context_id, name, id, timeout_ms),
    ensures
        job(r) == (Job::Run { context: context_id, timeout_ms }),
        r matches Request::Attach { name: n, host_fn_id, .. } && n@ == name && host_fn_id == id,
{
}

/// The request that attaches a host function, once the function has an id.
pub fn attach_request<P>(
    procs: &mut ProcTable<P>,
    context_id: i32,
    name: String,
    proc: P,
    timeout_ms: u64,
) -> (r: Request)
    requires
        procs_wf(old(procs)@),
    ensures
        procs_wf(final(procs)@),
        ({
            let (after, id) = attached(
                old(procs)@,
                ProcSlot { context_id, proc: Some(proc) },
            );
            &&& final(procs)@ == after
            &&& is_attach_request(r, context_id, name@, id, timeout_ms)
        }),
{
    let host_fn_id: usize = procs.allocate(ProcSlot { context_id, proc: Some(proc) });
    Request::Attach { context_id, name, host_fn_id, timeout_ms }
}

/// The table once functions are attached one after the other, and their ids.
pub open spec fn attached_all<P>(t: Procs<P>, context_id: i32, procs: Seq<P>) -> (
    Procs<P>,
    Seq<nat>,
)
    decreases procs.len(),
{
    if procs.len() == 0 {
        (t, Seq::empty())
    } else {
        let (before, ids) = attached_all(t, context_id, procs.drop_last());
        let (after, id) = attached(
            before,
            ProcSlot { context_id, proc: Some(procs.last()) },
        );
        (after, ids.push(id))
    }
}

/// Functions that are attached together are each found under an id of their own,
/// in the order of the entries, and belong to the realm; every function that was
/// there before is where it was.
pub proof fn law_functions_attach_side_by_side<P>(t: Procs<P>, context_id: i32, procs: Seq<P>)
    requires
        procs_wf(t),
        t.slots.len() + procs.len() <= usize::MAX,
    ensures
        ({
            let (after, ids) = attached_all(t, context_id, procs);
            &&& procs_wf(after)
            &&& after.slots.len() <= t.slots.len() + procs.len()
            &&& ids.len() == procs.len()
            &&& ids.no_duplicates()
            &&& forall|i: int|
                0 <= i < ids.len() ==> proc_of(after, #[trigger] ids[i] as int) == Some(procs[i])
                    && after.slots[ids[i] as int].context_id == context_id
            &&& forall|i: int|
                0 <= i < ids.len() ==> proc_of(t, #[trigger] ids[i] as int) is None
            &&& forall|id: int|
                #[trigger] proc_of(t, id) is Some ==> proc_of(after, id) == proc_of(t, id)
        }),
    decreases procs.len(),
{
    if procs.len() > 0 {
        law_functions_attach_side_by_side(t, context_id, procs.drop_last());
        let (before, ids) = attached_all(t, context_id, procs.drop_last());
        let slot = ProcSlot { context_id, proc: Some(procs.last()) };
        let (after, id) = attached(before, slot);
        let all = ids.push(id);
        assert(attached_all(t, context_id, procs) == (after, all));
        lemma_attached_stays_valid(before, slot);
        law_attach_disturbs_nothing(before, slot, 0);
        assert forall|i: int| 0 <= i < all.len() implies proc_of(after, #[trigger] all[i] as int)
            == Some(procs[i]) && after.slots[all[i] as int].context_id == context_id && proc_of(
            t,
            all[i] as int,
        ) is None by {
            if i < ids.len() {
                assert(all[i] == ids[i]);
                assert(proc_of(before, ids[i] as int) == Some(procs[i]));
                law_attach_disturbs_nothing(before, slot, ids[i] as int);
            } else {
                if proc_of(t, id as int) is Some {
                    assert(proc_of(before, id as int) == proc_of(t, id as int));
                }
            }
        }
        assert forall|i: int, j: int| 0 <= i < j < all.len() implies all[i] != all[j] by {
            assert(all[i] == ids[i]);
            assert(proc_of(before, ids[i] as int) is Some);
            if j < ids.len() {
                assert(all[j] == ids[j]);
            }
        }
        assert forall|k: int| #[trigger] proc_of(t, k) is Some implies proc_of(after, k) == proc_of(
            t,
            k,
        ) by {
            assert(proc_of(before, k) == proc_of(t, k));
            law_attach_disturbs_nothing(before, slot, k);
        }
    }
}

/// The functions of entries.
pub open spec fn entry_procs<P>(entries: Seq<(String, P)>) -> Seq<P> {
    entries.map_values(|e: (String, P)| e.1)
}

/// Whether a request is the one that attaches many functions.
pub open spec fn is_attach_many_request<P>(
    r: Request,
    context_id: i32,
    entries: Seq<(String, P)>,
    ids: Seq<nat>,
    timeout_ms: u64,
) -> bool {
    r matches Request::AttachMany { context_id: c, entries: named, timeout_ms: t } && c
        == context_id && t == timeout_ms && named@.len() == entries.len() && forall|i: int|
        0 <= i < named@.len() ==> (#[trigger] named@[i]).0@ == entries[i].0@ && named@[i].1
            == ids[i]
}

/// Attaching many asks for the realm and the timeout that it was called with, and for
/// each entry, in order, under its own name and with the id of its own function.
pub proof fn law_attach_many_asks_for_each<P>(
    t: Procs<P>,
    r: Request,
    context_id: i32,
    entries: Seq<(String, P)>,
    timeout_ms: u64,
    i: int,
)
    requires
        procs_wf(t),
        t.slots.len() + entries.len() <= usize::MAX,
        is_attach_many_request(
            r,
            context_id,
            entries,
            attached_all(t, context_id, entry_procs(entries)).1,
            timeout_ms,
        ),
        0 <= i < entries.len(),
    ensures
        job(r) == (Job::Run { context: context_id, timeout_ms }),
        r matches Request::AttachMany { entries: named, .. } && named@.len() == entries.len()
            && named@[i].0@ == entries[i].0@ && proc_of(
            attached_all(t, context_id, entry_procs(entries)).0,
            named@[i].1 as int,
        ) == Some(entries[i].1),
{
    law_functions_attach_side_by_side(t, context_id, entry_procs(entries));
    let ids = attached_all(t, context_id, entry_procs(entries)).1;
    let named = r->AttachMany_entries;
    assert(named@[i].1 == ids[i]);
    assert(entry_procs(entries)[i] == entries[i].1);
}

/// The request that attaches many host functions, once each has an id; none
/// where there is nothing to attach.
pub fn attach_many_request<P>(
    procs: &mut ProcTable<P>,
    context_id: i32,
    entries: Vec<(String, P)>,
    timeout_ms: u64,
) -> (r: Option<Request>)
    requires
        procs_wf(old(procs)@),
    ensures
        procs_wf(final(procs)@),
        entries@.len() == 0 ==> r is None && final(procs)@ == old(procs)@,
        entries@.len() > 0 ==> {
            let (after, ids) = attached_all(old(procs)@, context_id, entry_procs(entries@));
            &&& final(procs)@ == after
            &&& r is Some
            &&& is_attach_many_request(r->0, context_id, entries@, ids, timeout_ms)
        },
{
    if entries.len() == 0 {
        return None;
    }
    let ghost all = entries@;
    let ghost ps = entry_procs(all);
    let mut named: Vec<(String, usize)> = Vec::new();
    assert(ps.take(0) =~= Seq::empty());
    for e in iter: entries
        invariant
            procs_wf(procs@),
            iter.seq() == all,
            ps == entry_procs(all),
            named@.len() == iter.index(),
            procs@ == attached_all(old(procs)@, context_id, ps.take(iter.index())).0,
            attached_all(old(procs)@, context_id, ps.take(iter.index())).1.len() == iter.index(),
            forall|i: int|
                0 <= i < named@.len() ==> (#[trigger] named@[i]).0@ == all[i].0@ && named@[i].1
                    == attached_all(old(procs)@, context_id, ps.take(iter.index())).1[i],
    {
        let ghost k = iter.index();
        let ghost next = ps.take(k + 1);
        assert(next.drop_last() =~= ps.take(k));
        assert(next.last() == e.1);
        let (name, proc) = e;
        let id: usize = procs.allocate(ProcSlot { context_id, proc: Some(proc) });
        named.push((name, id));
    }
    assert(ps.take(all.len() as int) =~= ps);
    Some(Request::AttachMany { context_id, entries: named, timeout_ms })
}

/// What is raised for a call without a function's name.
pub fn call_without_name() -> (r: RubyError)
    ensures
        r@ == plain(RubyClass::ArgumentError, "call requires a function name"@),
{
    raise(RubyClass::ArgumentError, "call requires a function name")
}

/// The function behind a host function id, or what is thrown in JavaScript.
pub open spec fn function_of<P>(t: Procs<P>, host_fn_id: int) -> Result<P, Seq<char>> {
    match proc_of(t, host_fn_id) {
        Some(p) => Ok(p),
        None => Err("unknown host function"@),
    }
}

/// A function that was attached is the one that its id calls, until its realm ends;
/// an id that nothing is attached under calls nothing and throws.
pub proof fn law_attached_function_is_called<P>(t: Procs<P>, context_id: i32, proc: P, other: int)
    requires
        procs_wf(t),
        t.slots.len() < usize::MAX,
    ensures
        ({
            let (after, id) = attached(t, ProcSlot { context_id, proc: Some(proc) });
            &&& function_of(after, id as int) == Ok::<P, Seq<char>>(proc)
            &&& function_of(released(after, context_id), id as int) is Err
            &&& other != id ==> function_of(after, other) == function_of(t, other)
        }),
        other < 0 || other >= t.slots.len() ==> function_of(t, other) == Err::<P, Seq<char>>(
            "unknown host function"@,
        ),
{
    let slot = ProcSlot { context_id, proc: Some(proc) };
    law_attach_disturbs_nothing(t, slot, other);
    law_function_lives_as_long_as_its_realm(t, slot, context_id);
}

/// The function behind a host function id, or what is thrown in JavaScript.
pub fn host_function<P>(procs: &ProcTable<P>, host_fn_id: usize) -> (r: Result<&P, String>)
    ensures
        match (r, function_of(procs@, host_fn_id as int)) {
            (Ok(p), Ok(want)) => *p == want,
            (Err(m), Err(want)) => m@ == want,
            _ => false,
        },
{
    match procs.get(host_fn_id) {
        Some(p) => Ok(p),
        None => Err("unknown host function".to_string()),
    }
}

/// What a host function's call comes to in JavaScript, as mathematical values.
pub open spec fn host_outcome(guarded: Result<Option<Result<JsVal, String>>, String>) -> Result<
    Val,
    Seq<char>,
> {
    match guarded {
        Ok(Some(Ok(v))) => Ok(v@),
        Ok(Some(Err(m))) => Err(m@),
        Ok(None) => Err("host function did not complete"@),
        Err(m) => Err(m@),
    }
}

/// A host function gives JavaScript exactly what it returned, and throws exactly
/// what it raised or what the guard caught. It returns a value only where it gave
/// one.
pub proof fn law_host_result_is_what_was_given(v: JsVal, m: String)
    ensures
        host_outcome(Ok(Some(Ok(v)))) == Ok::<Val, Seq<char>>(v@),
        host_outcome(Ok(Some(Err(m)))) == Err::<Val, Seq<char>>(m@),
        host_outcome(Err(m)) == Err::<Val, Seq<char>>(m@),
        host_outcome(Ok(None)) is Err,
{
}

/// What a host function's call comes to in JavaScript. The call is guarded: what
/// the guard caught is thrown, and so is a call that did not complete.
pub fn host_result(guarded: Result<Option<Result<JsVal, String>>, String>) -> (r: Result<
    JsVal,
    String,
>)
    ensures
        match (r, host_outcome(guarded)) {
            (Ok(w), Ok(want)) => w@ == want,
            (Err(t), Err(want)) => t@ == want,
            _ => false,
        },
{
    match guarded {
        Ok(Some(Ok(v))) => Ok(v),
        Ok(Some(Err(m))) => Err(m),
        Ok(None) => Err("host function did not complete".to_string()),
        Err(m) => Err(m),
    }
}

/// The resolver of the linking at hand, and what it raised. `R` is the
/// resolver and `E` an exception.
pub struct ResolverSlot<R, E> {
    pub resolver: Option<R>,
    pub raised: Option<E>,
}

/// The slot with a resolver in place, and what was there.
pub open spec fn parked<R, E>(slot: ResolverSlot<R, E>, resolver: R) -> (
    ResolverSlot<R, E>,
    ResolverSlot<R, E>,
) {
    (ResolverSlot { resolver: Some(resolver), raised: None }, slot)
}

/// The slot with what was there put back, and what the resolver in place raised.
pub open spec fn restored<R, E>(slot: ResolverSlot<R, E>, saved: ResolverSlot<R, E>) -> (
    ResolverSlot<R, E>,
    Option<E>,
) {
    (saved, slot.raised)
}

/// Linkings may nest: whatever the inner one's resolver raised, the outer one's
/// resolver and what it raised before are back when the inner one is over. Each is
/// told of its own exception alone.
pub proof fn law_parked_resolver_comes_back<R, E>(
    slot: ResolverSlot<R, E>,
    resolver: R,
    raised: Option<E>,
)
    ensures
        ({
            let (inner, saved) = parked(slot, resolver);
            let (after, told) = restored(ResolverSlot { raised, ..inner }, saved);
            &&& inner.resolver == Some(resolver)
            &&& inner.raised is None
            &&& after == slot
            &&& told == raised
        }),
{
}

impl<R, E> ResolverSlot<R, E> {
    /// Puts a resolver in place and gives what was there, to be put back.
    pub fn park(&mut self, resolver: R) -> (saved: ResolverSlot<R, E>)
        ensures
            (*final(self), saved) == parked(*old(self), resolver),
    {
        let mut saved = ResolverSlot { resolver: Some(resolver), raised: None };
        std::mem::swap(&mut saved, self);
        saved
    }

    /// Puts back what was there and gives what the resolver in place raised.
    pub fn restore(&mut self, saved: ResolverSlot<R, E>) -> (raised: Option<E>)
        ensures
            (*final(self), raised) == restored(*old(self), saved),
    {
        let mut saved = saved;
        std::mem::swap(&mut saved, self);
        saved.raised
    }
}

} // verus!
