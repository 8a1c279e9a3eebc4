//! Dotted property paths: calling the function at one, and attaching host
//! functions at some.
use crate::failures::{run_failure, run_fault, text_or, Thrown};
use crate::text::{split, split_on, views};
use crate::value::{outcome, Fault, JsVal, Val, VmError};
use vstd::prelude::*;

verus! {

broadcast use vstd::string::group_string_axioms;

/// What is to be done next to call the function at a path.
#[derive(Debug)]
pub enum CallAction {
    /// Read a property of the target, which begins as the global object. The
    /// target becomes the receiver and what was read becomes the target.
    Read(String),
    /// Call the target with the receiver; its result is read only if asked for.
    Call { read_result: bool },
    Done(Result<JsVal, VmError>),
}

/// The answer to a `CallAction`.
#[derive(Debug)]
pub enum CallEvent {
    Read,
    /// The target is no object.
    NotObject,
    /// The property's name is too large for the engine.
    KeyTooLarge,
    /// Reading gave nothing.
    Unreadable { terminated: bool, exception: Option<String> },
    /// The target is no function.
    NotFunction,
    /// What the call returned, where it was to be read.
    Returned(JsVal),
    /// The call gave nothing.
    Failed { terminated: bool, thrown: Thrown },
}

/// The mathematical value of a `CallAction`.
pub ghost enum CallAct {
    Read(Seq<char>),
    Call { read_result: bool },
    Done(Result<Val, Fault>),
}

impl View for CallAction {
    type V = CallAct;

    open spec fn view(&self) -> CallAct {
        match self {
            CallAction::Read(p) => CallAct::Read(p@),
            CallAction::Call { read_result } => CallAct::Call { read_result: *read_result },
            CallAction::Done(r) => CallAct::Done(outcome(*r)),
        }
    }
}

/// A call on its way along a path.
pub struct CallPath {
    name: String,
    parts: Vec<String>,
    next: usize,
    void: bool,
}

/// The mathematical value of a `CallPath`: how many parts were read.
pub ghost struct Calling {
    pub name: Seq<char>,
    pub read: nat,
    pub void: bool,
}

impl View for CallPath {
    type V = Calling;

    closed spec fn view(&self) -> Calling {
        Calling { name: self.name@, read: self.next as nat, void: self.void }
    }
}

/// The parts of a path.
pub open spec fn parts(name: Seq<char>) -> Seq<Seq<char>> {
    split(name, '.')
}

/// What comes next on the way.
pub open spec fn call_next(c: Calling) -> CallAct {
    if c.read < parts(c.name).len() {
        CallAct::Read(parts(c.name)[c.read as int])
    } else {
        CallAct::Call { read_result: !c.void }
    }
}

/// A call at its beginning.
pub open spec fn call_begun(name: Seq<char>, void: bool) -> (Calling, CallAct) {
    let c = Calling { name, read: 0, void };
    (c, call_next(c))
}

/// One step on the way.
pub open spec fn call_step(c: Calling, e: CallEvent) -> (Calling, CallAct) {
    let part = parts(c.name)[c.read as int];
    match e {
        CallEvent::Read => {
            let d = Calling { read: c.read + 1, ..c };
            (d, call_next(d))
        },
        CallEvent::NotObject => (
            c,
            CallAct::Done(
                Err(
                    Fault::Runtime(
                        "`"@ + c.name + "`: cannot read `"@ + part
                            + "` (a preceding path segment is not an object)"@,
                    ),
                ),
            ),
        ),
        CallEvent::KeyTooLarge => (
            c,
            CallAct::Done(Err(Fault::Runtime("property name too large"@))),
        ),
        CallEvent::Unreadable { terminated, exception } => (
            c,
            CallAct::Done(
                Err(
                    if terminated {
                        Fault::Terminated
                    } else {
                        Fault::Runtime(
                            text_or(
                                exception,
                                "cannot read `"@ + part + "` of `"@ + c.name + "`"@,
                            ),
                        )
                    },
                ),
            ),
        ),
        CallEvent::NotFunction => (
            c,
            CallAct::Done(Err(Fault::Runtime("`"@ + c.name + "` is not a function"@))),
        ),
        CallEvent::Returned(v) => (
            c,
            CallAct::Done(
                Ok(
                    if c.void {
                        Val::Undefined
                    } else {
                        v@
                    },
                ),
            ),
        ),
        CallEvent::Failed { terminated, thrown } => (
            c,
            CallAct::Done(Err(run_fault(terminated, thrown))),
        ),
    }
}

/// Whether an answer is one to what was asked.
pub open spec fn call_fits(c: Calling, e: CallEvent) -> bool {
    let reading = e is Read || e is NotObject || e is KeyTooLarge || e is Unreadable;
    reading <==> c.read < parts(c.name).len()
}

impl CallPath {
    pub closed spec fn wf(self) -> bool {
        &&& views(self.parts@) == parts(self.name@)
        &&& self.next <= self.parts@.len()
    }

    fn next_action(&self) -> (r: CallAction)
        requires
            self.wf(),
        ensures
            r@ == call_next(self@),
    {
        if self.next < self.parts.len() {
            assert(views(self.parts@)[self.next as int] == self.parts@[self.next as int]@);
            CallAction::Read(self.parts[self.next].clone())
        } else {
            CallAction::Call { read_result: !self.void }
        }
    }

    /// Begins a call. With `void` its result is not read.
    pub fn start(name: &str, void: bool) -> (r: (CallPath, CallAction))
        ensures
            r.0.wf(),
            (r.0@, r.1@) == call_begun(name@, void),
    {
        let p = CallPath {
            name: name.to_string(),
            parts: split_on(name, '.'),
            next: 0,
            void,
        };
        let a = p.next_action();
        (p, a)
    }

    /// Takes the answer to the last action and gives the next one.
    pub fn step(&mut self, e: CallEvent) -> (r: CallAction)
        requires
            old(self).wf(),
            call_fits(old(self)@, e),
        ensures
            final(self).wf(),
            (final(self)@, r@) == call_step(old(self)@, e),
    {
        let ghost part = parts(self.name@)[self.next as int];
        assert(self.next < self.parts@.len() ==> views(self.parts@)[self.next as int]
            == self.parts@[self.next as int]@);
        match e {
            CallEvent::Read => {
                let count: usize = self.parts.len();
                assert(self.next < count);
                self.next = self.next + 1;
                self.next_action()
            },
            CallEvent::NotObject => {
                let mut m = "`".to_string();
                m.append(self.name.as_str());
                m.append("`: cannot read `");
                m.append(self.parts[self.next].as_str());
                m.append("` (a preceding path segment is not an object)");
                CallAction::Done(Err(VmError::Runtime(m)))
            },
            CallEvent::KeyTooLarge => CallAction::Done(
                Err(VmError::Runtime("property name too large".to_string())),
            ),
            CallEvent::Unreadable { terminated, exception } => {
                if terminated {
                    return CallAction::Done(Err(VmError::Terminated));
                }
                let m: String = match exception {
                    Some(t) => t,
                    None => {
                        let mut d = "cannot read `".to_string();
                        d.append(self.parts[self.next].as_str());
                        d.append("` of `");
                        d.append(self.name.as_str());
                        d.append("`");
                        d
                    },
                };
                CallAction::Done(Err(VmError::Runtime(m)))
            },
            CallEvent::NotFunction => {
                let mut m = "`".to_string();
                m.append(self.name.as_str());
                m.append("` is not a function");
                CallAction::Done(Err(VmError::Runtime(m)))
            },
            CallEvent::Returned(v) => {
                if self.void {
                    CallAction::Done(Ok(JsVal::Undefined))
                } else {
                    CallAction::Done(Ok(v))
                }
            },
            CallEvent::Failed { terminated, thrown } => CallAction::Done(
                Err(run_failure(terminated, thrown)),
            ),
        }
    }
}

/// A call is replied with what the function returned, whatever the name and
/// however many parts it has; nothing stands for it only where the call is void.
pub proof fn law_call_gives_what_was_returned(c: Calling, v: JsVal)
    ensures
        !c.void ==> call_step(c, CallEvent::Returned(v)).1 == CallAct::Done(Ok(v@)),
        c.void ==> call_step(c, CallEvent::Returned(v)).1 == CallAct::Done(Ok(Val::Undefined)),
{
}

/// Two calls under one name that differ only in whether the result is read go the
/// same way up to the result: the same parts are read and the same failures told.
pub proof fn law_void_hides_only_the_result(c: Calling, e: CallEvent)
    ensures
        ({
            let d = Calling { void: !c.void, ..c };
            &&& !(e is Returned) && !(e is Read) ==> call_step(d, e).1 == call_step(c, e).1
            &&& call_step(d, e).0 == (Calling { void: !c.void, ..call_step(c, e).0 })
            &&& c.read < parts(c.name).len() ==> call_next(d) == call_next(c)
            &&& c.read >= parts(c.name).len() ==> call_next(c) == (CallAct::Call {
                read_result: !c.void,
            })
        }),
{
}

/// The parts of a path are read one by one from the first, none twice and none
/// left out, and the call follows the last.
pub proof fn law_call_reads_each_part_in_turn(c: Calling)
    requires
        c.read < parts(c.name).len(),
    ensures
        ({
            let (d, a) = call_step(c, CallEvent::Read);
            &&& call_next(c) == CallAct::Read(parts(c.name)[c.read as int])
            &&& (d.name, d.void, d.read) == (c.name, c.void, c.read + 1)
            &&& c.read + 1 < parts(c.name).len() ==> a == CallAct::Read(
                parts(c.name)[c.read as int + 1],
            )
            &&& c.read + 1 == parts(c.name).len() ==> a is Call
        }),
{
}

/// The call after its first `n` parts were read.
pub open spec fn call_after(name: Seq<char>, void: bool, n: nat) -> (Calling, CallAct)
    decreases n,
{
    if n == 0 {
        call_begun(name, void)
    } else {
        call_step(call_after(name, void, (n - 1) as nat).0, CallEvent::Read)
    }
}

/// A whole call reads the parts of its name from the first to the last, and calls
/// what it has come to; a result is read unless the call is void.
pub proof fn law_whole_call_follows_its_path(name: Seq<char>, void: bool, n: nat)
    requires
        n <= parts(name).len(),
    ensures
        ({
            let (c, a) = call_after(name, void, n);
            &&& c == (Calling { name, read: n, void })
            &&& n < parts(name).len() ==> a == CallAct::Read(parts(name)[n as int])
            &&& n == parts(name).len() ==> a == (CallAct::Call { read_result: !void })
        }),
    decreases n,
{
    if n > 0 {
        law_whole_call_follows_its_path(name, void, (n - 1) as nat);
    }
}

/// A call that fails ends with a failure that says why: what is no object or no
/// function is told with the path, an exception with its own text, and a
/// termination as one, whatever else is known.
pub proof fn law_call_failure_says_why(
    c: Calling,
    exception: Option<String>,
    thrown: Thrown,
    terminated: bool,
)
    ensures
        ({
            let part = parts(c.name)[c.read as int];
            let fails = |e: CallEvent, f: Fault| call_step(c, e).1 == CallAct::Done(Err(f));
            &&& fails(
                CallEvent::NotObject,
                Fault::Runtime(
                    "`"@ + c.name + "`: cannot read `"@ + part
                        + "` (a preceding path segment is not an object)"@,
                ),
            )
            &&& fails(CallEvent::KeyTooLarge, Fault::Runtime("property name too large"@))
            &&& fails(
                CallEvent::NotFunction,
                Fault::Runtime("`"@ + c.name + "` is not a function"@),
            )
            &&& fails(
                CallEvent::Unreadable { terminated: true, exception },
                Fault::Terminated,
            )
            &&& exception matches Some(text) ==> fails(
                CallEvent::Unreadable { terminated: false, exception },
                Fault::Runtime(text@),
            )
            &&& exception is None ==> fails(
                CallEvent::Unreadable { terminated: false, exception },
                Fault::Runtime("cannot read `"@ + part + "` of `"@ + c.name + "`"@),
            )
            &&& fails(CallEvent::Failed { terminated: true, thrown }, Fault::Terminated)
            &&& thrown.exception matches Some(text) ==> (call_step(
                c,
                CallEvent::Failed { terminated: false, thrown },
            ).1 matches CallAct::Done(Err(Fault::JsError { message, .. })) && message == text@)
        }),
{
}

/// What is to be done next to attach host functions.
#[derive(Debug)]
pub enum AttachAction {
    /// Make the function of an entry, and begin again at the global object.
    Build(usize),
    /// Go from the holder to its property, making an object where there is none.
    Enter(String),
    /// Store the function as a property of the holder.
    Store(String),
    Done(Result<JsVal, VmError>),
}

/// The answer to an `AttachAction`.
#[derive(Debug, Clone, Copy, PartialEq, Eq, Structural)]
pub enum AttachEvent {
    /// It is done: the function is made, the property is the holder, the
    /// function is stored.
    Ready,
    /// The property's name is too large for the engine.
    KeyTooLarge,
    /// The property is there and is no object.
    Occupied,
    /// The function could not be made, the object not be set, or the function
    /// not be stored.
    Refused,
}

/// The mathematical value of an `AttachAction`.
pub ghost enum AttachAct {
    Build(nat),
    Enter(Seq<char>),
    Store(Seq<char>),
    Done(Result<Val, Fault>),
}

impl View for AttachAction {
    type V = AttachAct;

    open spec fn view(&self) -> AttachAct {
        match self {
            AttachAction::Build(i) => AttachAct::Build(*i as nat),
            AttachAction::Enter(p) => AttachAct::Enter(p@),
            AttachAction::Store(p) => AttachAct::Store(p@),
            AttachAction::Done(r) => AttachAct::Done(outcome(*r)),
        }
    }
}

/// Host functions being attached, one after the other.
pub struct AttachPaths {
    names: Vec<String>,
    many: bool,
    entry: usize,
    parts: Vec<String>,
    next: usize,
    building: bool,
}

/// The mathematical value of an `AttachPaths`.
pub ghost struct Attaching {
    pub names: Seq<Seq<char>>,
    /// Whether it is a batch: a failure then names its entry.
    pub many: bool,
    /// The entry at hand.
    pub entry: nat,
    /// Whether its function is being made.
    pub building: bool,
    /// How many parts of its path were entered.
    pub entered: nat,
}

impl View for AttachPaths {
    type V = Attaching;

    closed spec fn view(&self) -> Attaching {
        Attaching {
            names: views(self.names@),
            many: self.many,
            entry: self.entry as nat,
            building: self.building,
            entered: self.next as nat,
        }
    }
}

/// The failure of attaching, with its text.
pub open spec fn attach_failed(message: Seq<char>) -> AttachAct {
    AttachAct::Done(Err(Fault::Runtime(message)))
}

/// The next entry, or the end.
pub open spec fn attach_entry(a: Attaching) -> (Attaching, AttachAct) {
    if a.entry < a.names.len() {
        (Attaching { building: true, entered: 0, ..a }, AttachAct::Build(a.entry))
    } else {
        (a, AttachAct::Done(Ok(Val::Undefined)))
    }
}

/// Attaching at its beginning.
pub open spec fn attach_begun(names: Seq<Seq<char>>, many: bool) -> (Attaching, AttachAct) {
    attach_entry(Attaching { names, many, entry: 0, building: false, entered: 0 })
}

/// The next part of the path: all but the last are entered. No part may be
/// empty; an empty last one is refused before anything is entered.
pub open spec fn attach_part(a: Attaching) -> AttachAct {
    let name = a.names[a.entry as int];
    let p = parts(name);
    if p.last().len() == 0 || p[a.entered as int].len() == 0 {
        attach_failed("invalid attach name `"@ + name + "`"@)
    } else if a.entered + 1 < p.len() {
        AttachAct::Enter(p[a.entered as int])
    } else {
        AttachAct::Store(p[a.entered as int])
    }
}

/// One step of attaching. The first failure ends it; what was attached before
/// stays.
pub open spec fn attach_step(a: Attaching, e: AttachEvent) -> (Attaching, AttachAct) {
    let name = a.names[a.entry as int];
    let p = parts(name);
    let part = p[a.entered as int];
    if a.building {
        match e {
            AttachEvent::Ready => {
                let b = Attaching { building: false, ..a };
                (b, attach_part(b))
            },
            _ => (
                a,
                attach_failed(
                    if a.many {
                        "failed to build function for `"@ + name + "`"@
                    } else {
                        "failed to build function"@
                    },
                ),
            ),
        }
    } else {
        match e {
            AttachEvent::Ready => if a.entered + 1 < p.len() {
                let b = Attaching { entered: a.entered + 1, ..a };
                (b, attach_part(b))
            } else {
                attach_entry(Attaching { entry: a.entry + 1, ..a })
            },
            AttachEvent::KeyTooLarge => (a, attach_failed("name too large"@)),
            AttachEvent::Occupied => (
                a,
                attach_failed("`"@ + name + "`: `"@ + part + "` exists and is not an object"@),
            ),
            AttachEvent::Refused => (
                a,
                attach_failed(
                    if a.entered + 1 < p.len() {
                        "`"@ + name + "`: cannot create `"@ + part + "`"@
                    } else {
                        "`"@ + name + "`: target is not writable/extensible"@
                    },
                ),
            ),
        }
    }
}

fn attach_error(message: String) -> (r: AttachAction)
    ensures
        r@ == attach_failed(message@),
{
    AttachAction::Done(Err(VmError::Runtime(message)))
}

impl AttachPaths {
    pub closed spec fn wf(self) -> bool {
        &&& self.entry <= self.names@.len()
        &&& self.building ==> self.next == 0
        &&& !self.building && self.entry < self.names@.len() ==> {
            &&& views(self.parts@) == parts(self.names@[self.entry as int]@)
            &&& self.next < self.parts@.len()
        }
    }

    /// Whether an entry is at hand.
    pub open spec fn busy(self) -> bool {
        self@.entry < self@.names.len()
    }

    fn begin_entry(&mut self) -> (r: AttachAction)
        requires
            old(self).entry <= old(self).names@.len(),
            !old(self).building,
        ensures
            final(self).wf(),
            (final(self)@, r@) == attach_entry(old(self)@),
    {
        if self.entry < self.names.len() {
            self.building = true;
            self.next = 0;
            AttachAction::Build(self.entry)
        } else {
            AttachAction::Done(Ok(JsVal::Undefined))
        }
    }

    fn part_action(&self) -> (r: AttachAction)
        requires
            self.wf(),
            self.busy(),
            !self@.building,
        ensures
            r@ == attach_part(self@),
    {
        let last: usize = self.parts.len() - 1;
        proof {
            assert(views(self.parts@)[last as int] == self.parts@[last as int]@);
            assert(views(self.parts@)[self.next as int] == self.parts@[self.next as int]@);
            assert(views(self.names@)[self.entry as int] == self.names@[self.entry as int]@);
        }
        if self.parts[last].as_str().unicode_len() == 0
            || self.parts[self.next].as_str().unicode_len() == 0 {
            let mut m = "invalid attach name `".to_string();
            m.append(self.names[self.entry].as_str());
            m.append("`");
            attach_error(m)
        } else if self.next < last {
            AttachAction::Enter(self.parts[self.next].clone())
        } else {
            AttachAction::Store(self.parts[self.next].clone())
        }
    }

    /// Begins to attach functions under names, in order.
    pub fn start(names: Vec<String>, many: bool) -> (r: (AttachPaths, AttachAction))
        ensures
            r.0.wf(),
            (r.0@, r.1@) == attach_begun(views(names@), many),
    {
        let mut a = AttachPaths {
            names,
            many,
            entry: 0,
            parts: Vec::new(),
            next: 0,
            building: false,
        };
        let action = a.begin_entry();
        (a, action)
    }

    /// Takes the answer to the last action and gives the next one.
    pub fn step(&mut self, e: AttachEvent) -> (r: AttachAction)
        requires
            old(self).wf(),
            old(self).busy(),
        ensures
            final(self).wf(),
            (final(self)@, r@) == attach_step(old(self)@, e),
    {
        assert(views(self.names@)[self.entry as int] == self.names@[self.entry as int]@);
        assert(!self.building ==> views(self.parts@)[self.next as int]
            == self.parts@[self.next as int]@);
        if self.building {
            match e {
                AttachEvent::Ready => {
                    self.parts = split_on(self.names[self.entry].as_str(), '.');
                    self.building = false;
                    self.next = 0;
                    self.part_action()
                },
                _ => {
                    if self.many {
                        let mut m = "failed to build function for `".to_string();
                        m.append(self.names[self.entry].as_str());
                        m.append("`");
                        attach_error(m)
                    } else {
                        attach_error("failed to build function".to_string())
                    }
                },
            }
        } else {
            let last: usize = self.parts.len() - 1;
            match e {
                AttachEvent::Ready => {
                    if self.next < last {
                        self.next = self.next + 1;
                        self.part_action()
                    } else {
                        let count: usize = self.names.len();
                        assert(self.entry < count);
                        self.entry = self.entry + 1;
                        self.begin_entry()
                    }
                },
                AttachEvent::KeyTooLarge => attach_error("name too large".to_string()),
                AttachEvent::Occupied => {
                    let mut m = "`".to_string();
                    m.append(self.names[self.entry].as_str());
                    m.append("`: `");
                    m.append(self.parts[self.next].as_str());
                    m.append("` exists and is not an object");
                    attach_error(m)
                },
                AttachEvent::Refused => {
                    let mut m = "`".to_string();
                    m.append(self.names[self.entry].as_str());
                    if self.next < last {
                        m.append("`: cannot create `");
                        m.append(self.parts[self.next].as_str());
                        m.append("`");
                    } else {
                        m.append("`: target is not writable/extensible");
                    }
                    attach_error(m)
                },
            }
        }
    }
}

/// Attaching under a name and calling that name go the same way: part by part
/// both come to the same property, and where attaching stores the function the
/// call has it as its target.
pub proof fn law_call_reaches_what_was_attached(a: Attaching, c: Calling)
    requires
        !a.building,
        a.entry < a.names.len(),
        a.names[a.entry as int] == c.name,
        a.entered == c.read,
        c.read < parts(c.name).len(),
        forall|i: int| 0 <= i < parts(c.name).len() ==> (#[trigger] parts(c.name)[i]).len() > 0,
    ensures
        ({
            let part = parts(c.name)[c.read as int];
            let (b, next) = attach_step(a, AttachEvent::Ready);
            let (d, read) = call_step(c, CallEvent::Read);
            &&& call_next(c) == CallAct::Read(part)
            &&& if c.read + 1 < parts(c.name).len() {
                &&& attach_part(a) == AttachAct::Enter(part)
                &&& b.entry == a.entry && b.entered == d.read && !b.building
                &&& next == attach_part(b) && read == call_next(d)
            } else {
                &&& attach_part(a) == AttachAct::Store(part)
                &&& b.entry == a.entry + 1
                &&& read == (CallAct::Call { read_result: !c.void })
            }
        }),
{
}

/// A call ends: each part that is read brings it nearer to the call, and any
/// other answer is its end.
pub proof fn law_call_ends(c: Calling, e: CallEvent)
    requires
        call_fits(c, e),
    ensures
        ({
            let (d, a) = call_step(c, e);
            if e is Read {
                d.read == c.read + 1 && d.read <= parts(c.name).len() && d.name == c.name
            } else {
                a is Done
            }
        }),
{
}

/// Attaching stops at the first failure, and else comes to every entry: each
/// step that succeeds makes the function, goes one part on, or ends the entry.
pub proof fn law_attach_stops_at_failure(a: Attaching, e: AttachEvent)
    ensures
        e != AttachEvent::Ready ==> (attach_step(a, e).1 matches AttachAct::Done(r) && r is Err),
        attach_step(a, e).1 matches AttachAct::Done(r) && r is Ok ==> e == AttachEvent::Ready
            && a.entry + 1 >= a.names.len(),
        e == AttachEvent::Ready ==> {
            let b = attach_step(a, e).0;
            ||| a.building && !b.building && (b.entry, b.entered) == (a.entry, a.entered)
            ||| !a.building && b.entry == a.entry && b.entered == a.entered + 1
            ||| !a.building && b.entry == a.entry + 1
        },
{
}

/// Under names without empty parts each function is made, all parts but the last
/// are entered in turn, and the function is stored under the last; the next entry
/// follows, and after the last one attaching is done.
pub proof fn law_attach_goes_part_by_part(a: Attaching)
    requires
        a.entry < a.names.len(),
        forall|i: int|
            0 <= i < parts(a.names[a.entry as int]).len() ==> (#[trigger] parts(
                a.names[a.entry as int],
            )[i]).len() > 0,
        parts(a.names[a.entry as int]).len() > 0,
        a.entered < parts(a.names[a.entry as int]).len(),
        a.building ==> a.entered == 0,
    ensures
        ({
            let p = parts(a.names[a.entry as int]);
            let (b, act) = attach_step(a, AttachEvent::Ready);
            let at = |k: int|
                if k + 1 < p.len() {
                    AttachAct::Enter(p[k])
                } else {
                    AttachAct::Store(p[k])
                };
            &&& (b.names, b.many) == (a.names, a.many)
            &&& if a.building {
                act == at(0) && b.entry == a.entry && b.entered == 0 && !b.building
            } else if a.entered + 1 < p.len() {
                act == at(a.entered as int + 1) && b.entry == a.entry && b.entered == a.entered + 1
                    && !b.building
            } else if a.entry + 1 < a.names.len() {
                act == AttachAct::Build((a.entry + 1) as nat) && b.entry == a.entry + 1
                    && b.building && b.entered == 0
            } else {
                act == AttachAct::Done(Ok(Val::Undefined)) && b.entry == a.entry + 1
            }
        }),
{
    let p = parts(a.names[a.entry as int]);
    assert(p[p.len() - 1].len() > 0);
}

/// Attaching begins with the first function, and is done at once where there is
/// none.
pub proof fn law_attach_begins_with_first(names: Seq<Seq<char>>, many: bool)
    ensures
        ({
            let (b, act) = attach_begun(names, many);
            if names.len() == 0 {
                act == AttachAct::Done(Ok(Val::Undefined))
            } else {
                act == AttachAct::Build(0) && b == (Attaching {
                    names,
                    many,
                    entry: 0,
                    building: true,
                    entered: 0,
                })
            }
        }),
{
}

/// A name with an empty part is refused before anything is stored under it: at
/// once where the last part is empty, and else when its empty part is reached. The
/// refusal quotes the whole name.
pub proof fn law_attach_refuses_empty_parts(a: Attaching)
    requires
        a.entered < parts(a.names[a.entry as int]).len(),
    ensures
        ({
            let name = a.names[a.entry as int];
            let p = parts(name);
            let refused = AttachAct::Done(
                Err(Fault::Runtime("invalid attach name `"@ + name + "`"@)),
            );
            &&& p.last().len() == 0 ==> attach_part(a) == refused
            &&& p[a.entered as int].len() == 0 ==> attach_part(a) == refused
            &&& attach_part(a) == refused ==> p.last().len() == 0 || p[a.entered as int].len() == 0
            &&& attach_part(a) is Store || attach_part(a) is Enter ==> p.last().len() > 0
                && p[a.entered as int].len() > 0
        }),
{
}

/// A failure to attach says what could not be done, and in a batch of which entry.
pub proof fn law_attach_failure_says_what(a: Attaching, e: AttachEvent)
    requires
        e != AttachEvent::Ready,
    ensures
        ({
            let name = a.names[a.entry as int];
            let p = parts(name);
            let part = p[a.entered as int];
            let fails = |m: Seq<char>|
                attach_step(a, e).1 == AttachAct::Done(Err(Fault::Runtime(m)));
            &&& attach_step(a, e).0 == a
            &&& a.building && a.many ==> fails("failed to build function for `"@ + name + "`"@)
            &&& a.building && !a.many ==> fails("failed to build function"@)
            &&& !a.building && e == AttachEvent::KeyTooLarge ==> fails("name too large"@)
            &&& !a.building && e == AttachEvent::Occupied ==> fails(
                "`"@ + name + "`: `"@ + part + "` exists and is not an object"@,
            )
            &&& !a.building && e == AttachEvent::Refused && a.entered + 1 < p.len() ==> fails(
                "`"@ + name + "`: cannot create `"@ + part + "`"@,
            )
            &&& !a.building && e == AttachEvent::Refused && a.entered + 1 >= p.len() ==> fails(
                "`"@ + name + "`: target is not writable/extensible"@,
            )
        }),
{
}

/// What is to be done for a call is told from everything else: the property that is
/// read, whether the result is, and what the call came to.
pub proof fn law_call_actions_are_told_apart(a: CallAction, b: CallAction)
    requires
        a@ == b@,
    ensures
        a matches CallAction::Read(p) ==> (b matches CallAction::Read(q) && p@ == q@),
        a matches CallAction::Call { read_result } ==> (b matches CallAction::Call {
            read_result: r,
        } && read_result == r),
        a matches CallAction::Done(r) ==> (b matches CallAction::Done(q) && outcome(r) == outcome(
            q,
        )),
{
}

/// The same of attaching: which entry, which property, and what it came to.
pub proof fn law_attach_actions_are_told_apart(a: AttachAction, b: AttachAction)
    requires
        a@ == b@,
    ensures
        a matches AttachAction::Build(i) ==> (b matches AttachAction::Build(j) && i == j),
        a matches AttachAction::Enter(p) ==> (b matches AttachAction::Enter(q) && p@ == q@),
        a matches AttachAction::Store(p) ==> (b matches AttachAction::Store(q) && p@ == q@),
        a matches AttachAction::Done(r) ==> (b matches AttachAction::Done(q) && outcome(r)
            == outcome(q)),
{
}

} // verus!
