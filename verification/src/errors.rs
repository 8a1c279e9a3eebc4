//! What is raised on the Ruby side, and for which failure.
use crate::text::views;
use crate::value::{Fault, VmError};
use vstd::prelude::*;

verus! {

/// The exception classes that the extension raises.
#[derive(Debug, Clone, Copy, PartialEq, Eq, Structural)]
pub enum RubyClass {
    /// `RustyRacer::ParseError`
    ParseError,
    /// `RustyRacer::RuntimeError`
    RuntimeError,
    /// `RustyRacer::ScriptTerminatedError`
    ScriptTerminatedError,
    /// `RustyRacer::WrongThreadError`
    WrongThreadError,
    /// `RustyRacer::PlatformAlreadyInitialized`
    PlatformAlreadyInitialized,
    /// `RustyRacer::SnapshotError`
    SnapshotError,
    /// `::RuntimeError`
    StandardRuntimeError,
    /// `::ArgumentError`
    ArgumentError,
    /// `::TypeError`
    TypeError,
    /// `::RangeError`
    RangeError,
    /// `::EncodingError`
    EncodingError,
}

/// An exception to raise. A backtrace that is given replaces the one that Ruby
/// would fill in, even where it is empty.
#[derive(Debug)]
pub struct RubyError {
    pub class: RubyClass,
    pub message: String,
    pub backtrace: Option<Vec<String>>,
}

/// The mathematical value of an exception.
pub ghost struct Raised {
    pub class: RubyClass,
    pub message: Seq<char>,
    pub backtrace: Option<Seq<Seq<char>>>,
}

impl View for RubyError {
    type V = Raised;

    open spec fn view(&self) -> Raised {
        Raised {
            class: self.class,
            message: self.message@,
            backtrace: match self.backtrace {
                Some(b) => Some(views(b@)),
                None => None,
            },
        }
    }
}

/// An exception with no backtrace of its own.
pub open spec fn plain(class: RubyClass, message: Seq<char>) -> Raised {
    Raised { class, message, backtrace: None }
}

/// Makes an exception with no backtrace of its own.
pub fn raise(class: RubyClass, message: &str) -> (r: RubyError)
    ensures
        r@ == plain(class, message@),
{
    RubyError { class, message: message.to_string(), backtrace: None }
}

/// Makes an exception with no backtrace of its own from an owned message.
pub fn raise_owned(class: RubyClass, message: String) -> (r: RubyError)
    ensures
        r@ == plain(class, message@),
{
    RubyError { class, message, backtrace: None }
}

/// The constant's name, and whether it lies in the extension's own module.
pub open spec fn constant(class: RubyClass) -> (bool, Seq<char>) {
    match class {
        RubyClass::ParseError => (true, "ParseError"@),
        RubyClass::RuntimeError => (true, "RuntimeError"@),
        RubyClass::ScriptTerminatedError => (true, "ScriptTerminatedError"@),
        RubyClass::WrongThreadError => (true, "WrongThreadError"@),
        RubyClass::PlatformAlreadyInitialized => (true, "PlatformAlreadyInitialized"@),
        RubyClass::SnapshotError => (true, "SnapshotError"@),
        RubyClass::StandardRuntimeError => (false, "RuntimeError"@),
        RubyClass::ArgumentError => (false, "ArgumentError"@),
        RubyClass::TypeError => (false, "TypeError"@),
        RubyClass::RangeError => (false, "RangeError"@),
        RubyClass::EncodingError => (false, "EncodingError"@),
    }
}

/// The name under which the class is found, and whether it lies in the
/// extension's own module.
pub fn err_class(class: RubyClass) -> (r: (bool, &'static str))
    ensures
        (r.0, r.1@) == constant(class),
{
    match class {
        RubyClass::ParseError => (true, "ParseError"),
        RubyClass::RuntimeError => (true, "RuntimeError"),
        RubyClass::ScriptTerminatedError => (true, "ScriptTerminatedError"),
        RubyClass::WrongThreadError => (true, "WrongThreadError"),
        RubyClass::PlatformAlreadyInitialized => (true, "PlatformAlreadyInitialized"),
        RubyClass::SnapshotError => (true, "SnapshotError"),
        RubyClass::StandardRuntimeError => (false, "RuntimeError"),
        RubyClass::ArgumentError => (false, "ArgumentError"),
        RubyClass::TypeError => (false, "TypeError"),
        RubyClass::RangeError => (false, "RangeError"),
        RubyClass::EncodingError => (false, "EncodingError"),
    }
}

/// What a failure in the engine is raised as. Only an exception thrown by
/// JavaScript carries a backtrace: its own.
pub open spec fn raised(f: Fault) -> Raised {
    match f {
        Fault::Parse(m) => plain(RubyClass::ParseError, m),
        Fault::Runtime(m) => plain(RubyClass::RuntimeError, m),
        Fault::JsError { message, backtrace } => Raised {
            class: RubyClass::RuntimeError,
            message,
            backtrace: Some(backtrace),
        },
        Fault::Terminated => plain(
            RubyClass::ScriptTerminatedError,
            "JavaScript was terminated (timeout or stop)"@,
        ),
    }
}

/// The exception for a failure in the engine.
pub fn vm_err(e: VmError) -> (r: RubyError)
    ensures
        r@ == raised(e@),
{
    match e {
        VmError::Parse(m) => raise_owned(RubyClass::ParseError, m),
        VmError::Runtime(m) => raise_owned(RubyClass::RuntimeError, m),
        VmError::JsError { message, backtrace } => RubyError {
            class: RubyClass::RuntimeError,
            message,
            backtrace: Some(backtrace),
        },
        VmError::Terminated => raise(
            RubyClass::ScriptTerminatedError,
            "JavaScript was terminated (timeout or stop)",
        ),
    }
}

/// A failure in the engine is raised in the class of its kind and with its own
/// message. It carries a backtrace, that of the JavaScript, exactly where
/// JavaScript threw; where it did not, Ruby's own stands.
pub proof fn law_failure_is_raised_as_it_is(f: Fault)
    ensures
        raised(f).class == RubyClass::ParseError <==> f is Parse,
        raised(f).class == RubyClass::RuntimeError <==> f is Runtime || f is JsError,
        raised(f).class == RubyClass::ScriptTerminatedError <==> f is Terminated,
        raised(f).backtrace is Some <==> f is JsError,
        f matches Fault::Parse(m) ==> raised(f).message == m,
        f matches Fault::Runtime(m) ==> raised(f).message == m,
        f matches Fault::JsError { message, backtrace } ==> raised(f).message == message
            && raised(f).backtrace == Some(backtrace),
        f is Terminated ==> raised(f).message == "JavaScript was terminated (timeout or stop)"@,
{
}

/// Every class is found under a name of its own, in the extension's module or out
/// of it: no two classes are one.
pub proof fn law_classes_are_told_apart(a: RubyClass, b: RubyClass)
    ensures
        constant(a) == constant(b) ==> a == b,
        constant(a).0 <==> a == RubyClass::ParseError || a == RubyClass::RuntimeError || a
            == RubyClass::ScriptTerminatedError || a == RubyClass::WrongThreadError || a
            == RubyClass::PlatformAlreadyInitialized || a == RubyClass::SnapshotError,
        constant(RubyClass::RuntimeError).1 == constant(RubyClass::StandardRuntimeError).1,
{
    reveal_strlit("ParseError");
    reveal_strlit("RuntimeError");
    reveal_strlit("ScriptTerminatedError");
    reveal_strlit("WrongThreadError");
    reveal_strlit("PlatformAlreadyInitialized");
    reveal_strlit("SnapshotError");
    reveal_strlit("ArgumentError");
    reveal_strlit("TypeError");
    reveal_strlit("RangeError");
    reveal_strlit("EncodingError");
    let n = |c: RubyClass| constant(c).1;
    assert(n(RubyClass::ParseError).len() == 10 && n(RubyClass::ParseError)[0] == 'P');
    assert(n(RubyClass::RuntimeError).len() == 12 && n(RubyClass::RuntimeError)[0] == 'R');
    assert(n(RubyClass::ScriptTerminatedError).len() == 21);
    assert(n(RubyClass::WrongThreadError).len() == 16);
    assert(n(RubyClass::PlatformAlreadyInitialized).len() == 26);
    assert(n(RubyClass::SnapshotError).len() == 13 && n(RubyClass::SnapshotError)[0] == 'S');
    assert(n(RubyClass::ArgumentError).len() == 13 && n(RubyClass::ArgumentError)[0] == 'A');
    assert(n(RubyClass::TypeError).len() == 9);
    assert(n(RubyClass::RangeError).len() == 10 && n(RubyClass::RangeError)[0] == 'R');
    assert(n(RubyClass::EncodingError).len() == 13 && n(RubyClass::EncodingError)[0] == 'E');
}

/// What is raised is told from everything else that could be: by its class, its
/// message, and whether it brings a backtrace and which.
pub proof fn law_exceptions_are_told_apart(a: RubyError, b: RubyError)
    requires
        a@ == b@,
    ensures
        a.class == b.class,
        a.message@ == b.message@,
        a.backtrace is Some <==> b.backtrace is Some,
        a.backtrace is Some ==> views(a.backtrace->0@) == views(b.backtrace->0@),
{
}

/// An exception that is made plainly has the class and the message it is made with
/// and no backtrace of its own.
pub proof fn law_plain_exception_is_as_given(class: RubyClass, message: Seq<char>)
    ensures
        plain(class, message).class == class,
        plain(class, message).message == message,
        plain(class, message).backtrace is None,
{
}

} // verus!
