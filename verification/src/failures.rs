//! What a failed compilation, run or call is reported as.
use crate::text::{
    all_space, chars_of, decimal, is_space, law_trim_takes_off_the_space_around, lines, lines_of,
    push_decimal, string_between, trim, trim_bounds, views,
};
use crate::value::{Fault, VmError};
use vstd::prelude::*;

verus! {

broadcast use vstd::string::group_string_axioms;

/// Where two characters first stand next to each other.
pub open spec fn first_pair(s: Seq<char>, a: char, b: char) -> Option<nat>
    decreases s.len(),
{
    if s.len() < 2 {
        None
    } else if s[0] == a && s[1] == b {
        Some(0)
    } else {
        match first_pair(s.skip(1), a, b) {
            Some(i) => Some(i + 1),
            None => None,
        }
    }
}

/// The backtrace line of one line of a JavaScript stack. Only lines that read
/// `at ...` are frames: `at NAME (LOC)` becomes `LOC:in 'NAME'`, where `LOC`
/// begins after the first ` (`, and a bare `at LOC` stays `LOC`.
pub open spec fn frame_of(line: Seq<char>) -> Option<Seq<char>> {
    let t = trim(line);
    if t.len() <= 3 || t.take(3) != seq!['a', 't', ' '] {
        None
    } else {
        let f = t.skip(3);
        match first_pair(f, ' ', '(') {
            Some(open) => if f.last() == ')' {
                Some(
                    f.subrange(open as int + 2, f.len() - 1) + ":in '"@ + f.take(open as int)
                        + "'"@,
                )
            } else {
                Some(f)
            },
            None => Some(f),
        }
    }
}

/// The frames among lines, in order.
pub open spec fn frames(l: Seq<Seq<char>>) -> Seq<Seq<char>>
    decreases l.len(),
{
    if l.len() == 0 {
        Seq::empty()
    } else {
        let before = frames(l.drop_last());
        match frame_of(l.last()) {
            Some(f) => before.push(f),
            None => before,
        }
    }
}

/// Where the characters ` (` first stand in a part of `cs`.
fn find_open(cs: &Vec<char>, from: usize, to: usize) -> (r: Option<usize>)
    requires
        from <= to <= cs@.len(),
    ensures
        match (r, first_pair(cs@.subrange(from as int, to as int), ' ', '(')) {
            (Some(i), Some(n)) => from <= i && i + 2 <= to && i - from == n,
            (None, None) => true,
            _ => false,
        },
{
    let mut i: usize = from;
    assert(cs@.subrange(from as int, to as int).skip(0) =~= cs@.subrange(from as int, to as int));
    while i < to && to - i >= 2
        invariant
            from <= i <= to <= cs@.len(),
            match first_pair(cs@.subrange(i as int, to as int), ' ', '(') {
                Some(n) => first_pair(cs@.subrange(from as int, to as int), ' ', '(') == Some(
                    (i - from + n) as nat,
                ),
                None => first_pair(cs@.subrange(from as int, to as int), ' ', '(') is None,
            },
        decreases to - i,
    {
        let ghost here = cs@.subrange(i as int, to as int);
        if cs[i] == ' ' && cs[i + 1] == '(' {
            return Some(i);
        }
        assert(here.skip(1) =~= cs@.subrange(i + 1, to as int));
        i = i + 1;
    }
    None
}

/// The backtrace line of one line of a JavaScript stack, if it is a frame.
fn parse_frame(line: &str) -> (r: Option<String>)
    ensures
        match (r, frame_of(line@)) {
            (Some(s), Some(f)) => s@ == f,
            (None, None) => true,
            _ => false,
        },
{
    let cs: Vec<char> = chars_of(line);
    let (from, to): (usize, usize) = trim_bounds(&cs, 0, cs.len());
    assert(cs@.subrange(0, cs@.len() as int) =~= cs@);
    let ghost t = trim(line@);
    assert(t =~= cs@.subrange(from as int, to as int));
    if to - from <= 3 {
        return None;
    }
    if cs[from] != 'a' || cs[from + 1] != 't' || cs[from + 2] != ' ' {
        proof {
            assert(t.take(3)[0] == cs@[from as int]);
            assert(t.take(3)[1] == cs@[from + 1]);
            assert(t.take(3)[2] == cs@[from + 2]);
        }
        return None;
    }
    assert(t.take(3) =~= seq!['a', 't', ' ']);
    let start: usize = from + 3;
    let ghost f = t.skip(3);
    assert(f =~= cs@.subrange(start as int, to as int));
    let open: Option<usize> = find_open(&cs, start, to);
    match open {
        Some(o) => {
            if cs[to - 1] == ')' {
                proof {
                    let n = first_pair(f, ' ', '(')->0 as int;
                    lemma_first_pair(f, ' ', '(');
                    assert(f.subrange(n + 2, f.len() - 1) =~= cs@.subrange(o + 2, to - 1));
                    assert(f.take(n) =~= cs@.subrange(start as int, o as int));
                }
                let mut s: String = string_between(&cs, o + 2, to - 1);
                s.append(":in '");
                let name: String = string_between(&cs, start, o);
                s.append(name.as_str());
                s.append("'");
                return Some(s);
            }
        },
        None => {},
    }
    Some(string_between(&cs, start, to))
}

proof fn lemma_first_pair(s: Seq<char>, a: char, b: char)
    ensures
        first_pair(s, a, b) matches Some(n) ==> n + 2 <= s.len() && s[n as int] == a && s[n as int
            + 1] == b,
    decreases s.len(),
{
    if s.len() >= 2 {
        lemma_first_pair(s.skip(1), a, b);
    }
}

/// The backtrace of a JavaScript stack text: its header, which may itself span
/// lines, is left out.
pub fn parse_js_stack(stack: &str) -> (r: Vec<String>)
    ensures
        views(r@) == frames(lines(stack@)),
{
    let all: Vec<String> = lines_of(stack);
    let mut out: Vec<String> = Vec::new();
    let mut i: usize = 0;
    assert(views(out@) =~= Seq::empty());
    assert(views(all@).take(0) =~= Seq::empty());
    while i < all.len()
        invariant
            i <= all@.len(),
            views(out@) == frames(views(all@).take(i as int)),
        decreases all.len() - i,
    {
        let ghost before = out@;
        let ghost l = views(all@).take(i + 1);
        assert(l.drop_last() =~= views(all@).take(i as int));
        assert(l.last() == all@[i as int]@);
        match parse_frame(all[i].as_str()) {
            Some(f) => {
                out.push(f);
                assert(views(out@) =~= views(before).push(f@));
            },
            None => {},
        }
        i = i + 1;
    }
    assert(views(all@).take(i as int) =~= views(all@));
    out
}

/// What is known of a thrown exception.
#[derive(Debug)]
pub struct Thrown {
    /// The exception as text, where there is one.
    pub exception: Option<String>,
    /// Its own `stack`, where that is a string.
    pub own_stack: Option<String>,
    /// The stack recorded where the exception was caught.
    pub recorded_stack: Option<String>,
}

/// The text of an optional string, or else a default.
pub open spec fn text_or(s: Option<String>, default: Seq<char>) -> Seq<char> {
    match s {
        Some(t) => t@,
        None => default,
    }
}

/// The failure for a thrown exception: its text, and the frames of its own
/// stack or else of the recorded one.
pub open spec fn js_error(t: Thrown) -> Fault {
    Fault::JsError {
        message: text_or(t.exception, "unexpected failure"@),
        backtrace: match (t.own_stack, t.recorded_stack) {
            (Some(s), _) => frames(lines(s@)),
            (None, Some(s)) => frames(lines(s@)),
            (None, None) => Seq::empty(),
        },
    }
}

/// The failure for a thrown exception.
pub fn capture_js_error(t: Thrown) -> (r: VmError)
    ensures
        r@ == js_error(t),
{
    let message: String = match t.exception {
        Some(m) => m,
        None => "unexpected failure".to_string(),
    };
    let backtrace: Vec<String> = match t.own_stack {
        Some(s) => parse_js_stack(s.as_str()),
        None => match t.recorded_stack {
            Some(s) => parse_js_stack(s.as_str()),
            None => {
                let none: Vec<String> = Vec::new();
                assert(views(none@) =~= Seq::empty());
                none
            },
        },
    };
    VmError::JsError { message, backtrace }
}

/// The failure of a run, a call or an evaluation that gave no value.
pub open spec fn run_fault(terminated: bool, t: Thrown) -> Fault {
    if terminated {
        Fault::Terminated
    } else {
        js_error(t)
    }
}

/// The failure of a run, a call or an evaluation that gave no value: a
/// termination goes before anything that was thrown.
pub fn run_failure(terminated: bool, t: Thrown) -> (r: VmError)
    ensures
        r@ == run_fault(terminated, t),
{
    if terminated {
        VmError::Terminated
    } else {
        capture_js_error(t)
    }
}

/// What is compiled.
#[derive(Debug, Clone, Copy, PartialEq, Eq, Structural)]
pub enum SourceKind {
    /// Source that is run at once.
    Eval,
    /// A script that is kept.
    Script,
    /// An ES module.
    Module,
}

/// What is known of a failed compilation.
#[derive(Debug)]
pub struct CompileFailure {
    /// The exception as text, where there is one.
    pub exception: Option<String>,
    /// The resource that the engine names, where that is a string.
    pub resource: Option<String>,
    /// The line that the engine reports.
    pub line: Option<u64>,
}

/// What stands for an exception without text.
pub open spec fn default_parse_message(kind: SourceKind) -> Seq<char> {
    match kind {
        SourceKind::Eval => "parse error"@,
        SourceKind::Script => "script parse error"@,
        SourceKind::Module => "module parse error"@,
    }
}

/// Where compilation failed: the file is always named, the line where known.
pub open spec fn location(f: CompileFailure, filename: Seq<char>) -> Seq<char> {
    let res = text_or(f.resource, filename);
    match f.line {
        Some(n) => " at "@ + res + ":"@ + decimal(n as nat),
        None => " at "@ + res,
    }
}

/// The failure of a compilation that gave nothing: a parse error with its
/// location, unless the engine was terminated.
pub open spec fn compile_fault(
    kind: SourceKind,
    terminated: bool,
    f: CompileFailure,
    filename: Seq<char>,
) -> Fault {
    if terminated {
        Fault::Terminated
    } else {
        Fault::Parse(text_or(f.exception, default_parse_message(kind)) + location(f, filename))
    }
}

/// The failure of a compilation that gave nothing.
pub fn compile_failure(
    kind: SourceKind,
    terminated: bool,
    f: CompileFailure,
    filename: &str,
) -> (r: VmError)
    ensures
        r@ == compile_fault(kind, terminated, f, filename@),
{
    if terminated {
        return VmError::Terminated;
    }
    let mut out: String = match f.exception {
        Some(m) => m,
        None => match kind {
            SourceKind::Eval => "parse error".to_string(),
            SourceKind::Script => "script parse error".to_string(),
            SourceKind::Module => "module parse error".to_string(),
        },
    };
    let ghost message = out@;
    out.append(" at ");
    match f.resource {
        Some(res) => out.append(res.as_str()),
        None => out.append(filename),
    }
    match f.line {
        Some(n) => {
            out.append(":");
            push_decimal(&mut out, n);
        },
        None => {},
    }
    assert(out@ =~= message + location(f, filename@));
    VmError::Parse(out)
}

/// The failure of source that did not compile, told without its location.
pub open spec fn plain_compile_fault(terminated: bool, exception: Option<String>) -> Fault {
    if terminated {
        Fault::Terminated
    } else {
        Fault::Parse(text_or(exception, "parse error"@))
    }
}

/// The failure of source that did not compile, told without its location.
pub fn plain_compile_failure(terminated: bool, exception: Option<String>) -> (r: VmError)
    ensures
        r@ == plain_compile_fault(terminated, exception),
{
    if terminated {
        return VmError::Terminated;
    }
    match exception {
        Some(m) => VmError::Parse(m),
        None => VmError::Parse("parse error".to_string()),
    }
}

/// The failure of source that threw, told without its stack.
pub open spec fn plain_run_fault(terminated: bool, exception: Option<String>) -> Fault {
    if terminated {
        Fault::Terminated
    } else {
        Fault::Runtime(text_or(exception, "unexpected failure"@))
    }
}

/// A failure told plainly is a termination exactly where there was one, and else
/// the exception's own text: of source that did not compile as a parse error, of
/// source that threw as a failure without a stack.
pub proof fn law_plain_failures_keep_the_text(exception: Option<String>)
    ensures
        plain_compile_fault(true, exception) == Fault::Terminated,
        plain_run_fault(true, exception) == Fault::Terminated,
        plain_compile_fault(false, exception) is Parse,
        plain_run_fault(false, exception) is Runtime,
        exception matches Some(t) ==> plain_compile_fault(false, exception) == Fault::Parse(t@)
            && plain_run_fault(false, exception) == Fault::Runtime(t@),
        exception is None ==> plain_compile_fault(false, exception) == Fault::Parse("parse error"@)
            && plain_run_fault(false, exception) == Fault::Runtime("unexpected failure"@),
{
}

/// The failure of source that threw, told without its stack.
pub fn plain_run_failure(terminated: bool, exception: Option<String>) -> (r: VmError)
    ensures
        r@ == plain_run_fault(terminated, exception),
{
    if terminated {
        return VmError::Terminated;
    }
    match exception {
        Some(m) => VmError::Runtime(m),
        None => VmError::Runtime("unexpected failure".to_string()),
    }
}

/// The failure for source text that the engine cannot hold.
pub open spec fn too_large(kind: SourceKind) -> Fault {
    match kind {
        SourceKind::Eval => Fault::Parse("source too large"@),
        SourceKind::Script => Fault::Runtime("script source too large"@),
        SourceKind::Module => Fault::Runtime("module source too large"@),
    }
}

/// The failure for source text that the engine cannot hold.
pub fn source_too_large(kind: SourceKind) -> (r: VmError)
    ensures
        r@ == too_large(kind),
{
    match kind {
        SourceKind::Eval => VmError::Parse("source too large".to_string()),
        SourceKind::Script => VmError::Runtime("script source too large".to_string()),
        SourceKind::Module => VmError::Runtime("module source too large".to_string()),
    }
}

/// How source is compiled.
#[derive(Debug, Clone, Copy, PartialEq, Eq, Structural)]
pub enum CompileMode {
    /// Take the supplied bytecode cache.
    ConsumeCache,
    /// Compile every function up front.
    Eager,
    /// Compile the top level only.
    Lazy,
}

/// How source is compiled: a supplied cache goes before eager compilation,
/// since the engine takes only one of them.
pub fn compile_source(has_cache: bool, eager: bool) -> (r: CompileMode)
    ensures
        r == if has_cache {
            CompileMode::ConsumeCache
        } else if eager {
            CompileMode::Eager
        } else {
            CompileMode::Lazy
        },
{
    if has_cache {
        CompileMode::ConsumeCache
    } else if eager {
        CompileMode::Eager
    } else {
        CompileMode::Lazy
    }
}

/// A failure with a fixed text.
pub fn runtime_error(message: &str) -> (r: VmError)
    ensures
        r@ == Fault::Runtime(message@),
{
    VmError::Runtime(message.to_string())
}

/// The frames of lines are those of the first ones and those of the others after
/// them: each line that is a frame gives one, in its place.
pub proof fn law_frames_come_in_order(a: Seq<Seq<char>>, b: Seq<Seq<char>>, line: Seq<char>)
    ensures
        frames(a + b) == frames(a) + frames(b),
        frames(seq![line]) == match frame_of(line) {
            Some(f) => seq![f],
            None => Seq::empty(),
        },
    decreases b.len(),
{
    let one = seq![line];
    assert(one.drop_last() =~= Seq::empty());
    assert(frames(one.drop_last()) =~= Seq::empty());
    if b.len() == 0 {
        assert(a + b =~= a);
        assert(frames(a) + frames(b) =~= frames(a));
    } else {
        law_frames_come_in_order(a, b.drop_last(), line);
        assert((a + b).drop_last() =~= a + b.drop_last());
        assert(frames(a + b) =~= frames(a) + frames(b));
    }
}

proof fn lemma_no_pair(s: Seq<char>, t: Seq<char>, a: char, b: char)
    requires
        forall|k: int| 0 <= k && k + 1 < s.len() ==> !(#[trigger] s[k] == a && s[k + 1] == b),
        s.len() > 0 ==> s.last() != a || t.len() == 0 || t[0] != b,
    ensures
        first_pair(s, a, b) is None,
        first_pair(s + t, a, b) == match first_pair(t, a, b) {
            Some(i) => Some((s.len() + i) as nat),
            None => None,
        },
    decreases s.len(),
{
    let all = s + t;
    if s.len() == 0 {
        assert(all =~= t);
    } else {
        let rest = s.skip(1);
        assert forall|k: int| 0 <= k && k + 1 < rest.len() implies !(#[trigger] rest[k] == a
            && rest[k + 1] == b) by {
            assert(rest[k] == s[k + 1]);
            assert(rest[k + 1] == s[k + 2]);
            assert(!(s[k + 1] == a && s[k + 1 + 1] == b));
        }
        lemma_no_pair(rest, t, a, b);
        assert(all.skip(1) =~= rest + t);
        if s.len() >= 2 {
            assert(!(s[0] == a && s[0int + 1] == b));
            assert(all[0] == s[0] && all[1] == s[1]);
        } else if t.len() > 0 {
            assert(all[0] == s[0] && all[1] == t[0]);
        }
    }
}

/// Whether a text holds a blank before an opening bracket.
pub open spec fn holds_opening(s: Seq<char>) -> bool {
    exists|k: int| 0 <= k && k + 1 < s.len() && #[trigger] s[k] == ' ' && s[k + 1] == '('
}

/// A line `at NAME (LOC)`, with any white space around it, is a frame of that name
/// at that place, wherever the name has no opening bracket of its own.
pub proof fn law_named_frame_is_read(
    before: Seq<char>,
    name: Seq<char>,
    place: Seq<char>,
    after: Seq<char>,
)
    requires
        all_space(before),
        all_space(after),
        !holds_opening(name + seq![' ']),
    ensures
        frame_of(before + (seq!['a', 't', ' '] + name + seq![' ', '('] + place + seq![')']) + after)
            == Some(place + ":in '"@ + name + "'"@),
{
    let head = seq!['a', 't', ' '];
    let f = name + seq![' ', '('] + place + seq![')'];
    let line = head + name + seq![' ', '('] + place + seq![')'];
    assert(line =~= head + f);
    assert(line[0] == 'a');
    assert(line.last() == ')');
    law_trim_takes_off_the_space_around(before, line, after);
    assert(line.take(3) =~= head);
    assert(line.skip(3) =~= f);
    let rest = seq![' ', '('] + place + seq![')'];
    assert(f =~= name + rest);
    assert forall|k: int| 0 <= k && k + 1 < name.len() implies !(#[trigger] name[k] == ' ' && name[k
        + 1] == '(') by {
        let wide = name + seq![' '];
        assert(wide[k] == name[k] && wide[k + 1] == name[k + 1]);
    }
    lemma_no_pair(name, rest, ' ', '(');
    assert(rest[0] == ' ' && rest[1] == '(');
    assert(first_pair(rest, ' ', '(') == Some(0nat));
    assert(f.last() == ')');
    assert(f.take(name.len() as int) =~= name);
    assert(f.subrange(name.len() as int + 2, f.len() - 1) =~= place);
}

/// A line `at LOC` without a bracket is a frame at that place, and a line that
/// reads otherwise is none.
pub proof fn law_bare_frame_is_read(before: Seq<char>, text: Seq<char>, after: Seq<char>)
    requires
        all_space(before),
        all_space(after),
        text.len() > 0 && !is_space(text[0]) && !is_space(text.last()),
    ensures
        !holds_opening(text) ==> frame_of(before + (seq!['a', 't', ' '] + text) + after) == Some(
            text,
        ),
        text.last() != ')' ==> frame_of(before + (seq!['a', 't', ' '] + text) + after) == Some(
            text,
        ),
        text.len() < 3 || text.take(3) != seq!['a', 't', ' '] ==> frame_of(before + text + after)
            is None,
        frame_of(before) is None,
{
    law_trim_takes_off_the_space_around(before, Seq::empty(), Seq::empty());
    assert(before + Seq::<char>::empty() + Seq::<char>::empty() =~= before);
    let head = seq!['a', 't', ' '];
    let line = head + text;
    assert(line[0] == 'a');
    assert(line.last() == text.last());
    law_trim_takes_off_the_space_around(before, line, after);
    law_trim_takes_off_the_space_around(before, text, after);
    assert(line.take(3) =~= head);
    assert(line.skip(3) =~= text);
    if !holds_opening(text) {
        lemma_no_pair(text, Seq::empty(), ' ', '(');
    }
}

/// An exception is reported with its own text. Its backtrace is read from its own
/// stack, whatever was recorded, from the recorded one where it has none, and is
/// empty where there is neither.
pub proof fn law_exception_is_reported(t: Thrown, other: Option<String>)
    ensures
        js_error(t) is JsError,
        t.exception matches Some(text) ==> js_error(t)->JsError_message == text@,
        t.exception is None ==> js_error(t)->JsError_message == "unexpected failure"@,
        t.own_stack matches Some(stack) ==> js_error(t)->backtrace == frames(lines(stack@))
            && js_error(Thrown { recorded_stack: other, ..t }) == js_error(t),
        t.own_stack is None ==> (t.recorded_stack matches Some(stack) ==> js_error(t)->backtrace
            == frames(lines(stack@))),
        t.own_stack is None && t.recorded_stack is None ==> js_error(t)->backtrace.len() == 0,
{
}

/// A termination is reported as one, whatever was thrown; what was thrown is
/// reported where there was none.
pub proof fn law_termination_goes_before_exception(t: Thrown)
    ensures
        run_fault(true, t) == Fault::Terminated,
        run_fault(false, t) == js_error(t),
{
}

/// A parse error is the exception and where it was: in the file that the engine
/// names, or else in the one that was compiled, at the line that it reports. Of two
/// failures that differ only in the file's name each names its own.
pub proof fn law_parse_error_names_its_place(
    kind: SourceKind,
    f: CompileFailure,
    filename: Seq<char>,
    other: Seq<char>,
)
    ensures
        compile_fault(kind, true, f, filename) == Fault::Terminated,
        compile_fault(kind, false, f, filename) is Parse,
        f.exception is Some && f.line is None ==> compile_fault(kind, false, f, filename)
            == Fault::Parse(
            f.exception->0@ + (" at "@ + match f.resource {
                Some(res) => res@,
                None => filename,
            }),
        ),
        f.exception is Some && f.line is Some ==> compile_fault(kind, false, f, filename)
            == Fault::Parse(
            f.exception->0@ + (" at "@ + match f.resource {
                Some(res) => res@,
                None => filename,
            } + ":"@ + decimal(f.line->0 as nat)),
        ),
        f.resource is Some ==> compile_fault(kind, false, f, other) == compile_fault(
            kind,
            false,
            f,
            filename,
        ),
{
}

/// An exception without text is told by what was compiled, and source that is too
/// large too: of source that runs at once it is a parse error, of a script or a
/// module a failure of the binding.
pub proof fn law_failure_tells_what_was_compiled(
    kind: SourceKind,
    f: CompileFailure,
    filename: Seq<char>,
)
    requires
        f.exception is None,
    ensures
        compile_fault(kind, false, f, filename) == Fault::Parse(
            (match kind {
                SourceKind::Eval => "parse error"@,
                SourceKind::Script => "script parse error"@,
                SourceKind::Module => "module parse error"@,
            }) + location(f, filename),
        ),
        too_large(kind) is Parse <==> kind == SourceKind::Eval,
        too_large(kind) is Runtime <==> kind != SourceKind::Eval,
{
}

} // verus!
