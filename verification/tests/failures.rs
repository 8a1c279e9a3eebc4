use rusty_racer::failures::{
    capture_js_error, compile_failure, compile_source, parse_js_stack, plain_compile_failure,
    plain_run_failure, run_failure, runtime_error, source_too_large, CompileFailure, CompileMode,
    SourceKind, Thrown,
};

fn show<T: std::fmt::Debug>(t: T) -> String {
    format!("{t:?}")
}

#[test]
fn frames_read_like_ruby_frames() {
    let stack = "Error: boom\n    at deep (app.js:3:9)\n    at Object.run (lib/x.js:10:1)\n    at app.js:1:7\n";
    assert_eq!(
        parse_js_stack(stack),
        ["app.js:3:9:in 'deep'", "lib/x.js:10:1:in 'Object.run'", "app.js:1:7"]
    );
    assert_eq!(parse_js_stack("    at <anonymous> (app.js:1:7)"), ["app.js:1:7:in '<anonymous>'"]);
}

#[test]
fn lines_that_are_no_frames_are_passed_over() {
    assert!(parse_js_stack("").is_empty());
    assert!(parse_js_stack("Error: at work\nattic\nat").is_empty());
    assert_eq!(parse_js_stack("at x\r\nmessage\n\tat y (z"), ["x", "y (z"]);
    assert_eq!(parse_js_stack("at eval (eval at f (a.js:1:2))"), ["eval at f (a.js:1:2):in 'eval'"]);
}

#[test]
fn an_exception_prefers_its_own_stack() {
    let t = |own: Option<&str>, recorded: Option<&str>| Thrown {
        exception: Some("Error: e".to_string()),
        own_stack: own.map(|s| s.to_string()),
        recorded_stack: recorded.map(|s| s.to_string()),
    };
    assert_eq!(
        show(capture_js_error(t(Some("at a"), Some("at b")))),
        "JsError { message: \"Error: e\", backtrace: [\"a\"] }"
    );
    assert_eq!(
        show(capture_js_error(t(None, Some("at b")))),
        "JsError { message: \"Error: e\", backtrace: [\"b\"] }"
    );
    assert_eq!(
        show(capture_js_error(Thrown { exception: None, own_stack: None, recorded_stack: None })),
        "JsError { message: \"unexpected failure\", backtrace: [] }"
    );
    assert_eq!(show(run_failure(true, t(None, None))), "Terminated");
    assert_eq!(
        show(run_failure(false, t(None, None))),
        "JsError { message: \"Error: e\", backtrace: [] }"
    );
}

#[test]
fn a_parse_error_names_its_place() {
    let f = |exception: Option<&str>, resource: Option<&str>, line: Option<u64>| CompileFailure {
        exception: exception.map(|s| s.to_string()),
        resource: resource.map(|s| s.to_string()),
        line,
    };
    let e = |kind, failure| show(compile_failure(kind, false, failure, "given.js"));
    assert_eq!(e(SourceKind::Eval, f(Some("S"), Some("r.js"), Some(12))), "Parse(\"S at r.js:12\")");
    assert_eq!(e(SourceKind::Eval, f(None, None, None)), "Parse(\"parse error at given.js\")");
    assert_eq!(e(SourceKind::Script, f(None, None, Some(1))), "Parse(\"script parse error at given.js:1\")");
    assert_eq!(e(SourceKind::Module, f(None, None, Some(0))), "Parse(\"module parse error at given.js:0\")");
    assert_eq!(show(compile_failure(SourceKind::Eval, true, f(None, None, None), "g")), "Terminated");
}

#[test]
fn plain_failures_have_no_place() {
    assert_eq!(show(plain_compile_failure(false, None)), "Parse(\"parse error\")");
    assert_eq!(show(plain_compile_failure(false, Some("S".to_string()))), "Parse(\"S\")");
    assert_eq!(show(plain_compile_failure(true, None)), "Terminated");
    assert_eq!(show(plain_run_failure(false, None)), "Runtime(\"unexpected failure\")");
    assert_eq!(show(plain_run_failure(true, None)), "Terminated");
    assert_eq!(show(runtime_error("x")), "Runtime(\"x\")");
}

#[test]
fn too_large_a_source() {
    assert_eq!(show(source_too_large(SourceKind::Eval)), "Parse(\"source too large\")");
    assert_eq!(show(source_too_large(SourceKind::Script)), "Runtime(\"script source too large\")");
    assert_eq!(show(source_too_large(SourceKind::Module)), "Runtime(\"module source too large\")");
}

#[test]
fn the_cache_goes_before_eagerness() {
    assert_eq!(compile_source(true, true), CompileMode::ConsumeCache);
    assert_eq!(compile_source(false, true), CompileMode::Eager);
    assert_eq!(compile_source(false, false), CompileMode::Lazy);
}
