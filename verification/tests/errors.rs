use rusty_racer::error::invalid_date;
use rusty_racer::error::refuse_value;
use rusty_racer::error::terminated_error;
use rusty_racer::error::vm_err;
use rusty_racer::error::ErrorClass;
use rusty_racer::error::ParseFault;
use rusty_racer::error::Refusal;
use rusty_racer::error::Unit;
use rusty_racer::error::VmError;
use rusty_racer::rb_read::RbRefusal;

fn refusal(r: Refusal) -> String {
    let error = vm_err(VmError::Runtime(r));
    assert_eq!(error.class, ErrorClass::Runtime);
    assert_eq!(error.backtrace, None);
    error.message
}

#[test]
fn parse_errors_name_the_place() {
    let error = vm_err(VmError::Parse(ParseFault::Failed {
        unit: Unit::Source,
        message: Some("SyntaxError: Unexpected token".to_string()),
        resource: None,
        filename: "app.js".to_string(),
        line: Some(12),
    }));
    assert_eq!(error.class, ErrorClass::Parse);
    assert_eq!(error.message, "SyntaxError: Unexpected token at app.js:12");
    let bare = |unit| {
        vm_err(VmError::Parse(ParseFault::Failed {
            unit,
            message: None,
            resource: Some("other.js".to_string()),
            filename: "app.js".to_string(),
            line: None,
        }))
        .message
    };
    assert_eq!(bare(Unit::Source), "parse error at other.js");
    assert_eq!(bare(Unit::Module), "module parse error at other.js");
    assert_eq!(bare(Unit::Script), "script parse error at other.js");
    assert_eq!(vm_err(VmError::Parse(ParseFault::TooLarge)).message, "source too large");
}

#[test]
fn refusals_say_why() {
    let s = |t: &str| t.to_string();
    assert_eq!(refusal(Refusal::RealmGone), "realm disposed or unknown");
    assert_eq!(refusal(Refusal::ContextGone), "context disposed or unknown");
    assert_eq!(refusal(Refusal::UnknownModule), "unknown module");
    assert_eq!(refusal(Refusal::ModuleContextGone), "module's context is gone");
    assert_eq!(refusal(Refusal::UnknownScript), "unknown script");
    assert_eq!(refusal(Refusal::ScriptContextGone), "script's context is gone");
    assert_eq!(refusal(Refusal::ModuleSourceTooLarge), "module source too large");
    assert_eq!(refusal(Refusal::ScriptSourceTooLarge), "script source too large");
    assert_eq!(
        refusal(Refusal::ResetWhileDraining),
        "cannot reset a realm during a microtask checkpoint"
    );
    assert_eq!(
        refusal(Refusal::DisposeWhileDraining),
        "cannot dispose a realm during a microtask checkpoint"
    );
    assert_eq!(
        refusal(Refusal::ResetWhileSuspended),
        "cannot reset a realm while a request for it is suspended on the V8 stack"
    );
    assert_eq!(
        refusal(Refusal::DisposeWhileSuspended),
        "cannot dispose a realm while a request for it is suspended on the V8 stack"
    );
    assert_eq!(
        refusal(Refusal::InstantiateNested),
        "instantiate is not re-entrant: another module is currently instantiating (compile the \
         dependency and return it; the outer instantiate links it)"
    );
    assert_eq!(
        refusal(Refusal::EvaluateTooEarly),
        "module must be instantiated before evaluate"
    );
    assert_eq!(
        refusal(Refusal::NamespaceTooEarly),
        "module must be instantiated before namespace"
    );
    assert_eq!(
        refusal(Refusal::GraphAsyncTooEarly),
        "module must be instantiated before graph_async?"
    );
    assert_eq!(refusal(Refusal::AttachName { name: s("a..b") }), "invalid attach name `a..b`");
    assert_eq!(refusal(Refusal::NameTooLarge), "name too large");
    assert_eq!(
        refusal(Refusal::NotAnObject { name: s("a.b"), part: s("a") }),
        "`a.b`: `a` exists and is not an object"
    );
    assert_eq!(
        refusal(Refusal::CannotCreate { name: s("a.b"), part: s("a") }),
        "`a.b`: cannot create `a`"
    );
    assert_eq!(
        refusal(Refusal::NotWritable { name: s("a") }),
        "`a`: target is not writable/extensible"
    );
    assert_eq!(refusal(Refusal::NoFunction), "failed to build function");
    assert_eq!(
        refusal(Refusal::NoFunctionFor { name: s("a") }),
        "failed to build function for `a`"
    );
    assert_eq!(
        refusal(Refusal::NothingToRead { name: s("a.b"), part: s("b") }),
        "`a.b`: cannot read `b` (a preceding path segment is not an object)"
    );
    assert_eq!(refusal(Refusal::PropertyTooLarge), "property name too large");
    assert_eq!(
        refusal(Refusal::CannotRead { name: s("a.b"), part: s("b"), thrown: None }),
        "cannot read `b` of `a.b`"
    );
    assert_eq!(
        refusal(Refusal::CannotRead { name: s("a"), part: s("a"), thrown: Some(s("Error: x")) }),
        "Error: x"
    );
    assert_eq!(refusal(Refusal::NotAFunction { name: s("a.b") }), "`a.b` is not a function");
}

#[test]
fn thrown_errors_carry_the_script_stack() {
    let error = vm_err(VmError::JsError {
        message: Some("Error: boom".to_string()),
        stack: Some("Error: boom\n    at app.js:1:7".to_string()),
    });
    assert_eq!(error.class, ErrorClass::Runtime);
    assert_eq!(error.class.name(), "RuntimeError");
    assert!(error.class.is_own());
    assert_eq!(error.message, "Error: boom");
    assert_eq!(error.backtrace, Some(vec!["app.js:1:7".to_string()]));
    let bare = vm_err(VmError::JsError { message: None, stack: None });
    assert_eq!(bare.message, "unexpected failure");
    assert_eq!(bare.backtrace, Some(vec![]));
}

#[test]
fn limits_have_classes_of_their_own() {
    let stopped = vm_err(VmError::Terminated);
    assert_eq!(stopped.class.name(), "ScriptTerminatedError");
    assert_eq!(stopped.message, "JavaScript was terminated (timeout or stop)");
    assert_eq!(stopped.js_backtrace, Some(vec![]));
    assert_eq!(stopped.backtrace, None);
    let full = vm_err(VmError::OutOfMemory);
    assert_eq!(full.class.name(), "V8OutOfMemoryError");
    assert_eq!(full.message, "JavaScript exceeded the isolate memory_limit");
}

#[test]
fn stopped_scripts_name_the_running_frame() {
    let frames = vec!["spin (app.js:1:1)".to_string(), "main (app.js:9:1)".to_string()];
    let error = terminated_error(Some(frames.clone()));
    assert_eq!(
        error.message,
        "JavaScript was terminated (timeout or stop); running: spin (app.js:1:1)"
    );
    assert_eq!(error.backtrace, Some(frames.clone()));
    assert_eq!(error.js_backtrace, Some(frames));
    let bare = terminated_error(None);
    assert_eq!(bare.message, "JavaScript was terminated (timeout or stop)");
    assert_eq!(bare.backtrace, None);
    assert_eq!(bare.js_backtrace, Some(vec![]));
}

#[test]
fn values_that_do_not_cross_are_told_apart() {
    let text = |r| refuse_value(r);
    assert_eq!(text(RbRefusal::SymbolName).message, "symbol name is not valid UTF-8");
    assert_eq!(
        text(RbRefusal::TextBytes).message,
        "text-tagged String contains invalid UTF-8 bytes"
    );
    assert_eq!(text(RbRefusal::KeyBytes).message, "hash key is not valid UTF-8");
    assert_eq!(text(RbRefusal::KeyText).message, "hash key's to_s did not return a String");
    assert_eq!(text(RbRefusal::DeepText).message, "to_s did not return a String");
    assert_eq!(text(RbRefusal::Unsupported).message, "unsupported type crossing into JS");
    assert_eq!(text(RbRefusal::Unsupported).class.name(), "Error");
    assert!(text(RbRefusal::Unsupported).class.is_own());
    assert_eq!(text(RbRefusal::KeyBytes).class.name(), "EncodingError");
    assert_eq!(invalid_date().message, "invalid Date");
    assert_eq!(invalid_date().class.name(), "RangeError");
    assert!(!invalid_date().class.is_own());
}
