//! What goes wrong, and what is said of it.

use vstd::prelude::*;

use crate::rb_read::RbRefusal;
use crate::stack_text::js_frames;
use crate::stack_text::parse_js_stack;
use crate::text::numeral;
use crate::text::write_number;
use crate::watchdog::texts;

verus! {

/// What was being compiled.
#[derive(Debug, Clone, Copy, PartialEq, Eq, Structural)]
pub enum Unit {
    Source,
    Module,
    Script,
}

/// A compilation that failed.
#[derive(Debug, PartialEq, Eq)]
pub enum ParseFault {
    /// The engine makes no string of that length.
    TooLarge,
    Failed {
        unit: Unit,
        /// What the engine says is wrong.
        message: Option<String>,
        /// The script that the engine says it is wrong in.
        resource: Option<String>,
        /// The name that the script was given.
        filename: String,
        line: Option<u64>,
    },
}

/// Why an operation was refused, or could not be done.
#[derive(Debug, PartialEq, Eq)]
pub enum Refusal {
    RealmGone,
    ContextGone,
    UnknownModule,
    ModuleContextGone,
    UnknownScript,
    ScriptContextGone,
    ModuleSourceTooLarge,
    ScriptSourceTooLarge,
    ResetWhileDraining,
    DisposeWhileDraining,
    ResetWhileSuspended,
    DisposeWhileSuspended,
    InstantiateNested,
    EvaluateTooEarly,
    NamespaceTooEarly,
    GraphAsyncTooEarly,
    AttachName { name: String },
    NameTooLarge,
    NotAnObject { name: String, part: String },
    CannotCreate { name: String, part: String },
    NotWritable { name: String },
    NoFunction,
    NoFunctionFor { name: String },
    NothingToRead { name: String, part: String },
    PropertyTooLarge,
    CannotRead { name: String, part: String, thrown: Option<String> },
    NotAFunction { name: String },
}

/// How an operation failed.
#[derive(Debug, PartialEq, Eq)]
pub enum VmError {
    /// The code could not be compiled.
    Parse(ParseFault),
    /// The operation was refused or could not be done; no script failed.
    Runtime(Refusal),
    /// The script threw. The text of its stack is as the engine gave it.
    JsError { message: Option<String>, stack: Option<String> },
    /// The script was stopped, by a deadline or on request.
    Terminated,
    /// The script ran out of memory.
    OutOfMemory,
}

/// The exception classes that are raised: `RustyRacer::Error` and those under it;
/// and, for text that is not in the encoding it claims and for a date that is none,
/// two of Ruby's own.
#[derive(Debug, Clone, Copy, PartialEq, Eq, Structural)]
pub enum ErrorClass {
    /// `RustyRacer::Error` itself, for a value or an argument that cannot be taken.
    Base,
    Parse,
    Runtime,
    ScriptTerminated,
    OutOfMemory,
    Disposed,
    WrongThread,
    Snapshot,
    PlatformAlreadyInitialized,
    RubyEncoding,
    RubyRange,
}

impl ErrorClass {
    /// The class is one of the library's own.
    pub open spec fn own(self) -> bool {
        match self {
            ErrorClass::RubyEncoding | ErrorClass::RubyRange => false,
            _ => true,
        }
    }

    pub open spec fn spelled(self) -> Seq<char> {
        match self {
            ErrorClass::Base => "Error"@,
            ErrorClass::Parse => "ParseError"@,
            ErrorClass::Runtime => "RuntimeError"@,
            ErrorClass::ScriptTerminated => "ScriptTerminatedError"@,
            ErrorClass::OutOfMemory => "V8OutOfMemoryError"@,
            ErrorClass::Disposed => "DisposedError"@,
            ErrorClass::WrongThread => "WrongThreadError"@,
            ErrorClass::Snapshot => "SnapshotError"@,
            ErrorClass::PlatformAlreadyInitialized => "PlatformAlreadyInitialized"@,
            ErrorClass::RubyEncoding => "EncodingError"@,
            ErrorClass::RubyRange => "RangeError"@,
        }
    }

    /// The class's name, under `RustyRacer` if it is one of the library's own.
    pub fn name(self) -> (name: &'static str)
        ensures
            name@ == self.spelled(),
    {
        match self {
            ErrorClass::Base => "Error",
            ErrorClass::Parse => "ParseError",
            ErrorClass::Runtime => "RuntimeError",
            ErrorClass::ScriptTerminated => "ScriptTerminatedError",
            ErrorClass::OutOfMemory => "V8OutOfMemoryError",
            ErrorClass::Disposed => "DisposedError",
            ErrorClass::WrongThread => "WrongThreadError",
            ErrorClass::Snapshot => "SnapshotError",
            ErrorClass::PlatformAlreadyInitialized => "PlatformAlreadyInitialized",
            ErrorClass::RubyEncoding => "EncodingError",
            ErrorClass::RubyRange => "RangeError",
        }
    }

    /// Is the class one of the library's own?
    pub fn is_own(self) -> (own: bool)
        ensures
            own == self.own(),
    {
        match self {
            ErrorClass::RubyEncoding | ErrorClass::RubyRange => false,
            _ => true,
        }
    }
}

/// A Ruby exception to be raised.
#[derive(Debug, PartialEq, Eq)]
pub struct RubyError {
    pub class: ErrorClass,
    pub message: String,
    /// The backtrace to set; `None` leaves Ruby's own.
    pub backtrace: Option<Vec<String>>,
    /// The script's stack, for an exception that shows it as `js_backtrace`.
    pub js_backtrace: Option<Vec<String>>,
}

/// What an exception says.
pub struct ErrorView {
    pub class: ErrorClass,
    pub message: Seq<char>,
    pub backtrace: Option<Seq<Seq<char>>>,
    pub js_backtrace: Option<Seq<Seq<char>>>,
}

pub open spec fn lines_of(lines: Option<Vec<String>>) -> Option<Seq<Seq<char>>> {
    match lines {
        Some(v) => Some(texts(v@)),
        None => None,
    }
}

impl RubyError {
    pub open spec fn view(&self) -> ErrorView {
        ErrorView {
            class: self.class,
            message: self.message@,
            backtrace: lines_of(self.backtrace),
            js_backtrace: lines_of(self.js_backtrace),
        }
    }

    /// An exception with a message and nothing else.
    pub fn plain(class: ErrorClass, message: String) -> (error: RubyError)
        ensures
            error@ == plain_error(class, message@),
    {
        RubyError { class, message, backtrace: None, js_backtrace: None }
    }
}

pub open spec fn plain_error(class: ErrorClass, message: Seq<char>) -> ErrorView {
    ErrorView { class, message, backtrace: None, js_backtrace: None }
}

/// Text or what stands for missing text.
pub open spec fn text_or(text: Option<String>, otherwise: Seq<char>) -> Seq<char> {
    match text {
        Some(s) => s@,
        None => otherwise,
    }
}

/// What is said of a compilation that failed: what is wrong, in which script,
/// and, if the engine knows it, in which line.
pub open spec fn parse_text(fault: ParseFault) -> Seq<char> {
    match fault {
        ParseFault::TooLarge => "source too large"@,
        ParseFault::Failed { unit, message, resource, filename, line } => text_or(
            message,
            match unit {
                Unit::Source => "parse error"@,
                Unit::Module => "module parse error"@,
                Unit::Script => "script parse error"@,
            },
        ) + " at "@ + text_or(resource, filename@) + (match line {
            Some(n) => ":"@ + numeral(n as nat, 10),
            None => seq![],
        }),
    }
}

fn append_or(out: &mut String, text: &Option<String>, otherwise: &str)
    ensures
        final(out)@ == old(out)@ + text_or(*text, otherwise@),
{
    match text {
        Some(s) => out.append(s.as_str()),
        None => out.append(otherwise),
    }
}

impl ParseFault {
    pub fn message(&self) -> (text: String)
        ensures
            text@ == parse_text(*self),
    {
        let mut text: String = String::new();
        match self {
            ParseFault::TooLarge => text.append("source too large"),
            ParseFault::Failed { unit, message, resource, filename, line } => {
                let otherwise = match unit {
                    Unit::Source => "parse error",
                    Unit::Module => "module parse error",
                    Unit::Script => "script parse error",
                };
                append_or(&mut text, message, otherwise);
                text.append(" at ");
                append_or(&mut text, resource, filename.as_str());
                if let Some(n) = line {
                    text.append(":");
                    write_number(&mut text, *n, 10);
                }
            },
        }
        assert(text@ =~= parse_text(*self));
        text
    }
}

/// What is said of a refusal.
pub open spec fn refusal_text(refusal: Refusal) -> Seq<char> {
    match refusal {
        Refusal::RealmGone => "realm disposed or unknown"@,
        Refusal::ContextGone => "context disposed or unknown"@,
        Refusal::UnknownModule => "unknown module"@,
        Refusal::ModuleContextGone => "module's context is gone"@,
        Refusal::UnknownScript => "unknown script"@,
        Refusal::ScriptContextGone => "script's context is gone"@,
        Refusal::ModuleSourceTooLarge => "module source too large"@,
        Refusal::ScriptSourceTooLarge => "script source too large"@,
        Refusal::ResetWhileDraining => "cannot reset a realm during a microtask checkpoint"@,
        Refusal::DisposeWhileDraining => "cannot dispose a realm during a microtask checkpoint"@,
        Refusal::ResetWhileSuspended => "cannot reset a realm while a request for it is suspended on the V8 stack"@,
        Refusal::DisposeWhileSuspended => "cannot dispose a realm while a request for it is suspended on the V8 stack"@,
        Refusal::InstantiateNested => "instantiate is not re-entrant: another module is currently instantiating (compile the dependency and return it; the outer instantiate links it)"@,
        Refusal::EvaluateTooEarly => "module must be instantiated before evaluate"@,
        Refusal::NamespaceTooEarly => "module must be instantiated before namespace"@,
        Refusal::GraphAsyncTooEarly => "module must be instantiated before graph_async?"@,
        Refusal::AttachName { name } => "invalid attach name `"@ + name@ + "`"@,
        Refusal::NameTooLarge => "name too large"@,
        Refusal::NotAnObject { name, part } => "`"@ + name@ + "`: `"@ + part@ + "` exists and is not an object"@,
        Refusal::CannotCreate { name, part } => "`"@ + name@ + "`: cannot create `"@ + part@ + "`"@,
        Refusal::NotWritable { name } => "`"@ + name@ + "`: target is not writable/extensible"@,
        Refusal::NoFunction => "failed to build function"@,
        Refusal::NoFunctionFor { name } => "failed to build function for `"@ + name@ + "`"@,
        Refusal::NothingToRead { name, part } => "`"@ + name@ + "`: cannot read `"@ + part@ + "` (a preceding path segment is not an object)"@,
        Refusal::PropertyTooLarge => "property name too large"@,
        Refusal::NotAFunction { name } => "`"@ + name@ + "` is not a function"@,
        Refusal::CannotRead { name, part, thrown } => text_or(
            thrown,
            "cannot read `"@ + part@ + "` of `"@ + name@ + "`"@,
        ),
    }
}

impl Refusal {
    pub fn message(&self) -> (text: String)
        ensures
            text@ == refusal_text(*self),
    {
        let mut text: String = String::new();
        match self {
            Refusal::RealmGone => text.append("realm disposed or unknown"),
            Refusal::ContextGone => text.append("context disposed or unknown"),
            Refusal::UnknownModule => text.append("unknown module"),
            Refusal::ModuleContextGone => text.append("module's context is gone"),
            Refusal::UnknownScript => text.append("unknown script"),
            Refusal::ScriptContextGone => text.append("script's context is gone"),
            Refusal::ModuleSourceTooLarge => text.append("module source too large"),
            Refusal::ScriptSourceTooLarge => text.append("script source too large"),
            Refusal::ResetWhileDraining => text.append("cannot reset a realm during a microtask checkpoint"),
            Refusal::DisposeWhileDraining => text.append("cannot dispose a realm during a microtask checkpoint"),
            Refusal::ResetWhileSuspended => text.append("cannot reset a realm while a request for it is suspended on the V8 stack"),
            Refusal::DisposeWhileSuspended => text.append("cannot dispose a realm while a request for it is suspended on the V8 stack"),
            Refusal::InstantiateNested => text.append("instantiate is not re-entrant: another module is currently instantiating (compile the dependency and return it; the outer instantiate links it)"),
            Refusal::EvaluateTooEarly => text.append("module must be instantiated before evaluate"),
            Refusal::NamespaceTooEarly => text.append("module must be instantiated before namespace"),
            Refusal::GraphAsyncTooEarly => text.append("module must be instantiated before graph_async?"),
            Refusal::AttachName { name } => {
                text.append("invalid attach name `");
                text.append(name.as_str());
                text.append("`");
            },
            Refusal::NameTooLarge => text.append("name too large"),
            Refusal::NotAnObject { name, part } => {
                text.append("`");
                text.append(name.as_str());
                text.append("`: `");
                text.append(part.as_str());
                text.append("` exists and is not an object");
            },
            Refusal::CannotCreate { name, part } => {
                text.append("`");
                text.append(name.as_str());
                text.append("`: cannot create `");
                text.append(part.as_str());
                text.append("`");
            },
            Refusal::NotWritable { name } => {
                text.append("`");
                text.append(name.as_str());
                text.append("`: target is not writable/extensible");
            },
            Refusal::NoFunction => text.append("failed to build function"),
            Refusal::NoFunctionFor { name } => {
                text.append("failed to build function for `");
                text.append(name.as_str());
                text.append("`");
            },
            Refusal::NothingToRead { name, part } => {
                text.append("`");
                text.append(name.as_str());
                text.append("`: cannot read `");
                text.append(part.as_str());
                text.append("` (a preceding path segment is not an object)");
            },
            Refusal::PropertyTooLarge => text.append("property name too large"),
            Refusal::NotAFunction { name } => {
                text.append("`");
                text.append(name.as_str());
                text.append("` is not a function");
            },
            Refusal::CannotRead { name, part, thrown } => match thrown {
                Some(s) => text.append(s.as_str()),
                None => {
                    text.append("cannot read `");
                    text.append(part.as_str());
                    text.append("` of `");
                    text.append(name.as_str());
                    text.append("`");
                },
            },
        }
        assert(text@ =~= refusal_text(*self));
        text
    }
}

/// The message of an exception that the script threw.
pub open spec fn thrown_text(message: Option<String>) -> Seq<char> {
    text_or(message, "unexpected failure"@)
}

/// The script's stack as lines of a Ruby backtrace.
pub open spec fn thrown_frames(stack: Option<String>) -> Seq<Seq<char>> {
    match stack {
        Some(s) => js_frames(s@),
        None => seq![],
    }
}

/// The exception for a failed operation.
pub open spec fn vm_error(error: VmError) -> ErrorView {
    match error {
        VmError::Parse(fault) => plain_error(ErrorClass::Parse, parse_text(fault)),
        VmError::Runtime(refusal) => plain_error(ErrorClass::Runtime, refusal_text(refusal)),
        VmError::JsError { message, stack } => ErrorView {
            class: ErrorClass::Runtime,
            message: thrown_text(message),
            backtrace: Some(thrown_frames(stack)),
            js_backtrace: None,
        },
        VmError::Terminated => terminated_view(None),
        VmError::OutOfMemory => plain_error(
            ErrorClass::OutOfMemory,
            "JavaScript exceeded the isolate memory_limit"@,
        ),
    }
}

/// The exception for a failed operation.
pub fn vm_err(error: VmError) -> (out: RubyError)
    ensures
        out@ == vm_error(error),
{
    match error {
        VmError::Parse(fault) => RubyError::plain(ErrorClass::Parse, fault.message()),
        VmError::Runtime(refusal) => RubyError::plain(ErrorClass::Runtime, refusal.message()),
        VmError::JsError { message, stack } => {
            let message = match message {
                Some(s) => s,
                None => "unexpected failure".to_owned(),
            };
            let lines = match stack {
                Some(s) => parse_js_stack(s.as_str()),
                None => {
                    let none: Vec<String> = Vec::new();
                    assert(texts(none@) =~= seq![]);
                    none
                },
            };
            RubyError {
                class: ErrorClass::Runtime,
                message,
                backtrace: Some(lines),
                js_backtrace: None,
            }
        },
        VmError::Terminated => terminated_error(None),
        VmError::OutOfMemory => RubyError::plain(
            ErrorClass::OutOfMemory,
            "JavaScript exceeded the isolate memory_limit".to_owned(),
        ),
    }
}

/// The exception for a script that was stopped: it names the frame that was
/// running, if the stack was written down, and shows that stack.
pub open spec fn terminated_view(frames: Option<Seq<Seq<char>>>) -> ErrorView {
    let lines = match frames {
        Some(f) => f,
        None => seq![],
    };
    ErrorView {
        class: ErrorClass::ScriptTerminated,
        message: if lines.len() > 0 {
            "JavaScript was terminated (timeout or stop); running: "@ + lines[0]
        } else {
            "JavaScript was terminated (timeout or stop)"@
        },
        backtrace: if lines.len() > 0 {
            Some(lines)
        } else {
            None
        },
        js_backtrace: Some(lines),
    }
}

/// A copy of some lines.
pub fn copy_lines(lines: &Vec<String>) -> (copy: Vec<String>)
    ensures
        texts(copy@) == texts(lines@),
{
    let mut copy: Vec<String> = Vec::new();
    let mut i: usize = 0;
    assert(texts(copy@) =~= texts(lines@.take(0)));
    while i < lines.len()
        invariant
            i <= lines@.len(),
            texts(copy@) == texts(lines@.take(i as int)),
        decreases lines@.len() - i,
    {
        let ghost before = copy@;
        let line = lines[i].clone();
        copy.push(line);
        assert(texts(copy@) =~= texts(before).push(line@));
        assert(texts(lines@.take(i + 1)) =~= texts(lines@.take(i as int)).push(line@));
        i = i + 1;
    }
    assert(lines@.take(i as int) =~= lines@);
    copy
}

/// The exception for a script that was stopped, with the stack written down when
/// its deadline passed.
pub fn terminated_error(frames: Option<Vec<String>>) -> (out: RubyError)
    ensures
        out@ == terminated_view(lines_of(frames)),
{
    let lines: Vec<String> = match frames {
        Some(v) => v,
        None => Vec::new(),
    };
    let mut message = "JavaScript was terminated (timeout or stop)".to_owned();
    let backtrace = if lines.len() > 0 {
        message = "JavaScript was terminated (timeout or stop); running: ".to_owned();
        message.append(lines[0].as_str());
        Some(copy_lines(&lines))
    } else {
        None
    };
    assert(frames is None ==> texts(lines@) =~= seq![]);
    RubyError {
        class: ErrorClass::ScriptTerminated,
        message,
        backtrace,
        js_backtrace: Some(lines),
    }
}

/// The exception for a Ruby value that does not cross.
pub open spec fn refused_value(refusal: RbRefusal) -> ErrorView {
    match refusal {
        RbRefusal::SymbolName => plain_error(
            ErrorClass::RubyEncoding,
            "symbol name is not valid UTF-8"@,
        ),
        RbRefusal::TextBytes => plain_error(
            ErrorClass::RubyEncoding,
            "text-tagged String contains invalid UTF-8 bytes"@,
        ),
        RbRefusal::KeyBytes => plain_error(ErrorClass::RubyEncoding, "hash key is not valid UTF-8"@),
        RbRefusal::KeyText => plain_error(
            ErrorClass::Base,
            "hash key's to_s did not return a String"@,
        ),
        RbRefusal::DeepText => plain_error(ErrorClass::Base, "to_s did not return a String"@),
        RbRefusal::Unsupported => plain_error(
            ErrorClass::Base,
            "unsupported type crossing into JS"@,
        ),
    }
}

/// The exception for a Ruby value that does not cross.
pub fn refuse_value(refusal: RbRefusal) -> (out: RubyError)
    ensures
        out@ == refused_value(refusal),
{
    match refusal {
        RbRefusal::SymbolName => RubyError::plain(
            ErrorClass::RubyEncoding,
            "symbol name is not valid UTF-8".to_owned(),
        ),
        RbRefusal::TextBytes => RubyError::plain(
            ErrorClass::RubyEncoding,
            "text-tagged String contains invalid UTF-8 bytes".to_owned(),
        ),
        RbRefusal::KeyBytes => RubyError::plain(
            ErrorClass::RubyEncoding,
            "hash key is not valid UTF-8".to_owned(),
        ),
        RbRefusal::KeyText => RubyError::plain(
            ErrorClass::Base,
            "hash key's to_s did not return a String".to_owned(),
        ),
        RbRefusal::DeepText => RubyError::plain(
            ErrorClass::Base,
            "to_s did not return a String".to_owned(),
        ),
        RbRefusal::Unsupported => RubyError::plain(
            ErrorClass::Base,
            "unsupported type crossing into JS".to_owned(),
        ),
    }
}

/// The exception for a date that is none.
pub fn invalid_date() -> (out: RubyError)
    ensures
        out@ == plain_error(ErrorClass::RubyRange, "invalid Date"@),
{
    RubyError::plain(ErrorClass::RubyRange, "invalid Date".to_owned())
}

/// A value that does not cross raises one of the library's own classes, unless what
/// is wrong is the encoding of its text.
pub proof fn law_refused_values_raise_own_classes(refusal: RbRefusal)
    ensures
        refused_value(refusal).class.own() <==> !(refusal is SymbolName || refusal is TextBytes
            || refusal is KeyBytes),
        !refused_value(refusal).class.own() ==> refused_value(refusal).class is RubyEncoding,
{
}

/// Whatever way an operation fails, the exception is one of the library's own. One
/// for a script that was stopped always shows the script's stack, if only as empty.
pub proof fn law_failed_operations_raise_own_classes(
    error: VmError,
    frames: Option<Seq<Seq<char>>>,
)
    ensures
        vm_error(error).class.own(),
        vm_error(error).class is ScriptTerminated ==> vm_error(error).js_backtrace is Some,
        terminated_view(frames).class.own(),
        terminated_view(frames).js_backtrace is Some,
{
}

/// An exception says what failed. A compilation that failed is told by its text, a
/// refusal by its own; a script that threw by what it threw, with the script's stack
/// as the backtrace; a script that was stopped, and one that ran out of memory, by
/// classes of their own.
pub proof fn law_exceptions_tell_what_failed(
    fault: ParseFault,
    refusal: Refusal,
    message: Option<String>,
    stack: Option<String>,
)
    ensures
        ({
            let parse = vm_error(VmError::Parse(fault));
            &&& parse.class is Parse && parse.message == parse_text(fault)
            &&& parse.backtrace is None && parse.js_backtrace is None
        }),
        ({
            let refused = vm_error(VmError::Runtime(refusal));
            &&& refused.class is Runtime && refused.message == refusal_text(refusal)
            &&& refused.backtrace is None && refused.js_backtrace is None
        }),
        ({
            let thrown = vm_error(VmError::JsError { message, stack });
            &&& thrown.class is Runtime
            &&& message matches Some(text) ==> thrown.message == text@
            &&& message is None ==> thrown.message == "unexpected failure"@
            &&& stack matches Some(text) ==> thrown.backtrace == Some(js_frames(text@))
            &&& stack is None ==> thrown.backtrace == Some(Seq::<Seq<char>>::empty())
            &&& thrown.js_backtrace is None
        }),
        vm_error(VmError::Terminated).class is ScriptTerminated,
        vm_error(VmError::OutOfMemory).class is OutOfMemory,
{
}

/// The exception for a script that was stopped names the frame that was running and
/// shows the whole stack, the innermost frame first, if it was written down.
pub proof fn law_stopped_script_names_its_frame(frames: Seq<Seq<char>>)
    ensures
        frames.len() > 0 ==> {
            let error = terminated_view(Some(frames));
            &&& error.message == "JavaScript was terminated (timeout or stop); running: "@
                + frames[0]
            &&& error.backtrace == Some(frames)
            &&& error.js_backtrace == Some(frames)
        },
        terminated_view(Some(Seq::<Seq<char>>::empty())) == terminated_view(None),
        terminated_view(None).message == "JavaScript was terminated (timeout or stop)"@,
        terminated_view(None).backtrace is None,
        terminated_view(None).js_backtrace == Some(Seq::<Seq<char>>::empty()),
{
}

/// A parse error says what is wrong, in which script, and in which line: by the
/// script that the engine blames, or else by the name that the source was given.
pub proof fn law_parse_errors_name_the_place(
    unit: Unit,
    message: String,
    resource: Option<String>,
    filename: String,
    line: Option<u64>,
)
    ensures
        ({
            let text = parse_text(
                ParseFault::Failed { unit, message: Some(message), resource, filename, line },
            );
            let place = match resource {
                Some(name) => name@,
                None => filename@,
            };
            &&& line matches Some(n) ==> text == message@ + " at "@ + place + ":"@ + numeral(
                n as nat,
                10,
            )
            &&& line is None ==> text == message@ + " at "@ + place
        }),
{
    let text = parse_text(
        ParseFault::Failed { unit, message: Some(message), resource, filename, line },
    );
    let place = match resource {
        Some(name) => name@,
        None => filename@,
    };
    if let Some(n) = line {
        assert(text =~= message@ + " at "@ + place + ":"@ + numeral(n as nat, 10));
    } else {
        assert(text =~= message@ + " at "@ + place);
    }
}

/// A refusal that is about a path, or about a part of one, names them.
pub proof fn law_refusals_name_the_path(name: String, part: String, thrown: String)
    ensures
        refusal_text(Refusal::AttachName { name }) == "invalid attach name `"@ + name@ + "`"@,
        refusal_text(Refusal::NotAnObject { name, part }) == "`"@ + name@ + "`: `"@ + part@
            + "` exists and is not an object"@,
        refusal_text(Refusal::CannotCreate { name, part }) == "`"@ + name@ + "`: cannot create `"@
            + part@ + "`"@,
        refusal_text(Refusal::NotWritable { name }) == "`"@ + name@
            + "`: target is not writable/extensible"@,
        refusal_text(Refusal::NoFunctionFor { name }) == "failed to build function for `"@ + name@
            + "`"@,
        refusal_text(Refusal::NothingToRead { name, part }) == "`"@ + name@ + "`: cannot read `"@
            + part@ + "` (a preceding path segment is not an object)"@,
        refusal_text(Refusal::NotAFunction { name }) == "`"@ + name@ + "` is not a function"@,
        refusal_text(Refusal::CannotRead { name, part, thrown: None }) == "cannot read `"@ + part@
            + "` of `"@ + name@ + "`"@,
        refusal_text(Refusal::CannotRead { name, part, thrown: Some(thrown) }) == thrown@,
{
}

} // verus!
