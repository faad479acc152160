//! What a script is asked to do, one question to the engine at a time.
//!
//! A job says what to ask next (`action`), and takes the engine's answer (`next`).
//! The engine keeps the values that come up on the way; a job only decides.

use vstd::prelude::*;

use crate::error::ParseFault;
use crate::error::Refusal;
use crate::error::Unit;
use crate::error::VmError;
use crate::path::path_parts;
use crate::path::split_path;
use crate::plan::build_plan;
use crate::plan::jsval_to_js;
use crate::plan::steps;
use crate::plan::Build;
use crate::plan::Side;
use crate::request::ModuleStatus;
use crate::value::JsVal;
use crate::watchdog::texts;

verus! {

/// What the engine says of a failure.
#[derive(Debug, PartialEq, Eq)]
pub struct Fault {
    /// The script was stopped.
    pub terminated: bool,
    /// The exception as text, if there is one.
    pub message: Option<String>,
    /// The exception's own stack, if it has one.
    pub stack: Option<String>,
    /// The engine's trace of where it was thrown.
    pub trace: Option<String>,
    /// The script that the engine blames.
    pub resource: Option<String>,
    pub line: Option<u64>,
}

/// What the engine answers.
#[derive(Debug, PartialEq, Eq)]
pub enum Got {
    Yes,
    No,
    /// There is a value, and it is not an object.
    Primitive,
    Value(JsVal),
    Text(String),
    Status(ModuleStatus),
    Failed(Fault),
}

/// What to ask the engine. It keeps a target, which is the global object at
/// first, the target before it, and a key.
#[derive(Debug)]
pub enum Do<'a> {
    /// Make a script string of the source.
    MakeSource(&'a String),
    /// Compile that under this name.
    Compile(&'a String),
    /// Run what was compiled.
    Run,
    /// Turn the value that came out into plain data.
    Marshal,
    /// Is the target an object, or can it be made one?
    ToObject,
    /// Make a key of the text.
    MakeKey(&'a String),
    /// Read the target's property with the key: that is the new target.
    Read,
    /// Is the target a function?
    AskFunction,
    /// Build the arguments, and call the target on the target before it.
    Invoke(&'a Vec<Build>),
    /// Make the host function with this number.
    NewFunction(usize),
    /// Read the target's property with the key: if it is an object, it is the
    /// new target.
    ReadHolder,
    /// Set the target's property with the key to a new object, which is the new
    /// target.
    NewHolder,
    /// Set the target's property with the key to the host function; the target is
    /// the global object again.
    Write,
    /// How far has the module come?
    AskStatus,
    /// The module's exception, as text.
    AskException,
    /// Evaluate the module.
    Evaluate,
    /// Is what came out a promise? If it is rejected, why, as text?
    AskPromise,
    /// Link the module.
    Link,
    /// Turn the module's namespace into plain data.
    ReadNamespace,
}

/// What becomes of a job: it goes on, or it is over.
#[derive(Debug, PartialEq, Eq)]
pub enum Turn<J, R> {
    Again(J),
    Over(R),
}

/// How a script failed.
pub open spec fn thrown(fault: Fault) -> VmError {
    if fault.terminated {
        VmError::Terminated
    } else {
        VmError::JsError {
            message: fault.message,
            stack: if fault.stack is Some {
                fault.stack
            } else {
                fault.trace
            },
        }
    }
}

/// How a script failed, going by an answer that is not the one hoped for.
pub open spec fn failure(got: Got) -> VmError {
    match got {
        Got::Failed(fault) => thrown(fault),
        _ => VmError::JsError { message: None, stack: None },
    }
}

/// The error of a script that failed: that it was stopped, or what it threw. The
/// exception's own stack is preferred to the engine's trace.
pub fn capture_js_error(got: Got) -> (error: VmError)
    ensures
        error == failure(got),
{
    match got {
        Got::Failed(fault) => if fault.terminated {
            VmError::Terminated
        } else {
            let stack = if fault.stack.is_some() {
                fault.stack
            } else {
                fault.trace
            };
            VmError::JsError { message: fault.message, stack }
        },
        _ => VmError::JsError { message: None, stack: None },
    }
}

/// How a compilation failed.
pub open spec fn uncompiled(got: Got, unit: Unit, filename: String) -> VmError {
    match got {
        Got::Failed(fault) => if fault.terminated {
            VmError::Terminated
        } else {
            VmError::Parse(
                ParseFault::Failed {
                    unit,
                    message: fault.message,
                    resource: fault.resource,
                    filename,
                    line: fault.line,
                },
            )
        },
        _ => VmError::Parse(
            ParseFault::Failed { unit, message: None, resource: None, filename, line: None },
        ),
    }
}

/// The error of a compilation that failed: that it was stopped, or what is wrong
/// and where.
pub fn parse_error(got: Got, unit: Unit, filename: String) -> (error: VmError)
    ensures
        error == uncompiled(got, unit, filename),
{
    match got {
        Got::Failed(fault) => if fault.terminated {
            VmError::Terminated
        } else {
            VmError::Parse(
                ParseFault::Failed {
                    unit,
                    message: fault.message,
                    resource: fault.resource,
                    filename,
                    line: fault.line,
                },
            )
        },
        _ => VmError::Parse(
            ParseFault::Failed { unit, message: None, resource: None, filename, line: None },
        ),
    }
}

/// The value that came out as plain data; what was thrown while it was looked at
/// counts as thrown by the script.
pub open spec fn marshalled(got: Got) -> Result<JsVal, VmError> {
    match got {
        Got::Value(v) => Ok(v),
        other => Err(failure(other)),
    }
}

fn marshal(got: Got) -> (out: Result<JsVal, VmError>)
    ensures
        out == marshalled(got),
{
    match got {
        Got::Value(v) => Ok(v),
        other => Err(capture_js_error(other)),
    }
}

#[derive(Debug, Clone, Copy, PartialEq, Eq, Structural)]
pub enum SourceStep {
    MakeSource,
    Compile,
    Run,
    Marshal,
}

/// Compiles source text and runs it.
#[derive(Debug, PartialEq, Eq)]
pub struct SourceJob {
    pub source: String,
    pub filename: String,
    pub void: bool,
    pub step: SourceStep,
}

impl SourceJob {
    pub open spec fn to_do(self) -> Do<'static> {
        match self.step {
            SourceStep::MakeSource => Do::MakeSource(&self.source),
            SourceStep::Compile => Do::Compile(&self.filename),
            SourceStep::Run => Do::Run,
            SourceStep::Marshal => Do::Marshal,
        }
    }

    pub open spec fn after(self, got: Got) -> Turn<SourceJob, Result<JsVal, VmError>> {
        match self.step {
            SourceStep::MakeSource => if got is Yes {
                Turn::Again(SourceJob { step: SourceStep::Compile, ..self })
            } else {
                Turn::Over(Err(VmError::Parse(ParseFault::TooLarge)))
            },
            SourceStep::Compile => if got is Yes {
                Turn::Again(SourceJob { step: SourceStep::Run, ..self })
            } else {
                Turn::Over(Err(uncompiled(got, Unit::Source, self.filename)))
            },
            SourceStep::Run => if got !is Yes {
                Turn::Over(Err(failure(got)))
            } else if self.void {
                Turn::Over(Ok(JsVal::Undefined))
            } else {
                Turn::Again(SourceJob { step: SourceStep::Marshal, ..self })
            },
            SourceStep::Marshal => Turn::Over(marshalled(got)),
        }
    }

    /// A job that runs source text.
    pub fn run_source(source: String, filename: String, void: bool) -> (job: SourceJob)
        ensures
            job == (SourceJob { source, filename, void, step: SourceStep::MakeSource }),
    {
        SourceJob { source, filename, void, step: SourceStep::MakeSource }
    }

    pub fn action(&self) -> (action: Do<'_>)
        ensures
            action == self.to_do(),
    {
        match self.step {
            SourceStep::MakeSource => Do::MakeSource(&self.source),
            SourceStep::Compile => Do::Compile(&self.filename),
            SourceStep::Run => Do::Run,
            SourceStep::Marshal => Do::Marshal,
        }
    }

    /// Text that the engine cannot hold, and text that does not compile, are parse
    /// errors; what is thrown afterwards is the script's error.
    pub fn next(self, got: Got) -> (turn: Turn<SourceJob, Result<JsVal, VmError>>)
        ensures
            turn == self.after(got),
    {
        match self.step {
            SourceStep::MakeSource => match got {
                Got::Yes => Turn::Again(SourceJob { step: SourceStep::Compile, ..self }),
                _ => Turn::Over(Err(VmError::Parse(ParseFault::TooLarge))),
            },
            SourceStep::Compile => match got {
                Got::Yes => Turn::Again(SourceJob { step: SourceStep::Run, ..self }),
                other => Turn::Over(Err(parse_error(other, Unit::Source, self.filename))),
            },
            SourceStep::Run => match got {
                Got::Yes => if self.void {
                    Turn::Over(Ok(JsVal::Undefined))
                } else {
                    Turn::Again(SourceJob { step: SourceStep::Marshal, ..self })
                },
                other => Turn::Over(Err(capture_js_error(other))),
            },
            SourceStep::Marshal => Turn::Over(marshal(got)),
        }
    }
}

/// Runs a compiled script.
#[derive(Debug, Clone, Copy, PartialEq, Eq, Structural)]
pub struct ScriptJob {
    pub void: bool,
    /// The script has run, and its value is to be looked at.
    pub ran: bool,
}

impl ScriptJob {
    pub open spec fn after(self, got: Got) -> Turn<ScriptJob, Result<JsVal, VmError>> {
        if self.ran {
            Turn::Over(marshalled(got))
        } else if got !is Yes {
            Turn::Over(Err(failure(got)))
        } else if self.void {
            Turn::Over(Ok(JsVal::Undefined))
        } else {
            Turn::Again(ScriptJob { ran: true, ..self })
        }
    }

    pub fn action(&self) -> (action: Do<'static>)
        ensures
            action == (if self.ran {
                Do::Marshal
            } else {
                Do::Run
            }),
    {
        if self.ran {
            Do::Marshal
        } else {
            Do::Run
        }
    }

    pub fn next(self, got: Got) -> (turn: Turn<ScriptJob, Result<JsVal, VmError>>)
        ensures
            turn == self.after(got),
    {
        if self.ran {
            Turn::Over(marshal(got))
        } else {
            match got {
                Got::Yes => if self.void {
                    Turn::Over(Ok(JsVal::Undefined))
                } else {
                    Turn::Again(ScriptJob { ran: true, ..self })
                },
                other => Turn::Over(Err(capture_js_error(other))),
            }
        }
    }
}

/// Each of these builds the value in the same place.
pub open spec fn built(builds: Seq<Build>, values: Seq<JsVal>, max_string: usize) -> bool {
    &&& builds.len() == values.len()
    &&& forall|i: int|
        0 <= i < builds.len() ==> build_plan(
            Side::JavaScript { max_string },
            (#[trigger] values[i]).tree(),
        ) == Some((steps(builds[i].ops@), builds[i].root as nat))
}

#[derive(Debug, Clone, Copy, PartialEq, Eq, Structural)]
pub enum CallStep {
    ToObject,
    MakeKey,
    Read,
    AskFunction,
    Invoke,
    Marshal,
}

/// Finds the function at a dotted path and calls it. Its holder is `this`.
#[derive(Debug, PartialEq, Eq)]
pub struct CallJob {
    pub name: String,
    pub parts: Vec<String>,
    /// How the arguments are built.
    pub args: Vec<Build>,
    pub void: bool,
    /// The part that is being looked up.
    pub at: usize,
    pub step: CallStep,
}

impl CallJob {
    pub open spec fn wf(self) -> bool {
        &&& texts(self.parts@) == path_parts(self.name@)
        &&& self.at < self.parts@.len()
    }

    pub open spec fn to_do(self) -> Do<'static> {
        match self.step {
            CallStep::ToObject => Do::ToObject,
            CallStep::MakeKey => Do::MakeKey(&self.parts@[self.at as int]),
            CallStep::Read => Do::Read,
            CallStep::AskFunction => Do::AskFunction,
            CallStep::Invoke => Do::Invoke(&self.args),
            CallStep::Marshal => Do::Marshal,
        }
    }

    pub open spec fn refused(refusal: Refusal) -> Turn<CallJob, Result<JsVal, VmError>> {
        Turn::Over(Err(VmError::Runtime(refusal)))
    }

    pub open spec fn after(self, got: Got) -> Turn<CallJob, Result<JsVal, VmError>> {
        let part = self.parts@[self.at as int];
        match self.step {
            CallStep::ToObject => if got is Yes {
                Turn::Again(CallJob { step: CallStep::MakeKey, ..self })
            } else {
                Self::refused(Refusal::NothingToRead { name: self.name, part })
            },
            CallStep::MakeKey => if got is Yes {
                Turn::Again(CallJob { step: CallStep::Read, ..self })
            } else {
                Self::refused(Refusal::PropertyTooLarge)
            },
            CallStep::Read => match got {
                Got::Yes => if self.at + 1 < self.parts@.len() {
                    Turn::Again(
                        CallJob { at: (self.at + 1) as usize, step: CallStep::ToObject, ..self },
                    )
                } else {
                    Turn::Again(CallJob { step: CallStep::AskFunction, ..self })
                },
                Got::Failed(fault) => if fault.terminated {
                    Turn::Over(Err(VmError::Terminated))
                } else {
                    Self::refused(
                        Refusal::CannotRead { name: self.name, part, thrown: fault.message },
                    )
                },
                _ => Self::refused(Refusal::CannotRead { name: self.name, part, thrown: None }),
            },
            CallStep::AskFunction => if got is Yes {
                Turn::Again(CallJob { step: CallStep::Invoke, ..self })
            } else {
                Self::refused(Refusal::NotAFunction { name: self.name })
            },
            CallStep::Invoke => if got !is Yes {
                Turn::Over(Err(failure(got)))
            } else if self.void {
                Turn::Over(Ok(JsVal::Undefined))
            } else {
                Turn::Again(CallJob { step: CallStep::Marshal, ..self })
            },
            CallStep::Marshal => Turn::Over(marshalled(got)),
        }
    }

    /// A job that calls the function at a path.
    pub fn call_function(name: String, args: Vec<JsVal>, void: bool, max_string: usize) -> (job:
        CallJob)
        ensures
            job.wf(),
            job == (CallJob {
                name,
                parts: job.parts,
                args: job.args,
                void,
                at: 0,
                step: CallStep::ToObject,
            }),
            built(job.args@, args@, max_string),
    {
        let ghost all = args@;
        let parts = split_path(name.as_str());
        let mut builds: Vec<Build> = Vec::new();
        for arg in it: args
            invariant
                it.seq() == all,
                built(builds@, all.take(it.index()), max_string),
        {
            let ghost before = builds@;
            builds.push(jsval_to_js(arg, max_string));
            assert forall|i: int| 0 <= i < builds@.len() implies build_plan(
                Side::JavaScript { max_string },
                (#[trigger] all.take(it.index() + 1)[i]).tree(),
            ) == Some((steps(builds@[i].ops@), builds@[i].root as nat)) by {
                if i < before.len() {
                    assert(all.take(it.index() + 1)[i] == all.take(it.index())[i]);
                }
            }
        }
        assert(all.take(all.len() as int) =~= all);
        CallJob { name, parts, args: builds, void, at: 0, step: CallStep::ToObject }
    }

    pub fn action(&self) -> (action: Do<'_>)
        requires
            self.wf(),
        ensures
            action == self.to_do(),
    {
        match self.step {
            CallStep::ToObject => Do::ToObject,
            CallStep::MakeKey => Do::MakeKey(&self.parts[self.at]),
            CallStep::Read => Do::Read,
            CallStep::AskFunction => Do::AskFunction,
            CallStep::Invoke => Do::Invoke(&self.args),
            CallStep::Marshal => Do::Marshal,
        }
    }

    /// Nothing is read of what is no object, and only a function is called.
    pub fn next(self, got: Got) -> (turn: Turn<CallJob, Result<JsVal, VmError>>)
        requires
            self.wf(),
        ensures
            turn == self.after(got),
            turn matches Turn::Again(job) ==> job.wf(),
    {
        match self.step {
            CallStep::ToObject => match got {
                Got::Yes => Turn::Again(CallJob { step: CallStep::MakeKey, ..self }),
                _ => {
                    let mut parts = self.parts;
                    let part = parts.remove(self.at);
                    Turn::Over(
                        Err(VmError::Runtime(Refusal::NothingToRead { name: self.name, part })),
                    )
                },
            },
            CallStep::MakeKey => match got {
                Got::Yes => Turn::Again(CallJob { step: CallStep::Read, ..self }),
                _ => Turn::Over(Err(VmError::Runtime(Refusal::PropertyTooLarge))),
            },
            CallStep::Read => {
                let thrown = match got {
                    Got::Yes => {
                        return if self.at < self.parts.len() - 1 {
                            Turn::Again(
                                CallJob { at: self.at + 1, step: CallStep::ToObject, ..self },
                            )
                        } else {
                            Turn::Again(CallJob { step: CallStep::AskFunction, ..self })
                        };
                    },
                    Got::Failed(fault) => {
                        if fault.terminated {
                            return Turn::Over(Err(VmError::Terminated));
                        }
                        fault.message
                    },
                    _ => None,
                };
                let mut parts = self.parts;
                let part = parts.remove(self.at);
                Turn::Over(
                    Err(VmError::Runtime(Refusal::CannotRead { name: self.name, part, thrown })),
                )
            },
            CallStep::AskFunction => match got {
                Got::Yes => Turn::Again(CallJob { step: CallStep::Invoke, ..self }),
                _ => Turn::Over(Err(VmError::Runtime(Refusal::NotAFunction { name: self.name }))),
            },
            CallStep::Invoke => match got {
                Got::Yes => if self.void {
                    Turn::Over(Ok(JsVal::Undefined))
                } else {
                    Turn::Again(CallJob { step: CallStep::Marshal, ..self })
                },
                other => Turn::Over(Err(capture_js_error(other))),
            },
            CallStep::Marshal => Turn::Over(marshal(got)),
        }
    }
}

#[derive(Debug, Clone, Copy, PartialEq, Eq, Structural)]
pub enum AttachStep {
    NewFunction,
    MakeKey,
    ReadHolder,
    NewHolder,
    MakeLeaf,
    Write,
}

/// Puts host functions at their dotted paths, one after the other, and makes the
/// objects on the way that are missing. Those before a failure stay.
#[derive(Debug, PartialEq, Eq)]
pub struct AttachJob {
    pub entries: Vec<(String, usize)>,
    pub paths: Vec<Vec<String>>,
    pub many: bool,
    /// The function that is being put in place.
    pub entry: usize,
    /// The part of its path that is being looked up.
    pub at: usize,
    pub step: AttachStep,
}

impl AttachJob {
    pub open spec fn split(self) -> bool {
        &&& self.paths@.len() == self.entries@.len()
        &&& forall|i: int|
            0 <= i < self.paths@.len() ==> (#[trigger] self.paths@[i])@.len() > 0 && texts(
                self.paths@[i]@,
            ) == path_parts(self.entries@[i].0@)
    }

    pub open spec fn wf(self) -> bool {
        &&& self.split()
        &&& self.entry < self.entries@.len()
        &&& self.step is MakeKey || self.step is ReadHolder || self.step is NewHolder ==> self.at
            < self.leaf()
        &&& self.at <= self.leaf()
    }

    /// Where in the path its last part stands.
    pub open spec fn leaf(self) -> int {
        self.paths@[self.entry as int]@.len() - 1
    }

    pub open spec fn part(self, k: int) -> String {
        self.paths@[self.entry as int]@[k]
    }

    pub open spec fn name(self) -> String {
        self.entries@[self.entry as int].0
    }

    pub open spec fn to_do(self) -> Do<'static> {
        match self.step {
            AttachStep::NewFunction => Do::NewFunction(self.entries@[self.entry as int].1),
            AttachStep::MakeKey => Do::MakeKey(&self.part(self.at as int)),
            AttachStep::ReadHolder => Do::ReadHolder,
            AttachStep::NewHolder => Do::NewHolder,
            AttachStep::MakeLeaf => Do::MakeKey(&self.part(self.leaf())),
            AttachStep::Write => Do::Write,
        }
    }

    pub open spec fn refused(refusal: Refusal) -> Turn<AttachJob, Result<JsVal, VmError>> {
        Turn::Over(Err(VmError::Runtime(refusal)))
    }

    /// The job once the parts before this one have been gone through.
    pub open spec fn walked(self, at: int) -> Turn<AttachJob, Result<JsVal, VmError>> {
        if at >= self.leaf() {
            Turn::Again(AttachJob { at: at as usize, step: AttachStep::MakeLeaf, ..self })
        } else if self.part(at)@.len() == 0 {
            Self::refused(Refusal::AttachName { name: self.name() })
        } else {
            Turn::Again(AttachJob { at: at as usize, step: AttachStep::MakeKey, ..self })
        }
    }

    /// The job before the function with this index.
    pub open spec fn at_entry(self, entry: int) -> Turn<AttachJob, Result<JsVal, VmError>> {
        if entry < self.entries@.len() {
            Turn::Again(
                AttachJob { entry: entry as usize, at: 0, step: AttachStep::NewFunction, ..self },
            )
        } else {
            Turn::Over(Ok(JsVal::Undefined))
        }
    }

    pub open spec fn after(self, got: Got) -> Turn<AttachJob, Result<JsVal, VmError>> {
        match self.step {
            AttachStep::NewFunction => if got !is Yes {
                Self::refused(
                    if self.many {
                        Refusal::NoFunctionFor { name: self.name() }
                    } else {
                        Refusal::NoFunction
                    },
                )
            } else if self.part(self.leaf())@.len() == 0 {
                Self::refused(Refusal::AttachName { name: self.name() })
            } else {
                self.walked(0)
            },
            AttachStep::MakeKey => if got is Yes {
                Turn::Again(AttachJob { step: AttachStep::ReadHolder, ..self })
            } else {
                Self::refused(Refusal::NameTooLarge)
            },
            AttachStep::ReadHolder => match got {
                Got::Yes => self.walked(self.at + 1),
                Got::Primitive => Self::refused(
                    Refusal::NotAnObject { name: self.name(), part: self.part(self.at as int) },
                ),
                _ => Turn::Again(AttachJob { step: AttachStep::NewHolder, ..self }),
            },
            AttachStep::NewHolder => if got is Yes {
                self.walked(self.at + 1)
            } else {
                Self::refused(
                    Refusal::CannotCreate { name: self.name(), part: self.part(self.at as int) },
                )
            },
            AttachStep::MakeLeaf => if got is Yes {
                Turn::Again(AttachJob { step: AttachStep::Write, ..self })
            } else {
                Self::refused(Refusal::NameTooLarge)
            },
            AttachStep::Write => if got is Yes {
                self.at_entry(self.entry + 1)
            } else {
                Self::refused(Refusal::NotWritable { name: self.name() })
            },
        }
    }

    /// A job that puts host functions in place.
    pub fn attach(entries: Vec<(String, usize)>, many: bool) -> (job: AttachJob)
        ensures
            job.split(),
            job == (AttachJob {
                entries,
                paths: job.paths,
                many,
                entry: 0,
                at: 0,
                step: AttachStep::NewFunction,
            }),
    {
        let mut paths: Vec<Vec<String>> = Vec::new();
        let mut i: usize = 0;
        while i < entries.len()
            invariant
                i <= entries@.len(),
                paths@.len() == i,
                forall|k: int|
                    0 <= k < i ==> (#[trigger] paths@[k])@.len() > 0 && texts(paths@[k]@)
                        == path_parts(entries@[k].0@),
            decreases entries@.len() - i,
        {
            let path = split_path(entries[i].0.as_str());
            paths.push(path);
            i = i + 1;
        }
        AttachJob { entries, paths, many, entry: 0, at: 0, step: AttachStep::NewFunction }
    }

    /// Starts with the first function. If there is none, there is nothing to do.
    pub fn start(self) -> (turn: Turn<AttachJob, Result<JsVal, VmError>>)
        requires
            self.split(),
        ensures
            turn == self.at_entry(0),
            turn matches Turn::Again(job) ==> job.wf(),
    {
        self.go_to(0)
    }

    fn go_to(self, entry: usize) -> (turn: Turn<AttachJob, Result<JsVal, VmError>>)
        requires
            self.split(),
        ensures
            turn == self.at_entry(entry as int),
            turn matches Turn::Again(job) ==> job.wf(),
    {
        if entry < self.entries.len() {
            let job = AttachJob { entry, at: 0, step: AttachStep::NewFunction, ..self };
            assert(job.paths@[entry as int]@.len() > 0);
            Turn::Again(job)
        } else {
            Turn::Over(Ok(JsVal::Undefined))
        }
    }

    fn into_name(self) -> (name: String)
        requires
            self.entry < self.entries@.len(),
        ensures
            name == self.name(),
    {
        let mut entries = self.entries;
        entries.remove(self.entry).0
    }

    fn into_part(self) -> (both: (String, String))
        requires
            self.wf(),
            self.at < self.leaf(),
        ensures
            both == (self.name(), self.part(self.at as int)),
    {
        let mut entries = self.entries;
        let mut paths = self.paths;
        let mut path = paths.remove(self.entry);
        let part = path.remove(self.at);
        (entries.remove(self.entry).0, part)
    }

    fn walk(self, at: usize) -> (turn: Turn<AttachJob, Result<JsVal, VmError>>)
        requires
            self.wf(),
            at <= self.leaf(),
        ensures
            turn == self.walked(at as int),
            turn matches Turn::Again(job) ==> job.wf(),
    {
        if at == self.paths[self.entry].len() - 1 {
            Turn::Again(AttachJob { at, step: AttachStep::MakeLeaf, ..self })
        } else if self.paths[self.entry][at].as_str().unicode_len() == 0 {
            Turn::Over(Err(VmError::Runtime(Refusal::AttachName { name: self.into_name() })))
        } else {
            Turn::Again(AttachJob { at, step: AttachStep::MakeKey, ..self })
        }
    }

    fn walk_on(self) -> (turn: Turn<AttachJob, Result<JsVal, VmError>>)
        requires
            self.wf(),
            self.at < self.leaf(),
        ensures
            turn == self.walked(self.at + 1),
            turn matches Turn::Again(job) ==> job.wf(),
    {
        let length: usize = self.paths[self.entry].len();
        assert(self.at < length);
        let at: usize = self.at + 1;
        self.walk(at)
    }

    pub fn action(&self) -> (action: Do<'_>)
        requires
            self.wf(),
        ensures
            action == self.to_do(),
    {
        match self.step {
            AttachStep::NewFunction => Do::NewFunction(self.entries[self.entry].1),
            AttachStep::MakeKey => Do::MakeKey(&self.paths[self.entry][self.at]),
            AttachStep::ReadHolder => Do::ReadHolder,
            AttachStep::NewHolder => Do::NewHolder,
            AttachStep::MakeLeaf => {
                let path = &self.paths[self.entry];
                Do::MakeKey(&path[path.len() - 1])
            },
            AttachStep::Write => Do::Write,
        }
    }

    /// What is there is not clobbered: a value on the way that is no object stops
    /// the job.
    pub fn next(self, got: Got) -> (turn: Turn<AttachJob, Result<JsVal, VmError>>)
        requires
            self.wf(),
        ensures
            turn == self.after(got),
            turn matches Turn::Again(job) ==> job.wf(),
    {
        match self.step {
            AttachStep::NewFunction => match got {
                Got::Yes => {
                    let path = &self.paths[self.entry];
                    if path[path.len() - 1].as_str().unicode_len() == 0 {
                        Turn::Over(
                            Err(VmError::Runtime(Refusal::AttachName { name: self.into_name() })),
                        )
                    } else {
                        self.walk(0)
                    }
                },
                _ => if self.many {
                    Turn::Over(
                        Err(VmError::Runtime(Refusal::NoFunctionFor { name: self.into_name() })),
                    )
                } else {
                    Turn::Over(Err(VmError::Runtime(Refusal::NoFunction)))
                },
            },
            AttachStep::MakeKey => match got {
                Got::Yes => Turn::Again(AttachJob { step: AttachStep::ReadHolder, ..self }),
                _ => Turn::Over(Err(VmError::Runtime(Refusal::NameTooLarge))),
            },
            AttachStep::ReadHolder => match got {
                Got::Yes => self.walk_on(),
                Got::Primitive => {
                    let (name, part) = self.into_part();
                    Turn::Over(Err(VmError::Runtime(Refusal::NotAnObject { name, part })))
                },
                _ => Turn::Again(AttachJob { step: AttachStep::NewHolder, ..self }),
            },
            AttachStep::NewHolder => match got {
                Got::Yes => self.walk_on(),
                _ => {
                    let (name, part) = self.into_part();
                    Turn::Over(Err(VmError::Runtime(Refusal::CannotCreate { name, part })))
                },
            },
            AttachStep::MakeLeaf => match got {
                Got::Yes => Turn::Again(AttachJob { step: AttachStep::Write, ..self }),
                _ => Turn::Over(Err(VmError::Runtime(Refusal::NameTooLarge))),
            },
            AttachStep::Write => match got {
                Got::Yes => {
                    let count: usize = self.entries.len();
                    assert(self.entry < count);
                    let entry: usize = self.entry + 1;
                    self.go_to(entry)
                },
                _ => Turn::Over(
                    Err(VmError::Runtime(Refusal::NotWritable { name: self.into_name() })),
                ),
            },
        }
    }
}

/// Links a module.
#[derive(Debug, Clone, Copy, PartialEq, Eq, Structural)]
pub enum LinkJob {
    AskStatus,
    AskException,
    Link,
}

impl LinkJob {
    pub open spec fn to_do(self) -> Do<'static> {
        match self {
            LinkJob::AskStatus => Do::AskStatus,
            LinkJob::AskException => Do::AskException,
            LinkJob::Link => Do::Link,
        }
    }

    pub open spec fn after(self, got: Got) -> Turn<LinkJob, Result<JsVal, VmError>> {
        match self {
            LinkJob::AskStatus => match got {
                Got::Status(ModuleStatus::Instantiated) | Got::Status(ModuleStatus::Evaluating)
                | Got::Status(ModuleStatus::Evaluated) => Turn::Over(Ok(JsVal::Undefined)),
                Got::Status(ModuleStatus::Errored) => Turn::Again(LinkJob::AskException),
                _ => Turn::Again(LinkJob::Link),
            },
            LinkJob::AskException => Turn::Over(Err(told(got))),
            LinkJob::Link => if got is Yes {
                Turn::Over(Ok(JsVal::Undefined))
            } else {
                Turn::Over(Err(failure(got)))
            },
        }
    }

    pub fn action(&self) -> (action: Do<'static>)
        ensures
            action == self.to_do(),
    {
        match self {
            LinkJob::AskStatus => Do::AskStatus,
            LinkJob::AskException => Do::AskException,
            LinkJob::Link => Do::Link,
        }
    }

    /// A module that is linked already stays as it is, and one that has failed is
    /// not linked again: its exception is told.
    pub fn next(self, got: Got) -> (turn: Turn<LinkJob, Result<JsVal, VmError>>)
        ensures
            turn == self.after(got),
    {
        match self {
            LinkJob::AskStatus => match got {
                Got::Status(ModuleStatus::Instantiated) | Got::Status(ModuleStatus::Evaluating)
                | Got::Status(ModuleStatus::Evaluated) => Turn::Over(Ok(JsVal::Undefined)),
                Got::Status(ModuleStatus::Errored) => Turn::Again(LinkJob::AskException),
                _ => Turn::Again(LinkJob::Link),
            },
            LinkJob::AskException => Turn::Over(Err(tell(got))),
            LinkJob::Link => match got {
                Got::Yes => Turn::Over(Ok(JsVal::Undefined)),
                other => Turn::Over(Err(capture_js_error(other))),
            },
        }
    }
}

/// An error known only by its text.
pub open spec fn told(got: Got) -> VmError {
    VmError::JsError {
        message: match got {
            Got::Text(text) => Some(text),
            _ => None,
        },
        stack: None,
    }
}

fn tell(got: Got) -> (error: VmError)
    ensures
        error == told(got),
{
    let message = match got {
        Got::Text(text) => Some(text),
        _ => None,
    };
    VmError::JsError { message, stack: None }
}

/// Evaluates a module.
#[derive(Debug, Clone, Copy, PartialEq, Eq, Structural)]
pub enum EvaluateJob {
    AskStatus,
    AskException,
    Evaluate,
    AskPromise,
}

/// How the evaluation of a module went.
#[derive(Debug, PartialEq, Eq)]
pub struct Evaluated {
    /// Code of the module ran.
    pub ran_js: bool,
    /// A promise is to be looked at again once the queues have been drained.
    pub pending: bool,
    pub outcome: Result<JsVal, VmError>,
}

impl EvaluateJob {
    pub open spec fn to_do(self) -> Do<'static> {
        match self {
            EvaluateJob::AskStatus => Do::AskStatus,
            EvaluateJob::AskException => Do::AskException,
            EvaluateJob::Evaluate => Do::Evaluate,
            EvaluateJob::AskPromise => Do::AskPromise,
        }
    }

    pub open spec fn over(
        ran_js: bool,
        pending: bool,
        outcome: Result<JsVal, VmError>,
    ) -> Turn<EvaluateJob, Evaluated> {
        Turn::Over(Evaluated { ran_js, pending, outcome })
    }

    pub open spec fn after(self, got: Got) -> Turn<EvaluateJob, Evaluated> {
        match self {
            EvaluateJob::AskStatus => match got {
                Got::Status(ModuleStatus::Errored) => Turn::Again(EvaluateJob::AskException),
                Got::Status(ModuleStatus::Evaluated) => Self::over(
                    false,
                    false,
                    Ok(JsVal::Undefined),
                ),
                Got::Status(ModuleStatus::Instantiated) => Turn::Again(EvaluateJob::Evaluate),
                _ => Self::over(false, false, Err(VmError::Runtime(Refusal::EvaluateTooEarly))),
            },
            EvaluateJob::AskException => Self::over(false, false, Err(told(got))),
            EvaluateJob::Evaluate => if got is Yes {
                Turn::Again(EvaluateJob::AskPromise)
            } else {
                Self::over(true, false, Err(failure(got)))
            },
            EvaluateJob::AskPromise => match got {
                Got::Text(_) => Self::over(true, false, Err(told(got))),
                Got::Yes => Self::over(true, true, Ok(JsVal::Undefined)),
                _ => Self::over(true, false, Ok(JsVal::Undefined)),
            },
        }
    }

    pub fn action(&self) -> (action: Do<'static>)
        ensures
            action == self.to_do(),
    {
        match self {
            EvaluateJob::AskStatus => Do::AskStatus,
            EvaluateJob::AskException => Do::AskException,
            EvaluateJob::Evaluate => Do::Evaluate,
            EvaluateJob::AskPromise => Do::AskPromise,
        }
    }

    /// Only a module that is linked and no further is evaluated. One that has been
    /// stays as it is; of one that has failed, the exception is told.
    pub fn next(self, got: Got) -> (turn: Turn<EvaluateJob, Evaluated>)
        ensures
            turn == self.after(got),
    {
        match self {
            EvaluateJob::AskStatus => match got {
                Got::Status(ModuleStatus::Errored) => Turn::Again(EvaluateJob::AskException),
                Got::Status(ModuleStatus::Evaluated) => Turn::Over(
                    Evaluated { ran_js: false, pending: false, outcome: Ok(JsVal::Undefined) },
                ),
                Got::Status(ModuleStatus::Instantiated) => Turn::Again(EvaluateJob::Evaluate),
                _ => Turn::Over(
                    Evaluated {
                        ran_js: false,
                        pending: false,
                        outcome: Err(VmError::Runtime(Refusal::EvaluateTooEarly)),
                    },
                ),
            },
            EvaluateJob::AskException => Turn::Over(
                Evaluated { ran_js: false, pending: false, outcome: Err(tell(got)) },
            ),
            EvaluateJob::Evaluate => match got {
                Got::Yes => Turn::Again(EvaluateJob::AskPromise),
                other => Turn::Over(
                    Evaluated { ran_js: true, pending: false, outcome: Err(capture_js_error(other)) },
                ),
            },
            EvaluateJob::AskPromise => match got {
                Got::Text(text) => Turn::Over(
                    Evaluated { ran_js: true, pending: false, outcome: Err(tell(Got::Text(text))) },
                ),
                Got::Yes => Turn::Over(
                    Evaluated { ran_js: true, pending: true, outcome: Ok(JsVal::Undefined) },
                ),
                _ => Turn::Over(
                    Evaluated { ran_js: true, pending: false, outcome: Ok(JsVal::Undefined) },
                ),
            },
        }
    }
}

/// Reads a module's namespace.
#[derive(Debug, Clone, Copy, PartialEq, Eq, Structural)]
pub enum NamespaceJob {
    AskStatus,
    AskException,
    Read,
}

impl NamespaceJob {
    pub open spec fn to_do(self) -> Do<'static> {
        match self {
            NamespaceJob::AskStatus => Do::AskStatus,
            NamespaceJob::AskException => Do::AskException,
            NamespaceJob::Read => Do::ReadNamespace,
        }
    }

    pub open spec fn after(self, got: Got) -> Turn<NamespaceJob, Result<JsVal, VmError>> {
        match self {
            NamespaceJob::AskStatus => match got {
                Got::Status(ModuleStatus::Errored) => Turn::Again(NamespaceJob::AskException),
                Got::Status(status) => if status.linked() {
                    Turn::Again(NamespaceJob::Read)
                } else {
                    Turn::Over(Err(VmError::Runtime(Refusal::NamespaceTooEarly)))
                },
                _ => Turn::Over(Err(VmError::Runtime(Refusal::NamespaceTooEarly))),
            },
            NamespaceJob::AskException => Turn::Over(Err(told(got))),
            NamespaceJob::Read => Turn::Over(marshalled(got)),
        }
    }

    pub fn action(&self) -> (action: Do<'static>)
        ensures
            action == self.to_do(),
    {
        match self {
            NamespaceJob::AskStatus => Do::AskStatus,
            NamespaceJob::AskException => Do::AskException,
            NamespaceJob::Read => Do::ReadNamespace,
        }
    }

    /// Only a linked module has a namespace to read; of one that has failed, the
    /// exception is told.
    pub fn next(self, got: Got) -> (turn: Turn<NamespaceJob, Result<JsVal, VmError>>)
        ensures
            turn == self.after(got),
    {
        match self {
            NamespaceJob::AskStatus => match got {
                Got::Status(ModuleStatus::Errored) => Turn::Again(NamespaceJob::AskException),
                Got::Status(status) => if status.is_linked() {
                    Turn::Again(NamespaceJob::Read)
                } else {
                    Turn::Over(Err(VmError::Runtime(Refusal::NamespaceTooEarly)))
                },
                _ => Turn::Over(Err(VmError::Runtime(Refusal::NamespaceTooEarly))),
            },
            NamespaceJob::AskException => Turn::Over(Err(tell(got))),
            NamespaceJob::Read => Turn::Over(marshal(got)),
        }
    }
}

/// A job that has been given one answer after the other.
pub open spec fn call_after(job: CallJob, answers: Seq<Got>) -> Turn<
    CallJob,
    Result<JsVal, VmError>,
>
    decreases answers.len(),
{
    if answers.len() == 0 {
        Turn::Again(job)
    } else {
        match call_after(job, answers.drop_last()) {
            Turn::Again(j) => j.after(answers.last()),
            over => over,
        }
    }
}

pub open spec fn yes(n: nat) -> Seq<Got> {
    Seq::new(n, |i: int| Got::Yes)
}

pub proof fn lemma_call_walks(job: CallJob, k: nat)
    requires
        job.at == 0,
        job.step is ToObject,
        k <= job.parts@.len(),
        job.parts@.len() <= usize::MAX,
    ensures
        call_after(job, yes(3 * k)) == (if k < job.parts@.len() {
            Turn::<CallJob, Result<JsVal, VmError>>::Again(CallJob { at: k as usize, ..job })
        } else if k == 0 {
            Turn::Again(job)
        } else {
            Turn::Again(CallJob { at: (k - 1) as usize, step: CallStep::AskFunction, ..job })
        }),
    decreases k,
{
    if k > 0 {
        let before = (k - 1) as nat;
        lemma_call_walks(job, before);
        let n = 3 * before;
        assert(yes(n + 1).drop_last() =~= yes(n));
        assert(yes(n + 2).drop_last() =~= yes(n + 1));
        assert(yes(n + 3).drop_last() =~= yes(n + 2));
        let j = CallJob { at: before as usize, ..job };
        assert(call_after(job, yes(n)) == Turn::<CallJob, Result<JsVal, VmError>>::Again(j));
        let j1 = CallJob { step: CallStep::MakeKey, ..j };
        assert(call_after(job, yes(n + 1)) == Turn::<CallJob, Result<JsVal, VmError>>::Again(j1));
        let j2 = CallJob { step: CallStep::Read, ..j };
        assert(call_after(job, yes(n + 2)) == Turn::<CallJob, Result<JsVal, VmError>>::Again(j2));
        assert(3 * k == n + 3);
    }
}

/// A call reads every part of its path in order: the k-th key that it makes is the
/// k-th part. Once all of them have been read, and not before, it asks whether it
/// has come to a function, and calls it only if it has.
pub proof fn law_call_reads_its_path(job: CallJob, k: nat)
    requires
        job.wf(),
        job.at == 0,
        job.step is ToObject,
        job.parts@.len() <= usize::MAX,
        k < job.parts@.len(),
    ensures
        ({
            let parts = path_parts(job.name@);
            &&& call_after(job, yes(3 * k + 1)) matches Turn::Again(j) && j.to_do()
                matches Do::MakeKey(part) && part@ == parts[k as int]
            &&& call_after(job, yes(3 * parts.len())) matches Turn::Again(j) && j.to_do()
                is AskFunction
            &&& call_after(job, yes(3 * parts.len() + 1)) matches Turn::Again(j) && j.to_do()
                is Invoke
            &&& call_after(job, yes(3 * parts.len()).push(Got::No)) == Turn::<
                CallJob,
                Result<JsVal, VmError>,
            >::Over(Err(VmError::Runtime(Refusal::NotAFunction { name: job.name })))
        }),
{
    let n = job.parts@.len();
    assert(texts(job.parts@).len() == n);
    lemma_call_walks(job, k);
    lemma_call_walks(job, n);
    assert(yes(3 * k + 1).drop_last() =~= yes(3 * k));
    assert(texts(job.parts@)[k as int] == job.parts@[k as int]@);
    assert(yes(3 * n + 1).drop_last() =~= yes(3 * n));
    assert(yes(3 * n).push(Got::No).drop_last() =~= yes(3 * n));
}

/// A job that has been given one answer after the other.
pub open spec fn attach_after(job: AttachJob, answers: Seq<Got>) -> Turn<
    AttachJob,
    Result<JsVal, VmError>,
>
    decreases answers.len(),
{
    if answers.len() == 0 {
        Turn::Again(job)
    } else {
        match attach_after(job, answers.drop_last()) {
            Turn::Again(j) => j.after(answers.last()),
            over => over,
        }
    }
}

/// A path that a function can be put at: no part of it is empty.
pub open spec fn attachable(job: AttachJob) -> bool {
    forall|k: int| 0 <= k <= job.leaf() ==> (#[trigger] job.part(k))@.len() > 0
}

pub proof fn lemma_attach_walks(job: AttachJob, k: nat)
    requires
        job.wf(),
        job.step is NewFunction,
        job.at == 0,
        attachable(job),
        k <= job.leaf(),
        job.paths@[job.entry as int]@.len() <= usize::MAX,
    ensures
        attach_after(job, yes(1 + 2 * k)) == Turn::<AttachJob, Result<JsVal, VmError>>::Again(
            AttachJob {
                at: k as usize,
                step: if k < job.leaf() {
                    AttachStep::MakeKey
                } else {
                    AttachStep::MakeLeaf
                },
                ..job
            },
        ),
    decreases k,
{
    assert(yes(1).drop_last() =~= yes(0));
    assert(job.part(job.leaf())@.len() > 0);
    if k == 0 {
        assert(job.part(0)@.len() > 0);
        assert(attach_after(job, yes(0)) == Turn::<AttachJob, Result<JsVal, VmError>>::Again(job));
    } else {
        let before = (k - 1) as nat;
        lemma_attach_walks(job, before);
        let n = 1 + 2 * before;
        let j = AttachJob { at: before as usize, step: AttachStep::MakeKey, ..job };
        assert(yes(n + 1).drop_last() =~= yes(n));
        assert(yes(n + 2).drop_last() =~= yes(n + 1));
        assert(attach_after(job, yes(n + 1)) == Turn::<AttachJob, Result<JsVal, VmError>>::Again(
            AttachJob { step: AttachStep::ReadHolder, ..j },
        ));
        assert(job.part(k as int)@.len() > 0);
        assert(1 + 2 * k == n + 2);
    }
}

/// A function is put at its path: the objects on the way are looked up part by
/// part, then the function is written under the last part, and the job goes on to
/// the next function.
pub proof fn law_attach_follows_its_path(job: AttachJob, k: nat)
    requires
        job.wf(),
        job.step is NewFunction,
        job.at == 0,
        attachable(job),
        job.paths@[job.entry as int]@.len() <= usize::MAX,
        k <= job.leaf(),
    ensures
        ({
            let parts = path_parts(job.name()@);
            let last = (parts.len() - 1) as nat;
            &&& attach_after(job, yes(1 + 2 * k)) matches Turn::Again(j) && j.to_do()
                matches Do::MakeKey(part) && part@ == parts[k as int]
            &&& k < last ==> (attach_after(job, yes(2 + 2 * k)) matches Turn::Again(j) && j.to_do()
                is ReadHolder)
            &&& attach_after(job, yes(2 + 2 * last)) matches Turn::Again(j) && j.to_do() is Write
            &&& attach_after(job, yes(3 + 2 * last)) == job.at_entry(job.entry + 1)
        }),
{
    let path = job.paths@[job.entry as int]@;
    assert(texts(path) == path_parts(job.name()@));
    assert(texts(path).len() == path.len());
    assert(texts(path)[k as int] == path[k as int]@);
    let last = (path.len() - 1) as nat;
    lemma_attach_walks(job, k);
    lemma_attach_walks(job, last);
    assert(yes(2 + 2 * k).drop_last() =~= yes(1 + 2 * k));
    assert(yes(2 + 2 * last).drop_last() =~= yes(1 + 2 * last));
    assert(yes(3 + 2 * last).drop_last() =~= yes(2 + 2 * last));
}

/// Work that is done for its effect never looks at the value that comes out, so
/// that nothing that looking at it would run can fail it; other work does, and
/// what is thrown then fails it.
pub proof fn law_void_work_ignores_the_value(
    source: SourceJob,
    script: ScriptJob,
    call: CallJob,
    got: Got,
)
    ensures
        source.void && source.step !is Marshal ==> (source.after(got) matches Turn::Again(j)
            ==> j.void && j.step !is Marshal),
        script.void && !script.ran ==> script.after(got) is Over,
        call.void && call.step !is Marshal ==> (call.after(got) matches Turn::Again(j) ==> j.void
            && j.step !is Marshal),
        !source.void && source.step is Run && got is Yes ==> (source.after(got) matches Turn::Again(
            j,
        ) && j.to_do() is Marshal),
        !call.void && call.step is Invoke && got is Yes ==> (call.after(got) matches Turn::Again(j)
            && j.to_do() is Marshal),
        source.step is Marshal && got is Failed ==> (source.after(got) matches Turn::Over(Err(_))),
        call.step is Marshal && got is Failed ==> (call.after(got) matches Turn::Over(Err(_))),
        script.ran && got is Failed ==> (script.after(got) matches Turn::Over(Err(_))),
{
}

/// What the engine says of a failure comes through whole: that the script was
/// stopped, or else the exception's text, with its own stack if it has one and the
/// engine's trace if it has not. A compilation that fails names what was being
/// compiled and under which name, with what the engine blames and where. Where the
/// engine says nothing, nothing is made up.
pub proof fn law_failures_come_through(fault: Fault, unit: Unit, filename: String, got: Got, text: String)
    requires
        got !is Failed,
    ensures
        fault.terminated ==> failure(Got::Failed(fault)) is Terminated,
        fault.terminated ==> uncompiled(Got::Failed(fault), unit, filename) is Terminated,
        !fault.terminated ==> (failure(Got::Failed(fault)) matches VmError::JsError {
            message,
            stack,
        } && message == fault.message && (fault.stack is Some ==> stack == fault.stack) && (
        fault.stack is None ==> stack == fault.trace)),
        !fault.terminated ==> (uncompiled(Got::Failed(fault), unit, filename) matches VmError::Parse(
            ParseFault::Failed { unit: u, message, resource, filename: name, line },
        ) && u == unit && message == fault.message && resource == fault.resource && name == filename
            && line == fault.line),
        failure(got) matches VmError::JsError { message, stack } && message is None && stack is None,
        uncompiled(got, unit, filename) matches VmError::Parse(
            ParseFault::Failed { unit: u, message, resource, filename: name, line },
        ) && u == unit && message is None && resource is None && name == filename && line is None,
        told(Got::Text(text)) matches VmError::JsError { message, stack } && message == Some(text)
            && stack is None,
        got !is Text ==> (told(got) matches VmError::JsError { message, stack } && message is None
            && stack is None),
{
}

/// What comes out of a script is its value as it was read; if it could not be read,
/// that is the script's failure.
pub proof fn law_value_is_handed_over(value: JsVal, got: Got)
    requires
        got !is Value,
    ensures
        marshalled(Got::Value(value)) == Ok::<JsVal, VmError>(value),
        marshalled(got) == Err::<JsVal, VmError>(failure(got)),
{
}

/// Text that the engine makes no string of is too large to parse; text that it does
/// not compile is a parse error of the source, under the name it was given.
pub proof fn law_bad_source_is_a_parse_error(job: SourceJob, got: Got)
    requires
        got !is Yes,
    ensures
        job.step is MakeSource ==> job.after(got) == Turn::<SourceJob, Result<JsVal, VmError>>::Over(
            Err(VmError::Parse(ParseFault::TooLarge)),
        ),
        job.step is Compile ==> job.after(got) == Turn::<SourceJob, Result<JsVal, VmError>>::Over(
            Err(uncompiled(got, Unit::Source, job.filename)),
        ),
{
}

/// A call that goes wrong on its way says at which part of which path: where there
/// is nothing to read from, and where reading threw, with what was thrown. A script
/// that was stopped counts as stopped.
pub proof fn law_call_faults_name_the_part(job: CallJob, got: Got)
    requires
        job.wf(),
        got !is Yes,
    ensures
        ({
            let turn = job.after(got);
            let part = path_parts(job.name@)[job.at as int];
            &&& job.step is ToObject ==> (turn matches Turn::Over(
                Err(VmError::Runtime(Refusal::NothingToRead { name, part: p })),
            ) && name == job.name && p@ == part)
            &&& job.step is MakeKey ==> turn == Turn::<CallJob, Result<JsVal, VmError>>::Over(
                Err(VmError::Runtime(Refusal::PropertyTooLarge)),
            )
            &&& job.step is Read ==> match got {
                Got::Failed(fault) if fault.terminated => turn == Turn::<
                    CallJob,
                    Result<JsVal, VmError>,
                >::Over(Err(VmError::Terminated)),
                Got::Failed(fault) => turn matches Turn::Over(
                    Err(VmError::Runtime(Refusal::CannotRead { name, part: p, thrown })),
                ) && name == job.name && p@ == part && thrown == fault.message,
                _ => turn matches Turn::Over(
                    Err(VmError::Runtime(Refusal::CannotRead { name, part: p, thrown })),
                ) && name == job.name && p@ == part && thrown is None,
            }
            &&& job.step is Invoke ==> turn == Turn::<CallJob, Result<JsVal, VmError>>::Over(
                Err(failure(got)),
            )
            &&& job.step is AskFunction ==> turn == Turn::<CallJob, Result<JsVal, VmError>>::Over(
                Err(VmError::Runtime(Refusal::NotAFunction { name: job.name })),
            )
        }),
{
    assert(texts(job.parts@)[job.at as int] == job.parts@[job.at as int]@);
}

/// What a call does it does with what it was given: the path, the arguments and
/// whether a value is wanted stay the same to its end, and so do those of other
/// script work.
pub proof fn law_jobs_keep_what_they_were_given(
    source: SourceJob,
    script: ScriptJob,
    call: CallJob,
    attach: AttachJob,
    got: Got,
)
    ensures
        source.after(got) matches Turn::Again(j) ==> j.source == source.source && j.filename
            == source.filename && j.void == source.void,
        script.after(got) matches Turn::Again(j) ==> j.void == script.void,
        call.after(got) matches Turn::Again(j) ==> j.name == call.name && j.parts == call.parts
            && j.args == call.args && j.void == call.void,
        attach.after(got) matches Turn::Again(j) ==> j.entries == attach.entries && j.paths
            == attach.paths && j.many == attach.many,
{
}

/// A function that cannot be put in place says which, and at which part of its
/// path: a name with an empty part is no name; a value on the way that is no object
/// is not clobbered; and nothing is put where it cannot be written.
pub proof fn law_attach_faults_name_the_part(job: AttachJob, got: Got)
    requires
        job.wf(),
        got !is Yes,
    ensures
        ({
            let turn = job.after(got);
            let whole = job.entries@[job.entry as int].0;
            let part = path_parts(whole@)[job.at as int];
            &&& job.step is NewFunction && job.many ==> turn == Turn::<
                AttachJob,
                Result<JsVal, VmError>,
            >::Over(Err(VmError::Runtime(Refusal::NoFunctionFor { name: whole })))
            &&& job.step is NewFunction && !job.many ==> turn == Turn::<
                AttachJob,
                Result<JsVal, VmError>,
            >::Over(Err(VmError::Runtime(Refusal::NoFunction)))
            &&& job.step is MakeKey || job.step is MakeLeaf ==> turn == Turn::<
                AttachJob,
                Result<JsVal, VmError>,
            >::Over(Err(VmError::Runtime(Refusal::NameTooLarge)))
            &&& job.step is ReadHolder && got is Primitive ==> (turn matches Turn::Over(
                Err(VmError::Runtime(Refusal::NotAnObject { name, part: p })),
            ) && name == whole && p@ == part)
            &&& job.step is ReadHolder && got !is Primitive ==> (turn matches Turn::Again(j)
                && j.to_do() is NewHolder && j.at == job.at && j.entry == job.entry)
            &&& job.step is NewHolder ==> (turn matches Turn::Over(
                Err(VmError::Runtime(Refusal::CannotCreate { name, part: p })),
            ) && name == whole && p@ == part)
            &&& job.step is Write ==> turn == Turn::<AttachJob, Result<JsVal, VmError>>::Over(
                Err(VmError::Runtime(Refusal::NotWritable { name: whole })),
            )
        }),
{
    let path = job.paths@[job.entry as int]@;
    assert(texts(path)[job.at as int] == path[job.at as int]@);
}

/// A path with an empty part is refused where that part comes up: if it is the last
/// one before anything is touched, and otherwise before a key is made of it.
pub proof fn law_attach_names_have_no_empty_part(job: AttachJob)
    requires
        job.wf(),
    ensures
        ({
            let whole = job.entries@[job.entry as int].0;
            let parts = path_parts(whole@);
            let turn = job.after(Got::Yes);
            let refused = Turn::<AttachJob, Result<JsVal, VmError>>::Over(
                Err(VmError::Runtime(Refusal::AttachName { name: whole })),
            );
            &&& job.step is NewFunction ==> (turn == refused <==> parts.last().len() == 0 || (
            parts[0].len() == 0))
            &&& (job.step is ReadHolder || job.step is NewHolder) && job.at + 1 < job.leaf() ==> (
            turn == refused <==> parts[job.at + 1].len() == 0)
        }),
{
    let path = job.paths@[job.entry as int]@;
    assert(texts(path).len() == path.len());
    assert(texts(path).last() == path.last()@);
    assert(texts(path)[0] == path[0]@);
    if job.at + 1 < job.leaf() {
        assert(texts(path)[job.at + 1] == path[job.at + 1]@);
    }
}

/// A holder that had to be made is gone into as one that was there.
pub proof fn law_new_holders_are_gone_into(job: AttachJob, other: AttachJob)
    requires
        job.step is ReadHolder,
        other == (AttachJob { step: AttachStep::NewHolder, ..job }),
    ensures
        job.after(Got::Yes) == other.after(Got::Yes),
{
}

/// How linking goes by the module's status. A module that is linked, running or has
/// run is left alone, one that has failed tells its exception, and any other is
/// linked: that is done if the engine says so, and what it failed with is told if
/// not.
pub proof fn law_link_goes_by_the_status(status: ModuleStatus, got: Got)
    requires
        got !is Yes,
    ensures
        LinkJob::AskStatus.to_do() is AskStatus,
        status is Uninstantiated || status is Instantiating ==> (LinkJob::AskStatus.after(
            Got::Status(status),
        ) matches Turn::Again(job) && job.to_do() is Link && job.after(Got::Yes) == Turn::<
            LinkJob,
            Result<JsVal, VmError>,
        >::Over(Ok(JsVal::Undefined)) && job.after(got) == Turn::<
            LinkJob,
            Result<JsVal, VmError>,
        >::Over(Err(failure(got)))),
        status is Instantiated || status is Evaluating || status is Evaluated
            ==> LinkJob::AskStatus.after(Got::Status(status)) == Turn::<
            LinkJob,
            Result<JsVal, VmError>,
        >::Over(Ok(JsVal::Undefined)),
        status is Errored ==> (LinkJob::AskStatus.after(Got::Status(status)) matches Turn::Again(job)
            && job.to_do() is AskException && job.after(got) == Turn::<
            LinkJob,
            Result<JsVal, VmError>,
        >::Over(Err(told(got)))),
{
}

/// How evaluation goes by the module's status. One that is linked runs, one that
/// has run stays as it is, one that has failed tells its exception, and any other
/// is refused; code runs in none but the first case. A promise that the module
/// leaves is told apart: one that is rejected fails the evaluation, one that is
/// pending is looked at again, anything else is success.
pub proof fn law_evaluation_goes_by_the_status(status: ModuleStatus, got: Got, text: String)
    requires
        got !is Yes,
    ensures
        ({
            let turn = EvaluateJob::AskStatus.after(Got::Status(status));
            &&& EvaluateJob::AskStatus.to_do() is AskStatus
            &&& status is Instantiated ==> {
                &&& turn matches Turn::Again(job)
                &&& job.to_do() is Evaluate
                &&& job.after(got) matches Turn::Over(end)
                &&& end.ran_js && !end.pending && end.outcome == Err::<JsVal, VmError>(failure(got))
                &&& job.after(Got::Yes) matches Turn::Again(promise)
                &&& promise.to_do() is AskPromise
                &&& promise.after(Got::Text(text)) matches Turn::Over(bad)
                &&& bad.ran_js && !bad.pending && bad.outcome == Err::<JsVal, VmError>(
                    told(Got::Text(text)),
                )
                &&& promise.after(Got::Yes) matches Turn::Over(open)
                &&& open.ran_js && open.pending && open.outcome == Ok::<JsVal, VmError>(
                    JsVal::Undefined,
                )
                &&& got !is Text ==> (promise.after(got) matches Turn::Over(fine) && fine.ran_js
                    && !fine.pending && fine.outcome == Ok::<JsVal, VmError>(JsVal::Undefined))
            }
            &&& status is Evaluated ==> (turn matches Turn::Over(end) && !end.ran_js
                && !end.pending && end.outcome == Ok::<JsVal, VmError>(JsVal::Undefined))
            &&& status is Errored ==> {
                &&& turn matches Turn::Again(job)
                &&& job.to_do() is AskException
                &&& job.after(got) matches Turn::Over(end)
                &&& !end.ran_js && !end.pending && end.outcome == Err::<JsVal, VmError>(told(got))
            }
            &&& status is Uninstantiated || status is Instantiating || status is Evaluating ==> (
            turn matches Turn::Over(end) && !end.ran_js && !end.pending && end.outcome == Err::<
                JsVal,
                VmError,
            >(VmError::Runtime(Refusal::EvaluateTooEarly)))
        }),
{
}

/// How reading a namespace goes by the module's status: once it is linked there is
/// one to read, unless the module has failed, which tells its exception.
pub proof fn law_namespace_goes_by_the_status(status: ModuleStatus, got: Got, value: JsVal)
    requires
        got !is Value,
    ensures
        ({
            let turn = NamespaceJob::AskStatus.after(Got::Status(status));
            &&& NamespaceJob::AskStatus.to_do() is AskStatus
            &&& status is Instantiated || status is Evaluating || status is Evaluated ==> {
                &&& turn matches Turn::Again(job)
                &&& job.to_do() is ReadNamespace
                &&& job.after(Got::Value(value)) == Turn::<
                    NamespaceJob,
                    Result<JsVal, VmError>,
                >::Over(Ok(value))
                &&& job.after(got) == Turn::<NamespaceJob, Result<JsVal, VmError>>::Over(
                    Err(failure(got)),
                )
            }
            &&& status is Errored ==> (turn matches Turn::Again(job) && job.to_do() is AskException
                && job.after(got) == Turn::<NamespaceJob, Result<JsVal, VmError>>::Over(
                Err(told(got)),
            ))
            &&& status is Uninstantiated || status is Instantiating ==> turn == Turn::<
                NamespaceJob,
                Result<JsVal, VmError>,
            >::Over(Err(VmError::Runtime(Refusal::NamespaceTooEarly)))
        }),
{
}

} // verus!
