//! Snapshots: a heap that new isolates start from.

use vstd::prelude::*;

use crate::error::parse_text;
use crate::error::plain_error;
use crate::error::refusal_text;
use crate::error::thrown_text;
use crate::error::ErrorClass;
use crate::error::ParseFault;
use crate::error::RubyError;
use crate::error::Unit;
use crate::error::VmError;
use crate::jobs::failure;
use crate::jobs::uncompiled;
use crate::jobs::Do;
use crate::jobs::Got;
use crate::jobs::SourceJob;
use crate::jobs::Turn;
use crate::value::JsVal;

verus! {

/// What is said of code that failed while a snapshot was being made.
pub open spec fn snapshot_text(error: VmError) -> Seq<char> {
    match error {
        VmError::Parse(fault) => parse_text(fault),
        VmError::Runtime(refusal) => refusal_text(refusal),
        VmError::JsError { message, .. } => thrown_text(message),
        VmError::Terminated => "snapshot code was terminated"@,
        VmError::OutOfMemory => "snapshot code ran out of memory"@,
    }
}

fn snapshot_message(error: VmError) -> (text: String)
    ensures
        text@ == snapshot_text(error),
{
    match error {
        VmError::Parse(fault) => fault.message(),
        VmError::Runtime(refusal) => refusal.message(),
        VmError::JsError { message, .. } => match message {
            Some(s) => s,
            None => "unexpected failure".to_owned(),
        },
        VmError::Terminated => "snapshot code was terminated".to_owned(),
        VmError::OutOfMemory => "snapshot code ran out of memory".to_owned(),
    }
}

/// What the engine is to do for a snapshot.
pub enum SnapshotAction<'a> {
    /// Make a context, and enter it.
    NewContext,
    Ask(Do<'a>),
    /// Leave the context, and make it the one that is kept; with `fresh`, a new
    /// one.
    SetDefault { fresh: bool },
    /// Make the blob, which ends the engine that it was made in.
    CreateBlob,
}

/// How far a snapshot has come. Code that has failed is told once the blob has
/// been made, since the engine must not end without that.
#[derive(Debug, PartialEq, Eq)]
pub enum SnapshotStep {
    NewContext(Option<SourceJob>),
    Run(SourceJob),
    SetDefault(Option<VmError>),
    CreateBlob(Option<VmError>),
}

/// A snapshot in the making. A warm-up keeps what its code got compiled, but not
/// what it did.
#[derive(Debug, PartialEq, Eq)]
pub struct SnapshotTask {
    pub warmup: bool,
    pub step: SnapshotStep,
}

impl SnapshotTask {
    pub open spec fn to_do(self) -> SnapshotAction<'static> {
        match self.step {
            SnapshotStep::NewContext(_) => SnapshotAction::NewContext,
            SnapshotStep::Run(job) => SnapshotAction::Ask(job.to_do()),
            SnapshotStep::SetDefault(_) => SnapshotAction::SetDefault { fresh: self.warmup },
            SnapshotStep::CreateBlob(_) => SnapshotAction::CreateBlob,
        }
    }

    pub open spec fn after(self, got: Got) -> SnapshotTask {
        SnapshotTask {
            step: match self.step {
                SnapshotStep::NewContext(Some(job)) => SnapshotStep::Run(job),
                SnapshotStep::NewContext(None) => SnapshotStep::SetDefault(None),
                SnapshotStep::Run(job) => match job.after(got) {
                    Turn::Again(job) => SnapshotStep::Run(job),
                    Turn::Over(Ok(_)) => SnapshotStep::SetDefault(None),
                    Turn::Over(Err(error)) => SnapshotStep::SetDefault(Some(error)),
                },
                SnapshotStep::SetDefault(error) => SnapshotStep::CreateBlob(error),
                SnapshotStep::CreateBlob(error) => SnapshotStep::CreateBlob(error),
            },
            ..self
        }
    }

    /// What came of the code, once it has run.
    pub open spec fn failed(self) -> Option<VmError> {
        match self.step {
            SnapshotStep::SetDefault(error) => error,
            SnapshotStep::CreateBlob(error) => error,
            _ => None,
        }
    }

    /// Makes a snapshot of a heap that code has run in. Empty code is not run.
    pub fn build_snapshot(code: String, warmup: bool) -> (task: SnapshotTask)
        ensures
            task.warmup == warmup,
            task.step matches SnapshotStep::NewContext(job) && match job {
                None => code@.len() == 0,
                Some(job) => {
                    &&& code@.len() > 0
                    &&& job.source == code
                    &&& job.filename@ == (if warmup {
                        "<warmup>"@
                    } else {
                        "<snapshot>"@
                    })
                    &&& !job.void
                    &&& job.step is MakeSource
                },
            },
    {
        if code.as_str().unicode_len() == 0 {
            return SnapshotTask { warmup, step: SnapshotStep::NewContext(None) };
        }
        let filename = if warmup {
            "<warmup>".to_owned()
        } else {
            "<snapshot>".to_owned()
        };
        let job = SourceJob::run_source(code, filename, false);
        SnapshotTask { warmup, step: SnapshotStep::NewContext(Some(job)) }
    }

    pub fn action(&self) -> (action: SnapshotAction<'_>)
        ensures
            action == self.to_do(),
    {
        match &self.step {
            SnapshotStep::NewContext(_) => SnapshotAction::NewContext,
            SnapshotStep::Run(job) => SnapshotAction::Ask(job.action()),
            SnapshotStep::SetDefault(_) => SnapshotAction::SetDefault { fresh: self.warmup },
            SnapshotStep::CreateBlob(_) => SnapshotAction::CreateBlob,
        }
    }

    pub fn next(self, got: Got) -> (task: SnapshotTask)
        ensures
            task == self.after(got),
    {
        let warmup = self.warmup;
        let step = match self.step {
            SnapshotStep::NewContext(Some(job)) => SnapshotStep::Run(job),
            SnapshotStep::NewContext(None) => SnapshotStep::SetDefault(None),
            SnapshotStep::Run(job) => match job.next(got) {
                Turn::Again(job) => SnapshotStep::Run(job),
                Turn::Over(Ok(_)) => SnapshotStep::SetDefault(None),
                Turn::Over(Err(error)) => SnapshotStep::SetDefault(Some(error)),
            },
            SnapshotStep::SetDefault(error) => SnapshotStep::CreateBlob(error),
            SnapshotStep::CreateBlob(error) => SnapshotStep::CreateBlob(error),
        };
        SnapshotTask { warmup, step }
    }

    /// The blob, or what went wrong: that the code failed comes before that there
    /// is no blob.
    pub fn finish(self, blob: Option<Vec<u8>>) -> (out: Result<Vec<u8>, RubyError>)
        ensures
            match self.failed() {
                Some(error) => out matches Err(e) && e@ == plain_error(
                    ErrorClass::Snapshot,
                    snapshot_text(error),
                ),
                None => match blob {
                    Some(bytes) => out == Ok::<Vec<u8>, RubyError>(bytes),
                    None => out matches Err(e) && e@ == plain_error(
                        ErrorClass::Snapshot,
                        "snapshot creation failed"@,
                    ),
                },
            },
    {
        let failed = match self.step {
            SnapshotStep::SetDefault(error) => error,
            SnapshotStep::CreateBlob(error) => error,
            _ => None,
        };
        match failed {
            Some(error) => Err(RubyError::plain(ErrorClass::Snapshot, snapshot_message(error))),
            None => match blob {
                Some(bytes) => Ok(bytes),
                None => Err(
                    RubyError::plain(ErrorClass::Snapshot, "snapshot creation failed".to_owned()),
                ),
            },
        }
    }
}

/// The bytes of a heap that new isolates start from.
#[derive(Debug, PartialEq, Eq)]
pub struct Snapshot {
    blob: Vec<u8>,
}

impl Snapshot {
    pub closed spec fn view(&self) -> Seq<u8> {
        self.blob@
    }

    /// The snapshot that was made, if it was.
    pub fn new(built: Result<Vec<u8>, RubyError>) -> (out: Result<Snapshot, RubyError>)
        ensures
            match built {
                Ok(bytes) => out matches Ok(snapshot) && snapshot@ == bytes@,
                Err(error) => out == Err::<Snapshot, RubyError>(error),
            },
    {
        match built {
            Ok(blob) => Ok(Snapshot { blob }),
            Err(error) => Err(error),
        }
    }

    /// Takes bytes for a snapshot. `valid` is what the engine says of them.
    pub fn load(bytes: Vec<u8>, valid: bool) -> (out: Result<Snapshot, RubyError>)
        ensures
            if bytes@.len() > 0 && valid {
                out matches Ok(snapshot) && snapshot@ == bytes@
            } else {
                out matches Err(error) && error@ == plain_error(
                    ErrorClass::Snapshot,
                    "invalid V8 snapshot blob (corrupt, truncated, or built for a different V8 version)"@,
                )
            },
    {
        if bytes.len() == 0 || !valid {
            return Err(
                RubyError::plain(
                    ErrorClass::Snapshot,
                    "invalid V8 snapshot blob (corrupt, truncated, or built for a different V8 version)".to_owned(),
                ),
            );
        }
        Ok(Snapshot { blob: bytes })
    }

    /// Takes the bytes of a warmed-up snapshot, if it could be made; if not, the
    /// snapshot stays as it was.
    pub fn warmup(&mut self, built: Result<Vec<u8>, RubyError>) -> (out: Result<(), RubyError>)
        ensures
            match built {
                Ok(bytes) => out is Ok && final(self)@ == bytes@,
                Err(error) => out == Err::<(), RubyError>(error) && *final(self) == *old(self),
            },
    {
        match built {
            Ok(blob) => {
                self.blob = blob;
                Ok(())
            },
            Err(error) => Err(error),
        }
    }

    /// The bytes.
    pub fn dump(&self) -> (bytes: &Vec<u8>)
        ensures
            bytes@ == self@,
    {
        &self.blob
    }

    /// How many bytes there are.
    pub fn size(&self) -> (size: usize)
        ensures
            size == self@.len(),
    {
        self.blob.len()
    }
}

/// A blob is made whether the code failed or not, and once it is made nothing else
/// is asked of the engine that it was made in.
pub proof fn law_blob_is_always_made(task: SnapshotTask, got: Got)
    ensures
        task.step is SetDefault ==> task.after(got).to_do() is CreateBlob,
        task.step is CreateBlob ==> task.after(got) == task,
        task.failed() is Some ==> task.after(got).failed() == task.failed(),
        task.to_do() matches SnapshotAction::SetDefault { fresh } ==> fresh == task.warmup,
{
}

/// The code of a snapshot is run as source text is: that very code, under the name
/// that it was given. Then the context that it ran in is kept, or for a warm-up a
/// fresh one, and the blob is made. Without code, that is all that is done.
pub proof fn law_snapshot_runs_its_code(task: SnapshotTask, job: SourceJob, got: Got)
    requires
        job.step is MakeSource,
        got !is Yes,
    ensures
        task.step == SnapshotStep::NewContext(Some(job)) ==> {
            let made = task.after(Got::Yes);
            let sourced = made.after(Got::Yes);
            let compiled = sourced.after(Got::Yes);
            &&& task.to_do() is NewContext
            &&& made.to_do() == SnapshotAction::Ask(Do::MakeSource(&job.source))
            &&& sourced.to_do() == SnapshotAction::Ask(Do::Compile(&job.filename))
            &&& compiled.to_do() == SnapshotAction::Ask(Do::Run)
            &&& made.after(got).failed() == Some(VmError::Parse(ParseFault::TooLarge))
            &&& sourced.after(got).failed() == Some(uncompiled(got, Unit::Source, job.filename))
            &&& compiled.after(got).failed() == Some(failure(got))
            &&& keeps(made.after(got), task.warmup)
            &&& keeps(sourced.after(got), task.warmup)
            &&& keeps(compiled.after(got), task.warmup)
            &&& job.void ==> keeps(compiled.after(Got::Yes), task.warmup) && compiled.after(
                Got::Yes,
            ).failed() is None
        },
        task.step == SnapshotStep::NewContext(None) ==> {
            &&& task.to_do() is NewContext
            &&& keeps(task.after(Got::Yes), task.warmup)
            &&& task.after(Got::Yes).failed() is None
        },
{
}

/// A value that the code came to is looked at and no more: it fails the snapshot if
/// it cannot be read, and is dropped otherwise.
pub proof fn law_snapshot_drops_the_value(task: SnapshotTask, job: SourceJob, value: JsVal, got: Got)
    requires
        task.step == SnapshotStep::Run(job),
        job.step is Run,
        !job.void,
        got !is Value,
    ensures
        ({
            let ran = task.after(Got::Yes);
            &&& ran.to_do() == SnapshotAction::Ask(Do::Marshal)
            &&& keeps(ran.after(Got::Value(value)), task.warmup)
            &&& ran.after(Got::Value(value)).failed() is None
            &&& keeps(ran.after(got), task.warmup)
            &&& ran.after(got).failed() == Some(failure(got))
        }),
{
}

/// A snapshot that keeps its context, or for a warm-up a fresh one, and then makes
/// the blob.
pub open spec fn keeps(task: SnapshotTask, warmup: bool) -> bool {
    &&& task.to_do() == (SnapshotAction::SetDefault { fresh: warmup })
    &&& task.after(Got::Yes).to_do() is CreateBlob
    &&& task.after(Got::Yes).failed() == task.failed()
}

/// What is said of code that failed is what it failed with.
pub proof fn law_snapshot_failures_say_why(message: Option<String>, stack: Option<String>)
    ensures
        message matches Some(text) ==> snapshot_text(VmError::JsError { message, stack }) == text@,
        message is None ==> snapshot_text(VmError::JsError { message, stack })
            == "unexpected failure"@,
{
}

} // verus!
