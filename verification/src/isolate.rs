//! Who may use an isolate, when, and what comes back to Ruby.

use vstd::prelude::*;

use crate::error::lines_of;
use crate::error::plain_error;
use crate::error::terminated_error;
use crate::error::terminated_view;
use crate::error::vm_err;
use crate::error::vm_error;
use crate::error::ErrorClass;
use crate::error::ErrorView;
use crate::error::RubyError;
use crate::error::VmError;
use crate::jobs::Turn;
use crate::procs::released;
use crate::procs::set_free;
use crate::procs::ProcTable;
use crate::request::oom_reply;
use crate::request::relabel_oom;
use crate::request::Compiled;
use crate::request::HeapStats;
use crate::request::VmReply;
use crate::state::Engine;
use crate::state::IsolateState;
use crate::state::StateView;
use crate::task::Bracket;
use crate::task::DrainTask;
use crate::task::Event;
use crate::value::JsVal;

verus! {

/// What is kept of an isolate outside of the engine.
#[derive(Debug, Clone, Copy, PartialEq, Eq, Structural)]
pub struct Core {
    /// The Ruby thread that the isolate belongs to.
    pub owner: usize,
    pub disposed: bool,
    /// How many operations are in flight.
    pub depth: u32,
    /// The deadline, in milliseconds, of operations that name none. Zero is none.
    pub default_timeout_ms: u64,
    /// The limit of the heap, in bytes. Zero is the engine's own.
    pub memory_limit: usize,
}

/// How an operation is run.
#[derive(Debug, Clone, Copy, PartialEq, Eq, Structural)]
pub struct RunPlan {
    /// No other operation is in flight.
    pub outermost: bool,
    /// The isolate is to be entered, with a fresh scope, and left again.
    pub entered: bool,
    /// The operation around this one has told the engine where its stack starts;
    /// that is to be put back.
    pub keep_scan_start: bool,
}

/// What is left to do when nobody refers to an isolate any more.
#[derive(Debug, Clone, Copy, PartialEq, Eq, Structural)]
pub enum DropPlan {
    Nothing,
    Teardown,
    /// The isolate cannot be let go of. `stranded` says that operations are still
    /// in flight, which is to be warned of.
    Leak { stranded: bool },
}

/// What an isolate hands out.
#[derive(Debug, Clone, Copy, PartialEq, Eq, Structural)]
pub enum Handle {
    Context,
    Module,
    Script,
}

pub open spec fn disposed_text(handle: Handle) -> Seq<char> {
    match handle {
        Handle::Context => "disposed context"@,
        Handle::Module => "disposed module"@,
        Handle::Script => "disposed script"@,
    }
}

/// A handle is not to be used once it, or its isolate, has been disposed of.
pub fn check_live(handle: Handle, disposed: bool, isolate_disposed: bool) -> (out: Result<
    (),
    RubyError,
>)
    ensures
        out is Ok <==> !disposed && !isolate_disposed,
        out matches Err(error) ==> error@ == plain_error(
            ErrorClass::Disposed,
            disposed_text(handle),
        ),
{
    if disposed || isolate_disposed {
        let text = match handle {
            Handle::Context => "disposed context",
            Handle::Module => "disposed module",
            Handle::Script => "disposed script",
        };
        Err(RubyError::plain(ErrorClass::Disposed, text.to_owned()))
    } else {
        Ok(())
    }
}

impl Core {
    pub fn new(owner: usize, default_timeout_ms: u64, memory_limit: usize) -> (core: Core)
        ensures
            core == (Core {
                owner,
                disposed: false,
                depth: 0,
                default_timeout_ms,
                memory_limit,
            }),
    {
        Core { owner, disposed: false, depth: 0, default_timeout_ms, memory_limit }
    }

    /// Why a thread may not use the isolate, if it may not.
    pub open spec fn refusal(self, thread: usize) -> Option<ErrorView> {
        if thread != self.owner {
            Some(
                plain_error(
                    ErrorClass::WrongThread,
                    "isolate used from a thread other than the one that created it (an isolate is thread-confined; only #terminate is thread-safe)"@,
                ),
            )
        } else if self.disposed {
            Some(plain_error(ErrorClass::Disposed, disposed_text(Handle::Context)))
        } else {
            None
        }
    }

    /// An isolate is used by the thread that it belongs to, and until it is
    /// disposed of.
    pub fn ensure_owner_and_live(&self, thread: usize) -> (out: Result<(), RubyError>)
        ensures
            match self.refusal(thread) {
                Some(error) => out matches Err(e) && e@ == error,
                None => out is Ok,
            },
    {
        if thread != self.owner {
            Err(
                RubyError::plain(
                    ErrorClass::WrongThread,
                    "isolate used from a thread other than the one that created it (an isolate is thread-confined; only #terminate is thread-safe)".to_owned(),
                ),
            )
        } else {
            check_live(Handle::Context, false, self.disposed)
        }
    }

    /// Disposes of a module or a script: says whether the engine is to let go of it.
    /// Only the isolate's own thread may, and a handle is disposed of once. One
    /// whose isolate was disposed of before went with it.
    pub fn dispose_handle(&self, thread: usize, disposed: &mut bool) -> (ask: Result<
        bool,
        RubyError,
    >)
        ensures
            if *old(disposed) {
                ask == Ok::<bool, RubyError>(false) && *final(disposed)
            } else if thread != self.owner {
                &&& ask matches Err(error)
                &&& self.refusal(thread) == Some(error@)
                &&& error@.class is WrongThread
                &&& !*final(disposed)
            } else {
                ask == Ok::<bool, RubyError>(!self.disposed) && *final(disposed)
            },
    {
        if *disposed {
            return Ok(false);
        }
        match self.ensure_owner_and_live(thread) {
            Ok(()) => {
                *disposed = true;
                Ok(true)
            },
            Err(error) => if thread != self.owner {
                Err(error)
            } else {
                *disposed = true;
                Ok(false)
            },
        }
    }

    /// Disposes of a context, as of any handle. The isolate's own context lives as
    /// long as the isolate; to dispose of it does nothing.
    pub fn dispose_context(&self, thread: usize, id: i32, disposed: &mut bool) -> (ask: Result<
        bool,
        RubyError,
    >)
        ensures
            if id == 0 || *old(disposed) {
                ask == Ok::<bool, RubyError>(false) && *final(disposed) == *old(disposed)
            } else if thread != self.owner {
                &&& ask matches Err(error)
                &&& self.refusal(thread) == Some(error@)
                &&& error@.class is WrongThread
                &&& !*final(disposed)
            } else {
                ask == Ok::<bool, RubyError>(!self.disposed) && *final(disposed)
            },
    {
        if id == 0 {
            return Ok(false);
        }
        self.dispose_handle(thread, disposed)
    }

    /// How an operation is run at this depth. `current` says that the engine is in
    /// this isolate already, on this thread; `known` says that it is known where
    /// the engine keeps the start of the stack.
    pub open spec fn plan(self, current: bool, known: bool) -> RunPlan {
        RunPlan {
            outermost: self.depth == 0,
            entered: self.depth == 0 || !current,
            keep_scan_start: self.depth > 0 && known,
        }
    }

    /// The isolate once an operation has begun.
    pub open spec fn begun(self) -> Core {
        Core { depth: (self.depth + 1) as u32, ..self }
    }

    /// The isolate once an operation has ended. One that panicked leaves it disposed
    /// of.
    pub open spec fn ended(self, panicked: bool) -> Core {
        Core { depth: (self.depth - 1) as u32, disposed: self.disposed || panicked, ..self }
    }

    /// The deadline of an operation that names this one.
    pub open spec fn deadline(self, timeout_ms: u64) -> u64 {
        if timeout_ms == 0 {
            self.default_timeout_ms
        } else {
            timeout_ms
        }
    }

    /// What an operation replies, and the limit that the heap goes back to.
    pub open spec fn recovered<E: Engine>(
        self,
        state: StateView<E>,
        outermost: bool,
        reply: Option<VmReply>,
    ) -> (Option<VmReply>, Option<usize>) {
        (
            match reply {
                Some(r) => if state.oom_fired {
                    Some(oom_reply(r))
                } else {
                    Some(r)
                },
                None => None,
            },
            if outermost {
                state.restored_limit(self.memory_limit)
            } else {
                None
            },
        )
    }

    /// Begins an operation. One that is refused leaves the isolate as it is.
    pub fn run(&mut self, thread: usize, current: bool, known: bool) -> (plan: Result<
        RunPlan,
        RubyError,
    >)
        requires
            old(self).depth < u32::MAX,
        ensures
            match old(self).refusal(thread) {
                Some(error) => plan matches Err(e) && e@ == error && *final(self) == *old(self),
                None => {
                    &&& plan == Ok::<RunPlan, RubyError>(old(self).plan(current, known))
                    &&& *final(self) == old(self).begun()
                },
            },
    {
        match self.ensure_owner_and_live(thread) {
            Err(error) => Err(error),
            Ok(()) => {
                let outermost = self.depth == 0;
                self.depth = self.depth + 1;
                Ok(
                    RunPlan {
                        outermost,
                        entered: outermost || !current,
                        keep_scan_start: !outermost && known,
                    },
                )
            },
        }
    }

    /// Ends an operation. If there is no reply, it has panicked: nothing is known
    /// of the engine's state, and the isolate is not to be used any more.
    pub fn finish(&mut self, reply: Option<VmReply>) -> (out: Result<VmReply, RubyError>)
        requires
            old(self).depth > 0,
        ensures
            match reply {
                Some(r) => out == Ok::<VmReply, RubyError>(r) && *final(self) == old(self).ended(
                    false,
                ),
                None => {
                    &&& out matches Err(error)
                    &&& error@ == plain_error(
                        ErrorClass::Runtime,
                        "internal error: operation panicked; the isolate has been disposed"@,
                    )
                    &&& *final(self) == old(self).ended(true)
                },
            },
    {
        self.depth = self.depth - 1;
        match reply {
            Some(r) => Ok(r),
            None => {
                self.disposed = true;
                Err(
                    RubyError::plain(
                        ErrorClass::Runtime,
                        "internal error: operation panicked; the isolate has been disposed".to_owned(),
                    ),
                )
            },
        }
    }

    /// After an operation: if the heap came up to its limit, a script that was
    /// stopped ran out of memory. After an outermost one the limit goes back to what
    /// it was.
    pub fn recover<E: Engine>(
        &self,
        state: &mut IsolateState<E>,
        outermost: bool,
        reply: Option<VmReply>,
    ) -> (out: (Option<VmReply>, Option<usize>))
        requires
            old(state).wf(),
        ensures
            final(state).wf(),
            final(state)@ == (StateView {
                oom_fired: old(state)@.oom_fired && !outermost,
                ..old(state)@
            }),
            out.0 == (match reply {
                Some(r) if old(state)@.oom_fired => Some(oom_reply(r)),
                _ => reply,
            }),
            out.1 == (if !outermost || !old(state)@.oom_fired {
                None
            } else if self.memory_limit > 0 {
                Some(self.memory_limit)
            } else {
                Some(old(state)@.oom_initial_limit)
            }),
            out == self.recovered(old(state)@, outermost, reply),
    {
        let ran_out = state.has_oom_fired();
        let restore_to = if outermost {
            state.take_oom(self.memory_limit)
        } else {
            None
        };
        let reply = match reply {
            Some(r) => if ran_out {
                Some(relabel_oom(r))
            } else {
                Some(r)
            },
            None => None,
        };
        (reply, restore_to)
    }

    /// The deadline of an operation: its own, or if it names none, the isolate's.
    pub fn timeout(&self, timeout_ms: u64) -> (deadline: u64)
        ensures
            deadline == (if timeout_ms == 0 {
                self.default_timeout_ms
            } else {
                timeout_ms
            }),
            deadline == self.deadline(timeout_ms),
    {
        if timeout_ms == 0 {
            self.default_timeout_ms
        } else {
            timeout_ms
        }
    }

    /// Disposes of the isolate: says whether it is to be torn down, which it is
    /// once. Only its own thread may, and not while an operation is in flight.
    pub fn dispose(&mut self, thread: usize) -> (out: Result<bool, RubyError>)
        ensures
            if thread != old(self).owner {
                &&& out matches Err(error)
                &&& error@ == plain_error(
                    ErrorClass::WrongThread,
                    "dispose must run on the isolate's owner thread"@,
                )
                &&& *final(self) == *old(self)
            } else if old(self).disposed {
                out == Ok::<bool, RubyError>(false) && *final(self) == *old(self)
            } else if old(self).depth != 0 {
                &&& out matches Err(error)
                &&& error@ == plain_error(
                    ErrorClass::Runtime,
                    "RustyRacer: cannot dispose an isolate from within a running op or host callback"@,
                )
                &&& *final(self) == *old(self)
            } else {
                out == Ok::<bool, RubyError>(true) && *final(self) == (Core {
                    disposed: true,
                    ..*old(self)
                })
            },
    {
        if thread != self.owner {
            return Err(
                RubyError::plain(
                    ErrorClass::WrongThread,
                    "dispose must run on the isolate's owner thread".to_owned(),
                ),
            );
        }
        if self.disposed {
            return Ok(false);
        }
        if self.depth != 0 {
            return Err(
                RubyError::plain(
                    ErrorClass::Runtime,
                    "RustyRacer: cannot dispose an isolate from within a running op or host callback".to_owned(),
                ),
            );
        }
        self.disposed = true;
        Ok(true)
    }

    /// Nobody refers to the isolate any more. It is torn down if this is its own
    /// thread and no operation is in flight; otherwise it leaks.
    pub fn drop_last(&mut self, thread: usize) -> (plan: DropPlan)
        ensures
            plan == (if old(self).disposed {
                DropPlan::Nothing
            } else if thread != old(self).owner {
                DropPlan::Leak { stranded: false }
            } else if old(self).depth != 0 {
                DropPlan::Leak { stranded: true }
            } else {
                DropPlan::Teardown
            }),
            *final(self) == (Core {
                disposed: old(self).disposed || plan is Teardown,
                ..*old(self)
            }),
    {
        if self.disposed {
            DropPlan::Nothing
        } else if thread != self.owner {
            DropPlan::Leak { stranded: false }
        } else if self.depth != 0 {
            DropPlan::Leak { stranded: true }
        } else {
            self.disposed = true;
            DropPlan::Teardown
        }
    }
}

/// An internal error: a reply of another kind than the operation has.
pub open spec fn unexpected(text: Seq<char>) -> ErrorView {
    plain_error(ErrorClass::Runtime, text)
}

/// The value that an operation came to, or the exception to raise. `frames` is the
/// script's stack as it was when a deadline passed.
pub open spec fn value_of(reply: VmReply, frames: Option<Seq<Seq<char>>>) -> Result<
    JsVal,
    ErrorView,
> {
    match reply {
        VmReply::Done(Ok(value)) => Ok(value),
        VmReply::Done(Err(VmError::Terminated)) => Err(terminated_view(frames)),
        VmReply::Done(Err(error)) => Err(vm_error(error)),
        _ => Err(unexpected("internal: unexpected reply kind"@)),
    }
}

pub fn reply_value(reply: VmReply, frames: Option<Vec<String>>) -> (out: Result<JsVal, RubyError>)
    ensures
        match out {
            Ok(value) => value_of(reply, lines_of(frames)) == Ok::<JsVal, ErrorView>(value),
            Err(error) => value_of(reply, lines_of(frames)) == Err::<JsVal, ErrorView>(error@),
        },
{
    match reply {
        VmReply::Done(Ok(value)) => Ok(value),
        VmReply::Done(Err(VmError::Terminated)) => Err(terminated_error(frames)),
        VmReply::Done(Err(error)) => Err(vm_err(error)),
        _ => Err(
            RubyError::plain(ErrorClass::Runtime, "internal: unexpected reply kind".to_owned()),
        ),
    }
}

/// What was compiled, or the exception to raise.
pub open spec fn compiled_of(reply: VmReply, is_module: bool) -> Result<Compiled, ErrorView> {
    match (is_module, reply) {
        (true, VmReply::ModuleCompiled(Ok(compiled))) => Ok(compiled),
        (true, VmReply::ModuleCompiled(Err(error))) => Err(vm_error(error)),
        (false, VmReply::ScriptCompiled(Ok(compiled))) => Ok(compiled),
        (false, VmReply::ScriptCompiled(Err(error))) => Err(vm_error(error)),
        _ => Err(unexpected("internal: unexpected compile reply"@)),
    }
}

pub fn compiled_from_reply(reply: VmReply, is_module: bool) -> (out: Result<Compiled, RubyError>)
    ensures
        match out {
            Ok(compiled) => compiled_of(reply, is_module) == Ok::<Compiled, ErrorView>(compiled),
            Err(error) => compiled_of(reply, is_module) == Err::<Compiled, ErrorView>(error@),
        },
{
    match (is_module, reply) {
        (true, VmReply::ModuleCompiled(Ok(compiled))) => Ok(compiled),
        (true, VmReply::ModuleCompiled(Err(error))) => Err(vm_err(error)),
        (false, VmReply::ScriptCompiled(Ok(compiled))) => Ok(compiled),
        (false, VmReply::ScriptCompiled(Err(error))) => Err(vm_err(error)),
        _ => Err(
            RubyError::plain(ErrorClass::Runtime, "internal: unexpected compile reply".to_owned()),
        ),
    }
}

/// The code cache, if there is one to be had, or the exception to raise.
pub open spec fn code_cache_of(reply: VmReply) -> Result<Option<Vec<u8>>, ErrorView> {
    match reply {
        VmReply::CodeCache(Ok(bytes)) => Ok(bytes),
        VmReply::CodeCache(Err(error)) => Err(vm_error(error)),
        _ => Err(unexpected("internal: unexpected code-cache reply"@)),
    }
}

pub fn code_cache_from_reply(reply: VmReply) -> (out: Result<Option<Vec<u8>>, RubyError>)
    ensures
        match out {
            Ok(bytes) => code_cache_of(reply) == Ok::<Option<Vec<u8>>, ErrorView>(bytes),
            Err(error) => code_cache_of(reply) == Err::<Option<Vec<u8>>, ErrorView>(error@),
        },
{
    match reply {
        VmReply::CodeCache(Ok(bytes)) => Ok(bytes),
        VmReply::CodeCache(Err(error)) => Err(vm_err(error)),
        _ => Err(
            RubyError::plain(
                ErrorClass::Runtime,
                "internal: unexpected code-cache reply".to_owned(),
            ),
        ),
    }
}

/// The state of the heap, or the exception to raise.
pub fn heap_statistics(reply: VmReply) -> (out: Result<HeapStats, RubyError>)
    ensures
        match reply {
            VmReply::Heap(stats) => out == Ok::<HeapStats, RubyError>(stats),
            _ => out matches Err(error) && error@ == unexpected(
                "internal: unexpected heap reply"@,
            ),
        },
{
    match reply {
        VmReply::Heap(stats) => Ok(stats),
        _ => Err(
            RubyError::plain(ErrorClass::Runtime, "internal: unexpected heap reply".to_owned()),
        ),
    }
}

/// An exception to raise: one that the resolver raised, one that the operation
/// was refused with, or a new one.
pub enum Raise<R, X> {
    Again(R),
    Refused(X),
    New(RubyError),
}

/// How linking a module ended. What the resolver raised is raised again, whatever
/// the operation came to.
pub fn instantiate_module<R, X>(
    raised: Option<R>,
    reply: Result<VmReply, X>,
    frames: Option<Vec<String>>,
) -> (out: Result<JsVal, Raise<R, X>>)
    ensures
        match raised {
            Some(r) => out == Err::<JsVal, Raise<R, X>>(Raise::Again(r)),
            None => match reply {
                Err(error) => out == Err::<JsVal, Raise<R, X>>(Raise::Refused(error)),
                Ok(reply) => match value_of(reply, lines_of(frames)) {
                    Ok(value) => out == Ok::<JsVal, Raise<R, X>>(value),
                    Err(error) => out matches Err(Raise::New(e)) && e@ == error,
                },
            },
        },
{
    match raised {
        Some(r) => Err(Raise::Again(r)),
        None => match reply {
            Err(error) => Err(Raise::Refused(error)),
            Ok(reply) => match reply_value(reply, frames) {
                Ok(value) => Ok(value),
                Err(error) => Err(Raise::New(error)),
            },
        },
    }
}

/// Once a realm has been reset or disposed of, its host functions are let go of; if
/// that was refused, they stay.
pub fn release_context_procs<P>(
    procs: &mut ProcTable<P>,
    context_id: i32,
    out: &Result<JsVal, RubyError>,
)
    requires
        old(procs).wf(),
    ensures
        final(procs).wf(),
        final(procs).slots() == (if out is Ok {
            released(old(procs).slots(), context_id)
        } else {
            old(procs).slots()
        }),
        out is Ok ==> final(procs).free() == old(procs).free() + set_free(
            old(procs).slots(),
            context_id,
            old(procs).slots().len(),
        ),
        out is Err ==> *final(procs) == *old(procs),
{
    if out.is_ok() {
        procs.release(context_id);
    }
}

/// Takes the name of the function to call off the arguments.
pub fn split_call<V>(args: Vec<V>) -> (out: Result<(V, Vec<V>), RubyError>)
    ensures
        if args@.len() == 0 {
            out matches Err(error) && error@ == plain_error(
                ErrorClass::Base,
                "call requires a function name"@,
            )
        } else {
            out matches Ok((name, rest)) && name == args@[0] && rest@ == args@.skip(1)
        },
{
    if args.len() == 0 {
        return Err(
            RubyError::plain(ErrorClass::Base, "call requires a function name".to_owned()),
        );
    }
    let mut rest = args;
    let name = rest.remove(0);
    assert(rest@ =~= args@.skip(1));
    Ok((name, rest))
}

/// A code cache that was read as text is of no use: the encoding must be binary.
pub fn binary_bytes(given: Option<(String, Vec<u8>)>) -> (out: Result<Option<Vec<u8>>, RubyError>)
    ensures
        match given {
            None => out == Ok::<Option<Vec<u8>>, RubyError>(None),
            Some((encoding, bytes)) => if encoding@ == "ASCII-8BIT"@ {
                out == Ok::<Option<Vec<u8>>, RubyError>(Some(bytes))
            } else {
                out matches Err(error) && error@ == plain_error(
                    ErrorClass::RubyEncoding,
                    "cached_data must be ASCII-8BIT (binary), got "@ + encoding@,
                )
            },
        },
{
    match given {
        None => Ok(None),
        Some((encoding, bytes)) => {
            let binary: String = "ASCII-8BIT".to_owned();
            if encoding == binary {
                Ok(Some(bytes))
            } else {
                let mut text: String = "cached_data must be ASCII-8BIT (binary), got ".to_owned();
                text.append(encoding.as_str());
                Err(RubyError::plain(ErrorClass::RubyEncoding, text))
            }
        },
    }
}

/// An isolate that was disposed of, or that another thread reaches for, does
/// nothing and stays as it is, whatever it is asked for.
pub proof fn law_disposed_isolate_stays(core: Core, thread: usize)
    ensures
        core.refusal(thread) is None <==> thread == core.owner && !core.disposed,
        core.refusal(thread) matches Some(error) ==> error.class is WrongThread
            || error.class is Disposed,
{
}

/// Whatever an operation comes to, as many operations are in flight after it as
/// before. Nothing else changes, unless it panicked: then the isolate is disposed
/// of, and every later operation is refused, on any thread.
pub proof fn law_operation_gives_its_depth_back(core: Core, panicked: bool, thread: usize)
    requires
        core.depth < u32::MAX,
    ensures
        core.begun().depth > 0,
        core.begun().ended(panicked) == (Core { disposed: core.disposed || panicked, ..core }),
        panicked ==> core.begun().ended(panicked).refusal(thread) is Some,
        !panicked ==> core.begun().ended(panicked).refusal(thread) == core.refusal(thread),
{
}

/// An operation that is nested in another keeps its isolate from being entered a
/// second time, unless another isolate has come between.
pub proof fn law_isolate_is_entered_once(core: Core, known: bool)
    ensures
        core.depth > 0 ==> !core.plan(true, known).entered && core.plan(false, known).entered,
        core.depth == 0 ==> core.plan(true, known).entered && core.plan(false, known).entered,
        core.plan(true, known).outermost <==> core.depth == 0,
{
}

/// A limit that a script runs into is told by its own exception: that it was
/// stopped, with the frame that was running, if its deadline passed; that it ran
/// out of memory, if the heap came up to its limit, which outweighs the deadline.
pub proof fn law_limits_raise_their_exceptions<E: Engine>(
    bracket: Bracket,
    state: StateView<E>,
    fired: bool,
    frames: Option<Seq<Seq<char>>>,
)
    requires
        bracket.phase is Disarm,
        bracket.ran_js,
        fired || state.oom_fired,
    ensures
        ({
            let (turn, after) = bracket.after(state, Event::Fired(fired));
            &&& turn matches Turn::Over(outcome)
            &&& after.oom_fired == state.oom_fired
            &&& state.oom_fired ==> (value_of(oom_reply(VmReply::Done(outcome)), frames) matches Err(
                error,
            ) && error.class is OutOfMemory)
            &&& !state.oom_fired ==> value_of(VmReply::Done(outcome), frames) == Err::<
                JsVal,
                ErrorView,
            >(terminated_view(frames))
        }),
{
}

/// So is a limit that a drain of the microtasks runs into: it never counts as
/// success.
pub proof fn law_drain_limits_raise_their_exceptions<E: Engine>(
    drain: DrainTask,
    state: StateView<E>,
    fired: bool,
    frames: Option<Seq<Seq<char>>>,
)
    requires
        drain.phase is Disarm,
        fired || state.oom_fired,
    ensures
        ({
            let (turn, after) = drain.after(state, Event::Fired(fired));
            &&& turn matches Turn::Over(outcome)
            &&& after.oom_fired == state.oom_fired
            &&& state.oom_fired ==> (value_of(oom_reply(VmReply::Done(outcome)), frames) matches Err(
                error,
            ) && error.class is OutOfMemory)
            &&& !state.oom_fired ==> value_of(VmReply::Done(outcome), frames) == Err::<
                JsVal,
                ErrorView,
            >(terminated_view(frames))
        }),
{
}

/// What an operation came to is what Ruby gets: its value, or the exception for what
/// it failed with. A script that was stopped is told with the stack that was written
/// down. A reply of another kind than the operation has is an error of the library.
pub proof fn law_replies_are_handed_over(
    value: JsVal,
    error: VmError,
    frames: Option<Seq<Seq<char>>>,
    compiled: Compiled,
    bytes: Option<Vec<u8>>,
    stats: HeapStats,
)
    requires
        error !is Terminated,
    ensures
        value_of(VmReply::Done(Ok(value)), frames) == Ok::<JsVal, ErrorView>(value),
        value_of(VmReply::Done(Err(error)), frames) == Err::<JsVal, ErrorView>(vm_error(error)),
        value_of(VmReply::Done(Err(VmError::Terminated)), frames) == Err::<JsVal, ErrorView>(
            terminated_view(frames),
        ),
        compiled_of(VmReply::ModuleCompiled(Ok(compiled)), true) == Ok::<Compiled, ErrorView>(
            compiled,
        ),
        compiled_of(VmReply::ModuleCompiled(Err(error)), true) == Err::<Compiled, ErrorView>(
            vm_error(error),
        ),
        compiled_of(VmReply::ScriptCompiled(Ok(compiled)), false) == Ok::<Compiled, ErrorView>(
            compiled,
        ),
        compiled_of(VmReply::ScriptCompiled(Err(error)), false) == Err::<Compiled, ErrorView>(
            vm_error(error),
        ),
        compiled_of(VmReply::ModuleCompiled(Ok(compiled)), false) is Err,
        compiled_of(VmReply::ScriptCompiled(Ok(compiled)), true) is Err,
        code_cache_of(VmReply::CodeCache(Ok(bytes))) == Ok::<Option<Vec<u8>>, ErrorView>(bytes),
        code_cache_of(VmReply::CodeCache(Err(error))) == Err::<Option<Vec<u8>>, ErrorView>(
            vm_error(error),
        ),
        value_of(VmReply::Heap(stats), frames) is Err,
        compiled_of(VmReply::Heap(stats), true) is Err,
        code_cache_of(VmReply::Heap(stats)) is Err,
{
}

/// Which refusal it is: a thread that the isolate does not belong to is told so
/// whether or not the isolate is still there.
pub proof fn law_wrong_thread_comes_first(core: Core, thread: usize)
    ensures
        thread != core.owner <==> (core.refusal(thread) matches Some(error)
            && error.class is WrongThread),
        thread == core.owner && core.disposed <==> (core.refusal(thread) matches Some(error)
            && error.class is Disposed),
{
}

/// How an operation is run goes by what is in flight: the first one enters the
/// isolate and is outermost; one inside another keeps where that one's stack starts,
/// if it is known where the engine keeps that.
pub proof fn law_only_nested_operations_keep_the_stack(core: Core, current: bool, known: bool)
    ensures
        core.plan(current, known).keep_scan_start <==> core.depth > 0 && known,
        core.plan(current, known).outermost <==> core.depth == 0,
        core.plan(current, known).entered <==> core.depth == 0 || !current,
{
}

/// An operation's own deadline counts; one that names none has the isolate's.
pub proof fn law_own_deadline_counts(core: Core, timeout_ms: u64)
    ensures
        timeout_ms > 0 ==> core.deadline(timeout_ms) == timeout_ms,
        core.deadline(0) == core.default_timeout_ms,
{
}

/// A script that the limit of the heap stopped ran out of memory, in a nested
/// operation as in an outermost one, and the outermost one puts the limit back.
/// Without that, a reply is what it was, and the limit stays.
pub proof fn law_full_heap_is_told_and_recovered_from<E: Engine>(
    core: Core,
    state: StateView<E>,
    outermost: bool,
    value: JsVal,
)
    ensures
        ({
            let stopped = VmReply::Done(Err(VmError::Terminated));
            let (told, limit) = core.recovered(state, outermost, Some(stopped));
            &&& state.oom_fired ==> told == Some(VmReply::Done(Err(VmError::OutOfMemory)))
            &&& !state.oom_fired ==> told == Some(stopped) && limit is None
            &&& !outermost ==> limit is None
            &&& state.oom_fired && outermost && core.memory_limit > 0 ==> limit == Some(
                core.memory_limit,
            )
            &&& state.oom_fired && outermost && core.memory_limit == 0 ==> limit == Some(
                state.oom_initial_limit,
            )
            &&& core.recovered(state, outermost, Some(VmReply::Done(Ok(value)))).0 == Some(
                VmReply::Done(Ok(value)),
            )
            &&& core.recovered(state, outermost, None).0 is None
            &&& core.recovered(state, outermost, None).1 == limit
        }),
{
}

} // verus!
