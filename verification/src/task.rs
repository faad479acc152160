//! How an isolate does what it is asked to do.
//!
//! A task says what the engine is to do next (`action`), and takes what came of it
//! (`next`). Between the two, other operations may begin and end: what a task has
//! to know of the isolate's state it looks up at each step.

use vstd::prelude::*;

use crate::error::Refusal;
use crate::error::Unit;
use crate::error::VmError;
use crate::jobs::parse_error;
use crate::jobs::told;
use crate::jobs::uncompiled;
use crate::jobs::AttachJob;
use crate::jobs::CallJob;
use crate::jobs::Do;
use crate::jobs::Evaluated;
use crate::jobs::EvaluateJob;
use crate::jobs::Got;
use crate::jobs::LinkJob;
use crate::jobs::NamespaceJob;
use crate::jobs::ScriptJob;
use crate::jobs::SourceJob;
use crate::jobs::Turn;
use crate::request::Compiled;
use crate::request::HeapStats;
use crate::request::ModuleStatus;
use crate::request::VmReply;
use crate::state::Engine;
use crate::state::IsolateState;
use crate::state::ModuleEntry;
use crate::state::Realm;
use crate::state::ScriptEntry;
use crate::state::StateView;
use crate::value::JsVal;

verus! {

/// What is entered to run something: a realm, or the realm of a module or script.
#[derive(Debug, Clone, Copy, PartialEq, Eq, Structural)]
pub enum Entry {
    Context(i32),
    Module(i32),
    Script(i32),
}

impl<E: Engine> StateView<E> {
    /// The realm that is entered, or why there is none.
    pub open spec fn entry(self, entry: Entry) -> Result<Realm<E>, Refusal> {
        match entry {
            Entry::Context(id) => match self.realm(id) {
                Some(realm) => Ok(realm),
                None => Err(Refusal::RealmGone),
            },
            Entry::Module(id) => match self.module_realm(id) {
                Some(context_id) => match self.realm(context_id) {
                    Some(realm) => Ok(realm),
                    None => Err(Refusal::ModuleContextGone),
                },
                None => Err(Refusal::UnknownModule),
            },
            Entry::Script(id) => match self.script_realm(id) {
                Some(context_id) => match self.realm(context_id) {
                    Some(realm) => Ok(realm),
                    None => Err(Refusal::ScriptContextGone),
                },
                None => Err(Refusal::UnknownScript),
            },
        }
    }
}

impl<E: Engine> IsolateState<E> {
    /// The context that is entered, or why there is none.
    pub fn entry_context(&self, entry: Entry) -> (found: Result<&E::Context, Refusal>)
        ensures
            match found {
                Ok(context) => self@.entry(entry) matches Ok(realm) && realm.context == *context,
                Err(refusal) => self@.entry(entry) == Err::<Realm<E>, Refusal>(refusal),
            },
    {
        match entry {
            Entry::Context(id) => match self.context_for(id) {
                Some(context) => Ok(context),
                None => Err(Refusal::RealmGone),
            },
            Entry::Module(id) => match self.module_handle(id) {
                Some((_, context_id)) => match self.context_for(context_id) {
                    Some(context) => Ok(context),
                    None => Err(Refusal::ModuleContextGone),
                },
                None => Err(Refusal::UnknownModule),
            },
            Entry::Script(id) => match self.script_handle(id) {
                Some((_, context_id)) => match self.context_for(context_id) {
                    Some(context) => Ok(context),
                    None => Err(Refusal::ScriptContextGone),
                },
                None => Err(Refusal::UnknownScript),
            },
        }
    }

    /// Why a realm cannot be entered, if it cannot.
    pub fn entry_refusal(&self, entry: Entry) -> (refusal: Option<Refusal>)
        ensures
            refusal == (match self@.entry(entry) {
                Ok(_) => None,
                Err(r) => Some(r),
            }),
    {
        match self.entry_context(entry) {
            Ok(_) => None,
            Err(r) => Some(r),
        }
    }
}

/// How something is compiled.
#[derive(Debug, Clone, Copy, PartialEq, Eq, Structural)]
pub enum CompileMode {
    /// From the code cache that was given.
    Consume,
    /// Every function at once.
    Eager,
    /// Only the top level, the rest when it is needed.
    Lazy,
}

/// A code cache that is given wins: with it, nothing is compiled eagerly.
pub open spec fn mode_of(cached_data: Option<Vec<u8>>, eager: bool) -> CompileMode {
    if cached_data is Some {
        CompileMode::Consume
    } else if eager {
        CompileMode::Eager
    } else {
        CompileMode::Lazy
    }
}

pub fn compile_source(cached_data: &Option<Vec<u8>>, eager: bool) -> (mode: CompileMode)
    ensures
        mode == mode_of(*cached_data, eager),
{
    if cached_data.is_some() {
        CompileMode::Consume
    } else if eager {
        CompileMode::Eager
    } else {
        CompileMode::Lazy
    }
}

/// What the engine is to do.
pub enum Action<'a> {
    /// Arm the watchdog for this many milliseconds.
    Arm(u64),
    /// Disarm the deadline that was armed.
    Disarm(Option<u64>),
    Enter(Entry),
    Leave,
    Ask(Do<'a>),
    /// Is the script being stopped?
    AskTerminating,
    /// Drain the queues of all realms once.
    Drain,
    /// Make a fresh realm.
    NewRealm,
    CompileModule {
        filename: &'a String,
        cached_data: &'a Option<Vec<u8>>,
        mode: CompileMode,
        produce_cache: bool,
    },
    CompileScript {
        filename: &'a String,
        cached_data: &'a Option<Vec<u8>>,
        mode: CompileMode,
        produce_cache: bool,
    },
    ModuleStatus(i32),
    GraphAsync(i32),
    ModuleCache(i32),
    ScriptCache(i32),
    HeapStatistics,
    CollectGarbage,
    /// Nothing: the task is over.
    Nothing,
}

/// What came of it.
#[allow(inconsistent_fields)]
pub enum Event<E: Engine> {
    Done,
    Armed(Option<u64>),
    /// Did the deadline pass?
    Fired(bool),
    Said(Got),
    Made(Realm<E>),
    /// A module was compiled. `rejected` says that the engine did not take the
    /// code cache that it was given.
    Module { handle: E::Module, hash: i32, rejected: bool, cache: Option<Vec<u8>> },
    Script { handle: E::Script, rejected: bool, cache: Option<Vec<u8>> },
    Bytes(Option<Vec<u8>>),
    Heap(HeapStats),
}

impl<E: Engine> Event<E> {
    /// What the engine answers, if it was asked.
    pub open spec fn got(self) -> Got {
        match self {
            Event::Said(got) => got,
            _ => Got::No,
        }
    }

    fn into_got(self) -> (got: Got)
        ensures
            got == self.got(),
    {
        match self {
            Event::Said(got) => got,
            _ => Got::No,
        }
    }
}

/// A script's work that a deadline may be set for.
#[allow(inconsistent_fields)]
#[derive(Debug, PartialEq, Eq)]
pub enum Work {
    Source { context_id: i32, job: SourceJob },
    Call { context_id: i32, job: CallJob },
    Attach { context_id: i32, job: AttachJob },
    Evaluate { module_id: i32, job: EvaluateJob },
    Script { script_id: i32, job: ScriptJob },
}

/// The end of work that ran script code.
pub open spec fn ran(outcome: Result<JsVal, VmError>) -> Evaluated {
    Evaluated { ran_js: true, pending: false, outcome }
}

impl Work {
    /// The work can be begun.
    pub open spec fn ready(self) -> bool {
        match self {
            Work::Call { job, .. } => job.wf(),
            Work::Attach { job, .. } => job.split(),
            _ => true,
        }
    }

    /// The work is under way.
    pub open spec fn wf(self) -> bool {
        match self {
            Work::Call { job, .. } => job.wf(),
            Work::Attach { job, .. } => job.wf(),
            _ => true,
        }
    }

    pub open spec fn entry(self) -> Entry {
        match self {
            Work::Source { context_id, .. } => Entry::Context(context_id),
            Work::Call { context_id, .. } => Entry::Context(context_id),
            Work::Attach { context_id, .. } => Entry::Context(context_id),
            Work::Evaluate { module_id, .. } => Entry::Module(module_id),
            Work::Script { script_id, .. } => Entry::Script(script_id),
        }
    }

    pub open spec fn started(self) -> Turn<Work, Evaluated> {
        match self {
            Work::Attach { context_id, job } => match job.at_entry(0) {
                Turn::Again(job) => Turn::Again(Work::Attach { context_id, job }),
                Turn::Over(outcome) => Turn::Over(ran(outcome)),
            },
            other => Turn::Again(other),
        }
    }

    pub open spec fn after(self, got: Got) -> Turn<Work, Evaluated> {
        match self {
            Work::Source { context_id, job } => match job.after(got) {
                Turn::Again(job) => Turn::Again(Work::Source { context_id, job }),
                Turn::Over(outcome) => Turn::Over(ran(outcome)),
            },
            Work::Call { context_id, job } => match job.after(got) {
                Turn::Again(job) => Turn::Again(Work::Call { context_id, job }),
                Turn::Over(outcome) => Turn::Over(ran(outcome)),
            },
            Work::Attach { context_id, job } => match job.after(got) {
                Turn::Again(job) => Turn::Again(Work::Attach { context_id, job }),
                Turn::Over(outcome) => Turn::Over(ran(outcome)),
            },
            Work::Evaluate { module_id, job } => match job.after(got) {
                Turn::Again(job) => Turn::Again(Work::Evaluate { module_id, job }),
                Turn::Over(end) => Turn::Over(end),
            },
            Work::Script { script_id, job } => match job.after(got) {
                Turn::Again(job) => Turn::Again(Work::Script { script_id, job }),
                Turn::Over(outcome) => Turn::Over(ran(outcome)),
            },
        }
    }

    pub open spec fn to_do(self) -> Do<'static> {
        match self {
            Work::Source { job, .. } => job.to_do(),
            Work::Call { job, .. } => job.to_do(),
            Work::Attach { job, .. } => job.to_do(),
            Work::Evaluate { job, .. } => job.to_do(),
            Work::Script { job, .. } => if job.ran {
                Do::Marshal
            } else {
                Do::Run
            },
        }
    }

    pub fn where_to(&self) -> (entry: Entry)
        ensures
            entry == self.entry(),
    {
        match self {
            Work::Source { context_id, .. } => Entry::Context(*context_id),
            Work::Call { context_id, .. } => Entry::Context(*context_id),
            Work::Attach { context_id, .. } => Entry::Context(*context_id),
            Work::Evaluate { module_id, .. } => Entry::Module(*module_id),
            Work::Script { script_id, .. } => Entry::Script(*script_id),
        }
    }

    pub fn action(&self) -> (action: Do<'_>)
        requires
            self.wf(),
        ensures
            action == self.to_do(),
    {
        match self {
            Work::Source { job, .. } => job.action(),
            Work::Call { job, .. } => job.action(),
            Work::Attach { job, .. } => job.action(),
            Work::Evaluate { job, .. } => job.action(),
            Work::Script { job, .. } => job.action(),
        }
    }

    fn start(self) -> (turn: Turn<Work, Evaluated>)
        requires
            self.ready(),
        ensures
            turn == self.started(),
            turn matches Turn::Again(work) ==> work.wf(),
    {
        match self {
            Work::Attach { context_id, job } => match job.start() {
                Turn::Again(job) => Turn::Again(Work::Attach { context_id, job }),
                Turn::Over(outcome) => Turn::Over(
                    Evaluated { ran_js: true, pending: false, outcome },
                ),
            },
            other => Turn::Again(other),
        }
    }

    pub fn next(self, got: Got) -> (turn: Turn<Work, Evaluated>)
        requires
            self.wf(),
        ensures
            turn == self.after(got),
            turn matches Turn::Again(work) ==> work.wf(),
    {
        let outcome = match self {
            Work::Source { context_id, job } => match job.next(got) {
                Turn::Again(job) => {
                    return Turn::Again(Work::Source { context_id, job });
                },
                Turn::Over(outcome) => outcome,
            },
            Work::Call { context_id, job } => match job.next(got) {
                Turn::Again(job) => {
                    return Turn::Again(Work::Call { context_id, job });
                },
                Turn::Over(outcome) => outcome,
            },
            Work::Attach { context_id, job } => match job.next(got) {
                Turn::Again(job) => {
                    return Turn::Again(Work::Attach { context_id, job });
                },
                Turn::Over(outcome) => outcome,
            },
            Work::Evaluate { module_id, job } => {
                return match job.next(got) {
                    Turn::Again(job) => Turn::Again(Work::Evaluate { module_id, job }),
                    Turn::Over(end) => Turn::Over(end),
                };
            },
            Work::Script { script_id, job } => match job.next(got) {
                Turn::Again(job) => {
                    return Turn::Again(Work::Script { script_id, job });
                },
                Turn::Over(outcome) => outcome,
            },
        };
        Turn::Over(Evaluated { ran_js: true, pending: false, outcome })
    }
}

/// How far a bracket has come.
#[derive(Debug, PartialEq, Eq)]
pub enum Phase {
    Arm(Work),
    Enter(Work),
    Work(Work),
    AskTerminating,
    /// Queues are being drained; `was` says whether they were before.
    Drain { was: bool },
    /// The promise of a module is looked at again.
    Recheck,
    Leave,
    Disarm,
}

/// Script work under a deadline.
#[derive(Debug, PartialEq, Eq)]
pub struct Bracket {
    pub outermost: bool,
    pub timeout_ms: u64,
    pub phase: Phase,
    /// The deadline that was armed.
    pub generation: Option<u64>,
    pub ran_js: bool,
    pub pending: bool,
    pub outcome: Result<JsVal, VmError>,
}

impl Bracket {
    pub open spec fn wf(self) -> bool {
        match self.phase {
            Phase::Arm(work) => work.ready(),
            Phase::Enter(work) => work.ready(),
            Phase::Work(work) => work.wf(),
            _ => true,
        }
    }

    pub open spec fn to_do(self) -> Action<'static> {
        match self.phase {
            Phase::Arm(_) => Action::Arm(self.timeout_ms),
            Phase::Enter(work) => Action::Enter(work.entry()),
            Phase::Work(work) => Action::Ask(work.to_do()),
            Phase::AskTerminating => Action::AskTerminating,
            Phase::Drain { .. } => Action::Drain,
            Phase::Recheck => Action::Ask(Do::AskPromise),
            Phase::Leave => Action::Leave,
            Phase::Disarm => Action::Disarm(self.generation),
        }
    }

    /// The bracket once queues have been drained, or are not to be.
    pub open spec fn drained(self) -> Bracket {
        Bracket {
            phase: if self.pending && self.outcome is Ok {
                Phase::Recheck
            } else {
                Phase::Leave
            },
            ..self
        }
    }

    /// The bracket once its work has gone on. At the end of the work, an outermost
    /// bracket drains the queues, if the isolate is set to do that.
    pub open spec fn turned(self, turn: Turn<Work, Evaluated>, auto: bool) -> Bracket {
        match turn {
            Turn::Again(work) => Bracket { phase: Phase::Work(work), ..self },
            Turn::Over(end) => {
                let done = Bracket {
                    ran_js: end.ran_js,
                    pending: end.pending,
                    outcome: end.outcome,
                    ..self
                };
                if self.outermost && auto {
                    Bracket { phase: Phase::AskTerminating, ..done }
                } else {
                    done.drained()
                }
            },
        }
    }

    /// What comes out of a bracket: a script that was overtaken by its deadline, or
    /// ran into the limit of the heap, was stopped, whatever it says itself.
    pub open spec fn ending(self, fired: bool, oom_fired: bool) -> Result<JsVal, VmError> {
        if self.ran_js && (fired || oom_fired) {
            Err(VmError::Terminated)
        } else {
            self.outcome
        }
    }

    /// The script was stopped, but by nothing that was aimed at this operation.
    pub open spec fn strayed(self, fired: bool, oom_fired: bool) -> bool {
        self.ran_js && !fired && !oom_fired && (self.outcome matches Err(error)
            && error is Terminated)
    }

    pub open spec fn after<E: Engine>(self, state: StateView<E>, event: Event<E>) -> (
        Turn<Bracket, Result<JsVal, VmError>>,
        StateView<E>,
    ) {
        match self.phase {
            Phase::Arm(work) => {
                let generation = match event {
                    Event::Armed(g) => g,
                    _ => None,
                };
                let armed = Bracket { generation, ..self };
                (
                    Turn::Again(
                        match state.entry(work.entry()) {
                            Ok(_) => Bracket { phase: Phase::Enter(work), ..armed },
                            Err(refusal) => Bracket {
                                phase: Phase::Disarm,
                                ran_js: false,
                                outcome: Err(VmError::Runtime(refusal)),
                                ..armed
                            },
                        },
                    ),
                    state,
                )
            },
            Phase::Enter(work) => (
                Turn::Again(self.turned(work.started(), state.auto_microtasks)),
                state,
            ),
            Phase::Work(work) => (
                Turn::Again(self.turned(work.after(event.got()), state.auto_microtasks)),
                state,
            ),
            Phase::AskTerminating => if event.got() is Yes {
                (Turn::Again(self.drained()), state)
            } else {
                (
                    Turn::Again(Bracket { phase: Phase::Drain { was: state.draining }, ..self }),
                    StateView { draining: true, ..state },
                )
            },
            Phase::Drain { was } => (
                Turn::Again(self.drained()),
                StateView { draining: was, ..state },
            ),
            Phase::Recheck => (
                Turn::Again(
                    Bracket {
                        phase: Phase::Leave,
                        outcome: if event.got() is Text {
                            Err(told(event.got()))
                        } else {
                            self.outcome
                        },
                        ..self
                    },
                ),
                state,
            ),
            Phase::Leave => (Turn::Again(Bracket { phase: Phase::Disarm, ..self }), state),
            Phase::Disarm => {
                let fired = event matches Event::Fired(true);
                (
                    Turn::Over(self.ending(fired, state.oom_fired)),
                    if fired {
                        StateView { watchdog_fired: true, ..state }
                    } else {
                        state
                    },
                )
            },
        }
    }

    /// Work that is to be done under a deadline.
    pub open spec fn around(work: Work, timeout_ms: u64, outermost: bool) -> Bracket {
        Bracket {
            outermost,
            timeout_ms,
            phase: Phase::Arm(work),
            generation: None,
            ran_js: false,
            pending: false,
            outcome: Ok(JsVal::Undefined),
        }
    }

    /// Work that is to be done under a deadline. A timeout of zero is none.
    pub fn run_js_bracketed(work: Work, timeout_ms: u64, outermost: bool) -> (bracket: Bracket)
        ensures
            bracket == Bracket::around(work, timeout_ms, outermost),
    {
        Bracket {
            outermost,
            timeout_ms,
            phase: Phase::Arm(work),
            generation: None,
            ran_js: false,
            pending: false,
            outcome: Ok(JsVal::Undefined),
        }
    }

    pub fn action(&self) -> (action: Action<'_>)
        requires
            self.wf(),
        ensures
            action == self.to_do(),
    {
        match &self.phase {
            Phase::Arm(_) => Action::Arm(self.timeout_ms),
            Phase::Enter(work) => Action::Enter(work.where_to()),
            Phase::Work(work) => Action::Ask(work.action()),
            Phase::AskTerminating => Action::AskTerminating,
            Phase::Drain { .. } => Action::Drain,
            Phase::Recheck => Action::Ask(Do::AskPromise),
            Phase::Leave => Action::Leave,
            Phase::Disarm => Action::Disarm(self.generation),
        }
    }

    fn after_drain(self) -> (bracket: Bracket)
        ensures
            bracket == self.drained(),
    {
        let phase = if self.pending && self.outcome.is_ok() {
            Phase::Recheck
        } else {
            Phase::Leave
        };
        Bracket { phase, ..self }
    }

    fn turn(self, turn: Turn<Work, Evaluated>, auto: bool) -> (bracket: Bracket)
        requires
            turn matches Turn::Again(work) ==> work.wf(),
        ensures
            bracket == self.turned(turn, auto),
            bracket.wf(),
    {
        match turn {
            Turn::Again(work) => Bracket { phase: Phase::Work(work), ..self },
            Turn::Over(end) => {
                let outermost = self.outermost;
                let done = Bracket {
                    ran_js: end.ran_js,
                    pending: end.pending,
                    outcome: end.outcome,
                    ..self
                };
                if outermost && auto {
                    Bracket { phase: Phase::AskTerminating, ..done }
                } else {
                    done.after_drain()
                }
            },
        }
    }

    /// Was the script stopped by something that was not aimed at this operation? Its
    /// own deadline has not passed, and the heap is not to blame.
    pub fn stray_stop(&self, fired: bool, oom_fired: bool) -> (stray: bool)
        ensures
            stray == (self.ran_js && !fired && !oom_fired && self.outcome
                == Err::<JsVal, VmError>(VmError::Terminated)),
            stray == self.strayed(fired, oom_fired),
    {
        match &self.outcome {
            Err(VmError::Terminated) => self.ran_js && !fired && !oom_fired,
            _ => false,
        }
    }

    pub fn next<E: Engine>(self, state: &mut IsolateState<E>, event: Event<E>) -> (turn: Turn<
        Bracket,
        Result<JsVal, VmError>,
    >)
        requires
            old(state).wf(),
            self.wf(),
        ensures
            final(state).wf(),
            (turn, final(state)@) == self.after(old(state)@, event),
            turn matches Turn::Again(bracket) ==> bracket.wf(),
    {
        let Bracket { outermost, timeout_ms, phase, generation, ran_js, pending, outcome } = self;
        match phase {
            Phase::Arm(work) => {
                let generation = match event {
                    Event::Armed(g) => g,
                    _ => None,
                };
                match state.entry_refusal(work.where_to()) {
                    Some(refusal) => Turn::Again(
                        Bracket {
                            outermost,
                            timeout_ms,
                            phase: Phase::Disarm,
                            generation,
                            ran_js: false,
                            pending,
                            outcome: Err(VmError::Runtime(refusal)),
                        },
                    ),
                    None => Turn::Again(
                        Bracket {
                            outermost,
                            timeout_ms,
                            phase: Phase::Enter(work),
                            generation,
                            ran_js,
                            pending,
                            outcome,
                        },
                    ),
                }
            },
            Phase::Enter(work) => {
                let rest = Bracket {
                    outermost,
                    timeout_ms,
                    phase: Phase::Leave,
                    generation,
                    ran_js,
                    pending,
                    outcome,
                };
                Turn::Again(rest.turn(work.start(), state.is_auto()))
            },
            Phase::Work(work) => {
                let rest = Bracket {
                    outermost,
                    timeout_ms,
                    phase: Phase::Leave,
                    generation,
                    ran_js,
                    pending,
                    outcome,
                };
                Turn::Again(rest.turn(work.next(event.into_got()), state.is_auto()))
            },
            Phase::AskTerminating => {
                let rest = Bracket {
                    outermost,
                    timeout_ms,
                    phase: Phase::Leave,
                    generation,
                    ran_js,
                    pending,
                    outcome,
                };
                match event.into_got() {
                    Got::Yes => Turn::Again(rest.after_drain()),
                    _ => {
                        let was = state.begin_drain();
                        Turn::Again(Bracket { phase: Phase::Drain { was }, ..rest })
                    },
                }
            },
            Phase::Drain { was } => {
                state.end_drain(was);
                let rest = Bracket {
                    outermost,
                    timeout_ms,
                    phase: Phase::Leave,
                    generation,
                    ran_js,
                    pending,
                    outcome,
                };
                Turn::Again(rest.after_drain())
            },
            Phase::Recheck => {
                let outcome = match event.into_got() {
                    Got::Text(text) => Err(VmError::JsError { message: Some(text), stack: None }),
                    _ => outcome,
                };
                Turn::Again(
                    Bracket {
                        outermost,
                        timeout_ms,
                        phase: Phase::Leave,
                        generation,
                        ran_js,
                        pending,
                        outcome,
                    },
                )
            },
            Phase::Leave => Turn::Again(
                Bracket {
                    outermost,
                    timeout_ms,
                    phase: Phase::Disarm,
                    generation,
                    ran_js,
                    pending,
                    outcome,
                },
            ),
            Phase::Disarm => {
                let fired = match event {
                    Event::Fired(fired) => fired,
                    _ => false,
                };
                let oom_fired = state.has_oom_fired();
                if fired {
                    state.set_watchdog_fired();
                }
                if ran_js && (fired || oom_fired) {
                    Turn::Over(Err(VmError::Terminated))
                } else {
                    Turn::Over(outcome)
                }
            },
        }
    }
}

/// A bracket ends only by disarming its deadline.
pub proof fn law_deadline_is_disarmed<E: Engine>(
    bracket: Bracket,
    state: StateView<E>,
    event: Event<E>,
)
    ensures
        bracket.after(state, event).0 is Over <==> bracket.to_do() is Disarm,
        bracket.phase !is Arm ==> (bracket.after(state, event).0 matches Turn::Again(next)
            ==> next.generation == bracket.generation),
{
}

/// A script that ran and whose deadline has passed was stopped, and so was one
/// that ran while the heap came up to its limit; and no other operation is made
/// to look like that.
pub proof fn law_overdue_script_was_stopped<E: Engine>(
    bracket: Bracket,
    state: StateView<E>,
    fired: bool,
)
    requires
        bracket.phase is Disarm,
    ensures
        bracket.after(state, Event::Fired(fired)).0 == Turn::<
            Bracket,
            Result<JsVal, VmError>,
        >::Over(
            if bracket.ran_js && (fired || state.oom_fired) {
                Err(VmError::Terminated)
            } else {
                bracket.outcome
            },
        ),
        bracket.after(state, Event::Fired(fired)).1 == (StateView {
            watchdog_fired: fired || state.watchdog_fired,
            ..state
        }),
{
}

/// What the work yields is what comes out of a bracket, unless the script was
/// stopped. In between, an outermost bracket drains the queues, if the isolate is
/// set to do that, and leaves no mark of it.
pub proof fn law_work_yields_the_outcome<E: Engine>(
    bracket: Bracket,
    work: Work,
    state: StateView<E>,
    event: Event<E>,
    end: Evaluated,
    fired: bool,
)
    requires
        bracket.phase == Phase::Work(work),
        work.after(event.got()) == Turn::<Work, Evaluated>::Over(end),
        !end.pending,
    ensures
        ({
            let (turn, s1) = bracket.after(state, event);
            &&& turn matches Turn::Again(b1)
            &&& s1 == state
            &&& if bracket.outermost && state.auto_microtasks {
                &&& b1.to_do() is AskTerminating
                &&& b1.after(s1, Event::Said(Got::No)) matches (Turn::Again(b2), s2)
                &&& b2.to_do() is Drain
                &&& b2.after(s2, Event::Done) matches (Turn::Again(b3), s3)
                &&& s3 == state
                &&& out_of(b3, s3, fired, end)
            } else {
                out_of(b1, s1, fired, end)
            }
        }),
{
}

/// A bracket that leaves its realm, disarms its deadline, and comes to this end.
pub open spec fn out_of<E: Engine>(
    bracket: Bracket,
    state: StateView<E>,
    fired: bool,
    end: Evaluated,
) -> bool {
    &&& bracket.to_do() is Leave
    &&& bracket.after(state, Event::Done) matches (Turn::Again(last), after)
    &&& after == state
    &&& last.to_do() == Action::Disarm(bracket.generation)
    &&& last.after(after, Event::Fired(fired)).0 == Turn::<
        Bracket,
        Result<JsVal, VmError>,
    >::Over(
        if end.ran_js && (fired || state.oom_fired) {
            Err(VmError::Terminated)
        } else {
            end.outcome
        },
    )
}

/// Queues are drained only by an outermost operation, and only if the isolate is
/// set to do that; and the drain leaves no mark.
pub proof fn law_only_outermost_drains<E: Engine>(
    bracket: Bracket,
    state: StateView<E>,
    event: Event<E>,
)
    ensures
        bracket.after(state, event).0 matches Turn::Again(next) && next.phase is AskTerminating
            ==> bracket.outermost && state.auto_microtasks,
        bracket.after(state, event).0 matches Turn::Again(next) && next.phase is Drain
            ==> bracket.phase is AskTerminating && event.got() !is Yes,
        bracket.phase is Drain || bracket.phase is AskTerminating || bracket.after(state, event).1.draining
            == state.draining,
        bracket.phase is AskTerminating ==> ({
            let (turn, during) = bracket.after(state, event);
            turn matches Turn::Again(next) ==> next.phase is Drain ==> next.after(
                during,
                Event::Done,
            ).1 == state
        }),
{
}

#[derive(Debug, Clone, Copy, PartialEq, Eq, Structural)]
pub enum DrainPhase {
    Arm,
    Enter,
    Drain { was: bool },
    Leave,
    Disarm,
}

/// A drain that was asked for.
#[derive(Debug, Clone, Copy, PartialEq, Eq)]
pub struct DrainTask {
    pub timeout_ms: u64,
    pub phase: DrainPhase,
    pub generation: Option<u64>,
}

impl DrainTask {
    pub open spec fn to_do(self) -> Action<'static> {
        match self.phase {
            DrainPhase::Arm => Action::Arm(self.timeout_ms),
            DrainPhase::Enter => Action::Enter(Entry::Context(0)),
            DrainPhase::Drain { .. } => Action::Drain,
            DrainPhase::Leave => Action::Leave,
            DrainPhase::Disarm => Action::Disarm(self.generation),
        }
    }

    pub open spec fn after<E: Engine>(self, state: StateView<E>, event: Event<E>) -> (
        Turn<DrainTask, Result<JsVal, VmError>>,
        StateView<E>,
    ) {
        match self.phase {
            DrainPhase::Arm => (
                Turn::Again(
                    DrainTask {
                        generation: match event {
                            Event::Armed(g) => g,
                            _ => None,
                        },
                        phase: if state.main is Some {
                            DrainPhase::Enter
                        } else {
                            DrainPhase::Disarm
                        },
                        ..self
                    },
                ),
                state,
            ),
            DrainPhase::Enter => (
                Turn::Again(DrainTask { phase: DrainPhase::Drain { was: state.draining }, ..self }),
                StateView { draining: true, ..state },
            ),
            DrainPhase::Drain { was } => (
                Turn::Again(DrainTask { phase: DrainPhase::Leave, ..self }),
                StateView { draining: was, ..state },
            ),
            DrainPhase::Leave => (
                Turn::Again(DrainTask { phase: DrainPhase::Disarm, ..self }),
                state,
            ),
            DrainPhase::Disarm => {
                let fired = event matches Event::Fired(true);
                (
                    Turn::Over(
                        if fired || state.oom_fired {
                            Err(VmError::Terminated)
                        } else {
                            Ok(JsVal::Undefined)
                        },
                    ),
                    if fired {
                        StateView { watchdog_fired: true, ..state }
                    } else {
                        state
                    },
                )
            },
        }
    }

    pub fn action(&self) -> (action: Action<'static>)
        ensures
            action == self.to_do(),
    {
        match self.phase {
            DrainPhase::Arm => Action::Arm(self.timeout_ms),
            DrainPhase::Enter => Action::Enter(Entry::Context(0)),
            DrainPhase::Drain { .. } => Action::Drain,
            DrainPhase::Leave => Action::Leave,
            DrainPhase::Disarm => Action::Disarm(self.generation),
        }
    }

    /// A drain that its deadline overtook, or that ran into the limit of the heap,
    /// was stopped. While queues are drained, no realm is reset or disposed of.
    pub fn next<E: Engine>(self, state: &mut IsolateState<E>, event: Event<E>) -> (turn: Turn<
        DrainTask,
        Result<JsVal, VmError>,
    >)
        requires
            old(state).wf(),
        ensures
            final(state).wf(),
            (turn, final(state)@) == self.after(old(state)@, event),
    {
        match self.phase {
            DrainPhase::Arm => {
                let generation = match event {
                    Event::Armed(g) => g,
                    _ => None,
                };
                let phase = match state.context_for(0) {
                    Some(_) => DrainPhase::Enter,
                    None => DrainPhase::Disarm,
                };
                Turn::Again(DrainTask { generation, phase, ..self })
            },
            DrainPhase::Enter => {
                let was = state.begin_drain();
                Turn::Again(DrainTask { phase: DrainPhase::Drain { was }, ..self })
            },
            DrainPhase::Drain { was } => {
                state.end_drain(was);
                Turn::Again(DrainTask { phase: DrainPhase::Leave, ..self })
            },
            DrainPhase::Leave => Turn::Again(DrainTask { phase: DrainPhase::Disarm, ..self }),
            DrainPhase::Disarm => match event {
                Event::Fired(true) => {
                    state.set_watchdog_fired();
                    Turn::Over(Err(VmError::Terminated))
                },
                _ => if state.has_oom_fired() {
                    Turn::Over(Err(VmError::Terminated))
                } else {
                    Turn::Over(Ok(JsVal::Undefined))
                },
            },
        }
    }
}

/// Compiles a module or a script.
#[derive(Debug, PartialEq, Eq)]
pub struct CompileJob {
    pub is_module: bool,
    pub context_id: i32,
    pub source: String,
    pub filename: String,
    pub cached_data: Option<Vec<u8>>,
    pub produce_cache: bool,
    pub eager: bool,
    /// The source has been made a script string.
    pub sourced: bool,
}

impl CompileJob {
    pub open spec fn reply(self, outcome: Result<Compiled, VmError>) -> VmReply {
        if self.is_module {
            VmReply::ModuleCompiled(outcome)
        } else {
            VmReply::ScriptCompiled(outcome)
        }
    }

    pub open spec fn to_do(self) -> Action<'static> {
        let mode = mode_of(self.cached_data, self.eager);
        if !self.sourced {
            Action::Ask(Do::MakeSource(&self.source))
        } else if self.is_module {
            Action::CompileModule {
                filename: &self.filename,
                cached_data: &self.cached_data,
                mode,
                produce_cache: self.produce_cache,
            }
        } else {
            Action::CompileScript {
                filename: &self.filename,
                cached_data: &self.cached_data,
                mode,
                produce_cache: self.produce_cache,
            }
        }
    }

    /// What is said of something compiled: its number, the code cache if one was
    /// asked for, and whether one that was given was not taken.
    pub open spec fn compiled(self, id: i32, rejected: bool, cache: Option<Vec<u8>>) -> Compiled {
        Compiled {
            id,
            cached_data: if self.produce_cache {
                cache
            } else {
                None
            },
            cache_rejected: self.cached_data is Some && rejected,
        }
    }

    /// There is a number left for what is compiled.
    pub open spec fn fits<E: Engine>(self, state: StateView<E>) -> bool {
        if self.is_module {
            state.next_module_id < i32::MAX
        } else {
            state.next_script_id < i32::MAX
        }
    }

    pub open spec fn after<E: Engine>(self, state: StateView<E>, event: Event<E>) -> (
        Turn<CompileJob, VmReply>,
        StateView<E>,
    ) {
        if !self.sourced {
            if event.got() is Yes {
                (Turn::Again(CompileJob { sourced: true, ..self }), state)
            } else {
                (
                    Turn::Over(
                        self.reply(
                            Err(
                                VmError::Runtime(
                                    if self.is_module {
                                        Refusal::ModuleSourceTooLarge
                                    } else {
                                        Refusal::ScriptSourceTooLarge
                                    },
                                ),
                            ),
                        ),
                    ),
                    state,
                )
            }
        } else {
            match (self.is_module, event) {
                (true, Event::Module { handle, hash, rejected, cache }) => {
                    let id = state.next_module_id;
                    let entry = ModuleEntry {
                        handle,
                        url: self.filename,
                        context_id: self.context_id,
                        hash,
                    };
                    (
                        Turn::Over(self.reply(Ok(self.compiled(id, rejected, cache)))),
                        StateView {
                            modules: state.modules.insert(id, entry),
                            next_module_id: (id + 1) as i32,
                            ..state
                        },
                    )
                },
                (false, Event::Script { handle, rejected, cache }) => {
                    let id = state.next_script_id;
                    let entry = ScriptEntry { handle, context_id: self.context_id };
                    (
                        Turn::Over(self.reply(Ok(self.compiled(id, rejected, cache)))),
                        StateView {
                            scripts: state.scripts.insert(id, entry),
                            next_script_id: (id + 1) as i32,
                            ..state
                        },
                    )
                },
                _ => {
                    let unit = if self.is_module {
                        Unit::Module
                    } else {
                        Unit::Script
                    };
                    (
                        Turn::Over(self.reply(Err(uncompiled(event.got(), unit, self.filename)))),
                        state,
                    )
                },
            }
        }
    }

    pub fn action(&self) -> (action: Action<'_>)
        ensures
            action == self.to_do(),
    {
        let mode = compile_source(&self.cached_data, self.eager);
        if !self.sourced {
            Action::Ask(Do::MakeSource(&self.source))
        } else if self.is_module {
            Action::CompileModule {
                filename: &self.filename,
                cached_data: &self.cached_data,
                mode,
                produce_cache: self.produce_cache,
            }
        } else {
            Action::CompileScript {
                filename: &self.filename,
                cached_data: &self.cached_data,
                mode,
                produce_cache: self.produce_cache,
            }
        }
    }

    fn answer(is_module: bool, outcome: Result<Compiled, VmError>) -> (reply: VmReply)
        ensures
            reply == (if is_module {
                VmReply::ModuleCompiled(outcome)
            } else {
                VmReply::ScriptCompiled(outcome)
            }),
    {
        if is_module {
            VmReply::ModuleCompiled(outcome)
        } else {
            VmReply::ScriptCompiled(outcome)
        }
    }

    /// What was compiled is taken in under a new number, with the realm that it was
    /// compiled in.
    pub fn next<E: Engine>(self, state: &mut IsolateState<E>, event: Event<E>) -> (turn: Turn<
        CompileJob,
        VmReply,
    >)
        requires
            old(state).wf(),
            self.fits(old(state)@),
        ensures
            final(state).wf(),
            (turn, final(state)@) == self.after(old(state)@, event),
    {
        let is_module = self.is_module;
        if !self.sourced {
            return match event.into_got() {
                Got::Yes => Turn::Again(CompileJob { sourced: true, ..self }),
                _ => {
                    let refusal = if is_module {
                        Refusal::ModuleSourceTooLarge
                    } else {
                        Refusal::ScriptSourceTooLarge
                    };
                    Turn::Over(Self::answer(is_module, Err(VmError::Runtime(refusal))))
                },
            };
        }
        let given = self.cached_data.is_some();
        match (is_module, event) {
            (true, Event::Module { handle, hash, rejected, cache }) => {
                let entry = ModuleEntry {
                    handle,
                    url: self.filename,
                    context_id: self.context_id,
                    hash,
                };
                let id: i32 = state.register_module(entry);
                let cached_data = if self.produce_cache {
                    cache
                } else {
                    None
                };
                let compiled = Compiled { id, cached_data, cache_rejected: given && rejected };
                Turn::Over(Self::answer(true, Ok(compiled)))
            },
            (false, Event::Script { handle, rejected, cache }) => {
                let entry = ScriptEntry { handle, context_id: self.context_id };
                let id: i32 = state.register_script(entry);
                let cached_data = if self.produce_cache {
                    cache
                } else {
                    None
                };
                let compiled = Compiled { id, cached_data, cache_rejected: given && rejected };
                Turn::Over(Self::answer(false, Ok(compiled)))
            },
            (_, other) => {
                let unit = if is_module {
                    Unit::Module
                } else {
                    Unit::Script
                };
                let error = parse_error(other.into_got(), unit, self.filename);
                Turn::Over(Self::answer(is_module, Err(error)))
            },
        }
    }
}

/// Work in a realm that no deadline is set for.
#[allow(inconsistent_fields)]
#[derive(Debug, PartialEq, Eq)]
pub enum Inner {
    Link { module_id: i32, job: LinkJob },
    Namespace { module_id: i32, job: NamespaceJob },
    Compile(CompileJob),
    ModuleCache { module_id: i32 },
}

impl Inner {
    pub open spec fn entry(self) -> Entry {
        match self {
            Inner::Link { module_id, .. } => Entry::Module(module_id),
            Inner::Namespace { module_id, .. } => Entry::Module(module_id),
            Inner::Compile(job) => Entry::Context(job.context_id),
            Inner::ModuleCache { module_id } => Entry::Module(module_id),
        }
    }

    pub open spec fn to_do(self) -> Action<'static> {
        match self {
            Inner::Link { job, .. } => Action::Ask(job.to_do()),
            Inner::Namespace { job, .. } => Action::Ask(job.to_do()),
            Inner::Compile(job) => job.to_do(),
            Inner::ModuleCache { module_id } => Action::ModuleCache(module_id),
        }
    }

    pub open spec fn fits<E: Engine>(self, state: StateView<E>) -> bool {
        self matches Inner::Compile(job) ==> job.fits(state)
    }

    pub open spec fn after<E: Engine>(self, state: StateView<E>, event: Event<E>) -> (
        Turn<Inner, VmReply>,
        StateView<E>,
    ) {
        match self {
            Inner::Link { module_id, job } => (
                match job.after(event.got()) {
                    Turn::Again(job) => Turn::Again(Inner::Link { module_id, job }),
                    Turn::Over(outcome) => Turn::Over(VmReply::Done(outcome)),
                },
                state,
            ),
            Inner::Namespace { module_id, job } => (
                match job.after(event.got()) {
                    Turn::Again(job) => Turn::Again(Inner::Namespace { module_id, job }),
                    Turn::Over(outcome) => Turn::Over(VmReply::Done(outcome)),
                },
                state,
            ),
            Inner::Compile(job) => match job.after(state, event) {
                (Turn::Again(job), state) => (Turn::Again(Inner::Compile(job)), state),
                (Turn::Over(reply), state) => (Turn::Over(reply), state),
            },
            Inner::ModuleCache { .. } => match event {
                Event::Bytes(bytes) => (Turn::Over(VmReply::CodeCache(Ok(bytes))), state),
                _ => (Turn::Again(self), state),
            },
        }
    }

    pub fn where_to(&self) -> (entry: Entry)
        ensures
            entry == self.entry(),
    {
        match self {
            Inner::Link { module_id, .. } => Entry::Module(*module_id),
            Inner::Namespace { module_id, .. } => Entry::Module(*module_id),
            Inner::Compile(job) => Entry::Context(job.context_id),
            Inner::ModuleCache { module_id } => Entry::Module(*module_id),
        }
    }

    pub fn action(&self) -> (action: Action<'_>)
        ensures
            action == self.to_do(),
    {
        match self {
            Inner::Link { job, .. } => Action::Ask(job.action()),
            Inner::Namespace { job, .. } => Action::Ask(job.action()),
            Inner::Compile(job) => job.action(),
            Inner::ModuleCache { module_id } => Action::ModuleCache(*module_id),
        }
    }

    pub fn next<E: Engine>(self, state: &mut IsolateState<E>, event: Event<E>) -> (turn: Turn<
        Inner,
        VmReply,
    >)
        requires
            old(state).wf(),
            self.fits(old(state)@),
        ensures
            final(state).wf(),
            (turn, final(state)@) == self.after(old(state)@, event),
    {
        match self {
            Inner::Link { module_id, job } => match job.next(event.into_got()) {
                Turn::Again(job) => Turn::Again(Inner::Link { module_id, job }),
                Turn::Over(outcome) => Turn::Over(VmReply::Done(outcome)),
            },
            Inner::Namespace { module_id, job } => match job.next(event.into_got()) {
                Turn::Again(job) => Turn::Again(Inner::Namespace { module_id, job }),
                Turn::Over(outcome) => Turn::Over(VmReply::Done(outcome)),
            },
            Inner::Compile(job) => match job.next(state, event) {
                Turn::Again(job) => Turn::Again(Inner::Compile(job)),
                Turn::Over(reply) => Turn::Over(reply),
            },
            Inner::ModuleCache { module_id } => match event {
                Event::Bytes(bytes) => Turn::Over(VmReply::CodeCache(Ok(bytes))),
                _ => Turn::Again(Inner::ModuleCache { module_id }),
            },
        }
    }
}

/// An operation that is under way.
#[derive(Debug, PartialEq, Eq)]
pub enum Task {
    Bracket(Bracket),
    Drain(DrainTask),
    Enter(Inner),
    Work(Inner),
    /// The reply is there; `linked` says that a module was being linked.
    Leave { reply: VmReply, linked: bool },
    Reset { context_id: i32 },
    Create { id: i32 },
    Status { module_id: i32 },
    GraphAsync { module_id: i32, linked: bool },
    ScriptCache { script_id: i32 },
    Heap,
    LowMemory,
    Over(VmReply),
}

/// A reply that something was done.
pub open spec fn nothing() -> VmReply {
    VmReply::Done(Ok(JsVal::Undefined))
}

/// A reply that something was refused.
pub open spec fn refused(refusal: Refusal) -> VmReply {
    VmReply::Done(Err(VmError::Runtime(refusal)))
}

impl Task {
    pub open spec fn wf(self) -> bool {
        self matches Task::Bracket(bracket) ==> bracket.wf()
    }

    /// There is a number left for what the task makes.
    pub open spec fn fits<E: Engine>(self, state: StateView<E>) -> bool {
        match self {
            Task::Work(inner) => inner.fits(state),
            Task::Create { id } => 1 <= id < state.next_context_id,
            _ => true,
        }
    }

    pub open spec fn to_do(self) -> Action<'static> {
        match self {
            Task::Bracket(bracket) => bracket.to_do(),
            Task::Drain(drain) => drain.to_do(),
            Task::Enter(inner) => Action::Enter(inner.entry()),
            Task::Work(inner) => inner.to_do(),
            Task::Leave { .. } => Action::Leave,
            Task::Reset { .. } => Action::NewRealm,
            Task::Create { .. } => Action::NewRealm,
            Task::Status { module_id } => Action::ModuleStatus(module_id),
            Task::GraphAsync { module_id, linked } => if linked {
                Action::GraphAsync(module_id)
            } else {
                Action::ModuleStatus(module_id)
            },
            Task::ScriptCache { script_id } => Action::ScriptCache(script_id),
            Task::Heap => Action::HeapStatistics,
            Task::LowMemory => Action::CollectGarbage,
            Task::Over(_) => Action::Nothing,
        }
    }

    /// The task once something has come of its last action. An event that does not
    /// answer it leaves the question open.
    pub open spec fn after<E: Engine>(self, state: StateView<E>, event: Event<E>) -> (
        Task,
        StateView<E>,
    ) {
        match self {
            Task::Bracket(bracket) => match bracket.after(state, event) {
                (Turn::Again(bracket), state) => (Task::Bracket(bracket), state),
                (Turn::Over(outcome), state) => (Task::Over(VmReply::Done(outcome)), state),
            },
            Task::Drain(drain) => match drain.after(state, event) {
                (Turn::Again(drain), state) => (Task::Drain(drain), state),
                (Turn::Over(outcome), state) => (Task::Over(VmReply::Done(outcome)), state),
            },
            Task::Enter(inner) => (Task::Work(inner), state),
            Task::Work(inner) => match inner.after(state, event) {
                (Turn::Again(inner), state) => (Task::Work(inner), state),
                (Turn::Over(reply), state) => (
                    Task::Leave { reply, linked: inner is Link },
                    state,
                ),
            },
            Task::Leave { reply, linked } => (
                Task::Over(reply),
                if linked {
                    StateView { instantiating: false, ..state }
                } else {
                    state
                },
            ),
            Task::Reset { context_id } => match event {
                Event::Made(realm) => match state.reset_refusal(context_id) {
                    Some(refusal) => (Task::Over(refused(refusal)), state),
                    None => (Task::Over(nothing()), state.after_reset(context_id, realm)),
                },
                _ => (self, state),
            },
            Task::Create { id } => match event {
                Event::Made(realm) => (
                    Task::Over(VmReply::Done(Ok(JsVal::Int(id as i64)))),
                    StateView { realms: state.realms.insert(id, realm), ..state },
                ),
                _ => (self, state),
            },
            Task::Status { .. } => (self, state),
            Task::GraphAsync { module_id, linked } => if linked {
                (Task::Over(VmReply::Done(Ok(JsVal::Bool(event.got() is Yes)))), state)
            } else {
                match event.got() {
                    Got::Status(status) => if status.linked() {
                        (Task::GraphAsync { module_id, linked: true }, state)
                    } else {
                        (Task::Over(refused(Refusal::GraphAsyncTooEarly)), state)
                    },
                    _ => (self, state),
                }
            },
            Task::ScriptCache { .. } => match event {
                Event::Bytes(bytes) => (Task::Over(VmReply::CodeCache(Ok(bytes))), state),
                _ => (self, state),
            },
            Task::Heap => match event {
                Event::Heap(stats) => (Task::Over(VmReply::Heap(stats)), state),
                _ => (self, state),
            },
            Task::LowMemory => (Task::Over(nothing()), state),
            Task::Over(_) => (self, state),
        }
    }

    pub fn action(&self) -> (action: Action<'_>)
        requires
            self.wf(),
        ensures
            action == self.to_do(),
    {
        match self {
            Task::Bracket(bracket) => bracket.action(),
            Task::Drain(drain) => drain.action(),
            Task::Enter(inner) => Action::Enter(inner.where_to()),
            Task::Work(inner) => inner.action(),
            Task::Leave { .. } => Action::Leave,
            Task::Reset { .. } => Action::NewRealm,
            Task::Create { .. } => Action::NewRealm,
            Task::Status { module_id } => Action::ModuleStatus(*module_id),
            Task::GraphAsync { module_id, linked } => if *linked {
                Action::GraphAsync(*module_id)
            } else {
                Action::ModuleStatus(*module_id)
            },
            Task::ScriptCache { script_id } => Action::ScriptCache(*script_id),
            Task::Heap => Action::HeapStatistics,
            Task::LowMemory => Action::CollectGarbage,
            Task::Over(_) => Action::Nothing,
        }
    }

    pub fn next<E: Engine>(self, state: &mut IsolateState<E>, event: Event<E>) -> (task: Task)
        requires
            old(state).wf(),
            self.wf(),
            self.fits(old(state)@),
        ensures
            final(state).wf(),
            task.wf(),
            match (self, event) {
                (Task::Status { .. }, Event::Said(Got::Status(status))) => {
                    &&& task matches Task::Over(VmReply::Done(Ok(JsVal::Str(name))))
                    &&& name@ == status.spelled()
                    &&& final(state)@ == old(state)@
                },
                _ => (task, final(state)@) == self.after(old(state)@, event),
            },
    {
        match self {
            Task::Bracket(bracket) => match bracket.next(state, event) {
                Turn::Again(bracket) => Task::Bracket(bracket),
                Turn::Over(outcome) => Task::Over(VmReply::Done(outcome)),
            },
            Task::Drain(drain) => match drain.next(state, event) {
                Turn::Again(drain) => Task::Drain(drain),
                Turn::Over(outcome) => Task::Over(VmReply::Done(outcome)),
            },
            Task::Enter(inner) => Task::Work(inner),
            Task::Work(inner) => {
                let linked = match &inner {
                    Inner::Link { .. } => true,
                    _ => false,
                };
                match inner.next(state, event) {
                    Turn::Again(inner) => Task::Work(inner),
                    Turn::Over(reply) => Task::Leave { reply, linked },
                }
            },
            Task::Leave { reply, linked } => {
                if linked {
                    state.set_instantiating(false);
                }
                Task::Over(reply)
            },
            Task::Reset { context_id } => match event {
                Event::Made(realm) => match state.op_reset(context_id, realm) {
                    Ok(()) => Task::Over(VmReply::Done(Ok(JsVal::Undefined))),
                    Err(refusal) => Task::Over(VmReply::Done(Err(VmError::Runtime(refusal)))),
                },
                _ => Task::Reset { context_id },
            },
            Task::Create { id } => match event {
                Event::Made(realm) => {
                    state.add_realm(id, realm);
                    Task::Over(VmReply::Done(Ok(JsVal::Int(id as i64))))
                },
                _ => Task::Create { id },
            },
            Task::Status { module_id } => match event {
                Event::Said(Got::Status(status)) => {
                    let name = status.name().to_owned();
                    Task::Over(VmReply::Done(Ok(JsVal::Str(name))))
                },
                _ => Task::Status { module_id },
            },
            Task::GraphAsync { module_id, linked } => if linked {
                match event.into_got() {
                    Got::Yes => Task::Over(VmReply::Done(Ok(JsVal::Bool(true)))),
                    _ => Task::Over(VmReply::Done(Ok(JsVal::Bool(false)))),
                }
            } else {
                match event.into_got() {
                    Got::Status(status) => if status.is_linked() {
                        Task::GraphAsync { module_id, linked: true }
                    } else {
                        Task::Over(
                            VmReply::Done(Err(VmError::Runtime(Refusal::GraphAsyncTooEarly))),
                        )
                    },
                    _ => Task::GraphAsync { module_id, linked },
                }
            },
            Task::ScriptCache { script_id } => match event {
                Event::Bytes(bytes) => Task::Over(VmReply::CodeCache(Ok(bytes))),
                _ => Task::ScriptCache { script_id },
            },
            Task::Heap => match event {
                Event::Heap(stats) => Task::Over(VmReply::Heap(stats)),
                _ => Task::Heap,
            },
            Task::LowMemory => Task::Over(VmReply::Done(Ok(JsVal::Undefined))),
            Task::Over(reply) => Task::Over(reply),
        }
    }
}

/// A script that was stopped was stopped by its own deadline, by the limit of the
/// heap, or by something else, and just one of these: whichever it was, the
/// operation says that it was stopped.
pub proof fn law_stray_stops_are_told_apart(bracket: Bracket, fired: bool, oom_fired: bool)
    ensures
        bracket.strayed(fired, oom_fired) ==> !fired && !oom_fired && bracket.ending(
            fired,
            oom_fired,
        ) == Err::<JsVal, VmError>(VmError::Terminated),
        bracket.ran_js && bracket.outcome == Err::<JsVal, VmError>(VmError::Terminated) ==> (
        bracket.strayed(fired, oom_fired) <==> !(fired || oom_fired)),
        bracket.outcome is Ok ==> !bracket.strayed(fired, oom_fired),
        !bracket.ran_js ==> !bracket.strayed(fired, oom_fired),
{
}

/// Work that could not be begun, or ran no code, is not made to look as if a deadline
/// had stopped it; any work that ran is stopped by a deadline that passed, and by the
/// limit of the heap.
pub proof fn law_only_code_that_ran_is_stopped(bracket: Bracket, fired: bool, oom_fired: bool)
    ensures
        !bracket.ran_js ==> bracket.ending(fired, oom_fired) == bracket.outcome,
        !fired && !oom_fired ==> bracket.ending(fired, oom_fired) == bracket.outcome,
        bracket.ran_js && (fired || oom_fired) ==> bracket.ending(fired, oom_fired) == Err::<
            JsVal,
            VmError,
        >(VmError::Terminated),
{
}

} // verus!
