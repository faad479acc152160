//! What operations do, from the request to the reply: what the engine is told, in
//! which order and with what, and what is replied.

use vstd::prelude::*;

use crate::dispatch::becomes;
use crate::error::Refusal;
use crate::error::Unit;
use crate::error::VmError;
use crate::jobs::attach_after;
use crate::jobs::built;
use crate::jobs::call_after;
use crate::jobs::failure;
use crate::jobs::lemma_attach_walks;
use crate::jobs::uncompiled;
use crate::jobs::lemma_call_walks;
use crate::jobs::yes;
use crate::jobs::AttachJob;
use crate::jobs::AttachStep;
use crate::jobs::CallJob;
use crate::jobs::CallStep;
use crate::jobs::Do;
use crate::jobs::EvaluateJob;
use crate::jobs::Evaluated;
use crate::jobs::Got;
use crate::jobs::ScriptJob;
use crate::jobs::SourceJob;
use crate::jobs::SourceStep;
use crate::jobs::Turn;
use crate::path::path_parts;
use crate::request::HeapStats;
use crate::request::ModuleStatus;
use crate::request::Request;
use crate::request::VmReply;
use crate::state::Engine;
use crate::state::Realm;
use crate::state::StateView;
use crate::task::Action;
use crate::task::Entry;
use crate::task::Event;
use crate::task::ran as ran_to;
use crate::task::Bracket;
use crate::task::CompileMode;
use crate::task::Phase;
use crate::task::Task;
use crate::task::Work;
use crate::value::JsVal;
use crate::watchdog::texts;

verus! {

/// An operation under way, and the isolate, once something has come of what the
/// engine was told last.
#[verifier::opaque]
pub open spec fn then<E: Engine>(at: (Task, StateView<E>), event: Event<E>) -> (
    Task,
    StateView<E>,
) {
    at.0.after(at.1, event)
}

/// An operation that is over, with this reply.
pub open spec fn replied<E: Engine>(at: (Task, StateView<E>), reply: VmReply) -> bool {
    at.0 == Task::Over(reply) && at.0.to_do() is Nothing
}

/// Script work that leaves its realm, disarms its own deadline and replies. If code
/// ran while the deadline passed, or the heap came up to its limit, the reply is
/// that it was stopped; it is `outcome` in any other case.
#[verifier::opaque]
pub open spec fn leaves<E: Engine>(
    at: (Task, StateView<E>),
    generation: Option<u64>,
    ran: bool,
    outcome: Result<JsVal, VmError>,
    fired: bool,
) -> bool {
    let left = then(at, Event::Done);
    let over = then(left, Event::Fired(fired));
    &&& at.0.to_do() is Leave
    &&& left.1 == at.1
    &&& left.0.to_do() == Action::Disarm(generation)
    &&& replied(
        over,
        VmReply::Done(
            if ran && (fired || at.1.oom_fired) {
                Err(VmError::Terminated)
            } else {
                outcome
            },
        ),
    )
    &&& over.1 == (StateView { watchdog_fired: fired || at.1.watchdog_fired, ..at.1 })
}

/// Script work that is done. Before it leaves its realm, an outermost operation
/// drains the queues, if the isolate is set to do that and the script is not being
/// stopped; while it does, and only then, that is marked.
#[verifier::opaque]
pub open spec fn ends<E: Engine>(
    at: (Task, StateView<E>),
    outermost: bool,
    generation: Option<u64>,
    ran: bool,
    outcome: Result<JsVal, VmError>,
    fired: bool,
) -> bool {
    if outermost && at.1.auto_microtasks {
        let draining = then(at, Event::Said(Got::No));
        &&& at.0.to_do() is AskTerminating
        &&& leaves(then(at, Event::Said(Got::Yes)), generation, ran, outcome, fired)
        &&& then(at, Event::Said(Got::Yes)).1 == at.1
        &&& draining.0.to_do() is Drain
        &&& draining.1 == (StateView { draining: true, ..at.1 })
        &&& leaves(then(draining, Event::Done), generation, ran, outcome, fired)
        &&& then(draining, Event::Done).1 == at.1
    } else {
        leaves(at, generation, ran, outcome, fired)
    }
}

/// An operation that could not be begun: nothing is entered, and its deadline is
/// disarmed. Its reply is the refusal, whether or not the deadline passed.
#[verifier::opaque]
pub open spec fn gives_up<E: Engine>(
    at: (Task, StateView<E>),
    generation: Option<u64>,
    refusal: Refusal,
    fired: bool,
) -> bool {
    &&& at.0.to_do() == Action::Disarm(generation)
    &&& replied(
        then(at, Event::Fired(fired)),
        VmReply::Done(Err(VmError::Runtime(refusal))),
    )
}

/// Work whose last answer ends it.
proof fn lemma_work_ends<E: Engine>(
    bracket: Bracket,
    work: Work,
    state: StateView<E>,
    got: Got,
    end: Evaluated,
    fired: bool,
)
    requires
        bracket.phase == Phase::Work(work),
        work.after(got) == Turn::<Work, Evaluated>::Over(end),
        !end.pending,
    ensures
        ends(
            then((Task::Bracket(bracket), state), Event::Said(got)),
            bracket.outermost,
            bracket.generation,
            end.ran_js,
            end.outcome,
            fired,
        ),
        then((Task::Bracket(bracket), state), Event::Said(got)).1 == state,
{
    reveal(then);
    reveal(ends);
    let at = then((Task::Bracket(bracket), state), Event::Said(got));
    assert(at.1 == state);
    if bracket.outermost && state.auto_microtasks {
        lemma_leaves(then(at, Event::Said(Got::Yes)), bracket.generation, end, fired);
        let draining = then(at, Event::Said(Got::No));
        lemma_leaves(then(draining, Event::Done), bracket.generation, end, fired);
    } else {
        lemma_leaves(at, bracket.generation, end, fired);
    }
}

proof fn lemma_leaves<E: Engine>(
    at: (Task, StateView<E>),
    generation: Option<u64>,
    end: Evaluated,
    fired: bool,
)
    requires
        at.0 matches Task::Bracket(b) && b.phase is Leave && b.generation == generation && b.ran_js
            == end.ran_js && b.outcome == end.outcome,
    ensures
        leaves(at, generation, end.ran_js, end.outcome, fired),
{
    reveal(then);
    reveal(leaves);
}

/// Work that goes on.
proof fn lemma_work_goes_on<E: Engine>(
    bracket: Bracket,
    work: Work,
    state: StateView<E>,
    got: Got,
    next: Work,
)
    requires
        bracket.phase == Phase::Work(work),
        work.after(got) == Turn::<Work, Evaluated>::Again(next),
    ensures
        then((Task::Bracket(bracket), state), Event::Said(got)) == (
            Task::Bracket(Bracket { phase: Phase::Work(next), ..bracket }),
            state,
        ),
{
    reveal(then);
}

/// Source text is run under the deadline and in the realm that the request names:
/// that text is made a script string, compiled under the request's filename, and
/// run; what comes out is the reply, unless the request asks for no value. Nothing
/// is entered if the realm is gone.
pub proof fn law_eval_runs_its_source<E: Engine>(
    before: StateView<E>,
    context_id: i32,
    source: String,
    filename: String,
    void: bool,
    timeout_ms: u64,
    outermost: bool,
    max_string: usize,
    task: Task,
    state: StateView<E>,
    generation: Option<u64>,
    value: JsVal,
    got: Got,
    fired: bool,
)
    requires
        becomes(
            before,
            Request::Eval { context_id, source, filename, void, timeout_ms },
            outermost,
            max_string,
            task,
            state,
        ),
        got !is Yes,
    ensures
        state == before,
        task.to_do() == Action::Arm(timeout_ms),
        ({
            let armed = then((task, state), Event::Armed(generation));
            let entered = then(armed, Event::Done);
            let made = then(entered, Event::Said(Got::Yes));
            let compiled = then(made, Event::Said(Got::Yes));
            let ran = then(compiled, Event::Said(Got::Yes));
            &&& armed.1 == before
            &&& before.realm(context_id) is None ==> gives_up(
                armed,
                generation,
                Refusal::RealmGone,
                fired,
            )
            &&& before.realm(context_id) is Some ==> {
                &&& armed.0.to_do() == Action::Enter(Entry::Context(context_id))
                &&& entered.0.to_do() == Action::Ask(Do::MakeSource(&source))
                &&& made.0.to_do() == Action::Ask(Do::Compile(&filename))
                &&& compiled.0.to_do() == Action::Ask(Do::Run)
                &&& ran.1 == before
                &&& void ==> ends(ran, outermost, generation, true, Ok(JsVal::Undefined), fired)
                &&& !void ==> ran.0.to_do() == Action::Ask(Do::Marshal)
                &&& !void ==> ends(
                    then(ran, Event::Said(Got::Value(value))),
                    outermost,
                    generation,
                    true,
                    Ok(value),
                    fired,
                )
                &&& ends(
                    then(compiled, Event::Said(got)),
                    outermost,
                    generation,
                    true,
                    Err(failure(got)),
                    fired,
                )
            }
        }),
{
    let job = SourceJob { source, filename, void, step: SourceStep::MakeSource };
    let work = Work::Source { context_id, job };
    lemma_begins(work, timeout_ms, outermost, before, generation, fired);
    if before.realm(context_id) is Some {
        let around = Bracket::around(work, timeout_ms, outermost);
        let b0 = Bracket { generation, phase: Phase::Work(work), ..around };
        let w1 = Work::Source { context_id, job: SourceJob { step: SourceStep::Compile, ..job } };
        let w2 = Work::Source { context_id, job: SourceJob { step: SourceStep::Run, ..job } };
        let w3 = Work::Source { context_id, job: SourceJob { step: SourceStep::Marshal, ..job } };
        let armed = then((task, state), Event::Armed(generation));
        let entered = then(armed, Event::Done);
        assert(entered == (Task::Bracket(b0), state));
        lemma_work_goes_on(b0, b0.phase->Work_0, state, Got::Yes, w1);
        let b1 = Bracket { phase: Phase::Work(w1), ..b0 };
        lemma_work_goes_on(b1, w1, state, Got::Yes, w2);
        let b2 = Bracket { phase: Phase::Work(w2), ..b0 };
        lemma_work_ends(b2, w2, state, got, ran_to(Err(failure(got))), fired);
        if void {
            lemma_work_ends(b2, w2, state, Got::Yes, ran_to(Ok(JsVal::Undefined)), fired);
        } else {
            lemma_work_goes_on(b2, w2, state, Got::Yes, w3);
            let b3 = Bracket { phase: Phase::Work(w3), ..b0 };
            lemma_work_ends(b3, w3, state, Got::Value(value), ran_to(Ok(value)), fired);
        }
    }
}

/// The engine has said yes so many times.
pub open spec fn answered<E: Engine>(at: (Task, StateView<E>), n: nat) -> (Task, StateView<E>)
    decreases n,
{
    if n == 0 {
        at
    } else {
        then(answered(at, (n - 1) as nat), Event::Said(Got::Yes))
    }
}

proof fn lemma_answered_on<E: Engine>(at: (Task, StateView<E>), n: nat, m: nat)
    ensures
        answered(answered(at, n), m) == answered(at, n + m),
    decreases m,
{
    if m > 0 {
        lemma_answered_on(at, n, (m - 1) as nat);
    }
}

/// Script work is begun under its deadline and in its realm, or not at all.
proof fn lemma_begins<E: Engine>(
    work: Work,
    timeout_ms: u64,
    outermost: bool,
    state: StateView<E>,
    generation: Option<u64>,
    fired: bool,
)
    ensures
        ({
            let around = Bracket::around(work, timeout_ms, outermost);
            let armed = then((Task::Bracket(around), state), Event::Armed(generation));
            &&& Task::Bracket(around).to_do() == Action::Arm(timeout_ms)
            &&& armed.1 == state
            &&& match state.entry(work.entry()) {
                Ok(_) => {
                    &&& armed.0.to_do() == Action::Enter(work.entry())
                    &&& armed == (
                        Task::Bracket(Bracket { generation, phase: Phase::Enter(work), ..around }),
                        state,
                    )
                    &&& work.started() matches Turn::Again(begun) ==> then(armed, Event::Done) == (
                        Task::Bracket(Bracket { generation, phase: Phase::Work(begun), ..around }),
                        state,
                    )
                },
                Err(refusal) => gives_up(armed, generation, refusal, fired),
            }
        }),
{
    reveal(then);
    reveal(gives_up);
}

/// Every operation that names a deadline begins by having that deadline armed, and
/// no other operation arms one.
pub proof fn law_deadline_is_the_requests<E: Engine>(
    before: StateView<E>,
    request: Request,
    outermost: bool,
    max_string: usize,
    task: Task,
    state: StateView<E>,
)
    requires
        becomes(before, request, outermost, max_string, task, state),
    ensures
        match request {
            Request::Eval { timeout_ms, .. } => task.to_do() == Action::Arm(timeout_ms),
            Request::Call { timeout_ms, .. } => task.to_do() == Action::Arm(timeout_ms),
            Request::Attach { timeout_ms, .. } => task.to_do() == Action::Arm(timeout_ms),
            Request::AttachMany { timeout_ms, .. } => task.to_do() == Action::Arm(timeout_ms),
            Request::EvaluateModule { timeout_ms, .. } => task.to_do() == Action::Arm(timeout_ms),
            Request::RunScript { timeout_ms, .. } => task.to_do() == Action::Arm(timeout_ms),
            Request::DrainMicrotasks { timeout_ms } => task.to_do() == Action::Arm(timeout_ms),
            _ => task.to_do() !is Arm,
        },
{
}

/// An operation that runs script code in a realm enters the realm that the request
/// names, or that the module or script was compiled in, and no other. If there is
/// no such realm, or no such module or script, nothing is entered, and the reply
/// says which of them is missing.
pub proof fn law_realm_is_the_requests<E: Engine>(
    before: StateView<E>,
    request: Request,
    outermost: bool,
    max_string: usize,
    task: Task,
    state: StateView<E>,
    generation: Option<u64>,
    fired: bool,
)
    requires
        becomes(before, request, outermost, max_string, task, state),
    ensures
        ({
            let armed = then((task, state), Event::Armed(generation));
            match request {
                Request::Eval { context_id, .. }
                | Request::Call { context_id, .. }
                | Request::Attach { context_id, .. }
                | Request::AttachMany { context_id, .. } => {
                    &&& state == before && armed.1 == before
                    &&& before.realm(context_id) is Some ==> armed.0.to_do() == Action::Enter(
                        Entry::Context(context_id),
                    )
                    &&& before.realm(context_id) is None ==> gives_up(
                        armed,
                        generation,
                        Refusal::RealmGone,
                        fired,
                    )
                },
                Request::EvaluateModule { module_id, .. } => {
                    &&& state == before && armed.1 == before
                    &&& if !before.modules.contains_key(module_id) {
                        gives_up(armed, generation, Refusal::UnknownModule, fired)
                    } else if before.realm(before.modules[module_id].context_id) is None {
                        gives_up(armed, generation, Refusal::ModuleContextGone, fired)
                    } else {
                        armed.0.to_do() == Action::Enter(Entry::Module(module_id))
                    }
                },
                Request::RunScript { script_id, .. } => {
                    &&& state == before && armed.1 == before
                    &&& if !before.scripts.contains_key(script_id) {
                        gives_up(armed, generation, Refusal::UnknownScript, fired)
                    } else if before.realm(before.scripts[script_id].context_id) is None {
                        gives_up(armed, generation, Refusal::ScriptContextGone, fired)
                    } else {
                        armed.0.to_do() == Action::Enter(Entry::Script(script_id))
                    }
                },
                Request::CompileModule { context_id, .. }
                | Request::CompileScript { context_id, .. } => {
                    &&& state == before
                    &&& before.realm(context_id) is Some <==> task.to_do() is Enter
                    &&& before.realm(context_id) is Some ==> task.to_do() == Action::Enter(
                        Entry::Context(context_id),
                    )
                },
                Request::InstantiateModule { module_id }
                | Request::ModuleNamespace { module_id }
                | Request::ModuleCodeCache { module_id } => {
                    task.to_do() is Enter ==> {
                        &&& task.to_do() == Action::Enter(Entry::Module(module_id))
                        &&& before.modules.contains_key(module_id)
                        &&& before.realm(before.modules[module_id].context_id) is Some
                    }
                },
                _ => task.to_do() !is Enter,
            }
        }),
{
    match task {
        Task::Bracket(bracket) => {
            let work = bracket.phase->Arm_0;
            lemma_begins(work, bracket.timeout_ms, outermost, before, generation, fired);
            assert(bracket == Bracket::around(work, bracket.timeout_ms, outermost));
        },
        _ => {},
    }
}

/// The context that is entered is that of the realm: of the one with the number, or
/// of the one that the module or script was compiled in.
pub proof fn law_entry_is_its_realms<E: Engine>(state: StateView<E>, id: i32)
    ensures
        state.realm(id) matches Some(realm) ==> state.entry(Entry::Context(id)) == Ok::<
            Realm<E>,
            Refusal,
        >(realm),
        state.realm(id) is None ==> state.entry(Entry::Context(id)) == Err::<Realm<E>, Refusal>(
            Refusal::RealmGone,
        ),
        state.modules.contains_key(id) ==> (match state.realm(state.modules[id].context_id) {
            Some(realm) => state.entry(Entry::Module(id)) == Ok::<Realm<E>, Refusal>(realm),
            None => state.entry(Entry::Module(id)) == Err::<Realm<E>, Refusal>(
                Refusal::ModuleContextGone,
            ),
        }),
        !state.modules.contains_key(id) ==> state.entry(Entry::Module(id)) == Err::<
            Realm<E>,
            Refusal,
        >(Refusal::UnknownModule),
        state.scripts.contains_key(id) ==> (match state.realm(state.scripts[id].context_id) {
            Some(realm) => state.entry(Entry::Script(id)) == Ok::<Realm<E>, Refusal>(realm),
            None => state.entry(Entry::Script(id)) == Err::<Realm<E>, Refusal>(
                Refusal::ScriptContextGone,
            ),
        }),
        !state.scripts.contains_key(id) ==> state.entry(Entry::Script(id)) == Err::<
            Realm<E>,
            Refusal,
        >(Refusal::UnknownScript),
        id == 0 ==> state.realm(id) == state.main,
        id != 0 && state.realms.contains_key(id) ==> state.realm(id) == Some(state.realms[id]),
        id != 0 && !state.realms.contains_key(id) ==> state.realm(id) is None,
{
}

proof fn lemma_call_answered<E: Engine>(
    bracket: Bracket,
    context_id: i32,
    job: CallJob,
    state: StateView<E>,
    n: nat,
)
    requires
        bracket.phase == Phase::Work(Work::Call { context_id, job }),
        call_after(job, yes(n)) is Again,
    ensures
        answered((Task::Bracket(bracket), state), n) == (
            Task::Bracket(
                Bracket {
                    phase: Phase::Work(
                        Work::Call { context_id, job: call_after(job, yes(n))->Again_0 },
                    ),
                    ..bracket
                },
            ),
            state,
        ),
    decreases n,
{
    if n > 0 {
        let m = (n - 1) as nat;
        assert(yes(n).drop_last() =~= yes(m));
        lemma_call_answered(bracket, context_id, job, state, m);
        let j = call_after(job, yes(m))->Again_0;
        let b = Bracket { phase: Phase::Work(Work::Call { context_id, job: j }), ..bracket };
        lemma_work_goes_on(
            b,
            Work::Call { context_id, job: j },
            state,
            Got::Yes,
            Work::Call { context_id, job: call_after(job, yes(n))->Again_0 },
        );
    } else {
        assert(yes(0).len() == 0);
    }
}

/// A function is called under the deadline and in the realm that the request names.
/// The parts of the request's path are read one after the other; what is found at
/// the end must be a function; it is called with the request's arguments, and what
/// it returns is the reply, unless the request asks for no value.
#[verifier::spinoff_prover]
#[verifier::rlimit(60)]
pub proof fn law_call_calls_its_function<E: Engine>(
    before: StateView<E>,
    context_id: i32,
    name: String,
    args: Vec<JsVal>,
    void: bool,
    timeout_ms: u64,
    outermost: bool,
    max_string: usize,
    task: Task,
    state: StateView<E>,
    generation: Option<u64>,
    k: nat,
    value: JsVal,
    got: Got,
    fired: bool,
)
    requires
        becomes(
            before,
            Request::Call { context_id, name, args, void, timeout_ms },
            outermost,
            max_string,
            task,
            state,
        ),
        before.realm(context_id) is Some,
        k < path_parts(name@).len(),
        got !is Yes,
    ensures
        ({
            let parts = path_parts(name@);
            let entered = then(then((task, state), Event::Armed(generation)), Event::Done);
            let found = answered(entered, 3 * parts.len());
            let bound = answered(entered, 3 * parts.len() + 1);
            let called = answered(entered, 3 * parts.len() + 2);
            &&& answered(entered, 3 * k).0.to_do() == Action::Ask(Do::ToObject)
            &&& answered(entered, 3 * k + 1).0.to_do() matches Action::Ask(Do::MakeKey(part))
                && part@ == parts[k as int]
            &&& answered(entered, 3 * k + 2).0.to_do() == Action::Ask(Do::Read)
            &&& found.0.to_do() == Action::Ask(Do::AskFunction)
            &&& bound.0.to_do() matches Action::Ask(Do::Invoke(builds)) && built(
                builds@,
                args@,
                max_string,
            )
            &&& void ==> ends(called, outermost, generation, true, Ok(JsVal::Undefined), fired)
            &&& !void ==> called.0.to_do() == Action::Ask(Do::Marshal)
            &&& !void ==> ends(
                then(called, Event::Said(Got::Value(value))),
                outermost,
                generation,
                true,
                Ok(value),
                fired,
            )
            &&& ends(
                then(found, Event::Said(got)),
                outermost,
                generation,
                true,
                Err(VmError::Runtime(Refusal::NotAFunction { name })),
                fired,
            )
            &&& ends(
                then(bound, Event::Said(got)),
                outermost,
                generation,
                true,
                Err(failure(got)),
                fired,
            )
        }),
{
    let around = task->Bracket_0;
    let work = around.phase->Arm_0;
    let job = work->Call_job;
    lemma_begins(work, timeout_ms, outermost, before, generation, fired);
    let b = Bracket { generation, phase: Phase::Work(work), ..around };
    let at = (Task::Bracket(b), before);
    assert(then(then((task, state), Event::Armed(generation)), Event::Done) == at);
    let n = job.parts@.len();
    assert(job.parts.len() == n);
    assert(texts(job.parts@).len() == n);
    assert(texts(job.parts@)[k as int] == job.parts@[k as int]@);
    lemma_call_walks(job, k);
    lemma_call_walks(job, n);
    assert(yes(3 * k + 1).drop_last() =~= yes(3 * k));
    assert(yes(3 * k + 2).drop_last() =~= yes(3 * k + 1));
    assert(yes(3 * n + 1).drop_last() =~= yes(3 * n));
    lemma_call_answered(b, context_id, job, before, 3 * k);
    lemma_call_answered(b, context_id, job, before, 3 * k + 1);
    lemma_call_answered(b, context_id, job, before, 3 * k + 2);
    lemma_call_answered(b, context_id, job, before, 3 * n);
    lemma_call_answered(b, context_id, job, before, 3 * n + 1);
    let last = (n - 1) as usize;
    let w0 = Work::Call {
        context_id,
        job: CallJob { at: last, step: CallStep::AskFunction, ..job },
    };
    let w1 = Work::Call { context_id, job: CallJob { at: last, step: CallStep::Invoke, ..job } };
    let w2 = Work::Call { context_id, job: CallJob { at: last, step: CallStep::Marshal, ..job } };
    let b0 = Bracket { phase: Phase::Work(w0), ..b };
    let b1 = Bracket { phase: Phase::Work(w1), ..b };
    let b2 = Bracket { phase: Phase::Work(w2), ..b };
    assert(answered(at, 3 * n) == (Task::Bracket(b0), before));
    assert(answered(at, 3 * n + 1) == (Task::Bracket(b1), before));
    let refused = Err::<JsVal, VmError>(VmError::Runtime(Refusal::NotAFunction { name }));
    lemma_work_ends(b0, w0, before, got, ran_to(refused), fired);
    lemma_work_ends(b1, w1, before, got, ran_to(Err(failure(got))), fired);
    assert(answered(at, 3 * n + 2) == then(answered(at, 3 * n + 1), Event::Said(Got::Yes)));
    if void {
        lemma_work_ends(b1, w1, before, Got::Yes, ran_to(Ok(JsVal::Undefined)), fired);
    } else {
        lemma_work_goes_on(b1, w1, before, Got::Yes, w2);
        lemma_work_ends(b2, w2, before, Got::Value(value), ran_to(Ok(value)), fired);
    }
}

proof fn lemma_attach_answered<E: Engine>(
    bracket: Bracket,
    context_id: i32,
    job: AttachJob,
    state: StateView<E>,
    n: nat,
)
    requires
        bracket.phase == Phase::Work(Work::Attach { context_id, job }),
        attach_after(job, yes(n)) is Again,
    ensures
        answered((Task::Bracket(bracket), state), n) == (
            Task::Bracket(
                Bracket {
                    phase: Phase::Work(
                        Work::Attach { context_id, job: attach_after(job, yes(n))->Again_0 },
                    ),
                    ..bracket
                },
            ),
            state,
        ),
    decreases n,
{
    if n > 0 {
        let m = (n - 1) as nat;
        assert(yes(n).drop_last() =~= yes(m));
        lemma_attach_answered(bracket, context_id, job, state, m);
        let j = attach_after(job, yes(m))->Again_0;
        let b = Bracket { phase: Phase::Work(Work::Attach { context_id, job: j }), ..bracket };
        lemma_work_goes_on(
            b,
            Work::Attach { context_id, job: j },
            state,
            Got::Yes,
            Work::Attach { context_id, job: attach_after(job, yes(n))->Again_0 },
        );
    } else {
        assert(yes(0).len() == 0);
    }
}

/// How many answers it takes to put the first `n` functions in place, if the
/// objects on their paths are there.
pub open spec fn answers_for(entries: Seq<(String, usize)>, n: nat) -> nat
    decreases n,
{
    if n == 0 {
        0
    } else {
        answers_for(entries, (n - 1) as nat) + 2 * path_parts(entries[n - 1].0@).len() + 1
    }
}

/// A name that a function can be put at: no part of it is empty.
pub open spec fn is_attach_name(name: Seq<char>) -> bool {
    forall|k: int| 0 <= k < path_parts(name).len() ==> (#[trigger] path_parts(name)[k]).len() > 0
}

proof fn lemma_attach_entry<E: Engine>(
    bracket: Bracket,
    context_id: i32,
    job: AttachJob,
    state: StateView<E>,
    k: nat,
)
    requires
        bracket.phase == Phase::Work(Work::Attach { context_id, job }),
        job.wf(),
        job.step is NewFunction,
        job.at == 0,
        is_attach_name(job.entries@[job.entry as int].0@),
        k < path_parts(job.entries@[job.entry as int].0@).len(),
    ensures
        ({
            let at = (Task::Bracket(bracket), state);
            let parts = path_parts(job.entries@[job.entry as int].0@);
            let writing = answered(at, 2 * parts.len());
            &&& parts.len() > 0
            &&& answered(at, 1 + 2 * k).0.to_do() matches Action::Ask(Do::MakeKey(part)) && part@
                == parts[k as int]
            &&& k + 1 < parts.len() ==> answered(at, 2 + 2 * k).0.to_do() == Action::Ask(
                Do::ReadHolder,
            )
            &&& writing.0.to_do() == Action::Ask(Do::Write)
            &&& writing == (
                Task::Bracket(
                    Bracket {
                        phase: Phase::Work(
                            Work::Attach {
                                context_id,
                                job: AttachJob {
                                    at: (parts.len() - 1) as usize,
                                    step: AttachStep::Write,
                                    ..job
                                },
                            },
                        ),
                        ..bracket
                    },
                ),
                state,
            )
        }),
{
    let path = job.paths@[job.entry as int]@;
    let parts = path_parts(job.entries@[job.entry as int].0@);
    assert(texts(path) == parts);
    assert(texts(path).len() == path.len());
    assert(job.paths@[job.entry as int].len() == path.len());
    assert forall|i: int| 0 <= i <= job.leaf() implies (#[trigger] job.part(i))@.len() > 0 by {
        assert(parts[i] == path[i]@);
    }
    assert(parts[k as int] == path[k as int]@);
    let last = (path.len() - 1) as nat;
    lemma_attach_walks(job, k);
    lemma_attach_walks(job, last);
    assert(yes(2 + 2 * k).drop_last() =~= yes(1 + 2 * k));
    assert(yes(2 + 2 * last).drop_last() =~= yes(1 + 2 * last));
    lemma_attach_answered(bracket, context_id, job, state, 1 + 2 * k);
    lemma_attach_answered(bracket, context_id, job, state, 2 + 2 * last);
    if k + 1 < parts.len() {
        lemma_attach_answered(bracket, context_id, job, state, 2 + 2 * k);
    }
    assert(2 + 2 * last == 2 * parts.len());
}

/// The work before the function with this index, once those before it are in
/// place.
proof fn lemma_attach_gets_to<E: Engine>(
    bracket: Bracket,
    context_id: i32,
    job: AttachJob,
    state: StateView<E>,
    i: nat,
)
    requires
        bracket.phase == Phase::Work(Work::Attach { context_id, job }),
        job.split(),
        job.entry == 0,
        job.at == 0,
        job.step is NewFunction,
        i < job.entries@.len(),
        forall|j: int|
            0 <= j < i ==> is_attach_name((#[trigger] job.entries@[j]).0@),
    ensures
        ({
            let there = AttachJob { entry: i as usize, ..job };
            &&& there.wf()
            &&& answered((Task::Bracket(bracket), state), answers_for(job.entries@, i)) == (
                Task::Bracket(
                    Bracket {
                        phase: Phase::Work(Work::Attach { context_id, job: there }),
                        ..bracket
                    },
                ),
                state,
            )
        }),
    decreases i,
{
    assert(job.entries.len() == job.entries@.len());
    assert(job.paths@[i as int]@.len() > 0);
    if i > 0 {
        let m = (i - 1) as nat;
        lemma_attach_gets_to(bracket, context_id, job, state, m);
        let at = (Task::Bracket(bracket), state);
        let before = AttachJob { entry: m as usize, ..job };
        let b = Bracket {
            phase: Phase::Work(Work::Attach { context_id, job: before }),
            ..bracket
        };
        let parts = path_parts(job.entries@[m as int].0@);
        assert(texts(job.paths@[m as int]@) == parts);
        assert(is_attach_name(job.entries@[m as int].0@));
        lemma_attach_entry(b, context_id, before, state, 0);
        let writing = AttachJob {
            at: (parts.len() - 1) as usize,
            step: AttachStep::Write,
            ..before
        };
        let b1 = Bracket {
            phase: Phase::Work(Work::Attach { context_id, job: writing }),
            ..bracket
        };
        let there = AttachJob { entry: i as usize, ..job };
        lemma_work_goes_on(
            b1,
            Work::Attach { context_id, job: writing },
            state,
            Got::Yes,
            Work::Attach { context_id, job: there },
        );
        lemma_answered_on(at, answers_for(job.entries@, m), 2 * parts.len() + 1);
    }
}

/// Host functions are put in place under the deadline and in the realm that the
/// request names, in the order in which it lists them: each one is made with its
/// own number, the objects on its path are looked up part by part, and it is
/// written under the last part. The reply comes once all are in place, and has no
/// value.
#[verifier::spinoff_prover]
#[verifier::rlimit(60)]
pub proof fn law_functions_are_put_in_place<E: Engine>(
    before: StateView<E>,
    request: Request,
    context_id: i32,
    entries: Seq<(String, usize)>,
    timeout_ms: u64,
    outermost: bool,
    max_string: usize,
    task: Task,
    state: StateView<E>,
    generation: Option<u64>,
    i: nat,
    k: nat,
    fired: bool,
)
    requires
        becomes(before, request, outermost, max_string, task, state),
        match request {
            Request::Attach { context_id: c, name, host_fn_id, timeout_ms: t } => c == context_id
                && entries == seq![(name, host_fn_id)] && t == timeout_ms,
            Request::AttachMany { context_id: c, entries: all, timeout_ms: t } => c == context_id
                && entries == all@ && t == timeout_ms,
            _ => false,
        },
        before.realm(context_id) is Some,
        forall|j: int| 0 <= j < entries.len() ==> is_attach_name((#[trigger] entries[j]).0@),
    ensures
        ({
            let entered = then(then((task, state), Event::Armed(generation)), Event::Done);
            let from = answers_for(entries, i);
            let parts = path_parts(entries[i as int].0@);
            &&& i < entries.len() ==> {
                &&& answered(entered, from).0.to_do() == Action::Ask(
                    Do::NewFunction(entries[i as int].1),
                )
                &&& parts.len() > 0
                &&& k < parts.len() ==> (answered(entered, from + 1 + 2 * k).0.to_do()
                    matches Action::Ask(Do::MakeKey(part)) && part@ == parts[k as int])
                &&& k + 1 < parts.len() ==> answered(entered, from + 2 + 2 * k).0.to_do()
                    == Action::Ask(Do::ReadHolder)
                &&& answered(entered, from + 2 * parts.len()).0.to_do() == Action::Ask(Do::Write)
            }
            &&& ends(
                answered(entered, answers_for(entries, entries.len())),
                outermost,
                generation,
                true,
                Ok(JsVal::Undefined),
                fired,
            )
        }),
{
    let around = task->Bracket_0;
    let work = around.phase->Arm_0;
    let job0 = work->Attach_job;
    lemma_begins(work, timeout_ms, outermost, before, generation, fired);
    let armed = then((task, state), Event::Armed(generation));
    let entered = then(armed, Event::Done);
    let n = entries.len();
    assert(job0.entries@ == entries);
    assert(job0.entries.len() == n);
    if n == 0 {
        lemma_empty_attach_ends(
            Bracket { generation, phase: Phase::Enter(work), ..around },
            work,
            before,
            fired,
        );
    } else {
        let job = AttachJob { entry: 0, at: 0, step: AttachStep::NewFunction, ..job0 };
        let b = Bracket {
            generation,
            phase: Phase::Work(Work::Attach { context_id, job }),
            ..around
        };
        assert(entered == (Task::Bracket(b), before));
        if i < n {
            lemma_attach_gets_to(b, context_id, job, before, i);
            let there = AttachJob { entry: i as usize, ..job };
            let bi = Bracket {
                phase: Phase::Work(Work::Attach { context_id, job: there }),
                ..b
            };
            let parts = path_parts(entries[i as int].0@);
            let from = answers_for(entries, i);
            assert(is_attach_name(entries[i as int].0@));
            assert(texts(job.paths@[i as int]@) == parts);
            assert(texts(job.paths@[i as int]@).len() > 0);
            lemma_attach_entry(bi, context_id, there, before, 0);
            if k < parts.len() {
                lemma_attach_entry(bi, context_id, there, before, k);
                lemma_answered_on(entered, from, 1 + 2 * k);
                lemma_answered_on(entered, from, 2 + 2 * k);
            }
            lemma_answered_on(entered, from, 2 * parts.len());
        }
        let m = (n - 1) as nat;
        lemma_attach_gets_to(b, context_id, job, before, m);
        let there = AttachJob { entry: m as usize, ..job };
        let bm = Bracket { phase: Phase::Work(Work::Attach { context_id, job: there }), ..b };
        let parts = path_parts(entries[m as int].0@);
        assert(is_attach_name(entries[m as int].0@));
        assert(texts(job.paths@[m as int]@) == parts);
        assert(texts(job.paths@[m as int]@).len() > 0);
        lemma_attach_entry(bm, context_id, there, before, 0);
        let writing = AttachJob {
            at: (parts.len() - 1) as usize,
            step: AttachStep::Write,
            ..there
        };
        let bw = Bracket { phase: Phase::Work(Work::Attach { context_id, job: writing }), ..b };
        lemma_work_ends(
            bw,
            Work::Attach { context_id, job: writing },
            before,
            Got::Yes,
            ran_to(Ok(JsVal::Undefined)),
            fired,
        );
        lemma_answered_on(entered, answers_for(entries, m), 2 * parts.len() + 1);
    }
}

proof fn lemma_empty_attach_ends<E: Engine>(
    bracket: Bracket,
    work: Work,
    state: StateView<E>,
    fired: bool,
)
    requires
        bracket.phase == Phase::Enter(work),
        work.started() == Turn::<Work, Evaluated>::Over(ran_to(Ok(JsVal::Undefined))),
    ensures
        ends(
            then((Task::Bracket(bracket), state), Event::Done),
            bracket.outermost,
            bracket.generation,
            true,
            Ok(JsVal::Undefined),
            fired,
        ),
{
    reveal(then);
    reveal(ends);
    let end = ran_to(Ok(JsVal::Undefined));
    let at = then((Task::Bracket(bracket), state), Event::Done);
    if bracket.outermost && state.auto_microtasks {
        lemma_leaves(then(at, Event::Said(Got::Yes)), bracket.generation, end, fired);
        let draining = then(at, Event::Said(Got::No));
        lemma_leaves(then(draining, Event::Done), bracket.generation, end, fired);
    } else {
        lemma_leaves(at, bracket.generation, end, fired);
    }
}

/// Where the engine cannot make the first function, none is put in place. One that
/// was to be attached alone is not named in the reply; one of several is.
pub proof fn law_unmade_function_is_named_among_several<E: Engine>(
    before: StateView<E>,
    request: Request,
    outermost: bool,
    max_string: usize,
    task: Task,
    state: StateView<E>,
    generation: Option<u64>,
    got: Got,
    fired: bool,
)
    requires
        becomes(before, request, outermost, max_string, task, state),
        match request {
            Request::Attach { context_id, .. } => before.realm(context_id) is Some,
            Request::AttachMany { context_id, entries, .. } => before.realm(context_id) is Some
                && entries@.len() > 0,
            _ => false,
        },
        got !is Yes,
    ensures
        ({
            let entered = then(then((task, state), Event::Armed(generation)), Event::Done);
            ends(
                then(entered, Event::Said(got)),
                outermost,
                generation,
                true,
                Err(
                    VmError::Runtime(
                        match request {
                            Request::AttachMany { entries, .. } => Refusal::NoFunctionFor {
                                name: entries@[0].0,
                            },
                            _ => Refusal::NoFunction,
                        },
                    ),
                ),
                fired,
            )
        }),
{
    let around = task->Bracket_0;
    let work = around.phase->Arm_0;
    let job0 = work->Attach_job;
    let context_id = work->Attach_context_id;
    lemma_begins(work, around.timeout_ms, outermost, before, generation, fired);
    let job = AttachJob { entry: 0, at: 0, step: AttachStep::NewFunction, ..job0 };
    let b = Bracket { generation, phase: Phase::Work(Work::Attach { context_id, job }), ..around };
    assert(then(then((task, state), Event::Armed(generation)), Event::Done) == (
        Task::Bracket(b),
        before,
    ));
    let refusal = if job.many {
        Refusal::NoFunctionFor { name: job.name() }
    } else {
        Refusal::NoFunction
    };
    lemma_work_ends(
        b,
        Work::Attach { context_id, job },
        before,
        got,
        ran_to(Err(VmError::Runtime(refusal))),
        fired,
    );
}

/// A compiled script is run under the request's deadline, and what comes out is the
/// reply, unless the request asks for no value; it can be run any number of times,
/// as nothing in the isolate changes by it.
pub proof fn law_script_is_run<E: Engine>(
    before: StateView<E>,
    script_id: i32,
    void: bool,
    timeout_ms: u64,
    outermost: bool,
    max_string: usize,
    task: Task,
    state: StateView<E>,
    generation: Option<u64>,
    value: JsVal,
    got: Got,
    fired: bool,
)
    requires
        becomes(
            before,
            Request::RunScript { script_id, void, timeout_ms },
            outermost,
            max_string,
            task,
            state,
        ),
        before.entry(Entry::Script(script_id)) is Ok,
        got !is Yes,
    ensures
        ({
            let entered = then(then((task, state), Event::Armed(generation)), Event::Done);
            let ran = then(entered, Event::Said(Got::Yes));
            &&& entered.0.to_do() == Action::Ask(Do::Run)
            &&& entered.1 == before && ran.1 == before
            &&& void ==> ends(ran, outermost, generation, true, Ok(JsVal::Undefined), fired)
            &&& !void ==> ran.0.to_do() == Action::Ask(Do::Marshal)
            &&& !void ==> ends(
                then(ran, Event::Said(Got::Value(value))),
                outermost,
                generation,
                true,
                Ok(value),
                fired,
            )
            &&& ends(
                then(entered, Event::Said(got)),
                outermost,
                generation,
                true,
                Err(failure(got)),
                fired,
            )
        }),
{
    let job = ScriptJob { void, ran: false };
    let work = Work::Script { script_id, job };
    lemma_begins(work, timeout_ms, outermost, before, generation, fired);
    let around = Bracket::around(work, timeout_ms, outermost);
    let b = Bracket { generation, phase: Phase::Work(work), ..around };
    let w1 = Work::Script { script_id, job: ScriptJob { void, ran: true } };
    let b1 = Bracket { phase: Phase::Work(w1), ..b };
    lemma_work_ends(b, work, before, got, ran_to(Err(failure(got))), fired);
    if void {
        lemma_work_ends(b, work, before, Got::Yes, ran_to(Ok(JsVal::Undefined)), fired);
    } else {
        lemma_work_goes_on(b, work, before, Got::Yes, w1);
        lemma_work_ends(b1, w1, before, Got::Value(value), ran_to(Ok(value)), fired);
    }
}

/// A module that is linked is evaluated under the request's deadline. If it leaves
/// a promise that is pending, the promise is looked at once more, behind the drain
/// if there is one; if it is rejected by then, the reply is why. A module that has
/// run is not run again, and one that is not linked is refused.
#[verifier::spinoff_prover]
#[verifier::rlimit(60)]
pub proof fn law_module_is_evaluated<E: Engine>(
    before: StateView<E>,
    module_id: i32,
    timeout_ms: u64,
    outermost: bool,
    max_string: usize,
    task: Task,
    state: StateView<E>,
    generation: Option<u64>,
    text: String,
    status: ModuleStatus,
    got: Got,
    fired: bool,
)
    requires
        becomes(
            before,
            Request::EvaluateModule { module_id, timeout_ms },
            outermost,
            max_string,
            task,
            state,
        ),
        before.entry(Entry::Module(module_id)) is Ok,
        got !is Yes && got !is Text,
    ensures
        ({
            let entered = then(then((task, state), Event::Armed(generation)), Event::Done);
            let linked = then(entered, Event::Said(Got::Status(ModuleStatus::Instantiated)));
            let ran = then(linked, Event::Said(Got::Yes));
            let pending = then(ran, Event::Said(Got::Yes));
            let settled = Ok::<JsVal, VmError>(JsVal::Undefined);
            let rejected = Err::<JsVal, VmError>(
                VmError::JsError { message: Some(text), stack: None },
            );
            &&& entered.0.to_do() == Action::Ask(Do::AskStatus)
            &&& linked.0.to_do() == Action::Ask(Do::Evaluate)
            &&& ran.0.to_do() == Action::Ask(Do::AskPromise)
            &&& ends(then(linked, Event::Said(got)), outermost, generation, true, Err(failure(got)), fired)
            &&& ends(then(ran, Event::Said(got)), outermost, generation, true, settled, fired)
            &&& ends(
                then(ran, Event::Said(Got::Text(text))),
                outermost,
                generation,
                true,
                rejected,
                fired,
            )
            &&& pending.1 == before
            &&& if outermost && before.auto_microtasks {
                let draining = then(pending, Event::Said(Got::No));
                let drained = then(draining, Event::Done);
                &&& pending.0.to_do() is AskTerminating
                &&& draining.0.to_do() is Drain
                &&& looks_again(drained, generation, settled, rejected, text, got, fired)
                &&& looks_again(
                    then(pending, Event::Said(Got::Yes)),
                    generation,
                    settled,
                    rejected,
                    text,
                    got,
                    fired,
                )
            } else {
                looks_again(pending, generation, settled, rejected, text, got, fired)
            }
            &&& status is Evaluated ==> ends(
                then(entered, Event::Said(Got::Status(status))),
                outermost,
                generation,
                false,
                settled,
                fired,
            )
            &&& status is Uninstantiated || status is Instantiating || status is Evaluating ==> ends(
                then(entered, Event::Said(Got::Status(status))),
                outermost,
                generation,
                false,
                Err(VmError::Runtime(Refusal::EvaluateTooEarly)),
                fired,
            )
            &&& status is Errored ==> {
                let asking = then(entered, Event::Said(Got::Status(status)));
                &&& asking.0.to_do() == Action::Ask(Do::AskException)
                &&& ends(
                    then(asking, Event::Said(Got::Text(text))),
                    outermost,
                    generation,
                    false,
                    rejected,
                    fired,
                )
            }
        }),
{
    let w0 = Work::Evaluate { module_id, job: EvaluateJob::AskStatus };
    lemma_begins(w0, timeout_ms, outermost, before, generation, fired);
    let around = Bracket::around(w0, timeout_ms, outermost);
    let b0 = Bracket { generation, phase: Phase::Work(w0), ..around };
    let w1 = Work::Evaluate { module_id, job: EvaluateJob::Evaluate };
    let w2 = Work::Evaluate { module_id, job: EvaluateJob::AskPromise };
    let wx = Work::Evaluate { module_id, job: EvaluateJob::AskException };
    let b1 = Bracket { phase: Phase::Work(w1), ..b0 };
    let b2 = Bracket { phase: Phase::Work(w2), ..b0 };
    let bx = Bracket { phase: Phase::Work(wx), ..b0 };
    let settled = Ok::<JsVal, VmError>(JsVal::Undefined);
    let rejected = Err::<JsVal, VmError>(VmError::JsError { message: Some(text), stack: None });
    lemma_work_goes_on(b0, w0, before, Got::Status(ModuleStatus::Instantiated), w1);
    lemma_work_goes_on(b1, w1, before, Got::Yes, w2);
    lemma_work_ends(b1, w1, before, got, ran_to(Err(failure(got))), fired);
    lemma_work_ends(b2, w2, before, got, ran_to(settled), fired);
    lemma_work_ends(b2, w2, before, Got::Text(text), ran_to(rejected), fired);
    match status {
        ModuleStatus::Evaluated => {
            let end = Evaluated { ran_js: false, pending: false, outcome: settled };
            lemma_work_ends(b0, w0, before, Got::Status(status), end, fired);
        },
        ModuleStatus::Errored => {
            lemma_work_goes_on(b0, w0, before, Got::Status(status), wx);
            let end = Evaluated { ran_js: false, pending: false, outcome: rejected };
            lemma_work_ends(bx, wx, before, Got::Text(text), end, fired);
        },
        ModuleStatus::Instantiated => {},
        _ => {
            let refused = Err::<JsVal, VmError>(VmError::Runtime(Refusal::EvaluateTooEarly));
            let end = Evaluated { ran_js: false, pending: false, outcome: refused };
            lemma_work_ends(b0, w0, before, Got::Status(status), end, fired);
        },
    }
    lemma_pending(b2, before, text, got, fired);
}

/// Once a module has left a pending promise.
proof fn lemma_pending<E: Engine>(
    bracket: Bracket,
    state: StateView<E>,
    text: String,
    got: Got,
    fired: bool,
)
    requires
        bracket.phase matches Phase::Work(Work::Evaluate { job: EvaluateJob::AskPromise, .. }),
        got !is Text,
    ensures
        ({
            let pending = then((Task::Bracket(bracket), state), Event::Said(Got::Yes));
            let settled = Ok::<JsVal, VmError>(JsVal::Undefined);
            let rejected = Err::<JsVal, VmError>(
                VmError::JsError { message: Some(text), stack: None },
            );
            let generation = bracket.generation;
            &&& pending.1 == state
            &&& if bracket.outermost && state.auto_microtasks {
                let draining = then(pending, Event::Said(Got::No));
                let drained = then(draining, Event::Done);
                &&& pending.0.to_do() is AskTerminating
                &&& draining.0.to_do() is Drain
                &&& looks_again(drained, generation, settled, rejected, text, got, fired)
                &&& looks_again(
                    then(pending, Event::Said(Got::Yes)),
                    generation,
                    settled,
                    rejected,
                    text,
                    got,
                    fired,
                )
            } else {
                looks_again(pending, generation, settled, rejected, text, got, fired)
            }
        }),
{
    reveal(then);
    let settled = Ok::<JsVal, VmError>(JsVal::Undefined);
    let b3 = Bracket { ran_js: true, pending: true, outcome: settled, ..bracket };
    let again = Bracket { phase: Phase::Recheck, ..b3 };
    let pending = then((Task::Bracket(bracket), state), Event::Said(Got::Yes));
    lemma_looks_again(again, state, text, got, fired);
    if bracket.outermost && state.auto_microtasks {
        assert(pending == (
            Task::Bracket(Bracket { phase: Phase::AskTerminating, ..b3 }),
            state,
        ));
        let draining = then(pending, Event::Said(Got::No));
        assert(then(draining, Event::Done) == (Task::Bracket(again), state));
        assert(then(pending, Event::Said(Got::Yes)) == (Task::Bracket(again), state));
    } else {
        assert(pending == (Task::Bracket(again), state));
    }
}

/// A pending promise is looked at again.
#[verifier::opaque]
pub open spec fn looks_again<E: Engine>(
    at: (Task, StateView<E>),
    generation: Option<u64>,
    settled: Result<JsVal, VmError>,
    rejected: Result<JsVal, VmError>,
    text: String,
    got: Got,
    fired: bool,
) -> bool {
    &&& at.0.to_do() == Action::Ask(Do::AskPromise)
    &&& leaves(then(at, Event::Said(Got::Text(text))), generation, true, rejected, fired)
    &&& leaves(then(at, Event::Said(Got::Yes)), generation, true, settled, fired)
    &&& leaves(then(at, Event::Said(got)), generation, true, settled, fired)
}

proof fn lemma_looks_again<E: Engine>(
    bracket: Bracket,
    state: StateView<E>,
    text: String,
    got: Got,
    fired: bool,
)
    requires
        bracket.phase is Recheck,
        bracket.ran_js,
        bracket.outcome == Ok::<JsVal, VmError>(JsVal::Undefined),
        got !is Text,
    ensures
        looks_again(
            (Task::Bracket(bracket), state),
            bracket.generation,
            Ok(JsVal::Undefined),
            Err(VmError::JsError { message: Some(text), stack: None }),
            text,
            got,
            fired,
        ),
{
    reveal(then);
    reveal(looks_again);
    let at = (Task::Bracket(bracket), state);
    let rejected = Err::<JsVal, VmError>(VmError::JsError { message: Some(text), stack: None });
    let settled = Ok::<JsVal, VmError>(JsVal::Undefined);
    let g = bracket.generation;
    lemma_leaves(then(at, Event::Said(Got::Text(text))), g, ran_to(rejected), fired);
    lemma_leaves(then(at, Event::Said(Got::Yes)), g, ran_to(settled), fired);
    lemma_leaves(then(at, Event::Said(got)), g, ran_to(settled), fired);
}

/// A drain that is asked for drains the queues once, under the request's deadline
/// and from within the isolate's own realm; that it does is marked while it lasts.
/// It is stopped if its deadline passed or the heap came up to its limit.
pub proof fn law_drain_drains_once<E: Engine>(
    before: StateView<E>,
    timeout_ms: u64,
    outermost: bool,
    max_string: usize,
    task: Task,
    state: StateView<E>,
    generation: Option<u64>,
    fired: bool,
)
    requires
        becomes(
            before,
            Request::DrainMicrotasks { timeout_ms },
            outermost,
            max_string,
            task,
            state,
        ),
    ensures
        ({
            let armed = then((task, state), Event::Armed(generation));
            let entered = then(armed, Event::Done);
            let drained = then(entered, Event::Done);
            let left = then(drained, Event::Done);
            let outcome = if fired || before.oom_fired {
                Err::<JsVal, VmError>(VmError::Terminated)
            } else {
                Ok(JsVal::Undefined)
            };
            let after = StateView { watchdog_fired: fired || before.watchdog_fired, ..before };
            &&& state == before
            &&& task.to_do() == Action::Arm(timeout_ms)
            &&& armed.1 == before
            &&& before.main is Some ==> {
                &&& armed.0.to_do() == Action::Enter(Entry::Context(0))
                &&& entered.0.to_do() is Drain
                &&& entered.1 == (StateView { draining: true, ..before })
                &&& drained.0.to_do() is Leave
                &&& drained.1 == before
                &&& left.0.to_do() == Action::Disarm(generation)
                &&& left.1 == before
                &&& replied(then(left, Event::Fired(fired)), VmReply::Done(outcome))
                &&& then(left, Event::Fired(fired)).1 == after
            }
            &&& before.main is None ==> {
                &&& armed.0.to_do() == Action::Disarm(generation)
                &&& replied(then(armed, Event::Fired(fired)), VmReply::Done(outcome))
            }
        }),
{
    reveal(then);
}

/// What a compilation that came to nothing replies. It leaves its realm first, and
/// nothing is taken in.
pub open spec fn compile_fails<E: Engine>(
    at: (Task, StateView<E>),
    state: StateView<E>,
    is_module: bool,
    error: VmError,
) -> bool {
    &&& at.0.to_do() is Leave
    &&& at.1 == state
    &&& then(at, Event::Done).1 == state
    &&& replied(
        then(at, Event::Done),
        if is_module {
            VmReply::ModuleCompiled(Err(error))
        } else {
            VmReply::ScriptCompiled(Err(error))
        },
    )
}

/// How something is to be compiled, by what the request gives: a code cache wins
/// over eagerness, which wins over the engine's own ways.
pub open spec fn fits_request(mode: CompileMode, cached_data: Option<Vec<u8>>, eager: bool) -> bool {
    &&& mode is Consume <==> cached_data is Some
    &&& mode is Eager <==> cached_data is None && eager
    &&& mode is Lazy <==> cached_data is None && !eager
}

/// A module is compiled in the realm that the request names, from the request's own
/// source, under its filename and with its code cache; a code cache is made just if
/// the request asks for one. What is compiled gets a number that was not given out
/// before, under which it is known with its realm and its filename, and nothing
/// else in the isolate changes. The reply says the number, the code cache if it was
/// asked for, and whether one that was given was turned down.
pub proof fn law_module_is_compiled<E: Engine>(
    before: StateView<E>,
    context_id: i32,
    source: String,
    filename: String,
    cached_data: Option<Vec<u8>>,
    produce_cache: bool,
    eager: bool,
    outermost: bool,
    max_string: usize,
    task: Task,
    state: StateView<E>,
    handle: E::Module,
    hash: i32,
    rejected: bool,
    cache: Option<Vec<u8>>,
    got: Got,
    other: i32,
)
    requires
        becomes(
            before,
            Request::CompileModule {
                context_id,
                source,
                filename,
                cached_data,
                produce_cache,
                eager,
            },
            outermost,
            max_string,
            task,
            state,
        ),
        before.next_module_id < i32::MAX,
        got !is Yes,
        other != before.next_module_id,
    ensures
        state == before,
        before.realm(context_id) is None ==> replied(
            (task, state),
            VmReply::ModuleCompiled(Err(VmError::Runtime(Refusal::ContextGone))),
        ),
        before.realm(context_id) is Some ==> {
            let entered = then((task, state), Event::Done);
            let made = then(entered, Event::Said(Got::Yes));
            let compiled = then(made, Event::Module { handle, hash, rejected, cache });
            let over = then(compiled, Event::Done);
            let id = before.next_module_id;
            &&& task.to_do() == Action::Enter(Entry::Context(context_id))
            &&& entered.0.to_do() == Action::Ask(Do::MakeSource(&source))
            &&& compile_fails(
                then(entered, Event::Said(got)),
                before,
                true,
                VmError::Runtime(Refusal::ModuleSourceTooLarge),
            )
            &&& made.0.to_do() matches Action::CompileModule {
                filename: name,
                cached_data: given,
                mode,
                produce_cache: wanted,
            } && *name == filename && *given == cached_data && wanted == produce_cache
                && fits_request(mode, cached_data, eager)
            &&& made.1 == before
            &&& compile_fails(
                then(made, Event::Said(got)),
                before,
                true,
                uncompiled(got, Unit::Module, filename),
            )
            &&& compiled.0.to_do() is Leave
            &&& over.1.modules.contains_key(id)
            &&& over.1.modules[id].handle == handle
            &&& over.1.modules[id].url == filename
            &&& over.1.modules[id].context_id == context_id
            &&& over.1.modules[id].hash == hash
            &&& over.1.modules.contains_key(other) == before.modules.contains_key(other)
            &&& before.modules.contains_key(other) ==> over.1.modules[other]
                == before.modules[other]
            &&& over.1.next_module_id == id + 1
            &&& over.1 == (StateView {
                modules: over.1.modules,
                next_module_id: over.1.next_module_id,
                ..before
            })
            &&& over.0 matches Task::Over(VmReply::ModuleCompiled(Ok(said))) && said.id == id
                && said.cached_data == (if produce_cache {
                cache
            } else {
                None
            }) && said.cache_rejected == (cached_data is Some && rejected)
        },
{
    reveal(then);
}

/// A script is compiled as a module is, but has no url by which it could be
/// imported.
pub proof fn law_script_is_compiled<E: Engine>(
    before: StateView<E>,
    context_id: i32,
    source: String,
    filename: String,
    cached_data: Option<Vec<u8>>,
    produce_cache: bool,
    eager: bool,
    outermost: bool,
    max_string: usize,
    task: Task,
    state: StateView<E>,
    handle: E::Script,
    rejected: bool,
    cache: Option<Vec<u8>>,
    got: Got,
    other: i32,
)
    requires
        becomes(
            before,
            Request::CompileScript {
                context_id,
                source,
                filename,
                cached_data,
                produce_cache,
                eager,
            },
            outermost,
            max_string,
            task,
            state,
        ),
        before.next_script_id < i32::MAX,
        got !is Yes,
        other != before.next_script_id,
    ensures
        state == before,
        before.realm(context_id) is None ==> replied(
            (task, state),
            VmReply::ScriptCompiled(Err(VmError::Runtime(Refusal::ContextGone))),
        ),
        before.realm(context_id) is Some ==> {
            let entered = then((task, state), Event::Done);
            let made = then(entered, Event::Said(Got::Yes));
            let compiled = then(made, Event::Script { handle, rejected, cache });
            let over = then(compiled, Event::Done);
            let id = before.next_script_id;
            &&& task.to_do() == Action::Enter(Entry::Context(context_id))
            &&& entered.0.to_do() == Action::Ask(Do::MakeSource(&source))
            &&& compile_fails(
                then(entered, Event::Said(got)),
                before,
                false,
                VmError::Runtime(Refusal::ScriptSourceTooLarge),
            )
            &&& made.0.to_do() matches Action::CompileScript {
                filename: name,
                cached_data: given,
                mode,
                produce_cache: wanted,
            } && *name == filename && *given == cached_data && wanted == produce_cache
                && fits_request(mode, cached_data, eager)
            &&& made.1 == before
            &&& compile_fails(
                then(made, Event::Said(got)),
                before,
                false,
                uncompiled(got, Unit::Script, filename),
            )
            &&& compiled.0.to_do() is Leave
            &&& over.1.scripts.contains_key(id)
            &&& over.1.scripts[id].handle == handle
            &&& over.1.scripts[id].context_id == context_id
            &&& over.1.scripts.contains_key(other) == before.scripts.contains_key(other)
            &&& before.scripts.contains_key(other) ==> over.1.scripts[other]
                == before.scripts[other]
            &&& over.1.next_script_id == id + 1
            &&& over.1 == (StateView {
                scripts: over.1.scripts,
                next_script_id: over.1.next_script_id,
                ..before
            })
            &&& over.0 matches Task::Over(VmReply::ScriptCompiled(Ok(said))) && said.id == id
                && said.cached_data == (if produce_cache {
                cache
            } else {
                None
            }) && said.cache_rejected == (cached_data is Some && rejected)
        },
{
    reveal(then);
}

/// Work in a realm without a deadline that replies, leaves and changes nothing but
/// the mark that a module is being linked.
pub open spec fn answers<E: Engine>(
    at: (Task, StateView<E>),
    after: StateView<E>,
    outcome: Result<JsVal, VmError>,
) -> bool {
    &&& at.0.to_do() is Leave
    &&& replied(then(at, Event::Done), VmReply::Done(outcome))
    &&& then(at, Event::Done).1 == after
}

/// A module is linked in the realm that it was compiled in, while no other is: it
/// is asked how far it has come, linked if it is not yet, and left alone if it is.
/// What it fails with is the reply, and the module may be linked again. That it is
/// being linked is marked to the end of the operation and no longer.
pub proof fn law_module_is_linked<E: Engine>(
    before: StateView<E>,
    module_id: i32,
    outermost: bool,
    max_string: usize,
    task: Task,
    state: StateView<E>,
    status: ModuleStatus,
    got: Got,
    text: String,
)
    requires
        becomes(
            before,
            Request::InstantiateModule { module_id },
            outermost,
            max_string,
            task,
            state,
        ),
        got !is Yes,
    ensures
        before.instantiating ==> state == before && replied(
            (task, state),
            VmReply::Done(Err(VmError::Runtime(Refusal::InstantiateNested))),
        ),
        !before.instantiating && !before.modules.contains_key(module_id) ==> state == before
            && replied(
            (task, state),
            VmReply::Done(Err(VmError::Runtime(Refusal::UnknownModule))),
        ),
        !before.instantiating && before.modules.contains_key(module_id) && before.realm(
            before.modules[module_id].context_id,
        ) is None ==> state == before && replied(
            (task, state),
            VmReply::Done(Err(VmError::Runtime(Refusal::ModuleContextGone))),
        ),
        !before.instantiating && before.modules.contains_key(module_id) && before.realm(
            before.modules[module_id].context_id,
        ) is Some ==> {
            let entered = then((task, state), Event::Done);
            let asked = then(entered, Event::Said(Got::Status(status)));
            &&& state == (StateView { instantiating: true, ..before })
            &&& task.to_do() == Action::Enter(Entry::Module(module_id))
            &&& entered.0.to_do() == Action::Ask(Do::AskStatus)
            &&& entered.1 == state && asked.1 == state
            &&& status is Uninstantiated || status is Instantiating ==> {
                &&& asked.0.to_do() == Action::Ask(Do::Link)
                &&& answers(then(asked, Event::Said(Got::Yes)), before, Ok(JsVal::Undefined))
                &&& answers(then(asked, Event::Said(got)), before, Err(failure(got)))
            }
            &&& status is Instantiated || status is Evaluating || status is Evaluated ==> answers(
                asked,
                before,
                Ok(JsVal::Undefined),
            )
            &&& status is Errored ==> {
                &&& asked.0.to_do() == Action::Ask(Do::AskException)
                &&& answers(
                    then(asked, Event::Said(Got::Text(text))),
                    before,
                    Err(VmError::JsError { message: Some(text), stack: None }),
                )
            }
        },
{
    reveal(then);
}

/// The namespace of a module that is linked is read in its realm, and is the reply;
/// one that has failed tells its exception, and one that is not linked is refused.
pub proof fn law_namespace_is_read<E: Engine>(
    before: StateView<E>,
    module_id: i32,
    outermost: bool,
    max_string: usize,
    task: Task,
    state: StateView<E>,
    status: ModuleStatus,
    value: JsVal,
    got: Got,
    text: String,
)
    requires
        becomes(
            before,
            Request::ModuleNamespace { module_id },
            outermost,
            max_string,
            task,
            state,
        ),
        got !is Value,
    ensures
        state == before,
        !before.modules.contains_key(module_id) ==> replied(
            (task, state),
            VmReply::Done(Err(VmError::Runtime(Refusal::UnknownModule))),
        ),
        before.modules.contains_key(module_id) && before.realm(
            before.modules[module_id].context_id,
        ) is None ==> replied(
            (task, state),
            VmReply::Done(Err(VmError::Runtime(Refusal::ModuleContextGone))),
        ),
        before.modules.contains_key(module_id) && before.realm(
            before.modules[module_id].context_id,
        ) is Some ==> {
            let entered = then((task, state), Event::Done);
            let asked = then(entered, Event::Said(Got::Status(status)));
            &&& task.to_do() == Action::Enter(Entry::Module(module_id))
            &&& entered.0.to_do() == Action::Ask(Do::AskStatus)
            &&& status is Instantiated || status is Evaluating || status is Evaluated ==> {
                &&& asked.0.to_do() == Action::Ask(Do::ReadNamespace)
                &&& answers(then(asked, Event::Said(Got::Value(value))), before, Ok(value))
                &&& answers(then(asked, Event::Said(got)), before, Err(failure(got)))
            }
            &&& status is Errored ==> {
                &&& asked.0.to_do() == Action::Ask(Do::AskException)
                &&& answers(
                    then(asked, Event::Said(Got::Text(text))),
                    before,
                    Err(VmError::JsError { message: Some(text), stack: None }),
                )
            }
            &&& status is Uninstantiated || status is Instantiating ==> answers(
                asked,
                before,
                Err(VmError::Runtime(Refusal::NamespaceTooEarly)),
            )
        },
{
    reveal(then);
}

/// What can be asked of a module without entering its realm is asked of that very
/// module: how far it has come, and, once it is linked, whether anything in its
/// graph awaits at the top level. A module that is not known is refused.
pub proof fn law_modules_are_asked<E: Engine>(
    before: StateView<E>,
    module_id: i32,
    outermost: bool,
    max_string: usize,
    task: Task,
    state: StateView<E>,
    graph: bool,
    status: ModuleStatus,
)
    requires
        becomes(
            before,
            if graph {
                Request::ModuleGraphAsync { module_id }
            } else {
                Request::ModuleStatus { module_id }
            },
            outermost,
            max_string,
            task,
            state,
        ),
    ensures
        state == before,
        !before.modules.contains_key(module_id) ==> replied(
            (task, state),
            VmReply::Done(Err(VmError::Runtime(Refusal::UnknownModule))),
        ),
        before.modules.contains_key(module_id) ==> {
            let asked = then((task, state), Event::Said(Got::Status(status)));
            &&& task.to_do() == Action::ModuleStatus(module_id)
            &&& asked.1 == before
            &&& graph && (status is Uninstantiated || status is Instantiating) ==> replied(
                asked,
                VmReply::Done(Err(VmError::Runtime(Refusal::GraphAsyncTooEarly))),
            )
            &&& graph && !(status is Uninstantiated || status is Instantiating) ==> {
                &&& asked.0.to_do() == Action::GraphAsync(module_id)
                &&& replied(
                    then(asked, Event::Said(Got::Yes)),
                    VmReply::Done(Ok(JsVal::Bool(true))),
                )
                &&& replied(
                    then(asked, Event::Said(Got::No)),
                    VmReply::Done(Ok(JsVal::Bool(false))),
                )
            }
        },
{
    reveal(then);
}

/// The code cache of a script or a module is made of that very script or module,
/// and is the reply; there is none to be had of one that is not known, which is no
/// error.
pub proof fn law_code_cache_is_its_own<E: Engine>(
    before: StateView<E>,
    id: i32,
    outermost: bool,
    max_string: usize,
    of_script: (Task, StateView<E>),
    of_module: (Task, StateView<E>),
    bytes: Option<Vec<u8>>,
)
    requires
        becomes(
            before,
            Request::ScriptCodeCache { script_id: id },
            outermost,
            max_string,
            of_script.0,
            of_script.1,
        ),
        becomes(
            before,
            Request::ModuleCodeCache { module_id: id },
            outermost,
            max_string,
            of_module.0,
            of_module.1,
        ),
    ensures
        of_script.1 == before,
        of_module.1 == before,
        before.scripts.contains_key(id) ==> of_script.0.to_do() == Action::ScriptCache(id)
            && replied(then(of_script, Event::Bytes(bytes)), VmReply::CodeCache(Ok(bytes))),
        !before.scripts.contains_key(id) ==> replied(of_script, VmReply::CodeCache(Ok(None))),
        before.modules.contains_key(id) && before.realm(before.modules[id].context_id) is Some ==> {
            let entered = then(of_module, Event::Done);
            let made = then(entered, Event::Bytes(bytes));
            &&& of_module.0.to_do() == Action::Enter(Entry::Module(id))
            &&& entered.0.to_do() == Action::ModuleCache(id)
            &&& made.0.to_do() is Leave
            &&& replied(then(made, Event::Done), VmReply::CodeCache(Ok(bytes)))
            &&& then(made, Event::Done).1 == before
        },
        !before.modules.contains_key(id) || before.realm(before.modules[id].context_id) is None
            ==> replied(of_module, VmReply::CodeCache(Ok(None))),
{
    reveal(then);
}

/// A module or a script that is disposed of is not known any more; every other one
/// is, and nothing else changes. To dispose of one that is not known does nothing.
pub proof fn law_disposal_forgets_one<E: Engine>(
    before: StateView<E>,
    id: i32,
    outermost: bool,
    max_string: usize,
    of_script: (Task, StateView<E>),
    of_module: (Task, StateView<E>),
    other: i32,
)
    requires
        becomes(
            before,
            Request::DisposeScript { script_id: id },
            outermost,
            max_string,
            of_script.0,
            of_script.1,
        ),
        becomes(
            before,
            Request::DisposeModule { module_id: id },
            outermost,
            max_string,
            of_module.0,
            of_module.1,
        ),
    ensures
        replied(of_script, VmReply::Done(Ok(JsVal::Undefined))),
        replied(of_module, VmReply::Done(Ok(JsVal::Undefined))),
        of_script.1.scripts.contains_key(other) == (before.scripts.contains_key(other) && other
            != id),
        of_script.1.scripts.contains_key(other) ==> of_script.1.scripts[other]
            == before.scripts[other],
        of_script.1 == (StateView { scripts: of_script.1.scripts, ..before }),
        of_module.1.modules.contains_key(other) == (before.modules.contains_key(other) && other
            != id),
        of_module.1.modules.contains_key(other) ==> of_module.1.modules[other]
            == before.modules[other],
        of_module.1 == (StateView { modules: of_module.1.modules, ..before }),
{
}

/// A new realm gets a number that no realm has had, which is the reply, and is
/// found under it; every other realm stays as it is.
pub proof fn law_new_realm_gets_a_number<E: Engine>(
    before: StateView<E>,
    outermost: bool,
    max_string: usize,
    task: Task,
    state: StateView<E>,
    realm: Realm<E>,
    other: i32,
)
    requires
        becomes(before, Request::CreateContext, outermost, max_string, task, state),
        1 <= before.next_context_id < i32::MAX,
        other != before.next_context_id,
    ensures
        task.to_do() is NewRealm,
        ({
            let over = then((task, state), Event::Made(realm));
            let id = before.next_context_id;
            &&& replied(over, VmReply::Done(Ok(JsVal::Int(id as i64))))
            &&& over.1.realm(id) == Some(realm)
            &&& over.1.realm(other) == before.realm(other)
            &&& over.1.next_context_id == id + 1
            &&& over.1 == (StateView {
                realms: over.1.realms,
                next_context_id: over.1.next_context_id,
                ..before
            })
        }),
{
    reveal(then);
}

/// A realm that is reset has the fresh context from then on, unless queues are
/// being drained, the realm is gone, or an operation is under way in it, now or
/// once the context has been made: then the reply says which, and nothing changes.
pub proof fn law_reset_swaps_the_realm<E: Engine>(
    before: StateView<E>,
    context_id: i32,
    outermost: bool,
    max_string: usize,
    task: Task,
    state: StateView<E>,
    later: StateView<E>,
    fresh: Realm<E>,
    other: i32,
    id: i32,
)
    requires
        becomes(before, Request::Reset { context_id }, outermost, max_string, task, state),
        other != context_id,
    ensures
        state == before,
        reset_is_refused(before, context_id) matches Some(refusal) ==> replied(
            (task, state),
            VmReply::Done(Err(VmError::Runtime(refusal))),
        ),
        reset_is_refused(before, context_id) is None ==> {
            let over = then((task, later), Event::Made(fresh));
            &&& task.to_do() is NewRealm
            &&& reset_is_refused(later, context_id) matches Some(refusal) ==> over.1 == later
                && replied(over, VmReply::Done(Err(VmError::Runtime(refusal))))
            &&& reset_is_refused(later, context_id) is None ==> {
                &&& replied(over, VmReply::Done(Ok(JsVal::Undefined)))
                &&& over.1.realm(context_id) == Some(fresh)
                &&& over.1.realm(other) == later.realm(other)
                &&& later.realm(context_id) matches Some(old_realm) ==> over.1.retiring
                    == later.retiring.push(old_realm)
                &&& later.handler matches Some((realm, function)) ==> (if realm == context_id {
                    over.1.handler is None
                } else {
                    over.1.handler == later.handler
                })
                &&& over.1.modules.contains_key(id) == (later.modules.contains_key(id)
                    && later.modules[id].context_id != context_id)
                &&& over.1.scripts.contains_key(id) == (later.scripts.contains_key(id)
                    && later.scripts[id].context_id != context_id)
                &&& over.1.next_context_id == later.next_context_id
                &&& over.1.next_module_id == later.next_module_id
                &&& over.1.next_script_id == later.next_script_id
                &&& over.1.active == later.active
            }
        },
{
    reveal(then);
}

/// Why a realm is not reset.
pub open spec fn reset_is_refused<E: Engine>(state: StateView<E>, context_id: i32) -> Option<Refusal> {
    if state.draining {
        Some(Refusal::ResetWhileDraining)
    } else if context_id != 0 && state.realm(context_id) is None {
        Some(Refusal::ContextGone)
    } else if exists|i: int| 0 <= i < state.active.len() && state.active[i] == context_id {
        Some(Refusal::ResetWhileSuspended)
    } else {
        None
    }
}

/// A realm that is disposed of is gone at once, with what was compiled in it, and
/// is retired; every other realm stays. That is refused while queues are being
/// drained, and while an operation is under way in the realm.
pub proof fn law_disposal_retires_the_realm<E: Engine>(
    before: StateView<E>,
    context_id: i32,
    outermost: bool,
    max_string: usize,
    task: Task,
    state: StateView<E>,
    other: i32,
    id: i32,
)
    requires
        becomes(before, Request::DisposeContext { context_id }, outermost, max_string, task, state),
        other != context_id,
    ensures
        before.draining ==> state == before && replied(
            (task, state),
            VmReply::Done(Err(VmError::Runtime(Refusal::DisposeWhileDraining))),
        ),
        !before.draining && before.active.contains(context_id) ==> state == before && replied(
            (task, state),
            VmReply::Done(Err(VmError::Runtime(Refusal::DisposeWhileSuspended))),
        ),
        !before.draining && !before.active.contains(context_id) ==> {
            &&& replied((task, state), VmReply::Done(Ok(JsVal::Undefined)))
            &&& context_id != 0 ==> state.realm(context_id) is None
            &&& context_id == 0 ==> state.realm(context_id) == before.realm(context_id)
            &&& state.realm(other) == before.realm(other)
            &&& before.realms.contains_key(context_id) ==> state.retiring == before.retiring.push(
                before.realms[context_id],
            )
            &&& state.modules.contains_key(id) == (before.modules.contains_key(id)
                && before.modules[id].context_id != context_id)
            &&& state.modules.contains_key(id) ==> state.modules[id] == before.modules[id]
            &&& state.scripts.contains_key(id) == (before.scripts.contains_key(id)
                && before.scripts[id].context_id != context_id)
            &&& state.scripts.contains_key(id) ==> state.scripts[id] == before.scripts[id]
            &&& before.handler matches Some((realm, function)) ==> (if realm == context_id {
                state.handler is None
            } else {
                state.handler == before.handler
            })
            &&& state.next_context_id == before.next_context_id
            &&& state.next_module_id == before.next_module_id
            &&& state.next_script_id == before.next_script_id
            &&& state.active == before.active
        },
{
}

/// What the engine says of its heap is the reply, and garbage is collected on
/// request; the isolate's state has no part in either.
pub proof fn law_heap_is_asked<E: Engine>(
    before: StateView<E>,
    outermost: bool,
    max_string: usize,
    of_stats: (Task, StateView<E>),
    of_collection: (Task, StateView<E>),
    stats: HeapStats,
)
    requires
        becomes(
            before,
            Request::HeapStatistics,
            outermost,
            max_string,
            of_stats.0,
            of_stats.1,
        ),
        becomes(
            before,
            Request::LowMemoryNotification,
            outermost,
            max_string,
            of_collection.0,
            of_collection.1,
        ),
    ensures
        of_stats.1 == before,
        of_stats.0.to_do() is HeapStatistics,
        replied(then(of_stats, Event::Heap(stats)), VmReply::Heap(stats)),
        then(of_stats, Event::Heap(stats)).1 == before,
        of_collection.1 == before,
        of_collection.0.to_do() is CollectGarbage,
        replied(then(of_collection, Event::Done), VmReply::Done(Ok(JsVal::Undefined))),
        then(of_collection, Event::Done).1 == before,
{
    reveal(then);
}

} // verus!
