//! How an operation begins: which task a request becomes.

use vstd::prelude::*;

use crate::error::Refusal;
use crate::error::VmError;
use crate::jobs::built;
use crate::jobs::AttachJob;
use crate::jobs::CallJob;
use crate::jobs::Evaluated;
use crate::jobs::EvaluateJob;
use crate::jobs::Got;
use crate::jobs::LinkJob;
use crate::jobs::NamespaceJob;
use crate::jobs::ScriptJob;
use crate::jobs::SourceJob;
use crate::jobs::SourceStep;
use crate::jobs::Turn;
use crate::request::ModuleStatus;
use crate::request::Request;
use crate::request::VmReply;
use crate::state::Engine;
use crate::state::IsolateState;
use crate::state::Realm;
use crate::state::StateView;
use crate::task::nothing;
use crate::task::refused;
use crate::task::Bracket;
use crate::task::CompileJob;
use crate::task::DrainPhase;
use crate::task::DrainTask;
use crate::task::Entry;
use crate::task::Event;
use crate::task::Inner;
use crate::task::Phase;
use crate::task::Task;
use crate::task::Work;
use crate::value::JsVal;

verus! {

/// The task that host functions are attached by.
pub open spec fn attaches(
    task: Task,
    context_id: i32,
    entries: Seq<(String, usize)>,
    many: bool,
    timeout_ms: u64,
    outermost: bool,
) -> bool {
    &&& task matches Task::Bracket(bracket)
    &&& bracket.phase matches Phase::Arm(Work::Attach { context_id: into, job })
    &&& into == context_id
    &&& job.entries@ == entries
    &&& job.many == many
    &&& job.split()
    &&& bracket == Bracket::around(Work::Attach { context_id, job }, timeout_ms, outermost)
}

/// The task that something is compiled by, or the reply if there is no realm to
/// compile it in.
pub open spec fn compiles<E: Engine>(state: StateView<E>, job: CompileJob) -> Task {
    if state.realm(job.context_id) is Some {
        Task::Enter(Inner::Compile(job))
    } else {
        Task::Over(job.reply(Err(VmError::Runtime(Refusal::ContextGone))))
    }
}

/// A task on a module in its realm, or the reply if there is none.
pub open spec fn enters<E: Engine>(state: StateView<E>, inner: Inner) -> Task {
    match state.entry(inner.entry()) {
        Ok(_) => Task::Enter(inner),
        Err(refusal) => Task::Over(refused(refusal)),
    }
}

/// There is a number left for what the request makes.
pub open spec fn has_room<E: Engine>(state: StateView<E>, request: Request) -> bool {
    request is CreateContext ==> state.next_context_id < i32::MAX
}

/// What a request becomes: a task, and the state that the isolate is left in.
pub open spec fn becomes<E: Engine>(
    before: StateView<E>,
    request: Request,
    outermost: bool,
    max_string: usize,
    task: Task,
    state: StateView<E>,
) -> bool {
    match request {
        Request::Eval { context_id, source, filename, void, timeout_ms } => {
            let job = SourceJob { source, filename, void, step: SourceStep::MakeSource };
            &&& task == Task::Bracket(
                Bracket::around(Work::Source { context_id, job }, timeout_ms, outermost),
            )
            &&& state == before
        },
        Request::Call { context_id, name, args, void, timeout_ms } => {
            &&& task matches Task::Bracket(bracket)
            &&& bracket.phase matches Phase::Arm(Work::Call { job, .. })
            &&& job.wf()
            &&& job.name == name
            &&& job.void == void
            &&& job.at == 0
            &&& job.step is ToObject
            &&& built(job.args@, args@, max_string)
            &&& bracket == Bracket::around(Work::Call { context_id, job }, timeout_ms, outermost)
            &&& state == before
        },
        Request::DrainMicrotasks { timeout_ms } => {
            &&& task == Task::Drain(
                DrainTask { timeout_ms, phase: DrainPhase::Arm, generation: None },
            )
            &&& state == before
        },
        Request::Attach { context_id, name, host_fn_id, timeout_ms } => {
            &&& attaches(task, context_id, seq![(name, host_fn_id)], false, timeout_ms, outermost)
            &&& state == before
        },
        Request::AttachMany { context_id, entries, timeout_ms } => {
            &&& attaches(task, context_id, entries@, true, timeout_ms, outermost)
            &&& state == before
        },
        Request::Reset { context_id } => {
            &&& task == (match before.reset_refusal(context_id) {
                Some(refusal) => Task::Over(refused(refusal)),
                None => Task::Reset { context_id },
            })
            &&& state == before
        },
        Request::CreateContext => {
            &&& task == Task::Create { id: before.next_context_id }
            &&& state == (StateView {
                next_context_id: (before.next_context_id + 1) as i32,
                ..before
            })
        },
        Request::DisposeContext { context_id } => match before.dispose_refusal(context_id) {
            Some(refusal) => task == Task::Over(refused(refusal)) && state == before,
            None => task == Task::Over(nothing()) && state == before.after_dispose(context_id),
        },
        Request::CompileModule {
            context_id,
            source,
            filename,
            cached_data,
            produce_cache,
            eager,
        } => {
            &&& task == compiles(
                before,
                CompileJob {
                    is_module: true,
                    context_id,
                    source,
                    filename,
                    cached_data,
                    produce_cache,
                    eager,
                    sourced: false,
                },
            )
            &&& state == before
        },
        Request::InstantiateModule { module_id } => {
            let task_of = enters(before, Inner::Link { module_id, job: LinkJob::AskStatus });
            if before.instantiating {
                task == Task::Over(refused(Refusal::InstantiateNested)) && state == before
            } else {
                task == task_of && state == (StateView {
                    instantiating: task_of is Enter,
                    ..before
                })
            }
        },
        Request::EvaluateModule { module_id, timeout_ms } => {
            let work = Work::Evaluate { module_id, job: EvaluateJob::AskStatus };
            &&& task == Task::Bracket(Bracket::around(work, timeout_ms, outermost))
            &&& state == before
        },
        Request::ModuleNamespace { module_id } => {
            &&& task == enters(
                before,
                Inner::Namespace { module_id, job: NamespaceJob::AskStatus },
            )
            &&& state == before
        },
        Request::ModuleStatus { module_id } => {
            &&& task == (if before.modules.contains_key(module_id) {
                Task::Status { module_id }
            } else {
                Task::Over(refused(Refusal::UnknownModule))
            })
            &&& state == before
        },
        Request::ModuleGraphAsync { module_id } => {
            &&& task == (if before.modules.contains_key(module_id) {
                Task::GraphAsync { module_id, linked: false }
            } else {
                Task::Over(refused(Refusal::UnknownModule))
            })
            &&& state == before
        },
        Request::DisposeModule { module_id } => {
            &&& task == Task::Over(nothing())
            &&& state == (StateView { modules: before.modules.remove(module_id), ..before })
        },
        Request::CompileScript {
            context_id,
            source,
            filename,
            cached_data,
            produce_cache,
            eager,
        } => {
            &&& task == compiles(
                before,
                CompileJob {
                    is_module: false,
                    context_id,
                    source,
                    filename,
                    cached_data,
                    produce_cache,
                    eager,
                    sourced: false,
                },
            )
            &&& state == before
        },
        Request::RunScript { script_id, void, timeout_ms } => {
            let work = Work::Script { script_id, job: ScriptJob { void, ran: false } };
            &&& task == Task::Bracket(Bracket::around(work, timeout_ms, outermost))
            &&& state == before
        },
        Request::DisposeScript { script_id } => {
            &&& task == Task::Over(nothing())
            &&& state == (StateView { scripts: before.scripts.remove(script_id), ..before })
        },
        Request::ScriptCodeCache { script_id } => {
            &&& task == (if before.scripts.contains_key(script_id) {
                Task::ScriptCache { script_id }
            } else {
                Task::Over(VmReply::CodeCache(Ok(None)))
            })
            &&& state == before
        },
        Request::ModuleCodeCache { module_id } => {
            &&& task == (if before.entry(Entry::Module(module_id)) is Ok {
                Task::Enter(Inner::ModuleCache { module_id })
            } else {
                Task::Over(VmReply::CodeCache(Ok(None)))
            })
            &&& state == before
        },
        Request::HeapStatistics => task == Task::Heap && state == before,
        Request::LowMemoryNotification => task == Task::LowMemory && state == before,
    }
}

fn refuse(refusal: Refusal) -> (task: Task)
    ensures
        task == Task::Over(refused(refusal)),
{
    Task::Over(VmReply::Done(Err(VmError::Runtime(refusal))))
}

fn done() -> (task: Task)
    ensures
        task == Task::Over(nothing()),
{
    Task::Over(VmReply::Done(Ok(JsVal::Undefined)))
}

fn op_attach_many(
    context_id: i32,
    entries: Vec<(String, usize)>,
    many: bool,
    timeout_ms: u64,
    outermost: bool,
) -> (task: Task)
    ensures
        task.wf(),
        attaches(task, context_id, entries@, many, timeout_ms, outermost),
{
    let job = AttachJob::attach(entries, many);
    Task::Bracket(
        Bracket::run_js_bracketed(Work::Attach { context_id, job }, timeout_ms, outermost),
    )
}

fn op_compile<E: Engine>(state: &IsolateState<E>, job: CompileJob) -> (task: Task)
    ensures
        task.wf(),
        task == compiles(state@, job),
{
    match state.context_for(job.context_id) {
        Some(_) => Task::Enter(Inner::Compile(job)),
        None => {
            let error = Err(VmError::Runtime(Refusal::ContextGone));
            if job.is_module {
                Task::Over(VmReply::ModuleCompiled(error))
            } else {
                Task::Over(VmReply::ScriptCompiled(error))
            }
        },
    }
}

fn op_enter<E: Engine>(state: &IsolateState<E>, inner: Inner) -> (task: Task)
    ensures
        task.wf(),
        task == enters(state@, inner),
{
    match state.entry_refusal(inner.where_to()) {
        Some(refusal) => refuse(refusal),
        None => Task::Enter(inner),
    }
}

/// A module is linked only while no other is: what resolves imports may compile
/// modules, but the engine's linking is not to be nested.
fn op_instantiate_module<E: Engine>(state: &mut IsolateState<E>, module_id: i32) -> (task: Task)
    requires
        old(state).wf(),
    ensures
        final(state).wf(),
        task.wf(),
        becomes(
            old(state)@,
            Request::InstantiateModule { module_id },
            false,
            0,
            task,
            final(state)@,
        ),
{
    if state.is_instantiating() {
        return refuse(Refusal::InstantiateNested);
    }
    let task = op_enter(state, Inner::Link { module_id, job: LinkJob::AskStatus });
    match &task {
        Task::Enter(_) => {
            state.set_instantiating(true);
        },
        _ => {
            state.set_instantiating(false);
        },
    }
    task
}

/// Begins an operation. What it refuses at once, or can do without the engine, is
/// over at once.
pub fn dispatch_one<E: Engine>(
    state: &mut IsolateState<E>,
    request: Request,
    outermost: bool,
    max_string: usize,
) -> (task: Task)
    requires
        old(state).wf(),
        has_room(old(state)@, request),
    ensures
        final(state).wf(),
        task.wf(),
        becomes(old(state)@, request, outermost, max_string, task, final(state)@),
{
    match request {
        Request::Eval { context_id, source, filename, void, timeout_ms } => {
            let job = SourceJob::run_source(source, filename, void);
            Task::Bracket(
                Bracket::run_js_bracketed(Work::Source { context_id, job }, timeout_ms, outermost),
            )
        },
        Request::Call { context_id, name, args, void, timeout_ms } => {
            let job = CallJob::call_function(name, args, void, max_string);
            Task::Bracket(
                Bracket::run_js_bracketed(Work::Call { context_id, job }, timeout_ms, outermost),
            )
        },
        Request::DrainMicrotasks { timeout_ms } => Task::Drain(
            DrainTask { timeout_ms, phase: DrainPhase::Arm, generation: None },
        ),
        Request::Attach { context_id, name, host_fn_id, timeout_ms } => {
            let entries = vec![(name, host_fn_id)];
            assert(entries@ =~= seq![(name, host_fn_id)]);
            op_attach_many(context_id, entries, false, timeout_ms, outermost)
        },
        Request::AttachMany { context_id, entries, timeout_ms } => op_attach_many(
            context_id,
            entries,
            true,
            timeout_ms,
            outermost,
        ),
        Request::Reset { context_id } => match state.reset_refused(context_id) {
            Some(refusal) => refuse(refusal),
            None => Task::Reset { context_id },
        },
        Request::CreateContext => {
            let id: i32 = state.reserve_context_id();
            Task::Create { id }
        },
        Request::DisposeContext { context_id } => match state.op_dispose_context(context_id) {
            Ok(()) => done(),
            Err(refusal) => refuse(refusal),
        },
        Request::CompileModule {
            context_id,
            source,
            filename,
            cached_data,
            produce_cache,
            eager,
        } => op_compile(
            state,
            CompileJob {
                is_module: true,
                context_id,
                source,
                filename,
                cached_data,
                produce_cache,
                eager,
                sourced: false,
            },
        ),
        Request::InstantiateModule { module_id } => op_instantiate_module(state, module_id),
        Request::EvaluateModule { module_id, timeout_ms } => {
            let work = Work::Evaluate { module_id, job: EvaluateJob::AskStatus };
            Task::Bracket(Bracket::run_js_bracketed(work, timeout_ms, outermost))
        },
        Request::ModuleNamespace { module_id } => op_enter(
            state,
            Inner::Namespace { module_id, job: NamespaceJob::AskStatus },
        ),
        Request::ModuleStatus { module_id } => match state.module_handle(module_id) {
            Some(_) => Task::Status { module_id },
            None => refuse(Refusal::UnknownModule),
        },
        Request::ModuleGraphAsync { module_id } => match state.module_handle(module_id) {
            Some(_) => Task::GraphAsync { module_id, linked: false },
            None => refuse(Refusal::UnknownModule),
        },
        Request::DisposeModule { module_id } => {
            state.op_dispose_module(module_id);
            done()
        },
        Request::CompileScript {
            context_id,
            source,
            filename,
            cached_data,
            produce_cache,
            eager,
        } => op_compile(
            state,
            CompileJob {
                is_module: false,
                context_id,
                source,
                filename,
                cached_data,
                produce_cache,
                eager,
                sourced: false,
            },
        ),
        Request::RunScript { script_id, void, timeout_ms } => {
            let work = Work::Script { script_id, job: ScriptJob { void, ran: false } };
            Task::Bracket(Bracket::run_js_bracketed(work, timeout_ms, outermost))
        },
        Request::DisposeScript { script_id } => {
            state.op_dispose_script(script_id);
            done()
        },
        Request::ScriptCodeCache { script_id } => match state.script_handle(script_id) {
            Some(_) => Task::ScriptCache { script_id },
            None => Task::Over(VmReply::CodeCache(Ok(None))),
        },
        Request::ModuleCodeCache { module_id } => match state.entry_refusal(
            Entry::Module(module_id),
        ) {
            None => Task::Enter(Inner::ModuleCache { module_id }),
            Some(_) => Task::Over(VmReply::CodeCache(Ok(None))),
        },
        Request::HeapStatistics => Task::Heap,
        Request::LowMemoryNotification => Task::LowMemory,
    }
}

/// The task is one that links a module.
pub open spec fn linking(task: Task) -> bool {
    match task {
        Task::Enter(inner) => inner is Link,
        Task::Work(inner) => inner is Link,
        Task::Leave { linked, .. } => linked,
        _ => false,
    }
}

/// The mark that a module is being linked stays as long as the task that links it,
/// and is gone once that task is over, however it ends.
pub proof fn law_link_mark_is_cleared<E: Engine>(
    task: Task,
    state: StateView<E>,
    event: Event<E>,
)
    requires
        linking(task),
    ensures
        ({
            let (next, after) = task.after(state, event);
            if linking(next) {
                after.instantiating == state.instantiating
            } else {
                next is Over && !after.instantiating
            }
        }),
{
}

/// While a module is being linked, no other is, and nothing changes.
pub proof fn law_links_do_not_nest<E: Engine>(
    state: StateView<E>,
    module_id: i32,
    outermost: bool,
    max_string: usize,
    task: Task,
    after: StateView<E>,
)
    requires
        state.instantiating,
        becomes(
            state,
            Request::InstantiateModule { module_id },
            outermost,
            max_string,
            task,
            after,
        ),
    ensures
        task == Task::Over(refused(Refusal::InstantiateNested)),
        after == state,
{
}

/// To link a module that is linked, or to evaluate one that has been evaluated,
/// does nothing.
pub proof fn law_modules_go_on_once(status: ModuleStatus)
    ensures
        status.linked() && status !is Errored ==> LinkJob::AskStatus.after(Got::Status(status))
            == Turn::<LinkJob, Result<JsVal, VmError>>::Over(Ok(JsVal::Undefined)),
        status is Evaluated ==> EvaluateJob::AskStatus.after(Got::Status(status)) == Turn::<
            EvaluateJob,
            Evaluated,
        >::Over(Evaluated { ran_js: false, pending: false, outcome: Ok(JsVal::Undefined) }),
        status is Instantiated <==> EvaluateJob::AskStatus.after(Got::Status(status)) == Turn::<
            EvaluateJob,
            Evaluated,
        >::Again(EvaluateJob::Evaluate),
{
}

/// Nothing runs in a realm that was disposed of, and what was compiled in it is
/// unknown; what was compiled elsewhere is not touched.
pub proof fn law_disposed_realm_is_gone<E: Engine>(
    state: StateView<E>,
    context_id: i32,
    module_id: i32,
    script_id: i32,
)
    requires
        context_id != 0,
    ensures
        ({
            let after = state.after_dispose(context_id);
            &&& after.entry(Entry::Context(context_id)) == Err::<Realm<E>, Refusal>(
                Refusal::RealmGone,
            )
            &&& after.entry(Entry::Module(module_id)) == (if state.module_realm(module_id) == Some(
                context_id,
            ) {
                Err(Refusal::UnknownModule)
            } else {
                state.entry(Entry::Module(module_id))
            })
            &&& after.entry(Entry::Script(script_id)) == (if state.script_realm(script_id) == Some(
                context_id,
            ) {
                Err(Refusal::UnknownScript)
            } else {
                state.entry(Entry::Script(script_id))
            })
        }),
{
}

} // verus!
