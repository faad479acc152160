use rusty_racer::dispatch::dispatch_one;
use rusty_racer::error::ParseFault;
use rusty_racer::error::Refusal;
use rusty_racer::error::Unit;
use rusty_racer::error::VmError;
use rusty_racer::jobs::Do;
use rusty_racer::jobs::Fault;
use rusty_racer::jobs::Got;
use rusty_racer::request::Compiled;
use rusty_racer::request::HeapStats;
use rusty_racer::request::ModuleStatus;
use rusty_racer::request::Request;
use rusty_racer::request::VmReply;
use rusty_racer::state::Engine;
use rusty_racer::state::IsolateState;
use rusty_racer::state::ModuleEntry;
use rusty_racer::state::Realm;
use rusty_racer::state::ScriptEntry;
use rusty_racer::task::Action;
use rusty_racer::task::CompileMode;
use rusty_racer::task::Entry;
use rusty_racer::task::Event;
use rusty_racer::task::Task;
use rusty_racer::value::JsVal;

#[derive(Debug)]
struct Toy;

impl Engine for Toy {
    type Context = &'static str;
    type Queue = u32;
    type Module = &'static str;
    type Script = &'static str;
    type Function = u32;
    type Token = u32;
    type Resolver = u32;
    type Raised = u32;
}

type State = IsolateState<Toy>;

fn booted(auto: bool) -> State {
    let mut state = State::new(None, auto);
    state.boot(Realm { context: "main", queue: 1 }, 99);
    state
}

fn eval(void: bool) -> Request {
    Request::Eval {
        context_id: 0,
        source: "1 + 1".to_string(),
        filename: "app.js".to_string(),
        void,
        timeout_ms: 50,
    }
}

fn yes() -> Event<Toy> {
    Event::Said(Got::Yes)
}

fn fault(terminated: bool) -> Fault {
    Fault {
        terminated,
        message: Some("Error: boom".to_string()),
        stack: None,
        trace: Some("Error: boom\n    at app.js:1:7".to_string()),
        resource: Some("app.js".to_string()),
        line: Some(1),
    }
}

fn failed(terminated: bool) -> Event<Toy> {
    Event::Said(Got::Failed(fault(terminated)))
}

fn threw() -> VmError {
    VmError::JsError {
        message: Some("Error: boom".to_string()),
        stack: Some("Error: boom\n    at app.js:1:7".to_string()),
    }
}

fn done(task: Task) -> Result<JsVal, VmError> {
    match task {
        Task::Over(VmReply::Done(outcome)) => outcome,
        other => panic!("{other:?}"),
    }
}

fn refused(task: Task) -> Refusal {
    match done(task) {
        Err(VmError::Runtime(refusal)) => refusal,
        other => panic!("{other:?}"),
    }
}

// Runs a task: what is asked of a script is answered from a list, and everything
// else as if nothing happened. Returns the actions too.
fn drive(state: &mut State, mut task: Task, mut answers: Vec<Event<Toy>>) -> (Task, Vec<String>) {
    answers.reverse();
    let mut log = Vec::new();
    loop {
        let event = match task.action() {
            Action::Nothing => return (task, log),
            Action::Arm(ms) => {
                log.push(format!("arm {ms}"));
                Event::Armed(Some(7))
            }
            Action::Disarm(generation) => {
                log.push(format!("disarm {generation:?}"));
                Event::Fired(false)
            }
            Action::Enter(entry) => {
                log.push(format!("enter {entry:?}"));
                Event::Done
            }
            Action::Leave => {
                log.push("leave".to_string());
                Event::Done
            }
            Action::AskTerminating => Event::Said(Got::No),
            Action::Drain => {
                log.push("drain".to_string());
                Event::Done
            }
            Action::Ask(what) => {
                log.push(match what {
                    Do::MakeKey(key) => format!("key {key}"),
                    Do::MakeSource(source) => format!("source {source}"),
                    Do::Compile(name) => format!("compile {name}"),
                    Do::NewFunction(id) => format!("function {id}"),
                    Do::Invoke(args) => format!("invoke {}", args.len()),
                    other => format!("{other:?}"),
                });
                answers.pop().expect("an answer")
            }
            _ => {
                log.push("other".to_string());
                answers.pop().expect("an answer")
            }
        };
        task = task.next(state, event);
    }
}

fn run(state: &mut State, request: Request, answers: Vec<Event<Toy>>) -> (Task, Vec<String>) {
    let task = dispatch_one(state, request, true, 1 << 20);
    drive(state, task, answers)
}

#[test]
fn eval_compiles_runs_and_looks() {
    let mut state = booted(true);
    let value = Event::Said(Got::Value(JsVal::Int(2)));
    let (task, log) = run(&mut state, eval(false), vec![yes(), yes(), yes(), value]);
    assert_eq!(done(task), Ok(JsVal::Int(2)));
    assert_eq!(
        log,
        vec![
            "arm 50",
            "enter Context(0)",
            "source 1 + 1",
            "compile app.js",
            "Run",
            "Marshal",
            "drain",
            "leave",
            "disarm Some(7)"
        ]
    );
}

#[test]
fn void_eval_does_not_look_at_the_value() {
    let mut state = booted(false);
    let (task, log) = run(&mut state, eval(true), vec![yes(), yes(), yes()]);
    assert_eq!(done(task), Ok(JsVal::Undefined));
    assert!(!log.contains(&"Marshal".to_string()));
    assert!(!log.contains(&"drain".to_string()));
}

#[test]
fn eval_failures_are_told_apart() {
    let mut state = booted(true);
    let no = || Event::Said(Got::No);
    assert_eq!(
        done(run(&mut state, eval(false), vec![no()]).0),
        Err(VmError::Parse(ParseFault::TooLarge))
    );
    assert_eq!(
        done(run(&mut state, eval(false), vec![yes(), failed(false)]).0),
        Err(VmError::Parse(ParseFault::Failed {
            unit: Unit::Source,
            message: Some("Error: boom".to_string()),
            resource: Some("app.js".to_string()),
            filename: "app.js".to_string(),
            line: Some(1),
        }))
    );
    assert_eq!(
        done(run(&mut state, eval(false), vec![yes(), failed(true)]).0),
        Err(VmError::Terminated)
    );
    assert_eq!(done(run(&mut state, eval(false), vec![yes(), yes(), failed(false)]).0), Err(threw()));
    assert_eq!(
        done(run(&mut state, eval(false), vec![yes(), yes(), yes(), failed(false)]).0),
        Err(threw())
    );
}

#[test]
fn unknown_realm_runs_nothing() {
    let mut state = booted(true);
    let request = Request::Call {
        context_id: 4,
        name: "f".to_string(),
        args: vec![],
        void: false,
        timeout_ms: 0,
    };
    let (task, log) = run(&mut state, request, vec![]);
    assert_eq!(refused(task), Refusal::RealmGone);
    assert_eq!(log, vec!["arm 0", "disarm Some(7)"]);
}

#[test]
fn overdue_script_was_stopped() {
    let mut state = booted(false);
    let mut task = dispatch_one(&mut state, eval(true), true, 1 << 20);
    for event in [Event::Armed(Some(1)), Event::Done, yes(), yes(), yes(), Event::Done] {
        task = task.next(&mut state, event);
    }
    assert!(matches!(task.action(), Action::Disarm(Some(1))));
    let task = task.next(&mut state, Event::Fired(true));
    assert_eq!(done(task), Err(VmError::Terminated));
    // An outermost operation ends by taking the stop back.
    let (ticket, cancel) = state.begin_request(&eval(true), true);
    assert!(cancel);
    assert!(state.end_request(ticket).cancel_terminate);
    let (ticket, _) = state.begin_request(&eval(true), true);
    assert!(!state.end_request(ticket).cancel_terminate);
}

#[test]
fn full_heap_stops_the_script() {
    let mut state = booted(false);
    assert_eq!(state.near_heap_limit(100, 60), 200);
    let (task, _) = run(&mut state, eval(true), vec![yes(), yes(), yes()]);
    assert_eq!(done(task), Err(VmError::Terminated));
    assert_eq!(state.take_oom(0), Some(60));
    assert_eq!(state.take_oom(0), None);
    state.near_heap_limit(usize::MAX, 1);
    assert_eq!(state.take_oom(64), Some(64));
    let (task, _) = run(&mut state, eval(true), vec![yes(), yes(), yes()]);
    assert_eq!(done(task), Ok(JsVal::Undefined));
}

fn call(name: &str) -> Request {
    Request::Call {
        context_id: 0,
        name: name.to_string(),
        args: vec![JsVal::Int(20), JsVal::Int(22)],
        void: false,
        timeout_ms: 0,
    }
}

#[test]
fn call_reads_its_path_in_order() {
    let mut state = booted(false);
    let value = Event::Said(Got::Value(JsVal::Int(42)));
    let answers = vec![yes(), yes(), yes(), yes(), yes(), yes(), yes(), yes(), value];
    let (task, log) = run(&mut state, call("a.f"), answers);
    assert_eq!(done(task), Ok(JsVal::Int(42)));
    assert_eq!(
        log[2..11],
        [
            "ToObject",
            "key a",
            "Read",
            "ToObject",
            "key f",
            "Read",
            "AskFunction",
            "invoke 2",
            "Marshal"
        ]
    );
}

#[test]
fn call_failures_are_told_apart() {
    let mut state = booted(false);
    let s = |t: &str| t.to_string();
    let no = || Event::Said(Got::No);
    let mut refusal = |answers| refused(run(&mut state, call("a.f"), answers).0);
    assert_eq!(
        refusal(vec![yes(), yes(), yes(), no()]),
        Refusal::NothingToRead { name: s("a.f"), part: s("f") }
    );
    assert_eq!(refusal(vec![yes(), no()]), Refusal::PropertyTooLarge);
    assert_eq!(
        refusal(vec![yes(), yes(), failed(false)]),
        Refusal::CannotRead { name: s("a.f"), part: s("a"), thrown: Some(s("Error: boom")) }
    );
    assert_eq!(
        refusal(vec![yes(), yes(), yes(), yes(), yes(), yes(), no()]),
        Refusal::NotAFunction { name: s("a.f") }
    );
    assert_eq!(
        done(run(&mut state, call("a.f"), vec![yes(), yes(), failed(true)]).0),
        Err(VmError::Terminated)
    );
    let invoked = vec![yes(), yes(), yes(), yes(), failed(false)];
    assert_eq!(done(run(&mut state, call("f"), invoked).0), Err(threw()));
}

fn attach(name: &str) -> Request {
    Request::Attach { context_id: 0, name: name.to_string(), host_fn_id: 5, timeout_ms: 0 }
}

#[test]
fn attach_makes_missing_objects() {
    let mut state = booted(false);
    let no = Event::Said(Got::No);
    let answers = vec![yes(), yes(), no, yes(), yes(), yes()];
    let (task, log) = run(&mut state, attach("NS.foo"), answers);
    assert_eq!(done(task), Ok(JsVal::Undefined));
    assert_eq!(
        log[2..8],
        ["function 5", "key NS", "ReadHolder", "NewHolder", "key foo", "Write"]
    );
    let found = vec![yes(), yes(), yes(), yes(), yes()];
    let (task, log) = run(&mut state, attach("NS.foo"), found);
    assert_eq!(done(task), Ok(JsVal::Undefined));
    assert_eq!(log[2..7], ["function 5", "key NS", "ReadHolder", "key foo", "Write"]);
}

#[test]
fn attach_failures_are_told_apart() {
    let mut state = booted(false);
    let s = |t: &str| t.to_string();
    let no = || Event::Said(Got::No);
    let mut refusal = |name: &str, answers| refused(run(&mut state, attach(name), answers).0);
    assert_eq!(refusal("f", vec![no()]), Refusal::NoFunction);
    assert_eq!(refusal("a.", vec![yes()]), Refusal::AttachName { name: s("a.") });
    assert_eq!(refusal("", vec![yes()]), Refusal::AttachName { name: s("") });
    assert_eq!(refusal(".f", vec![yes()]), Refusal::AttachName { name: s(".f") });
    assert_eq!(
        refusal("a..f", vec![yes(), yes(), yes()]),
        Refusal::AttachName { name: s("a..f") }
    );
    assert_eq!(refusal("a.f", vec![yes(), no()]), Refusal::NameTooLarge);
    assert_eq!(
        refusal("a.f", vec![yes(), yes(), Event::Said(Got::Primitive)]),
        Refusal::NotAnObject { name: s("a.f"), part: s("a") }
    );
    assert_eq!(
        refusal("a.f", vec![yes(), yes(), no(), no()]),
        Refusal::CannotCreate { name: s("a.f"), part: s("a") }
    );
    assert_eq!(refusal("f", vec![yes(), no()]), Refusal::NameTooLarge);
    assert_eq!(refusal("f", vec![yes(), yes(), no()]), Refusal::NotWritable { name: s("f") });
}

#[test]
fn attach_many_stops_at_the_first_failure() {
    let mut state = booted(false);
    let many = |names: &[&str]| Request::AttachMany {
        context_id: 0,
        entries: names.iter().enumerate().map(|(i, n)| (n.to_string(), i)).collect(),
        timeout_ms: 0,
    };
    let answers = vec![yes(), yes(), yes(), Event::Said(Got::No)];
    let (task, log) = run(&mut state, many(&["f", "g", "h"]), answers);
    assert_eq!(refused(task), Refusal::NoFunctionFor { name: "g".to_string() });
    assert_eq!(log[2..6], ["function 0", "key f", "Write", "function 1"]);
    let (task, _) = run(&mut state, many(&[]), vec![]);
    assert_eq!(done(task), Ok(JsVal::Undefined));
}

#[test]
fn reset_keeps_the_realm_and_drops_what_was_compiled() {
    let mut state = booted(false);
    state.share_token(5);
    let (task, _) = run(
        &mut state,
        Request::CreateContext,
        vec![Event::Made(Realm { context: "frame", queue: 2 })],
    );
    assert_eq!(done(task), Ok(JsVal::Int(1)));
    let module = state.register_module(ModuleEntry {
        handle: "m",
        url: "/m.js".to_string(),
        context_id: 1,
        hash: 3,
    });
    let script = state.register_script(ScriptEntry { handle: "s", context_id: 0 });
    assert_eq!(state.module_url(3, |m| *m == "m"), Some(&"/m.js".to_string()));
    let (task, _) = run(
        &mut state,
        Request::Reset { context_id: 1 },
        vec![Event::Made(Realm { context: "fresh", queue: 3 })],
    );
    assert_eq!(done(task), Ok(JsVal::Undefined));
    assert_eq!(state.context_for(1), Some(&"fresh"));
    assert_eq!(state.context_for(0), Some(&"main"));
    assert_eq!(state.security_token(), Some(&5));
    assert_eq!(state.module_handle(module), None);
    assert_eq!(state.module_url(3, |m| *m == "m"), None);
    assert_eq!(state.script_handle(script), Some((&"s", 0)));
    let (ticket, _) = state.begin_request(&Request::HeapStatistics, true);
    let cleanup = state.end_request(ticket);
    assert_eq!(cleanup.retired.len(), 1);
    assert_eq!(cleanup.retired[0].context, "frame");
}

#[test]
fn reset_and_dispose_are_refused() {
    let mut state = booted(false);
    let reset = |id| Request::Reset { context_id: id };
    let dispose = |id| Request::DisposeContext { context_id: id };
    assert_eq!(refused(run(&mut state, reset(8), vec![]).0), Refusal::ContextGone);
    let (ticket, _) = state.begin_request(&eval(false), true);
    assert_eq!(refused(run(&mut state, reset(0), vec![]).0), Refusal::ResetWhileSuspended);
    assert_eq!(refused(run(&mut state, dispose(0), vec![]).0), Refusal::DisposeWhileSuspended);
    let was = state.begin_drain();
    assert_eq!(refused(run(&mut state, reset(0), vec![]).0), Refusal::ResetWhileDraining);
    assert_eq!(refused(run(&mut state, dispose(3), vec![]).0), Refusal::DisposeWhileDraining);
    state.end_drain(was);
    state.end_request(ticket);
    assert_eq!(state.context_for(0), Some(&"main"));
}

#[test]
fn disposed_realm_is_gone() {
    let mut state = booted(false);
    run(
        &mut state,
        Request::CreateContext,
        vec![Event::Made(Realm { context: "frame", queue: 2 })],
    );
    let module = state.register_module(ModuleEntry {
        handle: "m",
        url: "/m.js".to_string(),
        context_id: 1,
        hash: 3,
    });
    let (task, _) = run(&mut state, Request::DisposeContext { context_id: 1 }, vec![]);
    assert_eq!(done(task), Ok(JsVal::Undefined));
    assert_eq!(state.entry_context(Entry::Context(1)), Err(Refusal::RealmGone));
    assert_eq!(state.entry_context(Entry::Module(module)), Err(Refusal::UnknownModule));
    // Numbers are not given out twice.
    let (task, _) = run(
        &mut state,
        Request::CreateContext,
        vec![Event::Made(Realm { context: "next", queue: 4 })],
    );
    assert_eq!(done(task), Ok(JsVal::Int(2)));
    let mut queues: Vec<u32> = state.drain_all_realms().into_iter().copied().collect();
    assert_eq!(queues.remove(0), 1);
    assert_eq!(queues, vec![4]);
}

fn compile(is_module: bool, cached: Option<Vec<u8>>) -> Request {
    let (source, filename) = ("x".to_string(), "x.js".to_string());
    let (cached_data, produce_cache, eager) = (cached, true, true);
    if is_module {
        Request::CompileModule {
            context_id: 0,
            source,
            filename,
            cached_data,
            produce_cache,
            eager,
        }
    } else {
        Request::CompileScript {
            context_id: 0,
            source,
            filename,
            cached_data,
            produce_cache,
            eager,
        }
    }
}

#[test]
fn compiled_code_gets_a_number() {
    let mut state = booted(false);
    let made = Event::Module { handle: "m", hash: 9, rejected: true, cache: Some(vec![1]) };
    let (task, _) = run(&mut state, compile(true, None), vec![yes(), made]);
    let compiled = Compiled { id: 0, cached_data: Some(vec![1]), cache_rejected: false };
    assert_eq!(task, Task::Over(VmReply::ModuleCompiled(Ok(compiled))));
    assert_eq!(state.module_handle(0), Some((&"m", 0)));
    let made = Event::Script { handle: "s", rejected: true, cache: None };
    let (task, _) = run(&mut state, compile(false, Some(vec![7])), vec![yes(), made]);
    let compiled = Compiled { id: 0, cached_data: None, cache_rejected: true };
    assert_eq!(task, Task::Over(VmReply::ScriptCompiled(Ok(compiled))));
    assert_eq!(state.script_handle(0), Some((&"s", 0)));
}

#[test]
fn given_code_cache_wins_over_eager() {
    let mut state = booted(false);
    for (cached, expected) in [(None, CompileMode::Eager), (Some(vec![1]), CompileMode::Consume)] {
        let mut task = dispatch_one(&mut state, compile(false, cached), true, 1);
        task = task.next(&mut state, Event::Done);
        task = task.next(&mut state, yes());
        match task.action() {
            Action::CompileScript { mode, filename, .. } => {
                assert_eq!(mode, expected);
                assert_eq!(filename, "x.js");
            }
            _ => panic!("not compiling"),
        }
    }
}

#[test]
fn compile_failures_are_told_apart() {
    let mut state = booted(false);
    let no = || Event::Said(Got::No);
    let mut module = |answers| match run(&mut state, compile(true, None), answers).0 {
        Task::Over(VmReply::ModuleCompiled(Err(error))) => error,
        other => panic!("{other:?}"),
    };
    assert_eq!(module(vec![no()]), VmError::Runtime(Refusal::ModuleSourceTooLarge));
    assert_eq!(module(vec![yes(), failed(true)]), VmError::Terminated);
    match module(vec![yes(), failed(false)]) {
        VmError::Parse(ParseFault::Failed { unit: Unit::Module, line: Some(1), .. }) => {}
        other => panic!("{other:?}"),
    }
    let gone = Request::CompileScript {
        context_id: 3,
        source: String::new(),
        filename: String::new(),
        cached_data: None,
        produce_cache: false,
        eager: false,
    };
    match run(&mut state, gone, vec![]).0 {
        Task::Over(VmReply::ScriptCompiled(Err(VmError::Runtime(Refusal::ContextGone)))) => {}
        other => panic!("{other:?}"),
    }
    match run(&mut state, compile(false, None), vec![no()]).0 {
        Task::Over(VmReply::ScriptCompiled(Err(VmError::Runtime(refusal)))) => {
            assert_eq!(refusal, Refusal::ScriptSourceTooLarge)
        }
        other => panic!("{other:?}"),
    }
}

fn with_module() -> State {
    let mut state = booted(true);
    state.register_module(ModuleEntry {
        handle: "m",
        url: "/m.js".to_string(),
        context_id: 0,
        hash: 3,
    });
    state
}

fn status(s: ModuleStatus) -> Event<Toy> {
    Event::Said(Got::Status(s))
}

fn text(t: &str) -> Event<Toy> {
    Event::Said(Got::Text(t.to_string()))
}

#[test]
fn modules_are_linked_once() {
    let mut state = with_module();
    let link = || Request::InstantiateModule { module_id: 0 };
    let (task, log) =
        run(&mut state, link(), vec![status(ModuleStatus::Uninstantiated), yes()]);
    assert_eq!(done(task), Ok(JsVal::Undefined));
    assert_eq!(log, vec!["enter Module(0)", "AskStatus", "Link", "leave"]);
    assert!(!state.is_instantiating());
    let (task, log) = run(&mut state, link(), vec![status(ModuleStatus::Evaluated)]);
    assert_eq!(done(task), Ok(JsVal::Undefined));
    assert!(!log.contains(&"Link".to_string()));
    let errored = vec![status(ModuleStatus::Errored), text("Error: x")];
    let told = VmError::JsError { message: Some("Error: x".to_string()), stack: None };
    assert_eq!(done(run(&mut state, link(), errored).0), Err(told));
    let broken = vec![status(ModuleStatus::Uninstantiated), failed(false)];
    assert_eq!(done(run(&mut state, link(), broken).0), Err(threw()));
    assert!(!state.is_instantiating());
    let unknown = Request::InstantiateModule { module_id: 5 };
    assert_eq!(refused(run(&mut state, unknown, vec![]).0), Refusal::UnknownModule);
    assert!(!state.is_instantiating());
}

#[test]
fn links_do_not_nest() {
    let mut state = with_module();
    let link = || Request::InstantiateModule { module_id: 0 };
    let task = dispatch_one(&mut state, link(), true, 1);
    assert!(state.is_instantiating());
    let nested = dispatch_one(&mut state, link(), false, 1);
    assert_eq!(refused(nested), Refusal::InstantiateNested);
    let answers = vec![status(ModuleStatus::Uninstantiated), yes()];
    assert_eq!(done(drive(&mut state, task, answers).0), Ok(JsVal::Undefined));
    assert!(!state.is_instantiating());
}

#[test]
fn modules_are_evaluated_once() {
    let mut state = with_module();
    let evaluate = || Request::EvaluateModule { module_id: 0, timeout_ms: 5 };
    let ready = || status(ModuleStatus::Instantiated);
    let rejected = VmError::JsError { message: Some("Error: y".to_string()), stack: None };
    // A promise that is pending at first is looked at again after the drain.
    let (task, log) = run(&mut state, evaluate(), vec![ready(), yes(), yes(), text("Error: y")]);
    assert_eq!(done(task), Err(rejected));
    assert_eq!(
        log[2..7],
        ["AskStatus", "Evaluate", "AskPromise", "drain", "AskPromise"]
    );
    let (task, _) = run(&mut state, evaluate(), vec![ready(), yes(), yes(), yes()]);
    assert_eq!(done(task), Ok(JsVal::Undefined));
    let (task, _) = run(&mut state, evaluate(), vec![ready(), yes(), text("no")]);
    assert!(done(task).is_err());
    let (task, log) = run(&mut state, evaluate(), vec![status(ModuleStatus::Evaluated)]);
    assert_eq!(done(task), Ok(JsVal::Undefined));
    assert!(!log.contains(&"Evaluate".to_string()));
    let (task, _) = run(&mut state, evaluate(), vec![status(ModuleStatus::Uninstantiated)]);
    assert_eq!(refused(task), Refusal::EvaluateTooEarly);
    let gone = Request::EvaluateModule { module_id: 4, timeout_ms: 0 };
    assert_eq!(refused(run(&mut state, gone, vec![]).0), Refusal::UnknownModule);
}

#[test]
fn namespaces_are_read_of_linked_modules() {
    let mut state = with_module();
    let namespace = || Request::ModuleNamespace { module_id: 0 };
    let value = Event::Said(Got::Value(JsVal::Int(42)));
    let (task, _) = run(&mut state, namespace(), vec![status(ModuleStatus::Evaluated), value]);
    assert_eq!(done(task), Ok(JsVal::Int(42)));
    let (task, _) = run(&mut state, namespace(), vec![status(ModuleStatus::Uninstantiated)]);
    assert_eq!(refused(task), Refusal::NamespaceTooEarly);
    let (task, _) = run(&mut state, namespace(), vec![status(ModuleStatus::Errored), text("E")]);
    assert_eq!(
        done(task),
        Err(VmError::JsError { message: Some("E".to_string()), stack: None })
    );
}

#[test]
fn module_status_and_graph() {
    let mut state = with_module();
    let asked = |s| vec![status(s)];
    let status_of = || Request::ModuleStatus { module_id: 0 };
    for (s, name) in [
        (ModuleStatus::Uninstantiated, "uninstantiated"),
        (ModuleStatus::Instantiating, "instantiating"),
        (ModuleStatus::Instantiated, "instantiated"),
        (ModuleStatus::Evaluating, "evaluating"),
        (ModuleStatus::Evaluated, "evaluated"),
        (ModuleStatus::Errored, "errored"),
    ] {
        let (task, _) = run(&mut state, status_of(), asked(s));
        assert_eq!(done(task), Ok(JsVal::Str(name.to_string())));
    }
    let graph = || Request::ModuleGraphAsync { module_id: 0 };
    let (task, _) = run(&mut state, graph(), asked(ModuleStatus::Instantiating));
    assert_eq!(refused(task), Refusal::GraphAsyncTooEarly);
    let (task, _) = run(&mut state, graph(), vec![status(ModuleStatus::Errored), yes()]);
    assert_eq!(done(task), Ok(JsVal::Bool(true)));
    let no = Event::Said(Got::No);
    let (task, _) = run(&mut state, graph(), vec![status(ModuleStatus::Evaluated), no]);
    assert_eq!(done(task), Ok(JsVal::Bool(false)));
    run(&mut state, Request::DisposeModule { module_id: 0 }, vec![]);
    assert_eq!(refused(run(&mut state, status_of(), vec![]).0), Refusal::UnknownModule);
    assert_eq!(refused(run(&mut state, graph(), vec![]).0), Refusal::UnknownModule);
}

#[test]
fn scripts_run_again_and_again() {
    let mut state = booted(false);
    let id = state.register_script(ScriptEntry { handle: "s", context_id: 0 });
    for void in [false, true] {
        let request = Request::RunScript { script_id: id, void, timeout_ms: 0 };
        let value = Event::Said(Got::Value(JsVal::Int(2)));
        let (task, _) = run(&mut state, request, vec![yes(), value]);
        let expected = if void { JsVal::Undefined } else { JsVal::Int(2) };
        assert_eq!(done(task), Ok(expected));
    }
    let cache = || Request::ScriptCodeCache { script_id: id };
    let (task, _) = run(&mut state, cache(), vec![Event::Bytes(Some(vec![3]))]);
    assert_eq!(task, Task::Over(VmReply::CodeCache(Ok(Some(vec![3])))));
    run(&mut state, Request::DisposeScript { script_id: id }, vec![]);
    let (task, _) = run(&mut state, cache(), vec![]);
    assert_eq!(task, Task::Over(VmReply::CodeCache(Ok(None))));
    let request = Request::RunScript { script_id: id, void: true, timeout_ms: 0 };
    assert_eq!(refused(run(&mut state, request, vec![]).0), Refusal::UnknownScript);
    let (task, _) = run(&mut state, Request::ModuleCodeCache { module_id: 0 }, vec![]);
    assert_eq!(task, Task::Over(VmReply::CodeCache(Ok(None))));
}

#[test]
fn drains_are_timed_too() {
    let mut state = booted(false);
    let drain = || Request::DrainMicrotasks { timeout_ms: 9 };
    let (task, log) = run(&mut state, drain(), vec![]);
    assert_eq!(done(task), Ok(JsVal::Undefined));
    assert_eq!(
        log,
        vec!["arm 9", "enter Context(0)", "drain", "leave", "disarm Some(7)"]
    );
    let mut task = dispatch_one(&mut state, drain(), true, 1);
    for event in [Event::Armed(Some(1)), Event::Done] {
        task = task.next(&mut state, event);
    }
    // While queues are drained, no realm is reset.
    let reset = dispatch_one(&mut state, Request::Reset { context_id: 0 }, false, 1);
    assert_eq!(refused(reset), Refusal::ResetWhileDraining);
    for event in [Event::Done, Event::Done, Event::Fired(true)] {
        task = task.next(&mut state, event);
    }
    assert_eq!(done(task), Err(VmError::Terminated));
}

#[test]
fn heap_runaway_stops_a_drain() {
    let mut state = booted(false);
    let mut task =
        dispatch_one(&mut state, Request::DrainMicrotasks { timeout_ms: 0 }, true, 1);
    for event in [Event::Armed(None), Event::Done] {
        task = task.next(&mut state, event);
    }
    state.near_heap_limit(64, 32);
    for event in [Event::Done, Event::Done, Event::Fired(false)] {
        task = task.next(&mut state, event);
    }
    assert_eq!(done(task), Err(VmError::Terminated));
}

#[test]
fn nested_operations_do_not_drain() {
    let mut state = booted(true);
    let task = dispatch_one(&mut state, eval(true), false, 1 << 20);
    let (task, log) = drive(&mut state, task, vec![yes(), yes(), yes()]);
    assert_eq!(done(task), Ok(JsVal::Undefined));
    assert!(!log.contains(&"drain".to_string()));
}

#[test]
fn heap_statistics_have_names() {
    let mut state = booted(false);
    let stats = HeapStats {
        used_heap_size: 1,
        total_heap_size: 2,
        heap_size_limit: 3,
        malloced_memory: 4,
        peak_malloced_memory: 5,
        external_memory: 6,
        number_of_native_contexts: 7,
        number_of_detached_contexts: 8,
    };
    let (task, _) = run(&mut state, Request::HeapStatistics, vec![Event::Heap(stats)]);
    assert_eq!(task, Task::Over(VmReply::Heap(stats)));
    let entries = stats.entries();
    assert_eq!(entries[0], ("used_heap_size", 1));
    assert_eq!(entries[7], ("number_of_detached_contexts", 8));
    let (task, _) = run(&mut state, Request::LowMemoryNotification, vec![Event::Done]);
    assert_eq!(done(task), Ok(JsVal::Undefined));
}

#[test]
fn new_realms_share_token_and_namespace() {
    let mut state = State::new(Some("NS".to_string()), true);
    assert!(state.new_realm().token.is_none());
    state.share_token(5);
    state.share_token(6);
    let plan = state.new_realm();
    assert_eq!(plan.token, Some(&5));
    let (name, members) = plan.namespace.unwrap();
    assert_eq!(name, "NS");
    let names: Vec<&str> = members.into_iter().map(|m| m.name()).collect();
    assert_eq!(
        names,
        vec![
            "drainMicrotasks",
            "contextGlobal",
            "contextOf",
            "setPromiseRejectHandler",
            "transferOut",
            "transferIn",
            "shareOut",
            "shareIn",
            "transferDrop"
        ]
    );
    assert!(booted(true).new_realm().namespace.is_none());
}

#[test]
fn timeout_stack_is_kept_for_outer_operations() {
    let mut state = booted(false);
    state.set_timeout_backtrace(Some(vec!["f (a.js:1:1)".to_string()]));
    assert_eq!(state.peek_timeout_backtrace(), Some(vec!["f (a.js:1:1)".to_string()]));
    assert_eq!(state.peek_timeout_backtrace(), Some(vec!["f (a.js:1:1)".to_string()]));
    state.set_timeout_backtrace(None);
    assert_eq!(state.peek_timeout_backtrace(), None);
}

#[test]
fn teardown_lets_go_of_everything() {
    let mut state = with_module();
    state.teardown();
    assert_eq!(state.context_for(0), None);
    assert_eq!(state.module_handle(0), None);
    assert!(state.drain_all_realms().is_empty());
    assert_eq!(state.graveyard_queue(), None);
}
