use rusty_racer::error::ErrorClass;
use rusty_racer::error::Refusal;
use rusty_racer::error::RubyError;
use rusty_racer::error::VmError;
use rusty_racer::import::dynamic_import_cb;
use rusty_racer::import::resolve_module_via_ruby;
use rusty_racer::import::ImportEnd;
use rusty_racer::import::ImportFault;
use rusty_racer::import::ImportStep;
use rusty_racer::import::RejectEvent;
use rusty_racer::import::Resolved;
use rusty_racer::import::Resolver;
use rusty_racer::isolate::binary_bytes;
use rusty_racer::isolate::check_live;
use rusty_racer::isolate::code_cache_from_reply;
use rusty_racer::isolate::compiled_from_reply;
use rusty_racer::isolate::heap_statistics;
use rusty_racer::isolate::instantiate_module;
use rusty_racer::isolate::release_context_procs;
use rusty_racer::isolate::reply_value;
use rusty_racer::isolate::split_call;
use rusty_racer::isolate::Core;
use rusty_racer::isolate::DropPlan;
use rusty_racer::isolate::Handle;
use rusty_racer::isolate::Raise;
use rusty_racer::isolate::RunPlan;
use rusty_racer::jobs::Fault;
use rusty_racer::jobs::Got;
use rusty_racer::jobs::Turn;
use rusty_racer::platform::platform_set_flags;
use rusty_racer::procs::ProcTable;
use rusty_racer::request::relabel_oom;
use rusty_racer::request::Compiled;
use rusty_racer::request::ModuleStatus;
use rusty_racer::request::VmReply;
use rusty_racer::snapshot::Snapshot;
use rusty_racer::snapshot::SnapshotAction;
use rusty_racer::snapshot::SnapshotTask;
use rusty_racer::state::Engine;
use rusty_racer::state::IsolateState;
use rusty_racer::state::ModuleEntry;
use rusty_racer::state::Realm;
use rusty_racer::value::JsVal;

struct Toy;

impl Engine for Toy {
    type Context = u32;
    type Queue = u32;
    type Module = u32;
    type Script = u32;
    type Function = u32;
    type Token = u32;
    type Resolver = u32;
    type Raised = &'static str;
}

type State = IsolateState<Toy>;

fn booted() -> State {
    let mut state = State::new(None, true);
    state.boot(Realm { context: 10, queue: 1 }, 99);
    state
}

const OWNER: usize = 7;

fn fresh() -> Core {
    Core::new(OWNER, 250, 0)
}

#[test]
fn isolate_belongs_to_its_thread() {
    let mut core = fresh();
    let error = core.run(8, false, true).unwrap_err();
    assert_eq!(error.class, ErrorClass::WrongThread);
    assert_eq!(
        error.message,
        "isolate used from a thread other than the one that created it (an isolate is \
         thread-confined; only #terminate is thread-safe)"
    );
    assert_eq!(core.depth, 0);
    assert!(core.ensure_owner_and_live(OWNER).is_ok());
}

#[test]
fn nested_operations_enter_once() {
    let mut core = fresh();
    let outer = RunPlan { outermost: true, entered: true, keep_scan_start: false };
    assert_eq!(core.run(OWNER, true, true), Ok(outer));
    let nested = RunPlan { outermost: false, entered: false, keep_scan_start: true };
    assert_eq!(core.run(OWNER, true, true), Ok(nested));
    // Another isolate has come between.
    let crossed = RunPlan { outermost: false, entered: true, keep_scan_start: false };
    assert_eq!(core.run(OWNER, false, false), Ok(crossed));
    for _ in 0..3 {
        assert!(core.finish(Some(VmReply::CodeCache(Ok(None)))).is_ok());
    }
    assert_eq!(core.depth, 0);
}

#[test]
fn panic_poisons_the_isolate() {
    let mut core = fresh();
    core.run(OWNER, false, false).unwrap();
    let error = core.finish(None).unwrap_err();
    assert_eq!(
        error.message,
        "internal error: operation panicked; the isolate has been disposed"
    );
    let error = core.run(OWNER, false, false).unwrap_err();
    assert_eq!(error.class, ErrorClass::Disposed);
    assert_eq!(error.message, "disposed context");
}

#[test]
fn dispose_happens_once_and_at_rest() {
    let mut core = fresh();
    let error = core.dispose(1).unwrap_err();
    assert_eq!(error.class, ErrorClass::WrongThread);
    assert_eq!(error.message, "dispose must run on the isolate's owner thread");
    core.run(OWNER, false, false).unwrap();
    let error = core.dispose(OWNER).unwrap_err();
    assert_eq!(
        error.message,
        "RustyRacer: cannot dispose an isolate from within a running op or host callback"
    );
    core.finish(Some(VmReply::CodeCache(Ok(None)))).unwrap();
    assert_eq!(core.dispose(OWNER), Ok(true));
    assert_eq!(core.dispose(OWNER), Ok(false));
}

#[test]
fn dropped_isolates_leak_off_their_thread() {
    assert_eq!(fresh().drop_last(OWNER), DropPlan::Teardown);
    assert_eq!(fresh().drop_last(1), DropPlan::Leak { stranded: false });
    let mut stranded = fresh();
    stranded.run(OWNER, false, false).unwrap();
    assert_eq!(stranded.drop_last(OWNER), DropPlan::Leak { stranded: true });
    let mut disposed = fresh();
    disposed.dispose(OWNER).unwrap();
    assert_eq!(disposed.drop_last(1), DropPlan::Nothing);
}

#[test]
fn own_timeout_comes_before_the_default() {
    assert_eq!(fresh().timeout(0), 250);
    assert_eq!(fresh().timeout(9), 9);
}

#[test]
fn disposed_handles_are_refused() {
    assert!(check_live(Handle::Context, false, false).is_ok());
    let error = check_live(Handle::Module, true, false).unwrap_err();
    assert_eq!(error.class, ErrorClass::Disposed);
    assert_eq!(error.message, "disposed module");
    assert_eq!(check_live(Handle::Script, false, true).unwrap_err().message, "disposed script");
    assert_eq!(check_live(Handle::Context, true, true).unwrap_err().message, "disposed context");
}

#[test]
fn contexts_are_disposed_of_once() {
    let core = fresh();
    let mut disposed = false;
    assert_eq!(core.dispose_context(OWNER, 0, &mut disposed).unwrap(), false);
    assert_eq!(core.dispose_context(OWNER + 1, 0, &mut disposed).unwrap(), false);
    assert!(!disposed);
    assert_eq!(core.dispose_context(OWNER, 3, &mut disposed).unwrap(), true);
    assert!(disposed);
    assert_eq!(core.dispose_context(OWNER, 3, &mut disposed).unwrap(), false);
}

#[test]
fn handles_are_disposed_of_on_their_own_thread() {
    let mut core = fresh();
    let mut disposed = false;
    let error = core.dispose_context(OWNER + 1, 3, &mut disposed).unwrap_err();
    assert_eq!(error.class, ErrorClass::WrongThread);
    assert!(!disposed);
    assert!(check_live(Handle::Context, disposed, core.disposed).is_ok());
    let error = core.dispose_handle(OWNER + 1, &mut disposed).unwrap_err();
    assert_eq!(error.class, ErrorClass::WrongThread);
    assert!(!disposed);
    assert_eq!(core.dispose_handle(OWNER, &mut disposed).unwrap(), true);
    assert!(disposed);
    // With its isolate gone, a handle is gone too.
    core.dispose(OWNER).unwrap();
    let mut module = false;
    assert_eq!(core.dispose_handle(OWNER, &mut module).unwrap(), false);
    assert!(module);
}

#[test]
fn operations_are_counted_off() {
    let mut core = fresh();
    let before = core;
    core.run(OWNER, false, false).unwrap();
    assert_eq!(core.depth, 1);
    assert!(core.finish(Some(VmReply::Done(Ok(JsVal::Null)))).is_ok());
    assert_eq!(core, before);
    core.run(OWNER, false, false).unwrap();
    assert!(core.finish(None).is_err());
    assert_eq!(core, Core { disposed: true, ..before });
    assert_eq!(core.run(OWNER, false, false).unwrap_err().class, ErrorClass::Disposed);
    assert_eq!(core.depth, 0);
}

#[test]
fn heap_runaway_is_told_and_recovered_from() {
    let mut state = booted();
    state.near_heap_limit(64, 32);
    let stopped = || Some(VmReply::Done(Err(VmError::Terminated)));
    // A nested operation says so too; the limit goes back when the outermost ends.
    let (reply, restore) = fresh().recover(&mut state, false, stopped());
    assert_eq!(reply, Some(VmReply::Done(Err(VmError::OutOfMemory))));
    assert_eq!(restore, None);
    let (reply, restore) = fresh().recover(&mut state, true, stopped());
    assert_eq!(reply, Some(VmReply::Done(Err(VmError::OutOfMemory))));
    assert_eq!(restore, Some(32));
    let (reply, restore) = fresh().recover(&mut state, true, stopped());
    assert_eq!(reply, stopped());
    assert_eq!(restore, None);
    state.near_heap_limit(64, 32);
    let (reply, restore) = Core::new(OWNER, 0, 48).recover(&mut state, true, None);
    assert_eq!(reply, None);
    assert_eq!(restore, Some(48));
    let fine = VmReply::Done(Ok(JsVal::Null));
    assert_eq!(relabel_oom(fine), VmReply::Done(Ok(JsVal::Null)));
}

#[test]
fn replies_become_values_or_exceptions() {
    assert_eq!(reply_value(VmReply::Done(Ok(JsVal::Int(2))), None), Ok(JsVal::Int(2)));
    let frames = Some(vec!["f (a.js:1:1)".to_string()]);
    let stopped = reply_value(VmReply::Done(Err(VmError::Terminated)), frames).unwrap_err();
    assert_eq!(
        stopped.message,
        "JavaScript was terminated (timeout or stop); running: f (a.js:1:1)"
    );
    let refused = VmReply::Done(Err(VmError::Runtime(Refusal::RealmGone)));
    assert_eq!(reply_value(refused, None).unwrap_err().message, "realm disposed or unknown");
    let odd = reply_value(VmReply::CodeCache(Ok(None)), None).unwrap_err();
    assert_eq!(odd.message, "internal: unexpected reply kind");
    assert_eq!(odd.class, ErrorClass::Runtime);
}

#[test]
fn compile_and_cache_replies() {
    let compiled = || Compiled { id: 1, cached_data: None, cache_rejected: false };
    assert_eq!(
        compiled_from_reply(VmReply::ModuleCompiled(Ok(compiled())), true),
        Ok(compiled())
    );
    assert_eq!(
        compiled_from_reply(VmReply::ScriptCompiled(Ok(compiled())), false),
        Ok(compiled())
    );
    let odd = compiled_from_reply(VmReply::ScriptCompiled(Ok(compiled())), true).unwrap_err();
    assert_eq!(odd.message, "internal: unexpected compile reply");
    assert_eq!(code_cache_from_reply(VmReply::CodeCache(Ok(Some(vec![1])))), Ok(Some(vec![1])));
    let odd = code_cache_from_reply(VmReply::Done(Ok(JsVal::Null))).unwrap_err();
    assert_eq!(odd.message, "internal: unexpected code-cache reply");
    let odd = heap_statistics(VmReply::Done(Ok(JsVal::Null))).unwrap_err();
    assert_eq!(odd.message, "internal: unexpected heap reply");
}

#[test]
fn what_the_resolver_raised_is_raised_again() {
    let ok = || Ok::<VmReply, &str>(VmReply::Done(Ok(JsVal::Undefined)));
    match instantiate_module(Some("raised"), ok(), None) {
        Err(Raise::Again("raised")) => {}
        _ => panic!("not raised again"),
    }
    match instantiate_module::<&str, &str>(None, ok(), None) {
        Ok(JsVal::Undefined) => {}
        _ => panic!("not linked"),
    }
    let failed = Ok(VmReply::Done(Err(VmError::OutOfMemory)));
    match instantiate_module::<&str, &str>(None, failed, None) {
        Err(Raise::New(error)) => assert_eq!(error.class, ErrorClass::OutOfMemory),
        _ => panic!("not raised"),
    }
    match instantiate_module::<&str, &str>(None, Err("refused"), None) {
        Err(Raise::Refused("refused")) => {}
        _ => panic!("not refused"),
    }
    match instantiate_module(Some("raised"), Err("refused"), None) {
        Err(Raise::Again("raised")) => {}
        _ => panic!("not raised again"),
    }
}

#[test]
fn refused_reset_keeps_the_host_functions() {
    let mut procs: ProcTable<u8> = ProcTable::new();
    let id = procs.attach(2, 5);
    let refused: Result<JsVal, RubyError> =
        Err(RubyError::plain(ErrorClass::Runtime, "no".to_string()));
    release_context_procs(&mut procs, 2, &refused);
    assert_eq!(procs.lookup(id), Some(&5));
    release_context_procs(&mut procs, 2, &Ok(JsVal::Undefined));
    assert_eq!(procs.lookup(id), None);
}

#[test]
fn reset_sets_the_numbers_of_host_functions_free() {
    let mut procs: ProcTable<u8> = ProcTable::new();
    assert_eq!((procs.attach(2, 5), procs.attach(3, 6), procs.attach(2, 7)), (0, 1, 2));
    release_context_procs(&mut procs, 2, &Ok(JsVal::Undefined));
    // The number set free last is given out first.
    assert_eq!((procs.attach(3, 8), procs.attach(3, 9), procs.attach(3, 10)), (2, 0, 3));
    assert_eq!(procs.lookup(1), Some(&6));
}

#[test]
fn call_takes_a_name_first() {
    assert_eq!(split_call(vec![1, 2, 3]), Ok((1, vec![2, 3])));
    let error = split_call::<u8>(vec![]).unwrap_err();
    assert_eq!(error.class.name(), "Error");
    assert!(error.class.is_own());
    assert_eq!(error.message, "call requires a function name");
}

#[test]
fn code_caches_are_binary() {
    let bytes = |enc: &str| binary_bytes(Some((enc.to_string(), vec![1, 2])));
    assert_eq!(bytes("ASCII-8BIT"), Ok(Some(vec![1, 2])));
    let error = bytes("UTF-8").unwrap_err();
    assert_eq!(error.class.name(), "EncodingError");
    assert_eq!(error.message, "cached_data must be ASCII-8BIT (binary), got UTF-8");
    assert_eq!(binary_bytes(None), Ok(None));
}

#[test]
fn flags_are_set_before_the_start() {
    let s = |t: &str| t.to_string();
    let flags = || vec![(s("expose_gc"), None), (s("stack_size"), Some(s("512")))];
    assert_eq!(platform_set_flags(false, flags()), Ok(s("--expose_gc --stack_size=512")));
    assert_eq!(platform_set_flags(false, vec![]), Ok(String::new()));
    assert_eq!(platform_set_flags(false, vec![(s("a "), None)]), Ok(s("--a")));
    assert_eq!(platform_set_flags(false, vec![(s("a\u{2003}\n"), None)]), Ok(s("--a")));
    let error = platform_set_flags(true, flags()).unwrap_err();
    assert_eq!(error.class.name(), "PlatformAlreadyInitialized");
    assert_eq!(
        error.message,
        "the V8 platform is already initialized; set flags before the first Isolate.new"
    );
}

fn fault(terminated: bool, message: Option<&str>) -> Got {
    Got::Failed(Fault {
        terminated,
        message: message.map(|m| m.to_string()),
        stack: None,
        trace: None,
        resource: None,
        line: None,
    })
}

#[test]
fn snapshot_code_runs_in_what_is_kept() {
    let mut task = SnapshotTask::build_snapshot("x = 1".to_string(), false);
    assert!(matches!(task.action(), SnapshotAction::NewContext));
    for _ in 0..4 {
        task = task.next(Got::Yes);
    }
    task = task.next(Got::Value(JsVal::Int(1)));
    assert!(matches!(task.action(), SnapshotAction::SetDefault { fresh: false }));
    task = task.next(Got::Yes);
    assert!(matches!(task.action(), SnapshotAction::CreateBlob));
    assert_eq!(task.finish(Some(vec![1, 2])), Ok(vec![1, 2]));
}

#[test]
fn warmup_keeps_a_fresh_context() {
    let mut task = SnapshotTask::build_snapshot(String::new(), true);
    task = task.next(Got::Yes);
    assert!(matches!(task.action(), SnapshotAction::SetDefault { fresh: true }));
    let task = task.next(Got::Yes);
    assert_eq!(task.finish(None).unwrap_err().message, "snapshot creation failed");
}

#[test]
fn snapshot_failures_say_why() {
    let failing = |answer: Got| {
        let mut task = SnapshotTask::build_snapshot("x".to_string(), true);
        for got in [Got::Yes, Got::Yes, answer] {
            task = task.next(got);
        }
        assert!(matches!(task.action(), SnapshotAction::SetDefault { .. }));
        task.next(Got::Yes).finish(Some(vec![1])).unwrap_err()
    };
    let error = failing(fault(false, Some("SyntaxError: no")));
    assert_eq!(error.class.name(), "SnapshotError");
    assert_eq!(error.message, "SyntaxError: no at <warmup>");
    assert_eq!(failing(fault(true, None)).message, "snapshot code was terminated");
    let mut task = SnapshotTask::build_snapshot("x".to_string(), false);
    for got in [Got::Yes, Got::Yes, Got::Yes, fault(false, Some("Error: boom")), Got::Yes] {
        task = task.next(got);
    }
    assert_eq!(task.finish(None).unwrap_err().message, "Error: boom");
}

#[test]
fn snapshots_are_dumped_and_loaded() {
    let mut snapshot = Snapshot::new(Ok(vec![1, 2, 3])).unwrap();
    assert_eq!(snapshot.size(), 3);
    let again = Snapshot::load(snapshot.dump().clone(), true).unwrap();
    assert_eq!(again, snapshot);
    let error = Snapshot::load(vec![1], false).unwrap_err();
    assert_eq!(
        error.message,
        "invalid V8 snapshot blob (corrupt, truncated, or built for a different V8 version)"
    );
    assert!(Snapshot::load(vec![], true).is_err());
    let failed = RubyError::plain(ErrorClass::Snapshot, "no".to_string());
    assert!(snapshot.warmup(Err(failed)).is_err());
    assert_eq!(snapshot.dump(), &vec![1, 2, 3]);
    snapshot.warmup(Ok(vec![9])).unwrap();
    assert_eq!(snapshot.dump(), &vec![9]);
}

#[test]
fn resolvers_name_modules_of_the_isolate() {
    let module = |same_isolate, disposed| Resolved::Module { module_id: 4, same_isolate, disposed };
    assert_eq!(resolve_module_via_ruby(Resolved::Nil), Ok(None));
    assert_eq!(resolve_module_via_ruby(module(true, false)), Ok(Some(4)));
    assert_eq!(resolve_module_via_ruby(module(true, true)), Ok(None));
    let error = resolve_module_via_ruby(module(false, false)).unwrap_err();
    assert_eq!(error.message, "module resolver returned a Module from a different Context");
    let error = resolve_module_via_ruby(Resolved::Other).unwrap_err();
    assert_eq!(error.class.name(), "Error");
    assert_eq!(error.message, "module resolver must return a RustyRacer::Module or nil");
}

#[test]
fn imports_stay_in_their_realm() {
    let mut state = booted();
    let id = state.register_module(ModuleEntry {
        handle: 77,
        url: "/m.js".to_string(),
        context_id: 0,
        hash: 1,
    });
    assert_eq!(state.resolve_imported(Some(id), Some(0)), Some(&77));
    assert_eq!(state.resolve_imported(Some(id), Some(1)), None);
    assert_eq!(state.resolve_imported(Some(id), None), None);
    assert_eq!(state.resolve_imported(None, Some(0)), None);
    assert_eq!(state.dynamic_target(Some(id), Some(0)), Ok(&77));
    assert_eq!(state.dynamic_target(Some(9), Some(0)), Err(ImportFault::NotFound));
    assert_eq!(state.dynamic_target(None, Some(0)), Err(ImportFault::NotResolved));
    assert_eq!(dynamic_import_cb(true, true), None);
    assert_eq!(dynamic_import_cb(false, true), Some(ImportFault::NoOwner));
    assert_eq!(dynamic_import_cb(true, false), Some(ImportFault::NotResolved));
}

#[test]
fn given_resolver_comes_first() {
    let mut state = booted();
    assert_eq!(state.import_resolver(true, Some(3), true), Resolver::Dynamic { initiating: 3 });
    assert_eq!(state.import_resolver(true, None, true), Resolver::Dynamic { initiating: 0 });
    assert_eq!(state.import_resolver(true, Some(3), false), Resolver::Nobody);
    assert_eq!(state.swap_instantiate(Some(5), None), (None, None));
    assert_eq!(state.import_resolver(true, Some(3), true), Resolver::Given);
    assert_eq!(state.import_resolver(false, Some(3), true), Resolver::Nobody);
    assert_eq!(state.resolver_answered(Resolver::Given, Ok(Some(1))), Some(1));
    assert_eq!(state.resolver_answered(Resolver::Given, Err(Some("boom"))), None);
    assert_eq!(state.swap_instantiate(None, None), (Some(5), Some("boom")));
    let dynamic = Resolver::Dynamic { initiating: 0 };
    assert_eq!(state.resolver_answered(dynamic, Err(Some("lost"))), None);
    assert_eq!(state.swap_instantiate(None, None), (None, None));
}

#[test]
fn dynamic_imports_link_and_evaluate() {
    let mut state = booted();
    let mut step = ImportStep::AskStatus;
    for got in [
        Got::Status(ModuleStatus::Uninstantiated),
        Got::Yes,
        Got::Status(ModuleStatus::Instantiated),
        Got::Yes,
        Got::Yes,
    ] {
        assert_eq!(state.is_instantiating(), step == ImportStep::Link);
        step = match step.finish_dynamic_import(&mut state, got) {
            Turn::Again(step) => step,
            Turn::Over(end) => panic!("{end:?}"),
        };
    }
    assert_eq!(
        step.finish_dynamic_import(&mut state, Got::Yes),
        Turn::Over(ImportEnd::Follows)
    );
}

#[test]
fn dynamic_imports_fail_in_many_ways() {
    let mut state = booted();
    let mut end = |step: ImportStep, got| match step.finish_dynamic_import(&mut state, got) {
        Turn::Over(end) => end,
        Turn::Again(step) => panic!("{step:?}"),
    };
    let rejected = ImportEnd::Rejected;
    assert_eq!(end(ImportStep::Link, fault(false, Some("E"))), ImportEnd::Threw);
    assert_eq!(end(ImportStep::Link, fault(false, None)), rejected(ImportFault::LinkFailed));
    assert_eq!(end(ImportStep::Link, fault(true, None)), ImportEnd::Pending);
    assert_eq!(
        end(ImportStep::AskStatus, Got::Status(ModuleStatus::Errored)),
        ImportEnd::ModuleThrew
    );
    assert_eq!(
        end(ImportStep::AskStatus, Got::Status(ModuleStatus::Evaluating)),
        rejected(ImportFault::Busy)
    );
    assert_eq!(end(ImportStep::Evaluate, fault(true, None)), ImportEnd::Pending);
    assert_eq!(
        end(ImportStep::Evaluate, fault(false, None)),
        rejected(ImportFault::EvaluateFailed)
    );
    assert_eq!(end(ImportStep::AskPromise, Got::No), rejected(ImportFault::NoPromise));
    assert_eq!(
        end(ImportStep::Chain, fault(false, Some("E"))),
        rejected(ImportFault::NotSettled)
    );
    assert_eq!(end(ImportStep::Chain, fault(true, None)), ImportEnd::Pending);
    state.set_instantiating(true);
    assert_eq!(
        ImportStep::AskStatus
            .finish_dynamic_import(&mut state, Got::Status(ModuleStatus::Uninstantiated)),
        Turn::Over(rejected(ImportFault::LinkNested))
    );
    assert!(state.is_instantiating());
}

#[test]
fn import_faults_say_why() {
    let text = |f: ImportFault| f.message();
    assert_eq!(text(ImportFault::NoOwner), "dynamic import has no owner");
    assert_eq!(text(ImportFault::NotResolved), "import() was not resolved to a module");
    assert_eq!(text(ImportFault::NotFound), "resolved module not found");
    assert_eq!(
        text(ImportFault::LinkNested),
        "cannot link a dynamic import while another module is instantiating"
    );
    assert_eq!(text(ImportFault::LinkFailed), "failed to link dynamically imported module");
    assert_eq!(text(ImportFault::NoPromise), "module evaluation did not yield a promise");
    assert_eq!(text(ImportFault::NotSettled), "failed to settle dynamic import");
    assert_eq!(
        text(ImportFault::EvaluateFailed),
        "dynamically imported module failed to evaluate"
    );
    assert_eq!(
        text(ImportFault::Busy),
        "dynamically imported module is busy (instantiating/evaluating)"
    );
}

#[test]
fn rejections_are_heard_of() {
    assert_eq!(RejectEvent::RejectWithNoHandler.code(), 0);
    assert_eq!(RejectEvent::HandlerAddedAfterReject.code(), 1);
    assert_eq!(RejectEvent::RejectAfterResolved.code(), 2);
    assert_eq!(RejectEvent::ResolveAfterResolved.code(), 3);
    let mut state = booted();
    state.register_reject_handler(Some(5), None);
    assert_eq!(state.promise_reject_handler(), Some(&5));
    state.drop_context_artifacts(1);
    assert_eq!(state.promise_reject_handler(), Some(&5));
    state.drop_context_artifacts(0);
    assert_eq!(state.promise_reject_handler(), None);
    state.register_reject_handler(Some(6), Some(2));
    state.register_reject_handler(None, Some(2));
    assert_eq!(state.promise_reject_handler(), None);
}

#[test]
fn contexts_are_found_by_number_and_by_identity() {
    let state = booted();
    assert_eq!(state.context_global(Some(0)), Ok(&10));
    assert_eq!(state.context_global(Some(4)).unwrap_err().message(), "unknown context 4");
    assert_eq!(
        state.context_global(None).unwrap_err().message(),
        "contextGlobal expects a context id"
    );
    assert_eq!(state.id_of_context(|c| *c == 10), Some(0));
    assert_eq!(state.id_of_context(|c| *c == 11), None);
}
