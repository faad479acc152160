use rusty_racer::host::call_proc;
use rusty_racer::host::host_fn_callback;
use rusty_racer::host::host_return;
use rusty_racer::host::nesting_fault;
use rusty_racer::host::HostCall;
use rusty_racer::host::HostFault;
use rusty_racer::host::HostReturn;
use rusty_racer::procs::ProcTable;
use rusty_racer::transfer::share_out;
use rusty_racer::transfer::transfer_out;
use rusty_racer::transfer::Export;
use rusty_racer::transfer::Offered;
use rusty_racer::transfer::TransferRegistry;
use rusty_racer::value::JsVal;

#[test]
fn attached_functions_are_found() {
    let mut procs: ProcTable<&str> = ProcTable::new();
    let a = procs.attach(0, "a");
    let b = procs.attach(1, "b");
    assert_eq!(procs.lookup(a), Some(&"a"));
    assert_eq!(call_proc(&procs, b), Ok(&"b"));
    assert_eq!(call_proc(&procs, 9), Err(HostFault::UnknownFunction));
}

#[test]
fn release_spares_other_realms() {
    let mut procs: ProcTable<&str> = ProcTable::new();
    let a = procs.attach(0, "a");
    let b = procs.attach(1, "b");
    procs.release(0);
    assert_eq!(procs.lookup(a), None);
    assert_eq!(procs.lookup(b), Some(&"b"));
    // The number is given out again.
    assert_eq!(procs.attach(2, "c"), a);
    procs.clear();
    assert_eq!(procs.lookup(b), None);
}

#[test]
fn many_functions_are_attached_in_order() {
    let mut procs: ProcTable<u8> = ProcTable::new();
    let kept = procs.attach(0, 7);
    let ids = procs.attach_many(1, vec![("f".to_string(), 1), ("g".to_string(), 2)]);
    assert_eq!(ids[0].0, "f");
    assert_eq!(ids[1].0, "g");
    assert_eq!(procs.lookup(ids[0].1), Some(&1));
    assert_eq!(procs.lookup(ids[1].1), Some(&2));
    assert_eq!(procs.lookup(kept), Some(&7));
    assert!(procs.attach_many(1, vec![]).is_empty());
    // Numbers that were set free are given out again, the last one first.
    procs.release(1);
    let again = procs.attach_many(2, vec![("h".to_string(), 3), ("i".to_string(), 4)]);
    assert_eq!((again[0].1, again[1].1), (ids[1].1, ids[0].1));
    assert_eq!(procs.lookup(kept), Some(&7));
}

#[test]
fn host_calls() {
    assert_eq!(host_fn_callback(None, true), HostCall::Ignore);
    assert_eq!(host_fn_callback(Some(3), true), HostCall::Call(3));
    assert_eq!(host_fn_callback(Some(3), false), HostCall::Throw(HostFault::NoOwner));
    assert_eq!(host_return(Some(Ok(JsVal::Int(1)))), HostReturn::Value(JsVal::Int(1)));
    assert_eq!(
        host_return(Some(Err("boom".to_string()))),
        HostReturn::Throw("boom".to_string())
    );
    assert_eq!(
        host_return(None),
        HostReturn::Throw("host function did not complete".to_string())
    );
}

#[test]
fn host_faults_say_why() {
    assert_eq!(HostFault::NoOwner.message(), "host function has no owner");
    assert_eq!(HostFault::UnknownFunction.message(), "unknown host function");
    assert_eq!(HostFault::Incomplete.message(), "host function did not complete");
    assert_eq!(HostFault::ContextIdExpected.message(), "contextGlobal expects a context id");
    assert_eq!(HostFault::UnknownContext(12).message(), "unknown context 12");
    assert_eq!(HostFault::UnknownContext(-3).message(), "unknown context -3");
    assert_eq!(HostFault::UnknownContext(i32::MIN).message(), "unknown context -2147483648");
}

#[test]
fn operations_that_stop_nesting_are_fatal() {
    assert_eq!(nesting_fault("hop", "app.rb:7", 1, 1), None);
    let text = nesting_fault("hop", "app.rb:7", 1, 2).unwrap();
    assert_eq!(
        text,
        "[rusty_racer] fatal: operations on this isolate stopped nesting.\n\n\
         The host function `hop` handed control to Ruby.\n\
         By the time it came back, the operations in flight on this isolate had\n\
         changed (now 2, was 1) \u{2014} so they no longer nest. \
         It happened at app.rb:7.\n"
    );
}

#[test]
fn only_buffers_are_exported() {
    let buffer = |detachable| Offered::Buffer { detachable };
    assert_eq!(transfer_out(buffer(true)), Export::DetachAndPark);
    assert_eq!(transfer_out(buffer(false)), Export::Refuse);
    assert_eq!(transfer_out(Offered::SharedBuffer), Export::Refuse);
    assert_eq!(transfer_out(Offered::Other), Export::Refuse);
    assert_eq!(share_out(Offered::SharedBuffer), Export::ParkShared);
    assert_eq!(share_out(buffer(true)), Export::Refuse);
    assert_eq!(share_out(Offered::Other), Export::Refuse);
}

#[test]
fn token_is_good_once() {
    let mut registry: TransferRegistry<Vec<u8>> = TransferRegistry::new();
    let token = registry.park(vec![1, 2], false);
    assert!(token > 0);
    assert!(registry.has_room());
    assert_eq!(registry.pending_transfer_count(), 1);
    assert_eq!(registry.take_store(token, false), Some(vec![1, 2]));
    assert_eq!(registry.take_store(token, false), None);
    assert_eq!(registry.pending_transfer_count(), 0);
}

#[test]
fn import_of_the_wrong_kind_keeps_the_buffer() {
    let mut registry: TransferRegistry<u8> = TransferRegistry::new();
    let shared = registry.park(7, true);
    assert_eq!(registry.take_store(shared, false), None);
    assert_eq!(registry.pending_transfer_count(), 1);
    assert_eq!(registry.take_store(shared, true), Some(7));
    let dropped = registry.park(8, false);
    assert_ne!(dropped, shared);
    registry.transfer_drop(dropped);
    registry.transfer_drop(dropped);
    assert_eq!(registry.pending_transfer_count(), 0);
}
