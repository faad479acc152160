use rusty_racer::watchdog::capture_js_backtrace;
use rusty_racer::watchdog::clamp_name;
use rusty_racer::watchdog::StackFrame;
use rusty_racer::watchdog::Wake;
use rusty_racer::watchdog::WatchdogShared;

const MS: u128 = 1_000_000;

#[test]
fn short_names_are_kept() {
    assert_eq!(clamp_name("boot".to_string()), "boot");
    assert_eq!(clamp_name("a".repeat(256)), "a".repeat(256));
}

#[test]
fn long_names_are_cut_at_a_character() {
    assert_eq!(clamp_name("a".repeat(300)), format!("{}\u{2026}", "a".repeat(256)));
    // Characters count, not bytes.
    assert_eq!(clamp_name("\u{e9}".repeat(200)), "\u{e9}".repeat(200));
    assert_eq!(clamp_name("\u{e9}".repeat(256)), "\u{e9}".repeat(256));
    let name = format!("a{}", "\u{e9}".repeat(256));
    assert_eq!(clamp_name(name), format!("a{}\u{2026}", "\u{e9}".repeat(255)));
}

#[test]
fn frames_are_written_top_first() {
    let lines = capture_js_backtrace(vec![
        Some(StackFrame {
            function: Some("spin".to_string()),
            script: Some("app.js".to_string()),
            line: 3,
            column: 14,
        }),
        None,
        Some(StackFrame { function: None, script: Some(String::new()), line: 1, column: 1 }),
    ]);
    assert_eq!(lines, vec!["spin (app.js:3:14)", "<anonymous> (<unknown>:1:1)"]);
}

#[test]
fn no_timeout_arms_nothing() {
    let mut shared = WatchdogShared::new();
    assert_eq!(shared.arm_watchdog(0, 5 * MS), None);
    assert_eq!(shared.watchdog_loop(1_000 * MS), Wake::Sleep);
    assert!(!shared.disarm_watchdog(None));
    assert!(shared.has_room(9, 5 * MS));
    assert!(!shared.has_room(1, u128::MAX - MS + 1));
}

#[test]
fn deadline_that_passes_is_heard_once() {
    let mut shared = WatchdogShared::new();
    let generation = shared.arm_watchdog(10, 0);
    assert!(generation.is_some());
    assert_eq!(shared.watchdog_loop(4 * MS), Wake::SleepFor(6 * MS));
    assert_eq!(shared.watchdog_loop(10 * MS), Wake::Terminate);
    assert_eq!(shared.watchdog_loop(11 * MS), Wake::Sleep);
    assert!(shared.interrupt_is_due());
    assert!(shared.disarm_watchdog(generation));
    assert!(!shared.interrupt_is_due());
    assert!(!shared.disarm_watchdog(generation));
}

#[test]
fn known_isolate_is_interrupted() {
    let mut shared = WatchdogShared::new();
    shared.set_iso_ptr(0x7000);
    let generation = shared.arm_watchdog(1, 0);
    assert_eq!(shared.watchdog_loop(2 * MS), Wake::Interrupt(0x7000));
    assert!(shared.disarm_watchdog(generation));
}

#[test]
fn deadline_met_in_time_does_not_fire() {
    let mut shared = WatchdogShared::new();
    let generation = shared.arm_watchdog(10, 0);
    assert!(!shared.disarm_watchdog(generation));
    assert_eq!(shared.watchdog_loop(20 * MS), Wake::Sleep);
    assert!(!shared.interrupt_is_due());
}

#[test]
fn nested_deadline_leaves_the_outer_one() {
    let mut shared = WatchdogShared::new();
    let outer = shared.arm_watchdog(100, 0);
    let inner = shared.arm_watchdog(500, MS);
    assert_eq!(shared.watchdog_loop(2 * MS), Wake::SleepFor(98 * MS));
    assert!(!shared.disarm_watchdog(inner));
    assert_eq!(shared.watchdog_loop(2 * MS), Wake::SleepFor(98 * MS));
    assert_eq!(shared.watchdog_loop(100 * MS), Wake::Terminate);
    assert!(shared.disarm_watchdog(outer));
}

#[test]
fn earliest_deadline_fires_first() {
    let mut shared = WatchdogShared::new();
    let outer = shared.arm_watchdog(10, 0);
    let inner = shared.arm_watchdog(500, 0);
    assert_eq!(shared.watchdog_loop(12 * MS), Wake::Terminate);
    assert!(!shared.disarm_watchdog(inner));
    assert!(shared.disarm_watchdog(outer));
}

#[test]
fn each_operation_hears_of_its_own_deadline() {
    let mut shared = WatchdogShared::new();
    let outer = shared.arm_watchdog(20, 0);
    let inner = shared.arm_watchdog(10, 0);
    assert_eq!(shared.watchdog_loop(30 * MS), Wake::Terminate);
    assert_eq!(shared.watchdog_loop(30 * MS), Wake::Terminate);
    assert_eq!(shared.watchdog_loop(30 * MS), Wake::Sleep);
    assert!(shared.disarm_watchdog(inner));
    assert!(shared.interrupt_is_due());
    assert!(shared.disarm_watchdog(outer));
    assert!(!shared.interrupt_is_due());
}

#[test]
fn nested_deadlines_unwind() {
    let mut shared = WatchdogShared::new();
    let outer = shared.arm_watchdog(100, 0);
    let inner = shared.arm_watchdog(50, 0);
    assert!(!shared.disarm_watchdog(inner));
    assert!(!shared.disarm_watchdog(None));
    assert_eq!(shared.watchdog_loop(60 * MS), Wake::SleepFor(40 * MS));
    assert!(!shared.disarm_watchdog(outer));
    assert_eq!(shared.watchdog_loop(200 * MS), Wake::Sleep);
}

#[test]
fn shutdown_ends_the_thread() {
    let mut shared = WatchdogShared::new();
    shared.arm_watchdog(10, 0);
    shared.request_shutdown();
    assert_eq!(shared.watchdog_loop(50 * MS), Wake::Stop);
}
