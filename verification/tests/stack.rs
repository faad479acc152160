use rusty_racer::stack::current_region_bounds_cached;
use rusty_racer::stack::native_stack_bounds;
use rusty_racer::stack::native_stack_bounds_cached;
use rusty_racer::stack::query_region_bounds;
use rusty_racer::stack::ScanProbe;
use rusty_racer::stack::StackQuery;
use rusty_racer::stack::StackScope;
use rusty_racer::stack::StackSpot;
use rusty_racer::stack::StackView;

const MAPS: &str = "00400000-00452000 r-xp 00000000 08:02 173521 /usr/bin/dbus-daemon\n\
                    nonsense\n\
                    7f1c2000-7f1c6000 rw-p 00000000 00:00 0\n\
                    7ffd1000-7ffd9000 rw-p 00000000 00:00 0 [stack]\n";

fn no_maps() -> Option<String> {
    panic!("not to be read")
}

#[test]
fn bounds_of_a_thread_stack() {
    assert_eq!(native_stack_bounds(StackQuery::Unavailable), (0, 0));
    assert_eq!(
        native_stack_bounds(StackQuery::Base { addr: 0x1000, size: 0x800 }),
        (0x1000, 0x1800)
    );
    assert_eq!(native_stack_bounds(StackQuery::Top { top: 0x1800, size: 0x800 }), (0x1000, 0x1800));
    assert_eq!(native_stack_bounds(StackQuery::Top { top: 0x100, size: 0x800 }), (0, 0x100));
}

#[test]
fn thread_stack_is_asked_for_once() {
    let mut cache = (0, 0);
    let first = native_stack_bounds_cached(&mut cache, || StackQuery::Base { addr: 64, size: 36 });
    assert_eq!(first, (64, 100));
    let again = native_stack_bounds_cached(&mut cache, || panic!("asked twice"));
    assert_eq!(again, (64, 100));
}

#[test]
fn region_is_read_from_the_maps() {
    assert_eq!(query_region_bounds(Some(MAPS), 0x7f1c3000), (0x7f1c2000, 0x7f1c6000));
    assert_eq!(query_region_bounds(Some(MAPS), 0x7ffd1000), (0x7ffd1000, 0x7ffd9000));
    assert_eq!(query_region_bounds(Some(MAPS), 0x7f1c6000), (0, 0));
    assert_eq!(query_region_bounds(Some(""), 1), (0, 0));
    assert_eq!(query_region_bounds(None, 1), (0, 0));
}

#[test]
fn region_is_looked_up_when_it_changes() {
    let mut cache = (0, 0);
    let maps = || Some(MAPS.to_string());
    assert_eq!(current_region_bounds_cached(&mut cache, 0x7f1c3000, maps), (0x7f1c2000, 0x7f1c6000));
    assert_eq!(
        current_region_bounds_cached(&mut cache, 0x7f1c5fff, no_maps),
        (0x7f1c2000, 0x7f1c6000)
    );
    assert_eq!(current_region_bounds_cached(&mut cache, 0x10, maps), (0, 0));
    assert_eq!(cache, (0x7f1c2000, 0x7f1c6000));
}

fn spot(sp: usize, enclosing: Option<usize>) -> StackSpot {
    StackSpot {
        sp,
        native: (0x7ff0_0000, 0x7fff_0000),
        native_top: 0x7ffe_fff0,
        stack_top: sp + 0x100,
        enclosing_scan_start: enclosing,
        scan_start_known: true,
    }
}

#[test]
fn native_stack_keeps_a_guard() {
    let mut view = StackView { limit: 0, scan_start: 0 };
    let mut region = (0, 0);
    let scope = StackScope::enter(&mut view, spot(0x7ff8_0000, None), &mut region, no_maps);
    assert_eq!(view, StackView { limit: 0x7ff2_0000, scan_start: 0x7ffe_fff0 });
    assert_eq!(scope, StackScope { restore_limit: 0, restore_scan_start: 0 });
}

#[test]
fn nearly_full_native_stack_keeps_its_limit_below() {
    let mut view = StackView { limit: 0, scan_start: 0 };
    let mut region = (0, 0);
    StackScope::enter(&mut view, spot(0x7ff2_0001, None), &mut region, no_maps);
    assert_eq!(view.limit, 0x7ff2_0000);
    StackScope::enter(&mut view, spot(0x7ff2_0000, None), &mut region, no_maps);
    assert_eq!(view.limit, 0x7ff2_0000 - 8192);
    StackScope::enter(&mut view, spot(0x7ff0_0002, None), &mut region, no_maps);
    assert_eq!(view.limit, 0x7ff0_0001);
}

#[test]
fn fiber_inside_an_operation_gives_the_stack_back() {
    let mut view = StackView { limit: 0, scan_start: 0 };
    let mut region = (0, 0);
    let outer = StackScope::enter(&mut view, spot(0x7ff8_0000, None), &mut region, no_maps);
    let before = view;
    let maps = || Some("10000000-10100000 rw-p 00000000 00:00 0\n".to_string());
    let inner = StackScope::enter(
        &mut view,
        spot(0x100c_0000, Some(before.scan_start)),
        &mut region,
        maps,
    );
    assert_eq!(view, StackView { limit: 0x1001_0000, scan_start: 0x100c_0100 });
    inner.leave(&mut view);
    assert_eq!(view, before);
    outer.leave(&mut view);
    assert_eq!(view, before);
}

#[test]
fn deep_fiber_still_gets_some_stack() {
    let mut view = StackView { limit: 0, scan_start: 0 };
    let mut region = (0x1000_0000, 0x1010_0000);
    StackScope::enter(&mut view, spot(0x1000_8000, None), &mut region, no_maps);
    assert_eq!(view.limit, 0x1000_8000 - 8192);
    // With less than that left, the limit goes halfway to the bottom.
    StackScope::enter(&mut view, spot(0x1000_0800, None), &mut region, no_maps);
    assert_eq!(view.limit, 0x1000_0400);
    let mut blind = StackView { limit: 0, scan_start: 0 };
    StackScope::enter(&mut blind, spot(0x2000_0000, None), &mut region, || None);
    assert_eq!(blind.limit, 0x2000_0000 - 65536);
}

#[test]
fn scan_field_is_believed_after_two_checks() {
    let probe = ScanProbe::Heap.next(0x10).next(0x20).next(0x30);
    assert_eq!(probe, ScanProbe::SetAndRead { stack: 0x20, native_top: 0x30 });
    assert_eq!(probe.next(0x31), ScanProbe::Done(0));
    assert_eq!(probe.next(0x30).next(0x99), ScanProbe::Done(0));
    assert_eq!(probe.next(0x30).next(0x30), ScanProbe::Done(0x20));
    assert_eq!(ScanProbe::Heap.next(0), ScanProbe::Done(0));
    assert_eq!(ScanProbe::Stack.next(0), ScanProbe::Done(0));
    assert_eq!(ScanProbe::NativeTop { stack: 1 }.next(0), ScanProbe::Done(0));
}
