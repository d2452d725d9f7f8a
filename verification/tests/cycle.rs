//! Whole scheduler cycles: connect, disconnect, dispatch cadence.

use razer_battery_report::manager::ConnectedDevice;
use razer_battery_report::manager::DeviceRegistry;
use razer_battery_report::tray::run_cycle;
use razer_battery_report::tray::BatteryStateTracker;
use razer_battery_report::tray::PollingScheduler;

fn connected(pid: u16, name: &str, path: &str) -> ConnectedDevice {
    ConnectedDevice { pid, name: String::from(name), path: String::from(path) }
}

#[test]
fn scenario_device_appears() {
    let mut reg = DeviceRegistry::new();
    let mut tracker = BatteryStateTracker::new();
    let mut sched = PollingScheduler::new();

    let out = run_cycle(&mut reg, &mut tracker, &mut sched, vec![connected(0x0042, "X", "p")]);
    assert_eq!(out.added_ids, vec![0x0042]);
    assert!(out.removed_ids.is_empty());
    assert_eq!(out.added_names, vec![String::from("X")]);
    assert!(out.removed_names.is_empty());
    // The fresh record exists with no reading yet.
    let d = tracker.get(0x0042).unwrap();
    assert_eq!(d.battery_level, -1);
    assert_eq!(d.name, "X");
    // The very first cycle dispatches: the diff changed and the cadence
    // counter starts at zero.
    assert_eq!(out.dispatch, Some(vec![0x0042]));
}

#[test]
fn scenario_device_vanishes() {
    let mut reg = DeviceRegistry::new();
    let mut tracker = BatteryStateTracker::new();
    let mut sched = PollingScheduler::new();

    run_cycle(&mut reg, &mut tracker, &mut sched, vec![connected(0x0042, "X", "p")]);
    let out = run_cycle(&mut reg, &mut tracker, &mut sched, Vec::new());
    assert_eq!(out.removed_ids, vec![0x0042]);
    assert!(out.added_ids.is_empty());
    // Exactly one disconnect announcement, carrying the recorded name.
    assert_eq!(out.removed_names, vec![String::from("X")]);
    // The record is gone.
    assert!(!tracker.has(0x0042));
    assert!(tracker.get(0x0042).is_none());
}

#[test]
fn vanished_id_is_not_announced_twice() {
    let mut reg = DeviceRegistry::new();
    let mut tracker = BatteryStateTracker::new();
    let mut sched = PollingScheduler::new();

    run_cycle(&mut reg, &mut tracker, &mut sched, vec![connected(1, "X", "p")]);
    let out = run_cycle(&mut reg, &mut tracker, &mut sched, Vec::new());
    assert_eq!(out.removed_names.len(), 1);
    // The next empty pass has nothing left to remove or announce.
    let out = run_cycle(&mut reg, &mut tracker, &mut sched, Vec::new());
    assert!(out.removed_ids.is_empty());
    assert!(out.removed_names.is_empty());
}

#[test]
fn removal_comes_before_addition() {
    let mut reg = DeviceRegistry::new();
    let mut tracker = BatteryStateTracker::new();
    let mut sched = PollingScheduler::new();

    run_cycle(&mut reg, &mut tracker, &mut sched, vec![connected(1, "X", "p")]);
    tracker.on_poll_result(1, 60, false);
    // The device swaps for another in one cycle; the survivor keeps its
    // reading only if its id stayed connected — id 1 left, so its
    // record was destroyed, and id 2 starts fresh.
    let out = run_cycle(&mut reg, &mut tracker, &mut sched, vec![connected(2, "Y", "q")]);
    assert_eq!(out.removed_ids, vec![1]);
    assert_eq!(out.added_ids, vec![2]);
    assert!(!tracker.has(1));
    assert_eq!(tracker.get(2).unwrap().battery_level, -1);
}

#[test]
fn record_survives_across_cycles_when_connected() {
    let mut reg = DeviceRegistry::new();
    let mut tracker = BatteryStateTracker::new();
    let mut sched = PollingScheduler::new();

    run_cycle(&mut reg, &mut tracker, &mut sched, vec![connected(1, "X", "p")]);
    tracker.on_poll_result(1, 60, true);
    run_cycle(&mut reg, &mut tracker, &mut sched, vec![connected(1, "X", "p")]);
    let d = tracker.get(1).unwrap();
    assert_eq!(d.battery_level, 60);
    assert!(d.is_charging);
}

#[test]
fn dispatch_on_diff_change_and_cadence() {
    let mut reg = DeviceRegistry::new();
    let mut tracker = BatteryStateTracker::new();
    let mut sched = PollingScheduler::new();
    let scan = || vec![connected(1, "X", "p")];

    // Cycle 1: diff changed (and counter is zero): dispatch.
    let out = run_cycle(&mut reg, &mut tracker, &mut sched, scan());
    assert_eq!(out.dispatch, Some(vec![1]));
    // Cycle 2: the diff went back to empty, which differs from cycle
    // 1's diff: dispatch again.
    let out = run_cycle(&mut reg, &mut tracker, &mut sched, scan());
    assert_eq!(out.dispatch, Some(vec![1]));
    // From cycle 3 on nothing changes and the counter is running:
    // silence until the cadence completes a full period.
    let mut dispatches: u32 = 0;
    let mut first_dispatch_cycle: u32 = 0;
    for cycle in 3u32..=61 {
        let out = run_cycle(&mut reg, &mut tracker, &mut sched, scan());
        if out.dispatch.is_some() {
            dispatches += 1;
            if first_dispatch_cycle == 0 {
                first_dispatch_cycle = cycle;
            }
        }
    }
    // One full period is 300 s of refresh interval at a 5 s fetch
    // cadence: 60 cycles. The counter returned to zero at the end of
    // cycle 60, so cycle 61 dispatches.
    assert_eq!(dispatches, 1);
    assert_eq!(first_dispatch_cycle, 61);
}

#[test]
fn dispatch_carries_the_full_id_set() {
    let mut reg = DeviceRegistry::new();
    let mut tracker = BatteryStateTracker::new();
    let mut sched = PollingScheduler::new();

    run_cycle(&mut reg, &mut tracker, &mut sched, vec![connected(1, "X", "p")]);
    // A second device joins; the dispatched set names both ids, not
    // only the new one.
    let out = run_cycle(
        &mut reg,
        &mut tracker,
        &mut sched,
        vec![connected(1, "X", "p"), connected(2, "Y", "q")],
    );
    let mut ids = out.dispatch.unwrap();
    ids.sort();
    assert_eq!(ids, vec![1, 2]);
}
