//! Descriptor matching and the enumeration diff.

use razer_battery_report::manager::select_devices;
use razer_battery_report::manager::BusDevice;
use razer_battery_report::manager::ConnectedDevice;
use razer_battery_report::manager::DeviceDescriptor;
use razer_battery_report::manager::DeviceRegistry;

fn descriptor(pid: u16, interface: u8, name: &str) -> DeviceDescriptor {
    DeviceDescriptor {
        vid: 0x1532,
        pid,
        interface,
        usage_page: 1,
        usage: 2,
        name: String::from(name),
    }
}

fn bus_device(pid: u16, interface: i32, path: &str) -> BusDevice {
    BusDevice {
        vendor_id: 0x1532,
        product_id: pid,
        interface_number: interface,
        usage_page: 1,
        usage: 2,
        path: String::from(path),
    }
}

fn connected(pid: u16, name: &str, path: &str) -> ConnectedDevice {
    ConnectedDevice { pid, name: String::from(name), path: String::from(path) }
}

#[test]
fn matching_uses_every_field() {
    let table = vec![descriptor(0x0042, 0, "X")];
    // Full agreement: match.
    let hit = select_devices(&table, &vec![bus_device(0x0042, 0, "p0")], true);
    assert_eq!(hit.len(), 1);
    assert_eq!(hit[0].pid, 0x0042);
    assert_eq!(hit[0].name, "X");
    assert_eq!(hit[0].path, "p0");
    // Wrong interface: no match.
    let miss = select_devices(&table, &vec![bus_device(0x0042, 1, "p0")], true);
    assert_eq!(miss.len(), 0);
    // Wrong vendor: no match.
    let mut foreign = bus_device(0x0042, 0, "p0");
    foreign.vendor_id = 0x1111;
    assert_eq!(select_devices(&table, &vec![foreign], true).len(), 0);
    // Unknown product: no match.
    assert_eq!(select_devices(&table, &vec![bus_device(0x0043, 0, "p0")], true).len(), 0);
}

#[test]
fn usage_checked_only_when_asked() {
    let table = vec![descriptor(0x0042, 0, "X")];
    let mut odd_usage = bus_device(0x0042, 0, "p0");
    odd_usage.usage = 9;
    // With usage metadata checked, the mismatch is rejected.
    assert_eq!(select_devices(&table, &vec![odd_usage.clone()], true).len(), 0);
    // Where enumeration exposes no usable usage metadata, it is not.
    assert_eq!(select_devices(&table, &vec![odd_usage], false).len(), 1);
}

#[test]
fn composite_device_resolved_by_interface() {
    // Two rows share a product id and differ only by interface.
    let table = vec![descriptor(0x0042, 0, "X keyboard"), descriptor(0x0042, 3, "X dongle")];
    let hit = select_devices(&table, &vec![bus_device(0x0042, 3, "p3")], true);
    assert_eq!(hit.len(), 1);
    assert_eq!(hit[0].name, "X dongle");
}

#[test]
fn diff_is_set_difference() {
    let mut reg = DeviceRegistry::new();
    let (removed, added) = reg.fetch_devices(vec![
        connected(1, "A", "p1"),
        connected(2, "B", "p2"),
        connected(3, "C", "p3"),
    ]);
    assert_eq!(removed, Vec::<u32>::new());
    let mut added = added;
    added.sort();
    assert_eq!(added, vec![1, 2, 3]);

    let (removed, added) = reg.fetch_devices(vec![
        connected(2, "B", "p2"),
        connected(3, "C", "p3"),
        connected(4, "D", "p4"),
    ]);
    // removed = old \ new, added = new \ old; the intersection {2, 3}
    // appears in neither.
    assert_eq!(removed, vec![1]);
    assert_eq!(added, vec![4]);
}

#[test]
fn unchanged_bus_yields_empty_diff() {
    let mut reg = DeviceRegistry::new();
    reg.fetch_devices(vec![connected(1, "A", "p1"), connected(2, "B", "p2")]);
    let (removed, added) = reg.fetch_devices(vec![
        connected(1, "A", "p1"),
        connected(2, "B", "p2"),
    ]);
    assert!(removed.is_empty());
    assert!(added.is_empty());
}

#[test]
fn duplicate_entries_diff_once() {
    let mut reg = DeviceRegistry::new();
    // Two physical devices with one product id still yield one added id.
    let (removed, added) = reg.fetch_devices(vec![
        connected(1, "A", "p1"),
        connected(1, "A", "p2"),
    ]);
    assert!(removed.is_empty());
    assert_eq!(added, vec![1]);
}

#[test]
fn device_name_lookup() {
    let mut reg = DeviceRegistry::new();
    reg.fetch_devices(vec![connected(1, "A", "p1"), connected(2, "B", "p2")]);
    assert_eq!(reg.get_device_name(1), Some(String::from("A")));
    assert_eq!(reg.get_device_name(2), Some(String::from("B")));
    assert_eq!(reg.get_device_name(3), None);
}
