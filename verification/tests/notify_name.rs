//! Notification identity and message texts.

use razer_battery_report::notify::Notify;

#[test]
fn notifications_carry_the_application_name() {
    let n = Notify::new();
    assert_eq!(n.app_name(), "Razer Battery Report");
}

#[test]
fn battery_low_body() {
    let n = Notify::new();
    assert_eq!(n.battery_low("X", 4), "X: Battery low (4%)");
    assert_eq!(n.battery_low("Viper", 15), "Viper: Battery low (15%)");
    assert_eq!(n.battery_low("X", 0), "X: Battery low (0%)");
    assert_eq!(n.battery_low("X", 10), "X: Battery low (10%)");
    assert_eq!(n.battery_low("X", 100), "X: Battery low (100%)");
    assert_eq!(n.battery_low("X", 99), "X: Battery low (99%)");
}

#[test]
fn battery_full_body() {
    let n = Notify::new();
    assert_eq!(n.battery_full("X"), "X: Battery fully charged");
}

#[test]
fn connect_and_disconnect_bodies() {
    let n = Notify::new();
    assert_eq!(n.device_connected("X"), "X: Connected");
    assert_eq!(n.device_disconnecred("X"), "X: Disconnected");
}
