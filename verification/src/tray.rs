//! Per-device battery state, the notification policy and icon selection.

use vstd::prelude::*;

use crate::manager::contains_id;
use crate::manager::ids_of;
use crate::manager::in_diff;
use crate::manager::lemma_device_name_some;
use crate::manager::spec_device_name;
use crate::manager::ConnectedDevice;
use crate::manager::DeviceRegistry;

verus! {

/// Highest battery level (while discharging) of the critical tier.
/// This tier is level-triggered: every qualifying poll fires.
pub const BATTERY_CRITICAL_LEVEL: i32 = 5;

/// Highest battery level (while discharging) of the low tier.
/// This tier is edge-triggered: only the poll that crosses the
/// threshold fires.
pub const BATTERY_LOW_LEVEL: i32 = 15;

/// Persistent per-device state: the latest battery reading, the reading
/// before it, and the charging flag of the latest reading.
///
/// `battery_level == -1` means "no successful reading yet".
/// `old_battery_level` starts at the neutral sentinel 50.
pub struct MemoryDevice {
    pub name: String,
    pub pid: u32,
    pub battery_level: i32,
    pub old_battery_level: i32,
    pub is_charging: bool,
}

impl MemoryDevice {
    /// Both stored levels stay in the percent range, with -1 as the
    /// "not yet read" sentinel.
    pub open spec fn wf(self) -> bool {
        &&& -1 <= self.battery_level <= 100
        &&& -1 <= self.old_battery_level <= 100
    }

    pub fn new(name: String, pid: u32) -> (d: Self)
        ensures
            d.name == name,
            d.pid == pid,
            d.battery_level == -1,
            d.old_battery_level == 50,
            d.is_charging == false,
            d.wf(),
    {
        Self { name, pid, battery_level: -1, old_battery_level: 50, is_charging: false }
    }
}

/// Is a record for this id on file?
pub open spec fn tracker_has(s: Seq<MemoryDevice>, id: u32) -> bool {
    exists|i: int| 0 <= i < s.len() && s[i].pid == id
}

/// No two records share an id.
pub open spec fn unique_pids(s: Seq<MemoryDevice>) -> bool {
    forall|i: int, j: int| 0 <= i < j < s.len() ==> s[i].pid != s[j].pid
}

/// The record on file for this id (meaningful under `tracker_has` and
/// `unique_pids`).
pub open spec fn record_of(s: Seq<MemoryDevice>, id: u32) -> MemoryDevice {
    s[choose|i: int| 0 <= i < s.len() && s[i].pid == id]
}

/// With unique ids, the record at a known index is the record on file.
pub proof fn lemma_record_unique(s: Seq<MemoryDevice>, i: int)
    requires
        unique_pids(s),
        0 <= i < s.len(),
    ensures
        tracker_has(s, s[i].pid),
        record_of(s, s[i].pid) == s[i],
{
    assert(tracker_has(s, s[i].pid)) by {
        assert(0 <= i < s.len() && s[i].pid == s[i].pid);
    }
    let j = choose|j: int| 0 <= j < s.len() && s[j].pid == s[i].pid;
    assert(j == i);
}

/// The fresh record created when a device first appears: no reading yet,
/// a neutral previous level, not charging.
pub open spec fn fresh_record(name: String, id: u32) -> MemoryDevice {
    MemoryDevice {
        name,
        pid: id,
        battery_level: -1i32,
        old_battery_level: 50i32,
        is_charging: false,
    }
}

/// One record per connected device id, created on first appearance,
/// updated only by complete poll results, destroyed on disappearance.
pub struct BatteryStateTracker {
    pub devices: Vec<MemoryDevice>,
}

impl BatteryStateTracker {
    /// At most one live record per id, every record well formed.
    pub open spec fn wf(self) -> bool {
        &&& unique_pids(self.devices@)
        &&& forall|i: int| 0 <= i < self.devices@.len() ==> (#[trigger] self.devices@[i]).wf()
    }

    pub fn new() -> (r: Self)
        ensures
            r.devices@ == Seq::<MemoryDevice>::empty(),
            r.wf(),
    {
        Self { devices: Vec::new() }
    }

    /// The index holding this id, if any.
    fn find(&self, id: u32) -> (r: Option<usize>)
        ensures
            match r {
                Some(i) => 0 <= i < self.devices@.len() && self.devices@[i as int].pid == id,
                None => !tracker_has(self.devices@, id),
            },
    {
        let mut i: usize = 0;
        while i < self.devices.len()
            invariant
                0 <= i <= self.devices.len(),
                forall|k: int| 0 <= k < i ==> self.devices@[k].pid != id,
            decreases self.devices.len() - i,
        {
            if self.devices[i].pid == id {
                return Some(i);
            }
            i = i + 1;
        }
        None
    }

    /// Does a record for this id exist?
    pub fn has(&self, id: u32) -> (r: bool)
        ensures
            r == tracker_has(self.devices@, id),
    {
        match self.find(id) {
            Some(i) => {
                assert(tracker_has(self.devices@, id)) by {
                    assert(self.devices@[i as int].pid == id);
                }
                true
            },
            None => false,
        }
    }

    /// A copy of the record for this id, if one exists.
    pub fn get(&self, id: u32) -> (r: Option<&MemoryDevice>)
        ensures
            match r {
                Some(d) => exists|i: int|
                    0 <= i < self.devices@.len() && self.devices@[i].pid == id && *d
                        == self.devices@[i],
                None => !tracker_has(self.devices@, id),
            },
    {
        match self.find(id) {
            Some(i) => Some(&self.devices[i]),
            None => None,
        }
    }

    /// Record a newly connected device. Idempotent: an id already on
    /// file keeps its record untouched; a new id gets the fresh record
    /// with battery level -1. Returns whether a record was created.
    pub fn on_added(&mut self, id: u32, name: String) -> (added: bool)
        requires
            old(self).wf(),
        ensures
            final(self).wf(),
            added == !tracker_has(old(self).devices@, id),
            added ==> final(self).devices@ == old(self).devices@.push(fresh_record(name, id)),
            !added ==> final(self).devices@ == old(self).devices@,
            tracker_has(final(self).devices@, id),
            added ==> record_of(final(self).devices@, id) == fresh_record(name, id),
            !added ==> record_of(final(self).devices@, id) == record_of(old(self).devices@, id),
            forall|id2: u32|
                id2 != id ==> tracker_has(final(self).devices@, id2) == tracker_has(
                    old(self).devices@,
                    id2,
                ),
            forall|id2: u32|
                id2 != id && tracker_has(old(self).devices@, id2) ==> record_of(
                    final(self).devices@,
                    id2,
                ) == record_of(old(self).devices@, id2),
    {
        match self.find(id) {
            Some(i) => {
                assert(tracker_has(self.devices@, id)) by {
                    assert(self.devices@[i as int].pid == id);
                }
                false
            },
            None => {
                let ghost s0 = self.devices@;
                self.devices.push(MemoryDevice::new(name, id));
                proof {
                    let s1 = self.devices@;
                    assert(s1[s1.len() - 1].pid == id);
                    assert(unique_pids(s1)) by {
                        assert forall|p: int, q: int| 0 <= p < q < s1.len() implies s1[p].pid
                            != s1[q].pid by {
                            if q == s1.len() - 1 {
                                if s1[p].pid == id {
                                    assert(tracker_has(s0, id)) by {
                                        assert(s0[p].pid == id);
                                    }
                                }
                            }
                        }
                    }
                    lemma_record_unique(s1, s1.len() - 1);
                    assert forall|id2: u32|
                        id2 != id implies tracker_has(s1, id2) == tracker_has(s0, id2) by {
                        if tracker_has(s1, id2) {
                            let k = choose|k: int| 0 <= k < s1.len() && s1[k].pid == id2;
                            assert(k < s0.len());
                            assert(tracker_has(s0, id2)) by {
                                assert(s0[k].pid == id2);
                            }
                        }
                        if tracker_has(s0, id2) {
                            let k = choose|k: int| 0 <= k < s0.len() && s0[k].pid == id2;
                            assert(tracker_has(s1, id2)) by {
                                assert(s1[k].pid == id2);
                            }
                        }
                    }
                    assert forall|id2: u32|
                        id2 != id && tracker_has(s0, id2) implies record_of(s1, id2) == record_of(
                        s0,
                        id2,
                    ) by {
                        let k = choose|k: int| 0 <= k < s0.len() && s0[k].pid == id2;
                        lemma_record_unique(s0, k);
                        lemma_record_unique(s1, k);
                    }
                }
                true
            },
        }
    }

    /// Drop the record of a disconnected device, handing back the name
    /// it was created with so the caller can announce the disconnect.
    /// An id without a record is a no-op returning nothing.
    pub fn on_removed(&mut self, id: u32) -> (r: Option<String>)
        requires
            old(self).wf(),
        ensures
            final(self).wf(),
            !tracker_has(final(self).devices@, id),
            (r is Some) == tracker_has(old(self).devices@, id),
            match r {
                Some(name) => exists|i: int|
                    0 <= i < old(self).devices@.len() && old(self).devices@[i].pid == id && name
                        == old(self).devices@[i].name && final(self).devices@ == old(
                    self).devices@.remove(i),
                None => final(self).devices@ == old(self).devices@,
            },
            r is Some ==> r == Some(record_of(old(self).devices@, id).name),
            forall|id2: u32|
                id2 != id ==> tracker_has(final(self).devices@, id2) == tracker_has(
                    old(self).devices@,
                    id2,
                ),
            forall|id2: u32|
                id2 != id && tracker_has(old(self).devices@, id2) ==> record_of(
                    final(self).devices@,
                    id2,
                ) == record_of(old(self).devices@, id2),
    {
        match self.find(id) {
            Some(i) => {
                let ghost s0 = self.devices@;
                let d = self.devices.remove(i);
                proof {
                    s0.remove_ensures(i as int);
                    assert(tracker_has(s0, id)) by {
                        assert(s0[i as int].pid == id);
                    }
                    assert forall|k: int| 0 <= k < self.devices@.len() implies self.devices@[k].pid
                        != id by {
                        if k < i {
                            assert(self.devices@[k] == s0[k]);
                        } else {
                            assert(self.devices@[k] == s0[k + 1]);
                        }
                    }
                    assert forall|p: int, q: int| 0 <= p < q < self.devices@.len() implies
                        self.devices@[p].pid != self.devices@[q].pid by {
                        assert(self.devices@[p] == if p < i {
                            s0[p]
                        } else {
                            s0[p + 1]
                        });
                        assert(self.devices@[q] == if q < i {
                            s0[q]
                        } else {
                            s0[q + 1]
                        });
                    }
                    assert forall|k: int| 0 <= k < self.devices@.len() implies (
                    #[trigger] self.devices@[k]).wf() by {
                        assert(self.devices@[k] == if k < i {
                            s0[k]
                        } else {
                            s0[k + 1]
                        });
                    }
                    lemma_record_unique(s0, i as int);
                    let s1 = self.devices@;
                    assert forall|id2: u32|
                        id2 != id implies tracker_has(s1, id2) == tracker_has(s0, id2) by {
                        if tracker_has(s1, id2) {
                            let k = choose|k: int| 0 <= k < s1.len() && s1[k].pid == id2;
                            let j: int = if k < i { k } else { k + 1 };
                            assert(tracker_has(s0, id2)) by {
                                assert(s0[j].pid == id2);
                            }
                        }
                        if tracker_has(s0, id2) {
                            let j = choose|j: int| 0 <= j < s0.len() && s0[j].pid == id2;
                            assert(j != i);
                            let k: int = if j < i { j } else { j - 1 };
                            assert(tracker_has(s1, id2)) by {
                                assert(s1[k].pid == id2);
                            }
                        }
                    }
                    assert forall|id2: u32|
                        id2 != id && tracker_has(s0, id2) implies record_of(s1, id2) == record_of(
                        s0,
                        id2,
                    ) by {
                        let j = choose|j: int| 0 <= j < s0.len() && s0[j].pid == id2;
                        assert(j != i);
                        let k: int = if j < i { j } else { j - 1 };
                        assert(s1[k] == s0[j]);
                        lemma_record_unique(s0, j);
                        lemma_record_unique(s1, k);
                    }
                }
                Some(d.name)
            },
            None => None,
        }
    }

    /// Apply one complete poll result: the current level becomes the
    /// previous one, then level and charging flag are written together.
    /// Called only with both values in hand; an id without a record is a
    /// no-op. Returns whether a record was updated.
    pub fn on_poll_result(&mut self, id: u32, level: i32, charging: bool) -> (updated: bool)
        requires
            old(self).wf(),
            0 <= level <= 100,
        ensures
            final(self).wf(),
            updated == tracker_has(old(self).devices@, id),
            final(self).devices@.len() == old(self).devices@.len(),
            forall|i: int|
                0 <= i < old(self).devices@.len() && old(self).devices@[i].pid != id
                    ==> final(self).devices@[i] == old(self).devices@[i],
            forall|i: int|
                0 <= i < old(self).devices@.len() && old(self).devices@[i].pid == id
                    ==> final(self).devices@[i] == (MemoryDevice {
                    battery_level: level,
                    old_battery_level: old(self).devices@[i].battery_level,
                    is_charging: charging,
                    ..old(self).devices@[i]
                }),
            forall|id2: u32|
                tracker_has(final(self).devices@, id2) == tracker_has(old(self).devices@, id2),
            forall|id2: u32|
                id2 != id && tracker_has(old(self).devices@, id2) ==> record_of(
                    final(self).devices@,
                    id2,
                ) == record_of(old(self).devices@, id2),
            tracker_has(old(self).devices@, id) ==> record_of(final(self).devices@, id)
                == (MemoryDevice {
                battery_level: level,
                old_battery_level: record_of(old(self).devices@, id).battery_level,
                is_charging: charging,
                ..record_of(old(self).devices@, id)
            }),
    {
        match self.find(id) {
            Some(i) => {
                let ghost s0 = self.devices@;
                let d = &mut self.devices[i];
                d.old_battery_level = d.battery_level;
                d.battery_level = level;
                d.is_charging = charging;
                proof {
                    assert(tracker_has(s0, id)) by {
                        assert(s0[i as int].pid == id);
                    }
                    assert(self.devices@ =~= s0.update(i as int, self.devices@[i as int]));
                    Self::lemma_same_pids_same_views(s0, self.devices@, i as int, id);
                }
                true
            },
            None => false,
        }
    }

    /// After updating the record at index `i` (same id, same name), every
    /// id keeps its presence, and every other id its record.
    proof fn lemma_same_pids_same_views(s0: Seq<MemoryDevice>, s1: Seq<MemoryDevice>, i: int, id: u32)
        requires
            unique_pids(s0),
            s0.len() == s1.len(),
            0 <= i < s0.len(),
            s0[i].pid == id,
            s1[i].pid == id,
            forall|k: int| 0 <= k < s0.len() && k != i ==> s1[k] == s0[k],
        ensures
            unique_pids(s1),
            forall|id2: u32| tracker_has(s1, id2) == tracker_has(s0, id2),
            forall|id2: u32|
                id2 != id && tracker_has(s0, id2) ==> record_of(s1, id2) == record_of(s0, id2),
            record_of(s1, id) == s1[i],
    {
        assert(forall|k: int| 0 <= k < s0.len() ==> s1[k].pid == s0[k].pid);
        assert(unique_pids(s1));
        assert forall|id2: u32| tracker_has(s1, id2) == tracker_has(s0, id2) by {
            if tracker_has(s1, id2) {
                let k = choose|k: int| 0 <= k < s1.len() && s1[k].pid == id2;
                assert(tracker_has(s0, id2)) by {
                    assert(s0[k].pid == id2);
                }
            }
            if tracker_has(s0, id2) {
                let k = choose|k: int| 0 <= k < s0.len() && s0[k].pid == id2;
                assert(tracker_has(s1, id2)) by {
                    assert(s1[k].pid == id2);
                }
            }
        }
        assert forall|id2: u32|
            id2 != id && tracker_has(s0, id2) implies record_of(s1, id2) == record_of(s0, id2) by {
            let k = choose|k: int| 0 <= k < s0.len() && s0[k].pid == id2;
            assert(k != i);
            lemma_record_unique(s0, k);
            lemma_record_unique(s1, k);
        }
        lemma_record_unique(s1, i);
    }

    /// The whole consumer-side step for one device and one successful
    /// poll: apply the reading, decide the zero-or-one notification for
    /// the updated record, pick the icon, and report whether the icon
    /// sink must be invoked — exactly when (level, charging) differs
    /// from the previous successful poll's values. The name and level
    /// come back with every successful poll so the tooltip can be
    /// rewritten unconditionally. An id without a record does nothing.
    pub fn process_poll(&mut self, id: u32, level: i32, charging: bool) -> (r: Option<PollOutcome>)
        requires
            old(self).wf(),
            0 <= level <= 100,
        ensures
            final(self).wf(),
            (r is Some) == tracker_has(old(self).devices@, id),
            forall|id2: u32|
                tracker_has(final(self).devices@, id2) == tracker_has(old(self).devices@, id2),
            forall|id2: u32|
                id2 != id && tracker_has(old(self).devices@, id2) ==> record_of(
                    final(self).devices@,
                    id2,
                ) == record_of(old(self).devices@, id2),
            !tracker_has(old(self).devices@, id) ==> final(self).devices@ == old(self).devices@,
            tracker_has(old(self).devices@, id) ==> record_of(final(self).devices@, id)
                == (MemoryDevice {
                battery_level: level,
                old_battery_level: record_of(old(self).devices@, id).battery_level,
                is_charging: charging,
                ..record_of(old(self).devices@, id)
            }),
            match r {
                Some(o) => {
                    &&& o.name == record_of(old(self).devices@, id).name
                    &&& o.level == level
                    &&& o.notification == spec_check_notify(record_of(final(self).devices@, id))
                    &&& o.icon == spec_battery_icon(level, charging)
                    &&& o.icon_changed == (level != record_of(old(self).devices@, id).battery_level
                        || charging != record_of(old(self).devices@, id).is_charging)
                },
                None => true,
            },
    {
        match self.find(id) {
            Some(i) => {
                let ghost s0 = self.devices@;
                proof {
                    lemma_record_unique(s0, i as int);
                }
                let name = self.devices[i].name.clone();
                let prev_level = self.devices[i].battery_level;
                let prev_charging = self.devices[i].is_charging;
                let d = &mut self.devices[i];
                d.old_battery_level = d.battery_level;
                d.battery_level = level;
                d.is_charging = charging;
                proof {
                    assert(self.devices@ =~= s0.update(i as int, self.devices@[i as int]));
                    Self::lemma_same_pids_same_views(s0, self.devices@, i as int, id);
                }
                let notification = check_notify(&self.devices[i]);
                let icon = get_battery_icon(level, charging);
                let icon_changed = level != prev_level || charging != prev_charging;
                Some(PollOutcome { name, level, notification, icon, icon_changed })
            },
            None => None,
        }
    }

    /// The id of every record on file, in storage order.
    pub fn ids(&self) -> (r: Vec<u32>)
        ensures
            r@.len() == self.devices@.len(),
            forall|k: int| 0 <= k < r@.len() ==> r@[k] == self.devices@[k].pid,
            forall|id: u32| #[trigger] r@.contains(id) <==> tracker_has(self.devices@, id),
            self.wf() ==> r@.no_duplicates(),
    {
        let mut r: Vec<u32> = Vec::new();
        let mut i: usize = 0;
        while i < self.devices.len()
            invariant
                0 <= i <= self.devices.len(),
                r@.len() == i,
                forall|k: int| 0 <= k < i ==> r@[k] == self.devices@[k].pid,
            decreases self.devices.len() - i,
        {
            r.push(self.devices[i].pid);
            i = i + 1;
        }
        assert forall|id: u32| #[trigger] r@.contains(id) <==> tracker_has(self.devices@, id) by {
            if r@.contains(id) {
                let k = choose|k: int| 0 <= k < r@.len() && r@[k] == id;
                assert(self.devices@[k].pid == id);
            }
            if tracker_has(self.devices@, id) {
                let k = choose|k: int| 0 <= k < self.devices@.len() && self.devices@[k].pid == id;
                assert(r@[k] == id);
            }
        }
        r
    }
}

/// A notification the policy asks the outer layer to raise for one poll.
#[derive(Clone, Copy, PartialEq, Eq, Structural, Debug)]
pub enum NotifyEvent {
    BatteryLow(i32),
    BatteryFull,
}

/// The notification policy, as a mathematical function of one record.
///
/// No notification before the first successful reading; battery-low while
/// discharging at or below the critical level (every poll) or on the poll
/// that crosses the low threshold from above; battery-full on the poll
/// that first reaches 100 while charging. The two branches are mutually
/// exclusive: battery-full is only considered when battery-low declined.
pub open spec fn spec_check_notify(d: MemoryDevice) -> Option<NotifyEvent> {
    if d.battery_level == -1 {
        None
    } else if !d.is_charging && (d.battery_level <= BATTERY_CRITICAL_LEVEL || (
    d.old_battery_level > BATTERY_LOW_LEVEL && d.battery_level <= BATTERY_LOW_LEVEL)) {
        Some(NotifyEvent::BatteryLow(d.battery_level))
    } else if d.old_battery_level <= 99 && d.battery_level == 100 && d.is_charging {
        Some(NotifyEvent::BatteryFull)
    } else {
        None
    }
}

/// Decide the zero-or-one notification owed for the current state of `d`.
pub fn check_notify(d: &MemoryDevice) -> (r: Option<NotifyEvent>)
    ensures
        r == spec_check_notify(*d),
{
    if d.battery_level == -1 {
        None
    } else if !d.is_charging && (d.battery_level <= BATTERY_CRITICAL_LEVEL || (
    d.old_battery_level > BATTERY_LOW_LEVEL && d.battery_level <= BATTERY_LOW_LEVEL)) {
        Some(NotifyEvent::BatteryLow(d.battery_level))
    } else if d.old_battery_level <= 99 && d.battery_level == 100 && d.is_charging {
        Some(NotifyEvent::BatteryFull)
    } else {
        None
    }
}

/// The icon variant shown for one (battery level, charging) pair.
#[derive(Clone, Copy, PartialEq, Eq, Structural, Debug)]
pub enum IconVariant {
    Critical,
    Low,
    Normal,
}

/// Three-tier icon choice: critical, then low, both only while
/// discharging; everything else shows the normal icon.
pub open spec fn spec_battery_icon(level: i32, charging: bool) -> IconVariant {
    if level <= BATTERY_CRITICAL_LEVEL && !charging {
        IconVariant::Critical
    } else if level <= BATTERY_LOW_LEVEL && !charging {
        IconVariant::Low
    } else {
        IconVariant::Normal
    }
}

/// Pick the icon variant for a reading.
pub fn get_battery_icon(battery_level: i32, is_charging: bool) -> (r: IconVariant)
    ensures
        r == spec_battery_icon(battery_level, is_charging),
{
    if battery_level <= BATTERY_CRITICAL_LEVEL && !is_charging {
        IconVariant::Critical
    } else if battery_level <= BATTERY_LOW_LEVEL && !is_charging {
        IconVariant::Low
    } else {
        IconVariant::Normal
    }
}

/// Everything the consumer loop owes the outer sinks after one
/// successful poll of one device.
pub struct PollOutcome {
    /// Display name of the polled device, for notification and tooltip
    /// text.
    pub name: String,
    /// The level just read, for tooltip text; the tooltip is rewritten
    /// on every successful poll.
    pub level: i32,
    /// The zero-or-one notification the policy fired for this poll.
    pub notification: Option<NotifyEvent>,
    /// The icon for the reading just taken.
    pub icon: IconVariant,
    /// Whether the icon sink must be invoked: exactly when level or
    /// charging flag differ from the previous successful poll.
    pub icon_changed: bool,
}

/// Law: the policy stays silent until the first successful reading.
pub proof fn lemma_no_notification_before_first_poll(d: MemoryDevice)
    requires
        d.battery_level == -1,
    ensures
        spec_check_notify(d) is None,
{
}

/// Law: the critical tier is level-triggered. Every discharging reading
/// at or below the critical level fires battery-low with that level,
/// whatever the previous reading was.
pub proof fn lemma_critical_level_trigger(d: MemoryDevice)
    requires
        !d.is_charging,
        0 <= d.battery_level <= BATTERY_CRITICAL_LEVEL,
    ensures
        spec_check_notify(d) == Some(NotifyEvent::BatteryLow(d.battery_level)),
{
}

/// Law: the low tier is edge-triggered. For a discharging reading
/// strictly between the critical and low thresholds, battery-low fires
/// exactly when the previous reading was above the low threshold; a
/// repeat at or below the threshold stays silent.
pub proof fn lemma_low_edge_trigger(d: MemoryDevice)
    requires
        !d.is_charging,
        BATTERY_CRITICAL_LEVEL < d.battery_level <= BATTERY_LOW_LEVEL,
    ensures
        spec_check_notify(d) == if d.old_battery_level > BATTERY_LOW_LEVEL {
            Some(NotifyEvent::BatteryLow(d.battery_level))
        } else {
            None::<NotifyEvent>
        },
{
}

/// Law: battery-full is edge-triggered at 100 while charging: it fires
/// exactly when the previous reading had not yet reached 100.
pub proof fn lemma_full_charge_edge(d: MemoryDevice)
    requires
        d.is_charging,
        d.battery_level == 100,
    ensures
        spec_check_notify(d) == if d.old_battery_level <= 99 {
            Some(NotifyEvent::BatteryFull)
        } else {
            None::<NotifyEvent>
        },
{
}

/// Law: while charging, no reading short of 100 raises anything.
pub proof fn lemma_charging_below_full_silent(d: MemoryDevice)
    requires
        d.is_charging,
        d.battery_level != 100,
    ensures
        spec_check_notify(d) is None,
{
}

/// Law: reaching 100 while discharging never fires battery-full.
pub proof fn lemma_full_needs_charging(d: MemoryDevice)
    requires
        !d.is_charging,
        d.battery_level == 100,
    ensures
        spec_check_notify(d) is None,
{
}

/// Seconds between two cadence-forced battery refreshes.
pub const BATTERY_UPDATE_INTERVAL: u64 = 300;

/// Seconds between two enumeration cycles.
pub const DEVICE_FETCH_INTERVAL_SECS: u64 = 5;

/// Enumeration cycles per cadence-forced battery refresh.
pub const REFRESH_PERIOD_CYCLES: u64 = BATTERY_UPDATE_INTERVAL / DEVICE_FETCH_INTERVAL_SECS;

/// Do two id lists cover the same set of ids?
fn same_id_set(a: &Vec<u32>, b: &Vec<u32>) -> (r: bool)
    ensures
        r == (forall|id: u32| a@.contains(id) == b@.contains(id)),
{
    let mut i: usize = 0;
    while i < a.len()
        invariant
            0 <= i <= a.len(),
            forall|k: int| 0 <= k < i ==> b@.contains(#[trigger] a@[k]),
        decreases a.len() - i,
    {
        let x = a[i];
        if !contains_id(b, x) {
            assert(a@.contains(x)) by {
                assert(a@[i as int] == x);
            }
            return false;
        }
        i = i + 1;
    }
    let mut j: usize = 0;
    while j < b.len()
        invariant
            0 <= j <= b.len(),
            forall|k: int| 0 <= k < a@.len() ==> b@.contains(#[trigger] a@[k]),
            forall|k: int| 0 <= k < j ==> a@.contains(#[trigger] b@[k]),
        decreases b.len() - j,
    {
        let x = b[j];
        if !contains_id(a, x) {
            assert(b@.contains(x)) by {
                assert(b@[j as int] == x);
            }
            return false;
        }
        j = j + 1;
    }
    assert forall|id: u32| a@.contains(id) == b@.contains(id) by {
        if a@.contains(id) {
            let k = choose|k: int| 0 <= k < a@.len() && a@[k] == id;
            assert(b@.contains(a@[k]));
        }
        if b@.contains(id) {
            let k = choose|k: int| 0 <= k < b@.len() && b@[k] == id;
            assert(a@.contains(b@[k]));
        }
    }
    true
}

/// Copy an id list.
fn copy_ids(v: &Vec<u32>) -> (r: Vec<u32>)
    ensures
        r@ == v@,
{
    let mut r: Vec<u32> = Vec::new();
    let mut i: usize = 0;
    while i < v.len()
        invariant
            0 <= i <= v.len(),
            r@ =~= v@.take(i as int),
        decreases v.len() - i,
    {
        r.push(v[i]);
        i = i + 1;
    }
    assert(v@.take(v@.len() as int) =~= v@);
    r
}

/// Decision state of the background polling loop: the previous cycle's
/// diff, to detect changes worth dispatching, and the cadence counter.
pub struct PollingScheduler {
    pub last_added: Vec<u32>,
    pub last_removed: Vec<u32>,
    pub counter: u64,
}

impl PollingScheduler {
    /// The cadence counter always counts within one refresh period.
    pub open spec fn wf(self) -> bool {
        self.counter < REFRESH_PERIOD_CYCLES
    }

    pub fn new() -> (r: Self)
        ensures
            r.wf(),
            r.counter == 0,
            r.last_added@ == Seq::<u32>::empty(),
            r.last_removed@ == Seq::<u32>::empty(),
    {
        Self { last_added: Vec::new(), last_removed: Vec::new(), counter: 0 }
    }
}

/// A refresh event is due when this cycle's diff covers a different id
/// set than the previous cycle's, or when the cadence counter has
/// completed a full period.
pub open spec fn spec_dispatch_due(
    sched: PollingScheduler,
    removed: Seq<u32>,
    added: Seq<u32>,
) -> bool {
    ||| !(forall|id: u32| added.contains(id) == sched.last_added@.contains(id))
    ||| !(forall|id: u32| removed.contains(id) == sched.last_removed@.contains(id))
    ||| sched.counter == 0
}

/// The disconnect announcements owed for one cycle: the recorded name
/// of each removed id that had a record, in removal order.
pub open spec fn names_of_removed(t0: Seq<MemoryDevice>, rm: Seq<u32>) -> Seq<String>
    decreases rm.len(),
{
    if rm.len() == 0 {
        Seq::empty()
    } else {
        let rest = names_of_removed(t0, rm.drop_last());
        if tracker_has(t0, rm.last()) {
            rest.push(record_of(t0, rm.last()).name)
        } else {
            rest
        }
    }
}

/// The connect announcements owed for one cycle: the scan name of each
/// added id that had no record yet, in addition order.
pub open spec fn names_of_added(
    t0: Seq<MemoryDevice>,
    scan: Seq<ConnectedDevice>,
    add: Seq<u32>,
) -> Seq<String>
    decreases add.len(),
{
    if add.len() == 0 {
        Seq::empty()
    } else {
        let rest = names_of_added(t0, scan, add.drop_last());
        if !tracker_has(t0, add.last()) && spec_device_name(scan, add.last()) is Some {
            rest.push(spec_device_name(scan, add.last()).unwrap())
        } else {
            rest
        }
    }
}

/// Everything one scheduler cycle asks the outer layer to do.
pub struct CycleOutput {
    /// Ids that vanished since the previous pass, each once.
    pub removed_ids: Vec<u32>,
    /// Ids new since the previous pass, each once.
    pub added_ids: Vec<u32>,
    /// One disconnect announcement per removed id that had a record.
    pub removed_names: Vec<String>,
    /// One connect announcement per added id that had no record.
    pub added_names: Vec<String>,
    /// When a refresh is due, the full current id set to re-poll.
    pub dispatch: Option<Vec<u32>>,
}

/// One cycle of the polling scheduler, minus the bus walk itself:
/// replace the registry with the fresh scan, apply removals before
/// additions so a vanish-and-reappear is rebuilt rather than updated in
/// place, collect the announcements owed, and decide whether a refresh
/// event is due. The cadence counter advances modulo the refresh period
/// every cycle, dispatch or not.
#[verifier::spinoff_prover]
#[verifier::rlimit(40)]
pub fn run_cycle(
    registry: &mut DeviceRegistry,
    tracker: &mut BatteryStateTracker,
    sched: &mut PollingScheduler,
    scan: Vec<ConnectedDevice>,
) -> (out: CycleOutput)
    requires
        old(tracker).wf(),
        old(sched).wf(),
    ensures
        final(tracker).wf(),
        final(sched).wf(),
        final(registry).devices@ == scan@,
        forall|id: u32|
            #[trigger] out.removed_ids@.contains(id) <==> in_diff(
                ids_of(old(registry).devices@),
                ids_of(scan@),
                id,
            ),
        forall|id: u32|
            #[trigger] out.added_ids@.contains(id) <==> in_diff(
                ids_of(scan@),
                ids_of(old(registry).devices@),
                id,
            ),
        out.removed_ids@.no_duplicates(),
        out.added_ids@.no_duplicates(),
        forall|id: u32|
            tracker_has(final(tracker).devices@, id) <==> ((tracker_has(old(tracker).devices@, id)
                && !out.removed_ids@.contains(id)) || out.added_ids@.contains(id)),
        forall|id: u32|
            tracker_has(old(tracker).devices@, id) && !out.removed_ids@.contains(id) ==> record_of(
                final(tracker).devices@,
                id,
            ) == record_of(old(tracker).devices@, id),
        forall|id: u32|
            out.added_ids@.contains(id) && !tracker_has(old(tracker).devices@, id) ==> record_of(
                final(tracker).devices@,
                id,
            ) == fresh_record(spec_device_name(scan@, id).unwrap(), id),
        out.removed_names@ == names_of_removed(old(tracker).devices@, out.removed_ids@),
        out.added_names@ == names_of_added(old(tracker).devices@, scan@, out.added_ids@),
        (out.dispatch is Some) == spec_dispatch_due(*old(sched), out.removed_ids@, out.added_ids@),
        match out.dispatch {
            Some(ids) => ids@.no_duplicates() && forall|id: u32|
                #[trigger] ids@.contains(id) == tracker_has(final(tracker).devices@, id),
            None => true,
        },
        final(sched).last_added@ == out.added_ids@,
        final(sched).last_removed@ == out.removed_ids@,
        final(sched).counter == (old(sched).counter + 1) % (REFRESH_PERIOD_CYCLES as int),
{
    let ghost a_seq = ids_of(registry.devices@);
    let ghost scan_v = scan@;
    let ghost t0 = tracker.devices@;
    let (removed_ids, added_ids) = registry.fetch_devices(scan);
    let ghost r_ids = removed_ids@;
    let ghost ad_ids = added_ids@;

    // Removals first.
    let mut removed_names: Vec<String> = Vec::new();
    let mut i: usize = 0;
    proof {
        assert(r_ids.take(0) =~= Seq::<u32>::empty());
    }
    while i < removed_ids.len()
        invariant
            0 <= i <= removed_ids.len(),
            r_ids == removed_ids@,
            r_ids.no_duplicates(),
            tracker.wf(),
            removed_names@ == names_of_removed(t0, r_ids.take(i as int)),
            forall|id: u32|
                tracker_has(tracker.devices@, id) <==> (tracker_has(t0, id) && !r_ids.take(
                    i as int,
                ).contains(id)),
            forall|id: u32|
                tracker_has(tracker.devices@, id) ==> record_of(tracker.devices@, id) == record_of(
                    t0,
                    id,
                ),
        decreases removed_ids.len() - i,
    {
        let id = removed_ids[i];
        proof {
            broadcast use vstd::seq_lib::lemma_seq_contains_after_push;

            assert(r_ids.take(i + 1) =~= r_ids.take(i as int).push(id));
            assert(r_ids.take(i + 1).drop_last() =~= r_ids.take(i as int));
            assert(!r_ids.take(i as int).contains(id)) by {
                if r_ids.take(i as int).contains(id) {
                    let k = choose|k: int| 0 <= k < i && r_ids.take(i as int)[k] == id;
                    assert(r_ids[k] == id);
                    assert(r_ids[i as int] == id);
                }
            }
        }
        let ghost pre = tracker.devices@;
        match tracker.on_removed(id) {
            Some(name) => {
                removed_names.push(name);
            },
            None => {},
        }
        proof {
            broadcast use vstd::seq_lib::lemma_seq_contains_after_push;

            assert(removed_names@ == names_of_removed(t0, r_ids.take(i + 1)));
            assert forall|id2: u32|
                tracker_has(tracker.devices@, id2) <==> (tracker_has(t0, id2) && !r_ids.take(
                    i + 1,
                ).contains(id2)) by {
                if id2 != id {
                    assert(tracker_has(tracker.devices@, id2) == tracker_has(pre, id2));
                    assert(r_ids.take(i + 1).contains(id2) == r_ids.take(i as int).contains(id2));
                } else {
                    assert(r_ids.take(i + 1).contains(id));
                }
            }
        }
        i = i + 1;
    }
    proof {
        assert(r_ids.take(i as int) =~= r_ids);
        assert forall|id: u32|
            tracker_has(tracker.devices@, id) <==> (tracker_has(t0, id) && !r_ids.contains(
                id,
            )) by {
            assert(tracker_has(tracker.devices@, id) <==> (tracker_has(t0, id) && !r_ids.take(
                i as int,
            ).contains(id)));
        }
    }

    // Then additions.
    let ghost t1 = tracker.devices@;
    let mut added_names: Vec<String> = Vec::new();
    let mut j: usize = 0;
    proof {
        assert(ad_ids.take(0) =~= Seq::<u32>::empty());
    }
    while j < added_ids.len()
        invariant
            0 <= j <= added_ids.len(),
            ad_ids == added_ids@,
            ad_ids.no_duplicates(),
            registry.devices@ == scan_v,
            tracker.wf(),
            forall|id: u32| #[trigger]
                ad_ids.contains(id) <==> in_diff(ids_of(scan_v), a_seq, id),
            forall|id: u32| #[trigger]
                r_ids.contains(id) <==> in_diff(a_seq, ids_of(scan_v), id),
            forall|id: u32|
                tracker_has(t1, id) <==> (tracker_has(t0, id) && !r_ids.contains(id)),
            forall|id: u32|
                tracker_has(t1, id) ==> record_of(t1, id) == record_of(t0, id),
            added_names@ == names_of_added(t0, scan_v, ad_ids.take(j as int)),
            forall|id: u32|
                tracker_has(tracker.devices@, id) <==> (tracker_has(t1, id) || ad_ids.take(
                    j as int,
                ).contains(id)),
            forall|id: u32|
                tracker_has(t1, id) ==> record_of(tracker.devices@, id) == record_of(t1, id),
            forall|id: u32|
                ad_ids.take(j as int).contains(id) && !tracker_has(t1, id) ==> record_of(
                    tracker.devices@,
                    id,
                ) == fresh_record(spec_device_name(scan_v, id).unwrap(), id),
        decreases added_ids.len() - j,
    {
        let id = added_ids[j];
        proof {
            broadcast use vstd::seq_lib::lemma_seq_contains_after_push;

            assert(ad_ids.take(j + 1) =~= ad_ids.take(j as int).push(id));
            assert(ad_ids.take(j + 1).drop_last() =~= ad_ids.take(j as int));
            assert(!ad_ids.take(j as int).contains(id)) by {
                if ad_ids.take(j as int).contains(id) {
                    let k = choose|k: int| 0 <= k < j && ad_ids.take(j as int)[k] == id;
                    assert(ad_ids[k] == id);
                    assert(ad_ids[j as int] == id);
                }
            }
            assert(ad_ids.contains(id)) by {
                assert(ad_ids[j as int] == id);
            }
            assert(!r_ids.contains(id));
            assert(tracker_has(t1, id) == tracker_has(t0, id));
            lemma_device_name_some(scan_v, id);
        }
        let ghost pre = tracker.devices@;
        let ghost names_pre = added_names@;
        if !tracker.has(id) {
            match registry.get_device_name(id) {
                Some(name) => {
                    added_names.push(name.clone());
                    tracker.on_added(id, name);
                },
                None => {
                    assert(false);
                },
            }
        }
        proof {
            broadcast use vstd::seq_lib::lemma_seq_contains_after_push;

            assert(tracker_has(tracker.devices@, id));
            assert(tracker_has(pre, id) == (tracker_has(t1, id) || ad_ids.take(
                j as int,
            ).contains(id)));
            assert(tracker_has(pre, id) == tracker_has(t0, id));
            if tracker_has(t0, id) {
                assert(added_names@ == names_pre);
            } else {
                assert(spec_device_name(scan_v, id) is Some);
                assert(added_names@ == names_pre.push(spec_device_name(scan_v, id).unwrap()));
            }
            assert(added_names@ == names_of_added(t0, scan_v, ad_ids.take(j + 1)));
            assert forall|id2: u32|
                tracker_has(tracker.devices@, id2) <==> (tracker_has(t1, id2) || ad_ids.take(
                    j + 1,
                ).contains(id2)) by {
                assert(tracker_has(pre, id2) == (tracker_has(t1, id2) || ad_ids.take(
                    j as int,
                ).contains(id2)));
                if id2 == id {
                    assert(tracker_has(tracker.devices@, id));
                    assert(ad_ids.take(j + 1).contains(id));
                } else {
                    assert(tracker_has(tracker.devices@, id2) == tracker_has(pre, id2));
                    assert(ad_ids.take(j + 1).contains(id2) == ad_ids.take(j as int).contains(
                        id2,
                    ));
                }
            }
        }
        j = j + 1;
    }
    proof {
        assert(ad_ids.take(j as int) =~= ad_ids);
        assert forall|id: u32|
            tracker_has(tracker.devices@, id) <==> ((tracker_has(t0, id) && !r_ids.contains(id))
                || ad_ids.contains(id)) by {
            assert(tracker_has(tracker.devices@, id) <==> (tracker_has(t1, id) || ad_ids.take(
                j as int,
            ).contains(id)));
            assert(tracker_has(t1, id) <==> (tracker_has(t0, id) && !r_ids.contains(id)));
        }
        assert forall|id: u32|
            tracker_has(t0, id) && !r_ids.contains(id) implies record_of(tracker.devices@, id)
            == record_of(t0, id) by {
            assert(tracker_has(t1, id));
            assert(record_of(tracker.devices@, id) == record_of(t1, id));
            assert(record_of(t1, id) == record_of(t0, id));
        }
        assert forall|id: u32|
            ad_ids.contains(id) && !tracker_has(t0, id) implies record_of(tracker.devices@, id)
            == fresh_record(spec_device_name(scan_v, id).unwrap(), id) by {
            assert(!tracker_has(t1, id));
            assert(ad_ids.take(j as int).contains(id));
        }
    }

    // Decide whether a refresh event is due, then advance the cadence.
    let changed = !same_id_set(&added_ids, &sched.last_added) || !same_id_set(
        &removed_ids,
        &sched.last_removed,
    );
    let due = changed || sched.counter == 0;
    let dispatch = if due {
        Some(tracker.ids())
    } else {
        None
    };
    sched.last_added = copy_ids(&added_ids);
    sched.last_removed = copy_ids(&removed_ids);
    sched.counter = (sched.counter + 1) % REFRESH_PERIOD_CYCLES;

    CycleOutput { removed_ids, added_ids, removed_names, added_names, dispatch }
}

} // verus!
