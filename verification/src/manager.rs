//! Device enumeration support: matching raw bus entries against the
//! static descriptor table, and diffing one enumeration pass against the
//! previous one.

use vstd::prelude::*;

verus! {

/// One row of the compiled-in catalog of known devices. Composite
/// devices may share a product id and differ only in interface or usage,
/// so matching uses every field.
pub struct DeviceDescriptor {
    pub vid: u16,
    pub pid: u16,
    pub interface: u8,
    pub usage_page: u16,
    pub usage: u16,
    pub name: String,
}

/// What one enumeration pass reports about one device on the bus,
/// as plain values.
#[derive(Clone)]
pub struct BusDevice {
    pub vendor_id: u16,
    pub product_id: u16,
    pub interface_number: i32,
    pub usage_page: u16,
    pub usage: u16,
    pub path: String,
}

/// A device that survived matching in one enumeration pass. The whole
/// list is rebuilt on every pass, never mutated in place.
#[derive(Clone)]
pub struct ConnectedDevice {
    pub pid: u16,
    pub name: String,
    pub path: String,
}

/// A bus entry satisfies a descriptor when vendor id, product id and
/// interface number all agree; when `check_usage` holds (platforms whose
/// enumeration exposes usage metadata), usage page and usage must agree
/// as well.
pub open spec fn descriptor_matches(d: DeviceDescriptor, b: BusDevice, check_usage: bool) -> bool {
    &&& d.vid == b.vendor_id
    &&& d.pid == b.product_id
    &&& d.interface as i32 == b.interface_number
    &&& (check_usage ==> d.usage_page == b.usage_page && d.usage == b.usage)
}

/// The first descriptor of `table` that matches `b`, if any.
pub open spec fn match_in_table(
    table: Seq<DeviceDescriptor>,
    b: BusDevice,
    check_usage: bool,
) -> Option<DeviceDescriptor>
    decreases table.len(),
{
    if table.len() == 0 {
        None
    } else if descriptor_matches(table[0], b, check_usage) {
        Some(table[0])
    } else {
        match_in_table(table.skip(1), b, check_usage)
    }
}

/// The connected-device entry built from a descriptor hit.
pub open spec fn spec_connected(d: DeviceDescriptor, b: BusDevice) -> ConnectedDevice {
    ConnectedDevice { pid: d.pid, name: d.name, path: b.path }
}

/// All matches of one enumeration pass, in bus order.
pub open spec fn spec_selected(
    table: Seq<DeviceDescriptor>,
    bus: Seq<BusDevice>,
    check_usage: bool,
) -> Seq<ConnectedDevice>
    decreases bus.len(),
{
    if bus.len() == 0 {
        Seq::empty()
    } else {
        let rest = spec_selected(table, bus.drop_last(), check_usage);
        match match_in_table(table, bus.last(), check_usage) {
            Some(d) => rest.push(spec_connected(d, bus.last())),
            None => rest,
        }
    }
}

/// Find the first descriptor matching `b`, scanning the table in order.
fn find_descriptor<'a>(
    table: &'a Vec<DeviceDescriptor>,
    b: &BusDevice,
    check_usage: bool,
) -> (r: Option<&'a DeviceDescriptor>)
    ensures
        match r {
            Some(d) => match_in_table(table@, *b, check_usage) == Some(*d),
            None => match_in_table(table@, *b, check_usage) is None,
        },
{
    let mut i: usize = 0;
    assert(table@.skip(0) =~= table@);
    while i < table.len()
        invariant
            0 <= i <= table.len(),
            match_in_table(table@, *b, check_usage) == match_in_table(
                table@.skip(i as int),
                *b,
                check_usage,
            ),
        decreases table.len() - i,
    {
        assert(table@.skip(i as int)[0] == table@[i as int]);
        if descriptor_matches_exec(&table[i], b, check_usage) {
            return Some(&table[i]);
        }
        assert(table@.skip(i as int).skip(1) =~= table@.skip(i + 1));
        i = i + 1;
    }
    None
}

/// Decide `descriptor_matches` on concrete values.
fn descriptor_matches_exec(d: &DeviceDescriptor, b: &BusDevice, check_usage: bool) -> (r: bool)
    ensures
        r == descriptor_matches(*d, *b, check_usage),
{
    d.vid == b.vendor_id && d.pid == b.product_id && (d.interface as i32) == b.interface_number
        && (!check_usage || (d.usage_page == b.usage_page && d.usage == b.usage))
}

/// Match a whole enumeration pass against the descriptor table. Bus
/// entries that match no descriptor are skipped; the rest come back in
/// bus order carrying the descriptor's display name and the bus path.
pub fn select_devices(
    table: &Vec<DeviceDescriptor>,
    bus: &Vec<BusDevice>,
    check_usage: bool,
) -> (r: Vec<ConnectedDevice>)
    ensures
        r@ == spec_selected(table@, bus@, check_usage),
{
    let mut r: Vec<ConnectedDevice> = Vec::new();
    let mut i: usize = 0;
    while i < bus.len()
        invariant
            0 <= i <= bus.len(),
            r@ == spec_selected(table@, bus@.take(i as int), check_usage),
        decreases bus.len() - i,
    {
        assert(bus@.take(i + 1).drop_last() =~= bus@.take(i as int));
        assert(bus@.take(i + 1).last() == bus@[i as int]);
        match find_descriptor(table, &bus[i], check_usage) {
            Some(d) => {
                let c = ConnectedDevice {
                    pid: d.pid,
                    name: d.name.clone(),
                    path: bus[i].path.clone(),
                };
                assert(c == spec_connected(*d, bus@[i as int]));
                r.push(c);
            },
            None => {},
        }
        i = i + 1;
    }
    assert(bus@.take(bus@.len() as int) =~= bus@);
    r
}

/// Does the id list contain `x`?
pub(crate) fn contains_id(v: &Vec<u32>, x: u32) -> (r: bool)
    ensures
        r == v@.contains(x),
{
    let mut i: usize = 0;
    while i < v.len()
        invariant
            0 <= i <= v.len(),
            forall|k: int| 0 <= k < i ==> v@[k] != x,
        decreases v.len() - i,
    {
        if v[i] == x {
            assert(v@.contains(x)) by {
                assert(v@[i as int] == x);
            }
            return true;
        }
        i = i + 1;
    }
    false
}

/// Membership in the set difference of two id lists.
pub open spec fn in_diff(a: Seq<u32>, b: Seq<u32>, id: u32) -> bool {
    a.contains(id) && !b.contains(id)
}

/// The ids of `a` that are absent from `b`, each exactly once.
pub fn ids_minus(a: &Vec<u32>, b: &Vec<u32>) -> (r: Vec<u32>)
    ensures
        forall|id: u32| #[trigger] r@.contains(id) <==> in_diff(a@, b@, id),
        r@.no_duplicates(),
{
    let mut r: Vec<u32> = Vec::new();
    let mut i: usize = 0;
    assert(a@.take(0) =~= Seq::<u32>::empty());
    while i < a.len()
        invariant
            0 <= i <= a.len(),
            forall|id: u32|
                #[trigger] r@.contains(id) <==> (a@.take(i as int).contains(id) && !b@.contains(
                id)),
            r@.no_duplicates(),
        decreases a.len() - i,
    {
        let x = a[i];
        let ghost r_before = r@;
        if !contains_id(b, x) && !contains_id(&r, x) {
            r.push(x);
            assert(r@.no_duplicates()) by {
                assert(forall|p: int, q: int|
                    0 <= p < q < r@.len() ==> r@[p] != r@[q]) by {
                    assert forall|p: int, q: int| 0 <= p < q < r@.len() implies r@[p] != r@[q] by {
                        if q == r@.len() - 1 {
                            if r_before[p] == x {
                                assert(r_before.contains(x));
                            }
                        }
                    }
                }
            }
        }
        proof {
            broadcast use vstd::seq_lib::group_seq_properties;

            assert(a@.take(i + 1) =~= a@.take(i as int).push(a@[i as int]));
        }
        i = i + 1;
    }
    assert(a@.take(a@.len() as int) =~= a@);
    r
}

/// The ids of a connected-device list, in list order.
pub open spec fn ids_of(s: Seq<ConnectedDevice>) -> Seq<u32> {
    s.map_values(|c: ConnectedDevice| c.pid as u32)
}

/// Extract the id list of one enumeration pass.
pub fn device_ids(v: &Vec<ConnectedDevice>) -> (r: Vec<u32>)
    ensures
        r@ == ids_of(v@),
{
    let mut r: Vec<u32> = Vec::new();
    let mut i: usize = 0;
    assert(ids_of(v@.take(0)) =~= Seq::<u32>::empty());
    while i < v.len()
        invariant
            0 <= i <= v.len(),
            r@ == ids_of(v@.take(i as int)),
        decreases v.len() - i,
    {
        r.push(v[i].pid as u32);
        assert(r@ =~= ids_of(v@.take(i + 1)));
        i = i + 1;
    }
    assert(v@.take(v@.len() as int) =~= v@);
    r
}

/// The display name recorded for the first entry with this id, if any.
pub open spec fn spec_device_name(s: Seq<ConnectedDevice>, id: u32) -> Option<String>
    decreases s.len(),
{
    if s.len() == 0 {
        None
    } else if s[0].pid as u32 == id {
        Some(s[0].name)
    } else {
        spec_device_name(s.skip(1), id)
    }
}

/// A name is on record exactly for the connected ids.
pub proof fn lemma_device_name_some(s: Seq<ConnectedDevice>, id: u32)
    ensures
        (spec_device_name(s, id) is Some) <==> ids_of(s).contains(id),
    decreases s.len(),
{
    if s.len() == 0 {
    } else if s[0].pid as u32 == id {
        assert(ids_of(s)[0] == id);
    } else {
        lemma_device_name_some(s.skip(1), id);
        if ids_of(s).contains(id) {
            let k = choose|k: int| 0 <= k < ids_of(s).len() && ids_of(s)[k] == id;
            assert(k != 0);
            assert(ids_of(s.skip(1))[k - 1] == (s.skip(1))[k - 1].pid as u32);
            assert((s.skip(1))[k - 1] == s[k]);
            assert(ids_of(s.skip(1)).contains(id)) by {
                assert(ids_of(s.skip(1))[k - 1] == id);
            }
        }
        if ids_of(s.skip(1)).contains(id) {
            let k = choose|k: int| 0 <= k < ids_of(s.skip(1)).len() && ids_of(s.skip(1))[k] == id;
            assert((s.skip(1))[k] == s[k + 1]);
            assert(ids_of(s).contains(id)) by {
                assert(ids_of(s)[k + 1] == id);
            }
        }
    }
}

/// The set of devices currently taken as connected: the result of the
/// last enumeration pass, replaced wholesale by the next one.
pub struct DeviceRegistry {
    pub devices: Vec<ConnectedDevice>,
}

impl DeviceRegistry {
    pub fn new() -> (r: Self)
        ensures
            r.devices@ == Seq::<ConnectedDevice>::empty(),
    {
        Self { devices: Vec::new() }
    }

    /// Replace the device list with the result of a fresh enumeration
    /// pass and report the diff against the previous one: first the ids
    /// that vanished, then the ids that are new. Ids present in both
    /// passes appear in neither list.
    pub fn fetch_devices(&mut self, new_devices: Vec<ConnectedDevice>) -> (r: (Vec<u32>, Vec<u32>))
        ensures
            final(self).devices == new_devices,
            forall|id: u32|
                #[trigger] r.0@.contains(id) <==> in_diff(
                    ids_of(old(self).devices@),
                    ids_of(new_devices@),
                    id,
                ),
            forall|id: u32|
                #[trigger] r.1@.contains(id) <==> in_diff(
                    ids_of(new_devices@),
                    ids_of(old(self).devices@),
                    id,
                ),
            r.0@.no_duplicates(),
            r.1@.no_duplicates(),
    {
        let old_ids = device_ids(&self.devices);
        let new_ids = device_ids(&new_devices);
        let removed = ids_minus(&old_ids, &new_ids);
        let added = ids_minus(&new_ids, &old_ids);
        self.devices = new_devices;
        (removed, added)
    }

    /// Look up the display name of a connected device by id.
    pub fn get_device_name(&self, id: u32) -> (r: Option<String>)
        ensures
            r == spec_device_name(self.devices@, id),
    {
        let mut i: usize = 0;
        assert(self.devices@.skip(0) =~= self.devices@);
        while i < self.devices.len()
            invariant
                0 <= i <= self.devices.len(),
                spec_device_name(self.devices@, id) == spec_device_name(
                    self.devices@.skip(i as int),
                    id,
                ),
            decreases self.devices.len() - i,
        {
            assert(self.devices@.skip(i as int)[0] == self.devices@[i as int]);
            if self.devices[i].pid as u32 == id {
                return Some(self.devices[i].name.clone());
            }
            assert(self.devices@.skip(i as int).skip(1) =~= self.devices@.skip(i + 1));
            i = i + 1;
        }
        None
    }
}

/// Law: the two diff lists partition nothing twice — an id seen in both
/// the old and the new pass belongs to neither difference.
pub proof fn lemma_diff_partition(a: Seq<u32>, b: Seq<u32>, id: u32)
    requires
        a.contains(id),
        b.contains(id),
    ensures
        !in_diff(a, b, id),
        !in_diff(b, a, id),
{
}

/// Law: an unchanged bus yields an empty diff. Any duplicate-free list
/// that covers exactly the ids of `a` minus `a` is the empty list, so
/// both lists of a same-bus diff are empty.
pub proof fn lemma_unchanged_bus(a: Seq<u32>, r: Seq<u32>)
    requires
        forall|id: u32| #[trigger] r.contains(id) <==> in_diff(a, a, id),
    ensures
        r =~= Seq::<u32>::empty(),
{
    if r.len() > 0 {
        assert(r.contains(r[0]));
    }
}

} // verus!
