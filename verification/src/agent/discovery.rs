//! Discovering the USB devices on this node: which of them are published, under which names, and
//! which were unplugged.

use vstd::prelude::*;

use super::pattern::{is_published, pattern_views, published};
use super::{AgentConfig, DevicePattern};
use crate::crd::{DevicePhase, UsbDevice};
use crate::identity::assign::{
    assigned, decision_views, instance_of, AssignmentView, DecisionView, Decisions, InstanceKeyView,
};
use crate::identity::context::{
    assignment_views, law_names_depend_on_the_context, same_device,
};
use crate::identity::fingerprint::fingerprint_of;
use crate::identity::laws::law_every_device_is_decided;
use crate::identity::{
    assign, AssignContext, Assignment, Decision, Fingerprint, IdentitySource, InstanceKey,
    KnownDevice,
};
use crate::sysfs::{InfoView, UsbDeviceInfo};
use crate::table::{key_set, keys_of, lemma_key_set_push, lemma_map_of_dom, Table, TableKey};
use crate::text::{opt_is, text_eq};
use crate::util::Timestamp;

verus! {

/// Rescan interval while an identity is waiting to be released by another node, in seconds.
pub const DEFERRED_RESCAN_SECS: u64 = 3;

/// Seconds to wait before the next scan, unless a device event comes first.
pub fn rescan_secs(deferred: bool, scan_interval_secs: u64) -> (secs: u64)
    ensures
        secs == (if deferred && DEFERRED_RESCAN_SECS < scan_interval_secs {
            DEFERRED_RESCAN_SECS
        } else {
            scan_interval_secs
        }),
{
    if deferred && DEFERRED_RESCAN_SECS < scan_interval_secs {
        DEFERRED_RESCAN_SECS
    } else {
        scan_interval_secs
    }
}

/// A device that is plugged into this node and published.
pub struct LocalDevice {
    pub info: UsbDeviceInfo,
    pub source: IdentitySource,
}

/// What a [`LocalDevice`] holds.
pub struct LocalView {
    pub info: InfoView,
    pub source: IdentitySource,
}

impl View for LocalDevice {
    type V = LocalView;

    open spec fn view(&self) -> LocalView {
        LocalView { info: self.info@, source: self.source }
    }
}

/// What local devices by name hold.
pub open spec fn local_views(m: Map<Seq<char>, LocalDevice>) -> Map<Seq<char>, LocalView> {
    m.map_values(|d: LocalDevice| d@)
}

/// A device whose name is still held by another node.
pub struct WaitingDevice {
    pub key: InstanceKey,
    pub name: String,
    pub held_by: String,
}

/// What a [`WaitingDevice`] holds.
pub struct WaitingView {
    pub key: InstanceKeyView,
    pub name: Seq<char>,
    pub held_by: Seq<char>,
}

impl View for WaitingDevice {
    type V = WaitingView;

    open spec fn view(&self) -> WaitingView {
        WaitingView { key: self.key@, name: self.name@, held_by: self.held_by@ }
    }
}

/// What a list of waiting devices holds.
pub open spec fn waiting_views(list: Seq<WaitingDevice>) -> Seq<WaitingView> {
    list.map_values(|w: WaitingDevice| w@)
}

/// What a scan found.
pub struct ScanResult {
    /// Published devices by their names.
    pub local: Table<String, LocalDevice>,
    /// Devices that wait for another node to release their names.
    pub waiting: Vec<WaitingDevice>,
}

/// What the kernel says about the devices of a node, by their names.
pub open spec fn plugged_infos(local: Map<Seq<char>, LocalView>) -> Map<Seq<char>, InfoView> {
    local.map_values(|d: LocalView| d.info)
}

/// Whether some devices are among others under the same names, and the kernel says the same about
/// them.
pub open spec fn is_among(a: Map<Seq<char>, LocalView>, b: Map<Seq<char>, LocalView>) -> bool {
    forall|name: Seq<char>| #[trigger]
        a.contains_key(name) ==> b.contains_key(name) && a[name].info == b[name].info
}

/// Whether some devices are among others under the same names, and the kernel says the same about
/// them.
fn includes(a: &Table<String, LocalDevice>, b: &Table<String, LocalDevice>) -> (r: bool)
    ensures
        r == is_among(local_views(a@), local_views(b@)),
{
    let ghost (x, y) = (local_views(a@), local_views(b@));
    let ghost keys = keys_of(a.items());
    let n = a.len();
    for i in 0..n
        invariant
            n == a.items().len(),
            keys == keys_of(a.items()),
            x == local_views(a@),
            y == local_views(b@),
            forall|j: int|
                0 <= j < i ==> y.contains_key(#[trigger] keys[j]) && x[keys[j]].info
                    == y[keys[j]].info,
    {
        let (name, device) = a.entry(i);
        assert(keys[i as int] == name@);
        assert(x.contains_key(name@) && x[name@] == device@);
        let same = match b.get(name) {
            Some(other) => device.info.same(&other.info),
            None => false,
        };
        if !same {
            return false;
        }
    }
    proof {
        a.lemma_items();
        lemma_map_of_dom(a.items());
        assert forall|name: Seq<char>| #[trigger] x.contains_key(name) implies y.contains_key(name)
            && x[name].info == y[name].info by {
            assert(keys.contains(name));
            let j = choose|j: int| 0 <= j < keys.len() && keys[j] == name;
            assert(y.contains_key(keys[j]));
        }
    }
    true
}

/// Whether the same devices are plugged in under the same names.
pub fn same_devices(a: &Table<String, LocalDevice>, b: &Table<String, LocalDevice>) -> (same: bool)
    ensures
        same == (plugged_infos(local_views(a@)) == plugged_infos(local_views(b@))),
{
    let ghost (x, y) = (plugged_infos(local_views(a@)), plugged_infos(local_views(b@)));
    let same = includes(a, b) && includes(b, a);
    proof {
        if same {
            assert(x =~= y);
        } else if x == y {
            assert forall|name: Seq<char>| #[trigger]
                local_views(a@).contains_key(name) == local_views(b@).contains_key(name) && (
                local_views(a@).contains_key(name) ==> local_views(a@)[name].info == local_views(
                    b@,
                )[name].info) by {
                assert(x.contains_key(name) == y.contains_key(name));
                if x.contains_key(name) {
                    assert(x[name] == y[name]);
                }
            }
        }
    }
    same
}

/// What is remembered from scan to scan.
pub struct Discovery {
    sticky: Table<InstanceKey, Assignment>,
    first_seen: Table<InstanceKey, u128>,
}

/// What a [`Discovery`] holds.
#[verifier::ext_equal]
pub struct DiscoveryView {
    /// The names of the devices that are plugged in.
    pub sticky: Map<InstanceKeyView, AssignmentView>,
    /// When each instance was first seen, on a clock that counts nanoseconds.
    pub first_seen: Map<InstanceKeyView, u128>,
}

impl View for Discovery {
    type V = DiscoveryView;

    closed spec fn view(&self) -> DiscoveryView {
        DiscoveryView { sticky: assignment_views(self.sticky@), first_seen: self.first_seen@ }
    }
}

/// The devices that are published.
pub fn published_devices(
    devices: Vec<UsbDeviceInfo>,
    include_hubs: bool,
    ignore: &[DevicePattern],
) -> (kept: Vec<UsbDeviceInfo>)
    ensures
        kept@ == devices@.filter(
            |d: UsbDeviceInfo| published(d, include_hubs, pattern_views(ignore@)),
        ),
{
    let ghost all = devices@;
    let ghost wanted = |d: UsbDeviceInfo| published(d, include_hubs, pattern_views(ignore@));
    let mut devices = devices;
    let mut kept: Vec<UsbDeviceInfo> = Vec::new();
    let ghost mut n: int = 0;
    assert(all.skip(0) =~= all);
    assert(all.take(0).filter(wanted) =~= Seq::empty()) by {
        reveal(Seq::filter);
    }
    while devices.len() > 0
        invariant
            0 <= n <= all.len(),
            devices@ == all.skip(n),
            wanted == (|d: UsbDeviceInfo| published(d, include_hubs, pattern_views(ignore@))),
            kept@ == all.take(n).filter(wanted),
        decreases devices.len(),
    {
        let d = devices.remove(0);
        assert(all.take(n + 1).drop_last() =~= all.take(n));
        assert(all.take(n + 1).last() == d);
        assert(all.take(n + 1).filter(wanted) == if wanted(d) {
            all.take(n).filter(wanted).push(d)
        } else {
            all.take(n).filter(wanted)
        }) by {
            reveal(Seq::filter);
        }
        if is_published(&d, include_hubs, ignore) {
            kept.push(d);
        }
        proof {
            assert(devices@ =~= all.skip(n + 1));
            n = n + 1;
        }
    }
    assert(all.take(n) =~= all);
    kept
}

/// The devices that a node publishes, among those that a scan found: hubs only if they are included,
/// and none that is ignored.
pub open spec fn to_publish(config: AgentConfig, found: Seq<UsbDeviceInfo>) -> Seq<
    UsbDeviceInfo,
> {
    found.filter(
        |d: UsbDeviceInfo| published(d, config.include_hubs, pattern_views(config.ignore@)),
    )
}

/// The fingerprint of the last device that is a given instance.
pub open spec fn plugged_print(devices: Seq<UsbDeviceInfo>, key: InstanceKeyView) -> Option<
    Fingerprint,
>
    decreases devices.len(),
{
    if devices.len() == 0 {
        None
    } else if instance_of(devices.last())@ == key {
        Some(fingerprint_of(devices.last()))
    } else {
        plugged_print(devices.drop_last(), key)
    }
}

/// The fingerprint of the last device that is a given instance.
fn find_print(devices: &[UsbDeviceInfo], key: &InstanceKey) -> (fp: Option<Fingerprint>)
    ensures
        fp == plugged_print(devices@, key@),
{
    let mut i: usize = devices.len();
    assert(devices@.take(i as int) =~= devices@);
    while i > 0
        invariant
            i <= devices@.len(),
            plugged_print(devices@, key@) == plugged_print(devices@.take(i as int), key@),
        decreases i,
    {
        assert(devices@.take(i as int).drop_last() =~= devices@.take(i - 1));
        let d = &devices[i - 1];
        assert(devices@.take(i as int).last() == *d);
        let other = InstanceKey::from(d);
        if other.same_key(key) {
            return Some(Fingerprint::from(d));
        }
        i -= 1;
    }
    None
}

/// The last object with a name.
pub open spec fn object_named(objects: Seq<UsbDevice>, name: Seq<char>) -> Option<UsbDevice>
    decreases objects.len(),
{
    if objects.len() == 0 {
        None
    } else if objects.last().metadata.any_name() == name {
        Some(objects.last())
    } else {
        object_named(objects.drop_last(), name)
    }
}

/// The last object with a name.
pub fn find_object<'a>(objects: &'a [UsbDevice], name: &str) -> (object: Option<&'a UsbDevice>)
    ensures
        match object {
            Some(o) => object_named(objects@, name@) == Some(*o),
            None => object_named(objects@, name@) is None,
        },
{
    let mut i: usize = objects.len();
    assert(objects@.take(i as int) =~= objects@);
    while i > 0
        invariant
            i <= objects@.len(),
            object_named(objects@, name@) == object_named(objects@.take(i as int), name@),
        decreases i,
    {
        assert(objects@.take(i as int).drop_last() =~= objects@.take(i - 1));
        let o = &objects[i - 1];
        assert(objects@.take(i as int).last() == *o);
        if text_eq(&o.name_any(), name) {
            return Some(o);
        }
        i -= 1;
    }
    None
}

/// The instance that a device object was last published as by a node that still has it.
pub open spec fn published_instance(object: UsbDevice, node: Seq<char>) -> Option<
    InstanceKeyView,
> {
    let status = object.reported();
    if status.node.deep_view() == Some(node) && status.phase == Some(DevicePhase::Available) {
        match (status.port_path, status.bus_num, status.dev_num) {
            (Some(port_path), Some(bus_num), Some(dev_num)) => Some(
                InstanceKeyView { port_path: port_path@, bus_num, dev_num },
            ),
            _ => None,
        }
    } else {
        None
    }
}

/// Whether a device object says that a node has the device.
pub open spec fn says_present(object: UsbDevice, node: Seq<char>) -> bool {
    let status = object.reported();
    status.node.deep_view() == Some(node) && status.phase == Some(DevicePhase::Available)
}

/// Whether a device object says that a node has the device.
fn is_present(object: &UsbDevice, node: &str) -> (present: bool)
    ensures
        present == says_present(*object, node@),
{
    let status = object.status_ref();
    opt_is(&status.node, node) && match status.phase {
        Some(phase) => phase == DevicePhase::Available,
        None => false,
    }
}

/// The names of the devices after those that a node published earlier were taken up again.
pub open spec fn recovered(
    sticky: Map<InstanceKeyView, AssignmentView>,
    objects: Seq<UsbDevice>,
    node: Seq<char>,
) -> Map<InstanceKeyView, AssignmentView>
    decreases objects.len(),
{
    if objects.len() == 0 {
        sticky
    } else {
        let rest = recovered(sticky, objects.drop_last(), node);
        let last = objects.last();
        match published_instance(last, node) {
            Some(key) => rest.insert(
                key,
                AssignmentView { name: last.metadata.any_name(), source: last.spec.identity },
            ),
            None => rest,
        }
    }
}

/// Whether a name still belongs to the device that is plugged in: the instance is still there, and
/// an object with that name describes the same device.
pub open spec fn still_valid(
    devices: Seq<UsbDeviceInfo>,
    objects: Seq<UsbDevice>,
    key: InstanceKeyView,
    name: Seq<char>,
) -> bool {
    match plugged_print(devices, key) {
        Some(fp) => match object_named(objects, name) {
            Some(object) => object.print().same_as(fp),
            None => true,
        },
        None => false,
    }
}

/// The names that are kept at the start of a scan.
pub open spec fn kept_names(
    sticky: Map<InstanceKeyView, AssignmentView>,
    devices: Seq<UsbDeviceInfo>,
    objects: Seq<UsbDevice>,
) -> Map<InstanceKeyView, AssignmentView> {
    sticky.restrict(
        Set::new(
            |k: InstanceKeyView|
                sticky.contains_key(k) && still_valid(devices, objects, k, sticky[k].name),
        ),
    )
}

/// When each plugged-in instance was first seen.
pub open spec fn seen_since(
    first_seen: Map<InstanceKeyView, u128>,
    devices: Seq<UsbDeviceInfo>,
    clock: u128,
) -> Map<InstanceKeyView, u128> {
    Map::new(
        |k: InstanceKeyView| plugged_print(devices, k) is Some,
        |k: InstanceKeyView|
            if first_seen.contains_key(k) {
                first_seen[k]
            } else {
                clock
            },
    )
}

/// Nanoseconds from a point in time to another, none if it lies before it.
pub open spec fn elapsed(since: u128, clock: u128) -> int {
    if clock >= since {
        clock - since
    } else {
        0
    }
}

/// Whether some nanoseconds are shorter than some seconds.
pub open spec fn shorter(nanos: int, secs: u64) -> bool {
    nanos < secs * 1_000_000_000
}

/// Whether the time since a point in time is shorter than some seconds.
pub fn is_recent(since: u128, clock: u128, secs: u64) -> (recent: bool)
    ensures
        recent == shorter(elapsed(since, clock), secs),
{
    let nanos: u128 = if clock >= since {
        clock - since
    } else {
        0
    };
    nanos < secs as u128 * 1_000_000_000
}

/// The instances that may wait for another node to release their names: those first seen less than
/// some seconds ago.
pub open spec fn young(
    first_seen: Map<InstanceKeyView, u128>,
    clock: u128,
    lost_after_secs: u64,
) -> Set<InstanceKeyView> {
    Set::new(
        |k: InstanceKeyView|
            first_seen.contains_key(k) && shorter(elapsed(first_seen[k], clock), lost_after_secs),
    )
}

/// Whether a known device is what an object says at second `now`.
pub open spec fn known_as(
    known: KnownDevice,
    object: UsbDevice,
    now: int,
    lost_after: int,
) -> bool {
    &&& known.name@ == object.metadata.any_name()
    &&& known.fingerprint == object.print()
    &&& known.present_on.deep_view() == (if object.available_at(now, lost_after) {
        object.reported().node.deep_view()
    } else {
        None
    })
}

/// Whether the known devices are what some objects say at second `now`.
pub open spec fn knows(
    known: Seq<KnownDevice>,
    objects: Seq<UsbDevice>,
    now: int,
    lost_after: int,
) -> bool {
    &&& known.len() == objects.len()
    &&& forall|i: int|
        0 <= i < known.len() ==> known_as(#[trigger] known[i], objects[i], now, lost_after)
}

/// The devices that the cluster knows, according to their objects.
pub fn known_devices(objects: &[UsbDevice], now: Timestamp, lost_after_secs: i64) -> (known: Vec<
    KnownDevice,
>)
    ensures
        knows(known@, objects@, now@, lost_after_secs as int),
{
    let mut known: Vec<KnownDevice> = Vec::new();
    for i in 0..objects.len()
        invariant
            known@.len() == i,
            forall|j: int|
                0 <= j < i ==> known_as(
                    #[trigger] known@[j],
                    objects@[j],
                    now@,
                    lost_after_secs as int,
                ),
    {
        let object = &objects[i];
        let present_on = if object.is_available(now, lost_after_secs) {
            object.status_ref().node.clone()
        } else {
            None
        };
        known.push(
            KnownDevice { name: object.name_any(), fingerprint: object.fingerprint(), present_on },
        );
    }
    known
}

/// What a scan goes by: the earlier names that are kept, what the objects say, and the instances
/// that may wait.
pub open spec fn scan_context(
    ctx: AssignContext<'_>,
    config: AgentConfig,
    names: Map<InstanceKeyView, AssignmentView>,
    objects: Seq<UsbDevice>,
    now: int,
    may_wait: Set<InstanceKeyView>,
) -> bool {
    &&& ctx.node@ == config.node@
    &&& assignment_views(ctx.sticky@) == names
    &&& knows(ctx.known@, objects, now, (config.lost_after_secs as i64) as int)
    &&& key_set(ctx.may_defer@) == may_wait
}

/// A scan decides the same whatever holds what it goes by.
pub proof fn law_scan_is_determined(
    a: AssignContext<'_>,
    b: AssignContext<'_>,
    config: AgentConfig,
    names: Map<InstanceKeyView, AssignmentView>,
    objects: Seq<UsbDevice>,
    now: int,
    may_wait: Set<InstanceKeyView>,
    devices: Seq<UsbDeviceInfo>,
)
    requires
        scan_context(a, config, names, objects, now, may_wait),
        scan_context(b, config, names, objects, now, may_wait),
    ensures
        assigned(a, devices) == assigned(b, devices),
{
    let lost_after = (config.lost_after_secs as i64) as int;
    assert forall|i: int| 0 <= i < a.known@.len() implies same_device(
        #[trigger] a.known@[i],
        #[trigger] b.known@[i],
    ) by {
        assert(known_as(a.known@[i], objects[i], now, lost_after));
        assert(known_as(b.known@[i], objects[i], now, lost_after));
    }
    law_names_depend_on_the_context(a, b, devices);
}

/// Names, published devices and waiting devices after the decisions for the first `n` devices were
/// carried out.
#[verifier::ext_equal]
pub struct Adopted {
    pub sticky: Map<InstanceKeyView, AssignmentView>,
    pub local: Map<Seq<char>, LocalView>,
    pub waiting: Seq<WaitingView>,
}

/// Names, published devices and waiting devices after the decisions for the first `n` devices were
/// carried out.
pub open spec fn adopted(
    sticky: Map<InstanceKeyView, AssignmentView>,
    decisions: Decisions,
    devices: Seq<UsbDeviceInfo>,
    n: int,
) -> Adopted
    decreases n,
{
    if n <= 0 {
        Adopted { sticky, local: Map::empty(), waiting: Seq::empty() }
    } else {
        let p = adopted(sticky, decisions, devices, n - 1);
        let device = devices[n - 1];
        let key = instance_of(device)@;
        match decisions[key] {
            DecisionView::Assigned(a) => Adopted {
                sticky: p.sticky.insert(key, a),
                local: p.local.insert(a.name, LocalView { info: device@, source: a.source }),
                waiting: p.waiting,
            },
            DecisionView::Deferred { name, held_by } => Adopted {
                sticky: p.sticky,
                local: p.local,
                waiting: p.waiting.push(WaitingView { key, name, held_by }),
            },
        }
    }
}

impl Discovery {
    /// Nothing is remembered.
    pub fn new() -> (d: Discovery)
        ensures
            d@ == (DiscoveryView { sticky: Map::empty(), first_seen: Map::empty() }),
    {
        let d = Discovery { sticky: Table::new(), first_seen: Table::new() };
        assert(d@ =~= DiscoveryView { sticky: Map::empty(), first_seen: Map::empty() });
        d
    }

    /// After a restart, re-adopts the names of devices this node published that are still plugged
    /// into the same port with the same device number (i.e. the same enumeration).
    pub fn recover_assignments(&mut self, node: &str, objects: &[UsbDevice])
        ensures
            final(self)@.sticky == recovered(old(self)@.sticky, objects@, node@),
            final(self)@.first_seen == old(self)@.first_seen,
    {
        let ghost before = self@;
        assert(objects@.take(0) =~= Seq::empty());
        for i in 0..objects.len()
            invariant
                before == old(self)@,
                self@.sticky == recovered(before.sticky, objects@.take(i as int), node@),
                self@.first_seen == before.first_seen,
        {
            assert(objects@.take(i + 1).drop_last() =~= objects@.take(i as int));
            assert(objects@.take(i + 1).last() == objects@[i as int]);
            let object = &objects[i];
            let status = object.status_ref();
            if is_present(object, node) {
                match (&status.port_path, status.bus_num, status.dev_num) {
                    (Some(port_path), Some(bus_num), Some(dev_num)) => {
                        let key = InstanceKey { port_path: port_path.clone(), bus_num, dev_num };
                        let a = Assignment {
                            name: object.name_any(),
                            source: object.spec.identity,
                        };
                        self.adopt_name(key, a);
                    },
                    _ => {},
                }
            }
        }
        assert(objects@.take(objects@.len() as int) =~= objects@);
    }

    /// Remembers the name of an instance.
    fn adopt_name(&mut self, key: InstanceKey, assignment: Assignment)
        ensures
            final(self)@.sticky == old(self)@.sticky.insert(key@, assignment@),
            final(self)@.first_seen == old(self)@.first_seen,
    {
        let ghost before = self.sticky@;
        self.sticky.insert(key, assignment);
        assert(assignment_views(self.sticky@) =~= assignment_views(before).insert(
            key@,
            assignment@,
        ));
    }

    /// Forgets the names of instances that disappeared, and recovered ones whose device changed.
    fn keep_names(&mut self, devices: &[UsbDeviceInfo], objects: &[UsbDevice])
        ensures
            final(self)@.sticky == kept_names(old(self)@.sticky, devices@, objects@),
            final(self)@.first_seen == old(self)@.first_seen,
    {
        let ghost before = self.sticky@;
        let ghost views = assignment_views(before);
        let ghost keys = keys_of(self.sticky.items());
        let mut kept: Vec<InstanceKey> = Vec::new();
        let n = self.sticky.len();
        for i in 0..n
            invariant
                n == self.sticky.items().len(),
                before == self.sticky@,
                views == assignment_views(before),
                keys == keys_of(self.sticky.items()),
                forall|k: InstanceKeyView| #[trigger]
                    key_set(kept@).contains(k) <==> keys.take(i as int).contains(k)
                        && still_valid(devices@, objects@, k, views[k].name),
        {
            let (key, assignment) = self.sticky.entry(i);
            assert(views[key@] == assignment@);
            assert(keys.take(i + 1) =~= keys.take(i as int).push(key@));
            proof {
                lemma_contains_push(keys.take(i as int), key@);
            }
            let ghost list = kept@;
            let valid = match find_print(devices, key) {
                Some(fp) => match find_object(objects, &assignment.name) {
                    Some(object) => object.fingerprint().same(&fp),
                    None => true,
                },
                None => false,
            };
            if valid {
                kept.push(key.clone());
                proof {
                    lemma_key_set_push(list, kept@.last());
                    assert(kept@ =~= list.push(kept@.last()));
                }
            }
        }
        proof {
            assert(keys.take(n as int) =~= keys);
            self.sticky.lemma_items();
            lemma_map_of_dom(self.sticky.items());
        }
        self.sticky.retain_keys(kept.as_slice());
        assert(assignment_views(self.sticky@) =~= kept_names(views, devices@, objects@));
    }

    /// Remembers when each plugged-in instance was first seen, and forgets the others.
    fn note_seen(&mut self, devices: &[UsbDeviceInfo], clock: u128)
        ensures
            final(self)@.sticky == old(self)@.sticky,
            final(self)@.first_seen == seen_since(old(self)@.first_seen, devices@, clock),
    {
        let ghost before = self.first_seen@;
        let mut seen: Table<InstanceKey, u128> = Table::new();
        assert(devices@.take(0) =~= Seq::empty());
        assert(seen@ =~= seen_since(before, devices@.take(0), clock));
        for i in 0..devices.len()
            invariant
                before == self.first_seen@,
                self@ == old(self)@,
                before == old(self)@.first_seen,
                seen@ == seen_since(before, devices@.take(i as int), clock),
        {
            assert(devices@.take(i + 1).drop_last() =~= devices@.take(i as int));
            assert(devices@.take(i + 1).last() == devices@[i as int]);
            let key = InstanceKey::from(&devices[i]);
            assert(key@ == instance_of(devices@[i as int])@);
            let ghost earlier = seen@;
            let since: u128 = match self.first_seen.get(&key) {
                Some(since) => *since,
                None => clock,
            };
            seen.insert(key, since);
            assert(seen@ =~= seen_since(before, devices@.take(i + 1), clock));
        }
        assert(devices@.take(devices@.len() as int) =~= devices@);
        self.first_seen = seen;
    }

    /// The instances that may wait for another node to release their names.
    fn young_instances(&self, clock: u128, lost_after_secs: u64) -> (keys: Vec<InstanceKey>)
        ensures
            key_set(keys@) == young(self@.first_seen, clock, lost_after_secs),
    {
        let ghost all = keys_of(self.first_seen.items());
        let mut keys: Vec<InstanceKey> = Vec::new();
        let n = self.first_seen.len();
        for i in 0..n
            invariant
                n == self.first_seen.items().len(),
                all == keys_of(self.first_seen.items()),
                forall|k: InstanceKeyView| #[trigger]
                    key_set(keys@).contains(k) <==> all.take(i as int).contains(k) && shorter(
                        elapsed(self@.first_seen[k], clock),
                        lost_after_secs,
                    ),
        {
            let (key, since) = self.first_seen.entry(i);
            assert(all.take(i + 1) =~= all.take(i as int).push(key@));
            proof {
                lemma_contains_push(all.take(i as int), key@);
            }
            let ghost list = keys@;
            if is_recent(*since, clock, lost_after_secs) {
                keys.push(key.clone());
                proof {
                    lemma_key_set_push(list, keys@.last());
                    assert(keys@ =~= list.push(keys@.last()));
                }
            }
        }
        proof {
            assert(all.take(n as int) =~= all);
            self.first_seen.lemma_items();
            lemma_map_of_dom(self.first_seen.items());
            assert(key_set(keys@) =~= young(self@.first_seen, clock, lost_after_secs));
        }
        keys
    }

    /// Carries out the decisions about the plugged-in devices.
    fn adopt(
        &mut self,
        devices: &[UsbDeviceInfo],
        decisions: &Table<InstanceKey, Decision>,
    ) -> (r: ScanResult)
        requires
            forall|i: int|
                0 <= i < devices@.len() ==> decisions@.contains_key(
                    #[trigger] instance_of(devices@[i])@,
                ),
        ensures
            ({
                let p = adopted(
                    old(self)@.sticky,
                    decision_views(decisions@),
                    devices@,
                    devices@.len() as int,
                );
                &&& final(self)@.sticky == p.sticky
                &&& local_views(r.local@) == p.local
                &&& waiting_views(r.waiting@) == p.waiting
            }),
            final(self)@.first_seen == old(self)@.first_seen,
    {
        let ghost before = self@;
        let ghost views = decision_views(decisions@);
        let mut local: Table<String, LocalDevice> = Table::new();
        let mut waiting: Vec<WaitingDevice> = Vec::new();
        assert(local_views(local@) =~= Map::empty());
        assert(waiting_views(waiting@) =~= Seq::empty());
        for i in 0..devices.len()
            invariant
                before == old(self)@,
                views == decision_views(decisions@),
                forall|j: int|
                    0 <= j < devices@.len() ==> decisions@.contains_key(
                        #[trigger] instance_of(devices@[j])@,
                    ),
                self@.sticky == adopted(before.sticky, views, devices@, i as int).sticky,
                self@.first_seen == before.first_seen,
                local_views(local@) == adopted(before.sticky, views, devices@, i as int).local,
                waiting_views(waiting@) == adopted(
                    before.sticky,
                    views,
                    devices@,
                    i as int,
                ).waiting,
        {
            let device = &devices[i];
            let key = InstanceKey::from(device);
            assert(key@ == instance_of(devices@[i as int])@);
            let ghost earlier = local@;
            let ghost list = waiting@;
            match decisions.get(&key) {
                Some(Decision::Assigned(a)) => {
                    assert(views[key@] == DecisionView::Assigned(a@));
                    self.adopt_name(key, a.clone());
                    let entry = LocalDevice { info: device.clone(), source: a.source };
                    local.insert(a.name.clone(), entry);
                    assert(local_views(local@) =~= local_views(earlier).insert(a.name@, entry@));
                },
                Some(Decision::Deferred { name, held_by }) => {
                    let w = WaitingDevice { key, name: name.clone(), held_by: held_by.clone() };
                    waiting.push(w);
                    assert(waiting_views(waiting@) =~= waiting_views(list).push(w@));
                },
                None => {
                    assert(false);
                },
            }
        }
        ScanResult { local, waiting }
    }

    /// Decides about the devices that a scan found, given the device objects of the cluster. Those
    /// that are not to be published are left out.
    ///
    /// `clock` counts nanoseconds from some point in time.
    pub fn scan_once(
        &mut self,
        config: &AgentConfig,
        found: Vec<UsbDeviceInfo>,
        objects: &[UsbDevice],
        now: Timestamp,
        clock: u128,
    ) -> (r: ScanResult)
        ensures
            ({
                let devices = to_publish(*config, found@);
                let names = kept_names(old(self)@.sticky, devices, objects@);
                let seen = seen_since(old(self)@.first_seen, devices, clock);
                &&& final(self)@.first_seen == seen
                &&& exists|ctx: AssignContext<'static>| #[trigger]
                    scan_context(
                        ctx,
                        *config,
                        names,
                        objects@,
                        now@,
                        young(seen, clock, config.lost_after_secs),
                    ) && ({
                        let p = adopted(
                            names,
                            assigned(ctx, devices),
                            devices,
                            devices.len() as int,
                        );
                        &&& final(self)@.sticky == p.sticky
                        &&& local_views(r.local@) == p.local
                        &&& waiting_views(r.waiting@) == p.waiting
                    })
            }),
    {
        let list = published_devices(found, config.include_hubs, config.ignore.as_slice());
        let devices = list.as_slice();
        self.keep_names(devices, objects);
        self.note_seen(devices, clock);
        let may_defer = self.young_instances(clock, config.lost_after_secs);
        let known = known_devices(objects, now, config.lost_after_secs as i64);
        let ctx = AssignContext {
            node: &config.node,
            sticky: &self.sticky,
            known: known.as_slice(),
            may_defer: may_defer.as_slice(),
        };
        let ghost names = self@.sticky;
        let ghost seen = self@.first_seen;
        assert(scan_context(
            ctx,
            *config,
            names,
            objects@,
            now@,
            young(seen, clock, config.lost_after_secs),
        ));
        let decisions = assign(&ctx, devices);
        proof {
            assert forall|i: int| 0 <= i < devices@.len() implies decisions@.contains_key(
                #[trigger] instance_of(devices@[i])@,
            ) by {
                let key = instance_of(devices@[i])@;
                law_every_device_is_decided(ctx, devices@, key);
                assert(decision_views(decisions@).contains_key(key));
            }
        }
        self.adopt(devices, &decisions)
    }
}

/// The name that a device would get, for display.
pub struct NamePreview {
    pub name: String,
    /// The tier that the name comes from.
    pub identity: String,
    pub hub: bool,
}

/// What is displayed of a decision: the name and the tier.
pub open spec fn preview_of(decision: DecisionView) -> (Seq<char>, Seq<char>) {
    match decision {
        DecisionView::Assigned(a) => (a.name, a.source.name_text()),
        DecisionView::Deferred { name, .. } => (name, "Deferred"@),
    }
}

/// Whether names are decided on a node as if nothing else were known.
pub open spec fn blank_context(ctx: AssignContext<'_>, node: Seq<char>) -> bool {
    &&& ctx.node@ == node
    &&& ctx.sticky@ == Map::<InstanceKeyView, Assignment>::empty()
    &&& ctx.known@.len() == 0
    &&& ctx.may_defer@.len() == 0
}

/// The names that the devices would get on a node if nothing else were known.
pub fn preview_names(node: &str, devices: &[UsbDeviceInfo]) -> (names: Vec<NamePreview>)
    ensures
        names@.len() == devices@.len(),
        exists|ctx: AssignContext<'static>| #[trigger]
            blank_context(ctx, node@) && forall|i: int|
                0 <= i < devices@.len() ==> {
                    let d = assigned(ctx, devices@)[instance_of(devices@[i])@];
                    &&& ((#[trigger] names@[i]).name@, names@[i].identity@) == preview_of(d)
                    &&& names@[i].hub == (devices@[i].device_class == crate::sysfs::CLASS_HUB)
                },
{
    let sticky: Table<InstanceKey, Assignment> = Table::new();
    let known: Vec<KnownDevice> = Vec::new();
    let may_defer: Vec<InstanceKey> = Vec::new();
    let ctx = AssignContext {
        node,
        sticky: &sticky,
        known: known.as_slice(),
        may_defer: may_defer.as_slice(),
    };
    assert(blank_context(ctx, node@));
    let decisions = assign(&ctx, devices);
    let ghost views = decision_views(decisions@);
    let mut names: Vec<NamePreview> = Vec::new();
    for i in 0..devices.len()
        invariant
            views == decision_views(decisions@),
            views == assigned(ctx, devices@),
            names@.len() == i,
            forall|j: int|
                0 <= j < i ==> {
                    let d = views[instance_of(devices@[j])@];
                    &&& ((#[trigger] names@[j]).name@, names@[j].identity@) == preview_of(d)
                    &&& names@[j].hub == (devices@[j].device_class == crate::sysfs::CLASS_HUB)
                },
    {
        let device = &devices[i];
        let key = InstanceKey::from(device);
        proof {
            law_every_device_is_decided(ctx, devices@, instance_of(devices@[i as int])@);
            assert(views.contains_key(key@));
        }
        let hub = device.is_hub();
        match decisions.get(&key) {
            Some(Decision::Assigned(a)) => {
                assert(views[key@] == DecisionView::Assigned(a@));
                names.push(
                    NamePreview {
                        name: a.name.clone(),
                        identity: a.source.name().to_string(),
                        hub,
                    },
                );
            },
            Some(Decision::Deferred { name, .. }) => {
                names.push(
                    NamePreview { name: name.clone(), identity: "Deferred".to_string(), hub },
                );
            },
            None => {
                assert(false);
            },
        }
    }
    names
}

/// One more element.
proof fn lemma_contains_push<T>(list: Seq<T>, x: T)
    ensures
        forall|y: T| #[trigger] list.push(x).contains(y) <==> list.contains(y) || y == x,
{
    let next = list.push(x);
    assert forall|y: T| #[trigger] next.contains(y) <==> list.contains(y) || y == x by {
        if next.contains(y) {
            let i = choose|i: int| 0 <= i < next.len() && next[i] == y;
            if i < list.len() {
                assert(list[i] == y);
            }
        }
        if list.contains(y) {
            let i = choose|i: int| 0 <= i < list.len() && list[i] == y;
            assert(next[i] == y);
        }
        if y == x {
            assert(next[list.len() as int] == y);
        }
    }
}

/// Whether a device object says that a node has the device, but the node does not publish it any
/// more.
pub open spec fn went_away(
    object: UsbDevice,
    node: Seq<char>,
    local: Map<Seq<char>, LocalView>,
) -> bool {
    says_present(object, node) && !local.contains_key(object.metadata.any_name())
}

/// Whether a device object says that a node has the device, but the node does not publish it any
/// more.
pub fn is_unplugged(object: &UsbDevice, node: &str, local: &Table<String, LocalDevice>) -> (gone:
    bool)
    ensures
        gone == went_away(*object, node@, local_views(local@)),
{
    is_present(object, node) && !local.contains_key(&object.name_any())
}

} // verus!
