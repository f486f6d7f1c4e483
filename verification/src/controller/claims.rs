//! Which device each claim holds, and what is written about it.

use vstd::prelude::*;

use super::boot_hold::BootHoldClaim;
use super::phase::{compute_phase, connection_of, copy_or, text_or, PhaseInputs};
use super::slots::SlotRequest;
use crate::crd::{
    or_default, text_or_empty, Attachment, BootHoldStatus, ClaimPhase, DevicePhase, UsbDevice,
    UsbDeviceClaim,
};
use crate::json::{
    item_views, opt_number, opt_number_json, opt_text, opt_text_json, text, JsonView, Members,
    Value,
};
use crate::kubevirt::{
    claim_owner_references, desired_references, owner_of, present, reference_views, vm_owner,
    vm_present, OwnerReference, ReferenceView, VmInfo, VmiInfo,
};
use crate::table::Table;
use crate::text::{
    decimal_i64, decimal_int, lemma_text_lt_total, lemma_text_lt_transitive, list_contains, opt_eq,
    opt_is, text_eq, text_less, text_lt,
};
use crate::util::{age_of, age_secs, as_deref, rfc3339, rfc3339_text, Timestamp};

verus! {

/// Whether a claim counts: it has a uid and is not being deleted.
pub open spec fn is_live(claim: UsbDeviceClaim) -> bool {
    !claim.metadata.deleting && claim.metadata.uid is Some
}

/// Whether an optional text comes strictly before another; an absent one comes first.
pub open spec fn opt_lt(a: Option<Seq<char>>, b: Option<Seq<char>>) -> bool {
    match (a, b) {
        (None, Some(_)) => true,
        (Some(x), Some(y)) => text_lt(x, y),
        _ => false,
    }
}

/// Whether an optional number is strictly less than another; an absent one is least.
pub open spec fn opt_less(a: Option<i128>, b: Option<i128>) -> bool {
    match (a, b) {
        (None, Some(_)) => true,
        (Some(x), Some(y)) => x < y,
        _ => false,
    }
}

/// Whether a claim comes strictly before another: it is older or, being of the same age, comes
/// first by namespace and name.
pub open spec fn claim_lt(a: UsbDeviceClaim, b: UsbDeviceClaim) -> bool {
    let (m, n) = (a.metadata, b.metadata);
    opt_less(m.creation_timestamp, n.creation_timestamp) || (m.creation_timestamp
        == n.creation_timestamp && (opt_lt(m.namespace.deep_view(), n.namespace.deep_view()) || (
    m.namespace.deep_view() == n.namespace.deep_view() && text_lt(m.any_name(), n.any_name()))))
}

/// An index added to indices of claims in their order, after those that do not come later.
pub open spec fn insert_claim(claims: Seq<UsbDeviceClaim>, order: Seq<int>, i: int) -> Seq<int>
    decreases order.len(),
{
    if order.len() == 0 {
        seq![i]
    } else if claim_lt(claims[i], claims[order.last()]) {
        insert_claim(claims, order.drop_last(), i).push(order.last())
    } else {
        order.push(i)
    }
}

/// The indices of the claims that count among the first `n`, oldest first.
pub open spec fn order_of(claims: Seq<UsbDeviceClaim>, n: int) -> Seq<int>
    decreases n,
{
    if n <= 0 {
        Seq::empty()
    } else if is_live(claims[n - 1]) {
        insert_claim(claims, order_of(claims, n - 1), n - 1)
    } else {
        order_of(claims, n - 1)
    }
}

/// Whether a claim comes strictly before another.
fn claim_less(a: &UsbDeviceClaim, b: &UsbDeviceClaim) -> (less: bool)
    ensures
        less == claim_lt(*a, *b),
{
    let (m, n) = (&a.metadata, &b.metadata);
    match (m.creation_timestamp, n.creation_timestamp) {
        (None, Some(_)) => return true,
        (Some(_), None) => return false,
        (Some(x), Some(y)) => if x != y {
            return x < y;
        },
        (None, None) => {},
    }
    match (&m.namespace, &n.namespace) {
        (None, Some(_)) => return true,
        (Some(_), None) => return false,
        (Some(x), Some(y)) => {
            proof {
                lemma_text_lt_total(x@, y@);
            }
            if !text_eq(x, y) {
                return text_less(x, y);
            }
        },
        (None, None) => {},
    }
    text_less(&m.name_any(), &n.name_any())
}

/// Indices as mathematical integers.
pub open spec fn indices(list: Seq<usize>) -> Seq<int> {
    list.map_values(|i: usize| i as int)
}

/// The indices of the claims that count, oldest first.
pub fn claim_order(claims: &[UsbDeviceClaim]) -> (order: Vec<usize>)
    ensures
        indices(order@) == order_of(claims@, claims@.len() as int),
        forall|k: int| 0 <= k < order@.len() ==> (#[trigger] order@[k]) < claims@.len(),
{
    let mut order: Vec<usize> = Vec::new();
    assert(indices(order@) =~= Seq::empty());
    for i in 0..claims.len()
        invariant
            indices(order@) == order_of(claims@, i as int),
            forall|k: int| 0 <= k < order@.len() ==> (#[trigger] order@[k]) < i,
    {
        let c = &claims[i];
        if !c.metadata.deleting && c.metadata.uid.is_some() {
            let ghost all = indices(order@);
            let mut at: usize = order.len();
            assert(all.take(at as int) =~= all);
            assert(all.skip(at as int) =~= Seq::empty());
            assert(insert_claim(claims@, all, i as int) + Seq::<int>::empty() =~= insert_claim(
                claims@,
                all,
                i as int,
            ));
            while at > 0 && claim_less(c, &claims[order[at - 1]])
                invariant
                    i < claims@.len(),
                    *c == claims@[i as int],
                    at <= order@.len(),
                    all == indices(order@),
                    forall|k: int| 0 <= k < order@.len() ==> (#[trigger] order@[k]) < i,
                    insert_claim(claims@, all, i as int) == insert_claim(
                        claims@,
                        all.take(at as int),
                        i as int,
                    ) + all.skip(at as int),
                decreases at,
            {
                proof {
                    let head = all.take(at as int);
                    assert(head.last() == all[at - 1]);
                    assert(head.drop_last() =~= all.take(at - 1));
                    assert(insert_claim(claims@, all.take(at - 1), i as int).push(all[at - 1])
                        + all.skip(at as int) =~= insert_claim(claims@, all.take(at - 1), i as int)
                        + all.skip(at - 1));
                }
                at -= 1;
            }
            proof {
                let head = all.take(at as int);
                if at > 0 {
                    assert(head.last() == all[at - 1]);
                }
                assert(insert_claim(claims@, head, i as int) =~= head.push(i as int));
            }
            order.insert(at, i);
            assert(indices(order@) =~= all.take(at as int).push(i as int) + all.skip(at as int));
        }
    }
    order
}

/// The slot that a claim asks for.
pub open spec fn is_request_of(r: SlotRequest, claim: UsbDeviceClaim) -> bool {
    &&& r.uid@ == text_or_empty(claim.metadata.uid)
    &&& r.name@ == claim.metadata.any_name()
    &&& r.vm.0@ == text_or_empty(claim.metadata.namespace)
    &&& r.vm.1@ == claim.spec.vm_name@
    &&& r.pinned == claim.spec.slot
    &&& r.previous == match claim.status {
        Some(status) => status.slot,
        None => None,
    }
}

/// The slot that a claim asks for.
pub fn slot_request(claim: &UsbDeviceClaim) -> (r: SlotRequest)
    ensures
        is_request_of(r, *claim),
{
    SlotRequest {
        uid: or_default(&claim.metadata.uid),
        name: claim.name_any(),
        vm: (or_default(&claim.metadata.namespace), claim.spec.vm_name.clone()),
        pinned: claim.spec.slot,
        previous: match &claim.status {
            Some(status) => status.slot,
            None => None,
        },
    }
}

/// Whether the agent of a device that is reported as available has stopped sending heartbeats.
pub open spec fn is_lost(device: UsbDevice, now: int, lost_after: int) -> bool {
    let status = device.reported();
    status.phase == Some(DevicePhase::Available) && match age_of(status.last_seen.deep_view(), now) {
        Some(age) => age > lost_after,
        None => true,
    }
}

/// What is said of a device whose agent has stopped sending heartbeats.
pub open spec fn lost_message(device: UsbDevice, lost_after: int) -> Seq<char> {
    "no heartbeat from the agent on "@ + text_or(device.reported().node, "?"@)
        + " for over "@ + decimal_int(lost_after) + "s"@
}

/// What is said of a device that is reported as available but whose agent has stopped sending
/// heartbeats.
pub fn lost_device(device: &UsbDevice, now: Timestamp, lost_after_secs: i64) -> (message: Option<
    String,
>)
    ensures
        match message {
            Some(m) => is_lost(*device, now@, lost_after_secs as int) && m@ == lost_message(
                *device,
                lost_after_secs as int,
            ),
            None => !is_lost(*device, now@, lost_after_secs as int),
        },
{
    let status = device.status_ref();
    match status.phase {
        Some(phase) => if phase != DevicePhase::Available {
            return None;
        },
        None => return None,
    }
    if let Some(age) = age_secs(as_deref(&status.last_seen), now) {
        if age <= lost_after_secs {
            return None;
        }
    }
    let node = copy_or(&status.node, "?");
    Some(
        "no heartbeat from the agent on ".to_string().concat(&node).concat(" for over ").concat(
            &decimal_i64(lost_after_secs),
        ).concat("s"),
    )
}

/// Whether the lease of a device is that of a claim that does not count any more.
pub open spec fn is_orphaned(device: UsbDevice, live: Seq<Seq<char>>) -> bool {
    device.holder() matches Some(uid) && !live.contains(uid)
}

/// Whether the lease of a device is that of a claim that does not count any more.
pub fn has_orphaned_lease(device: &UsbDevice, live_uids: &[String]) -> (orphaned: bool)
    ensures
        orphaned == is_orphaned(*device, live_uids.deep_view()),
{
    match device.lease_holder() {
        Some(uid) => !list_contains(live_uids, uid),
        None => false,
    }
}

/// A patch of the status of a device, guarded by its resource version.
pub open spec fn guarded(device: UsbDevice, status: JsonView) -> JsonView {
    let version = opt_text_json(device.metadata.resource_version.deep_view());
    JsonView::Object(
        Seq::empty().push(("status"@, status)).push(
            ("metadata"@, JsonView::Object(seq![("resourceVersion"@, version)])),
        ),
    )
}

/// A patch of the status of a device, guarded by its resource version: it is refused if someone
/// else changed the device first.
pub fn guarded_patch(device: &UsbDevice, status: Value) -> (patch: Value)
    ensures
        patch@ == guarded(*device, status@),
{
    let version = Members::new().with(
        "resourceVersion",
        opt_text(&device.metadata.resource_version),
    ).object();
    Members::new().with("status", status).with("metadata", version).object()
}

/// The status that marks a device as lost.
pub open spec fn lost_json(message: Seq<char>) -> JsonView {
    JsonView::Object(
        Seq::empty().push(("phase"@, JsonView::Text("Lost"@))).push(
            ("exporter"@, JsonView::Null),
        ).push(("message"@, JsonView::Text(message))),
    )
}

/// The patch that marks a device as lost.
pub fn lost_patch(device: &UsbDevice, message: &str) -> (patch: Value)
    ensures
        patch@ == guarded(*device, lost_json(message@)),
{
    let status = Members::new().with("phase", text("Lost")).with("exporter", Value::Null).with(
        "message",
        text(message),
    ).object();
    guarded_patch(device, status)
}

/// The JSON form of a lease.
pub open spec fn lease_json(
    namespace: Seq<char>,
    claim: Seq<char>,
    claim_uid: Seq<char>,
    vm_name: Seq<char>,
    since: Seq<char>,
) -> JsonView {
    JsonView::Object(
        Seq::empty().push(("namespace"@, JsonView::Text(namespace))).push(
            ("claim"@, JsonView::Text(claim)),
        ).push(("claimUid"@, JsonView::Text(claim_uid))).push(
            ("vmName"@, JsonView::Text(vm_name)),
        ).push(("since"@, JsonView::Text(since))),
    )
}

/// The status that leases a device to a claim, or to none.
pub open spec fn attached_to(lease: JsonView) -> JsonView {
    JsonView::Object(seq![("attachedTo"@, lease)])
}

/// The patch that leases a device to a claim.
pub fn lease_patch(device: &UsbDevice, lease: &Attachment) -> (patch: Value)
    ensures
        patch@ == guarded(
            *device,
            attached_to(
                lease_json(
                    lease.namespace@,
                    lease.claim@,
                    lease.claim_uid@,
                    lease.vm_name@,
                    lease.since@,
                ),
            ),
        ),
{
    let lease = Members::new().with("namespace", text(&lease.namespace)).with(
        "claim",
        text(&lease.claim),
    ).with("claimUid", text(&lease.claim_uid)).with("vmName", text(&lease.vm_name)).with(
        "since",
        text(&lease.since),
    ).object();
    let status = Members::new().with("attachedTo", lease).object();
    guarded_patch(device, status)
}

/// The patch that releases the lease of a device.
pub fn release_patch(device: &UsbDevice) -> (patch: Value)
    ensures
        patch@ == guarded(*device, attached_to(JsonView::Null)),
{
    let status = Members::new().with("attachedTo", Value::Null).object();
    guarded_patch(device, status)
}

/// The lease of a device to a claim.
pub fn new_lease(claim: &UsbDeviceClaim, now: Timestamp) -> (lease: Attachment)
    ensures
        lease.namespace@ == text_or_empty(claim.metadata.namespace),
        lease.claim@ == claim.metadata.any_name(),
        lease.claim_uid@ == text_or_empty(claim.metadata.uid),
        lease.vm_name@ == claim.spec.vm_name@,
        lease.since@ == rfc3339_text(now@ as i128),
{
    Attachment {
        namespace: or_default(&claim.metadata.namespace),
        claim: claim.name_any(),
        claim_uid: or_default(&claim.metadata.uid),
        vm_name: claim.spec.vm_name.clone(),
        since: rfc3339(now),
    }
}

/// What makes a claim invalid.
pub open spec fn invalid_reason(
    claim: UsbDeviceClaim,
    slot: Option<Result<i32, String>>,
) -> Option<Seq<char>> {
    match claim.spec.selector.problem() {
        Some(problem) => Some(problem),
        None => if claim.spec.vm_name@.len() == 0 {
            Some("spec.vmName is required"@)
        } else {
            match slot {
                Some(Err(why)) => Some(why@),
                _ => None,
            }
        },
    }
}

/// What makes a claim invalid.
pub fn invalid_claim(claim: &UsbDeviceClaim, slot: Option<&Result<i32, String>>) -> (reason: Option<
    String,
>)
    ensures
        reason.deep_view() == invalid_reason(*claim, match slot {
            Some(r) => Some(*r),
            None => None,
        }),
{
    match claim.spec.selector.validate() {
        Err(problem) => Some(problem),
        Ok(_) => if claim.spec.vm_name.as_str().is_empty() {
            Some("spec.vmName is required".to_string())
        } else {
            match slot {
                Some(Err(why)) => Some(why.clone()),
                _ => None,
            }
        },
    }
}

/// A point in time and how old a heartbeat may be by then.
#[derive(Clone, Copy)]
pub struct Clock {
    pub now: Timestamp,
    pub lost_after_secs: i64,
}

impl Clock {
    /// Whether a device is available.
    pub open spec fn sees(self, device: UsbDevice) -> bool {
        device.available_at(self.now@, self.lost_after_secs as int)
    }
}

/// The device that the status of a claim names.
pub open spec fn previous_device(claim: UsbDeviceClaim) -> Option<Seq<char>> {
    match claim.status {
        Some(status) => status.device_name.deep_view(),
        None => None,
    }
}

/// Whether a claim holds the lease of a device.
pub open spec fn holds(claim: UsbDeviceClaim, device: UsbDevice) -> bool {
    device.holder() == Some(text_or_empty(claim.metadata.uid))
}

/// Whether a flag that is off comes before one that is on.
pub open spec fn flag_lt(a: bool, b: bool) -> bool {
    !a && b
}

/// Whether a claim would rather keep one device than another: the one its status names, else one
/// that is available, else the first by name.
pub open spec fn keeps_rather(
    claim: UsbDeviceClaim,
    clock: Clock,
    a: UsbDevice,
    b: UsbDevice,
) -> bool {
    let (na, nb) = (a.metadata.any_name(), b.metadata.any_name());
    let (pa, pb) = (previous_device(claim) != Some(na), previous_device(claim) != Some(nb));
    let (ua, ub) = (!clock.sees(a), !clock.sees(b));
    flag_lt(pa, pb) || (pa == pb && (flag_lt(ua, ub) || (ua == ub && text_lt(na, nb))))
}

/// Whether a claim would rather take one device than another: one that is available, else the
/// first by name.
pub open spec fn takes_rather(clock: Clock, a: UsbDevice, b: UsbDevice) -> bool {
    let (ua, ub) = (!clock.sees(a), !clock.sees(b));
    flag_lt(ua, ub) || (ua == ub && text_lt(a.metadata.any_name(), b.metadata.any_name()))
}

/// The device that a claim would rather keep, among the first `n` that it holds and selects.
pub open spec fn kept_device(
    claim: UsbDeviceClaim,
    clock: Clock,
    devices: Seq<UsbDevice>,
    n: int,
) -> Option<int>
    decreases n,
{
    if n <= 0 {
        None
    } else {
        let best = kept_device(claim, clock, devices, n - 1);
        let d = devices[n - 1];
        if holds(claim, d) && claim.spec.selector.selects(d) && (match best {
            Some(b) => keeps_rather(claim, clock, d, devices[b]),
            None => true,
        }) {
            Some(n - 1)
        } else {
            best
        }
    }
}

/// The device that a claim would rather take, among the first `n` that are free and selected.
pub open spec fn free_device(
    claim: UsbDeviceClaim,
    clock: Clock,
    devices: Seq<UsbDevice>,
    n: int,
) -> Option<int>
    decreases n,
{
    if n <= 0 {
        None
    } else {
        let best = free_device(claim, clock, devices, n - 1);
        let d = devices[n - 1];
        if d.holder() is None && claim.spec.selector.selects(d) && (match best {
            Some(b) => takes_rather(clock, d, devices[b]),
            None => true,
        }) {
            Some(n - 1)
        } else {
            best
        }
    }
}

/// The devices among the first `n` that a claim holds.
pub open spec fn held_devices(
    claim: UsbDeviceClaim,
    devices: Seq<UsbDevice>,
    n: int,
) -> Seq<int>
    decreases n,
{
    if n <= 0 {
        Seq::empty()
    } else if holds(claim, devices[n - 1]) {
        held_devices(claim, devices, n - 1).push(n - 1)
    } else {
        held_devices(claim, devices, n - 1)
    }
}

/// Which devices a claim holds, which of them it keeps, and which free one it is to lease.
pub struct ClaimPlan {
    /// Indices of the devices that the claim holds.
    pub held: Vec<usize>,
    /// Index of the device it keeps.
    pub current: Option<usize>,
    /// Index of the free device to lease.
    pub candidate: Option<usize>,
}

/// What a [`ClaimPlan`] holds.
pub struct PlanView {
    pub held: Seq<int>,
    pub current: Option<int>,
    pub candidate: Option<int>,
}

/// An optional index as a mathematical integer.
pub open spec fn opt_index(i: Option<usize>) -> Option<int> {
    match i {
        Some(i) => Some(i as int),
        None => None,
    }
}

impl View for ClaimPlan {
    type V = PlanView;

    open spec fn view(&self) -> PlanView {
        PlanView {
            held: indices(self.held@),
            current: opt_index(self.current),
            candidate: opt_index(self.candidate),
        }
    }
}

/// Which devices a claim holds, keeps and is to lease. Only a valid claim whose VM exists keeps or
/// leases one. It leases a free device that is available, unless the one it keeps is; or, if it
/// keeps none, one that will be attached when it is plugged in.
pub open spec fn planned(
    claim: UsbDeviceClaim,
    clock: Clock,
    devices: Seq<UsbDevice>,
    may_hold: bool,
) -> PlanView {
    let n = devices.len() as int;
    let held = held_devices(claim, devices, n);
    let current = kept_device(claim, clock, devices, n);
    let free = free_device(claim, clock, devices, n);
    if !may_hold {
        PlanView { held, current: None, candidate: None }
    } else if current matches Some(c) && clock.sees(devices[c]) {
        PlanView { held, current, candidate: None }
    } else {
        PlanView {
            held,
            current,
            candidate: match free {
                Some(f) => if clock.sees(devices[f]) || current is None {
                    free
                } else {
                    None
                },
                None => None,
            },
        }
    }
}

/// Whether a claim would rather keep one device than another.
fn prefers_to_keep(claim: &UsbDeviceClaim, clock: Clock, a: &UsbDevice, b: &UsbDevice) -> (r: bool)
    ensures
        r == keeps_rather(*claim, clock, *a, *b),
{
    let (na, nb) = (a.name_any(), b.name_any());
    let (pa, pb) = match &claim.status {
        Some(status) => (!opt_is(&status.device_name, &na), !opt_is(&status.device_name, &nb)),
        None => (true, true),
    };
    let ua = !a.is_available(clock.now, clock.lost_after_secs);
    let ub = !b.is_available(clock.now, clock.lost_after_secs);
    (!pa && pb) || (pa == pb && ((!ua && ub) || (ua == ub && text_less(&na, &nb))))
}

/// Whether a claim would rather take one device than another.
fn prefers_to_take(clock: Clock, a: &UsbDevice, b: &UsbDevice) -> (r: bool)
    ensures
        r == takes_rather(clock, *a, *b),
{
    let ua = !a.is_available(clock.now, clock.lost_after_secs);
    let ub = !b.is_available(clock.now, clock.lost_after_secs);
    (!ua && ub) || (ua == ub && text_less(&a.name_any(), &b.name_any()))
}

/// Plans which devices a claim holds, keeps and is to lease; `may_hold` says that the claim is
/// valid and its VM exists.
pub fn plan_claim(
    claim: &UsbDeviceClaim,
    clock: Clock,
    devices: &[UsbDevice],
    may_hold: bool,
) -> (plan: ClaimPlan)
    ensures
        plan@ == planned(*claim, clock, devices@, may_hold),
        plan.fits(devices@.len()),
{
    let uid = or_default(&claim.metadata.uid);
    let mut held: Vec<usize> = Vec::new();
    let mut current: Option<usize> = None;
    let mut free: Option<usize> = None;
    assert(indices(held@) =~= Seq::empty());
    for i in 0..devices.len()
        invariant
            uid@ == text_or_empty(claim.metadata.uid),
            indices(held@) == held_devices(*claim, devices@, i as int),
            opt_index(current) == kept_device(*claim, clock, devices@, i as int),
            opt_index(free) == free_device(*claim, clock, devices@, i as int),
            forall|k: int| 0 <= k < held@.len() ==> (#[trigger] held@[k]) < i,
            current matches Some(c) ==> c < i,
            free matches Some(c) ==> c < i,
    {
        let d = &devices[i];
        match d.lease_holder() {
            Some(holder) => if text_eq(holder, &uid) {
                let ghost before = held@;
                held.push(i);
                assert(indices(held@) =~= indices(before).push(i as int));
                let better = claim.spec.selector.matches(d) && match current {
                    Some(c) => prefers_to_keep(claim, clock, d, &devices[c]),
                    None => true,
                };
                if better {
                    current = Some(i);
                }
            },
            None => {
                let better = claim.spec.selector.matches(d) && match free {
                    Some(f) => prefers_to_take(clock, d, &devices[f]),
                    None => true,
                };
                if better {
                    free = Some(i);
                }
            },
        }
    }
    if !may_hold {
        return ClaimPlan { held, current: None, candidate: None };
    }
    let settled = match current {
        Some(c) => devices[c].is_available(clock.now, clock.lost_after_secs),
        None => false,
    };
    // Prefer a free device that is available right now; otherwise reserve a free one that will be
    // attached when it is plugged in, unless we already hold one.
    let candidate = if settled {
        None
    } else {
        match free {
            Some(f) => if current.is_none() || devices[f].is_available(
                clock.now,
                clock.lost_after_secs,
            ) {
                Some(f)
            } else {
                None
            },
            None => None,
        }
    };
    ClaimPlan { held, current, candidate }
}

impl PlanView {
    /// The device that the claim ends up with.
    pub open spec fn target(self, leased: bool) -> Option<int> {
        if leased && self.candidate is Some {
            self.candidate
        } else {
            self.current
        }
    }

    /// The devices that the claim gives up: those it holds but for the one it ends up with.
    pub open spec fn given_up(self, leased: bool) -> Seq<int> {
        self.held.filter(|i: int| self.target(leased) != Some(i))
    }
}

impl ClaimPlan {
    /// Whether the plan is about some number of devices.
    pub open spec fn fits(self, devices: nat) -> bool {
        &&& forall|k: int| 0 <= k < self.held@.len() ==> (#[trigger] self.held@[k]) < devices
        &&& self.current matches Some(c) ==> c < devices
        &&& self.candidate matches Some(c) ==> c < devices
    }

    /// The device that the claim ends up with; `leased` says that the lease of the candidate was
    /// written.
    pub fn target(&self, leased: bool) -> (target: Option<usize>)
        ensures
            opt_index(target) == self@.target(leased),
    {
        match self.candidate {
            Some(c) => if leased {
                Some(c)
            } else {
                self.current
            },
            None => self.current,
        }
    }

    /// The devices that the claim gives up.
    pub fn given_up(&self, leased: bool) -> (released: Vec<usize>)
        ensures
            indices(released@) == self@.given_up(leased),
            forall|k: int|
                0 <= k < released@.len() ==> self.held@.contains(#[trigger] released@[k]),
    {
        let target = self.target(leased);
        let mut released: Vec<usize> = Vec::new();
        let ghost held = indices(self.held@);
        let ghost other = |i: int| self@.target(leased) != Some(i);
        proof {
            reveal(Seq::filter);
            assert(indices(released@) =~= Seq::empty());
            assert(held.take(0).filter(other) =~= Seq::empty());
        }
        for k in 0..self.held.len()
            invariant
                opt_index(target) == self@.target(leased),
                held == indices(self.held@),
                other == (|i: int| self@.target(leased) != Some(i)),
                indices(released@) == held.take(k as int).filter(other),
                forall|j: int|
                    0 <= j < released@.len() ==> self.held@.contains(#[trigger] released@[j]),
        {
            let i = self.held[k];
            let kept = match target {
                Some(t) => t == i,
                None => false,
            };
            proof {
                reveal(Seq::filter);
                assert(held.take(k + 1).drop_last() =~= held.take(k as int));
                assert(held.take(k + 1).last() == i as int);
            }
            if !kept {
                let ghost before = released@;
                released.push(i);
                assert(indices(released@) =~= indices(before).push(i as int));
            }
        }
        assert(held.take(held.len() as int) =~= held);
        released
    }
}

/// What a claim reports.
pub struct ClaimReport {
    pub phase: ClaimPhase,
    pub message: String,
    pub device_name: Option<String>,
    pub source_node: Option<String>,
    pub slot: Option<i32>,
    pub observed_generation: Option<i64>,
    /// The boot-hold report of the claim, which no longer holds a boot, is to be dropped.
    pub clear_boot_hold: bool,
}

/// What a [`ClaimReport`] holds.
pub struct ReportView {
    pub phase: ClaimPhase,
    pub message: Seq<char>,
    pub device_name: Option<Seq<char>>,
    pub source_node: Option<Seq<char>>,
    pub slot: Option<i32>,
    pub observed_generation: Option<i64>,
    pub clear_boot_hold: bool,
}

impl View for ClaimReport {
    type V = ReportView;

    open spec fn view(&self) -> ReportView {
        ReportView {
            phase: self.phase,
            message: self.message@,
            device_name: self.device_name.deep_view(),
            source_node: self.source_node.deep_view(),
            slot: self.slot,
            observed_generation: self.observed_generation,
            clear_boot_hold: self.clear_boot_hold,
        }
    }
}

/// What the outcome for a claim depends on.
pub struct OutcomeInputs<'a> {
    pub claim: &'a UsbDeviceClaim,
    /// What makes the claim invalid.
    pub invalid: Option<&'a String>,
    /// The device that the claim ended up with.
    pub device: Option<&'a UsbDevice>,
    pub vm: Option<&'a VmInfo>,
    pub vmi: Option<&'a VmiInfo>,
    pub slot: Option<i32>,
    pub clock: Clock,
}

impl<'a> OutcomeInputs<'a> {
    /// What the phase of the claim depends on, if it is valid.
    pub open spec fn phase_inputs(self) -> PhaseInputs<'a> {
        PhaseInputs {
            invalid: None,
            device: self.device,
            device_available: self.device matches Some(d) && self.clock.sees(*d),
            vm: self.vm,
            vmi: self.vmi,
            vm_present: present(self.vm, self.vmi),
            claim: self.claim,
            slot: self.slot,
        }
    }

    /// The name of the device that the claim ended up with.
    pub open spec fn target_name(self) -> Option<Seq<char>> {
        match self.device {
            Some(d) => Some(d.metadata.any_name()),
            None => None,
        }
    }

    /// What the claim is to report.
    pub open spec fn report(self) -> ReportView {
        let (phase, message) = match self.invalid {
            Some(reason) => (ClaimPhase::Invalid, reason@),
            None => self.phase_inputs().valid_outcome(),
        };
        ReportView {
            phase,
            message,
            device_name: self.target_name(),
            source_node: match self.device {
                Some(d) => d.reported().node.deep_view(),
                None => None,
            },
            slot: self.slot,
            observed_generation: self.claim.metadata.generation,
            clear_boot_hold: self.claim.spec.hold_boot is None && (
            self.claim.status matches Some(status) && status.boot_hold is Some),
        }
    }

    /// Whether the device is attached, or on the slot of a paused VM that only has to resume to
    /// take it.
    pub open spec fn is_ready(self) -> bool {
        self.report().phase == ClaimPhase::Attached || (connection_of(*self.claim)
            matches Some(c) && c.awaiting_resume == Some(true) && (match self.vmi {
            Some(vmi) => vmi.node.deep_view() == Some(c.node@),
            None => false,
        }) && self.target_name() == Some(c.device_name@) && self.slot == Some(c.slot))
    }
}

/// What a claim is to report.
pub fn report_claim(inputs: &OutcomeInputs) -> (report: ClaimReport)
    ensures
        report@ == inputs.report(),
{
    let (phase, message) = compute_phase(
        &PhaseInputs {
            invalid: match inputs.invalid {
                Some(reason) => Some(reason.as_str()),
                None => None,
            },
            device: inputs.device,
            device_available: match inputs.device {
                Some(d) => d.is_available(inputs.clock.now, inputs.clock.lost_after_secs),
                None => false,
            },
            vm: inputs.vm,
            vmi: inputs.vmi,
            vm_present: vm_present(inputs.vm, inputs.vmi),
            claim: inputs.claim,
            slot: inputs.slot,
        },
    );
    // A claim that no longer holds a boot must not keep a stale report.
    let clear_boot_hold = inputs.claim.spec.hold_boot.is_none() && match &inputs.claim.status {
        Some(status) => status.boot_hold.is_some(),
        None => false,
    };
    ClaimReport {
        phase,
        message,
        device_name: match inputs.device {
            Some(d) => Some(d.name_any()),
            None => None,
        },
        source_node: match inputs.device {
            Some(d) => d.status_ref().node.clone(),
            None => None,
        },
        slot: inputs.slot,
        observed_generation: inputs.claim.metadata.generation,
        clear_boot_hold,
    }
}

impl ReportView {
    /// Whether a claim's status says this already.
    pub open spec fn is_current(self, claim: UsbDeviceClaim) -> bool {
        !self.clear_boot_hold && (claim.status matches Some(status) && {
            &&& status.phase == Some(self.phase)
            &&& status.message.deep_view() == Some(self.message)
            &&& status.device_name.deep_view() == self.device_name
            &&& status.source_node.deep_view() == self.source_node
            &&& status.slot == self.slot
            &&& status.observed_generation == self.observed_generation
        })
    }

    /// The patch that writes the report.
    pub open spec fn patch(self) -> JsonView {
        let status = Seq::empty().push(("phase"@, JsonView::Text(self.phase.name_text()))).push(
            ("deviceName"@, opt_text_json(self.device_name)),
        ).push(("sourceNode"@, opt_text_json(self.source_node))).push(
            (
                "slot"@,
                opt_number_json(
                    match self.slot {
                        Some(n) => Some(n as int),
                        None => None,
                    },
                ),
            ),
        ).push(("message"@, JsonView::Text(self.message))).push(
            (
                "observedGeneration"@,
                opt_number_json(
                    match self.observed_generation {
                        Some(n) => Some(n as int),
                        None => None,
                    },
                ),
            ),
        );
        let all = if self.clear_boot_hold {
            status.push(("bootHold"@, JsonView::Null))
        } else {
            status
        };
        JsonView::Object(seq![("status"@, JsonView::Object(all))])
    }
}

/// Whether two optional numbers are the same.
fn same_i32(a: Option<i32>, b: Option<i32>) -> (same: bool)
    ensures
        same == (a == b),
{
    match (a, b) {
        (Some(x), Some(y)) => x == y,
        (None, None) => true,
        _ => false,
    }
}

/// Whether two optional numbers are the same.
fn same_i64(a: Option<i64>, b: Option<i64>) -> (same: bool)
    ensures
        same == (a == b),
{
    match (a, b) {
        (Some(x), Some(y)) => x == y,
        (None, None) => true,
        _ => false,
    }
}

/// Whether a phase is present and this one.
fn is_phase(a: Option<ClaimPhase>, b: ClaimPhase) -> (same: bool)
    ensures
        same == (a == Some(b)),
{
    match a {
        Some(x) => x == b,
        None => false,
    }
}

impl ClaimReport {
    /// Whether the claim's status says this already.
    pub fn is_current(&self, claim: &UsbDeviceClaim) -> (current: bool)
        ensures
            current == self@.is_current(*claim),
    {
        !self.clear_boot_hold && match &claim.status {
            Some(status) => is_phase(status.phase, self.phase) && opt_is(
                &status.message,
                &self.message,
            ) && opt_eq(&status.device_name, &self.device_name) && opt_eq(
                &status.source_node,
                &self.source_node,
            ) && same_i32(status.slot, self.slot) && same_i64(
                status.observed_generation,
                self.observed_generation,
            ),
            None => false,
        }
    }

    /// The patch that writes the report.
    pub fn patch(&self) -> (patch: Value)
        ensures
            patch@ == self@.patch(),
    {
        let slot: Option<i64> = match self.slot {
            Some(n) => Some(n as i64),
            None => None,
        };
        let status = Members::new().with("phase", text(self.phase.name())).with(
            "deviceName",
            opt_text(&self.device_name),
        ).with("sourceNode", opt_text(&self.source_node)).with("slot", opt_number(slot)).with(
            "message",
            text(&self.message),
        ).with("observedGeneration", opt_number(self.observed_generation));
        let all = if self.clear_boot_hold {
            status.with("bootHold", Value::Null)
        } else {
            status
        };
        Members::new().with("status", all.object()).object()
    }
}

/// What the boot-hold pass needs to know about a claim: nothing, unless it holds its VM's boot.
pub open spec fn is_hold_of(hold: Option<BootHoldClaim>, inputs: OutcomeInputs<'_>) -> bool {
    match (hold, inputs.claim.spec.hold_boot) {
        (Some(h), Some(own)) => {
            &&& h.name@ == inputs.claim.metadata.any_name()
            &&& h.ready == inputs.is_ready()
            &&& h.invalid == (inputs.invalid is Some)
            &&& h.timeout_seconds == own.timeout_seconds
            &&& h.current == match inputs.claim.status {
                Some(status) => status.boot_hold,
                None => None,
            }
        },
        (None, None) => true,
        _ => false,
    }
}

/// What the boot-hold pass needs to know about a claim.
pub fn boot_hold_claim(inputs: &OutcomeInputs) -> (hold: Option<BootHoldClaim>)
    ensures
        is_hold_of(hold, *inputs),
{
    let own = match &inputs.claim.spec.hold_boot {
        Some(own) => own,
        None => return None,
    };
    let report = report_claim(inputs);
    let connection = match &inputs.claim.status {
        Some(status) => &status.connection,
        None => &None,
    };
    let waiting = match connection {
        Some(c) => {
            let resume = match c.awaiting_resume {
                Some(r) => r,
                None => false,
            };
            let here = match inputs.vmi {
                Some(vmi) => opt_is(&vmi.node, &c.node),
                None => false,
            };
            let on_slot = match inputs.slot {
                Some(slot) => slot == c.slot,
                None => false,
            };
            resume && here && on_slot && opt_is(&report.device_name, &c.device_name)
        },
        None => false,
    };
    let current: Option<BootHoldStatus> = match &inputs.claim.status {
        Some(status) => status.boot_hold.clone(),
        None => None,
    };
    Some(
        BootHoldClaim {
            name: inputs.claim.name_any(),
            ready: report.phase == ClaimPhase::Attached || waiting,
            invalid: inputs.invalid.is_some(),
            timeout_seconds: own.timeout_seconds(),
            current,
        },
    )
}

/// The JSON form of an optional flag, as an object member if it is present.
pub open spec fn with_flag(
    members: Seq<(Seq<char>, JsonView)>,
    key: Seq<char>,
    flag: Option<bool>,
) -> Seq<(Seq<char>, JsonView)> {
    match flag {
        Some(b) => members.push((key, JsonView::Bool(b))),
        None => members,
    }
}

/// The JSON form of an owner reference.
pub open spec fn reference_json(r: ReferenceView) -> JsonView {
    let start = Seq::empty().push(("apiVersion"@, JsonView::Text(r.api_version)));
    let flagged = with_flag(
        with_flag(start, "blockOwnerDeletion"@, r.block_owner_deletion),
        "controller"@,
        r.controller,
    );
    JsonView::Object(
        flagged.push(("kind"@, JsonView::Text(r.kind))).push(("name"@, JsonView::Text(r.name))).push(
            ("uid"@, JsonView::Text(r.uid)),
        ),
    )
}

/// The JSON form of an owner reference.
fn reference_value(r: &OwnerReference) -> (v: Value)
    ensures
        v@ == reference_json(r@),
{
    let start = Members::new().with("apiVersion", text(&r.api_version));
    let blocking = match r.block_owner_deletion {
        Some(b) => start.with("blockOwnerDeletion", Value::Bool(b)),
        None => start,
    };
    let flagged = match r.controller {
        Some(b) => blocking.with("controller", Value::Bool(b)),
        None => blocking,
    };
    flagged.with("kind", text(&r.kind)).with("name", text(&r.name)).with(
        "uid",
        text(&r.uid),
    ).object()
}

/// The patch that sets the owner references of a claim, guarded by its resource version.
pub open spec fn references_patch(
    claim: UsbDeviceClaim,
    references: Seq<ReferenceView>,
) -> JsonView {
    let list = JsonView::Array(references.map_values(|r: ReferenceView| reference_json(r)));
    let metadata = Seq::empty().push(
        ("resourceVersion"@, opt_text_json(claim.metadata.resource_version.deep_view())),
    ).push(("ownerReferences"@, list));
    JsonView::Object(seq![("metadata"@, JsonView::Object(metadata))])
}

/// The patch that binds the lifetime of a claim to its VM, unless there is nothing to change.
pub open spec fn owners_change(
    claim: UsbDeviceClaim,
    vm: Option<&VmInfo>,
    vmi: Option<&VmiInfo>,
) -> Option<JsonView> {
    let existing = reference_views(claim.metadata.owner_references@);
    let wanted = desired_references(existing, claim.spec.vm_name@, owner_of(vm, vmi));
    if claim.spec.vm_name@.len() > 0 && wanted != existing {
        Some(references_patch(claim, wanted))
    } else {
        None
    }
}

/// What an optional value holds.
pub open spec fn opt_value(value: Option<Value>) -> Option<JsonView> {
    match value {
        Some(v) => Some(v@),
        None => None,
    }
}

/// The patch that binds the lifetime of a claim to its VM, so deleting the VM garbage-collects the
/// claim; `None` if there is nothing to change.
pub fn owner_patch(claim: &UsbDeviceClaim, vm: Option<&VmInfo>, vmi: Option<&VmiInfo>) -> (patch:
    Option<Value>)
    ensures
        opt_value(patch) == owners_change(*claim, vm, vmi),
{
    if claim.spec.vm_name.as_str().is_empty() {
        return None;
    }
    let owner = vm_owner(vm, vmi);
    let references = match claim_owner_references(
        claim.metadata.owner_references.as_slice(),
        &claim.spec.vm_name,
        owner.as_ref(),
    ) {
        Some(references) => references,
        None => return None,
    };
    let ghost wanted = reference_views(references@);
    let ghost all = wanted.map_values(|r: ReferenceView| reference_json(r));
    let mut items: Vec<Value> = Vec::new();
    assert(item_views(items@) =~= all.take(0));
    for i in 0..references.len()
        invariant
            wanted == reference_views(references@),
            all == wanted.map_values(|r: ReferenceView| reference_json(r)),
            item_views(items@) == all.take(i as int),
    {
        let ghost before = items@;
        items.push(reference_value(&references[i]));
        assert(all[i as int] == reference_json(references@[i as int]@));
        assert(item_views(items@) =~= item_views(before).push(all[i as int]));
        assert(all.take(i + 1) =~= all.take(i as int).push(all[i as int]));
    }
    assert(all.take(all.len() as int) =~= all);
    let list = Value::Array(items);
    assert(list@->Array_0 =~= item_views(items@));
    let metadata = Members::new().with(
        "resourceVersion",
        opt_text(&claim.metadata.resource_version),
    ).with("ownerReferences", list).object();
    Some(Members::new().with("metadata", metadata).object())
}

/// How the reconciliation of a claim starts.
pub struct ClaimStart {
    /// What makes the claim invalid.
    pub invalid: Option<String>,
    /// The slot of the claim.
    pub slot: Option<i32>,
    pub plan: ClaimPlan,
}

/// The slot result of a claim.
pub open spec fn slot_of(
    slots: Map<Seq<char>, Result<i32, String>>,
    claim: UsbDeviceClaim,
) -> Option<Result<i32, String>> {
    let uid = text_or_empty(claim.metadata.uid);
    if slots.contains_key(uid) {
        Some(slots[uid])
    } else {
        None
    }
}

/// Whether the reconciliation of a claim starts like this.
pub open spec fn starts(
    start: ClaimStart,
    claim: UsbDeviceClaim,
    clock: Clock,
    devices: Seq<UsbDevice>,
    slots: Map<Seq<char>, Result<i32, String>>,
    vm: Option<&VmInfo>,
    vmi: Option<&VmiInfo>,
) -> bool {
    let slot = slot_of(slots, claim);
    let invalid = invalid_reason(claim, slot);
    &&& start.invalid.deep_view() == invalid
    &&& start.slot == (match slot {
        Some(Ok(slot)) => Some(slot),
        _ => None,
    })
    &&& start.plan@ == planned(claim, clock, devices, invalid is None && present(vm, vmi))
    &&& start.plan.fits(devices.len())
}

/// Starts the reconciliation of a claim.
pub fn start_claim(
    claim: &UsbDeviceClaim,
    clock: Clock,
    devices: &[UsbDevice],
    slots: &Table<String, Result<i32, String>>,
    vm: Option<&VmInfo>,
    vmi: Option<&VmiInfo>,
) -> (start: ClaimStart)
    ensures
        starts(start, *claim, clock, devices@, slots@, vm, vmi),
{
    let uid = or_default(&claim.metadata.uid);
    let found = slots.get(&uid);
    let slot = match found {
        Some(Ok(slot)) => Some(*slot),
        _ => None,
    };
    let invalid = invalid_claim(claim, found);
    // Only a claim whose VM exists may hold a device; a deleted VM releases it right away.
    let may_hold = invalid.is_none() && vm_present(vm, vmi);
    let plan = plan_claim(claim, clock, devices, may_hold);
    ClaimStart { invalid, slot, plan }
}

/// The last of some VMs with a namespace and name.
pub open spec fn vm_named(vms: Seq<VmInfo>, namespace: Seq<char>, name: Seq<char>) -> Option<VmInfo>
    decreases vms.len(),
{
    if vms.len() == 0 {
        None
    } else if vms.last().namespace@ == namespace && vms.last().name@ == name {
        Some(vms.last())
    } else {
        vm_named(vms.drop_last(), namespace, name)
    }
}

/// The VM with a namespace and name.
pub fn find_vm<'a>(vms: &'a [VmInfo], namespace: &str, name: &str) -> (vm: Option<&'a VmInfo>)
    ensures
        match vm {
            Some(vm) => vm_named(vms@, namespace@, name@) == Some(*vm),
            None => vm_named(vms@, namespace@, name@) is None,
        },
{
    let mut i: usize = vms.len();
    assert(vms@.take(i as int) =~= vms@);
    while i > 0
        invariant
            i <= vms@.len(),
            vm_named(vms@, namespace@, name@) == vm_named(
                vms@.take(i as int),
                namespace@,
                name@,
            ),
        decreases i,
    {
        let vm = &vms[i - 1];
        assert(vms@.take(i as int).last() == *vm);
        assert(vms@.take(i as int).drop_last() =~= vms@.take(i - 1));
        if text_eq(&vm.namespace, namespace) && text_eq(&vm.name, name) {
            return Some(vm);
        }
        i -= 1;
    }
    None
}

/// The last of some instances with a namespace and name.
pub open spec fn vmi_named(
    vmis: Seq<VmiInfo>,
    namespace: Seq<char>,
    name: Seq<char>,
) -> Option<VmiInfo>
    decreases vmis.len(),
{
    if vmis.len() == 0 {
        None
    } else if vmis.last().namespace@ == namespace && vmis.last().name@ == name {
        Some(vmis.last())
    } else {
        vmi_named(vmis.drop_last(), namespace, name)
    }
}

/// The instance with a namespace and name.
pub fn find_vmi<'a>(vmis: &'a [VmiInfo], namespace: &str, name: &str) -> (vmi: Option<&'a VmiInfo>)
    ensures
        match vmi {
            Some(vmi) => vmi_named(vmis@, namespace@, name@) == Some(*vmi),
            None => vmi_named(vmis@, namespace@, name@) is None,
        },
{
    let mut i: usize = vmis.len();
    assert(vmis@.take(i as int) =~= vmis@);
    while i > 0
        invariant
            i <= vmis@.len(),
            vmi_named(vmis@, namespace@, name@) == vmi_named(
                vmis@.take(i as int),
                namespace@,
                name@,
            ),
        decreases i,
    {
        let vmi = &vmis[i - 1];
        assert(vmis@.take(i as int).last() == *vmi);
        assert(vmis@.take(i as int).drop_last() =~= vmis@.take(i - 1));
        if text_eq(&vmi.namespace, namespace) && text_eq(&vmi.name, name) {
            return Some(vmi);
        }
        i -= 1;
    }
    None
}

/// The device kept is one that the claim holds and selects.
pub proof fn lemma_kept_device(claim: UsbDeviceClaim, clock: Clock, devices: Seq<UsbDevice>, n: int)
    requires
        n <= devices.len(),
    ensures
        match kept_device(claim, clock, devices, n) {
            Some(c) => {
                &&& 0 <= c < n
                &&& holds(claim, devices[c])
                &&& claim.spec.selector.selects(devices[c])
                &&& forall|i: int|
                    0 <= i < n && holds(claim, #[trigger] devices[i])
                        && claim.spec.selector.selects(devices[i]) ==> !keeps_rather(
                        claim,
                        clock,
                        devices[i],
                        devices[c],
                    )
            },
            None => forall|i: int|
                0 <= i < n ==> !(holds(claim, #[trigger] devices[i])
                    && claim.spec.selector.selects(devices[i])),
        },
    decreases n,
{
    if n > 0 {
        lemma_kept_device(claim, clock, devices, n - 1);
        let best = kept_device(claim, clock, devices, n - 1);
        let now = kept_device(claim, clock, devices, n);
        if let (Some(b), Some(c)) = (best, now) {
            assert forall|i: int|
                0 <= i < n && holds(claim, #[trigger] devices[i]) && claim.spec.selector.selects(
                    devices[i],
                ) implies !keeps_rather(claim, clock, devices[i], devices[c]) by {
                let (x, y, z) = (
                    devices[i].metadata.any_name(),
                    devices[c].metadata.any_name(),
                    devices[b].metadata.any_name(),
                );
                lemma_text_lt_total(x, y);
                lemma_text_lt_total(x, z);
                lemma_text_lt_total(y, z);
                if text_lt(x, y) && text_lt(y, z) {
                    lemma_text_lt_transitive(x, y, z);
                }
            }
        } else if let Some(c) = now {
            lemma_text_lt_total(
                devices[c].metadata.any_name(),
                devices[c].metadata.any_name(),
            );
        }
    }
}

/// The device to take is free and selected, and none that is rather taken is.
pub proof fn lemma_free_device(claim: UsbDeviceClaim, clock: Clock, devices: Seq<UsbDevice>, n: int)
    requires
        n <= devices.len(),
    ensures
        match free_device(claim, clock, devices, n) {
            Some(c) => {
                &&& 0 <= c < n
                &&& devices[c].holder() is None
                &&& claim.spec.selector.selects(devices[c])
                &&& forall|i: int|
                    0 <= i < n && (#[trigger] devices[i]).holder() is None
                        && claim.spec.selector.selects(devices[i]) ==> !takes_rather(
                        clock,
                        devices[i],
                        devices[c],
                    )
            },
            None => forall|i: int|
                0 <= i < n ==> !((#[trigger] devices[i]).holder() is None
                    && claim.spec.selector.selects(devices[i])),
        },
    decreases n,
{
    if n > 0 {
        lemma_free_device(claim, clock, devices, n - 1);
        let best = free_device(claim, clock, devices, n - 1);
        let now = free_device(claim, clock, devices, n);
        if let (Some(b), Some(c)) = (best, now) {
            assert forall|i: int|
                0 <= i < n && (#[trigger] devices[i]).holder() is None
                    && claim.spec.selector.selects(devices[i]) implies !takes_rather(
                clock,
                devices[i],
                devices[c],
            ) by {
                let (x, y, z) = (
                    devices[i].metadata.any_name(),
                    devices[c].metadata.any_name(),
                    devices[b].metadata.any_name(),
                );
                lemma_text_lt_total(x, y);
                lemma_text_lt_total(x, z);
                lemma_text_lt_total(y, z);
                if text_lt(x, y) && text_lt(y, z) {
                    lemma_text_lt_transitive(x, y, z);
                }
            }
        } else if let Some(c) = now {
            lemma_text_lt_total(
                devices[c].metadata.any_name(),
                devices[c].metadata.any_name(),
            );
        }
    }
}

/// The devices that a claim holds are exactly those leased to it.
pub proof fn lemma_held_devices(claim: UsbDeviceClaim, devices: Seq<UsbDevice>, n: int, i: int)
    requires
        n <= devices.len(),
    ensures
        held_devices(claim, devices, n).contains(i) <==> 0 <= i < n && holds(claim, devices[i]),
    decreases n,
{
    if n > 0 {
        lemma_held_devices(claim, devices, n - 1, i);
        let rest = held_devices(claim, devices, n - 1);
        let all = held_devices(claim, devices, n);
        if rest.contains(i) {
            let k = choose|k: int| 0 <= k < rest.len() && rest[k] == i;
            assert(all[k] == i);
        }
        if holds(claim, devices[n - 1]) {
            assert(all[rest.len() as int] == n - 1);
        }
        if all.contains(i) && i != n - 1 {
            let k = choose|k: int| 0 <= k < all.len() && all[k] == i;
            assert(rest[k] == i);
        }
    }
}

/// A device is never taken from another claim: the device to lease is free, and the device kept is
/// one that the claim holds already. Both are selected.
pub proof fn law_leases_are_exclusive(
    claim: UsbDeviceClaim,
    clock: Clock,
    devices: Seq<UsbDevice>,
    may_hold: bool,
)
    ensures
        ({
            let plan = planned(claim, clock, devices, may_hold);
            &&& plan.candidate matches Some(c) ==> 0 <= c < devices.len() && devices[c].holder()
                is None && claim.spec.selector.selects(devices[c])
            &&& plan.current matches Some(c) ==> 0 <= c < devices.len() && holds(
                claim,
                devices[c],
            ) && claim.spec.selector.selects(devices[c])
        }),
{
    lemma_kept_device(claim, clock, devices, devices.len() as int);
    lemma_free_device(claim, clock, devices, devices.len() as int);
}

/// A claim ends up with at most one device: it gives up every device that it holds but for the one
/// it ends up with.
pub proof fn law_one_device_per_claim(
    claim: UsbDeviceClaim,
    clock: Clock,
    devices: Seq<UsbDevice>,
    may_hold: bool,
    leased: bool,
    i: int,
)
    requires
        0 <= i < devices.len(),
        holds(claim, devices[i]),
    ensures
        ({
            let plan = planned(claim, clock, devices, may_hold);
            plan.given_up(leased).contains(i) <==> plan.target(leased) != Some(i)
        }),
{
    let plan = planned(claim, clock, devices, may_hold);
    let n = devices.len() as int;
    lemma_held_devices(claim, devices, n, i);
    let other = |i: int| plan.target(leased) != Some(i);
    let k = choose|k: int| 0 <= k < plan.held.len() && plan.held[k] == i;
    if other(i) {
        plan.held.lemma_filter_contains(other, k);
    }
    if plan.held.filter(other).contains(i) {
        let j = choose|j: int|
            0 <= j < plan.held.filter(other).len() && plan.held.filter(other)[j] == i;
        plan.held.lemma_filter_pred(other, j);
    }
}

/// A claim that is invalid, or whose VM does not exist, ends up with no device and gives up every
/// device that it holds.
pub proof fn law_only_claims_of_present_vms_hold(
    claim: UsbDeviceClaim,
    clock: Clock,
    devices: Seq<UsbDevice>,
    leased: bool,
    i: int,
)
    requires
        0 <= i < devices.len(),
        holds(claim, devices[i]),
    ensures
        planned(claim, clock, devices, false).target(leased) is None,
        planned(claim, clock, devices, false).candidate is None,
        planned(claim, clock, devices, false).given_up(leased).contains(i),
{
    law_one_device_per_claim(claim, clock, devices, false, leased, i);
}

/// A claim keeps the device that its status names as long as it holds and selects it and it is
/// available, whatever other devices there are.
pub proof fn law_attached_device_is_kept(
    claim: UsbDeviceClaim,
    clock: Clock,
    devices: Seq<UsbDevice>,
    i: int,
    leased: bool,
)
    requires
        0 <= i < devices.len(),
        holds(claim, devices[i]),
        claim.spec.selector.selects(devices[i]),
        clock.sees(devices[i]),
        previous_device(claim) == Some(devices[i].metadata.any_name()),
        forall|j: int|
            0 <= j < devices.len() && j != i ==> (#[trigger] devices[j]).metadata.any_name()
                != devices[i].metadata.any_name(),
    ensures
        planned(claim, clock, devices, true).candidate is None,
        planned(claim, clock, devices, true).target(leased) == Some(i),
{
    let n = devices.len() as int;
    lemma_kept_device(claim, clock, devices, n);
    let c = kept_device(claim, clock, devices, n).unwrap();
    assert(!keeps_rather(claim, clock, devices[i], devices[c]));
}

/// A claim whose device is not available leases a free one that is, if there is one that it
/// selects.
pub proof fn law_available_devices_are_preferred(
    claim: UsbDeviceClaim,
    clock: Clock,
    devices: Seq<UsbDevice>,
    i: int,
)
    requires
        0 <= i < devices.len(),
        devices[i].holder() is None,
        claim.spec.selector.selects(devices[i]),
        clock.sees(devices[i]),
        planned(claim, clock, devices, true).current matches Some(c) ==> !clock.sees(devices[c]),
    ensures
        planned(claim, clock, devices, true).candidate matches Some(c) && clock.sees(devices[c]),
{
    let n = devices.len() as int;
    lemma_kept_device(claim, clock, devices, n);
    lemma_free_device(claim, clock, devices, n);
    let f = free_device(claim, clock, devices, n).unwrap();
    assert(!takes_rather(clock, devices[i], devices[f]));
}

/// A claim that keeps no device leases a free one that it selects, even if none is available, so
/// that it is attached when it is plugged in.
pub proof fn law_unplugged_devices_are_reserved(
    claim: UsbDeviceClaim,
    clock: Clock,
    devices: Seq<UsbDevice>,
    i: int,
)
    requires
        0 <= i < devices.len(),
        devices[i].holder() is None,
        claim.spec.selector.selects(devices[i]),
        planned(claim, clock, devices, true).current is None,
    ensures
        planned(claim, clock, devices, true).candidate is Some,
{
    lemma_free_device(claim, clock, devices, devices.len() as int);
}

/// Whether claims at some indices are in order: none comes strictly before an earlier one.
pub open spec fn in_order(claims: Seq<UsbDeviceClaim>, order: Seq<int>) -> bool {
    forall|j: int, k: int|
        0 <= j < k < order.len() ==> !claim_lt(
            claims[#[trigger] order[k]],
            claims[#[trigger] order[j]],
        )
}

/// The order of claims is a strict weak order.
proof fn lemma_claim_lt(a: UsbDeviceClaim, b: UsbDeviceClaim, c: UsbDeviceClaim)
    ensures
        !claim_lt(a, a),
        claim_lt(a, b) ==> !claim_lt(b, a),
        claim_lt(a, b) && !claim_lt(c, b) ==> claim_lt(a, c),
{
    let (x, y, z) = (a.metadata.any_name(), b.metadata.any_name(), c.metadata.any_name());
    lemma_text_lt_total(x, y);
    lemma_text_lt_total(y, z);
    lemma_text_lt_total(x, z);
    if text_lt(x, y) && text_lt(y, z) {
        lemma_text_lt_transitive(x, y, z);
    }
    let (p, q, r) = (
        a.metadata.namespace.deep_view(),
        b.metadata.namespace.deep_view(),
        c.metadata.namespace.deep_view(),
    );
    if let Some(p) = p {
        lemma_text_lt_total(p, p);
        if let Some(q) = q {
            lemma_text_lt_total(p, q);
            if let Some(r) = r {
                lemma_text_lt_total(q, r);
                lemma_text_lt_total(p, r);
                if text_lt(p, q) && text_lt(q, r) {
                    lemma_text_lt_transitive(p, q, r);
                }
            }
        }
    }
    if let (Some(q), Some(r)) = (q, r) {
        lemma_text_lt_total(q, r);
    }
}

/// Adding an index keeps claims in order, and adds just that index.
proof fn lemma_insert_claim(claims: Seq<UsbDeviceClaim>, order: Seq<int>, i: int)
    requires
        in_order(claims, order),
    ensures
        in_order(claims, insert_claim(claims, order, i)),
        insert_claim(claims, order, i).to_multiset() == order.to_multiset().insert(i),
    decreases order.len(),
{
    broadcast use vstd::seq_lib::group_to_multiset_ensures;

    let after = insert_claim(claims, order, i);
    if order.len() > 0 {
        let rest = order.drop_last();
        let last = order.last();
        assert(order =~= rest.push(last));
        if claim_lt(claims[i], claims[last]) {
            assert forall|j: int, k: int| 0 <= j < k < rest.len() implies !claim_lt(
                claims[#[trigger] rest[k]],
                claims[#[trigger] rest[j]],
            ) by {
                assert(order[j] == rest[j]);
                assert(order[k] == rest[k]);
            }
            lemma_insert_claim(claims, rest, i);
            let head = insert_claim(claims, rest, i);
            assert(after == head.push(last));
            assert(order.to_multiset() =~= rest.to_multiset().insert(last));
            assert(after.to_multiset() =~= order.to_multiset().insert(i));
            assert forall|j: int| 0 <= j < head.len() implies !claim_lt(
                claims[last],
                claims[#[trigger] head[j]],
            ) by {
                assert(head.to_multiset().count(head[j]) > 0) by {
                    assert(head.contains(head[j]));
                }
                if head[j] == i {
                    lemma_claim_lt(claims[i], claims[last], claims[i]);
                } else {
                    assert(rest.to_multiset().count(head[j]) > 0);
                    assert(rest.contains(head[j]));
                    let m = choose|m: int| 0 <= m < rest.len() && rest[m] == head[j];
                    assert(order[m] == rest[m]);
                    assert(order[order.len() - 1] == last);
                }
            }
            assert forall|j: int, k: int| 0 <= j < k < after.len() implies !claim_lt(
                claims[#[trigger] after[k]],
                claims[#[trigger] after[j]],
            ) by {
                assert(after[j] == head[j]);
                if k < head.len() {
                    assert(after[k] == head[k]);
                }
            }
        } else {
            assert forall|j: int, k: int| 0 <= j < k < after.len() implies !claim_lt(
                claims[#[trigger] after[k]],
                claims[#[trigger] after[j]],
            ) by {
                assert(after[j] == order[j]);
                if k < order.len() {
                    assert(after[k] == order[k]);
                } else if j < order.len() - 1 {
                    assert(!claim_lt(claims[order[order.len() - 1]], claims[order[j]]));
                    if claim_lt(claims[i], claims[order[j]]) {
                        lemma_claim_lt(claims[i], claims[order[j]], claims[last]);
                    }
                }
            }
        }
    } else {
        assert(after =~= order.push(i));
    }
}

/// Claims are handled oldest first, and each claim that counts is handled once.
pub proof fn law_oldest_claims_come_first(claims: Seq<UsbDeviceClaim>, n: int)
    requires
        0 <= n <= claims.len(),
    ensures
        in_order(claims, order_of(claims, n)),
        forall|i: int|
            #![trigger order_of(claims, n).to_multiset().count(i)]
            order_of(claims, n).to_multiset().count(i) == (if 0 <= i < n && is_live(claims[i]) {
                1
            } else {
                0nat
            }),
    decreases n,
{
    broadcast use vstd::seq_lib::group_to_multiset_ensures;

    if n > 0 {
        law_oldest_claims_come_first(claims, n - 1);
        if is_live(claims[n - 1]) {
            lemma_insert_claim(claims, order_of(claims, n - 1), n - 1);
        }
        assert forall|i: int|
            #![trigger order_of(claims, n).to_multiset().count(i)]
            order_of(claims, n).to_multiset().count(i) == (if 0 <= i < n && is_live(claims[i]) {
                1
            } else {
                0nat
            }) by {
            assert(order_of(claims, n - 1).to_multiset().count(i) == (if 0 <= i < n - 1
                && is_live(claims[i]) {
                1
            } else {
                0nat
            }));
        }
    }
}

} // verus!
