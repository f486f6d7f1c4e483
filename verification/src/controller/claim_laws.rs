//! Which device a claim keeps, leases and gives up, and what is written about it.

use vstd::prelude::*;

use super::claims::{
    attached_to, claim_lt, guarded, in_order, invalid_reason, is_hold_of, is_live, is_lost,
    is_orphaned, is_request_of, kept_device, keeps_rather, law_leases_are_exclusive,
    law_oldest_claims_come_first, law_one_device_per_claim, lemma_free_device, lemma_held_devices,
    lemma_kept_device, lost_json, lost_message, order_of, owners_change, planned, reference_json,
    slot_of, starts, takes_rather, vm_named, ClaimStart, Clock, OutcomeInputs, PlanView, ReportView,
};
use super::boot_hold::{changed_reports, stale_names, BootHoldClaim, StepView};
use super::boot_run::{BootHoldRun, TaskView};
use super::run::{
    lease_of, ClaimRun, ClaimStage, DeviceRun, DeviceStage, Reply, WriteView,
};
use super::slots::SlotRequest;
use crate::crd::{
    ClaimPhase, ConnectionStatus, DevicePhase, DeviceSelector, UsbDevice, UsbDeviceClaim,
};
use crate::identity::normalized_id;
use crate::json::JsonView;
use crate::kubevirt::{
    desired_references, owner_of, reference_views, ReferenceView, VmInfo, VmiInfo,
};
use crate::text::{decimal_int, text_lt};
use crate::util::{rfc3339_text, second_of, timestamp_nanosecond};

verus! {

/// Whether the lease of a device is that of the claim with a uid.
pub open spec fn leased_to(device: UsbDevice, uid: Seq<char>) -> bool {
    device.status matches Some(s) && (s.attached_to matches Some(lease) && lease.claim_uid@ == uid)
}

/// Whether no claim has the lease of a device.
pub open spec fn is_free(device: UsbDevice) -> bool {
    device.status matches Some(s) ==> s.attached_to is None
}

/// Whether a device is plugged in and exported: reported as available, with an exporter and a
/// heartbeat that is not too old.
pub open spec fn is_up(clock: Clock, device: UsbDevice) -> bool {
    device.status matches Some(s) && {
        &&& s.phase == Some(DevicePhase::Available)
        &&& s.exporter is Some
        &&& s.last_seen matches Some(seen) && (timestamp_nanosecond(seen@) matches Some(then)
            && second_of(clock.now@) - second_of(then as int) <= clock.lost_after_secs)
    }
}

/// Whether a device has every attribute that a selector sets.
pub open spec fn has_all(selector: DeviceSelector, device: UsbDevice) -> bool {
    &&& selector.device_name matches Some(w) ==> (device.metadata.name matches Some(h) && h@ == w@)
    &&& selector.vendor_id matches Some(w) ==> normalized_id(w@) == Some(device.spec.vendor_id@)
    &&& selector.product_id matches Some(w) ==> normalized_id(w@) == Some(device.spec.product_id@)
    &&& selector.serial matches Some(w) ==> (device.spec.serial matches Some(h) && h@ == w@)
    &&& selector.product matches Some(w) ==> (device.spec.product matches Some(h) && h@ == w@)
    &&& selector.node matches Some(w) ==> (device.status matches Some(s) && (
    s.node matches Some(h) && h@ == w@))
    &&& selector.port_path matches Some(w) ==> (device.status matches Some(s) && (
    s.port_path matches Some(h) && h@ == w@))
}

/// Whether a claim could keep a device: it holds the lease, and the device is one it asks for.
pub open spec fn could_keep(claim: UsbDeviceClaim, device: UsbDevice) -> bool {
    claim.metadata.uid matches Some(uid) && leased_to(device, uid@) && has_all(
        claim.spec.selector,
        device,
    )
}

/// Whether a claim could take a device: it is free, and one the claim asks for.
pub open spec fn could_take(claim: UsbDeviceClaim, device: UsbDevice) -> bool {
    is_free(device) && has_all(claim.spec.selector, device)
}

/// Whether the status of a claim names a device.
pub open spec fn is_named_by(claim: UsbDeviceClaim, device: UsbDevice) -> bool {
    claim.status matches Some(status) && (status.device_name matches Some(n) && n@
        == device.metadata.any_name())
}

/// What the plan of a claim reads of a device, in terms of the objects themselves.
proof fn lemma_reads(claim: UsbDeviceClaim, clock: Clock, device: UsbDevice)
    requires
        claim.metadata.uid is Some,
    ensures
        super::claims::holds(claim, device) <==> leased_to(device, claim.metadata.uid.unwrap()@),
        device.holder() is None <==> is_free(device),
        claim.spec.selector.selects(device) <==> has_all(claim.spec.selector, device),
        clock.sees(device) <==> is_up(clock, device),
        super::claims::previous_device(claim) == Some(device.metadata.any_name()) <==> is_named_by(
            claim,
            device,
        ),
{
}

/// A device that a claim keeps or leases is one it asks for: it has every attribute that the
/// selector sets. The one it keeps is leased to it, the one it leases is free; and it keeps or
/// leases none unless it may hold one.
pub proof fn law_claims_get_what_they_ask_for(
    claim: UsbDeviceClaim,
    clock: Clock,
    devices: Seq<UsbDevice>,
    may_hold: bool,
)
    requires
        claim.metadata.uid is Some,
    ensures
        ({
            let plan = planned(claim, clock, devices, may_hold);
            &&& plan.candidate matches Some(c) ==> may_hold && 0 <= c < devices.len() && could_take(
                claim,
                devices[c],
            )
            &&& plan.current matches Some(c) ==> may_hold && 0 <= c < devices.len() && could_keep(
                claim,
                devices[c],
            )
        }),
{
    law_leases_are_exclusive(claim, clock, devices, may_hold);
    let plan = planned(claim, clock, devices, may_hold);
    if let Some(c) = plan.candidate {
        lemma_reads(claim, clock, devices[c]);
    }
    if let Some(c) = plan.current {
        lemma_reads(claim, clock, devices[c]);
    }
}

/// A claim that may hold a device keeps one that it could keep, if there is one: rather the one
/// that its status names, then one that is up, then the first by name.
pub proof fn law_claims_keep_the_device_they_had(
    claim: UsbDeviceClaim,
    clock: Clock,
    devices: Seq<UsbDevice>,
    i: int,
)
    requires
        claim.metadata.uid is Some,
        0 <= i < devices.len(),
        could_keep(claim, devices[i]),
    ensures
        planned(claim, clock, devices, true).current matches Some(c) && {
            let (d, other) = (devices[c], devices[i]);
            &&& is_named_by(claim, other) ==> is_named_by(claim, d)
            &&& is_named_by(claim, other) == is_named_by(claim, d) && is_up(clock, other) ==> is_up(
                clock,
                d,
            )
            &&& is_named_by(claim, other) == is_named_by(claim, d) && is_up(clock, other) == is_up(
                clock,
                d,
            ) ==> !text_lt(other.metadata.any_name(), d.metadata.any_name())
        },
{
    let n = devices.len() as int;
    lemma_kept_device(claim, clock, devices, n);
    lemma_reads(claim, clock, devices[i]);
    let c = kept_device(claim, clock, devices, n).unwrap();
    lemma_reads(claim, clock, devices[c]);
    assert(!keeps_rather(claim, clock, devices[i], devices[c]));
}

/// A claim whose device is not up leases a free device that is, if it asks for one; a claim that
/// keeps none leases a free one that it asks for, even if it is not up. It rather leases one that
/// is up, then the first by name.
pub proof fn law_claims_lease_a_device_that_is_up(
    claim: UsbDeviceClaim,
    clock: Clock,
    devices: Seq<UsbDevice>,
    i: int,
)
    requires
        claim.metadata.uid is Some,
        0 <= i < devices.len(),
        could_take(claim, devices[i]),
        is_up(clock, devices[i]) || forall|j: int|
            0 <= j < devices.len() ==> !could_keep(claim, #[trigger] devices[j]),
        forall|j: int|
            0 <= j < devices.len() && could_keep(claim, #[trigger] devices[j]) ==> !is_up(
                clock,
                devices[j],
            ),
    ensures
        planned(claim, clock, devices, true).candidate matches Some(c) && {
            let (d, other) = (devices[c], devices[i]);
            &&& is_up(clock, other) ==> is_up(clock, d)
            &&& is_up(clock, other) == is_up(clock, d) ==> !text_lt(
                other.metadata.any_name(),
                d.metadata.any_name(),
            )
        },
{
    let n = devices.len() as int;
    lemma_kept_device(claim, clock, devices, n);
    lemma_free_device(claim, clock, devices, n);
    lemma_reads(claim, clock, devices[i]);
    assert(devices[i].holder() is None);
    let f = super::claims::free_device(claim, clock, devices, n).unwrap();
    lemma_reads(claim, clock, devices[f]);
    assert(!takes_rather(clock, devices[i], devices[f]));
    if let Some(c) = kept_device(claim, clock, devices, n) {
        lemma_reads(claim, clock, devices[c]);
        assert(could_keep(claim, devices[c]));
    }
}

/// A claim leases no further device while the one it keeps is up, nor one that is not up while it
/// keeps one.
pub proof fn law_claims_do_not_hoard(
    claim: UsbDeviceClaim,
    clock: Clock,
    devices: Seq<UsbDevice>,
    may_hold: bool,
)
    requires
        claim.metadata.uid is Some,
    ensures
        ({
            let plan = planned(claim, clock, devices, may_hold);
            plan.candidate matches Some(f) ==> (plan.current matches Some(c) ==> !is_up(
                clock,
                devices[c],
            ) && is_up(clock, devices[f]))
        }),
{
    let plan = planned(claim, clock, devices, may_hold);
    if let Some(f) = plan.candidate {
        lemma_reads(claim, clock, devices[f]);
    }
    if let Some(c) = plan.current {
        lemma_reads(claim, clock, devices[c]);
    }
}

/// A claim gives up exactly the devices that are leased to it but for one: the one that it just
/// leased, else the one that it keeps.
pub proof fn law_claims_give_up_all_but_one(
    claim: UsbDeviceClaim,
    clock: Clock,
    devices: Seq<UsbDevice>,
    may_hold: bool,
    leased: bool,
    i: int,
)
    requires
        claim.metadata.uid is Some,
    ensures
        ({
            let plan = planned(claim, clock, devices, may_hold);
            let own = if leased && plan.candidate is Some {
                plan.candidate
            } else {
                plan.current
            };
            &&& plan.target(leased) == own
            &&& plan.given_up(leased).contains(i) <==> 0 <= i < devices.len() && leased_to(
                devices[i],
                claim.metadata.uid.unwrap()@,
            ) && own != Some(i)
        }),
{
    let plan = planned(claim, clock, devices, may_hold);
    let n = devices.len() as int;
    lemma_held_devices(claim, devices, n, i);
    if 0 <= i < n {
        lemma_reads(claim, clock, devices[i]);
        if super::claims::holds(claim, devices[i]) {
            law_one_device_per_claim(claim, clock, devices, may_hold, leased, i);
        }
    }
    if plan.given_up(leased).contains(i) {
        plan.held.lemma_filter_contains_rev(|j: int| plan.target(leased) != Some(j), i);
    }
}

/// Claims are handled from the oldest to the youngest, those without a creation time first; claims
/// of the same age by namespace, those without one first, and then by name.
pub proof fn law_older_claims_are_handled_first(claims: Seq<UsbDeviceClaim>, j: int, k: int)
    requires
        0 <= j < k < order_of(claims, claims.len() as int).len(),
    ensures
        ({
            let order = order_of(claims, claims.len() as int);
            let (a, b) = (claims[order[j]].metadata, claims[order[k]].metadata);
            &&& a.creation_timestamp is Some ==> b.creation_timestamp is Some
                && a.creation_timestamp.unwrap() <= b.creation_timestamp.unwrap()
            &&& a.creation_timestamp == b.creation_timestamp ==> {
                &&& a.namespace is Some ==> b.namespace is Some && !text_lt(
                    b.namespace.unwrap()@,
                    a.namespace.unwrap()@,
                )
                &&& a.namespace.deep_view() == b.namespace.deep_view() ==> !text_lt(
                    b.any_name(),
                    a.any_name(),
                )
            }
        }),
{
    law_oldest_claims_come_first(claims, claims.len() as int);
    let order = order_of(claims, claims.len() as int);
    assert(!claim_lt(claims[order[k]], claims[order[j]]));
}

/// A claim is handled exactly if it has a uid and is not being deleted.
pub proof fn law_live_claims_are_handled(claims: Seq<UsbDeviceClaim>, i: int)
    requires
        0 <= i < claims.len(),
    ensures
        order_of(claims, claims.len() as int).contains(i) <==> claims[i].metadata.uid is Some
            && !claims[i].metadata.deleting,
{
    broadcast use vstd::seq_lib::group_to_multiset_ensures;

    let order = order_of(claims, claims.len() as int);
    law_oldest_claims_come_first(claims, claims.len() as int);
    assert(order.to_multiset().count(i) == (if is_live(claims[i]) {
        1
    } else {
        0nat
    }));
}

/// A claim asks for a slot of its VM in its namespace, under its uid and name: the one it pins, and
/// rather the one its status says it had.
pub proof fn law_claims_ask_for_the_slot_they_had(r: SlotRequest, claim: UsbDeviceClaim)
    requires
        is_request_of(r, claim),
    ensures
        claim.metadata.uid matches Some(uid) ==> r.uid@ == uid@,
        claim.metadata.namespace matches Some(ns) ==> r.vm.0@ == ns@,
        r.vm.1@ == claim.spec.vm_name@,
        r.name@ == claim.metadata.any_name(),
        r.pinned == claim.spec.slot,
        claim.status matches Some(status) ==> r.previous == status.slot,
        claim.status is None ==> r.previous is None,
{
}

/// A device is lost exactly if it is reported as available, but its last heartbeat cannot be read
/// or is older than allowed.
pub proof fn law_silent_agents_lose_their_devices(device: UsbDevice, now: int, lost_after: int)
    ensures
        is_lost(device, now, lost_after) <==> (device.status matches Some(s) && s.phase == Some(
            DevicePhase::Available,
        ) && !(s.last_seen matches Some(seen) && (timestamp_nanosecond(seen@) matches Some(then)
            && second_of(now) - second_of(then as int) <= lost_after))),
        lost_message(device, lost_after) == "no heartbeat from the agent on "@ + (
        match device.status {
            Some(s) => match s.node {
                Some(n) => n@,
                None => "?"@,
            },
            None => "?"@,
        }) + " for over "@ + decimal_int(lost_after) + "s"@,
{
}

/// A lease is orphaned exactly if no claim that counts has the uid that it names.
pub proof fn law_leases_of_gone_claims_are_orphaned(device: UsbDevice, live: Seq<Seq<char>>)
    ensures
        is_orphaned(device, live) <==> (device.status matches Some(s) && (
        s.attached_to matches Some(lease) && forall|i: int|
            0 <= i < live.len() ==> #[trigger] live[i] != lease.claim_uid@)),
{
    if let Some(uid) = device.holder() {
        if live.contains(uid) {
            let i = choose|i: int| 0 <= i < live.len() && live[i] == uid;
            assert(live[i] == uid);
        }
    }
}

/// A claim is valid exactly if its selector is, it names a VM, and its slot was not refused.
pub proof fn law_valid_claims_name_a_device_a_vm_and_a_slot(
    claim: UsbDeviceClaim,
    slot: Option<Result<i32, String>>,
)
    ensures
        ({
            let s = claim.spec.selector;
            let named = s.device_name is Some || s.vendor_id is Some || s.product_id is Some
                || s.serial is Some || s.product is Some || s.node is Some || s.port_path is Some;
            let ids = (s.vendor_id matches Some(id) ==> normalized_id(id@) is Some) && (
            s.product_id matches Some(id) ==> normalized_id(id@) is Some);
            let refused = slot matches Some(r) && r is Err;
            &&& invalid_reason(claim, slot) is None <==> named && ids && claim.spec.vm_name@.len()
                > 0 && !refused
            &&& named && ids && claim.spec.vm_name@.len() == 0 ==> invalid_reason(claim, slot)
                == Some("spec.vmName is required"@)
            &&& named && ids && claim.spec.vm_name@.len() > 0 ==> (slot matches Some(Err(why))
                ==> invalid_reason(claim, slot) == Some(why@))
        }),
{
}

/// A claim may hold a device exactly if it is valid and its VM is there and not being deleted: the
/// `VirtualMachine`, or without one the instance.
pub proof fn law_valid_claims_of_present_vms_may_hold(
    start: ClaimStart,
    claim: UsbDeviceClaim,
    clock: Clock,
    devices: Seq<UsbDevice>,
    slots: Map<Seq<char>, Result<i32, String>>,
    vm: Option<&VmInfo>,
    vmi: Option<&VmiInfo>,
)
    requires
        starts(start, claim, clock, devices, slots, vm, vmi),
        claim.metadata.uid is Some,
    ensures
        ({
            let uid = claim.metadata.uid.unwrap()@;
            let there = (vm matches Some(v) && !v.deleting) || (vm is None && (vmi matches Some(v)
                && !v.deleting));
            &&& start.plan@ == planned(claim, clock, devices, start.invalid is None && there)
            &&& start.slot is Some <==> slots.contains_key(uid) && slots[uid] is Ok
            &&& start.slot matches Some(n) ==> slots[uid] == Ok::<i32, String>(n)
            &&& slots.contains_key(uid) ==> start.invalid.deep_view() == invalid_reason(
                claim,
                Some(slots[uid]),
            )
            &&& !slots.contains_key(uid) ==> start.invalid.deep_view() == invalid_reason(
                claim,
                None,
            )
        }),
{
    assert(slot_of(slots, claim) == if slots.contains_key(claim.metadata.uid.unwrap()@) {
        Some(slots[claim.metadata.uid.unwrap()@])
    } else {
        None
    });
}

/// Whether a JSON object has a member.
pub open spec fn says(v: JsonView, key: Seq<char>, value: JsonView) -> bool {
    v matches JsonView::Object(members) && exists|i: int|
        0 <= i < members.len() && (#[trigger] members[i]).0 == key && members[i].1 == value
}

/// An object has each of its members.
pub proof fn lemma_says(members: Seq<(Seq<char>, JsonView)>, i: int)
    requires
        0 <= i < members.len(),
    ensures
        says(JsonView::Object(members), members[i].0, members[i].1),
{
    let v = JsonView::Object(members);
    let list = v->Object_0;
    assert(list[i].0 == members[i].0 && list[i].1 == members[i].1);
}

/// The JSON form of an optional text.
pub open spec fn text_or_null(text: Option<Seq<char>>) -> JsonView {
    match text {
        Some(t) => JsonView::Text(t),
        None => JsonView::Null,
    }
}

/// Whether an object is just the status of a patch.
pub open spec fn patches_status(patch: JsonView, status: JsonView) -> bool {
    patch matches JsonView::Object(members) && members.len() == 1 && members[0] == (
        "status"@,
        status,
    )
}

/// What a claim reports is the phase and message, the device it ended up with and where that is
/// plugged in, its slot and the generation that was looked at; and that a boot-hold report that is
/// no longer wanted is to be dropped.
pub proof fn law_reports_tell_the_outcome(inputs: OutcomeInputs<'_>)
    ensures
        ({
            let r = inputs.report();
            &&& r.device_name == match inputs.device {
                Some(d) => Some(d.metadata.any_name()),
                None => None,
            }
            &&& r.source_node == match inputs.device {
                Some(d) => match d.status {
                    Some(s) => s.node.deep_view(),
                    None => None,
                },
                None => None,
            }
            &&& r.slot == inputs.slot
            &&& r.observed_generation == inputs.claim.metadata.generation
            &&& r.clear_boot_hold <==> inputs.claim.spec.hold_boot is None && (
            inputs.claim.status matches Some(s) && s.boot_hold is Some)
            &&& inputs.invalid matches Some(why) ==> r.phase == ClaimPhase::Invalid && r.message
                == why@
            &&& inputs.invalid is None ==> (r.phase, r.message) == inputs.phase_inputs().outcome()
            &&& inputs.phase_inputs().device == inputs.device
            &&& inputs.phase_inputs().vm == inputs.vm
            &&& inputs.phase_inputs().vmi == inputs.vmi
            &&& inputs.phase_inputs().claim == inputs.claim
            &&& inputs.phase_inputs().slot == inputs.slot
            &&& inputs.phase_inputs().device_available <==> (inputs.device matches Some(d)
                && is_up(inputs.clock, *d))
            &&& inputs.phase_inputs().vm_present <==> (inputs.vm matches Some(v) && !v.deleting)
                || (inputs.vm is None && (inputs.vmi matches Some(v) && !v.deleting))
        }),
{
    if let Some(d) = inputs.device {
        assert(inputs.clock.sees(*d) <==> is_up(inputs.clock, *d));
    }
}

/// The patch of a report sets the phase, the message, the device, its node, the slot and the
/// generation, clearing what is absent, and drops the boot-hold report just if it is to be.
pub proof fn law_report_patches_say_it_all(r: ReportView)
    ensures
        exists|status: JsonView| #[trigger]
            patches_status(r.patch(), status) && {
                &&& says(status, "phase"@, JsonView::Text(match r.phase {
                    ClaimPhase::Pending => "Pending"@,
                    ClaimPhase::DeviceUnavailable => "DeviceUnavailable"@,
                    ClaimPhase::WaitingForVM => "WaitingForVM"@,
                    ClaimPhase::VMNotConfigured => "VMNotConfigured"@,
                    ClaimPhase::Connecting => "Connecting"@,
                    ClaimPhase::Attached => "Attached"@,
                    ClaimPhase::Invalid => "Invalid"@,
                }))
                &&& says(status, "message"@, JsonView::Text(r.message))
                &&& says(status, "deviceName"@, text_or_null(r.device_name))
                &&& says(status, "sourceNode"@, text_or_null(r.source_node))
                &&& says(status, "slot"@, match r.slot {
                    Some(n) => JsonView::Number(decimal_int(n as int)),
                    None => JsonView::Null,
                })
                &&& says(status, "observedGeneration"@, match r.observed_generation {
                    Some(n) => JsonView::Number(decimal_int(n as int)),
                    None => JsonView::Null,
                })
                &&& r.clear_boot_hold ==> says(status, "bootHold"@, JsonView::Null)
                &&& status->Object_0.len() == if r.clear_boot_hold {
                    7
                } else {
                    6int
                }
            },
{
    let members = r.patch()->Object_0;
    let status = members[0].1;
    let list = status->Object_0;
    assert(list[0].0 == "phase"@);
    assert(list[1].0 == "deviceName"@);
    assert(list[2].0 == "sourceNode"@);
    assert(list[3].0 == "slot"@);
    assert(list[4].0 == "message"@);
    assert(list[5].0 == "observedGeneration"@);
    if r.clear_boot_hold {
        assert(list[6] == ("bootHold"@, JsonView::Null));
    }
    assert(patches_status(r.patch(), status));
}

/// A report is written exactly if the status of the claim does not say all of it already.
pub proof fn law_reports_are_written_when_something_changed(r: ReportView, claim: UsbDeviceClaim)
    ensures
        r.is_current(claim) <==> !r.clear_boot_hold && (claim.status matches Some(s) && {
            &&& s.phase == Some(r.phase)
            &&& s.message.deep_view() == Some(r.message)
            &&& s.device_name.deep_view() == r.device_name
            &&& s.source_node.deep_view() == r.source_node
            &&& s.slot == r.slot
            &&& s.observed_generation == r.observed_generation
        }),
{
}

/// Whether a connection shows a device on the slot of a paused VM, which takes it when it resumes.
pub open spec fn waits_on_slot(c: ConnectionStatus, inputs: OutcomeInputs<'_>) -> bool {
    &&& c.awaiting_resume == Some(true)
    &&& inputs.vmi matches Some(vmi) && (vmi.node matches Some(n) && n@ == c.node@)
    &&& inputs.device matches Some(d) && d.metadata.any_name() == c.device_name@
    &&& inputs.slot == Some(c.slot)
}

/// The boot-hold pass looks at the claims that hold a boot: such a claim is ready exactly if its
/// device is attached, or on the slot of the VM, which only has to resume to take it; it holds the
/// boot for as long as it says.
pub proof fn law_devices_on_the_slot_are_ready(
    hold: Option<BootHoldClaim>,
    inputs: OutcomeInputs<'_>,
)
    requires
        is_hold_of(hold, inputs),
    ensures
        hold is Some <==> inputs.claim.spec.hold_boot is Some,
        hold matches Some(h) ==> {
            &&& h.ready <==> inputs.report().phase == ClaimPhase::Attached || (
            inputs.claim.status matches Some(s) && (s.connection matches Some(c) && waits_on_slot(
                c,
                inputs,
            )))
            &&& h.invalid <==> inputs.invalid is Some
            &&& h.timeout_seconds == inputs.claim.spec.hold_boot.unwrap().timeout_seconds
            &&& h.name@ == inputs.claim.metadata.any_name()
            &&& inputs.claim.status matches Some(s) ==> h.current == s.boot_hold
            &&& inputs.claim.status is None ==> h.current is None
        },
{
}

/// The lease that a claim writes names its namespace, name, uid and VM, and since when it is held.
pub proof fn law_leases_name_their_claim(claim: UsbDeviceClaim, clock: Clock)
    requires
        claim.metadata.uid is Some,
        claim.metadata.namespace is Some,
    ensures
        ({
            let lease = lease_of(claim, clock);
            &&& says(lease, "namespace"@, JsonView::Text(claim.metadata.namespace.unwrap()@))
            &&& says(lease, "claim"@, JsonView::Text(claim.metadata.any_name()))
            &&& says(lease, "claimUid"@, JsonView::Text(claim.metadata.uid.unwrap()@))
            &&& says(lease, "vmName"@, JsonView::Text(claim.spec.vm_name@))
            &&& says(lease, "since"@, JsonView::Text(rfc3339_text(clock.now@ as i128)))
        }),
{
    let list = lease_of(claim, clock)->Object_0;
    assert(list[0].0 == "namespace"@);
    assert(list[1].0 == "claim"@);
    assert(list[2].0 == "claimUid"@);
    assert(list[3].0 == "vmName"@);
    assert(list[4].0 == "since"@);
}

/// Whether a patch is guarded by the version of a device and sets a status.
pub open spec fn sets_status(patch: JsonView, device: UsbDevice, status: JsonView) -> bool {
    &&& says(patch, "status"@, status)
    &&& exists|metadata: JsonView| #[trigger]
        says(patch, "metadata"@, metadata) && says(
            metadata,
            "resourceVersion"@,
            text_or_null(device.metadata.resource_version.deep_view()),
        )
}

/// A guarded patch sets the status, and is guarded.
proof fn lemma_sets_status(device: UsbDevice, status: JsonView)
    ensures
        sets_status(guarded(device, status), device, status),
{
    let patch = guarded(device, status);
    let list = patch->Object_0;
    assert(list[0] == ("status"@, status));
    let metadata = list[1].1;
    assert(list[1] == ("metadata"@, metadata));
    assert(metadata->Object_0[0].0 == "resourceVersion"@);
    assert(says(patch, "metadata"@, metadata));
}

/// The check of a device first marks it as lost if its agent is silent, and then takes back its
/// lease if the claim is gone; it writes nothing else.
pub proof fn law_lost_devices_and_orphaned_leases_are_cleared(
    check: DeviceRun,
    device: UsbDevice,
    clock: Clock,
    live: Seq<Seq<char>>,
)
    ensures
        ({
            let next = check.settled(device, clock, live);
            let write = next.write(device, clock);
            let silent = is_lost(device, clock.now@, clock.lost_after_secs as int);
            let gone = is_orphaned(device, live);
            &&& next.requeue == check.requeue
            &&& check.stage == DeviceStage::Heartbeat && silent ==> next.stage
                == DeviceStage::Heartbeat && (write matches Some(patch) && exists|s: JsonView|
                #[trigger] sets_status(patch, device, s) && says(
                    s,
                    "phase"@,
                    JsonView::Text("Lost"@),
                ) && says(s, "exporter"@, JsonView::Null) && says(
                    s,
                    "message"@,
                    JsonView::Text(lost_message(device, clock.lost_after_secs as int)),
                ))
            &&& ((check.stage == DeviceStage::Heartbeat && !silent) || check.stage
                == DeviceStage::Lease) && gone ==> next.stage == DeviceStage::Lease && (
            write matches Some(patch) && exists|s: JsonView| #[trigger]
                sets_status(patch, device, s) && says(s, "attachedTo"@, JsonView::Null))
            &&& ((check.stage == DeviceStage::Heartbeat && !silent) || check.stage
                == DeviceStage::Lease) && !gone ==> next.stage == DeviceStage::Finished && write
                is None
            &&& (check.stage == DeviceStage::Finished || check.stage == DeviceStage::Failed)
                ==> next.stage == check.stage && write is None
        }),
{
    let message = lost_message(device, clock.lost_after_secs as int);
    let lost = lost_json(message);
    lemma_sets_status(device, lost);
    let list = lost->Object_0;
    assert(list[0] == ("phase"@, JsonView::Text("Lost"@)));
    assert(list[1] == ("exporter"@, JsonView::Null));
    assert(list[2] == ("message"@, JsonView::Text(message)));
    let none = attached_to(JsonView::Null);
    lemma_sets_status(device, none);
    assert(none->Object_0[0] == ("attachedTo"@, JsonView::Null));
}

/// A lost race, be it a conflict or an object that is gone, asks for a retry and lets the check go
/// on; another failure ends it; a write that was made just lets it go on.
pub proof fn law_checks_retry_lost_races(check: DeviceRun, reply: Reply)
    requires
        check.stage == DeviceStage::Heartbeat || check.stage == DeviceStage::Lease,
    ensures
        ({
            let next = if check.stage == DeviceStage::Heartbeat {
                DeviceStage::Lease
            } else {
                DeviceStage::Finished
            };
            match reply {
                Reply::Refused(err) => if err.code == Some(409u16) || err.code == Some(404u16) {
                    check.after(reply).stage == next && check.after(reply).requeue
                } else {
                    check.after(reply).stage == DeviceStage::Failed && check.after(reply).requeue
                        == check.requeue
                },
                _ => check.after(reply).stage == next && check.after(reply).requeue
                    == check.requeue,
            }
        }),
{
}

/// Before a claim gives up a device it leases the one it is to lease, so that it never is without
/// one: a lease of the free device is written first, guarded and in the claim's name.
pub proof fn law_leases_come_before_releases(run: ClaimRun<'_>, devices: Seq<UsbDevice>, c: int)
    requires
        run.stage == ClaimStage::Lease,
        run.plan().candidate == Some(c),
    ensures
        run.settled(devices).stage == ClaimStage::Lease,
        run.write(devices) matches Some(WriteView::Device(i, patch)) && i == c && exists|
            s: JsonView,
        | #[trigger]
            sets_status(patch, devices[c], s) && says(
                s,
                "attachedTo"@,
                lease_of(*run.claim, run.clock),
            ),
{
    let lease = attached_to(lease_of(*run.claim, run.clock));
    assert(lease->Object_0[0] == ("attachedTo"@, lease_of(*run.claim, run.clock)));
    lemma_sets_status(devices[c], lease);
}

/// Each device that a claim gives up is released, one after the other, if it is as it was read.
pub proof fn law_given_up_devices_are_released(
    run: ClaimRun<'_>,
    devices: Seq<UsbDevice>,
    k: usize,
)
    requires
        run.stage == ClaimStage::Release(k),
        k < run.given_up().len(),
    ensures
        run.settled(devices).stage == run.stage,
        run.next_stage() == ClaimStage::Release((k + 1) as usize),
        ({
            let i = run.given_up()[k as int];
            run.write(devices) matches Some(WriteView::Device(j, patch)) && j == i && exists|
                s: JsonView,
            | #[trigger]
                sets_status(patch, devices[i], s) && says(s, "attachedTo"@, JsonView::Null)
        }),
{
    let none = attached_to(JsonView::Null);
    let i = run.given_up()[k as int];
    assert(none->Object_0[0] == ("attachedTo"@, JsonView::Null));
    assert(says(none, "attachedTo"@, JsonView::Null));
    lemma_sets_status(devices[i], none);
    let patch = guarded(devices[i], none);
    assert(run.write(devices) == Some(WriteView::Device(i, patch)));
    assert(sets_status(patch, devices[i], none));
}

/// A lost race asks for a retry and lets the reconciliation go on; another failure ends it. Only at
/// the report is a conflict a failure, and a claim that is gone no reason to retry. A lease counts
/// as written only if the server said so.
pub proof fn law_runs_retry_lost_races(run: ClaimRun<'_>, reply: Reply)
    requires
        run.expects(reply),
    ensures
        ({
            let next = run.after(reply);
            let reporting = run.stage == ClaimStage::Report;
            match reply {
                Reply::Refused(err) => {
                    let gone = err.code == Some(404u16);
                    let race = gone || err.code == Some(409u16);
                    &&& next.leased == run.leased
                    &&& !reporting && race ==> next.requeue && next.stage != ClaimStage::Failed
                    &&& reporting && gone ==> next.requeue == run.requeue && next.stage
                        == ClaimStage::Finished
                    &&& (reporting && !gone) || !race ==> next.requeue == run.requeue && next.stage
                        == ClaimStage::Failed
                },
                _ => {
                    &&& next.requeue == run.requeue
                    &&& next.stage != ClaimStage::Failed
                    &&& next.leased <==> run.leased || run.stage == ClaimStage::Lease
                },
            }
        }),
{
}

/// The lifetime of a claim is bound to its VM exactly if it names one and does not have the
/// references yet that it should have; the patch is refused if someone else changed the claim.
pub proof fn law_lifetimes_are_bound_once(
    claim: UsbDeviceClaim,
    vm: Option<&VmInfo>,
    vmi: Option<&VmiInfo>,
)
    ensures
        ({
            let existing = reference_views(claim.metadata.owner_references@);
            let wanted = desired_references(existing, claim.spec.vm_name@, owner_of(vm, vmi));
            &&& owners_change(claim, vm, vmi) is Some <==> claim.spec.vm_name@.len() > 0 && wanted
                != existing
            &&& owners_change(claim, vm, vmi) matches Some(patch) ==> exists|
                metadata: JsonView,
                list: Seq<JsonView>,
            |
                {
                    &&& #[trigger] says(patch, "metadata"@, metadata)
                    &&& says(
                        metadata,
                        "resourceVersion"@,
                        text_or_null(claim.metadata.resource_version.deep_view()),
                    )
                    &&& #[trigger] says(metadata, "ownerReferences"@, JsonView::Array(list))
                    &&& list.len() == wanted.len()
                    &&& forall|i: int|
                        0 <= i < list.len() ==> refers(#[trigger] list[i], wanted[i])
                }
        }),
{
    let existing = reference_views(claim.metadata.owner_references@);
    let wanted = desired_references(existing, claim.spec.vm_name@, owner_of(vm, vmi));
    if let Some(patch) = owners_change(claim, vm, vmi) {
        let metadata = patch->Object_0[0].1;
        let value = metadata->Object_0[1].1;
        let list = value->Array_0;
        lemma_says(patch->Object_0, 0);
        lemma_says(metadata->Object_0, 0);
        lemma_says(metadata->Object_0, 1);
        assert(says(patch, "metadata"@, metadata));
        assert(says(metadata, "ownerReferences"@, JsonView::Array(list)));
        assert forall|i: int| 0 <= i < list.len() implies refers(#[trigger] list[i], wanted[i]) by {
            lemma_refers(wanted[i]);
        }
    }
}

/// Whether a JSON object is an owner reference.
pub open spec fn refers(v: JsonView, r: ReferenceView) -> bool {
    &&& says(v, "apiVersion"@, JsonView::Text(r.api_version))
    &&& says(v, "kind"@, JsonView::Text(r.kind))
    &&& says(v, "name"@, JsonView::Text(r.name))
    &&& says(v, "uid"@, JsonView::Text(r.uid))
    &&& r.controller matches Some(b) ==> says(v, "controller"@, JsonView::Bool(b))
    &&& r.block_owner_deletion matches Some(b) ==> says(
        v,
        "blockOwnerDeletion"@,
        JsonView::Bool(b),
    )
}

/// An owner reference is written as it is.
proof fn lemma_refers(r: ReferenceView)
    ensures
        refers(reference_json(r), r),
{
    let list = reference_json(r)->Object_0;
    let n = list.len() as int;
    lemma_says(list, 0);
    lemma_says(list, n - 1);
    lemma_says(list, n - 2);
    lemma_says(list, n - 3);
    if r.block_owner_deletion is Some {
        lemma_says(list, 1);
    }
    if r.controller is Some {
        lemma_says(list, n - 4);
    }
}

/// In a step of the boot-hold pass a VM is resumed, or the claims that do not say so yet are told, or
/// the reports that no longer hold are dropped: each such claim once, and nothing else is done.
pub proof fn law_steps_are_carried_out(run: BootHoldRun<'_>, step: StepView, task: TaskView)
    ensures
        step matches StepView::Resume(reason) ==> run.tasks_of(step) == seq![
            TaskView::Resume(reason),
        ],
        step matches StepView::Report(state, message) ==> {
            let uid = match run.vmi {
                Some(vmi) => Some(vmi.uid@),
                None => None,
            };
            let reports = changed_reports(run.claims@, state, message, uid, run.now);
            &&& run.tasks_of(step).len() == reports.len()
            &&& forall|i: int|
                0 <= i < reports.len() ==> (#[trigger] run.tasks_of(step)[i]) == TaskView::Write(
                    reports[i].0,
                    Some(reports[i].1),
                )
        },
        step is Clear ==> {
            let uid = match run.vmi {
                Some(vmi) => Some(vmi.uid@),
                None => None,
            };
            let names = stale_names(run.claims@, uid);
            &&& run.tasks_of(step).len() == names.len()
            &&& forall|i: int|
                0 <= i < names.len() ==> (#[trigger] run.tasks_of(step)[i]) == TaskView::Write(
                    names[i],
                    None,
                )
        },
{
}

/// A reconciliation takes its steps in order: it binds the lifetime of the claim, leases the device
/// it is to lease, releases each device it gives up, and reports unless its status says so already.
/// A step with nothing to do is passed over.
pub proof fn law_runs_take_their_steps_in_order(run: ClaimRun<'_>, devices: Seq<UsbDevice>)
    ensures
        ({
            let binds = owners_change(*run.claim, run.vm, run.vmi) is Some;
            let leases = run.plan().candidate is Some;
            let gives_up = run.given_up().len() > 0;
            let reports = !run.inputs(devices).report().is_current(*run.claim);
            let last = if reports {
                ClaimStage::Report
            } else {
                ClaimStage::Finished
            };
            let after_lease = if gives_up {
                ClaimStage::Release(0)
            } else {
                last
            };
            let next = run.settled(devices);
            &&& next.claim == run.claim && next.start == run.start && next.leased == run.leased
                && next.requeue == run.requeue && next.clock == run.clock && next.vm == run.vm
                && next.vmi == run.vmi
            &&& run.stage == ClaimStage::Owners ==> next.stage == if binds {
                ClaimStage::Owners
            } else if leases {
                ClaimStage::Lease
            } else {
                after_lease
            }
            &&& run.stage == ClaimStage::Lease ==> next.stage == if leases {
                ClaimStage::Lease
            } else {
                after_lease
            }
            &&& run.stage matches ClaimStage::Release(k) ==> next.stage == if k
                < run.given_up().len() {
                ClaimStage::Release(k)
            } else {
                last
            }
            &&& run.stage == ClaimStage::Report ==> next.stage == last
            &&& run.stage == ClaimStage::Owners ==> (owners_change(
                *run.claim,
                run.vm,
                run.vmi,
            ) matches Some(patch) ==> run.write(devices) == Some(WriteView::Claim(patch)))
            &&& run.stage == ClaimStage::Report ==> run.write(devices) == Some(
                WriteView::Status(run.inputs(devices).report().patch()),
            )
            &&& run.stage == ClaimStage::Finished || run.stage == ClaimStage::Failed ==> next.stage
                == run.stage && run.write(devices) is None
        }),
{
}

/// After a step that was answered the next one follows.
pub proof fn law_answered_steps_are_done(run: ClaimRun<'_>)
    ensures
        run.stage == ClaimStage::Owners ==> run.next_stage() == ClaimStage::Lease,
        run.stage == ClaimStage::Lease ==> run.next_stage() == ClaimStage::Release(0),
        run.stage == ClaimStage::Report ==> run.next_stage() == ClaimStage::Finished,
{
}

/// What a claim reports is about the device it ended up with, as that device now is: the one it
/// just leased, else the one it keeps.
pub proof fn law_outcomes_are_about_the_device_held(run: ClaimRun<'_>, devices: Seq<UsbDevice>)
    ensures
        ({
            let inputs = run.inputs(devices);
            let own = if run.leased && run.plan().candidate is Some {
                run.plan().candidate
            } else {
                run.plan().current
            };
            &&& inputs.claim == run.claim
            &&& inputs.vm == run.vm
            &&& inputs.vmi == run.vmi
            &&& inputs.slot == run.start.slot
            &&& inputs.clock == run.clock
            &&& own matches Some(i) ==> (inputs.device matches Some(d) && *d == devices[i])
            &&& own is None ==> inputs.device is None
            &&& inputs.invalid is Some <==> run.start.invalid is Some
            &&& run.start.invalid matches Some(why) ==> (inputs.invalid matches Some(w) && w@
                == why@)
        }),
{
}

/// A device that was written is from then on what the server says it is; all other devices, and all
/// devices after a refusal, stay as they were.
pub proof fn law_written_devices_are_updated(
    run: ClaimRun<'_>,
    devices: Seq<UsbDevice>,
    reply: Reply,
    i: int,
)
    requires
        0 <= i < devices.len(),
        run.expects(reply),
        run.start.plan.fits(devices.len()),
    ensures
        ({
            let after = run.devices_after(devices, reply);
            let written = (run.stage == ClaimStage::Lease && run.plan().candidate == Some(i)) || (
            run.stage matches ClaimStage::Release(k) && run.given_up()[k as int] == i);
            &&& after.len() == devices.len()
            &&& reply matches Reply::Updated(d) ==> after[i] == if written {
                d
            } else {
                devices[i]
            }
            &&& !(reply is Updated) ==> after[i] == devices[i]
        }),
{
    let plan = run.plan();
    if let ClaimStage::Release(k) = run.stage {
        let other = |j: int| plan.target(run.leased) != Some(j);
        let w = run.given_up()[k as int];
        assert(plan.held.filter(other).contains(w));
        plan.held.lemma_filter_contains_rev(other, w);
        let m = choose|m: int| 0 <= m < plan.held.len() && plan.held[m] == w;
        assert(run.start.plan.held@[m] < devices.len());
    }
}

/// Whether a VM is the last one with its namespace and name.
pub open spec fn last_vm(vms: Seq<VmInfo>, v: int, namespace: Seq<char>, name: Seq<char>) -> bool {
    &&& 0 <= v < vms.len()
    &&& vms[v].namespace@ == namespace
    &&& vms[v].name@ == name
    &&& forall|j: int|
        v < j < vms.len() ==> !((#[trigger] vms[j]).namespace@ == namespace && vms[j].name@ == name)
}

/// The VM of a claim is found by namespace and name; of several the last one listed.
pub proof fn law_vms_are_found_by_name(vms: Seq<VmInfo>, namespace: Seq<char>, name: Seq<char>)
    ensures
        match vm_named(vms, namespace, name) {
            Some(vm) => exists|v: int| #[trigger]
                last_vm(vms, v, namespace, name) && vms[v] == vm,
            None => forall|j: int|
                0 <= j < vms.len() ==> !((#[trigger] vms[j]).namespace@ == namespace && vms[j].name@
                    == name),
        },
    decreases vms.len(),
{
    if vms.len() > 0 {
        let rest = vms.drop_last();
        let end = vms.len() - 1;
        law_vms_are_found_by_name(rest, namespace, name);
        if vms[end].namespace@ == namespace && vms[end].name@ == name {
            assert(last_vm(vms, end, namespace, name));
        } else if let Some(vm) = vm_named(rest, namespace, name) {
            let v = choose|v: int| #[trigger] last_vm(rest, v, namespace, name) && rest[v] == vm;
            assert(rest[v] == vms[v]);
            assert forall|j: int| v < j < vms.len() implies !((#[trigger] vms[j]).namespace@
                == namespace && vms[j].name@ == name) by {
                if j < end {
                    assert(rest[j] == vms[j]);
                }
            }
            assert(last_vm(vms, v, namespace, name));
        } else {
            assert forall|j: int| 0 <= j < vms.len() implies !((#[trigger] vms[j]).namespace@
                == namespace && vms[j].name@ == name) by {
                if j < end {
                    assert(rest[j] == vms[j]);
                }
            }
        }
    }
}

} // verus!
