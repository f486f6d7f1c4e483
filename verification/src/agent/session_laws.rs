//! Which sessions run on a node, and when one is stopped, started and tried again.

use vstd::prelude::*;

use super::attacher::{
    attempt_blocked, connection_json, delay_after, device_named, doubled, report_after, retry_after, session_of, sessions_of, to_start,
    to_stop, AttemptResult, ConnectionView, ReportStep, ReporterView, Retry, SessionView,
    HEALTHY_SESSION_SECS, MAX_BACKOFF_SECS, MIN_BACKOFF_SECS,
};
use crate::controller::claim_laws::{lemma_says, patches_status, says};
use crate::controller::vmi_named;
use crate::crd::{ConnectionState, ConnectionStatus, DevicePhase, UsbDevice, UsbDeviceClaim};
use crate::json::JsonView;
use crate::kubevirt::VmiInfo;
use crate::text::decimal_int;
use crate::util::{second_of, timestamp_nanosecond};

verus! {

/// Whether a device object is the first one with its name.
pub open spec fn first_named(devices: Seq<UsbDevice>, d: int, name: Seq<char>) -> bool {
    &&& 0 <= d < devices.len()
    &&& devices[d].metadata.name matches Some(n) && n@ == name
    &&& forall|j: int|
        0 <= j < d ==> ((#[trigger] devices[j]).metadata.name matches Some(n) ==> n@ != name)
}

/// Whether an instance is the last one with its namespace and name.
pub open spec fn last_named(
    vmis: Seq<VmiInfo>,
    v: int,
    namespace: Seq<char>,
    name: Seq<char>,
) -> bool {
    &&& 0 <= v < vmis.len()
    &&& vmis[v].namespace@ == namespace
    &&& vmis[v].name@ == name
    &&& forall|j: int|
        v < j < vmis.len() ==> !((#[trigger] vmis[j]).namespace@ == namespace && vmis[j].name@
            == name)
}

/// The first device object with a name is the one that is found.
proof fn lemma_device_named(devices: Seq<UsbDevice>, name: Seq<char>)
    ensures
        forall|d: int| #[trigger]
            first_named(devices, d, name) ==> device_named(devices, name) == Some(devices[d]),
        device_named(devices, name) is Some ==> exists|d: int| #[trigger]
            first_named(devices, d, name),
    decreases devices.len(),
{
    if devices.len() > 0 {
        let rest = devices.drop_first();
        lemma_device_named(rest, name);
        let first = devices[0].metadata.name matches Some(n) && n@ == name;
        assert forall|d: int| #[trigger] first_named(devices, d, name) implies device_named(
            devices,
            name,
        ) == Some(devices[d]) by {
            if d > 0 {
                assert(!first);
                assert forall|j: int| 0 <= j < d - 1 implies ((
                #[trigger] rest[j]).metadata.name matches Some(n) ==> n@ != name) by {
                    assert(rest[j] == devices[j + 1]);
                }
                assert(first_named(rest, d - 1, name));
            }
        }
        if device_named(devices, name) is Some {
            if first {
                assert(first_named(devices, 0, name));
            } else {
                let d = choose|d: int| #[trigger] first_named(rest, d, name);
                assert forall|j: int| 0 <= j < d + 1 implies ((
                #[trigger] devices[j]).metadata.name matches Some(n) ==> n@ != name) by {
                    if j > 0 {
                        assert(rest[j - 1] == devices[j]);
                    }
                }
                assert(first_named(devices, d + 1, name));
            }
        }
    }
}

/// The last instance with a namespace and name is the one that is found.
pub proof fn lemma_vmi_named(vmis: Seq<VmiInfo>, namespace: Seq<char>, name: Seq<char>)
    ensures
        forall|v: int| #[trigger]
            last_named(vmis, v, namespace, name) ==> vmi_named(vmis, namespace, name) == Some(
                vmis[v],
            ),
        vmi_named(vmis, namespace, name) is Some ==> exists|v: int| #[trigger]
            last_named(vmis, v, namespace, name),
    decreases vmis.len(),
{
    if vmis.len() > 0 {
        let rest = vmis.drop_last();
        let end = vmis.len() - 1;
        lemma_vmi_named(rest, namespace, name);
        let found = vmis[end].namespace@ == namespace && vmis[end].name@ == name;
        assert forall|v: int| #[trigger] last_named(vmis, v, namespace, name) implies vmi_named(
            vmis,
            namespace,
            name,
        ) == Some(vmis[v]) by {
            if v < end {
                assert(!found);
                assert forall|j: int| v < j < rest.len() implies !((
                #[trigger] rest[j]).namespace@ == namespace && rest[j].name@ == name) by {
                    assert(rest[j] == vmis[j]);
                }
                assert(last_named(rest, v, namespace, name));
            }
        }
        if vmi_named(vmis, namespace, name) is Some {
            if found {
                assert(last_named(vmis, end, namespace, name));
            } else {
                let v = choose|v: int| #[trigger] last_named(rest, v, namespace, name);
                assert forall|j: int| v < j < vmis.len() implies !((
                #[trigger] vmis[j]).namespace@ == namespace && vmis[j].name@ == name) by {
                    if j < end {
                        assert(rest[j] == vmis[j]);
                    }
                }
                assert(last_named(vmis, v, namespace, name));
            }
        }
    }
}

/// Whether all that a session of a claim needs is there: the claim has a uid and a namespace and is
/// not being deleted, its status names a device and a slot, it holds the lease of that device, and
/// its instance runs on the node with client passthrough.
pub open spec fn wants_session(
    node: Seq<char>,
    claim: UsbDeviceClaim,
    devices: Seq<UsbDevice>,
    vmis: Seq<VmiInfo>,
    d: int,
    v: int,
) -> bool {
    &&& !claim.metadata.deleting
    &&& claim.metadata.uid matches Some(uid) && (claim.metadata.namespace matches Some(namespace)
        && (claim.status matches Some(status) && (status.device_name matches Some(name)
        && status.slot is Some && first_named(devices, d, name@) && last_named(
        vmis,
        v,
        namespace@,
        claim.spec.vm_name@,
    ) && (devices[d].status matches Some(ds) && (ds.attached_to matches Some(lease)
        && lease.claim_uid@ == uid@)))))
    &&& vmis[v].phase matches Some(phase) && phase@ == "Running"@
    &&& vmis[v].node matches Some(n) && n@ == node
    &&& vmis[v].client_passthrough
}

/// A claim for which all is there always has a session on the node of its VM, with its device on
/// its slot, whatever else holds of the instance: a paused VM has its devices connected too, so
/// that it only has to resume to take them.
pub proof fn law_leased_devices_get_a_session(
    node: Seq<char>,
    claim: UsbDeviceClaim,
    devices: Seq<UsbDevice>,
    vmis: Seq<VmiInfo>,
    d: int,
    v: int,
)
    requires
        wants_session(node, claim, devices, vmis, d, v),
    ensures
        session_of(node, claim, devices, vmis) == Some(
            SessionView {
                namespace: claim.metadata.namespace.unwrap()@,
                claim: claim.metadata.any_name(),
                uid: claim.metadata.uid.unwrap()@,
                device: claim.status.unwrap().device_name.unwrap()@,
                slot: claim.status.unwrap().slot.unwrap(),
                vmi_uid: vmis[v].uid@,
                vm_name: claim.spec.vm_name@,
            },
        ),
{
    let name = claim.status.unwrap().device_name.unwrap()@;
    lemma_device_named(devices, name);
    lemma_vmi_named(vmis, claim.metadata.namespace.unwrap()@, claim.spec.vm_name@);
    assert(first_named(devices, d, name));
    assert(last_named(vmis, v, claim.metadata.namespace.unwrap()@, claim.spec.vm_name@));
}

/// No claim for which something is missing has a session.
pub proof fn law_sessions_need_everything(
    node: Seq<char>,
    claim: UsbDeviceClaim,
    devices: Seq<UsbDevice>,
    vmis: Seq<VmiInfo>,
)
    requires
        session_of(node, claim, devices, vmis) is Some,
    ensures
        exists|d: int, v: int| #[trigger] wants_session(node, claim, devices, vmis, d, v),
{
    let name = claim.status.unwrap().device_name.unwrap()@;
    let namespace = claim.metadata.namespace.unwrap()@;
    lemma_device_named(devices, name);
    lemma_vmi_named(vmis, namespace, claim.spec.vm_name@);
    let d = choose|d: int| #[trigger] first_named(devices, d, name);
    let v = choose|v: int| #[trigger] last_named(vmis, v, namespace, claim.spec.vm_name@);
    assert(wants_session(node, claim, devices, vmis, d, v));
}

/// The sessions of a node are those of its claims: each claim for which all is there has its
/// session, under its uid, whatever other claims there are with other uids; and there is none under
/// a uid that no such claim has.
pub proof fn law_every_claim_has_its_session(
    node: Seq<char>,
    claims: Seq<UsbDeviceClaim>,
    devices: Seq<UsbDevice>,
    vmis: Seq<VmiInfo>,
    i: int,
    d: int,
    v: int,
)
    requires
        0 <= i < claims.len(),
        wants_session(node, claims[i], devices, vmis, d, v),
        forall|j: int|
            0 <= j < claims.len() && j != i ==> ((#[trigger] claims[j]).metadata.uid matches Some(u)
                ==> u@ != claims[i].metadata.uid.unwrap()@),
    ensures
        ({
            let all = sessions_of(node, claims, devices, vmis);
            let uid = claims[i].metadata.uid.unwrap()@;
            &&& all.contains_key(uid)
            &&& all[uid].device == claims[i].status.unwrap().device_name.unwrap()@
            &&& all[uid].slot == claims[i].status.unwrap().slot.unwrap()
            &&& all[uid].vmi_uid == vmis[v].uid@
            &&& all[uid].vm_name == claims[i].spec.vm_name@
            &&& all[uid].namespace == claims[i].metadata.namespace.unwrap()@
            &&& all[uid].claim == claims[i].metadata.any_name()
            &&& all[uid].uid == uid
        }),
    decreases claims.len(),
{
    let end = claims.len() - 1;
    if i == end {
        law_leased_devices_get_a_session(node, claims[i], devices, vmis, d, v);
        assert(claims.last() == claims[i]);
    } else {
        let rest = claims.drop_last();
        assert(rest[i] == claims[i]);
        assert forall|j: int| 0 <= j < rest.len() && j != i implies ((
        #[trigger] rest[j]).metadata.uid matches Some(u) ==> u@
            != rest[i].metadata.uid.unwrap()@) by {
            assert(rest[j] == claims[j]);
        }
        law_every_claim_has_its_session(node, rest, devices, vmis, i, d, v);
        assert(claims.last() == claims[end]);
        if session_of(node, claims.last(), devices, vmis) is Some {
            assert(claims[end].metadata.uid is Some);
        }
    }
}

/// A running session is stopped exactly if its task has ended, or its claim asks for none or for
/// another one; and a session is started exactly if a claim asks for it and it does not keep
/// running.
pub proof fn law_only_other_sessions_are_stopped(
    running: Map<Seq<char>, (SessionView, bool)>,
    desired: Map<Seq<char>, SessionView>,
    uid: Seq<char>,
)
    ensures
        ({
            let goes_on = running.contains_key(uid) && !running[uid].1 && desired.contains_key(uid)
                && desired[uid] == running[uid].0;
            &&& to_stop(running, desired).contains(uid) <==> running.contains_key(uid) && !goes_on
            &&& to_start(running, desired).contains(uid) <==> desired.contains_key(uid) && !goes_on
        }),
{
}

/// An attempt that has to wait is made again when the cluster changes; one that failed, or ended
/// soon, after the delay; one whose session was healthy, after the shortest delay.
pub proof fn law_healthy_sessions_reconnect_at_once(delay: int, result: AttemptResult)
    requires
        MIN_BACKOFF_SECS <= delay <= MAX_BACKOFF_SECS,
    ensures
        result is Waiting ==> retry_after(delay, result) == Retry::OnChange(30),
        result is Failed ==> retry_after(delay, result) == Retry::After(delay as u64),
        result matches AttemptResult::Ended(secs) ==> retry_after(delay, result) == (if secs >= 30 {
            Retry::After(1)
        } else {
            Retry::After(delay as u64)
        }),
        result matches AttemptResult::Failed(why) ==> report_after(result) == why@,
        result matches AttemptResult::Waiting(why) ==> report_after(result) == why@,
{
    assert(HEALTHY_SESSION_SECS == 30);
}

/// Whether a device is reported as available, with an exporter and a heartbeat that is not too old.
pub open spec fn is_exported(device: UsbDevice, now: int, lost_after: int) -> bool {
    device.status matches Some(s) && {
        &&& s.phase == Some(DevicePhase::Available)
        &&& s.exporter is Some
        &&& s.last_seen matches Some(seen) && (timestamp_nanosecond(seen@) matches Some(then)
            && second_of(now) - second_of(then as int) <= lost_after)
    }
}

/// A session is tried exactly while its device is there, leased to its claim and exported, and its
/// instance is still the one it was meant for.
pub proof fn law_attempts_need_lease_device_and_instance(
    session: SessionView,
    device: Option<&UsbDevice>,
    vmi: Option<&VmiInfo>,
    now: int,
    lost_after: int,
)
    ensures
        attempt_blocked(session, device, vmi, now, lost_after) is None <==> {
            &&& device matches Some(d) && (d.status matches Some(s) && (
            s.attached_to matches Some(lease) && lease.claim_uid@ == session.uid)) && is_exported(
                *d,
                now,
                lost_after,
            )
            &&& vmi matches Some(v) && v.uid@ == session.vmi_uid
        },
{
}

/// A report is written unless it says what the last one said, or says that this node is not
/// connected while another node is; it counts as a change if the state, or whether the device waits
/// for the VM to resume, is not that of the last one.
pub proof fn law_reports_are_written_when_they_say_something_new(
    reporter: ReporterView,
    report: ConnectionView,
    current: Option<&ConnectionStatus>,
    node: Seq<char>,
)
    ensures
        ({
            let elsewhere = current matches Some(c) && c.node@ != node && c.state
                == ConnectionState::Connected;
            let step = reporter.step(report, current, node);
            &&& step == ReportStep::Skip <==> (reporter.last matches Some(last) && last.state
                == report.state && last.message == report.message && last.awaiting_resume
                == report.awaiting_resume) || (report.state == ConnectionState::Disconnected
                && elsewhere)
            &&& step == ReportStep::Write(true) ==> (reporter.last matches Some(last) ==> last.state
                != report.state || last.awaiting_resume != report.awaiting_resume)
            &&& step == ReportStep::Write(false) ==> (reporter.last matches Some(last)
                && last.state == report.state && last.awaiting_resume == report.awaiting_resume)
        }),
{
}

/// A session that cannot be tried says what is missing: the device object, the lease, the device
/// itself with how and where it was last seen, or the instance.
pub proof fn law_blocked_attempts_say_why(
    session: SessionView,
    device: Option<&UsbDevice>,
    vmi: Option<&VmiInfo>,
    now: int,
    lost_after: int,
)
    ensures
        ({
            let why = attempt_blocked(session, device, vmi, now, lost_after);
            let leased = device matches Some(d) && (d.status matches Some(s) && (
            s.attached_to matches Some(lease) && lease.claim_uid@ == session.uid));
            let up = device matches Some(d) && is_exported(*d, now, lost_after);
            &&& device is None ==> why == Some("UsbDevice "@ + session.device + " not found"@)
            &&& device is Some && !leased ==> why == Some(
                "device lease is not held by this claim"@,
            )
            &&& leased && !up ==> why == Some("device is "@ + (
            match device.unwrap().status.unwrap().phase {
                Some(DevicePhase::Available) => "Available"@,
                Some(DevicePhase::Unplugged) => "Unplugged"@,
                Some(DevicePhase::Lost) => "Lost"@,
                None => "unknown"@,
            }) + " (last seen on "@ + (match device.unwrap().status.unwrap().node {
                Some(n) => n@,
                None => "unknown node"@,
            }) + ")"@)
            &&& leased && up && vmi is None ==> why == Some("VirtualMachineInstance not found"@)
            &&& leased && up ==> (vmi matches Some(v) ==> v.uid@ != session.vmi_uid ==> why == Some(
                "VirtualMachineInstance was replaced"@,
            ))
        }),
{
}

/// The delay doubles from failure to failure, from one second to thirty at most.
pub proof fn law_delays_double(delay: int)
    ensures
        doubled(delay) == (if 2 * delay <= 30 {
            2 * delay
        } else {
            30
        }),
        delay_after(0) == 1,
{
}

/// The patch of a report says the state of the connection, from which node, of which device on
/// which slot, since when, and the message; it says that the device waits for the VM to resume, or
/// clears that.
pub proof fn law_connection_patches_say_it_all(
    report: ConnectionView,
    node: Seq<char>,
    device: Seq<char>,
    slot: i32,
    since: Seq<char>,
)
    ensures
        exists|c: JsonView, status: JsonView|
            {
                &&& #[trigger] patches_status(
                    connection_json(report, node, device, slot, since),
                    status,
                )
                &&& #[trigger] says(status, "connection"@, c)
                &&& says(c, "state"@, JsonView::Text(match report.state {
                    ConnectionState::Connecting => "Connecting"@,
                    ConnectionState::Connected => "Connected"@,
                    ConnectionState::Disconnected => "Disconnected"@,
                }))
                &&& says(c, "node"@, JsonView::Text(node))
                &&& says(c, "deviceName"@, JsonView::Text(device))
                &&& says(c, "slot"@, JsonView::Number(decimal_int(slot as int)))
                &&& says(c, "since"@, JsonView::Text(since))
                &&& says(c, "message"@, JsonView::Text(report.message))
                &&& says(c, "awaitingResume"@, if report.awaiting_resume {
                    JsonView::Bool(true)
                } else {
                    JsonView::Null
                })
                &&& c->Object_0.len() == 7
            },
{
    let patch = connection_json(report, node, device, slot, since);
    let status = patch->Object_0[0].1;
    let c = status->Object_0[0].1;
    let list = c->Object_0;
    lemma_says(status->Object_0, 0);
    lemma_says(list, 0);
    lemma_says(list, 1);
    lemma_says(list, 2);
    lemma_says(list, 3);
    lemma_says(list, 4);
    lemma_says(list, 5);
    lemma_says(list, 6);
    assert(patches_status(patch, status));
    assert(says(status, "connection"@, c));
}

/// A device is found by the name of its object, of several the first one listed; an instance by
/// namespace and name, of several the last one.
pub proof fn law_devices_and_instances_are_found_by_name(
    devices: Seq<UsbDevice>,
    vmis: Seq<VmiInfo>,
    namespace: Seq<char>,
    name: Seq<char>,
)
    ensures
        match device_named(devices, name) {
            Some(d) => exists|i: int| #[trigger] first_named(devices, i, name) && devices[i] == d,
            None => forall|i: int| !#[trigger] first_named(devices, i, name),
        },
        match vmi_named(vmis, namespace, name) {
            Some(v) => exists|i: int| #[trigger]
                last_named(vmis, i, namespace, name) && vmis[i] == v,
            None => forall|i: int| !#[trigger] last_named(vmis, i, namespace, name),
        },
{
    lemma_device_named(devices, name);
    lemma_vmi_named(vmis, namespace, name);
    if device_named(devices, name) is Some {
        let i = choose|i: int| #[trigger] first_named(devices, i, name);
        assert(first_named(devices, i, name));
    }
    if vmi_named(vmis, namespace, name) is Some {
        let i = choose|i: int| #[trigger] last_named(vmis, i, namespace, name);
        assert(last_named(vmis, i, namespace, name));
    }
}

} // verus!
