//! What holds of every reconciliation, whatever the API server replies.

use vstd::prelude::*;

use super::claims::{
    attached_to, guarded, holds, law_leases_are_exclusive, law_one_device_per_claim,
    lemma_held_devices, lost_json, lost_message, planned,
};
use super::run::{lease_of, ClaimRun, ClaimStage, DeviceRun, DeviceStage, Reply, WriteView};
use crate::crd::{text_or_empty, UsbDevice};
use crate::json::{member, opt_text_json, JsonView};

verus! {

/// Whether the API server accepts a patch of an object that has a version: one that names another
/// version is refused.
pub open spec fn accepts(version: Seq<char>, patch: JsonView) -> bool {
    match patch.field("metadata"@) {
        Some(metadata) => match metadata.field("resourceVersion"@) {
            Some(JsonView::Text(named)) => named == version,
            _ => true,
        },
        None => true,
    }
}

/// A guarded patch is accepted just as long as the device is as it was read.
proof fn lemma_guarded(device: UsbDevice, status: JsonView, version: Seq<char>)
    requires
        device.metadata.resource_version is Some,
    ensures
        accepts(version, guarded(device, status)) <==> device.metadata.resource_version.unwrap()@
            == version,
{
    reveal_strlit("status");
    reveal_strlit("metadata");
    reveal_with_fuel(member, 3);
    let named = opt_text_json(device.metadata.resource_version.deep_view());
    let metadata = JsonView::Object(seq![("resourceVersion"@, named)]);
    let members = Seq::empty().push(("status"@, status)).push(("metadata"@, metadata));
    assert(guarded(device, status) == JsonView::Object(members));
    assert("status"@.len() != "metadata"@.len());
    assert(members.drop_first()[0] == ("metadata"@, metadata));
    assert(guarded(device, status).field("metadata"@) == Some(metadata));
    assert(metadata.field("resourceVersion"@) == Some(named));
}

/// Every write of a device, be it a lease, a release or the mark of a lost device, is accepted
/// just as long as the device is as it was read: nothing that someone else wrote is overwritten.
pub proof fn law_device_writes_are_guarded(
    run: ClaimRun<'_>,
    check: DeviceRun,
    devices: Seq<UsbDevice>,
    i: int,
    version: Seq<char>,
)
    requires
        devices[i].metadata.resource_version is Some,
    ensures
        forall|patch: JsonView|
            run.write(devices) == Some(WriteView::Device(i, patch)) || check.write(
                devices[i],
                run.clock,
            ) == Some(patch) ==> (#[trigger] accepts(version, patch)
                <==> devices[i].metadata.resource_version.unwrap()@ == version),
{
    if let Some(WriteView::Device(j, patch)) = run.write(devices) {
        if j == i {
            match run.stage {
                ClaimStage::Lease => {
                    let lease = lease_of(*run.claim, run.clock);
                    lemma_guarded(devices[i], attached_to(lease), version);
                },
                _ => {
                    lemma_guarded(
                        devices[i],
                        attached_to(JsonView::Null),
                        version,
                    );
                },
            }
        }
    }
    match check.stage {
        DeviceStage::Heartbeat => {
            let message = lost_message(
                devices[i],
                run.clock.lost_after_secs as int,
            );
            lemma_guarded(devices[i], lost_json(message), version);
        },
        _ => {
            lemma_guarded(devices[i], attached_to(JsonView::Null), version);
        },
    }
}

/// Two claims, or two controllers, that race for the same device never both win: if both decided
/// on the same state of the device and one lease was written, so that the device has another
/// version, then the other lease is refused.
pub proof fn law_racing_leases_never_both_win(
    first: ClaimRun<'_>,
    second: ClaimRun<'_>,
    devices: Seq<UsbDevice>,
    others: Seq<UsbDevice>,
    i: int,
    j: int,
    later: Seq<char>,
)
    requires
        first.stage == ClaimStage::Lease,
        second.stage == ClaimStage::Lease,
        first.plan().candidate == Some(i),
        second.plan().candidate == Some(j),
        devices[i].metadata.resource_version is Some,
        devices[i].metadata.resource_version == others[j].metadata.resource_version,
        later != devices[i].metadata.resource_version.unwrap()@,
    ensures
        first.write(devices) matches Some(WriteView::Device(k, patch)) && k == i && accepts(
            devices[i].metadata.resource_version.unwrap()@,
            patch,
        ),
        second.write(others) matches Some(WriteView::Device(k, patch)) && k == j && !accepts(
            later,
            patch,
        ),
{
    let check = DeviceRun { stage: DeviceStage::Finished, requeue: false };
    let read = devices[i].metadata.resource_version.unwrap()@;
    law_device_writes_are_guarded(first, check, devices, i, read);
    law_device_writes_are_guarded(second, check, others, j, later);
}

impl<'a> ClaimRun<'a> {
    /// An upper bound of the number of writes that are left.
    pub open spec fn writes_left(self) -> int {
        let held = self.plan().held.len() as int;
        match self.stage {
            ClaimStage::Owners => held + 3,
            ClaimStage::Lease => held + 2,
            ClaimStage::Release(k) => if k < held {
                held - k + 1
            } else {
                1
            },
            ClaimStage::Report => 1,
            _ => 0,
        }
    }

    /// Where the run is, and what the devices are, after some replies.
    pub open spec fn trace(self, devices: Seq<UsbDevice>, replies: Seq<Reply>) -> (
        ClaimRun<'a>,
        Seq<UsbDevice>,
    )
        decreases replies.len(),
    {
        if replies.len() == 0 {
            (self.settled(devices), devices)
        } else {
            let (run, now) = self.trace(devices, replies.drop_last());
            let after = run.devices_after(now, replies.last());
            (run.after(replies.last()).settled(after), after)
        }
    }

    /// Whether some replies answer what the run writes: each is one that the run waits for, and a
    /// device that was written has the lease that was written.
    pub open spec fn answered(self, devices: Seq<UsbDevice>, replies: Seq<Reply>) -> bool
        decreases replies.len(),
    {
        replies.len() > 0 ==> {
            let run = self.trace(devices, replies.drop_last()).0;
            &&& self.answered(devices, replies.drop_last())
            &&& run.expects(replies.last())
            &&& replies.last() matches Reply::Updated(device) ==> device.holder() == (
            if run.stage == ClaimStage::Lease {
                Some(text_or_empty(self.claim.metadata.uid))
            } else {
                None
            })
        }
    }

    /// Whether the run is at its start.
    pub open spec fn is_new(self, devices: Seq<UsbDevice>, may_hold: bool) -> bool {
        &&& self.plan() == planned(*self.claim, self.clock, devices, may_hold)
        &&& self.stage == ClaimStage::Owners
        &&& !self.leased
        &&& !self.requeue
    }
}

/// A run ends: each reply leaves fewer writes.
pub proof fn law_runs_end(run: ClaimRun<'_>, devices: Seq<UsbDevice>, reply: Reply)
    requires
        run.expects(reply),
    ensures
        0 <= run.after(reply).settled(devices).writes_left() < run.writes_left(),
{
    let plan = run.plan();
    let next = run.after(reply);
    plan.held.lemma_filter_len(|i: int| plan.target(run.leased) != Some(i));
    plan.held.lemma_filter_len(|i: int| plan.target(next.leased) != Some(i));
    assert(run.start.plan.held.len() == plan.held.len());
}

/// How far a run has come with the devices that it gives up.
spec fn released(run: ClaimRun<'_>) -> int {
    match run.stage {
        ClaimStage::Owners | ClaimStage::Lease => 0,
        ClaimStage::Release(k) => k as int,
        _ => run.given_up().len() as int,
    }
}

/// What holds of a run that has not failed.
spec fn midway(run: ClaimRun<'_>, devices: Seq<UsbDevice>, now: Seq<UsbDevice>) -> bool {
    let begun = run.stage == ClaimStage::Owners || run.stage == ClaimStage::Lease;
    &&& begun ==> !run.leased
    &&& released(run) <= run.given_up().len()
    &&& run.leased ==> run.plan().candidate is Some && holds(
        *run.claim,
        now[run.plan().candidate.unwrap()],
    )
    &&& !begun && !run.requeue && !run.leased ==> run.plan().candidate is None
    &&& !run.requeue ==> forall|j: int|
        0 <= j < released(run) ==> now[#[trigger] run.given_up()[j]].holder() is None
    &&& forall|i: int|
        0 <= i < now.len() && !run.given_up().contains(i) && run.plan().candidate != Some(i) ==> (
        #[trigger] now[i]) == devices[i]
}

/// The devices given up are held, and the candidate is none of them.
proof fn lemma_given_up(run: ClaimRun<'_>, devices: Seq<UsbDevice>, may_hold: bool)
    requires
        run.plan() == planned(*run.claim, run.clock, devices, may_hold),
    ensures
        forall|k: int|
            0 <= k < run.given_up().len() ==> {
                let i = #[trigger] run.given_up()[k];
                &&& 0 <= i < devices.len()
                &&& holds(*run.claim, devices[i])
                &&& run.plan().candidate != Some(i)
            },
        run.plan().candidate matches Some(c) ==> 0 <= c < devices.len() && devices[c].holder()
            is None,
{
    let plan = run.plan();
    let other = |i: int| plan.target(run.leased) != Some(i);
    law_leases_are_exclusive(*run.claim, run.clock, devices, may_hold);
    assert forall|k: int| 0 <= k < run.given_up().len() implies {
        let i = #[trigger] run.given_up()[k];
        &&& 0 <= i < devices.len()
        &&& holds(*run.claim, devices[i])
        &&& plan.candidate != Some(i)
    } by {
        let i = run.given_up()[k];
        assert(plan.held.filter(other).contains(i));
        plan.held.lemma_filter_contains_rev(other, i);
        lemma_held_devices(*run.claim, devices, devices.len() as int, i);
    }
}

/// What holds of a run after some replies.
proof fn lemma_trace(
    run: ClaimRun<'_>,
    devices: Seq<UsbDevice>,
    may_hold: bool,
    replies: Seq<Reply>,
)
    requires
        run.is_new(devices, may_hold),
        run.answered(devices, replies),
    ensures
        ({
            let (end, now) = run.trace(devices, replies);
            &&& end.claim == run.claim
            &&& end.clock == run.clock
            &&& end.start == run.start
            &&& now.len() == devices.len()
            &&& forall|i: int|
                0 <= i < now.len() && !run.plan().held.contains(i) && run.plan().candidate != Some(
                    i,
                ) ==> (#[trigger] now[i]) == devices[i]
            &&& end.stage != ClaimStage::Failed ==> midway(end, devices, now)
        }),
    decreases replies.len(),
{
    lemma_given_up(run, devices, may_hold);
    if replies.len() > 0 {
        let reply = replies.last();
        lemma_trace(run, devices, may_hold, replies.drop_last());
        let (last, before) = run.trace(devices, replies.drop_last());
        let after = last.devices_after(before, reply);
        let next = last.after(reply);
        lemma_given_up(last, devices, may_hold);
        lemma_given_up(next, devices, may_hold);
        if let Some(w) = last.written_device() {
            if last.stage != ClaimStage::Lease {
                let plan = run.plan();
                let other = |i: int| plan.target(last.leased) != Some(i);
                assert(plan.held.filter(other).contains(w));
                plan.held.lemma_filter_contains_rev(other, w);
            }
        }
        if next.stage != ClaimStage::Failed {
            assert(midway(next, devices, after));
        }
    }
}

/// A run never touches a device that another claim holds, whatever the replies to its writes are.
pub proof fn law_runs_respect_other_claims(
    run: ClaimRun<'_>,
    devices: Seq<UsbDevice>,
    may_hold: bool,
    replies: Seq<Reply>,
    i: int,
)
    requires
        run.is_new(devices, may_hold),
        run.answered(devices, replies),
        0 <= i < devices.len(),
        devices[i].holder() is Some,
        !holds(*run.claim, devices[i]),
    ensures
        run.trace(devices, replies).1[i] == devices[i],
{
    lemma_trace(run, devices, may_hold, replies);
    lemma_held_devices(*run.claim, devices, devices.len() as int, i);
    law_leases_are_exclusive(*run.claim, run.clock, devices, may_hold);
}

/// A run that finishes without a lost race leaves its claim with just the device that it was to
/// end up with: it leased the free device it was to lease, and released all others.
pub proof fn law_finished_runs_hold_one_device(
    run: ClaimRun<'_>,
    devices: Seq<UsbDevice>,
    may_hold: bool,
    replies: Seq<Reply>,
    i: int,
)
    requires
        run.is_new(devices, may_hold),
        run.answered(devices, replies),
        run.trace(devices, replies).0.stage == ClaimStage::Finished,
        !run.trace(devices, replies).0.requeue,
        0 <= i < devices.len(),
    ensures
        run.trace(devices, replies).0.leased <==> run.plan().candidate is Some,
        holds(*run.claim, run.trace(devices, replies).1[i]) <==> run.plan().target(true) == Some(i),
{
    let (end, now) = run.trace(devices, replies);
    lemma_trace(run, devices, may_hold, replies);
    lemma_given_up(end, devices, may_hold);
    lemma_held_devices(*run.claim, devices, devices.len() as int, i);
    law_leases_are_exclusive(*run.claim, run.clock, devices, may_hold);
    if holds(*run.claim, devices[i]) {
        law_one_device_per_claim(*run.claim, run.clock, devices, may_hold, end.leased, i);
    }
    if end.given_up().contains(i) {
        let k = choose|k: int| 0 <= k < end.given_up().len() && end.given_up()[k] == i;
        assert(now[end.given_up()[k]].holder() is None);
    }
}

} // verus!
