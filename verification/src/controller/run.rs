//! The writes of a reconciliation, one by one: which write comes next, and what follows from the
//! reply of the API server to it.

use vstd::prelude::*;

use super::boot_hold::BootHoldClaim;
use super::claims::{
    attached_to, boot_hold_claim, guarded, has_orphaned_lease, indices, is_hold_of, is_lost,
    is_orphaned, lease_json, lease_patch, lost_device, lost_json, lost_message, lost_patch,
    new_lease, opt_index, opt_value, owner_patch, owners_change, release_patch, report_claim,
    start_claim, starts, ClaimStart, Clock, OutcomeInputs, PlanView,
};
use crate::crd::{text_or_empty, UsbDevice, UsbDeviceClaim};
use crate::json::{JsonView, Value};
use crate::kubevirt::{VmInfo, VmiInfo};
use crate::table::Table;
use crate::util::{is_conflict, is_not_found, rfc3339_text, KubeError};

verus! {

/// How the API server replied to a write.
pub enum Reply {
    /// The claim was written.
    Written,
    /// The device was written and is now this one.
    Updated(UsbDevice),
    /// Nothing was written.
    Refused(KubeError),
}

/// Whether someone else changed or deleted the object first.
pub open spec fn is_lost_race(err: KubeError) -> bool {
    err.code == Some(409u16) || err.code == Some(404u16)
}

/// Whether someone else changed or deleted the object first.
pub fn lost_race(err: &KubeError) -> (lost: bool)
    ensures
        lost == is_lost_race(*err),
{
    is_conflict(err) || is_not_found(err)
}

/// How far the check of a device is.
#[derive(Clone, Copy, Debug, PartialEq, Eq, Structural)]
pub enum DeviceStage {
    /// Whether its agent still sends heartbeats.
    Heartbeat,
    /// Whether the claim that it is leased to still counts.
    Lease,
    Finished,
    /// A write failed for another reason than a lost race.
    Failed,
}

/// The check of a device.
pub struct DeviceRun {
    pub stage: DeviceStage,
    /// A quick retry is needed (lost an optimistic-concurrency race).
    pub requeue: bool,
}

impl DeviceRun {
    /// Moves on to the next stage with something to write.
    pub open spec fn settled(
        self,
        device: UsbDevice,
        clock: Clock,
        live: Seq<Seq<char>>,
    ) -> DeviceRun {
        let lease = if is_orphaned(device, live) {
            DeviceStage::Lease
        } else {
            DeviceStage::Finished
        };
        let stage = match self.stage {
            DeviceStage::Heartbeat => if is_lost(
                device,
                clock.now@,
                clock.lost_after_secs as int,
            ) {
                DeviceStage::Heartbeat
            } else {
                lease
            },
            DeviceStage::Lease => lease,
            other => other,
        };
        DeviceRun { stage, requeue: self.requeue }
    }

    /// What is to be written: that the device is lost, or that it is not leased any more.
    pub open spec fn write(self, device: UsbDevice, clock: Clock) -> Option<JsonView> {
        match self.stage {
            DeviceStage::Heartbeat => Some(
                guarded(device, lost_json(lost_message(device, clock.lost_after_secs as int))),
            ),
            DeviceStage::Lease => Some(guarded(device, attached_to(JsonView::Null))),
            _ => None,
        }
    }

    /// The stage behind this one.
    pub open spec fn next_stage(self) -> DeviceStage {
        match self.stage {
            DeviceStage::Heartbeat => DeviceStage::Lease,
            _ => DeviceStage::Finished,
        }
    }

    /// What follows from a reply: a lost race asks for a retry, another failure ends the check.
    pub open spec fn after(self, reply: Reply) -> DeviceRun {
        match reply {
            Reply::Refused(err) => if is_lost_race(err) {
                DeviceRun { stage: self.next_stage(), requeue: true }
            } else {
                DeviceRun { stage: DeviceStage::Failed, requeue: self.requeue }
            },
            _ => DeviceRun { stage: self.next_stage(), requeue: self.requeue },
        }
    }

    /// Starts the check of a device.
    pub fn new() -> (run: DeviceRun)
        ensures
            run == (DeviceRun { stage: DeviceStage::Heartbeat, requeue: false }),
    {
        DeviceRun { stage: DeviceStage::Heartbeat, requeue: false }
    }

    /// What is to be written next of a device; nothing if its check is over.
    pub fn next(&mut self, device: &UsbDevice, clock: Clock, live_uids: &[String]) -> (patch:
        Option<Value>)
        ensures
            *final(self) == old(self).settled(*device, clock, live_uids.deep_view()),
            opt_value(patch) == final(self).write(*device, clock),
    {
        if self.stage == DeviceStage::Heartbeat {
            if let Some(message) = lost_device(device, clock.now, clock.lost_after_secs) {
                return Some(lost_patch(device, &message));
            }
            self.stage = DeviceStage::Lease;
        }
        if self.stage == DeviceStage::Lease {
            if has_orphaned_lease(device, live_uids) {
                return Some(release_patch(device));
            }
            self.stage = DeviceStage::Finished;
        }
        None
    }

    /// Takes the reply to the write of a device.
    pub fn advance(&mut self, device: &mut UsbDevice, reply: Reply)
        requires
            old(self).stage == DeviceStage::Heartbeat || old(self).stage == DeviceStage::Lease,
            !(reply is Written),
        ensures
            *final(self) == old(self).after(reply),
            *final(device) == (match reply {
                Reply::Updated(updated) => updated,
                _ => *old(device),
            }),
    {
        match reply {
            Reply::Refused(err) => {
                if !lost_race(&err) {
                    self.stage = DeviceStage::Failed;
                    return;
                }
                self.requeue = true;
            },
            Reply::Updated(updated) => {
                *device = updated;
            },
            Reply::Written => {},
        }
        self.stage = if self.stage == DeviceStage::Heartbeat {
            DeviceStage::Lease
        } else {
            DeviceStage::Finished
        };
    }
}

/// How far the reconciliation of a claim is.
#[derive(Clone, Copy, Debug, PartialEq, Eq, Structural)]
pub enum ClaimStage {
    /// Its lifetime is bound to that of its VM.
    Owners,
    /// It leases a free device.
    Lease,
    /// It releases the devices that it gives up, from this one on.
    Release(usize),
    /// It reports its phase.
    Report,
    Finished,
    /// A write failed for another reason than a lost race.
    Failed,
}

/// A write that the reconciliation of a claim asks for.
pub enum ClaimWrite {
    /// A patch of the claim.
    Claim(Value),
    /// A patch of the status of the device with an index.
    Device(usize, Value),
    /// A patch of the status of the claim.
    Status(Value),
}

/// What a [`ClaimWrite`] holds.
pub enum WriteView {
    Claim(JsonView),
    Device(int, JsonView),
    Status(JsonView),
}

impl View for ClaimWrite {
    type V = WriteView;

    open spec fn view(&self) -> WriteView {
        match self {
            ClaimWrite::Claim(patch) => WriteView::Claim(patch@),
            ClaimWrite::Device(i, patch) => WriteView::Device(*i as int, patch@),
            ClaimWrite::Status(patch) => WriteView::Status(patch@),
        }
    }
}

/// The reconciliation of a claim.
pub struct ClaimRun<'a> {
    pub claim: &'a UsbDeviceClaim,
    pub vm: Option<&'a VmInfo>,
    pub vmi: Option<&'a VmiInfo>,
    pub clock: Clock,
    pub start: ClaimStart,
    pub stage: ClaimStage,
    /// The lease of the candidate was written.
    pub leased: bool,
    /// A quick retry is needed (lost an optimistic-concurrency race).
    pub requeue: bool,
}

/// The JSON form of the lease of a claim.
pub open spec fn lease_of(claim: UsbDeviceClaim, clock: Clock) -> JsonView {
    lease_json(
        text_or_empty(claim.metadata.namespace),
        claim.metadata.any_name(),
        text_or_empty(claim.metadata.uid),
        claim.spec.vm_name@,
        rfc3339_text(clock.now@ as i128),
    )
}

impl<'a> ClaimRun<'a> {
    /// Which devices the claim holds, keeps and is to lease.
    pub open spec fn plan(self) -> PlanView {
        self.start.plan@
    }

    /// The devices that the claim gives up.
    pub open spec fn given_up(self) -> Seq<int> {
        self.plan().given_up(self.leased)
    }

    /// What the outcome for the claim depends on.
    pub open spec fn inputs(self, devices: Seq<UsbDevice>) -> OutcomeInputs<'a> {
        OutcomeInputs {
            claim: self.claim,
            invalid: match self.start.invalid {
                Some(reason) => Some(&reason),
                None => None,
            },
            device: match self.plan().target(self.leased) {
                Some(i) => Some(&devices[i]),
                None => None,
            },
            vm: self.vm,
            vmi: self.vmi,
            slot: self.start.slot,
            clock: self.clock,
        }
    }

    /// Where the run is once it has come to the report.
    pub open spec fn report_stage(self, devices: Seq<UsbDevice>) -> ClaimStage {
        if self.inputs(devices).report().is_current(*self.claim) {
            ClaimStage::Finished
        } else {
            ClaimStage::Report
        }
    }

    /// Where the run is once it has come to the release of the device at a place.
    pub open spec fn release_stage(self, devices: Seq<UsbDevice>, k: usize) -> ClaimStage {
        if k < self.given_up().len() {
            ClaimStage::Release(k)
        } else {
            self.report_stage(devices)
        }
    }

    /// Where the run is once it has come to the lease.
    pub open spec fn lease_stage(self, devices: Seq<UsbDevice>) -> ClaimStage {
        if self.plan().candidate is Some {
            ClaimStage::Lease
        } else {
            self.release_stage(devices, 0)
        }
    }

    /// Moves on to the next stage with something to write.
    pub open spec fn settled(self, devices: Seq<UsbDevice>) -> ClaimRun<'a> {
        let stage = match self.stage {
            ClaimStage::Owners => if owners_change(*self.claim, self.vm, self.vmi) is Some {
                ClaimStage::Owners
            } else {
                self.lease_stage(devices)
            },
            ClaimStage::Lease => self.lease_stage(devices),
            ClaimStage::Release(k) => self.release_stage(devices, k),
            ClaimStage::Report => self.report_stage(devices),
            other => other,
        };
        ClaimRun { stage, ..self }
    }

    /// What is to be written.
    pub open spec fn write(self, devices: Seq<UsbDevice>) -> Option<WriteView> {
        match self.stage {
            ClaimStage::Owners => match owners_change(*self.claim, self.vm, self.vmi) {
                Some(patch) => Some(WriteView::Claim(patch)),
                None => None,
            },
            ClaimStage::Lease => match self.plan().candidate {
                Some(c) => Some(
                    WriteView::Device(
                        c,
                        guarded(devices[c], attached_to(lease_of(*self.claim, self.clock))),
                    ),
                ),
                None => None,
            },
            ClaimStage::Release(k) => {
                let i = self.given_up()[k as int];
                Some(WriteView::Device(i, guarded(devices[i], attached_to(JsonView::Null))))
            },
            ClaimStage::Report => Some(
                WriteView::Status(self.inputs(devices).report().patch()),
            ),
            _ => None,
        }
    }

    /// Whether the run waits for such a reply.
    pub open spec fn expects(self, reply: Reply) -> bool {
        match self.stage {
            ClaimStage::Owners | ClaimStage::Report => !(reply is Updated),
            ClaimStage::Lease => self.plan().candidate is Some && !(reply is Written),
            ClaimStage::Release(k) => k < self.given_up().len() && !(reply is Written),
            _ => false,
        }
    }

    /// The stage behind this one.
    pub open spec fn next_stage(self) -> ClaimStage {
        match self.stage {
            ClaimStage::Owners => ClaimStage::Lease,
            ClaimStage::Lease => ClaimStage::Release(0),
            ClaimStage::Release(k) => ClaimStage::Release((k + 1) as usize),
            _ => ClaimStage::Finished,
        }
    }

    /// What follows from a reply: a lost race asks for a retry, another failure ends the run. That
    /// the claim is gone by the time of its report is neither.
    pub open spec fn after(self, reply: Reply) -> ClaimRun<'a> {
        match reply {
            Reply::Refused(err) => if self.stage == ClaimStage::Report && err.code == Some(404u16) {
                ClaimRun { stage: self.next_stage(), ..self }
            } else if self.stage != ClaimStage::Report && is_lost_race(err) {
                ClaimRun { stage: self.next_stage(), requeue: true, ..self }
            } else {
                ClaimRun { stage: ClaimStage::Failed, ..self }
            },
            _ => ClaimRun {
                stage: self.next_stage(),
                leased: self.leased || self.stage == ClaimStage::Lease,
                ..self
            },
        }
    }

    /// The device that the run writes.
    pub open spec fn written_device(self) -> Option<int> {
        match self.stage {
            ClaimStage::Lease => self.plan().candidate,
            ClaimStage::Release(k) => Some(self.given_up()[k as int]),
            _ => None,
        }
    }

    /// The devices after a reply.
    pub open spec fn devices_after(self, devices: Seq<UsbDevice>, reply: Reply) -> Seq<UsbDevice> {
        match (reply, self.written_device()) {
            (Reply::Updated(device), Some(i)) => devices.update(i, device),
            _ => devices,
        }
    }

    /// Starts the reconciliation of a claim.
    pub fn new(
        claim: &'a UsbDeviceClaim,
        clock: Clock,
        devices: &[UsbDevice],
        slots: &Table<String, Result<i32, String>>,
        vm: Option<&'a VmInfo>,
        vmi: Option<&'a VmiInfo>,
    ) -> (run: ClaimRun<'a>)
        ensures
            run.claim == claim,
            run.vm == vm,
            run.vmi == vmi,
            run.clock == clock,
            starts(run.start, *claim, clock, devices@, slots@, vm, vmi),
            run.stage == ClaimStage::Owners,
            !run.leased,
            !run.requeue,
    {
        let start = start_claim(claim, clock, devices, slots, vm, vmi);
        ClaimRun {
            claim,
            vm,
            vmi,
            clock,
            start,
            stage: ClaimStage::Owners,
            leased: false,
            requeue: false,
        }
    }

    /// What the outcome for the claim depends on.
    pub fn outcome_inputs<'b>(&'b self, devices: &'b [UsbDevice]) -> (inputs: OutcomeInputs<'b>)
        requires
            self.start.plan.fits(devices@.len()),
        ensures
            inputs == self.inputs(devices@),
    {
        OutcomeInputs {
            claim: self.claim,
            invalid: self.start.invalid.as_ref(),
            device: match self.start.plan.target(self.leased) {
                Some(i) => Some(&devices[i]),
                None => None,
            },
            vm: self.vm,
            vmi: self.vmi,
            slot: self.start.slot,
            clock: self.clock,
        }
    }

    /// What is to be written next; nothing if the run is over.
    pub fn next(&mut self, devices: &[UsbDevice]) -> (write: Option<ClaimWrite>)
        requires
            old(self).start.plan.fits(devices@.len()),
        ensures
            *final(self) == old(self).settled(devices@),
            match write {
                Some(w) => final(self).write(devices@) == Some(w@),
                None => final(self).write(devices@) is None,
            },
    {
        if self.stage == ClaimStage::Owners {
            // Bind the claim's lifetime to its VM so deleting the VM garbage-collects the claim.
            if let Some(patch) = owner_patch(self.claim, self.vm, self.vmi) {
                return Some(ClaimWrite::Claim(patch));
            }
            self.stage = ClaimStage::Lease;
        }
        if self.stage == ClaimStage::Lease {
            if let Some(c) = self.start.plan.candidate {
                let lease = new_lease(self.claim, self.clock.now);
                return Some(ClaimWrite::Device(c, lease_patch(&devices[c], &lease)));
            }
            self.stage = ClaimStage::Release(0);
        }
        if let ClaimStage::Release(k) = self.stage {
            let given_up = self.start.plan.given_up(self.leased);
            if k < given_up.len() {
                let i = given_up[k];
                assert(self.given_up()[k as int] == i);
                return Some(ClaimWrite::Device(i, release_patch(&devices[i])));
            }
            self.stage = ClaimStage::Report;
        }
        if self.stage == ClaimStage::Report {
            let report = report_claim(&self.outcome_inputs(devices));
            if !report.is_current(self.claim) {
                return Some(ClaimWrite::Status(report.patch()));
            }
            self.stage = ClaimStage::Finished;
        }
        None
    }

    /// Takes the reply to a write.
    pub fn advance(&mut self, devices: &mut Vec<UsbDevice>, reply: Reply)
        requires
            old(self).start.plan.fits(old(devices)@.len()),
            old(self).expects(reply),
        ensures
            *final(self) == old(self).after(reply),
            final(devices)@ == old(self).devices_after(old(devices)@, reply),
    {
        let written = self.written();
        match reply {
            Reply::Refused(err) => {
                let gone = self.stage == ClaimStage::Report && is_not_found(&err);
                let race = self.stage != ClaimStage::Report && lost_race(&err);
                if !gone && !race {
                    self.stage = ClaimStage::Failed;
                    return;
                }
                self.requeue = self.requeue || race;
            },
            Reply::Updated(device) => {
                if let Some(i) = written {
                    devices.set(i, device);
                }
                self.leased = self.leased || self.stage == ClaimStage::Lease;
            },
            Reply::Written => {},
        }
        self.stage = match self.stage {
            ClaimStage::Owners => ClaimStage::Lease,
            ClaimStage::Lease => ClaimStage::Release(0),
            ClaimStage::Release(k) => ClaimStage::Release(k + 1),
            _ => ClaimStage::Finished,
        };
    }

    /// The device that the run writes.
    fn written(&self) -> (device: Option<usize>)
        requires
            self.stage matches ClaimStage::Release(k) ==> k < self.given_up().len(),
        ensures
            opt_index(device) == self.written_device(),
            self.stage matches ClaimStage::Release(k) ==> k < usize::MAX,
            forall|n: nat|
                #[trigger] self.start.plan.fits(n) ==> (device matches Some(i) ==> i < n),
    {
        match self.stage {
            ClaimStage::Lease => self.start.plan.candidate,
            ClaimStage::Release(k) => {
                let given_up = self.start.plan.given_up(self.leased);
                assert(k < given_up.len());
                assert(indices(given_up@)[k as int] == given_up@[k as int]);
                Some(given_up[k])
            },
            _ => None,
        }
    }

    /// What the boot-hold pass needs to know about the claim.
    pub fn hold(&self, devices: &[UsbDevice]) -> (hold: Option<BootHoldClaim>)
        requires
            self.start.plan.fits(devices@.len()),
        ensures
            is_hold_of(hold, self.inputs(devices@)),
    {
        boot_hold_claim(&self.outcome_inputs(devices))
    }
}

} // verus!
