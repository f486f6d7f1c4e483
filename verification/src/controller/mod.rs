//! Cluster controller (single replica). Binds `UsbDeviceClaim`s to `UsbDevice`s through exclusive
//! leases, allocates usbredir slots, detects agents that stopped heartbeating, and reports claim
//! phases. The data path itself is handled entirely by the agents, so attached devices keep
//! working while the controller is down.
//!
//! Leases are written with a `resourceVersion` precondition: two claims (or two controller
//! replicas) racing for the same device can never both win.
//!
//! A claim's lifetime is bound to its VM: the controller adds an owner reference to the
//! `VirtualMachine` (or bare VMI), so Kubernetes garbage-collects the claim when the VM is deleted,
//! and a claim only holds a device while its VM exists.

pub mod boot_hold;
pub mod boot_laws;
pub mod boot_run;
pub mod claim_laws;
pub mod claims;
pub mod groups;
pub mod phase;
pub mod run;
pub mod run_laws;
pub mod slot_laws;
pub mod slots;

use std::time::Duration;

use vstd::prelude::*;

pub use boot_hold::{
    boot_hold_is_stale, boot_hold_reports, decide_boot_hold, plan_boot_hold, stale_boot_holds,
    BootHoldAction, BootHoldClaim, BootHoldInputs, BootHoldStep, ReleasedBoots,
};
pub use boot_run::{BootHoldRun, BootHoldTask};
pub use claims::{
    boot_hold_claim, claim_order, find_vm, find_vmi, guarded, guarded_patch, has_orphaned_lease,
    invalid_claim, lease_patch, lost_device, lost_patch, new_lease, owner_patch, plan_claim,
    release_patch, report_claim, slot_request, start_claim, vmi_named, ClaimPlan, ClaimReport,
    ClaimStart, Clock, OutcomeInputs,
};
pub use groups::{add_hold, clear_boot_hold_patch, HoldGroup};
pub use phase::{compute_phase, copy_or, text_or, PhaseInputs};
pub use run::{lost_race, ClaimRun, ClaimStage, ClaimWrite, DeviceRun, DeviceStage, Reply};
pub use slots::{allocate_slots, SlotRequest};

verus! {

/// How the controller is configured.
#[derive(Debug)]
pub struct ControllerConfig {
    pub namespace: String,
    /// Secret holding the agents' pre-shared key; created with a random key if missing.
    pub psk_secret: Option<String>,
    pub lost_after: Duration,
    pub resync: Duration,
}

impl Clone for ControllerConfig {
    fn clone(&self) -> (r: Self)
        ensures
            r == *self,
    {
        ControllerConfig {
            namespace: self.namespace.clone(),
            psk_secret: self.psk_secret.clone(),
            lost_after: self.lost_after,
            resync: self.resync,
        }
    }
}

/// Delay before a reconciliation that lost a race is tried again, in seconds.
pub const RETRY_SECS: u64 = 1;

/// Seconds to wait before the next reconciliation, unless something changes first: little if one
/// asked for a quick retry, else until the periodic one.
pub fn resync_secs(requeue: bool, interval_secs: u64) -> (secs: u64)
    ensures
        secs == (if requeue {
            RETRY_SECS
        } else {
            interval_secs
        }),
{
    if requeue {
        RETRY_SECS
    } else {
        interval_secs
    }
}

} // verus!
