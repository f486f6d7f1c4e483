//! The phase that a claim reports.

use vstd::prelude::*;

use crate::crd::{
    ClaimPhase, ConnectionState, ConnectionStatus, DevicePhase, UsbDevice, UsbDeviceClaim,
};
use crate::kubevirt::{VmInfo, VmiInfo};
use crate::text::{opt_is, text_eq};

verus! {

/// What the phase of a claim depends on.
pub struct PhaseInputs<'a> {
    pub invalid: Option<&'a str>,
    pub device: Option<&'a UsbDevice>,
    pub device_available: bool,
    pub vm: Option<&'a VmInfo>,
    pub vmi: Option<&'a VmiInfo>,
    /// The VM exists and is not being deleted (see [`vm_present`]).
    ///
    /// [`vm_present`]: crate::kubevirt::vm_present
    pub vm_present: bool,
    pub claim: &'a UsbDeviceClaim,
    pub slot: Option<i32>,
}

/// The text of an optional string, or another text if it is absent.
pub open spec fn text_or(text: Option<String>, other: Seq<char>) -> Seq<char> {
    match text {
        Some(t) => t@,
        None => other,
    }
}

/// A copy of an optional string, or of another text if it is absent.
pub fn copy_or(text: &Option<String>, other: &str) -> (r: String)
    ensures
        r@ == text_or(*text, other@),
{
    match text {
        Some(t) => t.clone(),
        None => other.to_string(),
    }
}

/// The connection that the status of a claim reports.
pub open spec fn connection_of(claim: UsbDeviceClaim) -> Option<ConnectionStatus> {
    match claim.status {
        Some(status) => status.connection,
        None => None,
    }
}

/// Whether a connection is reported from the node of an instance.
pub open spec fn is_from(c: ConnectionStatus, vmi: VmiInfo) -> bool {
    vmi.node.deep_view() == Some(c.node@)
}

/// Whether a connection shows the device on the slot of the instance.
pub open spec fn shows_attached(
    c: ConnectionStatus,
    vmi: VmiInfo,
    device_name: Seq<char>,
    slot: Option<i32>,
) -> bool {
    c.state == ConnectionState::Connected && is_from(c, vmi) && c.device_name@ == device_name
        && slot == Some(c.slot)
}

/// What is said of a device that is not available.
pub open spec fn unavailable_message(device: UsbDevice) -> Seq<char> {
    let status = device.reported();
    let phase = match status.phase {
        Some(phase) => phase.name_text(),
        None => "not reported"@,
    };
    let node = match status.node {
        Some(node) => " (last seen on "@ + node@ + ")"@,
        None => Seq::empty(),
    };
    "device "@ + device.metadata.any_name() + " is "@ + phase + node
}

impl<'a> PhaseInputs<'a> {
    /// Whether the VM or its instance is being deleted.
    pub open spec fn is_deleting(self) -> bool {
        (self.vm matches Some(vm) && vm.deleting) || (self.vmi matches Some(vmi) && vmi.deleting)
    }

    /// Whether client passthrough is configured: of the running instance or, without one, in the
    /// template.
    pub open spec fn has_passthrough(self) -> bool {
        match (self.vmi, self.vm) {
            (Some(vmi), _) => vmi.client_passthrough,
            (None, Some(vm)) => vm.client_passthrough,
            (None, None) => true,
        }
    }

    /// The phase of the claim and the message that goes with it.
    pub open spec fn outcome(self) -> (ClaimPhase, Seq<char>) {
        match self.invalid {
            Some(reason) => (ClaimPhase::Invalid, reason@),
            None => self.valid_outcome(),
        }
    }

    /// The phase of a claim that is valid.
    pub open spec fn valid_outcome(self) -> (ClaimPhase, Seq<char>) {
        let vm = self.claim.spec.vm_name@;
        if !self.vm_present {
            let state = if self.is_deleting() {
                "is being deleted"@
            } else {
                "does not exist"@
            };
            (
                ClaimPhase::WaitingForVM,
                "VirtualMachine "@ + vm + " "@ + state + "; no device is reserved"@,
            )
        } else {
            match self.device {
                None => (ClaimPhase::Pending, "no free UsbDevice matches the selector"@),
                Some(device) => if !self.device_available {
                    (ClaimPhase::DeviceUnavailable, unavailable_message(*device))
                } else if !self.has_passthrough() {
                    (
                        ClaimPhase::VMNotConfigured,
                        "VM needs spec.domain.devices.clientPassthrough: {} (set it in the VM template and restart)"@,
                    )
                } else {
                    match self.vmi {
                        None => (
                            ClaimPhase::WaitingForVM,
                            "VirtualMachine "@ + vm + " is "@ + (match self.vm {
                                Some(v) => text_or(v.printable_status, "Stopped"@),
                                None => "Stopped"@,
                            }),
                        ),
                        Some(vmi) => if !vmi.running() {
                            (
                                ClaimPhase::WaitingForVM,
                                "VirtualMachineInstance "@ + vm + " is "@ + text_or(
                                    vmi.phase,
                                    "starting"@,
                                ),
                            )
                        } else {
                            self.connected_outcome(*device, *vmi)
                        },
                    }
                },
            }
        }
    }

    /// The phase of a claim whose device is available and whose VM runs.
    pub open spec fn connected_outcome(self, device: UsbDevice, vmi: VmiInfo) -> (
        ClaimPhase,
        Seq<char>,
    ) {
        let name = device.metadata.any_name();
        let waiting = "waiting for the agent on the VM's node"@;
        match connection_of(*self.claim) {
            Some(c) => if shows_attached(c, vmi, name, self.slot) {
                (
                    ClaimPhase::Attached,
                    name + " on "@ + text_or(device.reported().node, "?"@) + " is attached to "@
                        + self.claim.spec.vm_name@,
                )
            } else if is_from(c, vmi) {
                (ClaimPhase::Connecting, text_or(c.message, waiting))
            } else {
                (ClaimPhase::Connecting, waiting)
            },
            None => (ClaimPhase::Connecting, waiting),
        }
    }
}

/// What is said of a device that is not available.
fn describe_unavailable(device: &UsbDevice) -> (message: String)
    ensures
        message@ == unavailable_message(*device),
{
    let status = device.status_ref();
    let phase = match status.phase {
        Some(phase) => phase.name(),
        None => "not reported",
    };
    let node = match &status.node {
        Some(node) => " (last seen on ".to_string().concat(node).concat(")"),
        None => String::new(),
    };
    "device ".to_string().concat(&device.name_any()).concat(" is ").concat(phase).concat(&node)
}

/// The phase of a claim whose device is available and whose VM runs.
fn connected_phase(inputs: &PhaseInputs, device: &UsbDevice, vmi: &VmiInfo) -> (r: (
    ClaimPhase,
    String,
))
    ensures
        (r.0, r.1@) == inputs.connected_outcome(*device, *vmi),
{
    let waiting = "waiting for the agent on the VM's node";
    let connection = match &inputs.claim.status {
        Some(status) => &status.connection,
        None => &None,
    };
    let device_name = device.name_any();
    match connection {
        Some(c) => {
            let here = opt_is(&vmi.node, &c.node);
            let on_slot = match inputs.slot {
                Some(slot) => slot == c.slot,
                None => false,
            };
            if c.state == ConnectionState::Connected && here && on_slot && text_eq(
                &c.device_name,
                &device_name,
            ) {
                let source = copy_or(&device.status_ref().node, "?");
                (
                    ClaimPhase::Attached,
                    device_name.concat(" on ").concat(&source).concat(" is attached to ").concat(
                        &inputs.claim.spec.vm_name,
                    ),
                )
            } else if here {
                (ClaimPhase::Connecting, copy_or(&c.message, waiting))
            } else {
                (ClaimPhase::Connecting, waiting.to_string())
            }
        },
        None => (ClaimPhase::Connecting, waiting.to_string()),
    }
}

/// The phase of a claim and the message that goes with it.
pub fn compute_phase(inputs: &PhaseInputs) -> (r: (ClaimPhase, String))
    ensures
        (r.0, r.1@) == inputs.outcome(),
{
    if let Some(reason) = inputs.invalid {
        return (ClaimPhase::Invalid, reason.to_string());
    }
    let vm = &inputs.claim.spec.vm_name;
    if !inputs.vm_present {
        let vm_deleting = match inputs.vm {
            Some(v) => v.deleting,
            None => false,
        };
        let vmi_deleting = match inputs.vmi {
            Some(v) => v.deleting,
            None => false,
        };
        let state = if vm_deleting || vmi_deleting {
            "is being deleted"
        } else {
            "does not exist"
        };
        return (
            ClaimPhase::WaitingForVM,
            "VirtualMachine ".to_string().concat(vm).concat(" ").concat(state).concat(
                "; no device is reserved",
            ),
        );
    }
    let device = match inputs.device {
        Some(device) => device,
        None => return (
            ClaimPhase::Pending,
            "no free UsbDevice matches the selector".to_string(),
        ),
    };
    if !inputs.device_available {
        return (ClaimPhase::DeviceUnavailable, describe_unavailable(device));
    }
    // A running VMI reflects the configuration the VM was started with; the template applies next.
    let client_passthrough = match (inputs.vmi, inputs.vm) {
        (Some(vmi), _) => vmi.client_passthrough,
        (None, Some(vm)) => vm.client_passthrough,
        (None, None) => true,
    };
    if !client_passthrough {
        return (
            ClaimPhase::VMNotConfigured,
            "VM needs spec.domain.devices.clientPassthrough: {} (set it in the VM template and restart)".to_string(),
        );
    }
    match inputs.vmi {
        None => {
            let status = match inputs.vm {
                Some(v) => copy_or(&v.printable_status, "Stopped"),
                None => "Stopped".to_string(),
            };
            (
                ClaimPhase::WaitingForVM,
                "VirtualMachine ".to_string().concat(vm).concat(" is ").concat(&status),
            )
        },
        Some(vmi) => if !vmi.is_running() {
            (
                ClaimPhase::WaitingForVM,
                "VirtualMachineInstance ".to_string().concat(vm).concat(" is ").concat(
                    &copy_or(&vmi.phase, "starting"),
                ),
            )
        } else {
            connected_phase(inputs, device, vmi)
        },
    }
}

/// A claim is reported as attached only while its VM exists, its device is available, and the
/// agent on the node where the VM runs reports that very device on the claim's slot.
pub proof fn law_attached_means_connected(inputs: PhaseInputs<'_>)
    requires
        inputs.outcome().0 == ClaimPhase::Attached,
    ensures
        inputs.vm_present,
        inputs.device_available,
        inputs.device is Some,
        inputs.vmi matches Some(vmi) && vmi.running(),
        connection_of(*inputs.claim) matches Some(c) && shows_attached(
            c,
            *inputs.vmi.unwrap(),
            inputs.device.unwrap().metadata.any_name(),
            inputs.slot,
        ),
{
}

/// Whether an instance runs on a node.
pub open spec fn runs_on(vmi: VmiInfo, node: Seq<char>) -> bool {
    &&& vmi.phase matches Some(phase) && phase@ == "Running"@
    &&& vmi.node matches Some(n) && n@ == node
}

/// Whether the status of a claim reports a connection.
pub open spec fn reports(claim: UsbDeviceClaim, c: ConnectionStatus) -> bool {
    claim.status matches Some(status) && status.connection == Some(c)
}

/// Whether nothing but a connection is missing for a device to be attached: the claim is valid, its
/// VM is there and runs on a node with client passthrough, and its device is available.
pub open spec fn only_lacks_connection(
    inputs: PhaseInputs<'_>,
    device: UsbDevice,
    node: Seq<char>,
) -> bool {
    &&& inputs.invalid is None
    &&& inputs.vm_present
    &&& inputs.device matches Some(d) && *d == device
    &&& inputs.device_available
    &&& inputs.vmi matches Some(vmi) && runs_on(*vmi, node) && vmi.client_passthrough
}

/// Whether a connection is that of a device to the slot of a claim, reported from a node.
pub open spec fn connects(
    c: ConnectionStatus,
    device: UsbDevice,
    node: Seq<char>,
    slot: Option<i32>,
) -> bool {
    &&& c.state == ConnectionState::Connected
    &&& c.node@ == node
    &&& c.device_name@ == device.metadata.any_name()
    &&& slot == Some(c.slot)
}

/// A valid claim whose VM is there and runs with client passthrough, whose device is available, and
/// whose connection is reported as connected from the node of the VM, with that device on the
/// claim's slot, is reported as attached, whatever message the connection has; the message says
/// which device is attached to which VM.
pub proof fn law_connected_means_attached(
    inputs: PhaseInputs<'_>,
    device: UsbDevice,
    node: Seq<char>,
    c: ConnectionStatus,
)
    requires
        only_lacks_connection(inputs, device, node),
        reports(*inputs.claim, c),
        connects(c, device, node, inputs.slot),
    ensures
        inputs.outcome().0 == ClaimPhase::Attached,
        inputs.outcome().1 == device.metadata.any_name() + " on "@ + (match device.status {
            Some(s) => match s.node {
                Some(n) => n@,
                None => "?"@,
            },
            None => "?"@,
        }) + " is attached to "@ + inputs.claim.spec.vm_name@,
{
}

/// A claim that only lacks the connection is reported as connecting, with the message of the
/// connection if it is reported from the node of the VM.
pub proof fn law_connecting_says_why(inputs: PhaseInputs<'_>, device: UsbDevice, node: Seq<char>)
    requires
        only_lacks_connection(inputs, device, node),
        forall|c: ConnectionStatus| #[trigger]
            reports(*inputs.claim, c) ==> !connects(c, device, node, inputs.slot),
    ensures
        inputs.outcome().0 == ClaimPhase::Connecting,
        forall|c: ConnectionStatus| #[trigger]
            reports(*inputs.claim, c) && c.node@ == node ==> (c.message matches Some(m)
                ==> inputs.outcome().1 == m@),
        (forall|c: ConnectionStatus| #[trigger]
            reports(*inputs.claim, c) ==> c.node@ != node || c.message is None) ==> inputs.outcome().1
            == "waiting for the agent on the VM's node"@,
{
    let waiting = "waiting for the agent on the VM's node"@;
    if let Some(status) = inputs.claim.status {
        if let Some(c) = status.connection {
            assert(reports(*inputs.claim, c));
        }
    }
}

/// The phase of a claim says what keeps its device from being attached: the first of these that
/// holds. The claim is invalid; its VM is not there; it has no device; its device is not available;
/// its VM lacks client passthrough; its VM does not run.
pub proof fn law_phase_says_what_is_missing(inputs: PhaseInputs<'_>)
    ensures
        ({
            let phase = inputs.outcome().0;
            let message = inputs.outcome().1;
            let vm = inputs.claim.spec.vm_name@;
            let lacks_passthrough = (inputs.vmi matches Some(vmi) && !vmi.client_passthrough) || (
            inputs.vmi is None && (inputs.vm matches Some(vm) && !vm.client_passthrough));
            let runs = inputs.vmi matches Some(vmi) && (vmi.phase matches Some(p) && p@
                == "Running"@) && vmi.node is Some;
            &&& inputs.invalid matches Some(reason) ==> phase == ClaimPhase::Invalid && message
                == reason@
            &&& inputs.invalid is None ==> {
                &&& !inputs.vm_present ==> phase == ClaimPhase::WaitingForVM && message
                    == "VirtualMachine "@ + vm + " "@ + (if (inputs.vm matches Some(v)
                    && v.deleting) || (inputs.vmi matches Some(v) && v.deleting) {
                    "is being deleted"@
                } else {
                    "does not exist"@
                }) + "; no device is reserved"@
                &&& inputs.vm_present && inputs.device is None ==> phase == ClaimPhase::Pending
                    && message == "no free UsbDevice matches the selector"@
                &&& inputs.vm_present && inputs.device is Some && !inputs.device_available ==> phase
                    == ClaimPhase::DeviceUnavailable
                &&& inputs.vm_present && inputs.device is Some && inputs.device_available
                    && lacks_passthrough ==> phase == ClaimPhase::VMNotConfigured && message
                    == "VM needs spec.domain.devices.clientPassthrough: {} (set it in the VM template and restart)"@
                &&& inputs.vm_present && inputs.device is Some && inputs.device_available
                    && !lacks_passthrough && !runs ==> {
                    &&& phase == ClaimPhase::WaitingForVM
                    &&& inputs.vmi matches Some(vmi) ==> message == "VirtualMachineInstance "@ + vm
                        + " is "@ + (match vmi.phase {
                        Some(p) => p@,
                        None => "starting"@,
                    })
                    &&& inputs.vmi is None ==> message == "VirtualMachine "@ + vm + " is "@ + (
                    match inputs.vm {
                        Some(v) => match v.printable_status {
                            Some(s) => s@,
                            None => "Stopped"@,
                        },
                        None => "Stopped"@,
                    })
                }
                &&& inputs.vm_present && inputs.device is Some && inputs.device_available
                    && !lacks_passthrough && runs ==> phase == ClaimPhase::Connecting || phase
                    == ClaimPhase::Attached
            }
        }),
{
}

/// What is said of a device that is not available names it, and says how and where it was last
/// seen.
pub proof fn law_unavailable_devices_are_described(inputs: PhaseInputs<'_>)
    requires
        inputs.outcome().0 == ClaimPhase::DeviceUnavailable,
    ensures
        inputs.device matches Some(d) && inputs.outcome().1 == "device "@ + d.metadata.any_name()
            + " is "@ + (match d.status {
            Some(s) => match s.phase {
                Some(DevicePhase::Available) => "Available"@,
                Some(DevicePhase::Unplugged) => "Unplugged"@,
                Some(DevicePhase::Lost) => "Lost"@,
                None => "not reported"@,
            },
            None => "not reported"@,
        }) + (match d.status {
            Some(s) => match s.node {
                Some(n) => " (last seen on "@ + n@ + ")"@,
                None => Seq::empty(),
            },
            None => Seq::empty(),
        }),
{
}

/// A claim is reported as attached only if all that is needed for it is there, and the connection
/// is that of its device to its slot, reported from the node that its VM runs on.
pub proof fn law_attached_needs_everything(inputs: PhaseInputs<'_>)
    requires
        inputs.outcome().0 == ClaimPhase::Attached,
    ensures
        inputs.device matches Some(d) && (inputs.vmi matches Some(vmi) && (
        vmi.node matches Some(node) && only_lacks_connection(inputs, *d, node@) && exists|
            c: ConnectionStatus,
        | #[trigger]
            reports(*inputs.claim, c) && connects(c, *d, node@, inputs.slot))),
{
    let c = inputs.claim.status.unwrap().connection.unwrap();
    assert(reports(*inputs.claim, c));
}

} // verus!
