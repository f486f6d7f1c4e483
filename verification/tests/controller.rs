use atomic_usb::controller::{
    allocate_slots, boot_hold_is_stale, compute_phase, decide_boot_hold, resync_secs, BootHoldAction,
    BootHoldClaim, BootHoldInputs, PhaseInputs, SlotRequest,
};
use atomic_usb::crd::{
    BootHoldState, BootHoldStatus, ClaimPhase, ConnectionState, ConnectionStatus, DevicePhase,
    DeviceSelector, ExporterEndpoint, UsbDevice, UsbDeviceClaim, UsbDeviceClaimSpec,
    UsbDeviceClaimStatus, UsbDeviceSpec, UsbDeviceStatus,
};
use atomic_usb::kubevirt::{vm_present, VmInfo, VmiInfo};
use atomic_usb::table::Table;
use atomic_usb::util::Timestamp;

fn req(uid: &str, vm: &str, pinned: Option<i32>, previous: Option<i32>) -> SlotRequest {
    SlotRequest {
        uid: uid.into(),
        name: uid.into(),
        vm: ("default".into(), vm.into()),
        pinned,
        previous,
    }
}

fn slot(slots: &Table<String, Result<i32, String>>, uid: &str) -> Result<i32, String> {
    slots.get(&uid.to_string()).unwrap().clone()
}

fn time(text: &str) -> Timestamp {
    Timestamp::parse(text).unwrap()
}

#[test]
fn slots_are_allocated_from_the_top() {
    let slots = allocate_slots(&[
        req("a", "vm-a", None, None),
        req("b", "vm-a", None, None),
        req("c", "vm-b", None, None),
    ]);
    assert_eq!(slot(&slots, "a"), Ok(3));
    assert_eq!(slot(&slots, "b"), Ok(2));
    assert_eq!(slot(&slots, "c"), Ok(3));
}

#[test]
fn existing_slots_are_kept_and_pins_win() {
    let slots = allocate_slots(&[
        req("a", "vm-a", None, Some(3)),
        req("b", "vm-a", None, Some(1)),
        req("c", "vm-a", Some(3), None),
    ]);
    assert_eq!(slot(&slots, "c"), Ok(3));
    assert_eq!(slot(&slots, "b"), Ok(1));
    assert_eq!(
        slot(&slots, "a"),
        Ok(2),
        "displaced by the pin, gets the next free slot"
    );
}

#[test]
fn slot_exhaustion_and_conflicting_pins() {
    let reqs: Vec<_> = (0..5)
        .map(|i| req(&format!("c{i}"), "vm-a", None, None))
        .collect();
    let slots = allocate_slots(&reqs);
    assert_eq!(
        (0..slots.len())
            .filter(|i| slots.entry(*i).1.is_ok())
            .count(),
        4
    );
    assert!(slot(&slots, "c4").is_err());

    let slots = allocate_slots(&[
        req("a", "vm-a", Some(0), None),
        req("b", "vm-a", Some(0), None),
        req("c", "vm-a", Some(9), None),
    ]);
    assert_eq!(slot(&slots, "a"), Ok(0));
    assert!(slot(&slots, "b").unwrap_err().contains("already pinned"));
    assert!(slot(&slots, "c").is_err());
}

fn device(available: bool) -> UsbDevice {
    let mut d = UsbDevice::new(
        "usb-1a86-7523-usb-serial-1234abcd",
        UsbDeviceSpec::default(),
    );
    d.status = Some(UsbDeviceStatus {
        phase: Some(if available {
            DevicePhase::Available
        } else {
            DevicePhase::Unplugged
        }),
        node: Some("node-c".into()),
        exporter: available.then(|| ExporterEndpoint {
            address: "192.0.2.10".into(),
            port: 7575,
            pod: "a".into(),
        }),
        ..Default::default()
    });
    d
}

fn claim(connection: Option<ConnectionStatus>) -> UsbDeviceClaim {
    let mut c = UsbDeviceClaim::new(
        "usb-claim",
        UsbDeviceClaimSpec {
            vm_name: "my-vm".into(),
            selector: DeviceSelector::default(),
            slot: None,
            hold_boot: None,
        },
    );
    c.status = Some(UsbDeviceClaimStatus {
        connection,
        ..Default::default()
    });
    c
}

fn vmi(running: bool, passthrough: bool) -> VmiInfo {
    VmiInfo {
        namespace: "default".into(),
        name: "my-vm".into(),
        uid: "u".into(),
        phase: Some(if running { "Running" } else { "Scheduling" }.into()),
        node: running.then(|| "node-a".to_string()),
        client_passthrough: passthrough,
        start_paused: false,
        paused: false,
        paused_since: None,
        active_pods: Vec::new(),
        controlled_by_vm: true,
        deleting: false,
    }
}

fn vm(passthrough: bool, deleting: bool) -> VmInfo {
    VmInfo {
        namespace: "default".into(),
        name: "my-vm".into(),
        uid: "vm-uid".into(),
        client_passthrough: passthrough,
        start_paused: false,
        printable_status: Some("Stopped".into()),
        deleting,
    }
}

/// An instance started with `startStrategy: Paused` that is still waiting.
fn paused_vmi(since: &str) -> VmiInfo {
    VmiInfo {
        start_paused: true,
        paused: true,
        paused_since: Some(since.into()),
        ..vmi(true, true)
    }
}

fn holding_vm() -> VmInfo {
    VmInfo {
        start_paused: true,
        ..vm(true, false)
    }
}

fn hold(name: &str, ready: bool) -> BootHoldClaim {
    BootHoldClaim {
        name: name.into(),
        ready,
        invalid: false,
        timeout_seconds: 300,
        current: None,
    }
}

fn decide(claims: &[BootHoldClaim], vmi: Option<&VmiInfo>, now: &str) -> BootHoldAction {
    decide_boot_hold(&BootHoldInputs {
        vm: Some(&holding_vm()),
        vmi,
        claims,
        already_released: false,
        now: time(now),
    })
}

const PAUSED_AT: &str = "2026-09-17T12:00:00Z";

#[test]
fn boot_hold_waits_for_every_device_then_resumes() {
    let paused = paused_vmi(PAUSED_AT);
    assert_eq!(
        decide(
            &[hold("a", true), hold("b", false)],
            Some(&paused),
            "2026-09-17T12:01:00Z"
        ),
        BootHoldAction::Hold("waiting for b (240s left)".into())
    );
    assert_eq!(
        decide(
            &[hold("a", true), hold("b", true)],
            Some(&paused),
            "2026-09-17T12:01:00Z"
        ),
        BootHoldAction::Release("all 2 devices are ready".into())
    );
    assert_eq!(
        decide(&[hold("a", true)], Some(&paused), "2026-09-17T12:01:00Z"),
        BootHoldAction::Release("the device is ready".into())
    );
}

#[test]
fn boot_hold_gives_up_so_a_missing_device_cannot_block_a_boot() {
    let paused = paused_vmi(PAUSED_AT);
    assert_eq!(
        decide(&[hold("a", false)], Some(&paused), "2026-09-17T12:05:00Z"),
        BootHoldAction::Release("gave up after 300s; booting without a".into())
    );
    // `0` waits forever, so the VM stays paused however long it takes.
    let forever = BootHoldClaim {
        timeout_seconds: 0,
        ..hold("a", false)
    };
    assert_eq!(
        decide(&[forever], Some(&paused), "2026-09-17T13:00:00Z"),
        BootHoldAction::Hold("waiting for a".into())
    );
}

#[test]
fn boot_hold_needs_a_vm_that_starts_paused() {
    let running = vmi(true, true);
    let claims = [hold("a", false)];
    // The VM's template lacks `startStrategy: Paused`, which is worth saying before it starts.
    assert_eq!(
        decide_boot_hold(&BootHoldInputs {
            vm: Some(&vm(true, false)),
            vmi: None,
            claims: &claims,
            already_released: false,
            now: time(PAUSED_AT),
        }),
        BootHoldAction::NotConfigured(
            "the VM does not start paused; set spec.template.spec.startStrategy: Paused in its template to hold its boot".into()
        )
    );
    // Configured, but the VM is stopped, or its instance started before the template said so
    // and will be held on its next start: nothing to hold now, and nothing to complain about.
    assert_eq!(decide(&claims, None, PAUSED_AT), BootHoldAction::Nothing);
    assert_eq!(
        decide(&claims, Some(&running), PAUSED_AT),
        BootHoldAction::Nothing
    );
}

#[test]
fn boot_hold_never_resumes_a_pause_it_did_not_cause() {
    let paused = paused_vmi(PAUSED_AT);
    let claims = [hold("a", true)];
    assert_eq!(
        decide_boot_hold(&BootHoldInputs {
            vm: Some(&holding_vm()),
            vmi: Some(&paused),
            claims: &claims,
            already_released: true,
            now: time("2026-09-17T12:01:00Z"),
        }),
        BootHoldAction::Nothing,
        "a VM paused again after its boot was released stays paused"
    );
    // A deleted instance is not resumed either.
    let deleting = VmiInfo {
        deleting: true,
        ..paused
    };
    assert_eq!(
        decide(&claims, Some(&deleting), "2026-09-17T12:01:00Z"),
        BootHoldAction::Nothing
    );
}

#[test]
fn an_instance_that_did_not_start_paused_is_left_alone() {
    // It started before the template said so, and someone paused it.
    let instance = VmiInfo {
        start_paused: false,
        ..paused_vmi(PAUSED_AT)
    };
    assert_eq!(
        decide(&[hold("a", true)], Some(&instance), "2026-09-17T12:01:00Z"),
        BootHoldAction::Nothing
    );
    assert_eq!(
        decide(&[hold("a", false)], Some(&instance), "2026-09-17T12:01:00Z"),
        BootHoldAction::Nothing
    );
    assert_eq!(
        decide(&[hold("a", false)], Some(&instance), "2026-09-17T13:00:00Z"),
        BootHoldAction::Nothing
    );
}

#[test]
fn slots_settle() {
    let mut requests = vec![
        req("a", "vm-a", None, Some(9)),
        req("b", "vm-a", Some(3), None),
        req("c", "vm-a", Some(3), None),
        req("d", "vm-a", None, None),
        req("e", "vm-a", None, Some(1)),
        req("f", "vm-a", None, None),
        req("g", "vm-a", None, None),
    ];
    let first = allocate_slots(&requests);
    for r in &mut requests {
        r.previous = slot(&first, &r.uid).ok();
    }
    let second = allocate_slots(&requests);
    for r in &requests {
        assert_eq!(slot(&first, &r.uid), slot(&second, &r.uid));
    }
    assert!(slot(&first, "c").is_err());
    assert!(slot(&first, "g").is_err());
}

#[test]
fn lost_races_are_retried_soon() {
    assert_eq!(resync_secs(true, 30), 1);
    assert_eq!(resync_secs(false, 30), 30);
}

#[test]
fn stale_boot_hold_reports_are_dropped() {
    let report = |state, uid: Option<&str>| BootHoldStatus {
        state,
        vmi_uid: uid.map(Into::into),
        since: PAUSED_AT.into(),
        message: None,
    };
    // Advice to configure the VM, once its template has it: gone (this is what a user sees
    // right after patching `startStrategy: Paused` into the template).
    assert!(boot_hold_is_stale(
        Some(&report(BootHoldState::NotConfigured, None)),
        Some("vmi-1")
    ));
    // The release record of the running instance stays: it is also what stops us from
    // resuming that instance again if someone pauses it later.
    assert!(!boot_hold_is_stale(
        Some(&report(BootHoldState::Released, Some("vmi-1"))),
        Some("vmi-1")
    ));
    // The record of an instance that has been replaced, or of one that is gone, does not.
    assert!(boot_hold_is_stale(
        Some(&report(BootHoldState::Released, Some("vmi-0"))),
        Some("vmi-1")
    ));
    assert!(boot_hold_is_stale(
        Some(&report(BootHoldState::Released, Some("vmi-1"))),
        None
    ));
    assert!(!boot_hold_is_stale(None, Some("vmi-1")));
}

#[test]
fn invalid_claims_do_not_hold_a_boot() {
    let paused = paused_vmi(PAUSED_AT);
    let invalid = BootHoldClaim {
        invalid: true,
        ..hold("a", false)
    };
    assert_eq!(
        decide(&[invalid], Some(&paused), "2026-09-17T12:01:00Z"),
        BootHoldAction::Nothing,
        "a claim that can never attach must not keep the VM paused"
    );
}

fn phase_of(
    device: Option<&UsbDevice>,
    vm: Option<&VmInfo>,
    vmi: Option<&VmiInfo>,
    claim: &UsbDeviceClaim,
) -> (ClaimPhase, String) {
    compute_phase(&PhaseInputs {
        invalid: None,
        device,
        device_available: device
            .is_some_and(|d| d.status_ref().phase == Some(DevicePhase::Available)),
        vm,
        vmi,
        vm_present: vm_present(vm, vmi),
        claim,
        slot: Some(3),
    })
}

#[test]
fn phases() {
    let c = claim(None);
    let dev = device(true);
    let unplugged = device(false);
    let the_vm = vm(true, false);
    let running = vmi(true, true);
    let phase = |device: Option<&UsbDevice>, vmi: Option<&VmiInfo>, claim: &UsbDeviceClaim| {
        phase_of(device, Some(&the_vm), vmi, claim).0
    };
    assert_eq!(phase(None, Some(&running), &c), ClaimPhase::Pending);
    assert_eq!(
        phase(Some(&unplugged), Some(&running), &c),
        ClaimPhase::DeviceUnavailable
    );
    assert_eq!(
        phase(Some(&dev), None, &c),
        ClaimPhase::WaitingForVM,
        "stopped VM"
    );
    assert_eq!(
        phase(Some(&dev), Some(&vmi(false, true)), &c),
        ClaimPhase::WaitingForVM
    );
    assert_eq!(
        phase(Some(&dev), Some(&vmi(true, false)), &c),
        ClaimPhase::VMNotConfigured
    );
    assert_eq!(
        phase(Some(&dev), Some(&running), &c),
        ClaimPhase::Connecting
    );

    let connected = |node: &str, slot: i32| {
        claim(Some(ConnectionStatus {
            state: ConnectionState::Connected,
            node: node.into(),
            device_name: dev.name_any(),
            slot,
            since: "2026-09-16T12:00:00Z".into(),
            message: None,
            awaiting_resume: None,
        }))
    };
    assert_eq!(
        phase(Some(&dev), Some(&running), &connected("node-a", 3)),
        ClaimPhase::Attached
    );
    assert_eq!(
        phase(Some(&dev), Some(&running), &connected("node-b", 3)),
        ClaimPhase::Connecting,
        "stale report from before a migration"
    );
    assert_eq!(
        phase(Some(&dev), Some(&running), &connected("node-a", 1)),
        ClaimPhase::Connecting,
        "stale report from an old slot"
    );

    let invalid = compute_phase(&PhaseInputs {
        invalid: Some("bad"),
        device: None,
        device_available: false,
        vm: None,
        vmi: None,
        vm_present: false,
        claim: &c,
        slot: None,
    });
    assert_eq!(invalid.0, ClaimPhase::Invalid);
}

#[test]
fn vm_lifecycle_phases() {
    let c = claim(None);
    let dev = device(true);

    let (phase, message) = phase_of(None, None, None, &c);
    assert_eq!(phase, ClaimPhase::WaitingForVM);
    assert_eq!(
        message,
        "VirtualMachine my-vm does not exist; no device is reserved"
    );

    let deleting = vm(true, true);
    let (phase, message) = phase_of(Some(&dev), Some(&deleting), Some(&vmi(true, true)), &c);
    assert_eq!(
        phase,
        ClaimPhase::WaitingForVM,
        "a deleted VM does not keep its device"
    );
    assert!(message.contains("is being deleted"), "{message}");

    let (phase, message) = phase_of(Some(&dev), Some(&vm(true, false)), None, &c);
    assert_eq!(
        (phase, message.as_str()),
        (ClaimPhase::WaitingForVM, "VirtualMachine my-vm is Stopped")
    );

    // A stopped VM without clientPassthrough in its template is reported before it is started.
    assert_eq!(
        phase_of(Some(&dev), Some(&vm(false, false)), None, &c).0,
        ClaimPhase::VMNotConfigured
    );

    // A bare VMI (no VirtualMachine object) is a VM too.
    let bare = VmiInfo {
        controlled_by_vm: false,
        ..vmi(true, true)
    };
    assert_eq!(
        phase_of(Some(&dev), None, Some(&bare), &c).0,
        ClaimPhase::Connecting
    );
}
