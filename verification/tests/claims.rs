use atomic_usb::controller::{
    add_hold, boot_hold_claim, boot_hold_reports, claim_order, clear_boot_hold_patch, find_vm,
    find_vmi, has_orphaned_lease, invalid_claim, lease_patch, lost_device, lost_patch, new_lease,
    owner_patch, plan_boot_hold, plan_claim, release_patch, report_claim, slot_request,
    lost_race, stale_boot_holds, start_claim, BootHoldClaim, BootHoldRun, BootHoldStep,
    BootHoldTask, ClaimRun, ClaimStage, ClaimWrite, Clock, DeviceRun, DeviceStage, HoldGroup,
    OutcomeInputs, ReleasedBoots, Reply,
};
use atomic_usb::crd::{
    Attachment, BootHoldState, BootHoldStatus, ClaimPhase, ConnectionState, ConnectionStatus,
    DevicePhase, DeviceSelector, ExporterEndpoint, HoldBoot, UsbDevice, UsbDeviceClaim,
    UsbDeviceClaimSpec, UsbDeviceClaimStatus, UsbDeviceSpec, UsbDeviceStatus,
};
use atomic_usb::json::Value;
use atomic_usb::kubevirt::{VmInfo, VmiInfo};
use atomic_usb::table::Table;
use atomic_usb::util::{KubeError, Timestamp};

const NOW: &str = "2026-09-16T12:01:00Z";

fn clock() -> Clock {
    Clock {
        now: Timestamp::parse(NOW).unwrap(),
        lost_after_secs: 90,
    }
}

fn json(v: &Value) -> serde_json::Value {
    match v {
        Value::Null => serde_json::Value::Null,
        Value::Bool(b) => serde_json::Value::Bool(*b),
        Value::Number(n) => serde_json::from_str(n).unwrap(),
        Value::Text(s) => serde_json::Value::String(s.clone()),
        Value::Array(items) => serde_json::Value::Array(items.iter().map(json).collect()),
        Value::Object(members) => serde_json::Value::Object(
            members.iter().map(|(k, v)| (k.clone(), json(v))).collect(),
        ),
    }
}

fn parsed(text: &str) -> serde_json::Value {
    serde_json::from_str(text).unwrap()
}

fn device(name: &str, available: bool, holder: Option<&str>) -> UsbDevice {
    let mut d = UsbDevice::new(
        name,
        UsbDeviceSpec {
            vendor_id: "1a86".into(),
            product_id: "7523".into(),
            ..Default::default()
        },
    );
    d.metadata.resource_version = Some("7".into());
    d.status = Some(UsbDeviceStatus {
        phase: Some(if available {
            DevicePhase::Available
        } else {
            DevicePhase::Unplugged
        }),
        node: Some("node-c".into()),
        exporter: available.then(|| ExporterEndpoint {
            address: "192.0.2.10".into(),
            port: 7575,
            pod: "a".into(),
        }),
        last_seen: Some("2026-09-16T12:00:00Z".into()),
        attached_to: holder.map(|uid| Attachment {
            namespace: "default".into(),
            claim: "c".into(),
            claim_uid: uid.into(),
            vm_name: "my-vm".into(),
            since: NOW.into(),
        }),
        ..Default::default()
    });
    d
}

fn claim(name: &str, uid: &str) -> UsbDeviceClaim {
    let mut c = UsbDeviceClaim::new(
        name,
        UsbDeviceClaimSpec {
            vm_name: "my-vm".into(),
            selector: DeviceSelector {
                vendor_id: Some("1a86".into()),
                ..Default::default()
            },
            slot: None,
            hold_boot: None,
        },
    );
    c.metadata.namespace = Some("default".into());
    c.metadata.uid = Some(uid.into());
    c.metadata.generation = Some(4);
    c.metadata.resource_version = Some("11".into());
    c
}

fn vm() -> VmInfo {
    VmInfo {
        namespace: "default".into(),
        name: "my-vm".into(),
        uid: "vm-uid".into(),
        client_passthrough: true,
        start_paused: false,
        printable_status: Some("Running".into()),
        deleting: false,
    }
}

fn vmi() -> VmiInfo {
    VmiInfo {
        namespace: "default".into(),
        name: "my-vm".into(),
        uid: "vmi-uid".into(),
        phase: Some("Running".into()),
        node: Some("node-a".into()),
        client_passthrough: true,
        start_paused: false,
        paused: false,
        paused_since: None,
        active_pods: Vec::new(),
        controlled_by_vm: true,
        deleting: false,
    }
}

#[test]
fn oldest_claims_come_first() {
    let mut claims = vec![
        claim("d", "1"),
        claim("c", "2"),
        claim("b", "3"),
        claim("a", "4"),
        claim("x", "5"),
        claim("y", "6"),
    ];
    claims[0].metadata.creation_timestamp = Some(20);
    claims[1].metadata.creation_timestamp = Some(10);
    claims[2].metadata.creation_timestamp = Some(10);
    claims[3].metadata.creation_timestamp = None;
    claims[4].metadata.deleting = true;
    claims[5].metadata.uid = None;
    assert_eq!(claim_order(&claims), vec![3, 2, 1, 0]);
}

#[test]
fn slot_requests_name_the_vm() {
    let mut c = claim("a", "1");
    c.spec.slot = Some(2);
    c.status = Some(UsbDeviceClaimStatus {
        slot: Some(1),
        ..Default::default()
    });
    let r = slot_request(&c);
    assert_eq!(r.uid, "1");
    assert_eq!(r.name, "a");
    assert_eq!(r.vm, ("default".to_string(), "my-vm".to_string()));
    assert_eq!(r.pinned, Some(2));
    assert_eq!(r.previous, Some(1));
}

#[test]
fn devices_without_heartbeat_are_lost() {
    let fresh = device("a", true, None);
    assert_eq!(lost_device(&fresh, clock().now, 90), None);
    assert_eq!(lost_device(&fresh, clock().now, 60), None);
    let message = lost_device(&fresh, clock().now, 59).unwrap();
    assert_eq!(
        message,
        "no heartbeat from the agent on node-c for over 59s"
    );
    let mut silent = device("a", true, None);
    silent.status.as_mut().unwrap().last_seen = None;
    silent.status.as_mut().unwrap().node = None;
    assert_eq!(
        lost_device(&silent, clock().now, 90).as_deref(),
        Some("no heartbeat from the agent on ? for over 90s")
    );
    assert_eq!(lost_device(&device("a", false, None), clock().now, 1), None);
    assert_eq!(
        json(&lost_patch(&fresh, &message)),
        parsed(
            r#"{"metadata": {"resourceVersion": "7"}, "status": {"phase": "Lost", "exporter": null,
                "message": "no heartbeat from the agent on node-c for over 59s"}}"#
        )
    );
}

#[test]
fn leases_of_deleted_claims_are_orphaned() {
    let live = vec!["1".to_string()];
    assert!(!has_orphaned_lease(&device("a", true, Some("1")), &live));
    assert!(has_orphaned_lease(&device("a", true, Some("2")), &live));
    assert!(!has_orphaned_lease(&device("a", true, None), &live));
    assert_eq!(
        json(&release_patch(&device("a", true, Some("2")))),
        parsed(r#"{"metadata": {"resourceVersion": "7"}, "status": {"attachedTo": null}}"#)
    );
}

#[test]
fn leases_name_the_claim() {
    let lease = new_lease(&claim("a", "1"), clock().now);
    assert_eq!(
        lease,
        Attachment {
            namespace: "default".into(),
            claim: "a".into(),
            claim_uid: "1".into(),
            vm_name: "my-vm".into(),
            since: NOW.into(),
        }
    );
    let mut d = device("d", true, None);
    d.metadata.resource_version = None;
    assert_eq!(
        json(&lease_patch(&d, &lease)),
        parsed(
            r#"{"metadata": {"resourceVersion": null}, "status": {"attachedTo": {
                "namespace": "default", "claim": "a", "claimUid": "1", "vmName": "my-vm",
                "since": "2026-09-16T12:01:00Z"}}}"#
        )
    );
}

#[test]
fn claims_are_invalid_for_the_first_reason() {
    let c = claim("a", "1");
    assert_eq!(invalid_claim(&c, None), None);
    assert_eq!(invalid_claim(&c, Some(&Ok(3))), None);
    assert_eq!(
        invalid_claim(&c, Some(&Err("no slot".into()))).as_deref(),
        Some("no slot")
    );
    let mut c = claim("a", "1");
    c.spec.vm_name = String::new();
    assert_eq!(
        invalid_claim(&c, Some(&Err("no slot".into()))).as_deref(),
        Some("spec.vmName is required")
    );
    c.spec.selector = DeviceSelector::default();
    assert_eq!(
        invalid_claim(&c, None).as_deref(),
        Some("selector must set at least one field")
    );
    c.spec.selector.product_id = Some("zz\"z".into());
    assert_eq!(
        invalid_claim(&c, None).as_deref(),
        Some("selector.productId \"zz\\\"z\" is not a 16-bit hex id")
    );
    c.spec.selector.vendor_id = Some("\n".into());
    assert_eq!(
        invalid_claim(&c, None).as_deref(),
        Some("selector.vendorId \"\\n\" is not a 16-bit hex id")
    );
}

#[test]
fn available_devices_are_preferred() {
    let c = claim("a", "1");
    let devices = vec![
        device("a", false, None),
        device("c", true, None),
        device("b", true, None),
        device("0", true, Some("2")),
    ];
    let plan = plan_claim(&c, clock(), &devices, true);
    assert_eq!(plan.held, Vec::<usize>::new());
    assert_eq!(plan.current, None);
    assert_eq!(plan.candidate, Some(2));
    assert_eq!(plan.target(true), Some(2));
    assert_eq!(plan.target(false), None);

    let none = plan_claim(&c, clock(), &devices, false);
    assert_eq!(none.candidate, None);

    // Nothing is plugged in: one is reserved.
    let plan = plan_claim(&c, clock(), &devices[..1], true);
    assert_eq!(plan.candidate, Some(0));
}

#[test]
fn claims_keep_one_device() {
    let mut c = claim("a", "1");
    let devices = vec![
        device("a", true, Some("1")),
        device("b", true, Some("1")),
        device("c", false, Some("1")),
        device("d", true, None),
    ];
    let plan = plan_claim(&c, clock(), &devices, true);
    assert_eq!(plan.held, vec![0, 1, 2]);
    assert_eq!(plan.current, Some(0));
    assert_eq!(plan.candidate, None);
    assert_eq!(plan.given_up(false), vec![1, 2]);

    // The device that the status names wins, but one that is unplugged is replaced.
    c.status = Some(UsbDeviceClaimStatus {
        device_name: Some("b".into()),
        ..Default::default()
    });
    assert_eq!(plan_claim(&c, clock(), &devices, true).current, Some(1));
    c.status.as_mut().unwrap().device_name = Some("c".into());
    let plan = plan_claim(&c, clock(), &devices, true);
    assert_eq!(plan.current, Some(2));
    assert_eq!(plan.candidate, Some(3));
    assert_eq!(plan.given_up(true), vec![0, 1, 2]);
    assert_eq!(plan.given_up(false), vec![0, 1]);

    // It is not exchanged for another one that is unplugged.
    let devices = vec![device("c", false, Some("1")), device("d", false, None)];
    let plan = plan_claim(&c, clock(), &devices, true);
    assert_eq!((plan.current, plan.candidate), (Some(0), None));

    // Without a VM everything is given up.
    let plan = plan_claim(&c, clock(), &devices, false);
    assert_eq!(plan.target(false), None);
    assert_eq!(plan.given_up(false), vec![0]);
}

#[test]
fn a_claim_is_started_with_its_slot() {
    let c = claim("a", "1");
    let mut slots: Table<String, Result<i32, String>> = Table::new();
    slots.insert("1".into(), Ok(3));
    let devices = vec![device("a", true, None)];
    let start = start_claim(&c, clock(), &devices, &slots, Some(&vm()), None);
    assert_eq!(start.invalid, None);
    assert_eq!(start.slot, Some(3));
    assert_eq!(start.plan.candidate, Some(0));
    assert_eq!(
        json(&owner_patch(&c, Some(&vm()), None).unwrap()),
        parsed(
            r#"{"metadata": {"resourceVersion": "11", "ownerReferences": [
                {"apiVersion": "kubevirt.io/v1", "kind": "VirtualMachine", "name": "my-vm",
                 "uid": "vm-uid", "controller": false, "blockOwnerDeletion": false}]}}"#
        )
    );

    slots.insert("1".into(), Err("taken".into()));
    let start = start_claim(&c, clock(), &devices, &slots, Some(&vm()), None);
    assert_eq!(start.invalid.as_deref(), Some("taken"));
    assert_eq!(start.slot, None);
    assert_eq!(start.plan.candidate, None);

    let start = start_claim(&c, clock(), &devices, &Table::new(), None, None);
    assert_eq!(start.plan.candidate, None, "the VM does not exist");
    assert!(owner_patch(&c, None, None).is_none());
}

#[test]
fn unnamed_vms_own_nothing() {
    let mut c = claim("a", "1");
    c.spec.vm_name = String::new();
    assert!(owner_patch(&c, Some(&vm()), None).is_none());
}

#[test]
fn reports_are_written_when_they_change() {
    let mut c = claim("a", "1");
    let d = device("d", true, Some("1"));
    let (the_vm, the_vmi) = (vm(), vmi());
    let report = report_claim(&OutcomeInputs {
        claim: &c,
        invalid: None,
        device: Some(&d),
        vm: Some(&the_vm),
        vmi: Some(&the_vmi),
        slot: Some(3),
        clock: clock(),
    });
    assert_eq!(report.phase, ClaimPhase::Connecting);
    assert!(!report.is_current(&c));
    assert_eq!(
        json(&report.patch()),
        serde_json::from_str::<serde_json::Value>(&format!(
            r#"{{"status": {{"phase": "Connecting", "deviceName": "d", "sourceNode": "node-c",
                "slot": 3, "message": {:?}, "observedGeneration": 4}}}}"#,
            report.message
        ))
        .unwrap()
    );
    c.status = Some(UsbDeviceClaimStatus {
        phase: Some(ClaimPhase::Connecting),
        device_name: Some("d".into()),
        source_node: Some("node-c".into()),
        slot: Some(3),
        message: Some(report.message.clone()),
        observed_generation: Some(4),
        connection: None,
        boot_hold: None,
    });
    assert!(report.is_current(&c));
    c.metadata.generation = Some(5);
    c.status.as_mut().unwrap().boot_hold = Some(BootHoldStatus {
        state: BootHoldState::Holding,
        vmi_uid: None,
        since: NOW.into(),
        message: None,
    });
    let bad = "bad".to_string();
    let report = report_claim(&OutcomeInputs {
        claim: &c,
        invalid: Some(&bad),
        device: None,
        vm: None,
        vmi: None,
        slot: None,
        clock: clock(),
    });
    assert!(report.clear_boot_hold);
    assert!(!report.is_current(&c));
    assert_eq!(
        json(&report.patch()),
        parsed(
            r#"{"status": {"phase": "Invalid", "deviceName": null, "sourceNode": null,
                "slot": null, "message": "bad", "observedGeneration": 5, "bootHold": null}}"#
        )
    );
    assert_eq!(
        json(&clear_boot_hold_patch()),
        parsed(r#"{"status": {"bootHold": null}}"#)
    );
}

#[test]
fn boots_are_held_for_devices_that_wait_for_the_resume() {
    let mut c = claim("a", "1");
    let d = device("d", true, Some("1"));
    let (the_vm, the_vmi) = (vm(), vmi());
    let hold = |c: &UsbDeviceClaim, slot: Option<i32>| {
        boot_hold_claim(&OutcomeInputs {
            claim: c,
            invalid: None,
            device: Some(&d),
            vm: Some(&the_vm),
            vmi: Some(&the_vmi),
            slot,
            clock: clock(),
        })
    };
    assert!(hold(&c, Some(3)).is_none());
    c.spec.hold_boot = Some(HoldBoot {
        timeout_seconds: 60,
    });
    let held = hold(&c, Some(3)).unwrap();
    assert_eq!((held.ready, held.invalid, held.timeout_seconds), (false, false, 60));
    let connection = ConnectionStatus {
        state: ConnectionState::Connecting,
        node: "node-a".into(),
        device_name: "d".into(),
        slot: 3,
        since: NOW.into(),
        message: None,
        awaiting_resume: Some(true),
    };
    c.status = Some(UsbDeviceClaimStatus {
        connection: Some(connection),
        ..Default::default()
    });
    assert!(hold(&c, Some(3)).unwrap().ready);
    assert!(!hold(&c, Some(2)).unwrap().ready, "another slot");
    c.status
        .as_mut()
        .unwrap()
        .connection
        .as_mut()
        .unwrap()
        .awaiting_resume = None;
    assert!(!hold(&c, Some(3)).unwrap().ready);
    c.status
        .as_mut()
        .unwrap()
        .connection
        .as_mut()
        .unwrap()
        .state = ConnectionState::Connected;
    assert!(hold(&c, Some(3)).unwrap().ready, "attached");
}

#[test]
fn vms_are_found_by_namespace_and_name() {
    let vms = [vm()];
    let vmis = [vmi()];
    assert!(find_vm(&vms, "default", "my-vm").is_some());
    assert!(find_vm(&vms, "other", "my-vm").is_none());
    assert!(find_vm(&vms, "default", "your-vm").is_none());
    assert!(find_vmi(&vmis, "default", "my-vm").is_some());
    assert!(find_vmi(&vmis, "other", "my-vm").is_none());
}

fn held(name: &str, ready: bool, current: Option<BootHoldStatus>) -> BootHoldClaim {
    BootHoldClaim {
        name: name.into(),
        ready,
        invalid: false,
        timeout_seconds: 300,
        current,
    }
}

fn paused() -> VmiInfo {
    VmiInfo {
        start_paused: true,
        paused: true,
        paused_since: Some("2026-09-16T12:00:00Z".into()),
        ..vmi()
    }
}

#[test]
fn a_boot_is_released_once() {
    let mut released = ReleasedBoots::new();
    let instance = paused();
    let claims = [held("a", true, None)];
    let now = clock().now;
    assert_eq!(
        plan_boot_hold(&released, &claims, None, Some(&instance), now),
        BootHoldStep::Resume("the device is ready".into())
    );
    released.record("vmi-uid", "the device is ready");
    // The record stays until it is written, and then keeps the VM paused.
    assert_eq!(
        plan_boot_hold(&released, &claims, None, Some(&instance), now),
        BootHoldStep::Report(BootHoldState::Released, "the device is ready".into())
    );
    let reports = boot_hold_reports(
        &claims,
        BootHoldState::Released,
        "the device is ready",
        Some("vmi-uid"),
        now,
    );
    assert_eq!(reports.len(), 1);
    assert_eq!(reports[0].0, "a");
    assert_eq!(reports[0].1.since, NOW);
    let written = [held("a", true, Some(reports[0].1.clone()))];
    assert!(boot_hold_reports(
        &written,
        BootHoldState::Released,
        "the device is ready",
        Some("vmi-uid"),
        Timestamp::parse("2026-09-16T13:00:00Z").unwrap(),
    )
    .is_empty());
    assert_eq!(
        plan_boot_hold(
            &ReleasedBoots::new(),
            &written,
            None,
            Some(&instance),
            now
        ),
        BootHoldStep::Clear
    );
    assert_eq!(
        stale_boot_holds(&written, Some("vmi-uid")),
        Vec::<String>::new()
    );
    assert_eq!(stale_boot_holds(&written, Some("next")), vec!["a"]);

    released.retain_live(&["vmi-uid".to_string()]);
    assert_eq!(
        released.reason("vmi-uid").as_deref(),
        Some("the device is ready")
    );
    released.retain_live(&["next".to_string()]);
    assert_eq!(released.reason("vmi-uid"), None);
}

#[test]
fn held_boots_are_reported_with_the_time_of_the_change() {
    let claims = [held("a", false, None), held("b", true, None)];
    let instance = paused();
    let step = plan_boot_hold(
        &ReleasedBoots::new(),
        &claims,
        None,
        Some(&instance),
        clock().now,
    );
    assert_eq!(
        step,
        BootHoldStep::Report(
            BootHoldState::Holding,
            "waiting for a (240s left)".into()
        )
    );
    let current = BootHoldStatus {
        state: BootHoldState::Holding,
        vmi_uid: Some("vmi-uid".into()),
        since: "2026-09-16T12:00:10Z".into(),
        message: Some("waiting for a (290s left)".into()),
    };
    let reports = boot_hold_reports(
        &[held("a", false, Some(current))],
        BootHoldState::Holding,
        "waiting for a (240s left)",
        Some("vmi-uid"),
        clock().now,
    );
    assert_eq!(reports[0].1.since, "2026-09-16T12:00:10Z");
    let advice = boot_hold_reports(
        &claims,
        BootHoldState::NotConfigured,
        "advice",
        Some("vmi-uid"),
        clock().now,
    );
    assert_eq!(advice.len(), 2);
    assert_eq!(advice[0].1.vmi_uid, None);
}

#[test]
fn holds_are_grouped_by_vm() {
    let key = |vm: &str| ("default".to_string(), vm.to_string());
    let mut groups: Vec<HoldGroup> = Vec::new();
    add_hold(&mut groups, key("b"), held("1", true, None));
    add_hold(&mut groups, key("a"), held("2", true, None));
    add_hold(&mut groups, key("b"), held("3", true, None));
    let names: Vec<(String, Vec<String>)> = groups
        .iter()
        .map(|g| {
            (
                g.vm.1.clone(),
                g.claims.iter().map(|c| c.name.clone()).collect(),
            )
        })
        .collect();
    assert_eq!(names.len(), 2);
    assert!(names.contains(&("a".to_string(), vec!["2".to_string()])));
    assert!(names.contains(&("b".to_string(), vec!["1".to_string(), "3".to_string()])));
}

fn refused(code: u16) -> Reply {
    Reply::Refused(KubeError { code: Some(code) })
}

fn device_write(write: Option<ClaimWrite>) -> (usize, serde_json::Value) {
    match write {
        Some(ClaimWrite::Device(i, patch)) => (i, json(&patch)),
        _ => panic!("a device is to be written"),
    }
}

#[test]
fn lost_races_are_told_from_other_errors() {
    assert!(lost_race(&KubeError { code: Some(409) }));
    assert!(lost_race(&KubeError { code: Some(404) }));
    assert!(!lost_race(&KubeError { code: Some(500) }));
    assert!(!lost_race(&KubeError { code: None }));
}

#[test]
fn a_claim_changes_to_an_available_device() {
    let c = claim("a", "1");
    let the_vm = vm();
    let mut devices = vec![device("a", false, Some("1")), device("b", true, None)];
    let slots = Table::new();
    let mut run = ClaimRun::new(&c, clock(), &devices, &slots, Some(&the_vm), None);

    assert!(matches!(run.next(&devices), Some(ClaimWrite::Claim(_))));
    run.advance(&mut devices, Reply::Written);
    let (i, patch) = device_write(run.next(&devices));
    assert_eq!(i, 1);
    assert_eq!(
        patch,
        parsed(
            r#"{"status": {"attachedTo": {"namespace": "default", "claim": "a", "claimUid": "1",
                "vmName": "my-vm", "since": "2026-09-16T12:01:00Z"}},
                "metadata": {"resourceVersion": "7"}}"#
        )
    );
    run.advance(&mut devices, Reply::Updated(device("b", true, Some("1"))));
    assert!(run.leased);
    let (i, patch) = device_write(run.next(&devices));
    assert_eq!(i, 0);
    assert_eq!(
        patch,
        parsed(r#"{"status": {"attachedTo": null}, "metadata": {"resourceVersion": "7"}}"#)
    );
    run.advance(&mut devices, Reply::Updated(device("a", false, None)));
    match run.next(&devices) {
        Some(ClaimWrite::Status(patch)) => {
            assert_eq!(json(&patch)["status"]["deviceName"], "b");
        }
        _ => panic!("the status is to be written"),
    }
    // The claim was deleted in the meantime.
    run.advance(&mut devices, refused(404));
    assert!(run.next(&devices).is_none());
    assert_eq!(run.stage, ClaimStage::Finished);
    assert!(!run.requeue);
    assert_eq!(devices[0].lease_holder(), None);
    assert_eq!(devices[1].lease_holder(), Some("1"));
    assert!(run.hold(&devices).is_none());
}

#[test]
fn a_lost_race_keeps_the_device_and_asks_for_a_retry() {
    let c = claim("a", "1");
    let the_vm = vm();
    let mut devices = vec![device("a", false, Some("1")), device("b", true, None)];
    let slots = Table::new();
    let mut run = ClaimRun::new(&c, clock(), &devices, &slots, Some(&the_vm), None);
    run.next(&devices);
    run.advance(&mut devices, refused(409));
    assert!(run.requeue);
    assert_eq!(device_write(run.next(&devices)).0, 1);
    run.advance(&mut devices, refused(409));
    assert!(!run.leased);
    match run.next(&devices) {
        Some(ClaimWrite::Status(patch)) => {
            assert_eq!(json(&patch)["status"]["deviceName"], "a");
        }
        _ => panic!("nothing is to be released"),
    }
    run.advance(&mut devices, Reply::Written);
    assert!(run.next(&devices).is_none());
    assert_eq!(devices[0].lease_holder(), Some("1"));
}

#[test]
fn other_errors_end_the_reconciliation() {
    let c = claim("a", "1");
    let mut devices = vec![device("a", true, Some("1"))];
    let slots = Table::new();
    // The VM does not exist, so the device is released.
    let mut run = ClaimRun::new(&c, clock(), &devices, &slots, None, None);
    assert_eq!(device_write(run.next(&devices)).0, 0);
    run.advance(&mut devices, refused(500));
    assert_eq!(run.stage, ClaimStage::Failed);
    assert!(run.next(&devices).is_none());
    assert_eq!(devices[0].lease_holder(), Some("1"));
}

#[test]
fn lost_and_orphaned_devices_are_written_in_turn() {
    let mut d = device("a", true, Some("gone"));
    let status = d.status.as_mut().unwrap();
    status.last_seen = Some("2026-09-16T11:00:00Z".into());
    let live = vec!["1".to_string()];
    let mut run = DeviceRun::new();
    let patch = run.next(&d, clock(), &live).unwrap();
    assert_eq!(
        json(&patch),
        parsed(
            r#"{"status": {"phase": "Lost", "exporter": null,
                "message": "no heartbeat from the agent on node-c for over 90s"},
                "metadata": {"resourceVersion": "7"}}"#
        )
    );
    run.advance(&mut d, refused(409));
    assert!(run.requeue);
    let patch = run.next(&d, clock(), &live).unwrap();
    assert_eq!(
        json(&patch),
        parsed(r#"{"status": {"attachedTo": null}, "metadata": {"resourceVersion": "7"}}"#)
    );
    run.advance(&mut d, Reply::Updated(device("a", false, None)));
    assert!(run.next(&d, clock(), &live).is_none());
    assert_eq!(run.stage, DeviceStage::Finished);
    assert_eq!(d.lease_holder(), None);

    let mut d = device("a", true, Some("gone"));
    let mut run = DeviceRun::new();
    assert!(run.next(&d, clock(), &live).is_some());
    run.advance(&mut d, refused(403));
    assert_eq!(run.stage, DeviceStage::Failed);
    assert!(run.next(&d, clock(), &live).is_none());
}

#[test]
fn a_release_is_remembered_once_the_vm_is_resumed() {
    let mut released = ReleasedBoots::new();
    let instance = paused();
    let claims = [held("a", true, None), held("b", true, None)];
    let now = clock().now;
    let mut run = BootHoldRun::new(&released, &claims, None, Some(&instance), now);
    match run.next() {
        Some(BootHoldTask::Resume(reason)) => assert_eq!(reason, "all 2 devices are ready"),
        _ => panic!("the VM is to be resumed"),
    }
    run.resumed(&mut released, false);
    assert!(run.next().is_none());
    assert!(run.requeue);
    assert_eq!(released.reason("vmi-uid"), None);

    let mut run = BootHoldRun::new(&released, &claims, None, Some(&instance), now);
    run.resumed(&mut released, true);
    assert_eq!(
        released.reason("vmi-uid").as_deref(),
        Some("all 2 devices are ready")
    );
    let mut names = Vec::new();
    while let Some(task) = run.next() {
        match task {
            BootHoldTask::Write(name, Some(report)) => {
                assert_eq!(report.state, BootHoldState::Released);
                names.push(name.clone());
            }
            _ => panic!("the release is to be reported"),
        }
        let reply = if names.len() == 1 {
            refused(404)
        } else {
            refused(500)
        };
        run.written(reply);
        assert_eq!(run.requeue, names.len() == 2);
    }
    assert_eq!(names, vec!["a", "b"]);
    // The VM is not resumed again.
    let run = BootHoldRun::new(&released, &claims, None, Some(&instance), now);
    assert!(matches!(run.next(), Some(BootHoldTask::Write(_, Some(_)))));
}

#[test]
fn reports_that_are_out_of_date_are_dropped() {
    let old = BootHoldStatus {
        state: BootHoldState::Holding,
        vmi_uid: Some("gone".into()),
        since: NOW.into(),
        message: None,
    };
    let claims = [held("a", true, Some(old)), held("b", true, None)];
    let mut run = BootHoldRun::new(&ReleasedBoots::new(), &claims, None, None, clock().now);
    match run.next() {
        Some(BootHoldTask::Write(name, None)) => assert_eq!(name, "a"),
        _ => panic!("a report is to be dropped"),
    }
    run.written(Reply::Written);
    assert!(run.next().is_none());
    assert!(!run.requeue);
}

#[test]
fn copies_say_the_same() {
    let mut instance = vmi();
    instance.active_pods = vec![("p".into(), "node-a".into()), ("q".into(), "node-b".into())];
    assert_eq!(instance, instance.clone());
    assert_eq!(vm(), vm().clone());
}
