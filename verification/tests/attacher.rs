use atomic_usb::agent::attacher::{
    attempt_report, connection_patch, desired_sessions, find_device, plan_attempt, plan_sessions,
    session_is_stale, socket_missing, AttemptPlan, AttemptResult, Backoff, ConnectionReport,
    ReportStep, Reporter, Retry, RunningSession, SessionSpec,
};
use atomic_usb::agent::attempt::{Attempt, AttemptEvent, AttemptStage};
use atomic_usb::crd::{
    Attachment, ConnectionState, ConnectionStatus, DevicePhase, DeviceSelector,
    ExporterEndpoint, UsbDevice, UsbDeviceClaim, UsbDeviceClaimSpec, UsbDeviceClaimStatus,
    UsbDeviceSpec, UsbDeviceStatus,
};
use atomic_usb::json::Value;
use atomic_usb::kubevirt::VmiInfo;
use atomic_usb::proto::{ClaimRef, Reply};
use atomic_usb::table::Table;
use atomic_usb::util::Timestamp;

const NOW: &str = "2026-09-16T12:00:00Z";

fn time(text: &str) -> Timestamp {
    Timestamp::parse(text).unwrap()
}

fn exporter() -> ExporterEndpoint {
    ExporterEndpoint {
        address: "192.0.2.10".into(),
        port: 7575,
        pod: "p".into(),
    }
}

fn device(name: &str, holder: Option<&str>) -> UsbDevice {
    let mut d = UsbDevice::new(name, UsbDeviceSpec::default());
    d.status = Some(UsbDeviceStatus {
        phase: Some(DevicePhase::Available),
        node: Some("node-c".into()),
        exporter: Some(exporter()),
        last_seen: Some(NOW.into()),
        attached_to: holder.map(|uid| Attachment {
            namespace: "default".into(),
            claim: "c".into(),
            claim_uid: uid.into(),
            vm_name: "my-vm".into(),
            since: NOW.into(),
        }),
        ..Default::default()
    });
    d
}

fn claim(uid: &str, device: &str, slot: i32) -> UsbDeviceClaim {
    let mut c = UsbDeviceClaim::new(
        "c",
        UsbDeviceClaimSpec {
            vm_name: "my-vm".into(),
            selector: DeviceSelector::default(),
            slot: None,
            hold_boot: None,
        },
    );
    c.metadata.namespace = Some("default".into());
    c.metadata.uid = Some(uid.into());
    c.status = Some(UsbDeviceClaimStatus {
        device_name: Some(device.into()),
        slot: Some(slot),
        ..Default::default()
    });
    c
}

fn vmi() -> VmiInfo {
    VmiInfo {
        namespace: "default".into(),
        name: "my-vm".into(),
        uid: "vmi-uid".into(),
        phase: Some("Running".into()),
        node: Some("node-a".into()),
        client_passthrough: true,
        start_paused: false,
        paused: false,
        paused_since: None,
        active_pods: vec![
            ("p1".into(), "node-a".into()),
            ("p2".into(), "node-b".into()),
        ],
        controlled_by_vm: true,
        deleting: false,
    }
}

fn session(uid: &str, slot: i32) -> SessionSpec {
    SessionSpec {
        claim: ClaimRef {
            namespace: "default".into(),
            name: "c".into(),
            uid: uid.into(),
        },
        device: "d".into(),
        slot,
        vmi_uid: "vmi-uid".into(),
        vm_name: "my-vm".into(),
    }
}

#[test]
fn sessions_need_a_lease_and_a_running_vm() {
    let devices = [device("d", Some("u1"))];
    let vmis = [vmi()];
    let wanted = |c: &UsbDeviceClaim, devices: &[UsbDevice], vmis: &[VmiInfo]| {
        let all = desired_sessions("node-a", std::slice::from_ref(c), devices, vmis);
        all.get(&"u1".to_string()).cloned()
    };
    let c = claim("u1", "d", 3);
    assert_eq!(wanted(&c, &devices, &vmis), Some(session("u1", 3)));

    let mut other = c.clone();
    other.metadata.deleting = true;
    assert_eq!(wanted(&other, &devices, &vmis), None);
    let mut other = c.clone();
    other.metadata.namespace = None;
    assert_eq!(wanted(&other, &devices, &vmis), None);
    let mut other = c.clone();
    other.status = None;
    assert_eq!(wanted(&other, &devices, &vmis), None);
    let mut other = c.clone();
    other.status.as_mut().unwrap().slot = None;
    assert_eq!(wanted(&other, &devices, &vmis), None);
    assert_eq!(wanted(&c, &[device("d", Some("u2"))], &vmis), None);
    assert_eq!(wanted(&c, &[device("e", Some("u1"))], &vmis), None);
    assert_eq!(wanted(&c, &devices, &[]), None);
    let stopped = VmiInfo {
        phase: Some("Succeeded".into()),
        ..vmi()
    };
    assert_eq!(wanted(&c, &devices, &[stopped]), None);
    let plain = VmiInfo {
        client_passthrough: false,
        ..vmi()
    };
    assert_eq!(wanted(&c, &devices, &[plain]), None);
    let elsewhere = VmiInfo {
        node: Some("node-b".into()),
        ..vmi()
    };
    assert_eq!(wanted(&c, &devices, &[elsewhere]), None);
    assert!(find_device(&devices, "d").is_some());
    assert!(find_device(&devices, "e").is_none());
}

#[test]
fn sessions_converge() {
    let mut desired: Table<String, SessionSpec> = Table::new();
    desired.insert("same".into(), session("same", 3));
    desired.insert("moved".into(), session("moved", 2));
    desired.insert("ended".into(), session("ended", 1));
    desired.insert("new".into(), session("new", 0));
    let mut running: Table<String, RunningSession> = Table::new();
    for (uid, slot, finished) in [
        ("same", 3, false),
        ("moved", 1, false),
        ("ended", 1, true),
        ("gone", 0, false),
    ] {
        running.insert(
            uid.into(),
            RunningSession {
                spec: session(uid, slot),
                finished,
            },
        );
    }
    let plan = plan_sessions(&running, &desired);
    let (mut stop, mut start) = (plan.stop, plan.start);
    stop.sort();
    start.sort();
    assert_eq!(stop, vec!["ended", "gone", "moved"]);
    assert_eq!(start, vec!["ended", "moved", "new"]);
    assert!(!session_is_stale(&desired, "same", &session("same", 3), false));
    assert!(session_is_stale(&desired, "same", &session("same", 3), true));
}

#[test]
fn retries_back_off() {
    let mut backoff = Backoff::new();
    let failed = AttemptResult::Failed("x".into());
    for secs in [1, 2, 4, 8, 16, 30, 30] {
        assert_eq!(backoff.next(&failed), Retry::After(secs));
    }
    // Waiting for the cluster does not count, a session that stayed up starts over.
    assert_eq!(
        backoff.next(&AttemptResult::Waiting("y".into())),
        Retry::OnChange(30)
    );
    assert_eq!(backoff.next(&AttemptResult::Ended(29)), Retry::After(30));
    assert_eq!(backoff.next(&AttemptResult::Ended(30)), Retry::After(1));
    assert_eq!(backoff.next(&failed), Retry::After(2));
    assert_eq!(
        attempt_report(&AttemptResult::Ended(5)),
        "session ended; reconnecting"
    );
    assert_eq!(attempt_report(&AttemptResult::Waiting("y".into())), "y");
    assert_eq!(attempt_report(&failed), "x");
}

#[test]
fn attempts_wait_for_what_is_missing() {
    let s = session("u1", 3);
    let d = device("d", Some("u1"));
    let v = vmi();
    let plan = plan_attempt(&s, "node-a", Some(&d), Some(&v), time(NOW), 90)
        .ok()
        .unwrap();
    assert_eq!(plan.exporter, exporter());
    assert_eq!(plan.source_node, "node-c");
    assert_eq!(plan.pods, vec!["p1"]);
    let why = |d: Option<&UsbDevice>, v: Option<&VmiInfo>, now: &str| {
        plan_attempt(&s, "node-a", d, v, time(now), 90)
            .err()
            .unwrap()
    };
    assert_eq!(why(None, Some(&v), NOW), "UsbDevice d not found");
    assert_eq!(
        why(Some(&device("d", None)), Some(&v), NOW),
        "device lease is not held by this claim"
    );
    assert_eq!(
        why(Some(&d), Some(&v), "2026-09-16T12:01:31Z"),
        "device is Available (last seen on node-c)"
    );
    let mut unknown = device("d", Some("u1"));
    unknown.status.as_mut().unwrap().phase = None;
    unknown.status.as_mut().unwrap().node = None;
    assert_eq!(
        why(Some(&unknown), Some(&v), NOW),
        "device is unknown (last seen on unknown node)"
    );
    assert_eq!(why(Some(&d), None, NOW), "VirtualMachineInstance not found");
    let replaced = VmiInfo {
        uid: "next".into(),
        ..vmi()
    };
    assert_eq!(
        why(Some(&d), Some(&replaced), NOW),
        "VirtualMachineInstance was replaced"
    );
}

#[test]
fn a_missing_socket_is_named() {
    assert_eq!(
        socket_missing(3),
        "usbredir socket virt-usbredir-3 not found for the VM on this node"
    );
}

fn attempt() -> Attempt {
    let plan = AttemptPlan {
        exporter: exporter(),
        source_node: "n".into(),
        pods: vec![],
    };
    Attempt::new(plan, "/run/sock".into(), 2)
}

/// What an attempt fails with when the last of some steps goes like this.
fn failure(events: Vec<AttemptEvent>) -> String {
    let mut a = attempt();
    for event in events {
        assert!(a.result().is_none());
        a.advance(event);
    }
    match a.result() {
        Some(AttemptResult::Failed(message)) => message,
        _ => panic!("the attempt has not failed"),
    }
}

fn answer(ok: bool, error: Option<&str>) -> AttemptEvent {
    AttemptEvent::Answered(Reply {
        ok,
        error: error.map(str::to_string),
    })
}

#[test]
fn a_device_is_attached_step_by_step() {
    let mut a = attempt();
    assert_eq!(
        a.report(false),
        Some(report(
            ConnectionState::Connecting,
            "connecting to exporter on n",
            false
        ))
    );
    a.advance(AttemptEvent::Done);
    assert!(matches!(a.stage, AttemptStage::Connect));
    assert_eq!(a.report(true), None);
    a.advance(AttemptEvent::Done);
    assert!(matches!(a.stage, AttemptStage::Hello));
    a.advance(AttemptEvent::Done);
    assert!(matches!(a.stage, AttemptStage::Answer));
    a.advance(answer(true, Some("x")));
    assert!(matches!(a.stage, AttemptStage::Socket));
    a.advance(AttemptEvent::Done);
    assert_eq!(a.report(false), None);
    assert_eq!(
        a.report(true),
        Some(report(
            ConnectionState::Connecting,
            "ready on virt-usbredir-2 with the device from n; waiting for the VM to resume",
            true
        ))
    );
    a.advance(AttemptEvent::Silent { paused: true });
    assert!(matches!(a.stage, AttemptStage::Greeting), "a paused VM is silent");
    a.advance(AttemptEvent::Read(5));
    assert!(matches!(a.stage, AttemptStage::Forward(5)));
    a.advance(AttemptEvent::Done);
    assert_eq!(
        a.report(false),
        Some(report(
            ConnectionState::Connected,
            "attached from n via virt-usbredir-2",
            false
        ))
    );
    assert_eq!(a.result(), None);
    a.advance(AttemptEvent::Closed(7));
    assert_eq!(a.result(), Some(AttemptResult::Ended(7)));
}

#[test]
fn failed_steps_are_named() {
    let error = || AttemptEvent::Error("e".to_string());
    let done = || AttemptEvent::Done;
    let greeting = |event| failure(vec![done(), done(), done(), answer(true, None), done(), event]);
    assert_eq!(failure(vec![error()]), "e");
    assert_eq!(
        failure(vec![done(), error()]),
        "connecting to exporter 192.0.2.10:7575 on n: e"
    );
    assert_eq!(
        failure(vec![done(), AttemptEvent::TimedOut]),
        "timed out connecting to exporter 192.0.2.10:7575 on n"
    );
    assert_eq!(failure(vec![done(), done(), error()]), "sending handshake: e");
    assert_eq!(
        failure(vec![done(), done(), done(), error()]),
        "reading handshake reply: e"
    );
    assert_eq!(
        failure(vec![done(), done(), done(), AttemptEvent::TimedOut]),
        "exporter on n did not answer the handshake"
    );
    assert_eq!(
        failure(vec![done(), done(), done(), answer(false, Some("busy"))]),
        "exporter on n refused: busy"
    );
    assert_eq!(
        failure(vec![done(), done(), done(), answer(false, None)]),
        "exporter on n refused: "
    );
    assert_eq!(
        failure(vec![done(), done(), done(), answer(true, None), error()]),
        "connecting to /run/sock: e"
    );
    assert_eq!(greeting(error()), "reading from QEMU: e");
    assert_eq!(
        greeting(AttemptEvent::Read(0)),
        "QEMU closed the usbredir socket"
    );
    assert_eq!(
        greeting(AttemptEvent::Silent { paused: false }),
        "QEMU did not answer on virt-usbredir-2; is the slot used by another usbredir client?"
    );
    assert_eq!(
        failure(vec![
            done(),
            done(),
            done(),
            answer(true, None),
            done(),
            AttemptEvent::Read(1),
            error()
        ]),
        "forwarding to exporter: e"
    );
}

fn report(state: ConnectionState, message: &str, awaiting_resume: bool) -> ConnectionReport {
    ConnectionReport {
        state,
        message: message.into(),
        awaiting_resume,
    }
}

fn json(v: &Value) -> serde_json::Value {
    match v {
        Value::Null => serde_json::Value::Null,
        Value::Bool(b) => serde_json::Value::Bool(*b),
        Value::Number(n) => serde_json::from_str(n).unwrap(),
        Value::Text(s) => serde_json::Value::String(s.clone()),
        Value::Array(items) => serde_json::Value::Array(items.iter().map(json).collect()),
        Value::Object(members) => serde_json::Value::Object(
            members.iter().map(|(k, v)| (k.clone(), json(v))).collect(),
        ),
    }
}

#[test]
fn connections_are_reported_when_they_change() {
    let mut r = Reporter::new(time(NOW));
    assert_eq!(r.since(), NOW);
    let connecting = report(ConnectionState::Connecting, "a", false);
    let later = "2026-09-16T12:00:05Z";
    assert_eq!(
        r.decide(&connecting, None, "node-a", time(later)),
        ReportStep::Write(true)
    );
    assert_eq!(r.since(), later);
    // Not written yet, so it is tried again.
    assert_eq!(
        r.decide(&connecting, None, "node-a", time(later)),
        ReportStep::Write(true)
    );
    r.written(&connecting);
    assert_eq!(
        r.decide(&connecting, None, "node-a", time(NOW)),
        ReportStep::Skip
    );
    // Another message in the same state keeps the time.
    let still = report(ConnectionState::Connecting, "b", false);
    assert_eq!(
        r.decide(&still, None, "node-a", time("2026-09-16T12:00:09Z")),
        ReportStep::Write(false)
    );
    assert_eq!(r.since(), later);
    r.written(&still);
    let awaiting = report(ConnectionState::Connecting, "b", true);
    assert_eq!(
        r.decide(&awaiting, None, "node-a", time("2026-09-16T12:00:10Z")),
        ReportStep::Write(true)
    );
    assert_eq!(r.since(), "2026-09-16T12:00:10Z");
}

#[test]
fn a_migration_is_not_overwritten() {
    let mut r = Reporter::new(time(NOW));
    let current = |node: &str, state| ConnectionStatus {
        state,
        node: node.into(),
        device_name: "d".into(),
        slot: 3,
        since: NOW.into(),
        message: None,
        awaiting_resume: None,
    };
    let gone = report(ConnectionState::Disconnected, "detached", false);
    let connected = report(ConnectionState::Connected, "here", false);
    let theirs = current("node-b", ConnectionState::Connected);
    assert_eq!(
        r.decide(&connected, Some(&theirs), "node-a", time(NOW)),
        ReportStep::Write(true)
    );
    assert_eq!(
        r.decide(
            &gone,
            Some(&current("node-a", ConnectionState::Connected)),
            "node-a",
            time(NOW)
        ),
        ReportStep::Write(true)
    );
    assert_eq!(
        r.decide(
            &gone,
            Some(&current("node-b", ConnectionState::Connecting)),
            "node-a",
            time(NOW)
        ),
        ReportStep::Write(true)
    );
    assert_eq!(
        r.decide(&gone, Some(&theirs), "node-a", time(NOW)),
        ReportStep::Skip
    );
    // It counts as reported.
    assert_eq!(r.decide(&gone, None, "node-a", time(NOW)), ReportStep::Skip);
}

#[test]
fn connection_patches_clear_a_stale_flag() {
    let patch = connection_patch(
        &report(ConnectionState::Connected, "m", false),
        "node-a",
        &session("u", 3),
        NOW,
    );
    assert_eq!(
        json(&patch),
        serde_json::from_str::<serde_json::Value>(
            r#"{"status": {"connection": {"state": "Connected", "node": "node-a",
                "deviceName": "d", "slot": 3, "since": "2026-09-16T12:00:00Z", "message": "m",
                "awaitingResume": null}}}"#
        )
        .unwrap()
    );
    let patch = connection_patch(
        &report(ConnectionState::Connecting, "m", true),
        "node-a",
        &session("u", 3),
        NOW,
    );
    assert_eq!(
        json(&patch)["status"]["connection"]["awaitingResume"],
        serde_json::Value::Bool(true)
    );
}
