use atomic_usb::agent::discovery::{
    find_object, is_recent, is_unplugged, known_devices, preview_names, published_devices, same_devices,
    rescan_secs, Discovery,
};
use atomic_usb::agent::publish::{
    desired_status, hex_byte, object_to_apply, status_to_write, unplugged_patch, StatusWrites,
};
use atomic_usb::agent::{is_published, parse_patterns, AgentConfig, DevicePattern};
use atomic_usb::crd::{
    DevicePhase, ExporterEndpoint, UsbDevice, UsbDeviceSpec, UsbDeviceStatus,
};
use atomic_usb::identity::IdentitySource;
use atomic_usb::json::{same_value, without_nulls, Value};
use atomic_usb::sysfs::UsbDeviceInfo;
use atomic_usb::util::Timestamp;

const SECOND: u128 = 1_000_000_000;

fn value(v: &serde_json::Value) -> Value {
    match v {
        serde_json::Value::Null => Value::Null,
        serde_json::Value::Bool(b) => Value::Bool(*b),
        serde_json::Value::Number(n) => Value::Number(n.to_string()),
        serde_json::Value::String(s) => Value::Text(s.clone()),
        serde_json::Value::Array(items) => Value::Array(items.iter().map(value).collect()),
        serde_json::Value::Object(members) => {
            Value::Object(members.iter().map(|(k, v)| (k.clone(), value(v))).collect())
        }
    }
}

fn json(v: &Value) -> serde_json::Value {
    match v {
        Value::Null => serde_json::Value::Null,
        Value::Bool(b) => serde_json::Value::Bool(*b),
        Value::Number(n) => serde_json::from_str(n).unwrap(),
        Value::Text(s) => serde_json::Value::String(s.clone()),
        Value::Array(items) => serde_json::Value::Array(items.iter().map(json).collect()),
        Value::Object(members) => serde_json::Value::Object(
            members.iter().map(|(k, v)| (k.clone(), json(v))).collect(),
        ),
    }
}

fn parsed(text: &str) -> serde_json::Value {
    serde_json::from_str(text).unwrap()
}

#[test]
fn strips_nulls_recursively() {
    let v = value(&parsed(
        r#"{"a": null, "b": {"c": null, "d": 1}, "e": [null]}"#,
    ));
    assert_eq!(
        without_nulls(&v),
        value(&parsed(r#"{"b": {"d": 1}, "e": [null]}"#))
    );
    let stripped = without_nulls(&v);
    assert!(same_value(&without_nulls(&stripped), &stripped));
    assert!(!same_value(&v, &stripped));
}

fn config() -> AgentConfig {
    AgentConfig {
        node: "node-c".into(),
        pod_name: "agent-c".into(),
        pod_ip: "192.0.2.10".into(),
        listen_port: 7575,
        include_hubs: false,
        ignore: Vec::new(),
        scan_interval_secs: 15,
        heartbeat_secs: 30,
        lost_after_secs: 90,
    }
}

fn info(port: &str, dev_num: u32, serial: Option<&str>) -> UsbDeviceInfo {
    UsbDeviceInfo {
        port_path: port.into(),
        bus_num: 3,
        dev_num,
        vendor_id: "1a86".into(),
        product_id: "7523".into(),
        serial: serial.map(Into::into),
        manufacturer: None,
        product: Some("USB Serial".into()),
        bcd_device: Some("0264".into()),
        device_class: 0xff,
        interface_classes: vec![0xff, 0x03],
        speed: Some("12".into()),
    }
}

fn time(text: &str) -> Timestamp {
    Timestamp::parse(text).unwrap()
}

fn now() -> Timestamp {
    time("2026-09-16T12:00:00Z")
}

/// The object of a device as its node publishes it.
fn published(name: &str, d: &UsbDeviceInfo, source: IdentitySource) -> UsbDevice {
    let mut o = UsbDevice::new(
        name,
        UsbDeviceSpec {
            vendor_id: d.vendor_id.clone(),
            product_id: d.product_id.clone(),
            serial: d.serial.clone(),
            manufacturer: d.manufacturer.clone(),
            product: d.product.clone(),
            bcd_device: d.bcd_device.clone(),
            identity: source,
        },
    );
    o.metadata.labels = vec![
        (
            "atomicusb.safewords.io/identity".into(),
            source.name().into(),
        ),
        ("atomicusb.safewords.io/node".into(), "node-c".into()),
        (
            "atomicusb.safewords.io/product-id".into(),
            d.product_id.clone(),
        ),
        (
            "atomicusb.safewords.io/vendor-id".into(),
            d.vendor_id.clone(),
        ),
    ];
    o.metadata.resource_version = Some("9".into());
    o.status = Some(UsbDeviceStatus {
        phase: Some(DevicePhase::Available),
        node: Some("node-c".into()),
        port_path: Some(d.port_path.clone()),
        bus_num: Some(d.bus_num),
        dev_num: Some(d.dev_num),
        speed: d.speed.clone(),
        device_class: Some(format!("{:02x}", d.device_class)),
        interface_classes: Some(
            d.interface_classes
                .iter()
                .map(|c| format!("{c:02x}"))
                .collect(),
        ),
        exporter: Some(ExporterEndpoint {
            address: "192.0.2.10".into(),
            port: 7575,
            pod: "agent-c".into(),
        }),
        last_seen: Some("2026-09-16T12:00:00Z".into()),
        message: None,
        attached_to: None,
    });
    o
}

#[test]
fn scans_rename_nothing() {
    let mut discovery = Discovery::new();
    let a = info("3-3", 3, None);
    let first = discovery.scan_once(&config(), vec![a.clone()], &[], now(), 0);
    assert_eq!(first.local.len(), 1);
    assert!(first.waiting.is_empty());
    let name = first.local.entry(0).0.clone();
    assert!(name.starts_with("usb-1a86-7523-usb-serial-"), "{name}");
    assert_eq!(first.local.entry(0).1.source, IdentitySource::Descriptor);
    assert_eq!(first.local.entry(0).1.info, a);

    // A lookalike arrives: the first keeps its name, the second is known by its port.
    let b = info("3-4", 4, None);
    let second = discovery.scan_once(&config(), vec![a.clone(), b.clone()], &[], now(), 1);
    assert_eq!(second.local.len(), 2);
    assert_eq!(second.local.get(&name).unwrap().info, a);
    let other = (0..2)
        .map(|i| second.local.entry(i))
        .find(|e| *e.0 != name)
        .unwrap();
    assert_eq!(other.1.source, IdentitySource::PortPath);
    assert_eq!(other.1.info, b);

    // The first was enumerated again: the name is free, but the lookalike is still there.
    let again = info("3-3", 9, None);
    let third = discovery.scan_once(&config(), vec![again, b], &[], now(), 2);
    assert!(third.local.get(&name).is_none());
}

#[test]
fn names_are_taken_up_again_after_a_restart() {
    let a = info("3-3", 3, None);
    let mut o = published("usb-old-name", &a, IdentitySource::Descriptor);
    let mut discovery = Discovery::new();
    discovery.recover_assignments("node-c", std::slice::from_ref(&o));
    let r = discovery.scan_once(
        &config(),
        vec![a.clone()],
        std::slice::from_ref(&o),
        now(),
        0,
    );
    assert_eq!(r.local.entry(0).0, "usb-old-name");

    // Not if another device sits in the port by now.
    let other = UsbDeviceInfo {
        product: Some("Other".into()),
        ..a.clone()
    };
    let mut discovery = Discovery::new();
    discovery.recover_assignments("node-c", std::slice::from_ref(&o));
    let r = discovery.scan_once(&config(), vec![other], std::slice::from_ref(&o), now(), 0);
    assert!(r.local.get(&"usb-old-name".to_string()).is_none());

    // Nor on another node, nor once it was marked as unplugged.
    let mut discovery = Discovery::new();
    discovery.recover_assignments("node-d", std::slice::from_ref(&o));
    o.status.as_mut().unwrap().phase = Some(DevicePhase::Unplugged);
    discovery.recover_assignments("node-c", std::slice::from_ref(&o));
    let r = discovery.scan_once(&config(), vec![a.clone()], &[], now(), 0);
    assert_ne!(r.local.entry(0).0, "usb-old-name");
}

#[test]
fn moved_devices_wait_for_their_name_for_a_while() {
    let a = info("3-3", 3, None);
    let name = Discovery::new()
        .scan_once(&config(), vec![a.clone()], &[], now(), 0)
        .local
        .entry(0)
        .0
        .clone();
    let mut o = published(&name, &a, IdentitySource::Descriptor);
    o.status.as_mut().unwrap().node = Some("node-a".into());
    let objects = [o];
    let mut discovery = Discovery::new();
    let r = discovery.scan_once(
        &config(),
        vec![a.clone()],
        &objects,
        now(),
        5 * SECOND,
    );
    assert_eq!(r.local.len(), 0);
    assert_eq!(r.waiting.len(), 1);
    assert_eq!(r.waiting[0].name, name);
    assert_eq!(r.waiting[0].held_by, "node-a");
    assert_eq!(r.waiting[0].key.port_path, "3-3");
    let r = discovery.scan_once(
        &config(),
        vec![a.clone()],
        &objects,
        now(),
        95 * SECOND - 1,
    );
    assert_eq!(r.waiting.len(), 1);
    // The grace period is over.
    let r = discovery.scan_once(
        &config(),
        vec![a.clone()],
        &objects,
        now(),
        95 * SECOND,
    );
    assert_eq!(r.waiting.len(), 0);
    assert_eq!(r.local.entry(0).1.source, IdentitySource::PortPath);
    // Once the other node stops sending heartbeats the name is free.
    let r = Discovery::new().scan_once(
        &config(),
        vec![a.clone()],
        &objects,
        time("2026-09-16T12:01:31Z"),
        0,
    );
    assert_eq!(r.local.entry(0).0, &name);
}

#[test]
fn known_devices_are_present_while_they_are_available() {
    let a = info("3-3", 3, Some("s"));
    let o = published("a", &a, IdentitySource::Serial);
    let known = known_devices(std::slice::from_ref(&o), now(), 90);
    assert_eq!(known[0].name, "a");
    assert_eq!(known[0].present_on.as_deref(), Some("node-c"));
    assert_eq!(known[0].fingerprint, o.fingerprint());
    let later = time("2026-09-16T12:01:31Z");
    assert_eq!(
        known_devices(std::slice::from_ref(&o), later, 90)[0].present_on,
        None
    );
    let objects = [o.clone(), published("b", &a, IdentitySource::Serial)];
    assert!(find_object(&objects, "b").is_some());
    assert!(find_object(&objects, "c").is_none());
}

#[test]
fn ignored_devices_and_hubs_are_not_published() {
    let hub = UsbDeviceInfo {
        device_class: 9,
        ..info("3-1", 2, None)
    };
    let other = UsbDeviceInfo {
        vendor_id: "abcd".into(),
        ..info("3-2", 3, None)
    };
    let ignore = parse_patterns(&[" abcd:* ".to_string(), "  ".to_string()]).unwrap();
    assert_eq!(ignore.len(), 1);
    let all = vec![hub.clone(), info("3-3", 4, None), other.clone()];
    let ports = |devices: Vec<UsbDeviceInfo>| -> Vec<String> {
        devices.into_iter().map(|d| d.port_path).collect()
    };
    assert_eq!(
        ports(published_devices(all.clone(), false, &ignore)),
        vec!["3-3"]
    );
    assert_eq!(
        ports(published_devices(all.clone(), true, &ignore)),
        vec!["3-1", "3-3"]
    );
    assert_eq!(
        ports(published_devices(all, true, &[])),
        vec!["3-1", "3-3", "3-2"]
    );
    // A scan leaves them out by itself.
    let settings = AgentConfig {
        include_hubs: false,
        ignore,
        ..config()
    };
    let found = vec![hub.clone(), info("3-3", 4, None), other];
    let r = Discovery::new().scan_once(&settings.clone(), found, &[], now(), 0);
    assert_eq!(r.local.len(), 1);
    assert_eq!(r.local.entry(0).1.info.port_path, "3-3");
    assert!(!is_published(&hub, false, &[]));
    assert!(is_published(&hub, true, &[]));
}

#[test]
fn bad_patterns_are_explained() {
    assert_eq!(
        DevicePattern::parse("1234").unwrap_err(),
        "\"1234\": expected VENDOR:PRODUCT"
    );
    assert_eq!(
        DevicePattern::parse("xx:5678").unwrap_err(),
        "\"xx:5678\": \"xx\" is not a hex id or *"
    );
    assert_eq!(
        DevicePattern::parse("1:\"").unwrap_err(),
        "\"1:\\\"\": \"\\\"\" is not a hex id or *"
    );
    assert_eq!(
        parse_patterns(&["*:*".to_string(), "x".to_string()]).unwrap_err(),
        "\"x\": expected VENDOR:PRODUCT"
    );
}

#[test]
fn objects_are_applied_when_they_differ() {
    let a = info("3-3", 3, Some("S1"));
    let o = published("usb-a", &a, IdentitySource::Serial);
    assert!(object_to_apply("usb-a", &a, IdentitySource::Serial, Some(&o), "node-c").is_none());
    let new = object_to_apply("usb-a", &a, IdentitySource::Serial, None, "node-c").unwrap();
    assert_eq!(
        json(&new),
        parsed(
            r#"{"apiVersion": "atomicusb.safewords.io/v1alpha1", "kind": "UsbDevice",
                "metadata": {"name": "usb-a", "labels": {
                    "atomicusb.safewords.io/vendor-id": "1a86",
                    "atomicusb.safewords.io/product-id": "7523",
                    "atomicusb.safewords.io/node": "node-c",
                    "atomicusb.safewords.io/identity": "Serial"}},
                "spec": {"vendorId": "1a86", "productId": "7523", "serial": "S1",
                         "product": "USB Serial", "bcdDevice": "0264", "identity": "Serial"}}"#
        )
    );
    let changed = |f: fn(&mut UsbDevice)| {
        let mut o = o.clone();
        f(&mut o);
        object_to_apply("usb-a", &a, IdentitySource::Serial, Some(&o), "node-c").is_some()
    };
    assert!(changed(|o| o.spec.serial = None));
    assert!(changed(|o| o.spec.identity = IdentitySource::Descriptor));
    assert!(changed(|o| o.metadata.labels[1].1 = "node-d".into()));
    assert!(changed(|o| {
        o.metadata.labels.pop();
    }));
    assert!(!changed(|o| o
        .metadata
        .labels
        .push(("other".into(), "label".into()))));
    // A node whose name makes no label has none.
    let bare = object_to_apply("usb-a", &a, IdentitySource::Serial, None, "___").unwrap();
    assert_eq!(
        json(&bare)["metadata"]["labels"].as_object().unwrap().len(),
        3
    );
}

#[test]
fn statuses_are_written_when_they_change_or_age() {
    let a = info("3-3", 3, None);
    let o = published("usb-a", &a, IdentitySource::Descriptor);
    let mut writes = StatusWrites::new();
    let write = |writes: &StatusWrites, o: Option<&UsbDevice>, t: &str, clock: u128| {
        status_to_write(&config(), "usb-a", &a, o, writes, time(t), clock)
    };
    assert!(write(&writes, Some(&o), "2026-09-16T12:00:29Z", 0).is_none());
    let beat = write(&writes, Some(&o), "2026-09-16T12:00:30Z", 0).unwrap();
    assert_eq!(
        json(&beat),
        parsed(
            r#"{"status": {"phase": "Available", "node": "node-c", "portPath": "3-3",
                "busNum": 3, "devNum": 3, "speed": "12", "deviceClass": "ff",
                "interfaceClasses": ["ff", "03"],
                "exporter": {"address": "192.0.2.10", "port": 7575, "pod": "agent-c"},
                "message": null, "lastSeen": "2026-09-16T12:00:30Z"}}"#
        )
    );
    assert!(write(&writes, None, "2026-09-16T12:00:00Z", 0).is_some());
    let changed = |f: fn(&mut UsbDeviceStatus)| {
        let mut o = o.clone();
        f(o.status.as_mut().unwrap());
        write(&StatusWrites::new(), Some(&o), "2026-09-16T12:00:01Z", 0).is_some()
    };
    assert!(!changed(|_| {}));
    assert!(changed(|s| s.message = Some("unplugged".into())));
    assert!(changed(|s| s.phase = Some(DevicePhase::Lost)));
    assert!(changed(|s| s.dev_num = Some(4)));
    assert!(changed(|s| s.speed = None));
    assert!(changed(|s| s.interface_classes = Some(vec!["ff".into()])));
    assert!(changed(|s| s.exporter = None));
    assert!(changed(|s| s.last_seen = None));
    assert!(!changed(|s| {
        s.attached_to = Some(atomic_usb::crd::Attachment {
            namespace: "n".into(),
            claim: "c".into(),
            claim_uid: "u".into(),
            vm_name: "v".into(),
            since: "s".into(),
        })
    }));

    // What was just written is not written again while the cache catches up.
    writes.record("usb-a", desired_status(&config(), &a), 7 * SECOND);
    assert!(write(&writes, None, "2026-09-16T12:00:00Z", 17 * SECOND - 1).is_none());
    assert!(write(&writes, None, "2026-09-16T12:00:00Z", 17 * SECOND).is_some());
    let moved = info("3-4", 3, None);
    assert!(status_to_write(&config(), "usb-a", &moved, None, &writes, now(), 7 * SECOND).is_some());
    let local = Discovery::new()
        .scan_once(&config(), vec![], &[], now(), 0)
        .local;
    writes.retain_local(&local);
    assert!(write(&writes, None, "2026-09-16T12:00:00Z", 7 * SECOND).is_some());
}

#[test]
fn devices_that_went_away_are_marked() {
    let a = info("3-3", 3, Some("s1"));
    let mut discovery = Discovery::new();
    let r = discovery.scan_once(&config(), vec![a.clone()], &[], now(), 0);
    let name = r.local.entry(0).0.clone();
    let there = published(&name, &a, IdentitySource::Serial);
    let gone = published("usb-gone", &a, IdentitySource::Serial);
    assert!(!is_unplugged(&there, "node-c", &r.local));
    assert!(is_unplugged(&gone, "node-c", &r.local));
    assert!(!is_unplugged(&gone, "node-d", &r.local));
    assert_eq!(
        json(&unplugged_patch(&gone, "node-c", now())),
        parsed(
            r#"{"metadata": {"resourceVersion": "9"}, "status": {"phase": "Unplugged",
                "exporter": null, "busNum": null, "devNum": null,
                "message": "unplugged from node-c at 2026-09-16T12:00:00Z"}}"#
        )
    );
}

#[test]
fn waiting_devices_are_rescanned_soon() {
    assert_eq!(rescan_secs(true, 15), 3);
    assert_eq!(rescan_secs(true, 2), 2);
    assert_eq!(rescan_secs(false, 15), 15);
    assert!(is_recent(5, 3, 1));
    assert!(!is_recent(0, 0, 0));
    assert!(is_recent(0, u128::MAX / 1_000_000_000_000_000_000_000, u64::MAX));
}

#[test]
fn names_can_be_previewed() {
    let hub = UsbDeviceInfo {
        device_class: 9,
        product: Some("Hub".into()),
        ..info("3-1", 2, Some("abc"))
    };
    let names = preview_names("local", &[hub, info("3-3", 3, None)]);
    assert_eq!(names[0].name, "usb-1a86-7523-abc");
    assert_eq!(names[0].identity, "Serial");
    assert!(names[0].hub);
    assert_eq!(names[1].identity, "Descriptor");
    assert!(!names[1].hub);
}

#[test]
fn bytes_have_two_digits() {
    for b in 0..=255u8 {
        assert_eq!(hex_byte(b), format!("{b:02x}"));
    }
}

#[test]
fn changes_of_the_plugged_devices_are_noticed() {
    let scan = |devices: Vec<UsbDeviceInfo>| {
        Discovery::new()
            .scan_once(&config(), devices, &[], now(), 0)
            .local
    };
    let (a, b) = (info("3-3", 3, Some("s1")), info("3-4", 4, Some("s2")));
    let both = scan(vec![a.clone(), b.clone()]);
    assert!(same_devices(&both, &scan(vec![b.clone(), a.clone()])));
    assert!(!same_devices(&both, &scan(vec![a.clone()])));
    assert!(!same_devices(&scan(vec![a.clone()]), &both));
    // The same device under the same name, enumerated again.
    let again = info("3-3", 9, Some("s1"));
    assert!(!same_devices(&scan(vec![a.clone()]), &scan(vec![again])));
    let faster = UsbDeviceInfo {
        interface_classes: vec![1],
        ..a.clone()
    };
    assert!(!same_devices(&scan(vec![a]), &scan(vec![faster])));
}
