use sha2::Digest;

use atomic_usb::identity::{
    assign, join_name, label_value, normalize_usb_id, short_hash, slugify, AssignContext,
    Assignment, Decision, Fingerprint, IdentitySource, InstanceKey, KnownDevice,
};
use atomic_usb::sysfs::UsbDeviceInfo;
use atomic_usb::table::Table;

fn is_dns_subdomain(name: &str) -> bool {
    name.len() <= 253
        && name.split('.').all(|seg| {
            !seg.is_empty()
                && seg
                    .chars()
                    .all(|c| c.is_ascii_lowercase() || c.is_ascii_digit() || c == '-')
                && !seg.starts_with('-')
                && !seg.ends_with('-')
        })
}

fn dev(
    port: &str,
    devnum: u32,
    vid: &str,
    pid: &str,
    serial: Option<&str>,
    product: Option<&str>,
) -> UsbDeviceInfo {
    UsbDeviceInfo {
        port_path: port.into(),
        bus_num: port.split('-').next().unwrap().parse().unwrap(),
        dev_num: devnum,
        vendor_id: vid.into(),
        product_id: pid.into(),
        serial: serial.map(Into::into),
        manufacturer: None,
        product: product.map(Into::into),
        bcd_device: Some("0264".into()),
        device_class: 0xff,
        interface_classes: vec![],
        speed: Some("12".into()),
    }
}

/// A CH340 USB serial adapter, which has no serial number.
fn ch340(port: &str, devnum: u32) -> UsbDeviceInfo {
    dev(port, devnum, "1a86", "7523", None, Some("USB Serial"))
}

fn known_dev(d: &UsbDeviceInfo, name: &str, present_on: Option<&str>) -> KnownDevice {
    KnownDevice {
        name: name.into(),
        fingerprint: d.into(),
        present_on: present_on.map(Into::into),
    }
}

fn run(
    node: &str,
    local: &[UsbDeviceInfo],
    sticky: &Table<InstanceKey, Assignment>,
    known: &[KnownDevice],
    may_defer: &[InstanceKey],
) -> Table<InstanceKey, Decision> {
    assign(
        &AssignContext {
            node,
            sticky,
            known,
            may_defer,
        },
        local,
    )
}

fn assigned(decisions: &Table<InstanceKey, Decision>, d: &UsbDeviceInfo) -> Assignment {
    match decisions.get(&InstanceKey::from(d)).unwrap() {
        Decision::Assigned(a) => a.clone(),
        other => panic!("expected assignment, got {other:?}"),
    }
}

fn one(key: InstanceKey, assignment: Assignment) -> Table<InstanceKey, Assignment> {
    let mut t = Table::new();
    t.insert(key, assignment);
    t
}

fn none() -> (
    Table<InstanceKey, Assignment>,
    Vec<KnownDevice>,
    Vec<InstanceKey>,
) {
    (Table::new(), Vec::new(), Vec::new())
}

#[test]
fn serial_tier_is_preferred_and_readable() {
    let (sticky, known, defer) = none();
    let d = dev(
        "1-2",
        7,
        "10c4",
        "ea60",
        Some("a1b2c3d4"),
        Some("CP2102N USB to UART Bridge Controller"),
    );
    let a = assigned(
        &run("node-c", std::slice::from_ref(&d), &sticky, &known, &defer),
        &d,
    );
    assert_eq!(
        a,
        Assignment {
            name: "usb-10c4-ea60-a1b2c3d4".into(),
            source: IdentitySource::Serial
        }
    );
}

#[test]
fn serial_less_device_gets_portable_descriptor_identity() {
    let (sticky, known, defer) = none();
    let d = ch340("3-3", 3);
    let a4 = assigned(
        &run("node-c", std::slice::from_ref(&d), &sticky, &known, &defer),
        &d,
    );
    assert_eq!(a4.source, IdentitySource::Descriptor);
    assert!(
        a4.name.starts_with("usb-1a86-7523-usb-serial-"),
        "{}",
        a4.name
    );

    // Moved to another node and port: same identity, so claims follow it.
    let moved = ch340("1-4", 9);
    let known = vec![known_dev(&d, &a4.name, None)];
    let a2 = assigned(
        &run(
            "node-a",
            std::slice::from_ref(&moved),
            &sticky,
            &known,
            &defer,
        ),
        &moved,
    );
    assert_eq!(a2, a4);
}

#[test]
fn identical_serial_less_devices_on_one_node_fall_back_to_ports() {
    let (sticky, known, defer) = none();
    let a = ch340("3-3", 3);
    let b = ch340("3-4", 4);
    let decisions = run("node-c", &[a.clone(), b.clone()], &sticky, &known, &defer);
    let (aa, ab) = (assigned(&decisions, &a), assigned(&decisions, &b));
    assert_eq!(aa.source, IdentitySource::PortPath);
    assert_eq!(ab.source, IdentitySource::PortPath);
    assert_ne!(aa.name, ab.name);
}

#[test]
fn sticky_assignment_survives_lookalike_arrival() {
    let (empty, known, defer) = none();
    let a = ch340("3-3", 3);
    let first = assigned(
        &run("node-c", std::slice::from_ref(&a), &empty, &known, &defer),
        &a,
    );
    let sticky = one(InstanceKey::from(&a), first.clone());

    let b = ch340("3-4", 4);
    let decisions = run("node-c", &[a.clone(), b.clone()], &sticky, &known, &defer);
    assert_eq!(
        assigned(&decisions, &a),
        first,
        "attached device must not be renamed"
    );
    assert_eq!(assigned(&decisions, &b).source, IdentitySource::PortPath);
}

#[test]
fn known_lookalike_makes_descriptor_tier_ambiguous() {
    let (sticky, _, defer) = none();
    let a = ch340("3-3", 3);
    let lookalike = ch340("1-1", 2);
    // The cluster has seen a second identical dongle before (published under its port identity).
    let known = vec![known_dev(
        &lookalike,
        "usb-1a86-7523-node-a-1-1-deadbeef",
        None,
    )];
    let a4 = assigned(
        &run("node-c", std::slice::from_ref(&a), &sticky, &known, &defer),
        &a,
    );
    assert_eq!(a4.source, IdentitySource::PortPath);
}

#[test]
fn duplicate_serials_with_different_descriptors_use_serial_descriptor_tier() {
    let (sticky, _, defer) = none();
    let adapter = dev(
        "1-1",
        2,
        "1a86",
        "55d4",
        Some("0001"),
        Some("USB Dual Serial"),
    );
    let other = dev(
        "1-2",
        3,
        "1a86",
        "55d4",
        Some("0001"),
        Some("USB Single Serial"),
    );
    let decisions = run(
        "node-b",
        &[adapter.clone(), other.clone()],
        &sticky,
        &[],
        &defer,
    );
    let (az, ao) = (
        assigned(&decisions, &adapter),
        assigned(&decisions, &other),
    );
    assert_eq!(az.source, IdentitySource::SerialDescriptor);
    assert_eq!(ao.source, IdentitySource::SerialDescriptor);
    assert_ne!(az.name, ao.name);
}

#[test]
fn defers_while_previous_node_still_holds_identity() {
    let (sticky, _, _) = none();
    let d = ch340("3-3", 3);
    let name = assigned(
        &run("node-c", std::slice::from_ref(&d), &sticky, &[], &[]),
        &d,
    )
    .name;
    let moved = ch340("1-4", 9);
    let known = vec![known_dev(&d, &name, Some("node-c"))];

    let defer = vec![InstanceKey::from(&moved)];
    assert_eq!(
        run(
            "node-a",
            std::slice::from_ref(&moved),
            &sticky,
            &known,
            &defer
        )
        .get(&InstanceKey::from(&moved)),
        Some(&Decision::Deferred {
            name: name.clone(),
            held_by: "node-c".into()
        })
    );
    // Grace period over and the other node still claims to have it: a genuine duplicate.
    let a = assigned(
        &run("node-a", std::slice::from_ref(&moved), &sticky, &known, &[]),
        &moved,
    );
    assert_eq!(a.source, IdentitySource::PortPath);
}

#[test]
fn simultaneous_claims_resolve_by_node_name() {
    let d = ch340("3-3", 3);
    let a = assigned(
        &run("node-c", std::slice::from_ref(&d), &Table::new(), &[], &[]),
        &d,
    );
    let sticky = one(InstanceKey::from(&d), a.clone());
    let held_by_lower = vec![known_dev(&d, &a.name, Some("node-a"))];
    let decisions = run(
        "node-c",
        std::slice::from_ref(&d),
        &sticky,
        &held_by_lower,
        &[],
    );
    let decision = decisions.get(&InstanceKey::from(&d)).unwrap();
    assert_ne!(
        decision,
        &Decision::Assigned(a.clone()),
        "higher node name yields"
    );
    let held_by_higher = vec![known_dev(&d, &a.name, Some("node-d"))];
    assert_eq!(
        assigned(
            &run(
                "node-c",
                std::slice::from_ref(&d),
                &sticky,
                &held_by_higher,
                &[]
            ),
            &d
        ),
        a
    );
}

#[test]
fn names_are_valid_for_hostile_input() {
    let (sticky, known, defer) = none();
    for serial in [
        Some(""),
        Some("   "),
        Some("DE:AD:BE:EF"),
        Some(&*"x".repeat(300)),
        Some("üñí©ødé"),
        None,
    ] {
        let d = dev(
            "1-1.4.3",
            5,
            "1a86",
            "55d4",
            serial,
            Some("\u{1F600} weird / product"),
        );
        let a = assigned(
            &run(
                "node-c.example",
                std::slice::from_ref(&d),
                &sticky,
                &known,
                &defer,
            ),
            &d,
        );
        assert!(is_dns_subdomain(&a.name), "{a:?}");
        let port = Fingerprint::from(&d).port_name("Node_With.Weird", "1-1.4.3");
        assert!(is_dns_subdomain(&port), "{port}");
    }
}

#[test]
fn lossy_serials_do_not_collide() {
    let upper = Fingerprint {
        vendor_id: "10c4".into(),
        product_id: "ea60".into(),
        serial: Some("A1B2".into()),
        ..Default::default()
    };
    let lower = Fingerprint {
        serial: Some("a1b2".into()),
        ..upper.clone()
    };
    assert_ne!(
        upper.portable_name(IdentitySource::Serial),
        lower.portable_name(IdentitySource::Serial)
    );
}

#[test]
fn label_values() {
    assert_eq!(label_value("node-c").as_deref(), Some("node-c"));
    assert_eq!(label_value("-a b-").as_deref(), Some("a-b"));
    assert_eq!(label_value("___"), None);
    assert_eq!(label_value(&"n".repeat(100)).unwrap().len(), 63);
}

#[test]
fn usb_ids() {
    assert_eq!(normalize_usb_id("10C4").as_deref(), Some("10c4"));
    assert_eq!(normalize_usb_id("0x1a86").as_deref(), Some("1a86"));
    assert_eq!(normalize_usb_id("451").as_deref(), Some("0451"));
    assert_eq!(normalize_usb_id("xyz"), None);
    assert_eq!(normalize_usb_id("12345"), None);
}

/// The first eight digits of the hash of some parts, each after a zero byte.
fn hash(parts: &[&str]) -> String {
    hex::encode(sha2::Sha256::digest(parts.join("\0")))[..8].to_string()
}

fn list(parts: &[&str]) -> Vec<String> {
    parts.iter().map(|p| p.to_string()).collect()
}

#[test]
fn hashes_cover_the_tier_and_the_parts() {
    assert_eq!(
        short_hash(IdentitySource::Serial, &list(&["a", "b"])),
        hash(&["serial", "a", "b"])
    );
    assert_eq!(
        short_hash(IdentitySource::SerialDescriptor, &list(&["a"])),
        hash(&["serial+descriptor", "a"])
    );
    assert_eq!(
        short_hash(IdentitySource::Descriptor, &list(&[])),
        hash(&["descriptor"])
    );
    assert_eq!(
        short_hash(IdentitySource::PortPath, &list(&["", ""])),
        hash(&["port", "", ""])
    );
    assert_eq!(hash(&["serial", "a", "b"]).len(), 8);
}

#[test]
fn names_are_made_of_ids_label_and_hash() {
    let fp = Fingerprint {
        vendor_id: "1a86".into(),
        product_id: "55d4".into(),
        serial: Some("AB 1".into()),
        bcd_device: Some("0443".into()),
        manufacturer: None,
        product: Some("USB Dual".into()),
    };
    assert_eq!(
        fp.portable_name(IdentitySource::Serial).unwrap(),
        format!(
            "usb-1a86-55d4-ab-1-{}",
            hash(&["serial", "1a86", "55d4", "AB 1"])
        )
    );
    assert_eq!(
        fp.portable_name(IdentitySource::SerialDescriptor).unwrap(),
        format!(
            "usb-1a86-55d4-ab-1-{}",
            hash(&[
                "serial+descriptor",
                "1a86",
                "55d4",
                "AB 1",
                "0443",
                "",
                "USB Dual"
            ])
        )
    );
    assert_eq!(
        fp.portable_name(IdentitySource::Descriptor).unwrap(),
        format!(
            "usb-1a86-55d4-usb-dual-{}",
            hash(&["descriptor", "1a86", "55d4", "0443", "", "USB Dual"])
        )
    );
    assert_eq!(fp.portable_name(IdentitySource::PortPath), None);
    assert_eq!(
        fp.port_name("node-c", "3-1.4"),
        format!(
            "usb-1a86-55d4-node-c-3-1-4-{}",
            hash(&["port", "1a86", "55d4", "node-c", "3-1.4"])
        )
    );
    // Without strings there is only the hash.
    let bare = Fingerprint {
        serial: None,
        product: None,
        bcd_device: None,
        ..fp.clone()
    };
    assert_eq!(
        bare.portable_name(IdentitySource::Descriptor).unwrap(),
        format!(
            "usb-1a86-55d4-{}",
            hash(&["descriptor", "1a86", "55d4", "", "", ""])
        )
    );
    assert_eq!(bare.portable_name(IdentitySource::Serial), None);
    // The manufacturer stands in for the product.
    let made = Fingerprint {
        product: None,
        manufacturer: Some("ACME".into()),
        ..fp
    };
    assert!(made
        .portable_name(IdentitySource::Descriptor)
        .unwrap()
        .starts_with("usb-1a86-55d4-acme-"));
}

#[test]
fn slugs_are_readable() {
    assert_eq!(slugify("Hello  World!"), "hello-world");
    assert_eq!(slugify("--a--b--"), "a-b");
    assert_eq!(slugify("\u{e4}"), "");
    assert_eq!(slugify(&"x".repeat(60)), "x".repeat(40));
    assert_eq!(
        slugify(&format!("{}-y", "x".repeat(39))),
        "x".repeat(39),
        "no dash at the end"
    );
    assert_eq!(
        join_name("usb", &list(&["a", "", "b"]), "h"),
        "usb-a-b-h"
    );
    assert_eq!(IdentitySource::SerialDescriptor.name(), "SerialDescriptor");
    assert_eq!(IdentitySource::PortPath.tag(), "port");
}

#[test]
fn of_two_nodes_with_one_name_exactly_one_yields() {
    let d = ch340("3-3", 3);
    let name = assigned(
        &run("node-c", std::slice::from_ref(&d), &Table::new(), &[], &[]),
        &d,
    );
    let sticky = one(InstanceKey::from(&d), name.clone());
    let keeps = |node: &str, other: &str| {
        let known = [known_dev(&d, &name.name, Some(other))];
        assigned(
            &run(node, std::slice::from_ref(&d), &sticky, &known, &[]),
            &d,
        ) == name
    };
    assert!(keeps("node-a", "node-b"));
    assert!(!keeps("node-b", "node-a"));
    assert!(keeps("node-a", "node-a"));
}

#[test]
fn every_device_is_decided_under_a_name_of_its_own() {
    let devices: Vec<UsbDeviceInfo> = (1..6)
        .map(|i| ch340(&format!("3-{i}"), i))
        .chain([dev("1-1", 9, "10c4", "ea60", Some("s1"), None)])
        .collect();
    let decisions = run("node-c", &devices, &Table::new(), &[], &[]);
    assert_eq!(decisions.len(), devices.len());
    let mut names: Vec<String> = devices
        .iter()
        .map(|d| assigned(&decisions, d).name)
        .collect();
    names.sort();
    names.dedup();
    assert_eq!(names.len(), devices.len());
}

#[test]
fn slugs_and_label_values_are_kept() {
    for text in ["a", "hello-world", "a-1-b", ""] {
        assert_eq!(slugify(text), text);
    }
    for text in ["--A__b--", "x y", &"ab-".repeat(30)] {
        let slug = slugify(text);
        assert!(!slug.contains("--"), "{slug}");
        assert_eq!(slugify(&slug), slug);
    }
    for text in ["-a b-", "node_1.x", &"n-".repeat(50)] {
        let value = label_value(text).unwrap();
        assert_eq!(label_value(&value), Some(value));
    }
    // Only the first 63 characters count.
    assert_eq!(label_value(&format!("{}a", "-".repeat(63))), None);
    assert_eq!(
        label_value(&format!("{}a", "-".repeat(62))).as_deref(),
        Some("a")
    );
}

#[test]
fn a_port_name_ends_with_a_hash() {
    let name = Fingerprint::from(&ch340("3-1", 2)).port_name("node-c", "3-1.4");
    let hash = &name[name.len() - 8..];
    assert_eq!(&name[name.len() - 9..name.len() - 8], "-");
    assert!(hash
        .chars()
        .all(|c| c.is_ascii_digit() || ('a'..='f').contains(&c)));
}
