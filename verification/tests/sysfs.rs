use atomic_usb::sysfs::{clean_attr, scan, SysfsEntry};

struct FakeDevice<'a> {
    port_path: &'a str,
    bus: u32,
    dev: u32,
    vendor: &'a str,
    product_id: &'a str,
    serial: Option<&'a str>,
    class: &'a str,
    interfaces: &'a [&'a str],
}

fn entry(name: &str, attrs: &[(&str, &str)]) -> SysfsEntry {
    SysfsEntry {
        name: name.into(),
        attrs: attrs
            .iter()
            .map(|(k, v)| (k.to_string(), v.as_bytes().to_vec()))
            .collect(),
    }
}

fn add_device(root: &mut Vec<SysfsEntry>, d: &FakeDevice) {
    let (bus, dev) = (format!("{}\n", d.bus), format!("{}\n", d.dev));
    let (vendor, product) = (format!("{}\n", d.vendor), format!("{}\n", d.product_id));
    let class = format!("{}\n", d.class);
    let mut device = entry(
        d.port_path,
        &[
            ("busnum", bus.as_str()),
            ("devnum", dev.as_str()),
            ("idVendor", vendor.as_str()),
            ("idProduct", product.as_str()),
            ("bDeviceClass", class.as_str()),
            ("speed", "12\n"),
            ("bcdDevice", "0264\n"),
        ],
    );
    if let Some(serial) = d.serial {
        device
            .attrs
            .push(("serial".into(), format!("{serial}\n").into_bytes()));
    }
    root.push(device);
    for (i, class) in d.interfaces.iter().enumerate() {
        let class = format!("{class}\n");
        root.push(entry(
            &format!("{}:1.{i}", d.port_path),
            &[("bInterfaceClass", class.as_str())],
        ));
    }
}

#[test]
fn scans_devices() {
    let mut root = vec![entry("usb3", &[])];
    add_device(
        &mut root,
        &FakeDevice {
            port_path: "3-1",
            bus: 3,
            dev: 2,
            vendor: "05e3",
            product_id: "0610",
            serial: None,
            class: "09",
            interfaces: &["09"],
        },
    );
    add_device(
        &mut root,
        &FakeDevice {
            port_path: "3-3",
            bus: 3,
            dev: 3,
            vendor: "1a86",
            product_id: "7523",
            serial: None,
            class: "ff",
            interfaces: &["ff"],
        },
    );
    add_device(
        &mut root,
        &FakeDevice {
            port_path: "3-4",
            bus: 3,
            dev: 4,
            vendor: "abcd",
            product_id: "1234",
            serial: Some("SN0001234"),
            class: "00",
            interfaces: &["03"],
        },
    );

    let devices = scan(&root);
    assert_eq!(devices.len(), 3);
    let hub = &devices[0];
    assert!(hub.is_hub());
    let ch340 = &devices[1];
    assert_eq!(ch340.port_path, "3-3");
    assert_eq!(ch340.bus_dev(), "3-3");
    assert_eq!(ch340.vendor_id, "1a86");
    assert_eq!(ch340.serial, None);
    assert_eq!(ch340.interface_classes, vec![0xff]);
    assert_eq!(ch340.bcd_device.as_deref(), Some("0264"));
    let hid = &devices[2];
    assert_eq!(hid.serial.as_deref(), Some("SN0001234"));
    assert_eq!(hid.bus_dev(), "3-4");
    assert_eq!(hid.interface_classes, vec![0x03]);
}

#[test]
fn skips_half_enumerated_devices() {
    let root = vec![entry("1-2", &[("busnum", "1\n")])];
    assert!(scan(&root).is_empty());
}

#[test]
fn blank_serial_is_none() {
    let mut root = Vec::new();
    add_device(
        &mut root,
        &FakeDevice {
            port_path: "1-1",
            bus: 1,
            dev: 5,
            vendor: "10c4",
            product_id: "ea60",
            serial: Some("  "),
            class: "00",
            interfaces: &[],
        },
    );
    assert_eq!(scan(&root)[0].serial, None);
}

fn simple<'a>(port_path: &'a str, interfaces: &'static [&'static str]) -> FakeDevice<'a> {
    FakeDevice {
        port_path,
        bus: 1,
        dev: 5,
        vendor: "10c4",
        product_id: "ea60",
        serial: Some("x"),
        class: "00",
        interfaces,
    }
}

#[test]
fn devices_are_listed_by_name_whatever_the_order_of_the_directory() {
    let mut root = Vec::new();
    for port in ["3-4", "1-1.2", "3-10", "1-1"] {
        add_device(&mut root, &simple(port, &[]));
    }
    let ports: Vec<String> = scan(&root).into_iter().map(|d| d.port_path).collect();
    assert_eq!(ports, vec!["1-1", "1-1.2", "3-10", "3-4"]);
}

#[test]
fn interfaces_belong_to_the_device_named_before_the_colon() {
    let mut root = Vec::new();
    add_device(&mut root, &simple("1-1", &["03", "zz", "0a"]));
    add_device(&mut root, &simple("1-1.4", &["ff"]));
    let devices = scan(&root);
    assert_eq!(devices[0].interface_classes, vec![0x03, 0x0a]);
    assert_eq!(devices[1].interface_classes, vec![0xff]);
}

#[test]
fn ids_are_normalized_and_bad_numbers_skip_the_device() {
    let mut root = Vec::new();
    add_device(
        &mut root,
        &FakeDevice {
            vendor: "10C4",
            product_id: "60",
            ..simple("1-1", &[])
        },
    );
    assert_eq!(scan(&root)[0].vendor_id, "10c4");
    assert_eq!(scan(&root)[0].product_id, "0060");

    for (attr, bad) in [
        ("busnum", "x\n"),
        ("devnum", "4294967296\n"),
        ("idVendor", "12345\n"),
        ("bDeviceClass", "1ff\n"),
        ("bDeviceClass", ""),
    ] {
        let mut root = Vec::new();
        add_device(&mut root, &simple("1-1", &[]));
        for a in root[0].attrs.iter_mut() {
            if a.0 == attr {
                a.1 = bad.as_bytes().to_vec();
            }
        }
        assert!(scan(&root).is_empty(), "{attr} {bad:?}");
    }
}

#[test]
fn bytes_that_are_no_text_are_replaced() {
    let mut root = Vec::new();
    add_device(&mut root, &simple("1-1", &[]));
    root[0]
        .attrs
        .push(("manufacturer".into(), b"Caf\xe9 \n\0".to_vec()));
    assert_eq!(
        scan(&root)[0].manufacturer.as_deref(),
        Some("Caf\u{fffd}")
    );
}

#[test]
fn attributes_are_trimmed() {
    assert_eq!(clean_attr(" a b \n\0\n").as_deref(), Some("a b"));
    assert_eq!(clean_attr("\n"), None);
    assert_eq!(clean_attr("a\0").as_deref(), Some("a"));
    // A zero byte that is not at the end stays.
    assert_eq!(clean_attr("a\0 \n").as_deref(), Some("a\0"));
}
