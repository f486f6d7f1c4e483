use atomic_usb::crd::{
    DeviceSelector, ExporterEndpoint, UsbDevice, UsbDeviceSpec, UsbDeviceStatus,
};

fn device(
    name: &str,
    vid: &str,
    pid: &str,
    serial: Option<&str>,
    node: &str,
    port: &str,
) -> UsbDevice {
    let mut d = UsbDevice::new(
        name,
        UsbDeviceSpec {
            vendor_id: vid.into(),
            product_id: pid.into(),
            serial: serial.map(Into::into),
            product: Some("USB Serial".into()),
            ..Default::default()
        },
    );
    d.status = Some(UsbDeviceStatus {
        node: Some(node.into()),
        port_path: Some(port.into()),
        ..Default::default()
    });
    d
}

#[test]
fn selector_matching() {
    let d = device(
        "usb-1a86-7523-usb-serial-abcd",
        "1a86",
        "7523",
        None,
        "node-c",
        "3-3",
    );
    let sel = |f: fn(&mut DeviceSelector)| {
        let mut s = DeviceSelector::default();
        f(&mut s);
        s
    };
    assert!(sel(|s| s.vendor_id = Some("1A86".into())).matches(&d));
    assert!(sel(|s| s.vendor_id = Some("0x1a86".into())).matches(&d));
    assert!(sel(|s| {
        s.vendor_id = Some("1a86".into());
        s.product_id = Some("7523".into());
        s.node = Some("node-c".into())
    })
    .matches(&d));
    assert!(!sel(|s| s.node = Some("node-b".into())).matches(&d));
    assert!(!sel(|s| s.serial = Some("x".into())).matches(&d));
    assert!(sel(|s| s.product = Some("USB Serial".into())).matches(&d));
    assert!(sel(|s| s.device_name = Some("usb-1a86-7523-usb-serial-abcd".into())).matches(&d));
}

#[test]
fn selector_validation() {
    assert!(DeviceSelector::default().validate().is_err());
    assert!(DeviceSelector {
        vendor_id: Some("zz".into()),
        ..Default::default()
    }
    .validate()
    .is_err());
    assert!(DeviceSelector {
        vendor_id: Some("1a86".into()),
        ..Default::default()
    }
    .validate()
    .is_ok());
}

#[test]
fn ipv6_exporter_address() {
    let e = ExporterEndpoint {
        address: "fd00::1".into(),
        port: 7575,
        pod: "p".into(),
    };
    assert_eq!(e.socket_addr(), "[fd00::1]:7575");
}
