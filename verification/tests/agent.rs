use atomic_usb::agent::DevicePattern;
use atomic_usb::sysfs::UsbDeviceInfo;

fn info(vid: &str, pid: &str) -> UsbDeviceInfo {
    UsbDeviceInfo {
        port_path: "1-1".into(),
        bus_num: 1,
        dev_num: 2,
        vendor_id: vid.into(),
        product_id: pid.into(),
        serial: None,
        manufacturer: None,
        product: None,
        bcd_device: None,
        device_class: 0,
        interface_classes: vec![],
        speed: None,
    }
}

#[test]
fn device_patterns() {
    let p: DevicePattern = "abcd:*".parse().unwrap();
    assert!(p.matches(&info("abcd", "0601")));
    assert!(!p.matches(&info("1a86", "7523")));
    let p: DevicePattern = "*:7523".parse().unwrap();
    assert!(p.matches(&info("1a86", "7523")));
    let p: DevicePattern = "1234:5678".parse().unwrap();
    assert!(p.matches(&info("1234", "5678")));
    assert!("1234".parse::<DevicePattern>().is_err());
    assert!("xx:5678".parse::<DevicePattern>().is_err());
}
