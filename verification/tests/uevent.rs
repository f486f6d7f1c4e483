use atomic_usb::uevent::{parse, WaitEvent, WaitStage, MAX_SETTLE_MILLIS, SETTLE_MILLIS};

#[test]
fn parses_usb_add() {
    let raw = b"add@/devices/pci0000:00/0000:00:10.0/usb3/3-3\0ACTION=add\0DEVPATH=/devices/pci0000:00/0000:00:10.0/usb3/3-3\0SUBSYSTEM=usb\0MAJOR=189\0MINOR=258\0DEVNAME=bus/usb/003/003\0DEVTYPE=usb_device\0PRODUCT=1a86/7523/264\0TYPE=255/0/0\0BUSNUM=003\0DEVNUM=003\0SEQNUM=5123\0";
    let ev = parse(raw).unwrap();
    assert_eq!(ev.action, "add");
    assert_eq!(ev.devpath, "/devices/pci0000:00/0000:00:10.0/usb3/3-3");
    assert_eq!(ev.var("PRODUCT"), Some("1a86/7523/264"));
    assert!(ev.affects_usb_devices());
}

#[test]
fn ignores_interfaces_and_other_subsystems() {
    let iface = parse(
        b"bind@/devices/x/usb3/3-3/3-3:1.0\0ACTION=bind\0SUBSYSTEM=usb\0DEVTYPE=usb_interface\0",
    )
    .unwrap();
    assert!(!iface.affects_usb_devices());
    let tty = parse(b"add@/devices/virtual/tty/ttyUSB0\0ACTION=add\0SUBSYSTEM=tty\0").unwrap();
    assert!(!tty.affects_usb_devices());
}

#[test]
fn rejects_udev_messages() {
    assert!(parse(b"libudev\0\xfe\xed\xca\xfe").is_none());
}

#[test]
fn reads_back_what_the_kernel_wrote() {
    let ev = parse("change@/devices/größe\0A=1\0B=x=y\0A=2\0".as_bytes()).unwrap();
    assert_eq!(ev.action, "change");
    assert_eq!(ev.devpath, "/devices/größe");
    assert_eq!(ev.var("A"), Some("2"));
    assert_eq!(ev.var("B"), Some("x=y"));
    assert_eq!(ev.var("C"), None);
}

#[test]
fn skips_fields_that_are_no_variables() {
    let ev = parse(b"\0\0remove@/x\0\xff=1\0plain\0SUBSYSTEM=usb").unwrap();
    assert_eq!(ev.action, "remove");
    assert_eq!(ev.subsystem(), Some("usb"));
    assert_eq!(ev.var("plain"), None);
    assert!(parse(b"\0\0").is_none());
    assert!(parse(b"\xff@/x\0").is_none());
    assert!(parse(b"libudev\0add@/x\0SUBSYSTEM=usb\0").is_none());
}

#[test]
fn events_are_the_same_whatever_the_order_of_their_variables() {
    let a = parse(b"add@/x\0A=1\0B=2\0").unwrap();
    assert_eq!(a, parse(b"add@/x\0B=2\0A=1\0").unwrap());
    assert_eq!(a, a.clone());
    assert_ne!(a, parse(b"add@/x\0A=1\0").unwrap());
    assert_ne!(a, parse(b"add@/x\0A=1\0B=2\0C=3\0").unwrap());
    assert_ne!(a, parse(b"add@/x\0A=1\0B=3\0").unwrap());
    assert_ne!(a, parse(b"add@/y\0A=1\0B=2\0").unwrap());
    assert_ne!(a, parse(b"remove@/x\0A=1\0B=2\0").unwrap());
}

#[test]
fn a_burst_settles_before_the_rescan() {
    let usb = WaitEvent::Received { affects_usb: true };
    let other = WaitEvent::Received { affects_usb: false };
    assert_eq!(WaitStage::Waiting.after(other, 0), WaitStage::Waiting);
    assert_eq!(WaitStage::Waiting.after(usb, 0), WaitStage::Settling);
    assert_eq!(WaitStage::Waiting.after(WaitEvent::Failed, 0), WaitStage::Settling);
    assert_eq!(WaitStage::Waiting.after(WaitEvent::Silent, 0), WaitStage::Over);
    for event in [usb, other] {
        assert_eq!(WaitStage::Settling.after(event, 1_999), WaitStage::Settling);
        assert_eq!(WaitStage::Settling.after(event, 2_000), WaitStage::Over);
    }
    assert_eq!(WaitStage::Settling.after(WaitEvent::Failed, 0), WaitStage::Over);
    assert_eq!(WaitStage::Settling.after(WaitEvent::Silent, 0), WaitStage::Over);
    assert_eq!((SETTLE_MILLIS, MAX_SETTLE_MILLIS), (500, 2_000));
}
