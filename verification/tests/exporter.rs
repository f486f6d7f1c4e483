use atomic_usb::agent::discovery::LocalDevice;
use atomic_usb::agent::exporter::{
    accept_reply, check_hello, check_lease, decide_handshake, decide_start, reject_reply,
    turn_refusal, usbredirect_args, HandshakeEvent, HandshakeStep, Sessions, StartEvent,
    StartStep, Tail,
};
use atomic_usb::crd::{Attachment, UsbDevice, UsbDeviceSpec, UsbDeviceStatus};
use atomic_usb::identity::IdentitySource;
use atomic_usb::proto::{ClaimRef, Hello, NonceCache, Reply};
use atomic_usb::sysfs::UsbDeviceInfo;
use atomic_usb::table::Table;

fn claim() -> ClaimRef {
    ClaimRef {
        namespace: "default".into(),
        name: "c".into(),
        uid: "u".into(),
    }
}

fn info(dev_num: u32) -> UsbDeviceInfo {
    UsbDeviceInfo {
        port_path: "3-3".into(),
        bus_num: 3,
        dev_num,
        vendor_id: "1a86".into(),
        product_id: "7523".into(),
        serial: None,
        manufacturer: None,
        product: None,
        bcd_device: None,
        device_class: 0,
        interface_classes: vec![],
        speed: None,
    }
}

fn plugged_in(dev_num: u32) -> LocalDevice {
    LocalDevice {
        info: info(dev_num),
        source: IdentitySource::Descriptor,
    }
}

fn leased(namespace: &str, claim: &str, uid: &str) -> UsbDevice {
    let mut d = UsbDevice::new("d", UsbDeviceSpec::default());
    d.status = Some(UsbDeviceStatus {
        attached_to: Some(Attachment {
            namespace: namespace.into(),
            claim: claim.into(),
            claim_uid: uid.into(),
            vm_name: "v".into(),
            since: "s".into(),
        }),
        ..Default::default()
    });
    d
}

#[test]
fn requests_are_checked_in_order() {
    let mut nonces = NonceCache::default();
    let hello = Hello::new(b"secret", "d", claim(), 1_000);
    let check = |hello: &Hello, nonces: &mut NonceCache, psk: &[u8], now: i64, plugged: bool| {
        let mut local = Table::new();
        local.insert("e".to_string(), plugged_in(4));
        if plugged {
            local.insert("d".to_string(), plugged_in(3));
        }
        check_hello(hello, psk, nonces, now, &local, "node-c").map(|device| device.info.clone())
    };
    assert_eq!(
        check(&hello, &mut nonces, b"other", 1_000, true).unwrap_err(),
        "authentication failed: invalid MAC"
    );
    assert_eq!(
        check(&hello, &mut nonces, b"secret", 1_121, true).unwrap_err(),
        "authentication failed: timestamp outside the allowed clock skew"
    );
    // A request that was refused so far has not used up its nonce.
    assert_eq!(
        check(&hello, &mut nonces, b"secret", 1_120, false).unwrap_err(),
        "device d is not plugged into node node-c"
    );
    assert_eq!(
        check(&hello, &mut nonces, b"secret", 1_120, true).unwrap_err(),
        "nonce replayed"
    );
    let next = Hello::new(b"secret", "d", claim(), 1_000);
    assert_eq!(
        check(&next, &mut nonces, b"secret", 1_000, true),
        Ok(info(3)),
        "the device with the name asked for"
    );
    let mut old = next.clone();
    old.protocol = "atomic-usb/0\"".into();
    assert_eq!(
        check(&old, &mut nonces, b"secret", 1_000, true).unwrap_err(),
        "authentication failed: unsupported protocol \"atomic-usb/0\\\"\""
    );
}

#[test]
fn only_the_lease_holder_is_served() {
    let hello = Hello::new(b"secret", "d", claim(), 1_000);
    assert_eq!(
        check_lease(&hello, Some(&leased("default", "c", "u"))),
        Ok(())
    );
    assert_eq!(
        check_lease(&hello, None).unwrap_err(),
        "UsbDevice d does not exist"
    );
    assert_eq!(
        check_lease(&hello, Some(&UsbDevice::new("d", UsbDeviceSpec::default()))).unwrap_err(),
        "device is not leased to any claim"
    );
    for (namespace, name, uid) in [
        ("default", "c", "u2"),
        ("other", "c", "u"),
        ("default", "c2", "u"),
    ] {
        assert_eq!(
            check_lease(&hello, Some(&leased(namespace, name, uid))).unwrap_err(),
            format!("device is leased to claim {namespace}/{name}")
        );
    }
}

#[test]
fn a_new_session_replaces_the_old_one() {
    let mut sessions = Sessions::new();
    let (first, previous) = sessions.begin("d", "default/a", &info(3));
    assert_eq!(first, 1);
    assert!(previous.is_none());
    let (second, previous) = sessions.begin("d", "default/b", &info(3));
    assert_eq!(second, 2);
    let previous = previous.unwrap();
    assert_eq!((previous.id, previous.claim.as_str()), (1, "default/a"));
    assert_eq!(previous.bus_dev, "3-3");

    // The end of the replaced session leaves its successor alone.
    sessions.end("d", first);
    assert!(sessions.is_over("d", None));
    assert!(!sessions.is_over("d", Some(&info(3))));
    assert!(
        sessions.is_over("d", Some(&info(4))),
        "the device was enumerated again"
    );
    sessions.end("d", second);
    assert!(!sessions.is_over("d", None));
    assert!(sessions.begin("d", "default/c", &info(4)).1.is_none());
    assert!(sessions.begin("e", "default/c", &info(4)).1.is_none());
}

#[test]
fn answers_carry_the_reason() {
    assert_eq!(
        accept_reply(),
        Reply {
            ok: true,
            error: None
        }
    );
    assert_eq!(
        reject_reply("busy"),
        Reply {
            ok: false,
            error: Some("busy".into())
        }
    );
}

#[test]
fn the_tail_keeps_five_lines() {
    let mut tail = Tail::new();
    assert_eq!(tail.text(), "no output");
    for i in 0..5 {
        tail.push(format!("line {i}"));
    }
    assert_eq!(tail.text(), "line 0 | line 1 | line 2 | line 3 | line 4");
    tail.push("line 5".into());
    assert_eq!(tail.text(), "line 1 | line 2 | line 3 | line 4 | line 5");
}

#[test]
fn connections_without_a_request_are_closed_or_refused() {
    assert_eq!(
        decide_handshake(HandshakeEvent::Received),
        HandshakeStep::Authorize
    );
    assert_eq!(
        decide_handshake(HandshakeEvent::Closed),
        HandshakeStep::Close
    );
    assert_eq!(
        decide_handshake(HandshakeEvent::Bad("x".into())),
        HandshakeStep::Reject("bad handshake: x".into())
    );
    assert_eq!(
        decide_handshake(HandshakeEvent::TimedOut),
        HandshakeStep::Reject("handshake timeout".into())
    );
    assert_eq!(turn_refusal(true, false), None);
    assert_eq!(
        turn_refusal(true, true).as_deref(),
        Some("session superseded")
    );
    assert_eq!(
        turn_refusal(false, true).as_deref(),
        Some("previous session did not stop in time")
    );
}

#[test]
fn usbredirect_is_started_for_the_device() {
    assert_eq!(
        usbredirect_args(&info(7), "127.0.0.1:5"),
        vec!["--device", "3-7", "--to", "127.0.0.1:5"]
    );
    let mut tail = Tail::new();
    assert_eq!(
        decide_start(StartEvent::Connected, &tail),
        StartStep::Accept
    );
    let reject = |event: StartEvent, tail: &Tail| match decide_start(event, tail) {
        StartStep::Reject { reason, stop } => (reason, stop),
        StartStep::Accept => panic!("accepted"),
    };
    assert_eq!(
        reject(
            StartEvent::Failed {
                program: "usbredirect".into(),
                error: "not found".into()
            },
            &tail
        ),
        ("cannot start usbredirect: not found".to_string(), false)
    );
    tail.push("no device".into());
    assert_eq!(
        reject(
            StartEvent::Exited {
                status: "exit status: 1".into()
            },
            &tail
        ),
        (
            "usbredirect exited (exit status: 1): no device".to_string(),
            false
        )
    );
    assert_eq!(
        reject(StartEvent::TimedOut, &tail),
        (
            "usbredirect did not open the device in time".to_string(),
            true
        )
    );
    assert_eq!(
        reject(StartEvent::Cancelled, &tail),
        ("session cancelled".to_string(), true)
    );
}
