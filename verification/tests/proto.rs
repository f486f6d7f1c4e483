use sha2::Digest;

use atomic_usb::proto::{
    end_line, line_too_long, AuthError, ClaimRef, Hello, LineReader, LineStatus, NonceCache,
    Reply, MAX_CLOCK_SKEW_SECS, MAX_LINE_BYTES, PROTOCOL,
};

fn claim() -> ClaimRef {
    ClaimRef {
        namespace: "default".into(),
        name: "usb-claim".into(),
        uid: "4f0c".into(),
    }
}

#[test]
fn valid_hello_verifies() {
    let hello = Hello::new(
        b"secret",
        "usb-1a86-7523-usb-serial-1234abcd",
        claim(),
        1_000,
    );
    assert_eq!(hello.verify(b"secret", 1_010), Ok(()));
}

#[test]
fn tampering_and_wrong_key_are_rejected() {
    let hello = Hello::new(b"secret", "dev-a", claim(), 1_000);
    assert_eq!(hello.verify(b"other", 1_000), Err(AuthError::Mac));
    let mut tampered = hello.clone();
    tampered.device = "dev-b".into();
    assert_eq!(tampered.verify(b"secret", 1_000), Err(AuthError::Mac));
    let mut tampered = hello.clone();
    tampered.claim.uid = "other".into();
    assert_eq!(tampered.verify(b"secret", 1_000), Err(AuthError::Mac));
    let mut garbage = hello;
    garbage.mac = "zz".into();
    assert_eq!(garbage.verify(b"secret", 1_000), Err(AuthError::Mac));
}

#[test]
fn field_boundaries_are_unambiguous() {
    let a = Hello {
        nonce: "n".into(),
        ..Hello::new(
            b"k",
            "ab",
            ClaimRef {
                namespace: "c".into(),
                name: "".into(),
                uid: "".into(),
            },
            1,
        )
    };
    let b = Hello {
        nonce: "n".into(),
        ..Hello::new(
            b"k",
            "a",
            ClaimRef {
                namespace: "bc".into(),
                name: "".into(),
                uid: "".into(),
            },
            1,
        )
    };
    assert_ne!(a.mac_for(b"k"), b.mac_for(b"k"));
}

#[test]
fn stale_hello_is_rejected() {
    let hello = Hello::new(b"secret", "dev", claim(), 1_000);
    assert_eq!(
        hello.verify(b"secret", 1_000 + MAX_CLOCK_SKEW_SECS + 1),
        Err(AuthError::Expired)
    );
}

#[test]
fn nonce_replay_is_rejected() {
    let mut cache = NonceCache::default();
    assert_eq!(cache.check_and_insert("n1", 100, 100), Ok(()));
    assert_eq!(
        cache.check_and_insert("n1", 100, 101),
        Err(AuthError::Replay)
    );
    // Entries expire with the skew window.
    assert_eq!(
        cache.check_and_insert("n1", 100, 100 + MAX_CLOCK_SKEW_SECS + 1),
        Ok(())
    );
}

/// Reads a line from some bytes and leaves the rest.
fn read_line(data: &mut &[u8]) -> Vec<u8> {
    let mut reader = LineReader::new();
    loop {
        let byte = data[0];
        *data = &data[1..];
        match reader.push(byte) {
            LineStatus::More => {}
            LineStatus::Complete => return reader.line().to_vec(),
            LineStatus::TooLong => panic!("line too long"),
        }
    }
}

#[test]
fn line_reader_does_not_over_read() {
    let mut data: &[u8] = b"{\"ok\":true}\nUSBREDIR-BYTES";
    let line = read_line(&mut data);
    let value: serde_json::Value = serde_json::from_slice(&line).unwrap();
    let reply = Reply {
        ok: value["ok"].as_bool().unwrap(),
        error: value["error"].as_str().map(Into::into),
    };
    assert_eq!(
        reply,
        Reply {
            ok: true,
            error: None
        }
    );
    assert_eq!(data, b"USBREDIR-BYTES");
}

/// HMAC-SHA256 as RFC 2104 defines it, over the hash of the `sha2` crate.
fn hmac_by_hand(key: &[u8], message: &[u8]) -> Vec<u8> {
    let mut block = [0u8; 64];
    block[..key.len()].copy_from_slice(key);
    let inner: Vec<u8> = block.iter().map(|b| b ^ 0x36).collect();
    let outer: Vec<u8> = block.iter().map(|b| b ^ 0x5c).collect();
    let hash = sha2::Sha256::digest([inner.as_slice(), message].concat());
    sha2::Sha256::digest([outer.as_slice(), hash.as_slice()].concat()).to_vec()
}

#[test]
fn the_code_covers_every_field_with_its_length() {
    let hello = Hello::with_nonce(b"secret", "dev", claim(), -7, "abc".into());
    let mut transcript = Vec::new();
    for field in [
        "atomic-usb/1",
        "dev",
        "default",
        "usb-claim",
        "4f0c",
        "-7",
        "abc",
    ] {
        transcript.extend_from_slice(&(field.len() as u64).to_be_bytes());
        transcript.extend_from_slice(field.as_bytes());
    }
    let code = hmac_by_hand(b"secret", &transcript);
    assert_eq!(hello.mac_for(b"secret"), code);
    assert_eq!(hello.mac, hex::encode(&code));
    assert_eq!(hello.protocol, PROTOCOL);
    // Upper case digits are the same code.
    let upper = Hello {
        mac: hello.mac.to_uppercase(),
        ..hello.clone()
    };
    assert_eq!(upper.verify(b"secret", -7), Ok(()));
    let short = Hello {
        mac: hello.mac[..62].to_string(),
        ..hello
    };
    assert_eq!(short.verify(b"secret", -7), Err(AuthError::Mac));
}

#[test]
fn nonces_differ() {
    let a = Hello::new(b"k", "d", claim(), 1);
    let b = Hello::new(b"k", "d", claim(), 1);
    assert_ne!(a.nonce, b.nonce);
    assert_eq!(a.nonce.len(), 32);
}

#[test]
fn the_clock_skew_is_accepted_up_to_the_limit() {
    let hello = Hello::new(b"k", "d", claim(), 1_000);
    assert_eq!(hello.verify(b"k", 1_120), Ok(()));
    assert_eq!(hello.verify(b"k", 880), Ok(()));
    assert_eq!(hello.verify(b"k", 879), Err(AuthError::Expired));
    assert_eq!(hello.verify(b"k", i64::MIN), Err(AuthError::Expired));
    let mut old = hello;
    old.protocol = "atomic-usb/2".into();
    assert_eq!(
        old.verify(b"k", 1_000),
        Err(AuthError::Protocol("atomic-usb/2".into()))
    );
    assert_eq!(
        old.verify(b"k", 1_000).unwrap_err().message(),
        "unsupported protocol \"atomic-usb/2\""
    );
    assert_eq!(AuthError::Mac.message(), "invalid MAC");
    assert_eq!(
        AuthError::Expired.message(),
        "timestamp outside the allowed clock skew"
    );
    assert_eq!(AuthError::Replay.message(), "nonce replayed");
}

#[test]
fn lines_are_limited() {
    let mut reader = LineReader::new();
    for _ in 0..MAX_LINE_BYTES {
        assert_eq!(reader.push(b'x'), LineStatus::More);
    }
    assert_eq!(reader.line().len(), MAX_LINE_BYTES);
    assert_eq!(reader.push(b'x'), LineStatus::TooLong);
    assert_eq!(reader.push(b'\n'), LineStatus::Complete);
    assert_eq!(line_too_long(), "handshake line too long");
    assert_eq!(end_line(b"{}".to_vec()), b"{}\n");
}
