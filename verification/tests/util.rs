use atomic_usb::util::{
    age_secs, is_conflict, is_not_found, now, rfc3339, KubeError, Timestamp, MAX_SECOND,
    MIN_SECOND,
};

#[test]
fn age() {
    let now_ts = Timestamp::parse("2026-09-16T12:00:30Z").unwrap();
    assert_eq!(age_secs(Some("2026-09-16T12:00:00Z"), now_ts), Some(30));
    assert_eq!(age_secs(Some("garbage"), now_ts), None);
    assert_eq!(age_secs(None, now_ts), None);
    assert!(!rfc3339(now()).contains('.'));
}

#[test]
fn timestamps_are_read_and_written() {
    let t = Timestamp::from_second(1_789_560_000).unwrap();
    assert_eq!(rfc3339(t), "2026-09-16T12:00:00Z");
    assert_eq!(
        Timestamp::parse("2026-09-16T12:00:00Z")
            .unwrap()
            .as_second(),
        1_789_560_000
    );
    // The second has no fraction, an offset is applied.
    assert_eq!(
        Timestamp::parse("2026-09-16T12:00:00.75Z")
            .unwrap()
            .as_second(),
        1_789_560_000
    );
    assert_eq!(
        Timestamp::parse("2026-09-16T14:00:00+02:00")
            .unwrap()
            .as_second(),
        1_789_560_000
    );
    assert!(Timestamp::parse("2026-09-16").is_none());
}

#[test]
fn timestamps_reach_as_far_as_the_calendar() {
    for second in [MIN_SECOND, MAX_SECOND, 0, -1] {
        let t = Timestamp::from_second(second).unwrap();
        let text = rfc3339(t);
        assert_eq!(Timestamp::parse(&text).unwrap().as_second(), second);
        assert!(!text.contains('.'));
        assert_eq!(age_secs(Some(&text), t), Some(0));
        assert!(jiff::Timestamp::from_second(second).is_ok());
    }
    for second in [MIN_SECOND - 1, MAX_SECOND + 1, i64::MIN, i64::MAX] {
        assert!(Timestamp::from_second(second).is_none());
        assert!(jiff::Timestamp::from_second(second).is_err());
    }
    assert_eq!(
        Timestamp::parse(&jiff::Timestamp::MAX.to_string())
            .unwrap()
            .as_second(),
        MAX_SECOND
    );
    assert_eq!(
        Timestamp::parse(&jiff::Timestamp::MIN.to_string())
            .unwrap()
            .as_second(),
        MIN_SECOND
    );
}

#[test]
fn the_clock_agrees_with_that_of_the_system() {
    let before = jiff::Timestamp::now().as_second();
    let t = now().as_second();
    let after = jiff::Timestamp::now().as_second();
    assert!(before - 1 <= t && t <= after + 1);
}

#[test]
fn api_errors_are_told_apart_by_their_code() {
    assert!(is_conflict(&KubeError { code: Some(409) }));
    assert!(!is_conflict(&KubeError { code: Some(404) }));
    assert!(is_not_found(&KubeError { code: Some(404) }));
    assert!(!is_not_found(&KubeError { code: Some(409) }));
    assert!(!is_conflict(&KubeError { code: None }));
    assert!(!is_not_found(&KubeError { code: None }));
}

#[test]
fn the_clock_is_truncated() {
    let second = |nanos: i128| {
        Timestamp::from_nanosecond(nanos).map(|t| {
            let whole = t.truncated();
            assert_eq!(whole.as_nanosecond() % 1_000_000_000, 0);
            whole.as_second()
        })
    };
    assert_eq!(second(0), Some(0));
    assert_eq!(second(1_999_999_999), Some(1));
    assert_eq!(second(2_000_000_000), Some(2));
    assert_eq!(second(-1), Some(-1));
    assert_eq!(second(-1_000_000_000), Some(-1));
    assert_eq!(
        second(jiff::Timestamp::MAX.as_nanosecond()),
        Some(MAX_SECOND)
    );
    assert_eq!(
        second(jiff::Timestamp::MIN.as_nanosecond()),
        Some(MIN_SECOND)
    );
    assert_eq!(second(jiff::Timestamp::MAX.as_nanosecond() + 1), None);
    assert_eq!(second(jiff::Timestamp::MIN.as_nanosecond() - 1), None);
    let before = jiff::Timestamp::now().as_second();
    let read = now().as_second();
    assert!(before <= read && read <= jiff::Timestamp::now().as_second());
}

#[test]
fn fractions_of_a_second_are_kept() {
    let text = "2026-09-16T12:00:00.75Z";
    let t = Timestamp::parse(text).unwrap();
    assert_eq!(t.as_nanosecond(), 1_789_560_000_750_000_000);
    assert_eq!(rfc3339(t), text);
    assert_eq!(rfc3339(t.truncated()), "2026-09-16T12:00:00Z");
    // Ages are in whole seconds.
    let later = Timestamp::parse("2026-09-16T12:00:01.5Z").unwrap();
    assert_eq!(age_secs(Some(text), later), Some(1));
    let before_epoch = Timestamp::from_nanosecond(-1_500_000_000).unwrap();
    assert_eq!(before_epoch.as_second(), -1);
    assert_eq!(rfc3339(before_epoch), "1969-12-31T23:59:58.5Z");
    for nanos in [0, 1, -1, 999_999_999, -377705023200999999999, 253402207200999999999] {
        let t = Timestamp::from_nanosecond(nanos).unwrap();
        let other = jiff::Timestamp::from_nanosecond(nanos).unwrap();
        assert_eq!(rfc3339(t), other.to_string());
        assert_eq!(t.as_second(), other.as_second());
        assert_eq!(Timestamp::parse(&rfc3339(t)), Some(t));
    }
}
