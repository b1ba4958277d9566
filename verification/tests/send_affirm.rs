use herdr::send_affirm::{AppliedSendIds, APPLIED_SEND_ID_CAPACITY};

#[test]
fn a_recorded_id_is_contained_and_an_unknown_one_is_not() {
    let mut ids = AppliedSendIds::default();
    ids.record("a".into());
    assert!(ids.contains("a"));
    assert!(!ids.contains("b"));
}

#[test]
fn re_recording_an_id_does_not_consume_capacity() {
    let mut ids = AppliedSendIds::default();
    for _ in 0..APPLIED_SEND_ID_CAPACITY * 2 {
        ids.record("same".into());
    }
    ids.record("other".into());
    assert!(ids.contains("same"));
    assert!(ids.contains("other"));
}

#[test]
fn the_oldest_id_is_forgotten_past_capacity() {
    let mut ids = AppliedSendIds::default();
    for n in 0..=APPLIED_SEND_ID_CAPACITY {
        ids.record(format!("id-{n}"));
    }
    assert!(!ids.contains("id-0"));
    assert!(ids.contains("id-1"));
    assert!(ids.contains(&format!("id-{APPLIED_SEND_ID_CAPACITY}")));
}
