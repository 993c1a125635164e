use aerodl::clock::{now, timestamp};

#[test]
fn timestamps() {
    assert_eq!(timestamp(None), 0);
    assert_eq!(timestamp(Some(1_700_000_000)), 1_700_000_000);
    assert!(now() > 1_600_000_000);
}
