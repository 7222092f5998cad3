use oinio_memorial_bridge::{BridgeError, OinioMemorialBridge, MEMORIAL_MESSAGE, TOTAL_SUPPLY};

const ADMIN: &str = "GBZXN7PIRZGNMHGA7MUUUF4GWPY5AYPV6LY4UV2GL6VJGIQRXFDNMADI";
const OTHER_ADMIN: &str = "GDQP2KPQGKIHYJGXNUIYOMHARUARCA7DJT5FO2FFOOKY3B2WSQHG4W37";

#[test]
fn test_initialize() {
    let mut bridge = OinioMemorialBridge::new();
    let admin = String::from(ADMIN);

    assert_eq!(bridge.initialize(&admin, true), Ok(()));

    assert_eq!(bridge.get_supply(), 1_000_000_000u64);
    assert_eq!(
        bridge.get_message(),
        String::from("OINIO: For the Beloved Keepers of the Northern Gateway. Not in vain.")
    );
}

#[test]
fn test_anchor_letter() {
    let mut bridge = OinioMemorialBridge::new();
    let admin = String::from(ADMIN);

    assert_eq!(bridge.initialize(&admin, true), Ok(()));

    let letter_url = String::from("https://facebook.com/letter");
    bridge.anchor_letter(letter_url.clone());

    assert_eq!(bridge.get_letter(), Some(letter_url));
}

#[test]
fn fresh_storage_is_not_initialized() {
    let bridge = OinioMemorialBridge::new();
    assert!(!bridge.is_initialized());
    assert_eq!(bridge.get_letter(), None);
    assert_eq!(bridge.get_admin_supply(&String::from(ADMIN)), None);
}

#[test]
fn anchoring_alone_does_not_initialize() {
    let mut bridge = OinioMemorialBridge::new();
    bridge.anchor_letter(String::from("https://example.org/a"));
    assert!(!bridge.is_initialized());
}

#[test]
fn initialize_writes_constants_and_admin_record() {
    let mut bridge = OinioMemorialBridge::new();
    let admin = String::from(ADMIN);
    assert_eq!(bridge.initialize(&admin, true), Ok(()));
    assert!(bridge.is_initialized());
    assert_eq!(bridge.get_supply(), TOTAL_SUPPLY);
    assert_eq!(bridge.get_message(), String::from(MEMORIAL_MESSAGE));
    assert_eq!(bridge.get_admin_supply(&admin), Some(1_000_000_000u64));
    assert_eq!(bridge.get_admin_supply(&String::from(OTHER_ADMIN)), None);
}

#[test]
fn letter_absent_after_initialize_alone() {
    let mut bridge = OinioMemorialBridge::new();
    assert_eq!(bridge.initialize(&String::from(ADMIN), true), Ok(()));
    assert_eq!(bridge.get_letter(), None);
}

#[test]
fn last_anchored_letter_wins() {
    let mut bridge = OinioMemorialBridge::new();
    bridge.anchor_letter(String::from("https://example.org/first"));
    assert_eq!(bridge.get_letter(), Some(String::from("https://example.org/first")));
    bridge.anchor_letter(String::from("https://example.org/second"));
    assert_eq!(bridge.initialize(&String::from(ADMIN), true), Ok(()));
    bridge.anchor_letter(String::from("not a url at all"));
    assert_eq!(bridge.get_letter(), Some(String::from("not a url at all")));
}

#[test]
fn empty_letter_is_kept_as_given() {
    let mut bridge = OinioMemorialBridge::new();
    bridge.anchor_letter(String::new());
    assert_eq!(bridge.get_letter(), Some(String::new()));
}

#[test]
fn unauthorized_initialize_changes_nothing() {
    let mut bridge = OinioMemorialBridge::new();
    let admin = String::from(ADMIN);
    assert_eq!(bridge.initialize(&admin, false), Err(BridgeError::Unauthorized));
    assert!(!bridge.is_initialized());
    assert_eq!(bridge.get_admin_supply(&admin), None);
    assert_eq!(bridge.get_letter(), None);
}

#[test]
fn unauthorized_initialize_after_setup_changes_nothing() {
    let mut bridge = OinioMemorialBridge::new();
    let admin = String::from(ADMIN);
    let other = String::from(OTHER_ADMIN);
    assert_eq!(bridge.initialize(&admin, true), Ok(()));
    bridge.anchor_letter(String::from("https://example.org/kept"));
    assert_eq!(bridge.initialize(&other, false), Err(BridgeError::Unauthorized));
    assert_eq!(bridge.get_admin_supply(&other), None);
    assert_eq!(bridge.get_admin_supply(&admin), Some(TOTAL_SUPPLY));
    assert_eq!(bridge.get_letter(), Some(String::from("https://example.org/kept")));
}

#[test]
fn reinitialize_with_another_admin_overwrites() {
    let mut bridge = OinioMemorialBridge::new();
    let first = String::from(ADMIN);
    let second = String::from(OTHER_ADMIN);
    assert_eq!(bridge.initialize(&first, true), Ok(()));
    bridge.anchor_letter(String::from("https://example.org/letter"));
    assert_eq!(bridge.initialize(&second, true), Ok(()));
    assert_eq!(bridge.get_supply(), 1_000_000_000u64);
    assert_eq!(bridge.get_message(), String::from(MEMORIAL_MESSAGE));
    assert_eq!(bridge.get_admin_supply(&first), Some(1_000_000_000u64));
    assert_eq!(bridge.get_admin_supply(&second), Some(1_000_000_000u64));
    assert_eq!(bridge.get_letter(), Some(String::from("https://example.org/letter")));
}

#[test]
fn reinitialize_with_same_admin_keeps_one_record() {
    let mut bridge = OinioMemorialBridge::new();
    let admin = String::from(ADMIN);
    assert_eq!(bridge.initialize(&admin, true), Ok(()));
    assert_eq!(bridge.initialize(&admin, true), Ok(()));
    assert_eq!(bridge.get_admin_supply(&admin), Some(TOTAL_SUPPLY));
    assert_eq!(bridge.get_supply(), TOTAL_SUPPLY);
}
