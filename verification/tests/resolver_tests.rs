use git_cred::caches::{PinStore, SavedKeyStore};
use git_cred::directory::{get_key, DirElem, DirRecord, Directory, Listing};
use git_cred::errors::StoreError;
use git_cred::keyring::{KeyEntry, Keyring};
use git_cred::resolver::{resolve_name, set_key};

fn b(s: &str) -> Vec<u8> {
    s.as_bytes().to_vec()
}

fn key(long_id: &str, uids: &[&str], secret: bool) -> KeyEntry {
    KeyEntry { long_id: b(long_id), uids: uids.iter().map(|u| b(u)).collect(), secret }
}

fn listing_for(user: &str, records: Vec<DirElem<KeyEntry>>) -> Directory {
    Directory { listings: vec![Listing { user: b(user), elems: records }] }
}

#[test]
fn resolve_via_keyring_writes_pin() {
    let mut pins = PinStore::new();
    let mut kr = Keyring { entries: vec![key("AAAA1111", &["alice@example.com"], true)] };
    let saved = SavedKeyStore::new();
    let id = resolve_name(&mut pins, &mut kr, &saved, None, &b("alice@example.com")).unwrap();
    assert_eq!(id, b("AAAA1111"));
    assert_eq!(pins.lookup(&b("alice@example.com")), Some(b("AAAA1111")));
}

#[test]
fn resolve_idempotent_with_attested_pin() {
    let mut pins = PinStore::new();
    pins.write(&b("alice"), &b("AAAA1111"));
    let mut kr = Keyring { entries: vec![key("AAAA1111", &["alice"], false)] };
    let saved = SavedKeyStore::new();
    let before_pins = pins.pins.len();
    let before_keys = kr.entries.len();
    let id1 = resolve_name(&mut pins, &mut kr, &saved, None, &b("alice")).unwrap();
    let id2 = resolve_name(&mut pins, &mut kr, &saved, None, &b("alice")).unwrap();
    assert_eq!(id1, b("AAAA1111"));
    assert_eq!(id2, b("AAAA1111"));
    // No side effects: no pin rewritten, no key imported.
    assert_eq!(pins.pins.len(), before_pins);
    assert_eq!(pins.lookup(&b("alice")), Some(b("AAAA1111")));
    assert_eq!(kr.entries.len(), before_keys);
}

#[test]
fn resolve_reattests_uid_and_rewrites_pin() {
    // The pin names a key the keyring no longer holds, but the keyring
    // attests the identity itself: the pin is rewritten to the new id.
    let mut pins = PinStore::new();
    pins.write(&b("alice"), &b("OLDKEY00"));
    let mut kr = Keyring { entries: vec![key("NEWKEY99", &["alice"], false)] };
    let saved = SavedKeyStore::new();
    let id = resolve_name(&mut pins, &mut kr, &saved, None, &b("alice")).unwrap();
    assert_eq!(id, b("NEWKEY99"));
    assert_eq!(pins.lookup(&b("alice")), Some(b("NEWKEY99")));
}

#[test]
fn resolve_uses_saved_key_and_keeps_pin() {
    let mut pins = PinStore::new();
    pins.write(&b("alice"), &b("AAAA1111"));
    let mut kr = Keyring::new();
    let mut saved = SavedKeyStore::new();
    saved.save(&b("AAAA1111"), key("AAAA1111", &["alice"], false));
    let id = resolve_name(&mut pins, &mut kr, &saved, None, &b("alice")).unwrap();
    assert_eq!(id, b("AAAA1111"));
    // The saved key was imported into the keyring.
    assert_eq!(kr.entries.len(), 1);
    assert_eq!(kr.entries[0].long_id, b("AAAA1111"));
    assert_eq!(pins.lookup(&b("alice")), Some(b("AAAA1111")));
}

#[test]
fn resolve_without_pin_needs_lookup() {
    let mut pins = PinStore::new();
    let mut kr = Keyring::new();
    let saved = SavedKeyStore::new();
    let r = resolve_name(&mut pins, &mut kr, &saved, None, &b("carol"));
    match r {
        Err(StoreError::NeedsLookup { user, suffix }) => {
            assert_eq!(user, b("carol"));
            assert!(suffix.is_none());
        },
        other => panic!("expected NeedsLookup, got {:?}", discriminant_name(&other)),
    }
}

#[test]
fn resolve_with_pin_needs_lookup_with_suffix() {
    let mut pins = PinStore::new();
    pins.write(&b("carol"), &b("CCCC3333"));
    let mut kr = Keyring::new();
    let saved = SavedKeyStore::new();
    let r = resolve_name(&mut pins, &mut kr, &saved, None, &b("carol"));
    match r {
        Err(StoreError::NeedsLookup { user, suffix }) => {
            assert_eq!(user, b("carol"));
            assert_eq!(suffix, Some(b("CCCC3333")));
        },
        other => panic!("expected NeedsLookup, got {:?}", discriminant_name(&other)),
    }
}

#[test]
fn resolve_from_directory_imports_and_pins() {
    // No pin, no local key, but a matching external-directory record:
    // the key is imported, a pin is written, and the new id returned.
    let mut pins = PinStore::new();
    let mut kr = Keyring::new();
    let saved = SavedKeyStore::new();
    let dir = listing_for(
        "carol",
        vec![DirElem::Record(DirRecord {
            key_id: Some(b("CAFE1234")),
            raw_key: Some(key("LONGCAFE1234", &["carol"], false)),
        })],
    );
    let id = resolve_name(&mut pins, &mut kr, &saved, Some(&dir), &b("carol")).unwrap();
    assert_eq!(id, b("LONGCAFE1234"));
    assert_eq!(kr.entries.len(), 1);
    assert_eq!(pins.lookup(&b("carol")), Some(b("LONGCAFE1234")));
}

#[test]
fn resolve_pin_disambiguation_does_not_correct_pin() {
    // A pin exists but nothing local matches; the directory is queried
    // with the pin as suffix, and the freshly imported id is returned
    // while the pin itself stays as it was.
    let mut pins = PinStore::new();
    pins.write(&b("dave"), &b("LONGDEAD7777"));
    let mut kr = Keyring::new();
    let saved = SavedKeyStore::new();
    let dir = listing_for(
        "dave",
        vec![DirElem::Record(DirRecord {
            key_id: Some(b("DEAD7777")),
            raw_key: Some(key("REIMPORTED00", &["dave"], false)),
        })],
    );
    let id = resolve_name(&mut pins, &mut kr, &saved, Some(&dir), &b("dave")).unwrap();
    assert_eq!(id, b("REIMPORTED00"));
    assert_eq!(pins.lookup(&b("dave")), Some(b("LONGDEAD7777")));
}

#[test]
fn resolve_unknown_when_directory_empty() {
    let mut pins = PinStore::new();
    let mut kr = Keyring::new();
    let saved = SavedKeyStore::new();
    let dir = Directory { listings: Vec::new() };
    let r = resolve_name(&mut pins, &mut kr, &saved, Some(&dir), &b("nobody"));
    match r {
        Err(StoreError::UnknownKey { user }) => assert_eq!(user, b("nobody")),
        other => panic!("expected UnknownKey, got {:?}", discriminant_name(&other)),
    }
}

#[test]
fn register_key_then_resolve_returns_registered_id() {
    // A pin for bob already exists and the keyring attests it; registering
    // different key material overrides the pin all the same.
    let mut pins = PinStore::new();
    pins.write(&b("bob"), &b("OLDBOB00"));
    let mut kr = Keyring { entries: vec![key("OLDBOB00", &["bob"], false)] };
    let mut saved = SavedKeyStore::new();
    set_key(&mut pins, &mut kr, &mut saved, &b("bob"), key("FRESHBOB", &["bob"], false));
    assert_eq!(pins.lookup(&b("bob")), Some(b("FRESHBOB")));
    let id = resolve_name(&mut pins, &mut kr, &saved, None, &b("bob")).unwrap();
    assert_eq!(id, b("FRESHBOB"));
    // The registered material is in the saved-key cache under its id.
    assert!(saved.lookup(&b("FRESHBOB")).is_some());
}

#[test]
fn get_key_without_suffix_takes_first_usable() {
    let elems: Vec<DirElem<Vec<u8>>> = vec![
        DirElem::Record(DirRecord { key_id: Some(b("A1")), raw_key: None }),
        DirElem::Record(DirRecord { key_id: Some(b("B2")), raw_key: Some(b("keyB")) }),
        DirElem::Record(DirRecord { key_id: Some(b("C3")), raw_key: Some(b("keyC")) }),
    ];
    assert_eq!(get_key(&elems, None), Some(1));
}

#[test]
fn get_key_with_suffix_matches_key_id() {
    let pin = b("0123456789ABCDEF");
    let elems: Vec<DirElem<Vec<u8>>> = vec![
        DirElem::Record(DirRecord { key_id: Some(b("FFFF")), raw_key: Some(b("wrong")) }),
        DirElem::Record(DirRecord { key_id: Some(b("89ABCDEF")), raw_key: Some(b("right")) }),
    ];
    assert_eq!(get_key(&elems, Some(&pin)), Some(1));
    assert_eq!(get_key::<Vec<u8>>(&Vec::new(), Some(&pin)), None);
}

#[test]
fn get_key_aborts_on_malformed_element() {
    let elems: Vec<DirElem<Vec<u8>>> = vec![
        DirElem::NotObject,
        DirElem::Record(DirRecord { key_id: Some(b("B2")), raw_key: Some(b("keyB")) }),
    ];
    assert_eq!(get_key(&elems, None), None);
}

fn discriminant_name(r: &Result<Vec<u8>, StoreError>) -> &'static str {
    match r {
        Ok(_) => "Ok",
        Err(StoreError::MissingRootPolicy) => "MissingRootPolicy",
        Err(StoreError::NeedsLookup { .. }) => "NeedsLookup",
        Err(StoreError::UnknownKey { .. }) => "UnknownKey",
        Err(StoreError::MissingPath) => "MissingPath",
        Err(StoreError::DecryptionFailed) => "DecryptionFailed",
        Err(StoreError::EncryptionFailed) => "EncryptionFailed",
    }
}
