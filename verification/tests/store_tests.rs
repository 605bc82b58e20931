use git_cred::errors::StoreError;
use git_cred::keyring::{parse_import_diagnostic, Cipher, KeyEntry, Keyring};
use git_cred::policy::{DirTree, FileEntry, SubDir};
use git_cred::store::Store;

fn b(s: &str) -> Vec<u8> {
    s.as_bytes().to_vec()
}

fn path(parts: &[&str]) -> Vec<Vec<u8>> {
    parts.iter().map(|p| b(p)).collect()
}

fn key(long_id: &str, uids: &[&str], secret: bool) -> KeyEntry {
    KeyEntry { long_id: b(long_id), uids: uids.iter().map(|u| b(u)).collect(), secret }
}

#[test]
fn encrypt_resolves_pins_and_round_trips() {
    // Root policy names alice; the keyring attests her with key K and
    // holds the secret key: encrypting writes the pin and the ciphertext,
    // and decrypting recovers the plaintext.
    let mut store = Store::new(vec![b("alice@example.com")]);
    let mut kr = Keyring { entries: vec![key("KAAA0001", &["alice@example.com"], true)] };
    store.encrypt_string(&mut kr, None, &path(&["foo"]), b("hunter2")).unwrap();
    assert_eq!(store.pins.lookup(&b("alice@example.com")), Some(b("KAAA0001")));
    assert_eq!(store.decrypt(&kr, &path(&["foo"])).unwrap(), b("hunter2"));

    // Only the holder of K's secret key can open it.
    let strangers = Keyring { entries: vec![key("KBBB0002", &["bob"], true)] };
    assert!(matches!(
        store.decrypt(&strangers, &path(&["foo"])),
        Err(StoreError::DecryptionFailed)
    ));
    let public_only = Keyring { entries: vec![key("KAAA0001", &["alice@example.com"], false)] };
    assert!(matches!(
        store.decrypt(&public_only, &path(&["foo"])),
        Err(StoreError::DecryptionFailed)
    ));
}

#[test]
fn encrypt_fails_for_unknown_recipient() {
    let mut store = Store::new(vec![b("ghost@example.com")]);
    let mut kr = Keyring::new();
    let r = store.encrypt_string(&mut kr, None, &path(&["foo"]), b("x"));
    assert!(matches!(r, Err(StoreError::NeedsLookup { .. })));
}

#[test]
fn decrypt_missing_path() {
    let store = Store::new(vec![b("alice")]);
    let kr = Keyring::new();
    assert!(matches!(store.decrypt(&kr, &path(&["nope"])), Err(StoreError::MissingPath)));
    assert!(matches!(
        store.decrypt(&kr, &path(&["no", "dir", "here"])),
        Err(StoreError::MissingPath)
    ));
}

#[test]
fn encrypt_overwrites_in_place() {
    let mut store = Store::new(vec![b("alice")]);
    let mut kr = Keyring { entries: vec![key("KAAA0001", &["alice"], true)] };
    store.encrypt_string(&mut kr, None, &path(&["foo"]), b("one")).unwrap();
    store.encrypt_string(&mut kr, None, &path(&["foo"]), b("two")).unwrap();
    assert_eq!(store.tree.files.len(), 1);
    assert_eq!(store.decrypt(&kr, &path(&["foo"])).unwrap(), b("two"));
}

#[test]
fn reencrypt_tree_uses_override_not_root() {
    // root/.gpg_id names alice; root/a/.gpg_id overrides with bob;
    // root/a/secret must be reencrypted against bob's key, not alice's.
    let mut store = Store::new(vec![b("alice")]);
    let mut kr = Keyring {
        entries: vec![
            key("KALICE01", &["alice"], true),
            key("KBOB0002", &["bob"], true),
        ],
    };
    store.encrypt_string(&mut kr, None, &path(&["a", "secret"]), b("payload")).unwrap();
    // At this point a/secret is encrypted for alice (no override yet).
    assert_eq!(store.tree.subdirs[0].tree.files[0].data.recipients, vec![b("KALICE01")]);

    // Now a/ gets its own marker, and the whole store is reencrypted.
    store.tree.subdirs[0].tree.marker = Some(vec![b("bob")]);
    store.reencrypt_folder(&mut kr, None, &path(&[])).unwrap();

    let cipher = &store.tree.subdirs[0].tree.files[0].data;
    assert_eq!(cipher.recipients, vec![b("KBOB0002")]);
    assert_eq!(cipher.payload, b("payload"));

    let bob_only = Keyring { entries: vec![key("KBOB0002", &["bob"], true)] };
    assert_eq!(store.decrypt(&bob_only, &path(&["a", "secret"])).unwrap(), b("payload"));
    let alice_only = Keyring { entries: vec![key("KALICE01", &["alice"], true)] };
    assert!(matches!(
        store.decrypt(&alice_only, &path(&["a", "secret"])),
        Err(StoreError::DecryptionFailed)
    ));
}

#[test]
fn reencrypt_tree_skips_hidden_entries() {
    let mut store = Store::new(vec![b("alice")]);
    let mut kr = Keyring { entries: vec![key("KALICE01", &["alice"], true)] };
    store.encrypt_string(&mut kr, None, &path(&["visible"]), b("data")).unwrap();
    // Housekeeping entries carry the reserved marker prefix; their bytes
    // must survive a reencryption pass untouched, whatever they hold.
    store.tree.files.push(FileEntry {
        name: b(".gpg_id"),
        data: Cipher { recipients: vec![b("NOT-A-KEY")], payload: b("alice\n") },
    });
    store.tree.subdirs.push(SubDir {
        name: b(".keys"),
        tree: DirTree {
            marker: None,
            files: vec![FileEntry {
                name: b("locks"),
                data: Cipher { recipients: vec![b("BOGUS")], payload: b("pin") },
            }],
            subdirs: Vec::new(),
        },
    });
    store.reencrypt_folder(&mut kr, None, &path(&[])).unwrap();
    let hidden_file = store.tree.files.iter().find(|f| f.name == b(".gpg_id")).unwrap();
    assert_eq!(hidden_file.data.recipients, vec![b("NOT-A-KEY")]);
    assert_eq!(hidden_file.data.payload, b("alice\n"));
    let hidden_dir = store.tree.subdirs.iter().find(|s| s.name == b(".keys")).unwrap();
    assert_eq!(hidden_dir.tree.files[0].data.recipients, vec![b("BOGUS")]);
}

#[test]
fn reencrypt_missing_folder_fails() {
    let mut store = Store::new(vec![b("alice")]);
    let mut kr = Keyring { entries: vec![key("KALICE01", &["alice"], true)] };
    let r = store.reencrypt_folder(&mut kr, None, &path(&["absent"]));
    assert!(matches!(r, Err(StoreError::MissingPath)));
}

#[test]
fn reencrypt_single_file() {
    let mut store = Store::new(vec![b("alice")]);
    let mut kr = Keyring { entries: vec![key("KALICE01", &["alice"], true)] };
    store.encrypt_string(&mut kr, None, &path(&["foo"]), b("data")).unwrap();
    // The policy changes to bob; only an explicit reencryption applies it.
    store.tree.marker = Some(vec![b("bob")]);
    kr.import_key(key("KBOB0002", &["bob"], true));
    assert_eq!(store.tree.files[0].data.recipients, vec![b("KALICE01")]);
    store.reencrypt_file(&mut kr, None, &path(&["foo"])).unwrap();
    assert_eq!(store.tree.files[0].data.recipients, vec![b("KBOB0002")]);
    assert_eq!(store.tree.files[0].data.payload, b("data"));
}

#[test]
fn init_folder_creates_marker_and_reencrypts() {
    // `init -f sub bob`: sub/.gpg_id is written with bob, sub/ is created
    // if absent, and every file under sub/ is reencrypted against bob's
    // key; files outside sub/ stay as they were.
    let mut store = Store::new(vec![b("alice")]);
    let mut kr = Keyring {
        entries: vec![
            key("KALICE01", &["alice"], true),
            key("KBOB0002", &["bob"], true),
        ],
    };
    store.encrypt_string(&mut kr, None, &path(&["outside"]), b("o")).unwrap();
    store.encrypt_string(&mut kr, None, &path(&["sub", "inner"]), b("i")).unwrap();
    assert_eq!(store.tree.subdirs[0].tree.files[0].data.recipients, vec![b("KALICE01")]);

    store.init_folder(&mut kr, None, &path(&["sub"]), vec![b("bob")], None).unwrap();

    assert_eq!(store.tree.subdirs[0].tree.marker, Some(vec![b("bob")]));
    assert_eq!(store.tree.subdirs[0].tree.files[0].data.recipients, vec![b("KBOB0002")]);
    let outside = store.tree.files.iter().find(|f| f.name == b("outside")).unwrap();
    assert_eq!(outside.data.recipients, vec![b("KALICE01")]);
}

#[test]
fn init_folder_creates_missing_directory() {
    let mut store = Store::new(vec![b("alice")]);
    let mut kr = Keyring { entries: vec![key("KBOB0002", &["bob"], true)] };
    store.init_folder(&mut kr, None, &path(&["fresh"]), vec![b("bob")], None).unwrap();
    assert_eq!(store.tree.subdirs.len(), 1);
    assert_eq!(store.tree.subdirs[0].name, b("fresh"));
    assert_eq!(store.tree.subdirs[0].tree.marker, Some(vec![b("bob")]));
}

#[test]
fn engine_round_trip_and_failures() {
    let kr = Keyring { entries: vec![key("KAAA0001", &["alice"], true)] };
    let c = kr.encrypt_string(vec![b("KAAA0001")], b("secret")).unwrap();
    assert_eq!(kr.decrypt(&c).unwrap(), b("secret"));
    // Encrypting for an id the keyring lacks fails.
    assert!(matches!(
        kr.encrypt_string(vec![b("NOPE")], b("x")),
        Err(StoreError::EncryptionFailed)
    ));
    // Reencrypt composes decrypt and encrypt.
    let kr2 = Keyring {
        entries: vec![key("KAAA0001", &["alice"], true), key("KBBB0002", &["bob"], false)],
    };
    let c2 = kr2.reencrypt(&c, vec![b("KBBB0002")]).unwrap();
    assert_eq!(c2.recipients, vec![b("KBBB0002")]);
    assert_eq!(c2.payload, b("secret"));
}

#[test]
fn keyring_lookup_by_uid_and_short_id() {
    let kr = Keyring { entries: vec![key("0123456789ABCDEF", &["alice@example.com"], false)] };
    assert!(kr.has_key(&b("alice@example.com")));
    assert!(kr.has_key(&b("89ABCDEF")));
    assert!(kr.has_key(&b("0123456789ABCDEF")));
    assert!(!kr.has_key(&b("bob")));
    assert_eq!(kr.get_key_id(&b("alice@example.com")), Some(b("0123456789ABCDEF")));
    assert_eq!(kr.get_key_id(&b("missing")), None);
    let exported = kr.export_key(&b("alice@example.com")).unwrap();
    assert_eq!(exported.long_id, b("0123456789ABCDEF"));
    assert!(kr.export_key(&b("missing")).is_none());
}

#[test]
fn import_diagnostic_yields_short_id() {
    // The engine reports a fresh import on the first line of its
    // diagnostic text; the third word carries the short id with a colon.
    let diag = b"gpg: key 9ABCDEF012345678: public key \"Alice\" imported\ngpg: Total number processed: 1\n".to_vec();
    assert_eq!(parse_import_diagnostic(&diag), Some(b"9ABCDEF012345678".to_vec()));
}

#[test]
fn import_diagnostic_malformed_is_rejected() {
    assert_eq!(parse_import_diagnostic(&b"gpg: failure".to_vec()), None);
    assert_eq!(parse_import_diagnostic(&b"".to_vec()), None);
    assert_eq!(parse_import_diagnostic(&b"a b \nkey X: imported".to_vec()), None);
}

#[test]
fn reencrypt_failure_leaves_mixed_state() {
    // A failure partway through a pass leaves files already processed
    // rewritten under the new recipients, and the failing file onward
    // untouched; nothing is lost.
    let mut store = Store::new(vec![b("alice")]);
    let mut kr = Keyring {
        entries: vec![key("KALICE01", &["alice"], true), key("KBOB0002", &["bob"], true)],
    };
    store.encrypt_string(&mut kr, None, &path(&["x"]), b("first")).unwrap();
    store.encrypt_string(&mut kr, None, &path(&["b", "y"]), b("second")).unwrap();
    // The root policy moves to bob; the subdirectory moves to an identity
    // nobody can resolve.
    store.tree.marker = Some(vec![b("bob")]);
    store.tree.subdirs[0].tree.marker = Some(vec![b("ghost")]);

    let r = store.reencrypt_folder(&mut kr, None, &path(&[]));
    assert!(matches!(r, Err(StoreError::NeedsLookup { .. })));

    let x = store.tree.files.iter().find(|f| f.name == b("x")).unwrap();
    assert_eq!(x.data.recipients, vec![b("KBOB0002")]);
    assert_eq!(x.data.payload, b("first"));
    let y = &store.tree.subdirs[0].tree.files[0];
    assert_eq!(y.data.recipients, vec![b("KALICE01")]);
    assert_eq!(y.data.payload, b("second"));
}
