use jas::sideload::{validate_pairing_bytes, PairingError};
use jas::sideload::{
    account_storage_prefix, adsid_from_spd, connection_candidates, find_app_id,
    revocable_serials, staged_ipa_path, tunnel_mss, CachedXcodeToken,
};

#[test]
fn storage_prefix_is_hex_sha256() {
    assert_eq!(
        account_storage_prefix("abc"),
        "ba7816bf8f01cfea414140de5dae2223b00361a396177a9cb410ff61f20015ad"
    );
    assert_eq!(account_storage_prefix("me@example.com"), account_storage_prefix("me@example.com"));
    assert_eq!(account_storage_prefix("").len(), 64);
}

#[test]
fn token_freshness_leaves_a_minute() {
    let t = CachedXcodeToken { token: "t".into(), adsid: "a".into(), expiry: 1_000_000, duration: 0 };
    assert!(t.is_fresh_at(900_000));
    assert!(!t.is_fresh_at(940_000));
    assert!(!t.is_fresh_at(u64::MAX));
    let old = CachedXcodeToken { token: "t".into(), adsid: "a".into(), expiry: 5, duration: 0 };
    assert!(!old.is_fresh());
}

#[test]
fn tunnel_goes_to_lan_first_then_manual() {
    assert_eq!(connection_candidates("10.0.0.2", None), vec!["10.0.0.2".to_string()]);
    assert_eq!(connection_candidates("10.0.0.2", Some("10.0.0.2")), vec!["10.0.0.2".to_string()]);
    assert_eq!(
        connection_candidates("10.0.0.2", Some("192.168.1.9")),
        vec!["192.168.1.9".to_string(), "10.0.0.2".to_string()]
    );
    assert_eq!(tunnel_mss(1280), 1220);
    assert_eq!(tunnel_mss(10), 0);
}

#[test]
fn staging_names_and_lookups() {
    assert_eq!(staged_ipa_path("Foo.app"), "PublicStaging/Foo.ipa");
    assert_eq!(staged_ipa_path("Foo.app.app"), "PublicStaging/Foo.ipa");
    assert_eq!(staged_ipa_path("Foo"), "PublicStaging/Foo.ipa");
    let ids = vec!["com.a".to_string(), "com.b".to_string(), "com.b".to_string()];
    assert_eq!(find_app_id(&ids, "com.b"), Some(1));
    assert_eq!(find_app_id(&ids, "com.c"), None);
    assert_eq!(
        revocable_serials(&vec![Some("S1".to_string()), None, Some("S2".to_string())]),
        vec!["S1".to_string(), "S2".to_string()]
    );
    let spd = vec![("adsid".to_string(), Some("000-1".to_string())), ("n".to_string(), None)];
    assert_eq!(adsid_from_spd(&spd).as_deref(), Some("000-1"));
    assert_eq!(adsid_from_spd(&vec![("adsid".to_string(), None)]), None);
}

#[test]
fn pairing_files_are_checked() {
    assert_eq!(validate_pairing_bytes(b"junk"), Err(PairingError::InvalidPairingFile));
    let mut d = plist::Dictionary::new();
    d.insert("public_key".into(), plist::Value::Data(vec![0u8; 31]));
    d.insert("private_key".into(), plist::Value::Data(vec![1u8; 32]));
    d.insert("identifier".into(), plist::Value::String("x".into()));
    let mut bytes = Vec::new();
    plist::to_writer_xml(&mut bytes, &d).unwrap();
    assert_eq!(validate_pairing_bytes(&bytes), Err(PairingError::InvalidPairingFile));
    let good = idevice::remote_pairing::RpPairingFile::generate("jas").to_bytes();
    assert_eq!(validate_pairing_bytes(&good), Ok(()));
}
