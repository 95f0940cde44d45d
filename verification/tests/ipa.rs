use jas::ipa::{bundle_id_from_info_plist, find_info_plist, is_app_info_plist_name, read_ipa_info, IpaError};
use std::io::Write;

fn plist_bytes(entries: &[(&str, &str)]) -> Vec<u8> {
    let mut d = plist::Dictionary::new();
    for (k, v) in entries {
        d.insert(k.to_string(), plist::Value::String(v.to_string()));
    }
    d.insert("Count".to_string(), plist::Value::Integer(3.into()));
    let mut out = Vec::new();
    plist::to_writer_xml(&mut out, &d).unwrap();
    out
}

fn zip_with(files: &[(&str, Vec<u8>)]) -> Vec<u8> {
    let mut w = zip::ZipWriter::new(std::io::Cursor::new(Vec::new()));
    let opts = zip::write::SimpleFileOptions::default();
    for (name, data) in files {
        w.start_file(*name, opts).unwrap();
        w.write_all(data).unwrap();
    }
    w.finish().unwrap().into_inner()
}

#[test]
fn recognises_the_top_level_info_plist() {
    assert!(is_app_info_plist_name("Payload/My.app/Info.plist"));
    assert!(is_app_info_plist_name("Payload/.app/Info.plist"));
    assert!(!is_app_info_plist_name("Payload/My.app/Frameworks/X.framework/Info.plist"));
    assert!(!is_app_info_plist_name("Payload/My.app/Info.plist.bak"));
    assert!(!is_app_info_plist_name("Payload/My.appx/Info.plist"));
    assert!(!is_app_info_plist_name("Payload/My.app"));
    assert!(!is_app_info_plist_name("Other/My.app/Info.plist"));
    assert!(!is_app_info_plist_name("Payload/"));
}

#[test]
fn reads_bundle_identity() {
    let ipa = zip_with(&[
        ("Payload/My.app/Frameworks/F.framework/Info.plist", plist_bytes(&[("CFBundleIdentifier", "com.framework")])),
        (
            "Payload/My.app/Info.plist",
            plist_bytes(&[
                ("CFBundleIdentifier", "com.example.app"),
                ("CFBundleName", "Example"),
                ("CFBundleVersion", "42"),
            ]),
        ),
    ]);
    let info = read_ipa_info(&ipa).unwrap();
    assert_eq!(info.bundle_id, "com.example.app");
    assert_eq!(info.display_name, "Example");
    assert_eq!(info.version.as_deref(), Some("42"));
}

#[test]
fn prefers_display_name_and_short_version() {
    let ipa = zip_with(&[(
        "Payload/X.app/Info.plist",
        plist_bytes(&[
            ("CFBundleIdentifier", "com.x"),
            ("CFBundleName", "X"),
            ("CFBundleDisplayName", "Ex"),
            ("CFBundleVersion", "7"),
            ("CFBundleShortVersionString", "1.2"),
        ]),
    )]);
    let info = read_ipa_info(&ipa).unwrap();
    assert_eq!(info.display_name, "Ex");
    assert_eq!(info.version.as_deref(), Some("1.2"));
    let bare = zip_with(&[("Payload/X.app/Info.plist", plist_bytes(&[("CFBundleIdentifier", "com.x")]))]);
    let info = read_ipa_info(&bare).unwrap();
    assert_eq!(info.display_name, "com.x");
    assert_eq!(info.version, None);
}

#[test]
fn reports_each_failure() {
    let not_zip = read_ipa_info(b"not a zip").unwrap_err();
    assert!(matches!(not_zip, IpaError::NotZip { .. }));
    assert!(not_zip.message().starts_with("IPA is not a valid zip: "));
    let no_plist = zip_with(&[("Payload/X.app/readme.txt", b"hi".to_vec())]);
    assert_eq!(read_ipa_info(&no_plist).unwrap_err(), IpaError::InfoPlistMissing);
    let bad_plist = zip_with(&[("Payload/X.app/Info.plist", b"garbage".to_vec())]);
    let bad = read_ipa_info(&bad_plist).unwrap_err();
    assert!(matches!(bad, IpaError::InvalidInfoPlist { .. }));
    assert!(bad.message().starts_with("parse Info.plist: "));
    let no_id = zip_with(&[("Payload/X.app/Info.plist", plist_bytes(&[("CFBundleName", "X")]))]);
    assert_eq!(read_ipa_info(&no_id).unwrap_err(), IpaError::MissingBundleId);
}

#[test]
fn finds_the_first_app_info_plist() {
    let names: Vec<String> = ["Payload/A.app/x", "Payload/A.app/Info.plist", "Payload/B.app/Info.plist"]
        .iter()
        .map(|s| s.to_string())
        .collect();
    assert_eq!(find_info_plist(&names), Some(1));
    assert_eq!(find_info_plist(&names[..1].to_vec()), None);
}

#[test]
fn signed_bundle_id_is_read_from_info_plist() {
    let ok = plist_bytes(&[("CFBundleIdentifier", "com.team.app"), ("CFBundleName", "App")]);
    assert_eq!(bundle_id_from_info_plist(&ok), Ok("com.team.app".to_string()));
    let none = plist_bytes(&[("CFBundleName", "App")]);
    assert_eq!(bundle_id_from_info_plist(&none), Err(IpaError::SignedBundleIdMissing));
    assert!(matches!(bundle_id_from_info_plist(b"not a plist"), Err(IpaError::InvalidInfoPlist { .. })));
}

#[test]
fn ipa_errors_have_messages() {
    assert_eq!(IpaError::NotZip { detail: "bad".into() }.message(), "IPA is not a valid zip: bad");
    assert_eq!(IpaError::UnreadableEntry { index: 12, detail: "crc".into() }.message(), "zip entry 12: crc");
    assert_eq!(IpaError::InfoPlistMissing.message(), "Info.plist not found in IPA");
    assert_eq!(
        IpaError::UnreadableInfoPlist { name: "Payload/A.app/Info.plist".into(), detail: "io".into() }.message(),
        "open Payload/A.app/Info.plist: io"
    );
    assert_eq!(IpaError::InvalidInfoPlist { detail: "eof".into() }.message(), "parse Info.plist: eof");
    assert_eq!(IpaError::MissingBundleId.message(), "CFBundleIdentifier missing");
    assert_eq!(IpaError::SignedBundleIdMissing.message(), "CFBundleIdentifier missing from Info.plist");
}
