use jas::requests::{
    anisette_url_or_default, check_install_target, check_ipa_bytes, decode_ipa_upload,
    decode_base64, decode_pairing_upload, encode_base64, ephemeral_ipa_path, normalize_anisette_url,
    normalize_device_ip, stored_ipa_path, trim, upload_destination, RequestError,
};

#[test]
fn install_targets_must_be_named() {
    assert_eq!(check_install_target("", "a"), Err(RequestError::EmptyDeviceId));
    assert_eq!(check_install_target("d", ""), Err(RequestError::EmptyAccountId));
    assert_eq!(check_install_target("d", "a"), Ok(()));
}

#[test]
fn ipa_uploads_are_checked() {
    assert_eq!(check_ipa_bytes(&[]), Err(RequestError::EmptyIpa));
    assert_eq!(check_ipa_bytes(&[0x50, 0x4B]), Err(RequestError::NotAnIpa));
    assert_eq!(check_ipa_bytes(&[0x50, 0x4B, 0x03, 0x05]), Err(RequestError::NotAnIpa));
    assert_eq!(check_ipa_bytes(&[0x50, 0x4B, 0x03, 0x04, 9]), Ok(()));
    assert_eq!(decode_ipa_upload("!!!"), Err(RequestError::InvalidBase64));
    assert_eq!(decode_ipa_upload(""), Err(RequestError::EmptyIpa));
    assert_eq!(decode_ipa_upload("AAAA"), Err(RequestError::NotAnIpa));
    assert_eq!(decode_ipa_upload("UEsDBAE="), Ok(vec![0x50, 0x4B, 0x03, 0x04, 1]));
    assert_eq!(decode_pairing_upload("aGk="), Ok(b"hi".to_vec()));
    assert_eq!(decode_pairing_upload("a"), Err(RequestError::InvalidBase64));
}

#[test]
fn addresses_are_trimmed() {
    assert_eq!(trim("  \t x y \n"), "x y");
    assert_eq!(trim("\u{3000}a\u{a0}"), "a");
    assert_eq!(normalize_device_ip(" 10.0.0.2 "), Ok("10.0.0.2".to_string()));
    assert_eq!(normalize_device_ip("   "), Err(RequestError::EmptyIp));
    assert_eq!(normalize_anisette_url(""), Err(RequestError::EmptyUrl));
    assert_eq!(normalize_anisette_url(" https://a.b "), Ok("https://a.b".to_string()));
    assert_eq!(anisette_url_or_default(None), "https://ani.stikstore.app");
    assert_eq!(anisette_url_or_default(Some("u".to_string())), "u");
}

#[test]
fn ipa_paths() {
    assert_eq!(stored_ipa_path("/var/lib/jas/ipas", "com.a"), "/var/lib/jas/ipas/com.a.ipa");
    assert_eq!(ephemeral_ipa_path("x"), "/tmp/jas_x.ipa");
}

#[test]
fn stored_and_ephemeral_uploads() {
    let (row, job) = upload_destination(true, "/d", "com.a", "u");
    assert_eq!(row.as_deref(), Some("/d/com.a.ipa"));
    assert_eq!(job, "/d/com.a.ipa");
    let (row, job) = upload_destination(false, "/d", "com.a", "u");
    assert_eq!(row, None);
    assert_eq!(job, "/tmp/jas_u.ipa");
}

#[test]
fn base64_round_trips() {
    assert_eq!(encode_base64(&[0x50, 0x4B, 0x03, 0x04, 1]), "UEsDBAE=");
    assert_eq!(encode_base64(b""), "");
    let data = vec![0u8, 255, 7, 42];
    assert_eq!(decode_base64(&encode_base64(&data)), Some(data));
    assert_eq!(decode_base64("@@"), None);
}
