use jas::requests::{decode_base64, encode_base64};
use jas::vault::{export_pairing_text, seal_pairing_upload, PairingUploadError, Vault};

#[test]
fn sealed_secrets_open_only_under_their_key() {
    let vault = Vault::new([7u8; 32]);
    let blob = vault.seal(b"session plist").unwrap();
    assert_eq!(blob.len(), 12 + 13 + 16);
    assert_ne!(&blob[12..25], b"session plist");
    assert_eq!(vault.open(&blob), Some(b"session plist".to_vec()));
    assert_eq!(Vault::new([8u8; 32]).open(&blob), None);
    assert_eq!(vault.open(&blob[..11]), None);
    let mut tampered = blob.clone();
    tampered[20] ^= 1;
    assert_eq!(vault.open(&tampered), None);
}

#[test]
fn exported_pairing_is_the_uploaded_one() {
    let vault = Vault::new([3u8; 32]);
    let record = idevice::remote_pairing::RpPairingFile::generate("jas").to_bytes();
    let upload = encode_base64(&record);
    let stored = seal_pairing_upload(&vault, &upload).unwrap();
    let exported = export_pairing_text(&vault, &stored).unwrap();
    assert_eq!(exported, upload);
    assert_eq!(decode_base64(&exported), Some(record));
    assert_eq!(export_pairing_text(&Vault::new([4u8; 32]), &stored), None);
}

#[test]
fn bad_pairing_uploads_are_refused() {
    let vault = Vault::new([3u8; 32]);
    assert_eq!(seal_pairing_upload(&vault, "!!"), Err(PairingUploadError::InvalidBase64));
    assert_eq!(seal_pairing_upload(&vault, "aGk="), Err(PairingUploadError::InvalidPairingFile));
}
