//! Keybags are opened with the right password only, and what they wrap reads
//! back.
use aes::cipher::block_padding::NoPadding;
use aes::cipher::{BlockModeEncrypt, KeyIvInit};
use aes::Aes256;
use aes_kw::cipher::KeyInit;
use aes_kw::KwAes256;
use cradle::crypto::{
    decrypt_with, field_bytes, field_u32, read_fields, Keybag, WRAPPED_KEY_LEN, WRAP_BY_PASSWORD,
};
use pbkdf2::pbkdf2_hmac;
use sha1::Sha1;
use sha2::Sha256;

/// Appends one field: its tag, the length of its value, and the value.
fn put_field(buf: &mut Vec<u8>, tag: &[u8; 4], value: &[u8]) {
    buf.extend_from_slice(tag);
    buf.extend_from_slice(&(value.len() as u32).to_be_bytes());
    buf.extend_from_slice(value);
}

/// A keybag with one class, wrapped under a stretched password.
fn synthetic_keybag(password: &str, class_id: u32) -> (Vec<u8>, [u8; 32]) {
    let salt = *b"backup-salt-000012345";
    let iterations: u32 = 500;
    let stretch_salt = *b"stretch-salt-abcdefgh";
    let stretch_iterations: u32 = 500;

    let mut intermediate = [0u8; 32];
    pbkdf2_hmac::<Sha256>(password.as_bytes(), &stretch_salt, stretch_iterations, &mut intermediate);
    let mut root_key = [0u8; 32];
    pbkdf2_hmac::<Sha1>(&intermediate, &salt, iterations, &mut root_key);

    let class_key = [0x5Au8; 32];
    let mut wrapped_class_key = [0u8; WRAPPED_KEY_LEN];
    KwAes256::new((&root_key).into())
        .wrap_key(&class_key, &mut wrapped_class_key)
        .unwrap();

    let mut raw = Vec::new();
    put_field(&mut raw, b"SALT", &salt);
    put_field(&mut raw, b"ITER", &iterations.to_be_bytes());
    put_field(&mut raw, b"DPSL", &stretch_salt);
    put_field(&mut raw, b"DPIC", &stretch_iterations.to_be_bytes());
    put_field(&mut raw, b"CLAS", &class_id.to_be_bytes());
    put_field(&mut raw, b"WRAP", &WRAP_BY_PASSWORD.to_be_bytes());
    put_field(&mut raw, b"WPKY", &wrapped_class_key);

    (raw, class_key)
}

fn wrap_item_key(class_id: u32, class_key: &[u8; 32], item_key: &[u8; 32]) -> Vec<u8> {
    let mut wrapped = [0u8; WRAPPED_KEY_LEN];
    KwAes256::new(class_key.into()).wrap_key(item_key, &mut wrapped).unwrap();

    let mut blob = class_id.to_le_bytes().to_vec();
    blob.extend_from_slice(&wrapped);
    blob
}

#[test]
fn correct_password_unlocks_wrong_password_does_not() {
    let (raw, class_key) = synthetic_keybag("correct horse battery staple", 6);

    let keybag = Keybag::unlock(&raw, "correct horse battery staple").unwrap();
    assert_eq!(keybag.classes.get(&6), Some(&class_key));

    let err = Keybag::unlock(&raw, "wrong password").unwrap_err();
    assert!(err.message().contains("wrong backup password"));
}

#[test]
fn decrypts_content_wrapped_under_a_recovered_class() {
    let (raw, class_key) = synthetic_keybag("hunter2", 3);
    let keybag = Keybag::unlock(&raw, "hunter2").unwrap();

    let item_key = [0x11u8; 32];
    let wrapped_item_key = wrap_item_key(3, &class_key, &item_key);

    let plaintext: &[u8] = b"exactly two whole AES blocks!!!!";
    assert_eq!(plaintext.len(), 32);
    let mut ciphertext = plaintext.to_vec();
    cbc::Encryptor::<Aes256>::new(&item_key.into(), &[0u8; 16].into())
        .encrypt_padded::<NoPadding>(&mut ciphertext, plaintext.len())
        .unwrap();

    keybag.decrypt(&mut ciphertext, &wrapped_item_key).unwrap();
    assert_eq!(ciphertext, plaintext);
}

#[test]
fn rejects_non_block_aligned_ciphertext() {
    let (raw, class_key) = synthetic_keybag("pw", 1);
    let keybag = Keybag::unlock(&raw, "pw").unwrap();
    let wrapped_item_key = wrap_item_key(1, &class_key, &[0x22; 32]);

    let err = keybag.decrypt(&mut [0u8; 17], &wrapped_item_key).unwrap_err();
    assert!(err.message().contains("block-aligned"));
}

#[test]
fn unrecoverable_class_reports_missing_key_not_a_crash() {
    let (raw, _class_key) = synthetic_keybag("pw", 1);
    let keybag = Keybag::unlock(&raw, "pw").unwrap();

    let bogus_key = wrap_item_key(99, &[0u8; 32], &[0u8; 32]);
    let err = keybag.decrypt(&mut [0u8; 16], &bogus_key).unwrap_err();
    assert!(err.message().contains("no usable key for protection class 99"));
}

#[test]
fn a_lone_class_marker_with_no_key_material_is_not_a_crash() {
    let mut raw = Vec::new();
    put_field(&mut raw, b"SALT", b"0123456789012345678\x00");
    put_field(&mut raw, b"ITER", &1000u32.to_be_bytes());
    put_field(&mut raw, b"CLAS", &7u32.to_be_bytes());

    let err = Keybag::unlock(&raw, "anything").unwrap_err();
    assert!(err.message().contains("no protection class keys"));
}

#[test]
fn a_keybag_with_no_class_entries_is_a_clear_error() {
    let mut raw = Vec::new();
    put_field(&mut raw, b"SALT", b"0123456789012345678\x00");
    put_field(&mut raw, b"ITER", &1000u32.to_be_bytes());

    let err = Keybag::unlock(&raw, "anything").unwrap_err();
    assert!(err.message().contains("no protection classes"));
}

#[test]
fn a_field_claiming_more_bytes_than_remain_is_a_clear_error() {
    let mut raw = Vec::new();
    raw.extend_from_slice(b"SALT");
    raw.extend_from_slice(&500u32.to_be_bytes());
    raw.extend_from_slice(b"short");

    let err = Keybag::unlock(&raw, "anything").unwrap_err();
    assert!(err.message().contains("runs past end"));
}

#[test]
fn trailing_bytes_shorter_than_a_field_header_are_a_clear_error() {
    let mut raw = Vec::new();
    put_field(&mut raw, b"CLAS", &1u32.to_be_bytes());
    raw.extend_from_slice(b"AB");

    let err = read_fields(&raw).unwrap_err();
    assert!(err.message().contains("short header"));
}

#[test]
fn fields_read_back_in_order() {
    let mut raw = Vec::new();
    put_field(&mut raw, b"SALT", b"abc");
    put_field(&mut raw, b"ITER", &70_000u32.to_be_bytes());
    put_field(&mut raw, b"EMPT", b"");

    let fields = read_fields(&raw).unwrap();
    assert_eq!(fields.len(), 3);
    assert_eq!(&fields[0].tag, b"SALT");
    assert_eq!(fields[0].value, b"abc");
    assert_eq!(field_bytes(&fields, b"EMPT"), Some(&b""[..]));
    assert_eq!(field_u32(&fields, b"ITER"), Some(70_000));
    assert_eq!(field_u32(&fields, b"SALT"), None);
    assert_eq!(field_bytes(&fields, b"NONE"), None);
    assert!(read_fields(&[]).unwrap().is_empty());
}

#[test]
fn a_key_of_the_wrong_length_is_refused() {
    let (raw, _class_key) = synthetic_keybag("pw", 1);
    let keybag = Keybag::unlock(&raw, "pw").unwrap();
    let mut data = [7u8; 16];
    assert!(keybag.decrypt(&mut data, &[0u8; 43]).is_err());
    assert_eq!(data, [7u8; 16]);
}

#[test]
fn an_item_key_that_does_not_unwrap_leaves_the_data_alone() {
    let (raw, class_key) = synthetic_keybag("pw", 1);
    let keybag = Keybag::unlock(&raw, "pw").unwrap();
    let mut wrapped = wrap_item_key(1, &class_key, &[0x22; 32]);
    wrapped[10] ^= 1;
    let mut data = [7u8; 16];
    let err = keybag.decrypt(&mut data, &wrapped).unwrap_err();
    assert_eq!(err.message(), "could not unwrap file encryption key");
    assert_eq!(data, [7u8; 16]);
    assert!(decrypt_with(None, &mut data).is_err());
}

#[test]
fn a_backup_directory_without_a_readable_manifest_does_not_unlock() {
    assert!(Keybag::unlock_from_backup_dir(&Err("gone".to_string()), "pw").is_err());
    assert!(Keybag::unlock_from_backup_dir(&Ok(b"not a plist"), "pw").is_err());
}

#[test]
fn a_keybag_is_found_in_its_manifest() {
    let (raw, class_key) = synthetic_keybag("pw", 4);
    let mut members = plist::Dictionary::new();
    members.insert("BackupKeyBag".to_string(), plist::Value::Data(raw));
    let mut manifest = Vec::new();
    plist::Value::Dictionary(members).to_writer_xml(&mut manifest).unwrap();

    let keybag = Keybag::unlock_from_backup_dir(&Ok(manifest.as_slice()), "pw").unwrap();
    assert_eq!(keybag.classes.get(&4), Some(&class_key));
}
