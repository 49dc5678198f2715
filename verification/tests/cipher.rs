use aes_gcm::aead::Aead;
use aes_gcm::KeyInit;
use swords::cipher::{aes_decrypt, aes_encrypt, CipherRegistry, DecryptFn, EncryptFn};
use swords::entity::value::Value;
use swords::entity::Entries;
use swords::error::{CipherError, EncryptError};

fn dummy_key() -> [u8; 32] {
    let mut key = [0u8; 32];
    for i in 0..32 {
        key[i] = i as u8;
    }
    key
}

fn nonce_extras(nonce: &[u8]) -> Entries {
    let mut extras = Entries::new();
    extras.insert("nonce".to_owned(), Value::new(nonce, false));
    extras
}

#[test]
fn cipher_aes_encrypt_ok() {
    let key = dummy_key();
    let data = b"Example dummy data";
    let nonce: &[u8] = b"dummy nonce ";
    let extras = nonce_extras(nonce);
    let result = aes_encrypt(data, &key, &extras);
    assert!(result.is_ok());
}

#[test]
fn cipher_aes_encrypt_missing_nonce() {
    let key = dummy_key();
    let data = b"Example dummy data";
    let extras = Entries::new();
    let result = aes_encrypt(data, &key, &extras);
    assert_eq!(
        result,
        Err(CipherError::MissingRequiredExtra("nonce".to_owned()))
    );
}

#[test]
fn cipher_aes_decrypt_ok() {
    let key = dummy_key();
    let data = b"Example dummy data";
    let nonce: &[u8] = b"dummy nonce ";
    let extras = nonce_extras(nonce);
    let result = aes_encrypt(data, &key, &extras);
    let encrypted = result.unwrap();
    let result = aes_decrypt(&encrypted, &key, &extras);
    assert!(result.is_ok());
    let decrypted = result.unwrap();
    assert_eq!(&decrypted, data);
}

#[test]
fn cipher_aes_decrypt_missing_nonce() {
    let key = dummy_key();
    let data = b"Example dummy data";
    let nonce: &[u8] = b"dummy nonce ";
    let mut extras = nonce_extras(nonce);
    let result = aes_encrypt(data, &key, &extras);
    let encrypted = result.unwrap();
    extras.remove("nonce");
    let result = aes_decrypt(&encrypted, &key, &extras);
    assert_eq!(
        result,
        Err(CipherError::MissingRequiredExtra("nonce".to_owned()))
    );
}

#[test]
fn registry_encrypt_ok() {
    let key = dummy_key();
    let data = b"Example dummy data";
    let nonce: &[u8] = b"dummy nonce ";
    let extras = nonce_extras(nonce);
    let registry = CipherRegistry::default();
    let encrypt = registry.get_encryptor("aes-gcm").unwrap();
    let result = encrypt.encrypt(data, &key, &extras);
    assert!(result.is_ok());
}

#[test]
fn registry_decrypt_ok() {
    let key = dummy_key();
    let data = b"Example dummy data";
    let nonce: &[u8] = b"dummy nonce ";
    let extras = nonce_extras(nonce);
    let result = aes_encrypt(data, &key, &extras);
    let encrypted = result.unwrap();
    let registry = CipherRegistry::default();
    let decrypt = registry.get_decryptor("aes-gcm").unwrap();
    let result = decrypt.decrypt(&encrypted, &key, &extras);
    assert!(result.is_ok());
    let decrypted = result.unwrap();
    assert_eq!(&decrypted, data);
}

#[test]
fn encrypt_aes_encrypt_ok() {
    let key = dummy_key();
    let data = b"Example dummy data";
    let nonce: &[u8] = b"dummy nonce ";
    let extras = nonce_extras(nonce);
    let result = aes_encrypt(data, &key, &extras);
    assert!(result.is_ok());
}

#[test]
fn encrypt_aes_encrypt_missing_nonce() {
    let key = dummy_key();
    let data = b"Example dummy data";
    let extras = Entries::new();
    let result = aes_encrypt(data, &key, &extras);
    assert_eq!(
        result,
        Err(EncryptError::MissingRequiredExtra("nonce".to_owned()))
    );
}

#[test]
fn encrypt_aes_decrypt_ok() {
    let key = dummy_key();
    let data = b"Example dummy data";
    let nonce: &[u8] = b"dummy nonce ";
    let extras = nonce_extras(nonce);
    let result = aes_encrypt(data, &key, &extras);
    let encrypted = result.unwrap();
    let result = aes_decrypt(&encrypted, &key, &extras);
    assert!(result.is_ok());
    let decrypted = result.unwrap();
    assert_eq!(&decrypted, data);
}

#[test]
fn encrypt_aes_decrypt_missing_nonce() {
    let key = dummy_key();
    let data = b"Example dummy data";
    let nonce: &[u8] = b"dummy nonce ";
    let mut extras = nonce_extras(nonce);
    let result = aes_encrypt(data, &key, &extras);
    let encrypted = result.unwrap();
    extras.remove("nonce");
    let result = aes_decrypt(&encrypted, &key, &extras);
    assert_eq!(
        result,
        Err(EncryptError::MissingRequiredExtra("nonce".to_owned()))
    );
}

#[test]
fn aes_encrypt_appends_a_sixteen_byte_tag_and_hides_the_plaintext() {
    let key = dummy_key();
    let data = b"Example dummy data";
    let extras = nonce_extras(b"dummy nonce ");
    let encrypted = aes_encrypt(data, &key, &extras).unwrap();
    assert_eq!(encrypted.len(), data.len() + 16);
    assert_ne!(&encrypted[..data.len()], &data[..]);
}

#[test]
fn aes_encrypt_matches_the_cipher_crate() {
    let key = dummy_key();
    let data = b"Example dummy data";
    let nonce: &[u8] = b"dummy nonce ";
    let extras = nonce_extras(nonce);
    let cipher = aes_gcm::Aes256Gcm::new(aes_gcm::Key::<aes_gcm::Aes256Gcm>::from_slice(&key));
    let expected = cipher
        .encrypt(aes_gcm::Nonce::from_slice(nonce), &data[..])
        .unwrap();
    assert_eq!(aes_encrypt(data, &key, &extras).unwrap(), expected);
}

#[test]
fn aes_refuses_a_key_of_the_wrong_length() {
    let extras = nonce_extras(b"dummy nonce ");
    let short_key = [7u8; 16];
    assert_eq!(
        aes_encrypt(b"data", &short_key, &extras),
        Err(CipherError::EncryptionError)
    );
    assert_eq!(
        aes_decrypt(b"data", &short_key, &extras),
        Err(CipherError::EncryptionError)
    );
}

#[test]
fn aes_refuses_a_nonce_of_the_wrong_length() {
    let key = dummy_key();
    let extras = nonce_extras(b"short");
    assert_eq!(
        aes_encrypt(b"data", &key, &extras),
        Err(CipherError::EncryptionError)
    );
    assert_eq!(
        aes_decrypt(b"data", &key, &extras),
        Err(CipherError::EncryptionError)
    );
}

#[test]
fn aes_decrypt_refuses_a_tampered_ciphertext() {
    let key = dummy_key();
    let extras = nonce_extras(b"dummy nonce ");
    let encrypted = aes_encrypt(b"Example dummy data", &key, &extras).unwrap();
    for at in 0..encrypted.len() {
        let mut tampered = encrypted.clone();
        tampered[at] ^= 0x01;
        assert_eq!(
            aes_decrypt(&tampered, &key, &extras),
            Err(CipherError::EncryptionError)
        );
    }
}

#[test]
fn aes_decrypt_refuses_a_ciphertext_shorter_than_its_tag() {
    let key = dummy_key();
    let extras = nonce_extras(b"dummy nonce ");
    assert_eq!(
        aes_decrypt(b"short", &key, &extras),
        Err(CipherError::EncryptionError)
    );
}

#[test]
fn cipher_registry_knows_only_what_was_registered() {
    let registry = CipherRegistry::default();
    assert_eq!(registry.get_encryptor("aes-gcm"), Some(EncryptFn::AesGcm));
    assert_eq!(registry.get_decryptor("aes-gcm"), Some(DecryptFn::AesGcm));
    assert_eq!(registry.get_encryptor("rot13"), None);
    assert_eq!(registry.get_decryptor("rot13"), None);
    let names: Vec<String> = registry.get_names().into_iter().cloned().collect();
    assert_eq!(names, vec!["aes-gcm".to_owned()]);
    let empty = CipherRegistry::new();
    assert_eq!(empty.get_encryptor("aes-gcm"), None);
    assert!(empty.get_names().is_empty());
}

#[test]
fn cipher_registry_binds_each_side_alone() {
    let mut registry = CipherRegistry::new();
    registry.register_encipher("only-in", EncryptFn::AesGcm);
    assert_eq!(registry.get_encryptor("only-in"), Some(EncryptFn::AesGcm));
    assert_eq!(registry.get_decryptor("only-in"), None);
    registry.register_decipher("only-out", DecryptFn::AesGcm);
    assert_eq!(registry.get_encryptor("only-out"), None);
    assert_eq!(registry.get_decryptor("only-out"), Some(DecryptFn::AesGcm));
    registry.register("both", EncryptFn::AesGcm, DecryptFn::AesGcm);
    assert_eq!(registry.get_encryptor("both"), Some(EncryptFn::AesGcm));
    assert_eq!(registry.get_decryptor("both"), Some(DecryptFn::AesGcm));
    let names: Vec<String> = registry.get_names().into_iter().cloned().collect();
    assert_eq!(names, vec!["only-in".to_owned(), "both".to_owned()]);
    assert_eq!(EncryptFn::AesGcm.inverse(), DecryptFn::AesGcm);
}

#[test]
fn cipher_registry_holds_each_name_once() {
    let mut registry = CipherRegistry::default();
    registry.register("aes-gcm", EncryptFn::AesGcm, DecryptFn::AesGcm);
    registry.register("other", EncryptFn::AesGcm, DecryptFn::AesGcm);
    registry.register_encipher("aes-gcm", EncryptFn::AesGcm);
    registry.register_decipher("other", DecryptFn::AesGcm);
    let names: Vec<String> = registry.get_names().into_iter().cloned().collect();
    assert_eq!(names, vec!["aes-gcm".to_owned(), "other".to_owned()]);
    assert_eq!(registry.get_encryptor("aes-gcm"), Some(EncryptFn::AesGcm));
    assert_eq!(registry.get_decryptor("other"), Some(DecryptFn::AesGcm));
}

#[test]
fn aes_encrypt_succeeds_with_a_right_key_and_nonce() {
    let key = dummy_key();
    let extras = nonce_extras(b"dummy nonce ");
    for data in [&b""[..], &b"x"[..], &[7u8; 70_000][..]] {
        let encrypted = aes_encrypt(data, &key, &extras).unwrap();
        assert_eq!(encrypted.len(), data.len() + swords::cipher::AES_GCM_TAG_LENGTH);
        assert_eq!(
            EncryptFn::AesGcm.encrypt(data, &key, &extras).unwrap(),
            encrypted
        );
        assert_eq!(aes_decrypt(&encrypted, &key, &extras).unwrap(), data);
    }
    assert_eq!(swords::cipher::AES_GCM_MAX_PLAINTEXT_LENGTH, 1u64 << 36);
    assert_eq!(swords::cipher::AES_GCM_KEY_LENGTH, 32);
    assert_eq!(swords::cipher::AES_GCM_NONCE_LENGTH, 12);
}
