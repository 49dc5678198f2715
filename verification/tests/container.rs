use swords::cipher::{aes_encrypt, CipherRegistry, DecryptFn, EncryptFn};
use swords::entity::collection::Collection;
use swords::entity::record::Record;
use swords::entity::value::Value;
use swords::entity::{Entries, Header, Swd};
use swords::error::{CipherError, ParseError, SerializeError};
use swords::hash::{sha3_256, HashFunctionRegistry};
use swords::io::parser::Parser;
use swords::util::MAGIC_NUMBER;

fn salted(master_key: &[u8], salt: &[u8]) -> Vec<u8> {
    let mut bytes = master_key.to_vec();
    bytes.extend_from_slice(salt);
    bytes
}

fn minimal_container() -> Swd {
    let master_key_salt = [0u8; 16];
    let key_salt = [0u8; 16];
    let master_key_hash = sha3_256(&salted(b"password", &master_key_salt));
    let header = Header::new(
        1,
        "sha3-256".to_owned(),
        "sha3-256".to_owned(),
        "aes-gcm".to_owned(),
        &master_key_hash,
        &master_key_salt,
        &key_salt,
        Entries::new(),
    );
    Swd::new(
        header,
        "root".to_owned(),
        CipherRegistry::default(),
        HashFunctionRegistry::default(),
    )
}

fn reread(swd: &Swd) -> Swd {
    let bytes = swd.to_bytes().unwrap();
    let mut parser = Parser::new();
    parser.parse(&bytes).unwrap()
}

fn written_text(text: &str) -> Vec<u8> {
    let mut bytes = vec![0x00, (text.len() / 256) as u8, (text.len() % 256) as u8];
    bytes.extend_from_slice(text.as_bytes());
    bytes
}

fn written_value(value: &[u8], is_secret: bool) -> Vec<u8> {
    let mut bytes = vec![
        if is_secret { 0x01 } else { 0x00 },
        (value.len() / 256) as u8,
        (value.len() % 256) as u8,
    ];
    bytes.extend_from_slice(value);
    bytes
}

fn header_fields() -> Vec<(&'static str, Vec<u8>)> {
    vec![
        ("mkhf", b"sha3-256".to_vec()),
        ("khf", b"sha3-256".to_vec()),
        ("mks", vec![1u8; 16]),
        ("ks", vec![2u8; 16]),
        ("mkh", vec![3u8; 32]),
        ("kc", b"aes-gcm".to_vec()),
    ]
}

fn container_bytes_with_header(fields: &[(&'static str, Vec<u8>, bool)]) -> Vec<u8> {
    let mut bytes = MAGIC_NUMBER.to_vec();
    bytes.extend_from_slice(&[0, 0, 0, 1]);
    for (name, value, is_secret) in fields {
        bytes.extend_from_slice(&written_text(name));
        bytes.extend_from_slice(&written_value(value, *is_secret));
    }
    bytes.push(0x03);
    bytes.extend_from_slice(&written_text("label"));
    bytes.extend_from_slice(&written_text("root"));
    bytes.push(0x04);
    bytes
}

fn parse_error(bytes: &[u8]) -> ParseError {
    let mut parser = Parser::new();
    parser.parse(bytes).unwrap_err()
}

#[test]
fn minimal_container_is_read_back_with_version_one_and_an_empty_root() {
    let swd = minimal_container();
    let read = reread(&swd);
    assert_eq!(read.header().version(), 1);
    assert_eq!(read.header().master_key_hash_fn(), "sha3-256");
    assert_eq!(read.header().key_hash_fn(), "sha3-256");
    assert_eq!(read.header().key_cipher(), "aes-gcm");
    assert_eq!(read.header().master_key_salt(), &vec![0u8; 16]);
    assert_eq!(read.header().key_salt(), &vec![0u8; 16]);
    assert_eq!(
        read.header().master_key_hash(),
        &sha3_256(&salted(b"password", &[0u8; 16]))
    );
    assert!(read.header().get_key().is_none());
    assert_eq!(read.get_root().label(), "root");
    assert!(read.get_root().children().is_empty());
    assert!(read.get_root().records().is_empty());
}

#[test]
fn minimal_container_is_written_byte_for_byte() {
    let swd = minimal_container();
    let mut expected = MAGIC_NUMBER.to_vec();
    expected.extend_from_slice(&[0, 0, 0, 1]);
    expected.extend_from_slice(&written_text("mkhf"));
    expected.extend_from_slice(&written_text("sha3-256"));
    expected.extend_from_slice(&written_text("khf"));
    expected.extend_from_slice(&written_text("sha3-256"));
    expected.extend_from_slice(&written_text("mks"));
    expected.extend_from_slice(&written_value(&[0u8; 16], false));
    expected.extend_from_slice(&written_text("ks"));
    expected.extend_from_slice(&written_value(&[0u8; 16], false));
    expected.extend_from_slice(&written_text("mkh"));
    expected.extend_from_slice(&written_value(
        &sha3_256(&salted(b"password", &[0u8; 16])),
        false,
    ));
    expected.extend_from_slice(&written_text("kc"));
    expected.extend_from_slice(&written_text("aes-gcm"));
    expected.push(0x03);
    expected.extend_from_slice(&written_text("label"));
    expected.extend_from_slice(&written_text("root"));
    expected.push(0x04);
    assert_eq!(swd.to_bytes().unwrap(), expected);
    assert_eq!(&expected[..8], &MAGIC_NUMBER[..]);
    assert_eq!(MAGIC_NUMBER.len(), 8);
}

#[test]
fn unlock_with_the_master_key_populates_the_key() {
    let mut swd = minimal_container();
    assert!(swd.header().get_key().is_none());
    assert!(swd.unlock(b"password"));
    assert_eq!(
        swd.header().get_key(),
        Some(&sha3_256(&salted(b"password", &[0u8; 16])))
    );
}

#[test]
fn unlock_with_a_wrong_key_leaves_the_key_slot_empty() {
    let mut swd = minimal_container();
    assert!(!swd.unlock(b"wrong"));
    assert!(swd.header().get_key().is_none());
    assert!(!swd.unlock(b""));
    assert!(swd.header().get_key().is_none());
}

#[test]
fn unlock_succeeds_again_with_the_same_key() {
    let mut swd = minimal_container();
    assert!(swd.unlock(b"password"));
    let first = swd.header().get_key().cloned();
    assert!(swd.unlock(b"password"));
    assert_eq!(swd.header().get_key().cloned(), first);
    assert!(!swd.unlock(b"wrong"));
    assert_eq!(swd.header().get_key().cloned(), first);
}

#[test]
fn unlock_derives_the_key_with_the_key_salt() {
    let master_key_salt = [5u8; 16];
    let key_salt = [9u8; 16];
    let header = Header::new(
        1,
        "sha3-256".to_owned(),
        "sha3-256".to_owned(),
        "aes-gcm".to_owned(),
        &sha3_256(&salted(b"open sesame", &master_key_salt)),
        &master_key_salt,
        &key_salt,
        Entries::new(),
    );
    let mut swd = Swd::new(
        header,
        "root".to_owned(),
        CipherRegistry::default(),
        HashFunctionRegistry::default(),
    );
    assert!(swd.unlock(b"open sesame"));
    let key = swd.header().get_key().unwrap().clone();
    assert_eq!(key, sha3_256(&salted(b"open sesame", &key_salt)));
    assert_ne!(key, sha3_256(&salted(b"open sesame", &master_key_salt)));
}

#[test]
fn unlock_fails_where_a_digest_is_not_known() {
    let salt = [0u8; 16];
    let digest = sha3_256(&salted(b"password", &salt));
    let unknown_check = Header::new(
        1,
        "md5".to_owned(),
        "sha3-256".to_owned(),
        "aes-gcm".to_owned(),
        &digest,
        &salt,
        &salt,
        Entries::new(),
    );
    let mut swd = Swd::new(
        unknown_check,
        "root".to_owned(),
        CipherRegistry::default(),
        HashFunctionRegistry::default(),
    );
    assert!(!swd.unlock(b"password"));
    assert!(swd.header().get_key().is_none());
    let unknown_derivation = Header::new(
        1,
        "sha3-256".to_owned(),
        "md5".to_owned(),
        "aes-gcm".to_owned(),
        &digest,
        &salt,
        &salt,
        Entries::new(),
    );
    let mut swd = Swd::new(
        unknown_derivation,
        "root".to_owned(),
        CipherRegistry::default(),
        HashFunctionRegistry::default(),
    );
    assert!(!swd.unlock(b"password"));
    assert!(swd.header().get_key().is_none());
}

#[test]
fn single_record_survives_writing_reading_unlocking_and_revealing() {
    let mut swd = minimal_container();
    assert!(swd.unlock(b"password"));
    let key = swd.header().get_key().unwrap().clone();
    let nonce = [7u8; 12];
    let mut extras = Entries::new();
    extras.insert("nonce".to_owned(), Value::new(&nonce, false));
    let encrypt = CipherRegistry::default().get_encryptor("aes-gcm").unwrap();
    let encrypted = encrypt.encrypt(b"hunter2", &key, &extras).unwrap();
    let mut record = Record::new("github".to_owned(), encrypted.clone().into_boxed_slice());
    record.add_extra("nonce", &nonce, false);
    swd.get_root_mut().add_record(record);

    let mut read = reread(&swd);
    assert!(read.header().get_key().is_none());
    assert!(read.unlock(b"password"));
    let key = read.header().get_key().unwrap().clone();
    let decrypt = CipherRegistry::default()
        .get_decryptor(read.header().key_cipher())
        .unwrap();
    let record = read.get_root_mut().get_record_mut(0).unwrap();
    assert_eq!(record.label(), "github");
    assert_eq!(&record.secret()[..], &encrypted[..]);
    assert!(record.revealed_secret().is_none());
    let nonce_read = record.get_extra("nonce").unwrap();
    assert_eq!(nonce_read.inner(), &nonce[..]);
    assert!(!nonce_read.is_secret());
    assert!(record.reveal_secret(&decrypt, &key));
    assert_eq!(record.revealed_secret().unwrap(), "hunter2");
    assert!(record.reveal_secret(&decrypt, &key));
    assert_eq!(record.revealed_secret().unwrap(), "hunter2");
    assert_eq!(
        read.get_root().get_record(0).unwrap().revealed_secret().unwrap(),
        "hunter2"
    );
}

#[test]
fn revealed_secret_is_never_written() {
    let key = [1u8; 32];
    let mut record = Record::seal(
        "github".to_owned(),
        b"hunter2",
        &EncryptFn::AesGcm,
        &key,
        &[7u8; 12],
    )
    .unwrap();
    let before = record.to_bytes().unwrap();
    assert!(record.reveal_secret(&DecryptFn::AesGcm, &key));
    assert_eq!(record.revealed_secret().unwrap(), "hunter2");
    assert_eq!(record.to_bytes().unwrap(), before);
    let mut parser = Parser::new();
    parser.inject_input(&before);
    let read = parser.parse_record().unwrap();
    assert!(read.revealed_secret().is_none());
}

#[test]
fn derived_key_is_never_written() {
    let mut swd = minimal_container();
    let before = swd.to_bytes().unwrap();
    assert!(swd.unlock(b"password"));
    assert_eq!(swd.to_bytes().unwrap(), before);
}

#[test]
fn sealed_record_holds_the_ciphertext_and_the_nonce() {
    let key = [1u8; 32];
    let nonce = [7u8; 12];
    let record = Record::seal(
        "github".to_owned(),
        b"hunter2",
        &EncryptFn::AesGcm,
        &key,
        &nonce,
    )
    .unwrap();
    let mut extras = Entries::new();
    extras.insert("nonce".to_owned(), Value::new(&nonce, false));
    assert_eq!(record.label(), "github");
    assert_eq!(
        &record.secret()[..],
        &aes_encrypt(b"hunter2", &key, &extras).unwrap()[..]
    );
    assert_eq!(record.get_extra("nonce").unwrap().inner(), &nonce[..]);
    assert!(!record.get_extra("nonce").unwrap().is_secret());
    assert!(record.revealed_secret().is_none());
}

#[test]
fn sealing_fails_where_the_cipher_fails() {
    let result = Record::seal(
        "github".to_owned(),
        b"hunter2",
        &EncryptFn::AesGcm,
        &[1u8; 31],
        &[7u8; 12],
    );
    assert_eq!(result.unwrap_err(), CipherError::EncryptionError);
    let result = Record::seal(
        "github".to_owned(),
        b"hunter2",
        &EncryptFn::AesGcm,
        &[1u8; 32],
        &[7u8; 11],
    );
    assert_eq!(result.unwrap_err(), CipherError::EncryptionError);
}

#[test]
fn reveal_fails_on_a_tampered_secret_and_keeps_what_was_revealed() {
    let key = [1u8; 32];
    let record = Record::seal(
        "github".to_owned(),
        b"hunter2",
        &EncryptFn::AesGcm,
        &key,
        &[7u8; 12],
    )
    .unwrap();
    let secret = record.secret().clone();
    assert_eq!(secret.len(), b"hunter2".len() + 16);
    for at in 0..secret.len() {
        let mut tampered = secret.clone();
        tampered[at] ^= 0x80;
        let mut forged = Record::new("github".to_owned(), tampered);
        forged.add_extra("nonce", &[7u8; 12], false);
        assert!(!forged.reveal_secret(&DecryptFn::AesGcm, &key));
        assert!(forged.revealed_secret().is_none());
    }
}

#[test]
fn reveal_fails_with_another_key_or_without_the_nonce() {
    let key = [1u8; 32];
    let mut record = Record::seal(
        "github".to_owned(),
        b"hunter2",
        &EncryptFn::AesGcm,
        &key,
        &[7u8; 12],
    )
    .unwrap();
    assert!(!record.reveal_secret(&DecryptFn::AesGcm, &[2u8; 32]));
    assert!(record.revealed_secret().is_none());
    assert!(!record.reveal_secret(&DecryptFn::AesGcm, &[]));
    assert!(record.revealed_secret().is_none());
    let mut bare = Record::new("github".to_owned(), record.secret().clone());
    assert!(!bare.reveal_secret(&DecryptFn::AesGcm, &key));
    assert!(bare.revealed_secret().is_none());
}

#[test]
fn reveal_fails_on_a_plaintext_that_is_not_text() {
    let key = [1u8; 32];
    let mut record = Record::seal(
        "binary".to_owned(),
        &[0xff, 0xfe, 0x00],
        &EncryptFn::AesGcm,
        &key,
        &[7u8; 12],
    )
    .unwrap();
    assert!(!record.reveal_secret(&DecryptFn::AesGcm, &key));
    assert!(record.revealed_secret().is_none());
}

#[test]
fn nested_tree_is_read_back_in_insertion_order() {
    let mut swd = minimal_container();
    let mut expected: Vec<(String, Vec<(String, Vec<u8>)>)> = vec![];
    for child_name in ["work", "home"] {
        let mut child = Collection::new(child_name.to_owned());
        let mut records = vec![];
        for record_name in ["first", "second"] {
            let label = format!("{}-{}", child_name, record_name);
            let secret = format!("cipher of {}", label).into_bytes();
            child.add_record(Record::new(
                label.clone(),
                secret.clone().into_boxed_slice(),
            ));
            records.push((label, secret));
        }
        swd.get_root_mut().add_child(child);
        expected.push((child_name.to_owned(), records));
    }
    let read = reread(&swd);
    let children = read.get_root().children();
    assert_eq!(children.len(), 2);
    assert!(read.get_root().records().is_empty());
    for (child, (name, records)) in children.iter().zip(expected.iter()) {
        assert_eq!(child.label(), name);
        assert!(child.children().is_empty());
        assert_eq!(child.records().len(), 2);
        for (record, (label, secret)) in child.records().iter().zip(records.iter()) {
            assert_eq!(record.label(), label);
            assert_eq!(&record.secret()[..], &secret[..]);
        }
    }
    assert_eq!(read.get_root().get_child(0).unwrap().label(), "work");
    assert_eq!(read.get_root().get_child(1).unwrap().label(), "home");
    assert!(read.get_root().get_child(2).is_none());
    assert_eq!(read.to_bytes().unwrap(), swd.to_bytes().unwrap());
}

#[test]
fn header_without_entries_is_refused_for_the_first_missing_field() {
    let mut input = MAGIC_NUMBER.to_vec();
    input.extend_from_slice(&[0x00, 0x00, 0x00, 0x01]);
    input.push(0x03);
    input.push(0x04);
    assert_eq!(
        parse_error(&input),
        ParseError::MissingRequiredField("mkhf".to_owned())
    );
}

#[test]
fn wrong_magic_number_is_refused_whatever_follows() {
    let good = minimal_container().to_bytes().unwrap();
    for at in 0..8 {
        let mut bad = good.clone();
        bad[at] ^= 0x01;
        assert_eq!(parse_error(&bad), ParseError::InvalidMagicNumber);
    }
    assert_eq!(parse_error(&[0xaa; 8]), ParseError::InvalidMagicNumber);
    assert_eq!(parse_error(&[0xaa; 500]), ParseError::InvalidMagicNumber);
}

#[test]
fn input_shorter_than_the_magic_number_is_refused_as_ended() {
    assert_eq!(parse_error(&[]), ParseError::UnexpectedEndOfFile);
    assert_eq!(parse_error(&MAGIC_NUMBER[..7]), ParseError::UnexpectedEndOfFile);
    assert_eq!(parse_error(&[0xaa; 7]), ParseError::UnexpectedEndOfFile);
}

#[test]
fn input_that_ends_in_the_header_is_refused_as_ended() {
    let mut input = MAGIC_NUMBER.to_vec();
    assert_eq!(parse_error(&input), ParseError::UnexpectedEndOfFile);
    input.extend_from_slice(&[0, 0, 0]);
    assert_eq!(parse_error(&input), ParseError::UnexpectedEndOfFile);
    input.push(1);
    assert_eq!(parse_error(&input), ParseError::UnexpectedEndOfFile);
    let whole = minimal_container().to_bytes().unwrap();
    let header_end = whole.len() - 17;
    assert_eq!(whole[header_end], 0x03);
    assert_eq!(
        parse_error(&whole[..header_end]),
        ParseError::UnexpectedEndOfFile
    );
}

#[test]
fn leaving_out_a_required_header_field_is_refused_for_that_field() {
    let all = header_fields();
    for gone in 0..all.len() {
        let fields: Vec<(&'static str, Vec<u8>, bool)> = all
            .iter()
            .enumerate()
            .filter(|(at, _)| *at != gone)
            .map(|(_, (name, value))| (*name, value.clone(), false))
            .collect();
        assert_eq!(
            parse_error(&container_bytes_with_header(&fields)),
            ParseError::MissingRequiredField(all[gone].0.to_owned())
        );
    }
}

#[test]
fn marking_a_required_header_field_secret_is_refused_for_that_field() {
    let all = header_fields();
    for flipped in 0..all.len() {
        let fields: Vec<(&'static str, Vec<u8>, bool)> = all
            .iter()
            .enumerate()
            .map(|(at, (name, value))| (*name, value.clone(), at == flipped))
            .collect();
        assert_eq!(
            parse_error(&container_bytes_with_header(&fields)),
            ParseError::ForbiddenSecretField(all[flipped].0.to_owned())
        );
    }
}

#[test]
fn header_fields_are_accepted_in_any_order() {
    let mut fields: Vec<(&'static str, Vec<u8>, bool)> = header_fields()
        .into_iter()
        .map(|(name, value)| (name, value, false))
        .collect();
    fields.reverse();
    fields.insert(2, ("note", b"hello".to_vec(), true));
    let bytes = container_bytes_with_header(&fields);
    let mut parser = Parser::new();
    let swd = parser.parse(&bytes).unwrap();
    assert_eq!(swd.header().version(), 1);
    assert_eq!(swd.header().master_key_hash_fn(), "sha3-256");
    assert_eq!(swd.header().key_cipher(), "aes-gcm");
    assert_eq!(swd.header().master_key_salt(), &vec![1u8; 16]);
    assert_eq!(swd.header().key_salt(), &vec![2u8; 16]);
    assert_eq!(swd.header().master_key_hash(), &vec![3u8; 32]);
    let note = swd.get_extra("note").unwrap();
    assert_eq!(note.inner(), b"hello");
    assert!(note.is_secret());
    assert!(swd.get_extra("mkhf").is_none());
    assert!(swd.get_extra("kc").is_none());
}

#[test]
fn header_name_that_is_not_text_is_refused() {
    let mut fields: Vec<(&'static str, Vec<u8>, bool)> = header_fields()
        .into_iter()
        .map(|(name, value)| (name, value, false))
        .collect();
    fields[5].1 = vec![0xff, 0xff];
    assert_eq!(
        parse_error(&container_bytes_with_header(&fields)),
        ParseError::EncodingError
    );
}

#[test]
fn version_is_read_from_the_four_bytes_that_open_the_header() {
    let swd = minimal_container();
    let mut bytes = swd.to_bytes().unwrap();
    bytes[8..12].copy_from_slice(&[0x01, 0x02, 0x03, 0x04]);
    let mut parser = Parser::new();
    let read = parser.parse(&bytes).unwrap();
    assert_eq!(read.header().version(), 0x0102_0304);
    assert_eq!(read.header().version_bytes(), [0x01, 0x02, 0x03, 0x04]);
    assert_eq!(&read.to_bytes().unwrap(), &bytes);
}

#[test]
fn bytes_behind_the_root_collection_are_not_looked_at() {
    let swd = minimal_container();
    let mut bytes = swd.to_bytes().unwrap();
    let clean = bytes.clone();
    bytes.extend_from_slice(&[0xde, 0xad, 0xbe, 0xef]);
    let mut parser = Parser::new();
    let read = parser.parse(&bytes).unwrap();
    assert_eq!(read.to_bytes().unwrap(), clean);
}

#[test]
fn header_extras_keep_their_secrecy() {
    let mut swd = minimal_container();
    swd.add_extra("hint", b"first pet", false);
    swd.add_extra("pin", b"0000", true);
    swd.add_extra("hint", b"second pet", false);
    let read = reread(&swd);
    let hint = read.get_extra("hint").unwrap();
    assert_eq!(hint.inner(), b"second pet");
    assert!(!hint.is_secret());
    let pin = read.get_extra("pin").unwrap();
    assert_eq!(pin.inner(), b"0000");
    assert!(pin.is_secret());
    assert!(read.get_extra("absent").is_none());
    assert_eq!(read.to_bytes().unwrap(), swd.to_bytes().unwrap());
}

#[test]
fn extras_keep_their_secrecy_everywhere_in_the_tree() {
    let mut swd = minimal_container();
    swd.get_root_mut().add_extra("color", b"red", false);
    swd.get_root_mut().add_extra("owner", b"me", true);
    let mut child = Collection::new("child".to_owned());
    child.add_extra("deep", b"\x00\x01\x02", true);
    let mut record = Record::new("entry".to_owned(), Box::new([9, 8, 7]));
    record.add_extra("nonce", &[4u8; 12], false);
    record.add_extra("pepper", b"hot", true);
    child.add_record(record);
    swd.get_root_mut().add_child(child);
    let read = reread(&swd);
    let root = read.get_root();
    assert!(!root.get_extra("color").unwrap().is_secret());
    assert_eq!(root.get_extra("color").unwrap().inner(), b"red");
    assert!(root.get_extra("owner").unwrap().is_secret());
    assert_eq!(root.get_extra("owner").unwrap().inner(), b"me");
    let child = root.get_child(0).unwrap();
    assert!(child.get_extra("deep").unwrap().is_secret());
    assert_eq!(child.get_extra("deep").unwrap().inner(), b"\x00\x01\x02");
    let record = child.get_record(0).unwrap();
    assert_eq!(&record.secret()[..], &[9, 8, 7]);
    assert!(!record.get_extra("nonce").unwrap().is_secret());
    assert_eq!(record.get_extra("nonce").unwrap().inner(), &[4u8; 12][..]);
    assert!(record.get_extra("pepper").unwrap().is_secret());
    assert_eq!(record.get_extra("pepper").unwrap().inner(), b"hot");
}

#[test]
fn container_with_a_value_that_is_too_long_cannot_be_written() {
    let mut swd = minimal_container();
    swd.add_extra("big", &vec![0u8; 65_535], false);
    assert!(swd.to_bytes().is_ok());
    swd.add_extra("big", &vec![0u8; 65_536], false);
    assert_eq!(swd.to_bytes(), Err(SerializeError::PayloadTooLong));
    let mut swd = minimal_container();
    swd.get_root_mut()
        .add_record(Record::new(
            "r".to_owned(),
            vec![0u8; 65_536].into_boxed_slice(),
        ));
    assert_eq!(swd.to_bytes(), Err(SerializeError::PayloadTooLong));
    let mut swd = minimal_container();
    swd.get_root_mut()
        .add_child(Collection::new("x".repeat(65_536)));
    assert_eq!(swd.to_bytes(), Err(SerializeError::PayloadTooLong));
}

#[test]
fn created_container_unlocks_with_its_master_key() {
    let mut swd = Swd::create(
        1,
        "vault".to_owned(),
        b"correct horse",
        "sha3-256",
        "sha3-256",
        "aes-gcm",
        &[3u8; 16],
        &[4u8; 16],
        CipherRegistry::default(),
        HashFunctionRegistry::default(),
    )
    .unwrap();
    assert_eq!(swd.header().version(), 1);
    assert_eq!(swd.get_root().label(), "vault");
    assert_eq!(
        swd.header().master_key_hash(),
        &sha3_256(&salted(b"correct horse", &[3u8; 16]))
    );
    assert_eq!(swd.header().master_key_salt(), &vec![3u8; 16]);
    assert_eq!(swd.header().key_salt(), &vec![4u8; 16]);
    assert!(swd.header().get_key().is_none());
    assert!(!swd.unlock(b"battery staple"));
    assert!(swd.unlock(b"correct horse"));
    assert_eq!(
        swd.header().get_key().unwrap(),
        &sha3_256(&salted(b"correct horse", &[4u8; 16]))
    );
    let mut read = reread(&swd);
    assert!(read.unlock(b"correct horse"));
}

#[test]
fn container_is_not_created_with_a_name_that_is_not_known() {
    for (check, derive, cipher) in [
        ("md5", "sha3-256", "aes-gcm"),
        ("sha3-256", "md5", "aes-gcm"),
        ("sha3-256", "sha3-256", "rot13"),
    ] {
        assert!(Swd::create(
            1,
            "vault".to_owned(),
            b"correct horse",
            check,
            derive,
            cipher,
            &[3u8; 16],
            &[4u8; 16],
            CipherRegistry::default(),
            HashFunctionRegistry::default(),
        )
        .is_none());
    }
    assert!(Swd::create(
        1,
        "vault".to_owned(),
        b"correct horse",
        "sha3-256",
        "sha3-256",
        "aes-gcm",
        &[3u8; 16],
        &[4u8; 16],
        CipherRegistry::new(),
        HashFunctionRegistry::default(),
    )
    .is_none());
}

#[test]
fn from_root_keeps_the_tree() {
    let mut root = Collection::new("top".to_owned());
    root.add_child(Collection::new("inner".to_owned()));
    let swd = minimal_container();
    let header = reread(&swd);
    let bytes = header.to_bytes().unwrap();
    let mut parser = Parser::new();
    parser.inject_input(&bytes[8..]);
    let header = parser.parse_header().unwrap();
    let swd = Swd::from_root(
        header,
        root,
        CipherRegistry::default(),
        HashFunctionRegistry::default(),
    );
    assert_eq!(swd.get_root().label(), "top");
    assert_eq!(swd.get_root().children().len(), 1);
    assert_eq!(swd.get_root().get_child(0).unwrap().label(), "inner");
}

#[test]
fn storable_container_is_read_back_as_it_was_written() {
    let mut swd = minimal_container();
    swd.add_extra("hint", b"pet", true);
    let mut child = Collection::new("child".to_owned());
    let mut record = Record::new("entry".to_owned(), Box::new([9, 8, 7]));
    record.add_extra("nonce", &[4u8; 12], false);
    child.add_record(record);
    swd.get_root_mut().add_child(child);
    assert!(swd.is_storable());
    assert!(swd.header().is_storable());
    assert!(swd.get_root().is_storable());
    assert!(swd.get_root().is_at_most_deep(2));
    assert!(!swd.get_root().is_at_most_deep(1));
    assert!(!swd.get_root().is_at_most_deep(0));
    let read = reread(&swd);
    assert!(read.is_storable());
    assert_eq!(read.to_bytes().unwrap(), swd.to_bytes().unwrap());
}

#[test]
fn extras_under_a_name_that_their_owner_writes_are_not_storable() {
    let mut record = Record::new("real".to_owned(), Box::new([1]));
    assert!(record.is_storable());
    record.add_extra("label", b"fake", false);
    assert!(!record.is_storable());
    let bytes = record.to_bytes().unwrap();
    let mut parser = Parser::new();
    parser.inject_input(&bytes);
    assert_eq!(parser.parse_record().unwrap().label(), "fake");

    let mut record = Record::new("real".to_owned(), Box::new([1]));
    record.add_extra("secret", b"x", true);
    assert!(!record.is_storable());

    let mut collection = Collection::new("top".to_owned());
    assert!(collection.is_storable());
    collection.add_extra("label", b"other", false);
    assert!(!collection.is_storable());

    for name in ["mkhf", "khf", "mks", "ks", "mkh", "kc"] {
        let mut swd = minimal_container();
        assert!(swd.is_storable());
        swd.add_extra(name, b"x", false);
        assert!(!swd.header().is_storable());
        assert!(!swd.is_storable());
    }
    let mut swd = minimal_container();
    swd.add_extra("v", &[0, 0, 0, 2], false);
    assert!(swd.is_storable());
    assert_eq!(reread(&swd).header().version(), 1);
}

#[test]
fn what_cannot_be_written_is_not_storable() {
    let mut swd = minimal_container();
    swd.get_root_mut()
        .add_record(Record::new(
            "r".to_owned(),
            vec![0u8; 65_535].into_boxed_slice(),
        ));
    assert!(swd.is_storable());
    swd.get_root_mut()
        .add_record(Record::new(
            "r".to_owned(),
            vec![0u8; 65_536].into_boxed_slice(),
        ));
    assert!(!swd.is_storable());
    let mut entries = Entries::new();
    assert!(entries.is_storable_beside(&["a"]));
    entries.insert("b".to_owned(), Value::new(&vec![0u8; 65_536], false));
    assert!(!entries.is_storable_beside(&[]));
    let mut entries = Entries::new();
    entries.insert("a".to_owned(), Value::new(b"", false));
    assert!(entries.is_storable_beside(&["b"]));
    assert!(!entries.is_storable_beside(&["b", "a"]));
}

#[test]
fn tree_deeper_than_the_reader_goes_is_not_storable() {
    let mut tree = Collection::new("leaf".to_owned());
    for _ in 1..128 {
        let mut parent = Collection::new("node".to_owned());
        parent.add_child(tree);
        tree = parent;
    }
    assert!(tree.is_at_most_deep(128));
    assert!(!tree.is_at_most_deep(127));
    let bytes = tree.to_bytes().unwrap();
    let mut parser = Parser::new();
    parser.inject_input(&bytes);
    assert_eq!(parser.parse_collection().unwrap().to_bytes().unwrap(), bytes);

    let mut deeper = Collection::new("root".to_owned());
    deeper.add_child(tree);
    assert!(deeper.is_storable());
    assert!(!deeper.is_at_most_deep(128));
    let swd = Swd::from_root(
        Header::new(
            1,
            "sha3-256".to_owned(),
            "sha3-256".to_owned(),
            "aes-gcm".to_owned(),
            &[0u8; 32],
            &[0u8; 16],
            &[0u8; 16],
            Entries::new(),
        ),
        deeper,
        CipherRegistry::default(),
        HashFunctionRegistry::default(),
    );
    assert!(!swd.is_storable());
    let bytes = swd.to_bytes().unwrap();
    assert_eq!(parse_error(&bytes), ParseError::UnexpectedStarterByte);
}

#[test]
fn created_container_can_be_stored_where_its_parts_can_be_written() {
    let create = |label: String, salt: &[u8]| {
        Swd::create(
            1,
            label,
            b"correct horse",
            "sha3-256",
            "sha3-256",
            "aes-gcm",
            salt,
            &[4u8; 16],
            CipherRegistry::default(),
            HashFunctionRegistry::default(),
        )
        .unwrap()
    };
    let swd = create("vault".to_owned(), &[3u8; 16]);
    assert!(swd.is_storable());
    assert_eq!(swd.header().master_key_hash().len(), 32);
    assert!(swd.to_bytes().is_ok());
    assert!(!create("x".repeat(65_536), &[3u8; 16]).is_storable());
    assert!(!create("vault".to_owned(), &vec![0u8; 65_536]).is_storable());
    assert!(create("vault".to_owned(), &vec![0u8; 65_535]).is_storable());
}

#[test]
fn sealing_succeeds_with_a_right_key_and_nonce() {
    let record = Record::seal(
        "github".to_owned(),
        b"hunter2",
        &EncryptFn::AesGcm,
        &[1u8; 32],
        &[7u8; 12],
    )
    .unwrap();
    assert_eq!(record.secret().len(), 7 + 16);
    assert!(record.is_storable());
    let long = Record::seal(
        "long".to_owned(),
        &vec![b'x'; 65_535 - 16],
        &EncryptFn::AesGcm,
        &[1u8; 32],
        &[7u8; 12],
    )
    .unwrap();
    assert_eq!(long.secret().len(), 65_535);
    assert!(long.is_storable());
    let too_long = Record::seal(
        "long".to_owned(),
        &vec![b'x'; 65_536 - 16],
        &EncryptFn::AesGcm,
        &[1u8; 32],
        &[7u8; 12],
    )
    .unwrap();
    assert!(!too_long.is_storable());
}

#[test]
fn unlocked_key_has_the_length_of_a_digest() {
    let mut swd = minimal_container();
    assert!(swd.unlock(b"password"));
    assert_eq!(swd.header().get_key().unwrap().len(), 32);
}

#[test]
fn master_key_must_be_longer_than_eight_bytes() {
    assert_eq!(swords::entity::swd::SHORTEST_MASTER_KEY, 8);
    assert!(!swords::entity::swd::master_key_is_long_enough(b""));
    assert!(!swords::entity::swd::master_key_is_long_enough(b"password"));
    assert!(swords::entity::swd::master_key_is_long_enough(b"password1"));
    assert!(swords::entity::swd::master_key_is_long_enough("pässword".as_bytes()));
}

#[test]
fn extra_that_was_added_is_found_and_the_others_stay() {
    let mut record = Record::new("r".to_owned(), Box::new([1]));
    record.add_extra("a", b"1", false);
    record.add_extra("b", b"2", true);
    record.add_extra("a", b"3", true);
    assert_eq!(record.get_extra("a").unwrap().inner(), b"3");
    assert!(record.get_extra("a").unwrap().is_secret());
    assert_eq!(record.get_extra("b").unwrap().inner(), b"2");
    assert!(record.get_extra("b").unwrap().is_secret());
    assert!(record.get_extra("c").is_none());
}
