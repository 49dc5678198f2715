//! A leaf of the tree: a labelled secret, kept encrypted.
use vstd::prelude::*;
use crate::entity::entries::{
    contains_key, distinct_keys, Entries, EntryView, insert, lemma_lookup_remove_other, lookup,
    names_of, position, remove,
};

use vstd::utf8::{decode_utf8, valid_utf8};
use crate::cipher::{DecryptFn, EncryptFn};
use crate::entity::value::{Value, ValueView, write_bytes_field, write_text_field};
use crate::error::{CipherError, CipherErrorView, ParseError, ParseErrorView, SerializeError};
use crate::util::{boxed_bytes, string_from_utf8, MAX_PAYLOAD_LENGTH};
use crate::wire::roundtrip::record_storable;
use crate::wire::encode::{
    entries_fit, entry_fits, lemma_field_names_fit, payload_fits, record_bytes, record_fits,
    text_fits,
};
use crate::wire::decode::{
    lemma_public_fields_present, lemma_secret_fields_present, record_from_entries,
    record_public_fields, record_secret_fields,
};

verus! {

/// The byte that opens a record.
pub const RECORD_STARTER_BYTE: u8 = 0x02;

/// The fields that a record must hold as public values.
pub const REQUIRED_RECORD_FIELDS: [&'static str; 1] = ["label"];

/// The fields that a record must hold as secret values.
pub const REQUIRED_RECORD_SECRET_FIELDS: [&'static str; 1] = ["secret"];

/// The fields that a record writes itself, and that its extras must
/// therefore not hold.
pub const RESERVED_RECORD_FIELDS: [&'static str; 2] = ["label", "secret"];

/// A [`Record`] as a mathematical value.
pub struct RecordView {
    /// The record's name.
    pub label: Seq<char>,
    /// The secret as it is stored: ciphertext and tag.
    pub secret: Seq<u8>,
    /// The secret in the clear, once revealed. Never written.
    pub revealed_secret: Option<Seq<char>>,
    /// Whatever else is kept with the record, such as the nonce of its
    /// encryption.
    pub extras: Seq<EntryView>,
}

impl RecordView {
    /// The record as a file holds it: without the secret in the clear.
    pub open spec fn at_rest(self) -> RecordView {
        RecordView { revealed_secret: None, ..self }
    }
}

/// The text that [`Record::reveal_secret`] finds in the record `r` with the
/// decryption `decrypt` under `key`: the decrypted secret, where the cipher
/// gives one and it is valid UTF-8.
pub open spec fn revealed(r: RecordView, decrypt: DecryptFn, key: Seq<u8>) -> Option<Seq<char>> {
    match decrypt.decrypted(r.secret, key, r.extras) {
        Ok(plaintext) => if valid_utf8(plaintext) {
            Some(decode_utf8(plaintext))
        } else {
            None
        },
        Err(_) => None,
    }
}

/// The extras of a record that was sealed with `nonce`: the nonce alone,
/// as a public value.
pub open spec fn nonce_extras(nonce: Seq<u8>) -> Seq<EntryView> {
    seq![EntryView { key: "nonce"@, value: ValueView { bytes: nonce, is_secret: false } }]
}

/// The extras of a record that was sealed with `nonce` hold the nonce under
/// `nonce` and nothing else: no name twice, and neither `label` nor
/// `secret`. They can be written if the nonce can.
pub proof fn lemma_nonce_extras(nonce: Seq<u8>)
    ensures
        lookup(nonce_extras(nonce), "nonce"@) == Some(
            ValueView { bytes: nonce, is_secret: false },
        ),
        distinct_keys(nonce_extras(nonce)),
        !contains_key(nonce_extras(nonce), "label"@),
        !contains_key(nonce_extras(nonce), "secret"@),
        entries_fit(nonce_extras(nonce)) == payload_fits(nonce),
{
    let es = nonce_extras(nonce);
    reveal_strlit("nonce");
    reveal_strlit("label");
    reveal_strlit("secret");
    assert("nonce"@.len() == 5 && "label"@.len() == 5 && "secret"@.len() == 6);
    assert("nonce"@[0] == 'n' && "label"@[0] == 'l');
    reveal_with_fuel(position, 2);
    assert(es.drop_first() =~= Seq::<EntryView>::empty());
    assert(position(es, "nonce"@) == 0);
    assert(position(es, "label"@) == 1);
    assert(position(es, "secret"@) == 1);
    vstd::utf8::is_ascii_chars_encode_utf8("nonce"@);
    if payload_fits(nonce) {
        assert forall|i: int| 0 <= i < es.len() implies entry_fits(#[trigger] es[i]) by {}
    } else {
        assert(!entry_fits(es[0]));
    }
}

/// A labelled secret. The secret is held as the cipher produced it; its
/// plaintext is held only after [`Record::reveal_secret`], and never written.
/// The plaintext goes with the record when the record is dropped; it is not
/// wiped then.
#[derive(Debug)]
pub struct Record {
    label: String,
    secret: Box<[u8]>,
    revealed_secret: Option<String>,
    extras: Entries,
}

impl View for Record {
    type V = RecordView;

    closed spec fn view(&self) -> RecordView {
        RecordView {
            label: self.label@,
            secret: self.secret@,
            revealed_secret: match self.revealed_secret {
                Some(text) => Some(text@),
                None => None,
            },
            extras: self.extras@,
        }
    }
}

impl Record {
    /// A record named `label` whose stored secret is `secret`, with no
    /// extras and nothing revealed.
    pub fn new(label: String, secret: Box<[u8]>) -> (r: Self)
        ensures
            r@ == (RecordView {
                label: label@,
                secret: secret@,
                revealed_secret: None,
                extras: Seq::empty(),
            }),
    {
        Self { label, secret, extras: Entries::new(), revealed_secret: None }
    }

    /// The record's name.
    pub fn label(&self) -> (label: &String)
        ensures
            label@ == self@.label,
    {
        &self.label
    }

    /// The secret as it is stored: ciphertext and tag.
    pub fn secret(&self) -> (secret: &Box<[u8]>)
        ensures
            secret@ == self@.secret,
    {
        &self.secret
    }

    /// The secret in the clear; none before it was revealed.
    pub fn revealed_secret(&self) -> (text: Option<&String>)
        ensures
            match text {
                Some(t) => self@.revealed_secret == Some(t@),
                None => self@.revealed_secret is None,
            },
    {
        self.revealed_secret.as_ref()
    }

    /// What is kept with the record under `key`.
    pub fn get_extra(&self, key: &str) -> (found: Option<&Value>)
        ensures
            match found {
                Some(v) => lookup(self@.extras, key@) == Some(v@),
                None => lookup(self@.extras, key@) is None,
            },
    {
        self.extras.get(key)
    }

    /// Keeps `value` with the record under `key`, in the place of what stood
    /// there before.
    pub fn add_extra(&mut self, key: &str, value: &[u8], is_secret: bool)
        ensures
            final(self)@ == (RecordView {
                extras: insert(old(self)@.extras, key@, ValueView { bytes: value@, is_secret }),
                ..old(self)@
            }),
            distinct_keys(final(self)@.extras),
    {
        self.extras.insert(key.to_owned(), Value::new(value, is_secret));
    }
}

impl Record {
    /// Decrypts the stored secret with `decrypt_fn` under `key`, handing the
    /// record's extras to the cipher, and keeps the plaintext as the
    /// revealed secret. Where the cipher fails or the plaintext is not
    /// valid UTF-8, the record stays as it was and the answer is `false`.
    ///
    /// A secret that the matching encryption made of a text under the same
    /// key and extras is revealed as that text.
    pub fn reveal_secret(&mut self, decrypt_fn: &DecryptFn, key: &[u8]) -> (done: bool)
        ensures
            match revealed(old(self)@, *decrypt_fn, key@) {
                Some(text) => done && final(self)@ == (RecordView {
                    revealed_secret: Some(text),
                    ..old(self)@
                }),
                None => !done && final(self)@ == old(self)@,
            },
            forall|encrypt: EncryptFn, plaintext: Seq<u8>|
                encrypt.spec_inverse() == *decrypt_fn && #[trigger] encrypt.encrypted(
                    plaintext,
                    key@,
                    old(self)@.extras,
                ) == Ok::<Seq<u8>, CipherErrorView>(old(self)@.secret) && valid_utf8(plaintext)
                    ==> done && final(self)@.revealed_secret == Some(decode_utf8(plaintext)),
    {
        let secret_bytes = match decrypt_fn.decrypt(&self.secret, key, &self.extras) {
            Ok(bytes) => bytes,
            Err(_) => {
                return false;
            },
        };
        match string_from_utf8(secret_bytes.as_slice()) {
            Some(secret) => {
                self.revealed_secret = Some(secret);
                true
            },
            None => false,
        }
    }

    /// A record named `label` whose stored secret is `plaintext` encrypted
    /// with `encrypt_fn` under `key` and `nonce`. The nonce is kept with the
    /// record as the public extra `nonce`, where decrypting looks for it.
    /// Where the cipher fails there is no record.
    pub fn seal(
        label: String,
        plaintext: &[u8],
        encrypt_fn: &EncryptFn,
        key: &[u8],
        nonce: &[u8],
    ) -> (sealed: Result<Record, CipherError>)
        ensures
            match sealed {
                Ok(record) => encrypt_fn.encrypted(plaintext@, key@, nonce_extras(nonce@)) == Ok::<
                    Seq<u8>,
                    CipherErrorView,
                >(record@.secret) && record@ == (RecordView {
                    label: label@,
                    secret: record@.secret,
                    revealed_secret: None,
                    extras: nonce_extras(nonce@),
                }) && record@.secret.len() == plaintext@.len() + encrypt_fn.overhead()
                    && record_storable(record@) == (text_fits(label@) && plaintext@.len()
                    + encrypt_fn.overhead() <= MAX_PAYLOAD_LENGTH && nonce@.len()
                    <= MAX_PAYLOAD_LENGTH),
                Err(e) => encrypt_fn.encrypted(plaintext@, key@, nonce_extras(nonce@)) == Err::<
                    Seq<u8>,
                    CipherErrorView,
                >(e@),
            },
            sealed is Ok <==> encrypt_fn.can_encrypt(plaintext@, key@, nonce_extras(nonce@)),
    {
        proof {
            lemma_nonce_extras(nonce@);
        }
        let mut extras = Entries::new();
        extras.insert("nonce".to_owned(), Value::new(nonce, false));
        match encrypt_fn.encrypt(plaintext, key, &extras) {
            Ok(secret) => Ok(
                Record { label, secret: boxed_bytes(secret), revealed_secret: None, extras },
            ),
            Err(e) => Err(e),
        }
    }

    /// Whether the record can be stored: its label, its secret and its
    /// extras can be written, and the extras hold neither `label` nor
    /// `secret`, which the record writes itself.
    pub fn is_storable(&self) -> (storable: bool)
        ensures
            storable == record_storable(self@),
    {
        proof {
            assert(names_of(RESERVED_RECORD_FIELDS@) =~= seq!["label"@, "secret"@]);
            assert(names_of(RESERVED_RECORD_FIELDS@)[0] == "label"@);
            assert(names_of(RESERVED_RECORD_FIELDS@)[1] == "secret"@);
        }
        self.label.as_str().as_bytes().len() <= MAX_PAYLOAD_LENGTH && self.secret.len()
            <= MAX_PAYLOAD_LENGTH && self.extras.is_storable_beside(
            RESERVED_RECORD_FIELDS.as_slice(),
        )
    }

    /// Appends the record as it is written.
    pub(crate) fn write_to(&self, out: &mut Vec<u8>) -> (done: Result<(), SerializeError>)
        ensures
            match done {
                Ok(_) => record_fits(self@) && final(out)@ == old(out)@ + record_bytes(self@),
                Err(_) => !record_fits(self@),
            },
    {
        proof {
            lemma_field_names_fit();
        }
        out.push(RECORD_STARTER_BYTE);
        match write_text_field(out, "label", self.label.as_str()) {
            Ok(()) => {},
            Err(e) => {
                return Err(e);
            },
        }
        match write_bytes_field(out, "secret", &self.secret, true) {
            Ok(()) => {},
            Err(e) => {
                return Err(e);
            },
        }
        match self.extras.write_to(out) {
            Ok(()) => {},
            Err(e) => {
                return Err(e);
            },
        }
        assert(out@ =~= old(out)@ + record_bytes(self@));
        Ok(())
    }

    /// The record as it is written: its starter byte, its label, its stored
    /// secret, its extras. The revealed secret is not written. A record
    /// with a label, a secret, a key or a value of more than 65,535 bytes
    /// cannot be written.
    pub fn to_bytes(&self) -> (out: Result<Vec<u8>, SerializeError>)
        ensures
            match out {
                Ok(bytes) => record_fits(self@) && bytes@ == record_bytes(self@),
                Err(_) => !record_fits(self@),
            },
    {
        let mut bytes: Vec<u8> = Vec::new();
        match self.write_to(&mut bytes) {
            Ok(()) => {
                assert(Seq::<u8>::empty() + record_bytes(self@) =~= record_bytes(self@));
                Ok(bytes)
            },
            Err(e) => Err(e),
        }
    }
}

/// The two names that a record takes for its own are not the same.
pub proof fn lemma_record_fields_differ()
    ensures
        "label"@ != "secret"@,
{
    reveal_strlit("label");
    reveal_strlit("secret");
    assert("label"@.len() == 5 && "secret"@.len() == 6);
}

impl TryFrom<Entries> for Record {
    type Error = ParseError;

    /// The record that the entries make up: `label` and `secret` become the
    /// record's own, the others its extras. A missing or secret `label`,
    /// then a missing or public `secret`, is the error.
    fn try_from(raw_record: Entries) -> (made: Result<Record, ParseError>)
        ensures
            match made {
                Ok(record) => record_from_entries(raw_record@) == Ok::<RecordView, ParseErrorView>(
                    record@,
                ),
                Err(e) => record_from_entries(raw_record@) == Err::<RecordView, ParseErrorView>(
                    e@,
                ),
            },
    {
        let ghost raw = raw_record@;
        let mut raw_record = raw_record;
        proof {
            assert(names_of(REQUIRED_RECORD_FIELDS@) =~= record_public_fields());
            assert(names_of(REQUIRED_RECORD_SECRET_FIELDS@) =~= record_secret_fields());
        }
        match raw_record.require_public(REQUIRED_RECORD_FIELDS.as_slice()) {
            Ok(()) => {},
            Err(e) => {
                return Err(e);
            },
        }
        match raw_record.require_secret(REQUIRED_RECORD_SECRET_FIELDS.as_slice()) {
            Ok(()) => {},
            Err(e) => {
                return Err(e);
            },
        }
        proof {
            lemma_record_fields_differ();
            lemma_public_fields_present(raw, record_public_fields(), 0);
            lemma_secret_fields_present(raw, record_secret_fields(), 0);
            lemma_lookup_remove_other(raw, "label"@, "secret"@);
        }
        let label = match raw_record.remove("label").unwrap().parse_string() {
            Ok(label) => label,
            Err(e) => {
                return Err(e);
            },
        };
        let secret = raw_record.remove("secret").unwrap().take();
        Ok(Record { label, secret, extras: raw_record, revealed_secret: None })
    }
}

impl vstd::std_specs::convert::TryFromSpecImpl<Entries> for Record {
    /// What `try_from` gives is stated in its own contract, over views.
    open spec fn obeys_try_from_spec() -> bool {
        false
    }

    open spec fn try_from_spec(raw_record: Entries) -> Result<Record, ParseError> {
        arbitrary()
    }
}

} // verus!
