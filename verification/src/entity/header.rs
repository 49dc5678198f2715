//! What a container says of itself: its version, the algorithms it was made
//! with, the salts and the digest that the master key is checked against.
use vstd::prelude::*;
use crate::entity::entries::{
    distinct_keys, Entries, EntryView, insert, lemma_lookup_remove_other, lookup, names_of,
    remove,
};

use crate::entity::value::{Value, ValueView, write_bytes_field, write_text_field};
use crate::error::{ParseError, ParseErrorView, SerializeError};
use crate::util::{copy_bytes, push_be32, MAX_PAYLOAD_LENGTH};
use crate::wire::roundtrip::header_storable;
use crate::wire::encode::{
    entries_bytes, header_bytes, header_fits, lemma_field_names_fit, public_field_bytes,
    text_field_bytes,
};
use crate::wire::decode::{header_from_entries, header_public_fields, lemma_public_fields_present};

verus! {

/// How many bytes hold the version.
pub const VERSION_BYTES_LENGTH: usize = 4;

/// The fields that a header must hold as public values, in the order in
/// which they are looked for and written. The version is not among them: it
/// stands once, as the four bytes that open the header.
pub const REQUIRED_HEADER_FIELDS: [&'static str; 6] = ["mkhf", "khf", "mks", "ks", "mkh", "kc"];

/// A [`Header`] as a mathematical value.
pub struct HeaderView {
    /// The version of the layout.
    pub version: u32,
    /// The name of the digest that the master key is checked with.
    pub master_key_hash_fn: Seq<char>,
    /// The name of the digest that the records' key is derived with.
    pub key_hash_fn: Seq<char>,
    /// The digest of the master key followed by `master_key_salt`.
    pub master_key_hash: Seq<u8>,
    /// The name of the cipher that the records are sealed with.
    pub key_cipher: Seq<char>,
    /// What is appended to the master key before it is checked.
    pub master_key_salt: Seq<u8>,
    /// What is appended to the master key before the records' key is
    /// derived from it.
    pub key_salt: Seq<u8>,
    /// The records' key, once the container is unlocked. Never written.
    pub key: Option<Seq<u8>>,
    /// Whatever else is kept with the header.
    pub extras: Seq<EntryView>,
}

impl HeaderView {
    /// The header as a file holds it: without the records' key.
    pub open spec fn at_rest(self) -> HeaderView {
        HeaderView { key: None, ..self }
    }
}

/// The header of a container.
#[derive(Debug)]
pub struct Header {
    version: u32,
    master_key_hash_fn: String,
    key_hash_fn: String,
    master_key_hash: Vec<u8>,
    key_cipher: String,
    master_key_salt: Vec<u8>,
    key_salt: Vec<u8>,
    key: Option<Vec<u8>>,
    extras: Entries,
}

impl View for Header {
    type V = HeaderView;

    closed spec fn view(&self) -> HeaderView {
        HeaderView {
            version: self.version,
            master_key_hash_fn: self.master_key_hash_fn@,
            key_hash_fn: self.key_hash_fn@,
            master_key_hash: self.master_key_hash@,
            key_cipher: self.key_cipher@,
            master_key_salt: self.master_key_salt@,
            key_salt: self.key_salt@,
            key: match self.key {
                Some(key) => Some(key@),
                None => None,
            },
            extras: self.extras@,
        }
    }
}

impl Header {
    /// A header of a locked container.
    pub fn new(
        version: u32,
        master_key_hash_function_name: String,
        key_hash_function_name: String,
        key_cipher: String,
        master_key_hash: &[u8],
        master_key_salt: &[u8],
        key_salt: &[u8],
        extras: Entries,
    ) -> (h: Self)
        ensures
            h@ == (HeaderView {
                version,
                master_key_hash_fn: master_key_hash_function_name@,
                key_hash_fn: key_hash_function_name@,
                master_key_hash: master_key_hash@,
                key_cipher: key_cipher@,
                master_key_salt: master_key_salt@,
                key_salt: key_salt@,
                key: None,
                extras: extras@,
            }),
    {
        Self {
            version,
            master_key_hash_fn: master_key_hash_function_name,
            key_hash_fn: key_hash_function_name,
            key_cipher,
            master_key_hash: copy_bytes(master_key_hash),
            master_key_salt: copy_bytes(master_key_salt),
            key_salt: copy_bytes(key_salt),
            key: None,
            extras,
        }
    }
}

impl Header {
    /// The version as it is written: four bytes, big-endian.
    pub fn version_bytes(&self) -> (bytes: [u8; 4])
        ensures
            bytes@ == crate::util::be32(self@.version),
    {
        let v = self.version;
        let bytes = [
            (v / 0x100_0000) as u8,
            ((v / 0x1_0000) % 256) as u8,
            ((v / 0x100) % 256) as u8,
            (v % 256) as u8,
        ];
        assert(bytes@ =~= crate::util::be32(self@.version));
        bytes
    }

    /// Whether the header can be stored: its names, salts, digest and
    /// extras can be written, and the extras hold none of the six fields
    /// that the header writes itself.
    pub fn is_storable(&self) -> (storable: bool)
        ensures
            storable == header_storable(self@),
    {
        proof {
            let names = names_of(REQUIRED_HEADER_FIELDS@);
            assert(names[0] == "mkhf"@ && names[1] == "khf"@ && names[2] == "mks"@);
            assert(names[3] == "ks"@ && names[4] == "mkh"@ && names[5] == "kc"@);
        }
        self.master_key_hash_fn.as_str().as_bytes().len() <= MAX_PAYLOAD_LENGTH
            && self.key_hash_fn.as_str().as_bytes().len() <= MAX_PAYLOAD_LENGTH
            && self.master_key_salt.len() <= MAX_PAYLOAD_LENGTH && self.key_salt.len()
            <= MAX_PAYLOAD_LENGTH && self.master_key_hash.len() <= MAX_PAYLOAD_LENGTH
            && self.key_cipher.as_str().as_bytes().len() <= MAX_PAYLOAD_LENGTH
            && self.extras.is_storable_beside(REQUIRED_HEADER_FIELDS.as_slice())
    }

    /// Appends the header as it is written.
    pub(crate) fn write_to(&self, out: &mut Vec<u8>) -> (done: Result<(), SerializeError>)
        ensures
            match done {
                Ok(_) => header_fits(self@) && final(out)@ == old(out)@ + header_bytes(self@),
                Err(_) => !header_fits(self@),
            },
    {
        proof {
            lemma_field_names_fit();
        }
        push_be32(out, self.version);
        let ghost h = self@;
        let ghost s0 = old(out)@ + crate::util::be32(h.version);
        assert(out@ == s0);
        match write_text_field(out, "mkhf", self.master_key_hash_fn.as_str()) {
            Ok(()) => {},
            Err(e) => {
                return Err(e);
            },
        }
        let ghost s1 = s0 + text_field_bytes("mkhf"@, h.master_key_hash_fn);
        match write_text_field(out, "khf", self.key_hash_fn.as_str()) {
            Ok(()) => {},
            Err(e) => {
                return Err(e);
            },
        }
        let ghost s2 = s1 + text_field_bytes("khf"@, h.key_hash_fn);
        match write_bytes_field(out, "mks", self.master_key_salt.as_slice(), false) {
            Ok(()) => {},
            Err(e) => {
                return Err(e);
            },
        }
        let ghost s3 = s2 + public_field_bytes("mks"@, h.master_key_salt);
        match write_bytes_field(out, "ks", self.key_salt.as_slice(), false) {
            Ok(()) => {},
            Err(e) => {
                return Err(e);
            },
        }
        let ghost s4 = s3 + public_field_bytes("ks"@, h.key_salt);
        match write_bytes_field(out, "mkh", self.master_key_hash.as_slice(), false) {
            Ok(()) => {},
            Err(e) => {
                return Err(e);
            },
        }
        let ghost s5 = s4 + public_field_bytes("mkh"@, h.master_key_hash);
        match write_text_field(out, "kc", self.key_cipher.as_str()) {
            Ok(()) => {},
            Err(e) => {
                return Err(e);
            },
        }
        let ghost s6 = s5 + text_field_bytes("kc"@, h.key_cipher);
        assert(out@ == s6);
        match self.extras.write_to(out) {
            Ok(()) => {},
            Err(e) => {
                return Err(e);
            },
        }
        proof {
            lemma_header_bytes_joined(old(out)@, h);
        }
        Ok(())
    }

    /// The header as it is written: the version in four bytes, the six
    /// required fields, the extras. The records' key is not written. A
    /// header with a name, a salt, a digest, a key or a value of more than
    /// 65,535 bytes cannot be written.
    pub fn to_bytes(&self) -> (out: Result<Vec<u8>, SerializeError>)
        ensures
            match out {
                Ok(bytes) => header_fits(self@) && bytes@ == header_bytes(self@),
                Err(_) => !header_fits(self@),
            },
    {
        let mut bytes: Vec<u8> = Vec::new();
        match self.write_to(&mut bytes) {
            Ok(()) => {
                assert(Seq::<u8>::empty() + header_bytes(self@) =~= header_bytes(self@));
                Ok(bytes)
            },
            Err(e) => Err(e),
        }
    }

    /// The version of the layout.
    pub fn version(&self) -> (version: u32)
        ensures
            version == self@.version,
    {
        self.version
    }

    /// The name of the digest that the master key is checked with.
    pub fn master_key_hash_fn(&self) -> (name: &String)
        ensures
            name@ == self@.master_key_hash_fn,
    {
        &self.master_key_hash_fn
    }

    /// The digest of the master key followed by the master-key salt.
    pub fn master_key_hash(&self) -> (digest: &Vec<u8>)
        ensures
            digest@ == self@.master_key_hash,
    {
        &self.master_key_hash
    }

    /// What is appended to the master key before it is checked.
    pub fn master_key_salt(&self) -> (salt: &Vec<u8>)
        ensures
            salt@ == self@.master_key_salt,
    {
        &self.master_key_salt
    }

    /// The name of the digest that the records' key is derived with.
    pub fn key_hash_fn(&self) -> (name: &String)
        ensures
            name@ == self@.key_hash_fn,
    {
        &self.key_hash_fn
    }

    /// What is appended to the master key before the records' key is
    /// derived from it.
    pub fn key_salt(&self) -> (salt: &Vec<u8>)
        ensures
            salt@ == self@.key_salt,
    {
        &self.key_salt
    }

    /// The name of the cipher that the records are sealed with.
    pub fn key_cipher(&self) -> (name: &String)
        ensures
            name@ == self@.key_cipher,
    {
        &self.key_cipher
    }

    /// Keeps `key` as the records' key.
    pub fn set_key(&mut self, key: Vec<u8>)
        ensures
            final(self)@ == (HeaderView { key: Some(key@), ..old(self)@ }),
    {
        self.key = Some(key);
    }

    /// The records' key; none before the container is unlocked.
    pub fn get_key(&self) -> (key: Option<&Vec<u8>>)
        ensures
            match key {
                Some(k) => self@.key == Some(k@),
                None => self@.key is None,
            },
    {
        self.key.as_ref()
    }

    /// Keeps `value` with the header under `key`, in the place of what
    /// stood there before.
    pub fn add_extra(&mut self, key: &str, value: &[u8], is_secret: bool)
        ensures
            final(self)@ == (HeaderView {
                extras: insert(old(self)@.extras, key@, ValueView { bytes: value@, is_secret }),
                ..old(self)@
            }),
            distinct_keys(final(self)@.extras),
    {
        self.extras.insert(key.to_owned(), Value::new(value, is_secret));
    }

    /// What is kept with the header under `key`.
    pub fn get_extra(&self, key: &str) -> (found: Option<&Value>)
        ensures
            match found {
                Some(v) => lookup(self@.extras, key@) == Some(v@),
                None => lookup(self@.extras, key@) is None,
            },
    {
        self.extras.get(key)
    }

    /// Gives the header another version.
    pub fn set_version(&mut self, version: u32)
        ensures
            final(self)@ == (HeaderView { version, ..old(self)@ }),
    {
        self.version = version;
    }
}

/// The bytes of a header, written piece by piece behind `before`, are the
/// header's bytes behind `before`.
proof fn lemma_header_bytes_joined(before: Seq<u8>, h: HeaderView)
    ensures
        before + crate::util::be32(h.version) + text_field_bytes("mkhf"@, h.master_key_hash_fn)
            + text_field_bytes("khf"@, h.key_hash_fn) + public_field_bytes(
            "mks"@,
            h.master_key_salt,
        ) + public_field_bytes("ks"@, h.key_salt) + public_field_bytes("mkh"@, h.master_key_hash)
            + text_field_bytes("kc"@, h.key_cipher) + entries_bytes(h.extras) == before
            + header_bytes(h),
{
    let a = crate::util::be32(h.version);
    let b = text_field_bytes("mkhf"@, h.master_key_hash_fn);
    let c = text_field_bytes("khf"@, h.key_hash_fn);
    let d = public_field_bytes("mks"@, h.master_key_salt);
    let e = public_field_bytes("ks"@, h.key_salt);
    let f = public_field_bytes("mkh"@, h.master_key_hash);
    let g = text_field_bytes("kc"@, h.key_cipher);
    let x = entries_bytes(h.extras);
    assert(before + a + b + c + d + e + f + g + x =~= before + (a + b + c + d + e + f + g + x));
}

/// No two of the names that a header takes for its own are the same.
pub proof fn lemma_header_fields_differ()
    ensures
        "mkhf"@ != "khf"@,
        "mkhf"@ != "kc"@,
        "mkhf"@ != "mks"@,
        "mkhf"@ != "ks"@,
        "mkhf"@ != "mkh"@,
        "khf"@ != "kc"@,
        "khf"@ != "mks"@,
        "khf"@ != "ks"@,
        "khf"@ != "mkh"@,
        "kc"@ != "mks"@,
        "kc"@ != "ks"@,
        "kc"@ != "mkh"@,
        "mks"@ != "ks"@,
        "mks"@ != "mkh"@,
        "ks"@ != "mkh"@,
{
    reveal_strlit("mkhf");
    reveal_strlit("khf");
    reveal_strlit("mks");
    reveal_strlit("ks");
    reveal_strlit("mkh");
    reveal_strlit("kc");
    assert("mkhf"@.len() == 4 && "khf"@.len() == 3 && "kc"@.len() == 2);
    assert("mks"@.len() == 3 && "ks"@.len() == 2 && "mkh"@.len() == 3);
    assert("khf"@[0] == 'k' && "mks"@[0] == 'm' && "mkh"@[0] == 'm');
    assert("mks"@[2] == 's' && "mkh"@[2] == 'h');
    assert("kc"@[1] == 'c' && "ks"@[1] == 's');
}

impl TryFrom<Entries> for Header {
    type Error = ParseError;

    /// The header that the entries make up, with version 0: the six
    /// required fields become the header's own, the others its extras. The
    /// first required field that is missing or secret is the error.
    fn try_from(raw_header: Entries) -> (made: Result<Header, ParseError>)
        ensures
            match made {
                Ok(header) => header_from_entries(raw_header@, 0) == Ok::<
                    HeaderView,
                    ParseErrorView,
                >(header@),
                Err(e) => header_from_entries(raw_header@, 0) == Err::<HeaderView, ParseErrorView>(
                    e@,
                ),
            },
    {
        let ghost raw = raw_header@;
        let mut raw_header = raw_header;
        proof {
            assert(names_of(REQUIRED_HEADER_FIELDS@) =~= header_public_fields());
        }
        match raw_header.require_public(REQUIRED_HEADER_FIELDS.as_slice()) {
            Ok(()) => {},
            Err(e) => {
                return Err(e);
            },
        }
        proof {
            lemma_header_fields_differ();
            let names = header_public_fields();
            lemma_public_fields_present(raw, names, 0);
            lemma_public_fields_present(raw, names, 1);
            lemma_public_fields_present(raw, names, 2);
            lemma_public_fields_present(raw, names, 3);
            lemma_public_fields_present(raw, names, 4);
            lemma_public_fields_present(raw, names, 5);
            let r1 = remove(raw, "mkhf"@);
            let r2 = remove(r1, "khf"@);
            let r3 = remove(r2, "mks"@);
            let r4 = remove(r3, "ks"@);
            let r5 = remove(r4, "mkh"@);
            lemma_lookup_remove_other(raw, "mkhf"@, "khf"@);
            lemma_lookup_remove_other(raw, "mkhf"@, "mks"@);
            lemma_lookup_remove_other(raw, "mkhf"@, "ks"@);
            lemma_lookup_remove_other(raw, "mkhf"@, "mkh"@);
            lemma_lookup_remove_other(raw, "mkhf"@, "kc"@);
            lemma_lookup_remove_other(r1, "khf"@, "mks"@);
            lemma_lookup_remove_other(r1, "khf"@, "ks"@);
            lemma_lookup_remove_other(r1, "khf"@, "mkh"@);
            lemma_lookup_remove_other(r1, "khf"@, "kc"@);
            lemma_lookup_remove_other(r2, "mks"@, "ks"@);
            lemma_lookup_remove_other(r2, "mks"@, "mkh"@);
            lemma_lookup_remove_other(r2, "mks"@, "kc"@);
            lemma_lookup_remove_other(r3, "ks"@, "mkh"@);
            lemma_lookup_remove_other(r3, "ks"@, "kc"@);
            lemma_lookup_remove_other(r4, "mkh"@, "kc"@);
        }
        let master_key_hash_fn = match raw_header.remove("mkhf").unwrap().parse_string() {
            Ok(name) => name,
            Err(e) => {
                return Err(e);
            },
        };
        let key_hash_fn = match raw_header.remove("khf").unwrap().parse_string() {
            Ok(name) => name,
            Err(e) => {
                return Err(e);
            },
        };
        let master_key_salt = copy_bytes(raw_header.remove("mks").unwrap().inner());
        let key_salt = copy_bytes(raw_header.remove("ks").unwrap().inner());
        let master_key_hash = copy_bytes(raw_header.remove("mkh").unwrap().inner());
        let key_cipher = match raw_header.remove("kc").unwrap().parse_string() {
            Ok(name) => name,
            Err(e) => {
                return Err(e);
            },
        };
        Ok(
            Header {
                version: 0,
                master_key_hash_fn,
                key_hash_fn,
                master_key_hash,
                key_cipher,
                master_key_salt,
                key_salt,
                key: None,
                extras: raw_header,
            },
        )
    }
}

impl vstd::std_specs::convert::TryFromSpecImpl<Entries> for Header {
    /// What `try_from` gives is stated in its own contract, over views.
    open spec fn obeys_try_from_spec() -> bool {
        false
    }

    open spec fn try_from_spec(raw_header: Entries) -> Result<Header, ParseError> {
        arbitrary()
    }
}

} // verus!
