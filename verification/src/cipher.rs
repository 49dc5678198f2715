//! Authenticated ciphers, and the registry that binds the names written in
//! a container to them.
use vstd::prelude::*;
use aes_gcm::aead::Aead;
use aes_gcm::KeyInit;
use crate::entity::entries::{Entries, EntryView, lookup};
use crate::error::{CipherError, CipherErrorView};
use crate::registry::{bound, bound_once, rebind, Bindings};

verus! {

/// What a cipher gives: its output, or the reason why it gave none.
pub type CipherResult<T> = Result<T, CipherError>;

/// How many bytes a key of AES-256-GCM has.
pub const AES_GCM_KEY_LENGTH: usize = 32;

/// How many bytes a nonce of AES-256-GCM has.
pub const AES_GCM_NONCE_LENGTH: usize = 12;

/// How many bytes the tag has that AES-256-GCM puts behind the ciphertext.
pub const AES_GCM_TAG_LENGTH: usize = 16;

/// How many bytes the longest plaintext has that AES-256-GCM encrypts.
pub const AES_GCM_MAX_PLAINTEXT_LENGTH: u64 = 0x10_0000_0000;

/// The ciphertext, tag behind it, that AES-256-GCM gives for `plaintext`
/// under `key` and `nonce` with no associated data, as the `aes-gcm` crate
/// computes it; `None` where the crate refuses the plaintext.
pub uninterp spec fn aes256_gcm_sealed(key: Seq<u8>, nonce: Seq<u8>, plaintext: Seq<u8>) -> Option<
    Seq<u8>,
>;

/// The plaintext that AES-256-GCM gives for `ciphertext` under `key` and
/// `nonce` with no associated data, as the `aes-gcm` crate computes it;
/// `None` where the ciphertext does not authenticate.
pub uninterp spec fn aes256_gcm_opened(key: Seq<u8>, nonce: Seq<u8>, ciphertext: Seq<u8>) -> Option<
    Seq<u8>,
>;

/// Encrypts `plaintext` with AES-256-GCM.
///
/// Calls `Aes256Gcm::new` and `Aead::encrypt` of the `aes-gcm` crate. The
/// result depends on the three byte strings alone; what it is, is taken
/// from the crate and not proved here. So is that the crate refuses a
/// plaintext exactly when it is longer than its `P_MAX`, 2^36 bytes, and
/// that it puts its tag of 16 bytes behind a ciphertext as long as the
/// plaintext. The crate panics on a key or a nonce of another length, which
/// the precondition leaves out.
#[verifier::external_body]
fn aes256_gcm_seal(key: &[u8], nonce: &[u8], plaintext: &[u8]) -> (sealed: Option<Vec<u8>>)
    requires
        key@.len() == AES_GCM_KEY_LENGTH,
        nonce@.len() == AES_GCM_NONCE_LENGTH,
    ensures
        match sealed {
            Some(ciphertext) => aes256_gcm_sealed(key@, nonce@, plaintext@) == Some(ciphertext@)
                && ciphertext@.len() == plaintext@.len() + AES_GCM_TAG_LENGTH,
            None => aes256_gcm_sealed(key@, nonce@, plaintext@) is None,
        },
        sealed is Some <==> plaintext@.len() <= AES_GCM_MAX_PLAINTEXT_LENGTH,
{
    let cipher = aes_gcm::Aes256Gcm::new(aes_gcm::Key::<aes_gcm::Aes256Gcm>::from_slice(key));
    cipher.encrypt(aes_gcm::Nonce::from_slice(nonce), plaintext).ok()
}

/// Decrypts `ciphertext` with AES-256-GCM.
///
/// Calls `Aes256Gcm::new` and `Aead::decrypt` of the `aes-gcm` crate. The
/// result depends on the three byte strings alone; what it is, is taken
/// from the crate and not proved here, and so is that decrypting what the
/// crate encrypted under the same key and nonce gives the plaintext back.
/// The crate panics on a key or a nonce of another length, which the
/// precondition leaves out.
#[verifier::external_body]
fn aes256_gcm_open(key: &[u8], nonce: &[u8], ciphertext: &[u8]) -> (opened: Option<Vec<u8>>)
    requires
        key@.len() == AES_GCM_KEY_LENGTH,
        nonce@.len() == AES_GCM_NONCE_LENGTH,
    ensures
        match opened {
            Some(plaintext) => aes256_gcm_opened(key@, nonce@, ciphertext@) == Some(plaintext@),
            None => aes256_gcm_opened(key@, nonce@, ciphertext@) is None,
        },
        forall|plaintext: Seq<u8>| #[trigger]
            aes256_gcm_sealed(key@, nonce@, plaintext) == Some(ciphertext@) ==> (match opened {
                Some(found) => found@ == plaintext,
                None => false,
            }),
{
    let cipher = aes_gcm::Aes256Gcm::new(aes_gcm::Key::<aes_gcm::Aes256Gcm>::from_slice(key));
    cipher.decrypt(aes_gcm::Nonce::from_slice(nonce), ciphertext).ok()
}

/// What [`aes_encrypt`] gives for `data` under `key` with the extras
/// `extras`.
pub open spec fn aes_encrypted(data: Seq<u8>, key: Seq<u8>, extras: Seq<EntryView>) -> Result<
    Seq<u8>,
    CipherErrorView,
> {
    match lookup(extras, "nonce"@) {
        None => Err(CipherErrorView::MissingRequiredExtra("nonce"@)),
        Some(nonce) => {
            if key.len() != AES_GCM_KEY_LENGTH || nonce.bytes.len() != AES_GCM_NONCE_LENGTH {
                Err(CipherErrorView::EncryptionError)
            } else {
                match aes256_gcm_sealed(key, nonce.bytes, data) {
                    Some(ciphertext) => Ok(ciphertext),
                    None => Err(CipherErrorView::EncryptionError),
                }
            }
        },
    }
}

/// What [`aes_decrypt`] gives for `data` under `key` with the extras
/// `extras`.
pub open spec fn aes_decrypted(data: Seq<u8>, key: Seq<u8>, extras: Seq<EntryView>) -> Result<
    Seq<u8>,
    CipherErrorView,
> {
    match lookup(extras, "nonce"@) {
        None => Err(CipherErrorView::MissingRequiredExtra("nonce"@)),
        Some(nonce) => {
            if key.len() != AES_GCM_KEY_LENGTH || nonce.bytes.len() != AES_GCM_NONCE_LENGTH {
                Err(CipherErrorView::EncryptionError)
            } else {
                match aes256_gcm_opened(key, nonce.bytes, data) {
                    Some(plaintext) => Ok(plaintext),
                    None => Err(CipherErrorView::EncryptionError),
                }
            }
        },
    }
}

/// Whether [`aes_encrypt`] gives a ciphertext for `data` under `key` with
/// the extras `extras`: the extra `nonce` is there and has 12 bytes, the
/// key has 32, and the data is not longer than 2^36 bytes.
pub open spec fn aes_can_encrypt(data: Seq<u8>, key: Seq<u8>, extras: Seq<EntryView>) -> bool {
    &&& lookup(extras, "nonce"@) matches Some(nonce) && nonce.bytes.len() == AES_GCM_NONCE_LENGTH
    &&& key.len() == AES_GCM_KEY_LENGTH
    &&& data.len() <= AES_GCM_MAX_PLAINTEXT_LENGTH
}

/// Whether an exec result of a cipher is `expected`.
pub open spec fn cipher_result_is(
    got: CipherResult<Vec<u8>>,
    expected: Result<Seq<u8>, CipherErrorView>,
) -> bool {
    match got {
        Ok(bytes) => expected == Ok::<Seq<u8>, CipherErrorView>(bytes@),
        Err(e) => expected == Err::<Seq<u8>, CipherErrorView>(e@),
    }
}

/// Encrypts `data` with AES-256-GCM under `key` and the nonce that stands
/// under `nonce` in `extras`. Without that extra the call fails with
/// `MissingRequiredExtra`; with a key that has not 32 bytes, a nonce that
/// has not 12, or data of more than 2^36 bytes, with `EncryptionError`.
/// Otherwise it gives the ciphertext, 16 bytes longer than the data.
pub fn aes_encrypt(data: &[u8], key: &[u8], extras: &Entries) -> (encrypted: CipherResult<Vec<u8>>)
    ensures
        cipher_result_is(encrypted, aes_encrypted(data@, key@, extras@)),
        encrypted is Ok <==> aes_can_encrypt(data@, key@, extras@),
        encrypted matches Ok(ciphertext) ==> ciphertext@.len() == data@.len() + AES_GCM_TAG_LENGTH,
{
    let nonce = match extras.get("nonce") {
        Some(nonce) => nonce,
        None => {
            return Err(CipherError::MissingRequiredExtra("nonce".to_owned()));
        },
    };
    if key.len() != AES_GCM_KEY_LENGTH || nonce.inner().len() != AES_GCM_NONCE_LENGTH {
        return Err(CipherError::EncryptionError);
    }
    match aes256_gcm_seal(key, nonce.inner(), data) {
        Some(ciphertext) => Ok(ciphertext),
        None => Err(CipherError::EncryptionError),
    }
}

/// Decrypts `data` with AES-256-GCM under `key` and the nonce that stands
/// under `nonce` in `extras`. Without that extra the call fails with
/// `MissingRequiredExtra`; with a key that has not 32 bytes, a nonce that
/// has not 12, or data that does not authenticate, with `EncryptionError`.
pub fn aes_decrypt(data: &[u8], key: &[u8], extras: &Entries) -> (decrypted: CipherResult<Vec<u8>>)
    ensures
        cipher_result_is(decrypted, aes_decrypted(data@, key@, extras@)),
        forall|plaintext: Seq<u8>| #[trigger]
            aes_encrypted(plaintext, key@, extras@) == Ok::<Seq<u8>, CipherErrorView>(data@)
                ==> aes_decrypted(data@, key@, extras@) == Ok::<Seq<u8>, CipherErrorView>(
                plaintext,
            ),
{
    let nonce = match extras.get("nonce") {
        Some(nonce) => nonce,
        None => {
            return Err(CipherError::MissingRequiredExtra("nonce".to_owned()));
        },
    };
    if key.len() != AES_GCM_KEY_LENGTH || nonce.inner().len() != AES_GCM_NONCE_LENGTH {
        return Err(CipherError::EncryptionError);
    }
    match aes256_gcm_open(key, nonce.inner(), data) {
        Some(plaintext) => Ok(plaintext),
        None => Err(CipherError::EncryptionError),
    }
}

/// An encryption that a container can name.
#[derive(Debug, Clone, Copy, PartialEq, Eq, Structural)]
pub enum EncryptFn {
    /// AES-256-GCM, with its nonce in the extra `nonce`.
    AesGcm,
}

/// A decryption that a container can name.
#[derive(Debug, Clone, Copy, PartialEq, Eq, Structural)]
pub enum DecryptFn {
    /// AES-256-GCM, with its nonce in the extra `nonce`.
    AesGcm,
}

/// An encryption and the decryption that undoes it.
pub type Cipher = (EncryptFn, DecryptFn);

impl EncryptFn {
    /// What this encryption gives for `data` under `key` with the extras
    /// `extras`.
    pub open spec fn encrypted(self, data: Seq<u8>, key: Seq<u8>, extras: Seq<EntryView>) -> Result<
        Seq<u8>,
        CipherErrorView,
    > {
        match self {
            EncryptFn::AesGcm => aes_encrypted(data, key, extras),
        }
    }

    /// Whether this encryption gives a ciphertext for `data` under `key`
    /// with the extras `extras`.
    pub open spec fn can_encrypt(
        self,
        data: Seq<u8>,
        key: Seq<u8>,
        extras: Seq<EntryView>,
    ) -> bool {
        match self {
            EncryptFn::AesGcm => aes_can_encrypt(data, key, extras),
        }
    }

    /// How many bytes longer than the data a ciphertext of this encryption
    /// is.
    pub open spec fn overhead(self) -> nat {
        match self {
            EncryptFn::AesGcm => AES_GCM_TAG_LENGTH as nat,
        }
    }

    /// Encrypts `data` under `key`, with what the cipher needs besides
    /// taken from `extras`.
    pub fn encrypt(&self, data: &[u8], key: &[u8], extras: &Entries) -> (encrypted: CipherResult<
        Vec<u8>,
    >)
        ensures
            cipher_result_is(encrypted, self.encrypted(data@, key@, extras@)),
            encrypted is Ok <==> self.can_encrypt(data@, key@, extras@),
            encrypted matches Ok(ciphertext) ==> ciphertext@.len() == data@.len() + self.overhead(),
    {
        match self {
            EncryptFn::AesGcm => aes_encrypt(data, key, extras),
        }
    }

    /// The decryption that undoes this encryption.
    pub fn inverse(&self) -> (decrypt: DecryptFn)
        ensures
            decrypt == self.spec_inverse(),
    {
        match self {
            EncryptFn::AesGcm => DecryptFn::AesGcm,
        }
    }

    /// The decryption that undoes this encryption.
    pub open spec fn spec_inverse(self) -> DecryptFn {
        match self {
            EncryptFn::AesGcm => DecryptFn::AesGcm,
        }
    }
}

impl DecryptFn {
    /// What this decryption gives for `data` under `key` with the extras
    /// `extras`.
    pub open spec fn decrypted(self, data: Seq<u8>, key: Seq<u8>, extras: Seq<EntryView>) -> Result<
        Seq<u8>,
        CipherErrorView,
    > {
        match self {
            DecryptFn::AesGcm => aes_decrypted(data, key, extras),
        }
    }

    /// Decrypts `data` under `key`, with what the cipher needs besides
    /// taken from `extras`. What the matching encryption made of a
    /// plaintext under the same key and extras is decrypted to that
    /// plaintext.
    pub fn decrypt(&self, data: &[u8], key: &[u8], extras: &Entries) -> (decrypted: CipherResult<
        Vec<u8>,
    >)
        ensures
            cipher_result_is(decrypted, self.decrypted(data@, key@, extras@)),
            forall|encrypt: EncryptFn, plaintext: Seq<u8>|
                encrypt.spec_inverse() == *self && #[trigger] encrypt.encrypted(
                    plaintext,
                    key@,
                    extras@,
                ) == Ok::<Seq<u8>, CipherErrorView>(data@) ==> self.decrypted(data@, key@, extras@)
                    == Ok::<Seq<u8>, CipherErrorView>(plaintext),
    {
        match self {
            DecryptFn::AesGcm => aes_decrypt(data, key, extras),
        }
    }
}

/// A [`CipherRegistry`] as a mathematical value: the bindings of names to
/// encryptions and to decryptions, each name bound once on either side, in
/// the order in which the names were first bound.
pub struct CipherRegistryView {
    pub encrypt_functions: Seq<(Seq<char>, EncryptFn)>,
    pub decrypt_functions: Seq<(Seq<char>, DecryptFn)>,
}

/// The ciphers that containers may name.
#[derive(Debug)]
pub struct CipherRegistry {
    encrypt_functions: Bindings<EncryptFn>,
    decrypt_functions: Bindings<DecryptFn>,
}

impl View for CipherRegistry {
    type V = CipherRegistryView;

    closed spec fn view(&self) -> CipherRegistryView {
        CipherRegistryView {
            encrypt_functions: self.encrypt_functions@,
            decrypt_functions: self.decrypt_functions@,
        }
    }
}

impl CipherRegistry {
    /// A registry that knows no name.
    pub fn new() -> (registry: Self)
        ensures
            registry@ == (CipherRegistryView {
                encrypt_functions: Seq::empty(),
                decrypt_functions: Seq::empty(),
            }),
    {
        Self { encrypt_functions: Bindings::new(), decrypt_functions: Bindings::new() }
    }

    /// Binds `name` to an encryption and a decryption, in the place of what
    /// was bound to that name before. What is bound to the other names
    /// stays.
    pub fn register(&mut self, name: &str, encrypt_fn: EncryptFn, decrypt_fn: DecryptFn)
        ensures
            final(self)@ == (CipherRegistryView {
                encrypt_functions: rebind(old(self)@.encrypt_functions, name@, encrypt_fn),
                decrypt_functions: rebind(old(self)@.decrypt_functions, name@, decrypt_fn),
            }),
            bound_once(final(self)@.encrypt_functions),
            bound_once(final(self)@.decrypt_functions),
            bound(final(self)@.encrypt_functions, name@) == Some(encrypt_fn),
            bound(final(self)@.decrypt_functions, name@) == Some(decrypt_fn),
            forall|other: Seq<char>|
                other != name@ ==> bound(final(self)@.encrypt_functions, other) == bound(
                    old(self)@.encrypt_functions,
                    other,
                ) && bound(final(self)@.decrypt_functions, other) == bound(
                    old(self)@.decrypt_functions,
                    other,
                ),
    {

        self.encrypt_functions.bind(name, encrypt_fn);
        self.decrypt_functions.bind(name, decrypt_fn);
    }

    /// Binds `name` to an encryption alone, in the place of the encryption
    /// that was bound to that name before.
    pub fn register_encipher(&mut self, name: &str, encrypt_fn: EncryptFn)
        ensures
            final(self)@ == (CipherRegistryView {
                encrypt_functions: rebind(old(self)@.encrypt_functions, name@, encrypt_fn),
                ..old(self)@
            }),
            bound_once(final(self)@.encrypt_functions),
            bound(final(self)@.encrypt_functions, name@) == Some(encrypt_fn),
            forall|other: Seq<char>|
                other != name@ ==> bound(final(self)@.encrypt_functions, other) == bound(
                    old(self)@.encrypt_functions,
                    other,
                ),
    {
        self.encrypt_functions.bind(name, encrypt_fn);
    }

    /// Binds `name` to a decryption alone, in the place of the decryption
    /// that was bound to that name before.
    pub fn register_decipher(&mut self, name: &str, decrypt_fn: DecryptFn)
        ensures
            final(self)@ == (CipherRegistryView {
                decrypt_functions: rebind(old(self)@.decrypt_functions, name@, decrypt_fn),
                ..old(self)@
            }),
            bound_once(final(self)@.decrypt_functions),
            bound(final(self)@.decrypt_functions, name@) == Some(decrypt_fn),
            forall|other: Seq<char>|
                other != name@ ==> bound(final(self)@.decrypt_functions, other) == bound(
                    old(self)@.decrypt_functions,
                    other,
                ),
    {
        self.decrypt_functions.bind(name, decrypt_fn);
    }

    /// The encryption bound to `name`, if the registry knows the name.
    pub fn get_encryptor(&self, name: &str) -> (found: Option<EncryptFn>)
        ensures
            found == bound(self@.encrypt_functions, name@),
    {
        self.encrypt_functions.find(name)
    }

    /// The decryption bound to `name`, if the registry knows the name.
    pub fn get_decryptor(&self, name: &str) -> (found: Option<DecryptFn>)
        ensures
            found == bound(self@.decrypt_functions, name@),
    {
        self.decrypt_functions.find(name)
    }

    /// The names that are bound to an encryption, each once, in the order
    /// in which they were first bound.
    pub fn get_names(&self) -> (names: Vec<&String>)
        ensures
            bound_once(self@.encrypt_functions),
            names@.len() == self@.encrypt_functions.len(),
            forall|i: int|
                0 <= i < names@.len() ==> (#[trigger] names@[i])@ == self@.encrypt_functions[i].0,
            forall|i: int, j: int|
                0 <= i < j < names@.len() ==> (#[trigger] names@[i])@ != (#[trigger] names@[j])@,
    {
        self.encrypt_functions.names()
    }
}

impl Default for CipherRegistry {
    /// The registry that knows `aes-gcm`.
    fn default() -> (registry: Self)
        ensures
            registry@ == (CipherRegistryView {
                encrypt_functions: seq![("aes-gcm"@, EncryptFn::AesGcm)],
                decrypt_functions: seq![("aes-gcm"@, DecryptFn::AesGcm)],
            }),
    {
        let mut registry = CipherRegistry::new();
        registry.register("aes-gcm", EncryptFn::AesGcm, DecryptFn::AesGcm);
        assert(registry@.encrypt_functions =~= seq![("aes-gcm"@, EncryptFn::AesGcm)]);
        assert(registry@.decrypt_functions =~= seq![("aes-gcm"@, DecryptFn::AesGcm)]);
        registry
    }
}

} // verus!
