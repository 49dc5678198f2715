//! The container: a header, the root of the tree, and the registries that
//! say what the names in the header stand for.
use vstd::prelude::*;
use crate::cipher::{CipherRegistry, CipherRegistryView};
use crate::entity::collection::{tallest, Collection, CollectionView};
use crate::entity::entries::{Entries, insert, lookup};
use crate::entity::header::{Header, HeaderView};
use crate::entity::value::{Value, ValueView};
use crate::error::SerializeError;
use crate::hash::{HashFunction, HashFunctionRegistry};
use crate::registry::bound;
use crate::util::{bytes_eq, copy_bytes, MAGIC_NUMBER, push_bytes};
use crate::wire::decode::MAX_DEPTH;
use crate::wire::encode::{container_bytes, container_fits, payload_fits, text_fits};
use crate::wire::roundtrip::container_storable;

verus! {

/// A [`Swd`] as a mathematical value.
pub struct SwdView {
    pub header: HeaderView,
    pub root: CollectionView,
    pub cipher_registry: CipherRegistryView,
    pub hash_function_registry: Seq<(Seq<char>, HashFunction)>,
}

impl SwdView {
    /// Whether `master_key` is the master key of the container: the digest
    /// that the header names for the master key is known, and the digest of
    /// the key followed by the master-key salt is the stored one.
    pub open spec fn accepts(self, master_key: Seq<u8>) -> bool {
        match bound(self.hash_function_registry, self.header.master_key_hash_fn) {
            Some(hash) => hash.digest(master_key + self.header.master_key_salt)
                == self.header.master_key_hash,
            None => false,
        }
    }

    /// The records' key that `master_key` gives: the digest, under the
    /// function that the header names for the records' key, of the master
    /// key followed by the key salt. None where that name is not known.
    pub open spec fn derived_key(self, master_key: Seq<u8>) -> Option<Seq<u8>> {
        match bound(self.hash_function_registry, self.header.key_hash_fn) {
            Some(hash) => Some(hash.digest(master_key + self.header.key_salt)),
            None => None,
        }
    }

    /// Whether `master_key` unlocks the container.
    pub open spec fn unlocks_with(self, master_key: Seq<u8>) -> bool {
        self.accepts(master_key) && self.derived_key(master_key) is Some
    }

    /// The container after an attempt to unlock it with `master_key`: with
    /// the derived key in the header where the master key unlocks it, as it
    /// was where not.
    pub open spec fn after_unlock(self, master_key: Seq<u8>) -> SwdView {
        if self.unlocks_with(master_key) {
            SwdView {
                header: HeaderView { key: self.derived_key(master_key), ..self.header },
                ..self
            }
        } else {
            self
        }
    }
}

/// Unlocking again with the same master key changes nothing: it succeeds
/// if it succeeded before and leaves the same key in the header. A failed
/// attempt leaves the container as it was, whatever its key slot held.
pub proof fn lemma_unlock_is_idempotent(swd: SwdView, master_key: Seq<u8>)
    ensures
        swd.after_unlock(master_key).unlocks_with(master_key) == swd.unlocks_with(master_key),
        swd.after_unlock(master_key).after_unlock(master_key) == swd.after_unlock(master_key),
        !swd.unlocks_with(master_key) ==> swd.after_unlock(master_key) == swd,
        swd.unlocks_with(master_key) ==> swd.after_unlock(master_key).header.key == Some(
            bound(swd.hash_function_registry, swd.header.key_hash_fn).unwrap().digest(
                master_key + swd.header.key_salt,
            ),
        ),
{
}

/// Whether the registries know the three names that a header gives: the
/// two digests and, for encrypting and for decrypting, the cipher.
pub open spec fn names_are_known(
    cipher_registry: CipherRegistryView,
    hash_function_registry: Seq<(Seq<char>, HashFunction)>,
    master_key_hash_fn: Seq<char>,
    key_hash_fn: Seq<char>,
    key_cipher: Seq<char>,
) -> bool {
    &&& bound(hash_function_registry, master_key_hash_fn) is Some
    &&& bound(hash_function_registry, key_hash_fn) is Some
    &&& bound(cipher_registry.encrypt_functions, key_cipher) is Some
    &&& bound(cipher_registry.decrypt_functions, key_cipher) is Some
}

/// Whether what a new container is made of can be written: the label of
/// its root collection, the three names and the two salts.
pub open spec fn new_container_fits(
    root_label: Seq<char>,
    master_key_hash_fn: Seq<char>,
    key_hash_fn: Seq<char>,
    key_cipher: Seq<char>,
    master_key_salt: Seq<u8>,
    key_salt: Seq<u8>,
) -> bool {
    &&& text_fits(root_label)
    &&& text_fits(master_key_hash_fn)
    &&& text_fits(key_hash_fn)
    &&& text_fits(key_cipher)
    &&& payload_fits(master_key_salt)
    &&& payload_fits(key_salt)
}

/// A container with no extras, an empty root collection and a digest that
/// can be written can be stored exactly when its label, names and salts
/// can be written.
pub proof fn lemma_new_container_storable(
    version: u32,
    root_label: Seq<char>,
    master_key_hash_fn: Seq<char>,
    key_hash_fn: Seq<char>,
    key_cipher: Seq<char>,
    master_key_hash: Seq<u8>,
    master_key_salt: Seq<u8>,
    key_salt: Seq<u8>,
)
    requires
        payload_fits(master_key_hash),
    ensures
        container_storable(
            HeaderView {
                version,
                master_key_hash_fn,
                key_hash_fn,
                master_key_hash,
                key_cipher,
                master_key_salt,
                key_salt,
                key: None,
                extras: Seq::empty(),
            },
            CollectionView {
                label: root_label,
                children: Seq::empty(),
                records: Seq::empty(),
                extras: Seq::empty(),
            },
        ) == new_container_fits(
            root_label,
            master_key_hash_fn,
            key_hash_fn,
            key_cipher,
            master_key_salt,
            key_salt,
        ),
{
    let root = CollectionView {
        label: root_label,
        children: Seq::empty(),
        records: Seq::empty(),
        extras: Seq::empty(),
    };
    assert(tallest(root.children) == 0);
    assert(root.height() == 1);
}

/// How many bytes a master key must be longer than, to be taken for a new
/// container.
pub const SHORTEST_MASTER_KEY: usize = 8;

/// Whether `master_key` is long enough to be taken for a new container:
/// longer than [`SHORTEST_MASTER_KEY`] bytes.
pub fn master_key_is_long_enough(master_key: &[u8]) -> (long: bool)
    ensures
        long == (master_key@.len() > SHORTEST_MASTER_KEY),
{
    master_key.len() > SHORTEST_MASTER_KEY
}

/// A container: the header, the root collection and the registries of the
/// ciphers and digests that the header may name.
#[derive(Debug)]
pub struct Swd {
    header: Header,
    root: Collection,
    cipher_registry: CipherRegistry,
    hash_function_registry: HashFunctionRegistry,
}

impl View for Swd {
    type V = SwdView;

    closed spec fn view(&self) -> SwdView {
        SwdView {
            header: self.header@,
            root: self.root@,
            cipher_registry: self.cipher_registry@,
            hash_function_registry: self.hash_function_registry@,
        }
    }
}

impl Swd {
    /// A container with the header `header` and an empty root collection
    /// named `root_label`.
    pub fn new(
        header: Header,
        root_label: String,
        cipher_registry: CipherRegistry,
        hash_function_registry: HashFunctionRegistry,
    ) -> (swd: Self)
        ensures
            swd@ == (SwdView {
                header: header@,
                root: CollectionView {
                    label: root_label@,
                    children: Seq::empty(),
                    records: Seq::empty(),
                    extras: Seq::empty(),
                },
                cipher_registry: cipher_registry@,
                hash_function_registry: hash_function_registry@,
            }),
    {
        Self { header, root: Collection::new(root_label), cipher_registry, hash_function_registry }
    }

    /// A new, locked container for the master key `master_key`: its header
    /// names the three algorithms and holds the two salts and the digest of
    /// the master key followed by the master-key salt; its root collection
    /// is empty and named `root_label`. There is none where a registry does
    /// not know one of the names.
    pub fn create(
        version: u32,
        root_label: String,
        master_key: &[u8],
        master_key_hash_fn: &str,
        key_hash_fn: &str,
        key_cipher: &str,
        master_key_salt: &[u8],
        key_salt: &[u8],
        cipher_registry: CipherRegistry,
        hash_function_registry: HashFunctionRegistry,
    ) -> (created: Option<Self>)
        ensures
            match created {
                Some(swd) => bound(hash_function_registry@, master_key_hash_fn@) matches Some(hash)
                    && swd@ == (SwdView {
                    header: HeaderView {
                        version,
                        master_key_hash_fn: master_key_hash_fn@,
                        key_hash_fn: key_hash_fn@,
                        master_key_hash: hash.digest(master_key@ + master_key_salt@),
                        key_cipher: key_cipher@,
                        master_key_salt: master_key_salt@,
                        key_salt: key_salt@,
                        key: None,
                        extras: Seq::empty(),
                    },
                    root: CollectionView {
                        label: root_label@,
                        children: Seq::empty(),
                        records: Seq::empty(),
                        extras: Seq::empty(),
                    },
                    cipher_registry: cipher_registry@,
                    hash_function_registry: hash_function_registry@,
                }) && swd@.unlocks_with(master_key@) && swd@.header.master_key_hash.len()
                    == hash.digest_length() && container_storable(swd@.header, swd@.root)
                    == new_container_fits(
                    root_label@,
                    master_key_hash_fn@,
                    key_hash_fn@,
                    key_cipher@,
                    master_key_salt@,
                    key_salt@,
                ),
                None => !names_are_known(
                    cipher_registry@,
                    hash_function_registry@,
                    master_key_hash_fn@,
                    key_hash_fn@,
                    key_cipher@,
                ),
            },
            created is Some ==> names_are_known(
                cipher_registry@,
                hash_function_registry@,
                master_key_hash_fn@,
                key_hash_fn@,
                key_cipher@,
            ),
    {
        let hash = match hash_function_registry.get_function(master_key_hash_fn) {
            Some(hash) => hash,
            None => {
                return None;
            },
        };
        if hash_function_registry.get_function(key_hash_fn).is_none() {
            return None;
        }
        if cipher_registry.get_encryptor(key_cipher).is_none() {
            return None;
        }
        if cipher_registry.get_decryptor(key_cipher).is_none() {
            return None;
        }
        let mut salted = copy_bytes(master_key);
        push_bytes(&mut salted, master_key_salt);
        let master_key_hash = hash.hash(salted.as_slice());
        proof {
            lemma_new_container_storable(
                version,
                root_label@,
                master_key_hash_fn@,
                key_hash_fn@,
                key_cipher@,
                master_key_hash@,
                master_key_salt@,
                key_salt@,
            );
        }
        let header = Header::new(
            version,
            master_key_hash_fn.to_owned(),
            key_hash_fn.to_owned(),
            key_cipher.to_owned(),
            master_key_hash.as_slice(),
            master_key_salt,
            key_salt,
            Entries::new(),
        );
        Some(Swd::new(header, root_label, cipher_registry, hash_function_registry))
    }

    /// A container with the header `header` and the root collection `root`.
    pub fn from_root(
        header: Header,
        root: Collection,
        cipher_registry: CipherRegistry,
        hash_function_registry: HashFunctionRegistry,
    ) -> (swd: Self)
        ensures
            swd@ == (SwdView {
                header: header@,
                root: root@,
                cipher_registry: cipher_registry@,
                hash_function_registry: hash_function_registry@,
            }),
    {
        Self { header, root, cipher_registry, hash_function_registry }
    }

    /// Checks `master_key` against the stored digest and, if it is the
    /// master key, derives the records' key and keeps it in the header.
    /// Otherwise, or where the header names a digest that the registry does
    /// not know, the container stays as it was and the answer is `false`.
    ///
    /// The two digests are compared byte by byte over their whole length.
    /// The key stays in the header until the container is dropped; it is
    /// not wiped then.
    pub fn unlock(&mut self, master_key: &[u8]) -> (unlocked: bool)
        ensures
            unlocked == old(self)@.unlocks_with(master_key@),
            final(self)@ == old(self)@.after_unlock(master_key@),
            unlocked ==> final(self)@.header.key.unwrap().len() == bound(
                old(self)@.hash_function_registry,
                old(self)@.header.key_hash_fn,
            ).unwrap().digest_length(),
    {
        let valid = self.validate_master_key(master_key);
        if !valid {
            return false;
        }
        self.populate_key(master_key)
    }

    /// The header.
    pub fn header(&self) -> (header: &Header)
        ensures
            header@ == self@.header,
    {
        &self.header
    }

    /// Keeps `value` with the header under `key`, in the place of what
    /// stood there before.
    pub fn add_extra(&mut self, key: &str, value: &[u8], is_secret: bool)
        ensures
            final(self)@ == (SwdView {
                header: HeaderView {
                    extras: insert(
                        old(self)@.header.extras,
                        key@,
                        ValueView { bytes: value@, is_secret },
                    ),
                    ..old(self)@.header
                },
                ..old(self)@
            }),
    {
        self.header.add_extra(key, value, is_secret);
    }

    /// What is kept with the header under `key`.
    pub fn get_extra(&self, key: &str) -> (found: Option<&Value>)
        ensures
            match found {
                Some(v) => lookup(self@.header.extras, key@) == Some(v@),
                None => lookup(self@.header.extras, key@) is None,
            },
    {
        self.header.get_extra(key)
    }

    /// The root collection.
    pub fn get_root(&self) -> (root: &Collection)
        ensures
            root@ == self@.root,
    {
        &self.root
    }

    /// The root collection, to be changed in place.
    pub fn get_root_mut(&mut self) -> (root: &mut Collection)
        ensures
            root@ == old(self)@.root,
            final(self)@ == (SwdView { root: final(root)@, ..old(self)@ }),
    {
        &mut self.root
    }

    /// Whether the container can be stored, that is, written and read back
    /// as it is: every name, label, secret, key and value can be written,
    /// nowhere do extras hold a name that their owner writes itself, and no
    /// more than [`MAX_DEPTH`] collections stand inside one another.
    pub fn is_storable(&self) -> (storable: bool)
        ensures
            storable == container_storable(self@.header, self@.root),
    {
        self.header.is_storable() && self.root.is_storable() && self.root.is_at_most_deep(
            MAX_DEPTH,
        )
    }

    /// The container as it is written: the magic number, the header, the
    /// root collection. Neither the records' key nor a revealed secret is
    /// written. A name, a label, a key or a value of more than 65,535 bytes
    /// anywhere in the container cannot be written.
    pub fn to_bytes(&self) -> (out: Result<Vec<u8>, SerializeError>)
        ensures
            match out {
                Ok(bytes) => container_fits(self@.header, self@.root) && bytes@ == container_bytes(
                    self@.header,
                    self@.root,
                ),
                Err(_) => !container_fits(self@.header, self@.root),
            },
    {
        let mut bytes: Vec<u8> = Vec::new();
        push_bytes(&mut bytes, MAGIC_NUMBER.as_slice());
        match self.header.write_to(&mut bytes) {
            Ok(()) => {},
            Err(e) => {
                return Err(e);
            },
        }
        match self.root.write_to(&mut bytes) {
            Ok(()) => {},
            Err(e) => {
                return Err(e);
            },
        }
        assert(bytes@ =~= container_bytes(self@.header, self@.root));
        Ok(bytes)
    }

    /// Whether the digest of `master_key` followed by the master-key salt
    /// is the stored one.
    fn validate_master_key(&self, master_key: &[u8]) -> (valid: bool)
        ensures
            valid == self@.accepts(master_key@),
    {
        let hash = match self.get_master_key_hash_fn() {
            Some(hash) => hash,
            None => {
                return false;
            },
        };
        let mut salted = copy_bytes(master_key);
        push_bytes(&mut salted, self.header.master_key_salt().as_slice());
        let master_key_hash = hash.hash(salted.as_slice());
        bytes_eq(master_key_hash.as_slice(), self.header.master_key_hash().as_slice())
    }

    /// Derives the records' key from `master_key` and keeps it in the
    /// header, if the registry knows the digest that the header names for
    /// it.
    fn populate_key(&mut self, master_key: &[u8]) -> (populated: bool)
        ensures
            populated ==> final(self)@.header.key.unwrap().len() == bound(
                old(self)@.hash_function_registry,
                old(self)@.header.key_hash_fn,
            ).unwrap().digest_length(),
            populated == old(self)@.derived_key(master_key@) is Some,
            populated ==> final(self)@ == (SwdView {
                header: HeaderView {
                    key: old(self)@.derived_key(master_key@),
                    ..old(self)@.header
                },
                ..old(self)@
            }),
            !populated ==> final(self)@ == old(self)@,
    {
        let hash = match self.get_key_hash_fn() {
            Some(hash) => hash,
            None => {
                return false;
            },
        };
        let mut salted = copy_bytes(master_key);
        push_bytes(&mut salted, self.header.key_salt().as_slice());
        let key = hash.hash(salted.as_slice());
        self.header.set_key(key);
        true
    }

    /// The digest that the header names for the master key.
    fn get_master_key_hash_fn(&self) -> (found: Option<HashFunction>)
        ensures
            found == bound(self@.hash_function_registry, self@.header.master_key_hash_fn),
    {
        self.hash_function_registry.get_function(self.header.master_key_hash_fn().as_str())
    }

    /// The digest that the header names for the records' key.
    fn get_key_hash_fn(&self) -> (found: Option<HashFunction>)
        ensures
            found == bound(self@.hash_function_registry, self@.header.key_hash_fn),
    {
        self.hash_function_registry.get_function(self.header.key_hash_fn().as_str())
    }
}

} // verus!
