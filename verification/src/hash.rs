//! One-way digests, and the registry that binds the names written in a
//! container to them.
use vstd::prelude::*;
use sha3::Digest;
use crate::registry::{bound, bound_once, rebind, Bindings};

verus! {

/// The SHA3-256 digest of `data`, as the `sha3` crate computes it.
pub uninterp spec fn sha3_256_digest(data: Seq<u8>) -> Seq<u8>;

/// How many bytes a SHA3-256 digest has.
pub const SHA3_256_DIGEST_LENGTH: usize = 32;

/// The SHA3-256 digest of `data`.
///
/// Calls `Sha3_256::digest` of the `sha3` crate. The digest depends on the
/// bytes of `data` alone and has the 32 bytes that the crate declares as
/// the output size of `Sha3_256`; that it is SHA3-256 is taken from the
/// crate and not proved here.
#[verifier::external_body]
fn sha3_256_of(data: &[u8]) -> (digest: Vec<u8>)
    ensures
        digest@ == sha3_256_digest(data@),
        digest@.len() == SHA3_256_DIGEST_LENGTH,
{
    sha3::Sha3_256::digest(data).to_vec()
}

/// A one-way digest that a container can name.
#[derive(Debug, Clone, Copy, PartialEq, Eq, Structural)]
pub enum HashFunction {
    /// SHA3-256.
    Sha3_256,
}

impl HashFunction {
    /// The digest of `data` under this function.
    pub open spec fn digest(self, data: Seq<u8>) -> Seq<u8> {
        match self {
            HashFunction::Sha3_256 => sha3_256_digest(data),
        }
    }

    /// How many bytes a digest under this function has.
    pub open spec fn digest_length(self) -> nat {
        match self {
            HashFunction::Sha3_256 => SHA3_256_DIGEST_LENGTH as nat,
        }
    }

    /// Computes the digest of `data`.
    pub fn hash(&self, data: &[u8]) -> (digest: Vec<u8>)
        ensures
            digest@ == self.digest(data@),
            digest@.len() == self.digest_length(),
    {
        match self {
            HashFunction::Sha3_256 => sha3_256_of(data),
        }
    }
}

/// The SHA3-256 digest of `data`.
pub fn sha3_256(data: &[u8]) -> (digest: Vec<u8>)
    ensures
        digest@ == HashFunction::Sha3_256.digest(data@),
        digest@.len() == SHA3_256_DIGEST_LENGTH,
{
    HashFunction::Sha3_256.hash(data)
}

/// The digests that containers may name.
#[derive(Debug)]
pub struct HashFunctionRegistry {
    functions: Bindings<HashFunction>,
}

impl View for HashFunctionRegistry {
    type V = Seq<(Seq<char>, HashFunction)>;

    /// The bindings of names to digests, each name bound once, in the order
    /// in which the names were first bound.
    closed spec fn view(&self) -> Seq<(Seq<char>, HashFunction)> {
        self.functions@
    }
}

impl HashFunctionRegistry {
    /// A registry that knows no name.
    pub fn new() -> (registry: Self)
        ensures
            registry@ == Seq::<(Seq<char>, HashFunction)>::empty(),
    {
        Self { functions: Bindings::new() }
    }

    /// Binds `name` to `hash_fn`, in the place of what was bound to that
    /// name before. What is bound to the other names stays.
    pub fn register(&mut self, name: &str, hash_fn: HashFunction)
        ensures
            final(self)@ == rebind(old(self)@, name@, hash_fn),
            bound_once(final(self)@),
            bound(final(self)@, name@) == Some(hash_fn),
            forall|other: Seq<char>|
                other != name@ ==> bound(final(self)@, other) == bound(old(self)@, other),
    {
        self.functions.bind(name, hash_fn);
    }

    /// The digest bound to `name`, if the registry knows the name.
    pub fn get_function(&self, name: &str) -> (found: Option<HashFunction>)
        ensures
            found == bound(self@, name@),
    {
        self.functions.find(name)
    }

    /// The names that the registry knows, each once, in the order in which
    /// they were first bound.
    pub fn get_names(&self) -> (names: Vec<&String>)
        ensures
            bound_once(self@),
            names@.len() == self@.len(),
            forall|i: int| 0 <= i < names@.len() ==> (#[trigger] names@[i])@ == self@[i].0,
            forall|i: int, j: int|
                0 <= i < j < names@.len() ==> (#[trigger] names@[i])@ != (#[trigger] names@[j])@,
    {
        self.functions.names()
    }
}

impl Default for HashFunctionRegistry {
    /// The registry that knows `sha3-256`.
    fn default() -> (registry: Self)
        ensures
            registry@ == seq![("sha3-256"@, HashFunction::Sha3_256)],
    {
        let mut registry = HashFunctionRegistry::new();
        registry.register("sha3-256", HashFunction::Sha3_256);
        assert(registry@ =~= seq![("sha3-256"@, HashFunction::Sha3_256)]);
        registry
    }
}

} // verus!
