//! Hash engines: the digest and block sizes of the common hash methods, and
//! the digest that the engine computes.
use vstd::prelude::*;

verus! {

/// The hash methods an engine can be set up for.
#[derive(Clone, Copy, Debug, PartialEq, Eq, Structural)]
pub enum HashMethod {
    MD5,
    SHA1,
    SHA224,
    SHA256,
    SHA384,
    SHA512,
}

/// A hash engine: the method it was set up for and the sizes of that method.
/// Whatever the method, the digest it computes is MD5's.
pub struct HashEngine {
    pub method: HashMethod,
    pub digest_size: usize,
    pub block_size: usize,
}

/// The digest size in bytes of a method.
pub open spec fn digest_size_of(m: HashMethod) -> nat {
    match m {
        HashMethod::MD5 => 16,
        HashMethod::SHA1 => 20,
        HashMethod::SHA224 => 28,
        HashMethod::SHA256 => 32,
        HashMethod::SHA384 => 48,
        HashMethod::SHA512 => 64,
    }
}

/// The block size in bytes of a method.
pub open spec fn block_size_of(m: HashMethod) -> nat {
    match m {
        HashMethod::SHA512 => 128,
        _ => 64,
    }
}

/// The MD5 digest of `data`.
pub uninterp spec fn md5_digest(data: Seq<u8>) -> Seq<u8>;

/// MD5 of rust-crypto (`Md5::new`, `Digest::input`, `Digest::result` into a
/// sixteen-byte buffer): the result is named by `md5_digest` and is sixteen
/// bytes long, as the source writes four 32-bit words.
#[verifier::external_body]
fn md5(data: &[u8]) -> (digest: Vec<u8>)
    ensures
        digest@ == md5_digest(data@),
        digest@.len() == 16,
{
    let mut engine = crypto::md5::Md5::new();
    crypto::digest::Digest::input(&mut engine, data);
    let mut out = vec![0u8; 16];
    crypto::digest::Digest::result(&mut engine, &mut out);
    out
}

impl HashEngine {
    /// The engine for `method`, with its digest and block sizes.
    pub fn new(method: HashMethod) -> (e: HashEngine)
        ensures
            e.method == method,
            e.digest_size == digest_size_of(method),
            e.block_size == block_size_of(method),
    {
        match method {
            HashMethod::MD5 => HashEngine { method, digest_size: 16, block_size: 64 },
            HashMethod::SHA1 => HashEngine { method, digest_size: 20, block_size: 64 },
            HashMethod::SHA224 => HashEngine { method, digest_size: 28, block_size: 64 },
            HashMethod::SHA256 => HashEngine { method, digest_size: 32, block_size: 64 },
            HashMethod::SHA384 => HashEngine { method, digest_size: 48, block_size: 64 },
            HashMethod::SHA512 => HashEngine { method, digest_size: 64, block_size: 128 },
        }
    }

    /// The first `digest_size` bytes of the MD5 digest of `data`. The digest
    /// is sixteen bytes long, so an engine whose digest size is larger has no
    /// digest to give.
    pub fn hash(&self, data: &[u8]) -> (digest: Vec<u8>)
        requires
            self.digest_size <= 16,
        ensures
            digest@ == md5_digest(data@).take(self.digest_size as int),
    {
        let full = md5(data);
        let mut digest: Vec<u8> = Vec::new();
        let mut i: usize = 0;
        while i < self.digest_size
            invariant
                i <= self.digest_size <= 16,
                full@ == md5_digest(data@),
                full@.len() == 16,
                digest@ == full@.take(i as int),
            decreases self.digest_size - i,
        {
            digest.push(full[i]);
            assert(digest@ =~= full@.take(i + 1));
            i = i + 1;
        }
        digest
    }
}

} // verus!
