use vstd::prelude::*;

verus! {

/// The digest that BLAKE3 assigns to a byte sequence.  The algorithm itself
/// is left unnamed: every contract that mentions a digest speaks of this
/// function, and the only way to produce one is the trusted call below.
pub uninterp spec fn blake3_of(input: Seq<u8>) -> Seq<u8>;

/// The number of bytes in a BLAKE3 digest.
pub const HASH_LEN: usize = 32;

/// The hashing algorithm a [`Hash`] was produced with.  The tag travels with
/// the hash for forward compatibility and is never silently converted.
#[derive(Clone, Copy, Debug, PartialEq, Eq, Structural)]
pub enum HashingAlgorithm {
    BLAKE3,
}

/// The algorithm used for block and file hashing.
pub const BLOCK_HASHING_ALGORITHM: HashingAlgorithm = HashingAlgorithm::BLAKE3;

/// An opaque content hash: the digest bytes of some content.
#[derive(Debug, PartialEq, Eq, Hash)]
pub struct Hash {
    hash: Vec<u8>,
}

impl View for Hash {
    type V = Seq<u8>;

    closed spec fn view(&self) -> Seq<u8> {
        self.hash@
    }
}

impl Clone for Hash {
    fn clone(&self) -> (r: Self)
        ensures
            r@ == self@,
    {
        Hash { hash: self.hash.clone() }
    }
}

/// The views of a sequence of hashes.
pub open spec fn hash_views(s: Seq<Hash>) -> Seq<Seq<u8>> {
    s.map_values(|h: Hash| h@)
}

/// The concatenation of a sequence of byte strings, in order.
pub open spec fn concat_bytes(s: Seq<Seq<u8>>) -> Seq<u8>
    decreases s.len(),
{
    if s.len() == 0 {
        Seq::empty()
    } else {
        concat_bytes(s.drop_last()) + s.last()
    }
}

/// Relies on `blake3::hash`: the digest is a function of the input bytes
/// alone, and is 32 bytes long.
#[verifier::external_body]
fn blake3_digest(input: &[u8]) -> (r: Vec<u8>)
    ensures
        r@ == blake3_of(input@),
        r@.len() == HASH_LEN,
{
    blake3::hash(input).as_bytes().to_vec()
}

impl Hash {
    /// Wraps already-computed digest bytes.
    pub fn new(hash: Vec<u8>) -> (r: Self)
        ensures
            r@ == hash@,
    {
        Self { hash }
    }

    /// Hashes one block of content.
    pub fn hash_block(algorithm: HashingAlgorithm, block: &[u8]) -> (r: Self)
        ensures
            r@ == blake3_of(block@),
            r@.len() == HASH_LEN,
    {
        match algorithm {
            HashingAlgorithm::BLAKE3 => Self::new(blake3_digest(block)),
        }
    }

    /// Hashes the concatenation of a sequence of block hashes; this is how a
    /// file-level hash is produced from its per-block hashes.
    pub fn hash_block_hashes(algorithm: HashingAlgorithm, block_hashes: &[Hash]) -> (r: Self)
        ensures
            r@ == blake3_of(concat_bytes(hash_views(block_hashes@))),
            r@.len() == HASH_LEN,
    {
        let concatenated = concat_hash_bytes(block_hashes);
        Self::hash_block(algorithm, concatenated.as_slice())
    }

    /// The digest bytes.
    pub fn bytes(&self) -> (r: &[u8])
        ensures
            r@ == self@,
    {
        self.hash.as_slice()
    }
}

/// Concatenates the bytes of a sequence of hashes, in order.
fn concat_hash_bytes(hashes: &[Hash]) -> (r: Vec<u8>)
    ensures
        r@ == concat_bytes(hash_views(hashes@)),
{
    let mut out: Vec<u8> = Vec::new();
    let mut i: usize = 0;
    while i < hashes.len()
        invariant
            i <= hashes.len(),
            out@ == concat_bytes(hash_views(hashes@.subrange(0, i as int))),
        decreases hashes.len() - i,
    {
        proof {
            let pre = hashes@.subrange(0, i as int);
            let post = hashes@.subrange(0, i + 1);
            assert(post.drop_last() =~= pre);
            assert(hash_views(post).drop_last() =~= hash_views(pre));
            assert(hash_views(post).last() == hashes@[i as int]@);
        }
        out.extend_from_slice(hashes[i].bytes());
        i = i + 1;
    }
    proof {
        assert(hashes@.subrange(0, hashes@.len() as int) =~= hashes@);
    }
    out
}

} // verus!
