use vstd::prelude::*;
use vstd::slice::slice_subrange;
use crate::hash::{
    blake3_of, concat_bytes, hash_views, HashingAlgorithm, BLOCK_HASHING_ALGORITHM, HASH_LEN,
};
use crate::user::{PublicUser, PublicUserView};

verus! {

/// The block size chosen for a file of the given length: a fixed step
/// function, boundaries inclusive on the upper end.
pub open spec fn spec_block_size(len: u64) -> u64 {
    if len <= 268435456 {
        131072
    } else if len <= 536870912 {
        262144
    } else if len <= 1073741824 {
        524288
    } else if len <= 2147483648 {
        1048576
    } else if len <= 4294967296 {
        2097152
    } else if len <= 8589934592 {
        4194304
    } else if len <= 17179869184 {
        8388608
    } else {
        16777216
    }
}

/// The number of blocks in a file of the given length: `ceil(len / bs)`,
/// except that an empty file counts as one (empty) block.
pub open spec fn spec_block_count(len: nat, bs: nat) -> nat
    recommends
        bs > 0,
{
    if len == 0 {
        1
    } else {
        (((len - 1) / (bs as int)) + 1) as nat
    }
}

/// The bytes of block `i` of the contents: a full block of `bs` bytes, or
/// the (possibly shorter) tail for the last block.
pub open spec fn spec_block(contents: Seq<u8>, bs: nat, i: nat) -> Seq<u8>
    recommends
        bs > 0,
        i < spec_block_count(contents.len(), bs),
{
    let start = (i * bs) as int;
    let end = if (i + 1) * bs <= contents.len() {
        ((i + 1) * bs) as int
    } else {
        contents.len() as int
    };
    contents.subrange(start, end)
}

/// The per-block digests of the contents under block size `bs`.
pub open spec fn spec_block_hashes(contents: Seq<u8>, bs: nat) -> Seq<Seq<u8>>
    recommends
        bs > 0,
{
    Seq::new(
        spec_block_count(contents.len(), bs),
        |i: int| blake3_of(spec_block(contents, bs, i as nat)),
    )
}

/// The file-level digest of the contents under block size `bs`: the digest
/// of the concatenated block digests.
pub open spec fn spec_file_hash(contents: Seq<u8>, bs: nat) -> Seq<u8>
    recommends
        bs > 0,
{
    blake3_of(concat_bytes(spec_block_hashes(contents, bs)))
}

/// The model of a file record.
#[verifier::ext_equal]
pub struct FileView {
    pub path: Seq<u8>,
    pub hash: Seq<u8>,
    pub hashing_algorithm: HashingAlgorithm,
    pub block_size: u64,
    pub block_hashes: Seq<Seq<u8>>,
    pub users: Seq<PublicUserView>,
}

/// Whether a sequence of users holds no two entries with the same key.
pub open spec fn unique_keys(users: Seq<PublicUserView>) -> bool {
    forall|i: int, j: int| 0 <= i < j < users.len() ==> users[i].key != users[j].key
}

/// Whether some entry of `users` has the given key.
pub open spec fn has_key(users: Seq<PublicUserView>, key: Seq<u8>) -> bool {
    exists|i: int| 0 <= i < users.len() && users[i].key == key
}

impl FileView {
    /// The record is internally consistent: the file hash is the digest of
    /// the concatenated block hashes, the block size is positive, and the
    /// owner set holds each user at most once.
    pub open spec fn wf(self) -> bool {
        &&& self.block_size >= 1
        &&& self.hash == blake3_of(concat_bytes(self.block_hashes))
        &&& self.block_hashes.len() >= 1
        &&& forall|i: int| 0 <= i < self.block_hashes.len() ==> (#[trigger] self.block_hashes[i]).len() == HASH_LEN
        &&& unique_keys(self.users)
    }

    /// The record is exactly what indexing `contents` produces: the chosen
    /// block size, the per-block digests, and the file digest all match.
    pub open spec fn indexed_from(self, contents: Seq<u8>) -> bool {
        &&& self.block_size == spec_block_size(contents.len() as u64)
        &&& self.block_hashes == spec_block_hashes(contents, self.block_size as nat)
        &&& self.hash == spec_file_hash(contents, self.block_size as nat)
    }
}

/// An immutable record of one file: its path relative to the group root,
/// its content hashes, and the set of users known to possess it.
#[derive(Debug, PartialEq)]
pub struct File {
    /// Path relative to the group root.
    pub path: Vec<u8>,
    /// Hash of the entire file: the digest of the concatenated block hashes.
    pub hash: crate::hash::Hash,
    /// The algorithm the hashes were produced with.
    pub hashing_algorithm: HashingAlgorithm,
    /// Bytes per block; fixed for the life of this record.
    pub block_size: u64,
    blockhashes: Vec<crate::hash::Hash>,
    users: Vec<PublicUser>,
}

impl View for File {
    type V = FileView;

    closed spec fn view(&self) -> FileView {
        FileView {
            path: self.path@,
            hash: self.hash@,
            hashing_algorithm: self.hashing_algorithm,
            block_size: self.block_size,
            block_hashes: hash_views(self.blockhashes@),
            users: self.users@.map_values(|u: PublicUser| u@),
        }
    }
}

impl Clone for File {
    fn clone(&self) -> (r: Self)
        ensures
            r@ == self@,
    {
        let r = File {
            path: self.path.clone(),
            hash: self.hash.clone(),
            hashing_algorithm: self.hashing_algorithm,
            block_size: self.block_size,
            blockhashes: clone_hashes(&self.blockhashes),
            users: clone_users(&self.users),
        };
        proof {
            assert(r@.path =~= self@.path);
            assert(r@.block_hashes =~= self@.block_hashes);
            assert(r@.users =~= self@.users);
            assert(r@ =~= self@);
        }
        r
    }
}

fn clone_hashes(v: &Vec<crate::hash::Hash>) -> (r: Vec<crate::hash::Hash>)
    ensures
        hash_views(r@) == hash_views(v@),
        r@.len() == v@.len(),
{
    let mut out: Vec<crate::hash::Hash> = Vec::new();
    let mut i: usize = 0;
    while i < v.len()
        invariant
            i <= v.len(),
            out@.len() == i,
            forall|j: int| 0 <= j < i ==> (#[trigger] out@[j])@ == v@[j]@,
        decreases v.len() - i,
    {
        out.push(v[i].clone());
        i = i + 1;
    }
    proof {
        assert(hash_views(out@) =~= hash_views(v@));
    }
    out
}

fn clone_users(v: &Vec<PublicUser>) -> (r: Vec<PublicUser>)
    ensures
        r@.map_values(|u: PublicUser| u@) == v@.map_values(|u: PublicUser| u@),
        r@.len() == v@.len(),
{
    let mut out: Vec<PublicUser> = Vec::new();
    let mut i: usize = 0;
    while i < v.len()
        invariant
            i <= v.len(),
            out@.len() == i,
            forall|j: int| 0 <= j < i ==> (#[trigger] out@[j])@ == v@[j]@,
        decreases v.len() - i,
    {
        out.push(v[i].clone());
        i = i + 1;
    }
    proof {
        assert(out@.map_values(|u: PublicUser| u@) =~= v@.map_values(|u: PublicUser| u@));
    }
    out
}

/// The block size chosen for a file of `len` bytes.
pub fn block_size(len: u64) -> (r: u64)
    ensures
        r == spec_block_size(len),
        1 <= r <= 16777216,
{
    if len <= 268435456 {
        131072
    } else if len <= 536870912 {
        262144
    } else if len <= 1073741824 {
        524288
    } else if len <= 2147483648 {
        1048576
    } else if len <= 4294967296 {
        2097152
    } else if len <= 8589934592 {
        4194304
    } else if len <= 17179869184 {
        8388608
    } else {
        16777216
    }
}

/// Hashes `contents` block by block under block size `bs`, returning the
/// file hash and the per-block hashes.
fn hash_file_bytes(contents: &[u8], bs: usize) -> (r: (crate::hash::Hash, Vec<crate::hash::Hash>))
    requires
        1 <= bs <= 16777216,
    ensures
        hash_views(r.1@) == spec_block_hashes(contents@, bs as nat),
        r.0@ == spec_file_hash(contents@, bs as nat),
        r.1@.len() >= 1,
        forall|j: int| 0 <= j < r.1@.len() ==> (#[trigger] r.1@[j])@.len() == HASH_LEN,
{
    let len = contents.len();
    let count: usize = if len == 0 {
        1
    } else {
        (len - 1) / bs + 1
    };
    proof {
        assert(count == spec_block_count(contents@.len(), bs as nat));
        if len > 0 {
            vstd::arithmetic::div_mod::lemma_fundamental_div_mod((len - 1) as int, bs as int);
            assert((count - 1) * bs <= len - 1) by (nonlinear_arith)
                requires
                    count - 1 == (len - 1) as int / (bs as int),
                    bs >= 1,
                    len >= 1,
            ;
        }
    }
    let mut block_hashes: Vec<crate::hash::Hash> = Vec::new();
    let mut i: usize = 0;
    while i < count
        invariant
            i <= count,
            1 <= bs <= 16777216,
            len == contents@.len(),
            count == spec_block_count(contents@.len(), bs as nat),
            len > 0 ==> (count - 1) * bs <= len - 1,
            block_hashes@.len() == i,
            forall|j: int| 0 <= j < i ==> (#[trigger] block_hashes@[j])@
                == spec_block_hashes(contents@, bs as nat)[j],
            forall|j: int| 0 <= j < i ==> (#[trigger] block_hashes@[j])@.len() == HASH_LEN,
        decreases count - i,
    {
        proof {
            if len == 0 {
                assert(i == 0);
                assert(i * bs == 0) by (nonlinear_arith)
                    requires
                        i == 0,
                ;
            } else {
                assert(i * bs <= (count - 1) * bs) by (nonlinear_arith)
                    requires
                        0 <= i <= count - 1,
                        bs >= 1,
                ;
            }
        }
        let start: usize = i * bs;
        let end: usize = if len - start > bs { start + bs } else { len };
        let block = slice_subrange(contents, start, end);
        proof {
            assert((i + 1) * (bs as int) == i * (bs as int) + bs) by (nonlinear_arith);
            assert(start == (i as nat) * (bs as nat));
            assert(end == if ((i as nat) + 1) * (bs as nat) <= contents@.len() {
                ((i as nat) + 1) * (bs as nat)
            } else {
                contents@.len()
            });
            assert(block@ =~= spec_block(contents@, bs as nat, i as nat));
        }
        block_hashes.push(crate::hash::Hash::hash_block(BLOCK_HASHING_ALGORITHM, block));
        i = i + 1;
    }
    proof {
        assert(hash_views(block_hashes@) =~= spec_block_hashes(contents@, bs as nat));
    }
    let file_hash = crate::hash::Hash::hash_block_hashes(BLOCK_HASHING_ALGORITHM, block_hashes.as_slice());
    (file_hash, block_hashes)
}

impl File {
    /// Creates a record for a file whose contents are empty: one zero-length
    /// block, whose hash is the digest of the empty byte string.
    pub fn new_empty(path: Vec<u8>) -> (r: Self)
        ensures
            r@.wf(),
            r@.indexed_from(Seq::<u8>::empty()),
            r@.path == path@,
            r@.users.len() == 0,
            r@.hashing_algorithm == BLOCK_HASHING_ALGORITHM,
            1 <= r@.block_size <= 16777216,
    {
        let empty: Vec<u8> = Vec::new();
        Self::new(path, empty.as_slice())
    }

    /// Creates a record for a file by hashing its contents: picks the block
    /// size from the file length, hashes each block, and hashes the
    /// concatenated block hashes into the file hash.
    pub fn new(path: Vec<u8>, contents: &[u8]) -> (r: Self)
        ensures
            r@.wf(),
            r@.indexed_from(contents@),
            r@.path == path@,
            r@.users.len() == 0,
            r@.hashing_algorithm == BLOCK_HASHING_ALGORITHM,
            1 <= r@.block_size <= 16777216,
    {
        let bs64 = block_size(contents.len() as u64);
        let bs = bs64 as usize;
        let (file_hash, block_hashes) = hash_file_bytes(contents, bs);
        let r = File {
            path,
            hash: file_hash,
            hashing_algorithm: BLOCK_HASHING_ALGORITHM,
            block_size: bs64,
            blockhashes: block_hashes,
            users: Vec::new(),
        };
        proof {
            assert(r@.users =~= Seq::<PublicUserView>::empty());
        }
        r
    }

    /// Recomputes the hashes from fresh contents, keeping the record's block
    /// size, path, and owner set; to be used if the file changes.
    pub fn rehash(&mut self, contents: &[u8])
        requires
            old(self)@.block_size >= 1,
            old(self)@.block_size <= 16777216,
        ensures
            final(self)@.path == old(self)@.path,
            final(self)@.users == old(self)@.users,
            final(self)@.block_size == old(self)@.block_size,
            final(self)@.hashing_algorithm == old(self)@.hashing_algorithm,
            final(self)@.block_hashes == spec_block_hashes(contents@, old(self)@.block_size as nat),
            final(self)@.hash == spec_file_hash(contents@, old(self)@.block_size as nat),
    {
        let bs = self.block_size as usize;
        let (file_hash, block_hashes) = hash_file_bytes(contents, bs);
        self.hash = file_hash;
        self.blockhashes = block_hashes;
    }

    /// Whether this user is known to possess the file.
    pub fn is_owned_by(&self, user: &PublicUser) -> (r: bool)
        ensures
            r == has_key(self@.users, user.key()),
    {
        let mut i: usize = 0;
        while i < self.users.len()
            invariant
                i <= self.users.len(),
                forall|j: int| 0 <= j < i ==> self@.users[j].key != user.key(),
            decreases self.users.len() - i,
        {
            if &self.users[i] == user {
                proof {
                    assert(self@.users[i as int].key == user.key());
                }
                return true;
            }
            i = i + 1;
        }
        false
    }

    /// The number of users known to possess the file.
    pub fn num_owning_users(&self) -> (r: usize)
        ensures
            r == self@.users.len(),
    {
        self.users.len()
    }

    /// Whether two records refer to the same content: their file hashes are
    /// equal.
    pub fn equals(&self, other: &File) -> (r: bool)
        ensures
            r == (self@.hash == other@.hash),
    {
        crate::user::bytes_eq(self.hash.bytes(), other.hash.bytes())
    }

    /// Adds a user to the owner set, if not already present.
    pub fn add_user(&mut self, user: &PublicUser)
        requires
            unique_keys(old(self)@.users),
        ensures
            unique_keys(final(self)@.users),
            forall|k: Seq<u8>| #![all_triggers] has_key(final(self)@.users, k)
                == (has_key(old(self)@.users, k) || k == user.key()),
            has_key(old(self)@.users, user.key()) ==> final(self)@ == old(self)@,
            final(self)@.path == old(self)@.path,
            final(self)@.hash == old(self)@.hash,
            final(self)@.block_size == old(self)@.block_size,
            final(self)@.block_hashes == old(self)@.block_hashes,
            final(self)@.hashing_algorithm == old(self)@.hashing_algorithm,
            final(self)@.users.len() >= old(self)@.users.len(),
            final(self)@.users.len() <= old(self)@.users.len() + 1,
    {
        if !self.is_owned_by(user) {
            self.users.push(user.clone());
            proof {
                assert(self@.users =~= old(self)@.users.push(user@));
                assert forall|k: Seq<u8>| has_key(self@.users, k)
                    == (has_key(old(self)@.users, k) || k == user.key()) by {
                    let fusers = old(self)@.users.push(user@);
                    if has_key(old(self)@.users, k) {
                        let i = choose|i: int| 0 <= i < old(self)@.users.len()
                            && old(self)@.users[i].key == k;
                        assert(fusers[i].key == k);
                    }
                    if k == user.key() {
                        assert(fusers[fusers.len() - 1].key == k);
                    }
                    if has_key(fusers, k) {
                        let i = choose|i: int| 0 <= i < fusers.len() && fusers[i].key == k;
                        if i < old(self)@.users.len() {
                            assert(old(self)@.users[i].key == k);
                        }
                    }
                }
            }
        }
    }

    /// Merges the owner set of another record into this one.
    pub fn merge_users(&mut self, file: &File)
        requires
            unique_keys(old(self)@.users),
        ensures
            unique_keys(final(self)@.users),
            forall|k: Seq<u8>| #![all_triggers] has_key(final(self)@.users, k)
                == (has_key(old(self)@.users, k) || has_key(file@.users, k)),
            final(self)@.path == old(self)@.path,
            final(self)@.hash == old(self)@.hash,
            final(self)@.block_size == old(self)@.block_size,
            final(self)@.block_hashes == old(self)@.block_hashes,
            final(self)@.hashing_algorithm == old(self)@.hashing_algorithm,
    {
        let mut i: usize = 0;
        while i < file.users.len()
            invariant
                i <= file.users.len(),
                unique_keys(self@.users),
                forall|k: Seq<u8>| #[trigger] has_key(self@.users, k)
                    == (has_key(old(self)@.users, k)
                        || exists|j: int| 0 <= j < i && file@.users[j].key == k),
                self@.path == old(self)@.path,
                self@.hash == old(self)@.hash,
                self@.block_size == old(self)@.block_size,
                self@.block_hashes == old(self)@.block_hashes,
                self@.hashing_algorithm == old(self)@.hashing_algorithm,
            decreases file.users.len() - i,
        {
            let u = &file.users[i];
            proof {
                assert(u@ == file@.users[i as int]);
            }
            self.add_user(u);
            i = i + 1;
        }
        proof {
            assert forall|k: Seq<u8>| #![auto] has_key(self@.users, k)
                == (has_key(old(self)@.users, k) || has_key(file@.users, k)) by {
                assert(has_key(self@.users, k)
                    == (has_key(old(self)@.users, k)
                        || exists|j: int| 0 <= j < file@.users.len() && file@.users[j].key == k));
            }
        }
    }

    /// Removes a user from the owner set; returns whether it was present.
    pub fn remove_user(&mut self, user: &PublicUser) -> (r: bool)
        requires
            unique_keys(old(self)@.users),
        ensures
            unique_keys(final(self)@.users),
            r == has_key(old(self)@.users, user.key()),
            forall|k: Seq<u8>| #![all_triggers] has_key(final(self)@.users, k)
                == (has_key(old(self)@.users, k) && k != user.key()),
            final(self)@.path == old(self)@.path,
            final(self)@.hash == old(self)@.hash,
            final(self)@.block_size == old(self)@.block_size,
            final(self)@.block_hashes == old(self)@.block_hashes,
            final(self)@.hashing_algorithm == old(self)@.hashing_algorithm,
            r ==> final(self)@.users.len() == old(self)@.users.len() - 1,
            !r ==> final(self)@.users == old(self)@.users,
    {
        let mut i: usize = 0;
        while i < self.users.len()
            invariant
                i <= self.users.len(),
                unique_keys(self@.users),
                self@ == old(self)@,
                forall|j: int| 0 <= j < i ==> self@.users[j].key != user.key(),
            decreases self.users.len() - i,
        {
            if &self.users[i] == user {
                proof {
                    assert(self@.users[i as int].key == user.key());
                }
                self.users.remove(i);
                proof {
                    assert(self@.users =~= old(self)@.users.remove(i as int));
                    let fusers = old(self)@.users.remove(i as int);
                    assert forall|k: Seq<u8>| has_key(fusers, k)
                        == (has_key(old(self)@.users, k) && k != user.key()) by {
                        if has_key(fusers, k) {
                            let j = choose|j: int| 0 <= j < fusers.len() && fusers[j].key == k;
                            if j < i {
                                assert(old(self)@.users[j].key == k);
                            } else {
                                assert(old(self)@.users[j + 1].key == k);
                            }
                        }
                        if has_key(old(self)@.users, k) && k != user.key() {
                            let j = choose|j: int| 0 <= j < old(self)@.users.len()
                                && old(self)@.users[j].key == k;
                            if j < i {
                                assert(fusers[j].key == k);
                            } else {
                                assert(j != i);
                                assert(fusers[j - 1].key == k);
                            }
                        }
                    }
                }
                return true;
            }
            i = i + 1;
        }
        false
    }

    /// The hash of block `index`, if the index is in range.
    pub fn get_block_hash(&self, index: u64) -> (r: Option<&crate::hash::Hash>)
        ensures
            index < self@.block_hashes.len()
                ==> (r matches Some(h) && h@ == self@.block_hashes[index as int]),
            index >= self@.block_hashes.len() ==> r is None,
    {
        if index < self.blockhashes.len() as u64 {
            Some(&self.blockhashes[index as usize])
        } else {
            None
        }
    }

    /// The file-level content hash.
    pub fn get_hash(&self) -> (r: &crate::hash::Hash)
        ensures
            r@ == self@.hash,
    {
        &self.hash
    }

    /// The path relative to the group root.
    pub fn get_path(&self) -> (r: &Vec<u8>)
        ensures
            r@ == self@.path,
    {
        &self.path
    }

    /// The fixed number of bytes per block of this record.
    pub fn get_block_size(&self) -> (r: u64)
        ensures
            r == self@.block_size,
    {
        self.block_size
    }

    /// The number of blocks of this file.
    pub fn num_blocks(&self) -> (r: usize)
        ensures
            r == self@.block_hashes.len(),
    {
        self.blockhashes.len()
    }
}

/// Deterministic hashing: any two records indexed from the same contents
/// carry the same block size, the same block hashes, and the same file hash.
pub proof fn lemma_deterministic_hashing(f1: FileView, f2: FileView, contents: Seq<u8>)
    requires
        f1.indexed_from(contents),
        f2.indexed_from(contents),
    ensures
        f1.block_size == f2.block_size,
        f1.block_hashes == f2.block_hashes,
        f1.hash == f2.hash,
{
}

/// Hash composition: a well-formed record's file hash is the digest of the
/// concatenation of its block hashes.
pub proof fn lemma_hash_composition(f: FileView)
    requires
        f.wf(),
    ensures
        f.hash == blake3_of(concat_bytes(f.block_hashes)),
{
}

} // verus!
