use dspfs::file::{block_size, File};
use dspfs::hash::HashingAlgorithm;

#[test]
fn block_size_follows_the_schedule() {
    // Boundaries are inclusive on the upper end.
    assert_eq!(block_size(0), 128 * 1024);
    assert_eq!(block_size(13), 128 * 1024);
    assert_eq!(block_size(268435456), 128 * 1024);
    assert_eq!(block_size(268435457), 256 * 1024);
    assert_eq!(block_size(536870912), 256 * 1024);
    assert_eq!(block_size(536870913), 512 * 1024);
    assert_eq!(block_size(1073741824), 512 * 1024);
    assert_eq!(block_size(1073741825), 1024 * 1024);
    assert_eq!(block_size(2147483648), 1024 * 1024);
    assert_eq!(block_size(2147483649), 2 * 1024 * 1024);
    assert_eq!(block_size(4294967296), 2 * 1024 * 1024);
    assert_eq!(block_size(4294967297), 4 * 1024 * 1024);
    assert_eq!(block_size(8589934592), 4 * 1024 * 1024);
    assert_eq!(block_size(8589934593), 8 * 1024 * 1024);
    assert_eq!(block_size(17179869184), 8 * 1024 * 1024);
    assert_eq!(block_size(17179869185), 16 * 1024 * 1024);
    assert_eq!(block_size(u64::MAX), 16 * 1024 * 1024);
}

#[test]
fn empty_file_hashes_as_one_empty_block() {
    let f = File::new_empty(b"empty".to_vec());
    assert_eq!(f.num_blocks(), 1);

    // The single block hash is the digest of the empty byte string.
    let expected_block = blake3::hash(&[]);
    assert_eq!(f.get_block_hash(0).unwrap().bytes(), expected_block.as_bytes());
    assert!(f.get_block_hash(1).is_none());

    // The file hash is the digest of that digest.
    let expected_file = blake3::hash(expected_block.as_bytes());
    assert_eq!(f.get_hash().bytes(), expected_file.as_bytes());
}

#[test]
fn single_block_file_has_no_short_tail() {
    let contents = b"Hello World!\n";
    let f = File::new(b"test".to_vec(), contents);
    assert_eq!(f.num_blocks(), 1);
    assert_eq!(f.get_block_size(), 128 * 1024);

    let expected_block = blake3::hash(contents);
    assert_eq!(f.get_block_hash(0).unwrap().bytes(), expected_block.as_bytes());

    let expected_file = blake3::hash(expected_block.as_bytes());
    assert_eq!(f.get_hash().bytes(), expected_file.as_bytes());
}

#[test]
fn file_of_exactly_one_block_size() {
    let contents = vec![7u8; 128 * 1024];
    let f = File::new(b"one-block".to_vec(), &contents);
    // Exactly one block: one block hash, no short tail.
    assert_eq!(f.num_blocks(), 1);
    let expected_block = blake3::hash(&contents);
    assert_eq!(f.get_block_hash(0).unwrap().bytes(), expected_block.as_bytes());
}

#[test]
fn multi_block_hashes_compose() {
    // One full block plus a short tail.
    let mut contents = vec![1u8; 128 * 1024];
    contents.extend_from_slice(b"tail");
    let f = File::new(b"two-blocks".to_vec(), &contents);
    assert_eq!(f.num_blocks(), 2);

    let b0 = blake3::hash(&contents[..128 * 1024]);
    let b1 = blake3::hash(b"tail");
    assert_eq!(f.get_block_hash(0).unwrap().bytes(), b0.as_bytes());
    assert_eq!(f.get_block_hash(1).unwrap().bytes(), b1.as_bytes());

    // The file hash is the digest of the concatenated block hashes.
    let mut cat = Vec::new();
    cat.extend_from_slice(b0.as_bytes());
    cat.extend_from_slice(b1.as_bytes());
    assert_eq!(f.get_hash().bytes(), blake3::hash(&cat).as_bytes());
}

#[test]
fn hashing_is_deterministic() {
    let contents = b"the same bytes";
    let f1 = File::new(b"a".to_vec(), contents);
    let f2 = File::new(b"a".to_vec(), contents);
    assert_eq!(f1.get_hash(), f2.get_hash());
    assert_eq!(f1.get_block_hash(0), f2.get_block_hash(0));
    assert!(f1.equals(&f2));
}

#[test]
fn hash_block_matches_blake3() {
    let h = dspfs::hash::Hash::hash_block(HashingAlgorithm::BLAKE3, b"abc");
    assert_eq!(h.bytes(), blake3::hash(b"abc").as_bytes());
    let hashes = vec![h];
    let composed = dspfs::hash::Hash::hash_block_hashes(HashingAlgorithm::BLAKE3, &hashes);
    assert_eq!(
        composed.bytes(),
        blake3::hash(blake3::hash(b"abc").as_bytes()).as_bytes()
    );
}

#[test]
fn rehash_follows_new_contents() {
    let mut f = File::new(b"f".to_vec(), b"old contents");
    f.rehash(b"new contents");
    let expected_block = blake3::hash(b"new contents");
    assert_eq!(f.get_block_hash(0).unwrap().bytes(), expected_block.as_bytes());
}
