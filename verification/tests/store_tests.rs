use dspfs::dspfs::DspfsBuilder;
use dspfs::error::DspfsError;
use dspfs::file::File;
use dspfs::filetree::FileTree;
use dspfs::global_store::InMemoryStore;
use dspfs::group::{get_block_contents, GroupStore, StoredGroup};
use dspfs::message::{GroupUuid, Message};
use dspfs::server::{block_reply, dispatch_message, unauthorized_reply, ServerDecision};
use dspfs::user::PrivateUser;

fn user(name: &[u8]) -> dspfs::user::PublicUser {
    let (u, _) = PrivateUser::new(name.to_vec()).unwrap();
    u.public_user().clone()
}

#[test]
fn add_file_updates_both_tables() {
    let mut store = GroupStore::new();
    let alice = user(b"alice");
    let f = File::new(b"docs/readme.txt".to_vec(), b"contents");
    let hash = f.get_hash().clone();

    store.add_file(&alice, f).unwrap();

    // The record is stored under its hash, owned by alice.
    let rec = store.get_file(&hash).unwrap();
    assert!(rec.is_owned_by(&alice));
    assert_eq!(rec.num_owning_users(), 1);

    // The leaf is in alice's filetree.
    let tree = store.get_filetree(&alice);
    match tree.find(b"docs/readme.txt") {
        Some(FileTree::Leaf { name, .. }) => assert_eq!(name, &b"readme.txt".to_vec()),
        _ => panic!("leaf not found"),
    }
    assert_eq!(store.list_files().len(), 1);
}

#[test]
fn duplicate_add_file_is_idempotent() {
    let mut store = GroupStore::new();
    let alice = user(b"alice");
    let f1 = File::new(b"a.txt".to_vec(), b"same bytes");
    let f2 = File::new(b"a2.txt".to_vec(), b"same bytes");
    let hash = f1.get_hash().clone();

    store.add_file(&alice, f1).unwrap();
    // Same (user, hash), different path: the user set stays size 1.
    store.add_file(&alice, f2).unwrap();

    let rec = store.get_file(&hash).unwrap();
    assert_eq!(rec.num_owning_users(), 1);
    assert!(rec.is_owned_by(&alice));
}

#[test]
fn failed_add_file_changes_neither_table() {
    let mut store = GroupStore::new();
    let alice = user(b"alice");
    let blocker = File::new(b"dir".to_vec(), b"i am a file named dir");
    store.add_file(&alice, blocker).unwrap();
    let files_before = store.list_files();
    let tree_before = store.get_filetree(&alice);

    // The new file's path runs through the leaf "dir": the insert is
    // rejected, and neither the files table nor the filetree changes.
    let new_file = File::new(b"dir/inner.txt".to_vec(), b"other bytes");
    let new_hash = new_file.get_hash().clone();
    assert!(store.add_file(&alice, new_file).is_err());

    assert!(store.get_file(&new_hash).is_none());
    assert_eq!(store.list_files().len(), files_before.len());
    assert_eq!(store.get_filetree(&alice), tree_before);
}

#[test]
fn delete_file_removes_leaf_and_last_owner() {
    let mut store = GroupStore::new();
    let alice = user(b"alice");
    let f = File::new(b"a.txt".to_vec(), b"bytes");
    let hash = f.get_hash().clone();
    let copy = f.clone();

    store.add_file(&alice, f).unwrap();
    store.delete_file(&alice, &copy).unwrap();

    // Last owner gone: the record row is dropped, and the leaf removed.
    assert!(store.get_file(&hash).is_none());
    let tree = store.get_filetree(&alice);
    assert!(tree.find(b"a.txt").is_none());
}

#[test]
fn update_file_moves_the_leaf() {
    let mut store = GroupStore::new();
    let alice = user(b"alice");
    let old_file = File::new(b"old.txt".to_vec(), b"v1");
    let old_copy = old_file.clone();
    store.add_file(&alice, old_file).unwrap();

    let new_file = File::new(b"new.txt".to_vec(), b"v2");
    let new_hash = new_file.get_hash().clone();
    store.update_file(&alice, &old_copy, new_file).unwrap();

    let tree = store.get_filetree(&alice);
    assert!(tree.find(b"old.txt").is_none());
    assert!(matches!(tree.find(b"new.txt"), Some(FileTree::Leaf { .. })));
    assert!(store.get_file(&new_hash).is_some());
}

#[test]
fn get_local_file_serves_only_owned_content() {
    let mut store = GroupStore::new();
    let alice = user(b"alice");
    let bob = user(b"bob");
    let f = File::new(b"a.txt".to_vec(), b"bytes");
    let hash = f.get_hash().clone();
    store.add_file(&alice, f).unwrap();

    assert!(store.get_local_file(&alice, &hash).is_some());
    // Bob does not possess the content: nothing is served for him.
    assert!(store.get_local_file(&bob, &hash).is_none());
}

#[test]
fn get_files_from_user_lists_direct_entries() {
    let mut store = GroupStore::new();
    let alice = user(b"alice");
    store.add_file(&alice, File::new(b"yeet/yote.txt".to_vec(), b"a")).unwrap();
    store.add_file(&alice, File::new(b"yeet/yeet/yeet.txt".to_vec(), b"b")).unwrap();

    // "yeet" holds one leaf directly (yote.txt); the subdirectory "yeet"
    // is present in the tree but its files are not listed.
    let tree = store.get_filetree(&alice);
    match tree.find(b"yeet") {
        Some(FileTree::Node { children, .. }) => {
            assert_eq!(children.len(), 2);
        }
        _ => panic!("expected a directory"),
    }
    let files = store.get_files_from_user(&alice, b"yeet").unwrap();
    assert_eq!(files.len(), 1);
    assert_eq!(files[0].get_path(), &b"yeet/yote.txt".to_vec());

    // A missing path is NotFound.
    assert!(matches!(
        store.get_files_from_user(&alice, b"nope"),
        Err(DspfsError::NotFound)
    ));
}

#[test]
fn block_service_serves_exact_blocks() {
    let mut contents = vec![3u8; 128 * 1024];
    contents.extend_from_slice(b"tail");
    let f = File::new(b"big".to_vec(), &contents);

    let b0 = get_block_contents(&f, &contents, 0).unwrap();
    assert_eq!(b0.len(), 128 * 1024);
    assert_eq!(blake3::hash(&b0).as_bytes(), f.get_block_hash(0).unwrap().bytes());

    // The last block is the short tail, and it still matches its hash.
    let b1 = get_block_contents(&f, &contents, 1).unwrap();
    assert_eq!(b1, b"tail".to_vec());
    assert_eq!(blake3::hash(&b1).as_bytes(), f.get_block_hash(1).unwrap().bytes());

    // Past the end: nothing.
    assert!(get_block_contents(&f, &contents, 2).is_none());

    // An empty file has one empty block.
    let empty = File::new_empty(b"e".to_vec());
    assert_eq!(get_block_contents(&empty, &[], 0).unwrap(), Vec::<u8>::new());
    assert!(get_block_contents(&empty, &[], 1).is_none());
}

#[test]
fn global_store_group_lifecycle() {
    let mut store = InMemoryStore::new();
    let g = StoredGroup::new(b"/tmp/g".to_vec());
    let uuid = g.uuid;
    let g2 = g.clone();

    store.add_group(g).unwrap();
    // A second group with the same UUID is a conflict.
    assert!(matches!(store.add_group(g2.clone()), Err(DspfsError::Conflict)));

    let loaded = store.get_group(&uuid).unwrap();
    assert_eq!(loaded.uuid.value, uuid.value);
    assert_eq!(store.get_groups().len(), 1);

    store.update_group(&g2).unwrap();
    store.delete_group(&g2).unwrap();
    assert!(store.get_group(&uuid).is_none());
    // Updating or deleting an absent group is NotFound.
    assert!(matches!(store.update_group(&g2), Err(DspfsError::NotFound)));
    assert!(matches!(store.delete_group(&g2), Err(DspfsError::NotFound)));
}

#[test]
fn builder_configures_the_store() {
    let pair = PrivateUser::new(b"me".to_vec()).unwrap();
    let me = pair.0.public_user().clone();
    let built = DspfsBuilder::new().in_memory().with_user(pair).unwrap().build();
    assert_eq!(built.store.get_self_user().unwrap(), me);
    assert!(built.store.get_signing_key().is_some());

    // The stored identity and key round-trip into a private identity.
    let loaded = PrivateUser::load_from_store(&built.store).unwrap();
    assert_eq!(loaded.public_user(), &me);
}

#[test]
fn init_group_registers_once() {
    let pair = PrivateUser::new(b"me".to_vec()).unwrap();
    let mut node = DspfsBuilder::new().in_memory().with_user(pair).unwrap().build();

    // An existing .dspfs folder at the location refuses the init.
    assert!(matches!(
        node.init_group(b"/tmp/g".to_vec(), true),
        Err(DspfsError::Conflict)
    ));

    let uuid = node.init_group(b"/tmp/g".to_vec(), false).unwrap();
    assert!(node.store.get_group(&uuid).is_some());
    assert_eq!(node.get_users(&uuid).unwrap().len(), 0);
    assert!(matches!(
        node.get_users(&GroupUuid { value: 1 }),
        Err(DspfsError::NotFound)
    ));
}

#[test]
fn dispatch_enforces_authorization() {
    let alice = user(b"alice");
    let bob = user(b"bob");
    let mut group = StoredGroup::new(b"/tmp/g".to_vec());
    group.add_user(&alice);

    let request = || Message::FileBlockRequest {
        groupuuid: group.uuid,
        filehash: dspfs::hash::Hash::new(vec![1u8; 32]),
        index: 0,
    };

    // A member's request is served.
    assert!(matches!(
        dispatch_message(request(), &alice, Some(&group)),
        ServerDecision::ServeBlock { .. }
    ));
    // A non-member is refused: Error(Unauthorized) is sent, then close.
    assert!(matches!(
        dispatch_message(request(), &bob, Some(&group)),
        ServerDecision::NotAuthorized
    ));
    let (msg, close) = unauthorized_reply();
    assert!(matches!(
        msg,
        Message::Error(dspfs::message::ErrorMessage::Unauthorized)
    ));
    assert!(close);
    // An unknown group closes the connection.
    assert!(matches!(
        dispatch_message(request(), &alice, None),
        ServerDecision::UnknownGroup
    ));
    // A re-sent Init is fatal.
    let init = Message::Init { user: alice.clone(), pubkey: vec![0u8; 32] };
    assert!(matches!(
        dispatch_message(init, &alice, Some(&group)),
        ServerDecision::FatalReInit
    ));

    // Replies: a found block is sent; a missing one is FileNotFound + close.
    let (msg, close) = block_reply(Some(b"bytes".to_vec()));
    assert!(matches!(msg, Message::FileBlock(_)));
    assert!(!close);
    let (msg, close) = block_reply(None);
    assert!(matches!(msg, Message::Error(dspfs::message::ErrorMessage::FileNotFound)));
    assert!(close);
}

#[test]
fn stored_group_paths() {
    let g = StoredGroup::new(b"/tmp/g".to_vec());
    assert_eq!(g.dspfs_folder(), b"/tmp/g/.dspfs".to_vec());
    assert_eq!(g.dspfs_root(), &b"/tmp/g".to_vec());
    let alice = user(b"alice");
    let mut g = g;
    g.add_user(&alice);
    g.add_user(&alice);
    assert_eq!(g.get_users().len(), 1);
    assert!(g.is_member(&alice));
}

#[test]
fn find_lists_both_children() {
    let mut f = FileTree::new();
    f.insert(b"yeet/yote.txt", File::new_empty(b"yeet/yote.txt".to_vec())).unwrap();
    f.insert(b"yeet/yeet/yeet.txt", File::new_empty(b"yeet/yeet/yeet.txt".to_vec())).unwrap();

    match f.find(b"yeet") {
        Some(FileTree::Node { children, .. }) => {
            assert_eq!(children.len(), 2);
            assert!(matches!(&children[0], FileTree::Leaf { name, .. } if name == b"yote.txt"));
            assert!(matches!(&children[1], FileTree::Node { name, .. } if name == b"yeet"));
        }
        _ => panic!("expected a directory"),
    }
    assert!(matches!(
        f.find(b"yeet/yeet/yeet.txt"),
        Some(FileTree::Leaf { .. })
    ));
}

#[test]
fn block_request_round_trip() {
    // A member requests block 0 of a single-block file; the served bytes
    // are the file contents and hash to the record's block hash.
    let contents = b"Hello World!\n";
    let alice = user(b"alice");
    let mut group = StoredGroup::new(b"/tmp/g".to_vec());
    group.add_user(&alice);

    let mut gs = GroupStore::new();
    let file = File::new(b"test".to_vec(), contents);
    let hash = file.get_hash().clone();
    gs.add_file(&alice, file).unwrap();

    let request = Message::FileBlockRequest {
        groupuuid: group.uuid,
        filehash: hash.clone(),
        index: 0,
    };
    let decision = dispatch_message(request, &alice, Some(&group));
    let (filehash, index) = match decision {
        ServerDecision::ServeBlock { filehash, index } => (filehash, index),
        other => panic!("expected ServeBlock, got {:?}", other),
    };

    // The shell would now read the file from disk; simulate that read.
    let record = gs.get_local_file(&alice, &filehash).unwrap();
    let block = get_block_contents(&record, contents, index);
    let (reply, close) = block_reply(block);
    match reply {
        Message::FileBlock(bytes) => {
            assert_eq!(bytes, contents.to_vec());
            assert_eq!(
                blake3::hash(&bytes).as_bytes(),
                record.get_block_hash(0).unwrap().bytes()
            );
        }
        _ => panic!("expected a FileBlock"),
    }
    assert!(!close);

    // A request for content nobody possesses is FileNotFound, then close.
    let missing = dspfs::hash::Hash::new(vec![9u8; 32]);
    let block = gs
        .get_local_file(&alice, &missing)
        .map(|record| get_block_contents(&record, contents, 0))
        .flatten();
    let (reply, close) = block_reply(block);
    assert!(matches!(
        reply,
        Message::Error(dspfs::message::ErrorMessage::FileNotFound)
    ));
    assert!(close);
}
