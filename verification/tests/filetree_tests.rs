use dspfs::file::File;
use dspfs::filetree::normalize_path;
use dspfs::filetree::FileTree;
use dspfs::filetree::FileTree::{Leaf, Node};

#[test]
pub fn test_insert() {
    let mut f = FileTree::new();

    let file = File::new_empty(b"None".to_vec());

    f.insert(b"yeet/yeet.txt", file.clone()).unwrap();

    assert_eq!(
        f,
        Node {
            name: b"".to_vec(),
            children: vec![Node {
                name: b"yeet".to_vec(),
                children: vec![Leaf { name: b"yeet.txt".to_vec(), file }],
            }],
        }
    );
}

#[test]
pub fn test_find() {
    let mut f = FileTree::new();

    let file = File::new_empty(b"None".to_vec());

    f.insert(b"yeet/yeet.txt", file.clone()).unwrap();

    let found = f.find(b"yeet/yeet.txt").unwrap();
    assert_eq!(found, &Leaf { name: b"yeet.txt".to_vec(), file });
}

#[test]
pub fn test_delete() {
    let mut f = FileTree::new();

    let file = File::new_empty(b"None".to_vec());

    f.insert(b"yeet/yeet.txt", file.clone()).unwrap();
    let node = f.delete(b"yeet/yeet.txt", false).unwrap();
    if let Leaf { name: fname, file: ffile } = node {
        assert_eq!(fname, b"yeet.txt".to_vec());
        assert_eq!(ffile, file);
    } else {
        unreachable!()
    }

    assert_eq!(
        f,
        Node {
            name: b"".to_vec(),
            children: vec![Node { name: b"yeet".to_vec(), children: vec![] }],
        }
    );
}

#[test]
pub fn test_delete_recursive() {
    let mut f = FileTree::new();

    let file = File::new_empty(b"None".to_vec());

    f.insert(b"yeet/yeet.txt", file).unwrap();
    f.delete(b"yeet", true).unwrap();

    assert_eq!(f, Node { name: b"".to_vec(), children: vec![] });
}

#[test]
pub fn test_traverse_leaf() {
    let mut f = FileTree::new();

    let file = File::new_empty(b"test.txt".to_vec());

    f.insert(b"test.txt", file.clone()).unwrap();

    let result = f.traverse_tree(b"test.txt").unwrap();

    assert_eq!(result.1, 1);
    assert_eq!(result.0, &Leaf { name: b"test.txt".to_vec(), file });
}

#[test]
pub fn test_traverse() {
    let mut f = FileTree::new();

    let file = File::new_empty(b"None".to_vec());

    f.insert(b"yeet.txt", file.clone()).unwrap();
    f.insert(b"yeet/yote.txt", file.clone()).unwrap();
    f.insert(b"yeet/yote/yoinks.txt", file).unwrap();

    let (n, _) = f.traverse_tree(b"yeet/yote").unwrap();

    match n {
        FileTree::Node { name, .. } => assert_eq!(name, &b"yote".to_vec()),
        _ => unreachable!(),
    }
}

#[test]
pub fn test_find_mut() {
    let mut f = FileTree::new();

    let file = File::new_empty(b"None".to_vec());

    f.insert(b"yeet.txt", file.clone()).unwrap();
    f.insert(b"yeet/yote.txt", file.clone()).unwrap();
    f.insert(b"yeet/yote/yoinks.txt", file).unwrap();

    let (n, _): (&FileTree, _) = f.traverse_tree(b"yeet/yote").unwrap();

    match n {
        FileTree::Node { name, .. } => assert_eq!(name, &b"yote".to_vec()),
        _ => unreachable!(),
    }
}

#[test]
pub fn test_iter_simple() {
    let file = File::new_empty(b"yeet.txt".to_vec());

    let t = Node {
        name: b"".to_vec(),
        children: vec![Node {
            name: b"yeet".to_vec(),
            children: vec![Leaf { name: b"yeet.txt".to_vec(), file: file.clone() }],
        }],
    };

    let leaves = t.iter();
    let files: Vec<&File> = leaves.iter().map(|(_, i)| i).collect();
    assert_eq!(vec![&file], files);
}

#[test]
pub fn test_insert_nested() {
    let mut f = FileTree::new();

    let file = File::new_empty(b"yeet.txt".to_vec());

    f.insert(b"yeet/yeet/yeet.txt", file.clone()).unwrap();

    assert_eq!(
        f,
        Node {
            name: b"".to_vec(),
            children: vec![Node {
                name: b"yeet".to_vec(),
                children: vec![Node {
                    name: b"yeet".to_vec(),
                    children: vec![Leaf { name: b"yeet.txt".to_vec(), file }],
                }],
            }],
        }
    );
}

#[test]
pub fn test_insert_nested_partial_match() {
    let mut f = FileTree::new();

    let file = File::new_empty(b"None".to_vec());

    f.insert(b"yeet/yote/yeet.txt", file.clone()).unwrap();
    f.insert(b"yeet/yeet/yeet.txt", file.clone()).unwrap();

    assert_eq!(
        f,
        Node {
            name: b"".to_vec(),
            children: vec![Node {
                name: b"yeet".to_vec(),
                children: vec![
                    Node {
                        name: b"yote".to_vec(),
                        children: vec![FileTree::Leaf {
                            name: b"yeet.txt".to_vec(),
                            file: file.clone(),
                        }],
                    },
                    Node {
                        name: b"yeet".to_vec(),
                        children: vec![FileTree::Leaf { name: b"yeet.txt".to_vec(), file }],
                    },
                ],
            }],
        }
    );
}

#[test]
pub fn test_non_canon() {
    let mut f = FileTree::new();
    let file = File::new_empty(b"yeet.txt".to_vec());

    // Absolute root is not allowed
    assert!(f.insert(b"/yeet.txt", file.clone()).is_err());
    assert!(f.insert(b"/../yeet.txt", file.clone()).is_err());

    // This will insert a file in the root of the filetree
    assert!(f.insert(b"../yeet.txt", file.clone()).is_ok());
    assert!(f.insert(b"yeet/../yeet2.txt", file.clone()).is_ok());
    assert!(f.insert(b"./yeet3.txt", file.clone()).is_ok());

    // This will insert a file in yeet/yeet.txt
    assert!(f.insert(b"yeet/./yeet.txt", file.clone()).is_ok());

    let expected = Node {
        name: b"".to_vec(),
        children: vec![
            Leaf { name: b"yeet.txt".to_vec(), file: file.clone() },
            Leaf { name: b"yeet2.txt".to_vec(), file: file.clone() },
            Leaf { name: b"yeet3.txt".to_vec(), file: file.clone() },
            Node {
                name: b"yeet".to_vec(),
                children: vec![Leaf { name: b"yeet.txt".to_vec(), file }],
            },
        ],
    };

    assert_eq!(expected, f);
}

#[test]
pub fn test_leaf_err() {
    let file = File::new_empty(b"None".to_vec());
    let mut f = FileTree::Leaf { name: b"yeet.txt".to_vec(), file: file.clone() };
    assert!(f.insert(b"some path", file).is_err());
}

#[test]
fn normalize_path_resolves_dots() {
    assert_eq!(normalize_path(b"./a/../b//c"), b"b/c".to_vec());
    assert_eq!(normalize_path(b"/../a"), b"/a".to_vec());
    assert_eq!(normalize_path(b""), b"".to_vec());
    assert_eq!(normalize_path(b"a/b/"), b"a/b".to_vec());
    assert_eq!(normalize_path(b"../x"), b"x".to_vec());
}

#[test]
fn duplicate_leaf_insert_is_rejected() {
    let mut f = FileTree::new();
    let file = File::new_empty(b"a.txt".to_vec());
    f.insert(b"a.txt", file.clone()).unwrap();
    let before = f.clone();
    assert!(f.insert(b"a.txt", file.clone()).is_err());
    assert_eq!(f, before);
    // A directory in the way is also rejected.
    f.insert(b"dir/b.txt", file.clone()).unwrap();
    assert!(f.insert(b"dir", file.clone()).is_err());
    // A path through a leaf is rejected.
    assert!(f.insert(b"a.txt/under.txt", file).is_err());
}
