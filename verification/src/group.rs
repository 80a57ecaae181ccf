use vstd::prelude::*;
use crate::error::DspfsError;
use crate::file::{
    has_key, spec_block, spec_block_count, unique_keys, File, FileView,
};
use crate::filetree::{
    clone_bytes, clone_tree, empty_dir, insert_ok, is_abs, norm_comps, spec_delete, spec_find,
    spec_insert, tree_view, views_of, FileTree, TreeView,
};
use crate::hash::blake3_of;
use crate::message::GroupUuid;
use crate::user::{PublicUser, PublicUserView};

verus! {

/// The bytes of the `.dspfs` directory name, with its leading separator.
pub open spec fn dspfs_dir_suffix() -> Seq<u8> {
    seq![47u8, 46u8, 100u8, 115u8, 112u8, 102u8, 115u8]
}

/// A group's identity outside the heavy per-group store: its UUID, its
/// member set, and the filesystem location of the group root.
pub struct StoredGroup {
    /// The group's identifier.
    pub uuid: GroupUuid,
    /// The members of the group, each at most once.
    pub users: Vec<PublicUser>,
    /// The absolute path of the group root.
    pub location: Vec<u8>,
}

impl StoredGroup {
    /// The member identities.
    pub open spec fn members(&self) -> Seq<PublicUserView> {
        self.users@.map_values(|u: PublicUser| u@)
    }

    /// Members are unique by key.
    pub open spec fn wf(&self) -> bool {
        unique_keys(self.members())
    }

    /// A new group rooted at `location`, with a fresh UUID and no members.
    pub fn new(location: Vec<u8>) -> (r: Self)
        ensures
            r.wf(),
            r.members().len() == 0,
            r.location@ == location@,
    {
        let r = StoredGroup { uuid: GroupUuid::new_v4(), users: Vec::new(), location };
        proof {
            assert(r.members() =~= Seq::<PublicUserView>::empty());
        }
        r
    }

    /// The `.dspfs` folder under the group root.
    pub fn dspfs_folder(&self) -> (r: Vec<u8>)
        ensures
            r@ == self.location@ + dspfs_dir_suffix(),
    {
        let mut out = clone_bytes(&self.location);
        out.push(47);
        out.push(46);
        out.push(100);
        out.push(115);
        out.push(112);
        out.push(102);
        out.push(115);
        proof {
            assert(out@ =~= self.location@ + dspfs_dir_suffix());
        }
        out
    }

    /// The group root.
    pub fn dspfs_root(&self) -> (r: &Vec<u8>)
        ensures
            r@ == self.location@,
    {
        &self.location
    }

    /// Whether a user is a member of the group.
    pub fn is_member(&self, user: &PublicUser) -> (r: bool)
        ensures
            r == has_key(self.members(), user.key()),
    {
        let mut i: usize = 0;
        while i < self.users.len()
            invariant
                i <= self.users.len(),
                forall|j: int| 0 <= j < i ==> self.members()[j].key != user.key(),
            decreases self.users.len() - i,
        {
            if &self.users[i] == user {
                proof {
                    assert(self.members()[i as int].key == user.key());
                }
                return true;
            }
            i = i + 1;
        }
        false
    }

    /// Adds a member, if not already present.
    pub fn add_user(&mut self, user: &PublicUser)
        requires
            old(self).wf(),
        ensures
            final(self).wf(),
            final(self).uuid == old(self).uuid,
            final(self).location@ == old(self).location@,
            forall|k: Seq<u8>| #![all_triggers] has_key(final(self).members(), k)
                == (has_key(old(self).members(), k) || k == user.key()),
            !has_key(old(self).members(), user.key())
                ==> final(self).members() == old(self).members().push(user@),
            has_key(old(self).members(), user.key())
                ==> final(self).members() == old(self).members(),
    {
        if !self.is_member(user) {
            self.users.push(user.clone());
            proof {
                assert(self.members() =~= old(self).members().push(user@));
                let fm = old(self).members().push(user@);
                assert forall|k: Seq<u8>| has_key(fm, k)
                    == (has_key(old(self).members(), k) || k == user.key()) by {
                    if has_key(old(self).members(), k) {
                        let i = choose|i: int| 0 <= i < old(self).members().len()
                            && old(self).members()[i].key == k;
                        assert(fm[i].key == k);
                    }
                    if k == user.key() {
                        assert(fm[fm.len() - 1].key == k);
                    }
                    if has_key(fm, k) {
                        let i = choose|i: int| 0 <= i < fm.len() && fm[i].key == k;
                        if i < old(self).members().len() {
                            assert(old(self).members()[i].key == k);
                        }
                    }
                }
            }
        }
    }

    /// The members, as identities.
    pub fn get_users(&self) -> (r: Vec<PublicUser>)
        ensures
            r@.map_values(|u: PublicUser| u@) == self.members(),
    {
        let mut out: Vec<PublicUser> = Vec::new();
        let mut i: usize = 0;
        while i < self.users.len()
            invariant
                i <= self.users.len(),
                out@.len() == i,
                forall|j: int| 0 <= j < i ==> (#[trigger] out@[j])@ == self.members()[j],
            decreases self.users.len() - i,
        {
            out.push(self.users[i].clone());
            i = i + 1;
        }
        proof {
            assert(out@.map_values(|u: PublicUser| u@) =~= self.members());
        }
        out
    }
}

// ---------------------------------------------------------------------------
// The per-group store
// ---------------------------------------------------------------------------

/// The logical `user → filetree` table of an entry list.
pub open spec fn tree_entries(s: Seq<(PublicUser, FileTree)>) -> Map<Seq<u8>, TreeView>
    decreases s.len(),
{
    if s.len() == 0 {
        Map::empty()
    } else {
        tree_entries(s.drop_last()).insert(s.last().0.key(), tree_view(s.last().1))
    }
}

/// The logical `file hash → file record` table of an entry list.
pub open spec fn file_entries(s: Seq<(crate::hash::Hash, File)>) -> Map<Seq<u8>, FileView>
    decreases s.len(),
{
    if s.len() == 0 {
        Map::empty()
    } else {
        file_entries(s.drop_last()).insert(s.last().0@, s.last().1@)
    }
}

/// Keys of a tree entry list, all distinct.
pub open spec fn tree_keys_unique(s: Seq<(PublicUser, FileTree)>) -> bool {
    forall|i: int, j: int| 0 <= i < j < s.len() ==> s[i].0.key() != s[j].0.key()
}

/// Keys of a file entry list, all distinct.
pub open spec fn file_keys_unique(s: Seq<(crate::hash::Hash, File)>) -> bool {
    forall|i: int, j: int| 0 <= i < j < s.len() ==> s[i].0@ != s[j].0@
}

pub proof fn lemma_tree_entries(s: Seq<(PublicUser, FileTree)>)
    requires
        tree_keys_unique(s),
    ensures
        forall|k: Seq<u8>| tree_entries(s).contains_key(k)
            == exists|i: int| 0 <= i < s.len() && s[i].0.key() == k,
        forall|i: int| 0 <= i < s.len()
            ==> tree_entries(s).contains_key(#[trigger] s[i].0.key())
                && tree_entries(s)[s[i].0.key()] == tree_view(s[i].1),
    decreases s.len(),
{
    if s.len() > 0 {
        let pre = s.drop_last();
        lemma_tree_entries(pre);
        assert forall|i: int| 0 <= i < s.len() implies tree_entries(s).contains_key(
            #[trigger] s[i].0.key(),
        ) && tree_entries(s)[s[i].0.key()] == tree_view(s[i].1) by {
            if i < s.len() - 1 {
                assert(pre[i] == s[i]);
                assert(s[i].0.key() != s[s.len() - 1].0.key());
            }
        }
        assert forall|k: Seq<u8>| tree_entries(s).contains_key(k)
            == exists|i: int| 0 <= i < s.len() && s[i].0.key() == k by {
            if tree_entries(s).contains_key(k) {
                if k == s.last().0.key() {
                    assert(s[s.len() - 1].0.key() == k);
                } else {
                    assert(tree_entries(pre).contains_key(k));
                    let i = choose|i: int| 0 <= i < pre.len() && pre[i].0.key() == k;
                    assert(pre[i] == s[i]);
                    assert(s[i].0.key() == k);
                }
            }
            if exists|i: int| 0 <= i < s.len() && s[i].0.key() == k {
                let i = choose|i: int| 0 <= i < s.len() && s[i].0.key() == k;
                if i < s.len() - 1 {
                    assert(pre[i] == s[i]);
                    assert(pre[i].0.key() == k);
                }
            }
        }
    }
}

pub proof fn lemma_file_entries(s: Seq<(crate::hash::Hash, File)>)
    requires
        file_keys_unique(s),
    ensures
        forall|k: Seq<u8>| file_entries(s).contains_key(k)
            == exists|i: int| 0 <= i < s.len() && s[i].0@ == k,
        forall|i: int| 0 <= i < s.len()
            ==> file_entries(s).contains_key(#[trigger] s[i].0@)
                && file_entries(s)[s[i].0@] == s[i].1@,
    decreases s.len(),
{
    if s.len() > 0 {
        let pre = s.drop_last();
        lemma_file_entries(pre);
        assert forall|i: int| 0 <= i < s.len() implies file_entries(s).contains_key(
            #[trigger] s[i].0@,
        ) && file_entries(s)[s[i].0@] == s[i].1@ by {
            if i < s.len() - 1 {
                assert(pre[i] == s[i]);
                assert(s[i].0@ != s[s.len() - 1].0@);
            }
        }
        assert forall|k: Seq<u8>| file_entries(s).contains_key(k)
            == exists|i: int| 0 <= i < s.len() && s[i].0@ == k by {
            if file_entries(s).contains_key(k) {
                if k == s.last().0@ {
                    assert(s[s.len() - 1].0@ == k);
                } else {
                    assert(file_entries(pre).contains_key(k));
                    let i = choose|i: int| 0 <= i < pre.len() && pre[i].0@ == k;
                    assert(pre[i] == s[i]);
                    assert(s[i].0@ == k);
                }
            }
            if exists|i: int| 0 <= i < s.len() && s[i].0@ == k {
                let i = choose|i: int| 0 <= i < s.len() && s[i].0@ == k;
                if i < s.len() - 1 {
                    assert(pre[i] == s[i]);
                    assert(pre[i].0@ == k);
                }
            }
        }
    }
}

/// Replacing the value of one entry, keeping its key, updates the map at
/// that key alone.
pub proof fn lemma_tree_entries_update(s: Seq<(PublicUser, FileTree)>, i: int, e: (PublicUser, FileTree))
    requires
        tree_keys_unique(s),
        0 <= i < s.len(),
        e.0.key() == s[i].0.key(),
    ensures
        tree_entries(s.update(i, e)) == tree_entries(s).insert(e.0.key(), tree_view(e.1)),
    decreases s.len(),
{
    let s2 = s.update(i, e);
    if i == s.len() - 1 {
        assert(s2.drop_last() =~= s.drop_last());
        assert(s2.last() == e);
        assert(tree_entries(s2) =~= tree_entries(s).insert(e.0.key(), tree_view(e.1)));
    } else {
        assert(s2.drop_last() =~= s.drop_last().update(i, e));
        lemma_tree_entries_update(s.drop_last(), i, e);
        assert(s2.last() == s.last());
        assert(tree_entries(s2)
            == tree_entries(s.drop_last()).insert(e.0.key(), tree_view(e.1)).insert(
                s.last().0.key(),
                tree_view(s.last().1),
            ));
        assert(s[i].0.key() != s.last().0.key());
        assert(tree_entries(s2) =~= tree_entries(s).insert(e.0.key(), tree_view(e.1)));
    }
}

pub proof fn lemma_file_entries_update(s: Seq<(crate::hash::Hash, File)>, i: int, e: (crate::hash::Hash, File))
    requires
        file_keys_unique(s),
        0 <= i < s.len(),
        e.0@ == s[i].0@,
    ensures
        file_entries(s.update(i, e)) == file_entries(s).insert(e.0@, e.1@),
    decreases s.len(),
{
    let s2 = s.update(i, e);
    if i == s.len() - 1 {
        assert(s2.drop_last() =~= s.drop_last());
        assert(s2.last() == e);
        assert(file_entries(s2) =~= file_entries(s).insert(e.0@, e.1@));
    } else {
        assert(s2.drop_last() =~= s.drop_last().update(i, e));
        lemma_file_entries_update(s.drop_last(), i, e);
        assert(s2.last() == s.last());
        assert(s[i].0@ != s.last().0@);
        assert(file_entries(s2) =~= file_entries(s).insert(e.0@, e.1@));
    }
}

/// The in-memory per-group store: the two logical tables
/// `user → filetree` and `file hash → file record`, as entry lists with
/// distinct keys.
pub struct GroupStore {
    filetrees: Vec<(PublicUser, FileTree)>,
    files: Vec<(crate::hash::Hash, File)>,
}

impl GroupStore {
    /// The `user → filetree` table.
    pub closed spec fn trees(&self) -> Map<Seq<u8>, TreeView> {
        tree_entries(self.filetrees@)
    }

    /// The `file hash → file record` table.
    pub closed spec fn files(&self) -> Map<Seq<u8>, FileView> {
        file_entries(self.files@)
    }

    /// The file records in insertion order, as `list_files` returns them.
    pub closed spec fn files_seq(&self) -> Seq<FileView> {
        self.files@.map_values(|e: (crate::hash::Hash, File)| e.1@)
    }

    /// Entry keys are distinct, records are keyed by their own hash, and
    /// every stored record has a unique owner list.
    pub closed spec fn inv(&self) -> bool {
        &&& tree_keys_unique(self.filetrees@)
        &&& file_keys_unique(self.files@)
        &&& forall|i: int| 0 <= i < self.files@.len()
            ==> (#[trigger] self.files@[i]).0@ == self.files@[i].1@.hash
                && unique_keys(self.files@[i].1@.users)
                && 1 <= self.files@[i].1@.block_size <= 16777216
    }

    /// Well-formedness, as a public name for the invariant.
    pub open spec fn wf(&self) -> bool {
        self.inv()
    }

    /// An empty store.
    pub fn new() -> (r: Self)
        ensures
            r.wf(),
            r.trees() == Map::<Seq<u8>, TreeView>::empty(),
            r.files() == Map::<Seq<u8>, FileView>::empty(),
            r.files_seq().len() == 0,
    {
        let r = GroupStore { filetrees: Vec::new(), files: Vec::new() };
        proof {
            assert(r.files_seq() =~= Seq::<FileView>::empty());
        }
        r
    }

    /// The record stored under a file hash, if any.
    pub fn get_file(&self, hash: &crate::hash::Hash) -> (r: Option<File>)
        requires
            self.wf(),
        ensures
            self.files().contains_key(hash@) ==> (r matches Some(f) && f@ == self.files()[hash@]),
            !self.files().contains_key(hash@) ==> r is None,
            r matches Some(f) ==> 1 <= f@.block_size <= 16777216,
    {
        proof {
            lemma_file_entries(self.files@);
        }
        let mut i: usize = 0;
        while i < self.files.len()
            invariant
                i <= self.files@.len(),
                self.wf(),
                forall|j: int| 0 <= j < i ==> (#[trigger] self.files@[j]).0@ != hash@,
            decreases self.files@.len() - i,
        {
            if crate::user::bytes_eq(self.files[i].0.bytes(), hash.bytes()) {
                proof {
                    lemma_file_entries(self.files@);
                }
                return Some(self.files[i].1.clone());
            }
            i = i + 1;
        }
        proof {
            lemma_file_entries(self.files@);
            if self.files().contains_key(hash@) {
                let j = choose|j: int| 0 <= j < self.files@.len() && self.files@[j].0@ == hash@;
                assert(false);
            }
        }
        None
    }

    /// All stored file records, in insertion order.
    pub fn list_files(&self) -> (r: Vec<File>)
        ensures
            r@.map_values(|f: File| f@) == self.files_seq(),
    {
        let mut out: Vec<File> = Vec::new();
        let mut i: usize = 0;
        while i < self.files.len()
            invariant
                i <= self.files@.len(),
                out@.len() == i,
                forall|j: int| 0 <= j < i ==> (#[trigger] out@[j])@ == self.files@[j].1@,
            decreases self.files@.len() - i,
        {
            out.push(self.files[i].1.clone());
            i = i + 1;
        }
        proof {
            assert(out@.map_values(|f: File| f@) =~= self.files_seq());
        }
        out
    }

    /// The filetree of a user: their stored tree, or an empty one.
    pub fn get_filetree(&self, user: &PublicUser) -> (r: FileTree)
        requires
            self.wf(),
        ensures
            self.trees().contains_key(user.key()) ==> r@ == self.trees()[user.key()],
            !self.trees().contains_key(user.key())
                ==> r@ == (TreeView::Dir {
                    name: Seq::<u8>::empty(),
                    children: Seq::<TreeView>::empty(),
                }),
    {
        proof {
            lemma_tree_entries(self.filetrees@);
        }
        let mut i: usize = 0;
        while i < self.filetrees.len()
            invariant
                i <= self.filetrees@.len(),
                self.wf(),
                forall|j: int| 0 <= j < i
                    ==> (#[trigger] self.filetrees@[j]).0.key() != user.key(),
            decreases self.filetrees@.len() - i,
        {
            if &self.filetrees[i].0 == user {
                proof {
                    lemma_tree_entries(self.filetrees@);
                }
                return clone_tree(&self.filetrees[i].1);
            }
            i = i + 1;
        }
        proof {
            lemma_tree_entries(self.filetrees@);
            if self.trees().contains_key(user.key()) {
                let j = choose|j: int| 0 <= j < self.filetrees@.len()
                    && self.filetrees@[j].0.key() == user.key();
                assert(false);
            }
        }
        FileTree::new()
    }
}

/// Removing one entry removes its key from the map.
pub proof fn lemma_file_entries_remove(s: Seq<(crate::hash::Hash, File)>, i: int)
    requires
        file_keys_unique(s),
        0 <= i < s.len(),
    ensures
        file_entries(s.remove(i)) == file_entries(s).remove(s[i].0@),
    decreases s.len(),
{
    let s2 = s.remove(i);
    if i == s.len() - 1 {
        assert(s2 =~= s.drop_last());
        lemma_file_entries(s.drop_last());
        assert(!file_entries(s.drop_last()).contains_key(s[i].0@));
        assert(file_entries(s2) =~= file_entries(s).remove(s[i].0@));
    } else {
        assert(s2.drop_last() =~= s.drop_last().remove(i));
        assert(s2.last() == s.last());
        lemma_file_entries_remove(s.drop_last(), i);
        assert(s[i].0@ != s.last().0@);
        assert(file_entries(s2) =~= file_entries(s).remove(s[i].0@));
    }
}

impl GroupStore {
    /// The index of the record stored under a hash, if any.
    fn find_file_idx(&self, hash: &crate::hash::Hash) -> (r: Option<usize>)
        requires
            self.wf(),
        ensures
            match r {
                Some(i) => i < self.files@.len() && self.files@[i as int].0@ == hash@,
                None => !self.files().contains_key(hash@),
            },
    {
        let mut i: usize = 0;
        while i < self.files.len()
            invariant
                i <= self.files@.len(),
                self.wf(),
                forall|j: int| 0 <= j < i ==> (#[trigger] self.files@[j]).0@ != hash@,
            decreases self.files@.len() - i,
        {
            if crate::user::bytes_eq(self.files[i].0.bytes(), hash.bytes()) {
                return Some(i);
            }
            i = i + 1;
        }
        proof {
            lemma_file_entries(self.files@);
            if self.files().contains_key(hash@) {
                let j = choose|j: int| 0 <= j < self.files@.len() && self.files@[j].0@ == hash@;
                assert(false);
            }
        }
        None
    }

    /// The index of the tree stored under a user, if any.
    fn find_tree_idx(&self, user: &PublicUser) -> (r: Option<usize>)
        requires
            self.wf(),
        ensures
            match r {
                Some(i) => i < self.filetrees@.len()
                    && self.filetrees@[i as int].0.key() == user.key(),
                None => !self.trees().contains_key(user.key()),
            },
    {
        let mut i: usize = 0;
        while i < self.filetrees.len()
            invariant
                i <= self.filetrees@.len(),
                self.wf(),
                forall|j: int| 0 <= j < i
                    ==> (#[trigger] self.filetrees@[j]).0.key() != user.key(),
            decreases self.filetrees@.len() - i,
        {
            if &self.filetrees[i].0 == user {
                return Some(i);
            }
            i = i + 1;
        }
        proof {
            lemma_tree_entries(self.filetrees@);
            if self.trees().contains_key(user.key()) {
                let j = choose|j: int| 0 <= j < self.filetrees@.len()
                    && self.filetrees@[j].0.key() == user.key();
                assert(false);
            }
        }
        None
    }

    /// The user's tree in the table, or the empty root.
    pub open spec fn tree_of(&self, ukey: Seq<u8>) -> TreeView {
        if self.trees().contains_key(ukey) {
            self.trees()[ukey]
        } else {
            empty_dir()
        }
    }

    /// Writes a record into the `files` table, keyed by its own hash.
    fn put_file(&mut self, f: File)
        requires
            old(self).wf(),
            unique_keys(f@.users),
            1 <= f@.block_size <= 16777216,
        ensures
            final(self).wf(),
            final(self).trees() == old(self).trees(),
            final(self).files() == old(self).files().insert(f@.hash, f@),
            final(self).filetrees@ == old(self).filetrees@,
    {
        proof {
            lemma_file_entries(self.files@);
        }
        let hash_copy = f.get_hash().clone();
        match self.find_file_idx(f.get_hash()) {
            Some(i) => {
                let ghost pre = self.files@;
                let elem = &mut self.files[i];
                *elem = (hash_copy, f);
                proof {
                    assert(self.files@ =~= pre.update(i as int, (hash_copy, f)));
                    lemma_file_entries_update(pre, i as int, self.files@[i as int]);
                    assert(file_entries(self.files@)
                        =~= file_entries(pre).insert(f@.hash, f@));
                }
            },
            None => {
                let ghost pre = self.files@;
                self.files.push((hash_copy, f));
                proof {
                    assert(self.files@.drop_last() =~= pre);
                    assert(file_entries(self.files@)
                        =~= file_entries(pre).insert(f@.hash, f@));
                }
            },
        }
        proof {
            assert(tree_entries(self.filetrees@) == tree_entries(old(self).filetrees@));
        }
    }

    /// Writes a user's tree into the `filetrees` table.
    fn put_tree(&mut self, user: &PublicUser, tree: FileTree)
        requires
            old(self).wf(),
        ensures
            final(self).wf(),
            final(self).files() == old(self).files(),
            final(self).files@ == old(self).files@,
            final(self).trees() == old(self).trees().insert(user.key(), tree@),
    {
        proof {
            lemma_tree_entries(self.filetrees@);
        }
        match self.find_tree_idx(user) {
            Some(i) => {
                let ghost pre = self.filetrees@;
                let elem = &mut self.filetrees[i];
                *elem = (user.clone(), tree);
                proof {
                    assert(self.filetrees@ =~= pre.update(i as int, self.filetrees@[i as int]));
                    lemma_tree_entries_update(pre, i as int, self.filetrees@[i as int]);
                    assert(tree_entries(self.filetrees@)
                        =~= tree_entries(pre).insert(user.key(), tree@));
                }
            },
            None => {
                let ghost pre = self.filetrees@;
                self.filetrees.push((user.clone(), tree));
                proof {
                    assert(self.filetrees@.drop_last() =~= pre);
                    assert(tree_entries(self.filetrees@)
                        =~= tree_entries(pre).insert(user.key(), tree@));
                }
            },
        }
    }

    /// Adds a file to a user, atomically: on success the record is upserted
    /// under its hash — its owner set merged with the stored record's and
    /// with this user — and a leaf is inserted into the user's filetree; on
    /// failure neither table changes.
    pub fn add_file(&mut self, user: &PublicUser, file: File) -> (r: Result<(), DspfsError>)
        requires
            old(self).wf(),
            unique_keys(file@.users),
            1 <= file@.block_size <= 16777216,
        ensures
            final(self).wf(),
            r is Err ==> {
                &&& final(self).trees() == old(self).trees()
                &&& final(self).files() == old(self).files()
            },
            r is Ok <==> (!is_abs(file@.path) && norm_comps(file@.path).len() > 0
                && insert_ok(old(self).tree_of(user.key()), norm_comps(file@.path))),
            r is Ok ==> ({
                &&& final(self).files().contains_key(file@.hash)
                &&& ({
                    let rec = final(self).files()[file@.hash];
                    &&& rec.path == file@.path
                    &&& rec.hash == file@.hash
                    &&& rec.block_size == file@.block_size
                    &&& rec.block_hashes == file@.block_hashes
                    &&& rec.hashing_algorithm == file@.hashing_algorithm
                    &&& unique_keys(rec.users)
                    &&& forall|k: Seq<u8>| has_key(rec.users, k) == (k == user.key()
                        || has_key(file@.users, k)
                        || (old(self).files().contains_key(file@.hash)
                            && has_key(old(self).files()[file@.hash].users, k)))
                    &&& final(self).files() == old(self).files().insert(file@.hash, rec)
                    &&& spec_insert(
                        old(self).tree_of(user.key()),
                        norm_comps(file@.path),
                        rec,
                    ) == Some(final(self).trees()[user.key()])
                    &&& final(self).trees() == old(self).trees().insert(
                        user.key(),
                        final(self).trees()[user.key()],
                    )
                })
            }),
    {
        let mut f = file;
        f.add_user(user);
        let ghost f1 = f@;
        match self.find_file_idx(f.get_hash()) {
            Some(i) => {
                proof {
                    lemma_file_entries(self.files@);
                    assert(self.files@[i as int].0@ == f@.hash);
                    assert(self.files().contains_key(f@.hash));
                    assert(self.files()[f@.hash] == self.files@[i as int].1@);
                }
                let existing = &self.files[i].1;
                proof {
                    assert(existing@ == old(self).files()[file@.hash]);
                }
                f.merge_users(existing);
                proof {
                    assert forall|k: Seq<u8>| has_key(f@.users, k) == (k == user.key()
                        || has_key(file@.users, k)
                        || has_key(old(self).files()[file@.hash].users, k)) by {
                        assert(has_key(f@.users, k)
                            == (has_key(f1.users, k) || has_key(existing@.users, k)));
                        assert(has_key(f1.users, k)
                            == (has_key(file@.users, k) || k == user.key()));
                    }
                }
            },
            None => {
                proof {
                    assert(!old(self).files().contains_key(file@.hash));
                    assert forall|k: Seq<u8>| has_key(f@.users, k) == (k == user.key()
                        || has_key(file@.users, k)) by {
                        assert(has_key(f1.users, k)
                            == (has_key(file@.users, k) || k == user.key()));
                    }
                }
            },
        }
        let ghost fmid = f@;
        proof {
            assert forall|k: Seq<u8>| has_key(fmid.users, k) == (k == user.key()
                || has_key(file@.users, k)
                || (old(self).files().contains_key(file@.hash)
                    && has_key(old(self).files()[file@.hash].users, k))) by {
            }
        }
        let mut tree = self.get_filetree(user);
        let leaf = f.clone();
        let path_copy = clone_bytes(f.get_path());
        match tree.insert(path_copy.as_slice(), leaf) {
            Err(e) => {
                proof {
                    crate::filetree::lemma_insert_ok(
                        old(self).tree_of(user.key()),
                        norm_comps(file@.path),
                        f@,
                    );
                }
                Err(e)
            },
            Ok(()) => {
                proof {
                    crate::filetree::lemma_insert_ok(
                        old(self).tree_of(user.key()),
                        norm_comps(file@.path),
                        f@,
                    );
                }
                let ghost f2 = f@;
                proof {
                    assert(f2 == fmid);
                }
                self.put_file(f);
                self.put_tree(user, tree);
                proof {
                    lemma_tree_entries(self.filetrees@);
                    assert(self.files()[file@.hash] == f2);
                }
                Ok(())
            },
        }
    }
}

impl GroupStore {
    /// Deletes a file from a user: removes the leaf at the record's path
    /// from the user's filetree, removes the user from the stored record's
    /// owner set, and drops the record once no owner is left.
    pub fn delete_file(&mut self, user: &PublicUser, file: &File) -> (r: Result<(), DspfsError>)
        requires
            old(self).wf(),
        ensures
            final(self).wf(),
            r is Ok,
            ({
                let comps = norm_comps(file@.path);
                if old(self).trees().contains_key(user.key()) && !is_abs(file@.path)
                    && comps.len() > 0
                    && spec_delete(old(self).trees()[user.key()], comps, false) is Some {
                    final(self).trees() == old(self).trees().insert(
                        user.key(),
                        spec_delete(old(self).trees()[user.key()], comps, false)->Some_0.0,
                    )
                } else {
                    final(self).trees() == old(self).trees()
                }
            }),
            ({
                if old(self).files().contains_key(file@.hash) {
                    let rec = old(self).files()[file@.hash];
                    if rec.users.len() == 0 || (rec.users.len() == 1
                        && has_key(rec.users, user.key())) {
                        final(self).files() == old(self).files().remove(file@.hash)
                    } else {
                        final(self).files().contains_key(file@.hash) && ({
                            let rec2 = final(self).files()[file@.hash];
                            &&& rec2.path == rec.path
                            &&& rec2.hash == rec.hash
                            &&& rec2.block_size == rec.block_size
                            &&& rec2.block_hashes == rec.block_hashes
                            &&& rec2.hashing_algorithm == rec.hashing_algorithm
                            &&& unique_keys(rec2.users)
                            &&& forall|k: Seq<u8>| #![all_triggers] has_key(rec2.users, k)
                                == (has_key(rec.users, k) && k != user.key())
                            &&& final(self).files() == old(self).files().insert(
                                file@.hash,
                                rec2,
                            )
                        })
                    }
                } else {
                    final(self).files() == old(self).files()
                }
            }),
    {
        match self.find_tree_idx(user) {
            None => {
            },
            Some(j) => {
                proof {
                    lemma_tree_entries(self.filetrees@);
                }
                let mut tree = clone_tree(&self.filetrees[j].1);
                let ghost tv0 = tree@;
                let path_copy = clone_bytes(file.get_path());
                let _removed = tree.delete(path_copy.as_slice(), false);
                self.put_tree(user, tree);
                proof {
                    let comps = norm_comps(file@.path);
                    if !(!is_abs(file@.path) && comps.len() > 0
                        && spec_delete(tv0, comps, false) is Some) {
                        assert(self.trees()
                            =~= old(self).trees().insert(user.key(), tv0));
                        assert(self.trees() =~= old(self).trees());
                    }
                }
            },
        }
        let ghost trees_mid = self.trees();
        match self.find_file_idx(file.get_hash()) {
            None => {
                proof {
                    lemma_file_entries(self.files@);
                }
            },
            Some(i) => {
                proof {
                    lemma_file_entries(self.files@);
                    assert(self.files@[i as int].0@ == file@.hash);
                    assert(self.files()[file@.hash] == self.files@[i as int].1@);
                }
                let mut rec = self.files[i].1.clone();
                let ghost rec0 = rec@;
                let was_owner = rec.remove_user(user);
                if rec.num_owning_users() > 0 {
                    self.put_file(rec);
                } else {
                    let ghost pre = self.files@;
                    self.files.remove(i);
                    proof {
                        lemma_file_entries_remove(pre, i as int);
                    }
                }
                proof {
                    if rec0.users.len() == 0 || (rec0.users.len() == 1
                        && has_key(rec0.users, user.key())) {
                        assert(self.files() =~= old(self).files().remove(file@.hash));
                    } else {
                        if rec0.users.len() >= 1 && !has_key(rec0.users, user.key()) {
                            assert(rec0.users[0].key != user.key());
                            assert(has_key(rec0.users, rec0.users[0].key));
                        }
                        if rec0.users.len() >= 2 {
                            assert(rec0.users[0].key != rec0.users[1].key);
                            assert(has_key(rec0.users, rec0.users[0].key));
                            assert(has_key(rec0.users, rec0.users[1].key));
                        }
                    }
                    assert(self.trees() == trees_mid);
                }
            },
        }
        Ok(())
    }

    /// The stored record for a hash, but only if the local user possesses
    /// the content: only locally-held blocks are ever served.
    pub fn get_local_file(&self, self_user: &PublicUser, hash: &crate::hash::Hash) -> (r: Option<
        File,
    >)
        requires
            self.wf(),
        ensures
            (self.files().contains_key(hash@)
                && has_key(self.files()[hash@].users, self_user.key())) <==> r is Some,
            r matches Some(f) ==> f@ == self.files()[hash@] && 1 <= f@.block_size <= 16777216,
    {
        match self.get_file(hash) {
            None => None,
            Some(f) => {
                if f.is_owned_by(self_user) {
                    Some(f)
                } else {
                    None
                }
            },
        }
    }
}

/// The tree a user's table holds after the delete step of an update: the
/// leaf at `path` removed where that succeeds, the tree unchanged where it
/// does not.
pub open spec fn tree_after_delete(t: TreeView, path: Seq<u8>) -> TreeView {
    let comps = norm_comps(path);
    if !is_abs(path) && comps.len() > 0 && spec_delete(t, comps, false) is Some {
        spec_delete(t, comps, false)->Some_0.0
    } else {
        t
    }
}

/// The file records of the leaves directly among `cs`, in order;
/// subdirectories are not entered.
pub open spec fn direct_files(cs: Seq<TreeView>) -> Seq<FileView>
    decreases cs.len(),
{
    if cs.len() == 0 {
        Seq::empty()
    } else {
        match cs[0] {
            TreeView::Leaf { file, .. } => seq![file] + direct_files(cs.drop_first()),
            TreeView::Dir { .. } => direct_files(cs.drop_first()),
        }
    }
}

pub proof fn lemma_direct_files_push(cs: Seq<TreeView>, c: TreeView)
    ensures
        c is Leaf ==> direct_files(cs.push(c)) == direct_files(cs) + seq![c->Leaf_file],
        c is Dir ==> direct_files(cs.push(c)) == direct_files(cs),
    decreases cs.len(),
{
    if cs.len() == 0 {
        assert(cs.push(c)[0] == c);
        assert(cs.push(c).drop_first() =~= Seq::<TreeView>::empty());
        match c {
            TreeView::Leaf { file, .. } => {
                assert(direct_files(cs.push(c))
                    == seq![file] + direct_files(cs.push(c).drop_first()));
                assert(direct_files(cs.push(c)) =~= direct_files(cs) + seq![file]);
            },
            TreeView::Dir { .. } => {
                assert(direct_files(cs.push(c)) == direct_files(cs.push(c).drop_first()));
                assert(direct_files(cs.push(c)) =~= direct_files(cs));
            },
        }
    } else {
        assert(cs.push(c).drop_first() =~= cs.drop_first().push(c));
        lemma_direct_files_push(cs.drop_first(), c);
        assert(cs.push(c)[0] == cs[0]);
        match cs[0] {
            TreeView::Leaf { file, .. } => {
                assert(direct_files(cs.push(c))
                    == seq![file] + direct_files(cs.drop_first().push(c)));
                assert(direct_files(cs) == seq![file] + direct_files(cs.drop_first()));
                if c is Leaf {
                    assert(direct_files(cs.push(c))
                        =~= direct_files(cs) + seq![c->Leaf_file]);
                } else {
                    assert(direct_files(cs.push(c)) =~= direct_files(cs));
                }
            },
            TreeView::Dir { .. } => {
                assert(direct_files(cs.push(c)) == direct_files(cs.drop_first().push(c)));
                assert(direct_files(cs) == direct_files(cs.drop_first()));
                if c is Leaf {
                    assert(direct_files(cs.push(c))
                        =~= direct_files(cs) + seq![c->Leaf_file]);
                } else {
                    assert(direct_files(cs.push(c)) =~= direct_files(cs));
                }
            },
        }
    }
}

// ---------------------------------------------------------------------------
// The block service
// ---------------------------------------------------------------------------

/// Serves one block of a file from its contents: the bytes at
/// `index * block_size`, up to one block long, with the last block possibly
/// short.  An index at or past the block count addresses nothing.
pub fn get_block_contents(file: &File, contents: &[u8], index: u64) -> (r: Option<Vec<u8>>)
    requires
        1 <= file@.block_size <= 16777216,
    ensures
        (index < spec_block_count(contents@.len(), file@.block_size as nat)) <==> r is Some,
        r matches Some(b) ==> b@ == spec_block(
            contents@,
            file@.block_size as nat,
            index as nat,
        ),
{
    let bs = file.get_block_size() as usize;
    let len = contents.len();
    let count: usize = if len == 0 {
        1
    } else {
        (len - 1) / bs + 1
    };
    proof {
        assert(count == spec_block_count(contents@.len(), bs as nat));
        if len > 0 {
            vstd::arithmetic::div_mod::lemma_fundamental_div_mod((len - 1) as int, bs as int);
            assert((count - 1) * bs <= len - 1) by (nonlinear_arith)
                requires
                    count - 1 == (len - 1) as int / (bs as int),
                    bs >= 1,
                    len >= 1,
            ;
        }
    }
    if index >= count as u64 {
        return None;
    }
    let i = index as usize;
    proof {
        if len == 0 {
            assert(i == 0);
            assert(i * bs == 0) by (nonlinear_arith)
                requires
                    i == 0,
            ;
        } else {
            assert(i * bs <= (count - 1) * bs) by (nonlinear_arith)
                requires
                    0 <= i <= count - 1,
                    bs >= 1,
            ;
        }
    }
    let start: usize = i * bs;
    let end: usize = if len - start > bs {
        start + bs
    } else {
        len
    };
    let block = vstd::slice::slice_subrange(contents, start, end);
    proof {
        assert((i + 1) * (bs as int) == i * (bs as int) + bs) by (nonlinear_arith);
        assert(start == (i as nat) * (bs as nat));
        assert(end == if ((i as nat) + 1) * (bs as nat) <= contents@.len() {
            ((i as nat) + 1) * (bs as nat)
        } else {
            contents@.len()
        });
        assert(block@ =~= spec_block(contents@, bs as nat, i as nat));
    }
    Some(vstd::slice::slice_to_vec(block))
}

/// Block service honesty: for a record indexed from some contents, every
/// served block hashes to the record's block hash at that index; each block
/// but the last is exactly one block size long, and the last is the
/// remaining tail.
pub proof fn lemma_block_service_honesty(f: FileView, contents: Seq<u8>, index: int)
    requires
        f.indexed_from(contents),
        f.block_size >= 1,
        0 <= index < f.block_hashes.len(),
    ensures
        f.block_hashes[index] == blake3_of(
            spec_block(contents, f.block_size as nat, index as nat),
        ),
        index < f.block_hashes.len() - 1
            ==> spec_block(contents, f.block_size as nat, index as nat).len() == f.block_size,
        index == f.block_hashes.len() - 1
            ==> spec_block(contents, f.block_size as nat, index as nat).len()
                == contents.len() - (f.block_hashes.len() - 1) * (f.block_size as int),
{
    let bs = f.block_size as int;
    let len = contents.len() as int;
    let n = f.block_hashes.len() as int;
    assert(n == spec_block_count(contents.len(), f.block_size as nat));
    if len == 0 {
        assert(n == 1);
        assert(index == 0);
        assert(spec_block(contents, f.block_size as nat, 0).len() == 0);
        assert(0int * bs == 0) by (nonlinear_arith);
    } else {
        vstd::arithmetic::div_mod::lemma_fundamental_div_mod(len - 1, bs);
        assert((n - 1) * bs <= len - 1 && len <= n * bs) by (nonlinear_arith)
            requires
                n - 1 == (len - 1) / bs,
                bs >= 1,
                len >= 1,
        ;
        if index < n - 1 {
            assert((index + 1) * bs <= (n - 1) * bs && index * bs + bs == (index + 1) * bs)
                by (nonlinear_arith)
                requires
                    0 <= index,
                    index + 1 <= n - 1,
                    bs >= 1,
            ;
            assert(spec_block(contents, f.block_size as nat, index as nat).len() == bs);
        } else {
            assert(index * bs <= len - 1 && index * bs + bs == (index + 1) * bs)
                by (nonlinear_arith)
                requires
                    index == n - 1,
                    (n - 1) * bs <= len - 1,
                    bs >= 1,
            ;
            assert((index + 1) * bs >= len);
            assert(spec_block(contents, f.block_size as nat, index as nat).len()
                == len - (n - 1) * bs);
        }
    }
}

/// A record whose owner set holds exactly one key holds exactly one user:
/// adding the same file for the same user again cannot grow it.
pub proof fn lemma_owner_set_idempotent(users: Seq<PublicUserView>, ukey: Seq<u8>)
    requires
        unique_keys(users),
        forall|k: Seq<u8>| #![all_triggers] has_key(users, k) == (k == ukey),
    ensures
        users.len() == 1,
        users[0].key == ukey,
{
    assert(has_key(users, ukey));
    let i = choose|i: int| 0 <= i < users.len() && users[i].key == ukey;
    if users.len() >= 2 {
        let j: int = if i == 0 {
            1
        } else {
            0
        };
        assert(has_key(users, users[j].key));
        assert(users[j].key == ukey);
        assert(false);
    }
    assert(has_key(users, users[0].key));
}


impl GroupStore {
    /// The files directly under `path` in a user's filetree: the file of a
    /// leaf addressed exactly, or the files of the leaves directly inside
    /// an addressed directory.  Subdirectories are not entered.
    pub fn get_files_from_user(&self, user: &PublicUser, path: &[u8]) -> (r: Result<
        Vec<File>,
        DspfsError,
    >)
        requires
            self.wf(),
        ensures
            r matches Ok(v) ==> ({
                &&& !is_abs(path@)
                &&& spec_find(self.tree_of(user.key()), norm_comps(path@)) matches Some(node)
                    && match node {
                        TreeView::Leaf { file, .. } => v@.map_values(|f: File| f@)
                            == seq![file],
                        TreeView::Dir { children, .. } => v@.map_values(|f: File| f@)
                            == direct_files(children),
                    }
            }),
            r is Err ==> r == Err::<Vec<File>, DspfsError>(DspfsError::NotFound)
                && (is_abs(path@)
                    || spec_find(self.tree_of(user.key()), norm_comps(path@)) is None),
    {
        let tree = self.get_filetree(user);
        let node = match tree.find(path) {
            Some(n) => n,
            None => {
                return Err(DspfsError::NotFound);
            },
        };
        match node {
            FileTree::Leaf { name: _, file } => {
                let mut out: Vec<File> = Vec::new();
                out.push(file.clone());
                proof {
                    assert(out@.map_values(|f: File| f@) =~= seq![file@]);
                }
                Ok(out)
            },
            FileTree::Node { name: _, children } => {
                proof {
                    crate::filetree::lemma_views_of(children@);
                }
                let ghost cviews = views_of(children@);
                let mut out: Vec<File> = Vec::new();
                proof {
                    assert(out@.map_values(|f: File| f@)
                        =~= direct_files(cviews.subrange(0, 0)));
                }
                let mut i: usize = 0;
                while i < children.len()
                    invariant
                        i <= children@.len(),
                        cviews == views_of(children@),
                        cviews.len() == children@.len(),
                        forall|j: int| 0 <= j < children@.len()
                            ==> cviews[j] == tree_view(children@[j]),
                        out@.map_values(|f: File| f@)
                            == direct_files(cviews.subrange(0, i as int)),
                    decreases children@.len() - i,
                {
                    let ghost pre = out@;
                    match &children[i] {
                        FileTree::Leaf { name: _, file } => {
                            out.push(file.clone());
                            proof {
                                assert(out@.map_values(|f: File| f@)
                                    =~= pre.map_values(|f: File| f@) + seq![file@]);
                            }
                        },
                        FileTree::Node { .. } => {
                        },
                    }
                    proof {
                        lemma_direct_files_push(
                            cviews.subrange(0, i as int),
                            cviews[i as int],
                        );
                        assert(cviews.subrange(0, i + 1)
                            =~= cviews.subrange(0, i as int).push(cviews[i as int]));
                        assert(out@.map_values(|f: File| f@)
                            =~= direct_files(cviews.subrange(0, i + 1)));
                    }
                    i = i + 1;
                }
                proof {
                    assert(cviews.subrange(0, cviews.len() as int) =~= cviews);
                }
                Ok(out)
            },
        }
    }

    /// Changes a user's file from `old_file` to `new`, as one transaction:
    /// the deletion and the insertion happen together, or — if the new
    /// record cannot be inserted — nothing happens at all.
    pub fn update_file(&mut self, user: &PublicUser, old_file: &File, new: File) -> (r: Result<
        (),
        DspfsError,
    >)
        requires
            old(self).wf(),
            unique_keys(new@.users),
            1 <= new@.block_size <= 16777216,
        ensures
            final(self).wf(),
            r is Err ==> {
                &&& final(self).trees() == old(self).trees()
                &&& final(self).files() == old(self).files()
            },
            r is Ok <==> (!is_abs(new@.path) && norm_comps(new@.path).len() > 0
                && insert_ok(
                tree_after_delete(old(self).tree_of(user.key()), old_file@.path),
                norm_comps(new@.path),
            )),
            r is Ok ==> ({
                &&& final(self).files().contains_key(new@.hash)
                &&& final(self).trees().contains_key(user.key())
                &&& spec_find(final(self).trees()[user.key()], norm_comps(new@.path))
                    == Some(
                    TreeView::Leaf {
                        name: norm_comps(new@.path).last(),
                        file: final(self).files()[new@.hash],
                    },
                )
            }),
            r is Ok ==> forall|h: Seq<u8>| h != old_file@.hash && h != new@.hash ==> (
                (#[trigger] final(self).files().contains_key(h))
                    == old(self).files().contains_key(h)
                && (old(self).files().contains_key(h)
                    ==> final(self).files()[h] == old(self).files()[h])),
            (r is Ok && old_file@.hash != new@.hash) ==> ({
                if old(self).files().contains_key(old_file@.hash) {
                    let rec = old(self).files()[old_file@.hash];
                    if rec.users.len() == 0 || (rec.users.len() == 1
                        && has_key(rec.users, user.key())) {
                        !final(self).files().contains_key(old_file@.hash)
                    } else {
                        final(self).files().contains_key(old_file@.hash) && ({
                            let rec2 = final(self).files()[old_file@.hash];
                            &&& rec2.path == rec.path
                            &&& rec2.hash == rec.hash
                            &&& rec2.block_size == rec.block_size
                            &&& rec2.block_hashes == rec.block_hashes
                            &&& rec2.hashing_algorithm == rec.hashing_algorithm
                            &&& unique_keys(rec2.users)
                            &&& forall|k: Seq<u8>| #![all_triggers] has_key(rec2.users, k)
                                == (has_key(rec.users, k) && k != user.key())
                        })
                    }
                } else {
                    !final(self).files().contains_key(old_file@.hash)
                }
            }),
    {
        // Dry run: check on a scratch tree that the insertion will succeed,
        // before anything is touched.
        let mut scratch = self.get_filetree(user);
        let old_path = clone_bytes(old_file.get_path());
        let _ = scratch.delete(old_path.as_slice(), false);
        let ghost scratch_after_delete = scratch@;
        proof {
            assert(scratch_after_delete
                == tree_after_delete(old(self).tree_of(user.key()), old_file@.path));
        }
        let probe = new.clone();
        let new_path = clone_bytes(new.get_path());
        if scratch.insert(new_path.as_slice(), probe).is_err() {
            proof {
                crate::filetree::lemma_insert_ok(
                    scratch_after_delete,
                    norm_comps(new@.path),
                    new@,
                );
            }
            return Err(DspfsError::InvalidPath);
        }
        proof {
            crate::filetree::lemma_insert_ok(scratch_after_delete, norm_comps(new@.path), new@);
            assert(insert_ok(scratch_after_delete, norm_comps(new@.path)));
        }
        match self.delete_file(user, old_file) {
            Ok(()) => {
            },
            Err(_) => {
                return Err(DspfsError::Internal);
            },
        }
        let ghost tree_before_add = self.tree_of(user.key());
        let ghost files_mid = self.files();
        proof {
            let comps_old = norm_comps(old_file@.path);
            if old(self).trees().contains_key(user.key()) {
                if !is_abs(old_file@.path) && comps_old.len() > 0
                    && spec_delete(old(self).trees()[user.key()], comps_old, false) is Some {
                    assert(tree_before_add == spec_delete(
                        old(self).trees()[user.key()],
                        comps_old,
                        false,
                    )->Some_0.0);
                } else {
                    assert(tree_before_add == old(self).trees()[user.key()]);
                }
            } else {
                assert(tree_before_add == empty_dir());
            }
            assert(tree_before_add == scratch_after_delete);
            assert(insert_ok(tree_before_add, norm_comps(new@.path)));
        }
        match self.add_file(user, new) {
            Ok(()) => {
                proof {
                    let comps = norm_comps(new@.path);
                    let rec = self.files()[new@.hash];
                    crate::filetree::lemma_insert_find(tree_before_add, comps, rec);
                    assert(self.files() == files_mid.insert(new@.hash, rec));
                    assert forall|h: Seq<u8>| h != old_file@.hash && h != new@.hash implies (
                        (#[trigger] self.files().contains_key(h))
                            == old(self).files().contains_key(h)
                        && (old(self).files().contains_key(h)
                            ==> self.files()[h] == old(self).files()[h])) by {
                        assert(self.files().contains_key(h) == files_mid.contains_key(h));
                        assert(files_mid.contains_key(h)
                            == old(self).files().contains_key(h));
                    }
                }
                Ok(())
            },
            Err(_) => Err(DspfsError::Internal),
        }
    }
}

} // verus!
