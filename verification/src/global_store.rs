use vstd::prelude::*;
use crate::error::DspfsError;
use crate::file::unique_keys;
use crate::filetree::clone_bytes;
use crate::group::StoredGroup;
use crate::message::GroupUuid;
use crate::user::{PrivateUser, PublicUser, PublicUserView};

verus! {

/// The model of a stored group.
#[verifier::ext_equal]
pub struct StoredGroupView {
    pub uuid: u128,
    pub members: Seq<PublicUserView>,
    pub location: Seq<u8>,
}

impl View for StoredGroup {
    type V = StoredGroupView;

    open spec fn view(&self) -> StoredGroupView {
        StoredGroupView {
            uuid: self.uuid.value,
            members: self.members(),
            location: self.location@,
        }
    }
}

impl Clone for StoredGroup {
    fn clone(&self) -> (r: Self)
        ensures
            r@ == self@,
            r.uuid == self.uuid,
    {
        let r = StoredGroup {
            uuid: self.uuid,
            users: clone_users_vec(&self.users),
            location: clone_bytes(&self.location),
        };
        proof {
            assert(r@ =~= self@);
        }
        r
    }
}

/// Copies a list of identities.
fn clone_users_vec(v: &Vec<PublicUser>) -> (r: Vec<PublicUser>)
    ensures
        r@.map_values(|u: PublicUser| u@) == v@.map_values(|u: PublicUser| u@),
{
    let mut out: Vec<PublicUser> = Vec::new();
    let mut i: usize = 0;
    while i < v.len()
        invariant
            i <= v.len(),
            out@.len() == i,
            forall|j: int| 0 <= j < i ==> (#[trigger] out@[j])@ == v@[j]@,
        decreases v.len() - i,
    {
        out.push(v[i].clone());
        i = i + 1;
    }
    proof {
        assert(out@.map_values(|u: PublicUser| u@) =~= v@.map_values(|u: PublicUser| u@));
    }
    out
}

/// Whether a group list holds a group with this UUID.
pub open spec fn has_group(s: Seq<StoredGroupView>, uuid: u128) -> bool {
    exists|i: int| 0 <= i < s.len() && s[i].uuid == uuid
}

/// The in-memory global store: the local user's identity, their signing
/// key document, and the groups they are part of, each UUID at most once.
pub struct InMemoryStore {
    user: Option<PublicUser>,
    signing_key: Option<Vec<u8>>,
    groups: Vec<StoredGroup>,
}

impl InMemoryStore {
    /// The stored identity of the local user.
    pub closed spec fn self_user(&self) -> Option<PublicUserView> {
        match self.user {
            Some(u) => Some(u@),
            None => None,
        }
    }

    /// The stored signing key document.
    pub closed spec fn key_doc(&self) -> Option<Seq<u8>> {
        match self.signing_key {
            Some(k) => Some(k@),
            None => None,
        }
    }

    /// The stored groups, in insertion order.
    pub closed spec fn groups_seq(&self) -> Seq<StoredGroupView> {
        self.groups@.map_values(|g: StoredGroup| g@)
    }

    /// UUIDs are unique and every group's member list is too.
    pub closed spec fn inv(&self) -> bool {
        &&& forall|i: int, j: int| 0 <= i < j < self.groups@.len()
            ==> self.groups@[i]@.uuid != self.groups@[j]@.uuid
        &&& forall|i: int| 0 <= i < self.groups@.len()
            ==> unique_keys((#[trigger] self.groups@[i])@.members)
    }

    /// Well-formedness, as a public name for the invariant.
    pub open spec fn wf(&self) -> bool {
        self.inv()
    }

    /// An empty store.
    pub fn new() -> (r: Self)
        ensures
            r.wf(),
            r.self_user() is None,
            r.key_doc() is None,
            r.groups_seq().len() == 0,
    {
        let r = InMemoryStore { user: None, signing_key: None, groups: Vec::new() };
        proof {
            assert(r.groups_seq() =~= Seq::<StoredGroupView>::empty());
        }
        r
    }

    /// Saves the local user's identity.
    pub fn set_self_user(&mut self, user: PublicUser) -> (r: Result<(), DspfsError>)
        requires
            old(self).wf(),
        ensures
            final(self).wf(),
            r is Ok,
            final(self).self_user() == Some(user@),
            final(self).key_doc() == old(self).key_doc(),
            final(self).groups_seq() == old(self).groups_seq(),
    {
        self.user = Some(user);
        Ok(())
    }

    /// The local user's identity, if stored.
    pub fn get_self_user(&self) -> (r: Option<PublicUser>)
        ensures
            match r {
                Some(u) => self.self_user() == Some(u@),
                None => self.self_user() is None,
            },
    {
        match &self.user {
            Some(u) => Some(u.clone()),
            None => None,
        }
    }

    /// Saves the signing key document.
    pub fn set_signing_key(&mut self, key: Vec<u8>) -> (r: Result<(), DspfsError>)
        requires
            old(self).wf(),
        ensures
            final(self).wf(),
            r is Ok,
            final(self).key_doc() == Some(key@),
            final(self).self_user() == old(self).self_user(),
            final(self).groups_seq() == old(self).groups_seq(),
    {
        self.signing_key = Some(key);
        Ok(())
    }

    /// The signing key document, if stored.
    pub fn get_signing_key(&self) -> (r: Option<Vec<u8>>)
        ensures
            match r {
                Some(k) => self.key_doc() == Some(k@),
                None => self.key_doc() is None,
            },
    {
        match &self.signing_key {
            Some(k) => Some(clone_bytes(k)),
            None => None,
        }
    }

    /// Adds a new group.  Fails with `Conflict`, changing nothing, if a
    /// group with the same UUID is already stored.
    pub fn add_group(&mut self, group: StoredGroup) -> (r: Result<(), DspfsError>)
        requires
            old(self).wf(),
            group.wf(),
        ensures
            final(self).wf(),
            final(self).self_user() == old(self).self_user(),
            final(self).key_doc() == old(self).key_doc(),
            r is Ok <==> !has_group(old(self).groups_seq(), group@.uuid),
            r is Ok ==> final(self).groups_seq() == old(self).groups_seq().push(group@),
            r is Err ==> final(self).groups_seq() == old(self).groups_seq()
                && r == Err::<(), DspfsError>(DspfsError::Conflict),
    {
        if self.find_group_idx(&group.uuid).is_some() {
            proof {
                assert(has_group(self.groups_seq(), group@.uuid));
            }
            return Err(DspfsError::Conflict);
        }
        let ghost pre = self.groups@;
        self.groups.push(group);
        proof {
            assert(self.groups_seq() =~= old(self).groups_seq().push(group@));
            assert forall|i: int, j: int| 0 <= i < j < self.groups@.len()
                implies self.groups@[i]@.uuid != self.groups@[j]@.uuid by {
                if j < self.groups@.len() - 1 {
                    assert(pre[i] == self.groups@[i]);
                    assert(pre[j] == self.groups@[j]);
                } else {
                    assert(pre[i] == self.groups@[i]);
                    assert(!has_group(old(self).groups_seq(), group@.uuid));
                    assert(old(self).groups_seq()[i].uuid != group@.uuid);
                }
            }
            assert forall|i: int| 0 <= i < self.groups@.len()
                implies unique_keys((#[trigger] self.groups@[i])@.members) by {
                if i < self.groups@.len() - 1 {
                    assert(pre[i] == self.groups@[i]);
                }
            }
        }
        Ok(())
    }

    /// The index of the group with a UUID, if any.
    fn find_group_idx(&self, uuid: &GroupUuid) -> (r: Option<usize>)
        ensures
            match r {
                Some(i) => i < self.groups@.len() && self.groups_seq()[i as int].uuid
                    == uuid.value,
                None => !has_group(self.groups_seq(), uuid.value),
            },
    {
        let mut i: usize = 0;
        while i < self.groups.len()
            invariant
                i <= self.groups@.len(),
                forall|j: int| 0 <= j < i ==> self.groups_seq()[j].uuid != uuid.value,
            decreases self.groups@.len() - i,
        {
            if self.groups[i].uuid.value == uuid.value {
                proof {
                    assert(self.groups_seq()[i as int].uuid == uuid.value);
                }
                return Some(i);
            }
            i = i + 1;
        }
        proof {
            if has_group(self.groups_seq(), uuid.value) {
                let j = choose|j: int| 0 <= j < self.groups_seq().len()
                    && self.groups_seq()[j].uuid == uuid.value;
                assert(false);
            }
        }
        None
    }

    /// The group with a UUID, if stored.
    pub fn get_group(&self, uuid: &GroupUuid) -> (r: Option<StoredGroup>)
        requires
            self.wf(),
        ensures
            r is Some <==> has_group(self.groups_seq(), uuid.value),
            r matches Some(g) ==> g@.uuid == uuid.value && g.wf()
                && exists|i: int| 0 <= i < self.groups_seq().len()
                    && self.groups_seq()[i] == g@,
    {
        match self.find_group_idx(uuid) {
            Some(i) => {
                let g = self.groups[i].clone();
                proof {
                    assert(self.groups_seq()[i as int] == g@);
                    assert(has_group(self.groups_seq(), uuid.value));
                }
                Some(g)
            },
            None => None,
        }
    }

    /// All stored groups, in insertion order.
    pub fn get_groups(&self) -> (r: Vec<StoredGroup>)
        ensures
            r@.map_values(|g: StoredGroup| g@) == self.groups_seq(),
    {
        let mut out: Vec<StoredGroup> = Vec::new();
        let mut i: usize = 0;
        while i < self.groups.len()
            invariant
                i <= self.groups@.len(),
                out@.len() == i,
                forall|j: int| 0 <= j < i ==> (#[trigger] out@[j])@ == self.groups_seq()[j],
            decreases self.groups@.len() - i,
        {
            out.push(self.groups[i].clone());
            i = i + 1;
        }
        proof {
            assert(out@.map_values(|g: StoredGroup| g@) =~= self.groups_seq());
        }
        out
    }

    /// Replaces a stored group.  Fails with `NotFound`, changing nothing,
    /// if no group with that UUID is stored.
    pub fn update_group(&mut self, group: &StoredGroup) -> (r: Result<(), DspfsError>)
        requires
            old(self).wf(),
            group.wf(),
        ensures
            final(self).wf(),
            final(self).self_user() == old(self).self_user(),
            final(self).key_doc() == old(self).key_doc(),
            r is Ok <==> has_group(old(self).groups_seq(), group@.uuid),
            r is Ok ==> exists|i: int| 0 <= i < old(self).groups_seq().len()
                && old(self).groups_seq()[i].uuid == group@.uuid
                && final(self).groups_seq() == old(self).groups_seq().update(i, group@),
            r is Err ==> final(self).groups_seq() == old(self).groups_seq()
                && r == Err::<(), DspfsError>(DspfsError::NotFound),
    {
        match self.find_group_idx(&group.uuid) {
            None => Err(DspfsError::NotFound),
            Some(i) => {
                let ghost pre = self.groups@;
                let elem = &mut self.groups[i];
                *elem = group.clone();
                proof {
                    assert(self.groups@ =~= pre.update(i as int, self.groups@[i as int]));
                    assert(self.groups_seq()
                        =~= old(self).groups_seq().update(i as int, group@));
                    assert(has_group(old(self).groups_seq(), group@.uuid));
                }
                Ok(())
            },
        }
    }

    /// Removes a stored group.  Fails with `NotFound`, changing nothing,
    /// if no group with that UUID is stored.
    pub fn delete_group(&mut self, group: &StoredGroup) -> (r: Result<(), DspfsError>)
        requires
            old(self).wf(),
        ensures
            final(self).wf(),
            final(self).self_user() == old(self).self_user(),
            final(self).key_doc() == old(self).key_doc(),
            r is Ok <==> has_group(old(self).groups_seq(), group@.uuid),
            r is Ok ==> exists|i: int| 0 <= i < old(self).groups_seq().len()
                && old(self).groups_seq()[i].uuid == group@.uuid
                && final(self).groups_seq() == old(self).groups_seq().remove(i),
            r is Err ==> final(self).groups_seq() == old(self).groups_seq()
                && r == Err::<(), DspfsError>(DspfsError::NotFound),
    {
        match self.find_group_idx(&group.uuid) {
            None => Err(DspfsError::NotFound),
            Some(i) => {
                let ghost pre = self.groups@;
                self.groups.remove(i);
                proof {
                    assert(self.groups_seq()
                        =~= old(self).groups_seq().remove(i as int));
                    assert(has_group(old(self).groups_seq(), group@.uuid));
                }
                Ok(())
            },
        }
    }
}

impl PrivateUser {
    /// Rebuilds the local private identity from the global store: the
    /// stored public identity and the stored signing key document.  Fails
    /// with `NotFound` if either is missing, and with `BadSignature` if the
    /// stored identity does not match the stored key.
    pub fn load_from_store(store: &InMemoryStore) -> (r: Result<PrivateUser, DspfsError>)
        ensures
            r matches Ok(p) ==> {
                &&& p.wf()
                &&& store.self_user() == Some(p.pu())
                &&& store.key_doc() == Some(p.doc())
            },
            store.self_user() is None || store.key_doc() is None
                ==> r == Err::<PrivateUser, DspfsError>(DspfsError::NotFound),
    {
        let user = match store.get_self_user() {
            Some(u) => u,
            None => {
                return Err(DspfsError::NotFound);
            },
        };
        let doc = match store.get_signing_key() {
            Some(d) => d,
            None => {
                return Err(DspfsError::NotFound);
            },
        };
        PrivateUser::from_parts(user, doc)
    }
}

} // verus!
