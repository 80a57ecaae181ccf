use vstd::prelude::*;
use crate::error::DspfsError;
use crate::global_store::{has_group, InMemoryStore};
use crate::group::StoredGroup;
use crate::message::GroupUuid;
use crate::user::{PrivateUser, PublicUser};

verus! {

/// Starts configuring a node.
pub struct DspfsBuilder;

/// A builder that will use a fresh in-memory global store.
pub struct DspfsBuilderInMemory;

/// A builder holding a configured global store.
pub struct DspfsBuilderWithStore {
    /// The configured global store.
    pub store: InMemoryStore,
}

impl DspfsBuilder {
    /// Begins building a node.
    pub fn new() -> (r: Self) {
        DspfsBuilder
    }

    /// Chooses a fresh in-memory global store.
    pub fn in_memory(self) -> (r: DspfsBuilderInMemory) {
        DspfsBuilderInMemory
    }

    /// Uses an already configured global store.
    pub fn with_store(self, store: InMemoryStore) -> (r: DspfsBuilderWithStore)
        ensures
            r.store == store,
    {
        DspfsBuilderWithStore { store }
    }
}

impl DspfsBuilderInMemory {
    /// Stores a user's identity and signing key document in a fresh store.
    pub fn with_user(self, user_and_doc: (PrivateUser, Vec<u8>)) -> (r: Result<
        DspfsBuilderWithStore,
        DspfsError,
    >)
        ensures
            r matches Ok(b) ==> {
                &&& b.store.wf()
                &&& b.store.self_user() == Some(user_and_doc.0.pu())
                &&& b.store.key_doc() == Some(user_and_doc.1@)
                &&& b.store.groups_seq().len() == 0
            },
    {
        let (user, document) = user_and_doc;
        let mut store = InMemoryStore::new();
        match store.set_signing_key(document) {
            Ok(()) => {
            },
            Err(e) => {
                return Err(e);
            },
        }
        let public = user.public_user().clone();
        match store.set_self_user(public) {
            Ok(()) => {
            },
            Err(e) => {
                return Err(e);
            },
        }
        Ok(DspfsBuilderWithStore { store })
    }
}

impl DspfsBuilderWithStore {
    /// Finishes the build: the node core around the configured store.
    pub fn build(self) -> (r: Dspfs)
        ensures
            r.store == self.store,
    {
        Dspfs { store: self.store }
    }
}

/// The node's core state: the global store.  The network listener, the
/// per-group store handles and all I/O live in the surrounding shell,
/// which drives this state.
pub struct Dspfs {
    /// The global store.
    pub store: InMemoryStore,
}

impl Dspfs {
    /// Registers a new group rooted at `location`.  The caller reports
    /// whether a `.dspfs` folder already stands there; if one does, or if
    /// the store already holds a group with the freshly drawn UUID, the
    /// registration fails and nothing changes.
    pub fn init_group(&mut self, location: Vec<u8>, dspfs_folder_exists: bool) -> (r: Result<
        GroupUuid,
        DspfsError,
    >)
        requires
            old(self).store.wf(),
        ensures
            final(self).store.wf(),
            dspfs_folder_exists ==> r == Err::<GroupUuid, DspfsError>(DspfsError::Conflict)
                && final(self).store.groups_seq() == old(self).store.groups_seq(),
            r matches Ok(uuid) ==> ({
                &&& final(self).store.groups_seq().len() == old(
                    self,
                ).store.groups_seq().len() + 1
                &&& ({
                    let g = final(self).store.groups_seq().last();
                    &&& g.uuid == uuid.value
                    &&& g.location == location@
                    &&& g.members.len() == 0
                })
            }),
            r is Err ==> final(self).store.groups_seq() == old(self).store.groups_seq()
                && r == Err::<GroupUuid, DspfsError>(DspfsError::Conflict),
    {
        if dspfs_folder_exists {
            return Err(DspfsError::Conflict);
        }
        let group = StoredGroup::new(location);
        let uuid = group.uuid;
        match self.store.add_group(group) {
            Ok(()) => Ok(uuid),
            Err(e) => Err(e),
        }
    }

    /// The member set of a group, or `NotFound` if the group is unknown.
    pub fn get_users(&self, uuid: &GroupUuid) -> (r: Result<Vec<PublicUser>, DspfsError>)
        requires
            self.store.wf(),
        ensures
            r is Ok <==> has_group(self.store.groups_seq(), uuid.value),
            r matches Ok(v) ==> exists|i: int|
                0 <= i < self.store.groups_seq().len()
                    && (#[trigger] self.store.groups_seq()[i]).uuid == uuid.value
                    && v@.map_values(|u: PublicUser| u@) == self.store.groups_seq()[i].members,
            r is Err ==> r == Err::<Vec<PublicUser>, DspfsError>(DspfsError::NotFound),
    {
        match self.store.get_group(uuid) {
            None => Err(DspfsError::NotFound),
            Some(g) => {
                let users = g.get_users();
                proof {
                    let i = choose|i: int| 0 <= i < self.store.groups_seq().len()
                        && self.store.groups_seq()[i] == g@;
                    assert(self.store.groups_seq()[i].uuid == uuid.value);
                    assert(users@.map_values(|u: PublicUser| u@)
                        == self.store.groups_seq()[i].members);
                }
                Ok(users)
            },
        }
    }
}

} // verus!
