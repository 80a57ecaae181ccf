use vstd::prelude::*;
use crate::error::DspfsError;
use ring::signature::KeyPair;

verus! {

/// The Ed25519 public key that `ring` derives from a PKCS#8 key document.
pub uninterp spec fn ed25519_pub_of(doc: Seq<u8>) -> Seq<u8>;

/// The Ed25519 signature over a message, made with the keypair stored in a
/// PKCS#8 key document.  Ed25519 signing is deterministic, so the signature
/// is a function of the document and the message alone.
pub uninterp spec fn ed25519_sign_of(doc: Seq<u8>, msg: Seq<u8>) -> Seq<u8>;

/// Whether an Ed25519 signature over a message verifies under a public key.
pub uninterp spec fn ed25519_verifies(pk: Seq<u8>, msg: Seq<u8>, sig: Seq<u8>) -> bool;

/// Whether `ring` accepts a byte string as a PKCS#8 Ed25519 key document:
/// `Ed25519KeyPair::from_pkcs8` succeeds on it.  Acceptance is a function of
/// the document bytes alone.
pub uninterp spec fn pkcs8_ok(doc: Seq<u8>) -> bool;

/// The number of bytes in an Ed25519 public key.
pub const PUBLIC_KEY_LEN: usize = 32;

/// Relies on `ring::signature::Ed25519KeyPair::generate_pkcs8`: a freshly
/// generated keypair, serialized as a PKCS#8 document.  The result is random,
/// so nothing is promised of its value.
#[verifier::external_body]
fn ed25519_generate_pkcs8() -> (r: Result<Vec<u8>, DspfsError>)
{
    let rng = ring::rand::SystemRandom::new();
    match ring::signature::Ed25519KeyPair::generate_pkcs8(&rng) {
        Ok(doc) => Ok(doc.as_ref().to_vec()),
        Err(_) => Err(DspfsError::Crypto),
    }
}

/// Relies on `ring::signature::Ed25519KeyPair::from_pkcs8` and
/// `KeyPair::public_key`: the 32-byte public key embedded in a PKCS#8
/// document, a function of the document alone.  `from_pkcs8` accepts or
/// rejects the document deterministically, which `pkcs8_ok` names.
#[verifier::external_body]
fn ed25519_public_from_doc(doc: &Vec<u8>) -> (r: Result<Vec<u8>, DspfsError>)
    ensures
        r matches Ok(pk) ==> pk@ == ed25519_pub_of(doc@) && pk@.len() == PUBLIC_KEY_LEN
            && pkcs8_ok(doc@),
        r matches Err(e) ==> e == DspfsError::Crypto && !pkcs8_ok(doc@),
{
    match ring::signature::Ed25519KeyPair::from_pkcs8(doc.as_slice()) {
        Ok(kp) => Ok(kp.public_key().as_ref().to_vec()),
        Err(_) => Err(DspfsError::Crypto),
    }
}

/// Relies on `ring::signature::Ed25519KeyPair::sign`, after rebuilding the
/// keypair from its PKCS#8 document with `from_pkcs8`: the 64-byte Ed25519
/// signature over the message, deterministic in the key document and
/// message.  Signing itself cannot fail, so the call succeeds exactly when
/// `from_pkcs8` accepts the document.
#[verifier::external_body]
pub(crate) fn ed25519_sign(doc: &Vec<u8>, msg: &Vec<u8>) -> (r: Result<Vec<u8>, DspfsError>)
    ensures
        r matches Ok(sig) ==> sig@ == ed25519_sign_of(doc@, msg@) && sig@.len() == 64
            && pkcs8_ok(doc@),
        r matches Err(e) ==> e == DspfsError::Crypto && !pkcs8_ok(doc@),
{
    match ring::signature::Ed25519KeyPair::from_pkcs8(doc.as_slice()) {
        Ok(kp) => Ok(kp.sign(msg.as_slice()).as_ref().to_vec()),
        Err(_) => Err(DspfsError::Crypto),
    }
}

/// Relies on `ring::signature::UnparsedPublicKey::verify` with the `ED25519`
/// algorithm: whether the signature over the message verifies under the key,
/// a function of the three byte strings alone.
#[verifier::external_body]
pub(crate) fn ed25519_verify(pk: &[u8], msg: &[u8], sig: &[u8]) -> (r: bool)
    ensures
        r == ed25519_verifies(pk@, msg@, sig@),
{
    let key = ring::signature::UnparsedPublicKey::new(&ring::signature::ED25519, pk);
    key.verify(msg, sig).is_ok()
}

/// Compares two byte slices for equality.
pub fn bytes_eq(a: &[u8], b: &[u8]) -> (r: bool)
    ensures
        r == (a@ == b@),
{
    if a.len() != b.len() {
        return false;
    }
    let mut i: usize = 0;
    while i < a.len()
        invariant
            i <= a.len(),
            a.len() == b.len(),
            forall|j: int| 0 <= j < i ==> a@[j] == b@[j],
        decreases a.len() - i,
    {
        if a[i] != b[i] {
            return false;
        }
        i = i + 1;
    }
    proof {
        assert(a@ =~= b@);
    }
    true
}

/// An Ed25519 public key: exactly 32 bytes.
#[derive(Debug)]
pub struct PublicKey {
    key: Vec<u8>,
}

impl View for PublicKey {
    type V = Seq<u8>;

    closed spec fn view(&self) -> Seq<u8> {
        self.key@
    }
}

impl Clone for PublicKey {
    fn clone(&self) -> (r: Self)
        ensures
            r@ == self@,
    {
        PublicKey { key: self.key.clone() }
    }
}

impl PartialEq for PublicKey {
    fn eq(&self, other: &Self) -> (r: bool) {
        bytes_eq(self.key.as_slice(), other.key.as_slice())
    }
}

impl vstd::std_specs::cmp::PartialEqSpecImpl for PublicKey {
    open spec fn obeys_eq_spec() -> bool {
        true
    }

    open spec fn eq_spec(&self, other: &Self) -> bool {
        self@ == other@
    }
}

impl Eq for PublicKey {}

impl PublicKey {
    /// Whether the key is well formed.
    pub open spec fn wf(&self) -> bool {
        self@.len() == PUBLIC_KEY_LEN
    }

    /// Wraps raw key bytes; fails unless they are exactly 32 bytes.
    pub fn try_from(v: Vec<u8>) -> (r: Result<Self, DspfsError>)
        ensures
            v@.len() == PUBLIC_KEY_LEN ==> (r matches Ok(k) && k@ == v@ && k.wf()),
            v@.len() != PUBLIC_KEY_LEN ==> (r matches Err(e) && e == DspfsError::InvalidMessage),
    {
        if v.len() == PUBLIC_KEY_LEN {
            Ok(PublicKey { key: v })
        } else {
            Err(DspfsError::InvalidMessage)
        }
    }

    /// The raw key bytes.
    pub fn as_bytes(&self) -> (r: &[u8])
        ensures
            r@ == self@,
    {
        self.key.as_slice()
    }
}

/// The public identity of a user: an Ed25519 public key plus a display name.
/// Equality is on the public key only.
#[derive(Debug)]
pub struct PublicUser {
    public_key: PublicKey,
    username: Vec<u8>,
}

impl Clone for PublicUser {
    fn clone(&self) -> (r: Self)
        ensures
            r@ == self@,
            r.key() == self.key(),
            r.name() == self.name(),
    {
        PublicUser { public_key: self.public_key.clone(), username: self.username.clone() }
    }
}

/// The model of a public user: key bytes and name bytes.
pub struct PublicUserView {
    pub key: Seq<u8>,
    pub name: Seq<u8>,
}

impl View for PublicUser {
    type V = PublicUserView;

    closed spec fn view(&self) -> PublicUserView {
        PublicUserView { key: self.public_key@, name: self.username@ }
    }
}

impl PartialEq for PublicUser {
    fn eq(&self, other: &Self) -> (r: bool) {
        self.public_key == other.public_key
    }
}

impl vstd::std_specs::cmp::PartialEqSpecImpl for PublicUser {
    open spec fn obeys_eq_spec() -> bool {
        true
    }

    open spec fn eq_spec(&self, other: &Self) -> bool {
        self@.key == other@.key
    }
}

impl Eq for PublicUser {}

impl PublicUser {
    /// The key bytes of this user, the identity that equality goes by.
    pub open spec fn key(&self) -> Seq<u8> {
        self@.key
    }

    /// The display-name bytes of this user.
    pub open spec fn name(&self) -> Seq<u8> {
        self@.name
    }

    /// Whether the user is well formed: the key is exactly 32 bytes.
    pub open spec fn wf(&self) -> bool {
        self@.key.len() == PUBLIC_KEY_LEN
    }

    /// Builds a public identity from a key and a display name.
    pub fn new(public_key: PublicKey, username: Vec<u8>) -> (r: Self)
        ensures
            r.key() == public_key@,
            r.name() == username@,
    {
        PublicUser { public_key, username }
    }

    /// The public key.
    pub fn get_public_key(&self) -> (r: &PublicKey)
        ensures
            r@ == self.key(),
    {
        &self.public_key
    }

    /// The display name.
    pub fn get_username(&self) -> (r: &Vec<u8>)
        ensures
            r@ == self.name(),
    {
        &self.username
    }
}

/// The local user's private identity: the public identity plus the PKCS#8
/// document holding the Ed25519 signing keypair.
pub struct PrivateUser {
    public_user: PublicUser,
    keydoc: Vec<u8>,
}

impl PrivateUser {
    /// The key document this identity signs with.
    pub closed spec fn doc(&self) -> Seq<u8> {
        self.keydoc@
    }

    /// The model of the embedded public identity.
    pub closed spec fn pu(&self) -> PublicUserView {
        self.public_user@
    }

    /// The private identity is coherent: its key document is one `ring`
    /// accepts, and its public key is the one embedded in that document.
    pub open spec fn wf(&self) -> bool {
        &&& self.pu().key.len() == PUBLIC_KEY_LEN
        &&& self.pu().key == ed25519_pub_of(self.doc())
        &&& pkcs8_ok(self.doc())
    }

    /// Creates a new user with a freshly generated keypair.  Returns the
    /// private identity and the serialized key document for persistence.
    pub fn new(username: Vec<u8>) -> (r: Result<(Self, Vec<u8>), DspfsError>)
        ensures
            r matches Ok(p) ==> {
                &&& p.0.wf()
                &&& p.0.pu().name == username@
                &&& p.0.doc() == p.1@
            },
    {
        let doc = ed25519_generate_pkcs8()?;
        let pk_bytes = ed25519_public_from_doc(&doc)?;
        let public_key = PublicKey::try_from(pk_bytes)?;
        let public_user = PublicUser::new(public_key, username);
        Ok((PrivateUser { public_user, keydoc: doc.clone() }, doc))
    }

    /// Rebuilds a private identity from its parts, as loaded from a store.
    /// Succeeds exactly when the document is acceptable and the public key
    /// is the one it embeds: a rejected document is `Crypto`, a key that
    /// does not match the document is `BadSignature`.
    pub fn from_parts(public_user: PublicUser, keydoc: Vec<u8>) -> (r: Result<Self, DspfsError>)
        ensures
            r matches Ok(p) ==> {
                &&& p.wf()
                &&& p.pu() == public_user@
                &&& p.doc() == keydoc@
            },
            r is Ok <==> (pkcs8_ok(keydoc@) && public_user@.key == ed25519_pub_of(keydoc@)),
            !pkcs8_ok(keydoc@) ==> r == Err::<PrivateUser, DspfsError>(DspfsError::Crypto),
            pkcs8_ok(keydoc@) && public_user@.key != ed25519_pub_of(keydoc@)
                ==> r == Err::<PrivateUser, DspfsError>(DspfsError::BadSignature),
    {
        let pk_bytes = ed25519_public_from_doc(&keydoc)?;
        if bytes_eq(public_user.get_public_key().as_bytes(), pk_bytes.as_slice()) {
            Ok(PrivateUser { public_user, keydoc })
        } else {
            Err(DspfsError::BadSignature)
        }
    }

    /// The serialized signing key document.
    pub fn get_keypair(&self) -> (r: &Vec<u8>)
        ensures
            r@ == self.doc(),
    {
        &self.keydoc
    }

    /// The embedded public identity.
    pub fn public_user(&self) -> (r: &PublicUser)
        ensures
            r@ == self.pu(),
    {
        &self.public_user
    }
}

} // verus!
