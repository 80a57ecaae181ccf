use vstd::prelude::*;
use vstd::bytes::{
    lemma_auto_spec_u64_to_from_le_bytes, spec_u64_from_le_bytes, spec_u64_to_le_bytes,
    u64_from_le_bytes, u64_to_le_bytes,
};
use crate::error::DspfsError;
use crate::message::{
    spec_decode_message, spec_decode_signed, spec_encode_message, spec_encode_signed,
    decode_message, decode_signed, Message, MessageView, SignedMessage, SignedMessageView,
};
use crate::user::{ed25519_verify, ed25519_verifies, PrivateUser, PublicUser};

verus! {

// ---------------------------------------------------------------------------
// Trusted cryptographic primitives
// ---------------------------------------------------------------------------

/// The 32-byte key that PBKDF2-HMAC-SHA256 derives from a secret and a salt
/// at a given iteration count: a function of those three values alone.
pub uninterp spec fn pbkdf2_sha256_of(iterations: u32, salt: Seq<u8>, secret: Seq<u8>) -> Seq<u8>;

/// The ChaCha20-Poly1305 sealing of a message under a key and a nonce: the
/// ciphertext with the 16-byte authentication tag appended, a function of
/// the three byte strings alone (the associated data is empty).
pub uninterp spec fn chacha_seal_of(key: Seq<u8>, nonce: Seq<u8>, msg: Seq<u8>) -> Seq<u8>;

/// An X25519 ephemeral private key of `ring`, held between the two halves
/// of the handshake.  Opaque: nothing is known of a value of this type.
#[verifier::external_type_specification]
#[verifier::external_body]
pub struct ExEphemeralPrivateKey(ring::agreement::EphemeralPrivateKey);

/// Relies on `ring::agreement::EphemeralPrivateKey::generate` with the
/// `X25519` algorithm: a fresh random ephemeral private key.
#[verifier::external_body]
fn x25519_generate() -> (r: Result<ring::agreement::EphemeralPrivateKey, DspfsError>)
    ensures
        r matches Err(e) ==> e == DspfsError::Crypto,
{
    let rng = ring::rand::SystemRandom::new();
    ring::agreement::EphemeralPrivateKey::generate(&ring::agreement::X25519, &rng)
        .map_err(|_| DspfsError::Crypto)
}

/// Relies on `ring::agreement::EphemeralPrivateKey::compute_public_key`:
/// the 32-byte X25519 public key of an ephemeral private key.
#[verifier::external_body]
fn x25519_public_key(k: &ring::agreement::EphemeralPrivateKey) -> (r: Result<Vec<u8>, DspfsError>)
    ensures
        r matches Ok(pk) ==> pk@.len() == 32,
        r matches Err(e) ==> e == DspfsError::Crypto,
{
    match k.compute_public_key() {
        Ok(pk) => Ok(pk.as_ref().to_vec()),
        Err(_) => Err(DspfsError::Crypto),
    }
}

/// Relies on `ring::agreement::agree_ephemeral` with the `X25519`
/// algorithm: the 32-byte shared secret of an ephemeral private key and a
/// peer's public key.  The closure handed to it only copies the key
/// material out.
#[verifier::external_body]
fn x25519_agree(
    k: ring::agreement::EphemeralPrivateKey,
    peer_public: &Vec<u8>,
) -> (r: Result<Vec<u8>, DspfsError>)
    ensures
        r matches Ok(ss) ==> ss@.len() == 32,
        r matches Err(e) ==> e == DspfsError::Crypto,
{
    let peer = ring::agreement::UnparsedPublicKey::new(
        &ring::agreement::X25519,
        peer_public.as_slice(),
    );
    ring::agreement::agree_ephemeral(k, &peer, |km: &[u8]| km.to_vec())
        .map_err(|_| DspfsError::Crypto)
}

/// Relies on `ring::pbkdf2::derive` with `PBKDF2_HMAC_SHA256`: fills the
/// output with the key derived from the secret and salt; deterministic in
/// its inputs.  `derive` panics on a zero iteration count, which the
/// precondition rules out.
#[verifier::external_body]
fn pbkdf2_derive32(iterations: u32, salt: &Vec<u8>, secret: &Vec<u8>) -> (r: Vec<u8>)
    requires
        iterations >= 1,
    ensures
        r@ == pbkdf2_sha256_of(iterations, salt@, secret@),
        r@.len() == 32,
{
    let mut out = [0u8; 32];
    ring::pbkdf2::derive(
        ring::pbkdf2::PBKDF2_HMAC_SHA256,
        core::num::NonZeroU32::new(iterations).unwrap(),
        salt.as_slice(),
        secret.as_slice(),
        &mut out,
    );
    out.to_vec()
}

/// The longest message ChaCha20-Poly1305 can seal: the AEAD uses a 32-bit
/// block counter over 64-byte blocks, one block reserved for the tag key.
pub const AEAD_MAX_MSG_LEN: u64 = 0xffffffffu64 * 64;

/// Relies on `ring::aead::LessSafeKey::seal_in_place_append_tag` with
/// `CHACHA20_POLY1305` and empty associated data; the `UnboundKey` and
/// `Nonce` constructors only convert the byte arguments.  The result is the
/// ciphertext with the 16-byte tag appended, deterministic in key, nonce
/// and message.  Under the key- and nonce-length preconditions the one
/// failure left is a message beyond the AEAD's block-counter bound.
#[verifier::external_body]
fn chacha20_seal(key: &Vec<u8>, nonce: &Vec<u8>, msg: &Vec<u8>) -> (r: Result<Vec<u8>, DspfsError>)
    requires
        key@.len() == 32,
        nonce@.len() == 12,
    ensures
        r matches Ok(ct) ==> {
            &&& ct@ == chacha_seal_of(key@, nonce@, msg@)
            &&& ct@.len() == msg@.len() + 16
            &&& msg@.len() <= AEAD_MAX_MSG_LEN
        },
        r matches Err(e) ==> e == DspfsError::Crypto && msg@.len() > AEAD_MAX_MSG_LEN,
{
    let unbound = ring::aead::UnboundKey::new(&ring::aead::CHACHA20_POLY1305, key.as_slice())
        .map_err(|_| DspfsError::Crypto)?;
    let sealing = ring::aead::LessSafeKey::new(unbound);
    let n = ring::aead::Nonce::try_assume_unique_for_key(nonce.as_slice())
        .map_err(|_| DspfsError::Crypto)?;
    let mut buf = msg.clone();
    sealing
        .seal_in_place_append_tag(n, ring::aead::Aad::empty(), &mut buf)
        .map_err(|_| DspfsError::Crypto)?;
    Ok(buf)
}

/// Relies on `ring::aead::LessSafeKey::open_in_place` with
/// `CHACHA20_POLY1305` and empty associated data, and on the AEAD's
/// correctness and authenticity: decryption is a function of the
/// ciphertext, so at most one message seals to a given ciphertext under a
/// key and nonce, and opening succeeds on a ciphertext if and only if it
/// is such a sealing.  The `UnboundKey` and `Nonce` constructors only
/// convert the byte arguments; under the preconditions the one failure is
/// an authentication mismatch.
#[verifier::external_body]
fn chacha20_open(key: &Vec<u8>, nonce: &Vec<u8>, ct: &Vec<u8>) -> (r: Result<Vec<u8>, DspfsError>)
    requires
        key@.len() == 32,
        nonce@.len() == 12,
    ensures
        r matches Ok(msg) ==> {
            &&& ct@ == chacha_seal_of(key@, nonce@, msg@)
            &&& forall|m: Seq<u8>|
                #![trigger chacha_seal_of(key@, nonce@, m)]
                m.len() <= AEAD_MAX_MSG_LEN && ct@ == chacha_seal_of(key@, nonce@, m)
                    ==> m == msg@
        },
        r matches Err(e) ==> e == DspfsError::BadCiphertext && !(exists|m: Seq<u8>|
            #![trigger chacha_seal_of(key@, nonce@, m)]
            m.len() <= AEAD_MAX_MSG_LEN && ct@ == chacha_seal_of(key@, nonce@, m)),
{
    let unbound = ring::aead::UnboundKey::new(&ring::aead::CHACHA20_POLY1305, key.as_slice())
        .map_err(|_| DspfsError::Crypto)?;
    let opening = ring::aead::LessSafeKey::new(unbound);
    let n = ring::aead::Nonce::try_assume_unique_for_key(nonce.as_slice())
        .map_err(|_| DspfsError::Crypto)?;
    let mut buf = ct.clone();
    let plain = opening
        .open_in_place(n, ring::aead::Aad::empty(), &mut buf)
        .map_err(|_| DspfsError::BadCiphertext)?;
    Ok(plain.to_vec())
}

// ---------------------------------------------------------------------------
// The nonce generator
// ---------------------------------------------------------------------------

/// The largest counter value a nonce can encode: 96 bits.
pub const NONCE_MAX: u128 = 0xffffffffffffffffffffffff;

/// The little-endian base-256 digits of `v`, `n` bytes long.
pub open spec fn le_bytes(v: int, n: nat) -> Seq<u8>
    decreases n,
{
    if n == 0 {
        Seq::empty()
    } else {
        seq![(v % 256) as u8] + le_bytes(v / 256, (n - 1) as nat)
    }
}

/// The value of a little-endian base-256 digit string.
pub open spec fn le_val(s: Seq<u8>) -> int
    decreases s.len(),
{
    if s.len() == 0 {
        0
    } else {
        s[0] + 256 * le_val(s.drop_first())
    }
}

/// The 12-byte wire form of a nonce counter.
pub open spec fn nonce_bytes(v: u128) -> Seq<u8> {
    le_bytes(v as int, 12)
}

/// 256 to the `n`-th power.
pub open spec fn pow256(n: nat) -> int
    decreases n,
{
    if n == 0 {
        1
    } else {
        256 * pow256((n - 1) as nat)
    }
}

pub proof fn lemma_le_bytes_len(v: int, n: nat)
    ensures
        le_bytes(v, n).len() == n,
    decreases n,
{
    if n > 0 {
        lemma_le_bytes_len(v / 256, (n - 1) as nat);
    }
}

/// A little-endian digit string determines its value: encoding is the
/// inverse of evaluation for values in range.
pub proof fn lemma_le_val_of_bytes(v: int, n: nat)
    requires
        0 <= v < pow256(n),
    ensures
        le_val(le_bytes(v, n)) == v,
    decreases n,
{
    if n > 0 {
        let b = le_bytes(v, n);
        assert(0 <= v / 256 < pow256((n - 1) as nat)) by (nonlinear_arith)
            requires
                0 <= v < 256 * pow256((n - 1) as nat),
        ;
        lemma_le_val_of_bytes(v / 256, (n - 1) as nat);
        assert(b.drop_first() =~= le_bytes(v / 256, (n - 1) as nat));
        assert(v == (v % 256) + 256 * (v / 256)) by (nonlinear_arith);
    }
}

/// Nonce uniqueness: two distinct counter values in range never produce
/// the same nonce bytes.
pub proof fn lemma_nonce_uniqueness(v1: u128, v2: u128)
    requires
        v1 <= NONCE_MAX,
        v2 <= NONCE_MAX,
        v1 != v2,
    ensures
        nonce_bytes(v1) != nonce_bytes(v2),
{
    assert(pow256(12) == 0x1000000000000000000000000) by {
        reveal_with_fuel(pow256, 13);
    };
    lemma_le_val_of_bytes(v1 as int, 12);
    lemma_le_val_of_bytes(v2 as int, 12);
}

/// A 96-bit counter, incremented before each seal or open; its value, 12
/// bytes little endian, is the AEAD nonce.  Each direction of a session
/// owns one, so no nonce is ever reused under the same key and direction.
pub struct NonceGenerator {
    value: u128,
}

impl View for NonceGenerator {
    type V = u128;

    closed spec fn view(&self) -> u128 {
        self.value
    }
}

impl Default for NonceGenerator {
    /// A generator whose first nonce will encode 1.
    fn default() -> (r: Self)
        ensures
            r@ == 0,
    {
        NonceGenerator { value: 0 }
    }
}

impl NonceGenerator {
    /// The current counter value.
    pub fn current(&self) -> (r: u128)
        ensures
            r == self@,
    {
        self.value
    }

    /// Steps the counter and returns the 12-byte nonce of the new value.
    pub fn advance(&mut self) -> (r: Vec<u8>)
        requires
            old(self)@ < NONCE_MAX,
        ensures
            final(self)@ == old(self)@ + 1,
            r@ == nonce_bytes((old(self)@ + 1) as u128),
            r@.len() == 12,
    {
        self.value = self.value + 1;
        let mut out: Vec<u8> = Vec::new();
        let mut x: u128 = self.value;
        let ghost v0 = self.value as int;
        let mut i: usize = 0;
        proof {
            lemma_le_bytes_len(v0, 12);
        }
        while i < 12
            invariant
                i <= 12,
                out@.len() == i,
                le_bytes(v0, 12) =~= out@ + le_bytes(x as int, (12 - i) as nat),
            decreases 12 - i,
        {
            let b = (x % 256) as u8;
            let ghost pre = out@;
            out.push(b);
            proof {
                assert(le_bytes(x as int, (12 - i) as nat)
                    == seq![b] + le_bytes(x as int / 256, (12 - i - 1) as nat));
                assert(out@ + le_bytes(x as int / 256, (12 - i - 1) as nat)
                    =~= pre + le_bytes(x as int, (12 - i) as nat));
            }
            x = x / 256;
            i = i + 1;
        }
        proof {
            assert(le_bytes(x as int, 0) =~= Seq::<u8>::empty());
            assert(out@ =~= le_bytes(v0, 12));
        }
        out
    }
}

// ---------------------------------------------------------------------------
// Wire framing
// ---------------------------------------------------------------------------

/// An 8-byte big-endian integer: the little-endian bytes reversed.
pub open spec fn spec_u64_to_be_bytes(x: u64) -> Seq<u8> {
    spec_u64_to_le_bytes(x).reverse()
}

/// The integer an 8-byte big-endian string encodes.
pub open spec fn spec_u64_from_be_bytes(s: Seq<u8>) -> u64 {
    spec_u64_from_le_bytes(s.reverse())
}

/// A wire frame: an 8-byte big-endian length prefix, then the payload.
pub open spec fn spec_frame(payload: Seq<u8>) -> Seq<u8> {
    spec_u64_to_be_bytes(payload.len() as u64) + payload
}

/// The 8-byte big-endian form of an integer.
pub fn u64_to_be_bytes(x: u64) -> (r: Vec<u8>)
    ensures
        r@ == spec_u64_to_be_bytes(x),
        r@.len() == 8,
{
    proof {
        lemma_auto_spec_u64_to_from_le_bytes();
    }
    let le = u64_to_le_bytes(x);
    let mut out: Vec<u8> = Vec::new();
    let mut i: usize = 0;
    while i < 8
        invariant
            i <= 8,
            le@ == spec_u64_to_le_bytes(x),
            le@.len() == 8,
            out@.len() == i,
            forall|j: int| 0 <= j < i ==> out@[j] == le@[7 - j],
        decreases 8 - i,
    {
        out.push(le[8 - 1 - i]);
        i = i + 1;
    }
    proof {
        assert(out@ =~= spec_u64_to_le_bytes(x).reverse());
    }
    out
}

/// Reads an 8-byte big-endian integer.
pub fn u64_from_be_bytes(b: &[u8]) -> (r: u64)
    requires
        b@.len() == 8,
    ensures
        spec_u64_to_be_bytes(r) == b@,
        r == spec_u64_from_be_bytes(b@),
{
    proof {
        lemma_auto_spec_u64_to_from_le_bytes();
    }
    let mut le: Vec<u8> = Vec::new();
    let mut i: usize = 0;
    while i < 8
        invariant
            i <= 8,
            b@.len() == 8,
            le@.len() == i,
            forall|j: int| 0 <= j < i ==> le@[j] == b@[7 - j],
        decreases 8 - i,
    {
        le.push(b[8 - 1 - i]);
        i = i + 1;
    }
    let x = u64_from_le_bytes(le.as_slice());
    proof {
        assert(le@ =~= spec_u64_to_le_bytes(x));
        assert(spec_u64_to_le_bytes(x).reverse() =~= b@);
        assert(le@ =~= b@.reverse());
    }
    x
}

/// Frames a payload: an 8-byte big-endian length prefix, then the payload.
pub fn encode_frame(payload: &Vec<u8>) -> (r: Vec<u8>)
    ensures
        r@ == spec_frame(payload@),
{
    let mut out = u64_to_be_bytes(payload.len() as u64);
    out.extend_from_slice(payload.as_slice());
    proof {
        assert(out@ =~= spec_frame(payload@));
    }
    out
}

/// Checks a frame's length prefix against a caller-provided cap before any
/// of the body is read.  A cap of zero means no cap.  A frame over the cap
/// is the error `FrameTooLarge`.
pub fn check_frame_len(len: u64, limit: usize) -> (r: Result<(), DspfsError>)
    ensures
        r is Ok <==> (limit == 0 || len <= limit as u64),
        r is Err ==> r == Err::<(), DspfsError>(DspfsError::FrameTooLarge),
{
    if limit != 0 && len > limit as u64 {
        Err(DspfsError::FrameTooLarge)
    } else {
        Ok(())
    }
}

/// Reads a frame header and checks the cap: the frame's length, or —
/// exactly when the length exceeds a nonzero cap — `FrameTooLarge`.
pub fn read_frame_header(header: &[u8], limit: usize) -> (r: Result<u64, DspfsError>)
    requires
        header@.len() == 8,
    ensures
        r matches Ok(n) ==> n == spec_u64_from_be_bytes(header@)
            && spec_u64_to_be_bytes(n) == header@,
        r is Ok <==> (limit == 0 || spec_u64_from_be_bytes(header@) <= limit as u64),
        r is Err ==> r == Err::<u64, DspfsError>(DspfsError::FrameTooLarge),
    {
    let n = u64_from_be_bytes(header);
    check_frame_len(n, limit)?;
    Ok(n)
}


// ---------------------------------------------------------------------------
// The encrypted session
// ---------------------------------------------------------------------------

/// The PBKDF2 iteration count of the key derivation.  Part of the wire
/// contract: both peers must agree on it.
pub const PBKDF2_ITERATIONS: u32 = 42;

/// The default cap on a handshake frame.
pub const HANDSHAKE_FRAME_CAP: usize = 1024;

/// The default cap on a message frame.
pub const MESSAGE_FRAME_CAP: usize = 4096;

/// The life stage of a session.  Only the first frame in each direction
/// takes part in the handshake; any protocol error closes the session.
#[derive(Clone, Copy, Debug, PartialEq, Eq, Structural)]
pub enum SessionState {
    Open,
    Closed,
}

/// This side's half of an unfinished handshake: the ephemeral X25519
/// keypair generated for it.
pub struct Handshake {
    secret: ring::agreement::EphemeralPrivateKey,
    public_bytes: Vec<u8>,
}

impl Handshake {
    /// The ephemeral public key announced to the peer.
    pub closed spec fn epk(&self) -> Seq<u8> {
        self.public_bytes@
    }
}

/// An authenticated, encrypted, bidirectional message channel to one peer:
/// the peer's verified identity, the derived symmetric key, and one nonce
/// counter per direction.
pub struct EncryptedSession {
    other_user: PublicUser,
    key: Vec<u8>,
    seal_nonce: NonceGenerator,
    open_nonce: NonceGenerator,
    state: SessionState,
}

impl EncryptedSession {
    /// The derived symmetric key.
    pub closed spec fn key_view(&self) -> Seq<u8> {
        self.key@
    }

    /// The peer's verified identity.
    pub closed spec fn peer(&self) -> crate::user::PublicUserView {
        self.other_user@
    }

    /// How many frames this side has sealed.
    pub closed spec fn seal_count(&self) -> u128 {
        self.seal_nonce@
    }

    /// How many frames this side has opened.
    pub closed spec fn open_count(&self) -> u128 {
        self.open_nonce@
    }

    /// Whether the session is open.
    pub closed spec fn is_open(&self) -> bool {
        self.state == SessionState::Open
    }

    /// The session's key has the AEAD's key length.
    pub open spec fn wf(&self) -> bool {
        self.key_view().len() == 32
    }

    /// The peer this session is bound to.
    pub fn other_user(&self) -> (r: &PublicUser)
        ensures
            r@ == self.peer(),
    {
        &self.other_user
    }

    /// Closes the session; nothing can be sealed or opened afterwards.
    pub fn close(&mut self)
        ensures
            !final(self).is_open(),
            final(self).key_view() == old(self).key_view(),
            final(self).peer() == old(self).peer(),
            final(self).seal_count() == old(self).seal_count(),
            final(self).open_count() == old(self).open_count(),
    {
        self.state = SessionState::Closed;
    }

    /// Serializes and seals one message; returns the wire frame to send.
    /// Each call takes the next nonce of the sealing direction, so no nonce
    /// is ever reused under this key in this direction.  Sending succeeds
    /// exactly when the nonce counter has room and the encoded message fits
    /// the AEAD; any failure closes the session.
    pub fn send_message(&mut self, message: &Message) -> (r: Result<Vec<u8>, DspfsError>)
        requires
            old(self).wf(),
            old(self).is_open(),
        ensures
            final(self).wf(),
            final(self).peer() == old(self).peer(),
            final(self).key_view() == old(self).key_view(),
            final(self).open_count() == old(self).open_count(),
            final(self).seal_count() >= old(self).seal_count(),
            r is Ok <==> (old(self).seal_count() < NONCE_MAX
                && spec_encode_message(message@).len() <= AEAD_MAX_MSG_LEN),
            r matches Ok(frame) ==> ({
                &&& final(self).seal_count() == old(self).seal_count() + 1
                &&& final(self).is_open()
                &&& frame@ == spec_frame(
                    chacha_seal_of(
                        old(self).key_view(),
                        nonce_bytes((old(self).seal_count() + 1) as u128),
                        spec_encode_message(message@),
                    ),
                )
                &&& frame@.len() == 8 + spec_encode_message(message@).len() + 16
            }),
            old(self).seal_count() >= NONCE_MAX
                ==> r == Err::<Vec<u8>, DspfsError>(DspfsError::Internal),
            r is Err ==> !final(self).is_open() && (r == Err::<Vec<u8>, DspfsError>(
                DspfsError::Internal,
            ) || r == Err::<Vec<u8>, DspfsError>(DspfsError::Crypto)),
    {
        if self.seal_nonce.current() >= NONCE_MAX {
            self.state = SessionState::Closed;
            return Err(DspfsError::Internal);
        }
        let nonce = self.seal_nonce.advance();
        let serialized = message.serialize();
        match chacha20_seal(&self.key, &nonce, &serialized) {
            Ok(sealed) => {
                let frame = encode_frame(&sealed);
                proof {
                    lemma_auto_spec_u64_to_from_le_bytes();
                    assert(spec_u64_to_be_bytes(sealed@.len() as u64).len() == 8);
                }
                Ok(frame)
            },
            Err(e) => {
                self.state = SessionState::Closed;
                Err(e)
            },
        }
    }

    /// Opens one received frame payload and decodes the message inside.
    /// Receiving succeeds on a payload sealed under this session's key and
    /// the next nonce of the opening direction — and, the sealing being
    /// one-to-one in the message, on exactly the message that was sealed;
    /// anything else fails and closes the session.
    pub fn recv_message(&mut self, payload: &[u8]) -> (r: Result<Message, DspfsError>)
        requires
            old(self).wf(),
            old(self).is_open(),
        ensures
            final(self).wf(),
            final(self).peer() == old(self).peer(),
            final(self).key_view() == old(self).key_view(),
            final(self).seal_count() == old(self).seal_count(),
            final(self).open_count() >= old(self).open_count(),
            r matches Ok(m) ==> ({
                &&& final(self).is_open()
                &&& final(self).open_count() == old(self).open_count() + 1
                &&& m@.wf()
                &&& payload@ == chacha_seal_of(
                    old(self).key_view(),
                    nonce_bytes((old(self).open_count() + 1) as u128),
                    spec_encode_message(m@),
                )
                &&& forall|m2: Seq<u8>|
                    #![trigger chacha_seal_of(old(self).key_view(), nonce_bytes((old(self).open_count() + 1) as u128), m2)]
                    m2.len() <= AEAD_MAX_MSG_LEN && payload@ == chacha_seal_of(
                        old(self).key_view(),
                        nonce_bytes((old(self).open_count() + 1) as u128),
                        m2,
                    ) ==> m2 == spec_encode_message(m@)
            }),
            (old(self).open_count() < NONCE_MAX && (exists|mv: MessageView|
                #![trigger spec_encode_message(mv)]
                mv.wf() && spec_encode_message(mv).len() <= AEAD_MAX_MSG_LEN
                    && payload@ == chacha_seal_of(
                    old(self).key_view(),
                    nonce_bytes((old(self).open_count() + 1) as u128),
                    spec_encode_message(mv),
                ))) ==> r is Ok,
            old(self).open_count() >= NONCE_MAX
                ==> r == Err::<Message, DspfsError>(DspfsError::Internal),
            r is Err ==> !final(self).is_open() && (r == Err::<Message, DspfsError>(
                DspfsError::Internal,
            ) || r == Err::<Message, DspfsError>(DspfsError::BadCiphertext)
                || r == Err::<Message, DspfsError>(DspfsError::InvalidMessage)),
    {
        if self.open_nonce.current() >= NONCE_MAX {
            self.state = SessionState::Closed;
            return Err(DspfsError::Internal);
        }
        let nonce = self.open_nonce.advance();
        let ghost key = self.key@;
        let ghost nv = nonce@;
        let ciphertext = vstd::slice::slice_to_vec(payload);
        match chacha20_open(&self.key, &nonce, &ciphertext) {
            Err(e) => {
                proof {
                    if exists|mv: MessageView|
                        #![trigger spec_encode_message(mv)]
                        mv.wf() && spec_encode_message(mv).len() <= AEAD_MAX_MSG_LEN
                            && payload@ == chacha_seal_of(key, nv, spec_encode_message(mv)) {
                        let mv0 = choose|mv: MessageView|
                            mv.wf() && spec_encode_message(mv).len() <= AEAD_MAX_MSG_LEN
                                && payload@ == chacha_seal_of(key, nv, spec_encode_message(mv));
                        assert(false);
                    }
                }
                self.state = SessionState::Closed;
                Err(e)
            },
            Ok(plain) => match decode_message(plain.as_slice()) {
                None => {
                    proof {
                        if exists|mv: MessageView|
                            #![trigger spec_encode_message(mv)]
                            mv.wf() && spec_encode_message(mv).len() <= AEAD_MAX_MSG_LEN
                                && payload@ == chacha_seal_of(key, nv, spec_encode_message(mv)) {
                            let mv0 = choose|mv: MessageView|
                                mv.wf() && spec_encode_message(mv).len() <= AEAD_MAX_MSG_LEN
                                    && payload@ == chacha_seal_of(
                                    key,
                                    nv,
                                    spec_encode_message(mv),
                                );
                            assert(spec_encode_message(mv0) == plain@);
                            crate::message::lemma_message_round_trip(mv0);
                            assert(false);
                        }
                    }
                    self.state = SessionState::Closed;
                    Err(DspfsError::InvalidMessage)
                },
                Some(m) => {
                    proof {
                        crate::message::lemma_decode_encode(plain@);
                        crate::message::lemma_decoded_wf(plain@);
                        assert(spec_encode_message(m@) == plain@);
                    }
                    Ok(m)
                },
            },
        }
    }
}

// ---------------------------------------------------------------------------
// The handshake
// ---------------------------------------------------------------------------

/// Builds this side's signed handshake frame: a fresh ephemeral X25519
/// keypair, announced in an `Init` message signed with the long-term key.
/// Returns the half-open state and the frame to send.
pub fn handshake_hello(user: &PrivateUser) -> (r: Result<(Handshake, Vec<u8>), DspfsError>)
    ensures
        r matches Ok(p) ==> ({
            let msg = spec_encode_message(
                MessageView::Init { user: user.pu(), pubkey: p.0.epk() },
            );
            p.1@ == spec_frame(
                spec_encode_signed(
                    SignedMessageView {
                        message: msg,
                        signature: crate::user::ed25519_sign_of(user.doc(), msg),
                    },
                ),
            )
        }),
        r is Err ==> r == Err::<(Handshake, Vec<u8>), DspfsError>(DspfsError::Crypto),
{
    let secret = x25519_generate()?;
    let public_bytes = x25519_public_key(&secret)?;
    let init = Message::Init {
        user: user.public_user().clone(),
        pubkey: crate::filetree::clone_bytes(&public_bytes),
    };
    let signed = init.sign(user.get_keypair())?;
    let payload = signed.serialize();
    let frame = encode_frame(&payload);
    Ok((Handshake { secret, public_bytes }, frame))
}

/// Decodes a signed handshake message and verifies its signature against
/// the Ed25519 key embedded in the announced identity.  Accepts exactly
/// the honestly signed `Init` messages: anything that does not decode to
/// an `Init` is `InvalidInit`, an `Init` whose signature does not verify
/// is `BadSignature`, and an `Init` whose signature verifies is returned.
pub fn extract_verify(signed: &SignedMessage) -> (r: Result<(PublicUser, Vec<u8>), DspfsError>)
    ensures
        r matches Ok(p) ==> ({
            &&& spec_decode_message(signed@.message)
                == Some(MessageView::Init { user: p.0@, pubkey: p.1@ })
            &&& ed25519_verifies(p.0@.key, signed@.message, signed@.signature)
        }),
        spec_decode_message(signed@.message) is None
            ==> r == Err::<(PublicUser, Vec<u8>), DspfsError>(DspfsError::InvalidInit),
        spec_decode_message(signed@.message) matches Some(mv) ==> {
            &&& !(mv is Init) ==> r == Err::<(PublicUser, Vec<u8>), DspfsError>(
                DspfsError::InvalidInit,
            )
            &&& (mv matches MessageView::Init { user: u, pubkey: pk } ==> {
                &&& ed25519_verifies(u.key, signed@.message, signed@.signature)
                    ==> (r matches Ok(p) && p.0@ == u && p.1@ == pk)
                &&& !ed25519_verifies(u.key, signed@.message, signed@.signature)
                    ==> r == Err::<(PublicUser, Vec<u8>), DspfsError>(DspfsError::BadSignature)
            })
        },
{
    let msg = match decode_message(self_message_slice(signed)) {
        Some(m) => m,
        None => {
            return Err(DspfsError::InvalidInit);
        },
    };
    match msg {
        Message::Init { user, pubkey } => {
            if ed25519_verify(
                user.get_public_key().as_bytes(),
                self_message_slice(signed),
                signed.signature.as_slice(),
            ) {
                Ok((user, pubkey))
            } else {
                Err(DspfsError::BadSignature)
            }
        },
        _ => Err(DspfsError::InvalidInit),
    }
}

/// The serialized message bytes of a signed message.
fn self_message_slice(signed: &SignedMessage) -> (r: &[u8])
    ensures
        r@ == signed@.message,
{
    signed.message.as_slice()
}

/// Derives the session from an agreed handshake: the X25519 shared secret
/// run through PBKDF2-HMAC-SHA256, salted with the two usernames in
/// initiator-then-receiver order, the same at both ends.
fn derive_session(
    user: &PrivateUser,
    handshake: Handshake,
    peer: PublicUser,
    peer_epk: &Vec<u8>,
    initiator: bool,
) -> (r: Result<EncryptedSession, DspfsError>)
    ensures
        r matches Ok(s) ==> ({
            &&& s.wf()
            &&& s.is_open()
            &&& s.peer() == peer@
            &&& s.seal_count() == 0
            &&& s.open_count() == 0
        }),
        initiator ==> (r matches Ok(s) ==> exists|ss: Seq<u8>|
            s.key_view() == pbkdf2_sha256_of(
                PBKDF2_ITERATIONS,
                user.pu().name + peer.name(),
                ss,
            )),
        !initiator ==> (r matches Ok(s) ==> exists|ss: Seq<u8>|
            s.key_view() == pbkdf2_sha256_of(
                PBKDF2_ITERATIONS,
                peer.name() + user.pu().name,
                ss,
            )),
        r is Err ==> r == Err::<EncryptedSession, DspfsError>(DspfsError::Crypto),
{
    let Handshake { secret, public_bytes: _ } = handshake;
    let ss = x25519_agree(secret, peer_epk)?;
    let mut salt: Vec<u8> = Vec::new();
    if initiator {
        salt.extend_from_slice(user.public_user().get_username().as_slice());
        salt.extend_from_slice(peer.get_username().as_slice());
    } else {
        salt.extend_from_slice(peer.get_username().as_slice());
        salt.extend_from_slice(user.public_user().get_username().as_slice());
    }
    proof {
        if initiator {
            assert(salt@ =~= user.pu().name + peer.name());
        } else {
            assert(salt@ =~= peer.name() + user.pu().name);
        }
    }
    let key = pbkdf2_derive32(PBKDF2_ITERATIONS, &salt, &ss);
    proof {
        let salt_spec = if initiator {
            user.pu().name + peer.name()
        } else {
            peer.name() + user.pu().name
        };
        assert(key@ == pbkdf2_sha256_of(PBKDF2_ITERATIONS, salt_spec, ss@));
    }
    Ok(
        EncryptedSession {
            other_user: peer,
            key,
            seal_nonce: NonceGenerator::default(),
            open_nonce: NonceGenerator::default(),
            state: SessionState::Open,
        },
    )
}

/// Finishes the initiator side of the handshake from the peer's reply
/// frame payload.  A session is returned — and so reaches `Open` — only if
/// the reply decoded to an `Init` whose signature verified under the key
/// of the identity it announces.
pub fn initiator_complete(
    user: &PrivateUser,
    handshake: Handshake,
    reply_payload: &[u8],
) -> (r: Result<EncryptedSession, DspfsError>)
    ensures
        r matches Ok(s) ==> ({
            &&& s.wf()
            &&& s.is_open()
            &&& s.seal_count() == 0
            &&& s.open_count() == 0
            &&& spec_decode_signed(reply_payload@) matches Some(sm)
                && spec_decode_message(sm.message) matches Some(mv)
                && mv matches MessageView::Init { user: u, pubkey }
                && u == s.peer()
                && ed25519_verifies(u.key, sm.message, sm.signature)
        }),
        spec_decode_signed(reply_payload@) is None ==> r == Err::<EncryptedSession, DspfsError>(
            DspfsError::InvalidInit,
        ),
        spec_decode_signed(reply_payload@) matches Some(sm) ==> {
            &&& spec_decode_message(sm.message) is None ==> r == Err::<EncryptedSession, DspfsError>(
                DspfsError::InvalidInit,
            )
            &&& (spec_decode_message(sm.message) matches Some(mv) ==> {
                &&& !(mv is Init) ==> r == Err::<EncryptedSession, DspfsError>(DspfsError::InvalidInit)
                &&& (mv matches MessageView::Init { user: u, .. }
                    && !ed25519_verifies(u.key, sm.message, sm.signature))
                    ==> r == Err::<EncryptedSession, DspfsError>(DspfsError::BadSignature)
            })
        },
        r is Err ==> (r == Err::<EncryptedSession, DspfsError>(DspfsError::InvalidInit)
            || r == Err::<EncryptedSession, DspfsError>(DspfsError::BadSignature)
            || r == Err::<EncryptedSession, DspfsError>(DspfsError::Crypto)),
{
    let signed = match decode_signed(reply_payload) {
        Some(sm) => sm,
        None => {
            return Err(DspfsError::InvalidInit);
        },
    };
    let (peer, peer_epk) = extract_verify(&signed)?;
    derive_session(user, handshake, peer, &peer_epk, true)
}

/// Runs the receiver side of the handshake from the initiator's first
/// frame payload.  Returns the session and this side's signed reply frame.
/// A session is returned — and so reaches `Open` — only if the first frame
/// decoded to an `Init` whose signature verified under the key of the
/// identity it announces.
pub fn receiver_accept(
    user: &PrivateUser,
    first_payload: &[u8],
) -> (r: Result<(EncryptedSession, Vec<u8>), DspfsError>)
    ensures
        r matches Ok(p) ==> ({
            &&& p.0.wf()
            &&& p.0.is_open()
            &&& p.0.seal_count() == 0
            &&& p.0.open_count() == 0
            &&& spec_decode_signed(first_payload@) matches Some(sm)
                && spec_decode_message(sm.message) matches Some(mv)
                && mv matches MessageView::Init { user: u, pubkey }
                && u == p.0.peer()
                && ed25519_verifies(u.key, sm.message, sm.signature)
            &&& exists|pk: Seq<u8>| ({
                let msg = #[trigger] spec_encode_message(
                    MessageView::Init { user: user.pu(), pubkey: pk },
                );
                p.1@ == spec_frame(
                    spec_encode_signed(
                        SignedMessageView {
                            message: msg,
                            signature: crate::user::ed25519_sign_of(user.doc(), msg),
                        },
                    ),
                )
            })
        }),
        spec_decode_signed(first_payload@) is None ==> r == Err::<(EncryptedSession, Vec<u8>), DspfsError>(
            DspfsError::InvalidInit,
        ),
        spec_decode_signed(first_payload@) matches Some(sm) ==> {
            &&& spec_decode_message(sm.message) is None ==> r == Err::<(EncryptedSession, Vec<u8>), DspfsError>(
                DspfsError::InvalidInit,
            )
            &&& (spec_decode_message(sm.message) matches Some(mv) ==> {
                &&& !(mv is Init) ==> r == Err::<(EncryptedSession, Vec<u8>), DspfsError>(DspfsError::InvalidInit)
                &&& (mv matches MessageView::Init { user: u, .. }
                    && !ed25519_verifies(u.key, sm.message, sm.signature))
                    ==> r == Err::<(EncryptedSession, Vec<u8>), DspfsError>(DspfsError::BadSignature)
            })
        },
        r is Err ==> (r == Err::<(EncryptedSession, Vec<u8>), DspfsError>(DspfsError::InvalidInit)
            || r == Err::<(EncryptedSession, Vec<u8>), DspfsError>(DspfsError::BadSignature)
            || r == Err::<(EncryptedSession, Vec<u8>), DspfsError>(DspfsError::Crypto)),
{
    let signed = match decode_signed(first_payload) {
        Some(sm) => sm,
        None => {
            return Err(DspfsError::InvalidInit);
        },
    };
    let (peer, peer_epk) = extract_verify(&signed)?;
    let (handshake, reply_frame) = handshake_hello(user)?;
    let ghost epk = handshake.epk();
    let session = derive_session(user, handshake, peer, &peer_epk, false)?;
    Ok((session, reply_frame))
}


/// Exact delivery, per direction: a message received from a frame is the
/// message that was sealed into it.  The sender's contract makes the frame
/// payload the sealing of the sent message's encoding under the session
/// key and the direction's nonce; the receiver's contract pins every such
/// sealing to the received message's encoding; and the encoding is
/// injective on well-formed messages.
pub proof fn lemma_exact_delivery(
    key: Seq<u8>,
    nonce: Seq<u8>,
    payload: Seq<u8>,
    sent: MessageView,
    received: MessageView,
)
    requires
        sent.wf(),
        received.wf(),
        spec_encode_message(sent).len() <= AEAD_MAX_MSG_LEN,
        payload == chacha_seal_of(key, nonce, spec_encode_message(sent)),
        forall|m2: Seq<u8>|
            #![trigger chacha_seal_of(key, nonce, m2)]
            m2.len() <= AEAD_MAX_MSG_LEN && payload == chacha_seal_of(key, nonce, m2)
                ==> m2 == spec_encode_message(received),
    ensures
        received == sent,
{
    assert(spec_encode_message(sent) == spec_encode_message(received));
    crate::message::lemma_encode_injective(sent, received);
}

} // verus!
