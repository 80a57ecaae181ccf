use vstd::prelude::*;
use vstd::bytes::{
    lemma_auto_spec_u128_to_from_le_bytes, lemma_auto_spec_u64_to_from_le_bytes,
    spec_u128_from_le_bytes, spec_u128_to_le_bytes, spec_u64_from_le_bytes,
    spec_u64_to_le_bytes, u128_from_le_bytes, u128_to_le_bytes, u64_from_le_bytes,
    u64_to_le_bytes,
};
use vstd::slice::{slice_subrange, slice_to_vec};
use crate::error::DspfsError;
use crate::user::{ed25519_sign, ed25519_sign_of, pkcs8_ok, PublicKey, PublicUser, PublicUserView};

verus! {

/// A group identifier: the 128 bits of a UUID.
#[derive(Clone, Copy, Debug, PartialEq, Eq, Structural, Hash)]
pub struct GroupUuid {
    pub value: u128,
}

/// Relies on `uuid::Uuid::new_v4`: a freshly generated random version-4
/// UUID, as its 128-bit value.  The result is random, so nothing is promised
/// of its value.
#[verifier::external_body]
fn uuid_v4_value() -> (r: u128) {
    uuid::Uuid::new_v4().as_u128()
}

impl GroupUuid {
    /// A fresh random group identifier.
    pub fn new_v4() -> (r: GroupUuid) {
        GroupUuid { value: uuid_v4_value() }
    }
}

/// An error reported to a peer.
#[derive(Clone, Copy, Debug, PartialEq, Eq, Structural)]
pub enum ErrorMessage {
    /// A peer asked for a file block that is not locally possessed.
    FileNotFound,
    /// A peer asked about a group it is not a member of.
    Unauthorized,
}

/// A message of the peer protocol.
#[derive(Debug, PartialEq)]
pub enum Message {
    /// The handshake message: the sender's identity and an ephemeral X25519
    /// public key.
    Init { user: PublicUser, pubkey: Vec<u8> },
    /// An opaque diagnostic string.
    String(Vec<u8>),
    /// A request for one block of one file of one group.
    FileBlockRequest { groupuuid: GroupUuid, filehash: crate::hash::Hash, index: u64 },
    /// A block of file contents, answering a request.
    FileBlock(Vec<u8>),
    /// Something went wrong.
    Error(ErrorMessage),
}

/// The model of a [`Message`].
#[verifier::ext_equal]
pub enum MessageView {
    Init { user: PublicUserView, pubkey: Seq<u8> },
    String(Seq<u8>),
    FileBlockRequest { groupuuid: u128, filehash: Seq<u8>, index: u64 },
    FileBlock(Seq<u8>),
    Error(ErrorMessage),
}

impl View for Message {
    type V = MessageView;

    open spec fn view(&self) -> MessageView {
        match self {
            Message::Init { user, pubkey } => MessageView::Init { user: user@, pubkey: pubkey@ },
            Message::String(s) => MessageView::String(s@),
            Message::FileBlockRequest { groupuuid, filehash, index } => (
                MessageView::FileBlockRequest {
                    groupuuid: groupuuid.value,
                    filehash: filehash@,
                    index: *index,
                }
            ),
            Message::FileBlock(b) => MessageView::FileBlock(b@),
            Message::Error(e) => MessageView::Error(*e),
        }
    }
}

impl MessageView {
    /// The byte strings of the message fit in 64-bit length prefixes.
    pub open spec fn wf(self) -> bool {
        match self {
            MessageView::Init { user, pubkey } => user.key.len() == 32
                && user.name.len() <= u64::MAX && pubkey.len() <= u64::MAX,
            MessageView::String(s) => s.len() <= u64::MAX,
            MessageView::FileBlockRequest { filehash, .. } => filehash.len() <= u64::MAX,
            MessageView::FileBlock(b) => b.len() <= u64::MAX,
            MessageView::Error(_) => true,
        }
    }
}

/// A serialized message together with an Ed25519 signature over exactly
/// those serialized bytes.
#[derive(Debug, PartialEq)]
pub struct SignedMessage {
    /// A serialized [`Message`].
    pub message: Vec<u8>,
    /// The signature over `message`.
    pub signature: Vec<u8>,
}

/// The model of a [`SignedMessage`].
#[verifier::ext_equal]
pub struct SignedMessageView {
    pub message: Seq<u8>,
    pub signature: Seq<u8>,
}

impl View for SignedMessage {
    type V = SignedMessageView;

    open spec fn view(&self) -> SignedMessageView {
        SignedMessageView { message: self.message@, signature: self.signature@ }
    }
}

impl SignedMessageView {
    /// The byte strings fit in 64-bit length prefixes.
    pub open spec fn wf(self) -> bool {
        self.message.len() <= u64::MAX && self.signature.len() <= u64::MAX
    }
}

// ---------------------------------------------------------------------------
// Encoding
// ---------------------------------------------------------------------------

/// A length-prefixed byte string: an 8-byte little-endian length, then the
/// bytes.
pub open spec fn enc_bytes(b: Seq<u8>) -> Seq<u8> {
    spec_u64_to_le_bytes(b.len() as u64) + b
}

/// The encoding of a public identity: its key, then its name.
pub open spec fn enc_user(u: PublicUserView) -> Seq<u8> {
    enc_bytes(u.key) + enc_bytes(u.name)
}

/// The wire encoding of a message: a tag byte, then the fields.
pub open spec fn spec_encode_message(m: MessageView) -> Seq<u8> {
    match m {
        MessageView::Init { user, pubkey } => seq![0u8] + enc_user(user) + enc_bytes(pubkey),
        MessageView::String(s) => seq![1u8] + enc_bytes(s),
        MessageView::FileBlockRequest { groupuuid, filehash, index } => seq![2u8]
            + spec_u128_to_le_bytes(groupuuid) + enc_bytes(filehash)
            + spec_u64_to_le_bytes(index),
        MessageView::FileBlock(b) => seq![3u8] + enc_bytes(b),
        MessageView::Error(e) => seq![
            4u8,
            match e {
                ErrorMessage::FileNotFound => 0u8,
                ErrorMessage::Unauthorized => 1u8,
            },
        ],
    }
}

/// The wire encoding of a signed message: the serialized message, then the
/// signature, both length-prefixed.
pub open spec fn spec_encode_signed(m: SignedMessageView) -> Seq<u8> {
    enc_bytes(m.message) + enc_bytes(m.signature)
}

// ---------------------------------------------------------------------------
// Decoding (specification)
// ---------------------------------------------------------------------------

/// Reads an 8-byte little-endian integer at `pos`.
pub open spec fn dec_u64(b: Seq<u8>, pos: int) -> Option<(u64, int)> {
    if 0 <= pos && pos + 8 <= b.len() {
        Some((spec_u64_from_le_bytes(b.subrange(pos, pos + 8)), pos + 8))
    } else {
        None
    }
}

/// Reads a 16-byte little-endian integer at `pos`.
pub open spec fn dec_u128(b: Seq<u8>, pos: int) -> Option<(u128, int)> {
    if 0 <= pos && pos + 16 <= b.len() {
        Some((spec_u128_from_le_bytes(b.subrange(pos, pos + 16)), pos + 16))
    } else {
        None
    }
}

/// Reads a length-prefixed byte string at `pos`.
pub open spec fn dec_bytes(b: Seq<u8>, pos: int) -> Option<(Seq<u8>, int)> {
    match dec_u64(b, pos) {
        None => None,
        Some((n, p)) => if p + n <= b.len() {
            Some((b.subrange(p, p + n), p + n))
        } else {
            None
        },
    }
}

/// The message a byte string decodes to, if any.  Exactly the encodings of
/// well-formed messages decode; everything else is rejected.
pub open spec fn spec_decode_message(b: Seq<u8>) -> Option<MessageView> {
    if b.len() == 0 {
        None
    } else if b[0] == 0 {
        match dec_bytes(b, 1) {
            None => None,
            Some((key, p1)) => if key.len() != 32 {
                None
            } else {
                match dec_bytes(b, p1) {
                    None => None,
                    Some((name, p2)) => match dec_bytes(b, p2) {
                        None => None,
                        Some((pubkey, p3)) => if p3 == b.len() {
                            Some(
                                MessageView::Init {
                                    user: PublicUserView { key, name },
                                    pubkey,
                                },
                            )
                        } else {
                            None
                        },
                    },
                }
            },
        }
    } else if b[0] == 1 {
        match dec_bytes(b, 1) {
            None => None,
            Some((s, p)) => if p == b.len() {
                Some(MessageView::String(s))
            } else {
                None
            },
        }
    } else if b[0] == 2 {
        match dec_u128(b, 1) {
            None => None,
            Some((uuid, p1)) => match dec_bytes(b, p1) {
                None => None,
                Some((hash, p2)) => match dec_u64(b, p2) {
                    None => None,
                    Some((index, p3)) => if p3 == b.len() {
                        Some(
                            MessageView::FileBlockRequest {
                                groupuuid: uuid,
                                filehash: hash,
                                index,
                            },
                        )
                    } else {
                        None
                    },
                },
            },
        }
    } else if b[0] == 3 {
        match dec_bytes(b, 1) {
            None => None,
            Some((s, p)) => if p == b.len() {
                Some(MessageView::FileBlock(s))
            } else {
                None
            },
        }
    } else if b[0] == 4 {
        if b.len() == 2 && b[1] == 0 {
            Some(MessageView::Error(ErrorMessage::FileNotFound))
        } else if b.len() == 2 && b[1] == 1 {
            Some(MessageView::Error(ErrorMessage::Unauthorized))
        } else {
            None
        }
    } else {
        None
    }
}

/// The signed message a byte string decodes to, if any.
pub open spec fn spec_decode_signed(b: Seq<u8>) -> Option<SignedMessageView> {
    match dec_bytes(b, 0) {
        None => None,
        Some((message, p1)) => match dec_bytes(b, p1) {
            None => None,
            Some((signature, p2)) => if p2 == b.len() {
                Some(SignedMessageView { message, signature })
            } else {
                None
            },
        },
    }
}


// ---------------------------------------------------------------------------
// Encoding and decoding (executable)
// ---------------------------------------------------------------------------

/// Appends a length-prefixed byte string.
fn write_chunk(out: &mut Vec<u8>, data: &[u8])
    ensures
        final(out)@ == old(out)@ + enc_bytes(data@),
{
    let len_bytes = u64_to_le_bytes(data.len() as u64);
    out.extend_from_slice(len_bytes.as_slice());
    out.extend_from_slice(data);
    proof {
        assert(out@ =~= old(out)@ + enc_bytes(data@));
    }
}

/// Reads an 8-byte little-endian integer at `pos`.
fn read_u64_at(b: &[u8], pos: usize) -> (r: Option<(u64, usize)>)
    requires
        pos <= b@.len(),
    ensures
        match r {
            Some(p) => dec_u64(b@, pos as int) == Some((p.0, p.1 as int))
                && pos < p.1 <= b@.len(),
            None => dec_u64(b@, pos as int) is None,
        },
{
    if b.len() - pos >= 8 {
        let s = slice_subrange(b, pos, pos + 8);
        let x = u64_from_le_bytes(s);
        Some((x, pos + 8))
    } else {
        None
    }
}

/// Reads a 16-byte little-endian integer at `pos`.
fn read_u128_at(b: &[u8], pos: usize) -> (r: Option<(u128, usize)>)
    requires
        pos <= b@.len(),
    ensures
        match r {
            Some(p) => dec_u128(b@, pos as int) == Some((p.0, p.1 as int))
                && pos < p.1 <= b@.len(),
            None => dec_u128(b@, pos as int) is None,
        },
{
    if b.len() - pos >= 16 {
        let s = slice_subrange(b, pos, pos + 16);
        let x = u128_from_le_bytes(s);
        Some((x, pos + 16))
    } else {
        None
    }
}

/// Reads a length-prefixed byte string at `pos`.
fn read_chunk(b: &[u8], pos: usize) -> (r: Option<(Vec<u8>, usize)>)
    requires
        pos <= b@.len(),
    ensures
        match r {
            Some(p) => dec_bytes(b@, pos as int) == Some((p.0@, p.1 as int))
                && pos < p.1 <= b@.len(),
            None => dec_bytes(b@, pos as int) is None,
        },
{
    match read_u64_at(b, pos) {
        None => None,
        Some((n, p)) => {
            if n <= (b.len() - p) as u64 {
                let end = p + (n as usize);
                let chunk = slice_subrange(b, p, end);
                Some((slice_to_vec(chunk), end))
            } else {
                None
            }
        },
    }
}

impl Message {
    /// Serializes the message to its wire encoding.
    pub fn serialize(&self) -> (r: Vec<u8>)
        ensures
            r@ == spec_encode_message(self@),
    {
        let mut out: Vec<u8> = Vec::new();
        match self {
            Message::Init { user, pubkey } => {
                out.push(0);
                write_chunk(&mut out, user.get_public_key().as_bytes());
                write_chunk(&mut out, user.get_username().as_slice());
                write_chunk(&mut out, pubkey.as_slice());
                proof {
                    assert(out@ =~= spec_encode_message(self@));
                }
            },
            Message::String(s) => {
                out.push(1);
                write_chunk(&mut out, s.as_slice());
                proof {
                    assert(out@ =~= spec_encode_message(self@));
                }
            },
            Message::FileBlockRequest { groupuuid, filehash, index } => {
                out.push(2);
                let uuid_bytes = u128_to_le_bytes(groupuuid.value);
                out.extend_from_slice(uuid_bytes.as_slice());
                write_chunk(&mut out, filehash.bytes());
                let index_bytes = u64_to_le_bytes(*index);
                out.extend_from_slice(index_bytes.as_slice());
                proof {
                    assert(out@ =~= spec_encode_message(self@));
                }
            },
            Message::FileBlock(b) => {
                out.push(3);
                write_chunk(&mut out, b.as_slice());
                proof {
                    assert(out@ =~= spec_encode_message(self@));
                }
            },
            Message::Error(e) => {
                out.push(4);
                match e {
                    ErrorMessage::FileNotFound => out.push(0),
                    ErrorMessage::Unauthorized => out.push(1),
                }
                proof {
                    assert(out@ =~= spec_encode_message(self@));
                }
            },
        }
        out
    }

    /// Signs the serialized message with the given PKCS#8 key document.
    /// Succeeds exactly when the document is one `ring` accepts.
    pub fn sign(&self, keydoc: &Vec<u8>) -> (r: Result<SignedMessage, DspfsError>)
        ensures
            r matches Ok(sm) ==> {
                &&& sm@.message == spec_encode_message(self@)
                &&& sm@.signature == ed25519_sign_of(keydoc@, sm@.message)
            },
            r is Ok <==> pkcs8_ok(keydoc@),
            r is Err ==> r == Err::<SignedMessage, DspfsError>(DspfsError::Crypto),
    {
        let message = self.serialize();
        let signature = ed25519_sign(keydoc, &message)?;
        Ok(SignedMessage { message, signature })
    }
}

/// Decodes a message from its wire encoding; rejects anything that is not
/// exactly the encoding of a message.
pub fn decode_message(b: &[u8]) -> (r: Option<Message>)
    ensures
        match r {
            Some(m) => spec_decode_message(b@) == Some(m@),
            None => spec_decode_message(b@) is None,
        },
{
    if b.len() == 0 {
        return None;
    }
    let tag = b[0];
    if tag == 0 {
        let (key, p1) = match read_chunk(b, 1) {
            Some(p) => p,
            None => {
                return None;
            },
        };
        if key.len() != 32 {
            return None;
        }
        let (name, p2) = match read_chunk(b, p1) {
            Some(p) => p,
            None => {
                return None;
            },
        };
        let (pubkey, p3) = match read_chunk(b, p2) {
            Some(p) => p,
            None => {
                return None;
            },
        };
        if p3 != b.len() {
            return None;
        }
        let public_key = match PublicKey::try_from(key) {
            Ok(k) => k,
            Err(_) => {
                return None;
            },
        };
        Some(Message::Init { user: PublicUser::new(public_key, name), pubkey })
    } else if tag == 1 {
        let (s, p) = match read_chunk(b, 1) {
            Some(p) => p,
            None => {
                return None;
            },
        };
        if p != b.len() {
            return None;
        }
        Some(Message::String(s))
    } else if tag == 2 {
        let (uuid, p1) = match read_u128_at(b, 1) {
            Some(p) => p,
            None => {
                return None;
            },
        };
        let (hash, p2) = match read_chunk(b, p1) {
            Some(p) => p,
            None => {
                return None;
            },
        };
        let (index, p3) = match read_u64_at(b, p2) {
            Some(p) => p,
            None => {
                return None;
            },
        };
        if p3 != b.len() {
            return None;
        }
        Some(
            Message::FileBlockRequest {
                groupuuid: GroupUuid { value: uuid },
                filehash: crate::hash::Hash::new(hash),
                index,
            },
        )
    } else if tag == 3 {
        let (s, p) = match read_chunk(b, 1) {
            Some(p) => p,
            None => {
                return None;
            },
        };
        if p != b.len() {
            return None;
        }
        Some(Message::FileBlock(s))
    } else if tag == 4 {
        if b.len() == 2 && b[1] == 0 {
            Some(Message::Error(ErrorMessage::FileNotFound))
        } else if b.len() == 2 && b[1] == 1 {
            Some(Message::Error(ErrorMessage::Unauthorized))
        } else {
            None
        }
    } else {
        None
    }
}

impl SignedMessage {
    /// Serializes the signed message to its wire encoding.
    pub fn serialize(&self) -> (r: Vec<u8>)
        ensures
            r@ == spec_encode_signed(self@),
    {
        let mut out: Vec<u8> = Vec::new();
        write_chunk(&mut out, self.message.as_slice());
        write_chunk(&mut out, self.signature.as_slice());
        proof {
            assert(out@ =~= spec_encode_signed(self@));
        }
        out
    }
}

/// Decodes a signed message from its wire encoding.
pub fn decode_signed(b: &[u8]) -> (r: Option<SignedMessage>)
    ensures
        match r {
            Some(m) => spec_decode_signed(b@) == Some(m@),
            None => spec_decode_signed(b@) is None,
        },
{
    let (message, p1) = match read_chunk(b, 0) {
        Some(p) => p,
        None => {
            return None;
        },
    };
    let (signature, p2) = match read_chunk(b, p1) {
        Some(p) => p,
        None => {
            return None;
        },
    };
    if p2 != b.len() {
        return None;
    }
    Some(SignedMessage { message, signature })
}

// ---------------------------------------------------------------------------
// The codec round trip
// ---------------------------------------------------------------------------

/// Reading a length-prefixed byte string back out of a longer string.
pub proof fn lemma_dec_bytes(pre: Seq<u8>, payload: Seq<u8>, suf: Seq<u8>)
    requires
        payload.len() <= u64::MAX,
    ensures
        dec_bytes(pre + enc_bytes(payload) + suf, pre.len() as int)
            == Some((payload, (pre.len() + 8 + payload.len()) as int)),
{
    lemma_auto_spec_u64_to_from_le_bytes();
    let b = pre + enc_bytes(payload) + suf;
    let pos = pre.len() as int;
    assert(b.subrange(pos, pos + 8) =~= spec_u64_to_le_bytes(payload.len() as u64));
    assert(b.subrange(pos + 8, pos + 8 + payload.len()) =~= payload);
}

/// Reading an 8-byte integer back out of a longer string.
pub proof fn lemma_dec_u64(pre: Seq<u8>, x: u64, suf: Seq<u8>)
    ensures
        dec_u64(pre + spec_u64_to_le_bytes(x) + suf, pre.len() as int)
            == Some((x, (pre.len() + 8) as int)),
{
    lemma_auto_spec_u64_to_from_le_bytes();
    let b = pre + spec_u64_to_le_bytes(x) + suf;
    let pos = pre.len() as int;
    assert(b.subrange(pos, pos + 8) =~= spec_u64_to_le_bytes(x));
}

/// Reading a 16-byte integer back out of a longer string.
pub proof fn lemma_dec_u128(pre: Seq<u8>, x: u128, suf: Seq<u8>)
    ensures
        dec_u128(pre + spec_u128_to_le_bytes(x) + suf, pre.len() as int)
            == Some((x, (pre.len() + 16) as int)),
{
    lemma_auto_spec_u128_to_from_le_bytes();
    let b = pre + spec_u128_to_le_bytes(x) + suf;
    let pos = pre.len() as int;
    assert(b.subrange(pos, pos + 16) =~= spec_u128_to_le_bytes(x));
}

/// The codec round trip: decoding the encoding of any well-formed message
/// yields that message back, exactly.
pub proof fn lemma_message_round_trip(m: MessageView)
    requires
        m.wf(),
    ensures
        spec_decode_message(spec_encode_message(m)) == Some(m),
{
    lemma_auto_spec_u64_to_from_le_bytes();
    lemma_auto_spec_u128_to_from_le_bytes();
    let b = spec_encode_message(m);
    match m {
        MessageView::Init { user, pubkey } => {
            assert(b =~= seq![0u8] + enc_bytes(user.key)
                + (enc_bytes(user.name) + enc_bytes(pubkey)));
            lemma_dec_bytes(seq![0u8], user.key, enc_bytes(user.name) + enc_bytes(pubkey));
            let p1 = 1 + 8 + user.key.len() as int;
            assert(b =~= (seq![0u8] + enc_bytes(user.key) + enc_bytes(user.name))
                + enc_bytes(pubkey) + Seq::<u8>::empty());
            assert(b.subrange(0, p1) =~= seq![0u8] + enc_bytes(user.key));
            lemma_dec_bytes(seq![0u8] + enc_bytes(user.key), user.name, enc_bytes(pubkey));
            assert(b =~= (seq![0u8] + enc_bytes(user.key)) + enc_bytes(user.name)
                + enc_bytes(pubkey));
            let p2 = p1 + 8 + user.name.len() as int;
            lemma_dec_bytes(
                seq![0u8] + enc_bytes(user.key) + enc_bytes(user.name),
                pubkey,
                Seq::<u8>::empty(),
            );
            let p3 = p2 + 8 + pubkey.len() as int;
            assert(p3 == b.len());
            assert(spec_decode_message(b) == Some(m));
        },
        MessageView::String(s0) => {
            assert(b =~= seq![1u8] + enc_bytes(s0) + Seq::<u8>::empty());
            lemma_dec_bytes(seq![1u8], s0, Seq::<u8>::empty());
            assert(spec_decode_message(b) == Some(m));
        },
        MessageView::FileBlockRequest { groupuuid, filehash, index } => {
            assert(b =~= seq![2u8] + spec_u128_to_le_bytes(groupuuid)
                + (enc_bytes(filehash) + spec_u64_to_le_bytes(index)));
            lemma_dec_u128(
                seq![2u8],
                groupuuid,
                enc_bytes(filehash) + spec_u64_to_le_bytes(index),
            );
            let p1 = 17int;
            assert(b =~= (seq![2u8] + spec_u128_to_le_bytes(groupuuid)) + enc_bytes(filehash)
                + spec_u64_to_le_bytes(index));
            lemma_dec_bytes(
                seq![2u8] + spec_u128_to_le_bytes(groupuuid),
                filehash,
                spec_u64_to_le_bytes(index),
            );
            let p2 = p1 + 8 + filehash.len() as int;
            assert(b =~= (seq![2u8] + spec_u128_to_le_bytes(groupuuid) + enc_bytes(filehash))
                + spec_u64_to_le_bytes(index) + Seq::<u8>::empty());
            lemma_dec_u64(
                seq![2u8] + spec_u128_to_le_bytes(groupuuid) + enc_bytes(filehash),
                index,
                Seq::<u8>::empty(),
            );
            let p3 = p2 + 8;
            assert(p3 == b.len());
            assert(spec_decode_message(b) == Some(m));
        },
        MessageView::FileBlock(s0) => {
            assert(b =~= seq![3u8] + enc_bytes(s0) + Seq::<u8>::empty());
            lemma_dec_bytes(seq![3u8], s0, Seq::<u8>::empty());
            assert(spec_decode_message(b) == Some(m));
        },
        MessageView::Error(e) => {
            assert(b.len() == 2);
            assert(b[0] == 4);
            match e {
                ErrorMessage::FileNotFound => assert(b[1] == 0),
                ErrorMessage::Unauthorized => assert(b[1] == 1),
            }
            assert(spec_decode_message(b) == Some(m));
        },
    }
}

/// The signed-message round trip.
pub proof fn lemma_signed_round_trip(m: SignedMessageView)
    requires
        m.wf(),
    ensures
        spec_decode_signed(spec_encode_signed(m)) == Some(m),
{
    lemma_auto_spec_u64_to_from_le_bytes();
    let b = spec_encode_signed(m);
    assert(b =~= Seq::<u8>::empty() + enc_bytes(m.message) + enc_bytes(m.signature));
    lemma_dec_bytes(Seq::<u8>::empty(), m.message, enc_bytes(m.signature));
    let p1 = 8 + m.message.len() as int;
    assert(b =~= (Seq::<u8>::empty() + enc_bytes(m.message)) + enc_bytes(m.signature)
        + Seq::<u8>::empty());
    lemma_dec_bytes(Seq::<u8>::empty() + enc_bytes(m.message), m.signature, Seq::<u8>::empty());
    assert(spec_decode_signed(b) == Some(m));
}


/// What a successful chunk read says about the bytes: the read window is
/// exactly the length-prefixed encoding of the chunk.
pub proof fn lemma_dec_bytes_inv(b: Seq<u8>, pos: int)
    requires
        dec_bytes(b, pos) is Some,
    ensures
        ({
            let r = dec_bytes(b, pos)->Some_0;
            &&& pos + 8 <= r.1 <= b.len()
            &&& r.0.len() == r.1 - pos - 8
            &&& b.subrange(pos, r.1) == enc_bytes(r.0)
        }),
{
    lemma_auto_spec_u64_to_from_le_bytes();
    let n = spec_u64_from_le_bytes(b.subrange(pos, pos + 8));
    let r = dec_bytes(b, pos)->Some_0;
    assert(b.subrange(pos, pos + 8).len() == 8);
    assert(spec_u64_to_le_bytes(n) == b.subrange(pos, pos + 8));
    assert(r.0.len() == n);
    assert(b.subrange(pos, r.1) =~= b.subrange(pos, pos + 8) + b.subrange(pos + 8, r.1));
    assert(b.subrange(pos + 8, r.1) == r.0);
    assert(enc_bytes(r.0) == spec_u64_to_le_bytes(n) + r.0);
}

/// What a successful integer read says about the bytes.
pub proof fn lemma_dec_u64_inv(b: Seq<u8>, pos: int)
    requires
        dec_u64(b, pos) is Some,
    ensures
        b.subrange(pos, pos + 8) == spec_u64_to_le_bytes(dec_u64(b, pos)->Some_0.0),
{
    lemma_auto_spec_u64_to_from_le_bytes();
    assert(b.subrange(pos, pos + 8).len() == 8);
}

/// What a successful 16-byte integer read says about the bytes.
pub proof fn lemma_dec_u128_inv(b: Seq<u8>, pos: int)
    requires
        dec_u128(b, pos) is Some,
    ensures
        b.subrange(pos, pos + 16) == spec_u128_to_le_bytes(dec_u128(b, pos)->Some_0.0),
{
    lemma_auto_spec_u128_to_from_le_bytes();
    assert(b.subrange(pos, pos + 16).len() == 16);
}

/// The codec admits one wire form: a byte string that decodes is exactly
/// the encoding of the message it decodes to.  With the round trip, this
/// makes encoding and decoding mutually inverse bijections between
/// well-formed messages and their encodings.
pub proof fn lemma_decode_encode(b: Seq<u8>)
    requires
        spec_decode_message(b) is Some,
    ensures
        spec_encode_message(spec_decode_message(b)->Some_0) == b,
{
    lemma_auto_spec_u64_to_from_le_bytes();
    lemma_auto_spec_u128_to_from_le_bytes();
    let m = spec_decode_message(b)->Some_0;
    if b[0] == 0 {
        let (key, p1) = dec_bytes(b, 1)->Some_0;
        let (name, p2) = dec_bytes(b, p1)->Some_0;
        let (pubkey, p3) = dec_bytes(b, p2)->Some_0;
        lemma_dec_bytes_inv(b, 1);
        lemma_dec_bytes_inv(b, p1);
        lemma_dec_bytes_inv(b, p2);
        assert(p3 == b.len());
        assert(b =~= seq![b[0]] + b.subrange(1, p1) + b.subrange(p1, p2)
            + b.subrange(p2, p3));
        assert(spec_encode_message(m) =~= seq![0u8] + enc_bytes(key) + enc_bytes(name)
            + enc_bytes(pubkey));
        assert(spec_encode_message(m) =~= b);
    } else if b[0] == 1 {
        let (s0, p) = dec_bytes(b, 1)->Some_0;
        lemma_dec_bytes_inv(b, 1);
        assert(p == b.len());
        assert(b =~= seq![b[0]] + b.subrange(1, p));
        assert(spec_encode_message(m) =~= b);
    } else if b[0] == 2 {
        let (uuid, p1) = dec_u128(b, 1)->Some_0;
        let (hash, p2) = dec_bytes(b, p1)->Some_0;
        let (index, p3) = dec_u64(b, p2)->Some_0;
        lemma_dec_u128_inv(b, 1);
        lemma_dec_bytes_inv(b, p1);
        lemma_dec_u64_inv(b, p2);
        assert(p3 == b.len());
        assert(b =~= seq![b[0]] + b.subrange(1, p1) + b.subrange(p1, p2)
            + b.subrange(p2, p3));
        assert(spec_encode_message(m) =~= seq![2u8] + spec_u128_to_le_bytes(uuid)
            + enc_bytes(hash) + spec_u64_to_le_bytes(index));
        assert(spec_encode_message(m) =~= b);
    } else if b[0] == 3 {
        let (s0, p) = dec_bytes(b, 1)->Some_0;
        lemma_dec_bytes_inv(b, 1);
        assert(p == b.len());
        assert(b =~= seq![b[0]] + b.subrange(1, p));
        assert(spec_encode_message(m) =~= b);
    } else {
        assert(b[0] == 4);
        assert(b.len() == 2 && (b[1] == 0 || b[1] == 1));
        assert(spec_encode_message(m) =~= b);
    }
}


/// Every decodable byte string decodes to a well-formed message: each
/// length-prefixed chunk carries its length in a 64-bit prefix, and an
/// announced identity's key is checked to be 32 bytes.
pub proof fn lemma_decoded_wf(b: Seq<u8>)
    requires
        spec_decode_message(b) is Some,
    ensures
        spec_decode_message(b)->Some_0.wf(),
{
    if b[0] == 0 {
        let (key, p1) = dec_bytes(b, 1)->Some_0;
        let (name, p2) = dec_bytes(b, p1)->Some_0;
        lemma_dec_bytes_inv(b, 1);
        lemma_dec_bytes_inv(b, p1);
        lemma_dec_bytes_inv(b, p2);
    } else if b[0] == 1 || b[0] == 3 {
        lemma_dec_bytes_inv(b, 1);
    } else if b[0] == 2 {
        let (_, p1) = dec_u128(b, 1)->Some_0;
        lemma_dec_bytes_inv(b, p1);
    }
}

/// The encoding is injective on well-formed messages: two messages with
/// the same wire form are the same message.
pub proof fn lemma_encode_injective(m1: MessageView, m2: MessageView)
    requires
        m1.wf(),
        m2.wf(),
        spec_encode_message(m1) == spec_encode_message(m2),
    ensures
        m1 == m2,
{
    lemma_message_round_trip(m1);
    lemma_message_round_trip(m2);
}

} // verus!
