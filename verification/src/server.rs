use vstd::prelude::*;
use crate::file::has_key;
use crate::group::StoredGroup;
use crate::message::{ErrorMessage, Message, MessageView};
use crate::user::PublicUser;

verus! {

/// What the connection loop must do with one received message.  The
/// surrounding I/O shell performs the action and feeds back the next
/// message; every decision here is taken from the message, the peer's
/// verified identity, and the group lookup alone.
#[derive(Debug)]
pub enum ServerDecision {
    /// An `Init` arrived after the handshake: fatal, close the connection.
    FatalReInit,
    /// A diagnostic string: log it and continue.
    Diagnostic(Vec<u8>),
    /// The peer is authorized; the block must be fetched and served.
    ServeBlock { filehash: crate::hash::Hash, index: u64 },
    /// The requested group is not stored here: close.
    UnknownGroup,
    /// The peer is not a member of the group it asked about: send the
    /// [`unauthorized_reply`], then close.
    NotAuthorized,
    /// Any other message: log and continue.
    Ignore,
}

/// Decides what to do with one message received on an open session.
/// Authorization is re-checked per request: a block is served only to a
/// peer that is a member of the group it asks about.
pub fn dispatch_message(
    msg: Message,
    peer: &PublicUser,
    group: Option<&StoredGroup>,
) -> (r: ServerDecision)
    ensures
        msg@ matches MessageView::Init { .. } ==> r is FatalReInit,
        msg@ matches MessageView::String(s) ==> (r matches ServerDecision::Diagnostic(d)
            && d@ == s),
        msg@ matches MessageView::FileBlockRequest { .. } && group is None
            ==> r is UnknownGroup,
        msg@ matches MessageView::FileBlockRequest { filehash, index, .. }
            ==> (group matches Some(g) ==> ({
                if has_key(g.members(), peer.key()) {
                    r matches ServerDecision::ServeBlock { filehash: h, index: i }
                        && h@ == filehash && i == index
                } else {
                    r is NotAuthorized
                }
            })),
        (msg@ matches MessageView::FileBlock(..) || msg@ matches MessageView::Error(..))
            ==> r is Ignore,
{
    match msg {
        Message::Init { .. } => ServerDecision::FatalReInit,
        Message::String(s) => ServerDecision::Diagnostic(s),
        Message::FileBlockRequest { groupuuid: _, filehash, index } => {
            match group {
                None => ServerDecision::UnknownGroup,
                Some(g) => {
                    if g.is_member(peer) {
                        ServerDecision::ServeBlock { filehash, index }
                    } else {
                        ServerDecision::NotAuthorized
                    }
                },
            }
        },
        Message::FileBlock(_) => ServerDecision::Ignore,
        Message::Error(_) => ServerDecision::Ignore,
    }
}

/// The refusal of an unauthorized request: an `Error(Unauthorized)` reply,
/// and the connection closes after it.
pub fn unauthorized_reply() -> (r: (Message, bool))
    ensures
        r.0@ == MessageView::Error(ErrorMessage::Unauthorized),
        r.1,
{
    (Message::Error(ErrorMessage::Unauthorized), true)
}

/// The reply to a block fetch: the block itself, or `FileNotFound` — in
/// which case the connection closes after the reply.
pub fn block_reply(block: Option<Vec<u8>>) -> (r: (Message, bool))
    ensures
        block matches Some(b) ==> r.0@ == MessageView::FileBlock(b@) && !r.1,
        block is None ==> r.0@ == MessageView::Error(ErrorMessage::FileNotFound) && r.1,
{
    match block {
        Some(b) => (Message::FileBlock(b), false),
        None => (Message::Error(ErrorMessage::FileNotFound), true),
    }
}

} // verus!
