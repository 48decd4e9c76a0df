//! The state of one peer session, the checks that open it and the frames it
//! sends.

use crate::bitfield::Bitfield;
use crate::error::TorrentError;
use crate::handshake::{read_handshake, Handshake, HandshakeView};
use crate::message::{
    format_have, format_request, read_message, serialize_message, Message, MessageView,
    MESSAGE_BITFIELD, MESSAGE_CHOKE, MESSAGE_INTERESTED, MESSAGE_NOT_INTERESTED, MESSAGE_UNCHOKE,
};
use crate::endian::{same_bytes, u32_be};
use crate::peers::Peer;
use vstd::prelude::*;

verus! {

/// Seconds that connecting to a peer, and each read and write of the
/// handshake, may take.
pub const HANDSHAKE_TIMEOUT: u64 = 3;

/// Seconds that the peer's first message may take.
pub const BITFIELD_TIMEOUT: u64 = 5;

/// Seconds that a read or write may take while no piece is downloaded.
pub const IDLE_TIMEOUT: u64 = 1000;

/// What a worker knows of the peer it talks to.
pub struct Client {
    /// Whether the peer refuses to serve blocks for now.
    pub choked: bool,
    /// The pieces the peer claims to have.
    pub bitfield: Bitfield,
    pub peer: Peer,
    pub info_hash: Vec<u8>,
    pub peer_id: Vec<u8>,
}

/// The frame of a message that has an id and no payload.
pub open spec fn bare_frame(id: u8) -> Seq<u8> {
    seq![0u8, 0u8, 0u8, 1u8, id]
}

/// The frame of the message with the given id and no payload.
fn serialize_bare(id: u8) -> (bytes: Vec<u8>)
    requires
        id != crate::message::MESSAGE_EMPTY,
    ensures
        bytes@ == bare_frame(id),
        bytes@ == (MessageView { id, payload: Seq::empty() }).frame(),
{
    let mut msg: Message = Message::default();
    msg.id = id;
    let bytes: Vec<u8> = serialize_message(&msg);
    assert(u32_be(1u32) =~= seq![0u8, 0u8, 0u8, 1u8]);
    assert(msg@.payload =~= Seq::<u8>::empty());
    assert(bytes@ =~= bare_frame(id));
    bytes
}

impl Client {
    /// The frame that asks the peer for `length` bytes of piece `index`, from
    /// offset `begin` on.
    pub fn send_request(&self, index: &u32, begin: &u32, length: &u32) -> (bytes: Vec<u8>)
        ensures
            bytes@ == seq![0u8, 0u8, 0u8, 13u8, 6u8] + u32_be(*index) + u32_be(*begin) + u32_be(
                *length,
            ),
    {
        let req: Message = format_request(*index, *begin, *length);
        let bytes: Vec<u8> = serialize_message(&req);
        assert(u32_be(13u32) =~= seq![0u8, 0u8, 0u8, 13u8]);
        assert(bytes@ =~= seq![0u8, 0u8, 0u8, 13u8, 6u8] + u32_be(*index) + u32_be(*begin)
            + u32_be(*length));
        bytes
    }

    /// The frame that tells the peer that it is choked.
    pub fn send_choke(&self) -> (bytes: Vec<u8>)
        ensures
            bytes@ == bare_frame(MESSAGE_CHOKE),
    {
        serialize_bare(MESSAGE_CHOKE)
    }

    /// The frame that tells the peer that it is no longer choked.
    pub fn send_unchoke(&self) -> (bytes: Vec<u8>)
        ensures
            bytes@ == bare_frame(MESSAGE_UNCHOKE),
    {
        serialize_bare(MESSAGE_UNCHOKE)
    }

    /// The frame that tells the peer that we want blocks from it.
    pub fn send_interested(&self) -> (bytes: Vec<u8>)
        ensures
            bytes@ == bare_frame(MESSAGE_INTERESTED),
    {
        serialize_bare(MESSAGE_INTERESTED)
    }

    /// The frame that tells the peer that we want nothing from it.
    pub fn send_not_interested(&self) -> (bytes: Vec<u8>)
        ensures
            bytes@ == bare_frame(MESSAGE_NOT_INTERESTED),
    {
        serialize_bare(MESSAGE_NOT_INTERESTED)
    }

    /// The frame that tells the peer that we have piece `index`.
    pub fn send_have(&self, index: u32) -> (bytes: Vec<u8>)
        ensures
            bytes@ == seq![0u8, 0u8, 0u8, 5u8, 4u8] + u32_be(index),
    {
        let msg: Message = format_have(index);
        let bytes: Vec<u8> = serialize_message(&msg);
        assert(u32_be(5u32) =~= seq![0u8, 0u8, 0u8, 5u8]);
        assert(bytes@ =~= seq![0u8, 0u8, 0u8, 5u8, 4u8] + u32_be(index));
        bytes
    }
}

/// What the first frame of a session must bring: a BITFIELD, whose payload is
/// the peer's bitfield.
pub open spec fn first_bitfield(frame: Seq<u8>) -> Result<Seq<u8>, TorrentError> {
    match MessageView::parse(frame) {
        Ok(msg) => if msg.id == MESSAGE_BITFIELD {
            Ok(msg.payload)
        } else {
            Err(TorrentError::IdError)
        },
        Err(e) => Err(e),
    }
}

/// The bitfield that the peer sent as the first message of the session. Any
/// other message there is an error.
pub fn receive_bitfield(frame: &[u8]) -> (r: Result<Bitfield, TorrentError>)
    ensures
        match r {
            Ok(bf) => first_bitfield(frame@) == Ok::<Seq<u8>, TorrentError>(bf@),
            Err(e) => first_bitfield(frame@) == Err::<Seq<u8>, TorrentError>(e),
        },
{
    match read_message(frame) {
        Ok(msg) => {
            if msg.id != MESSAGE_BITFIELD {
                Err(TorrentError::IdError)
            } else {
                Ok(msg.payload)
            }
        },
        Err(e) => Err(e),
    }
}

/// What the peer's answer to our handshake must be: a handshake for the same
/// torrent.
pub open spec fn accepted_handshake(reply: Seq<u8>, info_hash: Seq<u8>) -> Result<
    HandshakeView,
    TorrentError,
> {
    match HandshakeView::parse(reply) {
        Ok(h) => if h.info_hash == info_hash {
            Ok(h)
        } else {
            Err(TorrentError::UnexpectedInfoHash)
        },
        Err(e) => Err(e),
    }
}

/// The handshake that the peer answered with, if it is for the torrent with
/// the given info hash.
pub fn complete_handshake(reply: &[u8], info_hash: &Vec<u8>) -> (r: Result<Handshake, TorrentError>)
    ensures
        match r {
            Ok(h) => accepted_handshake(reply@, info_hash@) == Ok::<HandshakeView, TorrentError>(
                h@,
            ),
            Err(e) => accepted_handshake(reply@, info_hash@) == Err::<HandshakeView, TorrentError>(
                e,
            ),
        },
{
    let received: Handshake = match read_handshake(reply) {
        Ok(received) => received,
        Err(e) => return Err(e),
    };
    if same_bytes(&received.info_hash, info_hash) {
        Ok(received)
    } else {
        Err(TorrentError::UnexpectedInfoHash)
    }
}

/// The state of a session that has just been opened: the peer is choking us
/// and has the pieces of `bitfield`.
pub fn new_client(peer: &Peer, peer_id: &Vec<u8>, info_hash: &Vec<u8>, bitfield: Bitfield) -> (c:
    Client)
    ensures
        c.choked,
        c.bitfield@ == bitfield@,
        c.peer == *peer,
        c.peer_id@ == peer_id@,
        c.info_hash@ == info_hash@,
{
    Client {
        choked: true,
        bitfield,
        peer: *peer,
        info_hash: info_hash.clone(),
        peer_id: peer_id.clone(),
    }
}

} // verus!
