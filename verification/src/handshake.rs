//! The handshake that opens a peer session.

use crate::error::TorrentError;
use vstd::prelude::*;
use vstd::slice::{slice_subrange, slice_to_vec};
use vstd::string::*;

verus! {

/// The preamble that both sides of a session send first.
pub struct Handshake {
    pub pstr: Vec<u8>,
    pub info_hash: Vec<u8>,
    pub peer_id: Vec<u8>,
}

/// A handshake as a mathematical value.
pub struct HandshakeView {
    pub pstr: Seq<u8>,
    pub info_hash: Seq<u8>,
    pub peer_id: Seq<u8>,
}

impl View for Handshake {
    type V = HandshakeView;

    open spec fn view(&self) -> HandshakeView {
        HandshakeView { pstr: self.pstr@, info_hash: self.info_hash@, peer_id: self.peer_id@ }
    }
}

/// The bytes of the standard protocol string, "BitTorrent protocol".
pub open spec fn protocol_bytes() -> Seq<u8> {
    seq![
        66u8, 105u8, 116u8, 84u8, 111u8, 114u8, 114u8, 101u8, 110u8, 116u8, 32u8, 112u8, 114u8,
        111u8, 116u8, 111u8, 99u8, 111u8, 108u8,
    ]
}

impl HandshakeView {
    /// Whether the handshake can be told apart again after it was written:
    /// the protocol string has between 1 and 255 bytes, the info hash and the
    /// peer id twenty each.
    pub open spec fn well_formed(self) -> bool {
        &&& 1 <= self.pstr.len() <= 255
        &&& self.info_hash.len() == 20
        &&& self.peer_id.len() == 20
    }

    /// The handshake on the wire: the length of the protocol string in one
    /// byte, the protocol string, eight reserved zero bytes, the info hash,
    /// the peer id.
    pub open spec fn packet(self) -> Seq<u8> {
        seq![self.pstr.len() as u8] + self.pstr + Seq::new(8, |i: int| 0u8) + self.info_hash
            + self.peer_id
    }

    /// The handshake that `bytes` starts with. A protocol string of length
    /// zero is malformed; a handshake that `bytes` does not hold in full is a
    /// short read. Bytes behind the handshake are not looked at.
    pub open spec fn parse(bytes: Seq<u8>) -> Result<HandshakeView, TorrentError> {
        if bytes.len() < 1 {
            Err(TorrentError::ShortRead)
        } else if bytes[0] == 0 {
            Err(TorrentError::MalformedHandshake)
        } else if bytes.len() < 49 + bytes[0] {
            Err(TorrentError::ShortRead)
        } else {
            Ok(
                HandshakeView {
                    pstr: bytes.subrange(1, 1 + bytes[0]),
                    info_hash: bytes.subrange(9 + bytes[0], 29 + bytes[0]),
                    peer_id: bytes.subrange(29 + bytes[0], 49 + bytes[0]),
                },
            )
        }
    }
}

/// Reading a written handshake gives the handshake back, whatever follows it,
/// provided it is well formed.
pub proof fn lemma_packet_parses(h: HandshakeView, rest: Seq<u8>)
    requires
        h.well_formed(),
    ensures
        h.packet().len() == 49 + h.pstr.len(),
        HandshakeView::parse(h.packet()) == Ok::<HandshakeView, TorrentError>(h),
        HandshakeView::parse(h.packet() + rest) == Ok::<HandshakeView, TorrentError>(h),
{
    let n = h.pstr.len() as int;
    let p = h.packet();
    let q = p + rest;
    assert(p[0] == n as u8);
    assert(q[0] == n as u8);
    assert(p.subrange(1, 1 + n) =~= h.pstr);
    assert(p.subrange(9 + n, 29 + n) =~= h.info_hash);
    assert(p.subrange(29 + n, 49 + n) =~= h.peer_id);
    assert(q.subrange(1, 1 + n) =~= h.pstr);
    assert(q.subrange(9 + n, 29 + n) =~= h.info_hash);
    assert(q.subrange(29 + n, 49 + n) =~= h.peer_id);
}

/// The standard protocol string as bytes.
fn protocol_string() -> (pstr: Vec<u8>)
    ensures
        pstr@ == protocol_bytes(),
{
    let mut pstr: Vec<u8> = Vec::new();
    pstr.push(66);
    pstr.push(105);
    pstr.push(116);
    pstr.push(84);
    pstr.push(111);
    pstr.push(114);
    pstr.push(114);
    pstr.push(101);
    pstr.push(110);
    pstr.push(116);
    pstr.push(32);
    pstr.push(112);
    pstr.push(114);
    pstr.push(111);
    pstr.push(116);
    pstr.push(111);
    pstr.push(99);
    pstr.push(111);
    pstr.push(108);
    assert(pstr@ =~= protocol_bytes());
    pstr
}

/// A handshake with the standard protocol string and two-byte placeholders
/// for the info hash and the peer id.
pub fn new_handshake() -> (h: Handshake)
    ensures
        h.pstr@ == protocol_bytes(),
        h.info_hash@ == seq![0u8, 1u8],
        h.peer_id@ == seq![0u8, 1u8],
{
    let mut info_hash: Vec<u8> = Vec::new();
    info_hash.push(0);
    info_hash.push(1);
    let mut peer_id: Vec<u8> = Vec::new();
    peer_id.push(0);
    peer_id.push(1);
    assert(info_hash@ =~= seq![0u8, 1u8]);
    assert(peer_id@ =~= seq![0u8, 1u8]);
    Handshake { pstr: protocol_string(), info_hash, peer_id }
}

/// The handshake with the standard protocol string for the given torrent and
/// peer.
pub fn new_handshake_with_input(info_hash: Vec<u8>, peer_id: Vec<u8>) -> (h: Handshake)
    ensures
        h.pstr@ == protocol_bytes(),
        h.info_hash@ == info_hash@,
        h.peer_id@ == peer_id@,
{
    Handshake { pstr: protocol_string(), info_hash, peer_id }
}

/// The handshake as it goes over the wire. The length of the protocol string
/// has to fit its one byte.
pub fn serialize_handshake(hs: &Handshake) -> (buf: Vec<u8>)
    requires
        hs.pstr@.len() <= 255,
    ensures
        buf@ == hs@.packet(),
{
    let mut buf: Vec<u8> = Vec::new();
    buf.push(hs.pstr.len() as u8);
    let mut pstr: Vec<u8> = hs.pstr.clone();
    buf.append(&mut pstr);
    let mut reserved: Vec<u8> = vec![0u8; 8];
    assert(reserved@ =~= Seq::new(8, |i: int| 0u8));
    buf.append(&mut reserved);
    let mut info_hash: Vec<u8> = hs.info_hash.clone();
    buf.append(&mut info_hash);
    let mut peer_id: Vec<u8> = hs.peer_id.clone();
    buf.append(&mut peer_id);
    assert(buf@ =~= hs@.packet());
    buf
}

/// How many bytes of a handshake follow its first byte, which holds the
/// length of the protocol string. A length of zero is malformed.
pub fn handshake_body_length(pstrlen: u8) -> (r: Result<usize, TorrentError>)
    ensures
        r == if pstrlen == 0 {
            Err::<usize, TorrentError>(TorrentError::MalformedHandshake)
        } else {
            Ok::<usize, TorrentError>((48 + pstrlen) as usize)
        },
{
    if pstrlen == 0 {
        Err(TorrentError::MalformedHandshake)
    } else {
        Ok(48 + pstrlen as usize)
    }
}

/// Reads the handshake that `bytes` starts with: one byte for the length of
/// the protocol string, which must not be zero, the protocol string, eight
/// reserved bytes that are skipped, twenty bytes of info hash and twenty of
/// peer id. Where `bytes` ends before the handshake does, the read is short.
pub fn read_handshake(bytes: &[u8]) -> (r: Result<Handshake, TorrentError>)
    ensures
        match r {
            Ok(h) => HandshakeView::parse(bytes@) == Ok::<HandshakeView, TorrentError>(h@)
                && h@.well_formed(),
            Err(e) => HandshakeView::parse(bytes@) == Err::<HandshakeView, TorrentError>(e),
        },
{
    if bytes.len() < 1 {
        return Err(TorrentError::ShortRead);
    }
    let pstrlen: usize = bytes[0] as usize;
    if pstrlen == 0 {
        return Err(TorrentError::MalformedHandshake);
    }
    if bytes.len() < 49 + pstrlen {
        return Err(TorrentError::ShortRead);
    }
    let pstr: Vec<u8> = slice_to_vec(slice_subrange(bytes, 1, 1 + pstrlen));
    let info_hash: Vec<u8> = slice_to_vec(slice_subrange(bytes, 9 + pstrlen, 29 + pstrlen));
    let peer_id: Vec<u8> = slice_to_vec(slice_subrange(bytes, 29 + pstrlen, 49 + pstrlen));
    Ok(Handshake { pstr, info_hash, peer_id })
}

} // verus!
