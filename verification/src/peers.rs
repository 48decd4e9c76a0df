//! Peer endpoints, and the compact peer list of a tracker's answer.

use crate::endian::{read_u16_be, u16_from_be};
use crate::error::TorrentError;
use vstd::prelude::*;
use vstd::slice::slice_subrange;

verus! {

/// An IPv4 address, its four bytes in network order, and a TCP port.
#[derive(Copy, Clone, Debug)]
pub struct Peer {
    pub ip: [u8; 4],
    pub port: u16,
}

/// Whether `peer` is what record `i` of the compact peer list `bytes` says:
/// four bytes of address, then the port in two bytes, most significant first.
pub open spec fn is_record(peer: Peer, bytes: Seq<u8>, i: int) -> bool {
    &&& peer.ip@ == bytes.subrange(6 * i, 6 * i + 4)
    &&& peer.port == u16_from_be(bytes.subrange(6 * i + 4, 6 * i + 6))
}

/// The peers of a compact peer list, in the order of their six-byte records.
/// A list whose length is not a multiple of six is malformed.
pub fn unmarshal(peers_bin: Vec<u8>) -> (r: Result<Vec<Peer>, TorrentError>)
    ensures
        peers_bin@.len() % 6 == 0 <==> r is Ok,
        match r {
            Ok(peers) => {
                &&& peers_bin@.len() % 6 == 0
                &&& peers@.len() == peers_bin@.len() / 6
                &&& forall|i: int| 0 <= i < peers@.len() ==> is_record(#[trigger] peers@[i], peers_bin@, i)
            },
            Err(e) => e == TorrentError::MalformedPeers && peers_bin@.len() % 6 != 0,
        },
{
    let peer_size: usize = 6;
    let num_peers: usize = peers_bin.len() / peer_size;
    if peers_bin.len() % peer_size != 0 {
        return Err(TorrentError::MalformedPeers);
    }
    let mut peers: Vec<Peer> = Vec::new();
    let mut i: usize = 0;
    while i < num_peers
        invariant
            i <= num_peers,
            num_peers * 6 == peers_bin@.len() <= usize::MAX,
            peers@.len() == i,
            forall|j: int| 0 <= j < i ==> is_record(#[trigger] peers@[j], peers_bin@, j),
        decreases num_peers - i,
    {
        let offset: usize = i * 6;
        let ip: [u8; 4] = [
            peers_bin[offset],
            peers_bin[offset + 1],
            peers_bin[offset + 2],
            peers_bin[offset + 3],
        ];
        let port: u16 = read_u16_be(slice_subrange(peers_bin.as_slice(), offset + 4, offset + 6));
        assert(ip@ =~= peers_bin@.subrange(6 * i, 6 * i + 4));
        peers.push(Peer { ip, port });
        i = i + 1;
    }
    Ok(peers)
}

} // verus!
