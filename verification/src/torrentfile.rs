//! The metainfo of a single-file torrent, once it has been decoded.

use crate::digest::{sha1, sha1_digest, sha1_limit};
use crate::error::TorrentError;
use crate::p2p::Torrent;
use crate::peers::Peer;
use vstd::prelude::*;
use vstd::slice::{slice_subrange, slice_to_vec};

verus! {

/// The port that is announced to the tracker.
pub const DEFAULT_PORT: u16 = 6881;

/// What a download needs to know of a torrent.
#[allow(non_snake_case)]
#[derive(Debug)]
pub struct TorrentFile {
    pub Announce: String,
    pub InfoHash: Vec<u8>,
    pub PieceHashes: Vec<Vec<u8>>,
    pub PieceLength: u32,
    pub Length: u32,
    pub Name: String,
}

/// The `info` dictionary of a metainfo file.
#[derive(Debug)]
pub struct BencodeInfo {
    /// The SHA-1 hashes of all pieces, one behind the other.
    pub pieces: Vec<u8>,
    pub piecelength: u32,
    pub length: u32,
    pub name: String,
}

/// A metainfo file.
#[derive(Debug)]
pub struct BencodeTorrent {
    pub announce: String,
    pub info: BencodeInfo,
}

/// Whether `hashes` are the twenty-byte parts of `pieces`, in their order.
pub open spec fn is_split(hashes: Seq<Vec<u8>>, pieces: Seq<u8>) -> bool {
    &&& hashes.len() * 20 == pieces.len()
    &&& forall|i: int|
        0 <= i < hashes.len() ==> (#[trigger] hashes[i])@ == pieces.subrange(20 * i, 20 * i + 20)
}

/// A copy of `hashes`.
fn copy_hashes(hashes: &Vec<Vec<u8>>) -> (copy: Vec<Vec<u8>>)
    ensures
        copy@.len() == hashes@.len(),
        forall|i: int| 0 <= i < copy@.len() ==> (#[trigger] copy@[i])@ == hashes@[i]@,
{
    let mut copy: Vec<Vec<u8>> = Vec::new();
    let mut i: usize = 0;
    while i < hashes.len()
        invariant
            i <= hashes@.len(),
            copy@.len() == i,
            forall|j: int| 0 <= j < copy@.len() ==> (#[trigger] copy@[j])@ == hashes@[j]@,
        decreases hashes@.len() - i,
    {
        copy.push(hashes[i].clone());
        i = i + 1;
    }
    copy
}

impl BencodeInfo {
    /// The info hash of a torrent: the SHA-1 of its `info` dictionary in
    /// bencoded form, which is `encoded`.
    pub fn hash(encoded: &[u8]) -> (digest: Vec<u8>)
        requires
            encoded@.len() < sha1_limit(),
        ensures
            digest@ == sha1_digest(encoded@),
            digest@.len() == 20,
    {
        sha1(encoded)
    }

    /// The hashes of the pieces, one for each twenty bytes of `pieces`. A
    /// length that is not a multiple of twenty is an error.
    pub fn split_piece_hashes(&mut self) -> (r: Result<Vec<Vec<u8>>, TorrentError>)
        ensures
            *final(self) == *old(self),
            match r {
                Ok(hashes) => is_split(hashes@, old(self).pieces@),
                Err(e) => e == TorrentError::MalformedPieces && old(self).pieces@.len() % 20 != 0,
            },
    {
        let hash_length: usize = 20;
        if self.pieces.len() % hash_length != 0 {
            return Err(TorrentError::MalformedPieces);
        }
        let num_hashes: usize = self.pieces.len() / hash_length;
        let mut hashes: Vec<Vec<u8>> = Vec::new();
        let mut i: usize = 0;
        while i < num_hashes
            invariant
                i <= num_hashes,
                num_hashes * 20 == self.pieces@.len() <= usize::MAX,
                hashes@.len() == i,
                forall|j: int|
                    0 <= j < hashes@.len() ==> (#[trigger] hashes@[j])@ == self.pieces@.subrange(
                        20 * j,
                        20 * j + 20,
                    ),
            decreases num_hashes - i,
        {
            let hash: Vec<u8> = slice_to_vec(
                slice_subrange(self.pieces.as_slice(), i * 20, (i + 1) * 20),
            );
            hashes.push(hash);
            i = i + 1;
        }
        Ok(hashes)
    }
}

impl BencodeTorrent {
    /// What a download needs to know of the torrent whose info hash is
    /// `info_hash`. Piece hashes that cannot be split are an error.
    pub fn with_info_hash(&mut self, info_hash: Vec<u8>) -> (r: Result<TorrentFile, TorrentError>)
        ensures
            *final(self) == *old(self),
            match r {
                Ok(t) => {
                    &&& t.Announce@ == old(self).announce@
                    &&& t.InfoHash@ == info_hash@
                    &&& is_split(t.PieceHashes@, old(self).info.pieces@)
                    &&& t.PieceLength == old(self).info.piecelength
                    &&& t.Length == old(self).info.length
                    &&& t.Name@ == old(self).info.name@
                },
                Err(e) => e == TorrentError::MalformedPieces && old(self).info.pieces@.len() % 20
                    != 0,
            },
    {
        let piece_hashes: Vec<Vec<u8>> = match self.info.split_piece_hashes() {
            Ok(piece_hashes) => piece_hashes,
            Err(err) => return Err(err),
        };
        Ok(
            TorrentFile {
                Announce: self.announce.clone(),
                InfoHash: info_hash,
                PieceHashes: piece_hashes,
                PieceLength: self.info.piecelength,
                Length: self.info.length,
                Name: self.info.name.clone(),
            },
        )
    }

    /// What a download needs to know of the torrent. `encoded_info` is the
    /// `info` dictionary in bencoded form, of which the info hash is taken.
    /// Piece hashes that cannot be split are an error.
    pub fn to_torrent_file(&mut self, encoded_info: &[u8]) -> (r: Result<TorrentFile, TorrentError>)
        requires
            encoded_info@.len() < sha1_limit(),
        ensures
            *final(self) == *old(self),
            match r {
                Ok(t) => {
                    &&& t.Announce@ == old(self).announce@
                    &&& t.InfoHash@ == sha1_digest(encoded_info@)
                    &&& is_split(t.PieceHashes@, old(self).info.pieces@)
                    &&& t.PieceLength == old(self).info.piecelength
                    &&& t.Length == old(self).info.length
                    &&& t.Name@ == old(self).info.name@
                },
                Err(e) => e == TorrentError::MalformedPieces && old(self).info.pieces@.len() % 20
                    != 0,
            },
    {
        let info_hash: Vec<u8> = BencodeInfo::hash(encoded_info);
        self.with_info_hash(info_hash)
    }
}

impl TorrentFile {
    /// The torrent with the peers that the tracker named and the peer id
    /// under which we download.
    pub fn to_torrent(&self, peers: Vec<Peer>, peer_id: Vec<u8>) -> (t: Torrent)
        ensures
            t.peers@ == peers@,
            t.peer_id@ == peer_id@,
            t.info_hash@ == self.InfoHash@,
            t.piece_hashes@.len() == self.PieceHashes@.len(),
            forall|i: int|
                0 <= i < t.piece_hashes@.len() ==> (#[trigger] t.piece_hashes@[i])@
                    == self.PieceHashes@[i]@,
            t.piece_length == self.PieceLength,
            t.length == self.Length,
            t.name@ == self.Name@,
    {
        Torrent {
            peers,
            peer_id,
            info_hash: self.InfoHash.clone(),
            piece_hashes: copy_hashes(&self.PieceHashes),
            piece_length: self.PieceLength,
            length: self.Length,
            name: self.Name.clone(),
        }
    }
}

} // verus!
