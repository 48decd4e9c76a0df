//! The ways in which the wire codec, a session or the metainfo can fail.

use vstd::prelude::*;
use vstd::string::*;

verus! {

/// What went wrong. Each variant has one fixed message, given by
/// [`TorrentError::to_string`].
#[derive(Clone, Copy, Debug, PartialEq, Eq, Structural)]
pub enum TorrentError {
    /// The bytes at hand end before the record does.
    ShortRead,
    /// A handshake announced a protocol string of length zero.
    MalformedHandshake,
    /// The peer answered for another torrent.
    UnexpectedInfoHash,
    /// The first message of a session was not a bitfield.
    IdError,
    /// A message that should have been a HAVE has another id.
    UnexpectedId,
    /// A HAVE whose payload is not four bytes long.
    IncorrectPayloadLength,
    /// A message that should have been a PIECE has another id.
    ExpectedPiece,
    /// A PIECE without room for its index and offset.
    PayloadTooShort,
    /// A PIECE for another piece than the one being downloaded.
    UnexpectedIndex,
    /// A PIECE whose block starts at or past the end of the piece.
    BeginOffsetTooHigh,
    /// A PIECE whose block runs past the end of the piece.
    DataTooLong,
    /// A downloaded piece whose SHA-1 is not the expected one.
    FailedIntegrityCheck,
    /// A peer list whose length is not a multiple of six.
    MalformedPeers,
    /// Piece hashes whose length is not a multiple of twenty.
    MalformedPieces,
    /// An announce URL that cannot be parsed, or a tracker request that
    /// would grow too long.
    InvalidTrackerUrl,
}

impl TorrentError {
    /// The message of each error.
    pub open spec fn message(self) -> Seq<char> {
        match self {
            TorrentError::ShortRead => "failed to fill whole buffer"@,
            TorrentError::MalformedHandshake => "malformed handshake"@,
            TorrentError::UnexpectedInfoHash => "unexpected infohash"@,
            TorrentError::IdError => "id Error"@,
            TorrentError::UnexpectedId => "unexpected ID"@,
            TorrentError::IncorrectPayloadLength => "Incorrect payload length, length must equal 4"@,
            TorrentError::ExpectedPiece => "Expected Piece"@,
            TorrentError::PayloadTooShort => "Payload too short"@,
            TorrentError::UnexpectedIndex => "Unexpected index"@,
            TorrentError::BeginOffsetTooHigh => "Begin offset too high"@,
            TorrentError::DataTooLong => "data too long for offset"@,
            TorrentError::FailedIntegrityCheck => "failed integrity check"@,
            TorrentError::MalformedPeers => "Malformed Peers"@,
            TorrentError::MalformedPieces => "oh no!"@,
            TorrentError::InvalidTrackerUrl => "invalid tracker URL"@,
        }
    }

    /// The error's message as an owned string.
    pub fn to_string(&self) -> (text: String)
        ensures
            text@ == self.message(),
    {
        match self {
            TorrentError::ShortRead => String::from_str("failed to fill whole buffer"),
            TorrentError::MalformedHandshake => String::from_str("malformed handshake"),
            TorrentError::UnexpectedInfoHash => String::from_str("unexpected infohash"),
            TorrentError::IdError => String::from_str("id Error"),
            TorrentError::UnexpectedId => String::from_str("unexpected ID"),
            TorrentError::IncorrectPayloadLength => String::from_str(
                "Incorrect payload length, length must equal 4",
            ),
            TorrentError::ExpectedPiece => String::from_str("Expected Piece"),
            TorrentError::PayloadTooShort => String::from_str("Payload too short"),
            TorrentError::UnexpectedIndex => String::from_str("Unexpected index"),
            TorrentError::BeginOffsetTooHigh => String::from_str("Begin offset too high"),
            TorrentError::DataTooLong => String::from_str("data too long for offset"),
            TorrentError::FailedIntegrityCheck => String::from_str("failed integrity check"),
            TorrentError::MalformedPeers => String::from_str("Malformed Peers"),
            TorrentError::MalformedPieces => String::from_str("oh no!"),
            TorrentError::InvalidTrackerUrl => String::from_str("invalid tracker URL"),
        }
    }
}

} // verus!
