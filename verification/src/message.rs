//! Length-prefixed peer messages: building, framing and reading them.

use crate::endian::{read_u32_be, u32_be, u32_from_be, write_u32_be};
use crate::error::TorrentError;
use crate::text::{decimal, decimal_string};
use vstd::prelude::*;
use vstd::slice::{slice_subrange, slice_to_vec};
use vstd::string::*;

verus! {

/// The sender will serve no blocks for now. No payload.
pub const MESSAGE_CHOKE: u8 = 0;

/// The sender serves blocks again. No payload.
pub const MESSAGE_UNCHOKE: u8 = 1;

/// The sender wants blocks. No payload.
pub const MESSAGE_INTERESTED: u8 = 2;

/// The sender wants no blocks. No payload.
pub const MESSAGE_NOT_INTERESTED: u8 = 3;

/// The sender has one more piece. The payload is the piece's index.
pub const MESSAGE_HAVE: u8 = 4;

/// The pieces that the sender has. The payload is a packed bitfield.
pub const MESSAGE_BITFIELD: u8 = 5;

/// The sender asks for a block. The payload is the piece's index, the
/// block's offset and its length.
pub const MESSAGE_REQUEST: u8 = 6;

/// A block. The payload is the piece's index, the block's offset and the
/// block itself.
pub const MESSAGE_PIECE: u8 = 7;

/// The sender takes a request back. The payload is that of the request.
pub const MESSAGE_CANCEL: u8 = 8;

/// The id that a keep-alive carries in memory. It never appears on the wire.
pub const MESSAGE_EMPTY: u8 = 9;

/// One peer message: its id and what follows the id in its frame.
pub struct Message {
    pub id: u8,
    pub payload: Vec<u8>,
}

/// A message as a mathematical value.
pub struct MessageView {
    pub id: u8,
    pub payload: Seq<u8>,
}

impl View for Message {
    type V = MessageView;

    open spec fn view(&self) -> MessageView {
        MessageView { id: self.id, payload: self.payload@ }
    }
}

impl MessageView {
    /// The message that stands for a keep-alive.
    pub open spec fn keep_alive() -> MessageView {
        MessageView { id: MESSAGE_EMPTY, payload: Seq::empty() }
    }

    /// Whether the length of id and payload together fits the four-byte
    /// length prefix of a frame.
    pub open spec fn fits_frame(self) -> bool {
        self.payload.len() < u32::MAX
    }

    /// The frame of the message: four zero bytes for a keep-alive; for any
    /// other message the length of id and payload, the id, the payload.
    pub open spec fn frame(self) -> Seq<u8> {
        if self.payload.len() == 0 && self.id == MESSAGE_EMPTY {
            seq![0u8, 0u8, 0u8, 0u8]
        } else {
            u32_be((self.payload.len() + 1) as u32) + seq![self.id] + self.payload
        }
    }

    /// The message whose frame `bytes` starts with. Bytes behind the frame are
    /// not looked at; a frame that `bytes` does not hold in full is a short
    /// read.
    pub open spec fn parse(bytes: Seq<u8>) -> Result<MessageView, TorrentError> {
        if bytes.len() < 4 {
            Err(TorrentError::ShortRead)
        } else if u32_from_be(bytes) == 0 {
            Ok(MessageView::keep_alive())
        } else if bytes.len() < 4 + u32_from_be(bytes) {
            Err(TorrentError::ShortRead)
        } else {
            Ok(
                MessageView {
                    id: bytes[4],
                    payload: bytes.subrange(5, 4 + u32_from_be(bytes)),
                },
            )
        }
    }

    /// What a PIECE message brings for piece `index` of `piece_len` bytes:
    /// the offset of its block and the block, or the reason to refuse it.
    pub open spec fn block(self, index: u32, piece_len: nat) -> Result<(nat, Seq<u8>), TorrentError> {
        if self.id != MESSAGE_PIECE {
            Err(TorrentError::ExpectedPiece)
        } else if self.payload.len() < 8 {
            Err(TorrentError::PayloadTooShort)
        } else if u32_from_be(self.payload) != index {
            Err(TorrentError::UnexpectedIndex)
        } else if u32_from_be(self.payload.subrange(4, 8)) >= piece_len {
            Err(TorrentError::BeginOffsetTooHigh)
        } else if u32_from_be(self.payload.subrange(4, 8)) + self.payload.len() - 8 > piece_len {
            Err(TorrentError::DataTooLong)
        } else {
            Ok(
                (
                    u32_from_be(self.payload.subrange(4, 8)) as nat,
                    self.payload.subrange(8, self.payload.len() as int),
                ),
            )
        }
    }

    /// Whether the message is a PIECE, with room for index and offset, for
    /// another piece than `index`.
    pub open spec fn wrong_index(self, index: u32) -> bool {
        &&& self.id == MESSAGE_PIECE
        &&& self.payload.len() >= 8
        &&& u32_from_be(self.payload) != index
    }

    /// Whether the message is a PIECE for piece `index` whose block begins at
    /// or past the end of a piece of `piece_len` bytes.
    pub open spec fn begins_past(self, index: u32, piece_len: nat) -> bool {
        &&& self.id == MESSAGE_PIECE
        &&& self.payload.len() >= 8
        &&& u32_from_be(self.payload) == index
        &&& u32_from_be(self.payload.subrange(4, 8)) >= piece_len
    }

    /// Whether the message is a PIECE for piece `index` whose block begins
    /// within a piece of `piece_len` bytes and ends past its end.
    pub open spec fn runs_past(self, index: u32, piece_len: nat) -> bool {
        &&& self.id == MESSAGE_PIECE
        &&& self.payload.len() >= 8
        &&& u32_from_be(self.payload) == index
        &&& u32_from_be(self.payload.subrange(4, 8)) < piece_len
        &&& u32_from_be(self.payload.subrange(4, 8)) + (self.payload.len() - 8) > piece_len
    }

    /// The piece index that a HAVE message announces, or the reason to refuse
    /// the message.
    pub open spec fn have(self) -> Result<u32, TorrentError> {
        if self.id != MESSAGE_HAVE {
            Err(TorrentError::UnexpectedId)
        } else if self.payload.len() != 4 {
            Err(TorrentError::IncorrectPayloadLength)
        } else {
            Ok(u32_from_be(self.payload))
        }
    }

    /// The name of the message's kind.
    pub open spec fn name(self) -> Seq<char> {
        if self.id == MESSAGE_EMPTY {
            "KeepAlive"@
        } else if self.id == MESSAGE_CHOKE {
            "Choke"@
        } else if self.id == MESSAGE_UNCHOKE {
            "Unchoke"@
        } else if self.id == MESSAGE_INTERESTED {
            "Interested"@
        } else if self.id == MESSAGE_NOT_INTERESTED {
            "NotInterested"@
        } else if self.id == MESSAGE_HAVE {
            "Have"@
        } else if self.id == MESSAGE_BITFIELD {
            "Bitfield"@
        } else if self.id == MESSAGE_REQUEST {
            "Request"@
        } else if self.id == MESSAGE_PIECE {
            "Piece"@
        } else if self.id == MESSAGE_CANCEL {
            "Cancel"@
        } else {
            "Unknown#"@ + decimal(self.id as nat)
        }
    }

    /// The name of the message's kind and, but for a keep-alive, the length of
    /// its payload in square brackets.
    pub open spec fn describe(self) -> Seq<char> {
        if self.id == MESSAGE_EMPTY {
            self.name()
        } else {
            self.name() + " ["@ + decimal(self.payload.len()) + "]"@
        }
    }
}

/// `piece` with the bytes from `begin` on replaced by `block`.
pub open spec fn with_block(piece: Seq<u8>, begin: nat, block: Seq<u8>) -> Seq<u8>
    recommends
        begin + block.len() <= piece.len(),
{
    Seq::new(
        piece.len(),
        |i: int|
            if begin <= i < begin + block.len() {
                block[i - begin]
            } else {
                piece[i]
            },
    )
}

/// A PIECE for another piece than the one that is downloaded is refused as
/// such, whatever its offset and its block are and however long the piece is.
pub proof fn lemma_wrong_index_refused(m: MessageView, index: u32, piece_len: nat)
    requires
        m.wrong_index(index),
    ensures
        m.block(index, piece_len) == Err::<(nat, Seq<u8>), TorrentError>(
            TorrentError::UnexpectedIndex,
        ),
{
}

/// A PIECE whose block does not end within the piece is refused, however long
/// the piece is: as beginning too high where the block begins at or past the
/// end of the piece, else as too long.
pub proof fn lemma_overlong_block_refused(m: MessageView, index: u32, piece_len: nat)
    requires
        m.id == MESSAGE_PIECE,
        m.payload.len() >= 8,
        u32_from_be(m.payload) == index,
        u32_from_be(m.payload.subrange(4, 8)) + (m.payload.len() - 8) > piece_len,
    ensures
        m.block(index, piece_len) is Err,
        m.begins_past(index, piece_len) ==> m.block(index, piece_len) == Err::<
            (nat, Seq<u8>),
            TorrentError,
        >(TorrentError::BeginOffsetTooHigh),
        m.runs_past(index, piece_len) ==> m.block(index, piece_len) == Err::<
            (nat, Seq<u8>),
            TorrentError,
        >(TorrentError::DataTooLong),
        m.begins_past(index, piece_len) || m.runs_past(index, piece_len),
{
}

/// Reading the frame of a message gives the message back, whatever follows
/// the frame, provided the message fits a frame at all.
pub proof fn lemma_frame_parses(m: MessageView, rest: Seq<u8>)
    requires
        m.fits_frame(),
    ensures
        MessageView::parse(m.frame()) == Ok::<MessageView, TorrentError>(m),
        MessageView::parse(m.frame() + rest) == Ok::<MessageView, TorrentError>(m),
        m == MessageView::keep_alive() <==> m.frame() == seq![0u8, 0u8, 0u8, 0u8],
{
    let zeros = seq![0u8, 0u8, 0u8, 0u8];
    assert(u32_from_be(zeros) == 0);
    assert(u32_from_be(zeros + rest) == 0);
    if m.payload.len() == 0 && m.id == MESSAGE_EMPTY {
        assert(m.payload =~= Seq::<u8>::empty());
    } else {
        let n: u32 = (m.payload.len() + 1) as u32;
        crate::endian::lemma_u32_be_decodes(n);
        let tail = seq![m.id] + m.payload;
        assert(m.frame() =~= u32_be(n) + tail);
        assert(m.frame() + rest =~= u32_be(n) + (tail + rest));
        assert(m.frame().subrange(5, 4 + n) =~= m.payload);
        assert((m.frame() + rest).subrange(5, 4 + n) =~= m.payload);
        assert(m.frame().len() == 5 + m.payload.len());
        assert(m.frame() != zeros);
    }
}

impl Default for Message {
    /// A keep-alive.
    fn default() -> (msg: Message)
        ensures
            msg@ == MessageView::keep_alive(),
    {
        Message { id: MESSAGE_EMPTY, payload: Vec::new() }
    }
}

/// A REQUEST for `length` bytes of piece `index`, from offset `begin` on.
pub fn format_request(index: u32, begin: u32, length: u32) -> (msg: Message)
    ensures
        msg.id == MESSAGE_REQUEST,
        msg.payload@ == u32_be(index) + u32_be(begin) + u32_be(length),
{
    let mut payload: Vec<u8> = Vec::new();
    write_u32_be(&mut payload, index);
    write_u32_be(&mut payload, begin);
    write_u32_be(&mut payload, length);
    Message { id: MESSAGE_REQUEST, payload }
}

/// A HAVE for piece `index`.
pub fn format_have(index: u32) -> (msg: Message)
    ensures
        msg.id == MESSAGE_HAVE,
        msg.payload@ == u32_be(index),
{
    let mut payload: Vec<u8> = Vec::new();
    write_u32_be(&mut payload, index);
    Message { id: MESSAGE_HAVE, payload }
}

/// Where the block of a PIECE message belongs in piece `index` of
/// `piece_len` bytes: the offset of the block and its length. The message is
/// refused unless it is a PIECE for that piece whose block lies within it.
pub fn locate_block(index: u32, piece_len: usize, msg: &Message) -> (r: Result<
    (usize, usize),
    TorrentError,
>)
    ensures
        match r {
            Ok((begin, len)) => msg@.block(index, piece_len as nat) == Ok::<
                (nat, Seq<u8>),
                TorrentError,
            >((begin as nat, msg.payload@.subrange(8, msg.payload@.len() as int))) && len
                == msg.payload@.len() - 8,
            Err(e) => msg@.block(index, piece_len as nat) == Err::<(nat, Seq<u8>), TorrentError>(
                e,
            ),
        },
{
    if msg.id != MESSAGE_PIECE {
        return Err(TorrentError::ExpectedPiece);
    }
    if msg.payload.len() < 8 {
        return Err(TorrentError::PayloadTooShort);
    }
    let parsed_index: u32 = read_u32_be(msg.payload.as_slice());
    if parsed_index != index {
        return Err(TorrentError::UnexpectedIndex);
    }
    let begin: usize = read_u32_be(slice_subrange(msg.payload.as_slice(), 4, 8)) as usize;
    if begin >= piece_len {
        return Err(TorrentError::BeginOffsetTooHigh);
    }
    let block_len: usize = msg.payload.len() - 8;
    if block_len > piece_len - begin {
        return Err(TorrentError::DataTooLong);
    }
    Ok((begin, block_len))
}

/// Copies `block` into `buf`, from offset `begin` on.
pub(crate) fn copy_block(buf: &mut Vec<u8>, begin: usize, block: &[u8])
    requires
        begin + block@.len() <= old(buf)@.len(),
    ensures
        final(buf)@ == with_block(old(buf)@, begin as nat, block@),
{
    let ghost before = buf@;
    let block_len: usize = block.len();
    let buf_len: usize = buf.len();
    let mut k: usize = 0;
    while k < block_len
        invariant
            k <= block_len,
            block_len == block@.len(),
            begin + block_len <= buf_len,
            buf@.len() == before.len() == buf_len,
            forall|i: int|
                0 <= i < buf@.len() ==> #[trigger] buf@[i] == if begin <= i < begin + k {
                    block@[i - begin]
                } else {
                    before[i]
                },
        decreases block_len - k,
    {
        buf.set(begin + k, block[k]);
        k = k + 1;
    }
    assert(buf@ =~= with_block(before, begin as nat, block@));
}

/// Copies the block of a PIECE message into the piece buffer `buf` and
/// returns the block's length. The message is refused, and `buf` left as it
/// was, unless it is a PIECE for piece `index` whose block lies within `buf`.
/// The length of a block that is taken has to fit the 32 bits in which it is
/// returned; of a message that is refused nothing is asked.
pub fn parse_piece(index: u32, buf: &mut Vec<u8>, msg: &Message) -> (r: Result<u32, TorrentError>)
    requires
        msg@.block(index, old(buf)@.len()) matches Ok((begin, block)) ==> block.len() <= u32::MAX,
    ensures
        match r {
            Ok(n) => msg@.block(index, old(buf)@.len()) matches Ok((begin, block)) && n
                == block.len() && final(buf)@ == with_block(old(buf)@, begin, block),
            Err(e) => msg@.block(index, old(buf)@.len()) == Err::<(nat, Seq<u8>), TorrentError>(e)
                && final(buf)@ == old(buf)@,
        },
        msg.payload@.len() >= 8 && u32_from_be(msg.payload@) != index ==> r is Err && final(buf)@
            == old(buf)@,
        msg.payload@.len() >= 8 && u32_from_be(msg.payload@.subrange(4, 8)) + msg.payload@.len()
            - 8 > old(buf)@.len() ==> r is Err && final(buf)@ == old(buf)@,
        msg@.wrong_index(index) ==> r == Err::<u32, TorrentError>(TorrentError::UnexpectedIndex),
        msg@.begins_past(index, old(buf)@.len()) ==> r == Err::<u32, TorrentError>(
            TorrentError::BeginOffsetTooHigh,
        ),
        msg@.runs_past(index, old(buf)@.len()) ==> r == Err::<u32, TorrentError>(
            TorrentError::DataTooLong,
        ),
{
    let (begin, block_len) = match locate_block(index, buf.len(), msg) {
        Ok(found) => found,
        Err(e) => return Err(e),
    };
    let data: &[u8] = slice_subrange(msg.payload.as_slice(), 8, msg.payload.len());
    copy_block(buf, begin, data);
    Ok(block_len as u32)
}

/// The piece index that a HAVE message announces. The message is refused
/// unless it is a HAVE with a payload of exactly four bytes.
pub fn parse_have(msg: &Message) -> (r: Result<u32, TorrentError>)
    ensures
        r == msg@.have(),
        msg.payload@.len() != 4 ==> r is Err,
{
    if msg.id != MESSAGE_HAVE {
        Err(TorrentError::UnexpectedId)
    } else if msg.payload.len() != 4 {
        Err(TorrentError::IncorrectPayloadLength)
    } else {
        Ok(read_u32_be(msg.payload.as_slice()))
    }
}

/// The frame of `msg`, as it goes over the wire.
pub fn serialize_message(msg: &Message) -> (bytes: Vec<u8>)
    requires
        msg@.fits_frame(),
    ensures
        bytes@ == msg@.frame(),
{
    if msg.payload.len() == 0 && msg.id == MESSAGE_EMPTY {
        let bytes: Vec<u8> = vec![0u8; 4];
        assert(bytes@ =~= seq![0u8, 0u8, 0u8, 0u8]);
        bytes
    } else {
        let length: u32 = (msg.payload.len() + 1) as u32;
        let mut bytes: Vec<u8> = Vec::new();
        write_u32_be(&mut bytes, length);
        bytes.push(msg.id);
        let mut payload: Vec<u8> = msg.payload.clone();
        bytes.append(&mut payload);
        assert(bytes@ =~= msg@.frame());
        bytes
    }
}

/// How many bytes of a frame follow its four-byte length prefix, which
/// `prefix` starts with.
pub fn body_length(prefix: &[u8]) -> (r: Result<u32, TorrentError>)
    ensures
        r == if prefix@.len() < 4 {
            Err::<u32, TorrentError>(TorrentError::ShortRead)
        } else {
            Ok::<u32, TorrentError>(u32_from_be(prefix@))
        },
{
    if prefix.len() < 4 {
        Err(TorrentError::ShortRead)
    } else {
        Ok(read_u32_be(prefix))
    }
}

/// Reads the message whose frame `bytes` starts with. A length prefix of zero
/// gives a keep-alive. Bytes behind the frame are not looked at; where
/// `bytes` ends before the frame does, the read is short.
pub fn read_message(bytes: &[u8]) -> (r: Result<Message, TorrentError>)
    ensures
        match r {
            Ok(msg) => MessageView::parse(bytes@) == Ok::<MessageView, TorrentError>(msg@)
                && msg@.fits_frame(),
            Err(e) => MessageView::parse(bytes@) == Err::<MessageView, TorrentError>(e),
        },
{
    if bytes.len() < 4 {
        return Err(TorrentError::ShortRead);
    }
    let length: usize = read_u32_be(bytes) as usize;
    if length == 0 {
        return Ok(Message::default());
    }
    if bytes.len() - 4 < length {
        return Err(TorrentError::ShortRead);
    }
    let id: u8 = bytes[4];
    let payload: Vec<u8> = slice_to_vec(slice_subrange(bytes, 5, 4 + length));
    Ok(Message { id, payload })
}

/// The name of the message's kind.
pub fn name(msg: &Message) -> (text: String)
    ensures
        text@ == msg@.name(),
{
    if msg.id == MESSAGE_EMPTY {
        String::from_str("KeepAlive")
    } else if msg.id == MESSAGE_CHOKE {
        String::from_str("Choke")
    } else if msg.id == MESSAGE_UNCHOKE {
        String::from_str("Unchoke")
    } else if msg.id == MESSAGE_INTERESTED {
        String::from_str("Interested")
    } else if msg.id == MESSAGE_NOT_INTERESTED {
        String::from_str("NotInterested")
    } else if msg.id == MESSAGE_HAVE {
        String::from_str("Have")
    } else if msg.id == MESSAGE_BITFIELD {
        String::from_str("Bitfield")
    } else if msg.id == MESSAGE_REQUEST {
        String::from_str("Request")
    } else if msg.id == MESSAGE_PIECE {
        String::from_str("Piece")
    } else if msg.id == MESSAGE_CANCEL {
        String::from_str("Cancel")
    } else {
        let mut text: String = String::from_str("Unknown#");
        let number: String = decimal_string(msg.id as u64);
        text.append(number.as_str());
        text
    }
}

/// The name of the message's kind and, but for a keep-alive, the length of
/// its payload in square brackets.
pub fn string(msg: &Message) -> (text: String)
    ensures
        text@ == msg@.describe(),
{
    if msg.id == MESSAGE_EMPTY {
        name(msg)
    } else {
        let mut text: String = name(msg);
        let length: String = decimal_string(msg.payload.len() as u64);
        text.append(" [");
        text.append(length.as_str());
        text.append("]");
        text
    }
}

} // verus!
