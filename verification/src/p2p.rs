//! Downloading one piece over one session, and the scheduler's bookkeeping:
//! the work units it hands out and the file it puts together.

use crate::bitfield::{has_bit, has_piece, set_bit, set_piece, Bitfield};
use crate::client::Client;
use crate::digest::{sha1, sha1_digest, sha1_limit};
use crate::endian::{same_bytes, u32_be};
use crate::error::TorrentError;
use crate::message::{
    copy_block, locate_block, parse_have, parse_piece, with_block, Message, MessageView,
    MESSAGE_CHOKE, MESSAGE_HAVE, MESSAGE_PIECE, MESSAGE_UNCHOKE,
};
use crate::peers::Peer;
use vstd::prelude::*;
use vstd::set_lib::{
    lemma_int_range, lemma_set_subset_finite, lemma_subset_equality, set_int_range,
};

verus! {

/// The most bytes that one REQUEST asks for.
pub const MAX_BLOCK_SIZE: u32 = 16384;

/// The most requests that may be waiting for their block at one time.
pub const MAX_BACK_LOG: u32 = 5;

/// Seconds that a read or write may take while a piece is downloaded.
pub const DOWNLOAD_TIMEOUT: u64 = 30;

/// A torrent whose peers are known.
#[derive(Clone)]
pub struct Torrent {
    pub peers: Vec<Peer>,
    pub peer_id: Vec<u8>,
    pub info_hash: Vec<u8>,
    pub piece_hashes: Vec<Vec<u8>>,
    pub piece_length: u32,
    pub length: u32,
    pub name: String,
}

/// One piece to download: its index, its expected SHA-1 and its length.
pub struct PieceWork {
    pub index: u32,
    pub hash: Vec<u8>,
    pub length: u32,
}

/// A piece that was downloaded and found intact.
pub struct PieceResult {
    pub index: u32,
    pub buf: Vec<u8>,
}

/// How far the download of one piece has come.
pub struct PieceProgress {
    pub index: u32,
    /// The piece, as far as its blocks have arrived.
    pub buf: Vec<u8>,
    /// Bytes that have arrived.
    pub downloaded: u32,
    /// Bytes that have been asked for.
    pub requested: u32,
    /// Requests that wait for their block.
    pub backlog: u32,
}

/// The progress of a piece as a mathematical value.
pub struct PieceProgressView {
    pub index: u32,
    pub buf: Seq<u8>,
    pub downloaded: u32,
    pub requested: u32,
    pub backlog: u32,
}

impl View for PieceProgress {
    type V = PieceProgressView;

    open spec fn view(&self) -> PieceProgressView {
        PieceProgressView {
            index: self.index,
            buf: self.buf@,
            downloaded: self.downloaded,
            requested: self.requested,
            backlog: self.backlog,
        }
    }
}

/// The frame of a REQUEST.
pub open spec fn request_frame(index: u32, begin: u32, length: u32) -> Seq<u8> {
    seq![0u8, 0u8, 0u8, 13u8, 6u8] + u32_be(index) + u32_be(begin) + u32_be(length)
}

/// Whether the peer chokes us after `msg`, given whether it did before.
pub open spec fn choked_after(choked: bool, msg: MessageView) -> bool {
    if msg.id == MESSAGE_UNCHOKE {
        false
    } else if msg.id == MESSAGE_CHOKE {
        true
    } else {
        choked
    }
}

/// The pieces that the peer claims to have after `msg`, given those it
/// claimed before: a well-formed HAVE adds one.
pub open spec fn bitfield_after(bitfield: Seq<u8>, msg: MessageView) -> Seq<u8> {
    match msg.have() {
        Ok(index) => set_bit(bitfield, index as int),
        Err(_) => bitfield,
    }
}

impl PieceProgressView {
    /// What holds of the progress of the piece `pw` at all times: the buffer
    /// has the length of the piece, no more is asked for than the piece has,
    /// and the backlog is within its bound.
    pub open spec fn well_formed(self, pw: &PieceWork) -> bool {
        &&& self.index == pw.index
        &&& self.buf.len() == pw.length
        &&& self.requested <= pw.length
        &&& self.backlog <= MAX_BACK_LOG
    }

    /// Whether the counters can take `msg` in: a block that is taken answers
    /// a request that is waiting, and the count of bytes stays within its
    /// type.
    pub open spec fn accepts(self, msg: MessageView) -> bool {
        msg.block(self.index, self.buf.len()) matches Ok((begin, block)) ==> self.backlog > 0
            && self.downloaded + block.len() <= u32::MAX
    }

    /// What reading `msg` answers: 1 for a message that was acted on, 2 for
    /// one that was passed over, or the reason for which a HAVE or a PIECE
    /// was refused.
    pub open spec fn outcome(self, msg: MessageView) -> Result<u32, TorrentError> {
        if msg.id == MESSAGE_UNCHOKE || msg.id == MESSAGE_CHOKE {
            Ok(1u32)
        } else if msg.id == MESSAGE_HAVE {
            match msg.have() {
                Ok(_) => Ok(1u32),
                Err(e) => Err(e),
            }
        } else if msg.id == MESSAGE_PIECE {
            match msg.block(self.index, self.buf.len()) {
                Ok(_) => Ok(1u32),
                Err(e) => Err(e),
            }
        } else {
            Ok(2u32)
        }
    }

    /// The progress after `msg`: a PIECE that is taken puts its block into
    /// the buffer, adds the block's length to the bytes that have arrived and
    /// takes one request off the backlog. Nothing else changes anything.
    pub open spec fn received(self, msg: MessageView) -> PieceProgressView {
        match msg.block(self.index, self.buf.len()) {
            Ok((begin, block)) => PieceProgressView {
                buf: with_block(self.buf, begin, block),
                downloaded: (self.downloaded + block.len()) as u32,
                backlog: (self.backlog - 1) as u32,
                ..self
            },
            Err(_) => self,
        }
    }

    /// How many blocks of a piece of `length` bytes have not been asked for
    /// yet.
    pub open spec fn blocks_left(self, length: u32) -> int {
        if self.requested >= length {
            0
        } else {
            (length - self.requested + MAX_BLOCK_SIZE - 1) / (MAX_BLOCK_SIZE as int)
        }
    }

    /// How many requests go out now: none while the peer chokes us or the
    /// backlog is full, else as many as the backlog has room for and the
    /// piece has blocks left.
    pub open spec fn request_count(self, choked: bool, length: u32) -> int {
        if choked || self.backlog >= MAX_BACK_LOG {
            0
        } else if MAX_BACK_LOG - self.backlog <= self.blocks_left(length) {
            MAX_BACK_LOG - self.backlog
        } else {
            self.blocks_left(length)
        }
    }

    /// Where the block of request `i` of those going out now begins.
    pub open spec fn request_begin(self, i: int) -> int {
        self.requested + i * MAX_BLOCK_SIZE
    }

    /// The length of the block that begins at `begin`: a full block, or what
    /// is left of the piece.
    pub open spec fn block_length(begin: int, length: u32) -> int {
        if length - begin < MAX_BLOCK_SIZE {
            length - begin
        } else {
            MAX_BLOCK_SIZE as int
        }
    }

    /// The progress after `count` requests have gone out: each asked for a
    /// full block, but for the last where it ends the piece.
    pub open spec fn requesting(self, count: int, length: u32) -> PieceProgressView {
        PieceProgressView {
            requested: if count <= 0 {
                self.requested
            } else if self.request_begin(count) < length {
                self.request_begin(count) as u32
            } else {
                length
            },
            backlog: (self.backlog + count) as u32,
            ..self
        }
    }
}

impl PieceProgress {
    /// The progress of a piece of which nothing has been asked for yet: a
    /// buffer of zeros of the piece's length.
    pub fn new(pw: &PieceWork) -> (state: PieceProgress)
        ensures
            state@ == (PieceProgressView {
                index: pw.index,
                buf: Seq::new(pw.length as nat, |i: int| 0u8),
                downloaded: 0,
                requested: 0,
                backlog: 0,
            }),
            state@.well_formed(pw),
    {
        let buf: Vec<u8> = vec![0u8; pw.length as usize];
        assert(buf@ =~= Seq::new(pw.length as nat, |i: int| 0u8));
        PieceProgress { index: pw.index, buf, downloaded: 0, requested: 0, backlog: 0 }
    }

    /// Whether the counters can take `msg` in.
    pub fn can_accept(&self, msg: &Message) -> (ok: bool)
        ensures
            ok == self@.accepts(msg@),
    {
        match locate_block(self.index, self.buf.len(), msg) {
            Ok((_, len)) => self.backlog > 0 && len <= (u32::MAX - self.downloaded) as usize,
            Err(_) => true,
        }
    }

    /// Acts on a message that the peer sent while the piece is downloaded: an
    /// UNCHOKE or a CHOKE sets whether the peer chokes us, a HAVE adds a
    /// piece to the peer's bitfield, a PIECE brings a block. Any other
    /// message is passed over. Where a HAVE or a PIECE is refused, nothing
    /// changes.
    pub fn read_message(&mut self, c: &mut Client, msg: &Message) -> (r: Result<u32, TorrentError>)
        requires
            old(self)@.accepts(msg@),
        ensures
            r == old(self)@.outcome(msg@),
            r is Ok ==> final(self)@ == old(self)@.received(msg@),
            r is Ok ==> final(c).choked == choked_after(old(c).choked, msg@),
            r is Ok ==> final(c).bitfield@ == bitfield_after(old(c).bitfield@, msg@),
            r is Err ==> final(self)@ == old(self)@,
            r is Err ==> final(c).choked == old(c).choked,
            r is Err ==> final(c).bitfield@ == old(c).bitfield@,
            final(c).peer == old(c).peer,
            final(c).info_hash == old(c).info_hash,
            final(c).peer_id == old(c).peer_id,
    {
        if msg.id == MESSAGE_UNCHOKE {
            c.choked = false;
            Ok(1)
        } else if msg.id == MESSAGE_CHOKE {
            c.choked = true;
            Ok(1)
        } else if msg.id == MESSAGE_HAVE {
            match parse_have(msg) {
                Ok(index) => {
                    c.bitfield = set_piece(&c.bitfield, index as usize);
                    Ok(1)
                },
                Err(e) => Err(e),
            }
        } else if msg.id == MESSAGE_PIECE {
            match parse_piece(self.index, &mut self.buf, msg) {
                Ok(n) => {
                    self.downloaded = self.downloaded + n;
                    self.backlog = self.backlog - 1;
                    Ok(1)
                },
                Err(e) => Err(e),
            }
        } else {
            Ok(2)
        }
    }

    /// The frames of the requests that go out now. While the peer chokes us
    /// there are none; else one block after the other is asked for, until
    /// the backlog is full or the whole piece has been asked for.
    pub fn send_requests(&mut self, c: &Client, pw: &PieceWork) -> (frames: Vec<Vec<u8>>)
        ensures
            frames@.len() == old(self)@.request_count(c.choked, pw.length),
            forall|i: int|
                0 <= i < frames@.len() ==> (#[trigger] frames@[i])@ == request_frame(
                    pw.index,
                    old(self)@.request_begin(i) as u32,
                    PieceProgressView::block_length(old(self)@.request_begin(i), pw.length) as u32,
                ),
            final(self)@ == old(self)@.requesting(frames@.len() as int, pw.length),
            old(self)@.well_formed(pw) ==> final(self)@.well_formed(pw),
    {
        let mut frames: Vec<Vec<u8>> = Vec::new();
        if !c.choked {
            while self.backlog < MAX_BACK_LOG && self.requested < pw.length
                invariant
                    !c.choked,
                    frames@.len() == 0 || (old(self).backlog < MAX_BACK_LOG && old(self).requested
                        < pw.length),
                    frames@.len() == 0 || frames@.len() <= MAX_BACK_LOG - old(self).backlog,
                    frames@.len() <= old(self)@.blocks_left(pw.length),
                    self@ == old(self)@.requesting(frames@.len() as int, pw.length),
                    forall|i: int|
                        0 <= i < frames@.len() ==> (#[trigger] frames@[i])@ == request_frame(
                            pw.index,
                            old(self)@.request_begin(i) as u32,
                            PieceProgressView::block_length(
                                old(self)@.request_begin(i),
                                pw.length,
                            ) as u32,
                        ),
                decreases MAX_BACK_LOG - self.backlog,
            {
                let mut block_size: u32 = MAX_BLOCK_SIZE;
                if pw.length - self.requested < block_size {
                    block_size = pw.length - self.requested;
                }
                let frame: Vec<u8> = c.send_request(&pw.index, &self.requested, &block_size);
                frames.push(frame);
                self.backlog = self.backlog + 1;
                self.requested = self.requested + block_size;
            }
        }
        frames
    }
}

/// What a worker does next while it downloads a piece.
pub enum DownloadStep {
    /// Send these frames, read one message and come back with it.
    Exchange(Vec<Vec<u8>>),
    /// The piece has arrived in full; this is its buffer.
    Finished(Vec<u8>),
}

/// One step of the download of piece `pw` over the session `c`. The step
/// first acts on the message that the last exchange brought, if there was
/// one. With the whole piece there it then hands out the buffer; else it
/// fills the backlog with requests and asks for the next message. A message
/// that is refused ends the download with its error and changes nothing.
/// A download starts with the progress of `PieceProgress::new` and without a
/// message.
pub fn attempt_download_piece(
    c: &mut Client,
    state: &mut PieceProgress,
    pw: &PieceWork,
    event: Option<&Message>,
) -> (r: Result<DownloadStep, TorrentError>)
    requires
        event matches Some(msg) ==> old(state)@.accepts(msg@),
    ensures
        old(state)@.well_formed(pw) ==> final(state)@.well_formed(pw),
        final(c).peer == old(c).peer,
        final(c).info_hash == old(c).info_hash,
        final(c).peer_id == old(c).peer_id,
        ({
            let outcome = match event {
                Some(msg) => old(state)@.outcome(msg@),
                None => Ok(2u32),
            };
            let arrived = match event {
                Some(msg) => old(state)@.received(msg@),
                None => old(state)@,
            };
            let choked = match event {
                Some(msg) => choked_after(old(c).choked, msg@),
                None => old(c).choked,
            };
            let bitfield = match event {
                Some(msg) => bitfield_after(old(c).bitfield@, msg@),
                None => old(c).bitfield@,
            };
            match r {
                Err(e) => {
                    &&& outcome == Err::<u32, TorrentError>(e)
                    &&& final(state)@ == old(state)@
                    &&& final(c).choked == old(c).choked
                    &&& final(c).bitfield@ == old(c).bitfield@
                },
                Ok(DownloadStep::Finished(buf)) => {
                    &&& outcome is Ok
                    &&& arrived.downloaded >= pw.length
                    &&& buf@ == arrived.buf
                    &&& final(state)@ == arrived
                    &&& final(c).choked == choked
                    &&& final(c).bitfield@ == bitfield
                },
                Ok(DownloadStep::Exchange(frames)) => {
                    &&& outcome is Ok
                    &&& arrived.downloaded < pw.length
                    &&& frames@.len() == arrived.request_count(choked, pw.length)
                    &&& forall|i: int|
                        0 <= i < frames@.len() ==> (#[trigger] frames@[i])@ == request_frame(
                            pw.index,
                            arrived.request_begin(i) as u32,
                            PieceProgressView::block_length(arrived.request_begin(i), pw.length)
                                as u32,
                        )
                    &&& final(state)@ == arrived.requesting(frames@.len() as int, pw.length)
                    &&& final(c).choked == choked
                    &&& final(c).bitfield@ == bitfield
                },
            }
        }),
{
    match event {
        Some(msg) => {
            match state.read_message(c, msg) {
                Ok(_) => {},
                Err(e) => return Err(e),
            }
        },
        None => {},
    }
    if state.downloaded < pw.length {
        let frames: Vec<Vec<u8>> = state.send_requests(c, pw);
        Ok(DownloadStep::Exchange(frames))
    } else {
        Ok(DownloadStep::Finished(state.buf.clone()))
    }
}

/// Whether `digest` is the SHA-1 that the piece `pw` is expected to have.
pub fn verify_digest(pw: &PieceWork, digest: &Vec<u8>) -> (r: Result<(), TorrentError>)
    ensures
        r == if digest@ == pw.hash@ {
            Ok::<(), TorrentError>(())
        } else {
            Err::<(), TorrentError>(TorrentError::FailedIntegrityCheck)
        },
{
    if same_bytes(digest, &pw.hash) {
        Ok(())
    } else {
        Err(TorrentError::FailedIntegrityCheck)
    }
}

/// Whether the downloaded piece `buf` is intact: its SHA-1 is the one that
/// `pw` expects.
pub fn check_integrity(pw: &PieceWork, buf: Vec<u8>) -> (r: Result<(), TorrentError>)
    requires
        buf@.len() < sha1_limit(),
    ensures
        r == if sha1_digest(buf@) == pw.hash@ {
            Ok::<(), TorrentError>(())
        } else {
            Err::<(), TorrentError>(TorrentError::FailedIntegrityCheck)
        },
{
    let digest: Vec<u8> = sha1(buf.as_slice());
    verify_digest(pw, &digest)
}

/// What happened to a worker that serves one peer.
pub enum WorkerEvent {
    /// The work queue handed out this piece.
    Received(PieceWork),
    /// The download of this piece ended, with its buffer or with an error.
    Downloaded(PieceWork, Option<Vec<u8>>),
}

/// What the worker does next.
pub enum WorkerAction {
    /// Download the piece and come back with what became of it.
    Download(PieceWork),
    /// Put the piece back into the work queue and take the next one.
    Requeue(PieceWork),
    /// Put the piece back into the work queue and end.
    RequeueAndExit(PieceWork),
    /// Send the frame to the peer, post the result and take the next piece.
    Deliver(Vec<u8>, PieceResult),
}

/// What becomes of a downloaded piece once it has been checked: an intact
/// piece is announced to the peer with a HAVE and posted as a result, a
/// damaged one goes back into the work queue.
pub fn finish_piece(
    c: &Client,
    pw: PieceWork,
    buf: Vec<u8>,
    checked: Result<(), TorrentError>,
) -> (action: WorkerAction)
    ensures
        match checked {
            Ok(_) => {
                &&& action matches WorkerAction::Deliver(have, result)
                &&& have@ == seq![0u8, 0u8, 0u8, 5u8, 4u8] + u32_be(pw.index)
                &&& result.index == pw.index
                &&& result.buf@ == buf@
            },
            Err(_) => action == WorkerAction::Requeue(pw),
        },
{
    match checked {
        Err(_) => WorkerAction::Requeue(pw),
        Ok(_) => {
            let have: Vec<u8> = c.send_have(pw.index);
            WorkerAction::Deliver(have, PieceResult { index: pw.index, buf })
        },
    }
}

/// The decisions of a worker. A piece that the peer does not have goes back
/// into the queue. A download that failed puts the piece back and ends the
/// worker; one that brought a damaged piece puts it back and lets the worker
/// go on. An intact piece is announced to the peer with a HAVE and posted as
/// a result.
pub fn start_download_work(c: &Client, event: WorkerEvent) -> (action: WorkerAction)
    requires
        event matches WorkerEvent::Downloaded(_, Some(buf)) ==> buf@.len() < sha1_limit(),
    ensures
        match event {
            WorkerEvent::Received(pw) => if has_bit(c.bitfield@, pw.index as int) {
                action == WorkerAction::Download(pw)
            } else {
                action == WorkerAction::Requeue(pw)
            },
            WorkerEvent::Downloaded(pw, None) => action == WorkerAction::RequeueAndExit(pw),
            WorkerEvent::Downloaded(pw, Some(buf)) => if sha1_digest(buf@) == pw.hash@ {
                &&& action matches WorkerAction::Deliver(have, result)
                &&& have@ == seq![0u8, 0u8, 0u8, 5u8, 4u8] + u32_be(pw.index)
                &&& result.index == pw.index
                &&& result.buf@ == buf@
            } else {
                action == WorkerAction::Requeue(pw)
            },
        },
{
    match event {
        WorkerEvent::Received(pw) => {
            let mut bf: Bitfield = c.bitfield.clone();
            if !has_piece(&mut bf, pw.index as usize) {
                WorkerAction::Requeue(pw)
            } else {
                WorkerAction::Download(pw)
            }
        },
        WorkerEvent::Downloaded(pw, None) => WorkerAction::RequeueAndExit(pw),
        WorkerEvent::Downloaded(pw, Some(buf)) => {
            let cbuf: Vec<u8> = buf.clone();
            let checked: Result<(), TorrentError> = check_integrity(&pw, buf);
            finish_piece(c, pw, cbuf, checked)
        },
    }
}

/// The product of two numbers of 32 bits fits 64 bits.
proof fn lemma_product_fits(a: int, b: int)
    requires
        0 <= a <= u32::MAX,
        0 <= b <= u32::MAX,
    ensures
        0 <= a * b <= u64::MAX,
{
    assert(0 <= a * b <= 0xffff_ffff * 0xffff_ffff) by (nonlinear_arith)
        requires
            0 <= a <= 0xffff_ffff,
            0 <= b <= 0xffff_ffff,
    ;
}

impl Torrent {
    /// The number of pieces.
    pub open spec fn piece_count(&self) -> nat {
        self.piece_hashes@.len()
    }

    /// Whether the pieces make up the file: pieces have a length, every hash
    /// has twenty bytes, and the last piece begins within the file and ends
    /// at its end or beyond.
    pub open spec fn well_formed(&self) -> bool {
        &&& self.piece_length > 0
        &&& (self.piece_count() - 1) * self.piece_length < self.length || self.piece_count() == 0
        &&& self.length <= self.piece_count() * self.piece_length
        &&& forall|i: int|
            0 <= i < self.piece_count() ==> (#[trigger] self.piece_hashes@[i])@.len() == 20
    }

    /// Whether every piece has an index of 32 bits and begins within the
    /// file. This is less than to be well formed: the last piece may end
    /// before the file does.
    pub open spec fn indexable(&self) -> bool {
        &&& self.piece_count() <= u32::MAX
        &&& self.piece_count() == 0 || (self.piece_count() - 1) * self.piece_length
            <= self.length
    }

    /// Where piece `index` begins in the file.
    pub open spec fn piece_begin(&self, index: int) -> int {
        index * self.piece_length
    }

    /// Where piece `index` ends in the file: a piece length behind its
    /// beginning, or at the end of the file.
    pub open spec fn piece_end(&self, index: int) -> int {
        if self.piece_begin(index) + self.piece_length > self.length {
            self.length as int
        } else {
            self.piece_begin(index) + self.piece_length
        }
    }

    /// The length of piece `index`.
    pub open spec fn piece_size(&self, index: int) -> int {
        self.piece_end(index) - self.piece_begin(index)
    }

    /// Whether the result lies within the file when it is put where its
    /// piece begins.
    pub open spec fn fits(&self, result: &PieceResult) -> bool {
        self.piece_begin(result.index as int) + result.buf@.len() <= self.length
    }

    /// The file after the results have been put into it, one after the
    /// other, each where its piece begins. It starts out as zeros.
    pub open spec fn assembled(&self, results: Seq<PieceResult>) -> Seq<u8>
        decreases results.len(),
    {
        if results.len() == 0 {
            Seq::new(self.length as nat, |i: int| 0u8)
        } else {
            with_block(
                self.assembled(results.drop_last()),
                self.piece_begin(results.last().index as int) as nat,
                results.last().buf@,
            )
        }
    }

    /// Where the last piece begins within the file, every piece does.
    pub proof fn lemma_piece_begins(&self, index: int)
        requires
            self.indexable(),
            0 <= index < self.piece_count(),
        ensures
            0 <= self.piece_begin(index) <= self.length,
    {
        let n = self.piece_count() as int;
        let pl = self.piece_length as int;
        assert(0 <= index * pl <= (n - 1) * pl) by (nonlinear_arith)
            requires
                0 <= index <= n - 1,
                pl >= 0,
        ;
    }

    /// Every piece of a well-formed torrent lies within the file and is not
    /// empty. All pieces but the last have the piece length; the last has
    /// what is left of the file, which is at most the piece length.
    pub proof fn lemma_piece_size(&self, index: int)
        requires
            self.well_formed(),
            0 <= index < self.piece_count(),
        ensures
            0 <= self.piece_begin(index) < self.piece_end(index) <= self.length,
            0 < self.piece_size(index) <= self.piece_length,
            index < self.piece_count() - 1 ==> self.piece_size(index) == self.piece_length,
            index == self.piece_count() - 1 ==> self.piece_size(index) == self.length - (
            self.piece_count() - 1) * self.piece_length,
            self.indexable(),
    {
        let n = self.piece_count() as int;
        let pl = self.piece_length as int;
        assert(index * pl <= (n - 1) * pl) by (nonlinear_arith)
            requires
                0 <= index <= n - 1,
                pl > 0,
        ;
        assert(n - 1 <= (n - 1) * pl) by (nonlinear_arith)
            requires
                0 <= n - 1,
                pl > 0,
        ;
        if index < n - 1 {
            assert((index + 1) * pl <= (n - 1) * pl) by (nonlinear_arith)
                requires
                    0 <= index + 1 <= n - 1,
                    pl > 0,
            ;
            assert((index + 1) * pl == index * pl + pl) by (nonlinear_arith);
        } else {
            assert(n * pl == (n - 1) * pl + pl) by (nonlinear_arith);
        }
    }

    /// Whether the results are those of a whole download: as many as there
    /// are pieces, no two for the same piece, each of the length of its
    /// piece.
    pub open spec fn complete(&self, results: Seq<PieceResult>) -> bool {
        &&& results.len() == self.piece_count()
        &&& self.distinct(results)
    }

    /// Whether no two of the results are for the same piece, and each is for
    /// a piece of the torrent and has the length of that piece.
    pub open spec fn distinct(&self, results: Seq<PieceResult>) -> bool {
        &&& forall|j: int|
            #![trigger results[j]]
            0 <= j < results.len() ==> results[j].index < self.piece_count()
                && results[j].buf@.len() == self.piece_size(results[j].index as int)
        &&& forall|j: int, k: int|
            #![trigger results[j], results[k]]
            0 <= j < k < results.len() ==> results[j].index != results[k].index
    }

    /// Whether every result carries the SHA-1 that the torrent expects of its
    /// piece.
    pub open spec fn intact(&self, results: Seq<PieceResult>) -> bool {
        forall|j: int|
            #![trigger results[j]]
            0 <= j < results.len() ==> sha1_digest(results[j].buf@)
                == self.piece_hashes@[results[j].index as int]@
    }

    /// The part of `file` that piece `index` takes up.
    pub open spec fn window(&self, file: Seq<u8>, index: int) -> Seq<u8> {
        file.subrange(self.piece_begin(index), self.piece_end(index))
    }

    /// The assembled file has the length of the torrent.
    pub proof fn lemma_assembled_len(&self, results: Seq<PieceResult>)
        ensures
            self.assembled(results).len() == self.length,
        decreases results.len(),
    {
        if results.len() > 0 {
            self.lemma_assembled_len(results.drop_last());
        }
    }

    /// Pieces of a well-formed torrent do not overlap.
    proof fn lemma_pieces_apart(&self, low: int, high: int)
        requires
            self.well_formed(),
            0 <= low < high < self.piece_count(),
        ensures
            self.piece_end(low) <= self.piece_begin(high),
    {
        let pl = self.piece_length as int;
        assert((low + 1) * pl <= high * pl) by (nonlinear_arith)
            requires
                0 <= low + 1 <= high,
                pl > 0,
        ;
        assert((low + 1) * pl == low * pl + pl) by (nonlinear_arith);
    }

    /// In the file assembled from results for different pieces, each result
    /// stands unchanged where its piece is.
    pub proof fn lemma_assembled_window(&self, results: Seq<PieceResult>, j: int)
        requires
            self.well_formed(),
            self.distinct(results),
            0 <= j < results.len(),
        ensures
            self.window(self.assembled(results), results[j].index as int) == results[j].buf@,
        decreases results.len(),
    {
        let rest = results.drop_last();
        let last = results.last();
        let mine = results[j].index as int;
        self.lemma_assembled_len(rest);
        self.lemma_piece_size(last.index as int);
        self.lemma_piece_size(mine);
        if j == results.len() - 1 {
            assert(self.window(self.assembled(results), mine) =~= results[j].buf@);
        } else {
            assert(rest[j] == results[j]);
            assert(self.distinct(rest)) by {
                assert forall|a: int|
                    #![trigger rest[a]]
                    0 <= a < rest.len() implies rest[a].index < self.piece_count()
                    && rest[a].buf@.len() == self.piece_size(rest[a].index as int) by {
                    assert(rest[a] == results[a]);
                }
                assert forall|a: int, b: int|
                    #![trigger rest[a], rest[b]]
                    0 <= a < b < rest.len() implies rest[a].index != rest[b].index by {
                    assert(rest[a] == results[a]);
                    assert(rest[b] == results[b]);
                }
            }
            self.lemma_assembled_window(rest, j);
            assert(results[j].index != results[results.len() - 1].index);
            if mine < last.index {
                self.lemma_pieces_apart(mine, last.index as int);
            } else {
                self.lemma_pieces_apart(last.index as int, mine);
            }
            assert(self.window(self.assembled(results), mine) =~= self.window(
                self.assembled(rest),
                mine,
            ));
        }
    }

    /// Among the results of a whole download there is one for every piece.
    pub proof fn lemma_complete_covers(&self, results: Seq<PieceResult>, piece: int)
        requires
            self.complete(results),
            0 <= piece < self.piece_count(),
        ensures
            exists|j: int| 0 <= j < results.len() && (#[trigger] results[j]).index == piece,
    {
        let indices = Seq::new(results.len(), |j: int| results[j].index as int);
        let all = set_int_range(0, self.piece_count() as int);
        assert(indices.no_duplicates());
        indices.unique_seq_to_set();
        lemma_int_range(0, self.piece_count() as int);
        assert(indices.to_set().subset_of(all)) by {
            assert forall|x: int| indices.to_set().contains(x) implies all.contains(x) by {
                let j = choose|j: int| 0 <= j < indices.len() && indices[j] == x;
                assert(results[j].index < self.piece_count());
            }
        }
        lemma_set_subset_finite(all, indices.to_set());
        lemma_subset_equality(indices.to_set(), all);
        assert(all.contains(piece));
        assert(indices.to_set().contains(piece));
        let j = choose|j: int| 0 <= j < indices.len() && indices[j] == piece;
        assert(results[j].index == piece);
    }

    /// The file that a whole download of intact pieces makes up has the
    /// length of the torrent, and the SHA-1 of the part that each piece
    /// takes up is the hash that the torrent expects of that piece.
    pub proof fn lemma_download_intact(&self, results: Seq<PieceResult>, piece: int)
        requires
            self.well_formed(),
            self.complete(results),
            self.intact(results),
            0 <= piece < self.piece_count(),
        ensures
            self.assembled(results).len() == self.length,
            sha1_digest(self.window(self.assembled(results), piece))
                == self.piece_hashes@[piece]@,
    {
        self.lemma_assembled_len(results);
        self.lemma_complete_covers(results, piece);
        let j = choose|j: int| 0 <= j < results.len() && (#[trigger] results[j]).index == piece;
        self.lemma_assembled_window(results, j);
    }

    /// Whether every piece has an index of 32 bits and begins within the
    /// file.
    pub fn is_indexable(&self) -> (ok: bool)
        ensures
            ok == self.indexable(),
    {
        let count: usize = self.piece_hashes.len();
        if count == 0 {
            return true;
        }
        if count as u64 > u32::MAX as u64 {
            return false;
        }
        proof {
            lemma_product_fits((count - 1) as int, self.piece_length as int);
        }
        let last: u64 = (count as u64 - 1) * (self.piece_length as u64);
        assert(last == (self.piece_count() - 1) * self.piece_length);
        last <= self.length as u64
    }

    /// Whether the result lies within the file when it is put where its
    /// piece begins.
    pub fn has_room_for(&self, result: &PieceResult) -> (ok: bool)
        ensures
            ok == self.fits(result),
    {
        proof {
            lemma_product_fits(result.index as int, self.piece_length as int);
        }
        let begin: u64 = (result.index as u64) * (self.piece_length as u64);
        begin <= self.length as u64 && result.buf.len() as u64 <= self.length as u64 - begin
    }

    /// Where piece `index` begins and ends in the file. The beginning has to
    /// fit its 32 bits.
    pub fn calculate_bounds_for_piece(&self, index: u32) -> (bounds: (u32, u32))
        requires
            self.piece_begin(index as int) <= u32::MAX,
        ensures
            bounds.0 == self.piece_begin(index as int),
            bounds.1 == self.piece_end(index as int),
    {
        let begin: u64 = (index as u64) * (self.piece_length as u64);
        let mut end: u64 = begin + self.piece_length as u64;
        if end > self.length as u64 {
            end = self.length as u64;
        }
        (begin as u32, end as u32)
    }

    /// The length of piece `index`, which has to begin within the file.
    pub fn calculate_piece_size(&self, index: u32) -> (size: u32)
        requires
            self.piece_begin(index as int) <= self.length,
        ensures
            size == self.piece_size(index as int),
            size <= self.piece_length,
            self.well_formed() && index < self.piece_count() ==> 0 < size,
            self.well_formed() && index == self.piece_count() - 1 ==> size == self.length - (
            self.piece_count() - 1) * self.piece_length,
            self.well_formed() && index < self.piece_count() - 1 ==> size == self.piece_length,
    {
        proof {
            if self.well_formed() && index < self.piece_count() {
                self.lemma_piece_size(index as int);
            }
        }
        let (begin, end) = self.calculate_bounds_for_piece(index);
        end - begin
    }

    /// The work units that the scheduler starts with: one for each piece, in
    /// the order of the pieces, with the piece's hash and length.
    pub fn piece_work(&self) -> (work: Vec<PieceWork>)
        requires
            self.indexable(),
        ensures
            work@.len() == self.piece_count(),
            forall|i: int|
                #![trigger work@[i]]
                0 <= i < work@.len() ==> {
                    &&& work@[i].index == i
                    &&& work@[i].hash@ == self.piece_hashes@[i]@
                    &&& work@[i].length == self.piece_size(i)
                },
    {
        let mut work: Vec<PieceWork> = Vec::new();
        let mut index: usize = 0;
        while index < self.piece_hashes.len()
            invariant
                self.indexable(),
                index <= self.piece_hashes@.len(),
                work@.len() == index,
                forall|i: int|
                    #![trigger work@[i]]
                    0 <= i < work@.len() ==> {
                        &&& work@[i].index == i
                        &&& work@[i].hash@ == self.piece_hashes@[i]@
                        &&& work@[i].length == self.piece_size(i)
                    },
            decreases self.piece_hashes@.len() - index,
        {
            proof {
                self.lemma_piece_begins(index as int);
            }
            let length: u32 = self.calculate_piece_size(index as u32);
            let hash: Vec<u8> = self.piece_hashes[index].clone();
            work.push(PieceWork { index: index as u32, hash, length });
            index = index + 1;
        }
        work
    }

    /// The file that the results make up: a buffer of the file's length, in
    /// which each result stands where its piece begins. The results may come
    /// in any order.
    pub fn download(&self, results: &Vec<PieceResult>) -> (buffer: Vec<u8>)
        requires
            forall|i: int| 0 <= i < results@.len() ==> self.fits(#[trigger] &results@[i]),
        ensures
            buffer@ == self.assembled(results@),
            buffer@.len() == self.length,
    {
        let mut buffer: Vec<u8> = vec![0u8; self.length as usize];
        assert(buffer@ =~= Seq::new(self.length as nat, |i: int| 0u8));
        assert(results@.take(0) =~= Seq::<PieceResult>::empty());
        let mut done_pieces: usize = 0;
        while done_pieces < results.len()
            invariant
                done_pieces <= results@.len(),
                forall|i: int| 0 <= i < results@.len() ==> self.fits(#[trigger] &results@[i]),
                buffer@ == self.assembled(results@.take(done_pieces as int)),
                buffer@.len() == self.length,
            decreases results@.len() - done_pieces,
        {
            let res: &PieceResult = &results[done_pieces];
            assert(self.fits(&results@[done_pieces as int]));
            let (begin, _) = self.calculate_bounds_for_piece(res.index);
            copy_block(&mut buffer, begin as usize, res.buf.as_slice());
            proof {
                let next = results@.take(done_pieces + 1);
                assert(next.drop_last() =~= results@.take(done_pieces as int));
                assert(next.last() == results@[done_pieces as int]);
            }
            done_pieces = done_pieces + 1;
        }
        assert(results@.take(results@.len() as int) =~= results@);
        buffer
    }
}

} // verus!
