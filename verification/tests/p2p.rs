use rust_torrent::client::{new_client, Client};
use rust_torrent::error::TorrentError;
use rust_torrent::message::{
    Message, MESSAGE_BITFIELD, MESSAGE_CHOKE, MESSAGE_HAVE, MESSAGE_INTERESTED, MESSAGE_PIECE,
    MESSAGE_UNCHOKE,
};
use rust_torrent::p2p::{
    attempt_download_piece, check_integrity, finish_piece, start_download_work, verify_digest,
    DownloadStep, PieceProgress, PieceResult, PieceWork, Torrent, WorkerAction, WorkerEvent,
    DOWNLOAD_TIMEOUT, MAX_BACK_LOG, MAX_BLOCK_SIZE,
};
use rust_torrent::peers::Peer;

const SHA1_ABC: [u8; 20] = [
    0xa9, 0x99, 0x3e, 0x36, 0x47, 0x06, 0x81, 0x6a, 0xba, 0x3e, 0x25, 0x71, 0x78, 0x50, 0xc2, 0x6c,
    0x9c, 0xd0, 0xd8, 0x9d,
];

const SHA1_EMPTY: [u8; 20] = [
    0xda, 0x39, 0xa3, 0xee, 0x5e, 0x6b, 0x4b, 0x0d, 0x32, 0x55, 0xbf, 0xef, 0x95, 0x60, 0x18, 0x90,
    0xaf, 0xd8, 0x07, 0x09,
];

fn client_with(bitfield: Vec<u8>) -> Client {
    let peer = Peer { ip: [10, 0, 0, 1], port: 6881 };
    new_client(&peer, &vec![1; 20], &vec![2; 20], bitfield)
}

fn torrent(piece_length: u32, length: u32, pieces: usize) -> Torrent {
    Torrent {
        peers: vec![],
        peer_id: vec![1; 20],
        info_hash: vec![2; 20],
        piece_hashes: (0..pieces).map(|i| vec![i as u8; 20]).collect(),
        piece_length,
        length,
        name: "file".to_string(),
    }
}

fn piece_message(index: u32, begin: u32, block: &[u8]) -> Message {
    let mut payload = index.to_be_bytes().to_vec();
    payload.extend_from_slice(&begin.to_be_bytes());
    payload.extend_from_slice(block);
    Message { id: MESSAGE_PIECE, payload }
}

fn request(index: u32, begin: u32, length: u32) -> Vec<u8> {
    let mut frame = vec![0, 0, 0, 13, 6];
    frame.extend_from_slice(&index.to_be_bytes());
    frame.extend_from_slice(&begin.to_be_bytes());
    frame.extend_from_slice(&length.to_be_bytes());
    frame
}

fn exchange(step: Result<DownloadStep, TorrentError>) -> Vec<Vec<u8>> {
    match step {
        Ok(DownloadStep::Exchange(frames)) => frames,
        Ok(DownloadStep::Finished(_)) => panic!("finished too early"),
        Err(e) => panic!("{}", e.to_string()),
    }
}

#[test]
fn test_constants() {
    assert_eq!(MAX_BLOCK_SIZE, 16384);
    assert_eq!(MAX_BACK_LOG, 5);
    assert_eq!(DOWNLOAD_TIMEOUT, 30);
}

#[test]
fn test_finish_piece() {
    let c = client_with(vec![0xff]);
    let pw = PieceWork { index: 7, hash: vec![1; 20], length: 2 };
    match finish_piece(&c, pw, vec![5, 6], Ok(())) {
        WorkerAction::Deliver(have, result) => {
            assert_eq!(have, vec![0, 0, 0, 5, 4, 0, 0, 0, 7]);
            assert_eq!(result.index, 7);
            assert_eq!(result.buf, vec![5, 6]);
        }
        _ => panic!(),
    }
    let pw = PieceWork { index: 7, hash: vec![1; 20], length: 2 };
    match finish_piece(&c, pw, vec![5, 6], Err(TorrentError::FailedIntegrityCheck)) {
        WorkerAction::Requeue(pw) => {
            assert_eq!(pw.index, 7);
            assert_eq!(pw.hash, vec![1; 20]);
            assert_eq!(pw.length, 2);
        }
        _ => panic!(),
    }
}

#[test]
fn test_is_indexable() {
    assert!(torrent(4, 10, 3).is_indexable());
    assert!(torrent(4, 8, 3).is_indexable());
    assert!(!torrent(4, 7, 3).is_indexable());
    assert!(torrent(4, 100, 3).is_indexable());
    assert!(torrent(4, 0, 0).is_indexable());
    assert!(torrent(0, 0, 5).is_indexable());
    assert!(torrent(u32::MAX, u32::MAX, 2).is_indexable());
    assert!(!torrent(u32::MAX, u32::MAX, 3).is_indexable());
}

#[test]
fn test_has_room_for() {
    let t = torrent(4, 10, 3);
    assert!(t.has_room_for(&PieceResult { index: 2, buf: vec![0; 2] }));
    assert!(!t.has_room_for(&PieceResult { index: 2, buf: vec![0; 3] }));
    assert!(t.has_room_for(&PieceResult { index: 0, buf: vec![0; 10] }));
    assert!(!t.has_room_for(&PieceResult { index: 3, buf: vec![] }));
    assert!(!t.has_room_for(&PieceResult { index: u32::MAX, buf: vec![] }));
}

#[test]
fn test_new_progress() {
    let pw = PieceWork { index: 3, hash: vec![0; 20], length: 10 };
    let state = PieceProgress::new(&pw);
    assert_eq!(state.index, 3);
    assert_eq!(state.buf, vec![0; 10]);
    assert_eq!(state.downloaded, 0);
    assert_eq!(state.requested, 0);
    assert_eq!(state.backlog, 0);
}

#[test]
fn test_read_message_choke_and_unchoke() {
    let pw = PieceWork { index: 0, hash: vec![0; 20], length: 10 };
    let mut state = PieceProgress::new(&pw);
    let mut c = client_with(vec![0]);
    let unchoke = Message { id: MESSAGE_UNCHOKE, payload: vec![] };
    assert_eq!(state.read_message(&mut c, &unchoke), Ok(1));
    assert!(!c.choked);
    let choke = Message { id: MESSAGE_CHOKE, payload: vec![1, 2] };
    assert_eq!(state.read_message(&mut c, &choke), Ok(1));
    assert!(c.choked);
    assert_eq!(c.bitfield, vec![0]);
    assert_eq!(state.buf, vec![0; 10]);
    assert_eq!(state.downloaded, 0);
}

#[test]
fn test_read_message_have() {
    let pw = PieceWork { index: 0, hash: vec![0; 20], length: 10 };
    let mut state = PieceProgress::new(&pw);
    let mut c = client_with(vec![0, 0]);
    let have = Message { id: MESSAGE_HAVE, payload: vec![0, 0, 0, 9] };
    assert_eq!(state.read_message(&mut c, &have), Ok(1));
    assert_eq!(c.bitfield, vec![0, 0b0100_0000]);
    assert!(c.choked);
    let beyond = Message { id: MESSAGE_HAVE, payload: vec![0, 0, 0, 16] };
    assert_eq!(state.read_message(&mut c, &beyond), Ok(1));
    assert_eq!(c.bitfield, vec![0, 0b0100_0000]);
    let broken = Message { id: MESSAGE_HAVE, payload: vec![0, 0, 9] };
    assert_eq!(
        state.read_message(&mut c, &broken),
        Err(TorrentError::IncorrectPayloadLength)
    );
    assert_eq!(c.bitfield, vec![0, 0b0100_0000]);
}

#[test]
fn test_read_message_passes_over_other_ids() {
    let pw = PieceWork { index: 0, hash: vec![0; 20], length: 10 };
    let mut state = PieceProgress::new(&pw);
    let mut c = client_with(vec![0xff]);
    for id in [MESSAGE_INTERESTED, MESSAGE_BITFIELD, 6, 8, 9, 77] {
        let msg = Message { id, payload: vec![0, 0, 0, 1] };
        assert_eq!(state.read_message(&mut c, &msg), Ok(2));
    }
    assert!(c.choked);
    assert_eq!(c.bitfield, vec![0xff]);
    assert_eq!(state.buf, vec![0; 10]);
    assert_eq!(state.backlog, 0);
}

#[test]
fn test_read_message_piece() {
    let pw = PieceWork { index: 4, hash: vec![0; 20], length: 10 };
    let mut state = PieceProgress::new(&pw);
    state.requested = 10;
    state.backlog = 1;
    let mut c = client_with(vec![0xff]);
    let msg = piece_message(4, 2, &[0xaa, 0xbb, 0xcc]);
    assert!(state.can_accept(&msg));
    assert_eq!(state.read_message(&mut c, &msg), Ok(1));
    assert_eq!(state.buf, vec![0, 0, 0xaa, 0xbb, 0xcc, 0, 0, 0, 0, 0]);
    assert_eq!(state.downloaded, 3);
    assert_eq!(state.backlog, 0);
    assert_eq!(state.requested, 10);
    assert_eq!(state.index, 4);
}

#[test]
fn test_read_message_refused_piece_changes_nothing() {
    let pw = PieceWork { index: 4, hash: vec![0; 20], length: 10 };
    let mut state = PieceProgress::new(&pw);
    state.requested = 10;
    state.backlog = 1;
    let mut c = client_with(vec![0xff]);
    let msg = piece_message(5, 2, &[0xaa]);
    assert!(state.can_accept(&msg));
    assert_eq!(state.read_message(&mut c, &msg), Err(TorrentError::UnexpectedIndex));
    let msg = piece_message(4, 8, &[1, 2, 3]);
    assert_eq!(state.read_message(&mut c, &msg), Err(TorrentError::DataTooLong));
    assert_eq!(state.buf, vec![0; 10]);
    assert_eq!(state.downloaded, 0);
    assert_eq!(state.backlog, 1);
}

#[test]
fn test_can_accept() {
    let pw = PieceWork { index: 4, hash: vec![0; 20], length: 10 };
    let mut state = PieceProgress::new(&pw);
    let good = piece_message(4, 2, &[0xaa, 0xbb, 0xcc]);
    let refused = piece_message(7, 2, &[0xaa]);
    let other = Message { id: MESSAGE_CHOKE, payload: vec![] };
    assert!(!state.can_accept(&good));
    assert!(state.can_accept(&refused));
    assert!(state.can_accept(&other));
    state.backlog = 1;
    assert!(state.can_accept(&good));
    state.downloaded = u32::MAX - 3;
    assert!(state.can_accept(&good));
    state.downloaded = u32::MAX - 2;
    assert!(!state.can_accept(&good));
}

#[test]
fn test_send_requests_while_choked() {
    let pw = PieceWork { index: 1, hash: vec![0; 20], length: 40000 };
    let mut state = PieceProgress::new(&pw);
    let c = client_with(vec![0xff]);
    assert_eq!(state.send_requests(&c, &pw), Vec::<Vec<u8>>::new());
    assert_eq!(state.requested, 0);
    assert_eq!(state.backlog, 0);
}

#[test]
fn test_send_requests_short_piece() {
    let pw = PieceWork { index: 1, hash: vec![0; 20], length: 40000 };
    let mut state = PieceProgress::new(&pw);
    let mut c = client_with(vec![0xff]);
    c.choked = false;
    let frames = state.send_requests(&c, &pw);
    assert_eq!(
        frames,
        vec![request(1, 0, 16384), request(1, 16384, 16384), request(1, 32768, 7232)]
    );
    assert_eq!(state.requested, 40000);
    assert_eq!(state.backlog, 3);
    assert_eq!(state.send_requests(&c, &pw), Vec::<Vec<u8>>::new());
    assert_eq!(state.requested, 40000);
    assert_eq!(state.backlog, 3);
}

#[test]
fn test_send_requests_fills_backlog() {
    let pw = PieceWork { index: 2, hash: vec![0; 20], length: 262144 };
    let mut state = PieceProgress::new(&pw);
    let mut c = client_with(vec![0xff]);
    c.choked = false;
    let frames = state.send_requests(&c, &pw);
    assert_eq!(frames.len(), 5);
    for i in 0..5u32 {
        assert_eq!(frames[i as usize], request(2, i * 16384, 16384));
    }
    assert_eq!(state.requested, 5 * 16384);
    assert_eq!(state.backlog, 5);
    state.backlog = 3;
    let frames = state.send_requests(&c, &pw);
    assert_eq!(frames, vec![request(2, 81920, 16384), request(2, 98304, 16384)]);
    assert_eq!(state.requested, 7 * 16384);
    assert_eq!(state.backlog, 5);
}

#[test]
fn test_send_requests_with_nothing_to_ask_for() {
    let pw = PieceWork { index: 2, hash: vec![0; 20], length: 40000 };
    let mut c = client_with(vec![0xff]);
    c.choked = false;
    let mut state = PieceProgress::new(&pw);
    state.backlog = 5;
    assert_eq!(state.send_requests(&c, &pw).len(), 0);
    state.backlog = 9;
    assert_eq!(state.send_requests(&c, &pw).len(), 0);
    assert_eq!(state.backlog, 9);
    assert_eq!(state.requested, 0);
    state.backlog = 0;
    state.requested = 40001;
    assert_eq!(state.send_requests(&c, &pw).len(), 0);
    assert_eq!(state.requested, 40001);
    assert_eq!(state.backlog, 0);
}

#[test]
fn test_send_requests_last_block_of_one_byte() {
    let pw = PieceWork { index: 0, hash: vec![0; 20], length: 16385 };
    let mut state = PieceProgress::new(&pw);
    let mut c = client_with(vec![0xff]);
    c.choked = false;
    let frames = state.send_requests(&c, &pw);
    assert_eq!(frames, vec![request(0, 0, 16384), request(0, 16384, 1)]);
    assert_eq!(state.requested, 16385);
}

#[test]
fn test_send_requests_exact_multiple_of_block() {
    let pw = PieceWork { index: 0, hash: vec![0; 20], length: 32768 };
    let mut state = PieceProgress::new(&pw);
    let mut c = client_with(vec![0xff]);
    c.choked = false;
    let frames = state.send_requests(&c, &pw);
    assert_eq!(frames, vec![request(0, 0, 16384), request(0, 16384, 16384)]);
    assert_eq!(state.requested, 32768);
    assert_eq!(state.backlog, 2);
}

#[test]
fn test_download_of_empty_piece_is_finished_at_once() {
    let pw = PieceWork { index: 0, hash: SHA1_EMPTY.to_vec(), length: 0 };
    let mut state = PieceProgress::new(&pw);
    let mut c = client_with(vec![0xff]);
    match attempt_download_piece(&mut c, &mut state, &pw, None) {
        Ok(DownloadStep::Finished(buf)) => assert_eq!(buf, Vec::<u8>::new()),
        _ => panic!(),
    }
}

#[test]
fn test_download_piece_step_by_step() {
    let pw = PieceWork { index: 3, hash: vec![0; 20], length: 20000 };
    let mut state = PieceProgress::new(&pw);
    let mut c = client_with(vec![0xff]);

    let frames = exchange(attempt_download_piece(&mut c, &mut state, &pw, None));
    assert_eq!(frames.len(), 0);

    let have = Message { id: MESSAGE_HAVE, payload: vec![0, 0, 0, 1] };
    let frames = exchange(attempt_download_piece(&mut c, &mut state, &pw, Some(&have)));
    assert_eq!(frames.len(), 0);
    assert!(c.choked);

    let unchoke = Message { id: MESSAGE_UNCHOKE, payload: vec![] };
    let frames = exchange(attempt_download_piece(&mut c, &mut state, &pw, Some(&unchoke)));
    assert_eq!(frames, vec![request(3, 0, 16384), request(3, 16384, 3616)]);
    assert!(!c.choked);
    assert_eq!(state.requested, 20000);
    assert_eq!(state.backlog, 2);

    let second = piece_message(3, 16384, &vec![2; 3616]);
    assert!(state.can_accept(&second));
    let frames = exchange(attempt_download_piece(&mut c, &mut state, &pw, Some(&second)));
    assert_eq!(frames.len(), 0);
    assert_eq!(state.downloaded, 3616);
    assert_eq!(state.backlog, 1);

    let first = piece_message(3, 0, &vec![1; 16384]);
    assert!(state.can_accept(&first));
    match attempt_download_piece(&mut c, &mut state, &pw, Some(&first)) {
        Ok(DownloadStep::Finished(buf)) => {
            let mut expected = vec![1; 16384];
            expected.extend_from_slice(&vec![2; 3616]);
            assert_eq!(buf, expected);
        }
        _ => panic!(),
    }
    assert_eq!(state.downloaded, 20000);
    assert_eq!(state.backlog, 0);
}

#[test]
fn test_download_piece_step_stops_at_refused_message() {
    let pw = PieceWork { index: 3, hash: vec![0; 20], length: 20000 };
    let mut state = PieceProgress::new(&pw);
    let mut c = client_with(vec![0xff]);
    c.choked = false;
    let wrong = piece_message(4, 0, &[1, 2, 3]);
    match attempt_download_piece(&mut c, &mut state, &pw, Some(&wrong)) {
        Err(e) => assert_eq!(e, TorrentError::UnexpectedIndex),
        _ => panic!(),
    }
    assert_eq!(state.requested, 0);
    assert_eq!(state.backlog, 0);
    assert_eq!(state.buf, vec![0; 20000]);
}

#[test]
fn test_download_piece_choke_holds_requests_back() {
    let pw = PieceWork { index: 3, hash: vec![0; 20], length: 20000 };
    let mut state = PieceProgress::new(&pw);
    let mut c = client_with(vec![0xff]);
    c.choked = false;
    let choke = Message { id: MESSAGE_CHOKE, payload: vec![] };
    let frames = exchange(attempt_download_piece(&mut c, &mut state, &pw, Some(&choke)));
    assert_eq!(frames.len(), 0);
    assert!(c.choked);
    assert_eq!(state.requested, 0);
}

#[test]
fn test_verify_digest() {
    let pw = PieceWork { index: 0, hash: SHA1_ABC.to_vec(), length: 3 };
    assert_eq!(verify_digest(&pw, &SHA1_ABC.to_vec()), Ok(()));
    assert_eq!(
        verify_digest(&pw, &SHA1_EMPTY.to_vec()),
        Err(TorrentError::FailedIntegrityCheck)
    );
    assert_eq!(
        verify_digest(&pw, &SHA1_ABC[0..19].to_vec()),
        Err(TorrentError::FailedIntegrityCheck)
    );
}

#[test]
fn test_check_integrity() {
    let pw = PieceWork { index: 0, hash: SHA1_ABC.to_vec(), length: 3 };
    assert_eq!(check_integrity(&pw, b"abc".to_vec()), Ok(()));
    let err = check_integrity(&pw, b"abd".to_vec()).err().unwrap();
    assert_eq!(err, TorrentError::FailedIntegrityCheck);
    assert_eq!(err.to_string(), "failed integrity check");
    let empty = PieceWork { index: 0, hash: SHA1_EMPTY.to_vec(), length: 0 };
    assert_eq!(check_integrity(&empty, vec![]), Ok(()));
    let echo = PieceWork { index: 0, hash: b"abc".to_vec(), length: 3 };
    assert_eq!(
        check_integrity(&echo, b"abc".to_vec()),
        Err(TorrentError::FailedIntegrityCheck)
    );
}

#[test]
fn test_check_integrity_of_long_piece() {
    let buf: Vec<u8> = vec![b'a'; 1_000_000];
    let hash: Vec<u8> = vec![
        0x34, 0xaa, 0x97, 0x3c, 0xd4, 0xc4, 0xda, 0xa4, 0xf6, 0x1e, 0xeb, 0x2b, 0xdb, 0xad, 0x27,
        0x31, 0x65, 0x34, 0x01, 0x6f,
    ];
    let pw = PieceWork { index: 0, hash, length: 1_000_000 };
    assert_eq!(check_integrity(&pw, buf), Ok(()));
}

#[test]
fn test_worker_skips_piece_that_peer_lacks() {
    let c = client_with(vec![0b0100_0000]);
    let pw = PieceWork { index: 0, hash: vec![0; 20], length: 3 };
    match start_download_work(&c, WorkerEvent::Received(pw)) {
        WorkerAction::Requeue(pw) => {
            assert_eq!(pw.index, 0);
            assert_eq!(pw.hash, vec![0; 20]);
            assert_eq!(pw.length, 3);
        }
        _ => panic!(),
    }
    let beyond = PieceWork { index: 8, hash: vec![0; 20], length: 3 };
    assert!(matches!(
        start_download_work(&c, WorkerEvent::Received(beyond)),
        WorkerAction::Requeue(_)
    ));
}

#[test]
fn test_worker_downloads_piece_that_peer_has() {
    let c = client_with(vec![0b0100_0000]);
    let pw = PieceWork { index: 1, hash: vec![7; 20], length: 3 };
    match start_download_work(&c, WorkerEvent::Received(pw)) {
        WorkerAction::Download(pw) => {
            assert_eq!(pw.index, 1);
            assert_eq!(pw.hash, vec![7; 20]);
            assert_eq!(pw.length, 3);
        }
        _ => panic!(),
    }
}

#[test]
fn test_worker_ends_after_failed_download() {
    let c = client_with(vec![0xff]);
    let pw = PieceWork { index: 1, hash: vec![7; 20], length: 3 };
    match start_download_work(&c, WorkerEvent::Downloaded(pw, None)) {
        WorkerAction::RequeueAndExit(pw) => assert_eq!(pw.index, 1),
        _ => panic!(),
    }
}

#[test]
fn test_worker_recycles_damaged_piece() {
    let c = client_with(vec![0xff]);
    let pw = PieceWork { index: 1, hash: SHA1_ABC.to_vec(), length: 3 };
    match start_download_work(&c, WorkerEvent::Downloaded(pw, Some(b"abd".to_vec()))) {
        WorkerAction::Requeue(pw) => assert_eq!(pw.index, 1),
        _ => panic!(),
    }
}

#[test]
fn test_worker_delivers_intact_piece() {
    let c = client_with(vec![0xff]);
    let pw = PieceWork { index: 258, hash: SHA1_ABC.to_vec(), length: 3 };
    match start_download_work(&c, WorkerEvent::Downloaded(pw, Some(b"abc".to_vec()))) {
        WorkerAction::Deliver(have, result) => {
            assert_eq!(have, vec![0, 0, 0, 5, 4, 0, 0, 1, 2]);
            assert_eq!(result.index, 258);
            assert_eq!(result.buf, b"abc".to_vec());
        }
        _ => panic!(),
    }
}

#[test]
fn test_calculate_bounds_for_piece() {
    let t = torrent(4, 10, 3);
    assert_eq!(t.calculate_bounds_for_piece(0), (0, 4));
    assert_eq!(t.calculate_bounds_for_piece(1), (4, 8));
    assert_eq!(t.calculate_bounds_for_piece(2), (8, 10));
    let t = torrent(262144, 351272960, 1340);
    assert_eq!(t.calculate_bounds_for_piece(1339), (351010816, 351272960));
}

#[test]
fn test_calculate_bounds_beyond_the_file() {
    let t = torrent(4, 10, 3);
    assert_eq!(t.calculate_bounds_for_piece(3), (12, 10));
    assert_eq!(t.calculate_bounds_for_piece(5), (20, 10));
}

#[test]
fn test_calculate_bounds_near_the_end_of_u32() {
    let t = torrent(0x8000_0000, u32::MAX, 2);
    assert_eq!(t.calculate_bounds_for_piece(0), (0, 0x8000_0000));
    assert_eq!(t.calculate_bounds_for_piece(1), (0x8000_0000, u32::MAX));
    assert_eq!(t.calculate_piece_size(1), 0x7fff_ffff);
}

#[test]
fn test_calculate_piece_size() {
    let t = torrent(4, 10, 3);
    assert_eq!(t.calculate_piece_size(0), 4);
    assert_eq!(t.calculate_piece_size(1), 4);
    assert_eq!(t.calculate_piece_size(2), 2);
    let t = torrent(4, 12, 3);
    assert_eq!(t.calculate_piece_size(2), 4);
    let t = torrent(4, 9, 3);
    assert_eq!(t.calculate_piece_size(2), 1);
}

#[test]
fn test_final_piece_length_is_within_piece_length() {
    for piece_length in 1u32..12 {
        for length in 1u32..60 {
            let pieces = ((length + piece_length - 1) / piece_length) as usize;
            let t = torrent(piece_length, length, pieces);
            let last = t.calculate_piece_size(pieces as u32 - 1);
            assert!(0 < last && last <= piece_length);
            assert_eq!(last, length - (pieces as u32 - 1) * piece_length);
            let mut sum = 0;
            for i in 0..pieces as u32 {
                sum += t.calculate_piece_size(i);
            }
            assert_eq!(sum, length);
        }
    }
}

#[test]
fn test_piece_work() {
    let t = torrent(4, 10, 3);
    let work = t.piece_work();
    assert_eq!(work.len(), 3);
    for i in 0..3 {
        assert_eq!(work[i].index, i as u32);
        assert_eq!(work[i].hash, vec![i as u8; 20]);
    }
    assert_eq!(work[0].length, 4);
    assert_eq!(work[1].length, 4);
    assert_eq!(work[2].length, 2);
}

#[test]
fn test_piece_work_of_empty_torrent() {
    let t = torrent(4, 0, 0);
    assert_eq!(t.piece_work().len(), 0);
    assert_eq!(t.download(&vec![]), Vec::<u8>::new());
}

#[test]
fn test_download_puts_pieces_in_order() {
    let t = torrent(4, 10, 3);
    let results = vec![
        PieceResult { index: 2, buf: vec![9, 10] },
        PieceResult { index: 0, buf: vec![1, 2, 3, 4] },
        PieceResult { index: 1, buf: vec![5, 6, 7, 8] },
    ];
    assert_eq!(t.download(&results), vec![1, 2, 3, 4, 5, 6, 7, 8, 9, 10]);
}

#[test]
fn test_download_without_results_is_zeros() {
    let t = torrent(4, 10, 3);
    assert_eq!(t.download(&vec![]), vec![0; 10]);
    let results = vec![PieceResult { index: 1, buf: vec![5, 6, 7, 8] }];
    assert_eq!(t.download(&results), vec![0, 0, 0, 0, 5, 6, 7, 8, 0, 0]);
}

#[test]
fn test_download_later_result_overwrites() {
    let t = torrent(4, 10, 3);
    let results = vec![
        PieceResult { index: 1, buf: vec![5, 6, 7, 8] },
        PieceResult { index: 1, buf: vec![1, 1] },
    ];
    assert_eq!(t.download(&results), vec![0, 0, 0, 0, 1, 1, 7, 8, 0, 0]);
}

#[test]
fn test_downloaded_file_has_expected_hashes() {
    let pieces: Vec<Vec<u8>> = vec![b"abc".to_vec(), b"abc".to_vec(), Vec::from("ab")];
    let sha1_ab: Vec<u8> = vec![
        0xda, 0x23, 0x61, 0x4e, 0x02, 0x46, 0x9a, 0x0d, 0x7c, 0x7b, 0xd1, 0xbd, 0xab, 0x5c, 0x9c,
        0x47, 0x4b, 0x19, 0x04, 0xdc,
    ];
    let mut t = torrent(3, 8, 3);
    t.piece_hashes = vec![SHA1_ABC.to_vec(), SHA1_ABC.to_vec(), sha1_ab];
    let c = client_with(vec![0xff]);
    let mut results: Vec<PieceResult> = Vec::new();
    for pw in t.piece_work().into_iter().rev() {
        let buf = pieces[pw.index as usize].clone();
        assert_eq!(buf.len(), pw.length as usize);
        match start_download_work(&c, WorkerEvent::Downloaded(pw, Some(buf))) {
            WorkerAction::Deliver(_, result) => results.push(result),
            _ => panic!(),
        }
    }
    let file = t.download(&results);
    assert_eq!(file, b"abcabcab".to_vec());
    assert_eq!(file.len(), t.length as usize);
    for pw in t.piece_work() {
        let (begin, end) = t.calculate_bounds_for_piece(pw.index);
        let window = file[begin as usize..end as usize].to_vec();
        assert_eq!(check_integrity(&pw, window), Ok(()));
    }
}
