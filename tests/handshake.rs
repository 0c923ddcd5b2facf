use noise_fuzzing::chunk::{should_cut_chunk, GlobalBackupOpt, GlobalRestoreOpt};
use noise_fuzzing::handshake::{
    accept_init, check_response, frame_message, fuzz_initiator, fuzz_responder, generate_corpus,
    is_admitted, receive_init, receive_response, HandshakeAuthMode, HandshakeError, INIT_BODY_LEN,
    RESPONSE_BODY_LEN,
};
use noise_fuzzing::bytes::{bytes_equal, copy_bytes, copy_range};
use noise_fuzzing::timestamp::{
    decode_timestamp, fake_timestamp, validate, AntiReplayTimestamps, ReplayWindow,
};
use noise_fuzzing::transport::{ReplayTransport, WriteCapture};

fn init_body(timestamp: [u8; 8]) -> Vec<u8> {
    let mut body = Vec::new();
    for i in 0..32u8 {
        body.push(i);
    }
    body.extend_from_slice(&timestamp);
    for i in 0..48u8 {
        body.push(100 + i);
    }
    for i in 0..16u8 {
        body.push(200 + i);
    }
    assert_eq!(body.len(), INIT_BODY_LEN);
    body
}

fn response_body() -> Vec<u8> {
    let body: Vec<u8> = (0..RESPONSE_BODY_LEN as u8).map(|b| b.wrapping_mul(7)).collect();
    body
}

#[test]
fn test_noise_fuzzer() {
    let init_msg = frame_message(&init_body(fake_timestamp()));
    let resp_msg = frame_message(&response_body());
    fuzz_responder(&init_msg);
    fuzz_initiator(&resp_msg);
}

#[test]
fn chunk_cut_boundary() {
    assert!(!should_cut_chunk(&[1, 2, 3], &[4, 5], 10));
    assert!(should_cut_chunk(&[1, 2, 3], &[4, 5], 8));
    assert!(!should_cut_chunk(&[], &[9; 100], 1));
    assert!(!should_cut_chunk(&[1, 2, 3], &[4, 5], 9));
}

#[test]
fn chunk_options_hold_values() {
    let b = GlobalBackupOpt { max_chunk_size: 1024 };
    let r = GlobalRestoreOpt { db_dir: "/tmp/db".to_string() };
    assert_eq!(b.max_chunk_size, 1024);
    assert_eq!(r.db_dir, "/tmp/db");
}

#[test]
fn fake_timestamp_is_zero() {
    assert_eq!(fake_timestamp(), [0u8; 8]);
    assert_eq!(decode_timestamp(&fake_timestamp()), 0);
}

#[test]
fn timestamp_is_little_endian() {
    assert_eq!(decode_timestamp(&[1, 2, 0, 0, 0, 0, 0, 0]), 0x0201);
    assert_eq!(decode_timestamp(&[0xff; 8]), u64::MAX);
    assert_eq!(decode_timestamp(&[0, 0, 0, 0, 0, 0, 0, 0x80]), 1u64 << 63);
}

#[test]
fn generated_timestamps_increase_under_clock_regression() {
    let mut g = AntiReplayTimestamps::new();
    assert_eq!(g.generate(100), Some(100));
    assert_eq!(g.generate(50), Some(101));
    assert_eq!(g.generate(101), Some(102));
    assert_eq!(g.generate(500), Some(500));
    assert_eq!(g.last_emitted, Some(500));
}

#[test]
fn generated_timestamps_run_out_at_the_top() {
    let mut g = AntiReplayTimestamps::new();
    assert_eq!(g.generate(u64::MAX), Some(u64::MAX));
    assert_eq!(g.generate(3), None);
    assert_eq!(g.last_emitted, Some(u64::MAX));
}

#[test]
fn validate_needs_strictly_greater() {
    assert!(validate(0, None));
    assert!(validate(6, Some(5)));
    assert!(!validate(5, Some(5)));
    assert!(!validate(4, Some(5)));
}

#[test]
fn bytes_equal_compares_contents() {
    assert!(bytes_equal(&[1, 2, 3], &[1, 2, 3]));
    assert!(!bytes_equal(&[1, 2, 3], &[1, 2, 4]));
    assert!(!bytes_equal(&[1, 2], &[1, 2, 3]));
    assert!(bytes_equal(&[], &[]));
}

#[test]
fn byte_copies_match_their_source() {
    assert_eq!(copy_bytes(&[4, 5, 6]), vec![4, 5, 6]);
    assert_eq!(copy_range(&[1, 2, 3, 4, 5], 1, 4), vec![2, 3, 4]);
    assert_eq!(copy_range(&[1, 2], 2, 2), Vec::<u8>::new());
}

#[test]
fn replay_window_records_per_peer() {
    let mut w = ReplayWindow::new();
    assert_eq!(w.last_seen(b"alice"), None);
    w.record(b"alice", 7);
    w.record(b"bob", 3);
    w.record(b"alice", 9);
    assert_eq!(w.last_seen(b"alice"), Some(9));
    assert_eq!(w.last_seen(b"bob"), Some(3));
    assert_eq!(w.last_seen(b"carol"), None);
}

#[test]
fn replay_transport_serves_partial_reads_then_eof() {
    let mut t = ReplayTransport::new(&[1, 2, 3, 4, 5]);
    assert_eq!(t.remaining(), 5);
    assert_eq!(t.read(2), vec![1, 2]);
    assert_eq!(t.read(10), vec![3, 4, 5]);
    assert_eq!(t.read(10), Vec::<u8>::new());
    assert_eq!(t.read(1), Vec::<u8>::new());
    assert_eq!(t.write(&[9, 9, 9]), 3);
    assert_eq!(t.remaining(), 0);
}

#[test]
fn write_capture_keeps_only_written_prefix() {
    let mut c = WriteCapture::new();
    c.record(&[1, 2, 3, 4], 2);
    c.record(&[5, 6], 2);
    c.record(&[7], 0);
    assert_eq!(c.written, vec![1, 2, 5, 6]);
}

#[test]
fn frame_has_big_endian_length_prefix() {
    assert_eq!(frame_message(&[7, 8, 9]), vec![0, 3, 7, 8, 9]);
    let long = vec![1u8; 300];
    let framed = frame_message(&long);
    assert_eq!(&framed[..2], &[1, 44]);
    assert_eq!(framed.len(), 302);
}

#[test]
fn receive_init_parses_fields() {
    let body = init_body([5, 0, 0, 0, 0, 0, 0, 1]);
    let mut t = ReplayTransport::new(&frame_message(&body));
    let m = receive_init(&mut t).ok().unwrap();
    assert_eq!(m.ephemeral, body[..32].to_vec());
    assert_eq!(m.timestamp, 5 + (1u64 << 56));
    assert_eq!(m.encrypted_static, body[40..88].to_vec());
    assert_eq!(m.tag, body[88..].to_vec());
    assert_eq!(t.remaining(), 0);
}

#[test]
fn truncated_init_is_malformed() {
    let msg = frame_message(&init_body(fake_timestamp()));
    for len in [0usize, 1, 3, msg.len() - 1] {
        let mut t = ReplayTransport::new(&msg[..len]);
        assert_eq!(receive_init(&mut t).err(), Some(HandshakeError::Malformed));
    }
}

#[test]
fn wrong_announced_length_is_malformed() {
    let mut msg = frame_message(&init_body(fake_timestamp()));
    msg[1] = msg[1] + 1;
    msg.push(0);
    let mut t = ReplayTransport::new(&msg);
    assert_eq!(receive_init(&mut t).err(), Some(HandshakeError::Malformed));
}

#[test]
fn receive_response_parses_fields() {
    let body = response_body();
    let mut t = ReplayTransport::new(&frame_message(&body));
    let m = receive_response(&mut t).ok().unwrap();
    assert_eq!(m.ephemeral, body[..32].to_vec());
    assert_eq!(m.tag, body[32..].to_vec());
    let mut short = ReplayTransport::new(&frame_message(&body)[..10]);
    assert_eq!(receive_response(&mut short).err(), Some(HandshakeError::Malformed));
}

#[test]
fn replayed_init_is_rejected() {
    let mut w = ReplayWindow::new();
    let mode = HandshakeAuthMode::ServerOnly;
    assert_eq!(accept_init(&mut w, &mode, Some(b"alice"), 0), Ok(()));
    assert_eq!(w.last_seen(b"alice"), Some(0));
    assert_eq!(
        accept_init(&mut w, &mode, Some(b"alice"), 0),
        Err(HandshakeError::ReplayDetected)
    );
    assert_eq!(accept_init(&mut w, &mode, Some(b"bob"), 0), Ok(()));
    assert_eq!(accept_init(&mut w, &mode, Some(b"alice"), 1), Ok(()));
    assert_eq!(w.last_seen(b"alice"), Some(1));
}

#[test]
fn unverified_init_is_authentication_failure() {
    let mut w = ReplayWindow::new();
    let mode = HandshakeAuthMode::ServerOnly;
    assert_eq!(
        accept_init(&mut w, &mode, None, 4),
        Err(HandshakeError::AuthenticationFailure)
    );
    assert_eq!(w.last_seen(b"alice"), None);
}

#[test]
fn mutual_mode_rejects_unlisted_peer() {
    let mut w = ReplayWindow::new();
    let mode = HandshakeAuthMode::Mutual { trusted_peers: vec![b"alice".to_vec()] };
    assert!(is_admitted(&mode, b"alice"));
    assert!(!is_admitted(&mode, b"mallory"));
    assert!(is_admitted(&HandshakeAuthMode::ServerOnly, b"mallory"));
    assert_eq!(
        accept_init(&mut w, &mode, Some(b"mallory"), 1),
        Err(HandshakeError::UnexpectedPeer)
    );
    assert_eq!(w.last_seen(b"mallory"), None);
    assert_eq!(accept_init(&mut w, &mode, Some(b"alice"), 1), Ok(()));
}

#[test]
fn response_check_verdicts() {
    assert_eq!(check_response(Some(b"srv"), Some(b"srv")), Ok(()));
    assert_eq!(check_response(None, Some(b"any")), Ok(()));
    assert_eq!(
        check_response(Some(b"srv"), Some(b"other")),
        Err(HandshakeError::UnexpectedPeer)
    );
    assert_eq!(
        check_response(Some(b"srv"), None),
        Err(HandshakeError::AuthenticationFailure)
    );
}

#[test]
fn fuzz_entry_points_survive_any_input() {
    let mut seed: u32 = 12345;
    let mut inputs: Vec<Vec<u8>> = vec![vec![], vec![0], vec![0xff], vec![0, 104], vec![0, 48]];
    for len in [2usize, 50, 106, 200, 4096] {
        let mut v = Vec::new();
        for _ in 0..len {
            seed = seed.wrapping_mul(1103515245).wrapping_add(12345);
            v.push((seed >> 16) as u8);
        }
        inputs.push(v);
    }
    for data in &inputs {
        fuzz_responder(data);
        fuzz_initiator(data);
    }
}

#[test]
fn corpus_sample_picks_one_message() {
    let a = vec![1, 2, 3];
    let b = vec![4, 5];
    assert_eq!(generate_corpus(a.clone(), b.clone(), true), a);
    assert_eq!(generate_corpus(a.clone(), b.clone(), false), b);
}
