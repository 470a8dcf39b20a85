use rspi_client::cipher::Cipher;
use rspi_client::transfer::{encode_frame, FrameDecoder, CHUNK_SIZE};

fn sample(len: usize) -> Vec<u8> {
    (0..len).map(|i| (i * 7 + 3) as u8).collect()
}

#[test]
fn cipher_round_trip_lengths() {
    for len in [0usize, 1, 1023, 1024, 4096] {
        let data = sample(len);
        let mut sender = Cipher::new(0x1234_5678_9abc_def0);
        let mut receiver = Cipher::new(0x1234_5678_9abc_def0);
        let wire = sender.encrypt(&data);
        assert_eq!(wire.len(), len);
        if len >= 16 {
            assert_ne!(wire, data);
        }
        assert_eq!(receiver.decrypt(&wire), data);
        assert_eq!(sender.send_cursor, receiver.recv_cursor);
    }
}

#[test]
fn cipher_pieces_match_whole() {
    let data = sample(300);
    let mut whole = Cipher::new(7);
    let mut pieces = Cipher::new(7);
    let all = whole.encrypt(&data);
    let mut parts = pieces.encrypt(&data[..100]);
    parts.extend(pieces.encrypt(&data[100..]));
    assert_eq!(all, parts);
}

#[test]
fn cipher_wrong_key_garbles() {
    let data = sample(64);
    let wire = Cipher::new(1).encrypt(&data);
    assert_ne!(Cipher::new(2).decrypt(&wire), data);
}

#[test]
fn encode_frame_layout() {
    assert_eq!(encode_frame(&[]), vec![0, 0]);
    assert_eq!(encode_frame(&[9, 8, 7]), vec![0, 3, 9, 8, 7]);
    let full = encode_frame(&sample(CHUNK_SIZE));
    assert_eq!(&full[..2], &[4, 0]);
    assert_eq!(full.len(), CHUNK_SIZE + 2);
}

fn send_file(key: u64, content: &[u8]) -> Vec<u8> {
    let mut cipher = Cipher::new(key);
    let mut wire = Vec::new();
    for chunk in content.chunks(CHUNK_SIZE) {
        wire.extend(cipher.encrypt(&encode_frame(chunk)));
    }
    wire.extend(cipher.encrypt(&encode_frame(&[])));
    wire
}

fn receive_file(key: u64, wire: &[u8], read_size: usize) -> (Vec<u8>, usize) {
    let mut cipher = Cipher::new(key);
    let mut decoder = FrameDecoder::new();
    let mut content = Vec::new();
    let mut consumed = 0;
    for piece in wire.chunks(read_size) {
        let plain = cipher.decrypt(piece);
        let (bytes, used) = decoder.feed(&plain);
        content.extend(bytes);
        consumed += used;
        if decoder.is_done() {
            break;
        }
    }
    assert!(decoder.is_done());
    (content, consumed)
}

#[test]
fn file_round_trip_empty() {
    let wire = send_file(5, &[]);
    assert_eq!(wire.len(), 2);
    assert_eq!(receive_file(5, &wire, 1), (vec![], 2));
}

#[test]
fn file_round_trip_small() {
    let content = sample(100);
    let wire = send_file(5, &content);
    for read_size in [1, 3, 1024] {
        assert_eq!(receive_file(5, &wire, read_size), (content.clone(), 104));
    }
}

#[test]
fn file_round_trip_three_chunks_and_remainder() {
    let content = sample(3 * CHUNK_SIZE + 17);
    let wire = send_file(77, &content);
    assert_eq!(wire.len(), content.len() + 2 * 5);
    for read_size in [7, 1000, 1024, 5000] {
        assert_eq!(receive_file(77, &wire, read_size).0, content);
    }
}

#[test]
fn decoder_stops_at_end_marker() {
    let mut decoder = FrameDecoder::new();
    let (bytes, used) = decoder.feed(&[0, 2, 10, 11, 0, 0, 65, 66]);
    assert_eq!(bytes, vec![10, 11]);
    assert_eq!(used, 6);
    assert!(decoder.is_done());
    let (more, used_after) = decoder.feed(&[1, 2, 3]);
    assert!(more.is_empty());
    assert_eq!(used_after, 0);
}

#[test]
fn decoder_header_split_across_reads() {
    let mut decoder = FrameDecoder::new();
    let (a, _) = decoder.feed(&[1]);
    let (b, _) = decoder.feed(&[1]);
    assert!(a.is_empty() && b.is_empty());
    assert_eq!(decoder.remaining, 257);
    assert!(!decoder.is_done());
}

#[test]
fn file_round_trip_exact_chunks() {
    let content = sample(2 * CHUNK_SIZE);
    let wire = send_file(3, &content);
    assert_eq!(wire.len(), content.len() + 2 * 3);
    assert_eq!(receive_file(3, &wire, 999), (content, 2 * CHUNK_SIZE + 6));
}
