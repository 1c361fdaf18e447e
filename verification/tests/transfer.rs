use tcptransfer::error::TransferError;
use tcptransfer::receiver::Receiver;
use tcptransfer::sender::Sender;
use tcptransfer::wire::{receive, send};

fn noise(len: usize) -> Vec<u8> {
    let mut state: u64 = 0x9e37_79b9_7f4a_7c15;
    let mut out = Vec::with_capacity(len);
    for _ in 0..len {
        state ^= state << 13;
        state ^= state >> 7;
        state ^= state << 17;
        out.push((state >> 24) as u8);
    }
    out
}

#[test]
fn empty_file_is_only_a_zero_prefix() {
    let wire = send(&[]);
    assert_eq!(wire, vec![0u8, 0, 0, 0, 0, 0, 0, 0]);
    assert_eq!(receive(&wire, 4096), Ok(Vec::new()));
}

#[test]
fn one_byte_file_follows_its_prefix() {
    let wire = send(&[0x5a]);
    assert_eq!(wire, vec![0x01u8, 0, 0, 0, 0, 0, 0, 0, 0x5a]);
    assert_eq!(receive(&wire, 4096), Ok(vec![0x5a]));
}

#[test]
fn ten_mebibytes_arrive_unchanged() {
    let file = noise(10 * 1024 * 1024);
    let wire = send(&file);
    assert_eq!(wire.len(), file.len() + 8);
    assert_eq!(&wire[..8], &(file.len() as u64).to_le_bytes());
    let got = receive(&wire, 64 * 1024).unwrap();
    assert!(got == file);
}

#[test]
fn round_trip_does_not_depend_on_read_size() {
    let file = noise(1000);
    let wire = send(&file);
    for room in [1usize, 2, 3, 7, 8, 9, 64, 999, 1000, 1008, 5000] {
        assert_eq!(receive(&wire, room), Ok(file.clone()));
    }
}

#[test]
fn bytes_after_the_payload_are_not_written() {
    let file = noise(300);
    let mut wire = send(&file);
    wire.extend_from_slice(&noise(500));
    assert_eq!(receive(&wire, 128), Ok(file));
}

#[test]
fn endless_source_yields_exactly_the_announced_length() {
    let mut rx = Receiver::new();
    let mut sink: Vec<u8> = Vec::new();
    sink.extend_from_slice(rx.feed(&25u64.to_le_bytes()));
    for _ in 0..10 {
        sink.extend_from_slice(rx.feed(&[7u8; 10]));
    }
    assert_eq!(sink, vec![7u8; 25]);
    assert_eq!(rx.written(), 25);
    assert_eq!(rx.want(4096), 0);
    assert!(rx.is_complete());
    assert_eq!(rx.finish(), Ok(25));
}

#[test]
fn stream_cut_inside_the_payload_is_truncated() {
    let file = noise(100);
    let wire = send(&file);
    assert_eq!(receive(&wire[..wire.len() - 1], 32), Err(TransferError::Truncated));
    assert_eq!(receive(&wire[..8], 32), Err(TransferError::Truncated));
}

#[test]
fn stream_cut_inside_the_prefix_is_short() {
    let wire = send(&[1, 2, 3]);
    assert_eq!(receive(&wire[..7], 32), Err(TransferError::ShortPrefix));
    assert_eq!(receive(&[], 32), Err(TransferError::ShortPrefix));
}

#[test]
fn partial_payload_stays_in_the_sink() {
    let file = noise(50);
    let wire = send(&file);
    let mut rx = Receiver::new();
    let mut sink: Vec<u8> = Vec::new();
    sink.extend_from_slice(rx.feed(&wire[..30]));
    assert_eq!(sink, file[..22].to_vec());
    assert!(!rx.is_complete());
    assert_eq!(rx.finish(), Err(TransferError::Truncated));
    assert_eq!(rx.written(), 22);
}

#[test]
fn receiver_takes_the_stream_byte_by_byte() {
    let file = noise(40);
    let wire = send(&file);
    let mut rx = Receiver::new();
    let mut sink: Vec<u8> = Vec::new();
    for (i, b) in wire.iter().enumerate() {
        assert_eq!(rx.size().is_some(), i >= 8);
        let out = rx.feed(std::slice::from_ref(b));
        assert_eq!(out.len(), if i < 8 { 0 } else { 1 });
        sink.extend_from_slice(out);
    }
    assert_eq!(rx.size(), Some(40));
    assert_eq!(rx.finish(), Ok(40));
    assert_eq!(sink, file);
}

#[test]
fn one_chunk_may_hold_prefix_and_payload() {
    let mut rx = Receiver::new();
    let mut chunk = 3u64.to_le_bytes().to_vec();
    chunk.extend_from_slice(&[10, 20, 30, 40, 50]);
    assert_eq!(rx.feed(&chunk), &[10u8, 20, 30][..]);
    assert_eq!(rx.feed(&[60, 70]), &[][..] as &[u8]);
    assert_eq!(rx.finish(), Ok(3));
}

#[test]
fn receiver_asks_for_no_more_than_it_needs() {
    let mut rx = Receiver::new();
    assert_eq!(rx.size(), None);
    assert_eq!(rx.want(4096), 8);
    assert_eq!(rx.want(5), 5);
    assert_eq!(rx.finish(), Err(TransferError::ShortPrefix));
    rx.feed(&[0x10, 0x27, 0]);
    assert_eq!(rx.want(4096), 5);
    rx.feed(&[0, 0, 0, 0, 0]);
    assert_eq!(rx.size(), Some(10_000));
    assert_eq!(rx.want(4096), 4096);
    rx.feed(&vec![0u8; 4096]);
    rx.feed(&vec![0u8; 4096]);
    assert_eq!(rx.want(4096), 10_000 - 8192);
    assert_eq!(rx.written(), 8192);
}

#[test]
fn sender_announces_its_length_little_endian() {
    let tx = Sender::new(0x0102_0304);
    assert_eq!(tx.prefix(), [0x04, 0x03, 0x02, 0x01, 0, 0, 0, 0]);
    assert_eq!(tx.announced(), 0x0102_0304);
    assert_eq!(tx.sent(), 0);
}

#[test]
fn sender_stops_at_the_length_it_announced() {
    let source = noise(120);
    let mut tx = Sender::new(100);
    let mut wire: Vec<u8> = tx.prefix().to_vec();
    assert_eq!(tx.want(64), 64);
    wire.extend_from_slice(tx.forward(&source[..64]));
    assert_eq!(tx.sent(), 64);
    assert!(!tx.is_complete());
    assert_eq!(tx.want(64), 36);
    wire.extend_from_slice(tx.forward(&source[64..]));
    assert_eq!(tx.sent(), 100);
    assert!(tx.is_complete());
    assert_eq!(tx.want(64), 0);
    assert_eq!(tx.forward(&[1, 2, 3]), &[][..] as &[u8]);
    assert_eq!(receive(&wire, 4096), Ok(source[..100].to_vec()));
}

#[test]
fn shrunken_source_is_seen_by_the_receiver() {
    let source = noise(60);
    let mut tx = Sender::new(100);
    let mut wire: Vec<u8> = tx.prefix().to_vec();
    wire.extend_from_slice(tx.forward(&source));
    assert_eq!(tx.sent(), 60);
    assert!(!tx.is_complete());
    assert_eq!(receive(&wire, 4096), Err(TransferError::Truncated));
}
