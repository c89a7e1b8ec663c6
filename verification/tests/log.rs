use quantlib::log::{LogWriter, WRITER_CAPACITY};

#[test]
fn small_writes_are_held_back_until_flush() {
    let mut log = LogWriter::new();
    assert!(log.write(b"abc").is_empty());
    assert!(log.write(b"").is_empty());
    assert!(log.write(b"def").is_empty());
    assert_eq!(log.pending_len(), 6);
    assert_eq!(log.flush(), b"abcdef");
    assert_eq!(log.pending_len(), 0);
    assert!(log.flush().is_empty());
}

#[test]
fn capacity_is_eight_kibibytes() {
    assert_eq!(WRITER_CAPACITY, 8 * 1024);
    let mut log = LogWriter::new();
    assert!(log.write(&vec![1u8; WRITER_CAPACITY]).is_empty());
    assert_eq!(log.pending_len(), WRITER_CAPACITY);
    let out = log.write(&[2u8]);
    assert_eq!(out.len(), WRITER_CAPACITY + 1);
    assert_eq!(out[WRITER_CAPACITY], 2);
    assert_eq!(log.pending_len(), 0);
}

#[test]
fn large_write_passes_straight_through() {
    let mut log = LogWriter::new();
    assert!(log.write(b"head").is_empty());
    let big = vec![7u8; WRITER_CAPACITY + 1];
    let out = log.write(&big);
    let mut expected = b"head".to_vec();
    expected.extend_from_slice(&big);
    assert_eq!(out, expected);
    assert_eq!(log.pending_len(), 0);
}

#[test]
fn nothing_is_lost_or_reordered() {
    let mut log = LogWriter::new();
    let mut written = Vec::new();
    let mut expected = Vec::new();
    for n in 0..2000u32 {
        let bytes = n.to_be_bytes();
        let piece = &bytes[..(n % 5) as usize];
        expected.extend_from_slice(piece);
        written.extend(log.write(piece));
        assert!(log.pending_len() <= WRITER_CAPACITY);
        if n % 700 == 699 {
            written.extend(log.flush());
            assert_eq!(written, expected);
        }
    }
    written.extend(log.flush());
    assert_eq!(written, expected);
}
