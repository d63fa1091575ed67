use agent_procs::daemon::log_index::{
    IndexRecord, decode_header, decode_records, encode_header, encode_record, idx_path_for, line_count_from_len,
    out_of_range_message, record_span,
};

#[test]
fn test_idx_path_for() {
    assert_eq!(idx_path_for("/tmp/logs/web.stdout"), "/tmp/logs/web.stdout.idx");
    assert_eq!(idx_path_for("/tmp/logs/web.stdout.1"), "/tmp/logs/web.stdout.1.idx");
}

#[test]
fn test_write_read_roundtrip() {
    let mut bytes = encode_header(100);
    assert_eq!(&bytes[0..4], b"LIDX");
    for (off, seq) in [(0u64, 100u64), (42, 101), (100, 102)] {
        bytes.extend(encode_record(IndexRecord { byte_offset: off, seq }));
    }
    assert_eq!(decode_header(&bytes), Some(100));
    assert_eq!(line_count_from_len(bytes.len() as u64), 3);
    let recs = decode_records(&bytes[16..]);
    assert_eq!(recs, vec![
        IndexRecord { byte_offset: 0, seq: 100 },
        IndexRecord { byte_offset: 42, seq: 101 },
        IndexRecord { byte_offset: 100, seq: 102 },
    ]);
}

#[test]
fn test_empty_file_rejected() {
    assert_eq!(decode_header(b"tiny"), None);
    assert_eq!(line_count_from_len(4), 0);
}

#[test]
fn test_wrong_magic_rejected() {
    let mut data = vec![0u8; 16];
    data[0..4].copy_from_slice(b"XXXX");
    assert_eq!(decode_header(&data), None);
    let mut wrong_version = encode_header(0);
    wrong_version[4] = 2;
    assert_eq!(decode_header(&wrong_version), None);
}

#[test]
fn test_read_range() {
    assert_eq!(record_span(10, 3, 4), (16 + 3 * 16, 4));
    assert_eq!(record_span(10, 8, 4), (16 + 8 * 16, 2));
    assert_eq!(record_span(10, 12, 4), (16 + 12 * 16, 0));
}

#[test]
fn test_line_count_from_metadata() {
    assert_eq!(line_count_from_len(16 + 2 * 16), 2);
    assert_eq!(line_count_from_len(16 + 2 * 16 + 5), 2);
}

#[test]
fn out_of_range_text() {
    assert_eq!(out_of_range_message(5, 3), "line 5 out of range (count: 3)");
}
