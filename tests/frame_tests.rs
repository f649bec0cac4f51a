use worker_farm::frame::{
    copy_bytes, has_line_feed, parse_request_id, request_id_text, write_request_frame,
};

#[test]
fn request_id_text_is_decimal() {
    assert_eq!(request_id_text(0), b"0".to_vec());
    assert_eq!(request_id_text(7), b"7".to_vec());
    assert_eq!(request_id_text(1234), b"1234".to_vec());
    assert_eq!(request_id_text(u64::MAX), b"18446744073709551615".to_vec());
}

#[test]
fn parse_request_id_reads_canonical_decimal() {
    assert_eq!(parse_request_id(b"0"), Some(0));
    assert_eq!(parse_request_id(b"42"), Some(42));
    assert_eq!(parse_request_id(b"18446744073709551615"), Some(u64::MAX));
}

#[test]
fn parse_request_id_refuses_other_text() {
    assert_eq!(parse_request_id(b""), None);
    assert_eq!(parse_request_id(b"007"), None);
    assert_eq!(parse_request_id(b"4a"), None);
    assert_eq!(parse_request_id(b"{\"file_path\":1}"), None);
    assert_eq!(parse_request_id(b"18446744073709551616"), None);
    assert_eq!(parse_request_id(b"-1"), None);
}

#[test]
fn request_id_text_round_trips() {
    for n in [0u64, 1, 9, 10, 99, 100, 65535, 1 << 40, u64::MAX - 1, u64::MAX] {
        assert_eq!(parse_request_id(&request_id_text(n)), Some(n));
    }
}

#[test]
fn request_frame_has_three_lines() {
    let frame = write_request_frame(12, b"run_resolver", b"{\"specifier\":\"hi\"}");
    assert_eq!(frame, b"12\nrun_resolver\n{\"specifier\":\"hi\"}\n".to_vec());
    assert_eq!(frame.iter().filter(|b| **b == b'\n').count(), 3);
}

#[test]
fn line_feed_is_found() {
    assert!(has_line_feed(b"a\nb"));
    assert!(has_line_feed(b"\n"));
    assert!(!has_line_feed(b"a\\nb"));
    assert!(!has_line_feed(b""));
}

#[test]
fn concatenated_frames_split_back_into_their_fields() {
    let mut stream = write_request_frame(0, b"load_resolver", b"{\"specifier\":\"a\"}");
    stream.extend(write_request_frame(1, b"load_resolver", b"{\"specifier\":\"a\"}"));
    let lines: Vec<&[u8]> = stream.split(|b| *b == b'\n').collect();
    assert_eq!(lines.len(), 7);
    assert_eq!(lines[0], b"0");
    assert_eq!(lines[1], b"load_resolver");
    assert_eq!(lines[3], b"1");
    assert_eq!(lines[5], b"{\"specifier\":\"a\"}");
    assert_eq!(lines[6], b"");
}

#[test]
fn copy_bytes_copies() {
    assert_eq!(copy_bytes(b"abc"), b"abc".to_vec());
    assert_eq!(copy_bytes(b""), Vec::<u8>::new());
}
