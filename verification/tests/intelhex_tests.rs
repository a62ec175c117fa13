use moonbow::errors::EmuError;
use moonbow::intelhex::segments;

/// Format one record line with its checksum.
fn rec(addr: u16, rtype: u8, data: &[u8]) -> String {
    let mut bytes = vec![data.len() as u8, (addr >> 8) as u8, addr as u8, rtype];
    bytes.extend_from_slice(data);
    let sum: u32 = bytes.iter().map(|b| *b as u32).sum();
    bytes.push((sum.wrapping_neg() % 256) as u8);
    let mut s = String::from(":");
    for b in bytes {
        s.push_str(&format!("{:02X}", b));
    }
    s.push('\n');
    s
}

#[test]
fn two_segments_with_linear_address_record() {
    // Data records covering [0x1000, 0x1010) and then [0x2000, 0x2010), with
    // an intervening extended linear address record, yield exactly two
    // segments of sixteen bytes each.
    let first: Vec<u8> = (0u8..16).collect();
    let second: Vec<u8> = (16u8..32).collect();
    let mut text = String::new();
    text.push_str(&rec(0x1000, 0, &first));
    text.push_str(&rec(0x0000, 4, &[0, 0]));
    text.push_str(&rec(0x2000, 0, &second));
    text.push_str(&rec(0, 1, &[]));

    let segs = segments(text.as_bytes()).unwrap();
    assert_eq!(segs.len(), 2);
    assert_eq!(segs[0].address, 0x1000);
    assert_eq!(segs[0].data, first);
    assert_eq!(segs[1].address, 0x2000);
    assert_eq!(segs[1].data, second);
}

#[test]
fn consecutive_records_coalesce() {
    let mut text = String::new();
    text.push_str(&rec(0x0100, 0, b"abcd"));
    text.push_str(&rec(0x0104, 0, b"efgh"));
    text.push_str(&rec(0, 1, &[]));
    let segs = segments(text.as_bytes()).unwrap();
    assert_eq!(segs.len(), 1);
    assert_eq!(segs[0].address, 0x100);
    assert_eq!(segs[0].data, b"abcdefgh");
}

#[test]
fn a_gap_closes_the_segment() {
    let mut text = String::new();
    text.push_str(&rec(0x0100, 0, b"ab"));
    text.push_str(&rec(0x0200, 0, b"cd"));
    text.push_str(&rec(0, 1, &[]));
    let segs = segments(text.as_bytes()).unwrap();
    assert_eq!(segs.len(), 2);
    assert_eq!(segs[0].address, 0x100);
    assert_eq!(segs[0].data, b"ab");
    assert_eq!(segs[1].address, 0x200);
    assert_eq!(segs[1].data, b"cd");
}

#[test]
fn extended_segment_address_shifts_by_four() {
    let mut text = String::new();
    text.push_str(&rec(0, 2, &[0x10, 0x00])); // base = 0x1000 << 4
    text.push_str(&rec(0x0004, 0, b"xy"));
    text.push_str(&rec(0, 1, &[]));
    let segs = segments(text.as_bytes()).unwrap();
    assert_eq!(segs.len(), 1);
    assert_eq!(segs[0].address, 0x1_0004);
}

#[test]
fn crlf_and_blank_lines_are_tolerated() {
    let text = ":02000000AA5BF9\r\n\r\n:00000001FF\r\n";
    let segs = segments(text.as_bytes()).unwrap();
    assert_eq!(segs.len(), 1);
    assert_eq!(segs[0].data, vec![0xAA, 0x5B]);
}

#[test]
fn missing_eof_record_is_an_error() {
    let text = rec(0, 0, b"ab");
    assert_eq!(segments(text.as_bytes()).unwrap_err(), EmuError::MalformedIntelHex);
    assert_eq!(segments(b"").unwrap_err(), EmuError::MalformedIntelHex);
}

#[test]
fn bad_checksum_is_an_error() {
    let text = ":020000000102FE\n:00000001FF\n"; // checksum should be 0xFB
    assert_eq!(segments(text.as_bytes()).unwrap_err(), EmuError::MalformedIntelHex);
}

#[test]
fn stray_text_is_an_error() {
    assert_eq!(segments(b"hello\n").unwrap_err(), EmuError::MalformedIntelHex);
    assert_eq!(segments(b":01000000ZZFF\n").unwrap_err(), EmuError::MalformedIntelHex);
}

#[test]
fn unrecognized_record_types_are_ignored() {
    let mut text = String::new();
    text.push_str(&rec(0, 3, &[0, 0, 0, 0])); // start segment address
    text.push_str(&rec(0x0010, 0, b"ok"));
    text.push_str(&rec(0, 5, &[0, 0, 0, 0])); // start linear address
    text.push_str(&rec(0, 1, &[]));
    let segs = segments(text.as_bytes()).unwrap();
    assert_eq!(segs.len(), 1);
    assert_eq!(segs[0].data, b"ok");
}

#[test]
fn invalid_utf8_is_an_error() {
    assert_eq!(segments(&[0xff, 0x3a, 0x0a]).unwrap_err(), EmuError::InvalidUtf8);
}

#[test]
fn the_last_line_may_lack_a_newline() {
    let text = ":020000001234B8\n:00000001FF";
    let segs = segments(text.as_bytes()).unwrap();
    assert_eq!(segs.len(), 1);
    assert_eq!(segs[0].data, vec![0x12, 0x34]);
}
