use honeybeepf::fnv::simple_hash;
use honeybeepf::http_bytes::{
    contains_pattern, decode_chunked_body, extract_h2_json_all, extract_h2_json_nth,
    extract_h2_json_payload, find_balanced_brace, find_pattern, trim_trailing_whitespace,
};
use honeybeepf::kernel_hash::{hash_slice, simple_hash as kernel_hash, MAX_FILENAME_LEN};

fn kernel_buffer(path: &[u8]) -> [u8; MAX_FILENAME_LEN] {
    let mut buf = [0u8; MAX_FILENAME_LEN];
    buf[..path.len()].copy_from_slice(path);
    buf
}

#[test]
fn fnv_known_values() {
    assert_eq!(simple_hash(b""), 0xcbf29ce484222325);
    assert_eq!(simple_hash(b"a"), 0xaf63dc4c8601ec8c);
    assert_eq!(simple_hash(b"foobar"), 0x85944171f73967e8);
}

#[test]
fn fnv_stops_at_nul() {
    assert_eq!(simple_hash(b"/etc/passwd\0junk"), simple_hash(b"/etc/passwd"));
}

#[test]
fn kernel_and_user_hashes_agree() {
    for path in [&b"/etc/shadow"[..], b"/root/.ssh/id_rsa", b"x", b""] {
        assert_eq!(kernel_hash(&kernel_buffer(path)), simple_hash(path));
    }
    let full = [b'a'; MAX_FILENAME_LEN];
    assert_eq!(kernel_hash(&full), simple_hash(&full));
}

#[test]
fn kernel_suffix_hash() {
    let buf = kernel_buffer(b"/home/user/.bashrc");
    assert_eq!(hash_slice(&buf, 10, 8), simple_hash(b"/.bashrc"));
    // The window stops at the end of the buffer: six NUL bytes.
    let mut h: u64 = 0xcbf29ce484222325;
    for _ in 0..6 {
        h = h.wrapping_mul(0x100000001b3);
    }
    assert_eq!(hash_slice(&buf, 250, 100), h);
    assert_eq!(hash_slice(&buf, MAX_FILENAME_LEN, 4), 0xcbf29ce484222325);
}

#[test]
fn pattern_search() {
    assert_eq!(find_pattern(b"abc\r\n\r\nbody", b"\r\n\r\n"), Some(3));
    assert_eq!(find_pattern(b"abc", b"abcd"), None);
    assert_eq!(find_pattern(b"aaab", b"ab"), Some(2));
    assert!(contains_pattern(b"xx\"model\"yy", b"\"model\""));
    assert!(!contains_pattern(b"", b"a"));
}

#[test]
fn trailing_whitespace_trimmed() {
    assert_eq!(trim_trailing_whitespace(b"{}\r\n \t"), b"{}");
    assert_eq!(trim_trailing_whitespace(b"  "), b"");
    assert_eq!(trim_trailing_whitespace(b" a"), b" a");
}

#[test]
fn chunked_decoding() {
    let body = b"4\r\nWiki\r\n5\r\npedia\r\n0\r\n\r\n";
    assert_eq!(decode_chunked_body(body), b"Wikipedia".to_vec());
    // Sizes are hexadecimal and may carry spaces.
    assert_eq!(decode_chunked_body(b"a \r\n0123456789\r\n0\r\n\r\n"), b"0123456789".to_vec());
    // A record cut short contributes what is there.
    assert_eq!(decode_chunked_body(b"5\r\nab"), b"ab".to_vec());
    // No line break: the body as it is.
    assert_eq!(decode_chunked_body(b"{\"a\":1}"), b"{\"a\":1}".to_vec());
    // A size line that does not parse decodes to nothing: the body as it is.
    assert_eq!(decode_chunked_body(b"zz\r\nxx"), b"zz\r\nxx".to_vec());
}

#[test]
fn chunked_decoding_is_idempotent() {
    let body = b"7\r\n{\"a\":1}\r\n3\r\n\r\nx\r\n0\r\n\r\n";
    let once = decode_chunked_body(body);
    assert_eq!(once, b"{\"a\":1}\r\nx".to_vec());
    assert_eq!(decode_chunked_body(&once), once);
}

#[test]
fn balanced_runs_round_trip() {
    let json1 = br#"{"a":"x}{","b":[1,{"c":2}]}"#;
    let json2 = br#"{"k":"esc \" } q"}"#;
    let mut input = b"\x00\x01pfx ".to_vec();
    input.extend_from_slice(json1);
    input.extend_from_slice(b" mid ");
    input.extend_from_slice(json2);
    input.extend_from_slice(b" sfx\xff");
    let runs = extract_h2_json_all(&input);
    assert_eq!(runs, vec![json1.to_vec(), json2.to_vec()]);
    assert_eq!(extract_h2_json_payload(&input), json1.to_vec());
    assert_eq!(extract_h2_json_nth(&input, 1), json2.to_vec());
    assert_eq!(extract_h2_json_nth(&input, 2), Vec::<u8>::new());
}

#[test]
fn unclosed_brace_is_skipped() {
    assert_eq!(extract_h2_json_all(b"{{\"a\":1}"), vec![b"{\"a\":1}".to_vec()]);
    assert_eq!(find_balanced_brace(b"{\"a\":1", 0), None);
    assert_eq!(find_balanced_brace(b"x{}", 1), Some(2));
}

#[test]
fn hashing_stops_at_buffer_size() {
    let long = vec![b'x'; 300];
    assert_eq!(simple_hash(&long), simple_hash(&long[..256]));
    assert_ne!(simple_hash(&long[..255]), simple_hash(&long[..256]));
    let mut buf = [0u8; MAX_FILENAME_LEN];
    buf.copy_from_slice(&long[..MAX_FILENAME_LEN]);
    assert_eq!(kernel_hash(&buf), simple_hash(&long));
}
