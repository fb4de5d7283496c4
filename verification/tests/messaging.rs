use brows::ipc::{
    ack_line, exit_line, first_line_of, frame, is_ack, open_line, parse_request, pipe_name,
    pipe_sddl, read_done, received, request_line, send_exit, send_open, Request, BUF_SIZE,
};

fn parsed_url(line: &str) -> Option<String> {
    match parse_request(line) {
        Some(Request::Open(u)) => Some(u),
        _ => None,
    }
}

#[test]
fn open_request_bytes() {
    assert_eq!(send_open("https://example.com/a"), b"BROWS-OPEN https://example.com/a\n".to_vec());
    assert_eq!(open_line("https://x"), "BROWS-OPEN https://x");
}

#[test]
fn exit_request_bytes() {
    assert_eq!(send_exit(), b"BROWS-EXIT\n".to_vec());
    assert_eq!(exit_line(), "BROWS-EXIT");
}

#[test]
fn request_lines() {
    assert_eq!(request_line(&Request::Open("https://a.b".to_string())), "BROWS-OPEN https://a.b");
    assert_eq!(request_line(&Request::Exit), "BROWS-EXIT");
}

#[test]
fn open_request_roundtrip() {
    let url = "https://例え.jp/パス?q=1";
    let line = received(&send_open(url)).expect("a line");
    assert_eq!(parsed_url(&line), Some(url.to_string()));
}

#[test]
fn exit_request_roundtrip() {
    let line = received(&send_exit()).expect("a line");
    assert!(matches!(parse_request(&line), Some(Request::Exit)));
}

#[test]
fn ack_roundtrip() {
    let reply = received(&frame(&ack_line()));
    assert_eq!(reply, Some("BROWS-OK".to_string()));
    assert!(is_ack(&reply));
}

#[test]
fn parse_request_trims_and_checks_the_scheme() {
    assert_eq!(parsed_url("  BROWS-OPEN https://x.y/z \r"), Some("https://x.y/z".to_string()));
    assert_eq!(parsed_url("BROWS-OPEN http"), Some("http".to_string()));
    assert!(parse_request("BROWS-OPEN ftp://x").is_none());
    assert!(parse_request("BROWS-OPEN ").is_none());
    assert!(matches!(parse_request(" BROWS-EXIT "), Some(Request::Exit)));
    assert!(parse_request("BROWS-EXIT now").is_none());
    assert!(parse_request("hello").is_none());
    assert!(parse_request("").is_none());
}

#[test]
fn is_ack_needs_exact_acknowledgement() {
    assert!(is_ack(&Some(" BROWS-OK \t".to_string())));
    assert!(!is_ack(&Some("BROWS-OKAY".to_string())));
    assert!(!is_ack(&Some("".to_string())));
    assert!(!is_ack(&None));
}

#[test]
fn received_takes_the_first_line() {
    assert_eq!(received(&vec![]), None);
    assert_eq!(received(&b"abc\r\ndef\n".to_vec()), Some("abc".to_string()));
    assert_eq!(received(&b"no newline".to_vec()), Some("no newline".to_string()));
    assert_eq!(received(&b"\n".to_vec()), Some("".to_string()));
    assert_eq!(received(&vec![0xff, b'a', b'\n']), Some("\u{FFFD}a".to_string()));
}

#[test]
fn first_line_of_text() {
    assert_eq!(first_line_of("one\ntwo"), "one");
    assert_eq!(first_line_of("one\r\ntwo"), "one");
    assert_eq!(first_line_of("a\rb"), "a\rb");
    assert_eq!(first_line_of(""), "");
}

#[test]
fn read_done_at_newline_or_past_the_buffer() {
    assert!(!read_done(&b"BROWS-OPEN http".to_vec()));
    assert!(read_done(&b"BROWS-EXIT\n".to_vec()));
    assert!(!read_done(&vec![b'a'; BUF_SIZE as usize]));
    assert!(read_done(&vec![b'a'; BUF_SIZE as usize + 1]));
}

#[test]
fn pipe_name_is_per_user() {
    assert_eq!(pipe_name(Some("S-1-5-21-1-2-3-1001")), r"\\.\pipe\brows.S-1-5-21-1-2-3-1001");
    assert_eq!(pipe_name(None), r"\\.\pipe\brows");
}

#[test]
fn pipe_sddl_grants_user_and_system() {
    assert_eq!(pipe_sddl("S-1-5-21-9"), "D:(A;;GA;;;S-1-5-21-9)(A;;GA;;;SY)");
}
