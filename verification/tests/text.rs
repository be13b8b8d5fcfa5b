use terminal::echo::render_command_echo;
use terminal::osc133::{Osc133, PromptRegion, parse_osc133};
use terminal::pty::{escape_bytes, pwd_to_path};
use terminal::utf8::{
    from_utf8_compat, from_utf8_fast, from_utf8_lossy_fast, from_utf8_to_string, validate,
};

#[test]
fn utf8_valid_input_is_returned_as_text() {
    assert_eq!(validate("héllo ✓".as_bytes()).unwrap(), "héllo ✓");
    assert_eq!(from_utf8_fast(b"abc").unwrap(), "abc");
    assert_eq!(from_utf8_compat(b"").unwrap(), "");
    assert_eq!(from_utf8_to_string(b"xyz").unwrap(), "xyz".to_string());
}

#[test]
fn utf8_errors_report_prefix_and_sequence_length() {
    // An unexpected continuation byte is a one-byte error.
    let e = validate(b"ab\x80cd").unwrap_err();
    assert_eq!((e.valid_up_to(), e.error_len()), (2, Some(1)));
    // A lead byte followed by a non-continuation: the length up to it.
    let e = validate(b"a\xe2\x82x").unwrap_err();
    assert_eq!((e.valid_up_to(), e.error_len()), (1, Some(2)));
    // Input ending mid-sequence: more bytes are needed.
    let e = validate(b"ok\xe2\x82").unwrap_err();
    assert_eq!((e.valid_up_to(), e.error_len()), (2, None));
    // An encoded surrogate: its second byte is out of range for the lead.
    let e = validate(b"\xed\xa0\x80").unwrap_err();
    assert_eq!((e.valid_up_to(), e.error_len()), (0, Some(1)));
    // Overlong and past-U+10FFFF forms fail at their second byte too.
    assert_eq!(validate(b"\xe0\x80\x80").unwrap_err().error_len(), Some(1));
    assert_eq!(validate(b"x\xf4\x90\x80\x80").unwrap_err().error_len(), Some(1));
    // A bad second byte is reported even where the input ends early.
    assert_eq!(validate(b"\xed\xa0").unwrap_err().error_len(), Some(1));
    // Agrees with the standard library.
    for bad in [&b"\xed\xa0\x80"[..], b"a\xe2\x82x", b"ok\xe2\x82", b"\xf0\x9f\x98", b"\xf4\x90\x80\x80"] {
        let ours = validate(bad).unwrap_err();
        let std_err = std::str::from_utf8(bad).unwrap_err();
        assert_eq!((ours.valid_up_to(), ours.error_len()), (std_err.valid_up_to(), std_err.error_len()));
    }
    // Out-of-range and overlong lead bytes.
    let e = validate(b"\xf5\x80").unwrap_err();
    assert_eq!(e.error_len(), Some(1));
    let e = validate(b"\xc0\xaf").unwrap_err();
    assert_eq!(e.error_len(), Some(1));
    assert_eq!(
        validate(b"ab\x80").unwrap_err().to_string(),
        "invalid utf-8 sequence of 1 bytes from index 2"
    );
    assert_eq!(
        validate(b"ok\xe2\x82").unwrap_err().to_string(),
        "incomplete utf-8 byte sequence from index 2"
    );
    assert!(from_utf8_to_string(b"\xff").is_err());
}

#[test]
fn utf8_lossy_replaces_invalid_sequences() {
    assert_eq!(from_utf8_lossy_fast(b"plain"), "plain");
    assert_eq!(from_utf8_lossy_fast(b"a\xffb"), "a\u{fffd}b");
}

#[test]
fn command_echo_renders_the_final_line() {
    assert_eq!(render_command_echo(b"  ls -la \r\n"), "ls -la");
    assert_eq!(
        render_command_echo(b"\x1b[1;9H\x1b[K\x1b[93mecho\x1b[0m hi\x1b[1;9H\x1b[K\x1b[93mecho\x1b[0m hi2\r\n"),
        "echo hi2"
    );
    assert_eq!(render_command_echo(b"\r\n"), "");
}

#[test]
fn osc133_marks_parse_with_their_exit_codes() {
    match parse_osc133(b"\x1b]133;D;42\x07rest") {
        Osc133::Mark { len, sub, exit, next } => {
            assert_eq!((len, sub, exit, next), (11, b'D', Some(42), Some(PromptRegion::Outside)));
        }
        other => panic!("unexpected {other:?}"),
    }
    assert!(matches!(parse_osc133(b"\x1b]13"), Osc133::Incomplete));
    assert!(matches!(parse_osc133(b"\x1b[31m"), Osc133::NotMark));
}

#[test]
fn pwd_reports_name_their_path() {
    assert_eq!(pwd_to_path("file://host/home/me"), "/home/me");
    assert_eq!(pwd_to_path("file:///C:/Users/me"), "C:/Users/me");
    assert_eq!(pwd_to_path("file://host"), "file://host");
    assert_eq!(pwd_to_path("/plain/path"), "/plain/path");
}

#[test]
fn trace_escapes_control_bytes() {
    assert_eq!(escape_bytes(b"\x1b[1mA\r\n\x07"), "<ESC>[1mA<CR><LF>\\x07");
    assert_eq!(escape_bytes(b"\xff"), "\\xff");
}

#[test]
fn lossy_decoding_replaces_each_invalid_sequence_once() {
    for bad in [&b"a\xed\xa0\x80b"[..], b"ok\xe2\x82", b"\xf0\x9f\x98x\xc0", b"\xe2\x82\xacz\xff"] {
        assert_eq!(from_utf8_lossy_fast(bad), String::from_utf8_lossy(bad).to_string());
    }
    assert_eq!(from_utf8_lossy_fast(b"a\xed\xa0\x80b"), "a\u{FFFD}\u{FFFD}\u{FFFD}b");
    assert_eq!(from_utf8_lossy_fast(b"ok\xe2\x82"), "ok\u{FFFD}");
}

#[test]
fn command_echo_rendering_is_idempotent() {
    let inputs: [&[u8]; 5] = [
        b"  ls -la \r\n",
        b"\x1b[1;9H\x1b[K\x1b[93mecho\x1b[0m hi\x1b[1;9H\x1b[K\x1b[93mecho\x1b[0m hi2\r\n",
        b"ab\x08\x08xy\x1b[3Gz \xff\xfe tail\x1b[2X",
        b"\x1b]0;title\x07git st\x1b[Dtatus\x7f",
        b"",
    ];
    for bytes in inputs {
        let once = render_command_echo(bytes);
        assert_eq!(render_command_echo(once.as_bytes()), once);
    }
    assert_eq!(render_command_echo(b"ab\x08\x08xy"), "xy");
}
