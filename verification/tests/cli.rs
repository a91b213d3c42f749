use ds4::cli::{next_step, parse_command, rewind_message, Command, TurnStep, REPL_HELP};
use ds4::utf8::{from_utf8_lossy, utf8_split, write_utf8};

#[test]
fn holds_partial_multibyte() {
    assert_eq!(utf8_split(&[0xC3]), (0, 0));
    assert_eq!(utf8_split(&[0xC3, 0xA9]), (2, 0));
}

#[test]
fn replaces_invalid_with_fffd() {
    let mut pending = vec![b'A', 0xFF, b'B'];
    let mut out = Vec::new();
    write_utf8(&mut out, &mut pending, false);
    assert_eq!(out, "A\u{FFFD}B".as_bytes());
    assert!(pending.is_empty());
}

#[test]
fn end_of_stream_replaces_dangling_partial() {
    let mut pending = vec![b'A', 0xC3];
    let mut out = Vec::new();
    write_utf8(&mut out, &mut pending, false);
    assert_eq!(out, b"A");
    assert_eq!(pending, vec![0xC3]);
    write_utf8(&mut out, &mut pending, true);
    assert_eq!(out, "A\u{FFFD}".as_bytes());
    assert!(pending.is_empty());
}

#[test]
fn utf8_split_all_valid() {
    assert_eq!(utf8_split(b"hello"), (5, 0));
    assert_eq!(utf8_split("héllo".as_bytes()), ("héllo".len(), 0));
}

#[test]
fn utf8_split_invalid_in_middle() {
    let bytes = [b'a', 0xFF, b'b'];
    let (valid, invalid) = utf8_split(&bytes);
    assert_eq!(valid, 1);
    assert_eq!(invalid, 1);
}

#[test]
fn utf8_split_empty() {
    assert_eq!(utf8_split(&[]), (0, 0));
}

#[test]
fn write_utf8_pure_ascii_drains_all() {
    let mut pending = b"hello world".to_vec();
    let mut out = Vec::new();
    write_utf8(&mut out, &mut pending, false);
    assert_eq!(out, b"hello world");
    assert!(pending.is_empty());
}

#[test]
fn write_utf8_multiple_invalid_sequences() {
    let mut pending = vec![b'a', 0xFF, b'b', 0xFE, b'c'];
    let mut out = Vec::new();
    write_utf8(&mut out, &mut pending, false);
    assert_eq!(out, "a\u{FFFD}b\u{FFFD}c".as_bytes());
    assert!(pending.is_empty());
}

#[test]
fn write_utf8_holds_trailing_partial_without_flush() {
    let mut pending = vec![b'a', 0xE2, 0x82];
    let mut out = Vec::new();
    write_utf8(&mut out, &mut pending, false);
    assert_eq!(out, b"a");
    assert_eq!(pending, vec![0xE2, 0x82]);
}

#[test]
fn write_utf8_completes_partial_on_more_bytes() {
    let mut pending = vec![0xE2, 0x82];
    let mut out = Vec::new();
    write_utf8(&mut out, &mut pending, false);
    assert!(out.is_empty());
    pending.push(0xAC);
    write_utf8(&mut out, &mut pending, false);
    assert_eq!(out, "\u{20AC}".as_bytes());
    assert!(pending.is_empty());
}

#[test]
fn parse_empty_line_is_empty() {
    assert_eq!(parse_command(""), Command::Empty);
    assert_eq!(parse_command("   \t\n"), Command::Empty);
}

#[test]
fn parse_plain_text_is_prompt() {
    assert_eq!(
        parse_command("hello world"),
        Command::Prompt("hello world".to_string())
    );
}

#[test]
fn parse_strips_only_line_terminator_from_prompt() {
    // Preserve interior + surrounding whitespace so prompts like
    // indented code or alignment-sensitive text reach the model
    // unchanged. Only the trailing CR/LF is dropped.
    assert_eq!(
        parse_command("   hi\n"),
        Command::Prompt("   hi".to_string())
    );
    assert_eq!(
        parse_command("foo bar  \r\n"),
        Command::Prompt("foo bar  ".to_string())
    );
    assert_eq!(
        parse_command("\t\tindented"),
        Command::Prompt("\t\tindented".to_string())
    );
}

#[test]
fn parse_reset_aliases() {
    assert_eq!(parse_command("/reset"), Command::Reset);
    assert_eq!(parse_command("/clear"), Command::Reset);
    assert_eq!(parse_command("/RESET"), Command::Reset);
}

#[test]
fn parse_no_arg_command_with_extra_text_is_unknown() {
    // A typo like `/reset later` must not silently wipe session state:
    // anything other than the bare command is Unknown.
    for input in [
        "/reset later",
        "/clear now",
        "/ctx 5",
        "/help me",
        "/? thing",
        "/exit now",
        "/quit please",
    ] {
        match parse_command(input) {
            Command::Unknown(msg) => assert!(
                msg.contains("does not take arguments"),
                "input {input:?} got msg {msg:?}",
            ),
            other => panic!("input {input:?}: expected Unknown, got {other:?}"),
        }
    }
}

#[test]
fn parse_leading_whitespace_before_command_still_parses() {
    // Trim leading whitespace for *commands* only (not prompts).
    assert_eq!(parse_command("   /help"), Command::Help);
    assert_eq!(parse_command("\t/reset\n"), Command::Reset);
}

#[test]
fn parse_rewind_with_arg() {
    assert_eq!(parse_command("/rewind 5"), Command::Rewind(5));
    assert_eq!(parse_command("/rewind  42  "), Command::Rewind(42));
}

#[test]
fn parse_rewind_without_arg_is_unknown() {
    // splitn(2) gives "" as the arg → parse fails → Unknown.
    match parse_command("/rewind") {
        Command::Unknown(_) => (),
        other => panic!("expected Unknown, got {other:?}"),
    }
}

#[test]
fn parse_rewind_negative_is_unknown() {
    match parse_command("/rewind -1") {
        Command::Unknown(_) => (),
        other => panic!("expected Unknown, got {other:?}"),
    }
}

#[test]
fn parse_ctx_help_exit() {
    assert_eq!(parse_command("/ctx"), Command::ShowCtx);
    assert_eq!(parse_command("/help"), Command::Help);
    assert_eq!(parse_command("/?"), Command::Help);
    assert_eq!(parse_command("/exit"), Command::Exit);
    assert_eq!(parse_command("/quit"), Command::Exit);
}

#[test]
fn parse_unknown_slash_command() {
    match parse_command("/nope") {
        Command::Unknown(msg) => assert!(msg.contains("nope")),
        other => panic!("expected Unknown, got {other:?}"),
    }
}

#[test]
fn parse_slash_inside_word_is_prompt() {
    // Only a leading '/' triggers command parsing.
    assert_eq!(
        parse_command("path/to/file"),
        Command::Prompt("path/to/file".to_string())
    );
}

#[test]
fn utf8_split_counts_what_is_invalid() {
    // A truncated sequence counts up to the byte that breaks it.
    assert_eq!(utf8_split(&[b'x', 0xE2, 0x82, b'y']), (1, 2));
    // Surrogates and overlong forms are broken at their second byte.
    assert_eq!(utf8_split(&[0xED, 0xA0, 0x80]), (0, 1));
    assert_eq!(utf8_split(&[0xC0, 0x80]), (0, 1));
    assert_eq!(utf8_split(&[0xF4, 0x90, 0x80, 0x80]), (0, 1));
    // Four bytes, and a start of four bytes.
    assert_eq!(utf8_split("\u{1F600}".as_bytes()), (4, 0));
    assert_eq!(utf8_split(&[0xF0, 0x9F, 0x98]), (0, 0));
}

#[test]
fn utf8_split_agrees_with_std() {
    // Every pair of bytes between two letters.
    for a in 0..=255u8 {
        for b in 0..=255u8 {
            let bytes = [b'a', a, b, b'z'];
            let want = match std::str::from_utf8(&bytes) {
                Ok(s) => (s.len(), 0),
                Err(e) => (e.valid_up_to(), e.error_len().unwrap_or(0)),
            };
            assert_eq!(utf8_split(&bytes), want, "bytes {bytes:?}");
        }
    }
}

#[test]
fn lossy_text_agrees_with_std() {
    let samples: [&[u8]; 8] = [
        b"",
        b"plain",
        "h\u{e9}llo \u{20AC} \u{1F600}".as_bytes(),
        &[b'a', 0xFF, b'b'],
        &[0xE2, 0x82],
        &[0xE2, 0x82, b'x', 0xF0, 0x9F, 0x98, 0x80],
        &[0xED, 0xA0, 0x80, 0xED, 0x9F, 0xBF],
        &[0xF4, 0x8F, 0xBF, 0xBF, 0xF4, 0x90],
    ];
    for bytes in samples {
        assert_eq!(from_utf8_lossy(bytes), String::from_utf8_lossy(bytes));
    }
}

#[test]
fn a_stream_may_be_cut_anywhere() {
    let text = "a\u{e9}\u{20AC}\u{1F600}z";
    for cut in 0..=text.len() {
        let mut pending = text.as_bytes()[..cut].to_vec();
        let mut out = Vec::new();
        write_utf8(&mut out, &mut pending, false);
        assert!(std::str::from_utf8(&out).is_ok());
        pending.extend_from_slice(&text.as_bytes()[cut..]);
        write_utf8(&mut out, &mut pending, false);
        assert_eq!(out, text.as_bytes(), "cut at {cut}");
        assert!(pending.is_empty());
    }
}

#[test]
fn a_flush_of_whole_text_adds_nothing() {
    let mut pending = b"done".to_vec();
    let mut out = b"> ".to_vec();
    write_utf8(&mut out, &mut pending, true);
    assert_eq!(out, b"> done");
    assert!(pending.is_empty());
}

#[test]
fn rewind_quotes_what_is_no_number() {
    assert_eq!(
        parse_command("/rewind a\"b\\c"),
        Command::Unknown("/rewind needs a non-negative integer, got \"a\\\"b\\\\c\"".to_string())
    );
    assert_eq!(
        parse_command("/rewind"),
        Command::Unknown("/rewind needs a non-negative integer, got \"\"".to_string())
    );
    assert_eq!(rewind_message("<x>"), "/rewind needs a non-negative integer, got <x>");
}

#[test]
fn rewind_takes_what_a_u32_holds() {
    assert_eq!(parse_command("/rewind 4294967295"), Command::Rewind(u32::MAX));
    assert!(matches!(parse_command("/rewind 4294967296"), Command::Unknown(_)));
    assert_eq!(parse_command("/rewind +7"), Command::Rewind(7));
    assert!(matches!(parse_command("/rewind 1 2"), Command::Unknown(_)));
    assert!(matches!(parse_command("/rewind +"), Command::Unknown(_)));
}

#[test]
fn messages_of_refused_commands() {
    assert_eq!(
        parse_command("/reset later"),
        Command::Unknown("/reset does not take arguments".to_string())
    );
    assert_eq!(
        parse_command("/nope at all"),
        Command::Unknown("unknown command /nope".to_string())
    );
    assert_eq!(parse_command("/"), Command::Unknown("unknown command /".to_string()));
}

#[test]
fn unicode_white_space_is_trimmed_before_a_command() {
    assert_eq!(parse_command("\u{3000}\u{a0}/exit\u{2003}"), Command::Exit);
    assert_eq!(parse_command("\u{2028}"), Command::Empty);
}

#[test]
fn help_names_every_command() {
    for name in ["/reset", "/rewind", "/ctx", "/help", "/exit"] {
        assert!(REPL_HELP.contains(name));
    }
}

#[test]
fn turns_follow_the_best_token() {
    let logits = [0.5f32.to_bits(), 2.0f32.to_bits(), (-1.0f32).to_bits()];
    assert_eq!(next_step(&logits, 0, 3), TurnStep::Emit(1));
    assert_eq!(next_step(&logits, 1, 3), TurnStep::Stop);
    assert_eq!(next_step(&logits, 0, 0), TurnStep::Stop);
    assert_eq!(next_step(&[], 0, 3), TurnStep::NoLogits);
}
