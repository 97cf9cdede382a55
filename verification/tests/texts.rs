use shellfleet_agent::argv;
use shellfleet_agent::output::{decode_output, try_truncate, CommandOutput};
use shellfleet_agent::registry::Registry;
use shellfleet_agent::streams::{end_error, Batcher, ChildEnd};
use shellfleet_agent::text;

#[test]
fn blanks_are_those_of_unicode() {
    for n in 0..=0x10ffffu32 {
        if let Some(c) = char::from_u32(n) {
            assert_eq!(text::space(c), c.is_whitespace(), "{n:x}");
        }
    }
}

#[test]
fn pieces_agree_with_the_standard_library() {
    for s in [
        "",
        " ",
        "a",
        "  a b\t c\n",
        "x\r\ny\n\nz",
        "\r\n",
        "a\rb\n",
        "über  größe ",
        "\u{3000}wide\u{2003}",
        "a//b/",
        "/",
    ] {
        assert_eq!(text::trim(s), s.trim());
        assert_eq!(text::trim_start(s), s.trim_start());
        let lines: Vec<String> = s.lines().map(String::from).collect();
        assert_eq!(text::split_lines(s), lines);
        let words: Vec<String> = s.split_whitespace().map(String::from).collect();
        assert_eq!(text::split_words(s), words);
        let parts: Vec<String> = s.split('/').map(String::from).collect();
        assert_eq!(text::split_text(s, '/'), parts);
        assert_eq!(text::split_columns(s, 1).concat(), s.trim());
        assert_eq!(text::split_columns(s, 100), words);
        assert_eq!(text::last_part(s, '/'), s.rsplit('/').next().unwrap());
        assert_eq!(text::byte_length(s), s.len());
        assert_eq!(text::to_lower(s), s.to_ascii_lowercase());
        assert_eq!(text::trim_end_char(s, '/'), s.trim_end_matches('/'));
        assert_eq!(text::trim_start_char(s, 'x'), s.trim_start_matches('x'));
        assert_eq!(text::strip_prefixes(s, "/"), s.trim_start_matches("/"));
        let halves = s.split_once('/');
        let (head, tail) = text::split_first(s, '/');
        assert_eq!(tail.as_deref(), halves.map(|h| h.1));
        assert_eq!(head, halves.map(|h| h.0).unwrap_or(s));
    }
}

#[test]
fn numbers_agree_with_the_standard_library() {
    for s in [
        "", "0", "7", "007", "+5", "-5", "-", "+", "12a", "18446744073709551615",
        "18446744073709551616", "4294967295", "4294967296", "9223372036854775807",
        "9223372036854775808", "-9223372036854775808", "-9223372036854775809", " 1", "1 ",
    ] {
        assert_eq!(text::parse_u64(s), s.parse::<u64>().ok(), "{s}");
        assert_eq!(text::parse_u32(s), s.parse::<u32>().ok(), "{s}");
        assert_eq!(text::parse_i64(s), s.parse::<i64>().ok(), "{s}");
    }
    for n in [0, 9, 10, 99, 100, u64::MAX] {
        assert_eq!(text::decimal_text(n), n.to_string());
    }
    for n in [0, -1, 1, i64::MIN, i64::MAX] {
        assert_eq!(text::signed_text(n), n.to_string());
    }
    for c in [None, Some(0), Some(-9), Some(127)] {
        assert_eq!(text::code_text(c), format!("{c:?}"));
    }
}

#[test]
fn first_line_with_something_on_it() {
    assert_eq!(text::first_said_line("\n  \n  hi \nthere"), "  hi ");
    assert_eq!(text::first_said_line(" \n"), "");
}

#[test]
fn tokens_are_bounded_and_no_options() {
    assert!(argv::is_unit("nginx.service"));
    assert!(argv::is_unit("dev-disk\\x2d@1:2"));
    assert!(!argv::is_unit("--user"));
    assert!(!argv::is_unit(""));
    assert!(!argv::is_unit("a b"));
    assert!(argv::is_unit(&"a".repeat(256)));
    assert!(!argv::is_unit(&"a".repeat(257)));
    assert!(argv::is_container("web_1.x-2"));
    assert!(!argv::is_container("web:1"));
}

#[test]
fn options_with_values() {
    let mut args = argv::list2("a", "b");
    argv::push_values(&mut args, "-p", &["  80 ".to_string(), " ".to_string()]);
    argv::push_optional(&mut args, "-n", &None);
    argv::push_optional(&mut args, "-n", &Some("x".to_string()));
    argv::push_option(&mut args, false, "-z");
    argv::push_option(&mut args, true, "-y");
    assert_eq!(args, ["a", "b", "-p", "80", "-n", "x", "-y"]);
    assert_eq!(argv::backlog_arg("--tail=", u32::MAX), "--tail=10000");
}

#[test]
fn invalid_bytes_are_replaced() {
    assert_eq!(decode_output(b"ok"), "ok");
    assert_eq!(decode_output(b"a\xffb"), "a\u{fffd}b");
    let out = CommandOutput::read(b"x\xfe", b"", false, Some(2));
    assert_eq!(out.stdout, "x\u{fffd}");
    assert_eq!(out.stderr, "");
    assert_eq!((out.success, out.code), (false, Some(2)));
}

#[test]
fn logs_keep_their_last_bytes() {
    assert_eq!(try_truncate("abcdef", 6).unwrap(), "abcdef");
    assert_eq!(
        try_truncate("abcdef", 4).unwrap(),
        "…[2 bytes truncated]…\ncdef"
    );
    // The cut would go through the middle of a character.
    assert!(try_truncate("äb", 2).is_none());
    assert_eq!(try_truncate("äb", 1).unwrap(), "…[2 bytes truncated]…\nb");
}

#[test]
fn a_registry_holds_one_value_for_each_name() {
    let mut r: Registry<u32> = Registry::new();
    assert_eq!(r.insert("a", 1), None);
    assert_eq!(r.insert("b", 2), None);
    assert_eq!(r.insert("a", 3), Some(1));
    assert_eq!(r.get("a"), Some(&3));
    assert_eq!(r.remove("b"), Some(2));
    assert_eq!(r.remove("b"), None);
    assert_eq!(r.names(), ["a"]);
    assert_eq!(r.take_all(), [3]);
    assert_eq!(r.get("a"), None);
}

#[test]
fn batches_keep_every_line_in_order() {
    let mut b = Batcher::new();
    let mut sent: Vec<String> = Vec::new();
    let mut sizes = Vec::new();
    for i in 0..250 {
        if let Some(chunk) = b.push(format!("{i}")) {
            sizes.push(chunk.len());
            sent.extend(chunk);
        }
    }
    if let Some(chunk) = b.flush() {
        sizes.push(chunk.len());
        sent.extend(chunk);
    }
    assert!(b.flush().is_none());
    assert_eq!(sizes, [100, 100, 50]);
    let all: Vec<String> = (0..250).map(|i| format!("{i}")).collect();
    assert_eq!(sent, all);
}

#[test]
fn ends_of_streams_are_explained() {
    let well = ChildEnd::Exited {
        success: true,
        code: Some(0),
    };
    assert_eq!(end_error("journalctl", &well), None);
    let badly = ChildEnd::Exited {
        success: false,
        code: None,
    };
    assert_eq!(
        end_error("docker logs", &badly).unwrap(),
        "docker logs exited with None"
    );
    let lost = ChildEnd::WaitFailed("gone".to_string());
    assert_eq!(
        end_error("journalctl", &lost).unwrap(),
        "journalctl wait failed: gone"
    );
}

#[test]
fn columns_are_padded_as_they_may_be() {
    assert_eq!(text::split_columns("  a \t b  c  d  ", 3), ["a", "b", "c  d"]);
    assert_eq!(text::split_columns("a b", 3), ["a", "b"]);
    assert!(text::split_columns("  ", 3).is_empty());
    assert!(text::split_columns("a", 0).is_empty());
}
