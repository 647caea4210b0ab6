use zkbench::text::{
    contains, decimal, decimal_hundredths, decimal_tenths, pad_right, repeat, trimmed, white,
};
use zkbench::tools::{output_text, spinner_end};

#[test]
fn white_space_is_that_of_unicode() {
    for c in '\u{0}'..=char::MAX {
        assert_eq!(white(c), c.is_whitespace(), "{c:?}");
    }
}

#[test]
fn trimming_follows_the_standard_library() {
    for s in ["", " ", "a", " a ", "\t\n a b \u{3000}\u{85}", "\u{a0}x", "x\u{200b}", "\u{2028}"] {
        assert_eq!(trimmed(s), s.trim(), "{s:?}");
    }
}

#[test]
fn decimals_follow_the_standard_library() {
    for n in [0u128, 7, 10, 99, 100, 1024, u64::MAX as u128, u128::MAX] {
        assert_eq!(decimal(n), n.to_string());
    }
    assert_eq!(decimal_tenths(0), "0.0");
    assert_eq!(decimal_tenths(125), "12.5");
    assert_eq!(decimal_hundredths(5), "0.05");
    assert_eq!(decimal_hundredths(14300), "143.00");
    assert_eq!(decimal_hundredths(3977), "39.77");
}

#[test]
fn padding_counts_characters() {
    assert_eq!(pad_right("ab", 4), "ab  ");
    assert_eq!(pad_right("日本", 4), format!("{:<4}", "日本"));
    assert_eq!(pad_right("abcdef", 4), "abcdef");
    assert_eq!(repeat('█', 3), "███");
    assert_eq!(repeat('█', 0), "");
}

#[test]
fn searching_follows_the_standard_library() {
    for s in ["", "a", "aab", "linux microsoft wsl2", "microsof", "ummicrosoft"] {
        for p in ["", "a", "ab", "microsoft"] {
            assert_eq!(contains(s, p), s.contains(p), "{s:?} {p:?}");
        }
    }
}

#[test]
fn tool_output_is_decoded_and_trimmed() {
    assert_eq!(output_text(b"  error: x\n\n"), "error: x");
    assert_eq!(output_text(b"a\xffb\n"), "a\u{fffd}b");
    assert_eq!(output_text("é\n".as_bytes()), "é");
}

#[test]
fn spinner_shows_how_it_ended() {
    assert_eq!(spinner_end("[demo] compiling (warm-up)...", true), "✓ [demo] compiling (warm-up)...");
    assert_eq!(spinner_end("x", false), "✗ x");
}
