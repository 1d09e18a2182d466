use minigrep::matcher::{bytes_match, to_ascii_lower};
use minigrep::source::ByteStream;
use minigrep::text::same_text;

#[test]
fn only_ascii_capitals_are_folded() {
    assert_eq!(to_ascii_lower(b'A'), b'a');
    assert_eq!(to_ascii_lower(b'Z'), b'z');
    assert_eq!(to_ascii_lower(b'm'), b'm');
    assert_eq!(to_ascii_lower(b'@'), b'@');
    assert_eq!(to_ascii_lower(b'['), b'[');
    assert_eq!(to_ascii_lower(0xc9), 0xc9);
    for b in 0..=255u8 {
        assert_eq!(to_ascii_lower(b), b.to_ascii_lowercase());
    }
}

#[test]
fn bytes_match_as_the_standard_library_compares_them() {
    assert!(bytes_match(b'a', b'A', true));
    assert!(bytes_match(b'A', b'a', true));
    assert!(!bytes_match(b'a', b'A', false));
    assert!(bytes_match(b'a', b'a', false));
    assert!(!bytes_match(b'[', b'{', true));
    for q in 0..=255u8 {
        for b in 0..=255u8 {
            assert_eq!(bytes_match(q, b, false), q == b);
            let folded = if b.is_ascii() { q.eq_ignore_ascii_case(&b) } else { q == b };
            assert_eq!(bytes_match(q, b, true), folded);
        }
    }
}

#[test]
fn texts_are_the_same_when_their_characters_are() {
    assert!(same_text("", ""));
    assert!(same_text("--help", "--help"));
    assert!(!same_text("--help", "--hel"));
    assert!(!same_text("--help", "--helq"));
    assert!(!same_text("a", ""));
    assert!(same_text("gr\u{fc}\u{df}e", "gr\u{fc}\u{df}e"));
    assert!(!same_text("gr\u{fc}\u{df}e", "gru\u{df}e"));
}

#[test]
fn a_stream_from_bytes_is_complete() {
    let stream = ByteStream::from_bytes(b"some\nbytes\xff");
    assert_eq!(stream.content, b"some\nbytes\xff");
    assert!(stream.failure.is_none());
    assert!(ByteStream::from_bytes(b"").content.is_empty());
}
