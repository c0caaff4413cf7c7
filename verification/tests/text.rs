use apk_mitm::text::contains;
use apk_mitm::text::drop_white;
use apk_mitm::text::find;
use apk_mitm::text::from_chars;
use apk_mitm::text::is_whitespace;
use apk_mitm::text::join_pieces;
use apk_mitm::text::replace_once;
use apk_mitm::text::same;
use apk_mitm::text::skip_white;
use apk_mitm::text::slice;
use apk_mitm::text::slice_from;
use apk_mitm::text::split_pieces;
use apk_mitm::text::split_words;
use apk_mitm::text::starts_with;
use apk_mitm::text::to_chars;
use apk_mitm::text::with_carriage_returns;
use apk_mitm::text::without_carriage_returns;

const SAMPLES: [&str; 12] = [
    "", " ", "a", " a", "a ", "  a b\t\u{3000}c  ", "\u{85}x\u{a0}", "a\n\nb\n", "\r\na\r\n\r",
    "\n\r\n", "\u{e9}\u{1f600} \u{200b}", "aaab",
];

#[test]
fn white_space_is_that_of_std() {
    for n in 0..=0x10ffff {
        if let Some(c) = char::from_u32(n) {
            assert_eq!(is_whitespace(c), c.is_whitespace(), "{n:x}");
        }
    }
}

#[test]
fn operations_are_those_of_std() {
    for s in SAMPLES {
        let v = to_chars(s);
        assert_eq!(from_chars(&v), s);
        assert_eq!(from_chars(skip_white(&v)), s.trim_start());
        assert_eq!(from_chars(drop_white(&v)), s.trim_end());
        assert_eq!(split_words(&v), s.split_whitespace().collect::<Vec<_>>());
        assert_eq!(split_pieces(&v, '\n'), s.split('\n').collect::<Vec<_>>());
        assert_eq!(join_pieces(&split_pieces(&v, '\n'), '\n'), s);
        assert_eq!(without_carriage_returns(&v), s.replace("\r\n", "\n"));
        assert_eq!(with_carriage_returns(&v), s.replace('\n', "\r\n"));
        for t in ["", "a", "ab", "b", "\n", "\u{1f600}"] {
            assert_eq!(contains(s, t), s.contains(t));
            assert_eq!(starts_with(s, t), s.starts_with(t));
            assert_eq!(same(s, t), s == t);
            assert_eq!(replace_once(s, t, "XY"), s.replacen(t, "XY", 1));
        }
    }
}

#[test]
fn first_occurrence_is_found() {
    assert_eq!(find(&to_chars("aaab"), &to_chars("ab")), Some(2));
    assert_eq!(find(&to_chars("aaab"), &to_chars("ba")), None);
    assert_eq!(find(&to_chars(""), &to_chars("")), Some(0));
}

#[test]
fn slices_go_by_bytes() {
    let s = "a\u{e9}b";
    assert_eq!(slice(s, 1, 3), "\u{e9}");
    assert_eq!(slice(s, 0, 0), "");
    assert_eq!(slice_from(s, 3), "b");
}

#[test]
fn line_ends_return() {
    let s = "a\r\nb\r\n";
    let bare = without_carriage_returns(&to_chars(s));
    assert_eq!(bare, "a\nb\n");
    assert_eq!(with_carriage_returns(&to_chars(&bare)), s);
}
