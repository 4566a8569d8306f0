use minesweeper::wide_string::{ToWide, WideString};

fn units(text: &str) -> Vec<u16> {
    let WideString(units) = text.to_wide();
    units
}

#[test]
fn ascii_is_widened_and_closed_by_zero() {
    assert_eq!(units("Minesweeper"), vec![77, 105, 110, 101, 115, 119, 101, 101, 112, 101, 114, 0]);
    assert_eq!(units("A"), vec![0x41, 0]);
}

#[test]
fn empty_string_is_the_zero() {
    assert_eq!(units(""), vec![0]);
}

#[test]
fn characters_of_the_basic_plane_take_one_unit() {
    assert_eq!(units("\u{e9}"), vec![0xE9, 0]);
    assert_eq!(units("\u{20ac}\u{ffff}"), vec![0x20AC, 0xFFFF, 0]);
    assert_eq!(units("\u{d7ff}\u{e000}"), vec![0xD7FF, 0xE000, 0]);
}

#[test]
fn characters_beyond_take_a_surrogate_pair() {
    assert_eq!(units("\u{10000}"), vec![0xD800, 0xDC00, 0]);
    assert_eq!(units("\u{1f600}"), vec![0xD83D, 0xDE00, 0]);
    assert_eq!(units("\u{10ffff}"), vec![0xDBFF, 0xDFFF, 0]);
    assert_eq!(units("a\u{1f4a3}b"), vec![0x61, 0xD83D, 0xDCA3, 0x62, 0]);
}

#[test]
fn agrees_with_the_standard_encoding() {
    for text in ["", "minesweeper-rs.Window", "\u{fc}ber", "\u{4e2d}\u{6587} \u{1f6a9}?", "\u{0}x"] {
        let mut expected: Vec<u16> = text.encode_utf16().collect();
        expected.push(0);
        assert_eq!(units(text), expected);
    }
}
