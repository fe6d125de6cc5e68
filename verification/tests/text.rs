use rkbx_link::number::{parse_i32, to_decimal, to_hexadecimal};
use rkbx_link::output::TrackInfo;
use rkbx_link::text::{decode_block, leading_values, to_chars};
use rkbx_link::trim::{trim, white_space};

#[test]
fn white_space_is_that_of_unicode() {
    for n in 0..=0x10ffffu32 {
        if let Some(c) = char::from_u32(n) {
            assert_eq!(white_space(c), c.is_whitespace(), "{n:x}");
        }
    }
}

#[test]
fn white_space_is_cut_off_both_ends() {
    for s in [
        "", " ", "a", " a ", "\t\r\n a b \u{85}", "a b", "\u{3000}x\u{a0}", "0.1.0\n", "\u{200b}a",
        " \u{2028}\u{205f}", "a\u{1680}",
    ] {
        assert_eq!(trim(s), s.trim(), "{s:?}");
    }
    assert_eq!(trim(&trim("  x  ")), "x");
}

#[test]
fn numbers_are_written_in_hexadecimal() {
    for n in [0usize, 1, 9, 10, 15, 16, 255, 256, 0xdead_beef, usize::MAX] {
        assert_eq!(to_hexadecimal(n), format!("{n:X}"));
    }
    assert_eq!(to_hexadecimal(0x1a2b), "1A2B");
}

#[test]
fn numbers_are_written_in_decimal() {
    for n in [0, 7, 10, 42, 1_000_000, i32::MAX, -1, -10, -999, i32::MIN] {
        assert_eq!(to_decimal(n), n.to_string());
        assert_eq!(parse_i32(&to_decimal(n)), Some(n));
    }
}

#[test]
fn numbers_are_read() {
    for s in [
        "", "0", "7", "+7", "-7", "-", "+", "--1", "+-1", "007", "2147483647", "2147483648",
        "-2147483648", "-2147483649", "99999999999999999999", "-99999999999999999999",
        "+2147483648", "1 ", " 1", "1_000", "12a", "0x10", "\u{0661}", "-0", "+0",
        "00000000000000000000000012",
    ] {
        assert_eq!(parse_i32(s), s.parse::<i32>().ok(), "{s:?}");
    }
    assert_eq!(parse_i32("-41"), Some(-41));
}

#[test]
fn blocks_end_at_the_first_zero() {
    assert_eq!(decode_block(&b"abc\0def\0".to_vec()), "abc");
    assert_eq!(decode_block(&b"abc".to_vec()), "abc");
    assert_eq!(decode_block(&vec![0u8; 200]), "");
    assert_eq!(decode_block(&vec![]), "");
    assert_eq!(decode_block(&"h\u{e9} \u{1f3b5}\0\u{e9}".as_bytes().to_vec()), "h\u{e9} \u{1f3b5}");
}

#[test]
fn blocks_that_are_no_text_are_an_error() {
    assert_eq!(decode_block(&vec![b'a', 0xff, b'b', 0]), "ERR");
    assert_eq!(decode_block(&vec![0xc3, 0]), "ERR");
    // What follows the zero does not matter.
    assert_eq!(decode_block(&vec![b'a', 0, 0xff]), "a");
}

#[test]
fn texts_are_taken_apart() {
    assert_eq!(to_chars("a\u{e9}\u{1f3b5}"), vec!['a', '\u{e9}', '\u{1f3b5}']);
    assert_eq!(to_chars(""), Vec::<char>::new());
}

fn by_the_book(text: &str) -> Vec<String> {
    let mut values: Vec<String> = text
        .lines()
        .map(|x| x.split_once(": ").unwrap_or(("", "")).1.to_string())
        .collect();
    values.resize(3, String::new());
    values
}

#[test]
fn values_of_lines_are_found() {
    for text in [
        "",
        "\n",
        "Title: A\nArtist: B\nAlbum: C",
        "Title: A\nArtist: B\nAlbum: C\n",
        "Title: A\r\nArtist: B\r\nAlbum: C\r\n",
        "Title: A\r\nArtist: B\r\nAlbum: C\r",
        "Title: A",
        "no label\nArtist: B",
        "Title:A\nArtist : B\n: C",
        "a: b: c\n:: d\n: ",
        "\n\nx: y\nz: ignored",
        "t: \u{1f3b5} \u{e9}\n\na:b: c",
        ":\n: \n ",
        "a\rb: c\r\r\nd: \r",
    ] {
        let (a, b, c) = leading_values(text);
        assert_eq!(vec![a, b, c], by_the_book(text), "{text:?}");
    }
}

#[test]
fn tracks_are_described_by_three_lines() {
    let track = TrackInfo::from_text("Title: One: Two\nArtist: Somebody\nAlbum: \nMore: x");
    assert_eq!(track.title, "One: Two");
    assert_eq!(track.artist, "Somebody");
    assert_eq!(track.album, "");
    assert!(TrackInfo::from_text("ERR") == TrackInfo::default());
    assert!(TrackInfo::default().title == "" && TrackInfo::default().artist == "");
    assert!(track.clone() == track);
    assert!(track != TrackInfo::default());
}
