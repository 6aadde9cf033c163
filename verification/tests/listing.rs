//! Reading the output of `wsl.exe -l -v`.
use wsl_controller::decode::{decode_wsl_output, is_utf16, to_words, utf16_output, utf16_text};
use wsl_controller::listing::{parse_wsl_list, WslDistro};
use wsl_controller::state::{Rgb, WslState};
use wsl_controller::text;

fn row(d: &WslDistro) -> (&str, WslState, &str, bool) {
    (d.name.as_str(), d.state, d.version.as_str(), d.is_default)
}

const LISTING: &str = "  NAME            STATE           VERSION\r\n\
* Ubuntu          Running         2\r\n\
  Debian          Stopped         1\r\n\
  docker-desktop  Installing      2\r\n";

fn utf16le(s: &str) -> Vec<u8> {
    s.encode_utf16().flat_map(|w| w.to_le_bytes()).collect()
}

#[test]
fn a_listing_is_read_row_by_row() {
    let distros = parse_wsl_list(LISTING);
    let rows: Vec<_> = distros.iter().map(row).collect();
    assert_eq!(
        rows,
        vec![
            ("Ubuntu", WslState::Running, "2", true),
            ("Debian", WslState::Stopped, "1", false),
            ("docker-desktop", WslState::Unknown, "2", false),
        ]
    );
}

#[test]
fn missing_columns_have_stand_ins() {
    let distros = parse_wsl_list("Alpine\nKali STOPPED\n");
    let rows: Vec<_> = distros.iter().map(row).collect();
    assert_eq!(
        rows,
        vec![
            ("Alpine", WslState::Unknown, "-", false),
            ("Kali", WslState::Stopped, "-", false),
        ]
    );
}

#[test]
fn the_header_blank_lines_and_lone_stars_hold_nothing() {
    assert!(parse_wsl_list("").is_empty());
    assert!(parse_wsl_list("\n\r\n \t \u{3000}\n").is_empty());
    assert!(parse_wsl_list("  name state version\nNaMe\tSTATE   Version  ").is_empty());
    assert!(parse_wsl_list("*\n***\n * \n").is_empty());
}

#[test]
fn a_distribution_may_begin_like_the_header() {
    let distros = parse_wsl_list(
        "  NAME STATE VERSION\n* Ubuntu Running 2\n  NameOS Stopped 2\n",
    );
    let rows: Vec<_> = distros.iter().map(row).collect();
    assert_eq!(
        rows,
        vec![
            ("Ubuntu", WslState::Running, "2", true),
            ("NameOS", WslState::Stopped, "2", false),
        ]
    );
    for (line, expected) in [
        ("NAMEless Running 2", ("NAMEless", WslState::Running, "2", false)),
        ("name Stopped 1", ("name", WslState::Stopped, "1", false)),
        ("* Named Running 2", ("Named", WslState::Running, "2", true)),
        ("* name state version", ("name", WslState::Unknown, "version", true)),
        ("name state version more", ("name", WslState::Unknown, "version", false)),
        ("name", ("name", WslState::Unknown, "-", false)),
    ] {
        let distros = parse_wsl_list(line);
        assert_eq!(distros.len(), 1);
        assert_eq!(row(&distros[0]), expected);
    }
}

#[test]
fn any_number_of_stars_marks_the_default() {
    let distros = parse_wsl_list("  **\u{2003}Arch   running\t2  extra columns");
    assert_eq!(row(&distros[0]), ("Arch", WslState::Running, "2", true));
    assert_eq!(distros.len(), 1);
}

#[test]
fn parts_of_a_listing_are_read_in_turn() {
    let a = "x Running 1\ny";
    let b = "\nz Stopped 2";
    let whole = parse_wsl_list(&format!("{a}\n{b}"));
    let mut parts: Vec<WslDistro> = parse_wsl_list(a);
    parts.extend(parse_wsl_list(b));
    let left: Vec<_> = whole.iter().map(row).collect();
    let right: Vec<_> = parts.iter().map(row).collect();
    assert_eq!(left, right);
    assert_eq!(left.len(), 3);
}

#[test]
fn a_carriage_return_is_no_line_end() {
    let distros = parse_wsl_list("a Running 1\rb Stopped 2");
    assert_eq!(distros.len(), 1);
    assert_eq!(row(&distros[0]), ("a", WslState::Running, "1", false));
}

#[test]
fn a_copy_of_a_distribution_is_equal() {
    let d = parse_wsl_list("* u Running 2").remove(0);
    assert_eq!(row(&d.clone()), row(&d));
}

#[test]
fn states_are_read_in_any_case() {
    assert_eq!(WslState::from_wsl("Running"), WslState::Running);
    assert_eq!(WslState::from_wsl("sTOPPed"), WslState::Stopped);
    assert_eq!(WslState::from_wsl("running "), WslState::Unknown);
    assert_eq!(WslState::from_wsl("rünning"), WslState::Unknown);
    assert_eq!(WslState::from_wsl(""), WslState::Unknown);
}

#[test]
fn states_have_labels_and_colours() {
    assert_eq!(WslState::Running.label(), "运行中");
    assert_eq!(WslState::Stopped.label(), "已停止");
    assert_eq!(WslState::Unknown.label(), "未知");
    assert_eq!(WslState::Running.color(), Rgb { r: 63, g: 185, b: 132 });
    assert_eq!(WslState::Stopped.color(), Rgb { r: 166, g: 172, b: 185 });
    assert_eq!(WslState::Unknown.color(), Rgb { r: 216, g: 170, b: 78 });
}

#[test]
fn marked_utf16_is_read_back() {
    for text in [LISTING, "", "é", "𝄞 music 中文 \u{FEFF}"] {
        let mut bytes = vec![0xFF, 0xFE];
        bytes.extend(utf16le(text));
        assert_eq!(decode_wsl_output(&bytes), text);
    }
}

#[test]
fn plain_utf16_is_read_back() {
    assert_eq!(decode_wsl_output(&utf16le(LISTING)), LISTING);
    let text = "nine char 中文中文中文中文中文";
    assert_eq!(decode_wsl_output(&utf16le(text)), text);
}

#[test]
fn eight_zero_bytes_do_not_make_utf16() {
    // Eight ASCII characters as UTF-16: one too few for the guess, so the NUL
    // bytes are taken out of UTF-8.
    assert!(!is_utf16(&utf16le("12345678")));
    assert_eq!(decode_wsl_output(&utf16le("12345678")), "12345678");
    assert!(is_utf16(&utf16le("123456789")));
    // Only the first sixteen words count.
    let mut bytes = vec![b'x'; 32];
    bytes.extend(utf16le("0123456789abcdef"));
    assert!(!is_utf16(&bytes));
}

#[test]
fn utf8_is_read_back() {
    for text in [LISTING, "", "中文 é 𝄞"] {
        assert_eq!(decode_wsl_output(text.as_bytes()), text);
    }
    assert_eq!(decode_wsl_output(b"a\0b\0"), "ab");
}

#[test]
fn invalid_utf8_is_replaced() {
    assert_eq!(decode_wsl_output(b"a\xFFb"), "a\u{FFFD}b");
    assert_eq!(decode_wsl_output(b"\xE4\xB8"), "\u{FFFD}");
}

#[test]
fn unpaired_surrogates_are_replaced() {
    let words = [0xD834, 0xDD1E, 0x6D, 0x75, 0x73, 0xDD1E, 0x69, 0x63, 0xD834];
    assert_eq!(utf16_text(&words), "𝄞mus\u{FFFD}ic\u{FFFD}");
    assert_eq!(utf16_text(&words), String::from_utf16_lossy(&words));
    let high_high_low = [0xD800, 0xD800, 0xDC00];
    assert_eq!(utf16_text(&high_high_low), String::from_utf16_lossy(&high_high_low));
    let low_high = [0xDFFF, 0xDBFF, 0x41];
    assert_eq!(utf16_text(&low_high), String::from_utf16_lossy(&low_high));
}

#[test]
fn every_single_word_decodes_like_the_standard_library() {
    for w in 0..=u16::MAX {
        assert_eq!(utf16_text(&[w]), String::from_utf16_lossy(&[w]));
    }
}

#[test]
fn a_last_single_byte_is_left_out() {
    assert_eq!(to_words(&[0x34, 0x12, 0xFF, 0x00, 0x99]), vec![0x1234, 0x00FF]);
    assert_eq!(utf16_output(&[0xFF, 0xFE, 0x41, 0x00, 0x42]), "A");
    assert_eq!(decode_wsl_output(&[0xFF, 0xFE]), "");
}

#[test]
fn white_space_is_that_of_the_standard_library() {
    for v in 0..=0x10FFFFu32 {
        if let Some(c) = char::from_u32(v) {
            let listed = (0x9..=0xD).contains(&v)
                || [0x20, 0x85, 0xA0, 0x1680, 0x2028, 0x2029, 0x202F, 0x205F, 0x3000].contains(&v)
                || (0x2000..=0x200A).contains(&v);
            assert_eq!(c.is_whitespace(), listed, "{v:x}");
        }
    }
}

#[test]
fn text_is_trimmed_and_split_like_the_standard_library() {
    for s in ["", "  a b\t\u{2009}c\r", "***x**", " \n ", "中 文", "\u{85}x\u{1680}"] {
        let chars = text::to_chars(s);
        let trimmed: String = text::trim_chars(&chars).iter().collect();
        assert_eq!(trimmed, s.trim());
        let stripped: String = text::strip_leading_chars(&chars, '*').iter().collect();
        assert_eq!(stripped, s.trim_start_matches('*'));
        let words: Vec<&str> = s.split_whitespace().collect();
        assert_eq!(text::split_words(&chars), words);
        let low: String = text::to_lowercase_chars(&chars).iter().collect();
        assert_eq!(low, s.to_ascii_lowercase());
        assert_eq!(text::all_white_space(&chars), s.trim().is_empty());
        assert_eq!(text::from_chars(&chars), s);
    }
    assert_eq!(text::strip_nul("\0a\0\0b"), "ab");
}

#[test]
fn numbers_are_written_in_decimal() {
    for n in [0usize, 7, 10, 99, 100, 65536, usize::MAX] {
        assert_eq!(text::decimal_text(n), n.to_string());
    }
}
