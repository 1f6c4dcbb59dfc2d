//! Trimming agrees with `str::trim`.

use paint_cat::trim;

#[test]
fn trim_matches_std() {
    let samples = [
        "",
        " ",
        "hello",
        "  hello  ",
        "\t\n hello world \r\n",
        "\u{3000}wide\u{3000}",
        "\u{a0}nbsp\u{2009}",
        "a b",
        " \u{85} ",
        "\u{200b}zero width\u{200b}",
        "héllo wörld  ",
    ];
    for s in samples {
        assert_eq!(trim(s), s.trim(), "trim of {s:?}");
    }
}

#[test]
fn trim_of_whitespace_only_is_empty() {
    assert_eq!(trim(" \t\n\u{3000} "), "");
}

#[test]
fn trim_is_idempotent() {
    let once = trim("  x y  ");
    assert_eq!(trim(&once), once);
    assert_eq!(once, "x y");
}

#[test]
fn painted_text_joins_present_parts_then_trims() {
    let parts = vec![Some("  a ".to_string()), None, Some("b\n".to_string()), None];
    assert_eq!(paint_cat::painted_text(&parts), "a b");
}

#[test]
fn painted_text_of_no_text_parts_is_empty() {
    assert_eq!(paint_cat::painted_text(&vec![None, None]), "");
    assert_eq!(paint_cat::painted_text(&Vec::new()), "");
    assert_eq!(paint_cat::painted_text(&vec![Some(" \t ".to_string())]), "");
}

#[test]
fn is_white_space_matches_std_on_every_char() {
    for u in 0..=0x10FFFF_u32 {
        if let Some(c) = char::from_u32(u) {
            assert_eq!(paint_cat::is_white_space(c), c.is_whitespace(), "U+{u:04X}");
        }
    }
}
