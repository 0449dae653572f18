use hex_fmt::fmt;
use hex_fmt::fmt_byte;
use hex_fmt::fmt_digit;
use hex_fmt::Case;
use hex_fmt::HexFmt;

#[test]
fn test_fmt() {
    assert_eq!("", HexFmt(vec![0x01]).display(Some(0)));
    assert_eq!(".", HexFmt(vec![0x01]).display(Some(1)));
    assert_eq!("01", HexFmt(vec![0x01]).display(Some(2)));
    assert_eq!("..", HexFmt(vec![0x01, 0x23]).display(Some(2)));
}

#[test]
fn empty_bytes_render_empty() {
    assert_eq!("", HexFmt(vec![]).display(None));
    assert_eq!("", HexFmt(vec![]).display(Some(0)));
    assert_eq!("", HexFmt(vec![]).upper_hex(Some(5)));
}

#[test]
fn full_rendering_at_default_precision() {
    assert_eq!("090a0b", HexFmt(vec![9, 10, 11]).display(None));
}

#[test]
fn full_rendering_at_exact_fit() {
    assert_eq!("abcd", HexFmt(vec![0xab, 0xcd]).display(Some(4)));
    assert_eq!("abcd", HexFmt(vec![0xab, 0xcd]).display(Some(100)));
}

#[test]
fn elided_renderings() {
    let nine_to_f = vec![9, 10, 11, 12, 13, 14, 15];
    assert_eq!("090..0f", HexFmt(nine_to_f.clone()).display(Some(7)));
    assert_eq!("090..E0F", HexFmt(nine_to_f.clone()).upper_hex(Some(8)));
    assert_eq!("090a..0e0f", HexFmt(nine_to_f).display(None));
}

#[test]
fn single_left_nibble() {
    assert_eq!("a..", HexFmt(vec![0xab, 0xcd]).display(Some(3)));
}

#[test]
fn elided_length_and_single_marker() {
    let bytes: Vec<u8> = (0u8..16).collect();
    let r = HexFmt(bytes).display(Some(9));
    assert_eq!("0001..e0f", r);
    assert_eq!(9, r.len());
    assert_eq!(1, r.matches("..").count());
}

#[test]
fn cases_differ_only_in_digit_case() {
    let bytes = vec![0x0f, 0xa5, 0x3c, 0xd2, 0x7e, 0xb9];
    let lower = HexFmt(bytes.clone()).lower_hex(Some(9));
    let upper = HexFmt(bytes).upper_hex(Some(9));
    assert_eq!(lower.len(), upper.len());
    for (l, u) in lower.chars().zip(upper.chars()) {
        assert_eq!(l.to_ascii_uppercase(), u);
        if !l.is_ascii_alphabetic() {
            assert_eq!(l, u);
        }
    }
}

#[test]
fn views_agree() {
    let bytes = vec![0xde, 0xad, 0xbe, 0xef, 0x01, 0x02];
    let w = HexFmt(bytes);
    assert_eq!(w.display(None), w.debug(None));
    assert_eq!(w.display(None), w.lower_hex(None));
    assert_eq!(w.display(Some(5)), w.fmt(Some(5), Case::Lower));
    assert_eq!(w.upper_hex(Some(5)), w.fmt(Some(5), Case::Upper));
}

#[test]
fn free_fmt_matches_wrapper() {
    let bytes = [0x12u8, 0x34, 0x56];
    assert_eq!("123456", fmt(&bytes, None, Case::Lower));
    assert_eq!("1..6", fmt(&bytes, Some(4), Case::Lower));
}

#[test]
fn digit_and_byte_helpers() {
    assert_eq!("f", fmt_digit(15, Case::Lower));
    assert_eq!("F", fmt_digit(15, Case::Upper));
    assert_eq!("0", fmt_digit(0, Case::Upper));
    let mut out = String::new();
    fmt_byte(&mut out, 0xab, Case::Lower);
    assert_eq!("ab", out);
    fmt_byte(&mut out, 0x0c, Case::Upper);
    assert_eq!("ab0C", out);
}
