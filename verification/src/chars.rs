//! Hexadecimal digit characters and the nibble view of a byte sequence.
//!
//! A byte splits into a high and a low nibble, and every nibble has one
//! digit character per case. The whole hexadecimal expansion of a byte
//! sequence is the character sequence [`hex_chars`]; the renderer shows
//! contiguous pieces of it.

use vstd::prelude::*;

verus! {

/// Selects the case of the alphabetic hexadecimal digits:
/// `0-9A-F` for `Upper`, `0-9a-f` for `Lower`.
#[derive(Clone, Copy)]
pub enum Case {
    Upper,
    Lower,
}

/// The high (most significant) nibble of a byte.
pub open spec fn hi_nibble(b: u8) -> u8 {
    b / 16
}

/// The low (least significant) nibble of a byte.
pub open spec fn lo_nibble(b: u8) -> u8 {
    b % 16
}

/// The lower-case digit character for a nibble value.
pub open spec fn lower_digit_char(d: u8) -> char {
    if d == 0 {
        '0'
    } else if d == 1 {
        '1'
    } else if d == 2 {
        '2'
    } else if d == 3 {
        '3'
    } else if d == 4 {
        '4'
    } else if d == 5 {
        '5'
    } else if d == 6 {
        '6'
    } else if d == 7 {
        '7'
    } else if d == 8 {
        '8'
    } else if d == 9 {
        '9'
    } else if d == 10 {
        'a'
    } else if d == 11 {
        'b'
    } else if d == 12 {
        'c'
    } else if d == 13 {
        'd'
    } else if d == 14 {
        'e'
    } else {
        'f'
    }
}

/// The upper-case digit character for a nibble value.
pub open spec fn upper_digit_char(d: u8) -> char {
    if d == 0 {
        '0'
    } else if d == 1 {
        '1'
    } else if d == 2 {
        '2'
    } else if d == 3 {
        '3'
    } else if d == 4 {
        '4'
    } else if d == 5 {
        '5'
    } else if d == 6 {
        '6'
    } else if d == 7 {
        '7'
    } else if d == 8 {
        '8'
    } else if d == 9 {
        '9'
    } else if d == 10 {
        'A'
    } else if d == 11 {
        'B'
    } else if d == 12 {
        'C'
    } else if d == 13 {
        'D'
    } else if d == 14 {
        'E'
    } else {
        'F'
    }
}

/// The digit character for a nibble value in the given case.
pub open spec fn hex_digit_char(d: u8, case: Case) -> char {
    match case {
        Case::Lower => lower_digit_char(d),
        Case::Upper => upper_digit_char(d),
    }
}

/// Nibble `i` of a byte sequence, reading the bytes in order:
/// even positions are high nibbles, odd positions low nibbles.
pub open spec fn nibble(b: Seq<u8>, i: int) -> u8
    recommends
        0 <= i < 2 * b.len(),
{
    if i % 2 == 0 {
        hi_nibble(b[i / 2])
    } else {
        lo_nibble(b[i / 2])
    }
}

/// The full hexadecimal expansion of a byte sequence:
/// two digit characters per byte, bytes in order.
pub open spec fn hex_chars(b: Seq<u8>, case: Case) -> Seq<char> {
    Seq::new(2 * b.len(), |i: int| hex_digit_char(nibble(b, i), case))
}

/// Whether `c` is a hexadecimal digit character in either case.
pub open spec fn is_hex_digit_char(c: char) -> bool {
    c == '0' || c == '1' || c == '2' || c == '3' || c == '4' || c == '5' || c == '6' || c == '7'
        || c == '8' || c == '9' || c == 'a' || c == 'b' || c == 'c' || c == 'd' || c == 'e' || c
        == 'f' || c == 'A' || c == 'B' || c == 'C' || c == 'D' || c == 'E' || c == 'F'
}

/// Whether a lower-case rendering character and an upper-case rendering
/// character agree up to the case of the alphabetic hexadecimal digits.
pub open spec fn eq_up_to_case(l: char, u: char) -> bool {
    u == l || (l == 'a' && u == 'A') || (l == 'b' && u == 'B') || (l == 'c' && u == 'C') || (l
        == 'd' && u == 'D') || (l == 'e' && u == 'E') || (l == 'f' && u == 'F')
}

/// Whether two whole renderings agree up to digit case, position by position.
pub open spec fn renders_match_case(lo: Seq<char>, up: Seq<char>) -> bool {
    lo.len() == up.len() && (forall|i: int| 0 <= i < lo.len() ==> eq_up_to_case(lo[i], up[i]))
}

/// A digit character is a hexadecimal digit and never the marker character.
pub proof fn lemma_hex_digit_char_props(d: u8, case: Case)
    requires
        d < 16,
    ensures
        is_hex_digit_char(hex_digit_char(d, case)),
        hex_digit_char(d, case) != '.',
{
}

/// The two cases of one nibble value agree up to digit case.
pub proof fn lemma_digit_char_case(d: u8)
    requires
        d < 16,
    ensures
        eq_up_to_case(lower_digit_char(d), upper_digit_char(d)),
{
}

/// Every nibble of a byte sequence is below 16.
pub proof fn lemma_nibble_bound(b: Seq<u8>, i: int)
    requires
        0 <= i < 2 * b.len(),
    ensures
        nibble(b, i) < 16,
{
}

/// Agreement up to digit case is preserved by concatenation.
pub proof fn lemma_match_case_concat(a1: Seq<char>, a2: Seq<char>, b1: Seq<char>, b2: Seq<char>)
    requires
        renders_match_case(a1, b1),
        renders_match_case(a2, b2),
    ensures
        renders_match_case(a1 + a2, b1 + b2),
{
    assert forall|i: int| 0 <= i < (a1 + a2).len() implies eq_up_to_case(
        (a1 + a2)[i],
        (b1 + b2)[i],
    ) by {
        if i < a1.len() {
            assert((a1 + a2)[i] == a1[i]);
            assert((b1 + b2)[i] == b1[i]);
        } else {
            assert((a1 + a2)[i] == a2[i - a1.len()]);
            assert((b1 + b2)[i] == b2[i - b1.len()]);
        }
    }
}

/// Returns the one-character string holding the digit character for
/// `digit` in the given case.
pub fn fmt_digit(digit: u8, case: Case) -> (r: &'static str)
    requires
        digit < 16,
    ensures
        r@ == seq![hex_digit_char(digit, case)],
{
    proof {
        reveal_strlit("0");
        reveal_strlit("1");
        reveal_strlit("2");
        reveal_strlit("3");
        reveal_strlit("4");
        reveal_strlit("5");
        reveal_strlit("6");
        reveal_strlit("7");
        reveal_strlit("8");
        reveal_strlit("9");
        reveal_strlit("a");
        reveal_strlit("b");
        reveal_strlit("c");
        reveal_strlit("d");
        reveal_strlit("e");
        reveal_strlit("f");
        reveal_strlit("A");
        reveal_strlit("B");
        reveal_strlit("C");
        reveal_strlit("D");
        reveal_strlit("E");
        reveal_strlit("F");
    }
    let r: &'static str = match case {
        Case::Lower => {
            if digit == 0 {
                "0"
            } else if digit == 1 {
                "1"
            } else if digit == 2 {
                "2"
            } else if digit == 3 {
                "3"
            } else if digit == 4 {
                "4"
            } else if digit == 5 {
                "5"
            } else if digit == 6 {
                "6"
            } else if digit == 7 {
                "7"
            } else if digit == 8 {
                "8"
            } else if digit == 9 {
                "9"
            } else if digit == 10 {
                "a"
            } else if digit == 11 {
                "b"
            } else if digit == 12 {
                "c"
            } else if digit == 13 {
                "d"
            } else if digit == 14 {
                "e"
            } else {
                "f"
            }
        },
        Case::Upper => {
            if digit == 0 {
                "0"
            } else if digit == 1 {
                "1"
            } else if digit == 2 {
                "2"
            } else if digit == 3 {
                "3"
            } else if digit == 4 {
                "4"
            } else if digit == 5 {
                "5"
            } else if digit == 6 {
                "6"
            } else if digit == 7 {
                "7"
            } else if digit == 8 {
                "8"
            } else if digit == 9 {
                "9"
            } else if digit == 10 {
                "A"
            } else if digit == 11 {
                "B"
            } else if digit == 12 {
                "C"
            } else if digit == 13 {
                "D"
            } else if digit == 14 {
                "E"
            } else {
                "F"
            }
        },
    };
    proof {
        assert(r@ =~= seq![hex_digit_char(digit, case)]);
    }
    r
}

/// Appends the two digit characters of `byte` to `out`.
pub fn fmt_byte(out: &mut String, byte: u8, case: Case)
    ensures
        final(out)@ == old(out)@ + seq![
            hex_digit_char(hi_nibble(byte), case),
            hex_digit_char(lo_nibble(byte), case),
        ],
{
    let hi: u8 = byte >> 4;
    let lo: u8 = byte & 0x0f;
    proof {
        assert(byte >> 4 == byte / 16 && byte >> 4 < 16) by (bit_vector);
        assert(byte & 0x0f == byte % 16 && byte & 0x0f < 16) by (bit_vector);
    }
    out.append(fmt_digit(hi, case));
    out.append(fmt_digit(lo, case));
    proof {
        assert(out@ =~= old(out)@ + seq![
            hex_digit_char(hi_nibble(byte), case),
            hex_digit_char(lo_nibble(byte), case),
        ]);
    }
}

} // verus!
