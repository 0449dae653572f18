//! The shortened hexadecimal renderer for a single byte sequence.
//!
//! [`spec_render`] states what the rendering is: the full expansion when
//! it fits the character budget, a truncated marker when the budget is
//! smaller than the marker, and otherwise the first and last digit
//! characters of the full expansion around the marker. [`fmt`] produces
//! exactly that sequence of characters.

use vstd::prelude::*;

use crate::chars::eq_up_to_case;
use crate::chars::fmt_byte;
use crate::chars::fmt_digit;
use crate::chars::hex_chars;
use crate::chars::hex_digit_char;
use crate::chars::hi_nibble;
use crate::chars::is_hex_digit_char;
use crate::chars::lemma_digit_char_case;
use crate::chars::lemma_hex_digit_char_props;
use crate::chars::lemma_nibble_bound;
use crate::chars::lo_nibble;
use crate::chars::nibble;
use crate::chars::renders_match_case;
use crate::chars::Case;

verus! {

/// The character budget used when a caller supplies no precision.
pub const DEFAULT_PRECISION: usize = 10;

/// The elision marker as a character sequence.
pub open spec fn ellipsis() -> Seq<char> {
    seq!['.', '.']
}

/// What a precision argument resolves to: the given value, or the default.
pub open spec fn resolve_precision(precision: Option<usize>) -> int {
    match precision {
        Some(p) => p as int,
        None => DEFAULT_PRECISION as int,
    }
}

/// How many digit characters stand right of the marker under budget `p`:
/// half of what remains after the marker, rounded down.
pub open spec fn right_digits(p: int) -> int {
    (p - 2) / 2
}

/// How many digit characters stand left of the marker under budget `p`:
/// the rest, so the left side gets the extra character when the remainder
/// is odd.
pub open spec fn left_digits(p: int) -> int {
    (p - 2) - (p - 2) / 2
}

/// The rendering of `b` under character budget `p`.
///
/// When the full expansion fits the budget — also when it exactly meets
/// it — everything is shown. Otherwise, when the budget cannot hold even
/// the marker, the output is the corresponding prefix of the marker and
/// the bytes are not consulted. Otherwise the first `left_digits(p)` and
/// the last `right_digits(p)` characters of the full expansion stand
/// around the marker.
pub open spec fn spec_render(b: Seq<u8>, p: int, case: Case) -> Seq<char> {
    if 2 * b.len() <= p {
        hex_chars(b, case)
    } else if p <= 2 {
        ellipsis().take(p)
    } else {
        hex_chars(b, case).take(left_digits(p)) + ellipsis() + hex_chars(b, case).skip(
            2 * b.len() - right_digits(p),
        )
    }
}

/// When the full expansion fits the budget — room to spare or an exact
/// fit alike — the rendering is the full two-digits-per-byte expansion.
pub proof fn lemma_full_when_it_fits(b: Seq<u8>, p: int, case: Case)
    requires
        2 * b.len() <= p,
    ensures
        spec_render(b, p, case) == hex_chars(b, case),
{
}

/// When the budget cannot hold even the marker and the bytes do not fit
/// either, the rendering is the first `p` characters of the marker.
pub proof fn lemma_marker_prefix(b: Seq<u8>, p: int, case: Case)
    requires
        0 <= p <= 2,
        p < 2 * b.len(),
    ensures
        spec_render(b, p, case) == ellipsis().take(p),
{
}

/// The rendering never exceeds the budget: its length is the length of
/// the full expansion or the budget, whichever is smaller.
pub proof fn lemma_render_len(b: Seq<u8>, p: int, case: Case)
    requires
        0 <= p,
    ensures
        spec_render(b, p, case).len() == if 2 * b.len() <= p {
            2 * b.len()
        } else {
            p as nat
        },
{
}

/// In the elision branch the rendering has exactly the budgeted length,
/// the marker occurs in it exactly once — as a contiguous interior run —
/// and every other character is a hexadecimal digit.
pub proof fn lemma_elided_shape(b: Seq<u8>, p: int, case: Case)
    requires
        2 < p < 2 * b.len(),
    ensures
        ({
            let r = spec_render(b, p, case);
            let l = left_digits(p);
            &&& r.len() == p
            &&& 0 < l && l + 2 <= p
            &&& forall|i: int| 0 <= i < r.len() ==> (r[i] == '.' <==> l <= i < l + 2)
            &&& forall|i: int|
                0 <= i < r.len() && !(l <= i < l + 2) ==> is_hex_digit_char(r[i])
            &&& forall|i: int|
                0 <= i < r.len() - 1 ==> ((#[trigger] r[i] == '.' && r[i + 1] == '.') <==> i
                    == l)
        }),
{
    let r = spec_render(b, p, case);
    let l = left_digits(p);
    let g = right_digits(p);
    let a = hex_chars(b, case).take(l);
    let z = hex_chars(b, case).skip(2 * b.len() - g);
    assert(a.len() == l);
    assert(z.len() == g);
    assert(r.len() == p);
    assert forall|i: int| 0 <= i < l implies is_hex_digit_char(r[i]) && r[i] != '.' by {
        assert(r[i] == hex_chars(b, case)[i]);
        lemma_nibble_bound(b, i);
        lemma_hex_digit_char_props(nibble(b, i), case);
    }
    assert forall|i: int| l + 2 <= i < p implies is_hex_digit_char(r[i]) && r[i] != '.' by {
        assert(r[i] == z[i - l - 2]);
        assert(z[i - l - 2] == hex_chars(b, case)[2 * b.len() - g + (i - l - 2)]);
        lemma_nibble_bound(b, 2 * b.len() - g + (i - l - 2));
        lemma_hex_digit_char_props(nibble(b, 2 * b.len() - g + (i - l - 2)), case);
    }
    assert(r[l] == '.' && r[l + 1] == '.');
}

/// The upper- and lower-case renderings of one input have the same length
/// and differ only in the case of the alphabetic hexadecimal digits.
pub proof fn lemma_case_agreement(b: Seq<u8>, p: int)
    requires
        0 <= p,
    ensures
        renders_match_case(spec_render(b, p, Case::Lower), spec_render(b, p, Case::Upper)),
{
    let lo = spec_render(b, p, Case::Lower);
    let up = spec_render(b, p, Case::Upper);
    assert(lo.len() == up.len()) by {
        lemma_render_len(b, p, Case::Lower);
        lemma_render_len(b, p, Case::Upper);
    }
    assert forall|i: int| 0 <= i < lo.len() implies eq_up_to_case(lo[i], up[i]) by {
        if 2 * b.len() <= p {
            lemma_nibble_bound(b, i);
            lemma_digit_char_case(nibble(b, i));
        } else if p <= 2 {
            assert(lo[i] == up[i]);
        } else {
            let l = left_digits(p);
            let g = right_digits(p);
            if i < l {
                assert(lo[i] == hex_chars(b, Case::Lower)[i]);
                assert(up[i] == hex_chars(b, Case::Upper)[i]);
                lemma_nibble_bound(b, i);
                lemma_digit_char_case(nibble(b, i));
            } else if i < l + 2 {
                assert(lo[i] == up[i]);
            } else {
                let k = 2 * b.len() - g + (i - l - 2);
                assert(lo[i] == hex_chars(b, Case::Lower)[k]);
                assert(up[i] == hex_chars(b, Case::Upper)[k]);
                lemma_nibble_bound(b, k);
                lemma_digit_char_case(nibble(b, k));
            }
        }
    }
}

/// Wrapper for a byte vector whose rendering methods produce shortened
/// hexadecimal strings.
pub struct HexFmt(pub Vec<u8>);

impl HexFmt {
    /// Renders the wrapped bytes with the given optional precision and case.
    pub fn fmt(&self, precision: Option<usize>, case: Case) -> (r: String)
        ensures
            r@ == spec_render(self.0@, resolve_precision(precision), case),
    {
        fmt(self.0.as_slice(), precision, case)
    }

    /// The default, human-readable view: lower-case hexadecimal.
    pub fn display(&self, precision: Option<usize>) -> (r: String)
        ensures
            r@ == spec_render(self.0@, resolve_precision(precision), Case::Lower),
    {
        self.fmt(precision, Case::Lower)
    }

    /// The diagnostic view; identical to [`HexFmt::display`].
    pub fn debug(&self, precision: Option<usize>) -> (r: String)
        ensures
            r@ == spec_render(self.0@, resolve_precision(precision), Case::Lower),
    {
        self.fmt(precision, Case::Lower)
    }

    /// The explicit lower-case hexadecimal view.
    pub fn lower_hex(&self, precision: Option<usize>) -> (r: String)
        ensures
            r@ == spec_render(self.0@, resolve_precision(precision), Case::Lower),
    {
        self.fmt(precision, Case::Lower)
    }

    /// The explicit upper-case hexadecimal view.
    pub fn upper_hex(&self, precision: Option<usize>) -> (r: String)
        ensures
            r@ == spec_render(self.0@, resolve_precision(precision), Case::Upper),
    {
        self.fmt(precision, Case::Upper)
    }
}

/// Appends bytes `from..to` of `bytes`, two digit characters each.
fn fmt_byte_run(out: &mut String, bytes: &[u8], from: usize, to: usize, case: Case)
    requires
        from <= to <= bytes@.len(),
    ensures
        final(out)@ == old(out)@ + hex_chars(bytes@, case).subrange(
            2 * (from as int),
            2 * (to as int),
        ),
{
    let ghost start = out@;
    let mut i: usize = from;
    while i < to
        invariant
            from <= i <= to,
            to <= bytes@.len(),
            out@ == start + hex_chars(bytes@, case).subrange(2 * (from as int), 2 * (i as int)),
        decreases to - i,
    {
        let b: u8 = bytes[i];
        fmt_byte(out, b, case);
        proof {
            assert(hex_chars(bytes@, case).subrange(2 * (from as int), 2 * (i as int)) + seq![
                hex_digit_char(hi_nibble(bytes@[i as int]), case),
                hex_digit_char(lo_nibble(bytes@[i as int]), case),
            ] =~= hex_chars(bytes@, case).subrange(2 * (from as int), 2 * (i as int) + 2));
        }
        i = i + 1;
    }
}

/// Renders `bytes` as a hexadecimal string of at most
/// `resolve_precision(precision)` characters, eliding a contiguous middle
/// run of digits behind the `..` marker when the full expansion does not
/// fit.
pub fn fmt(bytes: &[u8], precision: Option<usize>, case: Case) -> (r: String)
    ensures
        r@ == spec_render(bytes@, resolve_precision(precision), case),
{
    let p: usize = match precision {
        Some(p) => p,
        None => DEFAULT_PRECISION,
    };
    let n: usize = bytes.len();

    // The whole expansion fits the budget: show everything.
    if n <= p / 2 {
        assert(2 * (n as int) <= p as int);
        let mut out = String::new();
        fmt_byte_run(&mut out, bytes, 0, n, case);
        proof {
            assert(hex_chars(bytes@, case).subrange(0, 2 * (n as int)) =~= hex_chars(
                bytes@,
                case,
            ));
        }
        return out;
    }

    // The budget cannot hold even the marker: a prefix of the marker.
    if p <= 2 {
        return fmt_marker_prefix(p);
    }

    fmt_elided(bytes, p, case)
}

/// Renders the first `p` characters of the marker, for a budget that
/// cannot hold the whole marker.
fn fmt_marker_prefix(p: usize) -> (r: String)
    requires
        p <= 2,
    ensures
        r@ == ellipsis().take(p as int),
{
    let mut out = String::new();
    if p == 0 {
        proof {
            assert(out@ =~= ellipsis().take(0));
        }
        return out;
    }
    if p == 1 {
        proof {
            reveal_strlit(".");
        }
        out.append(".");
        proof {
            assert(out@ =~= ellipsis().take(1));
        }
        return out;
    }
    proof {
        reveal_strlit("..");
    }
    out.append("..");
    proof {
        assert(out@ =~= ellipsis().take(2));
    }
    out
}

/// Renders `bytes` with a contiguous middle run of digits elided behind
/// the marker: the first `left_digits(p)` and the last `right_digits(p)`
/// characters of the full expansion around `..`.
#[verifier::rlimit(100)]
fn fmt_elided(bytes: &[u8], p: usize, case: Case) -> (r: String)
    requires
        2 < p < 2 * bytes@.len(),
    ensures
        r@ == hex_chars(bytes@, case).take(left_digits(p as int)) + ellipsis() + hex_chars(
            bytes@,
            case,
        ).skip(2 * bytes@.len() - right_digits(p as int)),
{
    let n: usize = bytes.len();
    let mut out = String::new();

    // Split the digit budget; the left side gets the extra digit.
    let digits: usize = p - 2;
    let right: usize = digits / 2;
    let left: usize = digits - right;
    let ghost gl: int = left as int;
    let ghost gr: int = right as int;
    proof {
        assert(gl == left_digits(p as int));
        assert(gr == right_digits(p as int));
        assert(2 * (n as int) > p as int);
        assert(gl + gr == p - 2 < 2 * (n as int) - 2);
    }

    // The full bytes on the left.
    let lhalf: usize = left / 2;
    fmt_byte_run(&mut out, bytes, 0, lhalf, case);
    proof {
        assert(hex_chars(bytes@, case).subrange(0, 2 * (lhalf as int)) =~= hex_chars(
            bytes@,
            case,
        ).take(2 * (lhalf as int)));
    }

    // An odd leftover digit on the left is the high nibble of one more byte.
    if left % 2 == 1 {
        let b: u8 = bytes[lhalf];
        let hi: u8 = b >> 4;
        proof {
            assert(b >> 4 == b / 16 && b >> 4 < 16) by (bit_vector);
        }
        let s = fmt_digit(hi, case);
        out.append(s);
        proof {
            assert(out@ =~= hex_chars(bytes@, case).take(gl));
        }
    }
    proof {
        assert(out@ == hex_chars(bytes@, case).take(gl));
    }

    // The marker.
    proof {
        reveal_strlit("..");
    }
    out.append("..");
    proof {
        assert(out@ =~= hex_chars(bytes@, case).take(gl) + ellipsis());
    }

    // An odd leftover digit on the right is the low nibble of the byte just
    // before the final full run.
    let rhalf: usize = right / 2;
    if right % 2 == 1 {
        let b: u8 = bytes[n - rhalf - 1];
        let lo: u8 = b & 0x0f;
        proof {
            assert(b & 0x0f == b % 16 && b & 0x0f < 16) by (bit_vector);
        }
        let s = fmt_digit(lo, case);
        out.append(s);
    }
    proof {
        assert(out@ =~= hex_chars(bytes@, case).take(gl) + ellipsis() + hex_chars(
            bytes@,
            case,
        ).subrange(2 * (n as int) - gr, 2 * ((n - rhalf) as int)));
    }

    // The full bytes on the right.
    fmt_byte_run(&mut out, bytes, n - rhalf, n, case);
    proof {
        assert(hex_chars(bytes@, case).subrange(2 * (n as int) - gr, 2 * ((n - rhalf) as int))
            + hex_chars(bytes@, case).subrange(2 * ((n - rhalf) as int), 2 * (n as int))
            =~= hex_chars(bytes@, case).skip(2 * (n as int) - gr));
    }
    out
}

} // verus!
