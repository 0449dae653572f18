//! The collection renderer: a bracketed, comma-separated list of
//! shortened hexadecimal renderings.
//!
//! Every element is rendered by the single-sequence renderer at the
//! default precision — the list does not forward a caller precision down
//! to its elements — and the renderings are joined with `", "` between
//! `[` and `]`. Both cases go through the same loop, so they produce
//! identical output but for the digit case.

use vstd::prelude::*;

use crate::chars::renders_match_case;
use crate::chars::Case;
use crate::render::fmt;
use crate::render::lemma_case_agreement;
use crate::render::spec_render;
use crate::render::DEFAULT_PRECISION;

verus! {

/// The elements of `bs` rendered at the default precision and joined
/// with `", "`.
pub open spec fn spec_join(bs: Seq<Seq<u8>>, case: Case) -> Seq<char>
    decreases bs.len(),
{
    if bs.len() == 0 {
        Seq::empty()
    } else if bs.len() == 1 {
        spec_render(bs[0], DEFAULT_PRECISION as int, case)
    } else {
        spec_join(bs.drop_last(), case) + seq![',', ' '] + spec_render(
            bs.last(),
            DEFAULT_PRECISION as int,
            case,
        )
    }
}

/// The rendering of a list of byte sequences: the joined element
/// renderings between brackets.
pub open spec fn spec_render_list(bs: Seq<Seq<u8>>, case: Case) -> Seq<char> {
    seq!['['] + spec_join(bs, case) + seq![']']
}

/// An empty collection renders as the bare brackets.
pub proof fn lemma_empty_list(case: Case)
    ensures
        spec_render_list(Seq::empty(), case) == seq!['[', ']'],
{
    assert(spec_render_list(Seq::empty(), case) =~= seq!['[', ']']);
}

/// A single element renders as the brackets around that element's own
/// rendering at the default precision.
pub proof fn lemma_singleton_list(b: Seq<u8>, case: Case)
    ensures
        spec_render_list(seq![b], case) == seq!['['] + spec_render(
            b,
            DEFAULT_PRECISION as int,
            case,
        ) + seq![']'],
{
}

/// The upper- and lower-case joined renderings differ only in the case
/// of the alphabetic hexadecimal digits.
proof fn lemma_case_agreement_join(bs: Seq<Seq<u8>>)
    ensures
        renders_match_case(spec_join(bs, Case::Lower), spec_join(bs, Case::Upper)),
    decreases bs.len(),
{
    if bs.len() == 0 {
    } else if bs.len() == 1 {
        lemma_case_agreement(bs[0], DEFAULT_PRECISION as int);
    } else {
        lemma_case_agreement_join(bs.drop_last());
        lemma_case_agreement(bs.last(), DEFAULT_PRECISION as int);
        let sep = seq![',', ' '];
        assert(renders_match_case(sep, sep));
        crate::chars::lemma_match_case_concat(
            spec_join(bs.drop_last(), Case::Lower),
            sep,
            spec_join(bs.drop_last(), Case::Upper),
            sep,
        );
        crate::chars::lemma_match_case_concat(
            spec_join(bs.drop_last(), Case::Lower) + sep,
            spec_render(bs.last(), DEFAULT_PRECISION as int, Case::Lower),
            spec_join(bs.drop_last(), Case::Upper) + sep,
            spec_render(bs.last(), DEFAULT_PRECISION as int, Case::Upper),
        );
    }
}

/// The upper- and lower-case list renderings have the same length and
/// differ only in the case of the alphabetic hexadecimal digits; the
/// brackets and separators are identical.
pub proof fn lemma_case_agreement_list(bs: Seq<Seq<u8>>)
    ensures
        renders_match_case(
            spec_render_list(bs, Case::Lower),
            spec_render_list(bs, Case::Upper),
        ),
{
    lemma_case_agreement_join(bs);
    let open = seq!['['];
    let close = seq![']'];
    assert(renders_match_case(open, open));
    assert(renders_match_case(close, close));
    crate::chars::lemma_match_case_concat(
        open,
        spec_join(bs, Case::Lower),
        open,
        spec_join(bs, Case::Upper),
    );
    crate::chars::lemma_match_case_concat(
        open + spec_join(bs, Case::Lower),
        close,
        open + spec_join(bs, Case::Upper),
        close,
    );
}

/// Wrapper for a list of byte vectors whose rendering methods produce
/// bracketed, comma-separated lists of shortened hexadecimal strings.
pub struct HexList(pub Vec<Vec<u8>>);

impl HexList {
    /// Renders every element at the default precision in the given case,
    /// joined with `", "` between brackets.
    pub fn fmt(&self, case: Case) -> (r: String)
        ensures
            r@ == spec_render_list(self.0.deep_view(), case),
    {
        let ghost dv: Seq<Seq<u8>> = self.0.deep_view();
        proof {
            assert(dv.len() == self.0@.len());
            assert forall|j: int| 0 <= j < dv.len() implies dv[j] == self.0@[j]@ by {
                assert(self.0@[j].deep_view() =~= self.0@[j]@);
            }
            reveal_strlit("[");
            reveal_strlit("]");
            reveal_strlit(", ");
        }
        let mut out = String::new();
        out.append("[");
        proof {
            assert(out@ =~= seq!['['] + spec_join(dv.take(0), case));
        }
        let n: usize = self.0.len();
        let mut i: usize = 0;
        while i < n
            invariant
                i <= n,
                n == self.0@.len(),
                dv == self.0.deep_view(),
                dv.len() == n,
                forall|j: int| 0 <= j < n ==> dv[j] == self.0@[j]@,
                out@ == seq!['['] + spec_join(dv.take(i as int), case),
            decreases n - i,
        {
            if i > 0 {
                out.append(", ");
            }
            let s = fmt(self.0[i].as_slice(), None, case);
            out.append(s.as_str());
            proof {
                reveal_strlit(", ");
                assert(s@ == spec_render(dv[i as int], DEFAULT_PRECISION as int, case));
                if i == 0 {
                    assert(dv.take(1)[0] == dv[0]);
                    assert(out@ =~= seq!['['] + spec_join(dv.take(1), case));
                } else {
                    assert(dv.take(i as int + 1).drop_last() =~= dv.take(i as int));
                    assert(dv.take(i as int + 1).last() == dv[i as int]);
                    assert(out@ =~= seq!['['] + spec_join(dv.take(i as int + 1), case));
                }
            }
            i = i + 1;
        }
        proof {
            assert(dv.take(n as int) =~= dv);
        }
        out.append("]");
        proof {
            assert(out@ =~= spec_render_list(dv, case));
        }
        out
    }

    /// The default, human-readable view: lower-case hexadecimal.
    pub fn display(&self) -> (r: String)
        ensures
            r@ == spec_render_list(self.0.deep_view(), Case::Lower),
    {
        self.fmt(Case::Lower)
    }

    /// The diagnostic view; identical to [`HexList::display`].
    pub fn debug(&self) -> (r: String)
        ensures
            r@ == spec_render_list(self.0.deep_view(), Case::Lower),
    {
        self.fmt(Case::Lower)
    }

    /// The explicit lower-case hexadecimal view.
    pub fn lower_hex(&self) -> (r: String)
        ensures
            r@ == spec_render_list(self.0.deep_view(), Case::Lower),
    {
        self.fmt(Case::Lower)
    }

    /// The explicit upper-case hexadecimal view.
    pub fn upper_hex(&self) -> (r: String)
        ensures
            r@ == spec_render_list(self.0.deep_view(), Case::Upper),
    {
        self.fmt(Case::Upper)
    }
}

} // verus!
