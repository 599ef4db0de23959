//! Laws of the region patcher: how a patched document relates to the
//! original, and when re-applying a patch is stable.

use vstd::prelude::*;

verus! {

use crate::patcher::BoundaryMode;
use crate::patcher::PatchError;
use crate::patcher::first_match;
use crate::patcher::lemma_first_match_is;
use crate::patcher::lemma_first_match_props;
use crate::patcher::match_at;
use crate::patcher::occurs;
use crate::patcher::resolved_end;
use crate::patcher::resolved_start;
use crate::patcher::spec_apply;
use crate::patcher::spliced;

/// The interior of the region that an `Exclude`/`Exclude` marker pair
/// delimits in `doc`: the text strictly between the first occurrence of the
/// start marker and the first occurrence of the end marker, or `None` when a
/// marker is missing or the markers are inverted.
pub open spec fn region_between(
    doc: Seq<char>,
    start_marker: Seq<char>,
    end_marker: Seq<char>,
) -> Option<Seq<char>> {
    match (
        resolved_start(doc, start_marker, BoundaryMode::Exclude),
        resolved_end(doc, end_marker, BoundaryMode::Exclude),
    ) {
        (Some(s), Some(e)) => if s <= e {
            Some(doc.subrange(s, e))
        } else {
            None
        },
        _ => None,
    }
}

/// How each position of a three-way concatenation reads from its pieces.
proof fn lemma_concat3_index(a: Seq<char>, b: Seq<char>, c: Seq<char>, out: Seq<char>)
    requires
        out == a + b + c,
    ensures
        out.len() == a.len() + b.len() + c.len(),
        forall|q: int| 0 <= q < a.len() ==> out[q] == a[q],
        forall|q: int| a.len() <= q < a.len() + b.len() ==> out[q] == b[q - a.len()],
        forall|q: int| a.len() + b.len() <= q < out.len() ==> out[q] == c[q - a.len() - b.len()],
{
}

/// A match that lies inside a shared prefix of two documents holds in one
/// exactly when it holds in the other.
proof fn lemma_match_transfer(a: Seq<char>, b: Seq<char>, pat: Seq<char>, cut: int, p: int)
    requires
        0 <= cut <= a.len(),
        cut <= b.len(),
        a.subrange(0, cut) == b.subrange(0, cut),
        0 <= p,
        p + pat.len() <= cut,
    ensures
        match_at(a, pat, p) <==> match_at(b, pat, p),
{
    assert forall|q: int| 0 <= q < cut implies a[q] == b[q] by {
        assert(a.subrange(0, cut)[q] == a[q]);
        assert(b.subrange(0, cut)[q] == b[q]);
    }
    assert(a.subrange(p, p + pat.len()) =~= b.subrange(p, p + pat.len()));
}

/// In the patched document `out`, the start marker still resolves where it
/// did in the original, and the end marker resolves to the position right
/// after the replacement, provided the replacement does not contain the end
/// marker and no occurrence of the end marker straddles a seam of the splice.
proof fn lemma_patched_resolution(
    doc: Seq<char>,
    sm: Seq<char>,
    em: Seq<char>,
    repl: Seq<char>,
    si: int,
    ei: int,
    out: Seq<char>,
)
    requires
        sm.len() > 0,
        em.len() > 0,
        first_match(doc, sm) == Some(si),
        first_match(doc, em) == Some(ei),
        si + sm.len() <= ei,
        out == spliced(doc, si + sm.len(), ei, repl),
        !occurs(repl, em),
        forall|p: int| si + sm.len() - em.len() < p < si + sm.len() ==> !match_at(out, em, p),
        forall|p: int|
            si + sm.len() + repl.len() - em.len() < p < si + sm.len() + repl.len() ==> !match_at(
                out,
                em,
                p,
            ),
    ensures
        first_match(out, sm) == Some(si),
        first_match(out, em) == Some(si + sm.len() + repl.len()),
{
    let s = si + sm.len();
    let e = ei;
    let n = doc.len() as int;
    let ll = repl.len() as int;
    lemma_first_match_props(doc, sm);
    lemma_first_match_props(doc, em);
    assert(match_at(doc, sm, si));
    assert(match_at(doc, em, ei));
    lemma_concat3_index(doc.subrange(0, s), repl, doc.subrange(e, n), out);
    assert(out.subrange(0, s) =~= doc.subrange(0, s));
    // The start marker still matches at `si`, and nothing earlier matches.
    assert(match_at(out, sm, si)) by {
        assert(doc.subrange(si, si + sm.len()) == sm);
        assert(out.subrange(si, si + sm.len()) =~= sm);
    }
    assert forall|k: int| 0 <= k < si implies !match_at(out, sm, k) by {
        if match_at(out, sm, k) {
            lemma_match_transfer(out, doc, sm, s, k);
        }
    }
    lemma_first_match_is(out, sm, si);
    // The end marker matches right after the replacement, and nothing earlier
    // matches.
    assert(match_at(out, em, s + ll)) by {
        assert(doc.subrange(ei, ei + em.len()) == em);
        assert(out.subrange(s + ll, s + ll + em.len()) =~= em);
    }
    assert forall|p: int| 0 <= p < s + ll implies !match_at(out, em, p) by {
        if match_at(out, em, p) {
            if p + em.len() <= s {
                lemma_match_transfer(out, doc, em, s, p);
                assert(match_at(doc, em, p));
                assert(p < ei);
            } else if p < s {
                // excluded by the first seam hypothesis
            } else if p + em.len() <= s + ll {
                assert(out.subrange(p, p + em.len()) == em);
                assert(repl.subrange(p - s, p - s + em.len()) =~= em);
                assert(match_at(repl, em, p - s));
                assert(occurs(repl, em));
            } else {
                // excluded by the second seam hypothesis
            }
        }
    }
    lemma_first_match_is(out, em, s + ll);
}

/// Round-trip identity: patching a document that contains both markers (with
/// mode `Exclude`) with a replacement that contains neither marker, and whose
/// seams do not themselves form an occurrence of the end marker, then
/// re-extracting the region between the same markers, yields exactly the
/// replacement text.
pub proof fn lemma_round_trip(
    doc: Seq<char>,
    sm: Seq<char>,
    em: Seq<char>,
    repl: Seq<char>,
    si: int,
    ei: int,
    out: Seq<char>,
)
    requires
        sm.len() > 0,
        em.len() > 0,
        first_match(doc, sm) == Some(si),
        first_match(doc, em) == Some(ei),
        si + sm.len() <= ei,
        out == spliced(doc, si + sm.len(), ei, repl),
        !occurs(repl, sm),
        !occurs(repl, em),
        forall|p: int| si + sm.len() - em.len() < p < si + sm.len() ==> !match_at(out, em, p),
        forall|p: int|
            si + sm.len() + repl.len() - em.len() < p < si + sm.len() + repl.len() ==> !match_at(
                out,
                em,
                p,
            ),
    ensures
        spec_apply(doc, sm, BoundaryMode::Exclude, em, BoundaryMode::Exclude, repl) == Ok::<
            Seq<char>,
            PatchError,
        >(out),
        region_between(out, sm, em) == Some(repl),
{
    let s = si + sm.len();
    let ll = repl.len() as int;
    let n = doc.len() as int;
    lemma_first_match_props(doc, sm);
    lemma_first_match_props(doc, em);
    assert(match_at(doc, sm, si));
    assert(match_at(doc, em, ei));
    lemma_patched_resolution(doc, sm, em, repl, si, ei, out);
    lemma_concat3_index(doc.subrange(0, s), repl, doc.subrange(ei, n), out);
    assert(out.subrange(s, s + ll) =~= repl);
}

/// Idempotence: applying the same patch twice with the same replacement
/// (containing neither marker, with seams that do not form an occurrence of
/// the end marker) yields the same output as applying it once.
pub proof fn lemma_idempotent(
    doc: Seq<char>,
    sm: Seq<char>,
    em: Seq<char>,
    repl: Seq<char>,
    si: int,
    ei: int,
    out: Seq<char>,
)
    requires
        sm.len() > 0,
        em.len() > 0,
        first_match(doc, sm) == Some(si),
        first_match(doc, em) == Some(ei),
        si + sm.len() <= ei,
        out == spliced(doc, si + sm.len(), ei, repl),
        !occurs(repl, sm),
        !occurs(repl, em),
        forall|p: int| si + sm.len() - em.len() < p < si + sm.len() ==> !match_at(out, em, p),
        forall|p: int|
            si + sm.len() + repl.len() - em.len() < p < si + sm.len() + repl.len() ==> !match_at(
                out,
                em,
                p,
            ),
    ensures
        spec_apply(doc, sm, BoundaryMode::Exclude, em, BoundaryMode::Exclude, repl) == Ok::<
            Seq<char>,
            PatchError,
        >(out),
        spec_apply(out, sm, BoundaryMode::Exclude, em, BoundaryMode::Exclude, repl) == Ok::<
            Seq<char>,
            PatchError,
        >(out),
{
    let s = si + sm.len();
    let ll = repl.len() as int;
    let n = doc.len() as int;
    lemma_first_match_props(doc, sm);
    lemma_first_match_props(doc, em);
    assert(match_at(doc, sm, si));
    assert(match_at(doc, em, ei));
    lemma_patched_resolution(doc, sm, em, repl, si, ei, out);
    lemma_concat3_index(doc.subrange(0, s), repl, doc.subrange(ei, n), out);
    assert(out.subrange(0, s) =~= doc.subrange(0, s));
    assert(out.subrange(s + ll, out.len() as int) =~= doc.subrange(ei, n));
    assert(spliced(out, s, s + ll, repl) =~= out);
}

/// Prefix/suffix preservation: whenever a patch succeeds, the text strictly
/// before the start marker and strictly after the end marker is identical in
/// the original and in the patched output, whatever the boundary modes.
pub proof fn lemma_prefix_suffix_preserved(
    doc: Seq<char>,
    sm: Seq<char>,
    start_mode: BoundaryMode,
    em: Seq<char>,
    end_mode: BoundaryMode,
    repl: Seq<char>,
    si: int,
    ei: int,
)
    requires
        sm.len() > 0,
        em.len() > 0,
        first_match(doc, sm) == Some(si),
        first_match(doc, em) == Some(ei),
        spec_apply(doc, sm, start_mode, em, end_mode, repl) is Ok,
    ensures
        spec_apply(doc, sm, start_mode, em, end_mode, repl) matches Ok(out) ==> {
            &&& out.subrange(0, si) == doc.subrange(0, si)
            &&& out.subrange(out.len() - (doc.len() - (ei + em.len())), out.len() as int)
                == doc.subrange(ei + em.len(), doc.len() as int)
        },
{
    let n = doc.len() as int;
    let ll = repl.len() as int;
    lemma_first_match_props(doc, sm);
    lemma_first_match_props(doc, em);
    assert(match_at(doc, sm, si));
    assert(match_at(doc, em, ei));
    let s = if start_mode is Exclude {
        si + sm.len() as int
    } else {
        si
    };
    let e = if end_mode is Exclude {
        ei
    } else {
        ei + em.len() as int
    };
    assert(resolved_start(doc, sm, start_mode) == Some(s));
    assert(resolved_end(doc, em, end_mode) == Some(e));
    assert(s <= e);
    let out = spliced(doc, s, e, repl);
    lemma_concat3_index(doc.subrange(0, s), repl, doc.subrange(e, n), out);
    assert(out.subrange(0, si) =~= doc.subrange(0, si));
    let tail = n - (ei + em.len());
    let base = out.len() - tail;
    assert(base == s + ll + (ei + em.len() - e));
    assert(out.subrange(base, out.len() as int) =~= doc.subrange(ei + em.len(), n));
}

/// Inverted-order failure: when the end marker's first occurrence lies
/// strictly before the start marker's first occurrence, an
/// `Exclude`/`Exclude` patch fails with `InvertedRegion`.
pub proof fn lemma_inverted_order(
    doc: Seq<char>,
    sm: Seq<char>,
    em: Seq<char>,
    repl: Seq<char>,
    si: int,
    ei: int,
)
    requires
        sm.len() > 0,
        em.len() > 0,
        first_match(doc, sm) == Some(si),
        first_match(doc, em) == Some(ei),
        ei < si,
    ensures
        spec_apply(doc, sm, BoundaryMode::Exclude, em, BoundaryMode::Exclude, repl) == Err::<
            Seq<char>,
            PatchError,
        >(PatchError::InvertedRegion),
{
}

} // verus!
