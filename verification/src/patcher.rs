//! Marker-delimited text-region patching.
//!
//! Given a document and two literal marker strings, the patcher locates the
//! region between them and replaces its interior with new content, leaving
//! everything else in the document untouched. Documents are treated as
//! sequences of characters; markers match literally, and when a marker occurs
//! more than once its first occurrence (scanning left to right) is used.

use vstd::prelude::*;

verus! {

use vstd::string::StrSliceExecFns;
use vstd::string::StringExecFns;

/// Inclusion mode for a marker: whether the marker's own characters belong to
/// the replaceable region (`Include`) or to the immutable surrounding text
/// (`Exclude`).
#[derive(Clone, Copy, Debug, PartialEq, Eq, Structural)]
pub enum BoundaryMode {
    Include,
    Exclude,
}

/// Which of the two boundaries of a region a marker delimits.
#[derive(Clone, Copy, Debug, PartialEq, Eq, Structural)]
pub enum Side {
    Start,
    End,
}

/// The only failure mode of the locator: the marker's literal text does not
/// occur anywhere in the document.
#[derive(Clone, Copy, Debug, PartialEq, Eq, Structural)]
pub enum LocateError {
    MarkerNotFound,
}

/// Failure modes of a whole patch application.
#[derive(Clone, Copy, Debug, PartialEq, Eq, Structural)]
pub enum PatchError {
    /// One of the two markers does not occur in the document.
    BoundaryNotFound { which: Side },
    /// Both markers occur, but the resolved start offset lies after the
    /// resolved end offset (for example, the end marker precedes the start
    /// marker).
    InvertedRegion,
}

/// A marker paired with its inclusion mode. It resolves to a concrete offset
/// only relative to a specific document.
pub struct Boundary {
    pub marker: String,
    pub mode: BoundaryMode,
}

/// A start boundary, an end boundary, and the replacement content.
pub struct Patch {
    pub start: Boundary,
    pub end: Boundary,
    pub replacement: String,
}

/// The marker `pat` matches the document `doc` at position `i`.
pub open spec fn match_at(doc: Seq<char>, pat: Seq<char>, i: int) -> bool {
    &&& 0 <= i
    &&& i + pat.len() <= doc.len()
    &&& doc.subrange(i, i + pat.len()) == pat
}

/// The marker `pat` occurs somewhere in `doc`.
pub open spec fn occurs(doc: Seq<char>, pat: Seq<char>) -> bool {
    exists|i: int| match_at(doc, pat, i)
}

/// Position of the first match of `pat` in `doc` at or after position `i`.
pub open spec fn first_match_from(doc: Seq<char>, pat: Seq<char>, i: int) -> Option<int>
    decreases doc.len() + 1 - i,
{
    if i < 0 {
        None
    } else if i + pat.len() > doc.len() {
        None
    } else if match_at(doc, pat, i) {
        Some(i)
    } else {
        first_match_from(doc, pat, i + 1)
    }
}

/// Position of the first (leftmost) match of `pat` in `doc`.
pub open spec fn first_match(doc: Seq<char>, pat: Seq<char>) -> Option<int> {
    first_match_from(doc, pat, 0)
}

/// Offset where the replaceable region begins, for a start boundary.
/// `Exclude` protects the marker text (region begins just after it);
/// `Include` lets the marker itself be replaced (region begins at it).
pub open spec fn resolved_start(doc: Seq<char>, marker: Seq<char>, mode: BoundaryMode) -> Option<
    int,
> {
    match first_match(doc, marker) {
        None => None,
        Some(i) => Some(
            match mode {
                BoundaryMode::Exclude => i + marker.len(),
                BoundaryMode::Include => i,
            },
        ),
    }
}

/// Offset where the replaceable region ends, for an end boundary.
/// `Exclude` protects the marker text (region ends just before it);
/// `Include` lets the marker itself be replaced (region ends after it).
pub open spec fn resolved_end(doc: Seq<char>, marker: Seq<char>, mode: BoundaryMode) -> Option<
    int,
> {
    match first_match(doc, marker) {
        None => None,
        Some(i) => Some(
            match mode {
                BoundaryMode::Exclude => i,
                BoundaryMode::Include => i + marker.len(),
            },
        ),
    }
}

/// The document with the half-open region `[s, e)` replaced by `repl`.
pub open spec fn spliced(doc: Seq<char>, s: int, e: int, repl: Seq<char>) -> Seq<char> {
    doc.subrange(0, s) + repl + doc.subrange(e, doc.len() as int)
}

/// Full functional specification of a patch application.
pub open spec fn spec_apply(
    doc: Seq<char>,
    start_marker: Seq<char>,
    start_mode: BoundaryMode,
    end_marker: Seq<char>,
    end_mode: BoundaryMode,
    repl: Seq<char>,
) -> Result<Seq<char>, PatchError> {
    match resolved_start(doc, start_marker, start_mode) {
        None => Err(PatchError::BoundaryNotFound { which: Side::Start }),
        Some(s) => match resolved_end(doc, end_marker, end_mode) {
            None => Err(PatchError::BoundaryNotFound { which: Side::End }),
            Some(e) => if s > e {
                Err(PatchError::InvertedRegion)
            } else {
                Ok(spliced(doc, s, e, repl))
            },
        },
    }
}

impl Boundary {
    /// A boundary is well formed when its marker is a non-empty literal.
    pub open spec fn wf(&self) -> bool {
        self.marker@.len() > 0
    }

    pub fn new(marker: String, mode: BoundaryMode) -> (b: Boundary)
        ensures
            b.marker == marker,
            b.mode == mode,
    {
        Boundary { marker, mode }
    }
}

proof fn lemma_first_match_from_props(doc: Seq<char>, pat: Seq<char>, i: int)
    requires
        0 <= i,
    ensures
        first_match_from(doc, pat, i) matches Some(j) ==> i <= j && match_at(doc, pat, j) && (
        forall|k: int| i <= k < j ==> !match_at(doc, pat, k)),
        first_match_from(doc, pat, i) is None ==> (forall|k: int|
            i <= k ==> !match_at(doc, pat, k)),
    decreases doc.len() + 1 - i,
{
    if i + pat.len() > doc.len() {
    } else if match_at(doc, pat, i) {
    } else {
        lemma_first_match_from_props(doc, pat, i + 1);
    }
}

/// `first_match` returns `Some(j)` exactly when `j` is a match and nothing
/// earlier is.
pub proof fn lemma_first_match_props(doc: Seq<char>, pat: Seq<char>)
    ensures
        first_match(doc, pat) matches Some(j) ==> 0 <= j && match_at(doc, pat, j) && (forall|
            k: int,
        | 0 <= k < j ==> !match_at(doc, pat, k)),
        first_match(doc, pat) is None ==> (forall|k: int| !match_at(doc, pat, k)),
{
    lemma_first_match_from_props(doc, pat, 0);
}

proof fn lemma_first_match_from_extend(doc: Seq<char>, pat: Seq<char>, i: int, j: int)
    requires
        0 <= i <= j,
        forall|k: int| i <= k < j ==> !match_at(doc, pat, k),
    ensures
        first_match_from(doc, pat, i) == first_match_from(doc, pat, j),
    decreases j - i,
{
    if i < j {
        if i + pat.len() > doc.len() {
            assert(j + pat.len() > doc.len());
        } else {
            assert(!match_at(doc, pat, i));
            lemma_first_match_from_extend(doc, pat, i + 1, j);
        }
    }
}

/// A match with nothing earlier is the first match.
pub proof fn lemma_first_match_is(doc: Seq<char>, pat: Seq<char>, j: int)
    requires
        match_at(doc, pat, j),
        forall|k: int| 0 <= k < j ==> !match_at(doc, pat, k),
    ensures
        first_match(doc, pat) == Some(j),
{
    lemma_first_match_from_extend(doc, pat, 0, j);
}

/// The first match exists exactly when the marker occurs at all.
pub proof fn lemma_first_match_occurs(doc: Seq<char>, pat: Seq<char>)
    ensures
        first_match(doc, pat) is Some <==> occurs(doc, pat),
{
    lemma_first_match_from_props(doc, pat, 0);
    if occurs(doc, pat) {
        let w = choose|i: int| match_at(doc, pat, i);
        if first_match(doc, pat) is None {
            assert(!match_at(doc, pat, w));
        }
    }
}

/// The characters of `s`, collected into a vector for random access.
pub(crate) fn chars_of(s: &str) -> (v: Vec<char>)
    ensures
        v@ == s@,
{
    let n = s.unicode_len();
    let mut v: Vec<char> = Vec::new();
    let mut i: usize = 0;
    while i < n
        invariant
            i <= n,
            n == s@.len(),
            v@ == s@.subrange(0, i as int),
        decreases n - i,
    {
        let c = s.get_char(i);
        v.push(c);
        proof {
            assert(v@ =~= s@.subrange(0, i + 1 as int));
        }
        i += 1;
    }
    proof {
        assert(s@.subrange(0, n as int) =~= s@);
    }
    v
}

/// Whether `pat` matches `doc` at position `i`.
fn matches_at(doc: &Vec<char>, pat: &Vec<char>, i: usize) -> (r: bool)
    requires
        i + pat@.len() <= doc@.len(),
    ensures
        r == match_at(doc@, pat@, i as int),
{
    let n = doc.len();
    let m = pat.len();
    let mut j: usize = 0;
    while j < m
        invariant
            j <= m,
            n == doc@.len(),
            m == pat@.len(),
            i + m <= n,
            doc@.subrange(i as int, i + j) == pat@.subrange(0, j as int),
        decreases m - j,
    {
        if doc[i + j] != pat[j] {
            proof {
                if match_at(doc@, pat@, i as int) {
                    assert(doc@.subrange(i as int, i + m)[j as int] == doc@[i + j]);
                }
            }
            return false;
        }
        proof {
            assert(doc@.subrange(i as int, i + j + 1) =~= pat@.subrange(0, j + 1));
        }
        j += 1;
    }
    proof {
        assert(pat@.subrange(0, m as int) =~= pat@);
    }
    true
}

/// Position of the first occurrence of `pat` in `doc`, scanning left to right.
pub(crate) fn find_first(doc: &Vec<char>, pat: &Vec<char>) -> (r: Option<usize>)
    requires
        pat@.len() >= 1,
    ensures
        match r {
            Some(i) => first_match(doc@, pat@) == Some(i as int),
            None => first_match(doc@, pat@) is None,
        },
{
    let n = doc.len();
    let m = pat.len();
    if m > n {
        return None;
    }
    let mut i: usize = 0;
    while i <= n - m
        invariant
            1 <= m <= n,
            n == doc@.len(),
            m == pat@.len(),
            i <= n - m + 1,
            first_match(doc@, pat@) == first_match_from(doc@, pat@, i as int),
        decreases n - i,
    {
        if matches_at(doc, pat, i) {
            return Some(i);
        }
        i += 1;
    }
    None
}

/// Resolve a marker to the offset where content replacement begins (for a
/// start boundary) or ends (for an end boundary), against a specific
/// document. The marker must match as a literal substring; the first
/// occurrence wins. Fails with `MarkerNotFound` exactly when the marker does
/// not occur in the document.
pub fn locate(doc: &str, marker: &str, mode: BoundaryMode, side: Side) -> (r: Result<
    usize,
    LocateError,
>)
    requires
        marker@.len() > 0,
    ensures
        ({
            let ro = match side {
                Side::Start => resolved_start(doc@, marker@, mode),
                Side::End => resolved_end(doc@, marker@, mode),
            };
            match r {
                Ok(off) => ro == Some(off as int) && off <= doc@.len(),
                Err(e) => ro is None && e == LocateError::MarkerNotFound && !occurs(doc@, marker@),
            }
        }),
{
    let dc = chars_of(doc);
    let mc = chars_of(marker);
    proof {
        lemma_first_match_occurs(doc@, marker@);
        lemma_first_match_props(doc@, marker@);
    }
    match find_first(&dc, &mc) {
        None => Err(LocateError::MarkerNotFound),
        Some(i) => {
            let dn = dc.len();
            let m = mc.len();
            proof {
                assert(match_at(doc@, marker@, i as int));
                assert(i + m <= dn);
            }
            let off = match (side, mode) {
                (Side::Start, BoundaryMode::Exclude) => i + m,
                (Side::Start, BoundaryMode::Include) => i,
                (Side::End, BoundaryMode::Exclude) => i,
                (Side::End, BoundaryMode::Include) => i + m,
            };
            Ok(off)
        },
    }
}

/// Apply a patch: resolve the start and end boundaries independently against
/// the same original document, validate their order, and splice
/// `prefix + replacement + suffix`. The prefix and suffix are copied exactly.
pub fn apply(doc: &str, start: &Boundary, end: &Boundary, replacement: &str) -> (r: Result<
    String,
    PatchError,
>)
    requires
        start.wf(),
        end.wf(),
    ensures
        ({
            let sr = spec_apply(doc@, start.marker@, start.mode, end.marker@, end.mode, replacement@);
            match r {
                Ok(out) => sr == Ok::<Seq<char>, PatchError>(out@),
                Err(pe) => sr == Err::<Seq<char>, PatchError>(pe),
            }
        }),
        !occurs(doc@, start.marker@) ==> r == Err::<String, PatchError>(
            PatchError::BoundaryNotFound { which: Side::Start },
        ),
        occurs(doc@, start.marker@) && !occurs(doc@, end.marker@) ==> r == Err::<
            String,
            PatchError,
        >(PatchError::BoundaryNotFound { which: Side::End }),
{
    proof {
        lemma_first_match_occurs(doc@, start.marker@);
        lemma_first_match_occurs(doc@, end.marker@);
    }
    let s = match locate(doc, start.marker.as_str(), start.mode, Side::Start) {
        Ok(s) => s,
        Err(_) => {
            return Err(PatchError::BoundaryNotFound { which: Side::Start });
        },
    };
    let e = match locate(doc, end.marker.as_str(), end.mode, Side::End) {
        Ok(e) => e,
        Err(_) => {
            return Err(PatchError::BoundaryNotFound { which: Side::End });
        },
    };
    if s > e {
        return Err(PatchError::InvertedRegion);
    }
    let n = doc.unicode_len();
    let prefix = doc.substring_char(0, s);
    let suffix = doc.substring_char(e, n);
    let mut out = prefix.to_owned();
    out.append(replacement);
    out.append(suffix);
    proof {
        assert(out@ =~= spliced(doc@, s as int, e as int, replacement@));
    }
    Ok(out)
}

impl Patch {
    /// A patch is well formed when both of its markers are non-empty.
    pub open spec fn wf(&self) -> bool {
        self.start.wf() && self.end.wf()
    }

    /// Apply this patch to an in-memory document.
    pub fn apply_to_string(&self, content: &str) -> (r: Result<String, PatchError>)
        requires
            self.wf(),
        ensures
            ({
                let sr = spec_apply(
                    content@,
                    self.start.marker@,
                    self.start.mode,
                    self.end.marker@,
                    self.end.mode,
                    self.replacement@,
                );
                match r {
                    Ok(out) => sr == Ok::<Seq<char>, PatchError>(out@),
                    Err(pe) => sr == Err::<Seq<char>, PatchError>(pe),
                }
            }),
    {
        apply(content, &self.start, &self.end, self.replacement.as_str())
    }
}

} // verus!
