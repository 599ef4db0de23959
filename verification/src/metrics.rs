//! Project metrics and the markdown badge lines built from them.

use vstd::prelude::*;

verus! {

use crate::badge::format_size;
use crate::badge::formatted_size;
use crate::decimal::dec_digits;
use crate::decimal::decimal_string;
use crate::patcher::chars_of;
use crate::patcher::find_first;
use crate::patcher::first_match;
use crate::patcher::lemma_first_match_occurs;
use crate::patcher::lemma_first_match_props;
use crate::patcher::match_at;
use crate::patcher::occurs;
use vstd::string::StrSliceExecFns;
use vstd::string::StringExecFns;

/// Whether a character has the Unicode white-space property.
pub uninterp spec fn is_unicode_whitespace(c: char) -> bool;

/// Relies on char::is_whitespace: whether the character has the Unicode
/// white-space property, a function of the character alone.
pub assume_specification[ char::is_whitespace ](c: char) -> (r: bool)
    ensures
        r == is_unicode_whitespace(c),
;

/// Project metrics: how many unique dependencies the build graph has, and
/// how large the release binary is.
pub struct Metrics {
    pub dep_count: usize,
    pub binary_size_bytes: u64,
}

/// The two markdown badge lines for a set of metrics: a dependency-count
/// badge and a binary-size badge, each linking to the crate's page.
pub open spec fn badge_markdown(
    dep_count: usize,
    binary_size_bytes: u64,
    crate_name: &str,
) -> Seq<char> {
    let url = "https://crates.io/crates/"@ + crate_name@;
    let size = formatted_size(binary_size_bytes);
    "[![Dependencies: "@ + dec_digits(dep_count as nat)
        + "](https://img.shields.io/badge/cargo%20tree-"@ + dec_digits(dep_count as nat)
        + "-blue)]("@ + url + ")\n[![Binary Size: "@ + size
        + "](https://img.shields.io/badge/build%20size-"@ + size + "-green)]("@ + url + ")"@
}

/// Generate the shields.io badge markdown for the given metrics.
pub fn generate_badges(metrics: &Metrics, crate_name: &str) -> (r: String)
    ensures
        r@ == badge_markdown(metrics.dep_count, metrics.binary_size_bytes, crate_name),
{
    let size_s = format_size(metrics.binary_size_bytes);
    let dep_s = decimal_string(metrics.dep_count as u64);
    let mut r = String::new();
    r.append("[![Dependencies: ");
    r.append(dep_s.as_str());
    r.append("](https://img.shields.io/badge/cargo%20tree-");
    r.append(dep_s.as_str());
    r.append("-blue)](");
    r.append("https://crates.io/crates/");
    r.append(crate_name);
    r.append(")\n[![Binary Size: ");
    r.append(size_s.as_str());
    r.append("](https://img.shields.io/badge/build%20size-");
    r.append(size_s.as_str());
    r.append("-green)](");
    r.append("https://crates.io/crates/");
    r.append(crate_name);
    r.append(")");
    proof {
        assert(r@ =~= badge_markdown(metrics.dep_count, metrics.binary_size_bytes, crate_name));
    }
    r
}

/// The position of the first newline at or after `i`, or the end of the text.
pub open spec fn line_end(text: Seq<char>, i: int) -> int
    decreases text.len() - i,
{
    if i < 0 {
        0
    } else if i >= text.len() {
        text.len() as int
    } else if text[i] == '\n' {
        i
    } else {
        line_end(text, i + 1)
    }
}

/// The position of the first non-whitespace character in `[i, j)`, or `j`.
pub open spec fn skip_ws(text: Seq<char>, i: int, j: int) -> int
    decreases j - i,
{
    if i < 0 || i >= j || j > text.len() {
        j
    } else if is_unicode_whitespace(text[i]) {
        skip_ws(text, i + 1, j)
    } else {
        i
    }
}

/// The position of the first whitespace character in `[i, j)`, or `j`.
pub open spec fn token_end(text: Seq<char>, i: int, j: int) -> int
    decreases j - i,
{
    if i < 0 || i >= j || j > text.len() {
        j
    } else if is_unicode_whitespace(text[i]) {
        i
    } else {
        token_end(text, i + 1, j)
    }
}

/// The first whitespace-separated token of the line `[i, j)`: the leading
/// run of non-whitespace characters after any leading whitespace. Empty when
/// the line is empty or all whitespace.
pub open spec fn line_token(text: Seq<char>, i: int, j: int) -> Seq<char> {
    let a = skip_ws(text, i, j);
    let b = token_end(text, a, j);
    text.subrange(a, b)
}

pub proof fn lemma_line_end_bounds(text: Seq<char>, i: int)
    requires
        0 <= i <= text.len(),
    ensures
        i <= line_end(text, i) <= text.len(),
        line_end(text, i) < text.len() ==> text[line_end(text, i)] == '\n',
        forall|k: int| i <= k < line_end(text, i) ==> text[k] != '\n',
    decreases text.len() - i,
{
    if i < text.len() && text[i] != '\n' {
        lemma_line_end_bounds(text, i + 1);
    }
}

proof fn lemma_line_end_is(text: Seq<char>, i: int, j: int)
    requires
        0 <= i <= j <= text.len(),
        forall|k: int| i <= k < j ==> text[k] != '\n',
        j < text.len() ==> text[j] == '\n',
    ensures
        line_end(text, i) == j,
    decreases j - i,
{
    if i < j {
        assert(text[i] != '\n');
        lemma_line_end_is(text, i + 1, j);
    }
}

proof fn lemma_skip_ws_is(text: Seq<char>, i: int, j: int, a: int)
    requires
        0 <= i <= a <= j <= text.len(),
        forall|k: int| i <= k < a ==> is_unicode_whitespace(text[k]),
        a < j ==> !is_unicode_whitespace(text[a]),
    ensures
        skip_ws(text, i, j) == a,
    decreases a - i,
{
    if i < a {
        assert(is_unicode_whitespace(text[i]));
        lemma_skip_ws_is(text, i + 1, j, a);
    }
}

proof fn lemma_token_end_is(text: Seq<char>, i: int, j: int, b: int)
    requires
        0 <= i <= b <= j <= text.len(),
        forall|k: int| i <= k < b ==> !is_unicode_whitespace(text[k]),
        b < j ==> is_unicode_whitespace(text[b]),
    ensures
        token_end(text, i, j) == b,
    decreases b - i,
{
    if i < b {
        assert(!is_unicode_whitespace(text[i]));
        lemma_token_end_is(text, i + 1, j, b);
    }
}

/// The set of non-empty first tokens of the lines of `text` from line start
/// `i` on.
pub open spec fn token_set_from(text: Seq<char>, i: int) -> Set<Seq<char>>
    decreases text.len() - i,
    when 0 <= i <= text.len()
    via token_set_from_decreases
{
    let j = line_end(text, i);
    let t = line_token(text, i, j);
    let here: Set<Seq<char>> = if t.len() > 0 {
        Set::empty().insert(t)
    } else {
        Set::empty()
    };
    if j >= text.len() {
        here
    } else {
        here.union(token_set_from(text, j + 1))
    }
}

#[via_fn]
proof fn token_set_from_decreases(text: Seq<char>, i: int) {
    lemma_line_end_bounds(text, i);
}

/// The set of distinct dependency names in a build-graph listing: the
/// non-empty first whitespace-separated tokens of its lines.
pub open spec fn dep_name_set(text: Seq<char>) -> Set<Seq<char>> {
    token_set_from(text, 0)
}

pub proof fn lemma_token_set_finite(text: Seq<char>, i: int)
    requires
        0 <= i <= text.len(),
    ensures
        token_set_from(text, i).finite(),
    decreases text.len() - i,
{
    lemma_line_end_bounds(text, i);
    let j = line_end(text, i);
    if j < text.len() {
        lemma_token_set_finite(text, j + 1);
    }
}

/// The views of a vector of character vectors.
spec fn views_of(seen: Seq<Vec<char>>) -> Seq<Seq<char>> {
    seen.map_values(|v: Vec<char>| v@)
}

/// No two entries hold the same characters.
spec fn distinct_views(seen: Seq<Vec<char>>) -> bool {
    forall|x: int, y: int|
        0 <= x < y < seen.len() ==> #[trigger] seen[x]@ != #[trigger] seen[y]@
}

/// Whether two character vectors hold the same characters.
fn eq_chars(a: &Vec<char>, b: &Vec<char>) -> (r: bool)
    ensures
        r == (a@ == b@),
{
    if a.len() != b.len() {
        return false;
    }
    let mut k: usize = 0;
    while k < a.len()
        invariant
            k <= a@.len(),
            a@.len() == b@.len(),
            forall|t: int| 0 <= t < k ==> a@[t] == b@[t],
        decreases a@.len() - k,
    {
        if a[k] != b[k] {
            return false;
        }
        k += 1;
    }
    proof {
        assert(a@ =~= b@);
    }
    true
}

/// Whether `t`'s characters already stand in `seen`.
fn seen_contains(seen: &Vec<Vec<char>>, t: &Vec<char>) -> (r: bool)
    ensures
        r == exists|k: int| 0 <= k < seen@.len() && #[trigger] seen@[k]@ == t@,
{
    let mut k: usize = 0;
    while k < seen.len()
        invariant
            k <= seen@.len(),
            forall|x: int| 0 <= x < k ==> #[trigger] seen@[x]@ != t@,
        decreases seen@.len() - k,
    {
        if eq_chars(&seen[k], t) {
            proof {
                assert(seen@[k as int]@ == t@);
            }
            return true;
        }
        k += 1;
    }
    false
}

/// Count the distinct dependency names in a build-graph listing: one name
/// per line, taken as the line's first whitespace-separated token, with
/// duplicates and blank lines ignored.
pub fn count_unique_deps(listing: &str) -> (n: usize)
    ensures
        n == dep_name_set(listing@).len(),
{
    let text = chars_of(listing);
    let total = text.len();
    let mut seen: Vec<Vec<char>> = Vec::new();
    let mut i: usize = 0;
    proof {
        assert(token_set_from(listing@, 0) =~= views_of(seen@).to_set().union(
            token_set_from(listing@, 0),
        ));
    }
    loop
        invariant_except_break
            i <= total,
            total == listing@.len(),
            text@ == listing@,
            distinct_views(seen@),
            token_set_from(listing@, 0) == views_of(seen@).to_set().union(
                token_set_from(listing@, i as int),
            ),
        ensures
            distinct_views(seen@),
            token_set_from(listing@, 0) == views_of(seen@).to_set(),
        decreases total - i,
    {
        // the current line is [i, j)
        let mut j = i;
        while j < total && text[j] != '\n'
            invariant
                i <= j <= total,
                total == text@.len(),
                forall|k: int| i <= k < j ==> text@[k] != '\n',
            decreases total - j,
        {
            j += 1;
        }
        // its first token is [a, b)
        let mut a = i;
        while a < j && text[a].is_whitespace()
            invariant
                i <= a <= j <= total,
                total == text@.len(),
                forall|k: int| i <= k < a ==> is_unicode_whitespace(text@[k]),
            decreases j - a,
        {
            a += 1;
        }
        let mut b = a;
        while b < j && !text[b].is_whitespace()
            invariant
                a <= b <= j <= total,
                total == text@.len(),
                forall|k: int| a <= k < b ==> !is_unicode_whitespace(text@[k]),
            decreases j - b,
        {
            b += 1;
        }
        proof {
            lemma_line_end_is(listing@, i as int, j as int);
            lemma_skip_ws_is(listing@, i as int, j as int, a as int);
            lemma_token_end_is(listing@, a as int, j as int, b as int);
        }
        let mut tok: Vec<char> = Vec::new();
        let mut k = a;
        while k < b
            invariant
                a <= k <= b <= total,
                total == text@.len(),
                tok@ == text@.subrange(a as int, k as int),
            decreases b - k,
        {
            tok.push(text[k]);
            proof {
                assert(tok@ =~= text@.subrange(a as int, k + 1));
            }
            k += 1;
        }
        proof {
            assert(tok@ == line_token(listing@, i as int, line_end(listing@, i as int)));
        }
        let ghost seen0 = seen@;
        let ghost here: Set<Seq<char>> = if tok@.len() > 0 {
            Set::<Seq<char>>::empty().insert(tok@)
        } else {
            Set::empty()
        };
        let tok_nonempty = tok.len() > 0;
        let tok_is_new = tok_nonempty && !seen_contains(&seen, &tok);
        let ghost tokv = tok@;
        if tok_is_new {
            seen.push(tok);
        }
        proof {
            let vs0 = views_of(seen0);
            let vs1 = views_of(seen@);
            if tok_is_new {
                assert(vs1 =~= vs0.push(tokv));
                assert(distinct_views(seen@));
                assert forall|e: Seq<char>| vs1.contains(e) implies vs0.to_set().insert(
                    tokv,
                ).contains(e) by {
                    let idx = choose|idx: int| 0 <= idx < vs1.len() && vs1[idx] == e;
                    if idx < vs0.len() {
                        assert(vs0[idx] == e);
                    }
                }
                assert forall|e: Seq<char>|
                    vs0.to_set().insert(tokv).contains(e) implies vs1.contains(e) by {
                    if e == tokv {
                        assert(vs1[vs1.len() - 1] == e);
                    } else {
                        let idx = choose|idx: int| 0 <= idx < vs0.len() && vs0[idx] == e;
                        assert(vs1[idx] == e);
                    }
                }
                assert(vs1.to_set() =~= vs0.to_set().insert(tokv));
            } else {
                assert(vs1 == vs0);
                if tok_nonempty {
                    let w = choose|w: int| 0 <= w < seen0.len() && #[trigger] seen0[w]@ == tokv;
                    assert(vs0[w] == tokv);
                    assert(vs0.to_set().contains(tokv));
                }
            }
            // the line's token joins the seen set; the rest of the text remains
            if j < total {
                assert(token_set_from(listing@, i as int) == here.union(
                    token_set_from(listing@, j as int + 1),
                ));
                assert(views_of(seen@).to_set().union(token_set_from(listing@, j as int + 1))
                    =~= views_of(seen0).to_set().union(token_set_from(listing@, i as int)));
            } else {
                assert(token_set_from(listing@, i as int) == here);
                assert(views_of(seen@).to_set() =~= views_of(seen0).to_set().union(
                    token_set_from(listing@, i as int),
                ));
            }
        }
        if j >= total {
            break;
        }
        i = j + 1;
    }
    proof {
        lemma_token_set_finite(listing@, 0);
        let views = views_of(seen@);
        assert(views.no_duplicates());
        views.unique_seq_to_set();
    }
    seen.len()
}

/// The metadata text that announces a binary target, compact form.
pub open spec fn kind_pat_a() -> Seq<char> {
    "\"kind\":[\"bin\"]"@
}

/// The metadata text that announces a binary target, spaced form.
pub open spec fn kind_pat_b() -> Seq<char> {
    "\"kind\": [\"bin\"]"@
}

/// The metadata text that announces a target name.
pub open spec fn name_pat() -> Seq<char> {
    "\"name\":"@
}

/// The metadata text that opens a quoted target name.
pub open spec fn name_quote_pat() -> Seq<char> {
    "\"name\":\""@
}

/// Whether the line starting at `i` mentions a binary target.
pub open spec fn is_bin_kind_line(text: Seq<char>, i: int) -> bool {
    let line = text.subrange(i, line_end(text, i));
    occurs(line, kind_pat_a()) || occurs(line, kind_pat_b())
}

/// Whether the line starting at `i` mentions a target name.
pub open spec fn is_name_line(text: Seq<char>, i: int) -> bool {
    occurs(text.subrange(i, line_end(text, i)), name_pat())
}

/// Start of the first line at or after line start `i` that mentions a binary
/// target.
pub open spec fn first_bin_kind_line(text: Seq<char>, i: int) -> Option<int>
    decreases text.len() - i,
    when 0 <= i <= text.len()
    via first_bin_kind_line_decreases
{
    let j = line_end(text, i);
    if is_bin_kind_line(text, i) {
        Some(i)
    } else if j >= text.len() {
        None
    } else {
        first_bin_kind_line(text, j + 1)
    }
}

#[via_fn]
proof fn first_bin_kind_line_decreases(text: Seq<char>, i: int) {
    lemma_line_end_bounds(text, i);
}

/// Start of the first line at or after line start `i` that mentions a target
/// name.
pub open spec fn first_name_line(text: Seq<char>, i: int) -> Option<int>
    decreases text.len() - i,
    when 0 <= i <= text.len()
    via first_name_line_decreases
{
    let j = line_end(text, i);
    if is_name_line(text, i) {
        Some(i)
    } else if j >= text.len() {
        None
    } else {
        first_name_line(text, j + 1)
    }
}

#[via_fn]
proof fn first_name_line_decreases(text: Seq<char>, i: int) {
    lemma_line_end_bounds(text, i);
}

/// The name quoted after the first `"name":"` of `line`, up to the next
/// quote, if both are present.
pub open spec fn line_name_extract(line: Seq<char>) -> Option<Seq<char>> {
    match first_match(line, name_quote_pat()) {
        None => None,
        Some(st) => {
            let cs = st + name_quote_pat().len();
            match first_match(line.subrange(cs, line.len() as int), "\""@) {
                None => None,
                Some(q) => Some(line.subrange(cs, cs + q)),
            }
        },
    }
}

/// The binary target's name in a build-metadata text: on the first line at
/// or after the first line that announces a binary target, and itself
/// announcing a target name, the text quoted after `"name":"`.
pub open spec fn binary_name_in(text: Seq<char>) -> Option<Seq<char>> {
    match first_bin_kind_line(text, 0) {
        None => None,
        Some(ki) => match first_name_line(text, ki) {
            None => None,
            Some(ni) => line_name_extract(text.subrange(ni, line_end(text, ni))),
        },
    }
}

/// The characters of `text` in the range `[from, to)`.
fn copy_range(text: &Vec<char>, from: usize, to: usize) -> (v: Vec<char>)
    requires
        from <= to <= text@.len(),
    ensures
        v@ == text@.subrange(from as int, to as int),
{
    let mut v: Vec<char> = Vec::new();
    let mut k = from;
    while k < to
        invariant
            from <= k <= to <= text@.len(),
            v@ == text@.subrange(from as int, k as int),
        decreases to - k,
    {
        v.push(text[k]);
        proof {
            assert(v@ =~= text@.subrange(from as int, k + 1));
        }
        k += 1;
    }
    v
}

/// The end of the line that starts at `i`: the position of the next newline,
/// or the end of the text.
fn find_line_end(text: &Vec<char>, i: usize) -> (j: usize)
    requires
        i <= text@.len(),
    ensures
        i <= j <= text@.len(),
        j as int == line_end(text@, i as int),
        j < text@.len() ==> text@[j as int] == '\n',
    decreases text@.len() - i,
{
    let total = text.len();
    let mut j = i;
    while j < total && text[j] != '\n'
        invariant
            i <= j <= total,
            total == text@.len(),
            forall|k: int| i <= k < j ==> text@[k] != '\n',
        decreases total - j,
    {
        j += 1;
    }
    proof {
        lemma_line_end_is(text@, i as int, j as int);
    }
    j
}

/// Extract the binary target's name from build-metadata text, scanning its
/// lines for a binary target and the quoted name that follows.
pub fn binary_name_from_metadata(metadata: &str) -> (r: Option<String>)
    ensures
        match r {
            Some(name) => binary_name_in(metadata@) == Some(name@),
            None => binary_name_in(metadata@) is None,
        },
{
    let text = chars_of(metadata);
    let total = text.len();
    let ka = chars_of("\"kind\":[\"bin\"]");
    let kb = chars_of("\"kind\": [\"bin\"]");
    let np = chars_of("\"name\":");
    let nq = chars_of("\"name\":\"");
    let qv = chars_of("\"");
    proof {
        reveal_strlit("\"kind\":[\"bin\"]");
        reveal_strlit("\"kind\": [\"bin\"]");
        reveal_strlit("\"name\":");
        reveal_strlit("\"name\":\"");
        reveal_strlit("\"");
    }
    // the first line that announces a binary target
    let mut i: usize = 0;
    let mut ki: usize = 0;
    let mut found_kind = false;
    loop
        invariant_except_break
            i <= total,
            total == text@.len(),
            text@ == metadata@,
            ka@ == kind_pat_a(),
            kb@ == kind_pat_b(),
            ka@.len() > 0,
            kb@.len() > 0,
            !found_kind,
            first_bin_kind_line(metadata@, 0) == first_bin_kind_line(metadata@, i as int),
        ensures
            total == text@.len(),
            text@ == metadata@,
            found_kind ==> ki <= total && first_bin_kind_line(metadata@, 0) == Some(ki as int),
            !found_kind ==> first_bin_kind_line(metadata@, 0) is None,
        decreases total - i,
    {
        let j = find_line_end(&text, i);
        let line = copy_range(&text, i, j);
        let hit_a = match find_first(&line, &ka) {
            Some(_) => true,
            None => false,
        };
        let hit_b = match find_first(&line, &kb) {
            Some(_) => true,
            None => false,
        };
        proof {
            lemma_first_match_occurs(line@, ka@);
            lemma_first_match_occurs(line@, kb@);
        }
        if hit_a || hit_b {
            ki = i;
            found_kind = true;
            proof {
                assert(is_bin_kind_line(metadata@, i as int));
            }
            break;
        }
        proof {
            assert(!is_bin_kind_line(metadata@, i as int));
        }
        if j >= total {
            proof {
                assert(first_bin_kind_line(metadata@, i as int) is None);
            }
            break;
        }
        i = j + 1;
    }
    if !found_kind {
        return None;
    }
    // from there on, the first line that announces a target name
    let mut i2: usize = ki;
    let mut found_name = false;
    let mut nstart: usize = 0;
    let mut nend: usize = 0;
    loop
        invariant_except_break
            i2 <= total,
            total == text@.len(),
            text@ == metadata@,
            np@ == name_pat(),
            np@.len() > 0,
            !found_name,
            ki <= total,
            first_name_line(metadata@, ki as int) == first_name_line(metadata@, i2 as int),
        ensures
            total == text@.len(),
            text@ == metadata@,
            ki <= total,
            found_name ==> nstart <= nend <= total && first_name_line(metadata@, ki as int)
                == Some(nstart as int) && nend as int == line_end(metadata@, nstart as int),
            !found_name ==> first_name_line(metadata@, ki as int) is None,
        decreases total - i2,
    {
        let j = find_line_end(&text, i2);
        let line = copy_range(&text, i2, j);
        let hit = match find_first(&line, &np) {
            Some(_) => true,
            None => false,
        };
        proof {
            lemma_first_match_occurs(line@, np@);
        }
        if hit {
            nstart = i2;
            nend = j;
            found_name = true;
            proof {
                assert(is_name_line(metadata@, i2 as int));
            }
            break;
        }
        proof {
            assert(!is_name_line(metadata@, i2 as int));
        }
        if j >= total {
            proof {
                assert(first_name_line(metadata@, i2 as int) is None);
            }
            break;
        }
        i2 = j + 1;
    }
    if !found_name {
        return None;
    }
    // on that line, the name quoted after `"name":"`
    let nline = copy_range(&text, nstart, nend);
    let st = match find_first(&nline, &nq) {
        Some(st) => st,
        None => {
            return None;
        },
    };
    proof {
        lemma_first_match_props(nline@, nq@);
        assert(match_at(nline@, nq@, st as int));
    }
    let cs = st + nq.len();
    let sub = copy_range(&nline, cs, nline.len());
    let q = match find_first(&sub, &qv) {
        Some(q) => q,
        None => {
            return None;
        },
    };
    proof {
        lemma_first_match_props(sub@, qv@);
        assert(match_at(sub@, qv@, q as int));
    }
    let name = metadata.substring_char(nstart + cs, nstart + cs + q).to_owned();
    proof {
        assert(nline@.subrange(cs as int, cs as int + q) =~= metadata@.subrange(
            nstart as int + cs,
            nstart as int + cs + q,
        ));
        assert(line_name_extract(nline@) == Some(name@));
    }
    Some(name)
}

} // verus!
