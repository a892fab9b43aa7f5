//! The two splitters of the commit-message grammar. A message is cut into
//! segments at blank-line boundaries: a newline whose following whitespace
//! run holds at least one more newline; the boundary ends after the last
//! newline of that run. A labeled list segment is cut into fragments at
//! bullet boundaries: a whitespace run, a hyphen, and a second whitespace
//! run; everything after the label-line fragment is one list entry.

use vstd::prelude::*;

use crate::text::is_space;
use crate::text::is_space_char;
use crate::text::lemma_ws_end;
use crate::text::ws_end;

verus! {

/// Index of the last newline in `s[j..e)`, if any.
pub open spec fn last_newline(s: Seq<char>, j: int, e: int) -> Option<int>
    decreases e - j,
    when 0 <= j <= e <= s.len()
{
    if j == e {
        None
    } else if s[e - 1] == '\n' {
        Some(e - 1)
    } else {
        last_newline(s, j, e - 1)
    }
}

pub proof fn lemma_last_newline(s: Seq<char>, j: int, e: int)
    requires
        0 <= j <= e <= s.len(),
    ensures
        match last_newline(s, j, e) {
            None => forall|k: int| j <= k < e ==> s[k] != '\n',
            Some(m) => j <= m < e && s[m] == '\n' && forall|k: int| m < k < e ==> s[k] != '\n',
        },
    decreases e - j,
{
    if j == e || s[e - 1] == '\n' {
    } else {
        lemma_last_newline(s, j, e - 1);
    }
}

/// End (exclusive) of the blank-line boundary that starts at `i`, if one
/// starts there.
pub open spec fn sep_end_at(s: Seq<char>, i: int) -> Option<int>
    recommends
        0 <= i < s.len(),
{
    if s[i] == '\n' {
        match last_newline(s, i + 1, ws_end(s, i + 1)) {
            Some(m) => Some(m + 1),
            None => None,
        }
    } else {
        None
    }
}

/// Start and end of the first blank-line boundary at or after `i`, if any.
pub open spec fn first_sep_from(s: Seq<char>, i: int) -> Option<(int, int)>
    decreases s.len() - i,
    when 0 <= i <= s.len()
{
    if i == s.len() {
        None
    } else {
        match sep_end_at(s, i) {
            Some(e) => Some((i, e)),
            None => first_sep_from(s, i + 1),
        }
    }
}

pub proof fn lemma_first_sep_from(s: Seq<char>, i: int)
    requires
        0 <= i <= s.len(),
    ensures
        match first_sep_from(s, i) {
            None => true,
            Some((b, e)) => i <= b && b + 2 <= e <= s.len() && sep_end_at(s, b) == Some(e),
        },
    decreases s.len() - i,
{
    if i == s.len() {
    } else {
        match sep_end_at(s, i) {
            Some(e) => {
                lemma_ws_end(s, i + 1);
                lemma_last_newline(s, i + 1, ws_end(s, i + 1));
            },
            None => {
                lemma_first_sep_from(s, i + 1);
            },
        }
    }
}

/// The segments of `s` from index `i` on, the blank-line boundaries removed.
pub open spec fn segments_from(s: Seq<char>, i: int) -> Seq<Seq<char>>
    decreases s.len() - i,
    when 0 <= i <= s.len()
    via segments_from_dec
{
    match first_sep_from(s, i) {
        None => seq![s.subrange(i, s.len() as int)],
        Some((b, e)) => seq![s.subrange(i, b)] + segments_from(s, e),
    }
}

#[via_fn]
proof fn segments_from_dec(s: Seq<char>, i: int) {
    lemma_first_sep_from(s, i);
}

/// The message split at blank-line boundaries: the headline segment followed
/// by the body segments.
pub open spec fn spec_segments(s: Seq<char>) -> Seq<Seq<char>> {
    segments_from(s, 0)
}

/// A message always has at least one segment: its headline.
pub proof fn lemma_segments_nonempty(s: Seq<char>)
    ensures
        spec_segments(s).len() >= 1,
{
    match first_sep_from(s, 0) {
        None => {},
        Some((b, e)) => {},
    }
}

/// End (exclusive) of the bullet boundary that starts at `p`, if one starts
/// there: whitespace, a hyphen, then more whitespace, each run maximal.
pub open spec fn bullet_end_at(s: Seq<char>, p: int) -> Option<int>
    recommends
        0 <= p < s.len(),
{
    if is_space_char(s[p]) {
        let q = ws_end(s, p);
        if q < s.len() && s[q] == '-' && q + 1 < s.len() && is_space_char(s[q + 1]) {
            Some(ws_end(s, q + 1))
        } else {
            None
        }
    } else {
        None
    }
}

/// Start and end of the first bullet boundary at or after `i`, if any.
pub open spec fn first_bullet_from(s: Seq<char>, i: int) -> Option<(int, int)>
    decreases s.len() - i,
    when 0 <= i <= s.len()
{
    if i == s.len() {
        None
    } else {
        match bullet_end_at(s, i) {
            Some(e) => Some((i, e)),
            None => first_bullet_from(s, i + 1),
        }
    }
}

pub proof fn lemma_first_bullet_from(s: Seq<char>, i: int)
    requires
        0 <= i <= s.len(),
    ensures
        match first_bullet_from(s, i) {
            None => true,
            Some((b, e)) => i <= b && b + 2 <= e <= s.len() && bullet_end_at(s, b) == Some(e),
        },
    decreases s.len() - i,
{
    if i == s.len() {
    } else {
        match bullet_end_at(s, i) {
            Some(e) => {
                lemma_ws_end(s, i);
                let q = ws_end(s, i);
                lemma_ws_end(s, q + 1);
            },
            None => {
                lemma_first_bullet_from(s, i + 1);
            },
        }
    }
}

/// The fragments of a list segment from index `i` on, the bullet boundaries
/// removed.
pub open spec fn bullet_fragments_from(s: Seq<char>, i: int) -> Seq<Seq<char>>
    decreases s.len() - i,
    when 0 <= i <= s.len()
    via bullet_fragments_from_dec
{
    match first_bullet_from(s, i) {
        None => seq![s.subrange(i, s.len() as int)],
        Some((b, e)) => seq![s.subrange(i, b)] + bullet_fragments_from(s, e),
    }
}

#[via_fn]
proof fn bullet_fragments_from_dec(s: Seq<char>, i: int) {
    lemma_first_bullet_from(s, i);
}

/// The entries of a bulleted list segment: every fragment after the first
/// one, which is the label line itself.
pub open spec fn spec_parse_array(s: Seq<char>) -> Seq<Seq<char>> {
    bullet_fragments_from(s, 0).drop_first()
}

/// Unfolding step of `bullet_fragments_from` where a bullet boundary exists.
proof fn lemma_bullet_fragments_step(s: Seq<char>, i: int, b: int, e: int)
    requires
        0 <= i <= s.len(),
        i <= e <= s.len(),
        first_bullet_from(s, i) == Some((b, e)),
    ensures
        bullet_fragments_from(s, i) == seq![s.subrange(i, b)] + bullet_fragments_from(s, e),
{
}

/// Unfolding step of `bullet_fragments_from` where no bullet boundary is left.
proof fn lemma_bullet_fragments_last(s: Seq<char>, i: int)
    requires
        0 <= i <= s.len(),
        first_bullet_from(s, i) is None,
    ensures
        bullet_fragments_from(s, i) == seq![s.subrange(i, s.len() as int)],
{
}

/// The end of the whitespace run beginning at `j`, together with the last
/// newline inside that run.
fn scan_ws_run(s: &str, j: usize, n: usize) -> (r: (usize, Option<usize>))
    requires
        n == s@.len(),
        j <= n,
    ensures
        r.0 == ws_end(s@, j as int),
        match r.1 {
            None => last_newline(s@, j as int, ws_end(s@, j as int)) is None,
            Some(m) => last_newline(s@, j as int, ws_end(s@, j as int)) == Some(m as int),
        },
{
    let mut k: usize = j;
    let mut last: Option<usize> = None;
    while k < n && is_space(s.get_char(k))
        invariant
            j <= k <= n,
            n == s@.len(),
            ws_end(s@, j as int) == ws_end(s@, k as int),
            match last {
                None => last_newline(s@, j as int, k as int) is None,
                Some(m) => last_newline(s@, j as int, k as int) == Some(m as int),
            },
        decreases n - k,
    {
        if s.get_char(k) == '\n' {
            last = Some(k);
        }
        k = k + 1;
    }
    (k, last)
}

/// The first blank-line boundary at or after `from`, if any.
fn find_sep_from(s: &str, from: usize, n: usize) -> (r: Option<(usize, usize)>)
    requires
        n == s@.len(),
        from <= n,
    ensures
        match r {
            None => first_sep_from(s@, from as int) is None,
            Some((b, e)) => first_sep_from(s@, from as int) == Some((b as int, e as int)) && from
                <= b && b < e <= n,
        },
{
    let mut i: usize = from;
    while i < n
        invariant
            from <= i <= n,
            n == s@.len(),
            first_sep_from(s@, from as int) == first_sep_from(s@, i as int),
        decreases n - i,
    {
        if s.get_char(i) == '\n' {
            let (q, last) = scan_ws_run(s, i + 1, n);
            match last {
                Some(m) => {
                    proof {
                        lemma_ws_end(s@, i + 1);
                        lemma_last_newline(s@, i + 1, ws_end(s@, i + 1));
                    }
                    return Some((i, m + 1));
                },
                None => {},
            }
        }
        i = i + 1;
    }
    None
}

/// The first bullet boundary at or after `from`, if any.
fn find_bullet_from(s: &str, from: usize, n: usize) -> (r: Option<(usize, usize)>)
    requires
        n == s@.len(),
        from <= n,
    ensures
        match r {
            None => first_bullet_from(s@, from as int) is None,
            Some((b, e)) => first_bullet_from(s@, from as int) == Some((b as int, e as int))
                && from <= b && b < e <= n,
        },
{
    let mut i: usize = from;
    while i < n
        invariant
            from <= i <= n,
            n == s@.len(),
            first_bullet_from(s@, from as int) == first_bullet_from(s@, i as int),
        decreases n - i,
    {
        if is_space(s.get_char(i)) {
            let (q, _) = scan_ws_run(s, i, n);
            if q < n && s.get_char(q) == '-' && q + 1 < n && is_space(s.get_char(q + 1)) {
                let (e, _) = scan_ws_run(s, q + 1, n);
                proof {
                    lemma_ws_end(s@, i as int);
                    lemma_ws_end(s@, q + 1);
                }
                return Some((i, e));
            }
        }
        i = i + 1;
    }
    None
}

/// Split the message at blank-line boundaries; there is always at least the
/// headline segment.
pub fn split_segments(s: &str) -> (segs: Vec<String>)
    ensures
        segs.deep_view() == spec_segments(s@),
        segs.len() >= 1,
{
    let n = s.unicode_len();
    let mut segs: Vec<String> = Vec::new();
    let mut cur: usize = 0;
    loop
        invariant
            cur <= n,
            n == s@.len(),
            segments_from(s@, 0) == segs.deep_view() + segments_from(s@, cur as int),
        decreases n - cur,
    {
        let ghost prev = segs.deep_view();
        match find_sep_from(s, cur, n) {
            Some((b, e)) => {
                let piece = s.substring_char(cur, b).to_owned();
                segs.push(piece);
                proof {
                    assert(segs.deep_view() =~= prev.push(s@.subrange(cur as int, b as int)));
                    assert(segs.deep_view() + segments_from(s@, e as int) =~= prev
                        + segments_from(s@, cur as int));
                }
                cur = e;
            },
            None => {
                let piece = s.substring_char(cur, n).to_owned();
                segs.push(piece);
                proof {
                    assert(segs.deep_view() =~= prev.push(s@.subrange(cur as int, n as int)));
                    assert(segs.deep_view() =~= prev + segments_from(s@, cur as int));
                }
                return segs;
            },
        }
    }
}

/// Parse a bulleted list segment: every fragment after the label line, in
/// source order, becomes one entry.
pub fn parse_array(input: &str) -> (entries: Vec<String>)
    ensures
        entries.deep_view() == spec_parse_array(input@),
{
    let n = input.unicode_len();
    let mut entries: Vec<String> = Vec::new();
    let mut cur: usize;
    match find_bullet_from(input, 0, n) {
        None => {
            proof {
                assert(entries.deep_view() =~= spec_parse_array(input@));
            }
            return entries;
        },
        Some((_, e0)) => {
            cur = e0;
        },
    }
    proof {
        assert(bullet_fragments_from(input@, 0).drop_first() =~= bullet_fragments_from(
            input@,
            cur as int,
        ));
        assert(entries.deep_view() + bullet_fragments_from(input@, cur as int)
            =~= bullet_fragments_from(input@, cur as int));
    }
    loop
        invariant
            cur <= n,
            n == input@.len(),
            0 <= cur as int <= input@.len(),
            spec_parse_array(input@) == entries.deep_view() + bullet_fragments_from(
                input@,
                cur as int,
            ),
        decreases n - cur,
    {
        let ghost prev = entries.deep_view();
        match find_bullet_from(input, cur, n) {
            Some((b, e)) => {
                let piece = input.substring_char(cur, b).to_owned();
                entries.push(piece);
                proof {
                    lemma_bullet_fragments_step(input@, cur as int, b as int, e as int);
                    assert(entries.deep_view() =~= prev.push(
                        input@.subrange(cur as int, b as int),
                    ));
                    assert(entries.deep_view() + bullet_fragments_from(input@, e as int) =~= prev
                        + bullet_fragments_from(input@, cur as int));
                }
                cur = e;
            },
            None => {
                let piece = input.substring_char(cur, n).to_owned();
                entries.push(piece);
                proof {
                    lemma_bullet_fragments_last(input@, cur as int);
                    assert(entries.deep_view() =~= prev.push(
                        input@.subrange(cur as int, n as int),
                    ));
                    assert(entries.deep_view() =~= prev + bullet_fragments_from(
                        input@,
                        cur as int,
                    ));
                }
                return entries;
            },
        }
    }
}

} // verus!
