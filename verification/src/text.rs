//! Character-level vocabulary of the commit-message grammar: the whitespace
//! class, whitespace runs, trimming, character search, ASCII-case-insensitive
//! keyword matching, and the lexicographic order on strings that the
//! aggregator sorts its contexts by.

use vstd::prelude::*;

verus! {

/// Whitespace as the grammar understands it: the Unicode `White_Space`
/// characters, the same set that `char::is_whitespace` recognizes.
pub open spec fn is_space_char(c: char) -> bool {
    c == ' ' || c == '\t' || c == '\n' || c == '\u{b}' || c == '\u{c}' || c == '\r' || c
        == '\u{85}' || c == '\u{a0}' || c == '\u{1680}' || (0x2000 <= c as u32 && c as u32
        <= 0x200a) || c == '\u{2028}' || c == '\u{2029}' || c == '\u{202f}' || c == '\u{205f}' || c
        == '\u{3000}'
}

/// First index at or after `j` that does not hold whitespace (the end of the
/// whitespace run beginning at `j`).
pub open spec fn ws_end(s: Seq<char>, j: int) -> int
    decreases s.len() - j,
    when 0 <= j <= s.len()
{
    if j == s.len() || !is_space_char(s[j]) {
        j
    } else {
        ws_end(s, j + 1)
    }
}

pub proof fn lemma_ws_end(s: Seq<char>, j: int)
    requires
        0 <= j <= s.len(),
    ensures
        j <= ws_end(s, j) <= s.len(),
        forall|k: int| j <= k < ws_end(s, j) ==> is_space_char(s[k]),
        ws_end(s, j) < s.len() ==> !is_space_char(s[ws_end(s, j)]),
    decreases s.len() - j,
{
    if j == s.len() || !is_space_char(s[j]) {
    } else {
        lemma_ws_end(s, j + 1);
    }
}

/// One past the last index before `e` that does not hold whitespace (the
/// start of the whitespace run ending at `e`).
pub open spec fn ws_rbegin(s: Seq<char>, e: int) -> int
    decreases e,
    when 0 <= e <= s.len()
{
    if e == 0 || !is_space_char(s[e - 1]) {
        e
    } else {
        ws_rbegin(s, e - 1)
    }
}

pub proof fn lemma_ws_rbegin(s: Seq<char>, e: int)
    requires
        0 <= e <= s.len(),
    ensures
        0 <= ws_rbegin(s, e) <= e,
        forall|k: int| ws_rbegin(s, e) <= k < e ==> is_space_char(s[k]),
        ws_rbegin(s, e) > 0 ==> !is_space_char(s[ws_rbegin(s, e) - 1]),
    decreases e,
{
    if e == 0 || !is_space_char(s[e - 1]) {
    } else {
        lemma_ws_rbegin(s, e - 1);
    }
}

/// The string with leading and trailing whitespace removed.
pub open spec fn trim_spec(s: Seq<char>) -> Seq<char> {
    if ws_end(s, 0) == s.len() {
        Seq::empty()
    } else {
        s.subrange(ws_end(s, 0), ws_rbegin(s, s.len() as int))
    }
}

/// First index at or after `i` holding the character `c`.
pub open spec fn find_from(s: Seq<char>, i: int, c: char) -> Option<int>
    decreases s.len() - i,
    when 0 <= i <= s.len()
{
    if i == s.len() {
        None
    } else if s[i] == c {
        Some(i)
    } else {
        find_from(s, i + 1, c)
    }
}

pub proof fn lemma_find_from(s: Seq<char>, i: int, c: char)
    requires
        0 <= i <= s.len(),
    ensures
        match find_from(s, i, c) {
            None => forall|k: int| i <= k < s.len() ==> s[k] != c,
            Some(m) => i <= m < s.len() && s[m] == c && forall|k: int| i <= k < m ==> s[k] != c,
        },
    decreases s.len() - i,
{
    if i == s.len() || s[i] == c {
    } else {
        lemma_find_from(s, i + 1, c);
    }
}

/// `a` equals the keyword character `b` up to ASCII case; `b` stands as it
/// does in the keyword, lower case wherever it is a letter.
pub open spec fn eq_ci_char(a: char, b: char) -> bool {
    a == b || (97 <= b as u32 <= 122 && a as u32 + 32 == b as u32)
}

/// `a` equals the keyword `kw` up to ASCII case.
pub open spec fn seq_eq_ci(a: Seq<char>, kw: Seq<char>) -> bool {
    a.len() == kw.len() && forall|k: int| 0 <= k < kw.len() ==> eq_ci_char(a[k], #[trigger] kw[k])
}

/// `s` begins with the keyword `kw`, compared up to ASCII case.
pub open spec fn starts_with_ci(s: Seq<char>, kw: Seq<char>) -> bool {
    s.len() >= kw.len() && seq_eq_ci(s.subrange(0, kw.len() as int), kw)
}

/// Strict lexicographic order by code point, decided from index `i` on.
pub open spec fn lex_lt_from(a: Seq<char>, b: Seq<char>, i: int) -> bool
    decreases a.len() - i,
    when 0 <= i
{
    if i >= b.len() {
        false
    } else if i >= a.len() {
        true
    } else if a[i] != b[i] {
        a[i] < b[i]
    } else {
        lex_lt_from(a, b, i + 1)
    }
}

/// Strict lexicographic order on strings, by code point; the order in which
/// the aggregator keeps and renders its context keys.
pub open spec fn lex_lt(a: Seq<char>, b: Seq<char>) -> bool {
    lex_lt_from(a, b, 0)
}

pub proof fn lemma_lex_lt_from_irrefl(a: Seq<char>, i: int)
    requires
        0 <= i,
    ensures
        !lex_lt_from(a, a, i),
    decreases a.len() - i,
{
    if i < a.len() {
        lemma_lex_lt_from_irrefl(a, i + 1);
    }
}

pub proof fn lemma_lex_lt_from_asym(a: Seq<char>, b: Seq<char>, i: int)
    requires
        0 <= i,
    ensures
        !(lex_lt_from(a, b, i) && lex_lt_from(b, a, i)),
    decreases a.len() - i,
{
    if i < a.len() && i < b.len() && a[i] == b[i] {
        lemma_lex_lt_from_asym(a, b, i + 1);
    }
}

pub proof fn lemma_lex_lt_from_total(a: Seq<char>, b: Seq<char>, i: int)
    requires
        0 <= i <= a.len(),
        i <= b.len(),
    ensures
        lex_lt_from(a, b, i) || lex_lt_from(b, a, i) || (a.len() == b.len() && forall|j: int|
            i <= j < a.len() ==> a[j] == b[j]),
    decreases a.len() - i,
{
    if i == a.len() {
        if i < b.len() {
            assert(lex_lt_from(a, b, i));
        }
    } else if i == b.len() {
        assert(lex_lt_from(b, a, i));
    } else if a[i] != b[i] {
        if a[i] < b[i] {
            assert(lex_lt_from(a, b, i));
        } else {
            assert(lex_lt_from(b, a, i));
        }
    } else {
        lemma_lex_lt_from_total(a, b, i + 1);
    }
}

pub proof fn lemma_lex_lt_from_trans(a: Seq<char>, b: Seq<char>, c: Seq<char>, i: int)
    requires
        0 <= i,
        lex_lt_from(a, b, i),
        lex_lt_from(b, c, i),
    ensures
        lex_lt_from(a, c, i),
    decreases a.len() - i,
{
    if i < a.len() && i < b.len() && i < c.len() && a[i] == b[i] && b[i] == c[i] {
        lemma_lex_lt_from_trans(a, b, c, i + 1);
    }
}

/// The lexicographic order is irreflexive, asymmetric, total and transitive.
pub proof fn lemma_lex_lt_order(a: Seq<char>, b: Seq<char>, c: Seq<char>)
    ensures
        !lex_lt(a, a),
        !(lex_lt(a, b) && lex_lt(b, a)),
        lex_lt(a, b) || lex_lt(b, a) || a == b,
        lex_lt(a, b) && lex_lt(b, c) ==> lex_lt(a, c),
{
    lemma_lex_lt_from_irrefl(a, 0);
    lemma_lex_lt_from_asym(a, b, 0);
    lemma_lex_lt_from_total(a, b, 0);
    if !lex_lt(a, b) && !lex_lt(b, a) {
        assert(a =~= b);
    }
    if lex_lt(a, b) && lex_lt(b, c) {
        lemma_lex_lt_from_trans(a, b, c, 0);
    }
}

/// Three-way lexicographic comparison of two strings by code point.
pub fn lex_compare(a: &str, b: &str) -> (c: i8)
    ensures
        c == -1 || c == 0 || c == 1,
        c == -1 ==> lex_lt(a@, b@),
        c == 0 ==> a@ == b@,
        c == 1 ==> lex_lt(b@, a@),
{
    let na = a.unicode_len();
    let nb = b.unicode_len();
    let mut i: usize = 0;
    while i < na && i < nb
        invariant
            i <= na,
            i <= nb,
            na == a@.len(),
            nb == b@.len(),
            forall|j: int| 0 <= j < i ==> a@[j] == b@[j],
            lex_lt_from(a@, b@, 0) == lex_lt_from(a@, b@, i as int),
            lex_lt_from(b@, a@, 0) == lex_lt_from(b@, a@, i as int),
        decreases na - i,
    {
        let ca = a.get_char(i);
        let cb = b.get_char(i);
        if ca != cb {
            if ca < cb {
                return -1;
            }
            return 1;
        }
        i = i + 1;
    }
    if na < nb {
        return -1;
    }
    if nb < na {
        return 1;
    }
    proof {
        assert(a@ =~= b@);
    }
    0
}

/// Whether `c` belongs to the grammar's whitespace class.
pub fn is_space(c: char) -> (r: bool)
    ensures
        r == is_space_char(c),
{
    c == ' ' || c == '\t' || c == '\n' || c == '\u{b}' || c == '\u{c}' || c == '\r' || c
        == '\u{85}' || c == '\u{a0}' || c == '\u{1680}' || (0x2000 <= c as u32 && c as u32
        <= 0x200a) || c == '\u{2028}' || c == '\u{2029}' || c == '\u{202f}' || c == '\u{205f}' || c
        == '\u{3000}'
}

/// First occurrence of `c` in `s`, if any.
pub fn find_char(s: &str, c: char) -> (r: Option<usize>)
    ensures
        match r {
            None => find_from(s@, 0, c) is None,
            Some(i) => find_from(s@, 0, c) == Some(i as int),
        },
{
    let n = s.unicode_len();
    let mut i: usize = 0;
    while i < n
        invariant
            0 <= i <= n,
            n == s@.len(),
            find_from(s@, 0, c) == find_from(s@, i as int, c),
        decreases n - i,
    {
        if s.get_char(i) == c {
            return Some(i);
        }
        i = i + 1;
    }
    None
}

/// The input with leading and trailing whitespace removed.
pub fn trim_str(s: &str) -> (r: String)
    ensures
        r@ == trim_spec(s@),
{
    let n = s.unicode_len();
    let mut a: usize = 0;
    while a < n && is_space(s.get_char(a))
        invariant
            0 <= a <= n,
            n == s@.len(),
            ws_end(s@, 0) == ws_end(s@, a as int),
        decreases n - a,
    {
        a = a + 1;
    }
    if a == n {
        return String::new();
    }
    let mut b: usize = n;
    while b > 0 && is_space(s.get_char(b - 1))
        invariant
            0 <= b <= n,
            n == s@.len(),
            ws_rbegin(s@, n as int) == ws_rbegin(s@, b as int),
        decreases b,
    {
        b = b - 1;
    }
    proof {
        lemma_ws_end(s@, 0);
        lemma_ws_rbegin(s@, n as int);
        if b <= a {
            assert(is_space_char(s@[a as int]));
        }
    }
    s.substring_char(a, b).to_owned()
}

} // verus!
