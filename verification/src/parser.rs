//! The commit-message grammar: `type(context): subject`, then body segments
//! separated by blank lines, where a segment labeled `Solves:`, `Related:`
//! or `Breaking_Changes:`/`Breaking Changes:` (compared without regard to
//! ASCII case) is a bulleted list and any other non-empty segment is the
//! free-text description, the last such segment winning.

use vstd::prelude::*;

use crate::report::CommitType;
use crate::report::Report;
use crate::report::ReportModel;
use crate::split::spec_parse_array;
use crate::split::spec_segments;
use crate::split::parse_array;
use crate::split::split_segments;
use crate::text::eq_ci_char;
use crate::text::find_from;
use crate::text::seq_eq_ci;
use crate::text::starts_with_ci;
use crate::text::trim_spec;
use crate::text::find_char;
use crate::text::trim_str;

verus! {

/// The context piece with one trailing closing parenthesis stripped, if one
/// is present.
pub open spec fn strip_paren(s: Seq<char>) -> Seq<char> {
    if s.len() > 0 && s.last() == ')' {
        s.drop_last()
    } else {
        s
    }
}

/// The commit type selected by the token before the parenthesis group:
/// `feat` or `feature` gives Feature, `fix` gives Fix, anything else
/// discards the message.
pub open spec fn spec_type_of_token(tok: Seq<char>) -> Option<CommitType> {
    if seq_eq_ci(tok, "feat"@) || seq_eq_ci(tok, "feature"@) {
        Some(CommitType::Feature)
    } else if seq_eq_ci(tok, "fix"@) {
        Some(CommitType::Fix)
    } else {
        None
    }
}

/// A report fresh from the headline: no description and empty lists.
pub open spec fn spec_base_report(
    header: Seq<char>,
    context: Seq<char>,
    ty: CommitType,
) -> ReportModel {
    ReportModel {
        header: header,
        description: None,
        context: context,
        commit_type: ty,
        related_issues: Seq::empty(),
        solved_issues: Seq::empty(),
        breaking_changes: Seq::empty(),
    }
}

/// Fold one body segment into the report: a recognized label replaces the
/// matching list, any other non-empty segment replaces the description.
pub open spec fn spec_apply_segment(m: ReportModel, seg: Seq<char>) -> ReportModel {
    let t = trim_spec(seg);
    if t.len() == 0 {
        m
    } else if starts_with_ci(t, "solves:\n"@) {
        ReportModel { solved_issues: spec_parse_array(t), ..m }
    } else if starts_with_ci(t, "related:\n"@) {
        ReportModel { related_issues: spec_parse_array(t), ..m }
    } else if starts_with_ci(t, "breaking_changes:\n"@) || starts_with_ci(
        t,
        "breaking changes:\n"@,
    ) {
        ReportModel { breaking_changes: spec_parse_array(t), ..m }
    } else {
        ReportModel { description: Some(t), ..m }
    }
}

/// Fold the body segments from index `i` on into the report, in order.
pub open spec fn spec_apply_segments(m: ReportModel, segs: Seq<Seq<char>>, i: int) -> ReportModel
    decreases segs.len() - i,
    when 0 <= i <= segs.len()
{
    if i == segs.len() {
        m
    } else {
        spec_apply_segments(spec_apply_segment(m, segs[i]), segs, i + 1)
    }
}

/// What `parse_report` returns on a message: the headline must carry a
/// colon and a recognized type token, the header is the trimmed text after
/// the first colon, the context is the piece after `(` with a trailing `)`
/// stripped, and the body segments fill the description and the three
/// labeled lists.
pub open spec fn spec_parse(s: Seq<char>) -> Option<ReportModel> {
    let segs = spec_segments(s);
    let head = segs[0];
    match find_from(head, 0, ':') {
        None => None,
        Some(c) => {
            let ttc = head.subrange(0, c);
            let header = trim_spec(head.subrange(c + 1, head.len() as int));
            let tok = match find_from(ttc, 0, '(') {
                None => ttc,
                Some(p) => ttc.subrange(0, p),
            };
            let context = match find_from(ttc, 0, '(') {
                None => Seq::<char>::empty(),
                Some(p) => strip_paren(ttc.subrange(p + 1, ttc.len() as int)),
            };
            match spec_type_of_token(tok) {
                None => None,
                Some(ty) => Some(
                    spec_apply_segments(spec_base_report(header, context, ty), segs, 1),
                ),
            }
        },
    }
}

/// The type token of a message's headline: the part before the first
/// colon, cut at the first opening parenthesis. Meaningful only where the
/// headline holds a colon.
pub open spec fn spec_headline_token(s: Seq<char>) -> Seq<char> {
    let head = spec_segments(s)[0];
    let ttc = head.subrange(0, find_from(head, 0, ':').unwrap());
    match find_from(ttc, 0, '(') {
        None => ttc,
        Some(p) => ttc.subrange(0, p),
    }
}

/// Whether `t` equals the keyword `kw` up to ASCII case.
fn matches_keyword(t: &str, kw: &str) -> (r: bool)
    ensures
        r == seq_eq_ci(t@, kw@),
{
    let nt = t.unicode_len();
    let nk = kw.unicode_len();
    if nt != nk {
        return false;
    }
    let mut k: usize = 0;
    while k < nk
        invariant
            k <= nk,
            nk == kw@.len(),
            nt == t@.len(),
            nt == nk,
            forall|j: int| 0 <= j < k ==> eq_ci_char(t@[j], kw@[j]),
        decreases nk - k,
    {
        let a = t.get_char(k);
        let b = kw.get_char(k);
        if !(a == b || (97 <= b as u32 && b as u32 <= 122 && (a as u32) + 32 == (b as u32))) {
            assert(!eq_ci_char(t@[k as int], kw@[k as int]));
            return false;
        }
        k = k + 1;
    }
    true
}

/// Whether `t` begins with the keyword `kw`, compared up to ASCII case.
fn matches_keyword_prefix(t: &str, kw: &str) -> (r: bool)
    ensures
        r == starts_with_ci(t@, kw@),
{
    let nt = t.unicode_len();
    let nk = kw.unicode_len();
    if nt < nk {
        return false;
    }
    let mut k: usize = 0;
    while k < nk
        invariant
            k <= nk,
            nk == kw@.len(),
            nt == t@.len(),
            nk <= nt,
            forall|j: int| 0 <= j < k ==> eq_ci_char(t@[j], kw@[j]),
        decreases nk - k,
    {
        let a = t.get_char(k);
        let b = kw.get_char(k);
        if !(a == b || (97 <= b as u32 && b as u32 <= 122 && (a as u32) + 32 == (b as u32))) {
            assert(!eq_ci_char(t@[k as int], kw@[k as int]));
            assert(!starts_with_ci(t@, kw@)) by {
                if starts_with_ci(t@, kw@) {
                    assert(eq_ci_char(t@.subrange(0, kw@.len() as int)[k as int], kw@[k as int]));
                }
            }
            return false;
        }
        k = k + 1;
    }
    assert(starts_with_ci(t@, kw@)) by {
        assert forall|j: int| 0 <= j < kw@.len() implies eq_ci_char(
            t@.subrange(0, kw@.len() as int)[j],
            kw@[j],
        ) by {
            assert(t@.subrange(0, kw@.len() as int)[j] == t@[j]);
        }
    }
    true
}

/// Parse one raw commit message into a report, or nothing where the message
/// does not follow the convention.
pub fn parse_report(raw_input: &str) -> (r: Option<Report>)
    ensures
        r.deep_view() == spec_parse(raw_input@),
{
    let ghost segs_model = spec_segments(raw_input@);
    let segs = split_segments(raw_input);
    let head = segs[0].as_str();
    proof {
        assert(head@ == segs_model[0]);
    }
    let hn = head.unicode_len();
    let c = match find_char(head, ':') {
        None => {
            return None;
        },
        Some(c) => c,
    };
    proof {
        crate::text::lemma_find_from(head@, 0, ':');
    }
    let ttc = head.substring_char(0, c);
    let rest = head.substring_char(c + 1, hn);
    let header = trim_str(rest);
    let tn = ttc.unicode_len();
    let (tok, context) = match find_char(ttc, '(') {
        None => (ttc, String::new()),
        Some(p) => {
            proof {
                crate::text::lemma_find_from(ttc@, 0, '(');
            }
            let after = ttc.substring_char(p + 1, tn);
            let an = after.unicode_len();
            let context = if an > 0 && after.get_char(an - 1) == ')' {
                after.substring_char(0, an - 1).to_owned()
            } else {
                after.to_owned()
            };
            (ttc.substring_char(0, p), context)
        },
    };
    let commit_type = if matches_keyword(tok, "feat") || matches_keyword(tok, "feature") {
        CommitType::Feature
    } else if matches_keyword(tok, "fix") {
        CommitType::Fix
    } else {
        return None;
    };
    let mut report = Report {
        header: header,
        description: None,
        context: context,
        commit_type: commit_type,
        related_issues: Vec::new(),
        solved_issues: Vec::new(),
        breaking_changes: Vec::new(),
    };
    let ghost base = report.deep_view();
    proof {
        assert(base =~= spec_base_report(report.header@, report.context@, commit_type));
        assert(spec_parse(raw_input@) == Some(spec_apply_segments(base, segs_model, 1)));
    }
    let n = segs.len();
    let mut i: usize = 1;
    while i < n
        invariant
            1 <= i <= n,
            n == segs.len(),
            segs.deep_view() == segs_model,
            0 <= i as int <= segs_model.len(),
            spec_apply_segments(report.deep_view(), segs_model, i as int) == spec_apply_segments(
                base,
                segs_model,
                1,
            ),
        decreases n - i,
    {
        let ghost before = report.deep_view();
        let seg = segs[i].as_str();
        proof {
            assert(seg@ == segs_model[i as int]);
        }
        let t = trim_str(seg);
        if t.unicode_len() == 0 {
        } else if matches_keyword_prefix(t.as_str(), "solves:\n") {
            report.solved_issues = parse_array(t.as_str());
        } else if matches_keyword_prefix(t.as_str(), "related:\n") {
            report.related_issues = parse_array(t.as_str());
        } else if matches_keyword_prefix(t.as_str(), "breaking_changes:\n")
            || matches_keyword_prefix(t.as_str(), "breaking changes:\n") {
            report.breaking_changes = parse_array(t.as_str());
        } else {
            report.description = Some(t);
        }
        proof {
            assert(report.deep_view() =~= spec_apply_segment(before, segs_model[i as int]));
        }
        i = i + 1;
    }
    Some(report)
}

} // verus!
