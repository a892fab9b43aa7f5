//! The structured changelog entry derived from one commit message, and its
//! Markdown rendering.

use vstd::prelude::*;

verus! {

/// Classification of a parsed commit: it lands either in the feature
/// section or in the fix section of the changelog.
#[derive(Clone, Copy, PartialEq, Eq, Structural, Debug)]
pub enum CommitType {
    Feature,
    Fix,
}

/// The mathematical shape of a report: every string as a sequence of
/// characters.
#[verifier::ext_equal]
pub ghost struct ReportModel {
    pub header: Seq<char>,
    pub description: Option<Seq<char>>,
    pub context: Seq<char>,
    pub commit_type: CommitType,
    pub related_issues: Seq<Seq<char>>,
    pub solved_issues: Seq<Seq<char>>,
    pub breaking_changes: Seq<Seq<char>>,
}

/// One parsed commit: the trimmed subject line, an optional free-text body,
/// the grouping context (empty means ungrouped), the commit type, and the
/// three labeled lists, each taken verbatim from its bulleted section.
#[derive(Debug)]
pub struct Report {
    pub header: String,
    pub description: Option<String>,
    pub context: String,
    pub commit_type: CommitType,
    pub related_issues: Vec<String>,
    pub solved_issues: Vec<String>,
    pub breaking_changes: Vec<String>,
}

impl View for Report {
    type V = ReportModel;

    open spec fn view(&self) -> ReportModel {
        ReportModel {
            header: self.header@,
            description: self.description.deep_view(),
            context: self.context@,
            commit_type: self.commit_type,
            related_issues: self.related_issues.deep_view(),
            solved_issues: self.solved_issues.deep_view(),
            breaking_changes: self.breaking_changes.deep_view(),
        }
    }
}

impl DeepView for Report {
    type V = ReportModel;

    open spec fn deep_view(&self) -> ReportModel {
        self.view()
    }
}

/// The Markdown block a single report contributes: its heading line, a blank
/// line, and the optional description paragraph.
pub open spec fn spec_render_report(r: ReportModel) -> Seq<char> {
    r.header + "\n\n"@ + (match r.description {
        Some(d) => d + "\n"@,
        None => Seq::<char>::empty(),
    })
}

impl Report {
    /// Render this report's Markdown block: the heading line, a blank line,
    /// and the description paragraph where one is present.
    pub fn print(&self) -> (out: String)
        ensures
            out@ == spec_render_report(self@),
    {
        let mut out = self.header.clone();
        out.append("\n\n");
        match &self.description {
            Some(d) => {
                out.append(d.as_str());
                out.append("\n");
            },
            None => {},
        }
        proof {
            assert(out@ =~= spec_render_report(self@));
        }
        out
    }
}

} // verus!
