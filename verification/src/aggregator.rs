//! Aggregation of parsed reports into buckets keyed by context — kept in
//! lexicographic order of the context keys — and the deterministic Markdown
//! rendering of the finished state.

use vstd::prelude::*;

use crate::report::CommitType;
use crate::report::Report;
use crate::report::ReportModel;
use crate::report::spec_render_report;
use crate::text::lemma_lex_lt_order;
use crate::text::lex_compare;
use crate::text::lex_lt;

verus! {

/// One context's two ordered collections of reports.
#[verifier::ext_equal]
pub ghost struct BucketModel {
    pub context: Seq<char>,
    pub features: Seq<ReportModel>,
    pub fixes: Seq<ReportModel>,
}

/// The aggregator's mathematical state.
#[verifier::ext_equal]
pub ghost struct AggregatorModel {
    pub buckets: Seq<BucketModel>,
    pub breaking_changes: Seq<Seq<char>>,
}

/// The state the aggregator starts from: no buckets, no breaking changes.
pub open spec fn spec_empty() -> AggregatorModel {
    AggregatorModel { buckets: Seq::empty(), breaking_changes: Seq::empty() }
}

/// The bucket a lone report opens for its context.
pub open spec fn singleton_bucket(r: ReportModel) -> BucketModel {
    BucketModel {
        context: r.context,
        features: if r.commit_type == CommitType::Feature {
            seq![r]
        } else {
            Seq::empty()
        },
        fixes: if r.commit_type == CommitType::Fix {
            seq![r]
        } else {
            Seq::empty()
        },
    }
}

/// The bucket with the report appended to the collection its type selects.
pub open spec fn bucket_with(b: BucketModel, r: ReportModel) -> BucketModel {
    if r.commit_type == CommitType::Feature {
        BucketModel { features: b.features.push(r), ..b }
    } else {
        BucketModel { fixes: b.fixes.push(r), ..b }
    }
}

/// Insert a report into the sorted bucket sequence: into the bucket that
/// already carries its context, or into a fresh bucket at the sorted
/// position.
pub open spec fn insert_bucket(bs: Seq<BucketModel>, r: ReportModel) -> Seq<BucketModel>
    decreases bs.len(),
{
    if bs.len() == 0 {
        seq![singleton_bucket(r)]
    } else if bs[0].context == r.context {
        seq![bucket_with(bs[0], r)] + bs.drop_first()
    } else if lex_lt(bs[0].context, r.context) {
        seq![bs[0]] + insert_bucket(bs.drop_first(), r)
    } else {
        seq![singleton_bucket(r)] + bs
    }
}

/// What `add_report` does to the aggregator's state.
pub open spec fn spec_add(m: AggregatorModel, r: ReportModel) -> AggregatorModel {
    AggregatorModel {
        buckets: insert_bucket(m.buckets, r),
        breaking_changes: m.breaking_changes + r.breaking_changes,
    }
}

/// Bucket contexts strictly increase in the lexicographic order, so every
/// context appears at most once.
pub open spec fn sorted_buckets(bs: Seq<BucketModel>) -> bool {
    forall|i: int, j: int|
        0 <= i < j < bs.len() ==> lex_lt(#[trigger] bs[i].context, #[trigger] bs[j].context)
}

/// Where a left-to-right scan for the report's context first stops — at the
/// first bucket not ordered strictly below it — the insert either merges
/// into that bucket or opens a fresh one there.
pub proof fn lemma_insert_bucket_at(bs: Seq<BucketModel>, r: ReportModel, p: int)
    requires
        0 <= p <= bs.len(),
        forall|j: int| 0 <= j < p ==> lex_lt(#[trigger] bs[j].context, r.context),
        p < bs.len() ==> !lex_lt(bs[p].context, r.context),
    ensures
        p < bs.len() && bs[p].context == r.context ==> insert_bucket(bs, r) =~= bs.update(
            p,
            bucket_with(bs[p], r),
        ),
        !(p < bs.len() && bs[p].context == r.context) ==> insert_bucket(bs, r) =~= bs.subrange(
            0,
            p,
        ) + seq![singleton_bucket(r)] + bs.subrange(p, bs.len() as int),
    decreases bs.len(),
{
    if bs.len() == 0 {
        assert(insert_bucket(bs, r) =~= bs.subrange(0, p) + seq![singleton_bucket(r)]
            + bs.subrange(p, bs.len() as int));
    } else if p == 0 {
        if bs[0].context == r.context {
            assert(insert_bucket(bs, r) =~= bs.update(0, bucket_with(bs[0], r)));
        } else {
            lemma_lex_lt_order(bs[0].context, r.context, r.context);
            assert(insert_bucket(bs, r) =~= bs.subrange(0, 0) + seq![singleton_bucket(r)]
                + bs.subrange(0, bs.len() as int));
        }
    } else {
        lemma_lex_lt_order(bs[0].context, r.context, r.context);
        let rest = bs.drop_first();
        assert(forall|j: int| 0 <= j < p - 1 ==> lex_lt(#[trigger] rest[j].context, r.context));
        lemma_insert_bucket_at(rest, r, p - 1);
        if p < bs.len() && bs[p].context == r.context {
            assert(insert_bucket(bs, r) =~= seq![bs[0]] + rest.update(
                p - 1,
                bucket_with(rest[p - 1], r),
            ));
            assert(seq![bs[0]] + rest.update(p - 1, bucket_with(bs[p], r)) =~= bs.update(
                p,
                bucket_with(bs[p], r),
            ));
        } else {
            assert(insert_bucket(bs, r) =~= seq![bs[0]] + (rest.subrange(0, p - 1) + seq![
                singleton_bucket(r),
            ] + rest.subrange(p - 1, rest.len() as int)));
            assert(seq![bs[0]] + (rest.subrange(0, p - 1) + seq![singleton_bucket(r)]
                + rest.subrange(p - 1, rest.len() as int)) =~= bs.subrange(0, p) + seq![
                singleton_bucket(r),
            ] + bs.subrange(p, bs.len() as int));
        }
    }
}

/// Inserting at the scan position keeps the buckets sorted.
pub proof fn lemma_insert_bucket_sorted(bs: Seq<BucketModel>, r: ReportModel, p: int)
    requires
        sorted_buckets(bs),
        0 <= p <= bs.len(),
        forall|j: int| 0 <= j < p ==> lex_lt(#[trigger] bs[j].context, r.context),
        p < bs.len() ==> !lex_lt(bs[p].context, r.context),
    ensures
        sorted_buckets(insert_bucket(bs, r)),
{
    lemma_insert_bucket_at(bs, r, p);
    let out = insert_bucket(bs, r);
    if p < bs.len() && bs[p].context == r.context {
        assert forall|i: int, j: int| 0 <= i < j < out.len() implies lex_lt(
            out[i].context,
            out[j].context,
        ) by {
            assert(out[i].context == bs[i].context);
            assert(out[j].context == bs[j].context);
        }
    } else {
        if p < bs.len() {
            lemma_lex_lt_order(bs[p].context, r.context, r.context);
        }
        assert forall|i: int, j: int| 0 <= i < j < out.len() implies lex_lt(
            out[i].context,
            out[j].context,
        ) by {
            if i < p {
                assert(out[i].context == bs[i].context);
            } else if i == p {
                assert(out[i].context == r.context);
            } else {
                assert(out[i].context == bs[i - 1].context);
            }
            if j < p {
                assert(out[j].context == bs[j].context);
            } else if j == p {
                assert(out[j].context == r.context);
            } else {
                assert(out[j].context == bs[j - 1].context);
            }
            if i == p && p < j {
                lemma_lex_lt_order(r.context, bs[p].context, bs[j - 1].context);
            }
            if i < p && j == p {
            }
            if i < p && j > p {
                assert(lex_lt(bs[i].context, bs[j - 1].context));
            }
        }
    }
}

/// The Markdown produced by the first `i` reports of a bucket's collection,
/// in order.
pub open spec fn spec_render_reports_prefix(rs: Seq<ReportModel>, i: int) -> Seq<char>
    decreases i,
    when 0 <= i <= rs.len()
{
    if i == 0 {
        Seq::empty()
    } else {
        spec_render_reports_prefix(rs, i - 1) + spec_render_report(rs[i - 1])
    }
}

/// The Markdown block of one context: the context heading where the context
/// is named, then the feature section, then the fix section, each section
/// present only where it has reports.
pub open spec fn spec_render_bucket(b: BucketModel) -> Seq<char> {
    (if (b.features.len() > 0 || b.fixes.len() > 0) && b.context.len() > 0 {
        "### "@ + b.context + "\n\n"@
    } else {
        Seq::<char>::empty()
    }) + (if b.features.len() > 0 {
        (if b.context.len() == 0 {
            "### General Features\n\n"@
        } else {
            "#### Features\n\n"@
        }) + spec_render_reports_prefix(b.features, b.features.len() as int) + "\n"@
    } else {
        Seq::<char>::empty()
    }) + (if b.fixes.len() > 0 {
        (if b.context.len() == 0 {
            "### General Fixes\n\n"@
        } else {
            "#### Fixes\n\n"@
        }) + spec_render_reports_prefix(b.fixes, b.fixes.len() as int) + "\n"@
    } else {
        Seq::<char>::empty()
    })
}

/// The Markdown produced by the first `i` buckets, in key order.
pub open spec fn spec_render_buckets_prefix(bs: Seq<BucketModel>, i: int) -> Seq<char>
    decreases i,
    when 0 <= i <= bs.len()
{
    if i == 0 {
        Seq::empty()
    } else {
        spec_render_buckets_prefix(bs, i - 1) + spec_render_bucket(bs[i - 1])
    }
}

/// The Markdown produced by the first `i` breaking-change entries, each its
/// own paragraph.
pub open spec fn spec_render_breaking_prefix(bcs: Seq<Seq<char>>, i: int) -> Seq<char>
    decreases i,
    when 0 <= i <= bcs.len()
{
    if i == 0 {
        Seq::empty()
    } else {
        spec_render_breaking_prefix(bcs, i - 1) + bcs[i - 1] + "\n\n"@
    }
}

/// The whole changelog: every bucket in context order, then the breaking
/// changes under their own heading where any were collected.
pub open spec fn spec_render(m: AggregatorModel) -> Seq<char> {
    spec_render_buckets_prefix(m.buckets, m.buckets.len() as int) + (if m.breaking_changes.len()
        > 0 {
        "### BREAKING CHANGES\n\n"@ + spec_render_breaking_prefix(
            m.breaking_changes,
            m.breaking_changes.len() as int,
        )
    } else {
        Seq::<char>::empty()
    })
}

/// The Markdown blocks of a collection of reports, in order.
fn print_reports(rs: &Vec<Report>) -> (out: String)
    ensures
        out@ == spec_render_reports_prefix(rs.deep_view(), rs.deep_view().len() as int),
{
    let mut out = String::new();
    let n = rs.len();
    let mut j: usize = 0;
    while j < n
        invariant
            j <= n,
            n == rs.len(),
            out@ == spec_render_reports_prefix(rs.deep_view(), j as int),
        decreases n - j,
    {
        let piece = rs[j].print();
        out.append(piece.as_str());
        proof {
            assert(rs.deep_view()[j as int] == rs[j as int]@);
            assert(out@ =~= spec_render_reports_prefix(rs.deep_view(), j as int + 1));
        }
        j = j + 1;
    }
    out
}

/// One context's Markdown block.
fn print_bucket(b: &ContextBucket) -> (out: String)
    ensures
        out@ == spec_render_bucket(b@),
{
    let mut out = String::new();
    let has_features = b.features.len() > 0;
    let has_fixes = b.fixes.len() > 0;
    let unlabeled = b.context.as_str().is_empty();
    if (has_features || has_fixes) && !unlabeled {
        out.append("### ");
        out.append(b.context.as_str());
        out.append("\n\n");
    }
    if has_features {
        if unlabeled {
            out.append("### General Features\n\n");
        } else {
            out.append("#### Features\n\n");
        }
        let piece = print_reports(&b.features);
        out.append(piece.as_str());
        out.append("\n");
    }
    if has_fixes {
        if unlabeled {
            out.append("### General Fixes\n\n");
        } else {
            out.append("#### Fixes\n\n");
        }
        let piece = print_reports(&b.fixes);
        out.append(piece.as_str());
        out.append("\n");
    }
    proof {
        assert(out@ =~= spec_render_bucket(b@));
    }
    out
}

/// One context's reports, features and fixes apart, as the aggregator holds
/// them.
pub struct ContextBucket {
    pub context: String,
    pub features: Vec<Report>,
    pub fixes: Vec<Report>,
}

impl View for ContextBucket {
    type V = BucketModel;

    open spec fn view(&self) -> BucketModel {
        BucketModel {
            context: self.context@,
            features: self.features.deep_view(),
            fixes: self.fixes.deep_view(),
        }
    }
}

impl DeepView for ContextBucket {
    type V = BucketModel;

    open spec fn deep_view(&self) -> BucketModel {
        self.view()
    }
}

/// Merges parsed reports into buckets keyed by context and collects every
/// breaking-change note across all reports, in arrival order.
pub struct ReportAggregator {
    pub buckets: Vec<ContextBucket>,
    pub breaking_changes: Vec<String>,
}

impl View for ReportAggregator {
    type V = AggregatorModel;

    open spec fn view(&self) -> AggregatorModel {
        AggregatorModel {
            buckets: self.buckets.deep_view(),
            breaking_changes: self.breaking_changes.deep_view(),
        }
    }
}

impl ReportAggregator {
    /// The aggregator's invariant: its buckets stand in strict context
    /// order.
    pub open spec fn wf(&self) -> bool {
        sorted_buckets(self@.buckets)
    }

    /// The empty aggregator.
    pub fn new() -> (r: ReportAggregator)
        ensures
            r@ == spec_empty(),
            r.wf(),
    {
        let r = ReportAggregator { buckets: Vec::new(), breaking_changes: Vec::new() };
        proof {
            assert(r@ =~= spec_empty());
        }
        r
    }

    /// Append the report into the bucket of its `(context, commit type)`
    /// pair — opening the context's bucket at its sorted position on first
    /// use — and append every one of its breaking-change entries onto the
    /// flat list.
    pub fn add_report(&mut self, report: Report)
        requires
            old(self).wf(),
        ensures
            final(self)@ == spec_add(old(self)@, report@),
            final(self).wf(),
    {
        let ghost m0 = self@;
        let ghost rm = report@;
        let nb = report.breaking_changes.len();
        let mut k: usize = 0;
        while k < nb
            invariant
                k <= nb,
                nb == report.breaking_changes.len(),
                rm == report@,
                self.buckets.deep_view() == m0.buckets,
                self.breaking_changes.deep_view() == m0.breaking_changes
                    + rm.breaking_changes.subrange(0, k as int),
            decreases nb - k,
        {
            let ghost prevb = self.breaking_changes.deep_view();
            let entry = report.breaking_changes[k].clone();
            self.breaking_changes.push(entry);
            proof {
                assert(self.breaking_changes.deep_view() =~= prevb.push(
                    rm.breaking_changes[k as int],
                ));
                assert(self.breaking_changes.deep_view() =~= m0.breaking_changes
                    + rm.breaking_changes.subrange(0, k as int + 1));
            }
            k = k + 1;
        }
        proof {
            assert(rm.breaking_changes.subrange(0, nb as int) =~= rm.breaking_changes);
        }
        let n = self.buckets.len();
        let mut pos: usize = 0;
        while pos < n && lex_compare(self.buckets[pos].context.as_str(), report.context.as_str())
            == -1
            invariant
                pos <= n,
                n == self.buckets.len(),
                rm == report@,
                self.buckets.deep_view() == m0.buckets,
                self.breaking_changes.deep_view() == m0.breaking_changes + rm.breaking_changes,
                forall|j: int|
                    0 <= j < pos ==> lex_lt(#[trigger] m0.buckets[j].context, rm.context),
            decreases n - pos,
        {
            proof {
                assert(self.buckets.deep_view()[pos as int] == m0.buckets[pos as int]);
            }
            pos = pos + 1;
        }
        if pos < n && lex_compare(self.buckets[pos].context.as_str(), report.context.as_str())
            == 0 {
            proof {
                lemma_lex_lt_order(m0.buckets[pos as int].context, rm.context, rm.context);
                lemma_insert_bucket_at(m0.buckets, rm, pos as int);
                lemma_insert_bucket_sorted(m0.buckets, rm, pos as int);
            }
            let mut b = self.buckets.remove(pos);
            let ghost bm = b@;
            if report.commit_type == CommitType::Feature {
                let ghost fprev = b.features.deep_view();
                b.features.push(report);
                proof {
                    assert(b.features.deep_view() =~= fprev.push(rm));
                    assert(b@ =~= bucket_with(bm, rm));
                }
            } else {
                let ghost fprev = b.fixes.deep_view();
                b.fixes.push(report);
                proof {
                    assert(b.fixes.deep_view() =~= fprev.push(rm));
                    assert(b@ =~= bucket_with(bm, rm));
                }
            }
            self.buckets.insert(pos, b);
            proof {
                assert(bm == m0.buckets[pos as int]);
                assert(self.buckets.deep_view() =~= m0.buckets.update(
                    pos as int,
                    bucket_with(m0.buckets[pos as int], rm),
                ));
                assert(self@ =~= spec_add(m0, rm));
            }
        } else {
            proof {
                if pos < n {
                    lemma_lex_lt_order(m0.buckets[pos as int].context, rm.context, rm.context);
                }
                lemma_insert_bucket_at(m0.buckets, rm, pos as int);
                lemma_insert_bucket_sorted(m0.buckets, rm, pos as int);
            }
            let context = report.context.clone();
            let mut features: Vec<Report> = Vec::new();
            let mut fixes: Vec<Report> = Vec::new();
            if report.commit_type == CommitType::Feature {
                features.push(report);
            } else {
                fixes.push(report);
            }
            let fresh = ContextBucket { context, features, fixes };
            proof {
                assert(fresh@ =~= singleton_bucket(rm));
            }
            self.buckets.insert(pos, fresh);
            proof {
                assert(self.buckets.deep_view() =~= m0.buckets.subrange(0, pos as int) + seq![
                    singleton_bucket(rm),
                ] + m0.buckets.subrange(pos as int, m0.buckets.len() as int));
                assert(self@ =~= spec_add(m0, rm));
            }
        }
    }

    /// Render the changelog: contexts in lexicographic key order, each with
    /// its feature and fix sections, then every breaking-change entry under
    /// its own heading.
    pub fn print(&self) -> (out: String)
        ensures
            out@ == spec_render(self@),
    {
        let ghost m = self@;
        let mut out = String::new();
        let n = self.buckets.len();
        let mut i: usize = 0;
        while i < n
            invariant
                i <= n,
                n == self.buckets.len(),
                m == self@,
                0 <= i as int <= m.buckets.len(),
                out@ == spec_render_buckets_prefix(m.buckets, i as int),
            decreases n - i,
        {
            let piece = print_bucket(&self.buckets[i]);
            out.append(piece.as_str());
            proof {
                assert(self.buckets.deep_view()[i as int] == self.buckets[i as int]@);
                assert(out@ =~= spec_render_buckets_prefix(m.buckets, i as int + 1));
            }
            i = i + 1;
        }
        if self.breaking_changes.len() > 0 {
            let ghost base = out@;
            out.append("### BREAKING CHANGES\n\n");
            let nbc = self.breaking_changes.len();
            let mut j: usize = 0;
            while j < nbc
                invariant
                    j <= nbc,
                    nbc == self.breaking_changes.len(),
                    m == self@,
                    out@ == base + "### BREAKING CHANGES\n\n"@ + spec_render_breaking_prefix(
                        m.breaking_changes,
                        j as int,
                    ),
                decreases nbc - j,
            {
                out.append(self.breaking_changes[j].as_str());
                out.append("\n\n");
                proof {
                    assert(self.breaking_changes.deep_view()[j as int]
                        == self.breaking_changes[j as int]@);
                    assert(out@ =~= base + "### BREAKING CHANGES\n\n"@
                        + spec_render_breaking_prefix(m.breaking_changes, j as int + 1));
                }
                j = j + 1;
            }
        }
        proof {
            assert(out@ =~= spec_render(m));
        }
        out
    }
}

} // verus!
