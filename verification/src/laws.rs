//! The laws the library stands by: what the parser rejects, what the header
//! is, that adding reports in either order fills the buckets with the same
//! collections, and that the empty aggregator renders to nothing.

use vstd::prelude::*;

use crate::aggregator::AggregatorModel;
use crate::aggregator::BucketModel;
use crate::aggregator::bucket_with;
use crate::aggregator::insert_bucket;
use crate::aggregator::lemma_insert_bucket_sorted;
use crate::aggregator::singleton_bucket;
use crate::aggregator::sorted_buckets;
use crate::aggregator::spec_add;
use crate::aggregator::spec_empty;
use crate::aggregator::spec_render;
use crate::parser::spec_apply_segment;
use crate::parser::spec_apply_segments;
use crate::parser::spec_headline_token;
use crate::parser::spec_parse;
use crate::parser::spec_type_of_token;
use crate::report::CommitType;
use crate::report::ReportModel;
use crate::split::spec_segments;
use crate::text::find_from;
use crate::text::lemma_lex_lt_order;
use crate::text::lex_lt;
use crate::text::trim_spec;

verus! {

/// A message whose headline holds no colon, or whose type token names
/// neither a feature nor a fix, parses to nothing.
pub proof fn lemma_parse_rejects(s: Seq<char>)
    ensures
        find_from(spec_segments(s)[0], 0, ':') is None ==> spec_parse(s) is None,
        find_from(spec_segments(s)[0], 0, ':') is Some && spec_type_of_token(
            spec_headline_token(s),
        ) is None ==> spec_parse(s) is None,
{
}

/// Folding body segments into a report never touches its header, context
/// or commit type.
proof fn lemma_apply_segments_keeps_headline(m: ReportModel, segs: Seq<Seq<char>>, i: int)
    requires
        0 <= i <= segs.len(),
    ensures
        spec_apply_segments(m, segs, i).header == m.header,
        spec_apply_segments(m, segs, i).context == m.context,
        spec_apply_segments(m, segs, i).commit_type == m.commit_type,
    decreases segs.len() - i,
{
    if i < segs.len() {
        lemma_apply_segments_keeps_headline(spec_apply_segment(m, segs[i]), segs, i + 1);
    }
}

/// The header of a parsed message is exactly the text after the first
/// colon of the headline, trimmed, internal colons preserved.
pub proof fn lemma_parse_header(s: Seq<char>, c: int)
    requires
        find_from(spec_segments(s)[0], 0, ':') == Some(c),
        spec_parse(s) is Some,
    ensures
        spec_parse(s).unwrap().header == trim_spec(
            spec_segments(s)[0].subrange(c + 1, spec_segments(s)[0].len() as int),
        ),
{
    crate::split::lemma_segments_nonempty(s);
    let segs = spec_segments(s);
    let head = segs[0];
    let ttc = head.subrange(0, c);
    let header = trim_spec(head.subrange(c + 1, head.len() as int));
    let tok = match find_from(ttc, 0, '(') {
        None => ttc,
        Some(p) => ttc.subrange(0, p),
    };
    let context = match find_from(ttc, 0, '(') {
        None => Seq::<char>::empty(),
        Some(p) => crate::parser::strip_paren(ttc.subrange(p + 1, ttc.len() as int)),
    };
    let ty = spec_type_of_token(tok).unwrap();
    let base = crate::parser::spec_base_report(header, context, ty);
    lemma_apply_segments_keeps_headline(base, segs, 1);
}

/// The reports a bucket holds for one commit type.
pub open spec fn bucket_list(b: BucketModel, ty: CommitType) -> Seq<ReportModel> {
    if ty == CommitType::Feature {
        b.features
    } else {
        b.fixes
    }
}

/// The reports an aggregator state holds for one (context, commit type)
/// pair: those of the first bucket carrying the context, if any does.
pub open spec fn spec_reports_in(bs: Seq<BucketModel>, ctx: Seq<char>, ty: CommitType) -> Seq<
    ReportModel,
>
    decreases bs.len(),
{
    if bs.len() == 0 {
        Seq::empty()
    } else if bs[0].context == ctx {
        bucket_list(bs[0], ty)
    } else {
        spec_reports_in(bs.drop_first(), ctx, ty)
    }
}

/// A context no bucket carries holds no reports.
proof fn lemma_reports_in_absent(bs: Seq<BucketModel>, ctx: Seq<char>, ty: CommitType)
    requires
        forall|j: int| 0 <= j < bs.len() ==> (#[trigger] bs[j].context) != ctx,
    ensures
        spec_reports_in(bs, ctx, ty) == Seq::<ReportModel>::empty(),
    decreases bs.len(),
{
    if bs.len() > 0 {
        let rest = bs.drop_first();
        assert(forall|j: int| 0 <= j < rest.len() ==> (#[trigger] rest[j].context) != ctx);
        lemma_reports_in_absent(rest, ctx, ty);
    }
}

/// Where an inserted report lands, and only there, the collection grows by
/// exactly that report, at the end.
pub proof fn lemma_insert_bucket_lookup(
    bs: Seq<BucketModel>,
    r: ReportModel,
    ctx: Seq<char>,
    ty: CommitType,
)
    requires
        sorted_buckets(bs),
    ensures
        spec_reports_in(insert_bucket(bs, r), ctx, ty) == (if ctx == r.context && ty
            == r.commit_type {
            spec_reports_in(bs, ctx, ty).push(r)
        } else {
            spec_reports_in(bs, ctx, ty)
        }),
    decreases bs.len(),
{
    let out = insert_bucket(bs, r);
    if bs.len() == 0 {
        assert(spec_reports_in(bs, ctx, ty) == Seq::<ReportModel>::empty());
        assert(out.len() == 1);
        assert(out[0] == singleton_bucket(r));
        if ctx == r.context {
            assert(spec_reports_in(out, ctx, ty) == bucket_list(singleton_bucket(r), ty));
            if ty == r.commit_type {
                assert(bucket_list(singleton_bucket(r), ty) =~= Seq::<
                    ReportModel,
                >::empty().push(r));
            } else {
                assert(bucket_list(singleton_bucket(r), ty) == Seq::<ReportModel>::empty());
            }
        } else {
            assert(out.drop_first() =~= Seq::<BucketModel>::empty());
            assert(spec_reports_in(out, ctx, ty) == spec_reports_in(
                out.drop_first(),
                ctx,
                ty,
            ));
            assert(spec_reports_in(out.drop_first(), ctx, ty) == Seq::<ReportModel>::empty());
        }
    } else if bs[0].context == r.context {
        assert(out == seq![bucket_with(bs[0], r)] + bs.drop_first());
        assert(out[0] == bucket_with(bs[0], r));
        assert(out.drop_first() =~= bs.drop_first());
        assert(out[0].context == bs[0].context);
        if ctx == r.context {
            assert(spec_reports_in(out, ctx, ty) == bucket_list(out[0], ty));
            assert(spec_reports_in(bs, ctx, ty) == bucket_list(bs[0], ty));
            if ty == r.commit_type {
                assert(bucket_list(bucket_with(bs[0], r), ty) == bucket_list(bs[0], ty).push(r));
            } else {
                assert(bucket_list(bucket_with(bs[0], r), ty) == bucket_list(bs[0], ty));
            }
        } else {
            assert(spec_reports_in(out, ctx, ty) == spec_reports_in(out.drop_first(), ctx, ty));
            assert(spec_reports_in(bs, ctx, ty) == spec_reports_in(bs.drop_first(), ctx, ty));
        }
    } else if lex_lt(bs[0].context, r.context) {
        lemma_lex_lt_order(bs[0].context, r.context, r.context);
        let rest = bs.drop_first();
        assert(forall|i: int, j: int|
            0 <= i < j < rest.len() ==> lex_lt(
                #[trigger] rest[i].context,
                #[trigger] rest[j].context,
            ));
        lemma_insert_bucket_lookup(rest, r, ctx, ty);
        assert(out == seq![bs[0]] + insert_bucket(rest, r));
        assert(out.len() > 0);
        assert(out[0] == bs[0]);
        assert(out.drop_first() =~= insert_bucket(rest, r));
        if ctx == bs[0].context {
            assert(spec_reports_in(out, ctx, ty) == bucket_list(bs[0], ty));
            assert(spec_reports_in(bs, ctx, ty) == bucket_list(bs[0], ty));
        } else {
            assert(spec_reports_in(out, ctx, ty) == spec_reports_in(
                insert_bucket(rest, r),
                ctx,
                ty,
            ));
            assert(spec_reports_in(bs, ctx, ty) == spec_reports_in(rest, ctx, ty));
        }
    } else {
        lemma_lex_lt_order(bs[0].context, r.context, r.context);
        assert(lex_lt(r.context, bs[0].context));
        assert(out == seq![singleton_bucket(r)] + bs);
        assert(out[0] == singleton_bucket(r));
        assert(out[0].context == r.context);
        assert(out.drop_first() =~= bs);
        if ctx == r.context {
            assert(spec_reports_in(out, ctx, ty) == bucket_list(out[0], ty));
            assert forall|j: int| 0 <= j < bs.len() implies (#[trigger] bs[j].context)
                != r.context by {
                if j > 0 {
                    lemma_lex_lt_order(r.context, bs[0].context, bs[j].context);
                } else {
                    lemma_lex_lt_order(r.context, bs[0].context, bs[0].context);
                }
            }
            lemma_reports_in_absent(bs, ctx, ty);
            if ty == r.commit_type {
                assert(bucket_list(singleton_bucket(r), ty) =~= Seq::<
                    ReportModel,
                >::empty().push(r));
            }
        } else {
            assert(spec_reports_in(out, ctx, ty) == spec_reports_in(bs, ctx, ty));
        }
    }
}

/// The position before the first bucket not ordered strictly below the
/// report's context.
spec fn insert_pos(bs: Seq<BucketModel>, r: ReportModel) -> int
    decreases bs.len(),
{
    if bs.len() == 0 {
        0
    } else if lex_lt(bs[0].context, r.context) {
        1 + insert_pos(bs.drop_first(), r)
    } else {
        0
    }
}

proof fn lemma_insert_pos(bs: Seq<BucketModel>, r: ReportModel)
    ensures
        0 <= insert_pos(bs, r) <= bs.len(),
        forall|j: int| 0 <= j < insert_pos(bs, r) ==> lex_lt(#[trigger] bs[j].context, r.context),
        insert_pos(bs, r) < bs.len() ==> !lex_lt(bs[insert_pos(bs, r)].context, r.context),
    decreases bs.len(),
{
    if bs.len() > 0 && lex_lt(bs[0].context, r.context) {
        lemma_insert_pos(bs.drop_first(), r);
        assert forall|j: int| 0 <= j < insert_pos(bs, r) implies lex_lt(
            #[trigger] bs[j].context,
            r.context,
        ) by {
            if j > 0 {
                assert(bs.drop_first()[j - 1] == bs[j]);
            }
        }
        if insert_pos(bs, r) < bs.len() {
            assert(bs.drop_first()[insert_pos(bs.drop_first(), r)] == bs[insert_pos(bs, r)]);
        }
    }
}

/// Inserting into a sorted bucket sequence keeps it sorted.
pub proof fn lemma_insert_sorted(bs: Seq<BucketModel>, r: ReportModel)
    requires
        sorted_buckets(bs),
    ensures
        sorted_buckets(insert_bucket(bs, r)),
{
    lemma_insert_pos(bs, r);
    lemma_insert_bucket_sorted(bs, r, insert_pos(bs, r));
}

/// Adding two reports in either order leaves every (context, commit type)
/// bucket with the same collection of reports, and the breaking-change
/// list with the same collection of notes; only the order inside a
/// collection can differ.
pub proof fn lemma_add_order_irrelevant(m: AggregatorModel, r1: ReportModel, r2: ReportModel)
    requires
        sorted_buckets(m.buckets),
    ensures
        forall|ctx: Seq<char>, ty: CommitType|
            #![all_triggers]
            spec_reports_in(spec_add(spec_add(m, r1), r2).buckets, ctx, ty).to_multiset()
                == spec_reports_in(spec_add(spec_add(m, r2), r1).buckets, ctx, ty).to_multiset(),
        spec_add(spec_add(m, r1), r2).breaking_changes.to_multiset() == spec_add(
            spec_add(m, r2),
            r1,
        ).breaking_changes.to_multiset(),
{
    broadcast use vstd::seq_lib::group_to_multiset_ensures;

    lemma_insert_sorted(m.buckets, r1);
    lemma_insert_sorted(m.buckets, r2);
    assert forall|ctx: Seq<char>, ty: CommitType|
        spec_reports_in(spec_add(spec_add(m, r1), r2).buckets, ctx, ty).to_multiset()
            == spec_reports_in(spec_add(spec_add(m, r2), r1).buckets, ctx, ty).to_multiset() by {
        lemma_insert_bucket_lookup(m.buckets, r1, ctx, ty);
        lemma_insert_bucket_lookup(insert_bucket(m.buckets, r1), r2, ctx, ty);
        lemma_insert_bucket_lookup(m.buckets, r2, ctx, ty);
        lemma_insert_bucket_lookup(insert_bucket(m.buckets, r2), r1, ctx, ty);
        let base = spec_reports_in(m.buckets, ctx, ty);
        if ctx == r1.context && ty == r1.commit_type && ctx == r2.context && ty
            == r2.commit_type {
            assert(base.push(r1).push(r2).to_multiset() =~= base.push(r2).push(
                r1,
            ).to_multiset());
        }
    }
    vstd::seq_lib::lemma_multiset_commutative(m.breaking_changes + r1.breaking_changes, r2.breaking_changes);
    vstd::seq_lib::lemma_multiset_commutative(m.breaking_changes, r1.breaking_changes);
    vstd::seq_lib::lemma_multiset_commutative(m.breaking_changes + r2.breaking_changes, r1.breaking_changes);
    vstd::seq_lib::lemma_multiset_commutative(m.breaking_changes, r2.breaking_changes);
    assert(spec_add(spec_add(m, r1), r2).breaking_changes.to_multiset() =~= spec_add(
        spec_add(m, r2),
        r1,
    ).breaking_changes.to_multiset());
}

/// The empty aggregator renders to the empty changelog.
pub proof fn lemma_render_empty()
    ensures
        spec_render(spec_empty()) == Seq::<char>::empty(),
{
    assert(spec_render(spec_empty()) =~= Seq::<char>::empty());
}

} // verus!
