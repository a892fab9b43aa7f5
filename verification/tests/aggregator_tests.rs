use changelog_gen::aggregator::ReportAggregator;
use changelog_gen::parser::parse_report;

#[test]
fn render_single_fix_uses_general_fixes_heading() {
    let report = parse_report("fix: Some fix").unwrap();
    assert_eq!(report.context, "");
    assert_eq!(report.description, None);
    let mut aggregator = ReportAggregator::new();
    aggregator.add_report(report);
    assert_eq!(aggregator.print(), "### General Fixes\n\nSome fix\n\n\n");
}

#[test]
fn render_orders_contexts_and_omits_empty_context_heading() {
    let mut aggregator = ReportAggregator::new();
    aggregator.add_report(parse_report("feat(cmd/update): A").unwrap());
    aggregator.add_report(parse_report("feat: B").unwrap());
    let out = aggregator.print();
    assert_eq!(
        out,
        "### General Features\n\nB\n\n\n### cmd/update\n\n#### Features\n\nA\n\n\n"
    );
}

#[test]
fn render_twice_is_byte_identical() {
    let mut aggregator = ReportAggregator::new();
    aggregator.add_report(parse_report("feat(a): one\n\nBreaking_Changes:\n - careful").unwrap());
    aggregator.add_report(parse_report("fix(a): two").unwrap());
    aggregator.add_report(parse_report("fix: three").unwrap());
    let first = aggregator.print();
    let second = aggregator.print();
    assert_eq!(first, second);
}

#[test]
fn add_order_does_not_change_bucket_membership() {
    let messages = [
        "feat(x): one",
        "feat(x): two",
        "fix: three\n\nBreaking_Changes:\n - b1",
        "feat: four\n\nBreaking Changes:\n - b2",
    ];
    let mut forward = ReportAggregator::new();
    for m in messages.iter() {
        forward.add_report(parse_report(m).unwrap());
    }
    let mut backward = ReportAggregator::new();
    for m in messages.iter().rev() {
        backward.add_report(parse_report(m).unwrap());
    }

    assert_eq!(forward.buckets.len(), backward.buckets.len());
    for (fb, bb) in forward.buckets.iter().zip(backward.buckets.iter()) {
        assert_eq!(fb.context, bb.context);
        let mut f_feats: Vec<String> = fb.features.iter().map(|r| r.header.clone()).collect();
        let mut b_feats: Vec<String> = bb.features.iter().map(|r| r.header.clone()).collect();
        f_feats.sort();
        b_feats.sort();
        assert_eq!(f_feats, b_feats);
        let mut f_fixes: Vec<String> = fb.fixes.iter().map(|r| r.header.clone()).collect();
        let mut b_fixes: Vec<String> = bb.fixes.iter().map(|r| r.header.clone()).collect();
        f_fixes.sort();
        b_fixes.sort();
        assert_eq!(f_fixes, b_fixes);
    }

    let mut f_breaking = forward.breaking_changes.clone();
    let mut b_breaking = backward.breaking_changes.clone();
    f_breaking.sort();
    b_breaking.sort();
    assert_eq!(f_breaking, b_breaking);
}

#[test]
fn breaking_changes_collect_across_contexts_in_arrival_order() {
    let mut aggregator = ReportAggregator::new();
    aggregator.add_report(parse_report("feat(a): one\n\nBreaking_Changes:\n - first").unwrap());
    aggregator.add_report(parse_report("fix(b): two\n\nBreaking Changes:\n - second").unwrap());
    assert_eq!(
        aggregator.breaking_changes,
        vec!["first".to_string(), "second".to_string()]
    );
    let out = aggregator.print();
    assert!(out.ends_with("### BREAKING CHANGES\n\nfirst\n\nsecond\n\n"));
}

#[test]
fn empty_aggregator_renders_nothing() {
    let aggregator = ReportAggregator::new();
    assert_eq!(aggregator.print(), "");
}

#[test]
fn reports_in_one_bucket_keep_arrival_order() {
    let mut aggregator = ReportAggregator::new();
    aggregator.add_report(parse_report("fix: one").unwrap());
    aggregator.add_report(parse_report("fix: two").unwrap());
    assert_eq!(aggregator.buckets.len(), 1);
    let headers: Vec<&str> = aggregator.buckets[0]
        .fixes
        .iter()
        .map(|r| r.header.as_str())
        .collect();
    assert_eq!(headers, vec!["one", "two"]);
}
