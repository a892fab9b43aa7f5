use changelog_gen::aggregator::ReportAggregator;
use changelog_gen::parser::parse_report;
use changelog_gen::report::CommitType;

#[test]
fn it_should_parse_reports() {
    let messages = [
        "feat(cmd/update): Insert some stuff\n\nThis commit will insert some stuff. \nIt is intendet to test if this works or not.\n\nRelated:\n - foo\n - bar\n\nSolves:\n - hallo\n - welt\n\nBreaking_Changes:\n - bla\n - blubb",
        "fix: Some fix",
        "fix: Fix something\n\nBreaking Changes:\n - break something\n - break some real long thing\nthat wraps arround two lines",
    ];
    let expected_headers = ["Insert some stuff", "Some fix", "Fix something"];
    let expected_descriptions = [
        Some(
            "This commit will insert some stuff. \nIt is intendet to test if this works or not."
                .to_string(),
        ),
        None,
        None,
    ];
    let expected_contexts = ["cmd/update", "", ""];
    let expected_types = [CommitType::Feature, CommitType::Fix, CommitType::Fix];
    let expected_related: [Vec<String>; 3] =
        [vec!["foo".to_string(), "bar".to_string()], vec![], vec![]];
    let expected_solved: [Vec<String>; 3] =
        [vec!["hallo".to_string(), "welt".to_string()], vec![], vec![]];
    let expected_breaking: [Vec<String>; 3] = [
        vec!["bla".to_string(), "blubb".to_string()],
        vec![],
        vec![
            "break something".to_string(),
            "break some real long thing\nthat wraps arround two lines".to_string(),
        ],
    ];

    let mut aggregator = ReportAggregator::new();
    for (i, message) in messages.iter().enumerate() {
        let possible_report = parse_report(message);
        assert!(possible_report.is_some());
        let report = possible_report.unwrap();
        assert_eq!(report.header, expected_headers[i]);
        assert_eq!(report.description, expected_descriptions[i]);
        assert_eq!(expected_types[i], report.commit_type);
        assert_eq!(expected_contexts[i], report.context);
        assert_eq!(expected_solved[i], report.solved_issues);
        assert_eq!(expected_related[i], report.related_issues);
        assert_eq!(expected_breaking[i], report.breaking_changes);
        aggregator.add_report(report);
    }

    let expected_changelog = "### General Fixes\n\nSome fix\n\nFix something\n\n\n### cmd/update\n\n#### Features\n\nInsert some stuff\n\nThis commit will insert some stuff. \nIt is intendet to test if this works or not.\n\n### BREAKING CHANGES\n\nbla\n\nblubb\n\nbreak something\n\nbreak some real long thing\nthat wraps arround two lines\n\n";
    assert_eq!(expected_changelog, aggregator.print());
}

#[test]
fn parse_rejects_message_without_colon() {
    assert!(parse_report("no colon in this headline").is_none());
    assert!(parse_report("").is_none());
    assert!(parse_report("feat without colon\n\nSolves:\n - a").is_none());
}

#[test]
fn parse_rejects_unknown_type_token() {
    assert!(parse_report("chore: tidy the attic").is_none());
    assert!(parse_report("feats: almost a feature").is_none());
    assert!(parse_report("fixup: not a fix").is_none());
    assert!(parse_report("(ctx): no type at all").is_none());
}

#[test]
fn parse_accepts_type_token_case_insensitively() {
    assert_eq!(
        parse_report("FeAt: shout").unwrap().commit_type,
        CommitType::Feature
    );
    assert_eq!(
        parse_report("FEATURE(core): loud").unwrap().commit_type,
        CommitType::Feature
    );
    assert_eq!(parse_report("Fix: hush").unwrap().commit_type, CommitType::Fix);
}

#[test]
fn parse_header_keeps_internal_colons() {
    let report = parse_report("feat: a: b : c").unwrap();
    assert_eq!(report.header, "a: b : c");
    let report = parse_report("fix(io):   spaced out  ").unwrap();
    assert_eq!(report.header, "spaced out");
}

#[test]
fn parse_extracts_context() {
    let report = parse_report("feat(cmd/update): x").unwrap();
    assert_eq!(report.context, "cmd/update");
    let report = parse_report("fix: x").unwrap();
    assert_eq!(report.context, "");
    let report = parse_report("feat(a(b)): x").unwrap();
    assert_eq!(report.context, "a(b)");
}

#[test]
fn parse_solves_section() {
    let report = parse_report("feat: x\n\nSolves:\n - a\n - b").unwrap();
    assert_eq!(report.solved_issues, vec!["a".to_string(), "b".to_string()]);
    assert!(report.related_issues.is_empty());
    assert!(report.breaking_changes.is_empty());
    assert_eq!(report.description, None);
}

#[test]
fn parse_related_section() {
    let report = parse_report("feat: x\n\nRelated:\n - a\n - b").unwrap();
    assert_eq!(report.related_issues, vec!["a".to_string(), "b".to_string()]);
}

#[test]
fn parse_breaking_changes_both_spellings() {
    let report = parse_report("feat: x\n\nBreaking_Changes:\n - a\n - b").unwrap();
    assert_eq!(report.breaking_changes, vec!["a".to_string(), "b".to_string()]);
    let report = parse_report("feat: x\n\nBreaking Changes:\n - a\n - b").unwrap();
    assert_eq!(report.breaking_changes, vec!["a".to_string(), "b".to_string()]);
    let report = parse_report("feat: x\n\nbreaking changes:\n - a").unwrap();
    assert_eq!(report.breaking_changes, vec!["a".to_string()]);
}

#[test]
fn parse_label_needs_its_own_line() {
    let report = parse_report("feat: x\n\nSolves: - a - b").unwrap();
    assert!(report.solved_issues.is_empty());
    assert_eq!(report.description, Some("Solves: - a - b".to_string()));
}

#[test]
fn parse_last_description_wins() {
    let report = parse_report("feat: x\n\nfirst body\n\nsecond body").unwrap();
    assert_eq!(report.description, Some("second body".to_string()));
}

#[test]
fn parse_later_list_section_overwrites_earlier() {
    let report = parse_report("feat: x\n\nSolves:\n - a\n\nSolves:\n - b").unwrap();
    assert_eq!(report.solved_issues, vec!["b".to_string()]);
}

#[test]
fn parse_blank_segments_are_skipped() {
    let report = parse_report("feat: x\n\n   \n\nthe body").unwrap();
    assert_eq!(report.description, Some("the body".to_string()));
    let report = parse_report("feat: x\n\n   \t").unwrap();
    assert_eq!(report.description, None);
}

#[test]
fn parse_end_to_end_scenario() {
    let report = parse_report(
        "feat(cmd/update): Insert some stuff\n\nThis commit will insert some stuff.\n\nSolves:\n - hallo\n - welt",
    )
    .unwrap();
    assert_eq!(report.context, "cmd/update");
    assert_eq!(report.commit_type, CommitType::Feature);
    assert_eq!(report.header, "Insert some stuff");
    assert_eq!(
        report.description,
        Some("This commit will insert some stuff.".to_string())
    );
    assert_eq!(
        report.solved_issues,
        vec!["hallo".to_string(), "welt".to_string()]
    );
}

#[test]
fn parse_entry_with_plain_hyphen_stays_whole() {
    let report = parse_report("feat: x\n\nSolves:\n - a-b\n - c - d").unwrap();
    assert_eq!(report.solved_issues, vec!["a-b".to_string(), "c".to_string(), "d".to_string()]);
}
