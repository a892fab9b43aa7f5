use changelog_gen::pipeline::latest_tag_index;
use changelog_gen::pipeline::report_for_message;
use changelog_gen::pipeline::worker_count;

#[test]
fn no_tags_means_no_latest_tag() {
    let times: Vec<i64> = vec![];
    assert_eq!(latest_tag_index(&times), None);
}

#[test]
fn latest_tag_is_greatest_timestamp() {
    assert_eq!(latest_tag_index(&vec![3]), Some(0));
    assert_eq!(latest_tag_index(&vec![5, 9, 2]), Some(1));
    assert_eq!(latest_tag_index(&vec![-4, -1, -9]), Some(1));
}

#[test]
fn latest_tag_ties_resolve_to_the_last() {
    assert_eq!(latest_tag_index(&vec![5, 9, 9, 3]), Some(2));
    assert_eq!(latest_tag_index(&vec![7, 7]), Some(1));
}

#[test]
fn worker_count_leaves_one_unit_free_and_caps_at_jobs() {
    assert_eq!(worker_count(8, 100), 7);
    assert_eq!(worker_count(1, 5), 1);
    assert_eq!(worker_count(2, 5), 1);
    assert_eq!(worker_count(4, 2), 2);
    assert_eq!(worker_count(4, 0), 0);
}

#[test]
fn empty_message_is_skipped() {
    assert!(report_for_message("").is_none());
}

#[test]
fn nonempty_message_goes_through_the_parser() {
    let report = report_for_message("fix(io): close the handle").unwrap();
    assert_eq!(report.header, "close the handle");
    assert_eq!(report.context, "io");
    assert!(report_for_message("not a structured message").is_none());
}
