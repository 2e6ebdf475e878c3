use eleutheria_telos::notes::{
    date_bucket, display_title, duplicate_title, extract_note_refs, format_timestamp, note_card,
    note_tags, note_tags_json, remove_tag_from_note, retag_note, tag_from_query, tag_tree, DateBucket,
};

#[test]
fn timestamps_are_relative() {
    assert_eq!(format_timestamp(1000, 1000), "just now");
    assert_eq!(format_timestamp(1000 + 59, 1000), "just now");
    assert_eq!(format_timestamp(1000 + 60, 1000), "1m ago");
    assert_eq!(format_timestamp(1000 + 3599, 1000), "59m ago");
    assert_eq!(format_timestamp(1000 + 7200, 1000), "2h ago");
    assert_eq!(format_timestamp(1000 + 3 * 86400, 1000), "3d ago");
}

#[test]
fn date_buckets_by_age() {
    assert_eq!(date_bucket(100_000, 100_000), DateBucket::Today);
    assert_eq!(date_bucket(200_000, 100_000), DateBucket::Yesterday);
    assert_eq!(date_bucket(100_000 + 5 * 86400, 100_000), DateBucket::ThisWeek);
    assert_eq!(date_bucket(100_000 + 20 * 86400, 100_000), DateBucket::ThisMonth);
    assert_eq!(date_bucket(100_000 + 40 * 86400, 100_000), DateBucket::Older);
    assert_eq!(DateBucket::ThisWeek.label(), "This Week");
}

#[test]
fn note_refs_sorted_and_unique() {
    let refs = extract_note_refs("See [[Zeta]] and [[ Alpha ]] and [[Zeta]] and [[]] and [[bad\nline]]");
    assert_eq!(refs, vec!["Alpha".to_string(), "Zeta".to_string()]);
}

#[test]
fn tag_query_is_lowercased() {
    assert_eq!(tag_from_query("#Work "), Some("work".to_string()));
    assert_eq!(tag_from_query("#"), None);
    assert_eq!(tag_from_query("work"), None);
}

#[test]
fn display_titles() {
    assert_eq!(display_title("#only #tags"), "Untitled");
    assert_eq!(display_title("Plan #work"), "Plan");
    assert_eq!(duplicate_title("Plan"), "Copy of Plan");
}

#[test]
fn note_card_escapes_and_truncates() {
    let long = "é".repeat(2000);
    let card = note_card(10_000, "n1", "<b> #x", &long, 1, 10_000);
    assert_eq!(card.title, "&lt;b&gt;");
    assert!(card.pinned);
    assert!(card.truncated);
    assert_eq!(card.attr_content.len(), 2048);
    assert_eq!(card.preview.len(), 300);
    assert_eq!(card.time_label, "just now");
}

#[test]
fn note_tags_read_title_and_content() {
    assert_eq!(note_tags("Plan #work", "#home stuff #work"), vec!["work".to_string(), "home".to_string()]);
    assert_eq!(note_tags_json("Plan #work", "\"#q\""), "[\"work\"]");
    assert_eq!(note_tags_json("none", "here"), "[]");
}

#[test]
fn tags_handler_returns_tree() {
    let rows = vec![("alpha".to_string(), 1i64), ("beta/sub".to_string(), 1i64)];
    let tree = tag_tree(&rows);
    assert_eq!(tree.len(), 2);
    assert_eq!(tree[0].name, "alpha");
    assert_eq!(tree[0].count, 1);
    assert!(tree[0].children.is_empty());
    assert_eq!(tree[1].name, "beta");
    assert_eq!(tree[1].count, 0);
    assert_eq!(tree[1].children, vec![("beta/sub".to_string(), "sub".to_string(), 1i64)]);
}

#[test]
fn tag_tree_sorts_roots_and_keeps_child_order() {
    let rows = vec![
        ("work/b".to_string(), 2i64),
        ("home".to_string(), 4i64),
        ("work".to_string(), 3i64),
        ("work/a".to_string(), 1i64),
    ];
    let tree = tag_tree(&rows);
    assert_eq!(tree.len(), 2);
    assert_eq!(tree[0].name, "home");
    assert_eq!(tree[1].name, "work");
    assert_eq!(tree[1].count, 3);
    assert_eq!(
        tree[1].children,
        vec![("work/b".to_string(), "b".to_string(), 2i64), ("work/a".to_string(), "a".to_string(), 1i64)]
    );
}

#[test]
fn deleting_a_tag_clears_it_from_the_note() {
    let (title, content) = remove_tag_from_note("Plan #Work", "#work/client call\n#WORK #home", "WORK");
    assert_eq!(title, "Plan");
    assert_eq!(content, "call\n #home");
    assert_eq!(note_tags(&title, &content), vec!["home".to_string()]);
    let (title, content) = remove_tag_from_note("#work#work/x", "x #workshop #work/", "work");
    for t in note_tags(&title, &content) {
        assert!(t != "work" && !t.starts_with("work/"), "{title:?} {content:?}");
    }
}

#[test]
fn retagging_moves_a_note_off_the_old_tag() {
    let (title, content) = retag_note("Plan #Work", "#work/client call #home", "WORK", "Job");
    assert_eq!(title, "Plan #job");
    assert_eq!(content, "#job/client call #home");
    assert_eq!(note_tags(&title, &content), vec!["job".to_string(), "job/client".to_string(), "home".to_string()]);
    let (title, content) = retag_note("Plan", "no tags here", "work", "job");
    assert_eq!(title, "Plan #job");
    assert_eq!(note_tags(&title, &content), vec!["job".to_string()]);
}
