use eleutheria_telos::tags::{extract_tags, replace_tag_in_text, strip_inline_tags};

#[test]
fn strip_tags_from_title() {
    assert_eq!(strip_inline_tags("List of pendings #newfolder"), "List of pendings");
    assert_eq!(strip_inline_tags("#work project notes"), "project notes");
    assert_eq!(strip_inline_tags("clean title"), "clean title");
    assert_eq!(strip_inline_tags("Meeting #work/client recap"), "Meeting recap");
}

#[test]
fn extract_tags_basic() {
    let tags = extract_tags("Hello #world and #rust are great");
    assert!(tags.contains(&"world".to_string()));
    assert!(tags.contains(&"rust".to_string()));
    assert_eq!(tags.len(), 2);
}

#[test]
fn extract_tags_nested() {
    let tags = extract_tags("Note about #work/project/alpha tasks");
    assert!(tags.contains(&"work/project/alpha".to_string()));
}

#[test]
fn extract_tags_dedup() {
    let tags = extract_tags("#rust is great, #rust is awesome");
    assert_eq!(tags.iter().filter(|t| t.as_str() == "rust").count(), 1);
}

#[test]
fn extract_tags_must_start_with_letter() {
    let tags = extract_tags("Number #123 is not a tag, but #valid is");
    assert!(!tags.contains(&"123".to_string()));
    assert!(tags.contains(&"valid".to_string()));
}

#[test]
fn extract_tags_ignores_markdown_headings() {
    let tags = extract_tags("##Subtítulo\n### Heading Three\n#valid tag here");
    assert!(!tags.iter().any(|t| t.starts_with("subt")), "##Heading should not produce a tag");
    assert!(!tags.contains(&"heading".to_string()), "### Heading should not produce a tag");
    assert!(tags.contains(&"valid".to_string()), "#valid (preceded by whitespace/newline) should be a tag");
}

#[test]
fn extract_tags_keeps_first_appearance_order() {
    let tags = extract_tags("#Beta then #alpha and #beta again");
    assert_eq!(tags, vec!["beta".to_string(), "alpha".to_string()]);
}

#[test]
fn extract_tags_trims_trailing_slashes() {
    let tags = extract_tags("see #work/ and #a_b-c");
    assert_eq!(tags, vec!["work".to_string(), "a_b".to_string()]);
}

#[test]
fn strip_inline_tags_keeps_headings_and_numbers() {
    assert_eq!(strip_inline_tags("## Heading #123"), "## Heading #123");
}

#[test]
fn replace_tag_renames_nested_tags() {
    let (out, changed) = replace_tag_in_text("a #work and #work/client but #workshop", "work", "job");
    assert_eq!(out, "a #job and #job/client but #workshop");
    assert!(changed);
}

#[test]
fn replace_tag_reports_no_change() {
    let (out, changed) = replace_tag_in_text("nothing here #other", "work", "job");
    assert_eq!(out, "nothing here #other");
    assert!(!changed);
}

#[test]
fn stripped_titles_carry_no_tags() {
    for s in ["Meeting #work notes", "#a#b #c", "x\u{a0}#tag", "  #lead and #trail/child/  ", "##heading #ok", "a #1#b"] {
        let stripped = strip_inline_tags(s);
        assert!(extract_tags(&stripped).is_empty(), "{s:?} -> {stripped:?}");
    }
}

#[test]
fn removed_tags_and_their_children_are_gone() {
    for s in ["a #work #work/x #other", "#Work\t#WORK/deep/er", "x #work#work y", "#work/ end"] {
        let (out, changed) = replace_tag_in_text(s, "work", "");
        assert!(changed, "{s:?}");
        for t in extract_tags(&out) {
            assert!(t != "work" && !t.starts_with("work/"), "{s:?} -> {out:?}");
        }
    }
    let (out, _) = replace_tag_in_text("a #work #work/x #other", "work", "");
    assert_eq!(out, "a #other");
}

#[test]
fn renamed_tags_leave_no_old_tags() {
    for s in ["a #work #work/x #other", "#Work\t#WORK/deep/er", "x #work#work y", "#work/ end", "#workshop #work"] {
        let (out, _) = replace_tag_in_text(s, "work", "job");
        for t in extract_tags(&out) {
            assert!(t != "work" && !t.starts_with("work/"), "{s:?} -> {out:?}");
        }
    }
    let (out, changed) = replace_tag_in_text("#Work\t#WORK/deep/er", "work", "job");
    assert!(changed);
    assert_eq!(out, "#job\t #job/deep/er");
    assert_eq!(extract_tags(&out), vec!["job".to_string(), "job/deep/er".to_string()]);
}

#[test]
fn extracted_tags_are_unique_lowercase_names() {
    for s in ["#Work #work #WORK/Sub/ #a1_b/ #9x #x//", "x#no #Yes\n#yes/ #é #b-c", ""] {
        let tags = extract_tags(s);
        for (i, t) in tags.iter().enumerate() {
            assert!(t.chars().next().map_or(false, |c| c.is_ascii_alphabetic()), "{t:?}");
            assert!(!t.ends_with('/'), "{t:?}");
            assert!(!t.chars().any(|c| c.is_ascii_uppercase()), "{t:?}");
            assert!(t.chars().all(|c| c.is_ascii_alphanumeric() || c == '_' || c == '/'), "{t:?}");
            assert!(!tags[..i].contains(t), "{t:?} twice");
        }
    }
    assert_eq!(extract_tags("#Work #work #WORK/Sub/ #x//"), vec!["work".to_string(), "work/sub".to_string(), "x".to_string()]);
}
