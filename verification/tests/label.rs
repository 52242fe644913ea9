use oc_stats::label::truncate_label;

#[test]
fn short_labels_are_kept() {
    assert_eq!(truncate_label("gpt-5", 26), "gpt-5");
    assert_eq!(truncate_label("", 0), "");
    assert_eq!(truncate_label("abcdef", 6), "abcdef");
}

#[test]
fn long_labels_end_in_dots() {
    assert_eq!(truncate_label("abcdefg", 6), "abc...");
    assert_eq!(truncate_label("mistral-large-2407-instruct", 10), "mistral...");
}

#[test]
fn labels_count_characters_not_bytes() {
    assert_eq!(truncate_label("héllo wörld", 11), "héllo wörld");
    assert_eq!(truncate_label("héllo wörld", 8), "héllo...");
}

#[test]
fn tiny_limits_give_only_dots() {
    assert_eq!(truncate_label("abcdef", 2), "...");
    assert_eq!(truncate_label("abcdef", 3), "...");
}
