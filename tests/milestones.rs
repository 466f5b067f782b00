use mascord_memory::milestones::{first_distinct, parse_milestones, strip_numbered_prefix};

#[test]
fn test_parse_milestones_handles_bullets_and_numbers() {
    let raw = "MILESTONES:\n- Decision A\n1. Constraint B\n* Ongoing thread\nNone";
    let milestones = parse_milestones(raw, 5);
    assert_eq!(milestones.len(), 3);
    assert_eq!(milestones[0], "Decision A");
    assert_eq!(milestones[1], "Constraint B");
    assert_eq!(milestones[2], "Ongoing thread");
}

#[test]
fn none_response_yields_nothing() {
    assert!(parse_milestones("None", 6).is_empty());
    assert!(parse_milestones("  none  \n- after", 6).is_empty());
    assert!(parse_milestones("", 6).is_empty());
    assert!(parse_milestones("no list here\njust prose", 6).is_empty());
}

#[test]
fn milestones_are_deduplicated_ignoring_case() {
    let found = parse_milestones("- Ship it\n- ship IT\n2) Other", 6);
    assert_eq!(found, vec!["Ship it".to_string(), "Other".to_string()]);
}

#[test]
fn milestones_are_capped() {
    let raw = "- a\n- b\n- c\n- d\n- e\n- f\n- g\n- h";
    let found = parse_milestones(raw, 6);
    assert_eq!(found.len(), 6);
    assert_eq!(found[5], "f");
}

#[test]
fn numbered_prefix_forms() {
    assert_eq!(strip_numbered_prefix("12. Twelve"), Some("Twelve".to_string()));
    assert_eq!(strip_numbered_prefix("  3 )  spaced"), Some("spaced".to_string()));
    assert_eq!(strip_numbered_prefix("4."), None);
    assert_eq!(strip_numbered_prefix("x. no"), None);
    assert_eq!(strip_numbered_prefix("5: colon"), None);
}

#[test]
fn first_distinct_keeps_the_first_item_of_each_key() {
    let v = |xs: &[&str]| xs.iter().map(|x| x.to_string()).collect::<Vec<String>>();
    let items = v(&["Ship it", "SHIP IT", "Other", "ship it"]);
    let keys = v(&["ship it", "ship it", "other", "ship it"]);
    assert_eq!(first_distinct(&items, &keys, 6), v(&["Ship it", "Other"]));
    assert_eq!(first_distinct(&items, &keys, 1), v(&["Ship it"]));
    let distinct_keys = v(&["a", "b", "c", "d"]);
    assert_eq!(first_distinct(&items, &distinct_keys, 6), items);
    assert!(first_distinct(&Vec::new(), &Vec::new(), 6).is_empty());
}
