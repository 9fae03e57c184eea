use cargo_work::add::parse_features_bracket;
use cargo_work::error::{FeatFault, WorkError};

fn strs(xs: &[&str]) -> Vec<String> {
    xs.iter().map(|s| s.to_string()).collect()
}

#[test]
fn bracket_grammar_builds_the_feature_map() {
    let m = parse_features_bracket(&strs(&["foo[a,b]", "bar[c]"]), &strs(&["foo", "bar"]))
        .unwrap();
    assert_eq!(m.len(), 2);
    assert_eq!(m[0].0, "foo");
    assert_eq!(m[0].1, strs(&["a", "b"]));
    assert_eq!(m[1].0, "bar");
    assert_eq!(m[1].1, strs(&["c"]));
}

#[test]
fn unknown_dependency_is_rejected() {
    assert!(matches!(
        parse_features_bracket(&strs(&["baz[x]"]), &strs(&["foo"])),
        Err(WorkError::InvalidFeatureSpec { fault: FeatFault::UnknownDep, name }) if name == "baz"
    ));
}

#[test]
fn missing_bracket_is_rejected() {
    assert!(matches!(
        parse_features_bracket(&strs(&["foo"]), &strs(&["foo"])),
        Err(WorkError::InvalidFeatureSpec { fault: FeatFault::MissingBracket, name }) if name == "foo"
    ));
}

#[test]
fn empty_feature_list_is_rejected() {
    assert!(matches!(
        parse_features_bracket(&strs(&["foo[]"]), &strs(&["foo"])),
        Err(WorkError::InvalidFeatureSpec { fault: FeatFault::NoFeatures, name }) if name == "foo"
    ));
    assert!(matches!(
        parse_features_bracket(&strs(&["foo[ , ]"]), &strs(&["foo"])),
        Err(WorkError::InvalidFeatureSpec { fault: FeatFault::NoFeatures, .. })
    ));
}

#[test]
fn name_before_bracket_must_be_present() {
    assert!(matches!(
        parse_features_bracket(&strs(&["[x]"]), &strs(&["foo"])),
        Err(WorkError::InvalidFeatureSpec { fault: FeatFault::EmptyName, .. })
    ));
}

#[test]
fn repeated_entries_accumulate_in_order() {
    let m = parse_features_bracket(&strs(&["foo[a]", "foo[b,a]"]), &strs(&["foo"])).unwrap();
    assert_eq!(m.len(), 1);
    assert_eq!(m[0].1, strs(&["a", "b", "a"]));
}

#[test]
fn version_suffixes_match_by_base_name() {
    let m = parse_features_bracket(&strs(&["foo@1.2[a]"]), &strs(&["foo@1"])).unwrap();
    assert_eq!(m.len(), 1);
    assert_eq!(m[0].0, "foo");
    assert_eq!(m[0].1, strs(&["a"]));
}

#[test]
fn empty_token_list_gives_empty_map() {
    let m = parse_features_bracket(&strs(&[]), &strs(&["foo"])).unwrap();
    assert!(m.is_empty());
}

#[test]
fn features_are_trimmed_and_empty_segments_dropped() {
    let m = parse_features_bracket(&strs(&["foo[ a , ,b ]"]), &strs(&["foo"])).unwrap();
    assert_eq!(m[0].1, strs(&["a", "b"]));
}
