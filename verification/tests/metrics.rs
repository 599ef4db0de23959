use blazon::binary_name_from_metadata;
use blazon::count_unique_deps;

#[test]
fn count_unique_deps_empty_listing() {
    assert_eq!(count_unique_deps(""), 0);
    assert_eq!(count_unique_deps("\n\n  \n"), 0);
}

#[test]
fn count_unique_deps_counts_distinct_first_tokens() {
    assert_eq!(count_unique_deps("serde v1.0.219\n"), 1);
    assert_eq!(count_unique_deps("alpha v1\nbeta v2\nalpha v1\n\n"), 2);
    // leading whitespace is skipped before the token is read
    assert_eq!(count_unique_deps("  alpha x\nbeta\nalpha\n"), 2);
}

#[test]
fn count_unique_deps_token_stops_at_whitespace() {
    // both lines name the same dependency; only the first token counts
    assert_eq!(count_unique_deps("tokio v1.0\ntokio v2.0\n"), 1);
}

#[test]
fn binary_name_single_line_metadata() {
    // on one line, the first quoted name wins, wherever it stands
    let meta = "{\"packages\":[{\"name\":\"demo\",\"targets\":[{\"kind\":[\"bin\"],\"name\":\"blazon\"}]}]}";
    assert_eq!(binary_name_from_metadata(meta), Some("demo".to_string()));
}

#[test]
fn binary_name_multi_line_metadata() {
    let meta = "{\n\"kind\":[\"bin\"],\n\"name\":\"mybin\"\n}\n";
    assert_eq!(binary_name_from_metadata(meta), Some("mybin".to_string()));
}

#[test]
fn binary_name_spaced_kind_form() {
    let meta = "\"kind\": [\"bin\"] \"name\":\"spaced\" rest";
    assert_eq!(binary_name_from_metadata(meta), Some("spaced".to_string()));
}

#[test]
fn binary_name_absent() {
    assert_eq!(binary_name_from_metadata("no targets here"), None);
    assert_eq!(binary_name_from_metadata("\"kind\":[\"lib\"] \"name\":\"x\""), None);
    assert_eq!(binary_name_from_metadata("\"kind\":[\"bin\"] without any label"), None);
    // an opening quote with no closing quote yields nothing
    assert_eq!(binary_name_from_metadata("\"kind\":[\"bin\"] \"name\":\"unterminated"), None);
}
