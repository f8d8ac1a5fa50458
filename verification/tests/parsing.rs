use swap_import::overrides::{parse_multi_kv_map, parse_multi_map};
use swap_import::strutil::{replace_all, split_once_str, split_str, trim_str};

#[test]
fn trim_removes_surrounding_whitespace() {
    assert_eq!(trim_str("  a b  ").as_str(), "a b");
    assert_eq!(trim_str("\t\nx\r ").as_str(), "x");
    assert_eq!(trim_str("   ").as_str(), "");
    assert_eq!(trim_str("plain").as_str(), "plain");
}

#[test]
fn split_once_finds_first_separator() {
    let (a, b) = split_once_str("k=v=w", '=').unwrap();
    assert_eq!(a.as_str(), "k");
    assert_eq!(b.as_str(), "v=w");
    assert!(split_once_str("novalue", '=').is_none());
}

#[test]
fn split_keeps_empty_segments() {
    let parts = split_str("a||b", '|');
    let got: Vec<&str> = parts.iter().map(|s| s.as_str()).collect();
    assert_eq!(got, vec!["a", "", "b"]);
    let single = split_str("solo", '|');
    assert_eq!(single.len(), 1);
    assert_eq!(single[0].as_str(), "solo");
}

#[test]
fn replace_all_replaces_every_occurrence() {
    let r = replace_all("x{n}y{n}", "{n}", "7");
    assert_eq!(r.as_str(), "x7y7");
    let none = replace_all("abc", "{n}", "7");
    assert_eq!(none.as_str(), "abc");
}

#[test]
fn alias_directive_without_equals_is_skipped() {
    let specs = vec!["noequals".to_string()];
    let m = parse_multi_map(Some(&specs));
    assert_eq!(m.len(), 0);
}

#[test]
fn alias_tokens_are_trimmed_and_empties_dropped() {
    let specs = vec!["m= a | |b ".to_string()];
    let m = parse_multi_map(Some(&specs));
    let vals = m.get("m").unwrap();
    let got: Vec<&str> = vals.iter().map(|s| s.as_str()).collect();
    assert_eq!(got, vec!["a", "b"]);
}

#[test]
fn alias_directives_for_same_model_append_in_order() {
    let specs = vec!["m=a|b".to_string(), "m=c".to_string()];
    let m = parse_multi_map(Some(&specs));
    let vals = m.get("m").unwrap();
    let got: Vec<&str> = vals.iter().map(|s| s.as_str()).collect();
    assert_eq!(got, vec!["a", "b", "c"]);
}

#[test]
fn alias_directive_with_only_empty_tokens_adds_no_entry() {
    let specs = vec!["m= | ".to_string()];
    let m = parse_multi_map(Some(&specs));
    assert_eq!(m.len(), 0);
}

#[test]
fn filter_segments_accept_colon_or_equals() {
    let specs = vec!["m=temp:0.5|gpu=1".to_string()];
    let m = parse_multi_kv_map(Some(&specs));
    let pairs = m.get("m").unwrap();
    let got: Vec<(&str, &str)> = pairs.iter().map(|p| (p.0.as_str(), p.1.as_str())).collect();
    assert_eq!(got, vec![("temp", "0.5"), ("gpu", "1")]);
}

#[test]
fn filter_segment_without_separator_is_skipped() {
    let specs = vec!["m=malformed|k:v".to_string()];
    let m = parse_multi_kv_map(Some(&specs));
    let pairs = m.get("m").unwrap();
    assert_eq!(pairs.len(), 1);
    assert_eq!(pairs[0].0.as_str(), "k");
    assert_eq!(pairs[0].1.as_str(), "v");
}

#[test]
fn filter_directive_with_no_usable_segment_adds_no_entry() {
    let specs = vec!["m=junk|more junk".to_string()];
    let m = parse_multi_kv_map(Some(&specs));
    assert_eq!(m.len(), 0);
}

#[test]
fn no_directives_give_empty_maps() {
    assert_eq!(parse_multi_map(None).len(), 0);
    assert_eq!(parse_multi_kv_map(None).len(), 0);
}
