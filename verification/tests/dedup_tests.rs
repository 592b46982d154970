use useful_api::dedup::dedup_merge;

#[test]
fn dedup_merge_collapses_contained_fragments() {
    let out = dedup_merge(vec!["ab".to_string(), "a".to_string(), "abc".to_string()]);
    assert_eq!(out, vec!["abc".to_string()]);
}

#[test]
fn dedup_merge_keeps_unrelated_phrases_sorted() {
    let out = dedup_merge(vec!["zz 9.9".to_string(), "ab 20.07".to_string()]);
    assert_eq!(out, vec!["ab 20.07".to_string(), "zz 9.9".to_string()]);
}

#[test]
fn dedup_merge_keeps_longest_representative() {
    let out = dedup_merge(vec![
        "20.07".to_string(),
        "Verfügbar ab 20.07.2099".to_string(),
        "ab 20.07.2099".to_string(),
    ]);
    assert_eq!(out, vec!["Verfügbar ab 20.07.2099".to_string()]);
}

#[test]
fn dedup_merge_of_nothing_is_nothing() {
    let out = dedup_merge(Vec::new());
    assert!(out.is_empty());
}

#[test]
fn dedup_merge_drops_duplicates() {
    let out = dedup_merge(vec!["gleich".to_string(), "gleich".to_string()]);
    assert_eq!(out, vec!["gleich".to_string()]);
}
