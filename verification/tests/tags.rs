use akela::TagSet;

fn owned(values: &[&str]) -> Vec<String> {
    values.iter().map(|value| value.to_string()).collect()
}

fn sorted(set: &TagSet) -> Vec<String> {
    let mut v = set.to_vec();
    v.sort();
    v
}

#[test]
fn new_set_is_empty() {
    let set = TagSet::new();
    assert!(set.is_empty());
    assert_eq!(set.len(), 0);
    assert!(set.to_vec().is_empty());
}

#[test]
fn insert_reports_whether_the_tag_was_new() {
    let mut set = TagSet::new();
    assert!(set.insert("vip".to_string()));
    assert!(!set.insert("vip".to_string()));
    assert!(set.insert("beta".to_string()));
    assert_eq!(set.len(), 2);
    assert!(set.contains(&"vip".to_string()));
    assert!(!set.contains(&"gold".to_string()));
}

#[test]
fn remove_reports_whether_the_tag_was_held() {
    let mut set = TagSet::from_vec(owned(&["vip", "beta"]));
    assert!(set.remove(&"vip".to_string()));
    assert!(!set.remove(&"vip".to_string()));
    assert_eq!(sorted(&set), owned(&["beta"]));
    assert!(set.remove(&"beta".to_string()));
    assert!(set.is_empty());
}

#[test]
fn insert_then_remove_restores_the_set() {
    let mut set = TagSet::from_vec(owned(&["vip"]));
    set.insert("beta".to_string());
    set.remove(&"beta".to_string());
    assert_eq!(sorted(&set), owned(&["vip"]));
}

#[test]
fn from_vec_drops_repeats() {
    let set = TagSet::from_vec(owned(&["a", "b", "a", "c", "b"]));
    assert_eq!(set.len(), 3);
    assert_eq!(sorted(&set), owned(&["a", "b", "c"]));
}

#[test]
fn tags_are_case_sensitive() {
    let set = TagSet::from_vec(owned(&["VIP"]));
    assert!(!set.contains(&"vip".to_string()));
}

#[test]
fn subset_relation() {
    let small = TagSet::from_vec(owned(&["vip"]));
    let big = TagSet::from_vec(owned(&["vip", "beta"]));
    assert!(small.is_subset_of(&big));
    assert!(!big.is_subset_of(&small));
    assert!(TagSet::new().is_subset_of(&small));
    assert!(big.is_subset_of(&big));
}

#[test]
fn snapshot_is_an_independent_copy() {
    let mut set = TagSet::from_vec(owned(&["vip"]));
    let copy = set.snapshot();
    set.insert("beta".to_string());
    assert_eq!(sorted(&copy), owned(&["vip"]));
    assert_eq!(sorted(&set), owned(&["beta", "vip"]));
}
