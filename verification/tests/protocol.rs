use akela::{normalize_tags, Envelope, TagSet};

fn tags(values: &[&str]) -> TagSet {
    TagSet::from_vec(values.iter().map(|value| value.to_string()).collect())
}

fn sorted(set: &TagSet) -> Vec<String> {
    let mut v = set.to_vec();
    v.sort();
    v
}

#[test]
fn public_events_reach_every_client() {
    assert!(akela::protocol::matches(None, &tags(&[])));
    assert!(akela::protocol::matches(None, &tags(&["vip"])));
    assert!(akela::protocol::matches(Some(&tags(&[])), &tags(&[])));
    assert!(akela::protocol::matches(Some(&tags(&[])), &tags(&["vip"])));
}

#[test]
fn requires_every_supplied_tag() {
    assert!(akela::protocol::matches(Some(&tags(&["vip"])), &tags(&["vip"])));
    assert!(akela::protocol::matches(
        Some(&tags(&["vip", "beta"])),
        &tags(&["vip", "beta"])
    ));
    assert!(!akela::protocol::matches(Some(&tags(&["vip", "beta"])), &tags(&["vip"])));
}

#[test]
fn clients_may_hold_extra_tags() {
    assert!(akela::protocol::matches(
        Some(&tags(&["vip"])),
        &tags(&["vip", "beta", "gold"])
    ));
}

#[test]
fn mismatched_tags_do_not_match() {
    assert!(!akela::protocol::matches(Some(&tags(&["vip"])), &tags(&["beta"])));
    assert!(!akela::protocol::matches(Some(&tags(&["vip"])), &tags(&[])));
}

#[test]
fn tag_order_does_not_matter_for_matching() {
    assert!(akela::protocol::matches(
        Some(&tags(&["beta", "vip"])),
        &tags(&["gold", "vip", "beta"])
    ));
}

#[test]
fn normalize_treats_missing_and_empty_lists_as_public() {
    assert!(normalize_tags(None).is_none());
    assert!(normalize_tags(Some(Vec::new())).is_none());
}

#[test]
fn normalize_collapses_duplicates() {
    let set = normalize_tags(Some(vec![
        "vip".to_string(),
        "beta".to_string(),
        "vip".to_string(),
    ]))
    .unwrap();
    assert_eq!(set.len(), 2);
    assert_eq!(sorted(&set), vec!["beta".to_string(), "vip".to_string()]);
}

#[test]
fn send_envelope_carries_data_normalised_tags_and_sender() {
    match Envelope::send(7u32, Some(vec!["vip".to_string()]), Some(42)) {
        Envelope::Send { data, tags, sender } => {
            assert_eq!(data, 7);
            assert_eq!(sorted(&tags.unwrap()), vec!["vip".to_string()]);
            assert_eq!(sender, Some(42));
        }
        _ => panic!("expected a send envelope"),
    }
    match Envelope::send("x", Some(Vec::new()), None) {
        Envelope::Send { data, tags, sender } => {
            assert_eq!(data, "x");
            assert!(tags.is_none());
            assert_eq!(sender, None);
        }
        _ => panic!("expected a send envelope"),
    }
}

#[test]
fn tag_envelopes_name_client_and_tag() {
    match Envelope::<()>::tag_add(5, "vip".to_string()) {
        Envelope::TagAdd { client, tag } => {
            assert_eq!(client, 5);
            assert_eq!(tag, "vip");
        }
        _ => panic!("expected a tag addition"),
    }
    match Envelope::<()>::tag_remove(6, "beta".to_string()) {
        Envelope::TagRemove { client, tag } => {
            assert_eq!(client, 6);
            assert_eq!(tag, "beta");
        }
        _ => panic!("expected a tag removal"),
    }
}
