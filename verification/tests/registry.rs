use akela::{Action, Envelope, Registry, TagSet};

fn tags(values: &[&str]) -> TagSet {
    TagSet::from_vec(values.iter().map(|value| value.to_string()).collect())
}

fn sorted_ids(mut ids: Vec<u128>) -> Vec<u128> {
    ids.sort();
    ids
}

fn sorted(set: &TagSet) -> Vec<String> {
    let mut v = set.to_vec();
    v.sort();
    v
}

fn sample() -> Registry<&'static str> {
    let mut registry = Registry::new();
    registry.register(1, tags(&[]), "plain");
    registry.register(2, tags(&["vip"]), "vip");
    registry.register(3, tags(&["vip", "beta"]), "vip-beta");
    registry.register(4, tags(&["beta"]), "beta");
    registry
}

fn deliver(registry: &mut Registry<&'static str>, envelope: Envelope<u8>) -> Vec<u128> {
    match registry.apply(envelope) {
        Action::Deliver { recipients, payload } => {
            assert_eq!(payload, 9);
            sorted_ids(recipients)
        }
        _ => panic!("a send must be delivered"),
    }
}

#[test]
fn public_send_reaches_every_client() {
    let mut registry = sample();
    let ids = deliver(&mut registry, Envelope::send(9, None, None));
    assert_eq!(ids, vec![1, 2, 3, 4]);
    let ids = deliver(&mut registry, Envelope::send(9, Some(Vec::new()), None));
    assert_eq!(ids, vec![1, 2, 3, 4]);
}

#[test]
fn tagged_send_reaches_clients_with_every_tag() {
    let mut registry = sample();
    let ids = deliver(&mut registry, Envelope::send(9, Some(vec!["vip".to_string()]), None));
    assert_eq!(ids, vec![2, 3]);
    let ids = deliver(
        &mut registry,
        Envelope::send(9, Some(vec!["vip".to_string(), "beta".to_string()]), None),
    );
    assert_eq!(ids, vec![3]);
    let ids = deliver(&mut registry, Envelope::send(9, Some(vec!["gold".to_string()]), None));
    assert!(ids.is_empty());
}

#[test]
fn sender_is_excluded() {
    let mut registry = sample();
    let ids = deliver(&mut registry, Envelope::send(9, None, Some(2)));
    assert_eq!(ids, vec![1, 3, 4]);
    let ids = deliver(&mut registry, Envelope::send(9, Some(vec!["vip".to_string()]), Some(3)));
    assert_eq!(ids, vec![2]);
    let ids = deliver(&mut registry, Envelope::send(9, None, Some(99)));
    assert_eq!(ids, vec![1, 2, 3, 4]);
}

#[test]
fn recipients_of_an_empty_registry() {
    let registry: Registry<()> = Registry::new();
    assert!(registry.recipients(None, None).is_empty());
    assert_eq!(registry.len(), 0);
}

#[test]
fn tag_addition_widens_delivery() {
    let mut registry = sample();
    match registry.apply(Envelope::<u8>::tag_add(1, "vip".to_string())) {
        Action::NotifyTags { client, tags } => {
            assert_eq!(client, 1);
            assert_eq!(sorted(&tags), vec!["vip".to_string()]);
        }
        _ => panic!("a known client must be told its tags"),
    }
    let ids = deliver(&mut registry, Envelope::send(9, Some(vec!["vip".to_string()]), None));
    assert_eq!(ids, vec![1, 2, 3]);
}

#[test]
fn tag_removal_narrows_delivery() {
    let mut registry = sample();
    match registry.apply(Envelope::<u8>::tag_remove(3, "vip".to_string())) {
        Action::NotifyTags { client, tags } => {
            assert_eq!(client, 3);
            assert_eq!(sorted(&tags), vec!["beta".to_string()]);
        }
        _ => panic!("a known client must be told its tags"),
    }
    let ids = deliver(&mut registry, Envelope::send(9, Some(vec!["vip".to_string()]), None));
    assert_eq!(ids, vec![2]);
}

#[test]
fn repeated_mutations_still_notify() {
    let mut registry = sample();
    match registry.apply(Envelope::<u8>::tag_add(2, "vip".to_string())) {
        Action::NotifyTags { client, tags } => {
            assert_eq!(client, 2);
            assert_eq!(sorted(&tags), vec!["vip".to_string()]);
        }
        _ => panic!("a known client must be told its tags"),
    }
    match registry.apply(Envelope::<u8>::tag_remove(1, "vip".to_string())) {
        Action::NotifyTags { client, tags } => {
            assert_eq!(client, 1);
            assert!(tags.is_empty());
        }
        _ => panic!("a known client must be told its tags"),
    }
}

#[test]
fn mutations_for_unknown_clients_are_ignored() {
    let mut registry = sample();
    assert!(matches!(
        registry.apply(Envelope::<u8>::tag_add(77, "vip".to_string())),
        Action::Ignore
    ));
    assert!(matches!(
        registry.apply(Envelope::<u8>::tag_remove(77, "vip".to_string())),
        Action::Ignore
    ));
    assert_eq!(registry.len(), 4);
    assert!(registry.client_tags(77).is_none());
}

#[test]
fn add_then_remove_restores_tags() {
    let mut registry = sample();
    registry.apply(Envelope::<u8>::tag_add(4, "gold".to_string()));
    registry.apply(Envelope::<u8>::tag_remove(4, "gold".to_string()));
    assert_eq!(sorted(&registry.client_tags(4).unwrap()), vec!["beta".to_string()]);
}

#[test]
fn deregister_removes_the_client() {
    let mut registry = sample();
    assert!(registry.deregister(2));
    assert!(!registry.deregister(2));
    assert_eq!(registry.len(), 3);
    assert!(registry.handle(2).is_none());
    let ids = deliver(&mut registry, Envelope::send(9, Some(vec!["vip".to_string()]), None));
    assert_eq!(ids, vec![3]);
}

#[test]
fn register_replaces_a_client_with_the_same_id() {
    let mut registry = sample();
    registry.register(2, tags(&["gold"]), "gold");
    assert_eq!(registry.len(), 4);
    assert_eq!(registry.handle(2), Some(&"gold"));
    assert_eq!(sorted(&registry.client_tags(2).unwrap()), vec!["gold".to_string()]);
}

#[test]
fn handles_are_kept_per_client() {
    let registry = sample();
    assert_eq!(registry.handle(3), Some(&"vip-beta"));
    assert_eq!(registry.handle(1), Some(&"plain"));
    assert_eq!(registry.handle(5), None);
}

#[test]
fn subscribe_assigns_a_random_version_four_id() {
    let mut registry = Registry::new();
    let first = registry.subscribe(tags(&["vip"]), 'a');
    let second = registry.subscribe(tags(&[]), 'b');
    assert_ne!(first, second);
    assert_eq!(uuid::Uuid::from_u128(first).get_version_num(), 4);
    assert_eq!((second >> 76) & 0xf, 4);
    assert_eq!((second >> 62) & 0x3, 2);
    assert_eq!(registry.len(), 2);
    assert_eq!(registry.handle(first), Some(&'a'));
    assert_eq!(sorted(&registry.client_tags(first).unwrap()), vec!["vip".to_string()]);
}

#[test]
fn register_then_deregister_restores() {
    let mut registry = sample();
    registry.register(10, tags(&["vip"]), "new");
    assert!(registry.deregister(10));
    assert_eq!(registry.len(), 4);
    let ids = deliver(&mut registry, Envelope::send(9, Some(vec!["vip".to_string()]), None));
    assert_eq!(ids, vec![2, 3]);
}

#[test]
fn new_client_receives_public_events_from_others() {
    let mut registry = sample();
    let id = registry.subscribe(tags(&["gold"]), "fresh");
    match registry.apply(Envelope::send(9u8, None, Some(1))) {
        Action::Deliver { recipients, .. } => {
            assert!(recipients.contains(&id));
            assert!(!recipients.contains(&1));
            assert_eq!(recipients.len(), 4);
        }
        _ => panic!("a send must be delivered"),
    }
}

#[test]
fn added_tag_holds_until_removed() {
    let mut registry = sample();
    registry.apply(Envelope::<u8>::tag_add(1, "gold".to_string()));
    registry.apply(Envelope::send(9u8, None, Some(2)));
    registry.apply(Envelope::<u8>::tag_add(1, "silver".to_string()));
    registry.apply(Envelope::<u8>::tag_remove(1, "silver".to_string()));
    registry.apply(Envelope::<u8>::tag_remove(4, "gold".to_string()));
    let ids = deliver(&mut registry, Envelope::send(9, Some(vec!["gold".to_string()]), None));
    assert_eq!(ids, vec![1]);
    registry.apply(Envelope::<u8>::tag_remove(1, "gold".to_string()));
    let ids = deliver(&mut registry, Envelope::send(9, Some(vec!["gold".to_string()]), None));
    assert!(ids.is_empty());
}

#[test]
fn every_client_with_tags_has_a_handle() {
    let mut registry = sample();
    registry.deregister(3);
    for id in 0..6u128 {
        assert_eq!(registry.client_tags(id).is_some(), registry.handle(id).is_some());
    }
}
