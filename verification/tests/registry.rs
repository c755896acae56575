use badge_registry::Badge;
use badge_registry::BadgeCollection;

fn s(x: &str) -> String {
    x.to_string()
}

#[test]
fn create_fresh_succeeds_and_is_retrievable() {
    let mut r = BadgeCollection::new();
    assert!(r.create_badge(s("rustacean"), s("http://badges/rust"), s("alice")));
    let created = r.get_created_badges(s("alice"));
    assert_eq!(created.len(), 1);
    assert_eq!(created[0].name, "rustacean");
    assert_eq!(created[0].url, "http://badges/rust");
    assert_eq!(created[0].owner, "alice");
}

#[test]
fn create_duplicate_fails_and_leaves_registry_unchanged() {
    let mut r = BadgeCollection::new();
    assert!(r.create_badge(s("one"), s("http://a"), s("alice")));
    assert!(!r.create_badge(s("one"), s("http://b"), s("bob")));
    let alice = r.get_created_badges(s("alice"));
    assert_eq!(alice.len(), 1);
    assert_eq!(alice[0].url, "http://a");
    assert_eq!(alice[0].owner, "alice");
    let bob = r.get_created_badges(s("bob"));
    assert!(bob.is_empty());
}

#[test]
fn reward_missing_badge_fails() {
    let mut r = BadgeCollection::new();
    assert!(!r.reward_badge(s("ghost"), s("carol"), s("alice")));
    assert!(r.get_collected_badges(s("carol")).is_empty());
}

#[test]
fn reward_by_non_creator_fails_for_any_collector() {
    let mut r = BadgeCollection::new();
    assert!(r.create_badge(s("one"), s("http://a"), s("alice")));
    assert!(!r.reward_badge(s("one"), s("carol"), s("bob")));
    assert!(!r.reward_badge(s("one"), s("bob"), s("bob")));
    assert!(r.get_collected_badges(s("carol")).is_empty());
    assert!(r.get_collected_badges(s("bob")).is_empty());
}

#[test]
fn reward_by_creator_succeeds_and_is_collected() {
    let mut r = BadgeCollection::new();
    assert!(r.create_badge(s("one"), s("http://a"), s("alice")));
    assert!(r.reward_badge(s("one"), s("carol"), s("alice")));
    let collected = r.get_collected_badges(s("carol"));
    assert_eq!(collected.len(), 1);
    assert_eq!(collected[0].name, "one");
    assert_eq!(collected[0].url, "http://a");
    assert_eq!(collected[0].owner, "alice");
}

#[test]
fn reward_twice_yields_single_occurrence() {
    let mut r = BadgeCollection::new();
    assert!(r.create_badge(s("one"), s("http://a"), s("alice")));
    assert!(r.reward_badge(s("one"), s("carol"), s("alice")));
    assert!(r.reward_badge(s("one"), s("carol"), s("alice")));
    let collected = r.get_collected_badges(s("carol"));
    assert_eq!(collected.len(), 1);
    assert_eq!(collected[0].name, "one");
}

#[test]
fn unknown_accounts_have_empty_results() {
    let r = BadgeCollection::new();
    assert!(r.get_collected_badges(s("nobody")).is_empty());
    assert!(r.get_created_badges(s("nobody")).is_empty());
}

#[test]
fn creation_order_is_kept() {
    let mut r = BadgeCollection::new();
    assert!(r.create_badge(s("b1"), s("http://1"), s("alice")));
    assert!(r.create_badge(s("b2"), s("http://2"), s("alice")));
    assert!(r.create_badge(s("b3"), s("http://3"), s("alice")));
    let created = r.get_created_badges(s("alice"));
    assert_eq!(created.len(), 3);
    assert_eq!(created[0].name, "b1");
    assert_eq!(created[1].name, "b2");
    assert_eq!(created[2].name, "b3");
}

#[test]
fn award_order_is_kept() {
    let mut r = BadgeCollection::new();
    assert!(r.create_badge(s("b1"), s("http://1"), s("alice")));
    assert!(r.create_badge(s("b2"), s("http://2"), s("alice")));
    assert!(r.reward_badge(s("b2"), s("carol"), s("alice")));
    assert!(r.reward_badge(s("b1"), s("carol"), s("alice")));
    let collected = r.get_collected_badges(s("carol"));
    assert_eq!(collected.len(), 2);
    assert_eq!(collected[0].name, "b2");
    assert_eq!(collected[1].name, "b1");
}

#[test]
fn example_scenario() {
    let mut r = BadgeCollection::new();
    assert!(r.create_badge(s("go-rust"), s("http://x/go"), s("A")));
    assert!(!r.create_badge(s("go-rust"), s("http://y"), s("B")));
    assert!(!r.reward_badge(s("go-rust"), s("C"), s("B")));
    assert!(r.reward_badge(s("go-rust"), s("C"), s("A")));
    let collected = r.get_collected_badges(s("C"));
    assert_eq!(collected.len(), 1);
    assert_eq!(collected[0].name, "go-rust");
    assert_eq!(collected[0].url, "http://x/go");
    assert_eq!(collected[0].owner, "A");
    let created = r.get_created_badges(s("A"));
    assert_eq!(created.len(), 1);
    assert_eq!(created[0].name, "go-rust");
    assert_eq!(created[0].url, "http://x/go");
    assert_eq!(created[0].owner, "A");
}

#[test]
fn default_registry_is_empty() {
    let r = BadgeCollection::default();
    assert!(r.get_created_badges(s("alice")).is_empty());
    assert!(r.get_collected_badges(s("alice")).is_empty());
}

#[test]
fn default_badge_is_blank() {
    let b = Badge::default();
    assert_eq!(b.name, "");
    assert_eq!(b.url, "");
    assert_eq!(b.owner, "");
}

#[test]
fn badge_clone_keeps_fields() {
    let b = Badge { name: s("one"), url: s("http://a"), owner: s("alice") };
    let c = b.clone();
    assert_eq!(c.name, "one");
    assert_eq!(c.url, "http://a");
    assert_eq!(c.owner, "alice");
}

#[test]
fn collectors_are_independent() {
    let mut r = BadgeCollection::new();
    assert!(r.create_badge(s("one"), s("http://a"), s("alice")));
    assert!(r.create_badge(s("two"), s("http://b"), s("bob")));
    assert!(r.reward_badge(s("one"), s("carol"), s("alice")));
    assert!(r.reward_badge(s("two"), s("carol"), s("bob")));
    assert!(r.reward_badge(s("one"), s("dave"), s("alice")));
    let carol = r.get_collected_badges(s("carol"));
    assert_eq!(carol.len(), 2);
    assert_eq!(carol[0].name, "one");
    assert_eq!(carol[1].name, "two");
    let dave = r.get_collected_badges(s("dave"));
    assert_eq!(dave.len(), 1);
    assert_eq!(dave[0].name, "one");
}
