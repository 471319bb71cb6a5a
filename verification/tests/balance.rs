use chagle::load_balance::{LoadBalanceGroup, LoadBalanceManager};

#[test]
fn test_round_robin() {
    let mut group = LoadBalanceGroup::new("test".to_string(), None);
    group.add_member("a".to_string());
    group.add_member("b".to_string());
    group.add_member("c".to_string());

    assert_eq!(group.next_member(), Some("a"));
    assert_eq!(group.next_member(), Some("b"));
    assert_eq!(group.next_member(), Some("c"));
    assert_eq!(group.next_member(), Some("a"));
}

#[test]
fn test_group_key_validation() {
    let group = LoadBalanceGroup::new("test".to_string(), Some("secret".to_string()));
    assert!(group.validate_key(Some("secret")));
    assert!(!group.validate_key(Some("wrong")));
    assert!(!group.validate_key(None));
}

#[test]
fn test_manager() {
    let mut mgr = LoadBalanceManager::new();
    mgr.register("web", Some("key1"), "web-1").unwrap();
    mgr.register("web", Some("key1"), "web-2").unwrap();

    // Wrong key should fail
    assert!(mgr.register("web", Some("wrong"), "web-3").is_err());

    assert!(mgr.next_service("web").is_some());

    mgr.unregister("web", "web-1");
    assert_eq!(mgr.get_group("web").unwrap().member_count(), 1);

    mgr.unregister("web", "web-2");
    assert!(mgr.get_group("web").is_none());
}

#[test]
fn members_are_not_doubled() {
    let mut group = LoadBalanceGroup::new("g".to_string(), None);
    assert!(group.is_empty());
    assert_eq!(group.next_member(), None);
    group.add_member("a".to_string());
    group.add_member("a".to_string());
    assert_eq!(group.member_count(), 1);
    group.remove_member("b");
    assert_eq!(group.member_count(), 1);
    group.remove_member("a");
    assert!(group.is_empty());
    assert_eq!(group.member_at(5), None);
}

#[test]
fn any_number_picks_a_member() {
    let mut group = LoadBalanceGroup::new("g".to_string(), None);
    group.add_member("a".to_string());
    group.add_member("b".to_string());
    assert_eq!(group.member_at(0), Some("a"));
    assert_eq!(group.member_at(7), Some("b"));
    assert_eq!(group.member_at(usize::MAX), Some("b"));
}

#[test]
fn random_members_are_members() {
    let mut mgr = LoadBalanceManager::default();
    assert_eq!(mgr.random_service("g"), None);
    mgr.register("g", None, "a").unwrap();
    mgr.register("g", None, "b").unwrap();
    let mut seen = (false, false);
    for _ in 0..200 {
        match mgr.random_service("g").unwrap() {
            "a" => seen.0 = true,
            "b" => seen.1 = true,
            other => panic!("unexpected {}", other),
        }
    }
    assert_eq!(seen, (true, true));
}

#[test]
fn turns_are_kept_over_changes() {
    let mut mgr = LoadBalanceManager::new();
    mgr.register("g", None, "a").unwrap();
    mgr.register("g", None, "b").unwrap();
    assert_eq!(mgr.next_service("g"), Some("a"));
    mgr.register("g", None, "c").unwrap();
    assert_eq!(mgr.next_service("g"), Some("b"));
    assert_eq!(mgr.next_service("g"), Some("c"));
    assert_eq!(mgr.next_service("nothing"), None);
    assert_eq!(mgr.groups().len(), 1);
}

#[test]
fn key_of_a_group_is_that_of_its_first_member() {
    let mut mgr = LoadBalanceManager::new();
    mgr.register("g", None, "a").unwrap();
    let e = mgr.register("g", Some("k"), "b").unwrap_err();
    assert_eq!(e, "Group key mismatch for group 'g'");
    assert_eq!(mgr.get_group("g").unwrap().member_count(), 1);
    mgr.unregister("g", "a");
    mgr.register("g", Some("k"), "b").unwrap();
    assert_eq!(mgr.get_group("g").unwrap().group_key.as_deref(), Some("k"));
    assert_eq!(mgr.get_group("g").unwrap().name, "g");
}

#[test]
fn taking_out_undoes_putting_in() {
    let mut mgr = LoadBalanceManager::new();
    mgr.register("g", None, "a").unwrap();
    mgr.register("g", None, "b").unwrap();
    mgr.unregister("g", "b");
    assert_eq!(mgr.next_service("g"), Some("a"));
    assert_eq!(mgr.next_service("g"), Some("a"));
    mgr.unregister("other", "a");
    assert!(mgr.get_group("g").is_some());
}
