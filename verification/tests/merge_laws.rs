use hab_sup::rumor::{merge, Rumor, RumorKind, RumorList};

fn rumor(key: &[u8], incarnation: u64, body: &[u8]) -> Rumor {
    Rumor { kind: RumorKind::ServiceConfig, key: key.to_vec(), incarnation, body: body.to_vec() }
}

#[test]
fn merge_prefers_greater_incarnation() {
    let a = rumor(b"redis.default", 1, b"one");
    let b = rumor(b"redis.default", 2, b"two");
    let m = merge(a, b);
    assert_eq!(m.incarnation, 2);
    assert_eq!(m.body, b"two".to_vec());
}

#[test]
fn merge_is_idempotent() {
    let a = rumor(b"redis.default", 7, b"payload");
    let b = rumor(b"redis.default", 7, b"payload");
    let m = merge(a, b);
    assert_eq!(m.incarnation, 7);
    assert_eq!(m.body, b"payload".to_vec());
}

#[test]
fn merge_is_commutative_on_body_ties() {
    let m1 = merge(rumor(b"sg", 3, b"alpha"), rumor(b"sg", 3, b"beta"));
    let m2 = merge(rumor(b"sg", 3, b"beta"), rumor(b"sg", 3, b"alpha"));
    assert_eq!(m1.body, m2.body);
    assert_eq!(m1.incarnation, m2.incarnation);
}

#[test]
fn merge_is_associative_on_concrete_rumors() {
    let ab_c = merge(
        merge(rumor(b"sg", 1, b"a"), rumor(b"sg", 2, b"b")),
        rumor(b"sg", 2, b"c"),
    );
    let a_bc = merge(
        rumor(b"sg", 1, b"a"),
        merge(rumor(b"sg", 2, b"b"), rumor(b"sg", 2, b"c")),
    );
    assert_eq!(ab_c.body, a_bc.body);
    assert_eq!(ab_c.incarnation, a_bc.incarnation);
}

#[test]
fn rumor_list_keeps_greatest_incarnation() {
    let mut list = RumorList::new();
    assert!(list.add_rumor(rumor(b"redis.default", 5, b"five")));
    assert_eq!(list.revision, 1);
    // Stale news changes nothing: the incarnation stored never decreases.
    assert!(!list.add_rumor(rumor(b"redis.default", 3, b"three")));
    assert_eq!(list.revision, 1);
    assert_eq!(list.rumors.len(), 1);
    assert_eq!(list.rumors[0].incarnation, 5);
    assert_eq!(list.rumors[0].body, b"five".to_vec());
    // Fresher news replaces and bumps the revision.
    assert!(list.add_rumor(rumor(b"redis.default", 6, b"six")));
    assert_eq!(list.revision, 2);
    assert_eq!(list.rumors[0].incarnation, 6);
}

#[test]
fn rumor_list_merge_order_does_not_matter() {
    let mut one = RumorList::new();
    one.add_rumor(rumor(b"sg", 1, b"a"));
    one.add_rumor(rumor(b"sg", 2, b"b"));
    one.add_rumor(rumor(b"other", 9, b"x"));

    let mut two = RumorList::new();
    two.add_rumor(rumor(b"other", 9, b"x"));
    two.add_rumor(rumor(b"sg", 2, b"b"));
    two.add_rumor(rumor(b"sg", 1, b"a"));

    for r in &one.rumors {
        let held = two
            .rumors
            .iter()
            .find(|o| o.key == r.key && format!("{:?}", o.kind) == format!("{:?}", r.kind))
            .expect("both lists hold the same subjects");
        assert_eq!(held.incarnation, r.incarnation);
        assert_eq!(held.body, r.body);
    }
    assert_eq!(one.rumors.len(), two.rumors.len());
}
