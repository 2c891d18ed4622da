use bridge::idset::{IdSet, insert_sorted, same_ids};
use bridge::props::Props;
use bridge::role::{Role, RoleSlots};
use bridge::table::Table;

#[test]
fn id_sets() {
    let mut s = IdSet::new();
    assert_eq!(s.len(), 0);
    s.insert(4);
    s.insert(2);
    s.insert(4);
    assert_eq!(s.len(), 2);
    assert!(s.contains(2) && s.contains(4) && !s.contains(3));
    assert!(s.remove(4));
    assert!(!s.remove(4));
    let mut v = s.to_vec();
    v.sort();
    assert_eq!(v, vec![2]);
}

#[test]
fn ascending_lists() {
    let mut v = vec![1, 5, 9];
    insert_sorted(&mut v, 6);
    insert_sorted(&mut v, 0);
    insert_sorted(&mut v, 5);
    assert_eq!(v, vec![0, 1, 5, 6, 9]);
    assert!(same_ids(&v, &vec![0, 1, 5, 6, 9]));
    assert!(!same_ids(&v, &vec![0, 1, 5, 6]));
}

#[test]
fn keyed_tables() {
    let mut t: Table<&str> = Table::new();
    t.insert(3, "c");
    t.insert(1, "a");
    t.insert(3, "C");
    assert_eq!(t.get(3), Some(&"C"));
    assert_eq!(t.keys(), vec![3, 1]);
    assert_eq!(t.remove(3), Some("C"));
    assert_eq!(t.remove(3), None);
    assert_eq!(t.get(3), None);
    assert_eq!(t.keys(), vec![1]);
}

#[test]
fn property_sets_keep_the_latest_value_per_key() {
    let mut p = Props::new();
    assert_eq!(p.get("a"), None);
    p.insert("a", "1");
    p.insert("b", "2");
    p.insert("a", "3");
    assert_eq!(p.get("a").as_deref(), Some("3"));
    assert_eq!(p.get("b").as_deref(), Some("2"));
}

#[test]
fn role_slots() {
    let mut s: RoleSlots<u32> = RoleSlots::empty();
    assert_eq!(s.get(Role::Aux), None);
    s.set(Role::Surround, 7);
    s.set(Role::Aux, 1);
    assert_eq!(s.roles(), vec![Role::Aux, Role::Surround]);
    assert!(s.clear(Role::Aux));
    assert!(!s.clear(Role::Aux));
    assert_eq!(s.get(Role::Surround), Some(7));
}
