use todo_store::store::TodoStore;
use todo_store::todo::TodoError;

#[test]
fn create_sets_defaults_and_unique_ids() {
    let mut s = TodoStore::new();
    let a = s.create_with_timestamp(String::from("Buy milk"), 50);
    let b = s.create_with_timestamp(String::from("Walk dog"), 60);
    assert_eq!(a.id, 1);
    assert_eq!(b.id, 2);
    assert_ne!(a.id, b.id);
    assert!(!a.completed);
    assert!(!b.completed);
    assert_eq!(a.title, "Buy milk");
    assert_eq!(a.created_at, 50);
    assert_eq!(b.created_at, 60);
}

#[test]
fn create_uses_server_clock() {
    let before = chrono::Utc::now().timestamp();
    let mut s = TodoStore::new();
    let t = s.create(String::from("now"));
    let after = chrono::Utc::now().timestamp();
    assert!(before <= t.created_at && t.created_at <= after);
    assert_eq!(t.id, 1);
    assert!(!t.completed);
}

#[test]
fn full_scenario() {
    let mut s = TodoStore::new();
    let t1 = s.create_with_timestamp(String::from("Buy milk"), 1000);
    assert_eq!(t1.id, 1);
    assert_eq!(t1.title, "Buy milk");
    assert!(!t1.completed);
    assert_eq!(t1.created_at, 1000);
    let t2 = s.create_with_timestamp(String::from("Walk dog"), 1001);
    assert_eq!(t2.id, 2);
    let items = s.list();
    assert_eq!(items.len(), 2);
    assert_eq!(items[0].id, 1);
    assert_eq!(items[1].id, 2);
    let toggled = s.toggle_completed(1).unwrap();
    assert_eq!(toggled.id, 1);
    assert!(toggled.completed);
    s.delete(2);
    let items = s.list();
    assert_eq!(items.len(), 1);
    assert_eq!(items[0].id, 1);
    assert!(items[0].completed);
}

#[test]
fn create_many_list_all() {
    let mut s = TodoStore::new();
    for k in 0..10 {
        s.create_with_timestamp(format!("item {}", k), k);
    }
    let items = s.list();
    assert_eq!(items.len(), 10);
    for (idx, t) in items.iter().enumerate() {
        assert_eq!(t.id, idx as i64 + 1);
    }
}

#[test]
fn delete_is_idempotent() {
    let mut s = TodoStore::new();
    s.create_with_timestamp(String::from("a"), 1);
    s.create_with_timestamp(String::from("b"), 2);
    s.delete(1);
    assert_eq!(s.list().len(), 1);
    s.delete(1);
    assert_eq!(s.list().len(), 1);
    assert_eq!(s.list()[0].id, 2);
}

#[test]
fn delete_missing_id_succeeds() {
    let mut s = TodoStore::new();
    s.delete(7);
    assert_eq!(s.len(), 0);
    s.create_with_timestamp(String::from("a"), 1);
    s.delete(7);
    assert_eq!(s.len(), 1);
}

#[test]
fn toggle_twice_restores() {
    let mut s = TodoStore::new();
    let t = s.create_with_timestamp(String::from("x"), 7);
    let once = s.toggle_completed(t.id).unwrap();
    assert!(once.completed);
    assert_eq!(once.id, t.id);
    assert_eq!(once.title, "x");
    assert_eq!(once.created_at, 7);
    let twice = s.toggle_completed(t.id).unwrap();
    assert!(!twice.completed);
    assert_eq!(twice.id, t.id);
    assert_eq!(twice.title, "x");
    assert_eq!(twice.created_at, 7);
}

#[test]
fn toggle_missing_id_is_not_found() {
    let mut s = TodoStore::new();
    let r = s.toggle_completed(42);
    assert!(matches!(r, Err(TodoError::NotFound)));
    assert_eq!(s.len(), 0);
}

#[test]
fn empty_title_is_accepted() {
    let mut s = TodoStore::new();
    let t = s.create_with_timestamp(String::new(), 0);
    assert_eq!(t.title, "");
    assert_eq!(s.list().len(), 1);
}

#[test]
fn ids_are_not_reused_after_delete() {
    let mut s = TodoStore::new();
    let a = s.create_with_timestamp(String::from("a"), 1);
    s.delete(a.id);
    let b = s.create_with_timestamp(String::from("b"), 2);
    assert_eq!(b.id, 2);
    assert_eq!(s.next_id(), 3);
}
