use todo_store::store::TodoStore;
use todo_store::todo::{Todo, TodoError};

#[test]
fn from_rows_restores_store() {
    let rows = vec![
        Todo { id: 1, title: String::from("a"), completed: true, created_at: 5 },
        Todo { id: 3, title: String::from("b"), completed: false, created_at: 6 },
    ];
    let mut s = TodoStore::from_rows(rows).unwrap();
    assert_eq!(s.len(), 2);
    assert_eq!(s.list()[0].id, 1);
    assert!(s.list()[0].completed);
    assert_eq!(s.list()[1].id, 3);
    let t = s.create_with_timestamp(String::from("c"), 7);
    assert_eq!(t.id, 4);
}

#[test]
fn from_rows_empty_starts_at_one() {
    let mut s = TodoStore::from_rows(Vec::new()).unwrap();
    assert_eq!(s.len(), 0);
    let t = s.create_with_timestamp(String::from("first"), 1);
    assert_eq!(t.id, 1);
}

#[test]
fn from_rows_rejects_unsorted_rows() {
    let rows = vec![
        Todo { id: 2, title: String::from("a"), completed: false, created_at: 1 },
        Todo { id: 1, title: String::from("b"), completed: false, created_at: 2 },
    ];
    let r = TodoStore::from_rows(rows);
    assert!(matches!(r, Err(TodoError::Initialization(_))));
}

#[test]
fn from_rows_rejects_duplicate_ids() {
    let rows = vec![
        Todo { id: 1, title: String::from("a"), completed: false, created_at: 1 },
        Todo { id: 1, title: String::from("b"), completed: false, created_at: 2 },
    ];
    let r = TodoStore::from_rows(rows);
    assert!(matches!(r, Err(TodoError::Initialization(_))));
}

#[test]
fn from_rows_rejects_id_below_one() {
    let rows = vec![Todo { id: 0, title: String::from("a"), completed: false, created_at: 1 }];
    let r = TodoStore::from_rows(rows);
    assert!(matches!(r, Err(TodoError::Initialization(_))));
}

#[test]
fn from_rows_rejects_exhausted_id_space() {
    let rows = vec![
        Todo { id: i64::MAX, title: String::from("a"), completed: false, created_at: 1 },
    ];
    let r = TodoStore::from_rows(rows);
    assert!(matches!(r, Err(TodoError::Initialization(_))));
}
