use todo_store::store::{StoreError, Todo, TodoServiceImpl};

fn todo(text: &str) -> Todo {
    Todo { text: String::from(text) }
}

#[test]
fn scenario_add_list_delete() {
    let mut s = TodoServiceImpl::new();
    let id0 = s.add_todo(Some(todo("buy milk")), String::from("alice"));
    assert_eq!(id0, Ok(0));
    let id1 = s.add_todo(Some(todo("walk dog")), String::from("bob"));
    assert_eq!(id1, Ok(1));

    let alice = s.get_todos(&String::from("alice"));
    assert_eq!(alice.len(), 1);
    assert_eq!(alice[0].id, 0);
    assert_eq!(alice[0].todo.text, "buy milk");

    s.delete_todo(0);
    let alice = s.get_todos(&String::from("alice"));
    assert_eq!(alice.len(), 0);

    let bob = s.get_todos(&String::from("bob"));
    assert_eq!(bob.len(), 1);
    assert_eq!(bob[0].id, 1);
    assert_eq!(bob[0].todo.text, "walk dog");
}

#[test]
fn ids_are_unique() {
    let mut s = TodoServiceImpl::new();
    let mut ids = Vec::new();
    for i in 0..5u32 {
        let owner = if i % 2 == 0 { "alice" } else { "bob" };
        let id = s
            .add_todo(Some(todo("item")), String::from(owner))
            .expect("add with a payload succeeds");
        ids.push(id);
    }
    for a in 0..ids.len() {
        for b in 0..ids.len() {
            if a != b {
                assert_ne!(ids[a], ids[b]);
            }
        }
    }
}

#[test]
fn ids_strictly_increase() {
    let mut s = TodoServiceImpl::new();
    let mut last: Option<u64> = None;
    for _ in 0..5 {
        let id = s
            .add_todo(Some(todo("item")), String::from("carol"))
            .expect("add with a payload succeeds");
        if let Some(prev) = last {
            assert!(prev < id);
        }
        last = Some(id);
    }
}

#[test]
fn read_your_write() {
    let mut s = TodoServiceImpl::new();
    s.add_todo(Some(todo("other")), String::from("bob")).unwrap();
    let id = s.add_todo(Some(todo("water plants")), String::from("alice")).unwrap();
    let listed = s.get_todos(&String::from("alice"));
    let matching: Vec<_> = listed.iter().filter(|t| t.id == id).collect();
    assert_eq!(matching.len(), 1);
    assert_eq!(matching[0].todo.text, "water plants");
}

#[test]
fn owner_isolation() {
    let mut s = TodoServiceImpl::new();
    let a0 = s.add_todo(Some(todo("a one")), String::from("alice")).unwrap();
    let b0 = s.add_todo(Some(todo("b one")), String::from("bob")).unwrap();
    let a1 = s.add_todo(Some(todo("a two")), String::from("alice")).unwrap();

    let alice = s.get_todos(&String::from("alice"));
    let mut alice_ids: Vec<u64> = alice.iter().map(|t| t.id).collect();
    alice_ids.sort();
    assert_eq!(alice_ids, vec![a0, a1]);
    assert!(alice.iter().all(|t| t.id != b0));
}

#[test]
fn delete_is_idempotent() {
    let mut s = TodoServiceImpl::new();
    let id = s.add_todo(Some(todo("ephemeral")), String::from("alice")).unwrap();
    s.add_todo(Some(todo("kept")), String::from("alice")).unwrap();
    s.delete_todo(id);
    assert!(s.get_todos(&String::from("alice")).iter().all(|t| t.id != id));
    s.delete_todo(id);
    let listed = s.get_todos(&String::from("alice"));
    assert!(listed.iter().all(|t| t.id != id));
    assert_eq!(listed.len(), 1);
    assert_eq!(listed[0].todo.text, "kept");
}

#[test]
fn delete_unknown_id_is_a_noop() {
    let mut s = TodoServiceImpl::new();
    s.delete_todo(99);
    let id = s.add_todo(Some(todo("still here")), String::from("alice")).unwrap();
    s.delete_todo(id + 1);
    let listed = s.get_todos(&String::from("alice"));
    assert_eq!(listed.len(), 1);
    assert_eq!(listed[0].id, id);
}

#[test]
fn invalid_add_is_rejected_without_allocating() {
    let mut s = TodoServiceImpl::new();
    let r = s.add_todo(None, String::from("alice"));
    assert_eq!(r, Err(StoreError::InvalidArgument));
    assert_eq!(s.get_todos(&String::from("alice")).len(), 0);
    let id = s.add_todo(Some(todo("first real")), String::from("alice")).unwrap();
    assert_eq!(id, 0);
}

#[test]
fn unknown_owner_lists_empty() {
    let mut s = TodoServiceImpl::new();
    s.add_todo(Some(todo("for alice")), String::from("alice")).unwrap();
    assert_eq!(s.get_todos(&String::from("nobody")).len(), 0);
}

#[test]
fn can_allocate_on_fresh_store() {
    let s = TodoServiceImpl::new();
    assert!(s.can_allocate());
}
