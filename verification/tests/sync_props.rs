use mtd::date::{Date, Weekday};
use mtd::{Task, TdList, Todo};

// A client-added item reaches an empty server, and a later server edit comes
// back to the client, with the count staying at one on both sides.
#[test]
fn sync_new_item_reaches_server_and_edit_comes_back() {
    let mut client = TdList::new_client();
    let mut server = TdList::new_server();

    client.add_todo(Todo::new_undated("Todo 1".to_string()));

    client.sync(&mut server);

    assert_eq!(client.todos().len(), 1);
    assert_eq!(server.todos().len(), 1);
    assert_eq!(client.todos()[0].body(), "Todo 1");
    assert_eq!(server.todos()[0].body(), "Todo 1");

    server.get_todo_mut(0).unwrap().set_body("New Todo 1".to_string());

    client.sync(&mut server);

    assert_eq!(client.todos().len(), 1);
    assert_eq!(server.todos().len(), 1);
    assert_eq!(client.todos()[0].body(), "New Todo 1");
    assert_eq!(server.todos()[0].body(), "New Todo 1");
}

// A dated item completed on day D stays through the sweep on day D and
// becomes absent only from day D + 1 onward.
#[test]
fn completed_todo_leaves_only_the_day_after_completion() {
    let d = Date::from_ymd(2022, 5, 10);

    let mut list = TdList::new_client();
    list.add_todo(Todo::new_specific_date("Done today".to_string(), d));
    list.get_todo_mut(0).unwrap().set_done_wtd(true, d);

    list.remove_old_todos_wtd(d);
    list.todos.sync_self();
    assert_eq!(list.todos().len(), 1);

    list.remove_old_todos_wtd(d.succ());
    list.todos.sync_self();
    assert_eq!(list.todos().len(), 0);
}

// Synchronizing a replica with itself twice in a row leaves the same
// collection as doing it once.
#[test]
fn self_sync_twice_equals_self_sync_once() {
    let d = Date::from_ymd(2022, 5, 10);

    let mut once = TdList::new_client();
    once.add_todo(Todo::new_specific_date("Keep".to_string(), d));
    once.add_todo(Todo::new_specific_date("Drop".to_string(), d));
    once.get_todo_mut(1).unwrap().set_done_wtd(true, Date::from_ymd(2022, 5, 1));
    once.remove_todo(0).unwrap();
    once.add_todo(Todo::new_specific_date("Stay".to_string(), d));

    let mut twice = TdList::new_client();
    twice.add_todo(Todo::new_specific_date("Keep".to_string(), d));
    twice.add_todo(Todo::new_specific_date("Drop".to_string(), d));
    twice.get_todo_mut(1).unwrap().set_done_wtd(true, Date::from_ymd(2022, 5, 1));
    twice.remove_todo(0).unwrap();
    twice.add_todo(Todo::new_specific_date("Stay".to_string(), d));

    once.self_sync_wtd(Date::from_ymd(2022, 5, 10));
    twice.self_sync_wtd(Date::from_ymd(2022, 5, 10));
    twice.self_sync_wtd(Date::from_ymd(2022, 5, 10));

    assert_eq!(once.todos.items, twice.todos.items);
    assert_eq!(once.tasks.items, twice.tasks.items);
    assert_eq!(once.todos().len(), 1);
    assert_eq!(once.todos()[0].body(), "Stay");
}

// Both replicas hold value-equal live collections after a sync, whichever
// way the merge was invoked.
#[test]
fn sync_leaves_both_sides_value_equal() {
    let mut client = TdList::new_client();
    let mut server = TdList::new_server();

    client.add_todo(Todo::new_undated("A".to_string()));
    server.add_todo(Todo::new_undated("B".to_string()));

    server.sync(&mut client);

    assert_eq!(client.todos().len(), 2);
    assert_eq!(server.todos().len(), 2);
    for t in client.todos() {
        assert!(server.todos().contains(&t));
    }
    for t in server.todos() {
        assert!(client.todos().contains(&t));
    }

    let done_body = client.todos()[0].body().to_string();
    client.get_todo_mut(0).unwrap().set_done(true);
    client.sync(&mut server);
    for t in server.todos() {
        assert_eq!(t.done(), t.body() == done_body);
    }
}

// Removal on the client reaches the server even when the client kept a
// tombstone between syncs.
#[test]
fn client_tombstone_removes_server_copy() {
    let mut client = TdList::new_client();
    let mut server = TdList::new_server();

    client.add_todo(Todo::new_undated("One".to_string()));
    client.add_todo(Todo::new_undated("Two".to_string()));
    client.sync(&mut server);

    client.remove_todo(0).unwrap();
    // Client keeps the tombstone until the sync.
    assert_eq!(client.todos.items.len(), 2);
    assert_eq!(client.todos().len(), 1);

    client.sync(&mut server);
    assert_eq!(client.todos().len(), 1);
    assert_eq!(server.todos().len(), 1);
    assert_eq!(server.todos()[0].body(), "Two");
}

// The runtime precondition check accepts opposite roles and rejects a pair of
// same-role replicas.
#[test]
fn can_sync_with_checks_roles() {
    let client = TdList::new_client();
    let server = TdList::new_server();
    let client2 = TdList::new_client();

    assert!(client.can_sync_with(&server));
    assert!(server.can_sync_with(&client));
    assert!(!client.can_sync_with(&client2));
}

// Completing a task on the client marks it edited, so the completion reaches
// the server at the next sync instead of being reverted by the server's copy.
#[test]
fn task_completion_survives_the_next_sync() {
    let mut client = TdList::new_client();
    let mut server = TdList::new_server();
    client.add_task(Task::new("T".to_string(), vec![Weekday::Mon]));
    client.sync(&mut server);

    let d = Date::from_ymd(2022, 6, 13);
    client.get_task_mut(0).unwrap().set_done(true, d);
    client.sync(&mut server);

    assert!(client.tasks()[0].done(d));
    assert!(server.tasks()[0].done(d));
}
