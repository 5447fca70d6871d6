use mtd::date::{Date, Weekday};
use mtd::{Task, TdList, Todo};

#[test]
fn tdlist_add_todo_updates_ids() {
    let mut list = TdList::new_client();

    list.add_todo(Todo::new_undated("Todo 0".to_string()));
    list.add_todo(Todo::new_undated("Todo 1".to_string()));
    list.add_todo(Todo::new_undated("Todo 2".to_string()));

    assert_eq!(list.todos()[0].id(), 0);
    assert_eq!(list.todos()[1].id(), 1);
    assert_eq!(list.todos()[2].id(), 2);
}

#[test]
fn tdlist_removed_todos_not_visible() {
    let mut list = TdList::new_client();

    list.add_todo(Todo::new_undated("Todo 0".to_string()));
    list.add_todo(Todo::new_undated("Todo 1".to_string()));
    list.add_todo(Todo::new_undated("Todo 2".to_string()));

    list.remove_todo(1).unwrap();

    assert_eq!(list.todos()[0].body(), "Todo 0");
    assert_eq!(list.todos()[1].body(), "Todo 2");
    assert_eq!(list.todos().len(), 2);
}

#[test]
fn tdlist_remove_todo_returns_err_nonexistent_id() {
    let mut list = TdList::new_client();

    list.add_todo(Todo::new_undated("Todo 0".to_string()));
    list.add_todo(Todo::new_undated("Todo 1".to_string()));

    assert!(list.remove_todo(2).is_err());
}

#[test]
fn tdlist_add_task_updates_ids() {
    let mut list = TdList::new_client();

    list.add_task(Task::new("Task 0".to_string(), vec![Weekday::Mon]));
    list.add_task(Task::new("Task 1".to_string(), vec![Weekday::Mon]));
    list.add_task(Task::new("Task 2".to_string(), vec![Weekday::Mon]));

    assert_eq!(list.tasks()[0].id(), 0);
    assert_eq!(list.tasks()[1].id(), 1);
    assert_eq!(list.tasks()[2].id(), 2);
}

#[test]
fn tdlist_removed_tasks_not_visible() {
    let mut list = TdList::new_client();

    list.add_task(Task::new("Task 0".to_string(), vec![Weekday::Mon]));
    list.add_task(Task::new("Task 1".to_string(), vec![Weekday::Mon]));
    list.add_task(Task::new("Task 2".to_string(), vec![Weekday::Mon]));

    list.remove_task(1).unwrap();

    assert_eq!(list.tasks()[0].body(), "Task 0");
    assert_eq!(list.tasks()[1].body(), "Task 2");
    assert_eq!(list.tasks().len(), 2);
}

#[test]
fn tdlist_remove_task_returns_err_with_nonexistent_id() {
    let mut list = TdList::new_client();

    list.add_task(Task::new("Task 0".to_string(), vec![Weekday::Mon]));
    list.add_task(Task::new("Task 1".to_string(), vec![Weekday::Mon]));

    assert!(list.remove_todo(2).is_err());
}

fn tdlist_with_done_and_undone() -> TdList {
    let mut list = TdList::new_client();

    list.add_todo(Todo::new_specific_date("Undone 1".to_string(), Date::from_ymd(2021, 4, 1)));
    list.add_todo(Todo::new_specific_date("Undone 2".to_string(), Date::from_ymd(2021, 3, 29)));
    list.add_todo(Todo::new_specific_date("Done 1".to_string(), Date::from_ymd(2021, 4, 1)));
    list.add_todo(Todo::new_specific_date("Done 2".to_string(), Date::from_ymd(2021, 3, 30)));

    list.get_todo_mut(2).unwrap().set_done_wtd(true, Date::from_ymd(2021, 4, 1));
    list.get_todo_mut(3).unwrap().set_done_wtd(true, Date::from_ymd(2021, 4, 1));

    list.add_task(Task::new("Undone 1".to_string(), vec![Weekday::Thu]));
    list.add_task(Task::new("Done 1".to_string(), vec![Weekday::Thu]));

    list.get_task_mut(1).unwrap().set_done(true, Date::from_ymd(2021, 4, 1));

    list
}

#[test]
fn tdlist_undone_todos_for_date_returns_only_undone() {
    let list = tdlist_with_done_and_undone();

    let returned = list.undone_todos_for_date_wtd(Date::from_ymd(2021, 4, 1), Date::from_ymd(2021, 4, 1));

    assert!(returned.contains(&&list.todos()[0]));
    assert!(returned.contains(&&list.todos()[1]));
    assert!(!returned.contains(&&list.todos()[2]));
    assert!(!returned.contains(&&list.todos()[3]));
    assert_eq!(returned.len(), 2);
}

#[test]
fn tdlist_done_todos_for_date_returns_only_done() {
    let list = tdlist_with_done_and_undone();

    let returned = list.done_todos_for_date_wtd(Date::from_ymd(2021, 4, 1), Date::from_ymd(2021, 4, 1));

    assert!(!returned.contains(&&list.todos()[0]));
    assert!(!returned.contains(&&list.todos()[1]));
    assert!(returned.contains(&&list.todos()[2]));
    assert!(returned.contains(&&list.todos()[3]));
    assert_eq!(returned.len(), 2);
}

#[test]
fn tdlist_undone_tasks_for_date_returns_only_undone() {
    let list = tdlist_with_done_and_undone();

    let returned = list.undone_tasks_for_date(Date::from_ymd(2021, 4, 1));

    assert!(returned.contains(&&list.tasks()[0]));
    assert!(!returned.contains(&&list.tasks()[1]));
    assert_eq!(returned.len(), 1);
}

#[test]
fn tdlist_done_tasks_for_date_returns_only_done() {
    let list = tdlist_with_done_and_undone();

    let returned = list.done_tasks_for_date(Date::from_ymd(2021, 4, 1));

    assert!(!returned.contains(&&list.tasks()[0]));
    assert!(returned.contains(&&list.tasks()[1]));
    assert_eq!(returned.len(), 1);
}

#[test]
fn tdlist_remove_old_todos_removes_done_after_1_day() {
    let mut list = tdlist_with_done_and_undone();
    let list_containing_same_todos_for_eq_check = tdlist_with_done_and_undone();

    list.remove_old_todos_wtd(Date::from_ymd(2021, 4, 1));

    assert_eq!(list.todos(), list_containing_same_todos_for_eq_check.todos());

    list.remove_old_todos_wtd(Date::from_ymd(2021, 4, 2));

    assert_eq!(list.todos()[0], list_containing_same_todos_for_eq_check.todos()[0]);
    assert_eq!(list.todos()[1], list_containing_same_todos_for_eq_check.todos()[1]);
    assert_eq!(list.todos().len(), 2);
}

#[test]
fn tdlist_client_only_self_sync_actually_removes_items() {
    let mut list = tdlist_with_done_and_undone();

    list.remove_old_todos_wtd(Date::from_ymd(2021, 4, 2));
    list.remove_task(1).unwrap();

    assert_eq!(list.todos.items.len(), 4);
    assert_eq!(list.tasks.items.len(), 2);

    list.self_sync();

    assert_eq!(list.todos.items.len(), 2);
    assert_eq!(list.tasks.items.len(), 1);
}

#[test]
fn tdlist_server_always_removes_items() {
    let mut list = tdlist_with_done_and_undone();
    list.server = true;
    list.todos.server = true;
    list.tasks.server = true;

    list.remove_old_todos_wtd(Date::from_ymd(2021, 4, 2));
    list.remove_task(1).unwrap();

    assert_eq!(list.todos.items.len(), 2);
    assert_eq!(list.tasks.items.len(), 1);
}

#[test]
fn tdlist_self_sync_always_removes_old_todos() {
    let mut list = tdlist_with_done_and_undone();

    assert_eq!(list.todos.items.len(), 4);

    list.self_sync();

    assert_eq!(list.todos.items.len(), 2);
}

#[test]
fn tdlist_sync_always_removes_old_todos() {
    let mut client = tdlist_with_done_and_undone();
    let mut server = TdList::new_server();

    assert_eq!(client.todos.items.len(), 4);

    client.sync(&mut server);

    assert_eq!(client.todos.items.len(), 2);
}

#[test]
fn tdlist_sync_removed_from_server_gets_removed_from_client() {
    let mut client = TdList::new_client();
    let mut server = TdList::new_server();

    client.add_todo(Todo::new_undated("Todo 1".to_string()));

    client.sync(&mut server);

    server.remove_todo(0).unwrap();

    client.sync(&mut server);

    assert_eq!(client.todos().len(), 0);
    assert_eq!(server.todos().len(), 0);
}

#[test]
fn tdlist_sync_modified_in_server_gets_modified_in_client() {
    let mut client = TdList::new_client();
    let mut server = TdList::new_server();

    client.add_todo(Todo::new_undated("Todo 1".to_string()));

    client.sync(&mut server);

    server.get_todo_mut(0).unwrap().set_body("New Todo 1".to_string());

    client.sync(&mut server);

    assert_eq!(client.todos().len(), 1);
    assert!(client.todos().contains(&&Todo::new_undated("New Todo 1".to_string())));

    assert_eq!(server.todos().len(), 1);
    assert!(server.todos().contains(&&Todo::new_undated("New Todo 1".to_string())));
}

#[test]
fn tdlist_sync_modified_new_gets_copied_to_server() {
    let mut client = TdList::new_client();
    let mut server = TdList::new_server();

    client.add_todo(Todo::new_undated("Todo 1".to_string()));

    client.get_todo_mut(0).unwrap().set_body("New Todo 1".to_string());

    client.sync(&mut server);

    assert_eq!(client.todos().len(), 1);
    assert!(client.todos().contains(&&Todo::new_undated("New Todo 1".to_string())));

    assert_eq!(server.todos().len(), 1);
    assert!(server.todos().contains(&&Todo::new_undated("New Todo 1".to_string())));
}

#[test]
#[should_panic]
fn tdlist_sync_panics_with_both_server() {
    let mut s = TdList::new_server();
    let mut s1 = TdList::new_server();

    s.sync(&mut s1);
}

#[test]
#[should_panic]
fn tdlist_sync_panics_with_both_client() {
    let mut s = TdList::new_client();
    let mut s1 = TdList::new_client();

    s.sync(&mut s1);
}

// This covers syncing in both invocation directions and with Tasks.
#[test]
fn tdlist_sync_works_with_multiple_items_and_with_tasks() {
    let mut client = TdList::new_client();
    let mut server = TdList::new_server();

    // Adding multiple works
    client.add_task(Task::new("Task 1".to_string(), vec![Weekday::Fri]));
    client.add_task(Task::new("Task 2".to_string(), vec![Weekday::Fri]));
    client.add_task(Task::new("Task 3".to_string(), vec![Weekday::Fri]));

    server.sync(&mut client);

    assert!(client.tasks().contains(&&Task::new("Task 1".to_string(), vec![Weekday::Fri])));
    assert!(client.tasks().contains(&&Task::new("Task 2".to_string(), vec![Weekday::Fri])));
    assert!(client.tasks().contains(&&Task::new("Task 3".to_string(), vec![Weekday::Fri])));
    assert_eq!(client.tasks().len(), 3);

    assert!(server.tasks().contains(&&Task::new("Task 1".to_string(), vec![Weekday::Fri])));
    assert!(server.tasks().contains(&&Task::new("Task 2".to_string(), vec![Weekday::Fri])));
    assert!(server.tasks().contains(&&Task::new("Task 3".to_string(), vec![Weekday::Fri])));
    assert_eq!(server.tasks().len(), 3);

    // Modifying multiple works
    server.tasks.get_item_mut(0).unwrap().set_body("New Task 1".to_string());
    server.tasks.get_item_mut(1).unwrap().set_body("New Task 2".to_string());

    client.sync(&mut server);

    assert!(client.tasks().contains(&&Task::new("New Task 1".to_string(), vec![Weekday::Fri])));
    assert!(client.tasks().contains(&&Task::new("New Task 2".to_string(), vec![Weekday::Fri])));
    assert!(client.tasks().contains(&&Task::new("Task 3".to_string(), vec![Weekday::Fri])));
    assert_eq!(client.tasks().len(), 3);

    assert!(server.tasks().contains(&&Task::new("New Task 1".to_string(), vec![Weekday::Fri])));
    assert!(server.tasks().contains(&&Task::new("New Task 2".to_string(), vec![Weekday::Fri])));
    assert!(server.tasks().contains(&&Task::new("Task 3".to_string(), vec![Weekday::Fri])));
    assert_eq!(server.tasks().len(), 3);

    // Removing multiple works.
    client.remove_task(1).unwrap();
    client.remove_task(2).unwrap();

    server.sync(&mut client);

    assert!(client.tasks().contains(&&Task::new("New Task 1".to_string(), vec![Weekday::Fri])));
    assert_eq!(client.tasks().len(), 1);

    assert!(server.tasks().contains(&&Task::new("New Task 1".to_string(), vec![Weekday::Fri])));
    assert_eq!(server.tasks().len(), 1);
}

#[test]
fn remove_old_todos_sweeps_long_completed_items() {
    // Completions dated far in the past are older than any sane clock reading.
    let mut list = tdlist_with_done_and_undone();
    list.remove_old_todos();
    list.todos.sync_self();
    assert_eq!(list.todos().len(), 2);
    assert_eq!(list.todos()[0].body(), "Undone 1");
    assert_eq!(list.todos()[1].body(), "Undone 2");
}

#[test]
fn get_item_by_sync_id_finds_and_mutates_the_item() {
    let mut list = TdList::new_client();
    list.add_todo(Todo::new_undated("Todo 0".to_string()));
    list.add_todo(Todo::new_undated("Todo 1".to_string()));
    let sid = list.todos.items[1].sync_id;

    list.todos.get_item_by_sync_id(sid).unwrap().set_body("Renamed".to_string());

    assert_eq!(list.todos()[1].body(), "Renamed");
    assert_eq!(list.todos()[0].body(), "Todo 0");
}
