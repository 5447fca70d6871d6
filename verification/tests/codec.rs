use mtd::date::{Date, Weekday};
use mtd::{Error, Task, TdList, Todo};

fn tdlist_with_done_and_undone() -> TdList {
    let mut list = TdList::new_client();

    list.add_todo(Todo::new_specific_date("Undone 1".to_string(), Date::from_ymd(2021, 4, 1)));
    list.add_todo(Todo::new_specific_date("Undone 2".to_string(), Date::from_ymd(2021, 3, 29)));
    list.add_todo(Todo::new_specific_date("Done 1".to_string(), Date::from_ymd(2021, 4, 1)));
    list.add_todo(Todo::new_specific_date("Done 2".to_string(), Date::from_ymd(2021, 3, 30)));

    list.get_todo_mut(2).unwrap().set_done_wtd(true, Date::from_ymd(2021, 4, 1));
    list.get_todo_mut(3).unwrap().set_done_wtd(true, Date::from_ymd(2021, 4, 1));

    list.add_task(Task::new("Undone 1".to_string(), vec![Weekday::Thu]));
    list.add_task(Task::new("Done 1".to_string(), vec![Weekday::Thu]));

    list.get_task_mut(1).unwrap().set_done(true, Date::from_ymd(2021, 4, 1));

    list
}

#[test]
fn tdlist_to_and_from_json_returns_same() {
    let list = tdlist_with_done_and_undone();

    let json = list.to_json().unwrap();

    let list_from_json = TdList::new_from_json(&json).unwrap();

    assert_eq!(list.server, list_from_json.server);
    assert_eq!(list.todos.items, list_from_json.todos.items);
    assert_eq!(list.tasks.items, list_from_json.tasks.items);
    assert_eq!(list.tasks.server, list_from_json.tasks.server);
    assert_eq!(list.todos.server, list_from_json.todos.server);
}

#[test]
fn json_round_trip_keeps_ids_markers_and_role() {
    let mut list = TdList::new_server();
    list.add_todo(Todo::new_specific_date("A".to_string(), Date::from_ymd(2022, 1, 5)));
    list.add_todo(Todo::new_specific_date("B".to_string(), Date::from_ymd(2022, 2, 6)));
    list.get_todo_mut(1).unwrap().set_done_wtd(true, Date::from_ymd(2022, 2, 7));
    list.add_task(Task::new("T".to_string(), vec![Weekday::Sat, Weekday::Sat, Weekday::Sun]));

    let json = list.to_json().unwrap();
    let back = TdList::new_from_json(&json).unwrap();

    assert_eq!(back.server, true);
    assert_eq!(back.todos.items.len(), 2);
    for i in 0..2 {
        assert_eq!(back.todos.items[i].id, list.todos.items[i].id);
        assert_eq!(back.todos.items[i].sync_id, list.todos.items[i].sync_id);
        assert_eq!(back.todos.items[i].state, list.todos.items[i].state);
    }
    assert_eq!(back.tasks.items[0].weekdays, list.tasks.items[0].weekdays);
}

#[test]
fn json_round_trip_escapes_body_characters() {
    let mut list = TdList::new_client();
    list.add_todo(Todo::new_specific_date(
        "say \"hi\" \\ back".to_string(),
        Date::from_ymd(2021, 7, 8),
    ));

    let json = list.to_json().unwrap();
    let back = TdList::new_from_json(&json).unwrap();

    assert_eq!(back.todos.items[0].body, "say \"hi\" \\ back");
}

#[test]
fn json_round_trip_of_empty_lists() {
    let list = TdList::new_client();
    let json = list.to_json().unwrap();
    let back = TdList::new_from_json(&json).unwrap();
    assert_eq!(back.todos.items.len(), 0);
    assert_eq!(back.tasks.items.len(), 0);
    assert!(!back.server);
}

#[test]
fn json_document_has_the_expected_shape() {
    let list = TdList::new_server();
    let json = list.to_json().unwrap();
    assert_eq!(
        json,
        "{\"todos\":{\"items\":[],\"server\":true},\"tasks\":{\"items\":[],\"server\":true},\"server\":true}"
    );
}

#[test]
fn new_from_json_rejects_other_documents() {
    assert!(matches!(TdList::new_from_json(""), Err(Error::SerdeErr)));
    assert!(matches!(TdList::new_from_json("{}"), Err(Error::SerdeErr)));
    assert!(matches!(TdList::new_from_json("not json at all"), Err(Error::SerdeErr)));
    let good = TdList::new_client().to_json().unwrap();
    let mut trailing = good.clone();
    trailing.push(' ');
    assert!(matches!(TdList::new_from_json(&trailing), Err(Error::SerdeErr)));
}

#[test]
fn remove_errors_name_the_missing_id() {
    let mut list = TdList::new_client();
    assert_eq!(list.remove_todo(3), Err(Error::NoTodoWithGivenIdErr(3)));
    assert_eq!(list.remove_task(5), Err(Error::NoTaskWithGivenIdErr(5)));
}
