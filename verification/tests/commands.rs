use sat_tracker::commands::{
    add_to_group, delete_group, get_args, get_group, group, help, id_argument, new_group,
    number_argument, remove_from_group, GroupAction, GroupError,
};

#[test]
fn get_args_drops_the_command() {
    assert_eq!(get_args("next 25544".to_string()), vec!["25544".to_string()]);
    assert_eq!(get_args("  help ".to_string()), Vec::<String>::new());
    assert_eq!(
        get_args("listen\t25544  145800000".to_string()),
        vec!["25544".to_string(), "145800000".to_string()]
    );
}

#[test]
fn group_selects_sub_commands_in_order() {
    assert_eq!(group("group new iss 25544".to_string()), vec![GroupAction::New]);
    assert_eq!(group("group list".to_string()), vec![GroupAction::List]);
    assert_eq!(group("group addnew x".to_string()), vec![GroupAction::New, GroupAction::Add]);
    assert_eq!(
        group("group removedelete x".to_string()),
        vec![GroupAction::Delete, GroupAction::Remove]
    );
    assert_eq!(group("group show".to_string()), Vec::<GroupAction>::new());
}

#[test]
fn delete_group_names_the_group() {
    assert_eq!(delete_group("group delete weather".to_string()), "weather");
}

#[test]
fn new_group_writes_pretty_json() {
    let f = new_group("group new iss 25544 20580".to_string());
    assert_eq!(f.name, "iss");
    assert_eq!(f.contents, "[\n  \"25544\",\n  \"20580\"\n]");
    let empty = new_group("group new none".to_string());
    assert_eq!(empty.contents, "[]");
}

#[test]
fn group_file_reads_back() {
    let f = new_group("group new odd \"q\" back\\slash é".to_string());
    assert_eq!(
        get_group(&f.contents).unwrap(),
        vec!["\"q\"".to_string(), "back\\slash".to_string(), "é".to_string()]
    );
}

#[test]
fn get_group_rejects_other_text() {
    assert_eq!(get_group("not json").unwrap_err(), GroupError::UnreadableGroup);
    assert_eq!(get_group("[1, 2]").unwrap_err(), GroupError::UnreadableGroup);
    assert_eq!(get_group("[\"a\",\"b\"]").unwrap(), vec!["a".to_string(), "b".to_string()]);
}

#[test]
fn add_to_group_appends_new_members_once() {
    let f = add_to_group("group add wx 3 1 3 4".to_string(), "[\"1\",\"2\"]").unwrap();
    assert_eq!(f.name, "wx");
    assert_eq!(get_group(&f.contents).unwrap(), vec!["1", "2", "3", "4"]);
}

#[test]
fn add_to_group_twice_changes_nothing() {
    let once = add_to_group("group add wx 5 6".to_string(), "[\"6\"]").unwrap();
    let twice = add_to_group("group add wx 5 6".to_string(), &once.contents).unwrap();
    assert_eq!(once.contents, twice.contents);
}

#[test]
fn remove_from_group_drops_every_occurrence() {
    let f = remove_from_group("group remove wx 2 9".to_string(), "[\"1\",\"2\",\"3\",\"2\"]").unwrap();
    assert_eq!(get_group(&f.contents).unwrap(), vec!["1", "3"]);
}

#[test]
fn remove_after_add_equals_remove() {
    let stored = "[\"1\",\"2\"]";
    let added = add_to_group("group add wx 2 7".to_string(), stored).unwrap();
    let a = remove_from_group("group remove wx 2 7".to_string(), &added.contents).unwrap();
    let b = remove_from_group("group remove wx 2 7".to_string(), stored).unwrap();
    assert_eq!(a.contents, b.contents);
    assert_eq!(get_group(&a.contents).unwrap(), vec!["1"]);
}

#[test]
fn group_updates_reject_unreadable_files() {
    assert_eq!(
        add_to_group("group add wx 1".to_string(), "{}").err(),
        Some(GroupError::UnreadableGroup)
    );
    assert_eq!(
        remove_from_group("group remove wx 1".to_string(), "").err(),
        Some(GroupError::UnreadableGroup)
    );
}

#[test]
fn number_arguments() {
    assert_eq!(number_argument("25544"), Ok(25544));
    assert_eq!(number_argument("x"), Err("epic fail, input was not a valid number".to_string()));
    assert_eq!(id_argument("+7"), Ok(7));
    assert_eq!(id_argument("-7"), Err("failed to parse int".to_string()));
}

#[test]
fn help_lines() {
    let lines = help();
    assert_eq!(lines.len(), 3);
    assert_eq!(lines[0], "commands:");
    assert!(lines[1].starts_with("next [NORAD_ID] \t"));
    assert!(lines[2].starts_with("listen [NORAD_ID] [FREQ_HZ] \t"));
}

#[test]
fn group_file_escapes_json_specials() {
    let f = new_group("group new odd a\"b c\\d e\u{1}f g\u{8}h".to_string());
    assert_eq!(f.contents, "[\n  \"a\\\"b\",\n  \"c\\\\d\",\n  \"e\\u0001f\",\n  \"g\\bh\"\n]");
}

#[test]
fn adding_keeps_members_distinct() {
    let f = add_to_group("group add wx 1 2 2 3 1".to_string(), "[\"3\",\"4\"]").unwrap();
    let members = get_group(&f.contents).unwrap();
    assert_eq!(members, vec!["3", "4", "1", "2"]);
    let mut sorted = members.clone();
    sorted.sort();
    sorted.dedup();
    assert_eq!(sorted.len(), members.len());
}

#[test]
fn removing_twice_changes_nothing() {
    let once = remove_from_group("group remove wx 4".to_string(), "[\"4\",\"5\",\"4\"]").unwrap();
    let twice = remove_from_group("group remove wx 4".to_string(), &once.contents).unwrap();
    assert_eq!(once.contents, twice.contents);
    assert_eq!(get_group(&twice.contents).unwrap(), vec!["5"]);
}
