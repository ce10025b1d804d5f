use leqtion::place::Place;

fn s(x: &str) -> Option<String> {
    Some(x.to_string())
}

#[test]
fn renaming_the_open_project_takes_the_pointer_and_keeps_the_show() {
    let p = Place::at_show("Room A".to_string(), "soundcheck".to_string());
    let q = p.after_project_renamed("Room A", "Room B".to_string());
    assert_eq!(q.project, s("Room B"));
    assert_eq!(q.show, s("soundcheck"));
}

#[test]
fn renaming_another_project_changes_nothing() {
    let p = Place::at_show("Room A".to_string(), "soundcheck".to_string());
    let q = p.after_project_renamed("Room C", "Room D".to_string());
    assert_eq!(q.project, s("Room A"));
    assert_eq!(q.show, s("soundcheck"));
}

#[test]
fn deleting_the_open_project_leaves_nothing_open() {
    let p = Place::at_show("Room A".to_string(), "soundcheck".to_string());
    let q = p.after_project_deleted("Room A");
    assert_eq!(q.project, None);
    assert_eq!(q.show, None);
    let r = Place::in_project("Room A".to_string()).after_project_deleted("room a");
    assert_eq!(r.project, s("Room A"));
}

#[test]
fn deleting_the_open_show_stays_in_the_project() {
    let p = Place::at_show("Room A".to_string(), "soundcheck".to_string());
    let q = p.after_show_deleted("Room A".to_string(), "soundcheck");
    assert_eq!(q.project, s("Room A"));
    assert_eq!(q.show, None);
    let r = Place::at_show("Room A".to_string(), "soundcheck".to_string())
        .after_show_deleted("Room A".to_string(), "other");
    assert_eq!(r.show, s("soundcheck"));
}

#[test]
fn closing_and_opening() {
    let p = Place::nowhere();
    assert!(!p.is_open_project("Room A"));
    let q = Place::in_project("Room A".to_string());
    assert!(q.is_open_project("Room A"));
    assert!(!q.is_open_show("soundcheck"));
}
