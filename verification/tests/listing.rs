use leqtion::listing::{count_json_files, is_hidden, is_json_file, newest_first, str_less_exec};
use leqtion::project::{already_exists, renamed, show_name, Project, ProjectStore};
use leqtion::session::{whole_frames, ANALYSIS_CHUNK};

fn strings(list: &[&str]) -> Vec<String> {
    list.iter().map(|s| s.to_string()).collect()
}

#[test]
fn projects_list_newest_first_and_ties_keep_their_order() {
    let modified = strings(&[
        "2026-01-01T10:00:00Z",
        "2026-03-01T10:00:00Z",
        "2026-02-01T10:00:00Z",
        "2026-03-01T10:00:00Z",
    ]);
    assert_eq!(newest_first(&modified), vec![1, 3, 2, 0]);
    assert_eq!(newest_first(&Vec::new()), Vec::<usize>::new());
}

#[test]
fn strings_compare_as_their_bytes_do() {
    for (a, b) in [("a", "b"), ("ab", "b"), ("a", "ab"), ("Z", "a"), ("é", "z"), ("", "a"), ("a", "a")] {
        assert_eq!(str_less_exec(a, b), a < b, "{a} < {b}");
        assert_eq!(str_less_exec(b, a), b < a, "{b} < {a}");
    }
}

#[test]
fn only_json_files_are_shows() {
    assert!(is_json_file("foh-20260801-123456.json"));
    assert!(is_json_file("a..json"));
    assert!(!is_json_file(".json"), "a hidden file with no other dot has no extension");
    assert!(!is_json_file("broken.json.tmp"));
    assert!(!is_json_file("notes.txt"));
    assert!(!is_json_file("json"));
    assert_eq!(count_json_files(&strings(&["a.json", ".json", "b.json", "c.txt"])), 2);
}

#[test]
fn hidden_entries_are_not_projects() {
    assert!(is_hidden(".deleted"));
    assert!(!is_hidden("Gig"));
    assert!(!is_hidden(""));
}

#[test]
fn a_show_needs_a_name() {
    assert_eq!(show_name("  Main PA  "), Ok("Main PA".to_string()));
    assert_eq!(show_name("   "), Err("a show needs a name".to_string()));
}

#[test]
fn renaming_a_project_moves_it_and_refuses_a_collision() {
    let store = ProjectStore::new("root".to_string());
    let plan = store.rename_plan("Old", "  New Name ").unwrap();
    assert_eq!(plan.from.parts, strings(&["Old"]));
    assert_eq!(plan.to.parts, strings(&["New Name"]));
    assert!(plan.moves);
    assert_eq!(plan.name, "New Name");
    assert_eq!(plan.dir, "New Name");
    assert!(!store.rename_plan("Same", "Same").unwrap().moves);
    assert_eq!(store.rename_plan("Old", "...").unwrap_err(), "a project needs a name");
    assert_eq!(already_exists("New Name"), "a project called \"New Name\" already exists");

    let p = Project::new("Old").expect("the clock reads a writable date");
    let id = p.id.clone();
    let r = renamed(p, &plan, "2026-08-01T12:00:00Z".to_string());
    assert_eq!(r.id, id);
    assert_eq!(r.name, "New Name");
    assert_eq!(r.dir, "New Name");
    assert_eq!(r.modified, "2026-08-01T12:00:00Z");
}

#[test]
fn deleting_moves_rather_than_unlinks() {
    let store = ProjectStore::new("root".to_string());
    let to = store.deleted_project_path("Gig", "20260801-120000").unwrap();
    assert_eq!(to.root, "root");
    assert_eq!(to.parts, strings(&[".deleted", "Gig-20260801-120000"]));
    let show = store.deleted_show_path("Gig", "foh-1", "20260801-120000").unwrap();
    assert_eq!(show.parts, strings(&["Gig", ".deleted", "foh-1-20260801-120000.json"]));
    assert!(store.deleted_project_path("..", "x").is_err());
    assert_eq!(store.new_project_dir("  ").unwrap_err(), "a project needs a name");
}

#[test]
fn the_analysis_takes_whole_frames_only() {
    assert_eq!(whole_frames(10, 2), 10);
    assert_eq!(whole_frames(11, 2), 10);
    assert_eq!(whole_frames(5, 8), 0);
    assert_eq!(whole_frames(100_000, 3), 4095);
    assert_eq!(whole_frames(100_000, 1), ANALYSIS_CHUNK);
}
