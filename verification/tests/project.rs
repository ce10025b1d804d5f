use leqtion::project::{make_id, make_id_at, sanitise_id, sanitise_name, ProjectStore, Project};
use leqtion::project::now_rfc3339;

#[test]
fn names_are_safe_on_windows_too() {
    assert_eq!(sanitise_name("Show."), "Show");
    assert_eq!(sanitise_name("Show   "), "Show");
    assert_eq!(sanitise_name("CON"), "CON_");
    assert_eq!(sanitise_name("con"), "con_");
    assert_eq!(sanitise_name("PRN"), "PRN_");
    assert_eq!(sanitise_name("Control"), "Control", "only exact matches are reserved");
    assert_eq!(sanitise_name(""), "");
    assert_eq!(sanitise_name("   "), "");
}

#[test]
fn a_show_id_is_readable_and_unique_per_name() {
    let id = make_id("FOH System — Main PA").expect("the clock reads a writable date");
    assert!(id.starts_with("foh-system-main-pa-"), "got {id}");
    assert_eq!(sanitise_id(&id), id, "an id we generate is already filename-safe");

    // A name with nothing usable in it still produces a valid id.
    assert!(make_id("???").unwrap().starts_with("show-"));
}

#[test]
fn a_project_name_cannot_escape_the_root() {
    assert_eq!(sanitise_name("../../etc/passwd"), "-..-etc-passwd");
    assert_eq!(sanitise_name(".."), "");
    assert_eq!(sanitise_name("."), "");
    assert_eq!(sanitise_name("/"), "-");
    assert!(!sanitise_name("C:\\Windows").contains(':'));
    assert!(!sanitise_name("a/b").contains('/'));
    assert!(!sanitise_name("a\\b").contains('\\'));

    let store = ProjectStore::new("/tmp/projects".to_string());
    // Whatever this resolves to, it stays under the root, one plain
    // component down.
    let dir = store.project_dir("../../etc").unwrap();
    assert_eq!(dir.root, "/tmp/projects");
    assert_eq!(dir.parts, vec!["-..-etc".to_string()]);
    assert!(store.project_dir("..").is_err());
}

#[test]
fn an_id_is_the_name_as_a_slug_and_a_timestamp() {
    assert_eq!(make_id_at("FOH System — Main PA", "20260801-123456"), "foh-system-main-pa-20260801-123456");
    assert_eq!(make_id_at("???", "20260801-123456"), "show-20260801-123456");
}

#[test]
fn show_paths_are_built_from_sanitised_parts() {
    let store = ProjectStore::new("root".to_string());
    let p = store.show_path("My Project", "show-1").unwrap();
    assert_eq!(p.parts, vec!["My Project".to_string(), "shows".to_string(), "show-1.json".to_string()]);
    assert_eq!(store.show_path("My Project", "///").unwrap_err(), "that is not a valid show");
    assert_eq!(store.show_path("..", "show-1").unwrap_err(), "that is not a valid project name");
    let s = store.shows_dir("Gig").unwrap();
    assert_eq!(s.parts, vec!["Gig".to_string(), "shows".to_string()]);
}

#[test]
fn a_new_project_is_named_as_typed() {
    let p = Project::new("  Gig at the Hall  ").expect("the clock reads a writable date");
    assert_eq!(p.name, "Gig at the Hall");
    assert!(p.id.starts_with("gig-at-the-hall-"));
    assert_eq!(p.created, p.modified);
    assert!(p.created.ends_with('Z'), "created at a UTC time: {}", p.created);
    assert!(p.notes.is_empty());
}

#[test]
fn the_current_time_is_written_as_rfc3339_in_utc() {
    let t = now_rfc3339();
    let c: Vec<char> = t.chars().collect();
    assert!(c.len() >= 20, "{t}");
    for i in [0, 1, 2, 3, 5, 6, 8, 9, 11, 12, 14, 15, 17, 18] {
        assert!(c[i].is_ascii_digit(), "{t}");
    }
    assert_eq!((c[4], c[7], c[10], c[13], c[16]), ('-', '-', 'T', ':', ':'));
    let two = |i: usize| (c[i] as u32 - '0' as u32) * 10 + (c[i + 1] as u32 - '0' as u32);
    assert!((1..=12).contains(&two(5)) && (1..=31).contains(&two(8)));
    assert!(two(11) < 24 && two(14) < 60 && two(17) < 60);
    assert_eq!(*c.last().unwrap(), 'Z', "{t}");
    if c[19] == '.' {
        let frac = &c[20..c.len() - 1];
        assert!(!frac.is_empty() && frac.len() <= 9);
        assert!(frac.iter().all(|d| d.is_ascii_digit()));
        assert_ne!(*frac.last().unwrap(), '0');
    } else {
        assert_eq!(c.len(), 20);
    }
}

#[test]
fn edges_are_stripped_until_no_dot_or_space_is_left() {
    assert_eq!(sanitise_name(".\u{a0}.x"), "x");
    assert_eq!(sanitise_name(" . .Show. . "), "Show");
    assert_eq!(sanitise_name("\u{a0}.hidden"), "hidden");
    assert_eq!(sanitise_name(". . ."), "");
}

#[test]
fn cutting_to_length_leaves_no_dot_or_space_at_the_end() {
    let name = format!("{}. b", "a".repeat(119));
    assert_eq!(sanitise_name(&name), "a".repeat(119));
    let long = format!("CON{}x", " ".repeat(117));
    assert_eq!(sanitise_name(&long), "CON_");
    let plain = "b".repeat(130);
    assert_eq!(sanitise_name(&plain), "b".repeat(120));
}

#[test]
fn sanitising_a_stored_name_again_changes_nothing() {
    for name in [
        "Show.", "CON", ".\u{a0}.x", "a/b", "  Main Hall  ", "LPT9", "x. .y", "\u{1}tab\u{2}",
    ] {
        let once = sanitise_name(name);
        assert_eq!(sanitise_name(&once), once);
    }
    let long = format!("{}. b", "a".repeat(119));
    let once = sanitise_name(&long);
    assert_eq!(sanitise_name(&once), once);
}

#[test]
fn a_new_projects_id_stamp_and_creation_time_are_one_instant() {
    let p = Project::new("Hall").expect("the clock reads a writable date");
    let c: Vec<char> = p.created.chars().collect();
    let date: String = [&c[0..4], &c[5..7], &c[8..10]].concat().into_iter().collect();
    let time: String = [&c[11..13], &c[14..16], &c[17..19]].concat().into_iter().collect();
    assert_eq!(p.id, format!("hall-{date}-{time}"));
}
