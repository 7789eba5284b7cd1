use side_panel::{level_rows, Contents, DirTree, EntryKind, ListedEntry};

fn entry(dir: &str, name: &str, kind: Option<EntryKind>, has_contents: bool) -> ListedEntry {
    ListedEntry {
        name: name.to_string(),
        path: format!("{}/{}", dir, name),
        kind,
        has_contents,
        icon: "text-x-generic-symbolic".to_string(),
    }
}

fn names(rows: &Vec<side_panel::Node>) -> Vec<String> {
    rows.iter().map(|n| n.name.clone()).collect()
}

#[test]
fn populate_puts_directories_first() {
    let listing = vec![
        entry("/a", "c.txt", Some(EntryKind::File), false),
        entry("/a", "b", Some(EntryKind::Directory), true),
        entry("/a", ".git", Some(EntryKind::Directory), true),
    ];
    let rows = level_rows(&listing, false);
    assert_eq!(names(&rows), vec!["b", "c.txt"]);
    assert_eq!(rows[0].kind, EntryKind::Directory);
    assert!(matches!(rows[0].contents, Contents::Unread));
    assert_eq!(rows[1].kind, EntryKind::File);
    assert!(matches!(rows[1].contents, Contents::Empty));
    let shown = level_rows(&listing, true);
    assert_eq!(names(&shown), vec![".git", "b", "c.txt"]);
}

#[test]
fn sort_ignores_case_within_kind() {
    let listing = vec![
        entry("/a", "Zeta", Some(EntryKind::File), false),
        entry("/a", "gamma", Some(EntryKind::Directory), false),
        entry("/a", "alpha", Some(EntryKind::File), false),
        entry("/a", "Beta", Some(EntryKind::Directory), false),
    ];
    let rows = level_rows(&listing, false);
    assert_eq!(names(&rows), vec!["Beta", "gamma", "alpha", "Zeta"]);
    assert!(matches!(rows[1].contents, Contents::Empty));
}

#[test]
fn backups_and_unknown_kinds_are_left_out() {
    let listing = vec![
        entry("/a", "x.rs~", Some(EntryKind::File), false),
        entry("/a", "broken", None, false),
        entry("/a", "y.rs", Some(EntryKind::File), false),
    ];
    assert_eq!(names(&level_rows(&listing, false)), vec!["y.rs"]);
    assert_eq!(names(&level_rows(&listing, true)), vec!["x.rs~", "y.rs"]);
}

#[test]
fn expand_reads_once_and_repairs_icons() {
    let mut t = DirTree::new();
    t.reload(&vec![entry("/r", "d", Some(EntryKind::Directory), true)], false);
    assert!(t.needs_listing(0));
    t.expand(0, &vec![entry("/r/d", "e", Some(EntryKind::Directory), true), entry("/r/d", "f.txt", Some(EntryKind::File), false)], false);
    assert!(!t.needs_listing(0));
    assert_eq!(t.len(), 3);
    assert!(t.node(0).expanded && t.node(0).folder_open);
    t.expand(1, &vec![entry("/r/d/e", "g.txt", Some(EntryKind::File), false)], false);
    assert!(t.node(1).expanded && t.node(1).folder_open);
    t.collapse(0);
    assert!(!t.node(0).expanded && !t.node(0).folder_open);
    t.expand(0, &vec![], false);
    assert_eq!(t.len(), 4);
    assert!(t.node(0).expanded && t.node(0).folder_open);
    assert!(!t.node(1).expanded && !t.node(1).folder_open);
}

#[test]
fn reveal_path_walks_and_selects() {
    let mut t = DirTree::new();
    t.reload(&vec![entry("/proj", "src", Some(EntryKind::Directory), true), entry("/proj", "README", Some(EntryKind::File), false)], false);
    assert_eq!(t.reveal_path("src/main.txt"), side_panel::Reveal::NeedsListing(0));
    t.expand(0, &vec![entry("/proj/src", "main.txt", Some(EntryKind::File), false)], false);
    t.collapse(0);
    assert_eq!(t.reveal_path("src/main.txt"), side_panel::Reveal::Revealed(2));
    assert!(t.node(0).expanded);
    assert_eq!(t.selected(), Some(2));
    assert_eq!(t.reveal_path("nope.txt"), side_panel::Reveal::Missing);
    assert_eq!(t.selected(), None);
    assert_eq!(t.reveal_path("README"), side_panel::Reveal::Revealed(1));
    assert_eq!(t.reveal_path("src/../README"), side_panel::Reveal::Missing);
    assert_eq!(t.reveal_path(""), side_panel::Reveal::Missing);
}
