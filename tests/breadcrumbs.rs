use side_panel::Breadcrumbs;

fn names(c: &Breadcrumbs) -> Vec<String> {
    (0..c.len()).map(|i| c.get(i).name.clone()).collect()
}

fn opens(c: &Breadcrumbs) -> Vec<bool> {
    (0..c.len()).map(|i| c.get(i).open).collect()
}

#[test]
fn descend_appends_active_entry() {
    let mut c = Breadcrumbs::new();
    c.update("/home/u/proj");
    assert_eq!(names(&c), vec!["/", "home", "u", "proj"]);
    assert_eq!(opens(&c), vec![false, false, false, true]);
    c.update("/home/u/proj/sub");
    assert_eq!(names(&c), vec!["/", "home", "u", "proj", "sub"]);
    assert_eq!(opens(&c), vec![false, false, false, false, true]);
    assert_eq!(c.active(), Some(4));
}

#[test]
fn entry_paths_are_prefixes() {
    let mut c = Breadcrumbs::new();
    c.update("/home/u");
    let paths: Vec<String> = (0..c.len()).map(|i| c.get(i).path.clone()).collect();
    assert_eq!(paths, vec!["/", "/home", "/home/u"]);
}

#[test]
fn ascend_keeps_deeper_entries_closed() {
    let mut c = Breadcrumbs::new();
    c.update("/a/b/c");
    c.update("/a");
    assert_eq!(names(&c), vec!["/", "a", "b", "c"]);
    assert_eq!(opens(&c), vec![false, true, false, false]);
    assert_eq!(c.active(), Some(1));
}

#[test]
fn diverging_path_drops_old_tail() {
    let mut c = Breadcrumbs::new();
    c.update("/a/b/c");
    c.update("/a/x");
    assert_eq!(names(&c), vec!["/", "a", "x"]);
    assert_eq!(opens(&c), vec![false, false, true]);
}

#[test]
fn round_trip_restores_trail() {
    let mut c = Breadcrumbs::new();
    c.update("/a/b");
    let first = (names(&c), opens(&c));
    c.update("/c/d/e");
    c.update("/a/b");
    assert_eq!((names(&c), opens(&c)), first);
    c.update("/a");
    c.update("/a/b");
    assert_eq!((names(&c), opens(&c)), first);
}
