use side_panel::{BufferInfo, EntryKind, FileBrowserWidget, ListedEntry, Reveal, RowAction};

fn entry(dir: &str, name: &str, kind: EntryKind, has_contents: bool) -> ListedEntry {
    ListedEntry {
        name: name.to_string(),
        path: format!("{}/{}", dir, name),
        kind: Some(kind),
        has_contents,
        icon: "text-x-generic-symbolic".to_string(),
    }
}

#[test]
fn reveal_buffer_file_below_cwd() {
    let mut b = FileBrowserWidget::new("/home/u");
    b.init(Some("/proj"), &vec![entry("/proj", "src", EntryKind::Directory, true)]);
    assert_eq!(b.current_dir(), "/proj");
    assert_eq!(b.buf_entered("/proj", "/proj/src/main.txt"), Reveal::NeedsListing(0));
    b.expand_row(0, &vec![entry("/proj/src", "main.txt", EntryKind::File, false)]);
    assert_eq!(b.buf_entered("/proj", "/proj/src/main.txt"), Reveal::Revealed(1));
    assert!(b.tree().node(0).expanded);
    assert_eq!(b.tree().selected(), Some(1));
    assert_eq!(b.buf_entered("/proj", "/proj/nope.txt"), Reveal::Missing);
    assert_eq!(b.tree().selected(), None);
    assert_eq!(b.buf_entered("/proj", "/elsewhere/x.txt"), Reveal::Missing);
}

#[test]
fn activate_rows() {
    let mut b = FileBrowserWidget::new("/home/u");
    b.init(Some("/proj"), &vec![entry("/proj", "src", EntryKind::Directory, true)]);
    assert!(matches!(b.activate_row(0), RowAction::Expand(0)));
    b.expand_row(0, &vec![entry("/proj/src", "main.txt", EntryKind::File, false)]);
    match b.activate_row(1) {
        RowAction::Open(p) => assert_eq!(p, "src/main.txt"),
        _ => panic!("a file row opens"),
    }
    assert!(matches!(b.activate_row(0), RowAction::Collapsed));
    assert!(!b.tree().node(0).expanded);
}

#[test]
fn dir_change_reloads_only_on_change() {
    let mut b = FileBrowserWidget::new("/home/u");
    b.init(Some("/proj"), &vec![entry("/proj", "a.txt", EntryKind::File, false)]);
    assert!(!b.dir_changed("/proj", &vec![]));
    assert_eq!(b.tree().len(), 1);
    assert!(b.dir_changed("/proj/sub", &vec![]));
    assert_eq!(b.tree().len(), 0);
    assert_eq!(b.current_dir(), "/proj/sub");
    assert_eq!(b.crumbs().len(), 3);
    assert_eq!(b.crumbs().active(), Some(2));
}

#[test]
fn hidden_toggle_reloads() {
    let mut b = FileBrowserWidget::new("/home/u");
    let listing = vec![entry("/p", ".env", EntryKind::File, false), entry("/p", "x", EntryKind::File, false)];
    b.init(Some("/p"), &listing);
    assert!(!b.get_show_hidden_files());
    assert_eq!(b.tree().len(), 1);
    b.set_show_hidden_files(true, &listing);
    assert!(b.get_show_hidden_files());
    assert_eq!(b.tree().len(), 2);
}

#[test]
fn context_click_picks_directory() {
    let mut b = FileBrowserWidget::new("/home/u");
    b.init(Some("/p"), &vec![entry("/p", "d", EntryKind::Directory, false), entry("/p", "f", EntryKind::File, false)]);
    assert!(b.context_click(Some(0)));
    assert_eq!(b.go_to_selected(), Some("/p/d".to_string()));
    assert!(!b.context_click(Some(1)));
    assert!(!b.context_click(None));
    assert_eq!(b.go_to_selected(), None);
}

#[test]
fn widget_keeps_buffer_list_and_tree_lines() {
    let mut b = FileBrowserWidget::new("/home/u");
    assert!(!b.get_enable_tree_lines());
    b.set_enable_tree_lines(true);
    assert!(b.get_enable_tree_lines());
    b.buf_added(5, "/home/u/y.txt", true, "i");
    b.buf_added(3, "/x/z.txt", true, "i");
    b.buf_added(9, "/x/hidden.txt", false, "i");
    assert_eq!(b.buffers().ids(), vec![3, 5]);
    assert_eq!(b.buffers().get(1).label, "~");
    b.buf_renamed(3, "/x/q.txt");
    assert_eq!(b.buffers().get(0).name, "q.txt");
    b.buf_modified(5, true);
    assert!(b.buffers().get(1).modified);
    b.buf_selected(5);
    assert_eq!(b.buffers().selected(), Some(5));
    b.buf_deleted(3);
    assert_eq!(b.buffers().ids(), vec![5]);
    let infos = vec![
        BufferInfo { id: 2, name: "/a".to_string(), listed: true, modified: false, icon: "i".to_string() },
        BufferInfo { id: 1, name: "/b".to_string(), listed: true, modified: false, icon: "i".to_string() },
    ];
    b.update_buf_list(&infos);
    assert_eq!(b.buffers().ids(), vec![1, 2]);
}
