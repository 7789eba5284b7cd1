use side_panel::{BufferInfo, BufferList};

fn info(id: u32, name: &str, listed: bool, modified: bool) -> BufferInfo {
    BufferInfo { id, name: name.to_string(), listed, modified, icon: "text-x-generic-symbolic".to_string() }
}

#[test]
fn add_orders_by_id() {
    let mut list = BufferList::new("/home/u");
    list.add(5, "/x/y.txt", true, "i");
    list.add(3, "/x/z.txt", true, "i");
    list.add(8, "/x/w.txt", true, "i");
    assert_eq!(list.ids(), vec![3, 5, 8]);
    assert_eq!(list.get(0).name, "z.txt");
    assert_eq!(list.get(1).name, "y.txt");
    assert_eq!(list.get(2).name, "w.txt");
}

#[test]
fn add_and_delete_keep_ids_ascending() {
    let mut list = BufferList::new("");
    let steps: Vec<(bool, u32)> = vec![(true, 7), (true, 2), (true, 9), (false, 2), (true, 4), (true, 1), (false, 9), (true, 12), (false, 30)];
    for (is_add, id) in steps {
        if is_add {
            list.add(id, "/p/f.rs", true, "i");
        } else {
            list.delete(id);
        }
        let ids = list.ids();
        for w in ids.windows(2) {
            assert!(w[0] < w[1]);
        }
    }
    assert_eq!(list.ids(), vec![1, 4, 7, 12]);
}

#[test]
fn add_unlisted_is_skipped() {
    let mut list = BufferList::new("");
    list.add(2, "/a/b.txt", false, "i");
    assert_eq!(list.len(), 0);
}

#[test]
fn add_twice_keeps_one_row() {
    let mut list = BufferList::new("");
    list.add(2, "/a/b.txt", true, "i");
    list.add(2, "/a/c.txt", true, "i");
    assert_eq!(list.ids(), vec![2]);
    assert_eq!(list.get(0).name, "c.txt");
}

#[test]
fn names_and_labels() {
    let mut list = BufferList::new("/home/u");
    list.add(1, "/home/u/src/main.rs", true, "i");
    list.add(2, "", true, "i");
    list.add(3, "notes.md", true, "i");
    list.add(4, "/etc/hosts", true, "i");
    assert_eq!(list.get(0).name, "main.rs");
    assert_eq!(list.get(0).label, "~/src");
    assert_eq!(list.get(1).name, "[No Name]");
    assert_eq!(list.get(1).label, "");
    assert_eq!(list.get(2).name, "notes.md");
    assert_eq!(list.get(2).label, "");
    assert_eq!(list.get(3).name, "hosts");
    assert_eq!(list.get(3).label, "/etc");
}

#[test]
fn delete_absent_changes_nothing() {
    let mut list = BufferList::new("");
    list.add(1, "/a", true, "i");
    list.add(3, "/b", true, "i");
    list.delete(2);
    assert_eq!(list.ids(), vec![1, 3]);
    list.delete(1);
    assert_eq!(list.ids(), vec![3]);
}

#[test]
fn rename_keeps_position() {
    let mut list = BufferList::new("");
    list.add(1, "/a/one.txt", true, "i");
    list.add(2, "/a/two.txt", true, "i");
    list.add(3, "/a/three.txt", true, "i");
    list.rename(2, "/b/renamed.txt");
    assert_eq!(list.ids(), vec![1, 2, 3]);
    assert_eq!(list.get(1).name, "renamed.txt");
    assert_eq!(list.get(1).label, "/b");
    list.rename(9, "/c/x");
    assert_eq!(list.get(1).name, "renamed.txt");
}

#[test]
fn modified_flag_switches_close_icon() {
    let mut list = BufferList::new("");
    list.add(4, "/a/x.txt", true, "i");
    assert_eq!(list.get(0).close_icon(), "window-close-symbolic");
    list.set_modified(4, true);
    assert!(list.get(0).modified);
    assert_eq!(list.get(0).close_icon(), "edit-delete-symbolic");
    list.set_modified(4, false);
    assert_eq!(list.get(0).close_icon(), "window-close-symbolic");
}

#[test]
fn select_marks_present_ids_only() {
    let mut list = BufferList::new("");
    list.add(4, "/a/x.txt", true, "i");
    list.add(6, "/a/y.txt", true, "i");
    assert_eq!(list.selected(), None);
    list.select(6);
    assert_eq!(list.selected(), Some(6));
    list.select(5);
    assert_eq!(list.selected(), Some(6));
}

#[test]
fn markup_escapes_name_and_label() {
    let mut list = BufferList::new("");
    list.add(1, "/a&b/<x>.txt", true, "i");
    assert_eq!(list.get(0).markup(), "&lt;x&gt;.txt <small>/a&amp;b</small>");
}

#[test]
fn build_keeps_listed_in_id_order() {
    let mut list = BufferList::new("/home/u");
    list.add(50, "/old.txt", true, "i");
    let infos = vec![info(3, "/home/u/c.txt", true, true), info(1, "/a.txt", true, false), info(2, "/b.txt", false, false)];
    list.build(&infos);
    assert_eq!(list.ids(), vec![1, 3]);
    assert!(list.get(1).modified);
    assert_eq!(list.get(1).label, "~");
}

#[test]
fn build_twice_gives_same_rows() {
    let mut list = BufferList::new("/home/u");
    let infos = vec![info(1, "/a.txt", true, false), info(4, "", true, false), info(2, "/home/u/d/b.txt", true, true)];
    list.build(&infos);
    let first: Vec<(u32, String, String, bool)> =
        (0..list.len()).map(|i| { let e = list.get(i); (e.id, e.name.clone(), e.label.clone(), e.modified) }).collect();
    list.build(&infos);
    let second: Vec<(u32, String, String, bool)> =
        (0..list.len()).map(|i| { let e = list.get(i); (e.id, e.name.clone(), e.label.clone(), e.modified) }).collect();
    assert_eq!(first, second);
    assert_eq!(list.ids(), vec![1, 2, 4]);
}
