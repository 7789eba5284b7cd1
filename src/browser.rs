//! The file browser's own state, and what each user action or editor
//! notification does to it and to the tree and breadcrumbs it keeps.
use vstd::prelude::*;
use crate::buffers::{built, insert_sorted, mark_id, remove_id, rename_id, row_for, BufferInfo, BufferList, BufferView};
use crate::crumbs::{crumbs_after, Breadcrumbs, CrumbView};
use crate::path::{below, char_vecs, components, join_components, path_components, prefix_path, strip_components};
use crate::text::{chars_eq, chars_of, string_of};
use crate::tree::{expanded_from, is_reload_of, touched, walk, walk_ids, same_shape, DirTree, EntryKind, ListedEntry, Reveal, TreeView};

verus! {

/// What activating a row asks for.
pub enum RowAction {
    /// The directory row was expanded and is now collapsed.
    Collapsed,
    /// The directory row of this id is to be expanded (reading its entries
    /// first where `DirTree::needs_listing` says so).
    Expand(usize),
    /// The file is to be opened in the editor: its path relative to the
    /// working directory where it lies below it, else its full path.
    Open(String),
}

/// The path by which the editor opens file `p` from working directory
/// `cwd`.
pub open spec fn open_path(cwd: Seq<char>, p: Seq<char>) -> Seq<char> {
    match below(cwd, p) {
        Some(rest) => prefix_path(rest, rest.len() as int),
        None => p,
    }
}

/// Where revealing file `p` from working directory `cwd` ends.
pub open spec fn reveal_outcome(t: TreeView, cwd: Seq<char>, p: Seq<char>) -> Reveal {
    match below(cwd, p) {
        Some(rest) => walk(t.nodes, t.top, rest),
        None => Reveal::Missing,
    }
}

/// The file browser: working directory, whether hidden entries show, the
/// path picked by a secondary click, whether tree lines show, the
/// breadcrumbs, the tree and the buffer list.
pub struct FileBrowserWidget {
    current_dir: String,
    show_hidden: bool,
    selected_path: Option<String>,
    enable_tree_lines: bool,
    crumbs: Breadcrumbs,
    tree: DirTree,
    buffers: BufferList,
}

impl FileBrowserWidget {
    /// The working directory.
    pub closed spec fn cwd(&self) -> Seq<char> {
        self.current_dir@
    }

    /// Whether hidden entries show.
    pub closed spec fn shows_hidden(&self) -> bool {
        self.show_hidden
    }

    /// The path picked by the last secondary click, if it hit a row.
    pub closed spec fn picked(&self) -> Option<Seq<char>> {
        match self.selected_path {
            Some(p) => Some(p@),
            None => None,
        }
    }

    /// The breadcrumbs.
    pub closed spec fn trail(&self) -> Seq<CrumbView> {
        self.crumbs@
    }

    /// The tree.
    pub closed spec fn tree_view(&self) -> TreeView {
        self.tree@
    }

    /// The rows of the buffer list.
    pub closed spec fn buffer_rows(&self) -> Seq<BufferView> {
        self.buffers@
    }

    /// The home directory that buffer labels abbreviate.
    pub closed spec fn home(&self) -> Seq<char> {
        self.buffers.home_dir()
    }

    /// The id of the buffer row the cursor is on, if any.
    pub closed spec fn buffer_selected(&self) -> Option<u32> {
        self.buffers.selected_id()
    }

    /// Whether the tree lines show.
    pub closed spec fn tree_lines(&self) -> bool {
        self.enable_tree_lines
    }

    /// Whether the tree and the buffer list are well formed.
    pub closed spec fn wf(&self) -> bool {
        self.tree.wf() && self.buffers.wf()
    }

    /// The buffer list.
    pub fn buffers(&self) -> (r: &BufferList)
        ensures
            r@ == self.buffer_rows(),
            r.home_dir() == self.home(),
            r.selected_id() == self.buffer_selected(),
    {
        &self.buffers
    }

    /// Tree lines show or not.
    pub fn set_enable_tree_lines(&mut self, setting: bool)
        ensures
            final(self).tree_lines() == setting,
            final(self).wf() == old(self).wf(),
            final(self).tree_view() == old(self).tree_view(),
            final(self).cwd() == old(self).cwd(),
            final(self).shows_hidden() == old(self).shows_hidden(),
            final(self).picked() == old(self).picked(),
            final(self).trail() == old(self).trail(),
            final(self).buffer_rows() == old(self).buffer_rows(),
    {
        self.enable_tree_lines = setting;
    }

    /// Whether tree lines show.
    pub fn get_enable_tree_lines(&self) -> (r: bool)
        ensures
            r == self.tree_lines(),
    {
        self.enable_tree_lines
    }

    /// The buffer list is built anew from the editor's full listing (see
    /// `BufferList::build`).
    pub fn update_buf_list(&mut self, infos: &Vec<BufferInfo>)
        requires
            old(self).wf(),
        ensures
            final(self).wf(),
            final(self).buffer_rows() == built(infos@, old(self).home()),
            final(self).home() == old(self).home(),
            final(self).buffer_selected() == old(self).buffer_selected(),
            final(self).tree_view() == old(self).tree_view(),
            final(self).cwd() == old(self).cwd(),
    {
        self.buffers.build(infos);
    }

    /// A buffer was added (see `BufferList::add`).
    pub fn buf_added(&mut self, id: u32, raw_name: &str, listed: bool, icon: &str)
        requires
            old(self).wf(),
        ensures
            final(self).wf(),
            listed ==> final(self).buffer_rows() == insert_sorted(old(self).buffer_rows(), row_for(id, raw_name@, old(self).home(), icon@, false)),
            !listed ==> final(self).buffer_rows() == old(self).buffer_rows(),
            final(self).home() == old(self).home(),
            final(self).buffer_selected() == old(self).buffer_selected(),
            final(self).tree_view() == old(self).tree_view(),
            final(self).cwd() == old(self).cwd(),
    {
        self.buffers.add(id, raw_name, listed, icon);
    }

    /// A buffer was deleted (see `BufferList::delete`).
    pub fn buf_deleted(&mut self, id: u32)
        requires
            old(self).wf(),
        ensures
            final(self).wf(),
            final(self).buffer_rows() == remove_id(old(self).buffer_rows(), id),
            final(self).home() == old(self).home(),
            final(self).buffer_selected() == old(self).buffer_selected(),
            final(self).tree_view() == old(self).tree_view(),
            final(self).cwd() == old(self).cwd(),
    {
        self.buffers.delete(id);
    }

    /// A buffer was renamed (see `BufferList::rename`).
    pub fn buf_renamed(&mut self, id: u32, raw_name: &str)
        requires
            old(self).wf(),
        ensures
            final(self).wf(),
            final(self).buffer_rows() == rename_id(old(self).buffer_rows(), id, raw_name@, old(self).home()),
            final(self).home() == old(self).home(),
            final(self).buffer_selected() == old(self).buffer_selected(),
            final(self).tree_view() == old(self).tree_view(),
            final(self).cwd() == old(self).cwd(),
    {
        self.buffers.rename(id, raw_name);
    }

    /// A buffer's modified flag changed (see `BufferList::set_modified`).
    pub fn buf_modified(&mut self, id: u32, modified: bool)
        requires
            old(self).wf(),
        ensures
            final(self).wf(),
            final(self).buffer_rows() == mark_id(old(self).buffer_rows(), id, modified),
            final(self).home() == old(self).home(),
            final(self).buffer_selected() == old(self).buffer_selected(),
            final(self).tree_view() == old(self).tree_view(),
            final(self).cwd() == old(self).cwd(),
    {
        self.buffers.set_modified(id, modified);
    }

    /// The cursor moved to buffer `id` (see `BufferList::select`).
    pub fn buf_selected(&mut self, id: u32)
        requires
            old(self).wf(),
        ensures
            final(self).wf(),
            final(self).buffer_rows() == old(self).buffer_rows(),
            (exists|k: int| 0 <= k < old(self).buffer_rows().len() && old(self).buffer_rows()[k].id == id)
                ==> final(self).buffer_selected() == Some(id),
            !(exists|k: int| 0 <= k < old(self).buffer_rows().len() && old(self).buffer_rows()[k].id == id)
                ==> final(self).buffer_selected() == old(self).buffer_selected(),
            final(self).tree_view() == old(self).tree_view(),
            final(self).cwd() == old(self).cwd(),
    {
        self.buffers.select(id);
    }

    /// The tree.
    pub fn tree(&self) -> (r: &DirTree)
        ensures
            r@ == self.tree_view(),
            self.wf() ==> r.wf(),
    {
        &self.tree
    }

    /// Directory row `id` expands, with `listing` as its entries where they
    /// were not read yet (see `DirTree::expand`).
    pub fn expand_row(&mut self, id: usize, listing: &Vec<ListedEntry>)
        requires
            old(self).wf(),
            id < old(self).tree_view().nodes.len(),
        ensures
            final(self).wf(),
            final(self).buffer_rows() == old(self).buffer_rows(),
            expanded_from(old(self).tree_view(), final(self).tree_view(), id as int,
                listing@.map_values(|e: ListedEntry| e@), old(self).shows_hidden()),
            final(self).cwd() == old(self).cwd(),
            final(self).shows_hidden() == old(self).shows_hidden(),
            final(self).picked() == old(self).picked(),
            final(self).trail() == old(self).trail(),
    {
        self.tree.expand(id, listing, self.show_hidden);
    }

    /// A browser with no working directory yet, hidden entries not shown,
    /// and an empty buffer list whose labels write `home` as `~`.
    pub fn new(home: &str) -> (r: FileBrowserWidget)
        ensures
            r.wf(),
            r.buffer_rows() == Seq::<BufferView>::empty(),
            r.home() == home@,
            r.buffer_selected() is None,
            !r.tree_lines(),
            r.cwd() == Seq::<char>::empty(),
            !r.shows_hidden(),
            r.picked() is None,
            r.trail() == Seq::<CrumbView>::empty(),
            r.tree_view().nodes.len() == 0,
    {
        FileBrowserWidget {
            current_dir: String::new(),
            show_hidden: false,
            selected_path: None,
            enable_tree_lines: false,
            crumbs: Breadcrumbs::new(),
            tree: DirTree::new(),
            buffers: BufferList::new(home),
        }
    }

    /// The working directory.
    pub fn current_dir(&self) -> (r: String)
        ensures
            r@ == self.cwd(),
    {
        self.current_dir.clone()
    }

    /// Whether hidden entries show.
    pub fn get_show_hidden_files(&self) -> (r: bool)
        ensures
            r == self.shows_hidden(),
    {
        self.show_hidden
    }

    /// The breadcrumbs.
    pub fn crumbs(&self) -> (r: &Breadcrumbs)
        ensures
            r@ == self.trail(),
    {
        &self.crumbs
    }

    /// First fill: where the editor told its working directory, it becomes
    /// the browser's and the breadcrumbs follow; then the tree is filled
    /// from `listing`, the entries of the working directory.
    pub fn init(&mut self, cwd: Option<&str>, listing: &Vec<ListedEntry>)
        requires
            old(self).wf(),
        ensures
            final(self).wf(),
            final(self).buffer_rows() == old(self).buffer_rows(),
            final(self).shows_hidden() == old(self).shows_hidden(),
            final(self).picked() == old(self).picked(),
            cwd is Some ==> final(self).cwd() == cwd->0@
                && final(self).trail() == crumbs_after(old(self).trail(), components(cwd->0@)),
            cwd is None ==> final(self).cwd() == old(self).cwd() && final(self).trail() == old(self).trail(),
            is_reload_of(final(self).tree_view(), listing@.map_values(|e: ListedEntry| e@), old(self).shows_hidden()),
    {
        if let Some(dir) = cwd {
            self.crumbs.update(dir);
            self.current_dir = dir.to_owned();
        }
        self.tree.reload(listing, self.show_hidden);
    }

    /// The editor's working directory is now `dir`, whose entries are
    /// `listing`. Where it differs from the browser's, the browser takes
    /// it, the breadcrumbs follow and the tree is filled anew, and the
    /// result is true; otherwise nothing changes.
    pub fn dir_changed(&mut self, dir: &str, listing: &Vec<ListedEntry>) -> (changed: bool)
        requires
            old(self).wf(),
        ensures
            final(self).wf(),
            final(self).buffer_rows() == old(self).buffer_rows(),
            changed == (dir@ != old(self).cwd()),
            final(self).shows_hidden() == old(self).shows_hidden(),
            final(self).picked() == old(self).picked(),
            changed ==> final(self).cwd() == dir@
                && final(self).trail() == crumbs_after(old(self).trail(), components(dir@))
                && is_reload_of(final(self).tree_view(), listing@.map_values(|e: ListedEntry| e@), old(self).shows_hidden()),
            !changed ==> final(self).cwd() == old(self).cwd() && final(self).trail() == old(self).trail()
                && final(self).tree_view() == old(self).tree_view(),
    {
        let new_dir = chars_of(dir);
        let cur = chars_of(self.current_dir.as_str());
        if chars_eq(&new_dir, &cur) {
            return false;
        }
        self.current_dir = dir.to_owned();
        self.crumbs.update(dir);
        self.tree.reload(listing, self.show_hidden);
        true
    }

    /// Hidden entries show or not, and the tree is filled anew from
    /// `listing`, the entries of the working directory.
    pub fn set_show_hidden_files(&mut self, setting: bool, listing: &Vec<ListedEntry>)
        requires
            old(self).wf(),
        ensures
            final(self).wf(),
            final(self).buffer_rows() == old(self).buffer_rows(),
            final(self).shows_hidden() == setting,
            final(self).cwd() == old(self).cwd(),
            final(self).picked() == old(self).picked(),
            final(self).trail() == old(self).trail(),
            is_reload_of(final(self).tree_view(), listing@.map_values(|e: ListedEntry| e@), setting),
    {
        self.show_hidden = setting;
        self.tree.reload(listing, setting);
    }

    /// The tree is filled anew from `listing`, the entries of the working
    /// directory.
    pub fn reload(&mut self, listing: &Vec<ListedEntry>)
        requires
            old(self).wf(),
        ensures
            final(self).wf(),
            final(self).buffer_rows() == old(self).buffer_rows(),
            final(self).shows_hidden() == old(self).shows_hidden(),
            final(self).cwd() == old(self).cwd(),
            final(self).picked() == old(self).picked(),
            final(self).trail() == old(self).trail(),
            is_reload_of(final(self).tree_view(), listing@.map_values(|e: ListedEntry| e@), old(self).shows_hidden()),
    {
        self.tree.reload(listing, self.show_hidden);
    }

    /// A secondary click hit row `row`, or no row: the row's path is picked,
    /// and the result says whether "go to directory" applies, i.e. whether
    /// the row is a directory.
    pub fn context_click(&mut self, row: Option<usize>) -> (cd_enabled: bool)
        requires
            old(self).wf(),
            row is Some ==> row->0 < old(self).tree_view().nodes.len(),
        ensures
            final(self).wf(),
            final(self).buffer_rows() == old(self).buffer_rows(),
            final(self).tree_view() == old(self).tree_view(),
            final(self).cwd() == old(self).cwd(),
            final(self).shows_hidden() == old(self).shows_hidden(),
            final(self).trail() == old(self).trail(),
            row is Some ==> final(self).picked() == Some(old(self).tree_view().nodes[row->0 as int].path),
            row is None ==> final(self).picked() is None,
            cd_enabled == (row is Some && old(self).tree_view().nodes[row->0 as int].kind == EntryKind::Directory),
    {
        match row {
            Some(id) => {
                let node = self.tree.node(id);
                let enabled = node.kind == EntryKind::Directory;
                self.selected_path = Some(node.path.clone());
                enabled
            },
            None => {
                self.selected_path = None;
                false
            },
        }
    }

    /// The directory that "go to directory" changes to: the picked path.
    pub fn go_to_selected(&self) -> (r: Option<String>)
        ensures
            r is Some <==> self.picked() is Some,
            r is Some ==> self.picked() == Some(r->0@),
    {
        match &self.selected_path {
            Some(p) => Some(p.clone()),
            None => None,
        }
    }

    /// Row `id` was activated: an expanded directory collapses, a collapsed
    /// one is to be expanded, a file is to be opened (see `open_path`).
    pub fn activate_row(&mut self, id: usize) -> (r: RowAction)
        requires
            old(self).wf(),
            id < old(self).tree_view().nodes.len(),
        ensures
            final(self).wf(),
            final(self).buffer_rows() == old(self).buffer_rows(),
            final(self).cwd() == old(self).cwd(),
            final(self).shows_hidden() == old(self).shows_hidden(),
            final(self).picked() == old(self).picked(),
            final(self).trail() == old(self).trail(),
            ({
                let n = old(self).tree_view().nodes[id as int];
                &&& (n.kind == EntryKind::Directory && n.expanded) ==> r is Collapsed
                    && final(self).tree_view().nodes == old(self).tree_view().nodes.update(id as int, crate::tree::closed(n))
                    && final(self).tree_view().top == old(self).tree_view().top
                    && final(self).tree_view().selected == old(self).tree_view().selected
                &&& (n.kind == EntryKind::Directory && !n.expanded) ==> r == RowAction::Expand(id)
                    && final(self).tree_view() == old(self).tree_view()
                &&& n.kind == EntryKind::File ==> (r is Open && r->Open_0@ == open_path(old(self).cwd(), n.path))
                    && final(self).tree_view() == old(self).tree_view()
            }),
    {
        let node = self.tree.node(id);
        if node.kind == EntryKind::Directory {
            if node.expanded {
                self.tree.collapse(id);
                RowAction::Collapsed
            } else {
                RowAction::Expand(id)
            }
        } else {
            let cwd_chars = chars_of(self.current_dir.as_str());
            let file_chars = chars_of(node.path.as_str());
            let cc = path_components(&cwd_chars);
            let fc = path_components(&file_chars);
            match strip_components(&cc, &fc) {
                Some(rest) => {
                    let joined = join_components(&rest);
                    proof {
                        assert(char_vecs(rest@).len() == rest@.len());
                    }
                    RowAction::Open(string_of(&joined))
                },
                None => RowAction::Open(node.path.clone()),
            }
        }
    }

    /// The editor entered the buffer of file `file_path` while in working
    /// directory `cwd`: the tree reveals the file where it lies below `cwd`
    /// (see `DirTree::reveal_components`); otherwise the selection is cleared.
    pub fn buf_entered(&mut self, cwd: &str, file_path: &str) -> (r: Reveal)
        requires
            old(self).wf(),
        ensures
            final(self).wf(),
            final(self).buffer_rows() == old(self).buffer_rows(),
            r == reveal_outcome(old(self).tree_view(), cwd@, file_path@),
            same_shape(final(self).tree_view().nodes, old(self).tree_view().nodes),
            final(self).tree_view().top == old(self).tree_view().top,
            forall|x: usize| r == Reveal::Revealed(x) ==> final(self).tree_view().selected == Some(x),
            r == Reveal::Missing ==> final(self).tree_view().selected is None,
            forall|x: usize| r == Reveal::NeedsListing(x) ==> final(self).tree_view().selected == old(self).tree_view().selected,
            below(cwd@, file_path@) is None ==> final(self).tree_view().nodes == old(self).tree_view().nodes,
            below(cwd@, file_path@) is Some ==> forall|k: int| 0 <= k < old(self).tree_view().nodes.len()
                && !touched(old(self).tree_view().nodes, walk_ids(old(self).tree_view().nodes, old(self).tree_view().top,
                    below(cwd@, file_path@)->0), k)
                ==> #[trigger] final(self).tree_view().nodes[k] == old(self).tree_view().nodes[k],
            final(self).cwd() == old(self).cwd(),
            final(self).shows_hidden() == old(self).shows_hidden(),
            final(self).picked() == old(self).picked(),
            final(self).trail() == old(self).trail(),
    {
        let cwd_chars = chars_of(cwd);
        let file_chars = chars_of(file_path);
        let cc = path_components(&cwd_chars);
        let fc = path_components(&file_chars);
        match strip_components(&cc, &fc) {
            Some(rest) => self.tree.reveal_components(&rest),
            None => {
                self.tree.clear_selection();
                Reveal::Missing
            },
        }
    }
}

} // verus!
