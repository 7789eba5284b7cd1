//! The directory tree: one level read at a time from directory listings,
//! directories before files, expanded and collapsed on request, and walked
//! to reveal a file.
use vstd::prelude::*;
use vstd::seq_lib::group_to_multiset_ensures;
use crate::path::{char_vecs, components, path_components};
use crate::text::{chars_eq, chars_less, chars_of, lemma_less_asymmetric, lemma_less_irreflexive, lemma_less_total, lemma_less_transitive, lower_of, lowercase, seq_less};

verus! {

broadcast use group_to_multiset_ensures;

/// Whether an entry is a file or a directory.
#[derive(Clone, Copy, PartialEq, Eq, Structural, Debug)]
pub enum EntryKind {
    File,
    Directory,
}

/// One entry of a directory listing as the file system gave it.
pub struct ListedEntry {
    /// The entry's own name.
    pub name: String,
    /// Its full path.
    pub path: String,
    /// File or directory; `None` where its metadata could not be read (a
    /// broken link) or it is neither.
    pub kind: Option<EntryKind>,
    /// For a directory, whether it holds anything.
    pub has_contents: bool,
    /// Icon key of the file type.
    pub icon: String,
}

/// What a listing entry holds, as mathematical values.
pub ghost struct ListedView {
    pub name: Seq<char>,
    pub path: Seq<char>,
    pub kind: Option<EntryKind>,
    pub has_contents: bool,
    pub icon: Seq<char>,
}

impl View for ListedEntry {
    type V = ListedView;

    open spec fn view(&self) -> ListedView {
        ListedView {
            name: self.name@,
            path: self.path@,
            kind: self.kind,
            has_contents: self.has_contents,
            icon: self.icon@,
        }
    }
}

/// What a directory row holds below it.
pub enum Contents {
    /// Nothing: a file, or a directory known to be empty.
    Empty,
    /// A directory whose entries have not been read yet; it shows as
    /// expandable.
    Unread,
    /// A directory whose entries were read: the ids of their rows.
    Read(Vec<usize>),
}

/// `Contents` as mathematical values.
pub ghost enum ContentsView {
    Empty,
    Unread,
    Read(Seq<usize>),
}

impl View for Contents {
    type V = ContentsView;

    open spec fn view(&self) -> ContentsView {
        match self {
            Contents::Empty => ContentsView::Empty,
            Contents::Unread => ContentsView::Unread,
            Contents::Read(v) => ContentsView::Read(v@),
        }
    }
}

/// One row of the tree.
pub struct Node {
    pub name: String,
    pub path: String,
    pub kind: EntryKind,
    /// Icon key of the file type.
    pub icon: String,
    /// Whether a directory row shows an open folder.
    pub folder_open: bool,
    /// Whether a directory row is expanded.
    pub expanded: bool,
    pub contents: Contents,
}

/// What a row holds, as mathematical values.
pub ghost struct NodeView {
    pub name: Seq<char>,
    pub path: Seq<char>,
    pub kind: EntryKind,
    pub icon: Seq<char>,
    pub folder_open: bool,
    pub expanded: bool,
    pub contents: ContentsView,
}

impl View for Node {
    type V = NodeView;

    open spec fn view(&self) -> NodeView {
        NodeView {
            name: self.name@,
            path: self.path@,
            kind: self.kind,
            icon: self.icon@,
            folder_open: self.folder_open,
            expanded: self.expanded,
            contents: self.contents@,
        }
    }
}

/// A name that marks a hidden entry: a leading `.` or a trailing `~`.
pub open spec fn is_hidden_name(n: Seq<char>) -> bool {
    n.len() > 0 && (n[0] == '.' || n.last() == '~')
}

/// Whether a listing entry gets a row: its kind is known, and it is not
/// hidden unless hidden entries are shown.
pub open spec fn is_shown(e: ListedView, show_hidden: bool) -> bool {
    e.kind is Some && (show_hidden || !is_hidden_name(e.name))
}

/// The fresh row for a listing entry: collapsed, with a closed folder; a
/// directory that holds anything is unread, anything else empty.
pub open spec fn row_of(e: ListedView) -> NodeView {
    NodeView {
        name: e.name,
        path: e.path,
        kind: e.kind->0,
        icon: e.icon,
        folder_open: false,
        expanded: false,
        contents: if e.kind == Some(EntryKind::Directory) && e.has_contents {
            ContentsView::Unread
        } else {
            ContentsView::Empty
        },
    }
}

/// The rows that a listing gives, in listing order.
pub open spec fn shown_rows(listing: Seq<ListedView>, show_hidden: bool) -> Seq<NodeView> {
    listing.filter(|e: ListedView| is_shown(e, show_hidden)).map_values(|e: ListedView| row_of(e))
}

/// Whether row `a` may stand before row `b`: directories before files, and
/// within a kind by lower-cased full path.
pub open spec fn row_le(a: NodeView, b: NodeView) -> bool {
    (a.kind == EntryKind::Directory && b.kind == EntryKind::File)
        || (a.kind == b.kind && !seq_less(lower_of(b.path), lower_of(a.path)))
}

/// Rows in the order that `row_le` gives.
pub open spec fn rows_sorted(s: Seq<NodeView>) -> bool {
    forall|i: int, j: int| 0 <= i < j < s.len() ==> row_le(s[i], s[j])
}

/// Whether `rows` are the rows of one directory level: those of the shown
/// entries of `listing`, each once, sorted.
pub open spec fn is_level_of(rows: Seq<NodeView>, listing: Seq<ListedView>, show_hidden: bool) -> bool {
    &&& rows_sorted(rows)
    &&& rows.to_multiset() == shown_rows(listing, show_hidden).to_multiset()
}

proof fn lemma_row_le_total(a: NodeView, b: NodeView)
    ensures
        row_le(a, b) || row_le(b, a),
{
    lemma_less_irreflexive(lower_of(a.path));
    if a.kind == b.kind && lower_of(a.path) != lower_of(b.path) {
        lemma_less_total(lower_of(a.path), lower_of(b.path));
        if seq_less(lower_of(b.path), lower_of(a.path)) {
            lemma_less_asymmetric(lower_of(b.path), lower_of(a.path));
        }
    }
}

proof fn lemma_row_le_transitive(a: NodeView, b: NodeView, c: NodeView)
    requires
        row_le(a, b),
        row_le(b, c),
    ensures
        row_le(a, c),
{
    if a.kind == b.kind && b.kind == c.kind {
        let (x, y, z) = (lower_of(a.path), lower_of(b.path), lower_of(c.path));
        if seq_less(z, x) {
            if x == y {
            } else {
                lemma_less_total(x, y);
                lemma_less_transitive(z, x, y);
            }
        }
    }
}

/// Whether `name` marks a hidden entry (see `is_hidden_name`).
pub fn hidden_name(name: &Vec<char>) -> (r: bool)
    ensures
        r == is_hidden_name(name@),
{
    name.len() > 0 && (name[0] == '.' || name[name.len() - 1] == '~')
}

/// The fresh row for `e` (see `row_of`).
fn make_row(e: &ListedEntry) -> (r: Node)
    requires
        e.kind is Some,
    ensures
        r@ == row_of(e@),
{
    let kind = match e.kind {
        Some(k) => k,
        None => EntryKind::File,
    };
    let contents = if kind == EntryKind::Directory && e.has_contents {
        Contents::Unread
    } else {
        Contents::Empty
    };
    Node {
        name: e.name.clone(),
        path: e.path.clone(),
        kind,
        icon: e.icon.clone(),
        folder_open: false,
        expanded: false,
        contents,
    }
}

/// A row as a listing makes it: collapsed, unread only if a directory.
pub open spec fn fresh_row(n: NodeView) -> bool {
    &&& !n.expanded
    &&& !n.folder_open
    &&& (n.contents is Empty || (n.contents is Unread && n.kind == EntryKind::Directory))
}

/// Whether `a` may stand before `b`, given their lower-cased paths.
fn row_le_exec(a: &Node, ka: &Vec<char>, b: &Node, kb: &Vec<char>) -> (r: bool)
    requires
        ka@ == lower_of(a.path@),
        kb@ == lower_of(b.path@),
    ensures
        r == row_le(a@, b@),
{
    (a.kind == EntryKind::Directory && b.kind == EntryKind::File) || (a.kind == b.kind && !chars_less(kb, ka))
}

/// The rows of one directory level: the shown entries of `listing`,
/// directories first, each kind by lower-cased full path.
pub fn level_rows(listing: &Vec<ListedEntry>, show_hidden: bool) -> (r: Vec<Node>)
    ensures
        is_level_of(r@.map_values(|n: Node| n@), listing@.map_values(|e: ListedEntry| e@), show_hidden),
        forall|k: int| 0 <= k < r@.len() ==> #[trigger] fresh_row(r@[k]@),
{
    let ghost lv = listing@.map_values(|e: ListedEntry| e@);
    let ghost pred = |e: ListedView| is_shown(e, show_hidden);
    let mut rows: Vec<Node> = Vec::new();
    let mut keys: Vec<Vec<char>> = Vec::new();
    let mut i: usize = 0;
    proof {
        reveal(Seq::filter);
        assert(lv.subrange(0, 0).filter(pred) =~= Seq::<ListedView>::empty());
        assert(rows@.map_values(|n: Node| n@) =~= Seq::<NodeView>::empty());
    }
    while i < listing.len()
        invariant
            i <= listing@.len(),
            lv == listing@.map_values(|e: ListedEntry| e@),
            pred == (|e: ListedView| is_shown(e, show_hidden)),
            rows@.len() == keys@.len(),
            forall|k: int| 0 <= k < rows@.len() ==> (#[trigger] keys@[k])@ == lower_of(rows@[k].path@),
            forall|k: int| 0 <= k < rows@.len() ==> #[trigger] fresh_row(rows@[k]@),
            rows_sorted(rows@.map_values(|n: Node| n@)),
            rows@.map_values(|n: Node| n@).to_multiset()
                == lv.subrange(0, i as int).filter(pred).map_values(|e: ListedView| row_of(e)).to_multiset(),
        decreases listing.len() - i,
    {
        let e = &listing[i];
        let ghost prev = lv.subrange(0, i as int);
        proof {
            let s1 = lv.subrange(0, i + 1);
            reveal(Seq::filter);
            assert(s1.drop_last() =~= prev);
            assert(s1.last() == lv[i as int]);
            assert(s1.filter(pred) == if pred(lv[i as int]) {
                prev.filter(pred).push(lv[i as int])
            } else {
                prev.filter(pred)
            });
            assert(lv[i as int] == e@);
        }
        let name = chars_of(e.name.as_str());
        if e.kind.is_some() && (show_hidden || !hidden_name(&name)) {
            let row = make_row(e);
            let key = chars_of(lowercase(e.path.as_str()).as_str());
            let ghost rv = rows@.map_values(|n: Node| n@);
            let mut p: usize = 0;
            while p < rows.len() && row_le_exec(&rows[p], &keys[p], &row, &key)
                invariant
                    p <= rows@.len(),
                    rows@.len() == keys@.len(),
                    rv == rows@.map_values(|n: Node| n@),
                    key@ == lower_of(row.path@),
                    forall|k: int| 0 <= k < rows@.len() ==> (#[trigger] keys@[k])@ == lower_of(rows@[k].path@),
                    forall|k: int| 0 <= k < p ==> row_le(rv[k], row@),
                decreases rows.len() - p,
            {
                p = p + 1;
            }
            let ghost row_v = row@;
            proof {
                if p < rows@.len() {
                    lemma_row_le_total(rv[p as int], row_v);
                }
                assert forall|i2: int, j2: int| 0 <= i2 < j2 < rv.len() + 1 implies
                    row_le(#[trigger] rv.insert(p as int, row_v)[i2], #[trigger] rv.insert(p as int, row_v)[j2]) by {
                    let s = rv.insert(p as int, row_v);
                    if j2 < p {
                    } else if j2 == p {
                    } else if i2 < p {
                        assert(s[j2] == rv[j2 - 1]);
                    } else if i2 == p {
                        assert(s[j2] == rv[j2 - 1]);
                        if j2 - 1 > p {
                            lemma_row_le_transitive(row_v, rv[p as int], rv[j2 - 1]);
                        }
                    } else {
                        assert(s[i2] == rv[i2 - 1]);
                        assert(s[j2] == rv[j2 - 1]);
                    }
                }
            }
            let ghost keys_before = keys@;
            let ghost rows_before = rows@;
            rows.insert(p, row);
            keys.insert(p, key);
            proof {
                assert(rows@.map_values(|n: Node| n@) =~= rv.insert(p as int, row_v));
                assert(pred(lv[i as int]));
                assert(lv.subrange(0, i + 1).filter(pred) == prev.filter(pred).push(lv[i as int]));
                assert(prev.filter(pred).push(lv[i as int]).map_values(|e: ListedView| row_of(e))
                    =~= prev.filter(pred).map_values(|e: ListedView| row_of(e)).push(row_v));
                assert forall|k: int| 0 <= k < rows@.len() implies (#[trigger] keys@[k])@ == lower_of(rows@[k].path@) by {
                    if k > p {
                        assert(keys@[k] == keys_before[k - 1]);
                        assert(rows@[k] == rows_before[k - 1]);
                    } else if k < p {
                        assert(keys@[k] == keys_before[k]);
                        assert(rows@[k] == rows_before[k]);
                    }
                }
            }
        } else {
            proof {
                assert(!pred(lv[i as int]));
                assert(lv.subrange(0, i + 1).filter(pred) == prev.filter(pred));
            }
        }
        i = i + 1;
    }
    proof {
        assert(lv.subrange(0, lv.len() as int) =~= lv);
    }
    rows
}

/// The ids of the rows below `n`.
pub open spec fn children_of(n: NodeView) -> Seq<usize> {
    match n.contents {
        ContentsView::Read(ch) => ch,
        _ => Seq::empty(),
    }
}

/// The tree as mathematical values: rows by id, the ids of the top level,
/// and the selected row.
pub ghost struct TreeView {
    pub nodes: Seq<NodeView>,
    pub top: Seq<usize>,
    pub selected: Option<usize>,
}

/// Every id in range; files hold nothing; a row's children have greater
/// ids than the row itself.
pub open spec fn tree_wf(t: TreeView) -> bool {
    &&& forall|k: int| 0 <= k < t.top.len() ==> #[trigger] t.top[k] < t.nodes.len()
    &&& forall|i: int| 0 <= i < t.nodes.len() ==> (#[trigger] t.nodes[i]).kind == EntryKind::File
        ==> t.nodes[i].contents is Empty
    &&& forall|i: int, k: int| 0 <= i < t.nodes.len() && 0 <= k < children_of(t.nodes[i]).len()
        ==> i < #[trigger] children_of(t.nodes[i])[k] < t.nodes.len()
    &&& t.selected is Some ==> t.selected->0 < t.nodes.len()
}

/// A directory row when it is expanded: open folder.
pub open spec fn opened(n: NodeView) -> NodeView {
    NodeView { folder_open: true, expanded: true, ..n }
}

/// A directory row when it is collapsed, or found collapsed under a row
/// expanded again: closed folder. Other rows stay as they are.
pub open spec fn closed(n: NodeView) -> NodeView {
    if n.kind == EntryKind::Directory {
        NodeView { folder_open: false, expanded: false, ..n }
    } else {
        n
    }
}

/// The rows after directory row `id`, already read, is expanded again: it
/// opens, and each directory row right below it shows collapsed.
pub open spec fn reopened(nodes: Seq<NodeView>, id: int) -> Seq<NodeView> {
    Seq::new(
        nodes.len(),
        |k: int|
            if k == id {
                opened(nodes[k])
            } else if children_of(nodes[id]).contains(k as usize) {
                closed(nodes[k])
            } else {
                nodes[k]
            },
    )
}

/// Two row sequences alike but for folder icons and expansion.
pub open spec fn same_shape(a: Seq<NodeView>, b: Seq<NodeView>) -> bool {
    &&& a.len() == b.len()
    &&& forall|k: int| 0 <= k < a.len() ==> {
        &&& (#[trigger] a[k]).name == b[k].name
        &&& a[k].path == b[k].path
        &&& a[k].kind == b[k].kind
        &&& a[k].icon == b[k].icon
        &&& a[k].contents == b[k].contents
    }
}

/// What revealing a path came to.
#[derive(Clone, Copy, PartialEq, Eq, Structural, Debug)]
pub enum Reveal {
    /// The row of the path, now selected.
    Revealed(usize),
    /// No row has the path.
    Missing,
    /// The walk reached this directory row, whose entries must be read first.
    NeedsListing(usize),
}

/// A component that names an entry, rather than the root or `.` or `..`.
pub open spec fn is_plain(c: Seq<char>) -> bool {
    c != seq!['/'] && c != seq!['.'] && c != seq!['.', '.']
}

/// Whether row `k` is one of the rows `ids` or right below one of them.
pub open spec fn touched(nodes: Seq<NodeView>, ids: Seq<usize>, k: int) -> bool {
    exists|a: int| 0 <= a < ids.len() && (ids[a] == k || children_of(nodes[ids[a] as int]).contains(k as usize))
}

proof fn lemma_touched_extends(nodes: Seq<NodeView>, path: Seq<usize>, more: Seq<usize>, k: int)
    requires
        touched(nodes, path, k),
    ensures
        touched(nodes, path + more, k),
{
    let a = choose|a: int| 0 <= a < path.len() && (path[a] == k || children_of(nodes[path[a] as int]).contains(k as usize));
    assert((path + more)[a] == path[a]);
}

/// Whether the component `c` is plain (see `is_plain`).
pub fn plain_component(c: &Vec<char>) -> (r: bool)
    ensures
        r == is_plain(c@),
{
    let root: Vec<char> = vec!['/'];
    let here: Vec<char> = vec!['.'];
    let up: Vec<char> = vec!['.', '.'];
    proof {
        assert(root@ =~= seq!['/']);
        assert(here@ =~= seq!['.']);
        assert(up@ =~= seq!['.', '.']);
    }
    !chars_eq(c, &root) && !chars_eq(c, &here) && !chars_eq(c, &up)
}

/// Position in `level` of the first row named `name`, or -1.
pub open spec fn first_named(nodes: Seq<NodeView>, level: Seq<usize>, name: Seq<char>) -> int
    decreases level.len(),
{
    if level.len() == 0 {
        -1
    } else if nodes[level[0] as int].name == name {
        0
    } else if first_named(nodes, level.drop_first(), name) < 0 {
        -1
    } else {
        1 + first_named(nodes, level.drop_first(), name)
    }
}

/// Where walking the components `comps` down from the rows `level` ends:
/// each component must be plain and name a row of the current level; a
/// directory on the way must have been read.
pub open spec fn walk(nodes: Seq<NodeView>, level: Seq<usize>, comps: Seq<Seq<char>>) -> Reveal
    decreases comps.len(),
{
    if comps.len() == 0 || !is_plain(comps[0]) || first_named(nodes, level, comps[0]) < 0 {
        Reveal::Missing
    } else {
        let id = level[first_named(nodes, level, comps[0])];
        if nodes[id as int].contents is Unread {
            Reveal::NeedsListing(id)
        } else if comps.len() == 1 {
            Reveal::Revealed(id)
        } else {
            walk(nodes, children_of(nodes[id as int]), comps.drop_first())
        }
    }
}

/// The ids of the rows that `walk` passes, in order.
pub open spec fn walk_ids(nodes: Seq<NodeView>, level: Seq<usize>, comps: Seq<Seq<char>>) -> Seq<usize>
    decreases comps.len(),
{
    if comps.len() == 0 || !is_plain(comps[0]) || first_named(nodes, level, comps[0]) < 0 {
        Seq::empty()
    } else {
        let id = level[first_named(nodes, level, comps[0])];
        if nodes[id as int].contents is Unread || comps.len() == 1 {
            seq![id]
        } else {
            seq![id] + walk_ids(nodes, children_of(nodes[id as int]), comps.drop_first())
        }
    }
}

proof fn lemma_first_named_at(nodes: Seq<NodeView>, level: Seq<usize>, name: Seq<char>, i: int)
    requires
        0 <= i <= level.len(),
        forall|k: int| 0 <= k < i ==> nodes[level[k] as int].name != name,
        i < level.len() ==> nodes[level[i] as int].name == name,
    ensures
        first_named(nodes, level, name) == if i < level.len() { i } else { -1 },
    decreases level.len(),
{
    if level.len() > 0 && i > 0 {
        lemma_first_named_at(nodes, level.drop_first(), name, i - 1);
    }
}

/// The tree holds just the rows of `listing`, at the top level, in order,
/// with nothing selected.
pub open spec fn is_reload_of(t: TreeView, listing: Seq<ListedView>, show_hidden: bool) -> bool {
    &&& is_level_of(t.nodes, listing, show_hidden)
    &&& t.top == Seq::new(t.nodes.len(), |k: int| k as usize)
    &&& t.selected is None
}

/// The tree `t1` is `t0` after directory row `id` expanded with `listing`
/// as its entries (see `DirTree::expand`).
pub open spec fn expanded_from(t0: TreeView, t1: TreeView, id: int, listing: Seq<ListedView>, show_hidden: bool) -> bool {
    &&& t1.top == t0.top
    &&& t1.selected == t0.selected
    &&& t0.nodes[id].contents is Unread ==> {
        let n0 = t0.nodes.len();
        let n1 = t1.nodes.len();
        &&& n0 <= n1
        &&& is_level_of(t1.nodes.subrange(n0 as int, n1 as int), listing, show_hidden)
        &&& t1.nodes[id] == (NodeView {
            contents: ContentsView::Read(Seq::new((n1 - n0) as nat, |k: int| (n0 + k) as usize)),
            ..opened(t0.nodes[id])
        })
        &&& forall|k: int| 0 <= k < n0 && k != id ==> #[trigger] t1.nodes[k] == t0.nodes[k]
    }
    &&& t0.nodes[id].contents is Read ==> t1.nodes == reopened(t0.nodes, id)
    &&& t0.nodes[id].contents is Empty ==> t1 == t0
}

/// A directory's entries are read at most once between reloads: after an
/// expansion the expanded row is no longer unread, and every row that was
/// read keeps the children it had.
pub proof fn lemma_read_once(t0: TreeView, t1: TreeView, id: int, listing: Seq<ListedView>, show_hidden: bool)
    requires
        0 <= id < t0.nodes.len(),
        expanded_from(t0, t1, id, listing, show_hidden),
    ensures
        !(t1.nodes[id].contents is Unread),
        forall|k: int| 0 <= k < t0.nodes.len() && t0.nodes[k].contents is Read
            ==> #[trigger] t1.nodes[k].contents == t0.nodes[k].contents,
{
    if t0.nodes[id].contents is Read {
        assert forall|k: int| 0 <= k < t0.nodes.len() && t0.nodes[k].contents is Read
            implies #[trigger] t1.nodes[k].contents == t0.nodes[k].contents by {
            assert(t1.nodes[k] == reopened(t0.nodes, id)[k]);
        }
        assert(t1.nodes[id] == opened(t0.nodes[id]));
    }
}

/// The directory tree under the working directory.
pub struct DirTree {
    nodes: Vec<Node>,
    top: Vec<usize>,
    selected: Option<usize>,
}

impl View for DirTree {
    type V = TreeView;

    closed spec fn view(&self) -> TreeView {
        TreeView {
            nodes: self.nodes@.map_values(|n: Node| n@),
            top: self.top@,
            selected: self.selected,
        }
    }
}

impl DirTree {
    /// Whether the tree is well formed (see `tree_wf`).
    pub open spec fn wf(&self) -> bool {
        tree_wf(self@)
    }

    /// An empty tree.
    pub fn new() -> (r: DirTree)
        ensures
            r@.nodes.len() == 0,
            r@.top.len() == 0,
            r@.selected is None,
            r.wf(),
    {
        DirTree { nodes: Vec::new(), top: Vec::new(), selected: None }
    }

    /// Number of rows.
    pub fn len(&self) -> (r: usize)
        ensures
            r == self@.nodes.len(),
    {
        self.nodes.len()
    }

    /// The row of id `id`.
    pub fn node(&self, id: usize) -> (r: &Node)
        requires
            id < self@.nodes.len(),
        ensures
            r@ == self@.nodes[id as int],
    {
        &self.nodes[id]
    }

    /// The ids of the top-level rows, in order.
    pub fn top_level(&self) -> (r: Vec<usize>)
        ensures
            r@ == self@.top,
    {
        self.top.clone()
    }

    /// The selected row, if any.
    pub fn selected(&self) -> (r: Option<usize>)
        ensures
            r == self@.selected,
    {
        self.selected
    }

    /// Whether row `id` is a directory whose entries must be read before
    /// it can expand.
    pub fn needs_listing(&self, id: usize) -> (r: bool)
        requires
            id < self@.nodes.len(),
        ensures
            r == (self@.nodes[id as int].contents is Unread),
    {
        match self.nodes[id].contents {
            Contents::Unread => true,
            _ => false,
        }
    }

    /// Replaces the whole tree by the rows of the working directory's
    /// listing; nothing is selected.
    pub fn reload(&mut self, listing: &Vec<ListedEntry>, show_hidden: bool)
        ensures
            final(self).wf(),
            is_reload_of(final(self)@, listing@.map_values(|e: ListedEntry| e@), show_hidden),
    {
        let rows = level_rows(listing, show_hidden);
        let mut top: Vec<usize> = Vec::new();
        let mut k: usize = 0;
        while k < rows.len()
            invariant
                k <= rows@.len(),
                top@ == Seq::new(k as nat, |m: int| m as usize),
            decreases rows.len() - k,
        {
            top.push(k);
            proof {
                assert(top@ =~= Seq::new((k + 1) as nat, |m: int| m as usize));
            }
            k = k + 1;
        }
        self.nodes = rows;
        self.top = top;
        self.selected = None;
        proof {
            assert forall|i: int| 0 <= i < self@.nodes.len() implies #[trigger] fresh_row(self@.nodes[i]) by {
                assert(self@.nodes[i] == self.nodes@[i]@);
            }
            assert forall|i: int| 0 <= i < self@.nodes.len() implies children_of(#[trigger] self@.nodes[i]).len() == 0 by {
                assert(fresh_row(self@.nodes[i]));
            }
            assert forall|k: int| 0 <= k < self@.top.len() implies #[trigger] self@.top[k] < self@.nodes.len() by {
                assert(self@.top[k] == k as usize);
            }
            assert forall|i: int| 0 <= i < self@.nodes.len() && (#[trigger] self@.nodes[i]).kind == EntryKind::File
                implies self@.nodes[i].contents is Empty by {
                assert(fresh_row(self@.nodes[i]));
            }
        }
    }

    /// Clears the selection.
    pub fn clear_selection(&mut self)
        requires
            old(self).wf(),
        ensures
            final(self).wf(),
            final(self)@ == (TreeView { selected: None, ..old(self)@ }),
    {
        self.selected = None;
    }

    /// Row `id` collapses: a directory shows a closed folder.
    pub fn collapse(&mut self, id: usize)
        requires
            old(self).wf(),
            id < old(self)@.nodes.len(),
        ensures
            final(self).wf(),
            final(self)@ == (TreeView { nodes: old(self)@.nodes.update(id as int, closed(old(self)@.nodes[id as int])), ..old(self)@ }),
    {
        if self.nodes[id].kind == EntryKind::Directory {
            self.nodes[id].folder_open = false;
            self.nodes[id].expanded = false;
        }
        proof {
            assert(self@.nodes =~= old(self)@.nodes.update(id as int, closed(old(self)@.nodes[id as int])));
        }
    }

    /// Row `id`, already read, is expanded again (see `reopened`).
    fn reopen(&mut self, id: usize)
        requires
            old(self).wf(),
            id < old(self)@.nodes.len(),
            !(old(self)@.nodes[id as int].contents is Unread),
        ensures
            final(self).wf(),
            final(self)@ == (TreeView { nodes: reopened(old(self)@.nodes, id as int), ..old(self)@ }),
    {
        let ghost before = self@.nodes;
        let ghost ch = children_of(before[id as int]);
        let n = self.nodes.len();
        self.nodes[id].folder_open = true;
        self.nodes[id].expanded = true;
        let children: Vec<usize> = match &self.nodes[id].contents {
            Contents::Read(v) => v.clone(),
            _ => Vec::new(),
        };
        proof {
            assert(children@ == ch);
        }
        let mut j: usize = 0;
        while j < children.len()
            invariant
                j <= children@.len(),
                children@ == ch,
                n == before.len(),
                ch == children_of(before[id as int]),
                id < before.len(),
                forall|k: int| 0 <= k < ch.len() ==> id < #[trigger] ch[k] < before.len(),
                self.top == old(self).top,
                self.selected == old(self).selected,
                self@.nodes.len() == before.len(),
                forall|k: int| 0 <= k < before.len() ==> #[trigger] self@.nodes[k] == if k == id {
                    opened(before[k])
                } else if ch.subrange(0, j as int).contains(k as usize) {
                    closed(before[k])
                } else {
                    before[k]
                },
            decreases children.len() - j,
        {
            let c = children[j];
            proof {
                assert(id < c < before.len());
            }
            if self.nodes[c].kind == EntryKind::Directory {
                self.nodes[c].folder_open = false;
                self.nodes[c].expanded = false;
            }
            proof {
                assert forall|k: int| 0 <= k < before.len() implies #[trigger] self@.nodes[k] == if k == id {
                    opened(before[k])
                } else if ch.subrange(0, j + 1).contains(k as usize) {
                    closed(before[k])
                } else {
                    before[k]
                } by {
                    let s0 = ch.subrange(0, j as int);
                    let s1 = ch.subrange(0, j + 1);
                    assert(s1 =~= s0.push(c));
                    assert((k as usize) as int == k);
                    if k != id && k != c {
                        if s1.contains(k as usize) {
                            let w = choose|w: int| 0 <= w < s1.len() && #[trigger] s1[w] == k as usize;
                            assert(w != j);
                            assert(s0[w] == k as usize);
                        }
                        if s0.contains(k as usize) {
                            let w = choose|w: int| 0 <= w < s0.len() && #[trigger] s0[w] == k as usize;
                            assert(s1[w] == k as usize);
                        }
                    }
                    if k == c {
                        assert(s1[j as int] == c);
                    }
                }
            }
            j = j + 1;
        }
        proof {
            assert(ch.subrange(0, ch.len() as int) =~= ch);
            assert(self@.nodes =~= reopened(before, id as int));
            assert forall|i: int| 0 <= i < before.len() implies (#[trigger] self@.nodes[i]).kind == before[i].kind
                && self@.nodes[i].contents == before[i].contents by {}
            assert forall|i: int, k: int| 0 <= i < self@.nodes.len() && 0 <= k < children_of(self@.nodes[i]).len()
                implies i < #[trigger] children_of(self@.nodes[i])[k] < self@.nodes.len() by {
                assert(children_of(self@.nodes[i]) == children_of(before[i]));
            }
        }
    }

    /// Directory row `id` is expanded and shows an open folder. Where its
    /// entries were not read yet, the rows of `listing` (its entries) are
    /// added after all others and become its children; where they were, the
    /// directory rows right below it show collapsed (see `reopened`). A
    /// directory known to be empty stays as it is.
    pub fn expand(&mut self, id: usize, listing: &Vec<ListedEntry>, show_hidden: bool)
        requires
            old(self).wf(),
            id < old(self)@.nodes.len(),
        ensures
            final(self).wf(),
            expanded_from(old(self)@, final(self)@, id as int, listing@.map_values(|e: ListedEntry| e@), show_hidden),
    {
        match self.nodes[id].contents {
            Contents::Unread => {
                self.read_into(id, listing, show_hidden);
            },
            Contents::Read(_) => {
                self.reopen(id);
            },
            Contents::Empty => {},
        }
    }

    /// Adds the rows of `listing` as the children of unread row `id`.
    fn read_into(&mut self, id: usize, listing: &Vec<ListedEntry>, show_hidden: bool)
        requires
            old(self).wf(),
            id < old(self)@.nodes.len(),
            old(self)@.nodes[id as int].contents is Unread,
        ensures
            final(self).wf(),
            final(self)@.top == old(self)@.top,
            final(self)@.selected == old(self)@.selected,
            ({
                let n0 = old(self)@.nodes.len();
                let n1 = final(self)@.nodes.len();
                &&& n0 <= n1
                &&& is_level_of(final(self)@.nodes.subrange(n0 as int, n1 as int), listing@.map_values(|e: ListedEntry| e@), show_hidden)
                &&& final(self)@.nodes[id as int] == (NodeView {
                    contents: ContentsView::Read(Seq::new((n1 - n0) as nat, |k: int| (n0 + k) as usize)),
                    ..opened(old(self)@.nodes[id as int])
                })
                &&& forall|k: int| 0 <= k < n0 && k != id ==> #[trigger] final(self)@.nodes[k] == old(self)@.nodes[k]
            }),
    {
        let ghost before = self@.nodes;
        let mut rows = level_rows(listing, show_hidden);
        let ghost rows_v = rows@;
        let base = self.nodes.len();
        self.nodes.append(&mut rows);
        let total = self.nodes.len();
        proof {
            assert(self.nodes@ =~= old(self).nodes@ + rows_v);
        }
        let mut ids: Vec<usize> = Vec::new();
        let mut k: usize = base;
        while k < total
            invariant
                base <= k <= total,
                total == self.nodes@.len(),
                ids@ == Seq::new((k - base) as nat, |m: int| (base + m) as usize),
            decreases total - k,
        {
            ids.push(k);
            proof {
                assert(ids@ =~= Seq::new((k + 1 - base) as nat, |m: int| (base + m) as usize));
            }
            k = k + 1;
        }
        self.nodes[id].contents = Contents::Read(ids);
        self.nodes[id].folder_open = true;
        self.nodes[id].expanded = true;
        proof {
            let v = self@.nodes;
            assert(v.subrange(base as int, total as int) =~= rows_v.map_values(|n: Node| n@));
            assert forall|k2: int| 0 <= k2 < base && k2 != id implies #[trigger] v[k2] == before[k2] by {
                assert(self.nodes@[k2] == old(self).nodes@[k2]);
            }
            assert forall|k2: int| base <= k2 < total implies #[trigger] fresh_row(v[k2]) by {
                assert(self.nodes@[k2] == rows_v[k2 - base]);
                assert(fresh_row(rows_v[k2 - base]@));
            }
            assert forall|i: int| 0 <= i < v.len() && (#[trigger] v[i]).kind == EntryKind::File
                implies v[i].contents is Empty by {
                if i >= base {
                    assert(fresh_row(v[i]));
                } else if i != id {
                    assert(v[i] == before[i]);
                }
            }
            assert forall|i: int, k2: int| 0 <= i < v.len() && 0 <= k2 < children_of(v[i]).len()
                implies i < #[trigger] children_of(v[i])[k2] < v.len() by {
                if i >= base {
                    assert(fresh_row(v[i]));
                } else if i != id {
                    assert(v[i] == before[i]);
                } else {
                    assert(children_of(v[i])[k2] == (base + k2) as usize);
                }
            }
            assert forall|k2: int| 0 <= k2 < self@.top.len() implies #[trigger] self@.top[k2] < v.len() by {
                assert(old(self)@.top[k2] < before.len());
            }
            assert(v[id as int] == (NodeView {
                contents: ContentsView::Read(Seq::new((total - base) as nat, |m: int| (base + m) as usize)),
                ..opened(before[id as int])
            }));
        }
    }

    /// Row `id` becomes expanded if it is a directory; an expanded one
    /// stays as it is but for an open folder.
    fn open_on_walk(&mut self, id: usize)
        requires
            old(self).wf(),
            id < old(self)@.nodes.len(),
            !(old(self)@.nodes[id as int].contents is Unread),
        ensures
            final(self).wf(),
            final(self)@.top == old(self)@.top,
            final(self)@.selected == old(self)@.selected,
            same_shape(final(self)@.nodes, old(self)@.nodes),
            old(self)@.nodes[id as int].kind == EntryKind::Directory ==> final(self)@.nodes[id as int].expanded
                && final(self)@.nodes[id as int].folder_open,
            forall|k: int| 0 <= k < id ==> #[trigger] final(self)@.nodes[k] == old(self)@.nodes[k],
            forall|k: int| 0 <= k < old(self)@.nodes.len() && k != id
                && !children_of(old(self)@.nodes[id as int]).contains(k as usize)
                ==> #[trigger] final(self)@.nodes[k] == old(self)@.nodes[k],
    {
        if self.nodes[id].kind == EntryKind::Directory {
            if !self.nodes[id].expanded {
                self.reopen(id);
                proof {
                    assert forall|k: int| 0 <= k < id implies #[trigger] self@.nodes[k] == old(self)@.nodes[k] by {
                        if children_of(old(self)@.nodes[id as int]).contains(k as usize) {
                            let w = choose|w: int| 0 <= w < children_of(old(self)@.nodes[id as int]).len()
                                && #[trigger] children_of(old(self)@.nodes[id as int])[w] == k as usize;
                        }
                    }
                }
            } else {
                self.nodes[id].folder_open = true;
                proof {
                    assert forall|k2: int| 0 <= k2 < self@.top.len() implies #[trigger] self@.top[k2] < self@.nodes.len() by {
                        assert(old(self)@.top[k2] < old(self)@.nodes.len());
                    }
                    assert forall|i: int| 0 <= i < self@.nodes.len() && (#[trigger] self@.nodes[i]).kind == EntryKind::File
                        implies self@.nodes[i].contents is Empty by {
                        assert(old(self)@.nodes[i].kind == self@.nodes[i].kind);
                    }
                    assert forall|i: int, k: int| 0 <= i < self@.nodes.len() && 0 <= k < children_of(self@.nodes[i]).len()
                        implies i < #[trigger] children_of(self@.nodes[i])[k] < self@.nodes.len() by {
                        assert(children_of(self@.nodes[i]) == children_of(old(self)@.nodes[i]));
                    }
                }
            }
        }
    }

    /// Walks the path `rel_path`, relative to the tree's root, down the
    /// rows as `reveal_components` does with its components.
    pub fn reveal_path(&mut self, rel_path: &str) -> (r: Reveal)
        requires
            old(self).wf(),
        ensures
            final(self).wf(),
            r == walk(old(self)@.nodes, old(self)@.top, components(rel_path@)),
            same_shape(final(self)@.nodes, old(self)@.nodes),
            final(self)@.top == old(self)@.top,
            forall|x: usize| r == Reveal::Revealed(x) ==> final(self)@.selected == Some(x),
            r == Reveal::Missing ==> final(self)@.selected is None,
            forall|x: usize| r == Reveal::NeedsListing(x) ==> final(self)@.selected == old(self)@.selected,
            r is Revealed ==> forall|k: int| 0 <= k < walk_ids(old(self)@.nodes, old(self)@.top, components(rel_path@)).len()
                && old(self)@.nodes[walk_ids(old(self)@.nodes, old(self)@.top, components(rel_path@))[k] as int].kind
                    == EntryKind::Directory
                ==> final(self)@.nodes[#[trigger] walk_ids(old(self)@.nodes, old(self)@.top, components(rel_path@))[k] as int].expanded,
            forall|k: int| 0 <= k < old(self)@.nodes.len()
                && !touched(old(self)@.nodes, walk_ids(old(self)@.nodes, old(self)@.top, components(rel_path@)), k)
                ==> #[trigger] final(self)@.nodes[k] == old(self)@.nodes[k],
    {
        let chars = chars_of(rel_path);
        let comps = path_components(&chars);
        self.reveal_components(&comps)
    }

    /// Walks the components `comps` down the rows (see `walk`), expanding
    /// each directory row it passes. Where it reaches a row, that row is
    /// selected; where no row has the path, the selection is cleared; where
    /// a directory on the way must be read first, the selection stays and
    /// its id is returned.
    pub fn reveal_components(&mut self, comps: &Vec<Vec<char>>) -> (r: Reveal)
        requires
            old(self).wf(),
        ensures
            final(self).wf(),
            r == walk(old(self)@.nodes, old(self)@.top, char_vecs(comps@)),
            same_shape(final(self)@.nodes, old(self)@.nodes),
            final(self)@.top == old(self)@.top,
            forall|x: usize| r == Reveal::Revealed(x) ==> final(self)@.selected == Some(x),
            r == Reveal::Missing ==> final(self)@.selected is None,
            forall|x: usize| r == Reveal::NeedsListing(x) ==> final(self)@.selected == old(self)@.selected,
            r is Revealed ==> forall|k: int| 0 <= k < walk_ids(old(self)@.nodes, old(self)@.top, char_vecs(comps@)).len()
                && old(self)@.nodes[walk_ids(old(self)@.nodes, old(self)@.top, char_vecs(comps@))[k] as int].kind
                    == EntryKind::Directory
                ==> final(self)@.nodes[#[trigger] walk_ids(old(self)@.nodes, old(self)@.top, char_vecs(comps@))[k] as int].expanded,
            forall|k: int| 0 <= k < old(self)@.nodes.len()
                && !touched(old(self)@.nodes, walk_ids(old(self)@.nodes, old(self)@.top, char_vecs(comps@)), k)
                ==> #[trigger] final(self)@.nodes[k] == old(self)@.nodes[k],
    {
        let ghost cv = char_vecs(comps@);
        let ghost t0 = self@.nodes;
        let ghost full = walk_ids(t0, self@.top, cv);
        if comps.len() == 0 {
            self.selected = None;
            return Reveal::Missing;
        }
        let mut level: Vec<usize> = self.top.clone();
        let ghost mut path: Seq<usize> = Seq::empty();
        let mut j: usize = 0;
        proof {
            assert(cv.subrange(0, cv.len() as int) =~= cv);
            assert(path + walk_ids(t0, level@, cv) =~= full);
        }
        while j < comps.len()
            invariant
                self.wf(),
                old(self).wf(),
                t0 == old(self)@.nodes,
                full == walk_ids(t0, old(self)@.top, cv),
                same_shape(self@.nodes, t0),
                self@.top == old(self)@.top,
                self@.selected == old(self)@.selected,
                char_vecs(comps@) == cv,
                j < cv.len(),
                forall|k: int| 0 <= k < level@.len() ==> #[trigger] level@[k] < t0.len(),
                walk(t0, level@, cv.subrange(j as int, cv.len() as int)) == walk(t0, old(self)@.top, cv),
                full == path + walk_ids(t0, level@, cv.subrange(j as int, cv.len() as int)),
                forall|a: int, b: int| 0 <= a < path.len() && 0 <= b < level@.len() ==> #[trigger] path[a] < #[trigger] level@[b],
                forall|a: int| 0 <= a < path.len() ==> #[trigger] path[a] < t0.len(),
                forall|a: int| 0 <= a < path.len() && t0[path[a] as int].kind == EntryKind::Directory
                    ==> self@.nodes[#[trigger] path[a] as int].expanded,
                forall|k: int| 0 <= k < t0.len() && !touched(t0, path, k) ==> #[trigger] self@.nodes[k] == t0[k],
            decreases comps.len() - j,
        {
            let ghost rest = cv.subrange(j as int, cv.len() as int);
            proof {
                assert(rest[0] == cv[j as int]);
                assert(rest.drop_first() =~= cv.subrange(j + 1, cv.len() as int));
                assert(comps@[j as int]@ == cv[j as int]);
            }
            if !plain_component(&comps[j]) {
                self.selected = None;
                return Reveal::Missing;
            }
            let mut k: usize = 0;
            while k < level.len() && !chars_eq(&chars_of(self.nodes[level[k]].name.as_str()), &comps[j])
                invariant
                    k <= level@.len(),
                    same_shape(self@.nodes, t0),
                    self.nodes@.len() == t0.len(),
                    j < comps@.len(),
                    comps@[j as int]@ == cv[j as int],
                    forall|m: int| 0 <= m < level@.len() ==> #[trigger] level@[m] < t0.len(),
                    forall|m: int| 0 <= m < k ==> t0[level@[m] as int].name != cv[j as int],
                decreases level.len() - k,
            {
                proof {
                    assert(self@.nodes[level@[k as int] as int].name == t0[level@[k as int] as int].name);
                }
                k = k + 1;
            }
            if k == level.len() {
                proof {
                    lemma_first_named_at(t0, level@, cv[j as int], k as int);
                }
                self.selected = None;
                return Reveal::Missing;
            }
            let id = level[k];
            proof {
                assert(self@.nodes[id as int].name == t0[id as int].name);
                lemma_first_named_at(t0, level@, cv[j as int], k as int);
            }
            if self.needs_listing(id) {
                proof {
                    assert(walk_ids(t0, level@, rest) == seq![id]);
                    assert(full =~= path + seq![id]);
                    assert forall|k2: int| 0 <= k2 < t0.len() && !touched(t0, full, k2) implies #[trigger] self@.nodes[k2] == t0[k2] by {
                        if touched(t0, path, k2) {
                            lemma_touched_extends(t0, path, seq![id], k2);
                        }
                    }
                }
                return Reveal::NeedsListing(id);
            }
            let ghost mid = self@.nodes;
            self.open_on_walk(id);
            proof {
                assert forall|a: int| 0 <= a < path.len() && t0[path[a] as int].kind == EntryKind::Directory
                    implies self@.nodes[#[trigger] path[a] as int].expanded by {
                    assert(path[a] < level@[k as int]);
                    assert(self@.nodes[path[a] as int] == mid[path[a] as int]);
                }
                assert(children_of(mid[id as int]) == children_of(t0[id as int]));
                assert forall|k2: int| 0 <= k2 < t0.len() && !touched(t0, path + seq![id], k2) implies #[trigger] self@.nodes[k2] == t0[k2] by {
                    if touched(t0, path, k2) {
                        lemma_touched_extends(t0, path, seq![id], k2);
                    }
                    let last = path.len() as int;
                    assert((path + seq![id])[last] == id);
                    if k2 == id as int || children_of(t0[id as int]).contains(k2 as usize) {
                        assert(touched(t0, path + seq![id], k2));
                    }
                    assert(mid[k2] == t0[k2]);
                }
            }
            if j + 1 == comps.len() {
                self.selected = Some(id);
                proof {
                    assert(walk_ids(t0, level@, rest) == seq![id]);
                    assert(full =~= path.push(id));
                    assert(path + seq![id] =~= path.push(id));
                    assert forall|a: int| 0 <= a < full.len()
                        && t0[full[a] as int].kind == EntryKind::Directory implies self@.nodes[#[trigger] full[a] as int].expanded by {
                        if a < path.len() {
                            assert(full[a] == path[a]);
                        }
                    }
                    assert(full =~= path.push(id));
                }
                return Reveal::Revealed(id);
            }
            let next: Vec<usize> = match &self.nodes[id].contents {
                Contents::Read(v) => v.clone(),
                _ => Vec::new(),
            };
            proof {
                assert(next@ == children_of(t0[id as int]));
                assert(walk_ids(t0, level@, rest) == seq![id] + walk_ids(t0, next@, rest.drop_first()));
                assert(path + (seq![id] + walk_ids(t0, next@, rest.drop_first()))
                    =~= path.push(id) + walk_ids(t0, next@, rest.drop_first()));
                assert forall|a: int, b: int| 0 <= a < path.push(id).len() && 0 <= b < next@.len()
                    implies #[trigger] path.push(id)[a] < #[trigger] next@[b] by {
                    assert(id < next@[b]);
                    if a < path.len() {
                        assert(path[a] < level@[k as int]);
                    }
                }
            }
            level = next;
            proof {
                assert(path + seq![id] =~= path.push(id));
                path = path.push(id);
            }
            j = j + 1;
        }
        self.selected = None;
        Reveal::Missing
    }

} // impl DirTree

} // verus!
