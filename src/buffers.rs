//! The list of open editor buffers, kept in ascending order of buffer id.
use vstd::prelude::*;
use crate::path::{file_name_of, home_substituted, parent_of, split_at_last_slash, substitute_home};
use crate::text::{chars_of, escape_html, html_escaped, string_of};

verus! {

/// One row of the buffer list.
pub struct BufferEntry {
    /// Id the editor gave the buffer.
    pub id: u32,
    /// The file name shown for the buffer.
    pub name: String,
    /// The directory of the file, with the home directory written `~`.
    pub label: String,
    /// Icon key of the file type.
    pub icon: String,
    /// Whether the buffer has unsaved changes.
    pub modified: bool,
}

/// What a buffer row holds, as mathematical values.
pub ghost struct BufferView {
    pub id: u32,
    pub name: Seq<char>,
    pub label: Seq<char>,
    pub icon: Seq<char>,
    pub modified: bool,
}

impl View for BufferEntry {
    type V = BufferView;

    open spec fn view(&self) -> BufferView {
        BufferView {
            id: self.id,
            name: self.name@,
            label: self.label@,
            icon: self.icon@,
            modified: self.modified,
        }
    }
}

/// What the editor reports of one buffer when the whole list is queried.
pub struct BufferInfo {
    pub id: u32,
    /// The buffer's name, usually a file path; empty for a scratch buffer.
    pub name: String,
    /// Whether the buffer is listed, i.e. shown to the user.
    pub listed: bool,
    pub modified: bool,
    /// Icon key of the file type.
    pub icon: String,
}

/// The name shown for a buffer without a name.
pub open spec fn no_name() -> Seq<char> {
    seq!['[', 'N', 'o', ' ', 'N', 'a', 'm', 'e', ']']
}

/// The name shown for a buffer named `raw`: its file name, or `[No Name]`.
pub open spec fn display_name(raw: Seq<char>) -> Seq<char> {
    if raw.len() == 0 {
        no_name()
    } else {
        file_name_of(raw)
    }
}

/// The directory label of a buffer named `raw`.
pub open spec fn dir_label(raw: Seq<char>, home: Seq<char>) -> Seq<char> {
    home_substituted(parent_of(raw), home)
}

/// The row for buffer `id` named `raw`.
pub open spec fn row_for(id: u32, raw: Seq<char>, home: Seq<char>, icon: Seq<char>, modified: bool) -> BufferView {
    BufferView { id, name: display_name(raw), label: dir_label(raw, home), icon, modified }
}

/// Ids strictly ascending.
pub open spec fn ascending(s: Seq<BufferView>) -> bool {
    forall|i: int, j: int| 0 <= i < j < s.len() ==> s[i].id < s[j].id
}

/// Index of the first row whose id is at least `id`; the length where none is.
pub open spec fn first_not_below(s: Seq<BufferView>, id: u32) -> int
    decreases s.len(),
{
    if s.len() == 0 {
        0
    } else if s[0].id >= id {
        0
    } else {
        1 + first_not_below(s.drop_first(), id)
    }
}

/// Index of the first row with id `id`, or -1.
pub open spec fn index_of(s: Seq<BufferView>, id: u32) -> int
    decreases s.len(),
{
    if s.len() == 0 {
        -1
    } else if s[0].id == id {
        0
    } else if index_of(s.drop_first(), id) < 0 {
        -1
    } else {
        1 + index_of(s.drop_first(), id)
    }
}

/// `s` with row `e` put before the first row of a greater id, taking the
/// place of a row of the same id.
pub open spec fn insert_sorted(s: Seq<BufferView>, e: BufferView) -> Seq<BufferView> {
    let p = first_not_below(s, e.id);
    if p < s.len() && s[p].id == e.id {
        s.update(p, e)
    } else {
        s.insert(p, e)
    }
}

/// `s` without its first row of id `id`.
pub open spec fn remove_id(s: Seq<BufferView>, id: u32) -> Seq<BufferView> {
    let k = index_of(s, id);
    if k >= 0 {
        s.remove(k)
    } else {
        s
    }
}

/// `s` with the first row of id `id` given the name `raw`.
pub open spec fn rename_id(s: Seq<BufferView>, id: u32, raw: Seq<char>, home: Seq<char>) -> Seq<BufferView> {
    let k = index_of(s, id);
    if k >= 0 {
        s.update(k, BufferView { name: display_name(raw), label: dir_label(raw, home), ..s[k] })
    } else {
        s
    }
}

/// `s` with the first row of id `id` marked modified or not.
pub open spec fn mark_id(s: Seq<BufferView>, id: u32, modified: bool) -> Seq<BufferView> {
    let k = index_of(s, id);
    if k >= 0 {
        s.update(k, BufferView { modified, ..s[k] })
    } else {
        s
    }
}

/// The rows that the listed buffers among `infos` give, added in turn.
pub open spec fn built(infos: Seq<BufferInfo>, home: Seq<char>) -> Seq<BufferView>
    decreases infos.len(),
{
    if infos.len() == 0 {
        Seq::empty()
    } else {
        let prev = built(infos.drop_last(), home);
        let b = infos.last();
        if b.listed {
            insert_sorted(prev, row_for(b.id, b.name@, home, b.icon@, b.modified))
        } else {
            prev
        }
    }
}

proof fn lemma_first_not_below(s: Seq<BufferView>, id: u32)
    ensures
        0 <= first_not_below(s, id) <= s.len(),
        forall|k: int| 0 <= k < first_not_below(s, id) ==> s[k].id < id,
        first_not_below(s, id) < s.len() ==> s[first_not_below(s, id)].id >= id,
    decreases s.len(),
{
    if s.len() > 0 && s[0].id < id {
        lemma_first_not_below(s.drop_first(), id);
        assert forall|k: int| 0 <= k < first_not_below(s, id) implies s[k].id < id by {
            if k > 0 {
                assert(s[k] == s.drop_first()[k - 1]);
            }
        }
    }
}

proof fn lemma_first_not_below_at(s: Seq<BufferView>, id: u32, i: int)
    requires
        0 <= i <= s.len(),
        forall|k: int| 0 <= k < i ==> s[k].id < id,
        i < s.len() ==> s[i].id >= id,
    ensures
        first_not_below(s, id) == i,
    decreases s.len(),
{
    if i > 0 {
        lemma_first_not_below_at(s.drop_first(), id, i - 1);
    }
}

proof fn lemma_index_of_at(s: Seq<BufferView>, id: u32, i: int)
    requires
        0 <= i <= s.len(),
        forall|k: int| 0 <= k < i ==> s[k].id != id,
        i < s.len() ==> s[i].id == id,
    ensures
        index_of(s, id) == if i < s.len() { i } else { -1 },
    decreases s.len(),
{
    if s.len() > 0 && i > 0 {
        lemma_index_of_at(s.drop_first(), id, i - 1);
    }
}

/// Putting a row into an ascending list keeps it ascending, holds the new
/// row, and keeps every other row whose id differs.
pub proof fn lemma_insert_keeps_ascending(s: Seq<BufferView>, e: BufferView)
    requires
        ascending(s),
    ensures
        ascending(insert_sorted(s, e)),
        insert_sorted(s, e).contains(e),
        forall|k: int| 0 <= k < s.len() && s[k].id != e.id ==> insert_sorted(s, e).contains(#[trigger] s[k]),
{
    lemma_first_not_below(s, e.id);
    let p = first_not_below(s, e.id);
    let r = insert_sorted(s, e);
    if p < s.len() && s[p].id == e.id {
        assert(r[p] == e);
        assert forall|k: int| 0 <= k < s.len() && s[k].id != e.id implies r.contains(#[trigger] s[k]) by {
            assert(r[k] == s[k]);
        }
    } else {
        assert(r[p] == e);
        assert forall|k: int| 0 <= k < s.len() && s[k].id != e.id implies r.contains(#[trigger] s[k]) by {
            if k < p {
                assert(r[k] == s[k]);
            } else {
                assert(r[k + 1] == s[k]);
            }
        }
        assert forall|i: int, j: int| 0 <= i < j < r.len() implies r[i].id < r[j].id by {
            if j < p {
            } else if j == p {
            } else if i < p {
            } else if i == p {
                assert(r[j] == s[j - 1]);
                if j - 1 > p {
                    assert(s[p].id < s[j - 1].id);
                }
            } else {
            }
        }
    }
}

/// Taking a row out of an ascending list keeps it ascending, and no row of
/// that id is left.
pub proof fn lemma_remove_keeps_ascending(s: Seq<BufferView>, id: u32)
    requires
        ascending(s),
    ensures
        ascending(remove_id(s, id)),
        forall|k: int| 0 <= k < remove_id(s, id).len() ==> remove_id(s, id)[k].id != id,
{
    lemma_index_of_range(s, id);
    let k = index_of(s, id);
    let r = remove_id(s, id);
    if k >= 0 {
        assert forall|i: int, j: int| 0 <= i < j < r.len() implies r[i].id < r[j].id by {
            if i >= k {
                assert(r[i] == s[i + 1]);
                assert(r[j] == s[j + 1]);
            } else if j >= k {
                assert(r[j] == s[j + 1]);
            }
        }
        assert forall|i: int| 0 <= i < r.len() implies r[i].id != id by {
            if i >= k {
                assert(r[i] == s[i + 1]);
            }
        }
    }
}

proof fn lemma_index_of_range(s: Seq<BufferView>, id: u32)
    ensures
        -1 <= index_of(s, id) < s.len(),
        index_of(s, id) >= 0 ==> s[index_of(s, id)].id == id,
        index_of(s, id) < 0 ==> forall|k: int| 0 <= k < s.len() ==> s[k].id != id,
    decreases s.len(),
{
    if s.len() > 0 {
        lemma_index_of_range(s.drop_first(), id);
        if s[0].id != id && index_of(s.drop_first(), id) < 0 {
            assert forall|k: int| 0 <= k < s.len() implies s[k].id != id by {
                if k > 0 {
                    assert(s[k] == s.drop_first()[k - 1]);
                }
            }
        }
    }
}

/// Building twice from one listing, with nothing in between, gives the
/// same rows: what a build leaves depends on the listing and the home
/// directory alone, and is ascending.
pub proof fn lemma_build_idempotent(infos: Seq<BufferInfo>, home: Seq<char>, first: Seq<BufferView>, second: Seq<BufferView>)
    requires
        first == built(infos, home),
        second == built(infos, home),
    ensures
        first == second,
        ascending(second),
{
    lemma_built_ascending(infos, home);
}

/// The rows built from a buffer listing are ascending.
pub proof fn lemma_built_ascending(infos: Seq<BufferInfo>, home: Seq<char>)
    ensures
        ascending(built(infos, home)),
    decreases infos.len(),
{
    if infos.len() > 0 {
        lemma_built_ascending(infos.drop_last(), home);
        let b = infos.last();
        if b.listed {
            lemma_insert_keeps_ascending(built(infos.drop_last(), home), row_for(b.id, b.name@, home, b.icon@, b.modified));
        }
    }
}

/// The buffer list: rows in ascending order of id, the home directory that
/// labels abbreviate, and the id of the row the cursor is on.
pub struct BufferList {
    home: Vec<char>,
    entries: Vec<BufferEntry>,
    selected: Option<u32>,
}

impl View for BufferList {
    type V = Seq<BufferView>;

    closed spec fn view(&self) -> Seq<BufferView> {
        self.entries@.map_values(|e: BufferEntry| e@)
    }
}

/// Builds the row for buffer `id` named `raw`.
fn make_entry(id: u32, raw: &str, home: &Vec<char>, icon: &str, modified: bool) -> (r: BufferEntry)
    ensures
        r@ == row_for(id, raw@, home@, icon@, modified),
{
    let (name, label) = names_for(raw, home);
    BufferEntry { id, name, label, icon: icon.to_owned(), modified }
}

/// The display name and directory label of a buffer named `raw`.
fn names_for(raw: &str, home: &Vec<char>) -> (r: (String, String))
    ensures
        r.0@ == display_name(raw@),
        r.1@ == dir_label(raw@, home@),
{
    let chars = chars_of(raw);
    let (parent, file) = split_at_last_slash(&chars);
    let name = if chars.len() == 0 {
        let v: Vec<char> = vec!['[', 'N', 'o', ' ', 'N', 'a', 'm', 'e', ']'];
        proof {
            assert(v@ =~= no_name());
        }
        string_of(&v)
    } else {
        string_of(&file)
    };
    let label = substitute_home(&parent, home);
    (name, string_of(&label))
}

impl BufferList {
    /// Whether the rows are in ascending order of id.
    pub open spec fn wf(&self) -> bool {
        ascending(self@)
    }

    /// The home directory that labels abbreviate.
    pub closed spec fn home_dir(&self) -> Seq<char> {
        self.home@
    }

    /// The id of the row the cursor is on, if any.
    pub closed spec fn selected_id(&self) -> Option<u32> {
        self.selected
    }

    /// An empty list whose labels write `home` as `~`.
    pub fn new(home: &str) -> (r: BufferList)
        ensures
            r@ == Seq::<BufferView>::empty(),
            r.home_dir() == home@,
            r.selected_id() is None,
            r.wf(),
    {
        let r = BufferList { home: chars_of(home), entries: Vec::new(), selected: None };
        proof {
            assert(r@ =~= Seq::<BufferView>::empty());
        }
        r
    }

    /// Number of rows.
    pub fn len(&self) -> (r: usize)
        ensures
            r == self@.len(),
    {
        self.entries.len()
    }

    /// The row at `i`.
    pub fn get(&self, i: usize) -> (r: &BufferEntry)
        requires
            i < self@.len(),
        ensures
            r@ == self@[i as int],
    {
        &self.entries[i]
    }

    /// The ids of the rows, in order.
    pub fn ids(&self) -> (r: Vec<u32>)
        ensures
            r@.len() == self@.len(),
            forall|k: int| 0 <= k < r@.len() ==> r@[k] == self@[k].id,
    {
        let mut r: Vec<u32> = Vec::new();
        let mut i: usize = 0;
        while i < self.entries.len()
            invariant
                i <= self.entries@.len(),
                r@.len() == i,
                forall|k: int| 0 <= k < i ==> r@[k] == self@[k].id,
            decreases self.entries.len() - i,
        {
            r.push(self.entries[i].id);
            i = i + 1;
        }
        r
    }

    /// The id of the row the cursor is on, if any.
    pub fn selected(&self) -> (r: Option<u32>)
        ensures
            r == self.selected_id(),
    {
        self.selected
    }

    /// Position of the first row whose id is at least `id`.
    fn position_of(&self, id: u32) -> (r: usize)
        ensures
            r == first_not_below(self@, id),
    {
        let mut i: usize = 0;
        while i < self.entries.len() && self.entries[i].id < id
            invariant
                i <= self.entries@.len(),
                forall|k: int| 0 <= k < i ==> self@[k].id < id,
            decreases self.entries.len() - i,
        {
            i = i + 1;
        }
        proof {
            lemma_first_not_below_at(self@, id, i as int);
        }
        i
    }

    /// Position of the first row of id `id`, if there is one.
    fn find(&self, id: u32) -> (r: Option<usize>)
        ensures
            r is Some ==> r->0 == index_of(self@, id),
            r is None ==> index_of(self@, id) == -1,
    {
        let mut i: usize = 0;
        while i < self.entries.len() && self.entries[i].id != id
            invariant
                i <= self.entries@.len(),
                forall|k: int| 0 <= k < i ==> self@[k].id != id,
            decreases self.entries.len() - i,
        {
            i = i + 1;
        }
        proof {
            lemma_index_of_at(self@, id, i as int);
        }
        if i < self.entries.len() {
            Some(i)
        } else {
            None
        }
    }

    /// A buffer was added: a listed buffer gets its row before the first row
    /// of a greater id (in place of a row of the same id); an unlisted one is
    /// left out.
    pub fn add(&mut self, id: u32, raw_name: &str, listed: bool, icon: &str)
        requires
            old(self).wf(),
        ensures
            final(self).wf(),
            final(self).home_dir() == old(self).home_dir(),
            final(self).selected_id() == old(self).selected_id(),
            listed ==> final(self)@ == insert_sorted(old(self)@, row_for(id, raw_name@, old(self).home_dir(), icon@, false)),
            !listed ==> final(self)@ == old(self)@,
    {
        if listed {
            let e = make_entry(id, raw_name, &self.home, icon, false);
            self.put(e);
        }
    }

    /// Puts `e` in its place by id.
    fn put(&mut self, e: BufferEntry)
        requires
            old(self).wf(),
        ensures
            final(self).wf(),
            final(self).home == old(self).home,
            final(self).selected == old(self).selected,
            final(self)@ == insert_sorted(old(self)@, e@),
    {
        let ghost e_view = e@;
        let p = self.position_of(e.id);
        proof {
            lemma_first_not_below(self@, e.id);
            lemma_insert_keeps_ascending(self@, e_view);
        }
        if p < self.entries.len() && self.entries[p].id == e.id {
            self.entries.set(p, e);
            proof {
                assert(self@ =~= insert_sorted(old(self)@, e_view));
            }
        } else {
            self.entries.insert(p, e);
            proof {
                assert(self@ =~= insert_sorted(old(self)@, e_view));
            }
        }
    }

    /// A buffer was deleted: its row goes; nothing changes where it has none.
    pub fn delete(&mut self, id: u32)
        requires
            old(self).wf(),
        ensures
            final(self).wf(),
            final(self).home_dir() == old(self).home_dir(),
            final(self).selected_id() == old(self).selected_id(),
            final(self)@ == remove_id(old(self)@, id),
    {
        proof {
            lemma_remove_keeps_ascending(self@, id);
            lemma_index_of_range(self@, id);
        }
        if let Some(k) = self.find(id) {
            self.entries.remove(k);
            proof {
                assert(self@ =~= remove_id(old(self)@, id));
            }
        }
    }

    /// A buffer was renamed: its row gets the new name and label and keeps
    /// its place.
    pub fn rename(&mut self, id: u32, raw_name: &str)
        requires
            old(self).wf(),
        ensures
            final(self).wf(),
            final(self).home_dir() == old(self).home_dir(),
            final(self).selected_id() == old(self).selected_id(),
            final(self)@ == rename_id(old(self)@, id, raw_name@, old(self).home_dir()),
    {
        if let Some(k) = self.find(id) {
            proof {
                lemma_index_of_range(self@, id);
            }
            let (name, label) = names_for(raw_name, &self.home);
            let old_e = &self.entries[k];
            let e = BufferEntry { id: old_e.id, name, label, icon: old_e.icon.clone(), modified: old_e.modified };
            self.entries.set(k, e);
            proof {
                assert(self@ =~= rename_id(old(self)@, id, raw_name@, old(self).home_dir()));
                assert forall|i: int, j: int| 0 <= i < j < self@.len() implies self@[i].id < self@[j].id by {
                    assert(self@[i].id == old(self)@[i].id);
                    assert(self@[j].id == old(self)@[j].id);
                }
            }
        }
    }

    /// A buffer's modified flag changed: only its row's flag follows.
    pub fn set_modified(&mut self, id: u32, modified: bool)
        requires
            old(self).wf(),
        ensures
            final(self).wf(),
            final(self).home_dir() == old(self).home_dir(),
            final(self).selected_id() == old(self).selected_id(),
            final(self)@ == mark_id(old(self)@, id, modified),
    {
        if let Some(k) = self.find(id) {
            proof {
                lemma_index_of_range(self@, id);
            }
            let old_e = &self.entries[k];
            let e = BufferEntry {
                id: old_e.id,
                name: old_e.name.clone(),
                label: old_e.label.clone(),
                icon: old_e.icon.clone(),
                modified,
            };
            self.entries.set(k, e);
            proof {
                assert(self@ =~= mark_id(old(self)@, id, modified));
                assert forall|i: int, j: int| 0 <= i < j < self@.len() implies self@[i].id < self@[j].id by {
                    assert(self@[i].id == old(self)@[i].id);
                    assert(self@[j].id == old(self)@[j].id);
                }
            }
        }
    }

    /// The cursor moved to buffer `id`: it is selected where it has a row;
    /// otherwise the selection stays.
    pub fn select(&mut self, id: u32)
        ensures
            final(self)@ == old(self)@,
            final(self).home_dir() == old(self).home_dir(),
            (exists|k: int| 0 <= k < old(self)@.len() && old(self)@[k].id == id)
                ==> final(self).selected_id() == Some(id),
            !(exists|k: int| 0 <= k < old(self)@.len() && old(self)@[k].id == id)
                ==> final(self).selected_id() == old(self).selected_id(),
    {
        proof {
            lemma_index_of_range(self@, id);
        }
        if self.find(id).is_some() {
            self.selected = Some(id);
        }
    }

    /// Rebuilds the list from the editor's full listing: the rows of the
    /// listed buffers, each put in its place in turn.
    pub fn build(&mut self, infos: &Vec<BufferInfo>)
        ensures
            final(self).wf(),
            final(self).home_dir() == old(self).home_dir(),
            final(self).selected_id() == old(self).selected_id(),
            final(self)@ == built(infos@, old(self).home_dir()),
    {
        self.entries.clear();
        proof {
            assert(self@ =~= Seq::<BufferView>::empty());
            assert(infos@.subrange(0, 0) =~= Seq::<BufferInfo>::empty());
        }
        let mut i: usize = 0;
        while i < infos.len()
            invariant
                i <= infos@.len(),
                self.home == old(self).home,
                self.selected == old(self).selected,
                self.wf(),
                self@ == built(infos@.subrange(0, i as int), self.home@),
            decreases infos.len() - i,
        {
            let b = &infos[i];
            proof {
                assert(infos@.subrange(0, i + 1).drop_last() =~= infos@.subrange(0, i as int));
                assert(infos@.subrange(0, i + 1).last() == infos@[i as int]);
            }
            if b.listed {
                let e = make_entry(b.id, b.name.as_str(), &self.home, b.icon.as_str(), b.modified);
                self.put(e);
            }
            i = i + 1;
        }
        proof {
            assert(infos@.subrange(0, infos@.len() as int) =~= infos@);
        }
    }
}

impl BufferEntry {
    /// Icon key of the close button: a modified buffer shows that it has
    /// unsaved changes.
    pub fn close_icon(&self) -> (r: &'static str)
        ensures
            r == if self.modified { "edit-delete-symbolic" } else { "window-close-symbolic" },
    {
        if self.modified {
            "edit-delete-symbolic"
        } else {
            "window-close-symbolic"
        }
    }

    /// The row's text as markup: the escaped name, then the escaped label
    /// in small print.
    pub fn markup(&self) -> (r: String)
        ensures
            r@ == markup_of(self@),
    {
        let name = chars_of(escape_html(self.name.as_str()).as_str());
        let label = chars_of(escape_html(self.label.as_str()).as_str());
        let mut out: Vec<char> = Vec::new();
        append_chars(&mut out, &name);
        let open: Vec<char> = vec![' ', '<', 's', 'm', 'a', 'l', 'l', '>'];
        append_chars(&mut out, &open);
        append_chars(&mut out, &label);
        let close: Vec<char> = vec!['<', '/', 's', 'm', 'a', 'l', 'l', '>'];
        append_chars(&mut out, &close);
        proof {
            assert(out@ =~= markup_of(self@));
        }
        string_of(&out)
    }
}

/// The markup of a row: escaped name, then ` <small>`, escaped label and `</small>`.
pub open spec fn markup_of(e: BufferView) -> Seq<char> {
    html_escaped(e.name) + seq![' ', '<', 's', 'm', 'a', 'l', 'l', '>'] + html_escaped(e.label)
        + seq!['<', '/', 's', 'm', 'a', 'l', 'l', '>']
}

/// Appends the characters of `tail` to `out`.
pub fn append_chars(out: &mut Vec<char>, tail: &Vec<char>)
    ensures
        final(out)@ == old(out)@ + tail@,
{
    let mut i: usize = 0;
    while i < tail.len()
        invariant
            i <= tail@.len(),
            out@ == old(out)@ + tail@.subrange(0, i as int),
        decreases tail.len() - i,
    {
        out.push(tail[i]);
        proof {
            assert(tail@.subrange(0, i + 1) =~= tail@.subrange(0, i as int).push(tail@[i as int]));
        }
        i = i + 1;
    }
    proof {
        assert(tail@.subrange(0, tail@.len() as int) =~= tail@);
    }
}

} // verus!
