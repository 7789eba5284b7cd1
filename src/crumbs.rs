//! The breadcrumb trail of the working directory: one entry per path
//! component from the root down, the entry of the working directory open.
use vstd::prelude::*;
use crate::path::{char_vecs, components, is_prefix_of, path_components, prefix_path, push_component};
use crate::text::{chars_eq, chars_of, string_of};

verus! {

/// One breadcrumb entry.
pub struct Crumb {
    /// The path component.
    pub name: String,
    /// The path from the root up to and including this component.
    pub path: String,
    /// Whether this is the active entry, shown with an open folder.
    pub open: bool,
}

/// What a breadcrumb entry holds, as mathematical values.
pub ghost struct CrumbView {
    pub name: Seq<char>,
    pub path: Seq<char>,
    pub open: bool,
}

impl View for Crumb {
    type V = CrumbView;

    open spec fn view(&self) -> CrumbView {
        CrumbView { name: self.name@, path: self.path@, open: self.open }
    }
}

/// The names of a trail.
pub open spec fn crumb_names(s: Seq<CrumbView>) -> Seq<Seq<char>> {
    s.map_values(|c: CrumbView| c.name)
}

/// Whether `a` is an initial part of `b` and shorter.
pub open spec fn is_strict_prefix_of(a: Seq<Seq<char>>, b: Seq<Seq<char>>) -> bool {
    is_prefix_of(a, b) && a.len() < b.len()
}

/// The entries for the components `comps` of a working directory, the
/// last one open.
pub open spec fn fresh_crumbs(comps: Seq<Seq<char>>) -> Seq<CrumbView> {
    Seq::new(
        comps.len(),
        |i: int| CrumbView { name: comps[i], path: prefix_path(comps, i + 1), open: i == comps.len() - 1 },
    )
}

/// Entries with the folder closed.
pub open spec fn closed_crumbs(s: Seq<CrumbView>) -> Seq<CrumbView> {
    s.map_values(|c: CrumbView| CrumbView { open: false, ..c })
}

/// The trail after the working directory became one with components
/// `comps`. Where `comps` is an initial part of the old trail, the entries
/// below the new working directory stay, closed; otherwise they go.
pub open spec fn crumbs_after(prev: Seq<CrumbView>, comps: Seq<Seq<char>>) -> Seq<CrumbView> {
    if is_prefix_of(comps, crumb_names(prev)) {
        fresh_crumbs(comps) + closed_crumbs(prev.subrange(comps.len() as int, prev.len() as int))
    } else {
        fresh_crumbs(comps)
    }
}

/// Returning to a directory restores its trail: after `a`, `b` and `a`
/// again the trail is the one that `a` gave, where `a` lies neither above
/// `b` nor above the entries that the trail held at the start.
pub proof fn lemma_round_trip(start: Seq<CrumbView>, a: Seq<char>, b: Seq<char>)
    requires
        !is_strict_prefix_of(components(a), components(b)),
        !is_strict_prefix_of(components(a), crumb_names(start)),
    ensures
        crumbs_after(crumbs_after(crumbs_after(start, components(a)), components(b)), components(a))
            == crumbs_after(start, components(a)),
{
    let ca = components(a);
    let cb = components(b);
    let l1 = crumbs_after(start, ca);
    assert(l1 =~= fresh_crumbs(ca)) by {
        if is_prefix_of(ca, crumb_names(start)) {
            assert(start.subrange(ca.len() as int, start.len() as int).len() == 0);
        }
    }
    assert(crumb_names(fresh_crumbs(ca)) =~= ca);
    let l2 = crumbs_after(l1, cb);
    if is_prefix_of(cb, ca) {
        assert(crumb_names(l2) =~= ca) by {
            assert forall|i: int| 0 <= i < ca.len() implies crumb_names(l2)[i] == ca[i] by {
                if i < cb.len() {
                    assert(ca.subrange(0, cb.len() as int)[i] == ca[i]);
                }
            }
        }
        assert(l2.subrange(ca.len() as int, l2.len() as int).len() == 0);
        assert(crumbs_after(l2, ca) =~= fresh_crumbs(ca));
    } else {
        assert(l2 == fresh_crumbs(cb));
        assert(crumb_names(l2) =~= cb);
        if is_prefix_of(ca, cb) {
            assert(ca.len() == cb.len());
            assert(cb.subrange(0, ca.len() as int) =~= cb);
            assert(false);
        }
    }
}

/// The breadcrumb trail.
pub struct Breadcrumbs {
    entries: Vec<Crumb>,
}

impl View for Breadcrumbs {
    type V = Seq<CrumbView>;

    closed spec fn view(&self) -> Seq<CrumbView> {
        self.entries@.map_values(|c: Crumb| c@)
    }
}

impl Breadcrumbs {
    /// An empty trail.
    pub fn new() -> (r: Breadcrumbs)
        ensures
            r@ == Seq::<CrumbView>::empty(),
    {
        let r = Breadcrumbs { entries: Vec::new() };
        proof {
            assert(r@ =~= Seq::<CrumbView>::empty());
        }
        r
    }

    /// Number of entries.
    pub fn len(&self) -> (r: usize)
        ensures
            r == self@.len(),
    {
        self.entries.len()
    }

    /// The entry at `i`.
    pub fn get(&self, i: usize) -> (r: &Crumb)
        requires
            i < self@.len(),
        ensures
            r@ == self@[i as int],
    {
        &self.entries[i]
    }

    /// Position of the open entry, if any.
    pub fn active(&self) -> (r: Option<usize>)
        ensures
            r is Some ==> r->0 < self@.len() && self@[r->0 as int].open
                && forall|k: int| 0 <= k < r->0 ==> !self@[k].open,
            r is None ==> forall|k: int| 0 <= k < self@.len() ==> !self@[k].open,
    {
        let mut i: usize = 0;
        while i < self.entries.len()
            invariant
                i <= self@.len(),
                self@.len() == self.entries@.len(),
                forall|k: int| 0 <= k < i ==> !self@[k].open,
            decreases self.entries.len() - i,
        {
            if self.entries[i].open {
                return Some(i);
            }
            i = i + 1;
        }
        None
    }

    /// The working directory became `cwd`: the trail follows its components
    /// as `crumbs_after` says; where `cwd` has any, exactly its last entry is
    /// open.
    pub fn update(&mut self, cwd: &str)
        ensures
            final(self)@ == crumbs_after(old(self)@, components(cwd@)),
            components(cwd@).len() > 0 ==> forall|k: int| 0 <= k < final(self)@.len()
                ==> (final(self)@[k].open <==> k == components(cwd@).len() - 1),
    {
        let chars = chars_of(cwd);
        let comps = path_components(&chars);
        let ghost cv = components(cwd@);
        let ghost prev = self@;
        assert(self.entries@.len() == prev.len());

        let mut is_prefix = comps.len() <= self.entries.len();
        let mut i: usize = 0;
        while i < comps.len() && is_prefix
            invariant
                i <= comps@.len(),
                char_vecs(comps@) == cv,
                prev == self@,
                self.entries@.len() == prev.len(),
                is_prefix ==> cv.len() <= prev.len() && forall|k: int| 0 <= k < i ==> crumb_names(prev)[k] == cv[k],
                !is_prefix ==> !is_prefix_of(cv, crumb_names(prev)),
            decreases comps.len() - i,
        {
            let name = chars_of(self.entries[i].name.as_str());
            assert(comps@[i as int]@ == cv[i as int]);
            if !chars_eq(&name, &comps[i]) {
                is_prefix = false;
                proof {
                    assert(crumb_names(prev).subrange(0, cv.len() as int)[i as int] != cv[i as int]);
                }
            }
            i = i + 1;
        }
        proof {
            if is_prefix {
                assert(crumb_names(prev).subrange(0, cv.len() as int) =~= cv);
            }
            assert(is_prefix == is_prefix_of(cv, crumb_names(prev)));
        }

        let mut out: Vec<Crumb> = Vec::new();
        let mut buf: Vec<char> = Vec::new();
        let mut j: usize = 0;
        while j < comps.len()
            invariant
                j <= comps@.len(),
                char_vecs(comps@) == cv,
                buf@ == prefix_path(cv, j as int),
                out@.len() == j,
                forall|k: int| 0 <= k < j ==> #[trigger] out@[k]@ == fresh_crumbs(cv)[k],
            decreases comps.len() - j,
        {
            assert(comps@[j as int]@ == cv[j as int]);
            push_component(&mut buf, &comps[j]);
            let c = Crumb { name: string_of(&comps[j]), path: string_of(&buf), open: j + 1 == comps.len() };
            out.push(c);
            j = j + 1;
        }
        if is_prefix {
            let mut k: usize = comps.len();
            while k < self.entries.len()
                invariant
                    comps@.len() <= k <= prev.len(),
                    cv.len() == comps@.len(),
                    prev == self@,
                    self.entries@.len() == prev.len(),
                    out@.len() == k,
                    forall|m: int| 0 <= m < cv.len() ==> #[trigger] out@[m]@ == fresh_crumbs(cv)[m],
                    forall|m: int| cv.len() <= m < k ==> #[trigger] out@[m]@ == (CrumbView { open: false, ..prev[m] }),
                decreases self.entries.len() - k,
            {
                let e = &self.entries[k];
                let c = Crumb { name: e.name.clone(), path: e.path.clone(), open: false };
                out.push(c);
                k = k + 1;
            }
        }
        self.entries = out;
        proof {
            assert(self@ =~= crumbs_after(prev, cv));
        }
    }
}

} // verus!
