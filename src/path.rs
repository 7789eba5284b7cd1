//! Path helpers: splitting into components, building prefixes, taking a
//! path apart at its last slash, and replacing the home directory by `~`.
use vstd::prelude::*;
use crate::text::chars_eq;

verus! {

/// The views of a sequence of character vectors.
pub open spec fn char_vecs(v: Seq<Vec<char>>) -> Seq<Seq<char>> {
    v.map_values(|x: Vec<char>| x@)
}

/// The segments that the slashes of `s` separate, given the characters of
/// the segment in progress; empty segments are dropped.
pub open spec fn segments_from(s: Seq<char>, cur: Seq<char>) -> Seq<Seq<char>>
    decreases s.len(),
{
    if s.len() == 0 {
        if cur.len() > 0 {
            seq![cur]
        } else {
            Seq::empty()
        }
    } else if s[0] == '/' {
        (if cur.len() > 0 {
            seq![cur]
        } else {
            Seq::empty()
        }) + segments_from(s.drop_first(), Seq::empty())
    } else {
        segments_from(s.drop_first(), cur.push(s[0]))
    }
}

/// The non-empty segments of `s` between slashes, in order.
pub open spec fn segments(s: Seq<char>) -> Seq<Seq<char>> {
    segments_from(s, Seq::empty())
}

/// The components of a path: `/` first where the path is absolute, then
/// its non-empty segments.
pub open spec fn components(s: Seq<char>) -> Seq<Seq<char>> {
    if s.len() > 0 && s[0] == '/' {
        seq![seq!['/']] + segments(s)
    } else {
        segments(s)
    }
}

/// Splits `s` into its components (see `components`).
pub fn path_components(s: &Vec<char>) -> (r: Vec<Vec<char>>)
    ensures
        char_vecs(r@) == components(s@),
{
    let mut acc: Vec<Vec<char>> = Vec::new();
    if s.len() > 0 && s[0] == '/' {
        acc.push(vec!['/']);
    }
    proof {
        assert(char_vecs(acc@) + segments(s@.subrange(0, s@.len() as int)) =~= components(s@)) by {
            assert(s@.subrange(0, s@.len() as int) =~= s@);
            if s@.len() > 0 && s@[0] == '/' {
                assert(acc@[0]@ =~= seq!['/']);
            }
        }
    }
    let mut cur: Vec<char> = Vec::new();
    let mut i: usize = 0;
    while i < s.len()
        invariant
            i <= s@.len(),
            char_vecs(acc@) + segments_from(s@.subrange(i as int, s@.len() as int), cur@)
                == components(s@),
        decreases s.len() - i,
    {
        let ghost rest = s@.subrange(i as int, s@.len() as int);
        proof {
            assert(rest.drop_first() =~= s@.subrange(i + 1, s@.len() as int));
        }
        if s[i] == '/' {
            if cur.len() > 0 {
                let ghost before = char_vecs(acc@);
                acc.push(cur);
                proof {
                    assert(char_vecs(acc@) =~= before.push(cur@));
                    assert(before + (seq![cur@] + segments_from(rest.drop_first(), Seq::empty()))
                        =~= before.push(cur@) + segments_from(rest.drop_first(), Seq::empty()));
                }
            } else {
                proof {
                    assert(Seq::<Seq<char>>::empty() + segments_from(rest.drop_first(), Seq::empty())
                        =~= segments_from(rest.drop_first(), Seq::empty()));
                }
            }
            cur = Vec::new();
        } else {
            cur.push(s[i]);
        }
        i = i + 1;
    }
    proof {
        assert(s@.subrange(i as int, s@.len() as int) =~= Seq::<char>::empty());
    }
    if cur.len() > 0 {
        let ghost before = char_vecs(acc@);
        acc.push(cur);
        proof {
            assert(char_vecs(acc@) =~= before + seq![cur@]);
        }
    } else {
        proof {
            assert(char_vecs(acc@) + Seq::<Seq<char>>::empty() =~= char_vecs(acc@));
        }
    }
    acc
}

/// What `PathBuf::push` makes of `buf` and a relative component `comp`:
/// `comp` alone after an empty path, else joined with one slash.
pub open spec fn joined(buf: Seq<char>, comp: Seq<char>) -> Seq<char> {
    if buf.len() == 0 {
        comp
    } else if buf.last() == '/' {
        buf + comp
    } else {
        buf.push('/') + comp
    }
}

/// The path made of the first `k` of `comps`.
pub open spec fn prefix_path(comps: Seq<Seq<char>>, k: int) -> Seq<char>
    decreases k,
{
    if k <= 0 {
        Seq::empty()
    } else {
        joined(prefix_path(comps, k - 1), comps[k - 1])
    }
}

/// Appends `comp` to `buf` as `joined` says.
pub fn push_component(buf: &mut Vec<char>, comp: &Vec<char>)
    ensures
        final(buf)@ == joined(old(buf)@, comp@),
{
    if buf.len() > 0 && buf[buf.len() - 1] != '/' {
        buf.push('/');
    }
    let ghost mid = buf@;
    let mut i: usize = 0;
    while i < comp.len()
        invariant
            i <= comp@.len(),
            buf@ == mid + comp@.subrange(0, i as int),
        decreases comp.len() - i,
    {
        buf.push(comp[i]);
        proof {
            assert(comp@.subrange(0, i + 1) =~= comp@.subrange(0, i as int).push(comp@[i as int]));
        }
        i = i + 1;
    }
    proof {
        assert(comp@.subrange(0, comp@.len() as int) =~= comp@);
        if old(buf)@.len() == 0 {
            assert(mid + comp@ =~= comp@);
        }
    }
}

/// Index of the last `/` of `s`, or -1 where there is none.
pub open spec fn last_slash(s: Seq<char>) -> int
    decreases s.len(),
{
    if s.len() == 0 {
        -1
    } else if s.last() == '/' {
        s.len() - 1
    } else {
        last_slash(s.drop_last())
    }
}

/// What follows the last slash of `s` (all of it where there is none).
pub open spec fn file_name_of(s: Seq<char>) -> Seq<char> {
    s.subrange(last_slash(s) + 1, s.len() as int)
}

/// What precedes the last slash of `s` (nothing where there is none).
pub open spec fn parent_of(s: Seq<char>) -> Seq<char> {
    if last_slash(s) < 0 {
        Seq::empty()
    } else {
        s.subrange(0, last_slash(s))
    }
}

/// The characters of `v` from `lo` up to `hi`.
pub fn slice_chars(v: &Vec<char>, lo: usize, hi: usize) -> (r: Vec<char>)
    requires
        lo <= hi <= v@.len(),
    ensures
        r@ == v@.subrange(lo as int, hi as int),
{
    let mut r: Vec<char> = Vec::new();
    let mut i: usize = lo;
    while i < hi
        invariant
            lo <= i <= hi,
            hi <= v@.len(),
            r@ == v@.subrange(lo as int, i as int),
        decreases hi - i,
    {
        r.push(v[i]);
        proof {
            assert(v@.subrange(lo as int, i + 1) =~= v@.subrange(lo as int, i as int).push(v@[i as int]));
        }
        i = i + 1;
    }
    r
}

/// Takes `s` apart at its last slash: the parent part and the file name.
pub fn split_at_last_slash(s: &Vec<char>) -> (r: (Vec<char>, Vec<char>))
    ensures
        r.0@ == parent_of(s@),
        r.1@ == file_name_of(s@),
{
    let mut k: usize = s.len();
    proof {
        assert(s@.subrange(0, s@.len() as int) =~= s@);
    }
    while k > 0 && s[k - 1] != '/'
        invariant
            k <= s@.len(),
            last_slash(s@) == last_slash(s@.subrange(0, k as int)),
        decreases k,
    {
        proof {
            assert(s@.subrange(0, k as int).drop_last() =~= s@.subrange(0, k - 1));
        }
        k = k - 1;
    }
    proof {
        if k > 0 {
            assert(s@.subrange(0, k as int).last() == s@[k - 1]);
        }
        assert(s@.subrange(0, s@.len() as int) =~= s@);
    }
    let name = slice_chars(s, k, s.len());
    let parent = if k > 0 { slice_chars(s, 0, k - 1) } else { Vec::new() };
    proof {
        if k == 0 {
            assert(parent@ =~= Seq::<char>::empty());
        }
    }
    (parent, name)
}

/// Whether `p` begins with `q`.
pub open spec fn has_prefix(p: Seq<char>, q: Seq<char>) -> bool {
    q.len() <= p.len() && p.subrange(0, q.len() as int) == q
}

/// `p` with a leading `home` (where `home` is not empty) replaced by `~`.
pub open spec fn home_substituted(p: Seq<char>, home: Seq<char>) -> Seq<char> {
    if home.len() > 0 && has_prefix(p, home) {
        seq!['~'] + p.subrange(home.len() as int, p.len() as int)
    } else {
        p
    }
}

/// Whether `p` begins with `q`.
pub fn starts_with(p: &Vec<char>, q: &Vec<char>) -> (r: bool)
    ensures
        r == has_prefix(p@, q@),
{
    if q.len() > p.len() {
        return false;
    }
    let mut i: usize = 0;
    while i < q.len()
        invariant
            q@.len() <= p@.len(),
            i <= q@.len(),
            p@.subrange(0, i as int) == q@.subrange(0, i as int),
        decreases q.len() - i,
    {
        if p[i] != q[i] {
            proof {
                assert(p@.subrange(0, q@.len() as int)[i as int] != q@[i as int]);
            }
            return false;
        }
        proof {
            assert(p@.subrange(0, i + 1) =~= p@.subrange(0, i as int).push(p@[i as int]));
            assert(q@.subrange(0, i + 1) =~= q@.subrange(0, i as int).push(q@[i as int]));
        }
        i = i + 1;
    }
    proof {
        assert(q@.subrange(0, q@.len() as int) =~= q@);
    }
    true
}

/// Replaces a leading home directory of `p` by `~` (see `home_substituted`).
pub fn substitute_home(p: &Vec<char>, home: &Vec<char>) -> (r: Vec<char>)
    ensures
        r@ == home_substituted(p@, home@),
{
    if home.len() > 0 && starts_with(p, home) {
        let rest = slice_chars(p, home.len(), p.len());
        let mut r: Vec<char> = vec!['~'];
        let mut i: usize = 0;
        while i < rest.len()
            invariant
                i <= rest@.len(),
                r@ == seq!['~'] + rest@.subrange(0, i as int),
            decreases rest.len() - i,
        {
            r.push(rest[i]);
            proof {
                assert(rest@.subrange(0, i + 1) =~= rest@.subrange(0, i as int).push(rest@[i as int]));
            }
            i = i + 1;
        }
        proof {
            assert(rest@.subrange(0, rest@.len() as int) =~= rest@);
        }
        r
    } else {
        p.clone()
    }
}

/// Whether `a` is an initial part of `b`.
pub open spec fn is_prefix_of(a: Seq<Seq<char>>, b: Seq<Seq<char>>) -> bool {
    a.len() <= b.len() && b.subrange(0, a.len() as int) == a
}

/// The components of `p` below those of `base`, where `p` lies at or
/// below `base`.
pub open spec fn below(base: Seq<char>, p: Seq<char>) -> Option<Seq<Seq<char>>> {
    if is_prefix_of(components(base), components(p)) {
        Some(components(p).subrange(components(base).len() as int, components(p).len() as int))
    } else {
        None
    }
}

/// The components of `full` after those of `base`, where `base`'s are an
/// initial part of `full`'s.
pub fn strip_components(base: &Vec<Vec<char>>, full: &Vec<Vec<char>>) -> (r: Option<Vec<Vec<char>>>)
    ensures
        r is Some <==> is_prefix_of(char_vecs(base@), char_vecs(full@)),
        r is Some ==> char_vecs(r->0@) == char_vecs(full@).subrange(base@.len() as int, full@.len() as int),
{
    let ghost bv = char_vecs(base@);
    let ghost fv = char_vecs(full@);
    if base.len() > full.len() {
        return None;
    }
    let mut i: usize = 0;
    while i < base.len()
        invariant
            base@.len() <= full@.len(),
            i <= base@.len(),
            bv == char_vecs(base@),
            fv == char_vecs(full@),
            forall|k: int| 0 <= k < i ==> fv[k] == bv[k],
        decreases base.len() - i,
    {
        if !chars_eq(&base[i], &full[i]) {
            proof {
                assert(fv.subrange(0, bv.len() as int)[i as int] != bv[i as int]);
            }
            return None;
        }
        i = i + 1;
    }
    proof {
        assert(fv.subrange(0, bv.len() as int) =~= bv);
    }
    let mut rest: Vec<Vec<char>> = Vec::new();
    let mut k: usize = base.len();
    while k < full.len()
        invariant
            base@.len() <= k <= full@.len(),
            fv == char_vecs(full@),
            char_vecs(rest@) == fv.subrange(base@.len() as int, k as int),
        decreases full.len() - k,
    {
        let ghost before = rest@;
        let piece = slice_chars(&full[k], 0, full[k].len());
        proof {
            assert(full@[k as int]@.subrange(0, full@[k as int]@.len() as int) =~= full@[k as int]@);
            assert(fv[k as int] == full@[k as int]@);
        }
        rest.push(piece);
        proof {
            assert(rest@ == before.push(piece));
            assert(char_vecs(rest@) =~= char_vecs(before).push(piece@));
            assert(fv.subrange(base@.len() as int, k + 1) =~= fv.subrange(base@.len() as int, k as int).push(fv[k as int]));
            assert(char_vecs(rest@) =~= fv.subrange(base@.len() as int, k + 1));
        }
        k = k + 1;
    }
    Some(rest)
}

/// The path that `comps` make, joined as `prefix_path` says.
pub fn join_components(comps: &Vec<Vec<char>>) -> (r: Vec<char>)
    ensures
        r@ == prefix_path(char_vecs(comps@), comps@.len() as int),
{
    let mut buf: Vec<char> = Vec::new();
    let mut j: usize = 0;
    while j < comps.len()
        invariant
            j <= comps@.len(),
            buf@ == prefix_path(char_vecs(comps@), j as int),
        decreases comps.len() - j,
    {
        push_component(&mut buf, &comps[j]);
        j = j + 1;
    }
    buf
}

} // verus!
