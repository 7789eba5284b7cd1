//! Icon pixels and the dark-theme decision: whether a theme counts as dark,
//! and inverting black monochrome icons for it.
use vstd::prelude::*;
use crate::text::chars_of;

verus! {

/// Whether `s` ends with `t`.
pub open spec fn has_suffix(s: Seq<char>, t: Seq<char>) -> bool {
    t.len() <= s.len() && s.subrange(s.len() - t.len(), s.len() as int) == t
}

/// Whether `s` ends with `t`.
pub fn ends_with(s: &Vec<char>, t: &Vec<char>) -> (r: bool)
    ensures
        r == has_suffix(s@, t@),
{
    if t.len() > s.len() {
        return false;
    }
    let base = s.len() - t.len();
    let mut i: usize = 0;
    while i < t.len()
        invariant
            t@.len() <= s@.len(),
            base == s@.len() - t@.len(),
            s@.len() == s.len(),
            i <= t@.len(),
            forall|k: int| 0 <= k < i ==> s@[base + k] == t@[k],
        decreases t.len() - i,
    {
        if s[base + i] != t[i] {
            proof {
                assert(s@.subrange(base as int, s@.len() as int)[i as int] != t@[i as int]);
            }
            return false;
        }
        i = i + 1;
    }
    proof {
        assert(s@.subrange(base as int, s@.len() as int) =~= t@);
    }
    true
}

/// A theme name that marks a dark theme: it ends with `dark` or `Inverse`.
pub open spec fn is_dark_name(name: Seq<char>) -> bool {
    has_suffix(name, seq!['d', 'a', 'r', 'k']) || has_suffix(name, seq!['I', 'n', 'v', 'e', 'r', 's', 'e'])
}

/// Whether theme `theme_name` is dark by its name.
pub fn dark_theme_name(theme_name: &str) -> (r: bool)
    ensures
        r == is_dark_name(theme_name@),
{
    let name = chars_of(theme_name);
    let dark: Vec<char> = vec!['d', 'a', 'r', 'k'];
    let inverse: Vec<char> = vec!['I', 'n', 'v', 'e', 'r', 's', 'e'];
    proof {
        assert(dark@ =~= seq!['d', 'a', 'r', 'k']);
        assert(inverse@ =~= seq!['I', 'n', 'v', 'e', 'r', 's', 'e']);
    }
    ends_with(&name, &dark) || ends_with(&name, &inverse)
}

/// Whether the interface is dark: forced by the user, a dark theme by its
/// name, or the toolkit's own preference.
pub fn is_dark_theme(force_dark: bool, theme_name: &str, prefers_dark: bool) -> (r: bool)
    ensures
        r == (force_dark || is_dark_name(theme_name@) || prefers_dark),
{
    force_dark || dark_theme_name(theme_name) || prefers_dark
}

/// RGBA bytes whose colour bytes are all zero: a black monochrome image.
pub open spec fn is_black_mono(b: Seq<u8>) -> bool {
    forall|i: int| 0 <= i < b.len() && (i + 1) % 4 != 0 ==> b[i] == 0
}

/// Whether the RGBA bytes `bytes` show a black monochrome image.
pub fn is_black_monochrome(bytes: &Vec<u8>) -> (r: bool)
    ensures
        r == is_black_mono(bytes@),
{
    let mut i: usize = 0;
    while i < bytes.len()
        invariant
            i <= bytes@.len(),
            forall|k: int| 0 <= k < i && (k + 1) % 4 != 0 ==> bytes@[k] == 0,
        decreases bytes.len() - i,
    {
        if i % 4 != 3 && bytes[i] != 0 {
            return false;
        }
        i = i + 1;
    }
    true
}

/// RGBA bytes with each colour byte inverted and alpha kept.
pub fn invert_pixels(bytes: &Vec<u8>) -> (r: Vec<u8>)
    ensures
        r@.len() == bytes@.len(),
        forall|i: int| 0 <= i < r@.len() ==> #[trigger] r@[i] == if i % 4 == 3 { bytes@[i] } else { (255 - bytes@[i]) as u8 },
{
    let mut out: Vec<u8> = Vec::new();
    let mut i: usize = 0;
    while i < bytes.len()
        invariant
            i <= bytes@.len(),
            out@.len() == i,
            forall|k: int| 0 <= k < i ==> #[trigger] out@[k] == if k % 4 == 3 { bytes@[k] } else { (255 - bytes@[k]) as u8 },
        decreases bytes.len() - i,
    {
        let v = if i % 4 == 3 { bytes[i] } else { 255 - bytes[i] };
        out.push(v);
        i = i + 1;
    }
    out
}

/// Whether an icon with RGBA bytes `bytes` is inverted: a black monochrome
/// icon on a dark interface, forced or by the theme's name.
pub fn should_invert(force_dark: bool, theme_name: &str, bytes: &Vec<u8>) -> (r: bool)
    ensures
        r == ((force_dark || is_dark_name(theme_name@)) && is_black_mono(bytes@)),
{
    (force_dark || dark_theme_name(theme_name)) && is_black_monochrome(bytes)
}

} // verus!
