//! Pure path-string logic: final components, extensions, stems, the
//! high-density naming convention, extension replacement and prefix
//! stripping. Paths are plain strings; `/` separates components.

use vstd::prelude::*;
use vstd::string::StrSliceExecFns;
use vstd::string::StringExecFns;

verus! {

/// Index of the last occurrence of `c` in `s`, or `-1` if `c` does not occur.
pub open spec fn last_index_of(s: Seq<char>, c: char) -> int
    decreases s.len(),
{
    if s.len() == 0 {
        -1
    } else if s.last() == c {
        s.len() - 1
    } else {
        last_index_of(s.drop_last(), c)
    }
}

proof fn lemma_last_index_at(s: Seq<char>, c: char, k: int)
    requires
        0 <= k < s.len(),
        s[k] == c,
        forall|j: int| k < j < s.len() ==> s[j] != c,
    ensures
        last_index_of(s, c) == k,
    decreases s.len(),
{
    if k == s.len() - 1 {
    } else {
        assert(s.last() != c);
        assert(s.drop_last()[k] == c);
        lemma_last_index_at(s.drop_last(), c, k);
    }
}

proof fn lemma_last_index_none(s: Seq<char>, c: char)
    requires
        forall|j: int| 0 <= j < s.len() ==> s[j] != c,
    ensures
        last_index_of(s, c) == -1,
    decreases s.len(),
{
    if s.len() > 0 {
        lemma_last_index_none(s.drop_last(), c);
    }
}

/// Index of the last occurrence of `c` among the characters of `s`, if any.
pub fn rfind_char(s: &str, c: char) -> (r: Option<usize>)
    ensures
        match r {
            Some(k) => k == last_index_of(s@, c),
            None => last_index_of(s@, c) == -1,
        },
{
    let n = s.unicode_len();
    let mut i: usize = n;
    while i > 0
        invariant
            i <= n,
            n == s@.len(),
            forall|j: int| i <= j < s@.len() ==> s@[j] != c,
        decreases i,
    {
        let ch = s.get_char(i - 1);
        if ch == c {
            proof {
                lemma_last_index_at(s@, c, i - 1);
            }
            return Some(i - 1);
        }
        i = i - 1;
    }
    proof {
        lemma_last_index_none(s@, c);
    }
    None
}

/// The final path component of `p`: everything after the last `/`, or all of
/// `p` when it has no `/`.
pub open spec fn file_name_of(p: Seq<char>) -> Seq<char> {
    p.subrange(last_index_of(p, '/') + 1, p.len() as int)
}

/// The extension of the final component of `p`: the characters after its last
/// `.`, provided that dot is neither absent nor the component's first
/// character (so dotfiles have no extension).
pub open spec fn extension_of(p: Seq<char>) -> Option<Seq<char>> {
    let name = file_name_of(p);
    let d = last_index_of(name, '.');
    if d <= 0 {
        None
    } else {
        Some(name.subrange(d + 1, name.len() as int))
    }
}

/// The stem of the final component of `p`: the component with its extension
/// (and the dot before it) removed.
pub open spec fn file_stem_of(p: Seq<char>) -> Seq<char> {
    let name = file_name_of(p);
    let d = last_index_of(name, '.');
    if d <= 0 {
        name
    } else {
        name.subrange(0, d)
    }
}

proof fn lemma_last_index_bounds(s: Seq<char>, c: char)
    ensures
        -1 <= last_index_of(s, c) < s.len(),
    decreases s.len(),
{
    if s.len() > 0 && s.last() != c {
        lemma_last_index_bounds(s.drop_last(), c);
    }
}

/// The final path component of `p`.
pub fn file_name(p: &str) -> (r: String)
    ensures
        r@ == file_name_of(p@),
{
    let n = p.unicode_len();
    proof {
        lemma_last_index_bounds(p@, '/');
    }
    let start: usize = match rfind_char(p, '/') {
        Some(k) => k + 1,
        None => 0,
    };
    let name = p.substring_char(start, n);
    String::from_str(name)
}

/// The extension of the final component of `p`, if it has one.
pub fn extension(p: &str) -> (r: Option<String>)
    ensures
        match r {
            Some(e) => extension_of(p@) == Some(e@),
            None => extension_of(p@) is None,
        },
{
    let name = file_name(p);
    let name_str = name.as_str();
    let n = name_str.unicode_len();
    match rfind_char(name_str, '.') {
        Some(d) => {
            if d == 0 {
                None
            } else {
                proof {
                    lemma_last_index_bounds(name@, '.');
                }
                let e = name_str.substring_char(d + 1, n);
                Some(String::from_str(e))
            }
        },
        None => None,
    }
}

/// The stem of the final component of `p`.
pub fn file_stem(p: &str) -> (r: String)
    ensures
        r@ == file_stem_of(p@),
{
    let name = file_name(p);
    let name_str = name.as_str();
    let n = name_str.unicode_len();
    proof {
        lemma_last_index_bounds(name_str@, '.');
    }
    match rfind_char(name_str, '.') {
        Some(d) => {
            if d == 0 {
                String::from_str(name_str)
            } else {
                let s = name_str.substring_char(0, d);
                String::from_str(s)
            }
        },
        None => String::from_str(name_str),
    }
}

/// Whether the file stem of `p` follows the high-density naming convention:
/// it ends in `@2x`.
pub open spec fn is_high_density_name(p: Seq<char>) -> bool {
    let stem = file_stem_of(p);
    stem.len() >= 3 && stem.subrange(stem.len() - 3, stem.len() as int) == "@2x"@
}

/// Whether `p` names a high-density ("retina") asset, by the `@2x` stem
/// convention.
pub fn is_high_density(p: &str) -> (r: bool)
    ensures
        r == is_high_density_name(p@),
{
    let stem = file_stem(p);
    let stem_str = stem.as_str();
    let n = stem_str.unicode_len();
    proof {
        reveal_strlit("@2x");
    }
    if n < 3 {
        return false;
    }
    let tail = stem_str.substring_char(n - 3, n);
    let expected: &str = "@2x";
    let te = String::from_str(tail);
    let ee = String::from_str(expected);
    let eq = te.eq(&ee);
    proof {
        if eq {
            assert(stem@.subrange(stem@.len() - 3, stem@.len() as int) == "@2x"@);
        }
    }
    eq
}

/// `p` with the extension of its final component replaced by `ext`: the old
/// extension and its dot are removed, then a dot and `ext` are appended.
pub open spec fn with_extension_of(p: Seq<char>, ext: Seq<char>) -> Seq<char> {
    let name = file_name_of(p);
    let d = last_index_of(name, '.');
    let base = if d <= 0 {
        p
    } else {
        p.subrange(0, p.len() - (name.len() - d))
    };
    base + seq!['.'] + ext
}

/// Replaces the extension of the final component of `p` by `ext`.
pub fn with_extension(p: &str, ext: &str) -> (r: String)
    ensures
        r@ == with_extension_of(p@, ext@),
{
    let name = file_name(p);
    let name_str = name.as_str();
    let name_len = name_str.unicode_len();
    let n = p.unicode_len();
    proof {
        lemma_last_index_bounds(name_str@, '.');
        lemma_last_index_bounds(p@, '/');
    }
    let cut: usize = match rfind_char(name_str, '.') {
        Some(d) => {
            if d == 0 {
                n
            } else {
                n - (name_len - d)
            }
        },
        None => n,
    };
    let base = p.substring_char(0, cut);
    let mut r = String::from_str(base);
    r.append(".");
    r.append(ext);
    proof {
        reveal_strlit(".");
        assert(("."@) =~= seq!['.']);
        assert(r@ =~= with_extension_of(p@, ext@));
    }
    r
}

/// Strips the directory prefix `prefix` from `path`: the result is the
/// remainder after `prefix` and one separating `/` (or the empty string when
/// `path == prefix`), and `None` when `path` does not lie under `prefix`.
pub open spec fn strip_prefix_of(path: Seq<char>, prefix: Seq<char>) -> Option<Seq<char>> {
    if path == prefix {
        Some(Seq::empty())
    } else if path.len() > prefix.len() && path.subrange(0, prefix.len() as int) == prefix
        && path[prefix.len() as int] == '/' {
        Some(path.subrange(prefix.len() as int + 1, path.len() as int))
    } else {
        None
    }
}

/// Strips the directory prefix `prefix` from `path`.
pub fn strip_path_prefix(path: &str, prefix: &str) -> (r: Option<String>)
    ensures
        match r {
            Some(s) => strip_prefix_of(path@, prefix@) == Some(s@),
            None => strip_prefix_of(path@, prefix@) is None,
        },
{
    let n = path.unicode_len();
    let m = prefix.unicode_len();
    if n < m {
        proof {
            assert(path@ != prefix@);
        }
        return None;
    }
    let head = path.substring_char(0, m);
    let he = String::from_str(head);
    let pe = String::from_str(prefix);
    if !he.eq(&pe) {
        proof {
            assert(path@.subrange(0, m as int) != prefix@);
            if path@ == prefix@ {
                assert(path@.subrange(0, m as int) =~= prefix@);
            }
        }
        return None;
    }
    if n == m {
        proof {
            assert(path@ =~= prefix@);
        }
        return Some(String::new());
    }
    let sep = path.get_char(m);
    if sep == '/' {
        let rest = path.substring_char(m + 1, n);
        proof {
            assert(path@ != prefix@);
        }
        Some(String::from_str(rest))
    } else {
        proof {
            assert(path@ != prefix@);
        }
        None
    }
}

} // verus!
