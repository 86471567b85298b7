//! Paths are held as strings with `/` as the separator; these functions follow the
//! Unix behaviour of the standard library's `Path` operations of the same name.

use vstd::prelude::*;
use crate::text::{chars_of, last_index_of, lemma_last_index_of};

verus! {

broadcast use vstd::string::group_string_axioms;

/// `base` joined with `p`: an absolute `p` replaces `base`; otherwise a separator is
/// put between them unless `base` is empty or already ends with one.
pub open spec fn spec_join(base: Seq<char>, p: Seq<char>) -> Seq<char> {
    if p.len() > 0 && p[0] == '/' {
        p
    } else if base.len() > 0 && base.last() != '/' {
        base + seq!['/'] + p
    } else {
        base + p
    }
}

/// Joins `p` onto `base`.
pub fn join(base: &str, p: &str) -> (r: String)
    ensures
        r@ == spec_join(base@, p@),
{
    let plen = p.unicode_len();
    if plen > 0 && p.get_char(0) == '/' {
        return p.to_owned();
    }
    let blen = base.unicode_len();
    let mut r = base.to_owned();
    if blen > 0 && base.get_char(blen - 1) != '/' {
        r.append("/");
        proof { reveal_strlit("/"); }
    }
    r.append(p);
    r
}

/// The final component of a path: trailing separators and `.` components are
/// skipped; a final `..`, or no component at all, gives `None`.
pub open spec fn spec_file_name(p: Seq<char>) -> Option<Seq<char>>
    decreases p.len(),
{
    if p.len() == 0 {
        None
    } else if p.last() == '/' {
        spec_file_name(p.drop_last())
    } else {
        let i = last_index_of(p, '/');
        let seg = p.subrange(i + 1, p.len() as int);
        if seg == seq!['.'] {
            proof {
                lemma_last_index_of(p, '/');
            }
            spec_file_name(p.subrange(0, i + 1))
        } else if seg == seq!['.', '.'] {
            None
        } else {
            Some(seg)
        }
    }
}

/// The file name without its extension: the part before the last `.`, unless the
/// name has no `.` other than a leading one, in which case the whole name.
pub open spec fn spec_file_stem(p: Seq<char>) -> Option<Seq<char>> {
    match spec_file_name(p) {
        None => None,
        Some(n) => {
            let d = last_index_of(n, '.');
            if d <= 0 {
                Some(n)
            } else {
                Some(n.subrange(0, d))
            }
        },
    }
}

/// The extension of the file name: the part after the last `.`, if that `.` is
/// not the name's first character.
pub open spec fn spec_extension(p: Seq<char>) -> Option<Seq<char>> {
    match spec_file_name(p) {
        None => None,
        Some(n) => {
            let d = last_index_of(n, '.');
            if d <= 0 {
                None
            } else {
                Some(n.subrange(d + 1, n.len() as int))
            }
        },
    }
}

/// The last index `i < end` with `v[i] == c`, or -1.
fn last_index_before(v: &Vec<char>, end: usize, c: char) -> (r: Option<usize>)
    requires
        end <= v.len(),
    ensures
        match r {
            None => last_index_of(v@.subrange(0, end as int), c) == -1,
            Some(i) => last_index_of(v@.subrange(0, end as int), c) == i,
        },
{
    let mut k: usize = end;
    while k > 0
        invariant
            k <= end <= v.len(),
            last_index_of(v@.subrange(0, end as int), c) == last_index_of(
                v@.subrange(0, k as int),
                c,
            ),
        decreases k,
    {
        if v[k - 1] == c {
            return Some(k - 1);
        }
        assert(v@.subrange(0, k as int).drop_last() =~= v@.subrange(0, k - 1));
        k = k - 1;
    }
    None
}

/// The start of the final name in `v[..end]` and its end, when there is one.
fn file_name_range(v: &Vec<char>) -> (r: Option<(usize, usize)>)
    ensures
        match r {
            None => spec_file_name(v@) is None,
            Some((a, b)) => a <= b <= v.len() && spec_file_name(v@) == Some(
                v@.subrange(a as int, b as int),
            ),
        },
{
    let mut end: usize = v.len();
    assert(v@.subrange(0, end as int) =~= v@);
    loop
        invariant
            end <= v.len(),
            spec_file_name(v@) == spec_file_name(v@.subrange(0, end as int)),
        decreases end,
    {
        if end == 0 {
            return None;
        }
        let ghost s = v@.subrange(0, end as int);
        if v[end - 1] == '/' {
            assert(s.drop_last() =~= v@.subrange(0, end - 1));
            end = end - 1;
        } else {
            let i = last_index_before(v, end, '/');
            proof {
                lemma_last_index_of(s, '/');
            }
            let start: usize = match i {
                None => 0,
                Some(j) => j + 1,
            };
            assert(s.subrange(start as int, s.len() as int) =~= v@.subrange(
                start as int,
                end as int,
            ));
            if end - start == 1 && v[start] == '.' {
                assert(v@.subrange(start as int, end as int) =~= seq!['.']);
                assert(s.subrange(0, start as int) =~= v@.subrange(0, start as int));
                end = start;
            } else if end - start == 2 && v[start] == '.' && v[start + 1] == '.' {
                assert(v@.subrange(start as int, end as int) =~= seq!['.', '.']);
                return None;
            } else {
                assert(v@.subrange(start as int, end as int) != seq!['.']) by {
                    if end - start == 1 {
                        assert(v@.subrange(start as int, end as int)[0] != '.');
                    }
                }
                assert(v@.subrange(start as int, end as int) != seq!['.', '.']) by {
                    if end - start == 2 {
                        assert(v@.subrange(start as int, end as int)[0] != '.'
                            || v@.subrange(start as int, end as int)[1] != '.');
                    }
                }
                return Some((start, end));
            }
        }
    }
}

/// The final component of `p`, as `Path::file_name` gives it.
pub fn file_name(p: &str) -> (r: Option<String>)
    ensures
        match r {
            None => spec_file_name(p@) is None,
            Some(n) => spec_file_name(p@) == Some(n@),
        },
{
    let v = chars_of(p);
    match file_name_range(&v) {
        None => None,
        Some((a, b)) => Some(p.substring_char(a, b).to_owned()),
    }
}

/// Splits a file name at its last `.`: the index of that `.` in `n`, or
/// `None` when the name has no `.` after its first character.
fn extension_dot(n: &str) -> (r: Option<usize>)
    ensures
        match r {
            None => last_index_of(n@, '.') <= 0,
            Some(d) => d > 0 && d == last_index_of(n@, '.'),
        },
{
    let v = chars_of(n);
    let mut k: usize = v.len();
    assert(v@.subrange(0, k as int) =~= n@);
    while k > 0
        invariant
            k <= v.len(),
            v@ == n@,
            last_index_of(n@, '.') == last_index_of(v@.subrange(0, k as int), '.'),
        decreases k,
    {
        if v[k - 1] == '.' {
            if k - 1 == 0 {
                return None;
            }
            return Some(k - 1);
        }
        assert(v@.subrange(0, k as int).drop_last() =~= v@.subrange(0, k - 1));
        k = k - 1;
    }
    None
}

/// The file stem of `p`, as `Path::file_stem` gives it.
pub fn file_stem(p: &str) -> (r: Option<String>)
    ensures
        match r {
            None => spec_file_stem(p@) is None,
            Some(n) => spec_file_stem(p@) == Some(n@),
        },
{
    match file_name(p) {
        None => None,
        Some(n) => match extension_dot(n.as_str()) {
            None => Some(n),
            Some(d) => {
                proof {
                    lemma_last_index_of(n@, '.');
                }
                Some(n.as_str().substring_char(0, d).to_owned())
            },
        },
    }
}

/// The extension of `p`, as `Path::extension` gives it.
pub fn extension(p: &str) -> (r: Option<String>)
    ensures
        match r {
            None => spec_extension(p@) is None,
            Some(n) => spec_extension(p@) == Some(n@),
        },
{
    match file_name(p) {
        None => None,
        Some(n) => match extension_dot(n.as_str()) {
            None => None,
            Some(d) => {
                proof {
                    lemma_last_index_of(n@, '.');
                }
                let len = n.as_str().unicode_len();
                Some(n.as_str().substring_char(d + 1, len).to_owned())
            },
        },
    }
}

/// What `Path::with_file_name` gives for a path and a new file name.
pub uninterp spec fn path_with_file_name(p: Seq<char>, name: Seq<char>) -> Seq<char>;

/// `Path::new(p).with_file_name(name)`: the path with its final component replaced by
/// `name` (or `name` pushed when there is none). The result is only named here.
#[verifier::external_body]
pub(crate) fn with_file_name(p: &str, name: &str) -> (r: String)
    ensures
        r@ == path_with_file_name(p@, name@),
{
    std::path::Path::new(p).with_file_name(name).to_str().unwrap().to_string()
}

/// What `Path::strip_prefix` gives: `None` where `base` is not a prefix of `p`
/// component by component, else the rest of `p`.
pub uninterp spec fn path_strip_prefix(p: Seq<char>, base: Seq<char>) -> Option<Seq<char>>;

/// `Path::new(p).strip_prefix(base)`, with the result turned back into a string.
/// The result is only named here.
#[verifier::external_body]
pub(crate) fn strip_prefix(p: &str, base: &str) -> (r: Option<String>)
    ensures
        match r {
            None => path_strip_prefix(p@, base@) is None,
            Some(s) => path_strip_prefix(p@, base@) == Some(s@),
        },
{
    std::path::Path::new(p).strip_prefix(base).ok().map(|q| q.to_str().unwrap().to_string())
}

/// What `Path::parent` gives: the path without its final component, or `None`
/// for a path that ends in a root or is empty.
pub uninterp spec fn path_parent(p: Seq<char>) -> Option<Seq<char>>;

/// `Path::new(p).parent()`, turned back into a string. The result is only named here.
#[verifier::external_body]
pub(crate) fn parent(p: &str) -> (r: Option<String>)
    ensures
        match r {
            None => path_parent(p@) is None,
            Some(s) => path_parent(p@) == Some(s@),
        },
{
    std::path::Path::new(p).parent().map(|q| q.to_str().unwrap().to_string())
}

/// Whether `Path` equality (component by component) holds between two paths.
pub uninterp spec fn paths_equal(a: Seq<char>, b: Seq<char>) -> bool;

/// `Path::new(a) == Path::new(b)`. Equal strings are equal paths; beyond that the
/// result is only named here.
#[verifier::external_body]
pub(crate) fn path_eq(a: &str, b: &str) -> (r: bool)
    ensures
        r == paths_equal(a@, b@),
        a@ == b@ ==> r,
{
    std::path::Path::new(a) == std::path::Path::new(b)
}

/// Joining an absolute path replaces what it is joined onto.
pub proof fn lemma_join_absolute(base: Seq<char>, p: Seq<char>)
    requires
        p.len() > 0,
        p[0] == '/',
    ensures
        spec_join(base, p) == p,
{
}

/// Joining onto an empty path gives the path joined.
pub proof fn lemma_join_onto_empty(p: Seq<char>)
    ensures
        spec_join(Seq::empty(), p) == p,
{
    assert(Seq::<char>::empty() + p =~= p);
}

/// A file name with an extension is its stem, a dot, and the extension.
pub proof fn lemma_stem_dot_extension(p: Seq<char>)
    requires
        spec_extension(p) is Some,
    ensures
        spec_file_name(p) == Some(spec_file_stem(p).unwrap() + seq!['.'] + spec_extension(p).unwrap()),
{
    let n = spec_file_name(p).unwrap();
    let d = last_index_of(n, '.');
    lemma_last_index_of(n, '.');
    assert(n.subrange(0, d) + seq!['.'] + n.subrange(d + 1, n.len() as int) =~= n);
}

} // verus!
