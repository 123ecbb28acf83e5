//! File paths as text: joining a relative name onto a directory, and the parts
//! of a path that `std::path::Path` reports (extension, stem, parent, the rest
//! under a base).

use vstd::prelude::*;
use crate::text::{
    chars_of, last_index_of, lemma_last_index_bounds, push_char, push_str, split_chars, split_spec, string_from_chars,
    sub_chars,
};

verus! {

/// The view of an optional owned string.
pub open spec fn opt_string(o: Option<String>) -> Option<Seq<char>> {
    match o {
        Some(s) => Some(s@),
        None => None,
    }
}

/// `dir` joined with `name`, as `PathBuf::push` does it: the name alone when it
/// is absolute or `dir` is empty, else `dir`, a `/` unless `dir` ends with one,
/// and the name.
pub open spec fn join_spec(dir: Seq<char>, name: Seq<char>) -> Seq<char> {
    if dir.len() == 0 || (name.len() > 0 && name[0] == '/') {
        name
    } else if dir.last() == '/' {
        dir + name
    } else {
        dir + seq!['/'] + name
    }
}

/// Joins `name` onto `dir`.
pub fn join_path(dir: &str, name: &str) -> (r: String)
    ensures
        r@ == join_spec(dir@, name@),
{
    let d = chars_of(dir);
    let nv = chars_of(name);
    if nv.len() > 0 && nv[0] == '/' {
        return name.to_owned();
    }
    let mut out = String::new();
    push_str(&mut out, dir);
    if d.len() > 0 && d[d.len() - 1] != '/' {
        push_char(&mut out, '/');
    }
    assert(d@.len() > 0 ==> d@.last() == d@[d@.len() - 1]);
    push_str(&mut out, name);
    out
}

/// Whether a piece of a path between separators is a component that can name a
/// file: not empty (repeated and trailing separators are ignored) and not `.`
/// (which is normalized away after the start).
pub open spec fn names_component(part: Seq<char>) -> bool {
    part.len() > 0 && part != seq!['.']
}

/// The last piece of a list that names a component.
pub open spec fn last_named(parts: Seq<Seq<char>>) -> Option<Seq<char>>
    decreases parts.len(),
{
    if parts.len() == 0 {
        None
    } else if names_component(parts.last()) {
        Some(parts.last())
    } else {
        last_named(parts.drop_last())
    }
}

/// What `Path::file_name` gives (on Unix): the last component when it is a
/// normal one; none when the path ends in `..` or has no component but the root
/// or `.`.
pub open spec fn file_name_of(path: Seq<char>) -> Option<Seq<char>> {
    match last_named(split_spec(path, '/')) {
        Some(n) => if n == seq!['.', '.'] {
            None
        } else {
            Some(n)
        },
        None => None,
    }
}

/// What `Path::extension` gives for a path, as text: none without a file name,
/// without a `.` in it, or when its only `.` leads; otherwise what follows the
/// last `.`.
pub open spec fn path_extension_of(path: Seq<char>) -> Option<Seq<char>> {
    match file_name_of(path) {
        Some(n) => {
            let k = last_index_of(n, '.');
            if k <= 0 {
                None
            } else {
                Some(n.skip(k + 1))
            }
        },
        None => None,
    }
}

/// What `Path::file_stem` gives for a path, as text: none without a file name;
/// the whole name without a `.` in it or when its only `.` leads; otherwise what
/// comes before the last `.`.
pub open spec fn path_file_stem_of(path: Seq<char>) -> Option<Seq<char>> {
    match file_name_of(path) {
        Some(n) => {
            let k = last_index_of(n, '.');
            if k <= 0 {
                Some(n)
            } else {
                Some(n.take(k))
            }
        },
        None => None,
    }
}

/// The file name of a path (see `file_name_of`).
fn file_name_chars(path: &str) -> (r: Option<Vec<char>>)
    ensures
        match file_name_of(path@) {
            Some(n) => r is Some && r->0@ == n,
            None => r is None,
        },
{
    let v = chars_of(path);
    let parts = split_chars(v.as_slice(), '/');
    let ghost all = split_spec(path@, '/');
    let mut i: usize = parts.len();
    assert(all.take(i as int) =~= all);
    while i > 0
        invariant
            i <= parts@.len(),
            parts@.len() == all.len(),
            all == split_spec(path@, '/'),
            forall|j: int| 0 <= j < parts@.len() ==> #[trigger] parts@[j]@ == all[j],
            last_named(all) == last_named(all.take(i as int)),
        decreases i,
    {
        let part = &parts[i - 1];
        let ghost pv = all[i - 1];
        assert(part@ == pv);
        assert(all.take(i as int).drop_last() =~= all.take(i - 1));
        assert(all.take(i as int).last() == pv);
        let dot = part.len() == 1 && part[0] == '.';
        assert(dot == (pv == seq!['.'])) by {
            if pv.len() == 1 && pv[0] == '.' {
                assert(pv =~= seq!['.']);
            }
        }
        if part.len() > 0 && !dot {
            let dotdot = part.len() == 2 && part[0] == '.' && part[1] == '.';
            assert(dotdot == (pv == seq!['.', '.'])) by {
                if pv.len() == 2 && pv[0] == '.' && pv[1] == '.' {
                    assert(pv =~= seq!['.', '.']);
                }
            }
            if dotdot {
                return None;
            }
            let n = sub_chars(part.as_slice(), 0, part.len());
            assert(n@ =~= pv);
            return Some(n);
        }
        i -= 1;
    }
    None
}

/// The position of the last `.` in a name, or -1 (see `last_index_of`).
fn last_dot(n: &[char]) -> (k: Option<usize>)
    ensures
        match k {
            Some(j) => j < n@.len() && last_index_of(n@, '.') == j,
            None => last_index_of(n@, '.') == -1,
        },
{
    proof {
        lemma_last_index_bounds(n@, '.');
    }
    let mut i: usize = n.len();
    while i > 0 && n[i - 1] != '.'
        invariant
            i <= n@.len(),
            forall|j: int| i <= j < n@.len() ==> n@[j] != '.',
            -1 <= last_index_of(n@, '.') < n@.len(),
            last_index_of(n@, '.') >= 0 ==> n@[last_index_of(n@, '.')] == '.',
            forall|j: int| last_index_of(n@, '.') < j < n@.len() ==> n@[j] != '.',
        decreases i,
    {
        i -= 1;
    }
    if i > 0 {
        Some(i - 1)
    } else {
        None
    }
}

/// `Path::new(path).extension()`, as text (see `path_extension_of`).
pub(crate) fn path_extension(path: &str) -> (r: Option<String>)
    ensures
        opt_string(r) == path_extension_of(path@),
{
    match file_name_chars(path) {
        None => None,
        Some(n) => match last_dot(n.as_slice()) {
            Some(k) => if k == 0 {
                None
            } else {
                let len = n.len();
                assert(k < len);
                let e = sub_chars(n.as_slice(), k + 1, len);
                assert(e@ =~= n@.skip(k + 1));
                Some(string_from_chars(e.as_slice()))
            },
            None => None,
        },
    }
}

/// `Path::new(path).file_stem()`, as text (see `path_file_stem_of`).
pub(crate) fn path_file_stem(path: &str) -> (r: Option<String>)
    ensures
        opt_string(r) == path_file_stem_of(path@),
{
    match file_name_chars(path) {
        None => None,
        Some(n) => match last_dot(n.as_slice()) {
            Some(k) => if k == 0 {
                Some(string_from_chars(n.as_slice()))
            } else {
                let e = sub_chars(n.as_slice(), 0, k);
                assert(e@ =~= n@.take(k as int));
                Some(string_from_chars(e.as_slice()))
            },
            None => Some(string_from_chars(n.as_slice())),
        },
    }
}

/// What `Path::parent` gives for a path, as text.
pub uninterp spec fn path_parent_of(path: Seq<char>) -> Option<Seq<char>>;

/// `Path::new(path).parent()`, as text: the path without its last component
/// (none for a root or an empty path).
#[verifier::external_body]
pub(crate) fn path_parent(path: &str) -> (r: Option<String>)
    ensures
        opt_string(r) == path_parent_of(path@),
{
    std::path::Path::new(path).parent().map(|p| p.to_string_lossy().into_owned())
}

/// What `Path::strip_prefix` leaves of a path under a base, as text.
pub uninterp spec fn path_strip_prefix_of(path: Seq<char>, base: Seq<char>) -> Option<Seq<char>>;

/// `Path::new(path).strip_prefix(base)`, as text: the rest of the path when the
/// base is a leading run of its components.
#[verifier::external_body]
pub(crate) fn path_strip_prefix(path: &str, base: &str) -> (r: Option<String>)
    ensures
        opt_string(r) == path_strip_prefix_of(path@, base@),
{
    std::path::Path::new(path).strip_prefix(base).ok().map(|p| p.to_string_lossy().into_owned())
}

} // verus!
