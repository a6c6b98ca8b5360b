//! Paths as text. A path is a string whose components are separated by `/`;
//! this module states what joining, extensions and prefixes mean for such a
//! string, and computes them.

use vstd::prelude::*;
use vstd::string::*;
use crate::text::{
    chars_of, last_position, lemma_last_position_is, matches_at, merge, merge_three,
};

verus! {

/// `rel` placed under `base`: an absolute `rel` stands for itself, an empty
/// `base` adds nothing, and one separator stands between the two.
pub open spec fn joined(base: Seq<char>, rel: Seq<char>) -> Seq<char> {
    if rel.len() > 0 && rel[0] == '/' {
        rel
    } else if base.len() == 0 {
        rel
    } else if base.last() == '/' {
        base + rel
    } else {
        base + seq!['/'] + rel
    }
}

/// Where the last component of `p` begins.
pub open spec fn file_name_start(p: Seq<char>) -> int {
    last_position(p, '/') + 1
}

/// The last component of `p`: what follows its last separator.
pub open spec fn file_name(p: Seq<char>) -> Seq<char> {
    p.skip(file_name_start(p))
}

/// Whether `p` ends in a component that names a file: one that is neither
/// empty nor `..`.
pub open spec fn names_file(p: Seq<char>) -> bool {
    file_name(p).len() > 0 && file_name(p) != seq!['.', '.']
}

/// The position in `p` of the dot that begins the extension of its file
/// name, or -1 where the file name has no extension. A dot at the start of
/// the file name begins no extension.
pub open spec fn extension_dot(p: Seq<char>) -> int {
    let dot = last_position(file_name(p), '.');
    if !names_file(p) || dot <= 0 {
        -1
    } else {
        file_name_start(p) + dot
    }
}

/// The extension of the file name of `p`, without its dot.
pub open spec fn extension(p: Seq<char>) -> Option<Seq<char>> {
    if extension_dot(p) >= 0 {
        Some(p.skip(extension_dot(p) + 1))
    } else {
        None
    }
}

/// `p` with the extension of its file name replaced by `ext`, or with `ext`
/// added where it has none. A path that names no file stays as it is, and an
/// empty `ext` only removes.
pub open spec fn with_extension(p: Seq<char>, ext: Seq<char>) -> Seq<char> {
    if !names_file(p) {
        p
    } else {
        let stem = if extension_dot(p) >= 0 {
            p.take(extension_dot(p))
        } else {
            p
        };
        if ext.len() == 0 {
            stem
        } else {
            stem + seq!['.'] + ext
        }
    }
}

/// `p` as seen from the directory `root`: the rest of `p` where its first
/// components are those of `root`, and nothing where they are not.
pub open spec fn relative_to(p: Seq<char>, root: Seq<char>) -> Option<Seq<char>> {
    if root.len() == 0 {
        Some(p)
    } else if p == root {
        Some(Seq::<char>::empty())
    } else if !root.is_prefix_of(p) {
        None
    } else if root.last() == '/' {
        Some(p.skip(root.len() as int))
    } else if p[root.len() as int] == '/' {
        Some(p.skip(root.len() as int + 1))
    } else {
        None
    }
}

/// Whether `p` is `root` or lies under it.
pub open spec fn is_under(p: Seq<char>, root: Seq<char>) -> bool {
    relative_to(p, root) is Some
}

/// The position of the last `c` at or behind `start`, counted from `start`.
fn find_last_from(v: &Vec<char>, start: usize, c: char) -> (r: Option<usize>)
    requires
        start <= v.len(),
    ensures
        match r {
            Some(at) => last_position(v@.skip(start as int), c) == at && start + at < v.len(),
            None => last_position(v@.skip(start as int), c) == -1,
        },
{
    let ghost tail = v@.skip(start as int);
    let mut i: usize = v.len();
    while i > start
        invariant
            start <= i <= v.len(),
            tail == v@.skip(start as int),
            forall|j: int| i - start <= j < tail.len() ==> tail[j] != c,
        decreases i,
    {
        i -= 1;
        if v[i] == c {
            proof {
                lemma_last_position_is(tail, c, i - start);
            }
            return Some(i - start);
        }
    }
    proof {
        lemma_last_position_is(tail, c, -1);
    }
    None
}

/// Where the file name begins.
fn find_name_start(v: &Vec<char>) -> (start: usize)
    ensures
        start == file_name_start(v@),
        start <= v.len(),
{
    assert(v@.skip(0) =~= v@);
    match find_last_from(v, 0, '/') {
        Some(at) => at + 1,
        None => 0,
    }
}

/// Whether the component that begins at `start` names a file.
fn has_file_name(v: &Vec<char>, start: usize) -> (r: bool)
    requires
        start == file_name_start(v@),
        start <= v.len(),
    ensures
        r == names_file(v@),
{
    let ghost name = file_name(v@);
    if start == v.len() {
        return false;
    }
    if v.len() - start == 2 && v[start] == '.' && v[start + 1] == '.' {
        assert(name =~= seq!['.', '.']);
        return false;
    }
    assert(name != seq!['.', '.']) by {
        if name.len() == 2 {
            assert(name[0] == v@[start as int] && name[1] == v@[start + 1]);
            assert(seq!['.', '.'][0] == '.' && seq!['.', '.'][1] == '.');
        }
    }
    true
}

/// The position of the extension's dot, as `extension_dot` states it.
fn find_extension_dot(v: &Vec<char>) -> (r: Option<usize>)
    ensures
        match r {
            Some(at) => extension_dot(v@) == at && at < v.len(),
            None => extension_dot(v@) == -1,
        },
{
    let start = find_name_start(v);
    if !has_file_name(v, start) {
        return None;
    }
    match find_last_from(v, start, '.') {
        Some(dot) => {
            if dot == 0 {
                None
            } else {
                Some(start + dot)
            }
        },
        None => None,
    }
}

/// Places `rel` under `base`.
pub fn join(base: &str, rel: &str) -> (r: String)
    ensures
        r@ == joined(base@, rel@),
{
    let b = chars_of(base);
    let p = chars_of(rel);
    if p.len() > 0 && p[0] == '/' {
        String::from_str(rel)
    } else if b.len() == 0 {
        String::from_str(rel)
    } else if b[b.len() - 1] == '/' {
        merge(base, rel)
    } else {
        proof {
            reveal_strlit("/");
            assert("/"@ =~= seq!['/']);
        }
        merge_three(base, "/", rel)
    }
}

/// The extension of the file that `path` names, without its dot.
pub fn file_ext(path: &str) -> (r: Option<String>)
    ensures
        match r {
            Some(ext) => extension(path@) == Some(ext@),
            None => extension(path@) is None,
        },
{
    let v = chars_of(path);
    match find_extension_dot(&v) {
        Some(dot) => {
            let ext = path.substring_char(dot + 1, v.len());
            assert(path@.subrange(dot + 1, v.len() as int) =~= path@.skip(dot + 1));
            Some(String::from_str(ext))
        },
        None => None,
    }
}

/// Replaces the extension of the file that `path` names by `ext`.
pub fn replace_extension(path: &str, ext: &str) -> (r: String)
    ensures
        r@ == with_extension(path@, ext@),
{
    let v = chars_of(path);
    let e = chars_of(ext);
    let start = find_name_start(&v);
    if !has_file_name(&v, start) {
        return String::from_str(path);
    }
    let stem_end: usize = match find_extension_dot(&v) {
        Some(dot) => dot,
        None => v.len(),
    };
    let stem = path.substring_char(0, stem_end);
    assert(path@.subrange(0, stem_end as int) =~= path@.take(stem_end as int));
    assert(path@.take(path@.len() as int) =~= path@);
    if e.len() == 0 {
        String::from_str(stem)
    } else {
        proof {
            reveal_strlit(".");
            assert("."@ =~= seq!['.']);
        }
        merge_three(stem, ".", ext)
    }
}

/// `path` as seen from the directory `root`.
pub fn strip_root(path: &str, root: &str) -> (r: Option<String>)
    ensures
        match r {
            Some(rest) => relative_to(path@, root@) == Some(rest@),
            None => relative_to(path@, root@) is None,
        },
{
    let p = chars_of(path);
    let b = chars_of(root);
    if b.len() == 0 {
        return Some(String::from_str(path));
    }
    if !matches_at(&p, &b, 0) {
        assert(path@ != root@) by {
            if path@ == root@ {
                assert(root@.subrange(0, root@.len() as int) =~= root@);
            }
        }
        return None;
    }
    if p.len() == b.len() {
        assert(path@.subrange(0, root@.len() as int) =~= path@);
        return Some(String::new());
    }
    assert(path@ != root@);
    let from: usize = if b[b.len() - 1] == '/' {
        b.len()
    } else if p[b.len()] == '/' {
        b.len() + 1
    } else {
        return None;
    };
    let rest = path.substring_char(from, p.len());
    assert(path@.subrange(from as int, p.len() as int) =~= path@.skip(from as int));
    Some(String::from_str(rest))
}

/// Whether `path` is `root` or lies under it.
pub fn lies_under(path: &str, root: &str) -> (r: bool)
    ensures
        r == is_under(path@, root@),
{
    strip_root(path, root).is_some()
}

} // verus!
