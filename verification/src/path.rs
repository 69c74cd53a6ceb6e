//! Paths of notes: texts whose components are separated by `/`, relative to
//! the notes directory.

use crate::text::copy_range;
use vstd::prelude::*;

verus! {

/// The index just after the last `c` in `s`, or zero where `s` holds none.
pub open spec fn after_last(s: Seq<char>, c: char) -> nat
    decreases s.len(),
{
    if s.len() == 0 {
        0
    } else if s.last() == c {
        s.len()
    } else {
        after_last(s.drop_last(), c)
    }
}

pub proof fn lemma_after_last(s: Seq<char>, c: char)
    ensures
        after_last(s, c) <= s.len(),
        after_last(s, c) > 0 ==> s[after_last(s, c) - 1] == c,
        forall|i: int| after_last(s, c) <= i < s.len() ==> #[trigger] s[i] != c,
    decreases s.len(),
{
    if s.len() > 0 && s.last() != c {
        let head = s.drop_last();
        lemma_after_last(head, c);
        assert forall|i: int| after_last(s, c) <= i < s.len() implies #[trigger] s[i] != c by {
            if i < head.len() {
                assert(s[i] == head[i]);
            }
        }
        if after_last(s, c) > 0 {
            assert(s[after_last(s, c) - 1] == head[after_last(head, c) - 1]);
        }
    }
}

/// The index just after the last `c` in `v`, or zero.
pub fn find_after_last(v: &Vec<char>, c: char) -> (r: usize)
    ensures
        r == after_last(v@, c),
        r <= v.len(),
{
    let mut i: usize = v.len();
    assert(v@.take(i as int) =~= v@);
    while i > 0 && v[i - 1] != c
        invariant
            i <= v.len(),
            after_last(v@, c) == after_last(v@.take(i as int), c),
        decreases i,
    {
        assert(v@.take(i as int).drop_last() =~= v@.take(i - 1));
        i -= 1;
    }
    proof {
        lemma_after_last(v@, c);
        if i > 0 {
            assert(v@.take(i as int).last() == c);
        }
    }
    i
}

/// The last component of a path: what follows its last `/`.
pub open spec fn file_name(path: Seq<char>) -> Seq<char> {
    path.skip(after_last(path, '/') as int)
}

/// Whether a file name splits into stem and extension: it holds a `.` that
/// is not its first character, and is not `..`.
pub open spec fn has_extension(name: Seq<char>) -> bool {
    after_last(name, '.') > 1 && name != seq!['.', '.']
}

/// The file name without its extension; `None` for an empty name and for
/// `..`.
pub open spec fn file_stem(path: Seq<char>) -> Option<Seq<char>> {
    let name = file_name(path);
    if name.len() == 0 || name == seq!['.', '.'] {
        None
    } else if has_extension(name) {
        Some(name.take(after_last(name, '.') - 1))
    } else {
        Some(name)
    }
}

/// What follows the last `.` of the file name, where it has an extension.
pub open spec fn extension(path: Seq<char>) -> Option<Seq<char>> {
    let name = file_name(path);
    if has_extension(name) {
        Some(name.skip(after_last(name, '.') as int))
    } else {
        None
    }
}

fn is_dot_dot(name: &Vec<char>) -> (r: bool)
    ensures
        r == (name@ == seq!['.', '.']),
{
    if name.len() == 2 && name[0] == '.' && name[1] == '.' {
        assert(name@ =~= seq!['.', '.']);
        true
    } else {
        false
    }
}

/// The last component of `path`.
pub fn name_of(path: &Vec<char>) -> (r: Vec<char>)
    ensures
        r@ == file_name(path@),
{
    let start = find_after_last(path, '/');
    let r = copy_range(path, start, path.len());
    assert(r@ =~= path@.skip(start as int));
    r
}

/// The file name of `path` without its extension.
pub fn stem_of(path: &Vec<char>) -> (r: Option<Vec<char>>)
    ensures
        match r {
            Some(stem) => file_stem(path@) == Some(stem@),
            None => file_stem(path@) is None,
        },
{
    let name = name_of(path);
    if name.len() == 0 || is_dot_dot(&name) {
        return None;
    }
    let dot = find_after_last(&name, '.');
    if dot > 1 {
        let stem = copy_range(&name, 0, dot - 1);
        assert(stem@ =~= name@.take(dot - 1));
        Some(stem)
    } else {
        Some(name)
    }
}

/// The extension of the file name of `path`.
pub fn extension_of(path: &Vec<char>) -> (r: Option<Vec<char>>)
    ensures
        match r {
            Some(ext) => extension(path@) == Some(ext@),
            None => extension(path@) is None,
        },
{
    let name = name_of(path);
    if is_dot_dot(&name) {
        return None;
    }
    let dot = find_after_last(&name, '.');
    if dot > 1 {
        let ext = copy_range(&name, dot, name.len());
        assert(ext@ =~= name@.skip(dot as int));
        Some(ext)
    } else {
        None
    }
}

/// Whether a component of `path` begins with `.`: such paths are hidden.
pub open spec fn is_hidden(path: Seq<char>) -> bool {
    exists|i: int|
        0 <= i < path.len() && #[trigger] path[i] == '.' && (i == 0 || path[i - 1] == '/')
}

/// Whether a component of `path` begins with `.`.
pub fn hidden(path: &Vec<char>) -> (r: bool)
    ensures
        r == is_hidden(path@),
{
    let mut i: usize = 0;
    while i < path.len()
        invariant
            i <= path.len(),
            forall|k: int|
                0 <= k < i ==> !(#[trigger] path@[k] == '.' && (k == 0 || path@[k - 1] == '/')),
        decreases path.len() - i,
    {
        if path[i] == '.' && (i == 0 || path[i - 1] == '/') {
            return true;
        }
        i += 1;
    }
    false
}

} // verus!
