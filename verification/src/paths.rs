//! File paths as text.
use crate::text::join;
use vstd::prelude::*;

verus! {

/// The path of a file with a given name in a directory.
pub open spec fn in_dir(dir: Seq<char>, name: Seq<char>) -> Seq<char> {
    if dir.len() == 0 || dir.last() == '/' {
        dir + name
    } else {
        dir + "/"@ + name
    }
}

/// Puts together a directory and the name of a file in it.
pub fn path_in(dir: &str, name: &str) -> (path: String)
    ensures
        path@ == in_dir(dir@, name@),
{
    let length = dir.unicode_len();
    if length == 0 || dir.get_char(length - 1) == '/' {
        join(dir, name)
    } else {
        let start = join(dir, "/");
        join(start.as_str(), name)
    }
}

/// The last part of a path: what follows its last slash, or all of it where nothing does.
pub open spec fn last_part(path: Seq<char>) -> Seq<char> {
    let part = after_last_slash(path);
    if part.len() == 0 {
        path
    } else {
        part
    }
}

/// What follows the last slash in a path, or all of it where there is none.
pub open spec fn after_last_slash(path: Seq<char>) -> Seq<char>
    decreases path.len(),
{
    if path.len() == 0 || path.last() == '/' {
        Seq::empty()
    } else {
        after_last_slash(path.drop_last()).push(path.last())
    }
}

proof fn lemma_after_last_slash(path: Seq<char>, start: int)
    requires
        0 <= start <= path.len(),
        forall|i: int| start <= i < path.len() ==> path[i] != '/',
        start > 0 ==> path[start - 1] == '/',
    ensures
        after_last_slash(path) == path.skip(start),
    decreases path.len(),
{
    if start < path.len() {
        let rest = path.drop_last();
        lemma_after_last_slash(rest, start);
        assert(rest.skip(start).push(path.last()) =~= path.skip(start));
    } else {
        assert(path.skip(start) =~= Seq::<char>::empty());
    }
}

/// Takes the last part of a path.
pub fn last_part_of(path: &str) -> (part: String)
    ensures
        part@ == last_part(path@),
{
    let length = path.unicode_len();
    let mut start: usize = length;
    while start > 0 && path.get_char(start - 1) != '/'
        invariant
            length == path@.len(),
            start <= length,
            forall|i: int| start <= i < length ==> path@[i] != '/',
        ensures
            start > 0 ==> path@[start - 1] == '/',
        decreases start,
    {
        start -= 1;
    }
    proof {
        lemma_after_last_slash(path@, start as int);
    }
    if start == length {
        return String::from_str(path);
    }
    let part = String::from_str(path.substring_char(start, length));
    assert(part@ =~= path@.skip(start as int));
    part
}

} // verus!
