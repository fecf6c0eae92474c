//! Paths as plain strings with `/` between their components.

use crate::text::starts_with;
use vstd::prelude::*;
use vstd::string::*;

verus! {

/// Whether a `/` has to be put behind `dir` before a name is appended: not
/// behind the empty path, nor behind one that already ends in `/`.
pub open spec fn wants_separator(dir: Seq<char>) -> bool {
    dir.len() > 0 && dir.last() != '/'
}

/// `dir` as the beginning of the paths below it: with a `/` at its end
/// where it wants one.
pub open spec fn as_directory(dir: Seq<char>) -> Seq<char> {
    if wants_separator(dir) {
        dir + seq!['/']
    } else {
        dir
    }
}

/// The path of the entry `name` inside the directory `dir`.
pub open spec fn joined(dir: Seq<char>, name: Seq<char>) -> Seq<char> {
    as_directory(dir) + name
}

/// Whether `path` is `dir` itself or lies somewhere below it, component by
/// component: `/s/sub/x` lies within `/s/sub`, and `/s/sub2` does not.
pub open spec fn within(path: Seq<char>, dir: Seq<char>) -> bool {
    path == dir || as_directory(dir).is_prefix_of(path)
}

/// A name that a directory listing can hold: not empty, and without `/`.
pub open spec fn is_name(name: Seq<char>) -> bool {
    name.len() > 0 && !name.contains('/')
}

/// A prefix of a prefix is a prefix.
pub proof fn prefix_of_prefix(a: Seq<char>, b: Seq<char>, c: Seq<char>)
    requires
        a.is_prefix_of(b),
        b.is_prefix_of(c),
    ensures
        a.is_prefix_of(c),
{
    assert(a =~= c.subrange(0, a.len() as int)) by {
        assert(a =~= b.subrange(0, a.len() as int));
        assert(b =~= c.subrange(0, b.len() as int));
    }
}

/// An entry of a directory lies within the directory.
pub proof fn entry_within(dir: Seq<char>, name: Seq<char>)
    ensures
        within(joined(dir, name), dir),
{
    let head = as_directory(dir);
    assert(head =~= joined(dir, name).subrange(0, head.len() as int));
}

/// What lies within a path that lies within `dir` lies within `dir`.
pub proof fn within_within(path: Seq<char>, inner: Seq<char>, dir: Seq<char>)
    requires
        within(path, inner),
        within(inner, dir),
    ensures
        within(path, dir),
{
    if path != inner && inner != dir {
        let head = as_directory(dir);
        let longer = as_directory(inner);
        assert(inner.is_prefix_of(longer)) by {
            assert(inner =~= longer.subrange(0, inner.len() as int));
        }
        prefix_of_prefix(head, inner, longer);
        prefix_of_prefix(head, longer, path);
    }
}

/// What lies within `dir` begins with `dir`.
pub proof fn within_begins(path: Seq<char>, dir: Seq<char>)
    requires
        within(path, dir),
    ensures
        dir.is_prefix_of(path),
{
    let head = as_directory(dir);
    assert(dir =~= head.subrange(0, dir.len() as int));
    if path != dir {
        prefix_of_prefix(dir, head, path);
    } else {
        assert(dir =~= path.subrange(0, dir.len() as int));
    }
}

/// `dir` with a `/` at its end where it wants one.
fn with_separator(dir: &str) -> (head: String)
    ensures
        head@ == as_directory(dir@),
{
    let len = dir.unicode_len();
    let head = String::from_str(dir);
    if len > 0 && dir.get_char(len - 1) != '/' {
        proof {
            reveal_strlit("/");
            assert("/"@ =~= seq!['/']);
        }
        head.concat("/")
    } else {
        head
    }
}

/// The path of the entry `name` inside the directory `dir`.
pub fn join(dir: &str, name: &str) -> (path: String)
    ensures
        path@ == joined(dir@, name@),
{
    with_separator(dir).concat(name)
}

/// Whether `path` is `dir` itself or lies somewhere below it.
pub fn lies_within(path: &str, dir: &str) -> (inside: bool)
    ensures
        inside == within(path@, dir@),
{
    let head = with_separator(dir);
    if starts_with(path, head.as_str()) {
        return true;
    }
    String::from_str(path) == String::from_str(dir)
}

} // verus!
