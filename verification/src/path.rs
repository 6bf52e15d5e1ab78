//! Paths as text. Components are separated by `/`; a path that starts with `/`
//! is absolute, any other is relative.

use vstd::prelude::*;

verus! {

/// The path of the entry `name` inside the directory `dir`.
pub open spec fn join(dir: Seq<char>, name: Seq<char>) -> Seq<char> {
    dir.push('/') + name
}

/// Builds the path of the entry `name` inside the directory `dir`.
pub fn join_path(dir: &str, name: &str) -> (path: String)
    ensures
        path@ == join(dir@, name@),
{
    let mut path = String::from_str(dir);
    proof {
        reveal_strlit("/");
    }
    path.append("/");
    path.append(name);
    assert(path@ =~= join(dir@, name@));
    path
}

/// Joining keeps apart what is apart: in one directory, different names give
/// different paths.
pub proof fn lemma_join_injective(dir: Seq<char>, a: Seq<char>, b: Seq<char>)
    requires
        join(dir, a) == join(dir, b),
    ensures
        a == b,
{
    let n = dir.len() + 1;
    assert(join(dir, a).subrange(n as int, join(dir, a).len() as int) =~= a);
    assert(join(dir, b).subrange(n as int, join(dir, b).len() as int) =~= b);
}

/// Whether `path` is relative.
pub open spec fn is_relative(path: Seq<char>) -> bool {
    path.len() == 0 || path[0] != '/'
}

/// The length of `path` once the separators at its end are dropped.
pub open spec fn trimmed_len(path: Seq<char>) -> nat
    decreases path.len(),
{
    if path.len() == 0 || path.last() != '/' {
        path.len()
    } else {
        trimmed_len(path.drop_last())
    }
}

/// `path` without the separators at its end.
pub open spec fn trimmed(path: Seq<char>) -> Seq<char> {
    path.take(trimmed_len(path) as int)
}

/// Where the final component of `path` starts: behind its last separator, or
/// at the front if it has none.
pub open spec fn leaf_start(path: Seq<char>) -> nat
    decreases path.len(),
{
    if path.len() == 0 || path.last() == '/' {
        path.len()
    } else {
        leaf_start(path.drop_last())
    }
}

/// The final component of `path`, separators at the end of `path` set aside.
pub open spec fn leaf(path: Seq<char>) -> Seq<char> {
    let t = trimmed(path);
    t.skip(leaf_start(t) as int)
}

/// What comes before the final component of `path`, without the separators
/// that part it from the final component. Empty where the final component is
/// all there is.
pub open spec fn branch(path: Seq<char>) -> Seq<char> {
    let t = trimmed(path);
    trimmed(t.take(leaf_start(t) as int))
}

/// Neither cut is longer than the path.
pub proof fn lemma_cuts_within(path: Seq<char>)
    ensures
        trimmed_len(path) <= path.len(),
        leaf_start(path) <= path.len(),
    decreases path.len(),
{
    if path.len() > 0 {
        lemma_cuts_within(path.drop_last());
    }
}

/// What comes before a final component that is not empty is shorter than
/// the path.
pub proof fn lemma_branch_is_shorter(path: Seq<char>)
    requires
        leaf(path).len() > 0,
    ensures
        branch(path).len() < trimmed(path).len(),
{
    let t = trimmed(path);
    lemma_cuts_within(path);
    lemma_cuts_within(t);
    lemma_cuts_within(t.take(leaf_start(t) as int));
}

/// Behind a separator, text without separators is one component.
pub proof fn lemma_leaf_start_append(front: Seq<char>, name: Seq<char>)
    requires
        front.len() > 0,
        front.last() == '/',
        forall|i: int| 0 <= i < name.len() ==> name[i] != '/',
    ensures
        leaf_start(front + name) == front.len(),
    decreases name.len(),
{
    if name.len() == 0 {
        assert(front + name =~= front);
    } else {
        assert((front + name).drop_last() =~= front + name.drop_last());
        assert((front + name).last() == name.last());
        lemma_leaf_start_append(front, name.drop_last());
    }
}

/// The final component of the path of an entry is the name of the entry,
/// for a name that is not empty and holds no separator.
pub proof fn lemma_leaf_of_join(dir: Seq<char>, name: Seq<char>)
    requires
        name.len() > 0,
        forall|i: int| 0 <= i < name.len() ==> name[i] != '/',
    ensures
        trimmed(join(dir, name)) == join(dir, name),
        leaf(join(dir, name)) == name,
{
    let path = join(dir, name);
    assert(path.last() == name.last());
    assert(path.take(path.len() as int) =~= path);
    lemma_leaf_start_append(dir.push('/'), name);
    assert(path.skip(dir.len() as int + 1) =~= name);
}

/// Whether `name` can be the name of a new directory: it is not empty and is
/// neither of the two names that every directory already holds.
pub open spec fn is_proper_name(name: Seq<char>) -> bool {
    name.len() > 0 && name != seq!['.'] && name != seq!['.', '.']
}

/// Tells whether `path` is relative.
pub fn relative(path: &str) -> (r: bool)
    ensures
        r == is_relative(path@),
{
    let n = path.unicode_len();
    n == 0 || path.get_char(0) != '/'
}

/// Measures `path` without the separators at its end.
pub fn trim_end(path: &str) -> (len: usize)
    ensures
        len == trimmed_len(path@),
        len <= path@.len(),
{
    let mut len = path.unicode_len();
    proof {
        assert(path@.take(len as int) =~= path@);
    }
    while len > 0 && path.get_char(len - 1) == '/'
        invariant
            len <= path@.len(),
            trimmed_len(path@) == trimmed_len(path@.take(len as int)),
        decreases len,
    {
        proof {
            assert(path@.take(len as int).drop_last() =~= path@.take(len - 1));
        }
        len = len - 1;
    }
    len
}

/// Finds where the final component of the first `len` characters of `path`
/// starts.
pub fn find_leaf(path: &str, len: usize) -> (start: usize)
    requires
        len <= path@.len(),
    ensures
        start == leaf_start(path@.take(len as int)),
        start <= len,
{
    let mut start = len;
    while start > 0 && path.get_char(start - 1) != '/'
        invariant
            start <= len <= path@.len(),
            leaf_start(path@.take(len as int)) == leaf_start(path@.take(start as int)),
        decreases start,
    {
        proof {
            assert(path@.take(start as int).drop_last() =~= path@.take(start - 1));
        }
        start = start - 1;
    }
    start
}

/// `path` with the component `name` added at its end.
pub open spec fn push_component(path: Seq<char>, name: Seq<char>) -> Seq<char> {
    if path.len() == 0 || path.last() == '/' {
        path + name
    } else {
        join(path, name)
    }
}

/// `path` with `name` in the place of its final component; where `path` has
/// no final component that names a directory, `name` is added instead.
pub open spec fn with_leaf(path: Seq<char>, name: Seq<char>) -> Seq<char> {
    let t = trimmed(path);
    if is_proper_name(leaf(path)) {
        t.take(leaf_start(t) as int) + name
    } else {
        push_component(path, name)
    }
}

/// Tells whether `name` can be the name of a new directory.
pub fn proper_name(name: &str) -> (r: bool)
    ensures
        r == is_proper_name(name@),
{
    let n = name.unicode_len();
    if n == 0 {
        false
    } else if n == 1 {
        let dot = name.get_char(0) == '.';
        assert(dot <==> name@ =~= seq!['.']);
        !dot
    } else if n == 2 {
        let dots = name.get_char(0) == '.' && name.get_char(1) == '.';
        assert(dots <==> name@ =~= seq!['.', '.']);
        !dots
    } else {
        true
    }
}

/// Takes `path` apart: its text without the separators at the end, what
/// comes before the final component, and the final component.
pub fn split(path: &str) -> (parts: (&str, &str, &str))
    ensures
        parts.0@ == trimmed(path@),
        parts.1@ == branch(path@),
        parts.2@ == leaf(path@),
{
    let len = trim_end(path);
    let stem = path.substring_char(0, len);
    assert(stem@ =~= trimmed(path@));
    let start = find_leaf(path, len);
    let leaf = path.substring_char(start, len);
    assert(leaf@ =~= self::leaf(path@));
    let front = path.substring_char(0, start);
    assert(front@ =~= stem@.take(start as int));
    let cut = trim_end(front);
    let branch = front.substring_char(0, cut);
    assert(branch@ =~= self::branch(path@));
    (stem, branch, leaf)
}

/// Adds the component `name` at the end of `path`.
pub fn push_path(path: &str, name: &str) -> (longer: String)
    ensures
        longer@ == push_component(path@, name@),
{
    let n = path.unicode_len();
    if n == 0 || path.get_char(n - 1) == '/' {
        let mut longer = String::from_str(path);
        longer.append(name);
        longer
    } else {
        join_path(path, name)
    }
}

/// Puts `name` in the place of the final component of `path`.
pub fn replace_leaf(path: &str, name: &str) -> (changed: String)
    ensures
        changed@ == with_leaf(path@, name@),
{
    let len = trim_end(path);
    let start = find_leaf(path, len);
    let leaf = path.substring_char(start, len);
    assert(leaf@ =~= self::leaf(path@));
    if proper_name(leaf) {
        let front = path.substring_char(0, start);
        assert(front@ =~= trimmed(path@).take(start as int));
        let mut changed = String::from_str(front);
        changed.append(name);
        changed
    } else {
        push_path(path, name)
    }
}

} // verus!
