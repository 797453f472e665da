//! Lexical operations on Unix paths.
//!
//! A path is a text; its components are the parts between the slashes. Nothing here looks at the
//! file system.

use vstd::prelude::*;
use vstd::slice::slice_subrange;
use vstd::string::*;

use crate::text::{chars_of, len_before, lemma_len_before, split, split_text, text_of, views};

verus! {

/// The path starts at the root.
pub open spec fn is_absolute(path: Seq<char>) -> bool {
    path.len() > 0 && path[0] == '/'
}

/// The second path, taken relative to the first. An absolute path stays as it is.
pub open spec fn joined(base: Seq<char>, path: Seq<char>) -> Seq<char> {
    if is_absolute(path) {
        path
    } else if base.len() == 0 || base.last() == '/' {
        base + path
    } else {
        base + seq!['/'] + path
    }
}

/// One of the components of the path is `..`.
pub open spec fn has_parent_component(path: Seq<char>) -> bool {
    split(path, '/').contains(seq!['.', '.'])
}

/// The path begins with the component `.`.
pub open spec fn starts_at_current(path: Seq<char>) -> bool {
    path.len() > 0 && path[0] == '.' && (path.len() == 1 || path[1] == '/')
}

/// How many leading characters stand for the root or for a leading `.` component.
pub open spec fn base_len(path: Seq<char>) -> int {
    if is_absolute(path) || starts_at_current(path) {
        1
    } else {
        0
    }
}

/// Where the last component starts, looking no further back than `base`.
pub open spec fn last_component_start(path: Seq<char>, base: int) -> int
    decreases path.len(),
{
    if path.len() == 0 || path.len() <= base || path.last() == '/' {
        path.len() as int
    } else {
        last_component_start(path.drop_last(), base)
    }
}

/// The component names no file: it is empty or `.`.
pub open spec fn is_neutral(component: Seq<char>) -> bool {
    component.len() == 0 || component == seq!['.']
}

/// The path without its last component and the slash before it, looking no further back than
/// `base`.
pub open spec fn without_last(path: Seq<char>, base: int) -> Seq<char> {
    let start = last_component_start(path, base);
    if start > base {
        path.take(start - 1)
    } else {
        path.take(base)
    }
}

/// The path without its trailing neutral components.
pub open spec fn stripped(path: Seq<char>, base: int) -> Seq<char>
    decreases path.len(),
{
    if path.len() > base >= 0 && is_neutral(path.skip(last_component_start(path, base))) {
        proof {
            lemma_last_component_start(path, base);
        }
        stripped(without_last(path, base), base)
    } else {
        path
    }
}

/// The path without its final component, or `None` where it has none.
pub open spec fn parent_of(path: Seq<char>) -> Option<Seq<char>> {
    let base = base_len(path);
    let full = stripped(path, base);
    if full.len() > base {
        Some(stripped(without_last(full, base), base))
    } else if starts_at_current(path) {
        Some(Seq::empty())
    } else {
        None
    }
}

pub proof fn lemma_last_component_start(path: Seq<char>, base: int)
    requires
        0 <= base <= path.len(),
    ensures
        base <= last_component_start(path, base) <= path.len(),
        last_component_start(path, base) > base ==> path[last_component_start(path, base) - 1]
            == '/',
        forall|i: int|
            last_component_start(path, base) <= i < path.len() ==> #[trigger] path[i] != '/',
    decreases path.len(),
{
    if path.len() > base && path.last() != '/' {
        lemma_last_component_start(path.drop_last(), base);
        assert forall|i: int|
            last_component_start(path, base) <= i < path.len() implies #[trigger] path[i]
            != '/' by {
            if i < path.len() - 1 {
                assert(path.drop_last()[i] == path[i]);
            }
        }
    }
}

/// Whether the path starts at the root.
pub fn absolute(path: &str) -> (result: bool)
    ensures
        result == is_absolute(path@),
{
    let chars = chars_of(path);
    chars.len() > 0 && chars[0] == '/'
}

/// The second path, taken relative to the first.
pub fn join(base: &str, path: &str) -> (out: String)
    ensures
        out@ == joined(base@, path@),
{
    if absolute(path) {
        return path.to_owned();
    }
    let chars = chars_of(base);
    let mut out = base.to_owned();
    if chars.len() > 0 && chars[chars.len() - 1] != '/' {
        out.push('/');
        assert(out@ =~= base@ + seq!['/']);
    }
    out.append(path);
    out
}

/// Whether one of the components of the path is `..`.
pub fn contains_parent_component(path: &str) -> (found: bool)
    ensures
        found == has_parent_component(path@),
{
    let parts = split_text(path, '/');
    let mut i: usize = 0;
    while i < parts.len()
        invariant
            i <= parts@.len(),
            views(parts@) == split(path@, '/'),
            forall|j: int| 0 <= j < i ==> #[trigger] views(parts@)[j] != seq!['.', '.'],
        decreases parts@.len() - i,
    {
        let part = chars_of(parts[i].as_str());
        if part.len() == 2 && part[0] == '.' && part[1] == '.' {
            assert(views(parts@)[i as int] =~= seq!['.', '.']);
            return true;
        }
        assert(views(parts@)[i as int] != seq!['.', '.']);
        i += 1;
    }
    false
}

/// Where the last component of the first `end` characters starts.
fn component_start(chars: &Vec<char>, base: usize, end: usize) -> (start: usize)
    requires
        base <= end <= chars@.len(),
    ensures
        base <= start <= end,
        start == last_component_start(chars@.take(end as int), base as int),
{
    let mut start: usize = end;
    while start > base && chars[start - 1] != '/'
        invariant
            base <= start <= end <= chars@.len(),
            last_component_start(chars@.take(start as int), base as int) == last_component_start(
                chars@.take(end as int),
                base as int,
            ),
        decreases start,
    {
        assert(chars@.take(start as int).drop_last() =~= chars@.take(start - 1));
        start -= 1;
    }
    start
}

/// How many of the first `end` characters stay when the trailing neutral components go.
fn strip_len(chars: &Vec<char>, base: usize, end: usize) -> (len: usize)
    requires
        base <= end <= chars@.len(),
    ensures
        base <= len <= end,
        chars@.take(len as int) == stripped(chars@.take(end as int), base as int),
{
    let mut len: usize = end;
    while len > base
        invariant
            base <= len <= end <= chars@.len(),
            stripped(chars@.take(len as int), base as int) == stripped(
                chars@.take(end as int),
                base as int,
            ),
        decreases len,
    {
        let start: usize = component_start(chars, base, len);
        let ghost path = chars@.take(len as int);
        let ghost component = path.skip(start as int);
        if start < len && !(start + 1 == len && chars[start] == '.') {
            assert(component.len() > 0);
            assert(component != seq!['.']) by {
                if component.len() == 1 {
                    assert(component[0] == chars@[start as int]);
                }
            }
            return len;
        }
        assert(is_neutral(component)) by {
            if start < len {
                assert(component =~= seq!['.']);
            }
        }
        let next: usize = if start > base {
            start - 1
        } else {
            base
        };
        assert(without_last(path, base as int) =~= chars@.take(next as int));
        len = next;
    }
    len
}

/// The path without its final component, or `None` where it has none.
pub fn parent(path: &str) -> (out: Option<String>)
    ensures
        parent_of(path@) == (match out {
            Some(parent) => Some(parent@),
            None => None,
        }),
{
    let chars = chars_of(path);
    let rooted = chars.len() > 0 && chars[0] == '/';
    let current = chars.len() > 0 && chars[0] == '.' && (chars.len() == 1 || chars[1] == '/');
    let base: usize = if rooted || current {
        1
    } else {
        0
    };
    assert(chars@.take(chars@.len() as int) =~= chars@);
    let full: usize = strip_len(&chars, base, chars.len());
    if full > base {
        let start: usize = component_start(&chars, base, full);
        let end: usize = if start > base {
            start - 1
        } else {
            base
        };
        assert(without_last(chars@.take(full as int), base as int) =~= chars@.take(end as int));
        let len: usize = strip_len(&chars, base, end);
        let out = text_of(slice_subrange(chars.as_slice(), 0, len));
        assert(out@ =~= chars@.take(len as int));
        Some(out)
    } else if current {
        let out = String::new();
        assert(out@ =~= Seq::<char>::empty());
        Some(out)
    } else {
        None
    }
}

/// Joining puts exactly one slash between a directory and a relative path, and leaves an absolute
/// path alone.
pub proof fn paths_are_joined_by_one_slash(base: Seq<char>, path: Seq<char>)
    ensures
        path.len() > 0 && path[0] == '/' ==> joined(base, path) == path,
        !(path.len() > 0 && path[0] == '/') ==> joined(base, path) == (if base.len() > 0
            && base[base.len() - 1] != '/' {
            base.push('/') + path
        } else {
            base + path
        }),
{
    assert(base + seq!['/'] + path =~= base.push('/') + path);
}

/// The component `..` stands in the path at the given position.
pub open spec fn parent_stands_at(path: Seq<char>, at: int) -> bool {
    &&& 0 <= at
    &&& at + 2 <= path.len()
    &&& path[at] == '.'
    &&& path[at + 1] == '.'
    &&& at == 0 || path[at - 1] == '/'
    &&& at + 2 == path.len() || path[at + 2] == '/'
}

/// A path goes up exactly if two dots stand somewhere in it between slashes or its ends.
pub proof fn parent_components_stand_between_slashes(path: Seq<char>)
    ensures
        has_parent_component(path) <==> exists|at: int| #[trigger] parent_stands_at(path, at),
    decreases path.len(),
{
    lemma_len_before(path, '/');
    let n = len_before(path, '/');
    let parts = split(path, '/');
    let up = seq!['.', '.'];
    if n >= path.len() {
        if parts.contains(up) {
            assert(parts[0] == path);
            assert(parent_stands_at(path, 0));
        }
        if exists|at: int| #[trigger] parent_stands_at(path, at) {
            let at = choose|at: int| #[trigger] parent_stands_at(path, at);
            assert(path =~= up);
            assert(parts[0] == up);
        }
    } else {
        let first = path.take(n);
        let rest = path.skip(n + 1);
        let others = split(rest, '/');
        parent_components_stand_between_slashes(rest);
        if parts.contains(up) {
            let k = choose|k: int| 0 <= k < parts.len() && parts[k] == up;
            if k == 0 {
                assert(first == up);
                assert(path[0] == first[0] && path[1] == first[1]);
                assert(parent_stands_at(path, 0));
            } else {
                assert(others[k - 1] == up);
                let at = choose|at: int| #[trigger] parent_stands_at(rest, at);
                assert(path[n + 1 + at] == rest[at]);
                assert(path[n + 2 + at] == rest[at + 1]);
                assert(parent_stands_at(path, n + 1 + at));
            }
        }
        if exists|at: int| #[trigger] parent_stands_at(path, at) {
            let at = choose|at: int| #[trigger] parent_stands_at(path, at);
            if at == 0 {
                assert(n == 2);
                assert(first =~= up);
                assert(parts[0] == up);
            } else {
                assert(n <= at - 1);
                assert(parent_stands_at(rest, at - n - 1));
                let k = choose|k: int| 0 <= k < others.len() && others[k] == up;
                assert(parts[k + 1] == up);
            }
        }
    }
}

/// The directory that a file lies in is the parent of its path.
pub proof fn the_parent_of_a_file_is_its_directory(directory: Seq<char>, name: Seq<char>)
    requires
        directory.len() > 0,
        directory.last() != '/',
        !(directory.last() == '.' && (directory.len() == 1 || directory[directory.len() - 2]
            == '/')),
        name.len() > 0,
        !name.contains('/'),
        name != seq!['.'],
    ensures
        parent_of(directory.push('/') + name) == Some(directory),
{
    let path = directory.push('/') + name;
    let base = base_len(path);
    let start = (directory.len() + 1) as int;
    assert(path[0] == directory[0]);
    assert(path[directory.len() as int] == '/');
    if directory.len() == 1 && starts_at_current(path) {
        assert(directory.last() == '.');
    }
    assert(directory.len() > base);
    lemma_last_component_start(path, base);
    let found = last_component_start(path, base);
    if found < start {
        assert(path[start - 1] != '/');
    }
    if found > start {
        assert(path[found - 1] == name[found - 1 - start]);
        assert(name.contains(name[found - 1 - start]));
    }
    assert(path.skip(start) =~= name);
    assert(stripped(path, base) == path);
    assert(without_last(path, base) =~= directory);
    lemma_last_component_start(directory, base);
    let at = last_component_start(directory, base);
    let component = directory.skip(at);
    lemma_last_component_start(directory.drop_last(), base);
    assert(at == last_component_start(directory.drop_last(), base));
    assert(component.len() > 0);
    if component =~= seq!['.'] {
        assert(component[0] == '.');
        assert(at == directory.len() - 1);
        if at > base {
            assert(directory[at - 1] == '/');
        } else {
            assert(base == 0 || base == 1);
            if base == 1 && directory[0] == '.' {
                assert(path[1] == directory[1]);
            }
        }
    }
    assert(stripped(directory, base) == directory);
}

/// A slash at the end of a path, or a dot behind one, does not change its parent.
pub proof fn slashes_at_the_end_do_not_count(path: Seq<char>)
    requires
        path.len() > 0,
    ensures
        parent_of(path.push('/')) == parent_of(path),
        parent_of(path.push('/').push('.')) == parent_of(path),
{
    let base = base_len(path);
    let slashed = path.push('/');
    assert(slashed[0] == path[0]);
    assert(path.len() > 1 ==> slashed[1] == path[1]);
    assert(base_len(slashed) == base);
    assert(slashed.skip(slashed.len() as int) =~= Seq::<char>::empty());
    assert(slashed.take(slashed.len() - 1) =~= path);
    assert(last_component_start(slashed, base) == slashed.len());
    assert(stripped(slashed, base) == stripped(path, base));
    let dotted = slashed.push('.');
    assert(dotted[0] == path[0]);
    assert(path.len() > 1 ==> dotted[1] == path[1]);
    assert(base_len(dotted) == base);
    assert(dotted.drop_last() =~= slashed);
    assert(last_component_start(dotted, base) == slashed.len());
    assert(dotted.skip(slashed.len() as int) =~= seq!['.']);
    assert(dotted.take(slashed.len() - 1) =~= path);
    assert(stripped(dotted, base) == stripped(path, base));
}

/// A single name stands in the directory that it is taken from: the current one, written as nothing
/// or as a dot, or the root. The root and the empty path have no parent.
pub proof fn single_names_stand_where_their_path_begins(name: Seq<char>)
    requires
        name.len() > 0,
        !name.contains('/'),
        name != seq!['.'],
    ensures
        parent_of(name) == Some(Seq::<char>::empty()),
        parent_of(seq!['/'] + name) == Some(seq!['/']),
        parent_of(seq!['.', '/'] + name) == Some(seq!['.']),
        parent_of(seq!['.']) == Some(Seq::<char>::empty()),
        parent_of(seq!['/']) is None,
        parent_of(Seq::empty()) is None,
{
    assert(name.contains(name[0]));
    if starts_at_current(name) && name.len() > 1 {
        assert(name.contains(name[1]));
    }
    if starts_at_current(name) && name.len() == 1 {
        assert(name =~= seq!['.']);
    }
    lemma_name_alone(Seq::empty(), name);
    assert(Seq::<char>::empty() + name =~= name);
    assert(name.take(0) =~= Seq::<char>::empty());
    assert(stripped(Seq::<char>::empty(), 0) == Seq::<char>::empty());
    let root = seq!['/'] + name;
    lemma_name_alone(seq!['/'], name);
    assert(root.take(1) =~= seq!['/']);
    let current = seq!['.', '/'] + name;
    assert(starts_at_current(current));
    lemma_last_component_start(current, 1);
    let found = last_component_start(current, 1);
    if found < 2 {
        assert(current[1] != '/');
    }
    if found > 2 {
        assert(current[found - 1] == name[found - 3]);
        assert(name.contains(name[found - 3]));
    }
    assert(current.skip(2) =~= name);
    assert(stripped(current, 1) == current);
    assert(current.take(1) =~= seq!['.']);
    assert(without_last(current, 1) =~= seq!['.']);
}

proof fn lemma_name_alone(base: Seq<char>, name: Seq<char>)
    requires
        name.len() > 0,
        !name.contains('/'),
        name != seq!['.'],
        base.len() <= 1,
    ensures
        stripped(base + name, base.len() as int) == base + name,
        last_component_start(base + name, base.len() as int) == base.len(),
{
    let path = base + name;
    let n = base.len() as int;
    lemma_last_component_start(path, n);
    let found = last_component_start(path, n);
    if found > n {
        assert(path[found - 1] == name[found - 1 - n]);
        assert(name.contains(name[found - 1 - n]));
    }
    assert(path.skip(n) =~= name);
}

} // verus!
