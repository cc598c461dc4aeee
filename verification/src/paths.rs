//! Archive paths: components separated by forward slashes.

use vstd::prelude::*;
use crate::error::Error;
use crate::text::{string_push, chars_of};

verus! {

/// The character that separates the components of an archive path.
pub open spec fn spec_is_separator(c: char) -> bool {
    c == '/'
}

/// The archive path in its stored form: the non-empty components, in order,
/// with one slash between two of them and none at either end.
pub open spec fn spec_pak_path(path: Seq<char>) -> Seq<char>
    decreases path.len(),
{
    if path.len() == 0 {
        Seq::<char>::empty()
    } else {
        let front = spec_pak_path(path.drop_last());
        let c = path.last();
        if spec_is_separator(c) {
            front
        } else if front.len() > 0 && path.len() >= 2 && spec_is_separator(path[path.len() - 2]) {
            front.push('/').push(c)
        } else {
            front.push(c)
        }
    }
}

/// Brings an archive path into its stored form: empty components are dropped,
/// so that no slash stands at the start, at the end, or next to another one.
pub fn make_pak_path(path: &str) -> (r: String)
    ensures
        r@ == spec_pak_path(path@),
{
    let chars = chars_of(path);
    let mut out = String::new();
    let mut pending: bool = false;
    let mut started: bool = false;
    let mut i: usize = 0;
    while i < chars.len()
        invariant
            i <= chars@.len(),
            chars@ == path@,
            out@ == spec_pak_path(path@.take(i as int)),
            pending == (i > 0 && spec_is_separator(path@[i - 1])),
            started == (out@.len() > 0),
        decreases chars@.len() - i,
    {
        let c = chars[i];
        proof {
            assert(path@.take(i + 1).drop_last() =~= path@.take(i as int));
        }
        if c == '/' {
            pending = true;
        } else {
            if pending && started {
                string_push(&mut out, '/');
            }
            string_push(&mut out, c);
            pending = false;
            started = true;
        }
        i += 1;
    }
    assert(path@.take(i as int) =~= path@);
    out
}

/// The runs of characters between the slashes of a path, empty runs included.
/// There is always at least one run.
pub open spec fn spec_split_path(path: Seq<char>) -> Seq<Seq<char>>
    decreases path.len(),
{
    if path.len() == 0 {
        seq![Seq::<char>::empty()]
    } else {
        let front = spec_split_path(path.drop_last());
        let c = path.last();
        if spec_is_separator(c) {
            front.push(Seq::<char>::empty())
        } else {
            front.drop_last().push(front.last().push(c))
        }
    }
}

/// The runs that are not empty, in order.
pub open spec fn spec_non_empty(parts: Seq<Seq<char>>) -> Seq<Seq<char>>
    decreases parts.len(),
{
    if parts.len() == 0 {
        Seq::<Seq<char>>::empty()
    } else if parts.last().len() > 0 {
        spec_non_empty(parts.drop_last()).push(parts.last())
    } else {
        spec_non_empty(parts.drop_last())
    }
}

/// The components of an archive path.
pub open spec fn spec_components(path: Seq<char>) -> Seq<Seq<char>> {
    spec_non_empty(spec_split_path(path))
}

/// Whether a component names the parent directory.
pub open spec fn spec_is_parent(component: Seq<char>) -> bool {
    component.len() == 2 && component[0] == '.' && component[1] == '.'
}

/// Whether a path has a component that names the parent directory, and so
/// could lead out of the root it is joined under.
pub open spec fn spec_escapes(path: Seq<char>) -> bool {
    exists|i: int|
        0 <= i < spec_components(path).len() && spec_is_parent(#[trigger] spec_components(path)[i])
}

/// The texts of a sequence of strings, in order.
pub open spec fn spec_texts(strings: Seq<String>) -> Seq<Seq<char>> {
    Seq::new(strings.len(), |i: int| strings[i]@)
}

/// Whether `component` names the parent directory.
fn is_parent(component: &str) -> (r: bool)
    ensures
        r == spec_is_parent(component@),
{
    let letters = chars_of(component);
    letters.len() == 2 && letters[0] == '.' && letters[1] == '.'
}

/// The components of an archive path, ready to be joined under a destination
/// root: the non-empty runs between slashes, in order. A path with a
/// component `..` is refused with `PathTraversal`.
pub fn destination_components(path: &str) -> (r: Result<Vec<String>, Error>)
    ensures
        match r {
            Ok(components) => !spec_escapes(path@) && spec_texts(components@) == spec_components(
                path@,
            ),
            Err(e) => e == Error::PathTraversal && spec_escapes(path@),
        },
{
    let chars = chars_of(path);
    let mut done: Vec<String> = Vec::new();
    let mut current = String::new();
    let mut filled: bool = false;
    let mut i: usize = 0;
    let ghost mut parts: Seq<Seq<char>> = seq![Seq::<char>::empty()];
    while i < chars.len()
        invariant
            i <= chars@.len(),
            chars@ == path@,
            parts == spec_split_path(path@.take(i as int)),
            parts.len() >= 1,
            spec_texts(done@) == spec_non_empty(parts.drop_last()),
            current@ == parts.last(),
            filled == (current@.len() > 0),
        decreases chars@.len() - i,
    {
        let c = chars[i];
        proof {
            assert(path@.take(i + 1).drop_last() =~= path@.take(i as int));
        }
        if c == '/' {
            if filled {
                done.push(current);
            }
            current = String::new();
            filled = false;
            proof {
                let longer = parts.push(Seq::<char>::empty());
                assert(longer.drop_last() =~= parts);
                parts = longer;
            }
        } else {
            string_push(&mut current, c);
            filled = true;
            proof {
                let longer = parts.drop_last().push(parts.last().push(c));
                assert(longer.drop_last() =~= parts.drop_last());
                parts = longer;
            }
        }
        i += 1;
    }
    if filled {
        done.push(current);
    }
    assert(path@.take(i as int) =~= path@);
    let mut k: usize = 0;
    while k < done.len()
        invariant
            k <= done@.len(),
            spec_texts(done@) == spec_components(path@),
            forall|j: int| 0 <= j < k ==> !spec_is_parent(#[trigger] spec_components(path@)[j]),
        decreases done@.len() - k,
    {
        assert(spec_texts(done@)[k as int] == done@[k as int]@);
        if is_parent(done[k].as_str()) {
            return Err(Error::PathTraversal);
        }
        k += 1;
    }
    Ok(done)
}

} // verus!
