//! What holds of the operations taken together.
use vstd::prelude::*;

use crate::lines::{joinable, lemma_lines_of_join};
use crate::model::{FsError, FsView};
use crate::path::is_ancestor;

verus! {

/// A file reads back exactly the text last written to it.
pub proof fn law_write_then_read(v: FsView, p: Seq<char>, t: Seq<char>)
    requires
        v.write(p, t) is Ok,
    ensures
        v.write(p, t)->Ok_0.read(p) == Ok::<Seq<char>, FsError>(t),
{
}

/// Lines written to a file read back unchanged, when none holds a newline,
/// the last is not empty and no other ends in a carriage return.
pub proof fn law_write_lines_then_read_lines(v: FsView, p: Seq<char>, ls: Seq<Seq<char>>)
    requires
        joinable(ls),
        v.write_lines(p, ls) is Ok,
    ensures
        v.write_lines(p, ls)->Ok_0.read_lines(p) == Ok::<Seq<Seq<char>>, FsError>(ls),
{
    lemma_lines_of_join(ls);
}

/// Appending to a file just written leaves the two texts one after the other.
pub proof fn law_append_after_write(v: FsView, p: Seq<char>, a: Seq<char>, b: Seq<char>)
    requires
        v.write(p, a) is Ok,
    ensures
        v.write(p, a)->Ok_0.append(p, b) is Ok,
        v.write(p, a)->Ok_0.append(p, b)->Ok_0.read(p) == Ok::<Seq<char>, FsError>(a + b),
{
    let w = v.write(p, a)->Ok_0;
    assert(!w.dirs.contains(p));
    assert(!w.has_file_above(p)) by {
        assert forall|q: Seq<char>| #[trigger] is_ancestor(q, p) implies !w.files.contains_key(q) by {
            assert(!v.files.contains_key(q));
        }
    }
}

/// Lines appended to lines just written follow them, under the same
/// conditions as a round trip of lines.
pub proof fn law_append_lines_after_write_lines(
    v: FsView,
    p: Seq<char>,
    first: Seq<Seq<char>>,
    more: Seq<Seq<char>>,
)
    requires
        joinable(first),
        joinable(first + more),
        v.write_lines(p, first) is Ok,
    ensures
        v.write_lines(p, first)->Ok_0.append_lines(p, more) is Ok,
        v.write_lines(p, first)->Ok_0.append_lines(p, more)->Ok_0.read_lines(p) == Ok::<
            Seq<Seq<char>>,
            FsError,
        >(first + more),
{
    let w = v.write_lines(p, first)->Ok_0;
    lemma_lines_of_join(first);
    lemma_lines_of_join(first + more);
    assert(!w.has_file_above(p)) by {
        assert forall|q: Seq<char>| #[trigger] is_ancestor(q, p) implies !w.files.contains_key(q) by {
            assert(!v.files.contains_key(q));
        }
    }
}

/// Writing a file whose path is free creates every directory above it, and
/// the file reads back.
pub proof fn law_write_creates_directories(v: FsView, p: Seq<char>, t: Seq<char>)
    requires
        p.len() > 0,
        !v.dirs.contains(p),
        !v.has_file_above(p),
    ensures
        v.write(p, t) is Ok,
        forall|a: Seq<char>| #[trigger] is_ancestor(a, p) ==> v.write(p, t)->Ok_0.dirs.contains(a),
        v.write(p, t)->Ok_0.read(p) == Ok::<Seq<char>, FsError>(t),
{
}

/// Deleting a path that names nothing fails with `InvalidInput` and changes
/// nothing.
pub proof fn law_delete_absent(v: FsView, p: Seq<char>)
    requires
        !v.names(p),
    ensures
        v.delete(p) == Err::<FsView, FsError>(FsError::InvalidInput),
{
}

/// A copy keeps its text when the file it was copied from is written afterwards.
pub proof fn law_copy_independent(v: FsView, a: Seq<char>, b: Seq<char>, other: Seq<char>)
    requires
        a != b,
        v.copy(a, b) is Ok,
        v.copy(a, b)->Ok_0.write(a, other) is Ok,
    ensures
        v.copy(a, b)->Ok_0.write(a, other)->Ok_0.read(b) == v.read(a),
{
}

/// After a rename the old path names nothing and the new one holds the
/// text that the old one held.
pub proof fn law_rename_moves(v: FsView, a: Seq<char>, b: Seq<char>)
    requires
        a != b,
        v.rename(a, b) is Ok,
    ensures
        !v.rename(a, b)->Ok_0.names(a),
        v.rename(a, b)->Ok_0.read(b) == v.read(a),
{
    let w = v.copy(a, b)->Ok_0;
    assert(v.files.contains_key(a));
    assert(!is_ancestor(a, b));
    assert(w.files.contains_key(b));
    let u = w.without(a);
    assert(u.files.contains_key(b));
    assert(!u.files.contains_key(a));
    assert(!u.dirs.contains(a));
}

} // verus!
