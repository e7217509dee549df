//! Human-readable rendering of objects.
//!
//! A blob renders as its content and a newline. A tree renders one line
//! per entry, `<mode> <kind> <hash>\t<name>`, in stored order; the kind
//! is that of the object the entry points to, which the entry does not
//! record, so the caller looks each one up and hands the kinds in.

use crate::codec::{append, kind_name, push_kind_name};
use crate::object::{Entry, EntryView, Object, ObjectKind, ObjectView, SPACE};
use vstd::prelude::*;
use vstd::utf8::encode_utf8;

verus! {

/// Horizontal tab, which sets the name off from the hash.
pub const TAB: u8 = 0x09;

/// Line feed, which ends a line.
pub const LF: u8 = 0x0a;

/// The hashes whose kinds a rendering of `object` needs, in order: those
/// of a tree's entries, none for a blob.
pub open spec fn spec_references(object: ObjectView) -> Seq<Seq<char>> {
    match object {
        ObjectView::Blob(_) => Seq::empty(),
        ObjectView::Tree(entries) => Seq::new(entries.len(), |i: int| entries[i].hash),
    }
}

/// The line for one entry that points to an object of the given kind.
/// The hash is written as text; a canonical hash is plain ASCII.
pub open spec fn entry_line(entry: EntryView, kind: ObjectKind) -> Seq<u8> {
    entry.mode + seq![SPACE] + kind_name(kind) + seq![SPACE] + encode_utf8(entry.hash) + seq![TAB]
        + entry.name + seq![LF]
}

/// The lines for the entries of a tree, `kinds[i]` being the kind of the
/// object that `entries[i]` points to.
pub open spec fn tree_lines(entries: Seq<EntryView>, kinds: Seq<ObjectKind>) -> Seq<u8>
    recommends
        entries.len() == kinds.len(),
    decreases entries.len(),
{
    if entries.len() == 0 {
        Seq::empty()
    } else {
        tree_lines(entries.drop_last(), kinds.drop_last()) + entry_line(
            entries.last(),
            kinds.last(),
        )
    }
}

/// The rendering of an object.
pub open spec fn rendered(object: ObjectView, kinds: Seq<ObjectKind>) -> Seq<u8> {
    match object {
        ObjectView::Blob(content) => content + seq![LF],
        ObjectView::Tree(entries) => tree_lines(entries, kinds),
    }
}

/// The hashes whose kinds a rendering of `object` needs, in order.
pub fn references(object: &Object) -> (hashes: Vec<String>)
    ensures
        hashes.deep_view() == spec_references(object@),
{
    let mut hashes: Vec<String> = Vec::new();
    match object {
        Object::Blob(_) => {
            assert(hashes.deep_view() =~= spec_references(object@));
        },
        Object::Tree(tree) => {
            let n = tree.entries.len();
            let mut i: usize = 0;
            while i < n
                invariant
                    i <= n,
                    n == tree.entries@.len(),
                    hashes@.len() == i,
                    forall|j: int|
                        0 <= j < i ==> (#[trigger] hashes@[j])@ == tree.entries@[j].hash@,
                decreases n - i,
            {
                hashes.push(tree.entries[i].hash.clone());
                i = i + 1;
            }
            assert(hashes.deep_view() =~= spec_references(object@));
        },
    }
    hashes
}

/// Appends the line for `entry`, which points to an object of kind `kind`.
pub fn render_entry(entry: &Entry, kind: ObjectKind, out: &mut Vec<u8>)
    ensures
        final(out)@ == old(out)@ + entry_line(entry@, kind),
{
    append(out, entry.mode.as_slice());
    out.push(SPACE);
    push_kind_name(out, kind);
    out.push(SPACE);
    append(out, entry.hash.as_str().as_bytes());
    out.push(TAB);
    append(out, entry.name.as_slice());
    out.push(LF);
    assert(out@ =~= old(out)@ + entry_line(entry@, kind));
}

/// Appends the rendering of `object` to `out`. For a tree, `kinds` holds
/// the kind of the object that each entry points to, in order; for a
/// blob it is not looked at.
pub fn render(object: &Object, kinds: &Vec<ObjectKind>, out: &mut Vec<u8>)
    requires
        object@ matches ObjectView::Tree(entries) ==> kinds@.len() == entries.len(),
    ensures
        final(out)@ == old(out)@ + rendered(object@, kinds@),
{
    match object {
        Object::Blob(blob) => {
            append(out, blob.content.as_slice());
            out.push(LF);
            assert(out@ =~= old(out)@ + rendered(object@, kinds@));
        },
        Object::Tree(tree) => {
            let n = tree.entries.len();
            let mut i: usize = 0;
            assert(tree_lines(tree@.take(0), kinds@.take(0)) =~= Seq::<u8>::empty());
            assert(out@ =~= old(out)@ + Seq::<u8>::empty());
            while i < n
                invariant
                    i <= n,
                    n == tree.entries@.len(),
                    n == tree@.len(),
                    n == kinds@.len(),
                    out@ == old(out)@ + tree_lines(tree@.take(i as int), kinds@.take(i as int)),
                decreases n - i,
            {
                let ghost before = out@;
                render_entry(&tree.entries[i], kinds[i], out);
                proof {
                    let entries = tree@.take(i + 1);
                    let some_kinds = kinds@.take(i + 1);
                    assert(entries.drop_last() =~= tree@.take(i as int));
                    assert(some_kinds.drop_last() =~= kinds@.take(i as int));
                    assert(entries.last() == tree.entries@[i as int]@);
                    assert(some_kinds.last() == kinds@[i as int]);
                    assert(out@ =~= old(out)@ + tree_lines(entries, some_kinds));
                }
                i = i + 1;
            }
            assert(tree@.take(n as int) =~= tree@);
            assert(kinds@.take(n as int) =~= kinds@);
        },
    }
}

} // verus!
