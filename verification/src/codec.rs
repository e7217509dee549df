//! The framing of objects: `<kind> <payload length>\0<payload>`, where a
//! tree's payload is its entries, each `<mode> <name>\0` followed by the
//! twenty raw bytes of the entry's hash.

use crate::bytes::{decimal, decimal_digits, find_byte};
use crate::error::ParseError;
use crate::hexfmt::{ascii_bytes, from_hex, hex_lower, to_hex, unhex};
use crate::object::{
    all_valid, result_view, views, Blob, Entry, EntryView, Object, ObjectKind, ObjectView, Tree,
    HASH_BYTES, NUL, SPACE,
};
use crate::roundtrip::law_decoded_is_valid;
use vstd::prelude::*;
use vstd::slice::{slice_subrange, slice_to_vec};

verus! {

/// The token that names a kind in an object's header: the ASCII bytes of
/// `blob` or of `tree`.
pub open spec fn kind_name(kind: ObjectKind) -> Seq<u8> {
    match kind {
        ObjectKind::Blob => seq![0x62u8, 0x6c, 0x6f, 0x62],
        ObjectKind::Tree => seq![0x74u8, 0x72, 0x65, 0x65],
    }
}

/// Stored form of one tree entry.
pub open spec fn entry_bytes(entry: EntryView) -> Seq<u8> {
    entry.mode + seq![SPACE] + entry.name + seq![NUL] + unhex(ascii_bytes(entry.hash))
}

/// Stored form of a list of entries: one after the other, nothing between.
pub open spec fn entries_bytes(entries: Seq<EntryView>) -> Seq<u8>
    decreases entries.len(),
{
    if entries.len() == 0 {
        Seq::empty()
    } else {
        entry_bytes(entries.first()) + entries_bytes(entries.drop_first())
    }
}

/// The payload of an object: a blob's content, a tree's entries.
pub open spec fn payload_of(object: ObjectView) -> Seq<u8> {
    match object {
        ObjectView::Blob(content) => content,
        ObjectView::Tree(entries) => entries_bytes(entries),
    }
}

/// A payload with its header in front.
pub open spec fn framed(kind: ObjectKind, payload: Seq<u8>) -> Seq<u8> {
    kind_name(kind) + seq![SPACE] + decimal(payload.len()) + seq![NUL] + payload
}

/// The bytes that are hashed and stored for an object.
pub open spec fn spec_encode(object: ObjectView) -> Seq<u8> {
    framed(object.kind(), payload_of(object))
}

/// Appending an entry to a list appends its bytes to the list's bytes.
pub proof fn lemma_entries_bytes_push(entries: Seq<EntryView>, entry: EntryView)
    ensures
        entries_bytes(entries.push(entry)) == entries_bytes(entries) + entry_bytes(entry),
    decreases entries.len(),
{
    let longer = entries.push(entry);
    if entries.len() == 0 {
        assert(longer.first() == entry);
        assert(longer.drop_first() =~= Seq::empty());
        assert(entries_bytes(longer.drop_first()) =~= Seq::empty());
        assert(entries_bytes(longer) =~= entry_bytes(entry));
        assert(entries_bytes(entries) + entry_bytes(entry) =~= entry_bytes(entry));
    } else {
        assert(longer.drop_first() =~= entries.drop_first().push(entry));
        lemma_entries_bytes_push(entries.drop_first(), entry);
        assert(entries_bytes(longer) =~= entries_bytes(entries) + entry_bytes(entry));
    }
}

pub(crate) fn append(out: &mut Vec<u8>, bytes: &[u8])
    ensures
        final(out)@ == old(out)@ + bytes@,
{
    out.extend_from_slice(bytes);
    assert(out@ =~= old(out)@ + bytes@);
}

pub(crate) fn push_kind_name(out: &mut Vec<u8>, kind: ObjectKind)
    ensures
        final(out)@ == old(out)@ + kind_name(kind),
{
    match kind {
        ObjectKind::Blob => {
            out.push(0x62);
            out.push(0x6c);
            out.push(0x6f);
            out.push(0x62);
        },
        ObjectKind::Tree => {
            out.push(0x74);
            out.push(0x72);
            out.push(0x65);
            out.push(0x65);
        },
    }
    assert(out@ =~= old(out)@ + kind_name(kind));
}

/// Puts the header for `kind` in front of `payload`.
pub fn frame(kind: ObjectKind, payload: &[u8]) -> (bytes: Vec<u8>)
    ensures
        bytes@ == framed(kind, payload@),
{
    let mut out: Vec<u8> = Vec::new();
    push_kind_name(&mut out, kind);
    out.push(SPACE);
    let digits = decimal_digits(payload.len());
    append(&mut out, digits.as_slice());
    out.push(NUL);
    append(&mut out, payload);
    assert(out@ =~= framed(kind, payload@));
    out
}

fn push_entry(out: &mut Vec<u8>, entry: &Entry)
    requires
        entry@.valid(),
    ensures
        final(out)@ == old(out)@ + entry_bytes(entry@),
{
    append(out, entry.mode.as_slice());
    out.push(SPACE);
    append(out, entry.name.as_slice());
    out.push(NUL);
    let raw = from_hex(entry.hash.as_str()).unwrap();
    append(out, raw.as_slice());
    assert(out@ =~= old(out)@ + entry_bytes(entry@));
}

/// The payload of a tree.
pub fn tree_payload(tree: &Tree) -> (bytes: Vec<u8>)
    requires
        all_valid(tree@),
    ensures
        bytes@ == entries_bytes(tree@),
{
    let mut out: Vec<u8> = Vec::new();
    let n = tree.entries.len();
    let mut i: usize = 0;
    while i < n
        invariant
            i <= n,
            n == tree.entries@.len(),
            n == tree@.len(),
            all_valid(tree@),
            out@ == entries_bytes(tree@.take(i as int)),
        decreases n - i,
    {
        assert(tree@[i as int].valid());
        push_entry(&mut out, &tree.entries[i]);
        proof {
            lemma_entries_bytes_push(tree@.take(i as int), tree@[i as int]);
            assert(tree@.take(i + 1) =~= tree@.take(i as int).push(tree@[i as int]));
        }
        i = i + 1;
    }
    assert(tree@.take(n as int) =~= tree@);
    out
}

/// The bytes that are hashed and stored for `object`.
pub fn encode(object: &Object) -> (bytes: Vec<u8>)
    requires
        object@.valid(),
    ensures
        bytes@ == spec_encode(object@),
{
    match object {
        Object::Blob(blob) => frame(ObjectKind::Blob, blob.content.as_slice()),
        Object::Tree(tree) => {
            let body = tree_payload(tree);
            frame(ObjectKind::Tree, body.as_slice())
        },
    }
}

/// The kind that a header token names, if any.
pub open spec fn kind_of_token(token: Seq<u8>) -> Option<ObjectKind> {
    if token == kind_name(ObjectKind::Blob) {
        Some(ObjectKind::Blob)
    } else if token == kind_name(ObjectKind::Tree) {
        Some(ObjectKind::Tree)
    } else {
        None
    }
}

/// Reads one entry from the front of `payload`: the mode runs to the
/// first space, the name from there to the next NUL, and twenty raw hash
/// bytes follow. Yields the entry and the number of bytes it takes up,
/// or `None` where the payload ends before the entry does.
pub open spec fn parse_entry(payload: Seq<u8>) -> Option<(EntryView, int)> {
    match payload.index_of_first(SPACE) {
        None => None,
        Some(space) => match payload.skip(space + 1).index_of_first(NUL) {
            None => None,
            Some(name_len) => {
                let raw = space + 1 + name_len + 1;
                if raw + HASH_BYTES > payload.len() {
                    None
                } else {
                    Some(
                        (
                            EntryView {
                                mode: payload.take(space),
                                name: payload.subrange(space + 1, space + 1 + name_len),
                                hash: hex_lower(payload.subrange(raw, raw + HASH_BYTES)),
                            },
                            raw + HASH_BYTES,
                        ),
                    )
                }
            },
        },
    }
}

/// Reads entries until `payload` is used up.
pub open spec fn parse_entries(payload: Seq<u8>) -> Option<Seq<EntryView>>
    decreases payload.len(),
    via parse_entries_decreases
{
    if payload.len() == 0 {
        Some(Seq::empty())
    } else {
        match parse_entry(payload) {
            None => None,
            Some((entry, used)) => match parse_entries(payload.skip(used)) {
                None => None,
                Some(rest) => Some(seq![entry] + rest),
            },
        }
    }
}

#[via_fn]
proof fn parse_entries_decreases(payload: Seq<u8>) {
    lemma_parse_entry_bounds(payload);
}

/// An entry that is read takes up at least twenty-two bytes and no more
/// than there are.
pub proof fn lemma_parse_entry_bounds(payload: Seq<u8>)
    ensures
        parse_entry(payload) matches Some((_, used)) ==> HASH_BYTES + 2 <= used <= payload.len(),
{
    payload.index_of_first_ensures(SPACE);
    if let Some(space) = payload.index_of_first(SPACE) {
        payload.skip(space + 1).index_of_first_ensures(NUL);
    }
}

/// What `bytes` decode to. The kind token runs to the first space (or to
/// the end where there is none), the payload starts after the first NUL,
/// and the length written between the two is not looked at.
pub open spec fn spec_decode(bytes: Seq<u8>) -> Result<ObjectView, ParseError> {
    let token = match bytes.index_of_first(SPACE) {
        Some(space) => bytes.take(space),
        None => bytes,
    };
    match kind_of_token(token) {
        None => Err(ParseError::UnknownKind),
        Some(kind) => match bytes.index_of_first(NUL) {
            None => Err(ParseError::MissingSeparator),
            Some(nul) => {
                let payload = bytes.skip(nul + 1);
                match kind {
                    ObjectKind::Blob => Ok(ObjectView::Blob(payload)),
                    ObjectKind::Tree => match parse_entries(payload) {
                        Some(entries) => Ok(ObjectView::Tree(entries)),
                        None => Err(ParseError::TruncatedEntry),
                    },
                }
            },
        },
    }
}

fn read_kind(token: &[u8]) -> (kind: Option<ObjectKind>)
    ensures
        kind == kind_of_token(token@),
{
    if token.len() != 4 {
        return None;
    }
    if token[0] == 0x62 && token[1] == 0x6c && token[2] == 0x6f && token[3] == 0x62 {
        assert(token@ =~= kind_name(ObjectKind::Blob));
        Some(ObjectKind::Blob)
    } else if token[0] == 0x74 && token[1] == 0x72 && token[2] == 0x65 && token[3] == 0x65 {
        assert(token@ =~= kind_name(ObjectKind::Tree));
        Some(ObjectKind::Tree)
    } else {
        None
    }
}

fn read_entry(payload: &[u8]) -> (res: Option<(Entry, usize)>)
    ensures
        match res {
            Some((entry, used)) => parse_entry(payload@) == Some((entry@, used as int)),
            None => parse_entry(payload@) is None,
        },
{
    assert(payload@.skip(0) =~= payload@);
    let space = match find_byte(payload, 0, SPACE) {
        Some(i) => i,
        None => {
            return None;
        },
    };
    let nul = match find_byte(payload, space + 1, NUL) {
        Some(i) => i,
        None => {
            return None;
        },
    };
    if payload.len() - nul - 1 < HASH_BYTES {
        return None;
    }
    let raw: usize = nul + 1;
    let mode = slice_to_vec(slice_subrange(payload, 0, space));
    let name = slice_to_vec(slice_subrange(payload, space + 1, nul));
    let hash = to_hex(slice_subrange(payload, raw, raw + HASH_BYTES));
    Some((Entry { mode, name, hash }, raw + HASH_BYTES))
}

fn read_entries(payload: &[u8]) -> (res: Option<Vec<Entry>>)
    ensures
        match res {
            Some(entries) => parse_entries(payload@) == Some(views(entries@)),
            None => parse_entries(payload@) is None,
        },
{
    let mut entries: Vec<Entry> = Vec::new();
    let mut rest: &[u8] = payload;
    assert(views(entries@) + Seq::<EntryView>::empty() =~= views(entries@));
    while rest.len() > 0
        invariant
            parse_entries(payload@) == match parse_entries(rest@) {
                Some(tail) => Some(views(entries@) + tail),
                None => None,
            },
        decreases rest.len(),
    {
        proof {
            lemma_parse_entry_bounds(rest@);
        }
        match read_entry(rest) {
            None => {
                return None;
            },
            Some((entry, used)) => {
                let ghost before = entries@;
                let ghost parsed = entry@;
                entries.push(entry);
                rest = slice_subrange(rest, used, rest.len());
                proof {
                    assert(views(entries@) =~= views(before).push(parsed));
                    match parse_entries(rest@) {
                        Some(tail) => {
                            assert(views(before) + (seq![parsed] + tail) =~= views(entries@)
                                + tail);
                        },
                        None => {},
                    }
                }
            },
        }
    }
    assert(views(entries@) + Seq::<EntryView>::empty() =~= views(entries@));
    Some(entries)
}

/// Reads an object from its framed bytes. What is read is valid.
pub fn decode(bytes: &[u8]) -> (res: Result<Object, ParseError>)
    ensures
        result_view(res) == spec_decode(bytes@),
        res matches Ok(object) ==> object@.valid(),
{
    proof {
        law_decoded_is_valid(bytes@);
        assert(bytes@.skip(0) =~= bytes@);
    }
    let token = match find_byte(bytes, 0, SPACE) {
        Some(space) => slice_subrange(bytes, 0, space),
        None => bytes,
    };
    let kind = match read_kind(token) {
        Some(kind) => kind,
        None => {
            return Err(ParseError::UnknownKind);
        },
    };
    let nul = match find_byte(bytes, 0, NUL) {
        Some(i) => i,
        None => {
            return Err(ParseError::MissingSeparator);
        },
    };
    let payload = slice_subrange(bytes, nul + 1, bytes.len());
    match kind {
        ObjectKind::Blob => Ok(Object::Blob(Blob::new(slice_to_vec(payload)))),
        ObjectKind::Tree => match read_entries(payload) {
            Some(entries) => Ok(Object::Tree(Tree { entries })),
            None => Err(ParseError::TruncatedEntry),
        },
    }
}

} // verus!
