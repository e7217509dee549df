//! Decoding undoes encoding, and what decoding accepts can be encoded.

use crate::bytes::decimal;
use crate::codec::{
    entries_bytes, entry_bytes, framed, kind_name, kind_of_token, lemma_parse_entry_bounds,
    parse_entries, parse_entry, payload_of, spec_decode, spec_encode,
};
use crate::error::ParseError;
use crate::hexfmt::{
    ascii_bytes, lemma_hex_lower_is_lower_hex, lemma_hex_lower_unhex, lemma_unhex_hex_lower, unhex,
};
use crate::object::{all_valid, EntryView, ObjectKind, ObjectView, HASH_BYTES, NUL, SPACE};
use vstd::prelude::*;

verus! {

/// In `head + [needle] + tail`, where `head` is free of `needle`, the
/// first `needle` is the one after `head`.
pub proof fn lemma_first_after(head: Seq<u8>, needle: u8, tail: Seq<u8>)
    requires
        !head.contains(needle),
    ensures
        (head + seq![needle] + tail).index_of_first(needle) == Some(head.len() as int),
{
    let all = head + seq![needle] + tail;
    all.index_of_first_ensures(needle);
    assert(all[head.len() as int] == needle);
    let found = all.index_of_first(needle)->0;
    if found < head.len() {
        assert(head[found] == all[found]);
    }
}

/// A number written in decimal consists of digits only.
pub proof fn lemma_decimal_digits(n: nat)
    ensures
        decimal(n).len() > 0,
        forall|i: int| 0 <= i < decimal(n).len() ==> 48 <= #[trigger] decimal(n)[i] <= 57,
    decreases n,
{
    if n >= 10 {
        lemma_decimal_digits(n / 10);
    }
}

/// An entry is read back from the front of whatever starts with its bytes.
pub proof fn lemma_parse_entry_bytes(entry: EntryView, tail: Seq<u8>)
    requires
        entry.valid(),
    ensures
        parse_entry(entry_bytes(entry) + tail) == Some((entry, entry_bytes(entry).len() as int)),
{
    let raw = unhex(ascii_bytes(entry.hash));
    let all = entry_bytes(entry) + tail;
    let space = entry.mode.len() as int;
    let name_len = entry.name.len() as int;
    lemma_hex_lower_unhex(entry.hash);
    assert(all =~= entry.mode + seq![SPACE] + (entry.name + seq![NUL] + raw + tail));
    lemma_first_after(entry.mode, SPACE, entry.name + seq![NUL] + raw + tail);
    assert(all.skip(space + 1) =~= entry.name + seq![NUL] + (raw + tail));
    lemma_first_after(entry.name, NUL, raw + tail);
    let start = space + 1 + name_len + 1;
    assert(all.take(space) =~= entry.mode);
    assert(all.subrange(space + 1, space + 1 + name_len) =~= entry.name);
    assert(all.subrange(start, start + HASH_BYTES) =~= raw);
}

/// A list of valid entries is read back from its bytes.
pub proof fn lemma_parse_entries_bytes(entries: Seq<EntryView>)
    requires
        all_valid(entries),
    ensures
        parse_entries(entries_bytes(entries)) == Some(entries),
    decreases entries.len(),
{
    if entries.len() > 0 {
        let first = entries.first();
        let rest = entries.drop_first();
        let all = entries_bytes(entries);
        assert(first.valid());
        assert(all_valid(rest)) by {
            assert forall|i: int| 0 <= i < rest.len() implies (#[trigger] rest[i]).valid() by {
                assert(entries[i + 1].valid());
            }
        }
        lemma_parse_entry_bytes(first, entries_bytes(rest));
        lemma_parse_entries_bytes(rest);
        assert(all.skip(entry_bytes(first).len() as int) =~= entries_bytes(rest));
        assert(seq![first] + rest =~= entries);
    }
}

/// The entries that are read from any payload are valid, and their
/// bytes are that payload.
pub proof fn lemma_parsed_entries_valid(bytes: Seq<u8>)
    ensures
        parse_entries(bytes) matches Some(entries) ==> all_valid(entries) && entries_bytes(
            entries,
        ) == bytes,
    decreases bytes.len(),
{
    if bytes.len() > 0 {
        if let Some((entry, used)) = parse_entry(bytes) {
            lemma_parse_entry_bounds(bytes);
            lemma_parsed_entries_valid(bytes.skip(used));
            if let Some(rest) = parse_entries(bytes.skip(used)) {
                let entries = seq![entry] + rest;
                bytes.index_of_first_ensures(SPACE);
                let space = bytes.index_of_first(SPACE)->0;
                bytes.skip(space + 1).index_of_first_ensures(NUL);
                let name_len = bytes.skip(space + 1).index_of_first(NUL)->0;
                let start = space + 1 + name_len + 1;
                let raw = bytes.subrange(start, start + HASH_BYTES);
                lemma_hex_lower_is_lower_hex(raw);
                lemma_unhex_hex_lower(raw);
                assert(!entry.mode.contains(SPACE));
                assert(!entry.name.contains(NUL)) by {
                    assert forall|i: int| 0 <= i < name_len implies entry.name[i] != NUL by {
                        assert(entry.name[i] == bytes.skip(space + 1)[i]);
                    }
                }
                assert(entry.valid());
                assert(entry_bytes(entry) =~= bytes.take(used));
                assert(entries.first() == entry);
                assert(entries.drop_first() =~= rest);
                assert(entries_bytes(entries) =~= bytes.take(used) + bytes.skip(used));
                assert(bytes.take(used) + bytes.skip(used) =~= bytes);
                assert forall|i: int| 0 <= i < entries.len() implies (#[trigger] entries[i])
                    .valid() by {
                    if i > 0 {
                        assert(rest[i - 1].valid());
                    }
                }
            }
        }
    } else {
        assert(entries_bytes(Seq::<EntryView>::empty()) =~= Seq::<u8>::empty());
    }
}

/// A framed payload is taken apart again into its kind and its payload.
pub proof fn lemma_unframe(kind: ObjectKind, body: Seq<u8>)
    ensures
        ({
            let bytes = framed(kind, body);
            let head = kind_name(kind) + seq![SPACE] + decimal(body.len());
            &&& bytes.index_of_first(SPACE) == Some(4int)
            &&& kind_of_token(bytes.take(4)) == Some(kind)
            &&& bytes.index_of_first(NUL) == Some(head.len() as int)
            &&& bytes.skip(head.len() as int + 1) == body
        }),
{
    let bytes = framed(kind, body);
    let digits = decimal(body.len());
    let name = kind_name(kind);
    let head = name + seq![SPACE] + digits;
    lemma_decimal_digits(body.len());
    assert(bytes =~= name + seq![SPACE] + (digits + seq![NUL] + body));
    assert(!name.contains(SPACE));
    lemma_first_after(name, SPACE, digits + seq![NUL] + body);
    assert(bytes.take(4) =~= name);
    assert(kind_name(ObjectKind::Blob)[0] != kind_name(ObjectKind::Tree)[0]);
    assert(bytes =~= head + seq![NUL] + body);
    assert(!head.contains(NUL)) by {
        assert forall|i: int| 0 <= i < head.len() implies head[i] != NUL by {
            if i >= 5 {
                assert(head[i] == digits[i - 5]);
            }
        }
    }
    lemma_first_after(head, NUL, body);
    assert(bytes.skip(head.len() as int + 1) =~= body);
}

/// Decoding the encoding of a valid object gives the object back.
pub proof fn law_decode_encode(object: ObjectView)
    requires
        object.valid(),
    ensures
        spec_decode(spec_encode(object)) == Ok::<ObjectView, ParseError>(object),
{
    lemma_unframe(object.kind(), payload_of(object));
    match object {
        ObjectView::Blob(_) => {},
        ObjectView::Tree(entries) => {
            lemma_parse_entries_bytes(entries);
        },
    }
}

/// Whatever decodes is a valid object of the kind that the header names,
/// whose payload is what follows the first NUL. Encoding it again keeps
/// kind and payload and writes the true length into the header.
pub proof fn law_decoded_is_valid(bytes: Seq<u8>)
    ensures
        spec_decode(bytes) matches Ok(object) ==> {
            &&& object.valid()
            &&& payload_of(object) == bytes.skip(bytes.index_of_first(NUL)->0 + 1)
            &&& spec_decode(spec_encode(object)) == Ok::<ObjectView, ParseError>(object)
        },
{
    if let Ok(object) = spec_decode(bytes) {
        let nul = bytes.index_of_first(NUL)->0;
        if let ObjectView::Tree(entries) = object {
            lemma_parsed_entries_valid(bytes.skip(nul + 1));
        }
        law_decode_encode(object);
    }
}

} // verus!
