//! The object model: blobs, trees and their entries.

use crate::bytes::find_byte;
use crate::codec::{decode, encode, frame, spec_decode, spec_encode};
use crate::digest::{sha1, sha1_digest};
use crate::error::{Error, ParseError};
use crate::hexfmt::{ascii_bytes, hex_lower, is_lower_hex, lemma_hex_lower_is_lower_hex, to_hex};
use crate::inflate::{inflate, zlib_inflate};
use vstd::prelude::*;
use vstd::string::is_ascii_spec_bytes;

verus! {

/// ASCII space, which ends the kind token and an entry's mode.
pub const SPACE: u8 = 0x20;

/// NUL, which ends an object's header and an entry's name.
pub const NUL: u8 = 0x00;

/// Number of characters in the text form of a hash.
pub const HASH_CHARS: usize = 40;

/// Number of bytes in the binary form of a hash.
pub const HASH_BYTES: usize = 20;

/// `text` is the canonical text form of a hash: forty lowercase hex digits.
pub open spec fn is_hash(text: Seq<char>) -> bool {
    &&& text.len() == HASH_CHARS
    &&& forall|i: int| 0 <= i < text.len() ==> is_lower_hex(#[trigger] text[i])
}

/// The kinds of object the store holds.
#[derive(Debug, Clone, Copy, PartialEq, Eq, Structural)]
pub enum ObjectKind {
    Blob,
    Tree,
}

/// Opaque file content.
#[derive(Debug, Clone, PartialEq, Eq)]
pub struct Blob {
    pub content: Vec<u8>,
}

/// One row of a tree: a mode, a path segment and the hash of the object
/// it points to. Mode and name are kept as the bytes that are stored.
#[derive(Debug, Clone, PartialEq, Eq)]
pub struct Entry {
    pub mode: Vec<u8>,
    pub name: Vec<u8>,
    pub hash: String,
}

/// An ordered list of entries, kept in the order in which it is stored.
#[derive(Debug, Clone, PartialEq, Eq)]
pub struct Tree {
    pub entries: Vec<Entry>,
}

/// A stored object.
#[derive(Debug, Clone, PartialEq, Eq)]
pub enum Object {
    Blob(Blob),
    Tree(Tree),
}

/// What was found at the place where an object is stored.
#[derive(Debug, Clone, PartialEq, Eq)]
pub enum Stored {
    /// Nothing is there.
    Missing,
    /// Something is there and could not be read.
    Unreadable,
    /// The bytes that are there.
    Bytes(Vec<u8>),
}

/// Mathematical value of an [`Entry`].
pub struct EntryView {
    pub mode: Seq<u8>,
    pub name: Seq<u8>,
    pub hash: Seq<char>,
}

/// Mathematical value of an [`Object`].
pub enum ObjectView {
    Blob(Seq<u8>),
    Tree(Seq<EntryView>),
}

impl EntryView {
    /// The entry can be stored and read back: its hash is canonical, its
    /// mode holds no space and its name holds no NUL.
    pub open spec fn valid(self) -> bool {
        &&& is_hash(self.hash)
        &&& !self.mode.contains(SPACE)
        &&& !self.name.contains(NUL)
    }
}

/// Every entry of the list is valid.
pub open spec fn all_valid(entries: Seq<EntryView>) -> bool {
    forall|i: int| 0 <= i < entries.len() ==> (#[trigger] entries[i]).valid()
}

impl ObjectView {
    /// Which kind of object this is.
    pub open spec fn kind(self) -> ObjectKind {
        match self {
            ObjectView::Blob(_) => ObjectKind::Blob,
            ObjectView::Tree(_) => ObjectKind::Tree,
        }
    }

    /// Every entry of the object is valid. A blob has none.
    pub open spec fn valid(self) -> bool {
        match self {
            ObjectView::Blob(_) => true,
            ObjectView::Tree(entries) => all_valid(entries),
        }
    }
}

/// The values of a list of entries, in order.
pub open spec fn views(entries: Seq<Entry>) -> Seq<EntryView> {
    Seq::new(entries.len(), |i: int| entries[i]@)
}

impl View for Blob {
    type V = Seq<u8>;

    open spec fn view(&self) -> Seq<u8> {
        self.content@
    }
}

impl View for Entry {
    type V = EntryView;

    open spec fn view(&self) -> EntryView {
        EntryView { mode: self.mode@, name: self.name@, hash: self.hash@ }
    }
}

impl View for Tree {
    type V = Seq<EntryView>;

    open spec fn view(&self) -> Seq<EntryView> {
        views(self.entries@)
    }
}

impl View for Object {
    type V = ObjectView;

    open spec fn view(&self) -> ObjectView {
        match self {
            Object::Blob(blob) => ObjectView::Blob(blob@),
            Object::Tree(tree) => ObjectView::Tree(tree@),
        }
    }
}

/// The mathematical value of the outcome of reading an object.
pub open spec fn result_view<E>(res: Result<Object, E>) -> Result<ObjectView, E> {
    match res {
        Ok(object) => Ok(object@),
        Err(error) => Err(error),
    }
}

/// The hash under which bytes are stored: their SHA-1 digest in hex.
pub open spec fn spec_hash(bytes: Seq<u8>) -> Seq<char> {
    hex_lower(sha1_digest(bytes))
}

/// The hash of an object: that of its framed bytes.
pub open spec fn spec_object_hash(object: ObjectView) -> Seq<char> {
    spec_hash(spec_encode(object))
}

/// What a stored object reads as, given what its bytes inflate to.
pub open spec fn spec_read(inflated: Option<Seq<u8>>) -> Result<ObjectView, Error> {
    match inflated {
        None => Err(Error::DecompressError),
        Some(bytes) => match spec_decode(bytes) {
            Ok(object) => Ok(object),
            Err(error) => Err(Error::ParseError(error)),
        },
    }
}

/// Reading the same stored bytes twice gives the same outcome, and where
/// that is an object, both encode to identical bytes.
pub proof fn law_reads_agree(
    stored: Seq<u8>,
    first: Result<Object, Error>,
    second: Result<Object, Error>,
)
    requires
        result_view(first) == spec_read(zlib_inflate(stored)),
        result_view(second) == spec_read(zlib_inflate(stored)),
    ensures
        result_view(first) == result_view(second),
        first matches Ok(a) ==> second matches Ok(b) && a@ == b@ && spec_encode(a@) == spec_encode(
            b@,
        ),
{
}

/// The hash of `s`: forty lowercase hex digits.
pub fn hash(s: &[u8]) -> (text: String)
    ensures
        text@ == spec_hash(s@),
        is_hash(text@),
{
    let digest = sha1(s);
    proof {
        lemma_hex_lower_is_lower_hex(digest@);
    }
    to_hex(digest.as_slice())
}

/// The hash of `object`.
pub fn object_hash(object: &Object) -> (text: String)
    requires
        object@.valid(),
    ensures
        text@ == spec_object_hash(object@),
        is_hash(text@),
{
    let bytes = encode(object);
    hash(bytes.as_slice())
}

/// Whether `text` is the canonical text form of a hash.
pub fn is_hash_text(text: &str) -> (ok: bool)
    ensures
        ok == is_hash(text@),
{
    if !text.is_ascii() {
        return false;
    }
    let bytes = text.as_bytes();
    proof {
        is_ascii_spec_bytes(text);
        assert(bytes@ =~= ascii_bytes(text@));
    }
    if bytes.len() != HASH_CHARS {
        return false;
    }
    let mut i: usize = 0;
    while i < HASH_CHARS
        invariant
            i <= HASH_CHARS,
            text.is_ascii(),
            bytes@.len() == HASH_CHARS,
            bytes@ == ascii_bytes(text@),
            forall|j: int| 0 <= j < i ==> is_lower_hex(#[trigger] text@[j]),
        decreases HASH_CHARS - i,
    {
        let b = bytes[i];
        if !((0x30 <= b && b <= 0x39) || (0x61 <= b && b <= 0x66)) {
            assert(!is_lower_hex(text@[i as int]));
            return false;
        }
        assert(is_lower_hex(text@[i as int]));
        i = i + 1;
    }
    true
}

impl Blob {
    /// A blob with the given content.
    pub fn new(content: Vec<u8>) -> (blob: Blob)
        ensures
            blob.content == content,
    {
        Blob { content }
    }

    /// The hash of the blob as an object.
    pub fn hash(self) -> (text: String)
        ensures
            text@ == spec_object_hash(ObjectView::Blob(self@)),
            is_hash(text@),
    {
        let data = frame(ObjectKind::Blob, self.content.as_slice());
        hash(data.as_slice())
    }
}

impl Entry {
    /// Whether the entry can be stored and read back.
    pub fn is_valid(&self) -> (ok: bool)
        ensures
            ok == self@.valid(),
    {
        proof {
            self.mode@.index_of_first_ensures(SPACE);
            self.name@.index_of_first_ensures(NUL);
            assert(self.mode@.skip(0) =~= self.mode@);
            assert(self.name@.skip(0) =~= self.name@);
        }
        is_hash_text(self.hash.as_str()) && find_byte(self.mode.as_slice(), 0, SPACE).is_none()
            && find_byte(self.name.as_slice(), 0, NUL).is_none()
    }

    /// An entry of the given parts, if they make a valid one.
    pub fn new(mode: Vec<u8>, name: Vec<u8>, hash: String) -> (res: Option<Entry>)
        ensures
            match res {
                Some(entry) => entry.mode == mode && entry.name == name && entry.hash == hash
                    && entry@.valid(),
                None => !(EntryView { mode: mode@, name: name@, hash: hash@ }).valid(),
            },
    {
        let entry = Entry { mode, name, hash };
        if entry.is_valid() {
            Some(entry)
        } else {
            None
        }
    }
}

impl Tree {
    /// Whether every entry is valid.
    pub fn is_valid(&self) -> (ok: bool)
        ensures
            ok == all_valid(self@),
    {
        let n = self.entries.len();
        let mut i: usize = 0;
        while i < n
            invariant
                i <= n,
                n == self.entries@.len(),
                n == self@.len(),
                forall|j: int| 0 <= j < i ==> (#[trigger] self@[j]).valid(),
            decreases n - i,
        {
            if !self.entries[i].is_valid() {
                assert(!self@[i as int].valid());
                return false;
            }
            i = i + 1;
        }
        true
    }
}

impl Object {
    /// Reads an object from its framed bytes; `None` where they are
    /// malformed.
    pub fn from_bytes(s: &[u8]) -> (res: Option<Object>)
        ensures
            match res {
                Some(object) => spec_decode(s@) == Ok::<ObjectView, ParseError>(object@)
                    && object@.valid(),
                None => spec_decode(s@) is Err,
            },
    {
        match decode(s) {
            Ok(object) => Some(object),
            Err(_) => None,
        }
    }

    /// Reads an object from what its stored bytes inflated to, `None`
    /// standing for bytes that did not inflate.
    pub fn from_inflated(inflated: Option<Vec<u8>>) -> (res: Result<Object, Error>)
        ensures
            result_view(res) == spec_read(
                match inflated {
                    Some(bytes) => Some(bytes@),
                    None => None,
                },
            ),
            res matches Ok(object) ==> object@.valid(),
    {
        match inflated {
            None => Err(Error::DecompressError),
            Some(bytes) => match decode(bytes.as_slice()) {
                Ok(object) => Ok(object),
                Err(error) => Err(Error::ParseError(error)),
            },
        }
    }

    /// Reads an object from its stored, compressed bytes.
    pub fn from_compressed(data: &[u8]) -> (res: Result<Object, Error>)
        ensures
            result_view(res) == spec_read(zlib_inflate(data@)),
            res matches Ok(object) ==> object@.valid(),
    {
        match inflate(data) {
            Ok(bytes) => Object::from_inflated(Some(bytes)),
            Err(_) => Object::from_inflated(None),
        }
    }

    /// Reads an object from what was found at its place in the store:
    /// nothing there is not found, an unreadable file is an I/O error,
    /// and bytes are inflated and decoded.
    pub fn from_stored(found: &Stored) -> (res: Result<Object, Error>)
        ensures
            match found {
                Stored::Missing => res == Err::<Object, Error>(Error::NotFound),
                Stored::Unreadable => res == Err::<Object, Error>(Error::IoError),
                Stored::Bytes(data) => result_view(res) == spec_read(zlib_inflate(data@)),
            },
            res matches Ok(object) ==> object@.valid(),
    {
        match found {
            Stored::Missing => Err(Error::NotFound),
            Stored::Unreadable => Err(Error::IoError),
            Stored::Bytes(data) => Object::from_compressed(data.as_slice()),
        }
    }

    /// Whether every entry of the object is valid.
    pub fn is_valid(&self) -> (ok: bool)
        ensures
            ok == self@.valid(),
    {
        match self {
            Object::Blob(_) => true,
            Object::Tree(tree) => tree.is_valid(),
        }
    }

    /// Which kind of object this is.
    pub fn kind(&self) -> (kind: ObjectKind)
        ensures
            kind == self@.kind(),
    {
        match self {
            Object::Blob(_) => ObjectKind::Blob,
            Object::Tree(_) => ObjectKind::Tree,
        }
    }
}

} // verus!
