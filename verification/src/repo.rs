//! The handle to a store and the layout of its files:
//! `<root>/objects/<first two hash characters>/<the other thirty-eight>`.

use crate::error::Error;
use crate::object::{is_hash, is_hash_text, HASH_CHARS};
use crate::resolve::{
    bucket_of, is_prefix_text, law_resolved_is_listed, spec_resolve, text_view, BUCKET_CHARS,
};
use vstd::prelude::*;
use vstd::string::{StrSliceExecFns, StringExecFns};

verus! {

/// A store of objects, known by the directory it lives in.
#[derive(Debug, Clone, PartialEq, Eq)]
pub struct Repo {
    root: String,
}

/// The directory of a bucket below `root`.
pub open spec fn spec_bucket_dir(root: Seq<char>, bucket: Seq<char>) -> Seq<char> {
    root + "/objects/"@ + bucket
}

/// The file that holds the object with the given hash below `root`.
pub open spec fn spec_object_path(root: Seq<char>, hash: Seq<char>) -> Seq<char> {
    spec_bucket_dir(root, hash.take(BUCKET_CHARS as int)) + "/"@ + hash.skip(BUCKET_CHARS as int)
}

/// The file of a hash that a prefix resolved to is the file of that name
/// in the bucket directory that was listed for the prefix.
pub proof fn law_resolved_file_is_listed(
    root: Seq<char>,
    prefix: Seq<char>,
    names: Seq<Seq<char>>,
    hash: Seq<char>,
)
    requires
        spec_resolve(prefix, Some(names)) == Ok::<Seq<char>, Error>(hash),
    ensures
        names.contains(hash.skip(BUCKET_CHARS as int)),
        spec_object_path(root, hash) == spec_bucket_dir(root, prefix.take(BUCKET_CHARS as int))
            + "/"@ + hash.skip(BUCKET_CHARS as int),
{
    law_resolved_is_listed(prefix, names);
}

impl View for Repo {
    type V = Seq<char>;

    /// The root directory.
    closed spec fn view(&self) -> Seq<char> {
        self.root@
    }
}

impl Repo {
    /// The store rooted at `root`.
    pub fn new(root: &str) -> (repo: Repo)
        ensures
            repo@ == root@,
    {
        Repo { root: String::from_str(root) }
    }

    /// The root directory.
    pub fn root(&self) -> (root: &str)
        ensures
            root@ == self@,
    {
        self.root.as_str()
    }

    /// The directory of the bucket that `prefix` names. A prefix that
    /// cannot be resolved names none and is reported as not found.
    pub fn bucket_dir(&self, prefix: &str) -> (res: Result<String, Error>)
        ensures
            text_view(res) == if is_prefix_text(prefix@) {
                Ok::<Seq<char>, Error>(spec_bucket_dir(self@, prefix@.take(BUCKET_CHARS as int)))
            } else {
                Err::<Seq<char>, Error>(Error::NotFound)
            },
    {
        match bucket_of(prefix) {
            Ok(bucket) => {
                let mut path = self.root.clone();
                path.append("/objects/");
                path.append(bucket.as_str());
                Ok(path)
            },
            Err(error) => Err(error),
        }
    }

    /// The file that holds the object with the given hash, or `None`
    /// where `hash` is not the canonical text of a hash.
    pub fn object_path(&self, hash: &str) -> (res: Option<String>)
        ensures
            match res {
                Some(path) => is_hash(hash@) && path@ == spec_object_path(self@, hash@),
                None => !is_hash(hash@),
            },
    {
        if !is_hash_text(hash) {
            return None;
        }
        let bucket = hash.substring_char(0, BUCKET_CHARS);
        let file = hash.substring_char(BUCKET_CHARS, HASH_CHARS);
        assert(bucket@ =~= hash@.take(BUCKET_CHARS as int));
        assert(file@ =~= hash@.skip(BUCKET_CHARS as int));
        let mut path = self.root.clone();
        path.append("/objects/");
        path.append(bucket);
        path.append("/");
        path.append(file);
        Some(path)
    }
}

} // verus!
