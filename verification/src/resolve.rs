//! Resolution of an abbreviated hash against the listing of its bucket.
//!
//! Objects are sharded by the first two characters of their hash, the
//! bucket. A prefix names its bucket with its first two characters; the
//! names in that bucket that start with the remaining ones are its
//! candidates, and it resolves where there is exactly one.

use crate::error::Error;
use crate::hexfmt::{is_hex_char, is_lower_hex};
use crate::object::{is_hash, HASH_CHARS};
use vstd::prelude::*;
use vstd::string::{StrSliceExecFns, StringExecFns};

verus! {

/// Number of characters that name the bucket.
pub const BUCKET_CHARS: usize = 2;

/// `prefix` can be resolved: two to forty hex digits of either case.
pub open spec fn is_prefix_text(prefix: Seq<char>) -> bool {
    &&& BUCKET_CHARS <= prefix.len() <= HASH_CHARS
    &&& forall|i: int| 0 <= i < prefix.len() ==> is_hex_char(#[trigger] prefix[i])
}

/// The names among `names` that start with `rest`, in listing order.
pub open spec fn candidates(names: Seq<Seq<char>>, rest: Seq<char>) -> Seq<Seq<char>> {
    names.filter(|name: Seq<char>| rest.is_prefix_of(name))
}

/// What `prefix` resolves to, given the names listed in its bucket, or
/// `None` where that bucket does not exist.
pub open spec fn spec_resolve(prefix: Seq<char>, listing: Option<Seq<Seq<char>>>) -> Result<
    Seq<char>,
    Error,
> {
    if !is_prefix_text(prefix) {
        Err(Error::NotFound)
    } else {
        match listing {
            None => Err(Error::NotFound),
            Some(names) => {
                let matching = candidates(names, prefix.skip(BUCKET_CHARS as int));
                if matching.len() == 0 {
                    Err(Error::NotFound)
                } else if matching.len() == 1 {
                    Ok(prefix.take(BUCKET_CHARS as int) + matching[0])
                } else {
                    Err(Error::Ambiguous)
                }
            },
        }
    }
}

/// The mathematical value of a resolution's outcome.
pub open spec fn text_view(res: Result<String, Error>) -> Result<Seq<char>, Error> {
    match res {
        Ok(text) => Ok(text@),
        Err(error) => Err(error),
    }
}

/// The mathematical value of a listing.
pub open spec fn listing_view(listing: Option<&Vec<String>>) -> Option<Seq<Seq<char>>> {
    match listing {
        Some(names) => Some(names.deep_view()),
        None => None,
    }
}

fn is_hex(c: char) -> (ok: bool)
    ensures
        ok == is_hex_char(c),
{
    ('0' <= c && c <= '9') || ('a' <= c && c <= 'f') || ('A' <= c && c <= 'F')
}

/// Whether `prefix` can be resolved.
pub fn is_prefix(prefix: &str) -> (ok: bool)
    ensures
        ok == is_prefix_text(prefix@),
{
    let n = prefix.unicode_len();
    if n < BUCKET_CHARS || n > HASH_CHARS {
        return false;
    }
    let mut i: usize = 0;
    while i < n
        invariant
            i <= n,
            n == prefix@.len(),
            forall|j: int| 0 <= j < i ==> is_hex_char(#[trigger] prefix@[j]),
        decreases n - i,
    {
        if !is_hex(prefix.get_char(i)) {
            return false;
        }
        i = i + 1;
    }
    true
}

/// The bucket that `prefix` names: its first two characters. A prefix
/// that cannot be resolved names none and is reported as not found.
pub fn bucket_of(prefix: &str) -> (res: Result<String, Error>)
    ensures
        text_view(res) == if is_prefix_text(prefix@) {
            Ok::<Seq<char>, Error>(prefix@.take(BUCKET_CHARS as int))
        } else {
            Err::<Seq<char>, Error>(Error::NotFound)
        },
{
    if !is_prefix(prefix) {
        return Err(Error::NotFound);
    }
    let bucket = prefix.substring_char(0, BUCKET_CHARS);
    assert(bucket@ =~= prefix@.take(BUCKET_CHARS as int));
    Ok(String::from_str(bucket))
}

/// Whether `name` starts with `rest`, character by character.
pub fn starts_with(name: &str, rest: &str) -> (ok: bool)
    ensures
        ok == rest@.is_prefix_of(name@),
{
    let n = rest.unicode_len();
    if name.unicode_len() < n {
        return false;
    }
    let mut i: usize = 0;
    while i < n
        invariant
            i <= n,
            n == rest@.len(),
            n <= name@.len(),
            forall|j: int| 0 <= j < i ==> name@[j] == rest@[j],
        decreases n - i,
    {
        if name.get_char(i) != rest.get_char(i) {
            assert(name@.subrange(0, n as int)[i as int] != rest@[i as int]);
            return false;
        }
        i = i + 1;
    }
    assert(name@.subrange(0, n as int) =~= rest@);
    true
}

/// Resolves `prefix` against `listing`, the names found in the bucket
/// that `prefix` names, or `None` where that bucket does not exist.
pub fn resolve(prefix: &str, listing: Option<&Vec<String>>) -> (res: Result<String, Error>)
    ensures
        text_view(res) == spec_resolve(prefix@, listing_view(listing)),
{
    if !is_prefix(prefix) {
        return Err(Error::NotFound);
    }
    let names = match listing {
        Some(names) => names,
        None => {
            return Err(Error::NotFound);
        },
    };
    let rest = prefix.substring_char(BUCKET_CHARS, prefix.unicode_len());
    assert(rest@ =~= prefix@.skip(BUCKET_CHARS as int));
    let ghost all = names.deep_view();
    let ghost fits = |name: Seq<char>| rest@.is_prefix_of(name);
    let mut found: Option<usize> = None;
    let mut i: usize = 0;
    proof {
        reveal(Seq::filter);
    }
    while i < names.len()
        invariant
            i <= names.len(),
            is_prefix_text(prefix@),
            rest@ == prefix@.skip(BUCKET_CHARS as int),
            listing_view(listing) == Some(all),
            all == names.deep_view(),
            all.len() == names.len(),
            fits == |name: Seq<char>| rest@.is_prefix_of(name),
            match found {
                None => all.take(i as int).filter(fits).len() == 0,
                Some(at) => at < i && all.take(i as int).filter(fits) == seq![all[at as int]],
            },
        decreases names.len() - i,
    {
        let ghost before = all.take(i as int);
        proof {
            reveal(Seq::filter);
            assert(all.take(i + 1).drop_last() =~= before);
            assert(all.take(i + 1).last() == all[i as int]);
            assert(all[i as int] == names[i as int]@);
        }
        if starts_with(names[i].as_str(), rest) {
            if found.is_some() {
                assert(all.take(i + 1).filter(fits).len() == 2);
                proof {
                    lemma_candidates_grow(all, fits, i + 1);
                }
                return Err(Error::Ambiguous);
            }
            found = Some(i);
        }
        i = i + 1;
    }
    assert(all.take(i as int) =~= all);
    match found {
        None => Err(Error::NotFound),
        Some(at) => {
            let bucket = prefix.substring_char(0, BUCKET_CHARS);
            assert(bucket@ =~= prefix@.take(BUCKET_CHARS as int));
            Ok(String::from_str(bucket).concat(names[at].as_str()))
        },
    }
}

/// Looking at more of a listing never loses a candidate.
pub proof fn lemma_candidates_grow(
    all: Seq<Seq<char>>,
    fits: spec_fn(Seq<char>) -> bool,
    upto: int,
)
    requires
        0 <= upto <= all.len(),
    ensures
        all.take(upto).filter(fits).len() <= all.filter(fits).len(),
    decreases all.len() - upto,
{
    reveal(Seq::filter);
    if upto < all.len() {
        assert(all.take(upto + 1).drop_last() =~= all.take(upto));
        lemma_candidates_grow(all, fits, upto + 1);
    } else {
        assert(all.take(upto) =~= all);
    }
}

/// In a listing where `at` is the only index whose name passes `fits`,
/// the names up to `upto` that pass are that one, once `upto` is beyond it.
proof fn lemma_single_candidate(
    all: Seq<Seq<char>>,
    fits: spec_fn(Seq<char>) -> bool,
    at: int,
    upto: int,
)
    requires
        0 <= at < all.len(),
        0 <= upto <= all.len(),
        forall|i: int| 0 <= i < all.len() ==> (fits(#[trigger] all[i]) <==> i == at),
    ensures
        all.take(upto).filter(fits) == if upto > at {
            seq![all[at]]
        } else {
            Seq::<Seq<char>>::empty()
        },
    decreases upto,
{
    reveal(Seq::filter);
    if upto > 0 {
        lemma_single_candidate(all, fits, at, upto - 1);
        assert(all.take(upto).drop_last() =~= all.take(upto - 1));
        assert(all.take(upto).last() == all[upto - 1]);
        assert(all.take(upto).filter(fits) =~= if upto > at {
            seq![all[at]]
        } else {
            Seq::<Seq<char>>::empty()
        });
    }
}

/// What a prefix resolves to starts with the prefix and is the bucket
/// followed by one of the names listed in it.
pub proof fn law_resolved_is_listed(prefix: Seq<char>, names: Seq<Seq<char>>)
    ensures
        spec_resolve(prefix, Some(names)) matches Ok(hash) ==> {
            &&& prefix.is_prefix_of(hash)
            &&& names.contains(hash.skip(BUCKET_CHARS as int))
            &&& hash.take(BUCKET_CHARS as int) == prefix.take(BUCKET_CHARS as int)
        },
{
    if let Ok(hash) = spec_resolve(prefix, Some(names)) {
        let rest = prefix.skip(BUCKET_CHARS as int);
        let bucket = prefix.take(BUCKET_CHARS as int);
        let fits = |name: Seq<char>| rest.is_prefix_of(name);
        let matching = names.filter(fits);
        names.lemma_filter_pred(fits, 0);
        assert(matching.contains(matching[0]));
        names.lemma_filter_contains_rev(fits, matching[0]);
        assert(hash.skip(BUCKET_CHARS as int) =~= matching[0]);
        assert(hash.take(BUCKET_CHARS as int) =~= bucket);
        assert(hash.subrange(0, prefix.len() as int) =~= prefix) by {
            assert(matching[0].subrange(0, rest.len() as int) == rest);
            assert forall|i: int| 0 <= i < prefix.len() implies hash[i] == prefix[i] by {
                if i >= BUCKET_CHARS {
                    assert(matching[0].subrange(0, rest.len() as int)[i - BUCKET_CHARS] == rest[i
                        - BUCKET_CHARS]);
                }
            }
        }
    }
}

/// Each name occurs among the candidates as often as in the listing, if
/// it passes, and not at all otherwise.
proof fn lemma_candidate_count(
    all: Seq<Seq<char>>,
    fits: spec_fn(Seq<char>) -> bool,
    name: Seq<char>,
)
    ensures
        all.filter(fits).to_multiset().count(name) == if fits(name) {
            all.to_multiset().count(name)
        } else {
            0
        },
    decreases all.len(),
{
    broadcast use vstd::seq_lib::group_to_multiset_ensures;

    reveal(Seq::filter);
    if all.len() == 0 {
        assert(all.filter(fits) =~= all);
        assert(all.to_multiset().count(name) == 0) by {
            assert(!all.contains(name));
        }
    } else {
        let front = all.drop_last();
        lemma_candidate_count(front, fits, name);
        assert(all =~= front.push(all.last()));
        assert(all.to_multiset() =~= front.to_multiset().insert(all.last()));
    }
}

/// The outcome does not depend on the order in which the names of the
/// bucket are listed.
pub proof fn law_listing_order_is_irrelevant(
    prefix: Seq<char>,
    one: Seq<Seq<char>>,
    other: Seq<Seq<char>>,
)
    requires
        one.to_multiset() == other.to_multiset(),
    ensures
        spec_resolve(prefix, Some(one)) == spec_resolve(prefix, Some(other)),
{
    broadcast use vstd::seq_lib::group_to_multiset_ensures;

    let rest = prefix.skip(BUCKET_CHARS as int);
    let fits = |name: Seq<char>| rest.is_prefix_of(name);
    let a = one.filter(fits);
    let b = other.filter(fits);
    assert(a.to_multiset() =~= b.to_multiset()) by {
        assert forall|name: Seq<char>|
            a.to_multiset().count(name) == b.to_multiset().count(name) by {
            lemma_candidate_count(one, fits, name);
            lemma_candidate_count(other, fits, name);
        }
    }
    a.to_multiset_ensures();
    b.to_multiset_ensures();
    assert(a.len() == b.len());
    if a.len() == 1 {
        assert(a.contains(a[0]));
        assert(b.to_multiset().count(a[0]) > 0);
        assert(b.contains(a[0]));
    }
}

/// A text that is not two to forty hex digits resolves to nothing,
/// whatever the store holds.
pub proof fn law_unusable_prefix_not_found(prefix: Seq<char>, listing: Option<Seq<Seq<char>>>)
    requires
        !is_prefix_text(prefix),
    ensures
        spec_resolve(prefix, listing) == Err::<Seq<char>, Error>(Error::NotFound),
{
}

/// The first `k` characters of a stored hash resolve to that hash, for
/// every `k` from two to forty, provided that no other name in the bucket
/// starts with the same characters.
pub proof fn law_unique_prefix_resolves(hash: Seq<char>, k: int, names: Seq<Seq<char>>, at: int)
    requires
        is_hash(hash),
        BUCKET_CHARS <= k <= HASH_CHARS,
        0 <= at < names.len(),
        names[at] == hash.skip(BUCKET_CHARS as int),
        forall|i: int|
            0 <= i < names.len() && i != at ==> !hash.subrange(BUCKET_CHARS as int, k).is_prefix_of(
                #[trigger] names[i],
            ),
    ensures
        spec_resolve(hash.take(k), Some(names)) == Ok::<Seq<char>, Error>(hash),
{
    let prefix = hash.take(k);
    let rest = prefix.skip(BUCKET_CHARS as int);
    let fits = |name: Seq<char>| rest.is_prefix_of(name);
    assert(is_prefix_text(prefix)) by {
        assert forall|i: int| 0 <= i < prefix.len() implies is_hex_char(#[trigger] prefix[i]) by {
            assert(is_lower_hex(hash[i]));
        }
    }
    assert(rest =~= hash.subrange(BUCKET_CHARS as int, k));
    assert(rest.is_prefix_of(names[at])) by {
        assert(names[at].subrange(0, rest.len() as int) =~= rest);
    }
    lemma_single_candidate(names, fits, at, names.len() as int);
    assert(names.take(names.len() as int) =~= names);
    assert(prefix.take(BUCKET_CHARS as int) + names[at] =~= hash);
}

/// A prefix with which two names of its bucket start is ambiguous.
pub proof fn law_shared_prefix_is_ambiguous(
    prefix: Seq<char>,
    names: Seq<Seq<char>>,
    i: int,
    j: int,
)
    requires
        is_prefix_text(prefix),
        0 <= i < j < names.len(),
        prefix.skip(BUCKET_CHARS as int).is_prefix_of(names[i]),
        prefix.skip(BUCKET_CHARS as int).is_prefix_of(names[j]),
    ensures
        spec_resolve(prefix, Some(names)) == Err::<Seq<char>, Error>(Error::Ambiguous),
{
    let rest = prefix.skip(BUCKET_CHARS as int);
    let fits = |name: Seq<char>| rest.is_prefix_of(name);
    let head = names.take(j);
    reveal(Seq::filter);
    assert(fits(head[i]));
    head.lemma_filter_contains(fits, i);
    assert(head.filter(fits).len() >= 1);
    assert(names.take(j + 1).drop_last() =~= head);
    assert(names.take(j + 1).last() == names[j]);
    assert(names.take(j + 1).filter(fits).len() >= 2);
    lemma_candidates_grow(names, fits, j + 1);
}

} // verus!
