//! Finding the next binary of the same name after the running one.
use crate::command::bytes_eq;
use vstd::prelude::*;

verus! {

/// What resolving the next binary gives, stated over path bytes.
pub enum Resolution {
    /// The first entry after the first occurrence of the running binary that
    /// is not the running binary itself.
    Found(Seq<u8>),
    /// The running binary does not occur in the listing.
    NoMatch,
    /// The running binary occurs, but no other path follows it.
    NextBinMissing,
}

/// The paths of a listing, as byte sequences.
pub open spec fn paths_view(v: Seq<Vec<u8>>) -> Seq<Seq<u8>> {
    v.map_values(|p: Vec<u8>| p@)
}

/// `i` is the first position of `me` in `listing`.
pub open spec fn is_first_at(listing: Seq<Seq<u8>>, me: Seq<u8>, i: int) -> bool {
    &&& 0 <= i < listing.len()
    &&& listing[i] == me
    &&& forall|j: int| 0 <= j < i ==> listing[j] != me
}

/// The first entry of `rest` that is not `me`.
pub open spec fn first_other(rest: Seq<Seq<u8>>, me: Seq<u8>) -> Resolution
    decreases rest.len(),
{
    if rest.len() == 0 {
        Resolution::NextBinMissing
    } else if rest[0] != me {
        Resolution::Found(rest[0])
    } else {
        first_other(rest.drop_first(), me)
    }
}

/// The first entry after the first occurrence of `me` that differs from
/// `me`, or why there is none.
pub open spec fn next_bin_spec(listing: Seq<Seq<u8>>, me: Seq<u8>) -> Resolution
    decreases listing.len(),
{
    if listing.len() == 0 {
        Resolution::NoMatch
    } else if listing[0] == me {
        first_other(listing.drop_first(), me)
    } else {
        next_bin_spec(listing.drop_first(), me)
    }
}

/// Where `me` first stands at `i`, resolution looks at what follows `i`.
proof fn lemma_first_at(listing: Seq<Seq<u8>>, me: Seq<u8>, i: int)
    requires
        is_first_at(listing, me, i),
    ensures
        next_bin_spec(listing, me) == first_other(listing.subrange(i + 1, listing.len() as int), me),
    decreases i,
{
    if i > 0 {
        let rest = listing.drop_first();
        assert(rest[i - 1] == listing[i]);
        assert forall|j: int| 0 <= j < i - 1 implies rest[j] != me by {
            assert(rest[j] == listing[j + 1]);
        }
        assert(listing[0] != me);
        lemma_first_at(rest, me, i - 1);
        assert(rest.subrange(i, rest.len() as int) =~= listing.subrange(i + 1, listing.len() as int));
    } else {
        assert(listing.drop_first() =~= listing.subrange(1, listing.len() as int));
    }
}

/// Entries equal to `me` at the front of `rest` are passed over.
proof fn lemma_skip_self(rest: Seq<Seq<u8>>, me: Seq<u8>, k: int)
    requires
        0 <= k <= rest.len(),
        forall|j: int| 0 <= j < k ==> rest[j] == me,
    ensures
        first_other(rest, me) == first_other(rest.subrange(k, rest.len() as int), me),
    decreases k,
{
    if k > 0 {
        let tail = rest.drop_first();
        assert forall|j: int| 0 <= j < k - 1 implies tail[j] == me by {
            assert(tail[j] == rest[j + 1]);
        }
        lemma_skip_self(tail, me, k - 1);
        assert(tail.subrange(k - 1, tail.len() as int) =~= rest.subrange(k, rest.len() as int));
    } else {
        assert(rest.subrange(0, rest.len() as int) =~= rest);
    }
}

/// What `first_other` finds is never `me`.
proof fn lemma_first_other_differs(rest: Seq<Seq<u8>>, me: Seq<u8>)
    ensures
        first_other(rest, me) matches Resolution::Found(p) ==> p != me,
    decreases rest.len(),
{
    if rest.len() > 0 && rest[0] == me {
        lemma_first_other_differs(rest.drop_first(), me);
    }
}

/// The resolved next binary is never the running binary itself.
pub proof fn lemma_next_bin_is_not_self(listing: Seq<Seq<u8>>, me: Seq<u8>)
    ensures
        next_bin_spec(listing, me) matches Resolution::Found(p) ==> p != me,
    decreases listing.len(),
{
    if listing.len() > 0 {
        if listing[0] == me {
            lemma_first_other_differs(listing.drop_first(), me);
        } else {
            lemma_next_bin_is_not_self(listing.drop_first(), me);
        }
    }
}

/// The running binary's absence from the listing gives `NoMatch`.
pub proof fn lemma_no_match(listing: Seq<Seq<u8>>, me: Seq<u8>)
    requires
        !listing.contains(me),
    ensures
        next_bin_spec(listing, me) == Resolution::NoMatch,
    decreases listing.len(),
{
    if listing.len() > 0 {
        assert(listing[0] != me);
        let rest = listing.drop_first();
        assert forall|j: int| 0 <= j < rest.len() implies rest[j] != me by {
            assert(rest[j] == listing[j + 1]);
        }
        lemma_no_match(rest, me);
    }
}

/// Where the running binary occurs exactly once, at a position `i` before the
/// last, resolution returns the entry at `i + 1`.
pub proof fn lemma_next_after_single_self(listing: Seq<Seq<u8>>, me: Seq<u8>, i: int)
    requires
        0 <= i < listing.len() - 1,
        listing[i] == me,
        forall|j: int| 0 <= j < listing.len() && j != i ==> listing[j] != me,
    ensures
        next_bin_spec(listing, me) == Resolution::Found(listing[i + 1]),
{
    lemma_first_at(listing, me, i);
    assert(listing.subrange(i + 1, listing.len() as int)[0] == listing[i + 1]);
}

/// Where the running binary is the final entry, and occurs nowhere before it,
/// resolution reports that no next binary exists.
pub proof fn lemma_last_entry_is_missing(listing: Seq<Seq<u8>>, me: Seq<u8>)
    requires
        listing.len() > 0,
        listing.last() == me,
        forall|j: int| 0 <= j < listing.len() - 1 ==> listing[j] != me,
    ensures
        next_bin_spec(listing, me) == Resolution::NextBinMissing,
{
    lemma_first_at(listing, me, listing.len() - 1);
}

/// Why no next binary could be found; each carries the running binary's path.
#[derive(Debug)]
pub enum FindNextBinError {
    /// The running binary's path is not in the listing.
    NoMatch { current_exe: Vec<u8> },
    /// No path other than the running binary's follows it in the listing.
    NextBinMissing { current_exe: Vec<u8> },
}

/// Returns the first entry of `all_bin_paths` after the first entry equal to
/// `our_bin_path` that differs from `our_bin_path`.
pub fn find_next_bin(our_bin_path: &Vec<u8>, all_bin_paths: Vec<Vec<u8>>) -> (r: Result<
    Vec<u8>,
    FindNextBinError,
>)
    ensures
        match next_bin_spec(paths_view(all_bin_paths@), our_bin_path@) {
            Resolution::Found(p) => r is Ok && r->Ok_0@ == p,
            Resolution::NoMatch => r matches Err(FindNextBinError::NoMatch { current_exe }) && current_exe@ == our_bin_path@,
            Resolution::NextBinMissing => r matches Err(FindNextBinError::NextBinMissing { current_exe }) && current_exe@ == our_bin_path@,
        },
        r matches Ok(p) ==> p@ != our_bin_path@,
{
    let ghost listing = paths_view(all_bin_paths@);
    let ghost me = our_bin_path@;
    let ghost mut first: int = 0;
    let mut found = false;
    let mut i: usize = 0;
    while i < all_bin_paths.len()
        invariant
            listing == paths_view(all_bin_paths@),
            me == our_bin_path@,
            0 <= i <= all_bin_paths.len(),
            found ==> first < i && is_first_at(listing, me, first) && forall|j: int|
                first <= j < i ==> listing[j] == me,
            !found ==> forall|j: int| 0 <= j < i ==> listing[j] != me,
        decreases all_bin_paths.len() - i,
    {
        let is_self = bytes_eq(&all_bin_paths[i], our_bin_path);
        if found && !is_self {
            proof {
                let rest = listing.subrange(first + 1, listing.len() as int);
                lemma_first_at(listing, me, first);
                lemma_skip_self(rest, me, i - first - 1);
                assert(rest.subrange(i - first - 1, rest.len() as int)[0] == listing[i as int]);
            }
            return Ok(all_bin_paths[i].clone());
        }
        if is_self && !found {
            found = true;
            proof {
                first = i as int;
            }
        }
        i = i + 1;
    }
    if found {
        proof {
            let rest = listing.subrange(first + 1, listing.len() as int);
            lemma_first_at(listing, me, first);
            lemma_skip_self(rest, me, i - first - 1);
            assert(rest.subrange(i - first - 1, rest.len() as int).len() == 0);
        }
        Err(FindNextBinError::NextBinMissing { current_exe: our_bin_path.clone() })
    } else {
        proof {
            assert forall|j: int| 0 <= j < listing.len() implies listing[j] != me by {}
            lemma_no_match(listing, me);
        }
        Err(FindNextBinError::NoMatch { current_exe: our_bin_path.clone() })
    }
}

} // verus!
