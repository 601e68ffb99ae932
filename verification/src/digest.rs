//! Feeding text into the running hash that identifies a cached sysroot.
//!
//! The hash state is std's `DefaultHasher`, which is modelled by the sequence
//! of writes made into it so far. What is written, and in which order, is
//! all that the identity depends on.

use std::collections::hash_map::DefaultHasher;
use vstd::prelude::*;

verus! {

/// The writes by which a string is hashed.
pub uninterp spec fn str_writes(s: Seq<char>) -> Seq<Seq<u8>>;

/// Hashes a string into the state.
///
/// Trusted: calls `Hash::hash` of `str` on a `DefaultHasher`; the contract
/// says that the writes made so far stay, and that those added depend on the
/// characters of the string alone.
#[verifier::external_body]
pub(crate) fn hash_str(s: &str, hasher: &mut DefaultHasher)
    ensures
        final(hasher)@ == old(hasher)@ + str_writes(s@),
{
    std::hash::Hash::hash(s, hasher)
}

/// The writes by which a sequence of strings is hashed, one after another.
pub open spec fn writes(tokens: Seq<Seq<char>>) -> Seq<Seq<u8>>
    decreases tokens.len(),
{
    if tokens.len() == 0 {
        Seq::empty()
    } else {
        str_writes(tokens[0]) + writes(tokens.drop_first())
    }
}

/// Hashing a sequence writes what its first string writes, then what the
/// rest writes.
pub proof fn lemma_writes_first(first: Seq<char>, rest: Seq<Seq<char>>)
    ensures
        writes(seq![first] + rest) == str_writes(first) + writes(rest),
{
    assert((seq![first] + rest).drop_first() =~= rest);
}

} // verus!
