//! Words that each fill cache lines of their own.

use cache_padded::CachePadded;
use vstd::prelude::*;

verus! {

/// `cache_padded::CachePadded`: a value aligned and padded to the length of a cache line.
#[verifier::external_type_specification]
#[verifier::external_body]
#[verifier::reject_recursive_types(T)]
pub struct ExCachePadded<T>(CachePadded<T>);

/// The word inside a padded word.
pub uninterp spec fn padded_word(padded: CachePadded<usize>) -> usize;

/// `CachePadded::new`: pads a word. The word inside is the one given.
#[allow(deprecated)]
#[verifier::external_body]
pub(crate) fn pad(word: usize) -> (padded: CachePadded<usize>)
    ensures
        padded_word(padded) == word,
{
    CachePadded::new(word)
}

/// `<CachePadded<T> as Deref>::deref`: a reference to the word inside, copied out here.
#[allow(deprecated)]
#[verifier::external_body]
pub(crate) fn load(padded: &CachePadded<usize>) -> (word: usize)
    ensures
        word == padded_word(*padded),
{
    **padded
}

/// `<CachePadded<T> as DerefMut>::deref_mut`: a reference through which the word inside is
/// replaced. Afterwards the word inside is the new one.
#[allow(deprecated)]
#[verifier::external_body]
pub(crate) fn store(padded: &mut CachePadded<usize>, word: usize)
    ensures
        padded_word(*final(padded)) == word,
{
    **padded = word;
}

} // verus!
