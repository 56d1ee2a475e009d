//! Minting of random, non-sequential identifiers.
use vstd::prelude::*;

verus! {

/// How many random draws are tried before giving up.
pub const ID_RETRY_COUNT: usize = 20;

/// Identifiers are non-negative 63-bit integers, so that they fit a signed
/// 64-bit column.
pub const MAX_ID: u64 = 0x7FFF_FFFF_FFFF_FFFF;

/// No fresh identifier was found within the retry budget.
#[derive(Debug, Clone, Copy, PartialEq, Eq, Structural)]
pub enum IdError {
    ResourceExhausted,
}

/// Relies on `rand::random`: a value drawn from the thread-local generator.
/// Nothing is known of the value.
pub assume_specification<T>[ rand::random::<T> ]() -> (r: T)
    where
        rand::distributions::Standard: rand::distributions::Distribution<T>,
;

/// Whether `id` occurs in `ids`.
pub fn contains_id(ids: &Vec<u64>, id: u64) -> (r: bool)
    ensures
        r == ids@.contains(id),
{
    let mut i: usize = 0;
    while i < ids.len()
        invariant
            0 <= i <= ids@.len(),
            forall|j: int| 0 <= j < i ==> ids@[j] != id,
        decreases ids@.len() - i,
    {
        if ids[i] == id {
            return true;
        }
        i = i + 1;
    }
    false
}

/// The identifier made from a random draw: its upper 63 bits, unless
/// `taken` already holds it.
pub fn pick(taken: &Vec<u64>, draw: u64) -> (r: Option<u64>)
    ensures
        r == (if taken@.contains(draw / 2) {
            None
        } else {
            Some(draw / 2)
        }),
{
    let candidate: u64 = draw / 2;
    if contains_id(taken, candidate) {
        None
    } else {
        Some(candidate)
    }
}

/// Draws identifiers until one is not in `taken`, at most
/// `ID_RETRY_COUNT` times. With nothing taken the first draw is kept.
pub fn generate_id(taken: &Vec<u64>) -> (r: Result<u64, IdError>)
    ensures
        r matches Ok(id) ==> id <= MAX_ID && !taken@.contains(id),
        taken@.len() == 0 ==> r is Ok,
{
    let mut attempt: usize = 0;
    while attempt < ID_RETRY_COUNT
        invariant
            taken@.len() == 0 ==> attempt == 0,
        decreases ID_RETRY_COUNT - attempt,
    {
        let draw: u64 = rand::random::<u64>();
        if let Some(id) = pick(taken, draw) {
            return Ok(id);
        }
        attempt = attempt + 1;
    }
    Err(IdError::ResourceExhausted)
}

/// Adding an identifier that `generate_id` returned keeps a list of
/// identifiers free of duplicates.
pub proof fn lemma_fresh_id_keeps_unique(ids: Seq<u64>, id: u64)
    requires
        ids.no_duplicates(),
        !ids.contains(id),
    ensures
        ids.push(id).no_duplicates(),
{
    let s = ids.push(id);
    assert forall|i: int, j: int| 0 <= i < s.len() && 0 <= j < s.len() && i != j implies s[i]
        != s[j] by {
        if i == ids.len() {
            assert(ids[j] == s[j]);
        } else if j == ids.len() {
            assert(ids[i] == s[i]);
        }
    }
}

} // verus!
