//! Chance: drawing one of several, and numbering an outgoing message.
use rand::seq::SliceRandom;
use rand::RngExt;
use vstd::prelude::*;

verus! {

/// `rand::seq::SliceRandom::partial_shuffle` with the thread's generator: the items change places
/// so that the last `amount` of them (all, where there are fewer) are drawn by chance from the
/// whole; these are returned, in the order in which they then stand. Which items they are is left
/// to chance.
#[verifier::external_body]
fn partial_shuffle(items: &mut Vec<usize>, amount: usize) -> (picked: Vec<usize>)
    ensures
        final(items)@.to_multiset() == old(items)@.to_multiset(),
        picked@ == final(items)@.skip(
            if amount <= final(items)@.len() {
                final(items)@.len() - amount
            } else {
                0
            },
        ),
{
    let (picked, _) = items.partial_shuffle(&mut rand::rng(), amount);
    picked.to_vec()
}

/// `rand::RngExt::random_range` with the thread's generator: some number from `low` up to, but not
/// including, `high`. Which one is left to chance.
#[verifier::external_body]
fn random_range(low: i32, high: i32) -> (number: i32)
    requires
        low < high,
    ensures
        low <= number < high,
{
    rand::rng().random_range(low..high)
}

/// Draws the place of one item out of `count`.
pub fn pick_index(count: usize) -> (index: usize)
    requires
        count > 0,
    ensures
        index < count,
{
    let mut indices: Vec<usize> = Vec::new();
    let mut i: usize = 0;
    while i < count
        invariant
            i <= count,
            indices@.len() == i,
            forall|j: int| 0 <= j < i ==> indices@[j] == j,
        decreases count - i,
    {
        indices.push(i);
        i += 1;
    }
    let ghost before = indices@;
    let picked = partial_shuffle(&mut indices, 1);
    proof {
        let after = indices@;
        broadcast use vstd::seq_lib::group_to_multiset_ensures;

        assert(before.to_multiset().len() == count);
        assert(after.to_multiset().len() == after.len());
        assert(after.len() == count);
        assert(picked@[0] == after[count - 1]);
        assert(after.contains(after[count - 1]));
        assert(after.to_multiset().contains(after[count - 1]));
        assert(before.contains(after[count - 1]));
    }
    picked[0]
}

/// Draws the number that tells one outgoing message from another.
pub fn message_number() -> (number: i32)
    ensures
        1 <= number < 999_999_999,
{
    random_range(1, 999_999_999)
}

} // verus!
