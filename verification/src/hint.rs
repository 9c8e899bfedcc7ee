//! Sampling of suggested questions for the greeting endpoint: a seeded
//! shuffle of the configured question list, of which the first three are
//! offered.

use vstd::prelude::*;
use vstd::seq_lib::group_to_multiset_ensures;

verus! {

#[verifier::external_type_specification]
#[verifier::external_body]
pub struct ExXorShiftRng(rand_xorshift::XorShiftRng);

/// Relies on rand_xorshift::XorShiftRng::seed_from_u64 (rand's SeedableRng):
/// a generator deterministically derived from the seed.
#[verifier::external_body]
fn seeded_rng(seed: u64) -> rand_xorshift::XorShiftRng {
    rand::SeedableRng::seed_from_u64(seed)
}

/// Relies on rand::seq::SliceRandom::shuffle: an in-place permutation of the
/// elements, so the multiset of elements is unchanged.
#[verifier::external_body]
fn shuffle_questions(v: &mut Vec<String>, rng: &mut rand_xorshift::XorShiftRng)
    ensures
        final(v)@.to_multiset() == old(v)@.to_multiset(),
{
    rand::seq::SliceRandom::shuffle(v.as_mut_slice(), rng);
}

/// A prefix draws its elements from the whole.
proof fn lemma_take_to_multiset_subset(s: Seq<String>, k: int)
    requires
        0 <= k <= s.len(),
    ensures
        s.take(k).to_multiset().subset_of(s.to_multiset()),
    decreases s.len() - k,
{
    broadcast use group_to_multiset_ensures;

    if k == s.len() {
        assert(s.take(k) =~= s);
    } else {
        lemma_take_to_multiset_subset(s, k + 1);
        assert(s.take(k).push(s[k]) =~= s.take(k + 1));
        assert(s.take(k + 1).to_multiset() == s.take(k).to_multiset().insert(s[k]));
    }
}

/// Pick three questions to suggest: shuffle the configured list with a
/// time-derived seed and keep the first three.  Every suggested question
/// comes from the configured list.
pub fn sample_questions(questions: Vec<String>, seed: u64) -> (r: Vec<String>)
    requires
        questions@.len() >= 3,
    ensures
        r@.len() == 3,
        r@.to_multiset().subset_of(questions@.to_multiset()),
{
    let mut shuffled = questions;
    let ghost before = shuffled@;
    let mut rng = seeded_rng(seed);
    shuffle_questions(&mut shuffled, &mut rng);
    let ghost permuted = shuffled@;
    proof {
        broadcast use group_to_multiset_ensures;

        assert(permuted.len() == permuted.to_multiset().len());
        assert(before.len() == before.to_multiset().len());
    }
    shuffled.truncate(3);
    proof {
        broadcast use group_to_multiset_ensures;

        assert(shuffled@ =~= permuted.take(3));
        lemma_take_to_multiset_subset(permuted, 3);
    }
    shuffled
}

} // verus!
