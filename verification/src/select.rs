//! Random selection over a slice of keys: a uniform pick, and a pick whose
//! weight grows exponentially toward the end of the slice, so that later
//! (lexicographically larger, hence newer) keys are favoured without ever
//! excluding earlier ones.

use vstd::prelude::*;
use vstd::slice::slice_index_get;

verus! {

/// Weight of the first position: one, in 2^16 fixed point.
pub const WEIGHT_BASE: u64 = 0x10000;

/// Ratio between consecutive weights: e raised to the decay constant 1/20,
/// in 2^32 fixed point, so each position weighs about five percent more
/// than the one before it.
pub const DECAY_RATIO_SCALED: u64 = 4515174978;

/// The fixed-point scale of `DECAY_RATIO_SCALED`: 2^32.
pub const DECAY_SCALE: u64 = 0x100000000;

/// Weights saturate here instead of growing without bound.
pub const WEIGHT_CAP: u64 = 0x1000000000000;

/// Sum of a weight sequence.
pub open spec fn sum_weights(s: Seq<u64>) -> int
    decreases s.len(),
{
    if s.len() == 0 {
        0
    } else {
        sum_weights(s.drop_last()) + s.last()
    }
}

/// Relies on rand::Rng::gen_range over `0..n` with rand::thread_rng: it
/// returns a value of the range and panics only when the range is empty.
#[verifier::external_body]
fn random_below(n: usize) -> (r: usize)
    requires
        n > 0,
    ensures
        r < n,
{
    rand::Rng::gen_range(&mut rand::thread_rng(), 0..n)
}

/// Relies on rand::distributions::WeightedIndex over `u64` weights:
/// `new` succeeds on a non-empty weight sequence whose sum is positive and
/// fits the weight type, and `sample` returns an index of the sequence,
/// drawn with probability proportional to its weight.
#[verifier::external_body]
fn weighted_index_below(weights: &Vec<u64>) -> (r: usize)
    requires
        weights@.len() > 0,
        0 < sum_weights(weights@) <= u64::MAX,
    ensures
        r < weights@.len(),
{
    let dist = rand::distributions::WeightedIndex::new(weights.iter()).unwrap();
    rand::Rng::sample(&mut rand::thread_rng(), dist)
}

/// Picks a key uniformly at random: none exactly when `keys` is empty,
/// otherwise always one of the keys.
pub fn select_uniform<'a>(keys: &'a [String]) -> (r: Option<&'a str>)
    ensures
        r is None <==> keys@.len() == 0,
        r matches Some(k) ==> exists|i: int| 0 <= i < keys@.len() && k@ == keys@[i]@,
{
    if keys.len() == 0 {
        return None;
    }
    let idx = random_below(keys.len());
    let k = slice_index_get(keys, idx).as_str();
    proof {
        assert((idx as int) < keys@.len() && k@ == keys@[idx as int]@);
    }
    Some(k)
}

/// Picks a key at random with exponentially decayed weights: none exactly
/// when `keys` is empty, otherwise always one of the keys, with positions
/// near the end of the slice favoured.
pub fn select_biased<'a>(keys: &'a [String]) -> (r: Option<&'a str>)
    ensures
        r is None <==> keys@.len() == 0,
        r matches Some(k) ==> exists|i: int| 0 <= i < keys@.len() && k@ == keys@[i]@,
{
    let n = keys.len();
    if n == 0 {
        return None;
    }
    let mut weights: Vec<u64> = Vec::new();
    let mut w: u64 = WEIGHT_BASE;
    let mut total: u64 = 0;
    let mut i: usize = 0;
    while i < n
        invariant
            i <= n,
            n == keys@.len(),
            n > 0,
            weights@.len() == i,
            total as int == sum_weights(weights@),
            i > 0 ==> total >= WEIGHT_BASE,
            i == 0 ==> w == WEIGHT_BASE,
        decreases n - i,
    {
        let total2 = match total.checked_add(w) {
            Some(t) => t,
            None => {
                // A weight total beyond u64 can only happen for astronomically
                // many keys; degrade to a uniform pick rather than fail.
                let idx = random_below(n);
                let k = slice_index_get(keys, idx).as_str();
                proof {
                    assert((idx as int) < keys@.len() && k@ == keys@[idx as int]@);
                }
                return Some(k);
            },
        };
        total = total2;
        let ghost old_w = weights@;
        weights.push(w);
        proof {
            assert(weights@.drop_last() =~= old_w);
            assert(weights@.last() == w);
        }
        proof {
            assert((w as u128) * (DECAY_RATIO_SCALED as u128) < u128::MAX) by (nonlinear_arith)
                requires
                    w <= 0xffffffffffffffffu64,
            ;
        }
        let wide: u128 = (w as u128) * (DECAY_RATIO_SCALED as u128);
        let next: u128 = wide / (DECAY_SCALE as u128);
        w = if next > (WEIGHT_CAP as u128) {
            WEIGHT_CAP
        } else {
            next as u64
        };
        i = i + 1;
    }
    let idx = weighted_index_below(&weights);
    let k = slice_index_get(keys, idx).as_str();
    proof {
        assert((idx as int) < keys@.len() && k@ == keys@[idx as int]@);
    }
    Some(k)
}

} // verus!
