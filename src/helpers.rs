use vstd::prelude::*;

use crate::error::{Error, Item};

verus! {

/// The anchor time per block in seconds, which must be greater than the round time per block.
pub const ANCHOR_TIME: u16 = 20;
/// The coinbase puzzle degree.
pub const COINBASE_PUZZLE_DEGREE: u32 = 8191;
/// The maximum number of prover solutions that can be included per block.
pub const MAX_PROVER_SOLUTIONS: usize = 1048576;
/// The number of blocks per epoch.
pub const NUM_BLOCKS_PER_EPOCH: u32 = 256;
/// The fixed timestamp of the genesis block.
pub const GENESIS_TIMESTAMP: i64 = 1663718400;
/// The genesis block coinbase target, also the floor of every later coinbase target.
pub const GENESIS_COINBASE_TARGET: u64 = 1023;
/// The genesis block proof target.
pub const GENESIS_PROOF_TARGET: u64 = 0;
/// The starting supply of credits.
pub const STARTING_SUPPLY: u64 = 1100000000000000;
/// The number of seconds in a year.
pub const SECONDS_PER_YEAR: u64 = 31536000;

/// `(seconds_per_year * num_years) / anchor_time`, capped at `u32::MAX`.
pub open spec fn spec_anchor_block_height(anchor_time: u16, num_years: u32) -> int {
    let h = (SECONDS_PER_YEAR * num_years) / (anchor_time as int);
    if h > u32::MAX {
        u32::MAX as int
    } else {
        h
    }
}

/// Returns the block height reached after `num_years` of blocks every `anchor_time` seconds.
pub fn anchor_block_height(anchor_time: u16, num_years: u32) -> (r: u32)
    requires
        anchor_time > 0,
    ensures
        r == spec_anchor_block_height(anchor_time, num_years),
{
    assert(SECONDS_PER_YEAR * num_years <= SECONDS_PER_YEAR * u32::MAX) by (nonlinear_arith)
        requires
            num_years <= u32::MAX,
    ;
    let h = (SECONDS_PER_YEAR * num_years as u64) / anchor_time as u64;
    if h > u32::MAX as u64 {
        u32::MAX
    } else {
        h as u32
    }
}

/// The height of the last block that may carry a coinbase proof (year ten).
pub open spec fn coinbase_cutoff_height() -> int {
    spec_anchor_block_height(ANCHOR_TIME, 10)
}

/// The minimum proof target for a coinbase target.
pub open spec fn spec_proof_target(coinbase_target: u64) -> u64 {
    (coinbase_target / 128 + 1) as u64
}

/// Returns the minimum target that a prover solution must reach under the given coinbase target.
pub fn proof_target(coinbase_target: u64) -> (r: u64)
    ensures
        r == spec_proof_target(coinbase_target),
{
    coinbase_target / 128 + 1
}

/// `x` halved `k` times.
pub open spec fn halve(x: int, k: nat) -> int
    decreases k,
{
    if k == 0 {
        x
    } else {
        halve(x / 2, (k - 1) as nat)
    }
}

/// `x` doubled `k` times, saturating at `u64::MAX`.
pub open spec fn double_saturating(x: int, k: nat) -> int
    decreases k,
{
    if k == 0 {
        x
    } else {
        let d = if 2 * x > u64::MAX { u64::MAX as int } else { 2 * x };
        double_saturating(d, (k - 1) as nat)
    }
}

proof fn lemma_halve_zero(k: nat)
    ensures
        halve(0, k) == 0,
    decreases k,
{
    if k > 0 {
        lemma_halve_zero((k - 1) as nat);
    }
}

proof fn lemma_halve_split(x: int, a: nat, b: nat)
    ensures
        halve(x, a + b) == halve(halve(x, a), b),
    decreases a,
{
    if a > 0 {
        lemma_halve_split(x / 2, (a - 1) as nat, b);
        assert((a + b - 1) as nat == ((a - 1) as nat + b) as nat);
    }
}

proof fn lemma_halve_bounds(x: int, k: nat)
    requires
        0 <= x <= u64::MAX,
    ensures
        0 <= halve(x, k) <= x,
    decreases k,
{
    if k > 0 {
        lemma_halve_bounds(x / 2, (k - 1) as nat);
    }
}

proof fn lemma_double_fixed(k: nat)
    ensures
        double_saturating(u64::MAX as int, k) == u64::MAX,
        double_saturating(0, k) == 0,
    decreases k,
{
    if k > 0 {
        lemma_double_fixed((k - 1) as nat);
    }
}

proof fn lemma_double_split(x: int, a: nat, b: nat)
    ensures
        double_saturating(x, a + b) == double_saturating(double_saturating(x, a), b),
    decreases a,
{
    if a > 0 {
        let d = if 2 * x > u64::MAX { u64::MAX as int } else { 2 * x };
        lemma_double_split(d, (a - 1) as nat, b);
        assert((a + b - 1) as nat == ((a - 1) as nat + b) as nat);
    }
}

proof fn lemma_double_bounds(x: int, k: nat)
    requires
        0 <= x <= u64::MAX,
    ensures
        0 <= double_saturating(x, k) <= u64::MAX,
    decreases k,
{
    if k > 0 {
        let d = if 2 * x > u64::MAX { u64::MAX as int } else { 2 * x };
        lemma_double_bounds(d, (k - 1) as nat);
    }
}

/// Halves `x` `k` times.
fn shift_down(x: u64, k: u64) -> (r: u64)
    ensures
        r == halve(x as int, k as nat),
{
    let mut cur = x;
    let mut i: u64 = 0;
    while i < k && cur != 0
        invariant
            i <= k,
            cur == halve(x as int, i as nat),
            0 <= cur <= u64::MAX,
        decreases k - i,
    {
        proof {
            lemma_halve_split(x as int, i as nat, 1);
            assert(halve(cur as int, 1) == halve(cur as int / 2, 0));
        }
        cur = cur / 2;
        i += 1;
    }
    proof {
        lemma_halve_split(x as int, i as nat, (k - i) as nat);
        if cur == 0 {
            lemma_halve_zero((k - i) as nat);
        }
    }
    cur
}

/// Doubles `x` `k` times, saturating at `u64::MAX`.
fn shift_up_saturating(x: u64, k: u64) -> (r: u64)
    ensures
        r == double_saturating(x as int, k as nat),
{
    let mut cur = x;
    let mut i: u64 = 0;
    while i < k && cur != 0 && cur != u64::MAX
        invariant
            i <= k,
            cur == double_saturating(x as int, i as nat),
        decreases k - i,
    {
        proof {
            lemma_double_split(x as int, i as nat, 1);
            let d = if 2 * cur > u64::MAX { u64::MAX as int } else { 2 * cur };
            assert(double_saturating(cur as int, 1) == double_saturating(d, 0));
        }
        if cur > u64::MAX / 2 {
            cur = u64::MAX;
        } else {
            cur = cur * 2;
        }
        i += 1;
    }
    proof {
        lemma_double_split(x as int, i as nat, (k - i) as nat);
        lemma_double_fixed((k - i) as nat);
    }
    cur
}

/// The number of seconds over which the coinbase target moves by a factor of two.
pub open spec fn half_life() -> int {
    (NUM_BLOCKS_PER_EPOCH / 2) * ANCHOR_TIME
}

/// The retargeted coinbase target. The drift is the block time beyond the anchor
/// time; every whole half-life of drift halves the target (blocks too slow) or
/// doubles it (blocks too fast), saturating at `u64::MAX` and floored at the
/// genesis coinbase target.
pub open spec fn spec_coinbase_target(previous_target: u64, previous_timestamp: i64, timestamp: i64) -> u64 {
    let drift = timestamp - previous_timestamp - ANCHOR_TIME;
    let candidate = if drift >= 0 {
        halve(previous_target as int, (drift / half_life()) as nat)
    } else {
        double_saturating(previous_target as int, ((-drift) / half_life()) as nat)
    };
    if candidate < GENESIS_COINBASE_TARGET {
        GENESIS_COINBASE_TARGET
    } else {
        candidate as u64
    }
}

/// Returns the coinbase target for the block that follows a block with
/// `previous_target` and `previous_timestamp`.
pub fn coinbase_target(previous_target: u64, previous_timestamp: i64, timestamp: i64) -> (r: u64)
    ensures
        r == spec_coinbase_target(previous_target, previous_timestamp, timestamp),
{
    let drift: i128 = timestamp as i128 - previous_timestamp as i128 - ANCHOR_TIME as i128;
    let hl: i128 = (NUM_BLOCKS_PER_EPOCH as i128 / 2) * ANCHOR_TIME as i128;
    let candidate = if drift >= 0 {
        let steps = (drift / hl) as u64;
        proof {
            lemma_halve_bounds(previous_target as int, steps as nat);
        }
        shift_down(previous_target, steps)
    } else {
        let steps = ((-drift) / hl) as u64;
        shift_up_saturating(previous_target, steps)
    };
    if candidate < GENESIS_COINBASE_TARGET {
        GENESIS_COINBASE_TARGET
    } else {
        candidate
    }
}

/// The reward of an anchor-time block at `height`: the supply is paid out over ten
/// years in linearly decreasing block rewards, and nothing after that.
pub open spec fn anchor_block_reward(height: u32) -> int {
    let h = coinbase_cutoff_height();
    if height > h {
        0
    } else {
        (2 * STARTING_SUPPLY * (h - height)) / (h * (h + 1))
    }
}

/// The coinbase reward: the anchor block reward, scaled down for a block that
/// came sooner than the anchor time after the previous one.
pub open spec fn spec_coinbase_reward(previous_timestamp: i64, timestamp: i64, height: u32) -> u64 {
    let elapsed = timestamp - previous_timestamp;
    let factor = if elapsed < 0 {
        0
    } else if elapsed > ANCHOR_TIME {
        ANCHOR_TIME as int
    } else {
        elapsed
    };
    ((anchor_block_reward(height) * factor) / (ANCHOR_TIME as int)) as u64
}

/// Returns the coinbase reward of a block at `height` with the given timestamps.
pub fn coinbase_reward(previous_timestamp: i64, timestamp: i64, height: u32) -> (r: u64)
    ensures
        r == spec_coinbase_reward(previous_timestamp, timestamp, height),
{
    let h = anchor_block_height(ANCHOR_TIME, 10);
    assert(h == 15768000);
    let base: u128 = if height > h {
        0
    } else {
        (2 * STARTING_SUPPLY as u128 * (h - height) as u128) / (h as u128 * (h as u128 + 1))
    };
    let elapsed: i128 = timestamp as i128 - previous_timestamp as i128;
    let factor: u128 = if elapsed < 0 {
        0
    } else if elapsed > ANCHOR_TIME as i128 {
        ANCHOR_TIME as u128
    } else {
        elapsed as u128
    };
    assert(base <= 2 * STARTING_SUPPLY) by (nonlinear_arith)
        requires
            base == (if height > h { 0 } else { (2 * STARTING_SUPPLY * (h - height)) / (h * (h + 1)) }),
            h == 15768000,
    ;
    assert(base * factor <= 2 * STARTING_SUPPLY * 20) by (nonlinear_arith)
        requires
            base <= 2 * STARTING_SUPPLY,
            factor <= 20,
    ;
    let r = (base * factor) / ANCHOR_TIME as u128;
    r as u64
}

/// The reward of one prover: `coinbase_reward * prover_target / (2 * cumulative_target)`.
pub open spec fn spec_prover_reward(coinbase_reward: u64, prover_target: u64, cumulative_target: u128) -> Result<
    u64,
    Error,
> {
    let denominator = 2 * cumulative_target;
    if denominator > u128::MAX || cumulative_target == 0 {
        Err(Error::Overflow(Item::Reward))
    } else {
        let q = (coinbase_reward * prover_target) / denominator;
        if q > u64::MAX {
            Err(Error::Overflow(Item::Reward))
        } else {
            Ok(q as u64)
        }
    }
}

/// Returns the share of the coinbase reward that a prover with `prover_target` earns.
pub fn prover_reward(coinbase_reward: u64, prover_target: u64, cumulative_target: u128) -> (r: Result<
    u64,
    Error,
>)
    ensures
        r == spec_prover_reward(coinbase_reward, prover_target, cumulative_target),
{
    assert(coinbase_reward * prover_target <= u64::MAX * u64::MAX) by (nonlinear_arith)
        requires
            coinbase_reward <= u64::MAX,
            prover_target <= u64::MAX,
    ;
    let numerator = coinbase_reward as u128 * prover_target as u128;
    let denominator = match cumulative_target.checked_mul(2) {
        Some(d) => d,
        None => {
            return Err(Error::Overflow(Item::Reward));
        },
    };
    if denominator == 0 {
        return Err(Error::Overflow(Item::Reward));
    }
    let q = numerator / denominator;
    if q > u64::MAX as u128 {
        Err(Error::Overflow(Item::Reward))
    } else {
        Ok(q as u64)
    }
}

} // verus!
