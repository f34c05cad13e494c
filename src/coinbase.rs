use vstd::prelude::*;

use crate::error::{Error, Item};

verus! {

/// The maximum number of partial solutions in one coinbase solution.
pub const MAX_NUM_PROOFS: usize = 1048576;

/// A prover's partial solution to the coinbase puzzle: its address, its nonce,
/// and the digest of its polynomial commitment.
#[derive(Clone, Copy, Debug, PartialEq, Eq, Structural)]
pub struct PartialSolution {
    pub address: u64,
    pub nonce: u64,
    pub commitment: u64,
}

impl PartialSolution {
    /// The target that the solution reaches: the inverse of its commitment digest.
    pub open spec fn target(self) -> u64 {
        if self.commitment == 0 {
            u64::MAX
        } else {
            (u64::MAX / self.commitment) as u64
        }
    }

    pub fn new(address: u64, nonce: u64, commitment: u64) -> (r: Self)
        ensures
            r == (PartialSolution { address, nonce, commitment }),
    {
        PartialSolution { address, nonce, commitment }
    }

    /// Returns the target that this solution reaches.
    pub fn to_target(&self) -> (r: u64)
        ensures
            r == self.target(),
    {
        if self.commitment == 0 {
            u64::MAX
        } else {
            u64::MAX / self.commitment
        }
    }
}

/// A KZG opening proof; it is hiding when it carries a blinding evaluation.
#[derive(Clone, Copy, Debug, PartialEq, Eq, Structural)]
pub struct KzgProof {
    pub w: u64,
    pub random_v: Option<u64>,
}

impl KzgProof {
    pub fn is_hiding(&self) -> (r: bool)
        ensures
            r == self.random_v.is_some(),
    {
        self.random_v.is_some()
    }
}

/// The sum of the targets of the given solutions.
pub open spec fn cumulative_target(s: Seq<PartialSolution>) -> int
    decreases s.len(),
{
    if s.len() == 0 {
        0
    } else {
        cumulative_target(s.drop_last()) + s.last().target()
    }
}

/// Every solution reaches the given proof target.
pub open spec fn all_reach(s: Seq<PartialSolution>, proof_target: u64) -> bool {
    forall|i: int| 0 <= i < s.len() ==> (#[trigger] s[i]).target() >= proof_target
}

/// The sum of targets is at most `u64::MAX` per solution.
pub proof fn lemma_cumulative_bound(s: Seq<PartialSolution>)
    ensures
        0 <= cumulative_target(s) <= s.len() * (u64::MAX as int),
    decreases s.len(),
{
    if s.len() > 0 {
        lemma_cumulative_bound(s.drop_last());
    }
}

/// Returns the sum of the targets of the given solutions.
pub fn sum_targets(s: &Vec<PartialSolution>) -> (r: u128)
    ensures
        r == cumulative_target(s@),
{
    let mut sum: u128 = 0;
    let mut i: usize = 0;
    while i < s.len()
        invariant
            i <= s@.len(),
            sum == cumulative_target(s@.take(i as int)),
        decreases s@.len() - i,
    {
        proof {
            assert(s@.take(i as int + 1).drop_last() =~= s@.take(i as int));
            lemma_cumulative_bound(s@.take(i as int + 1));
            assert(s@.len() <= usize::MAX);
            assert((i as int + 1) * (u64::MAX as int) <= (usize::MAX as int) * (u64::MAX as int))
                by (nonlinear_arith)
                requires
                    i as int + 1 <= usize::MAX as int,
            ;
        }
        sum = sum + s[i].to_target() as u128;
        i += 1;
    }
    assert(s@.take(i as int) =~= s@);
    sum
}

/// The coinbase solution: the accumulated prover solutions and their aggregated proof.
#[derive(Debug)]
pub struct CoinbaseSolution {
    pub partial_solutions: Vec<PartialSolution>,
    pub proof: KzgProof,
}

/// The mathematical content of a coinbase solution.
pub struct CoinbaseSolutionView {
    pub partial_solutions: Seq<PartialSolution>,
    pub proof: KzgProof,
}

impl View for CoinbaseSolution {
    type V = CoinbaseSolutionView;

    open spec fn view(&self) -> CoinbaseSolutionView {
        CoinbaseSolutionView { partial_solutions: self.partial_solutions@, proof: self.proof }
    }
}

impl CoinbaseSolutionView {
    /// What verification yields, given the outcome `pairing` of the KZG pairing check
    /// at the accumulator point.
    pub open spec fn verify_outcome(self, coinbase_target: u64, proof_target: u64, pairing: bool) -> Result<
        bool,
        Error,
    > {
        let n = self.partial_solutions.len();
        if n == 0 {
            Err(Error::Missing(Item::PartialSolutions))
        } else if n > MAX_NUM_PROOFS {
            Err(Error::OutOfRange(Item::PartialSolutions))
        } else if self.proof.random_v.is_some() {
            Err(Error::VerificationFailed(Item::CoinbaseProof))
        } else if cumulative_target(self.partial_solutions) < coinbase_target {
            Err(Error::OutOfRange(Item::CoinbaseTarget))
        } else if !all_reach(self.partial_solutions, proof_target) {
            Err(Error::OutOfRange(Item::ProofTarget))
        } else {
            Ok(pairing)
        }
    }

    /// The accumulator point picked from the challenge points hashed from the commitments.
    pub open spec fn accumulator_point_from(self, challenge_points: Seq<u64>) -> Result<u64, Error> {
        if challenge_points.len() == self.partial_solutions.len() + 1 {
            Ok(challenge_points.last())
        } else {
            Err(Error::Mismatch(Item::ChallengePoints))
        }
    }
}

impl CoinbaseSolution {
    /// Initializes a coinbase solution.
    pub fn new(partial_solutions: Vec<PartialSolution>, proof: KzgProof) -> (r: Self)
        ensures
            r@.partial_solutions == partial_solutions@,
            r@.proof == proof,
    {
        CoinbaseSolution { partial_solutions, proof }
    }

    /// Returns the sum of the targets of the partial solutions. With at most
    /// `usize::MAX` solutions of at most `u64::MAX` each, the sum never overflows.
    pub fn to_cumulative_target(&self) -> (r: Result<u128, Error>)
        ensures
            r matches Ok(c) && c == cumulative_target(self@.partial_solutions),
    {
        Ok(sum_targets(&self.partial_solutions))
    }

    /// Returns the accumulator point: the last of the `n + 1` challenge points
    /// that hashing the `n` commitments yields.
    pub fn to_accumulator_point(&self, challenge_points: &Vec<u64>) -> (r: Result<u64, Error>)
        ensures
            r == self@.accumulator_point_from(challenge_points@),
    {
        let n = self.partial_solutions.len();
        let m = challenge_points.len();
        if m > 0 && m - 1 == n {
            Ok(challenge_points[n])
        } else {
            Err(Error::Mismatch(Item::ChallengePoints))
        }
    }

    /// Checks the coinbase solution against the coinbase and proof targets; `pairing`
    /// is the outcome of the KZG pairing check at the accumulator point.
    pub fn verify(&self, coinbase_target: u64, proof_target: u64, pairing: bool) -> (r: Result<
        bool,
        Error,
    >)
        ensures
            r == self@.verify_outcome(coinbase_target, proof_target, pairing),
    {
        let n = self.partial_solutions.len();
        if n == 0 {
            return Err(Error::Missing(Item::PartialSolutions));
        }
        if n > MAX_NUM_PROOFS {
            return Err(Error::OutOfRange(Item::PartialSolutions));
        }
        if self.proof.is_hiding() {
            return Err(Error::VerificationFailed(Item::CoinbaseProof));
        }
        let cumulative = match self.to_cumulative_target() {
            Ok(c) => c,
            Err(e) => {
                return Err(e);
            },
        };
        if cumulative < coinbase_target as u128 {
            return Err(Error::OutOfRange(Item::CoinbaseTarget));
        }
        let mut i: usize = 0;
        while i < n
            invariant
                n == self@.partial_solutions.len(),
                0 < n <= MAX_NUM_PROOFS,
                self@.proof.random_v.is_none(),
                cumulative_target(self@.partial_solutions) >= coinbase_target,
                i <= n,
                forall|j: int| 0 <= j < i ==> (#[trigger] self@.partial_solutions[j]).target() >= proof_target,
            decreases n - i,
        {
            if self.partial_solutions[i].to_target() < proof_target {
                assert(!all_reach(self@.partial_solutions, proof_target)) by {
                    assert(self@.partial_solutions[i as int].target() < proof_target);
                }
                return Err(Error::OutOfRange(Item::ProofTarget));
            }
            i += 1;
        }
        Ok(pairing)
    }
}

impl Clone for CoinbaseSolution {
    fn clone(&self) -> (r: Self)
        ensures
            r@ == self@,
    {
        let partial_solutions = self.partial_solutions.clone();
        assert(partial_solutions@ =~= self.partial_solutions@);
        CoinbaseSolution { partial_solutions, proof: self.proof }
    }
}

} // verus!
