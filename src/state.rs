use vstd::prelude::*;

use crate::block::{calls_genesis, BlockView, Kind, Origin, TransactionView};
use crate::coinbase::{CoinbaseSolutionView, PartialSolution};
use crate::error::{Error, Item};
use crate::helpers::{
    coinbase_cutoff_height, spec_prover_reward, GENESIS_COINBASE_TARGET, GENESIS_PROOF_TARGET,
};

verus! {

/// The maximum number of transactions in a block.
pub const MAX_TRANSACTIONS: usize = 65536;

/// The name of the program that every ledger starts with.
pub open spec fn credits_program() -> Seq<char> {
    "credits.aleo"@
}

/// Some accepted block holds `v` as a value of kind `k`.
pub open spec fn chain_has(blocks: Seq<BlockView>, k: Kind, v: u64) -> bool {
    exists|i: int| 0 <= i < blocks.len() && #[trigger] blocks[i].holds(k, v)
}

/// Some accepted block has a transaction with the ID `id`.
pub open spec fn chain_has_transaction_id(blocks: Seq<BlockView>, id: u64) -> bool {
    exists|i: int| 0 <= i < blocks.len() && #[trigger] blocks[i].has_transaction_id(id)
}

/// Some accepted block has the hash `h`.
pub open spec fn chain_has_block_hash(blocks: Seq<BlockView>, h: u64) -> bool {
    exists|i: int| 0 <= i < blocks.len() && (#[trigger] blocks[i]).hash == h
}

/// Some accepted block has the height `h`.
pub open spec fn chain_has_block_height(blocks: Seq<BlockView>, h: u32) -> bool {
    exists|i: int| 0 <= i < blocks.len() && (#[trigger] blocks[i]).height() == h
}

/// No value of kind `k` in the transaction is already in the chain.
pub open spec fn tx_fresh(blocks: Seq<BlockView>, tx: TransactionView, k: Kind) -> bool {
    forall|t: int, i: int|
        0 <= t < tx.transitions().len() && 0 <= i < tx.transitions()[t].values(k).len() ==> !chain_has(
            blocks,
            k,
            #[trigger] tx.transitions()[t].values(k)[i],
        )
}

/// Some input of the transaction names a state root as its origin.
pub open spec fn tx_has_state_root(tx: TransactionView) -> bool {
    exists|t: int, i: int|
        0 <= t < tx.transitions().len() && 0 <= i < tx.transitions()[t].origins.len()
            && (#[trigger] tx.transitions()[t].origins[i]) is StateRoot
}

/// Every commitment that the transaction names as an origin is in the chain.
pub open spec fn tx_origins_known(blocks: Seq<BlockView>, tx: TransactionView) -> bool {
    forall|t: int, i: int|
        0 <= t < tx.transitions().len() && 0 <= i < tx.transitions()[t].origins.len() ==> match #[trigger] tx.transitions()[t].origins[i] {
            Origin::Commitment(c) => chain_has(blocks, Kind::Commitment, c),
            Origin::StateRoot(_) => true,
        }
}

/// The first rule of transaction validity that `tx` breaks against the chain, if any;
/// `verified` is the VM's verdict on its proofs.
#[verifier::opaque]
pub open spec fn transaction_error(
    blocks: Seq<BlockView>,
    programs: Seq<Seq<char>>,
    tx: TransactionView,
    verified: bool,
) -> Option<Error> {
    if !verified {
        Some(Error::VerificationFailed(Item::Transaction))
    } else if chain_has_transaction_id(blocks, tx.id()) {
        Some(Error::Duplicate(Item::TransactionId))
    } else if !tx_fresh(blocks, tx, Kind::InputId) {
        Some(Error::Duplicate(Item::InputId))
    } else if !tx_fresh(blocks, tx, Kind::SerialNumber) {
        Some(Error::Duplicate(Item::SerialNumber))
    } else if !tx_fresh(blocks, tx, Kind::Tag) {
        Some(Error::Duplicate(Item::Tag))
    } else if tx_has_state_root(tx) {
        Some(Error::Unsupported(Item::Origin))
    } else if !tx_origins_known(blocks, tx) {
        Some(Error::Missing(Item::Commitment))
    } else if !tx_fresh(blocks, tx, Kind::OutputId) {
        Some(Error::Duplicate(Item::OutputId))
    } else if !tx_fresh(blocks, tx, Kind::Commitment) {
        Some(Error::Duplicate(Item::Commitment))
    } else if !tx_fresh(blocks, tx, Kind::Nonce) {
        Some(Error::Duplicate(Item::Nonce))
    } else if tx matches TransactionView::Deploy { program_id, .. } && programs.contains(program_id) {
        Some(Error::Duplicate(Item::ProgramId))
    } else if !tx_fresh(blocks, tx, Kind::TransitionPublicKey) {
        Some(Error::Duplicate(Item::TransitionPublicKey))
    } else if !tx_fresh(blocks, tx, Kind::TransitionCommitment) {
        Some(Error::Duplicate(Item::TransitionCommitment))
    } else {
        None
    }
}

/// No value of kind `k` in any transaction of the block is already in the chain.
pub open spec fn block_fresh(blocks: Seq<BlockView>, b: BlockView, k: Kind) -> bool {
    forall|j: int| 0 <= j < b.transactions.len() ==> tx_fresh(blocks, #[trigger] b.transactions[j], k)
}

/// Some transaction of the block is already in the chain.
pub open spec fn block_repeats_transaction(blocks: Seq<BlockView>, b: BlockView) -> bool {
    exists|j: int|
        0 <= j < b.transactions.len() && chain_has_transaction_id(blocks, (#[trigger] b.transactions[j]).id())
}

/// Some input of the block names a state root as its origin.
pub open spec fn block_has_state_root(b: BlockView) -> bool {
    exists|j: int| 0 <= j < b.transactions.len() && tx_has_state_root(#[trigger] b.transactions[j])
}

/// Every origin commitment of the block is in the chain.
pub open spec fn block_origins_known(blocks: Seq<BlockView>, b: BlockView) -> bool {
    forall|j: int| 0 <= j < b.transactions.len() ==> tx_origins_known(blocks, #[trigger] b.transactions[j])
}

/// Some transaction of the block fails validity, under the VM's verdicts `valid`.
pub open spec fn block_has_invalid_transaction(
    blocks: Seq<BlockView>,
    programs: Seq<Seq<char>>,
    b: BlockView,
    valid: Seq<bool>,
) -> bool {
    exists|j: int|
        0 <= j < b.transactions.len() && (#[trigger] transaction_error(
            blocks,
            programs,
            b.transactions[j],
            valid[j],
        )) is Some
}

/// Some transition of the block calls the genesis function of the credits program.
pub open spec fn block_calls_genesis(b: BlockView) -> bool {
    exists|j: int, t: int|
        0 <= j < b.transactions.len() && 0 <= t < b.transactions[j].transitions().len() && calls_genesis(
            #[trigger] b.transactions[j].transitions()[t],
        )
}

/// Some transition of the block pays a negative fee.
pub open spec fn block_has_negative_fee(b: BlockView) -> bool {
    exists|j: int, t: int|
        0 <= j < b.transactions.len() && 0 <= t < b.transactions[j].transitions().len()
            && (#[trigger] b.transactions[j].transitions()[t]).fee < 0
}

/// The coinbase target that the next block's coinbase proof must reach.
pub open spec fn latest_coinbase_target(blocks: Seq<BlockView>) -> u64 {
    if blocks.len() == 0 {
        GENESIS_COINBASE_TARGET
    } else {
        blocks.last().header.metadata.coinbase_target
    }
}

/// The proof target that each prover solution of the next block must reach.
pub open spec fn latest_proof_target(blocks: Seq<BlockView>) -> u64 {
    if blocks.len() == 0 {
        GENESIS_PROOF_TARGET
    } else {
        blocks.last().header.metadata.proof_target
    }
}

/// The first coinbase rule that the block breaks, if any.
pub open spec fn coinbase_error(
    blocks: Seq<BlockView>,
    b: BlockView,
    challenge_points: Seq<u64>,
    pairing: bool,
) -> Option<Error> {
    match b.coinbase_proof {
        Some(proof) => coinbase_proof_error(blocks, b, proof, challenge_points, pairing),
        None => if b.header.coinbase_accumulator_point != 0 {
            Some(Error::Mismatch(Item::AccumulatorPoint))
        } else {
            None
        },
    }
}

/// The first rule that a block's coinbase proof breaks, if any.
pub open spec fn coinbase_proof_error(
    blocks: Seq<BlockView>,
    b: BlockView,
    proof: CoinbaseSolutionView,
    challenge_points: Seq<u64>,
    pairing: bool,
) -> Option<Error> {
    if b.height() > coinbase_cutoff_height() {
        Some(Error::OutOfRange(Item::AnchorHeight))
    } else {
        match proof.accumulator_point_from(challenge_points) {
            Err(e) => Some(e),
            Ok(point) => if point != b.header.coinbase_accumulator_point {
                Some(Error::Mismatch(Item::AccumulatorPoint))
            } else {
                match proof.verify_outcome(
                    latest_coinbase_target(blocks),
                    latest_proof_target(blocks),
                    pairing,
                ) {
                    Err(e) => Some(e),
                    Ok(valid) => if !valid {
                        Some(Error::VerificationFailed(Item::CoinbaseProof))
                    } else {
                        None
                    },
                }
            },
        }
    }
}

/// The hash of the last block of the chain, zero before genesis.
pub open spec fn tip_hash(blocks: Seq<BlockView>) -> u64 {
    if blocks.len() == 0 {
        0
    } else {
        blocks.last().hash
    }
}

/// The first rule that the block breaks as the next block of the chain, if any.
#[verifier::opaque]
pub open spec fn next_block_error(
    blocks: Seq<BlockView>,
    programs: Seq<Seq<char>>,
    validators: Set<u64>,
    b: BlockView,
    computed_hash: u64,
    computed_transactions_root: u64,
    header_valid: bool,
    is_genesis: bool,
    signature_valid: bool,
    valid: Seq<bool>,
    challenge_points: Seq<u64>,
    pairing: bool,
) -> Option<Error> {
    let n = blocks.len();
    if b.previous_hash != tip_hash(blocks) {
        Some(Error::Mismatch(Item::PreviousHash))
    } else if chain_has_block_hash(blocks, b.hash) {
        Some(Error::Duplicate(Item::BlockHash))
    } else if b.height() != n {
        Some(Error::Mismatch(Item::BlockHeight))
    } else if chain_has_block_height(blocks, b.height()) {
        Some(Error::Duplicate(Item::BlockHeight))
    } else if n > 0 && b.round() <= blocks.last().round() {
        Some(Error::Mismatch(Item::Round))
    } else if n > 0 && b.timestamp() <= blocks.last().timestamp() {
        Some(Error::Mismatch(Item::Timestamp))
    } else if block_repeats_transaction(blocks, b) {
        Some(Error::Duplicate(Item::TransactionId))
    } else if block_has_state_root(b) {
        Some(Error::Unsupported(Item::Origin))
    } else if !block_origins_known(blocks, b) {
        Some(Error::Missing(Item::Commitment))
    } else if !block_fresh(blocks, b, Kind::SerialNumber) {
        Some(Error::Duplicate(Item::SerialNumber))
    } else if !block_fresh(blocks, b, Kind::Commitment) {
        Some(Error::Duplicate(Item::Commitment))
    } else if !block_fresh(blocks, b, Kind::Nonce) {
        Some(Error::Duplicate(Item::Nonce))
    } else if !block_fresh(blocks, b, Kind::TransitionPublicKey) {
        Some(Error::Duplicate(Item::TransitionPublicKey))
    } else if b.height() == 0 && !is_genesis {
        Some(Error::VerificationFailed(Item::Genesis))
    } else if !header_valid {
        Some(Error::Mismatch(Item::Header))
    } else if computed_hash != b.hash {
        Some(Error::Mismatch(Item::BlockHash))
    } else if !validators.contains(b.signer) {
        Some(Error::VerificationFailed(Item::Signer))
    } else if !signature_valid {
        Some(Error::VerificationFailed(Item::Signature))
    } else if computed_transactions_root != b.header.transactions_root {
        Some(Error::Mismatch(Item::TransactionsRoot))
    } else if b.transactions.len() == 0 || b.transactions.len() > MAX_TRANSACTIONS {
        Some(Error::OutOfRange(Item::Transactions))
    } else if valid.len() != b.transactions.len() {
        Some(Error::Mismatch(Item::Transactions))
    } else if block_has_invalid_transaction(blocks, programs, b, valid) {
        Some(Error::VerificationFailed(Item::Transaction))
    } else if coinbase_error(blocks, b, challenge_points, pairing) is Some {
        coinbase_error(blocks, b, challenge_points, pairing)
    } else if b.height() > 0 && block_calls_genesis(b) {
        Some(Error::VerificationFailed(Item::GenesisCall))
    } else if b.height() > 0 && block_has_negative_fee(b) {
        Some(Error::VerificationFailed(Item::Fee))
    } else {
        None
    }
}

/// The programs after the VM finalizes `tx`: a deployment adds its program, and
/// fails if the program is already there.
pub open spec fn finalize_one(programs: Seq<Seq<char>>, tx: TransactionView) -> Result<
    Seq<Seq<char>>,
    Error,
> {
    match tx {
        TransactionView::Deploy { program_id, .. } => if programs.contains(program_id) {
            Err(Error::Duplicate(Item::ProgramId))
        } else {
            Ok(programs.push(program_id))
        },
        TransactionView::Execute { .. } => Ok(programs),
    }
}

/// The programs after the VM finalizes `txs` in order.
pub open spec fn finalize_all(programs: Seq<Seq<char>>, txs: Seq<TransactionView>) -> Result<
    Seq<Seq<char>>,
    Error,
>
    decreases txs.len(),
{
    if txs.len() == 0 {
        Ok(programs)
    } else {
        match finalize_all(programs, txs.drop_last()) {
            Err(e) => Err(e),
            Ok(p) => finalize_one(p, txs.last()),
        }
    }
}

/// The program IDs that the transactions deploy, in order.
pub open spec fn deployed_programs(txs: Seq<TransactionView>) -> Seq<Seq<char>>
    decreases txs.len(),
{
    if txs.len() == 0 {
        Seq::empty()
    } else {
        match txs.last() {
            TransactionView::Deploy { program_id, .. } => deployed_programs(txs.drop_last()).push(
                program_id,
            ),
            TransactionView::Execute { .. } => deployed_programs(txs.drop_last()),
        }
    }
}

/// The pool entries that stay valid against the chain, in their order.
pub open spec fn retained(
    blocks: Seq<BlockView>,
    programs: Seq<Seq<char>>,
    entries: Seq<(u64, TransactionView)>,
) -> Seq<(u64, TransactionView)>
    decreases entries.len(),
{
    if entries.len() == 0 {
        Seq::empty()
    } else {
        let prev = retained(blocks, programs, entries.drop_last());
        if transaction_error(blocks, programs, entries.last().1, true) is None {
            prev.push(entries.last())
        } else {
            prev
        }
    }
}

/// A valid transaction repeats nothing that the chain holds.
pub proof fn lemma_valid_transaction_fresh(
    blocks: Seq<BlockView>,
    programs: Seq<Seq<char>>,
    tx: TransactionView,
    verified: bool,
)
    requires
        transaction_error(blocks, programs, tx, verified) is None,
    ensures
        forall|k: Kind| #[trigger] tx_fresh(blocks, tx, k),
        !chain_has_transaction_id(blocks, tx.id()),
{
    reveal(transaction_error);
    assert forall|k: Kind| #[trigger] tx_fresh(blocks, tx, k) by {
        match k {
            Kind::InputId => {},
            Kind::SerialNumber => {},
            Kind::Tag => {},
            Kind::OutputId => {},
            Kind::Commitment => {},
            Kind::Nonce => {},
            Kind::TransitionPublicKey => {},
            Kind::TransitionCommitment => {},
        }
    }
}

/// A block whose transactions are all valid holds no value that the chain holds.
pub proof fn lemma_block_values_fresh(
    blocks: Seq<BlockView>,
    programs: Seq<Seq<char>>,
    b: BlockView,
    valid: Seq<bool>,
)
    requires
        !block_has_invalid_transaction(blocks, programs, b, valid),
    ensures
        forall|k: Kind, v: u64| #[trigger] b.holds(k, v) ==> !chain_has(blocks, k, v),
{
    assert forall|k: Kind, v: u64| #[trigger] b.holds(k, v) implies !chain_has(blocks, k, v) by {
        let j = choose|j: int| 0 <= j < b.transactions.len() && #[trigger] b.transactions[j].holds(k, v);
        let tx = b.transactions[j];
        assert(transaction_error(blocks, programs, b.transactions[j], valid[j]) is None);
        lemma_valid_transaction_fresh(blocks, programs, tx, valid[j]);
        assert(tx_fresh(blocks, tx, k));
        let t = choose|t: int| 0 <= t < tx.transitions().len() && #[trigger] tx.transitions()[t].values(k).contains(v);
        let i = choose|i: int| 0 <= i < tx.transitions()[t].values(k).len() && tx.transitions()[t].values(k)[i] == v;
        assert(!chain_has(blocks, k, tx.transitions()[t].values(k)[i]));
    }
}

/// Successful finalization adds exactly the deployed programs.
pub proof fn lemma_finalize_programs(programs: Seq<Seq<char>>, txs: Seq<TransactionView>)
    requires
        finalize_all(programs, txs) is Ok,
    ensures
        forall|p: Seq<char>|
            #[trigger] finalize_all(programs, txs)->Ok_0.contains(p) <==> (programs.contains(p)
                || deployed_programs(txs).contains(p)),
        forall|p: Seq<char>| #[trigger] deployed_programs(txs).contains(p) ==> !programs.contains(p),
    decreases txs.len(),
{
    if txs.len() > 0 {
        lemma_finalize_programs(programs, txs.drop_last());
        let prev = finalize_all(programs, txs.drop_last())->Ok_0;
        match txs.last() {
            TransactionView::Deploy { program_id, .. } => {
                assert forall|p: Seq<char>|
                    #[trigger] finalize_all(programs, txs)->Ok_0.contains(p) <==> (programs.contains(p)
                        || deployed_programs(txs).contains(p)) by {
                    assert(finalize_all(programs, txs)->Ok_0 == prev.push(program_id));
                    assert(deployed_programs(txs) == deployed_programs(txs.drop_last()).push(program_id));
                    if p == program_id {
                        assert(prev.push(program_id)[prev.len() as int] == p);
                        assert(deployed_programs(txs)[deployed_programs(txs.drop_last()).len() as int] == p);
                    } else {
                        if prev.push(program_id).contains(p) {
                            let i = choose|i: int| 0 <= i < prev.push(program_id).len() && prev.push(program_id)[i] == p;
                            assert(prev[i] == p);
                        }
                        if deployed_programs(txs).contains(p) {
                            let i = choose|i: int| 0 <= i < deployed_programs(txs).len() && deployed_programs(txs)[i] == p;
                            assert(deployed_programs(txs.drop_last())[i] == p);
                        }
                        if prev.contains(p) {
                            let i = choose|i: int| 0 <= i < prev.len() && prev[i] == p;
                            assert(prev.push(program_id)[i] == p);
                        }
                        if deployed_programs(txs.drop_last()).contains(p) {
                            let i = choose|i: int| 0 <= i < deployed_programs(txs.drop_last()).len() && deployed_programs(txs.drop_last())[i] == p;
                            assert(deployed_programs(txs)[i] == p);
                        }
                    }
                }
                assert forall|p: Seq<char>| #[trigger] deployed_programs(txs).contains(p) implies !programs.contains(p) by {
                    assert(deployed_programs(txs) == deployed_programs(txs.drop_last()).push(program_id));
                    let i = choose|i: int| 0 <= i < deployed_programs(txs).len() && deployed_programs(txs)[i] == p;
                    if i < deployed_programs(txs.drop_last()).len() {
                        assert(deployed_programs(txs.drop_last())[i] == p);
                        assert(deployed_programs(txs.drop_last()).contains(p));
                    } else {
                        assert(finalize_all(programs, txs) == finalize_one(prev, txs.last()));
                        assert(deployed_programs(txs)[i] == program_id);
                        assert(!prev.contains(program_id));
                        assert(finalize_all(programs, txs.drop_last())->Ok_0.contains(p) <==> (
                        programs.contains(p) || deployed_programs(txs.drop_last()).contains(p)));
                    }
                }
            },
            TransactionView::Execute { .. } => {
                assert(deployed_programs(txs) == deployed_programs(txs.drop_last()));
            },
        }
    } else {
        assert(deployed_programs(txs) =~= Seq::<Seq<char>>::empty());
    }
}

/// Once finalization fails on a prefix, it fails with the same error on every longer prefix.
pub proof fn lemma_finalize_error_persists(programs: Seq<Seq<char>>, txs: Seq<TransactionView>, m: int)
    requires
        0 <= m <= txs.len(),
        finalize_all(programs, txs.take(m)) is Err,
    ensures
        finalize_all(programs, txs) == finalize_all(programs, txs.take(m)),
    decreases txs.len() - m,
{
    if m < txs.len() {
        assert(txs.take(m + 1).drop_last() =~= txs.take(m));
        lemma_finalize_error_persists(programs, txs, m + 1);
    } else {
        assert(txs.take(m) =~= txs);
    }
}

/// Some entry of the pool has the key `k`.
pub open spec fn pool_has_key(pool: Seq<(u64, TransactionView)>, k: u64) -> bool {
    exists|i: int| 0 <= i < pool.len() && (#[trigger] pool[i]).0 == k
}

/// Some transaction of `selected` takes `v` as an input ID.
pub open spec fn takes_input(selected: Seq<TransactionView>, v: u64) -> bool {
    exists|j: int| 0 <= j < selected.len() && #[trigger] selected[j].holds(Kind::InputId, v)
}

/// Some input ID of `tx` is taken by a transaction of `selected`.
pub open spec fn conflicts(tx: TransactionView, selected: Seq<TransactionView>) -> bool {
    exists|t: int, i: int|
        0 <= t < tx.transitions().len() && 0 <= i < tx.transitions()[t].input_ids.len() && takes_input(
            selected,
            #[trigger] tx.transitions()[t].input_ids[i],
        )
}

/// The greedy selection of transactions, in pool order: a transaction is taken
/// unless one of its input IDs is an input ID of a transaction already taken.
pub open spec fn select(txs: Seq<TransactionView>) -> Seq<TransactionView>
    decreases txs.len(),
{
    if txs.len() == 0 {
        Seq::empty()
    } else {
        let prev = select(txs.drop_last());
        if conflicts(txs.last(), prev) {
            prev
        } else {
            prev.push(txs.last())
        }
    }
}

/// The partial solution that a solution pool entry stands for.
pub open spec fn to_partial(x: (u64, u64, u64)) -> PartialSolution {
    PartialSolution { address: x.0, nonce: x.1, commitment: x.2 }
}

/// The rewards `(address, reward)` of the provers of `solutions`, in order.
pub open spec fn reward_list(solutions: Seq<PartialSolution>, coinbase_reward: u64, cumulative: u128) -> Result<
    Seq<(u64, u64)>,
    Error,
>
    decreases solutions.len(),
{
    if solutions.len() == 0 {
        Ok(Seq::empty())
    } else {
        match reward_list(solutions.drop_last(), coinbase_reward, cumulative) {
            Err(e) => Err(e),
            Ok(prev) => match spec_prover_reward(coinbase_reward, solutions.last().target(), cumulative) {
                Err(e) => Err(e),
                Ok(r) => Ok(prev.push((solutions.last().address, r))),
            },
        }
    }
}

/// Each solution reaches a target of at least one.
pub proof fn lemma_target_positive(s: PartialSolution)
    ensures
        1 <= s.target(),
{
    if s.commitment != 0 {
        assert(u64::MAX / s.commitment >= 1) by (nonlinear_arith)
            requires
                1 <= s.commitment <= u64::MAX,
        ;
    }
}

/// Each solution's target is at most the sum of the targets.
pub proof fn lemma_target_within_sum(s: Seq<PartialSolution>, i: int)
    requires
        0 <= i < s.len(),
    ensures
        s[i].target() <= crate::coinbase::cumulative_target(s),
    decreases s.len(),
{
    crate::coinbase::lemma_cumulative_bound(s.drop_last());
    if i < s.len() - 1 {
        lemma_target_within_sum(s.drop_last(), i);
        assert(s.drop_last()[i] == s[i]);
    }
}

/// A prover's share is owed whenever its target is between one and the
/// cumulative target, and twice the cumulative target fits.
pub proof fn lemma_prover_reward_ok(reward: u64, target: u64, cumulative: u128)
    requires
        1 <= target <= cumulative,
        2 * cumulative <= u128::MAX,
    ensures
        spec_prover_reward(reward, target, cumulative) is Ok,
{
    let c = cumulative as int;
    let t = target as int;
    let r = reward as int;
    assert(r * t <= r * c) by (nonlinear_arith)
        requires
            0 <= r,
            t <= c,
    ;
    assert((r * t) / (2 * c) <= r) by (nonlinear_arith)
        requires
            0 <= r,
            1 <= c,
            0 <= r * t <= r * c,
    ;
}

/// The rewards are owed for solutions whose targets are between one and the
/// cumulative target, when twice the cumulative target fits.
pub proof fn lemma_reward_list_ok(solutions: Seq<PartialSolution>, reward: u64, cumulative: u128)
    requires
        forall|i: int| 0 <= i < solutions.len() ==> (#[trigger] solutions[i]).target() <= cumulative,
        2 * cumulative <= u128::MAX,
    ensures
        reward_list(solutions, reward, cumulative) is Ok,
    decreases solutions.len(),
{
    if solutions.len() > 0 {
        assert forall|i: int| 0 <= i < solutions.drop_last().len() implies (#[trigger] solutions.drop_last()[i]).target()
            <= cumulative by {
            assert(solutions.drop_last()[i] == solutions[i]);
        }
        lemma_reward_list_ok(solutions.drop_last(), reward, cumulative);
        let last = solutions[solutions.len() - 1];
        lemma_target_positive(last);
        lemma_prover_reward_ok(reward, last.target(), cumulative);
    }
}

/// Once the reward list fails on a prefix, it fails with the same error on every longer prefix.
pub proof fn lemma_reward_error_persists(
    solutions: Seq<PartialSolution>,
    coinbase_reward: u64,
    cumulative: u128,
    m: int,
)
    requires
        0 <= m <= solutions.len(),
        reward_list(solutions.take(m), coinbase_reward, cumulative) is Err,
    ensures
        reward_list(solutions, coinbase_reward, cumulative) == reward_list(
            solutions.take(m),
            coinbase_reward,
            cumulative,
        ),
    decreases solutions.len() - m,
{
    if m < solutions.len() {
        assert(solutions.take(m + 1).drop_last() =~= solutions.take(m));
        lemma_reward_error_persists(solutions, coinbase_reward, cumulative, m + 1);
    } else {
        assert(solutions.take(m) =~= solutions);
    }
}

} // verus!
