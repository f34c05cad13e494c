use vstd::prelude::*;

use crate::block::{BlockView, Kind, TransactionView};
use crate::coinbase::{all_reach, cumulative_target};
use crate::ledger::LedgerView;
use crate::error::{Error, Item};
use crate::state::{chain_has_transaction_id, finalize_one, lemma_finalize_programs,
    deployed_programs, finalize_all, latest_coinbase_target, latest_proof_target, next_block_error,
    tip_hash, transaction_error, block_has_invalid_transaction,
};

verus! {

/// Appending a block succeeds exactly when the next-block checks pass and the VM
/// finalizes the block's transactions.
pub proof fn law_append_succeeds_iff_checked(
    l: LedgerView,
    b: BlockView,
    computed_hash: u64,
    computed_transactions_root: u64,
    header_valid: bool,
    is_genesis: bool,
    signature_valid: bool,
    valid: Seq<bool>,
    challenge_points: Seq<u64>,
    pairing: bool,
)
    ensures
        l.append_error(
            b,
            computed_hash,
            computed_transactions_root,
            header_valid,
            is_genesis,
            signature_valid,
            valid,
            challenge_points,
            pairing,
        ) is None <==> (next_block_error(
            l.blocks,
            l.programs,
            l.validators,
            b,
            computed_hash,
            computed_transactions_root,
            header_valid,
            is_genesis,
            signature_valid,
            valid,
            challenge_points,
            pairing,
        ) is None && finalize_all(l.programs, b.transactions) is Ok),
{
}

/// The transaction deploys the program `p`.
pub open spec fn deploys(tx: TransactionView, p: Seq<char>) -> bool {
    tx matches TransactionView::Deploy { program_id, .. } && program_id == p
}

/// A deployed program ID comes from a deployment among the transactions.
proof fn lemma_deployed_from(txs: Seq<TransactionView>, p: Seq<char>)
    requires
        deployed_programs(txs).contains(p),
    ensures
        exists|j: int|
            0 <= j < txs.len() && deploys(#[trigger] txs[j], p),
    decreases txs.len(),
{
    let prev = deployed_programs(txs.drop_last());
    match txs.last() {
        TransactionView::Deploy { program_id, .. } => {
            if program_id != p {
                let i = choose|i: int| 0 <= i < deployed_programs(txs).len() && deployed_programs(txs)[i] == p;
                assert(prev[i] == p);
                lemma_deployed_from(txs.drop_last(), p);
                let j = choose|j: int|
                    0 <= j < txs.drop_last().len() && deploys(#[trigger] txs.drop_last()[j], p);
                assert(txs[j] == txs.drop_last()[j]);
            } else {
                assert(txs[txs.len() - 1] == txs.last());
            }
        },
        TransactionView::Execute { .. } => {
            lemma_deployed_from(txs.drop_last(), p);
            let j = choose|j: int|
                0 <= j < txs.drop_last().len() && deploys(#[trigger] txs.drop_last()[j], p);
            assert(txs[j] == txs.drop_last()[j]);
        },
    }
}

/// Finalization succeeds when the deployed programs are new and distinct.
proof fn lemma_finalize_succeeds(programs: Seq<Seq<char>>, txs: Seq<TransactionView>)
    requires
        deployed_programs(txs).no_duplicates(),
        forall|p: Seq<char>| #[trigger] deployed_programs(txs).contains(p) ==> !programs.contains(p),
    ensures
        finalize_all(programs, txs) is Ok,
    decreases txs.len(),
{
    if txs.len() > 0 {
        let prev = deployed_programs(txs.drop_last());
        match txs.last() {
            TransactionView::Deploy { program_id, .. } => {
                assert(deployed_programs(txs) == prev.push(program_id));
                assert forall|p: Seq<char>| #[trigger] prev.contains(p) implies !programs.contains(p) by {
                    let i = choose|i: int| 0 <= i < prev.len() && prev[i] == p;
                    assert(deployed_programs(txs)[i] == p);
                    assert(deployed_programs(txs).contains(p));
                }
                assert(prev.no_duplicates()) by {
                    assert forall|i: int, j: int| 0 <= i < prev.len() && 0 <= j < prev.len() && i != j implies prev[i] != prev[j] by {
                        assert(deployed_programs(txs)[i] == prev[i]);
                        assert(deployed_programs(txs)[j] == prev[j]);
                    }
                }
                lemma_finalize_succeeds(programs, txs.drop_last());
                crate::state::lemma_finalize_programs(programs, txs.drop_last());
                let after = finalize_all(programs, txs.drop_last())->Ok_0;
                assert(deployed_programs(txs)[prev.len() as int] == program_id);
                assert(deployed_programs(txs).contains(program_id));
                assert(!programs.contains(program_id));
                if prev.contains(program_id) {
                    let i = choose|i: int| 0 <= i < prev.len() && prev[i] == program_id;
                    assert(deployed_programs(txs)[i] == program_id);
                }
                assert(!after.contains(program_id));
            },
            TransactionView::Execute { .. } => {
                assert(deployed_programs(txs) == prev);
                lemma_finalize_succeeds(programs, txs.drop_last());
            },
        }
    }
}

/// On a valid ledger, a block that passes the next-block checks and deploys no
/// program twice is appended: appending then succeeds exactly when checking does.
pub proof fn law_checked_block_appends(
    l: LedgerView,
    b: BlockView,
    computed_hash: u64,
    computed_transactions_root: u64,
    header_valid: bool,
    is_genesis: bool,
    signature_valid: bool,
    valid: Seq<bool>,
    challenge_points: Seq<u64>,
    pairing: bool,
)
    requires
        l.wf(),
        next_block_error(
            l.blocks,
            l.programs,
            l.validators,
            b,
            computed_hash,
            computed_transactions_root,
            header_valid,
            is_genesis,
            signature_valid,
            valid,
            challenge_points,
            pairing,
        ) is None,
        deployed_programs(b.transactions).no_duplicates(),
    ensures
        l.append_error(
            b,
            computed_hash,
            computed_transactions_root,
            header_valid,
            is_genesis,
            signature_valid,
            valid,
            challenge_points,
            pairing,
        ) is None,
{
    reveal(next_block_error);
    assert(!block_has_invalid_transaction(l.blocks, l.programs, b, valid));
    assert forall|p: Seq<char>| #[trigger] deployed_programs(b.transactions).contains(p) implies !l.programs.contains(p) by {
        lemma_deployed_from(b.transactions, p);
        let j = choose|j: int|
            0 <= j < b.transactions.len() && deploys(#[trigger] b.transactions[j], p);
        assert(transaction_error(l.blocks, l.programs, b.transactions[j], valid[j]) is None);
        reveal(transaction_error);
    }
    lemma_finalize_succeeds(l.programs, b.transactions);
}

/// No two accepted blocks share a hash, a height, a transaction ID, a value of any
/// kind (input ID, serial number, tag, output ID, commitment, nonce, transition
/// public key, transition commitment), or a deployed program ID.
pub proof fn law_no_shared_artifacts(l: LedgerView)
    requires
        l.wf(),
    ensures
        forall|i: int, j: int|
            0 <= i < j < l.blocks.len() ==> {
                &&& (#[trigger] l.blocks[i]).hash != (#[trigger] l.blocks[j]).hash
                &&& l.blocks[i].height() != l.blocks[j].height()
            },
        forall|i: int, j: int, id: u64|
            0 <= i < j < l.blocks.len() ==> !(#[trigger] l.blocks[i].has_transaction_id(id)
                && #[trigger] l.blocks[j].has_transaction_id(id)),
        forall|i: int, j: int, k: Kind, v: u64|
            0 <= i < j < l.blocks.len() ==> !(#[trigger] l.blocks[i].holds(k, v) && #[trigger] l.blocks[j].holds(k, v)),
        forall|i: int, j: int, p: Seq<char>|
            0 <= i < j < l.blocks.len() ==> !(#[trigger] deployed_programs(l.blocks[i].transactions).contains(p)
                && #[trigger] deployed_programs(l.blocks[j].transactions).contains(p)),
{
    reveal(LedgerView::wf);
    reveal(LedgerView::tip_wf);
    reveal(LedgerView::unique);
    reveal(LedgerView::deploys_unique);
}

/// Every accepted block after the first extends the one before it: its height is
/// one more, its round and timestamp are greater, and its previous hash is the
/// hash of the block before it.
pub proof fn law_chain_is_linked(l: LedgerView)
    requires
        l.wf(),
    ensures
        forall|i: int|
            0 < i < l.blocks.len() ==> {
                &&& (#[trigger] l.blocks[i]).height() == l.blocks[i - 1].height() + 1
                &&& l.blocks[i].round() > l.blocks[i - 1].round()
                &&& l.blocks[i].timestamp() > l.blocks[i - 1].timestamp()
                &&& l.blocks[i].previous_hash == l.blocks[i - 1].hash
            },
{
    reveal(LedgerView::wf);
    reveal(LedgerView::tip_wf);
    reveal(LedgerView::linked);
    assert forall|i: int| 0 < i < l.blocks.len() implies (#[trigger] l.blocks[i]).height() == l.blocks[i - 1].height() + 1 by {
        assert(l.blocks[i - 1].height() == i - 1);
    }
}

/// A block that passes the checks extends the tip, and its hash is the one that
/// the hashing primitive recomputes from its previous hash and header root.
pub proof fn law_checked_block_extends_tip(
    l: LedgerView,
    b: BlockView,
    computed_hash: u64,
    computed_transactions_root: u64,
    header_valid: bool,
    is_genesis: bool,
    signature_valid: bool,
    valid: Seq<bool>,
    challenge_points: Seq<u64>,
    pairing: bool,
)
    requires
        l.wf(),
        next_block_error(
            l.blocks,
            l.programs,
            l.validators,
            b,
            computed_hash,
            computed_transactions_root,
            header_valid,
            is_genesis,
            signature_valid,
            valid,
            challenge_points,
            pairing,
        ) is None,
    ensures
        b.hash == computed_hash,
        b.header.transactions_root == computed_transactions_root,
        b.previous_hash == tip_hash(l.blocks),
        b.height() == l.blocks.len(),
        l.blocks.len() > 0 ==> b.height() == l.current_height + 1 && b.round() > l.current_round
            && b.timestamp() > l.blocks.last().timestamp(),
{
    reveal(next_block_error);
    reveal(LedgerView::wf);
    reveal(LedgerView::tip_wf);
}

/// A block that passes the checks and carries a coinbase proof has solutions whose
/// targets sum to at least the coinbase target, each at least the proof target,
/// and a proof whose pairing check holds; without a proof, its accumulator point is zero.
pub proof fn law_coinbase_proof_meets_targets(
    l: LedgerView,
    b: BlockView,
    computed_hash: u64,
    computed_transactions_root: u64,
    header_valid: bool,
    is_genesis: bool,
    signature_valid: bool,
    valid: Seq<bool>,
    challenge_points: Seq<u64>,
    pairing: bool,
)
    requires
        next_block_error(
            l.blocks,
            l.programs,
            l.validators,
            b,
            computed_hash,
            computed_transactions_root,
            header_valid,
            is_genesis,
            signature_valid,
            valid,
            challenge_points,
            pairing,
        ) is None,
    ensures
        b.coinbase_proof matches Some(p) ==> {
            &&& cumulative_target(p.partial_solutions) >= latest_coinbase_target(l.blocks)
            &&& all_reach(p.partial_solutions, latest_proof_target(l.blocks))
            &&& pairing
            &&& p.proof.random_v is None
            &&& b.header.coinbase_accumulator_point == challenge_points.last()
        },
        b.coinbase_proof is None ==> b.header.coinbase_accumulator_point == 0,
{
    reveal(next_block_error);
}

/// The leaves of the block tree are the block hashes, in height order.
pub proof fn law_block_tree_leaves(l: LedgerView)
    requires
        l.wf(),
    ensures
        l.tree.len() == l.blocks.len(),
        forall|i: int| 0 <= i < l.blocks.len() ==> l.tree[i] == (#[trigger] l.blocks[i]).hash,
        forall|i: int| 0 <= i < l.blocks.len() ==> (#[trigger] l.blocks[i]).height() == i,
{
    reveal(LedgerView::wf);
    reveal(LedgerView::tip_wf);
}

/// A commitment is held by the chain exactly when some transition of an accepted
/// block outputs it: the condition under which a state path is found.
pub proof fn law_state_path_exists(l: LedgerView, c: u64)
    ensures
        crate::state::chain_has(l.blocks, Kind::Commitment, c) <==> exists|i: int, j: int, t: int|
            0 <= i < l.blocks.len() && 0 <= j < l.blocks[i].transactions.len() && 0 <= t
                < l.blocks[i].transactions[j].transitions().len()
                && (#[trigger] l.blocks[i].transactions[j].transitions()[t]).commitments.contains(c),
{
    if crate::state::chain_has(l.blocks, Kind::Commitment, c) {
        let i = choose|i: int| 0 <= i < l.blocks.len() && #[trigger] l.blocks[i].holds(Kind::Commitment, c);
        let j = choose|j: int| 0 <= j < l.blocks[i].transactions.len() && #[trigger] l.blocks[i].transactions[j].holds(Kind::Commitment, c);
        let t = choose|t: int|
            0 <= t < l.blocks[i].transactions[j].transitions().len()
                && #[trigger] l.blocks[i].transactions[j].transitions()[t].values(Kind::Commitment).contains(c);
        assert(l.blocks[i].transactions[j].transitions()[t].commitments.contains(c));
    }
    if exists|i: int, j: int, t: int|
        0 <= i < l.blocks.len() && 0 <= j < l.blocks[i].transactions.len() && 0 <= t
            < l.blocks[i].transactions[j].transitions().len()
            && (#[trigger] l.blocks[i].transactions[j].transitions()[t]).commitments.contains(c) {
        let (i, j, t) = choose|i: int, j: int, t: int|
            0 <= i < l.blocks.len() && 0 <= j < l.blocks[i].transactions.len() && 0 <= t
                < l.blocks[i].transactions[j].transitions().len()
                && (#[trigger] l.blocks[i].transactions[j].transitions()[t]).commitments.contains(c);
        assert(l.blocks[i].transactions[j].transitions()[t].values(Kind::Commitment).contains(c));
        assert(l.blocks[i].transactions[j].holds(Kind::Commitment, c));
        assert(l.blocks[i].holds(Kind::Commitment, c));
    }
}

/// Every transaction in the memory pool is valid against the current chain.
pub proof fn law_pool_transactions_valid(l: LedgerView)
    requires
        l.wf(),
    ensures
        forall|i: int|
            0 <= i < l.pool.len() ==> transaction_error(l.blocks, l.programs, (#[trigger] l.pool[i]).1, true) is None
                && l.pool[i].0 == l.pool[i].1.id(),
{
    reveal(LedgerView::wf);
    reveal(LedgerView::pool_wf);
}

/// A deployment's program ID is among the deployed programs of its transactions.
proof fn lemma_deployed_contains(txs: Seq<TransactionView>, j: int, p: Seq<char>)
    requires
        0 <= j < txs.len(),
        deploys(txs[j], p),
    ensures
        deployed_programs(txs).contains(p),
    decreases txs.len(),
{
    let prev = deployed_programs(txs.drop_last());
    if j == txs.len() - 1 {
        assert(deployed_programs(txs) == prev.push(p));
        assert(deployed_programs(txs)[prev.len() as int] == p);
    } else {
        assert(txs.drop_last()[j] == txs[j]);
        lemma_deployed_contains(txs.drop_last(), j, p);
        let i = choose|i: int| 0 <= i < prev.len() && prev[i] == p;
        match txs.last() {
            TransactionView::Deploy { program_id, .. } => {
                assert(deployed_programs(txs) == prev.push(program_id));
                assert(deployed_programs(txs)[i] == p);
            },
            TransactionView::Execute { .. } => {
                assert(deployed_programs(txs)[i] == p);
            },
        }
    }
}

/// Once a block is appended, each of its transactions is in the ledger and can no
/// longer pass the transaction checks; a deployment's program is deployed, so the
/// VM refuses to deploy it again.
pub proof fn law_appended_transactions_are_final(
    l: LedgerView,
    b: BlockView,
    computed_hash: u64,
    computed_transactions_root: u64,
    header_valid: bool,
    is_genesis: bool,
    signature_valid: bool,
    valid: Seq<bool>,
    challenge_points: Seq<u64>,
    pairing: bool,
    j: int,
)
    requires
        l.append_error(
            b,
            computed_hash,
            computed_transactions_root,
            header_valid,
            is_genesis,
            signature_valid,
            valid,
            challenge_points,
            pairing,
        ) is None,
        0 <= j < b.transactions.len(),
    ensures
        chain_has_transaction_id(l.appended(b).blocks, b.transactions[j].id()),
        forall|verified: bool|
            transaction_error(l.appended(b).blocks, l.appended(b).programs, b.transactions[j], verified) is Some,
        b.transactions[j] is Deploy ==> finalize_one(l.appended(b).programs, b.transactions[j]) == Err::<
            Seq<Seq<char>>,
            Error,
        >(Error::Duplicate(Item::ProgramId)),
{
    let n = l.appended(b);
    let tx = b.transactions[j];
    assert(n.blocks[l.blocks.len() as int] == b);
    assert(b.has_transaction_id(tx.id()));
    assert(chain_has_transaction_id(n.blocks, tx.id()));
    assert forall|verified: bool| transaction_error(n.blocks, n.programs, tx, verified) is Some by {
        reveal(transaction_error);
    }
    if let TransactionView::Deploy { program_id, .. } = tx {
        lemma_finalize_programs(l.programs, b.transactions);
        lemma_deployed_contains(b.transactions, j, program_id);
        assert(finalize_all(l.programs, b.transactions)->Ok_0.contains(program_id));
    }
}

} // verus!
