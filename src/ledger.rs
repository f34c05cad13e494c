use vstd::prelude::*;

use indexmap::{IndexMap, IndexSet};
use std::collections::hash_map::RandomState;

use crate::block::{Block, BlockEvidence, BlockView, Kind, Metadata, Origin, Transaction, TransactionView};
use crate::coinbase::{cumulative_target, sum_targets, PartialSolution};
use crate::helpers::{
    anchor_block_height, coinbase_cutoff_height, coinbase_reward, coinbase_target, proof_target,
    prover_reward, spec_coinbase_reward, spec_coinbase_target, spec_proof_target, ANCHOR_TIME,
    GENESIS_COINBASE_TARGET, GENESIS_PROOF_TARGET, MAX_PROVER_SOLUTIONS,
};
use crate::interop::{
    has_key, pool_contains, pool_drain, pool_entries, pool_insert, pool_len, pool_value_at,
    solution_entries, solutions_at, solutions_clear, solutions_insert, solutions_len, solutions_new,
    validator_set, validators_contains, validators_insert, validators_new, validators_remove,
};
use crate::error::{Error, Item};
use crate::state::{
    block_calls_genesis, block_fresh, block_has_invalid_transaction, block_has_negative_fee,
    block_has_state_root, block_origins_known, block_repeats_transaction, chain_has,
    chain_has_block_hash, chain_has_block_height, chain_has_transaction_id, coinbase_error,
    credits_program, finalize_one, latest_coinbase_target, latest_proof_target,
    next_block_error, tip_hash, transaction_error, tx_fresh, tx_has_state_root, tx_origins_known,
    MAX_TRANSACTIONS, finalize_all, retained, deployed_programs, lemma_block_values_fresh,
    lemma_finalize_programs, lemma_finalize_error_persists, conflicts, reward_list, select,
    takes_input, to_partial, lemma_reward_error_persists,
};

verus! {

/// The program store of the virtual machine: the IDs of the deployed programs.
#[derive(Debug)]
pub struct Vm {
    programs: Vec<String>,
}

impl View for Vm {
    type V = Seq<Seq<char>>;

    closed spec fn view(&self) -> Seq<Seq<char>> {
        self.programs@.map_values(|p: String| p@)
    }
}

impl Vm {
    /// A program store that holds the credits program.
    pub fn new() -> (r: Vm)
        ensures
            r@ == seq![credits_program()],
    {
        let mut programs: Vec<String> = Vec::new();
        programs.push(String::from_str("credits.aleo"));
        let r = Vm { programs };
        assert(r@ =~= seq![credits_program()]);
        r
    }

    /// Returns `true` if the program is deployed.
    pub fn contains_program_id(&self, program_id: &String) -> (r: bool)
        ensures
            r == self@.contains(program_id@),
    {
        let mut i: usize = 0;
        while i < self.programs.len()
            invariant
                i <= self.programs@.len(),
                forall|j: int| 0 <= j < i ==> self@[j] != program_id@,
            decreases self.programs@.len() - i,
        {
            if self.programs[i] == *program_id {
                assert(self@[i as int] == program_id@);
                return true;
            }
            i += 1;
        }
        false
    }

    /// Finalizes the transaction: a deployment adds its program, and fails if the
    /// program is already deployed.
    pub fn finalize(&mut self, tx: &Transaction) -> (r: Result<(), Error>)
        ensures
            match finalize_one(old(self)@, tx@) {
                Ok(p) => r is Ok && final(self)@ == p,
                Err(e) => r == Err::<(), Error>(e) && *final(self) == *old(self),
            },
    {
        match tx {
            Transaction::Deploy { program_id, .. } => {
                if self.contains_program_id(program_id) {
                    return Err(Error::Duplicate(Item::ProgramId));
                }
                self.programs.push(program_id.clone());
                assert(self@ =~= old(self)@.push(program_id@));
                Ok(())
            },
            Transaction::Execute { .. } => Ok(()),
        }
    }
}

impl Clone for Vm {
    fn clone(&self) -> (r: Self)
        ensures
            r@ == self@,
    {
        let programs = self.programs.clone();
        assert(programs@.map_values(|p: String| p@) =~= self.programs@.map_values(|p: String| p@));
        Vm { programs }
    }
}

/// The Merkle tree of block hashes: its leaves, in height order.
#[derive(Debug)]
pub struct BlockTree {
    leaves: Vec<u64>,
}

impl BlockTree {
    pub closed spec fn spec_leaves(&self) -> Seq<u64> {
        self.leaves@
    }

    /// The number of leaves.
    pub fn len(&self) -> (r: usize)
        ensures
            r == self.spec_leaves().len(),
    {
        self.leaves.len()
    }

    /// The leaf at position `i`.
    pub fn leaf(&self, i: usize) -> (r: u64)
        requires
            i < self.spec_leaves().len(),
        ensures
            r == self.spec_leaves()[i as int],
    {
        self.leaves[i]
    }
}

/// The state of the ledger.
pub struct Ledger {
    current_hash: u64,
    current_height: u32,
    current_round: u64,
    block_tree: BlockTree,
    blocks: Vec<Block>,
    validators: IndexSet<u64, RandomState>,
    memory_pool: IndexMap<u64, Transaction, RandomState>,
    coinbase_memory_pool: IndexSet<(u64, u64, u64), RandomState>,
    vm: Vm,
}

/// The mathematical content of the ledger.
pub struct LedgerView {
    pub current_hash: u64,
    pub current_height: u32,
    pub current_round: u64,
    pub tree: Seq<u64>,
    pub blocks: Seq<BlockView>,
    pub validators: Set<u64>,
    pub pool: Seq<(u64, TransactionView)>,
    pub solutions: Seq<(u64, u64, u64)>,
    pub programs: Seq<Seq<char>>,
}

impl View for Ledger {
    type V = LedgerView;

    closed spec fn view(&self) -> LedgerView {
        LedgerView {
            current_hash: self.current_hash,
            current_height: self.current_height,
            current_round: self.current_round,
            tree: self.block_tree.leaves@,
            blocks: self.blocks@.map_values(|b: Block| b@),
            validators: validator_set(self.validators),
            pool: pool_view(self.memory_pool),
            solutions: solution_entries(self.coinbase_memory_pool),
            programs: self.vm@,
        }
    }
}

/// No two entries share a key.
pub open spec fn keys_unique(entries: Seq<(u64, TransactionView)>) -> bool {
    forall|i: int, j: int| 0 <= i < j < entries.len() ==> (#[trigger] entries[i]).0 != (#[trigger] entries[j]).0
}

/// Each entry is keyed by its transaction's ID.
pub open spec fn keyed_by_id(entries: Seq<(u64, TransactionView)>) -> bool {
    forall|i: int| 0 <= i < entries.len() ==> (#[trigger] entries[i]).0 == entries[i].1.id()
}

/// Each entry's transaction is valid against the chain.
pub open spec fn all_valid(
    blocks: Seq<BlockView>,
    programs: Seq<Seq<char>>,
    entries: Seq<(u64, TransactionView)>,
) -> bool {
    forall|i: int| 0 <= i < entries.len() ==> transaction_error(blocks, programs, (#[trigger] entries[i]).1, true) is None
}

/// The entries of a transaction pool, as views.
pub open spec fn pool_view(m: IndexMap<u64, Transaction, RandomState>) -> Seq<(u64, TransactionView)> {
    pool_entries(m).map_values(|e: (u64, Transaction)| (e.0, e.1@))
}

impl LedgerView {
    /// The tip agrees with the last block, and every block sits at its height.
    #[verifier::opaque]
    pub open spec fn tip_wf(self) -> bool {
        &&& self.tree.len() == self.blocks.len()
        &&& forall|i: int| 0 <= i < self.blocks.len() ==> self.tree[i] == (#[trigger] self.blocks[i]).hash
        &&& forall|i: int| 0 <= i < self.blocks.len() ==> (#[trigger] self.blocks[i]).height() == i
        &&& self.blocks.len() == 0 ==> self.current_hash == 0 && self.current_height == 0
            && self.current_round == 0
        &&& self.blocks.len() > 0 ==> {
            &&& self.current_hash == self.blocks.last().hash
            &&& self.current_height == self.blocks.last().height()
            &&& self.current_round == self.blocks.last().round()
        }
    }

    /// Each block extends the one before it.
    #[verifier::opaque]
    pub open spec fn linked(self) -> bool {
        &&& self.blocks.len() > 0 ==> self.blocks[0].previous_hash == 0
        &&& forall|i: int|
            0 < i < self.blocks.len() ==> {
                &&& (#[trigger] self.blocks[i]).previous_hash == self.blocks[i - 1].hash
                &&& self.blocks[i].round() > self.blocks[i - 1].round()
                &&& self.blocks[i].timestamp() > self.blocks[i - 1].timestamp()
            }
    }

    /// No two blocks share a hash, a transaction ID, or a value of any kind.
    #[verifier::opaque]
    pub open spec fn unique(self) -> bool {
        &&& forall|i: int, j: int|
            0 <= i < j < self.blocks.len() ==> (#[trigger] self.blocks[i]).hash != (#[trigger] self.blocks[j]).hash
        &&& forall|i: int, j: int, id: u64|
            0 <= i < j < self.blocks.len() ==> !(#[trigger] self.blocks[i].has_transaction_id(id)
                && #[trigger] self.blocks[j].has_transaction_id(id))
        &&& forall|i: int, j: int, k: Kind, v: u64|
            0 <= i < j < self.blocks.len() ==> !(#[trigger] self.blocks[i].holds(k, v)
                && #[trigger] self.blocks[j].holds(k, v))
    }

    /// The programs are the credits program and the programs deployed by the blocks.
    #[verifier::opaque]
    pub open spec fn programs_wf(self) -> bool {
        forall|p: Seq<char>|
            #![trigger self.programs.contains(p)]
            self.programs.contains(p) <==> (p == credits_program() || exists|i: int|
                0 <= i < self.blocks.len() && #[trigger] crate::state::deployed_programs(
                    self.blocks[i].transactions,
                ).contains(p))
    }

    /// No two blocks deploy the same program, and no block deploys the credits program.
    #[verifier::opaque]
    pub open spec fn deploys_unique(self) -> bool {
        &&& forall|i: int, j: int, p: Seq<char>|
            0 <= i < j < self.blocks.len() ==> !(#[trigger] deployed_programs(self.blocks[i].transactions).contains(p)
                && #[trigger] deployed_programs(self.blocks[j].transactions).contains(p))
        &&& forall|i: int|
            0 <= i < self.blocks.len() ==> !(#[trigger] deployed_programs(self.blocks[i].transactions)).contains(
                credits_program(),
            )
    }

    /// The memory pool is keyed by transaction ID and holds only transactions that
    /// are valid against the chain.
    #[verifier::opaque]
    pub open spec fn pool_wf(self) -> bool {
        &&& keys_unique(self.pool)
        &&& keyed_by_id(self.pool)
        &&& all_valid(self.blocks, self.programs, self.pool)
    }

    /// The ledger's invariant.
    #[verifier::opaque]
    pub open spec fn wf(self) -> bool {
        &&& self.tip_wf()
        &&& self.linked()
        &&& self.unique()
        &&& self.programs_wf()
        &&& self.deploys_unique()
        &&& self.pool_wf()
    }
}

impl LedgerView {
    /// The error that appending `b` yields, if any: the first rule of the next
    /// block that it breaks, else the error of finalizing its transactions.
    pub open spec fn append_error(
        self,
        b: BlockView,
        computed_hash: u64,
        computed_transactions_root: u64,
        header_valid: bool,
        is_genesis: bool,
        signature_valid: bool,
        valid: Seq<bool>,
        challenge_points: Seq<u64>,
        pairing: bool,
    ) -> Option<Error> {
        match next_block_error(
            self.blocks,
            self.programs,
            self.validators,
            b,
            computed_hash,
            computed_transactions_root,
            header_valid,
            is_genesis,
            signature_valid,
            valid,
            challenge_points,
            pairing,
        ) {
            Some(e) => Some(e),
            None => match finalize_all(self.programs, b.transactions) {
                Err(e) => Some(e),
                Ok(_) => None,
            },
        }
    }
}

impl LedgerView {
    /// The ledger after appending `b`: the tip moves to it, the VM finalizes its
    /// transactions, the pool keeps what stays valid, and the solution pool is
    /// emptied when `b` begins a new epoch.
    pub open spec fn appended(self, b: BlockView) -> LedgerView {
        let blocks = self.blocks.push(b);
        let programs = finalize_all(self.programs, b.transactions)->Ok_0;
        LedgerView {
            current_hash: b.hash,
            current_height: b.height(),
            current_round: b.round(),
            tree: self.tree.push(b.hash),
            blocks,
            validators: self.validators,
            pool: retained(blocks, programs, self.pool),
            solutions: if b.epoch_number() > self.current_height / 256 {
                Seq::empty()
            } else {
                self.solutions
            },
            programs,
        }
    }
}

/// The ledger after appending the first `n` blocks to `start` in order, each with
/// its evidence, or the first error.
pub open spec fn replay(start: LedgerView, blocks: Seq<BlockView>, evidence: Seq<BlockEvidence>, n: nat) -> Result<
    LedgerView,
    Error,
>
    decreases n,
{
    if n == 0 {
        Ok(start)
    } else {
        match replay(start, blocks, evidence, (n - 1) as nat) {
            Err(e) => Err(e),
            Ok(l) => {
                let ev = evidence[n - 1];
                match l.append_error(
                    blocks[n - 1],
                    ev.computed_hash,
                    ev.computed_transactions_root,
                    ev.header_valid,
                    ev.is_genesis,
                    ev.signature_valid,
                    ev.transactions_valid@,
                    ev.challenge_points@,
                    ev.pairing,
                ) {
                    Some(e) => Err(e),
                    None => Ok(l.appended(blocks[n - 1])),
                }
            },
        }
    }
}

/// Once the replay fails, it fails with the same error on every longer prefix.
proof fn lemma_replay_error_persists(
    start: LedgerView,
    blocks: Seq<BlockView>,
    evidence: Seq<BlockEvidence>,
    m: nat,
    n: nat,
)
    requires
        m <= n,
        replay(start, blocks, evidence, m) is Err,
    ensures
        replay(start, blocks, evidence, n) == replay(start, blocks, evidence, m),
    decreases n - m,
{
    if m < n {
        lemma_replay_error_persists(start, blocks, evidence, m, (n - 1) as nat);
    }
}

/// The invariant depends on the pool alone besides the chain.
proof fn lemma_wf_frame(a: LedgerView, b: LedgerView)
    requires
        a.wf(),
        a.blocks == b.blocks,
        a.tree == b.tree,
        a.programs == b.programs,
        a.current_hash == b.current_hash,
        a.current_height == b.current_height,
        a.current_round == b.current_round,
        keys_unique(b.pool),
        keyed_by_id(b.pool),
        all_valid(b.blocks, b.programs, b.pool),
    ensures
        b.wf(),
{
    reveal(LedgerView::wf);
    assert(b.tip_wf()) by {
        reveal(LedgerView::tip_wf);
    }
    assert(b.linked()) by {
        reveal(LedgerView::linked);
    }
    assert(b.unique()) by {
        reveal(LedgerView::unique);
    }
    assert(b.programs_wf()) by {
        reveal(LedgerView::programs_wf);
    }
    assert(b.deploys_unique()) by {
        reveal(LedgerView::deploys_unique);
    }
    assert(b.pool_wf()) by {
        reveal(LedgerView::pool_wf);
    }
}

/// The facts about a block that the next-block checks establish.
pub open spec fn extends(old: LedgerView, b: BlockView, valid: Seq<bool>) -> bool {
    &&& b.previous_hash == tip_hash(old.blocks)
    &&& !chain_has_block_hash(old.blocks, b.hash)
    &&& b.height() == old.blocks.len()
    &&& old.blocks.len() > 0 ==> b.round() > old.blocks.last().round() && b.timestamp()
        > old.blocks.last().timestamp()
    &&& !crate::state::block_repeats_transaction(old.blocks, b)
    &&& !block_has_invalid_transaction(old.blocks, old.programs, b, valid)
}

proof fn lemma_checks_extend(
    old: LedgerView,
    b: BlockView,
    computed_hash: u64,
    computed_transactions_root: u64,
    header_valid: bool,
    is_genesis: bool,
    signature_valid: bool,
    valid: Seq<bool>,
    challenge_points: Seq<u64>,
    pairing: bool,
)
    requires
        next_block_error(
            old.blocks,
            old.programs,
            old.validators,
            b,
            computed_hash,
            computed_transactions_root,
            header_valid,
            is_genesis,
            signature_valid,
            valid,
            challenge_points,
            pairing,
        ) is None,
    ensures
        extends(old, b, valid),
{
    reveal(next_block_error);
}

proof fn lemma_append_tip(old: LedgerView, new: LedgerView, b: BlockView, valid: Seq<bool>)
    requires
        old.wf(),
        extends(old, b, valid),
        new.blocks == old.blocks.push(b),
        new.tree == old.tree.push(b.hash),
        new.current_hash == b.hash,
        new.current_height == b.height(),
        new.current_round == b.round(),
    ensures
        new.tip_wf(),
        new.linked(),
{
    reveal(LedgerView::wf);
    reveal(LedgerView::tip_wf);
    reveal(LedgerView::linked);
    let n = old.blocks.len();
    assert(new.blocks[n as int] == b);
    assert forall|i: int| 0 <= i < new.blocks.len() implies new.tree[i] == (#[trigger] new.blocks[i]).hash by {
        if i < n {
            assert(new.tree[i] == old.tree[i]);
        }
    }
    if n > 0 {
        assert(old.blocks.last() == old.blocks[n - 1]);
    }
}

proof fn lemma_append_unique(old: LedgerView, new: LedgerView, b: BlockView, valid: Seq<bool>)
    requires
        old.wf(),
        extends(old, b, valid),
        new.blocks == old.blocks.push(b),
    ensures
        new.unique(),
{
    reveal(LedgerView::wf);
    reveal(LedgerView::tip_wf);
    reveal(LedgerView::unique);
    let n = old.blocks.len();
    assert(new.blocks[n as int] == b);
    lemma_block_values_fresh(old.blocks, old.programs, b, valid);
    assert forall|i: int, j: int| 0 <= i < j < new.blocks.len() implies (#[trigger] new.blocks[i]).hash != (
    #[trigger] new.blocks[j]).hash by {
        assert(old.blocks.push(b)[i] == new.blocks[i]);
        if j == n {
            assert(old.blocks[i] == new.blocks[i]);
        }
    }
    assert forall|i: int, j: int, id: u64|
        0 <= i < j < new.blocks.len() implies !(#[trigger] new.blocks[i].has_transaction_id(id)
        && #[trigger] new.blocks[j].has_transaction_id(id)) by {
        if j == n && new.blocks[j].has_transaction_id(id) {
            let t = choose|t: int| 0 <= t < b.transactions.len() && (#[trigger] b.transactions[t]).id() == id;
            assert(!chain_has_transaction_id(old.blocks, b.transactions[t].id()));
            assert(old.blocks[i] == new.blocks[i]);
        }
    }
    assert forall|i: int, j: int, k: Kind, v: u64|
        0 <= i < j < new.blocks.len() implies !(#[trigger] new.blocks[i].holds(k, v)
        && #[trigger] new.blocks[j].holds(k, v)) by {
        if j == n && b.holds(k, v) {
            assert(!chain_has(old.blocks, k, v));
            assert(old.blocks[i] == new.blocks[i]);
        }
    }
}

proof fn lemma_append_programs(old: LedgerView, new: LedgerView, b: BlockView)
    requires
        old.wf(),
        finalize_all(old.programs, b.transactions) == Ok::<Seq<Seq<char>>, Error>(new.programs),
        new.blocks == old.blocks.push(b),
    ensures
        new.programs_wf(),
        new.deploys_unique(),
{
    reveal(LedgerView::wf);
    reveal(LedgerView::programs_wf);
    let n = old.blocks.len();
    assert(new.blocks[n as int] == b);
    lemma_finalize_programs(old.programs, b.transactions);
    assert(new.deploys_unique()) by {
        reveal(LedgerView::deploys_unique);
        assert forall|i: int, j: int, p: Seq<char>|
            0 <= i < j < new.blocks.len() implies !(#[trigger] deployed_programs(new.blocks[i].transactions).contains(p)
            && #[trigger] deployed_programs(new.blocks[j].transactions).contains(p)) by {
            assert(new.blocks[i] == old.blocks[i]);
            if j == n && deployed_programs(new.blocks[j].transactions).contains(p) && deployed_programs(
                new.blocks[i].transactions,
            ).contains(p) {
                assert(deployed_programs(b.transactions).contains(p));
                assert(old.programs.contains(p));
            }
            if j < n {
                assert(new.blocks[j] == old.blocks[j]);
            }
        }
        assert forall|i: int|
            0 <= i < new.blocks.len() implies !(#[trigger] deployed_programs(new.blocks[i].transactions)).contains(
            credits_program(),
        ) by {
            if i == n {
                if deployed_programs(b.transactions).contains(credits_program()) {
                    assert(old.programs.contains(credits_program()));
                }
            } else {
                assert(new.blocks[i] == old.blocks[i]);
            }
        }
    }
    assert forall|p: Seq<char>| #[trigger] new.programs.contains(p) <==> (p == credits_program() || exists|i: int|
        0 <= i < new.blocks.len() && #[trigger] deployed_programs(new.blocks[i].transactions).contains(p)) by {
        assert(finalize_all(old.programs, b.transactions)->Ok_0 == new.programs);
        assert(finalize_all(old.programs, b.transactions)->Ok_0.contains(p) <==> (old.programs.contains(p)
            || deployed_programs(b.transactions).contains(p)));
        assert(old.programs.contains(p) <==> (p == credits_program() || exists|i: int|
            0 <= i < old.blocks.len() && #[trigger] deployed_programs(old.blocks[i].transactions).contains(p)));
        if exists|i: int| 0 <= i < old.blocks.len() && #[trigger] deployed_programs(old.blocks[i].transactions).contains(p) {
            let i = choose|i: int| 0 <= i < old.blocks.len() && #[trigger] deployed_programs(old.blocks[i].transactions).contains(p);
            assert(new.blocks[i] == old.blocks[i]);
        }
        if deployed_programs(b.transactions).contains(p) {
            assert(deployed_programs(new.blocks[n as int].transactions).contains(p));
        }
        if exists|i: int| 0 <= i < new.blocks.len() && #[trigger] deployed_programs(new.blocks[i].transactions).contains(p) {
            let i = choose|i: int| 0 <= i < new.blocks.len() && #[trigger] deployed_programs(new.blocks[i].transactions).contains(p);
            if i < n {
                assert(new.blocks[i] == old.blocks[i]);
            }
        }
    }
}

impl Ledger {
    /// The ledger's invariant holds.
    pub open spec fn wf(&self) -> bool {
        self@.wf()
    }

    /// Returns the height of the latest block.
    pub fn latest_height(&self) -> (r: u32)
        ensures
            r == self@.current_height,
    {
        self.current_height
    }

    /// Returns the hash of the latest block.
    pub fn latest_hash(&self) -> (r: u64)
        ensures
            r == self@.current_hash,
    {
        self.current_hash
    }

    /// Returns the round of the latest block.
    pub fn latest_round(&self) -> (r: u64)
        ensures
            r == self@.current_round,
    {
        self.current_round
    }

    /// Returns `true` if some accepted block holds `v` as a value of kind `k`.
    pub fn contains_value(&self, k: Kind, v: u64) -> (r: bool)
        ensures
            r == chain_has(self@.blocks, k, v),
    {
        let mut i: usize = 0;
        while i < self.blocks.len()
            invariant
                i <= self.blocks@.len(),
                self@.blocks == self.blocks@.map_values(|b: Block| b@),
                forall|j: int| 0 <= j < i ==> !(#[trigger] self@.blocks[j]).holds(k, v),
            decreases self.blocks@.len() - i,
        {
            if self.blocks[i].has_value(k, v) {
                assert(self@.blocks[i as int].holds(k, v));
                return true;
            }
            i += 1;
        }
        false
    }

    /// Returns `true` if some accepted block has a transaction with the ID `id`.
    pub fn contains_transaction_id(&self, id: u64) -> (r: bool)
        ensures
            r == chain_has_transaction_id(self@.blocks, id),
    {
        let mut i: usize = 0;
        while i < self.blocks.len()
            invariant
                i <= self.blocks@.len(),
                self@.blocks == self.blocks@.map_values(|b: Block| b@),
                forall|j: int| 0 <= j < i ==> !(#[trigger] self@.blocks[j]).has_transaction_id(id),
            decreases self.blocks@.len() - i,
        {
            if self.blocks[i].has_transaction_id(id) {
                assert(self@.blocks[i as int].has_transaction_id(id));
                return true;
            }
            i += 1;
        }
        false
    }

    /// Returns `true` if some accepted block has the hash `h`.
    pub fn contains_block_hash(&self, h: u64) -> (r: bool)
        ensures
            r == chain_has_block_hash(self@.blocks, h),
    {
        let mut i: usize = 0;
        while i < self.blocks.len()
            invariant
                i <= self.blocks@.len(),
                self@.blocks == self.blocks@.map_values(|b: Block| b@),
                forall|j: int| 0 <= j < i ==> (#[trigger] self@.blocks[j]).hash != h,
            decreases self.blocks@.len() - i,
        {
            if self.blocks[i].hash == h {
                assert(self@.blocks[i as int].hash == h);
                return true;
            }
            i += 1;
        }
        false
    }

    /// Returns `true` if some accepted block has the height `h`.
    pub fn contains_block_height(&self, h: u32) -> (r: bool)
        ensures
            r == chain_has_block_height(self@.blocks, h),
    {
        let mut i: usize = 0;
        while i < self.blocks.len()
            invariant
                i <= self.blocks@.len(),
                self@.blocks == self.blocks@.map_values(|b: Block| b@),
                forall|j: int| 0 <= j < i ==> (#[trigger] self@.blocks[j]).height() != h,
            decreases self.blocks@.len() - i,
        {
            if self.blocks[i].height() == h {
                assert(self@.blocks[i as int].height() == h);
                return true;
            }
            i += 1;
        }
        false
    }

    /// Returns `true` if the ledger holds `v` as a commitment.
    pub fn contains_commitment(&self, v: u64) -> (r: bool)
        ensures
            r == chain_has(self@.blocks, Kind::Commitment, v),
    {
        self.contains_value(Kind::Commitment, v)
    }

    /// Returns `true` if the ledger holds `v` as an input ID.
    pub fn contains_input_id(&self, v: u64) -> (r: bool)
        ensures
            r == chain_has(self@.blocks, Kind::InputId, v),
    {
        self.contains_value(Kind::InputId, v)
    }

    /// Returns `true` if the ledger holds `v` as a serial number.
    pub fn contains_serial_number(&self, v: u64) -> (r: bool)
        ensures
            r == chain_has(self@.blocks, Kind::SerialNumber, v),
    {
        self.contains_value(Kind::SerialNumber, v)
    }

    /// Returns `true` if the program is deployed.
    pub fn contains_program_id(&self, program_id: &String) -> (r: bool)
        ensures
            r == self@.programs.contains(program_id@),
    {
        self.vm.contains_program_id(program_id)
    }

    /// Returns `true` if no value of kind `k` in the transaction is in the chain.
    fn tx_fresh(&self, tx: &Transaction, k: Kind) -> (r: bool)
        ensures
            r == tx_fresh(self@.blocks, tx@, k),
    {
        let n = tx.transition_count();
        let mut t: usize = 0;
        while t < n
            invariant
                n == tx@.transitions().len(),
                t <= n,
                forall|a: int, i: int|
                    0 <= a < t && 0 <= i < tx@.transitions()[a].values(k).len() ==> !chain_has(
                        self@.blocks,
                        k,
                        #[trigger] tx@.transitions()[a].values(k)[i],
                    ),
            decreases n - t,
        {
            let transition = tx.transition(t);
            let m = transition.value_count(k);
            let mut i: usize = 0;
            while i < m
                invariant
                    n == tx@.transitions().len(),
                    t < n,
                    transition@ == tx@.transitions()[t as int],
                    m == transition@.values(k).len(),
                    i <= m,
                    forall|a: int, i: int|
                        0 <= a < t && 0 <= i < tx@.transitions()[a].values(k).len() ==> !chain_has(
                            self@.blocks,
                            k,
                            #[trigger] tx@.transitions()[a].values(k)[i],
                        ),
                    forall|c: int|
                        0 <= c < i ==> !chain_has(self@.blocks, k, #[trigger] transition@.values(k)[c]),
                decreases m - i,
            {
                if self.contains_value(k, transition.value_at(k, i)) {
                    return false;
                }
                i += 1;
            }
            t += 1;
        }
        true
    }

    /// Returns `true` if some input of the transaction names a state root as its origin.
    fn tx_has_state_root(tx: &Transaction) -> (r: bool)
        ensures
            r == tx_has_state_root(tx@),
    {
        let n = tx.transition_count();
        let mut t: usize = 0;
        while t < n
            invariant
                n == tx@.transitions().len(),
                t <= n,
                forall|a: int, i: int|
                    0 <= a < t && 0 <= i < tx@.transitions()[a].origins.len() ==> !((
                    #[trigger] tx@.transitions()[a].origins[i]) is StateRoot),
            decreases n - t,
        {
            let transition = tx.transition(t);
            let mut i: usize = 0;
            while i < transition.origins.len()
                invariant
                    n == tx@.transitions().len(),
                    t < n,
                    transition@ == tx@.transitions()[t as int],
                    i <= transition@.origins.len(),
                    forall|a: int, i: int|
                        0 <= a < t && 0 <= i < tx@.transitions()[a].origins.len() ==> !((
                        #[trigger] tx@.transitions()[a].origins[i]) is StateRoot),
                    forall|c: int| 0 <= c < i ==> !((#[trigger] transition@.origins[c]) is StateRoot),
                decreases transition@.origins.len() - i,
            {
                if let Origin::StateRoot(_) = transition.origins[i] {
                    assert(tx@.transitions()[t as int].origins[i as int] is StateRoot);
                    return true;
                }
                i += 1;
            }
            t += 1;
        }
        false
    }

    /// Returns `true` if every origin commitment of the transaction is in the chain.
    fn tx_origins_known(&self, tx: &Transaction) -> (r: bool)
        ensures
            r == tx_origins_known(self@.blocks, tx@),
    {
        let n = tx.transition_count();
        let mut t: usize = 0;
        while t < n
            invariant
                n == tx@.transitions().len(),
                t <= n,
                forall|a: int, i: int|
                    0 <= a < t && 0 <= i < tx@.transitions()[a].origins.len() ==> match #[trigger] tx@.transitions()[a].origins[i] {
                        Origin::Commitment(c) => chain_has(self@.blocks, Kind::Commitment, c),
                        Origin::StateRoot(_) => true,
                    },
            decreases n - t,
        {
            let transition = tx.transition(t);
            let mut i: usize = 0;
            while i < transition.origins.len()
                invariant
                    n == tx@.transitions().len(),
                    t < n,
                    transition@ == tx@.transitions()[t as int],
                    i <= transition@.origins.len(),
                    forall|a: int, i: int|
                        0 <= a < t && 0 <= i < tx@.transitions()[a].origins.len() ==> match #[trigger] tx@.transitions()[a].origins[i] {
                            Origin::Commitment(c) => chain_has(self@.blocks, Kind::Commitment, c),
                            Origin::StateRoot(_) => true,
                        },
                    forall|c: int|
                        0 <= c < i ==> match #[trigger] transition@.origins[c] {
                            Origin::Commitment(c) => chain_has(self@.blocks, Kind::Commitment, c),
                            Origin::StateRoot(_) => true,
                        },
                decreases transition@.origins.len() - i,
            {
                if let Origin::Commitment(c) = transition.origins[i] {
                    if !self.contains_value(Kind::Commitment, c) {
                        assert(!match tx@.transitions()[t as int].origins[i as int] {
                            Origin::Commitment(c) => chain_has(self@.blocks, Kind::Commitment, c),
                            Origin::StateRoot(_) => true,
                        });
                        return false;
                    }
                }
                i += 1;
            }
            t += 1;
        }
        true
    }

    /// Checks that the transaction is well formed and unique against the ledger;
    /// `verified` is the VM's verdict on its proofs.
    pub fn check_transaction(&self, transaction: &Transaction, verified: bool) -> (r: Result<(), Error>)
        ensures
            r == match transaction_error(self@.blocks, self@.programs, transaction@, verified) {
                Some(e) => Err::<(), Error>(e),
                None => Ok(()),
            },
    {
        reveal(transaction_error);
        if !verified {
            return Err(Error::VerificationFailed(Item::Transaction));
        }
        if self.contains_transaction_id(transaction.id()) {
            return Err(Error::Duplicate(Item::TransactionId));
        }
        if !self.tx_fresh(transaction, Kind::InputId) {
            return Err(Error::Duplicate(Item::InputId));
        }
        if !self.tx_fresh(transaction, Kind::SerialNumber) {
            return Err(Error::Duplicate(Item::SerialNumber));
        }
        if !self.tx_fresh(transaction, Kind::Tag) {
            return Err(Error::Duplicate(Item::Tag));
        }
        if Self::tx_has_state_root(transaction) {
            return Err(Error::Unsupported(Item::Origin));
        }
        if !self.tx_origins_known(transaction) {
            return Err(Error::Missing(Item::Commitment));
        }
        if !self.tx_fresh(transaction, Kind::OutputId) {
            return Err(Error::Duplicate(Item::OutputId));
        }
        if !self.tx_fresh(transaction, Kind::Commitment) {
            return Err(Error::Duplicate(Item::Commitment));
        }
        if !self.tx_fresh(transaction, Kind::Nonce) {
            return Err(Error::Duplicate(Item::Nonce));
        }
        if let Transaction::Deploy { program_id, .. } = transaction {
            if self.vm.contains_program_id(program_id) {
                return Err(Error::Duplicate(Item::ProgramId));
            }
        }
        if !self.tx_fresh(transaction, Kind::TransitionPublicKey) {
            return Err(Error::Duplicate(Item::TransitionPublicKey));
        }
        if !self.tx_fresh(transaction, Kind::TransitionCommitment) {
            return Err(Error::Duplicate(Item::TransitionCommitment));
        }
        Ok(())
    }
}

impl Ledger {
    /// Returns the coinbase target that the next block's coinbase proof must reach.
    pub fn latest_coinbase_target(&self) -> (r: u64)
        ensures
            r == latest_coinbase_target(self@.blocks),
    {
        let n = self.blocks.len();
        if n == 0 {
            GENESIS_COINBASE_TARGET
        } else {
            self.blocks[n - 1].header.metadata.coinbase_target
        }
    }

    /// Returns the proof target that each prover solution must reach.
    pub fn latest_proof_target(&self) -> (r: u64)
        ensures
            r == latest_proof_target(self@.blocks),
    {
        let n = self.blocks.len();
        if n == 0 {
            GENESIS_PROOF_TARGET
        } else {
            self.blocks[n - 1].header.metadata.proof_target
        }
    }

    /// Returns the latest block, if there is one.
    pub fn latest_block(&self) -> (r: Option<&Block>)
        ensures
            self@.blocks.len() == 0 ==> r is None,
            self@.blocks.len() > 0 ==> (r matches Some(b) && b@ == self@.blocks.last()),
    {
        let n = self.blocks.len();
        if n == 0 {
            None
        } else {
            Some(&self.blocks[n - 1])
        }
    }

    /// Returns the block at the given height, if there is one.
    pub fn get_block(&self, height: u32) -> (r: Option<&Block>)
        requires
            self.wf(),
        ensures
            height < self@.blocks.len() ==> (r matches Some(b) && b@ == self@.blocks[height as int]),
            height >= self@.blocks.len() ==> r is None,
    {
        if (height as usize) < self.blocks.len() {
            Some(&self.blocks[height as usize])
        } else {
            None
        }
    }

    fn block_repeats_transaction(&self, b: &Block) -> (r: bool)
        ensures
            r == block_repeats_transaction(self@.blocks, b@),
    {
        let mut j: usize = 0;
        while j < b.transactions.len()
            invariant
                j <= b@.transactions.len(),
                forall|i: int|
                    0 <= i < j ==> !chain_has_transaction_id(self@.blocks, (#[trigger] b@.transactions[i]).id()),
            decreases b@.transactions.len() - j,
        {
            if self.contains_transaction_id(b.transactions[j].id()) {
                assert(chain_has_transaction_id(self@.blocks, b@.transactions[j as int].id()));
                return true;
            }
            j += 1;
        }
        false
    }

    fn block_has_state_root(b: &Block) -> (r: bool)
        ensures
            r == block_has_state_root(b@),
    {
        let mut j: usize = 0;
        while j < b.transactions.len()
            invariant
                j <= b@.transactions.len(),
                forall|i: int| 0 <= i < j ==> !tx_has_state_root(#[trigger] b@.transactions[i]),
            decreases b@.transactions.len() - j,
        {
            if Self::tx_has_state_root(&b.transactions[j]) {
                assert(tx_has_state_root(b@.transactions[j as int]));
                return true;
            }
            j += 1;
        }
        false
    }

    fn block_origins_known(&self, b: &Block) -> (r: bool)
        ensures
            r == block_origins_known(self@.blocks, b@),
    {
        let mut j: usize = 0;
        while j < b.transactions.len()
            invariant
                j <= b@.transactions.len(),
                forall|i: int| 0 <= i < j ==> tx_origins_known(self@.blocks, #[trigger] b@.transactions[i]),
            decreases b@.transactions.len() - j,
        {
            if !self.tx_origins_known(&b.transactions[j]) {
                assert(!tx_origins_known(self@.blocks, b@.transactions[j as int]));
                return false;
            }
            j += 1;
        }
        true
    }

    fn block_fresh(&self, b: &Block, k: Kind) -> (r: bool)
        ensures
            r == block_fresh(self@.blocks, b@, k),
    {
        let mut j: usize = 0;
        while j < b.transactions.len()
            invariant
                j <= b@.transactions.len(),
                forall|i: int| 0 <= i < j ==> tx_fresh(self@.blocks, #[trigger] b@.transactions[i], k),
            decreases b@.transactions.len() - j,
        {
            if !self.tx_fresh(&b.transactions[j], k) {
                assert(!tx_fresh(self@.blocks, b@.transactions[j as int], k));
                return false;
            }
            j += 1;
        }
        true
    }

    fn block_has_invalid_transaction(&self, b: &Block, valid: &Vec<bool>) -> (r: bool)
        requires
            valid@.len() == b@.transactions.len(),
        ensures
            r == block_has_invalid_transaction(self@.blocks, self@.programs, b@, valid@),
    {
        let mut j: usize = 0;
        while j < b.transactions.len()
            invariant
                j <= b@.transactions.len(),
                valid@.len() == b@.transactions.len(),
                forall|i: int|
                    0 <= i < j ==> (#[trigger] transaction_error(
                        self@.blocks,
                        self@.programs,
                        b@.transactions[i],
                        valid@[i],
                    )) is None,
            decreases b@.transactions.len() - j,
        {
            if self.check_transaction(&b.transactions[j], valid[j]).is_err() {
                assert(transaction_error(self@.blocks, self@.programs, b@.transactions[j as int], valid@[j as int]) is Some);
                return true;
            }
            j += 1;
        }
        false
    }

    fn block_calls_genesis(b: &Block) -> (r: bool)
        ensures
            r == block_calls_genesis(b@),
    {
        let credits = String::from_str("credits.aleo");
        let genesis = String::from_str("genesis");
        let mut j: usize = 0;
        while j < b.transactions.len()
            invariant
                j <= b@.transactions.len(),
                credits@ == "credits.aleo"@,
                genesis@ == "genesis"@,
                forall|i: int, t: int|
                    0 <= i < j && 0 <= t < b@.transactions[i].transitions().len() ==> !crate::block::calls_genesis(
                        #[trigger] b@.transactions[i].transitions()[t],
                    ),
            decreases b@.transactions.len() - j,
        {
            let tx = &b.transactions[j];
            let n = tx.transition_count();
            let mut t: usize = 0;
            while t < n
                invariant
                    j < b@.transactions.len(),
                    tx@ == b@.transactions[j as int],
                    n == tx@.transitions().len(),
                    t <= n,
                    credits@ == "credits.aleo"@,
                    genesis@ == "genesis"@,
                    forall|i: int, t: int|
                        0 <= i < j && 0 <= t < b@.transactions[i].transitions().len() ==> !crate::block::calls_genesis(
                            #[trigger] b@.transactions[i].transitions()[t],
                        ),
                    forall|c: int| 0 <= c < t ==> !crate::block::calls_genesis(#[trigger] tx@.transitions()[c]),
                decreases n - t,
            {
                let transition = tx.transition(t);
                if transition.program_id == credits && transition.function_name == genesis {
                    assert(crate::block::calls_genesis(b@.transactions[j as int].transitions()[t as int]));
                    return true;
                }
                t += 1;
            }
            j += 1;
        }
        false
    }

    fn block_has_negative_fee(b: &Block) -> (r: bool)
        ensures
            r == block_has_negative_fee(b@),
    {
        let mut j: usize = 0;
        while j < b.transactions.len()
            invariant
                j <= b@.transactions.len(),
                forall|i: int, t: int|
                    0 <= i < j && 0 <= t < b@.transactions[i].transitions().len() ==> (
                    #[trigger] b@.transactions[i].transitions()[t]).fee >= 0,
            decreases b@.transactions.len() - j,
        {
            let tx = &b.transactions[j];
            let n = tx.transition_count();
            let mut t: usize = 0;
            while t < n
                invariant
                    j < b@.transactions.len(),
                    tx@ == b@.transactions[j as int],
                    n == tx@.transitions().len(),
                    t <= n,
                    forall|i: int, t: int|
                        0 <= i < j && 0 <= t < b@.transactions[i].transitions().len() ==> (
                        #[trigger] b@.transactions[i].transitions()[t]).fee >= 0,
                    forall|c: int| 0 <= c < t ==> (#[trigger] tx@.transitions()[c]).fee >= 0,
                decreases n - t,
            {
                if tx.transition(t).fee < 0 {
                    assert(b@.transactions[j as int].transitions()[t as int].fee < 0);
                    return true;
                }
                t += 1;
            }
            j += 1;
        }
        false
    }

    fn coinbase_error(&self, b: &Block, ev: &BlockEvidence) -> (r: Option<Error>)
        ensures
            r == coinbase_error(self@.blocks, b@, ev.challenge_points@, ev.pairing),
    {
        match &b.coinbase_proof {
            Some(proof) => {
                if b.height() > anchor_block_height(ANCHOR_TIME, 10) {
                    return Some(Error::OutOfRange(Item::AnchorHeight));
                }
                match proof.to_accumulator_point(&ev.challenge_points) {
                    Err(e) => Some(e),
                    Ok(point) => {
                        if point != b.header.coinbase_accumulator_point {
                            return Some(Error::Mismatch(Item::AccumulatorPoint));
                        }
                        match proof.verify(
                            self.latest_coinbase_target(),
                            self.latest_proof_target(),
                            ev.pairing,
                        ) {
                            Err(e) => Some(e),
                            Ok(valid) => if !valid {
                                Some(Error::VerificationFailed(Item::CoinbaseProof))
                            } else {
                                None
                            },
                        }
                    },
                }
            },
            None => if b.header.coinbase_accumulator_point != 0 {
                Some(Error::Mismatch(Item::AccumulatorPoint))
            } else {
                None
            },
        }
    }

    /// Checks that the block is a valid next block, given what the cryptographic
    /// primitives report about it.
    pub fn check_next_block(&self, block: &Block, evidence: &BlockEvidence) -> (r: Result<(), Error>)
        requires
            self.wf(),
        ensures
            r == match next_block_error(
                self@.blocks,
                self@.programs,
                self@.validators,
                block@,
                evidence.computed_hash,
                evidence.computed_transactions_root,
                evidence.header_valid,
                evidence.is_genesis,
                evidence.signature_valid,
                evidence.transactions_valid@,
                evidence.challenge_points@,
                evidence.pairing,
            ) {
                Some(e) => Err::<(), Error>(e),
                None => Ok(()),
            },
    {
        reveal(next_block_error);
        proof {
            reveal(LedgerView::wf);
            reveal(LedgerView::tip_wf);
        }
        let n = self.blocks.len();
        if block.previous_hash != self.current_hash {
            return Err(Error::Mismatch(Item::PreviousHash));
        }
        if self.contains_block_hash(block.hash) {
            return Err(Error::Duplicate(Item::BlockHash));
        }
        if block.height() as usize != n {
            return Err(Error::Mismatch(Item::BlockHeight));
        }
        if self.contains_block_height(block.height()) {
            return Err(Error::Duplicate(Item::BlockHeight));
        }
        if n > 0 && block.round() <= self.blocks[n - 1].round() {
            return Err(Error::Mismatch(Item::Round));
        }
        if n > 0 && block.timestamp() <= self.blocks[n - 1].timestamp() {
            return Err(Error::Mismatch(Item::Timestamp));
        }
        if self.block_repeats_transaction(block) {
            return Err(Error::Duplicate(Item::TransactionId));
        }
        if Self::block_has_state_root(block) {
            return Err(Error::Unsupported(Item::Origin));
        }
        if !self.block_origins_known(block) {
            return Err(Error::Missing(Item::Commitment));
        }
        if !self.block_fresh(block, Kind::SerialNumber) {
            return Err(Error::Duplicate(Item::SerialNumber));
        }
        if !self.block_fresh(block, Kind::Commitment) {
            return Err(Error::Duplicate(Item::Commitment));
        }
        if !self.block_fresh(block, Kind::Nonce) {
            return Err(Error::Duplicate(Item::Nonce));
        }
        if !self.block_fresh(block, Kind::TransitionPublicKey) {
            return Err(Error::Duplicate(Item::TransitionPublicKey));
        }
        if block.height() == 0 && !evidence.is_genesis {
            return Err(Error::VerificationFailed(Item::Genesis));
        }
        if !evidence.header_valid {
            return Err(Error::Mismatch(Item::Header));
        }
        if evidence.computed_hash != block.hash {
            return Err(Error::Mismatch(Item::BlockHash));
        }
        if !crate::interop::validators_contains(&self.validators, block.signer) {
            return Err(Error::VerificationFailed(Item::Signer));
        }
        if !evidence.signature_valid {
            return Err(Error::VerificationFailed(Item::Signature));
        }
        if evidence.computed_transactions_root != block.header.transactions_root {
            return Err(Error::Mismatch(Item::TransactionsRoot));
        }
        if block.transactions.len() == 0 || block.transactions.len() > MAX_TRANSACTIONS {
            return Err(Error::OutOfRange(Item::Transactions));
        }
        if evidence.transactions_valid.len() != block.transactions.len() {
            return Err(Error::Mismatch(Item::Transactions));
        }
        if self.block_has_invalid_transaction(block, &evidence.transactions_valid) {
            return Err(Error::VerificationFailed(Item::Transaction));
        }
        if let Some(e) = self.coinbase_error(block, evidence) {
            return Err(e);
        }
        if block.height() > 0 && Self::block_calls_genesis(block) {
            return Err(Error::VerificationFailed(Item::GenesisCall));
        }
        if block.height() > 0 && Self::block_has_negative_fee(block) {
            return Err(Error::VerificationFailed(Item::Fee));
        }
        Ok(())
    }
}

impl Ledger {
    /// Appends the block as the next block of the chain, atomically: on any error
    /// the ledger is left as it was. On success the tip moves to the block, the
    /// VM finalizes its transactions, the memory pool keeps only the transactions
    /// that are still valid, and the solution pool is emptied when a new epoch begins.
    pub fn add_next_block(&mut self, block: &Block, evidence: &BlockEvidence) -> (r: Result<(), Error>)
        requires
            old(self).wf(),
        ensures
            final(self).wf(),
            r == match old(self)@.append_error(
                block@,
                evidence.computed_hash,
                evidence.computed_transactions_root,
                evidence.header_valid,
                evidence.is_genesis,
                evidence.signature_valid,
                evidence.transactions_valid@,
                evidence.challenge_points@,
                evidence.pairing,
            ) {
                Some(e) => Err::<(), Error>(e),
                None => Ok(()),
            },
            r is Err ==> *final(self) == *old(self),
            r is Ok ==> final(self)@ == old(self)@.appended(block@),
            r is Ok ==> {
                &&& final(self)@.blocks == old(self)@.blocks.push(block@)
                &&& final(self)@.tree == old(self)@.tree.push(block.hash)
                &&& final(self)@.current_hash == block.hash
                &&& final(self)@.current_height == block@.height()
                &&& final(self)@.current_round == block@.round()
                &&& Ok::<Seq<Seq<char>>, Error>(final(self)@.programs) == finalize_all(
                    old(self)@.programs,
                    block@.transactions,
                )
                &&& final(self)@.validators == old(self)@.validators
                &&& final(self)@.pool == retained(
                    final(self)@.blocks,
                    final(self)@.programs,
                    old(self)@.pool,
                )
                &&& final(self)@.solutions == if block@.epoch_number() > old(self)@.current_height / 256 {
                    Seq::<(u64, u64, u64)>::empty()
                } else {
                    old(self)@.solutions
                }
            },
    {
        match self.check_next_block(block, evidence) {
            Err(e) => {
                return Err(e);
            },
            Ok(()) => {},
        }
        let vm = match Self::finalize_block(&self.vm, block) {
            Err(e) => {
                return Err(e);
            },
            Ok(vm) => vm,
        };
        proof {
            lemma_checks_extend(
                self@,
                block@,
                evidence.computed_hash,
                evidence.computed_transactions_root,
                evidence.header_valid,
                evidence.is_genesis,
                evidence.signature_valid,
                evidence.transactions_valid@,
                evidence.challenge_points@,
                evidence.pairing,
            );
        }
        self.commit(block, vm, Ghost(evidence.transactions_valid@));
        Ok(())
    }

    /// Moves the tip to the block, installs the finalized program store, keeps the
    /// pool transactions that stay valid, and empties the solution pool on a new epoch.
    fn commit(&mut self, block: &Block, vm: Vm, valid: Ghost<Seq<bool>>)
        requires
            old(self).wf(),
            extends(old(self)@, block@, valid@),
            finalize_all(old(self)@.programs, block@.transactions) == Ok::<Seq<Seq<char>>, Error>(vm@),
        ensures
            final(self).wf(),
            final(self)@.blocks == old(self)@.blocks.push(block@),
            final(self)@.tree == old(self)@.tree.push(block.hash),
            final(self)@.current_hash == block.hash,
            final(self)@.current_height == block@.height(),
            final(self)@.current_round == block@.round(),
            final(self)@.programs == vm@,
            final(self)@.validators == old(self)@.validators,
            final(self)@.pool == retained(final(self)@.blocks, final(self)@.programs, old(self)@.pool),
            final(self)@.solutions == if block@.epoch_number() > old(self)@.current_height / 256 {
                Seq::<(u64, u64, u64)>::empty()
            } else {
                old(self)@.solutions
            },
    {
        let ghost old_view = self@;
        let previous_epoch = self.current_height / 256;
        self.current_hash = block.hash;
        self.current_height = block.height();
        self.current_round = block.round();
        self.block_tree.leaves.push(block.hash);
        self.blocks.push(block.clone());
        self.vm = vm;
        assert(self@.blocks =~= old_view.blocks.push(block@));
        // Keep the transactions of the memory pool that are still valid.
        let entries = pool_drain(&mut self.memory_pool);
        assert(entries@.map_values(|e: (u64, Transaction)| (e.0, e.1@)) =~= old_view.pool);
        proof {
            reveal(LedgerView::wf);
            reveal(LedgerView::pool_wf);
        }
        let pool = self.retain_valid(entries);
        let ghost chain = self@;
        self.memory_pool = pool;
        assert(self@.blocks == chain.blocks && self@.programs == chain.programs);
        assert(self@.pool == pool_view(pool));
        if block.epoch_number() > previous_epoch {
            solutions_clear(&mut self.coinbase_memory_pool);
            assert(self@.solutions =~= Seq::<(u64, u64, u64)>::empty());
        }
        proof {
            lemma_append_tip(old_view, self@, block@, valid@);
            lemma_append_unique(old_view, self@, block@, valid@);
            lemma_append_programs(old_view, self@, block@);
            reveal(LedgerView::wf);
            reveal(LedgerView::pool_wf);
        }
    }

    /// Finalizes the block's transactions on a copy of the program store.
    fn finalize_block(store: &Vm, block: &Block) -> (r: Result<Vm, Error>)
        ensures
            match finalize_all(store@, block@.transactions) {
                Ok(p) => r matches Ok(v) && v@ == p,
                Err(e) => r == Err::<Vm, Error>(e),
            },
    {
        let mut vm = store.clone();
        let ghost start = vm@;
        let mut j: usize = 0;
        while j < block.transactions.len()
            invariant
                j <= block@.transactions.len(),
                start == store@,
                finalize_all(start, block@.transactions.take(j as int)) == Ok::<Seq<Seq<char>>, Error>(vm@),
            decreases block@.transactions.len() - j,
        {
            proof {
                assert(block@.transactions.take(j as int + 1).drop_last() =~= block@.transactions.take(j as int));
            }
            match vm.finalize(&block.transactions[j]) {
                Err(e) => {
                    proof {
                        lemma_finalize_error_persists(start, block@.transactions, j as int + 1);
                    }
                    return Err(e);
                },
                Ok(()) => {},
            }
            j += 1;
        }
        proof {
            assert(block@.transactions.take(j as int) =~= block@.transactions);
        }
        Ok(vm)
    }

    /// Builds a pool of the given entries that are still valid, in their order.
    /// The VM's verdict on a pooled transaction's proofs was given when it was
    /// admitted, and depends on the transaction alone, so it is not asked again.
    fn retain_valid(&self, entries: Vec<(u64, Transaction)>) -> (r: IndexMap<u64, Transaction, RandomState>)
        requires
            keys_unique(entries@.map_values(|e: (u64, Transaction)| (e.0, e.1@))),
            keyed_by_id(entries@.map_values(|e: (u64, Transaction)| (e.0, e.1@))),
        ensures
            pool_view(r) == retained(
                self@.blocks,
                self@.programs,
                entries@.map_values(|e: (u64, Transaction)| (e.0, e.1@)),
            ),
            keys_unique(pool_view(r)),
            keyed_by_id(pool_view(r)),
            all_valid(self@.blocks, self@.programs, pool_view(r)),
    {
        let ghost src = entries@.map_values(|e: (u64, Transaction)| (e.0, e.1@));
        let ghost drained = entries@;
        let mut rest = entries;
        let mut pool = crate::interop::pool_new();
        proof {
            assert(pool_view(pool) =~= Seq::<(u64, TransactionView)>::empty());
            assert(src.take(0) =~= Seq::<(u64, TransactionView)>::empty());
        }
        let n = rest.len();
        let mut i: usize = 0;
        while i < n
            invariant
                i <= n,
                n == drained.len(),
                rest@ =~= drained.subrange(i as int, n as int),
                src == drained.map_values(|e: (u64, Transaction)| (e.0, e.1@)),
                keys_unique(src),
                keyed_by_id(src),
                pool_view(pool) == retained(self@.blocks, self@.programs, src.take(i as int)),
                forall|a: int|
                    0 <= a < pool_view(pool).len() ==> exists|c: int|
                        0 <= c < i && (#[trigger] pool_view(pool)[a]).0 == #[trigger] src[c].0,
                keys_unique(pool_view(pool)),
                keyed_by_id(pool_view(pool)),
                all_valid(self@.blocks, self@.programs, pool_view(pool)),
            decreases n - i,
        {
            let (id, tx) = rest.remove(0);
            proof {
                assert(drained[i as int] == (id, tx));
                assert(src[i as int] == (id, tx@));
                assert(src.take(i as int + 1).drop_last() =~= src.take(i as int));
                assert(src.take(i as int + 1).last() == src[i as int]);
            }
            let ghost before = pool_view(pool);
            if self.check_transaction(&tx, true).is_ok() {
                proof {
                    assert(!has_key(pool_entries(pool), id)) by {
                        if has_key(pool_entries(pool), id) {
                            let a = choose|a: int|
                                0 <= a < pool_entries(pool).len() && (#[trigger] pool_entries(pool)[a]).0 == id;
                            assert(before[a].0 == id);
                            let c = choose|c: int| 0 <= c < i && (#[trigger] before[a]).0 == #[trigger] src[c].0;
                            assert(src[c].0 == src[i as int].0);
                        }
                    }
                }
                pool_insert(&mut pool, id, tx);
                proof {
                    assert(pool_view(pool) =~= before.push((id, tx@)));
                    assert forall|a: int|
                        0 <= a < pool_view(pool).len() implies exists|c: int|
                            0 <= c < i + 1 && (#[trigger] pool_view(pool)[a]).0 == #[trigger] src[c].0 by {
                        if a < before.len() {
                            let c = choose|c: int| 0 <= c < i && (#[trigger] before[a]).0 == #[trigger] src[c].0;
                            assert(pool_view(pool)[a] == before[a]);
                        } else {
                            assert(pool_view(pool)[a].0 == src[i as int].0);
                        }
                    }
                    assert forall|a: int, b: int|
                        0 <= a < b < pool_view(pool).len() implies (#[trigger] pool_view(pool)[a]).0 != (
                        #[trigger] pool_view(pool)[b]).0 by {
                        assert(pool_view(pool)[a] == before[a]);
                        if b == before.len() {
                            let c = choose|c: int| 0 <= c < i && (#[trigger] before[a]).0 == #[trigger] src[c].0;
                        } else {
                            assert(pool_view(pool)[b] == before[b]);
                        }
                    }
                    assert forall|a: int| 0 <= a < pool_view(pool).len() implies (#[trigger] pool_view(pool)[a]).0
                        == pool_view(pool)[a].1.id() by {
                        if a < before.len() {
                            assert(pool_view(pool)[a] == before[a]);
                        }
                    }
                    assert forall|a: int| 0 <= a < pool_view(pool).len() implies transaction_error(
                        self@.blocks,
                        self@.programs,
                        (#[trigger] pool_view(pool)[a]).1,
                        true,
                    ) is None by {
                        if a < before.len() {
                            assert(pool_view(pool)[a] == before[a]);
                        }
                    }
                }
            } else {
                proof {
                    assert forall|a: int|
                        0 <= a < pool_view(pool).len() implies exists|c: int|
                            0 <= c < i + 1 && (#[trigger] pool_view(pool)[a]).0 == #[trigger] src[c].0 by {
                        let c = choose|c: int| 0 <= c < i && (#[trigger] pool_view(pool)[a]).0 == #[trigger] src[c].0;
                    }
                }
            }
            i += 1;
        }
        proof {
            assert(src.take(n as int) =~= src);
        }
        pool
    }
}

/// Which records of an account a search returns.
#[derive(Clone, Copy, Debug, PartialEq, Eq, Structural)]
pub enum RecordsFilter {
    /// All records of the account.
    All,
    /// The records that are spent, found with the graph key.
    Spent,
    /// The records that are not spent, found with the graph key.
    Unspent,
    /// The records that are spent, found with the given private key.
    SlowSpent(crate::input::PrivateKey),
    /// The records that are not spent, found with the given private key.
    SlowUnspent(crate::input::PrivateKey),
}

/// The network that blocks are proposed for.
pub const NETWORK_ID: u16 = 3;

/// A candidate for the next block: everything that the ledger decides. The
/// coinbase proof (when required), the roots, the hash and the signature are
/// produced from it by the cryptographic primitives.
#[derive(Debug)]
pub struct BlockTemplate {
    pub previous_hash: u64,
    pub metadata: Metadata,
    pub transactions: Vec<Transaction>,
    pub prover_solutions: Vec<PartialSolution>,
    pub cumulative_target: u128,
    pub coinbase_required: bool,
    pub coinbase_reward: u64,
    pub prover_rewards: Vec<(u64, u64)>,
}

impl LedgerView {
    /// The ledger before genesis, with a single validator.
    pub open spec fn empty(address: u64) -> LedgerView {
        LedgerView {
            current_hash: 0,
            current_height: 0,
            current_round: 0,
            tree: Seq::empty(),
            blocks: Seq::empty(),
            validators: Set::empty().insert(address),
            pool: Seq::empty(),
            solutions: Seq::empty(),
            programs: seq![credits_program()],
        }
    }

    /// The transactions of the pool, in order.
    pub open spec fn pool_transactions(self) -> Seq<TransactionView> {
        self.pool.map_values(|e: (u64, TransactionView)| e.1)
    }

    /// The solutions that a proposal takes from the pool: the first `MAX_PROVER_SOLUTIONS`.
    pub open spec fn proposed_solutions(self) -> Seq<PartialSolution> {
        let n = if self.solutions.len() > MAX_PROVER_SOLUTIONS {
            MAX_PROVER_SOLUTIONS as int
        } else {
            self.solutions.len() as int
        };
        self.solutions.take(n).map_values(|x: (u64, u64, u64)| to_partial(x))
    }
}

impl LedgerView {
    /// `t` is the candidate that this ledger proposes at `timestamp`: it extends
    /// the tip at the next height and round, takes the greedy selection of the
    /// pool's transactions and the first solutions of the solution pool, asks for
    /// a coinbase proof exactly when the cumulative target reaches the coinbase
    /// target before year ten, and carries the retargeted targets and the rewards.
    pub open spec fn proposes(self, t: BlockTemplate, timestamp: i64) -> bool {
        let latest = self.blocks.last();
        let solutions = self.proposed_solutions();
        let cumulative = cumulative_target(solutions);
        let height = if self.current_height == u32::MAX { u32::MAX } else { (self.current_height + 1) as u32 };
        let round = if latest.round() == u64::MAX { u64::MAX } else { (latest.round() + 1) as u64 };
        let reward = spec_coinbase_reward(latest.timestamp(), timestamp, height);
        let target = spec_coinbase_target(latest.header.metadata.coinbase_target, latest.timestamp(), timestamp);
        &&& t.previous_hash == self.current_hash
        &&& t.metadata == (Metadata {
            network_id: NETWORK_ID,
            round,
            height,
            coinbase_target: target,
            proof_target: spec_proof_target(target),
            timestamp,
        })
        &&& t.transactions@.map_values(|x: Transaction| x@) == select(self.pool_transactions())
        &&& t.prover_solutions@ == solutions
        &&& t.cumulative_target == cumulative
        &&& t.coinbase_required == (self.current_height <= coinbase_cutoff_height() && cumulative
            >= latest_coinbase_target(self.blocks))
        &&& t.coinbase_reward == reward
        &&& reward_list(solutions, reward, cumulative as u128) == Ok::<Seq<(u64, u64)>, Error>(t.prover_rewards@)
    }
}

impl Ledger {
    /// Initializes a ledger whose one validator is `address`, with the genesis block.
    pub fn new_with_genesis(genesis: &Block, address: u64, evidence: &BlockEvidence) -> (r: Result<
        Ledger,
        Error,
    >)
        ensures
            r is Ok <==> LedgerView::empty(address).append_error(
                genesis@,
                evidence.computed_hash,
                evidence.computed_transactions_root,
                evidence.header_valid,
                evidence.is_genesis,
                evidence.signature_valid,
                evidence.transactions_valid@,
                evidence.challenge_points@,
                evidence.pairing,
            ) is None,
            r matches Err(e) ==> LedgerView::empty(address).append_error(
                genesis@,
                evidence.computed_hash,
                evidence.computed_transactions_root,
                evidence.header_valid,
                evidence.is_genesis,
                evidence.signature_valid,
                evidence.transactions_valid@,
                evidence.challenge_points@,
                evidence.pairing,
            ) == Some(e),
            r matches Ok(l) ==> l@ == LedgerView::empty(address).appended(genesis@) && l@.pool.len() == 0
                && l@.solutions.len() == 0 && l@.current_round == genesis@.round(),
            r matches Ok(l) ==> l.wf() && l@.blocks == seq![genesis@] && l@.validators == Set::<u64>::empty().insert(address)
                && l@.current_hash == genesis.hash && l@.current_height == 0,
    {
        let mut validators = validators_new();
        validators_insert(&mut validators, address);
        let mut ledger = Ledger {
            current_hash: 0,
            current_height: 0,
            current_round: 0,
            block_tree: BlockTree { leaves: Vec::new() },
            blocks: Vec::new(),
            validators,
            memory_pool: crate::interop::pool_new(),
            coinbase_memory_pool: solutions_new(),
            vm: Vm::new(),
        };
        proof {
            assert(ledger@.blocks =~= Seq::<BlockView>::empty());
            assert(ledger@.pool =~= Seq::<(u64, TransactionView)>::empty());
            assert(ledger@ == LedgerView::empty(address));
            reveal(LedgerView::wf);
            reveal(LedgerView::tip_wf);
            reveal(LedgerView::linked);
            reveal(LedgerView::unique);
            reveal(LedgerView::programs_wf);
            reveal(LedgerView::deploys_unique);
            reveal(LedgerView::pool_wf);
            assert forall|p: Seq<char>|
                #![trigger ledger@.programs.contains(p)]
                ledger@.programs.contains(p) <==> (p == credits_program() || exists|i: int|
                    0 <= i < ledger@.blocks.len() && #[trigger] deployed_programs(
                        ledger@.blocks[i].transactions,
                    ).contains(p)) by {
                if p == credits_program() {
                    assert(ledger@.programs[0] == p);
                }
            }
        }
        match ledger.add_next_block(genesis, evidence) {
            Ok(()) => {
                assert(ledger@.blocks =~= seq![genesis@]);
                assert(ledger@.pool =~= Seq::<(u64, TransactionView)>::empty());
                Ok(ledger)
            },
            Err(e) => Err(e),
        }
    }

    /// Rebuilds a ledger from stored blocks in height order: the signer of the
    /// first block is the validator, and every block is replayed through the
    /// checks with its evidence.
    pub fn from(blocks: &Vec<Block>, evidence: &Vec<BlockEvidence>) -> (r: Result<Ledger, Error>)
        ensures
            blocks@.len() == 0 ==> r == Err::<Ledger, Error>(Error::Missing(Item::BlockHeight)),
            blocks@.len() > 0 && evidence@.len() != blocks@.len() ==> r == Err::<Ledger, Error>(
                Error::Mismatch(Item::Transactions),
            ),
            blocks@.len() > 0 && evidence@.len() == blocks@.len() ==> match replay(
                LedgerView::empty(blocks@[0].signer),
                blocks@.map_values(|b: Block| b@),
                evidence@,
                blocks@.len() as nat,
            ) {
                Ok(v) => (r matches Ok(l) && l@ == v),
                Err(e) => r == Err::<Ledger, Error>(e),
            },
            r matches Ok(l) ==> l.wf() && l@.blocks == blocks@.map_values(|b: Block| b@)
                && l@.validators == Set::<u64>::empty().insert(blocks@[0].signer) && l@.pool.len() == 0
                && l@.solutions.len() == 0,
    {
        if blocks.len() == 0 {
            return Err(Error::Missing(Item::BlockHeight));
        }
        if evidence.len() != blocks.len() {
            return Err(Error::Mismatch(Item::Transactions));
        }
        let ghost start = LedgerView::empty(blocks@[0].signer);
        let ghost bv = blocks@.map_values(|b: Block| b@);
        let ghost n = blocks@.len() as nat;
        assert(bv[0] == blocks@[0]@);
        assert(replay(start, bv, evidence@, 0) == Ok::<LedgerView, Error>(start));
        let mut ledger = match Self::new_with_genesis(&blocks[0], blocks[0].signer, &evidence[0]) {
            Ok(l) => l,
            Err(e) => {
                proof {
                    lemma_replay_error_persists(start, bv, evidence@, 1, n);
                }
                return Err(e);
            },
        };
        assert(ledger@.blocks =~= blocks@.take(1).map_values(|b: Block| b@));
        assert(replay(start, bv, evidence@, 1) == Ok::<LedgerView, Error>(ledger@));
        let mut i: usize = 1;
        while i < blocks.len()
            invariant
                1 <= i <= blocks@.len(),
                evidence@.len() == blocks@.len(),
                n == blocks@.len(),
                start == LedgerView::empty(blocks@[0].signer),
                bv == blocks@.map_values(|b: Block| b@),
                ledger.wf(),
                ledger@.blocks == blocks@.take(i as int).map_values(|b: Block| b@),
                ledger@.validators == Set::<u64>::empty().insert(blocks@[0].signer),
                ledger@.pool.len() == 0,
                ledger@.solutions.len() == 0,
                replay(start, bv, evidence@, i as nat) == Ok::<LedgerView, Error>(ledger@),
            decreases blocks@.len() - i,
        {
            let ghost before = ledger@;
            assert(bv[i as int] == blocks@[i as int]@);
            match ledger.add_next_block(&blocks[i], &evidence[i]) {
                Ok(()) => {},
                Err(e) => {
                    proof {
                        assert(replay(start, bv, evidence@, (i + 1) as nat) == Err::<LedgerView, Error>(e));
                        lemma_replay_error_persists(start, bv, evidence@, (i + 1) as nat, n);
                    }
                    return Err(e);
                },
            }
            assert(ledger@.blocks =~= blocks@.take(i as int + 1).map_values(|b: Block| b@));
            assert(ledger@.pool =~= Seq::<(u64, TransactionView)>::empty());
            assert(ledger@.solutions =~= Seq::<(u64, u64, u64)>::empty());
            assert(replay(start, bv, evidence@, (i + 1) as nat) == Ok::<LedgerView, Error>(ledger@));
            i += 1;
        }
        assert(blocks@.take(i as int) =~= blocks@);
        Ok(ledger)
    }

    /// Returns the epoch of the latest block.
    pub fn latest_epoch_number(&self) -> (r: u32)
        ensures
            r == self@.current_height / 256,
    {
        self.current_height / 256
    }

    /// Returns the block tree.
    pub fn block_tree(&self) -> (r: &BlockTree)
        requires
            self.wf(),
        ensures
            r.spec_leaves() == self@.tree,
            forall|i: int| 0 <= i < self@.blocks.len() ==> r.spec_leaves()[i] == #[trigger] self@.blocks[i].hash,
            r.spec_leaves().len() == self@.blocks.len(),
    {
        proof {
            reveal(LedgerView::wf);
            reveal(LedgerView::tip_wf);
        }
        &self.block_tree
    }

    /// Returns the validator set.
    pub fn validators(&self) -> (r: &IndexSet<u64, RandomState>)
        ensures
            validator_set(*r) == self@.validators,
    {
        &self.validators
    }

    /// Returns the memory pool of unconfirmed transactions.
    pub fn memory_pool(&self) -> (r: &IndexMap<u64, Transaction, RandomState>)
        ensures
            pool_view(*r) == self@.pool,
    {
        &self.memory_pool
    }

    /// Returns the memory pool of prover solutions for the current epoch.
    pub fn coinbase_memory_pool(&self) -> (r: &IndexSet<(u64, u64, u64), RandomState>)
        ensures
            solution_entries(*r) == self@.solutions,
    {
        &self.coinbase_memory_pool
    }

    /// Returns the program store of the VM.
    pub fn vm(&self) -> (r: &Vm)
        ensures
            r@ == self@.programs,
    {
        &self.vm
    }

    /// Adds the address to the validator set.
    pub fn add_validator(&mut self, address: u64) -> (r: Result<(), Error>)
        requires
            old(self).wf(),
        ensures
            final(self).wf(),
            r is Ok <==> !old(self)@.validators.contains(address),
            r is Err ==> r == Err::<(), Error>(Error::Duplicate(Item::Validator)),
            final(self)@ == (LedgerView { validators: old(self)@.validators.insert(address), ..old(self)@ }),
    {
        let added = validators_insert(&mut self.validators, address);
        proof {
            reveal(LedgerView::pool_wf);
            reveal(LedgerView::wf);
            lemma_wf_frame(old(self)@, self@);
        }
        if added {
            Ok(())
        } else {
            Err(Error::Duplicate(Item::Validator))
        }
    }

    /// Removes the address from the validator set.
    pub fn remove_validator(&mut self, address: u64) -> (r: Result<(), Error>)
        requires
            old(self).wf(),
        ensures
            final(self).wf(),
            r is Ok <==> old(self)@.validators.contains(address),
            r is Err ==> r == Err::<(), Error>(Error::Missing(Item::Validator)),
            final(self)@ == (LedgerView { validators: old(self)@.validators.remove(address), ..old(self)@ }),
    {
        let removed = validators_remove(&mut self.validators, address);
        proof {
            reveal(LedgerView::pool_wf);
            reveal(LedgerView::wf);
            lemma_wf_frame(old(self)@, self@);
        }
        if removed {
            Ok(())
        } else {
            Err(Error::Missing(Item::Validator))
        }
    }

    /// Adds the transaction to the memory pool, if it is not there yet and is
    /// valid against the ledger; `verified` is the VM's verdict on its proofs.
    pub fn add_to_memory_pool(&mut self, transaction: Transaction, verified: bool) -> (r: Result<(), Error>)
        requires
            old(self).wf(),
        ensures
            final(self).wf(),
            r == if crate::state::pool_has_key(old(self)@.pool, transaction@.id()) {
                Err::<(), Error>(Error::Duplicate(Item::TransactionId))
            } else {
                match transaction_error(old(self)@.blocks, old(self)@.programs, transaction@, verified) {
                    Some(e) => Err(e),
                    None => Ok(()),
                }
            },
            r is Err ==> *final(self) == *old(self),
            r is Ok ==> final(self)@ == (LedgerView {
                pool: old(self)@.pool.push((transaction@.id(), transaction@)),
                ..old(self)@
            }),
    {
        let id = transaction.id();
        if pool_contains(&self.memory_pool, id) {
            proof {
                let i = choose|i: int| 0 <= i < pool_entries(self.memory_pool).len() && (#[trigger] pool_entries(self.memory_pool)[i]).0 == id;
                assert(self@.pool[i].0 == id);
            }
            return Err(Error::Duplicate(Item::TransactionId));
        }
        proof {
            assert(!crate::state::pool_has_key(self@.pool, id)) by {
                if crate::state::pool_has_key(self@.pool, id) {
                    let i = choose|i: int| 0 <= i < self@.pool.len() && (#[trigger] self@.pool[i]).0 == id;
                    assert(pool_entries(self.memory_pool)[i].0 == id);
                }
            }
        }
        match self.check_transaction(&transaction, verified) {
            Err(e) => {
                return Err(e);
            },
            Ok(()) => {},
        }
        let ghost before = self@;
        let ghost tv = transaction@;
        pool_insert(&mut self.memory_pool, id, transaction);
        proof {
            assert(self@.pool =~= before.pool.push((id, tv)));
            reveal(LedgerView::wf);
            reveal(LedgerView::pool_wf);
            assert forall|i: int, j: int| 0 <= i < j < self@.pool.len() implies (#[trigger] self@.pool[i]).0 != (
            #[trigger] self@.pool[j]).0 by {
                if j == before.pool.len() {
                    assert(self@.pool[i] == before.pool[i]);
                }
            }
            assert(transaction_error(before.blocks, before.programs, tv, true) is None) by {
                reveal(transaction_error);
            }
            assert(keyed_by_id(self@.pool));
            assert(all_valid(self@.blocks, self@.programs, self@.pool));
            lemma_wf_frame(before, self@);
        }
        Ok(())
    }

    /// Adds the prover solution to the coinbase memory pool; `pairing` is the
    /// outcome of the solution's KZG check against the current epoch challenge.
    pub fn add_to_coinbase_memory_pool(&mut self, solution: PartialSolution, pairing: bool) -> (r: Result<
        (),
        Error,
    >)
        requires
            old(self).wf(),
        ensures
            final(self).wf(),
            r == if old(self)@.current_height > coinbase_cutoff_height() {
                Err::<(), Error>(Error::OutOfRange(Item::AnchorHeight))
            } else if solution.target() < latest_proof_target(old(self)@.blocks) || !pairing {
                Err(Error::VerificationFailed(Item::ProverSolution))
            } else if old(self)@.solutions.contains((solution.address, solution.nonce, solution.commitment)) {
                Err(Error::Duplicate(Item::ProverSolution))
            } else {
                Ok(())
            },
            r is Err ==> final(self)@ == old(self)@,
            r is Ok ==> final(self)@ == (LedgerView {
                solutions: old(self)@.solutions.push((solution.address, solution.nonce, solution.commitment)),
                ..old(self)@
            }),
    {
        if self.current_height > anchor_block_height(ANCHOR_TIME, 10) {
            return Err(Error::OutOfRange(Item::AnchorHeight));
        }
        if solution.to_target() < self.latest_proof_target() || !pairing {
            return Err(Error::VerificationFailed(Item::ProverSolution));
        }
        let ghost before = self@;
        if !solutions_insert(&mut self.coinbase_memory_pool, (solution.address, solution.nonce, solution.commitment)) {
            return Err(Error::Duplicate(Item::ProverSolution));
        }
        proof {
            reveal(LedgerView::wf);
            reveal(LedgerView::pool_wf);
            lemma_wf_frame(before, self@);
        }
        Ok(())
    }
}

/// Returns `true` if some transaction of `selected` takes `v` as an input ID.
fn takes_input_exec(selected: &Vec<Transaction>, v: u64) -> (r: bool)
    ensures
        r == takes_input(selected@.map_values(|t: Transaction| t@), v),
{
    let ghost sel = selected@.map_values(|t: Transaction| t@);
    let mut j: usize = 0;
    while j < selected.len()
        invariant
            j <= selected@.len(),
            sel == selected@.map_values(|t: Transaction| t@),
            forall|a: int| 0 <= a < j ==> !(#[trigger] sel[a]).holds(Kind::InputId, v),
        decreases selected@.len() - j,
    {
        if selected[j].has_value(Kind::InputId, v) {
            assert(sel[j as int].holds(Kind::InputId, v));
            return true;
        }
        j += 1;
    }
    false
}

/// Returns `true` if some input ID of `tx` is taken by a transaction of `selected`.
fn conflicts_exec(tx: &Transaction, selected: &Vec<Transaction>) -> (r: bool)
    ensures
        r == conflicts(tx@, selected@.map_values(|t: Transaction| t@)),
{
    let ghost sel = selected@.map_values(|t: Transaction| t@);
    let n = tx.transition_count();
    let mut t: usize = 0;
    while t < n
        invariant
            n == tx@.transitions().len(),
            t <= n,
            sel == selected@.map_values(|t: Transaction| t@),
            forall|a: int, i: int|
                0 <= a < t && 0 <= i < tx@.transitions()[a].input_ids.len() ==> !takes_input(
                    sel,
                    #[trigger] tx@.transitions()[a].input_ids[i],
                ),
        decreases n - t,
    {
        let transition = tx.transition(t);
        let mut i: usize = 0;
        while i < transition.input_ids.len()
            invariant
                n == tx@.transitions().len(),
                t < n,
                transition@ == tx@.transitions()[t as int],
                i <= transition@.input_ids.len(),
                sel == selected@.map_values(|t: Transaction| t@),
                forall|a: int, i: int|
                    0 <= a < t && 0 <= i < tx@.transitions()[a].input_ids.len() ==> !takes_input(
                        sel,
                        #[trigger] tx@.transitions()[a].input_ids[i],
                    ),
                forall|c: int| 0 <= c < i ==> !takes_input(sel, #[trigger] transition@.input_ids[c]),
            decreases transition@.input_ids.len() - i,
        {
            if takes_input_exec(selected, transition.input_ids[i]) {
                assert(takes_input(sel, tx@.transitions()[t as int].input_ids[i as int]));
                return true;
            }
            i += 1;
        }
        t += 1;
    }
    false
}

impl Ledger {
    /// Selects the pool transactions for the next block, greedily in pool order.
    fn select_transactions(&self) -> (r: Vec<Transaction>)
        ensures
            r@.map_values(|t: Transaction| t@) == select(self@.pool_transactions()),
    {
        let ghost ptx = self@.pool_transactions();
        let n = pool_len(&self.memory_pool);
        let mut selected: Vec<Transaction> = Vec::new();
        let mut i: usize = 0;
        proof {
            assert(ptx.take(0) =~= Seq::<TransactionView>::empty());
            assert(selected@.map_values(|t: Transaction| t@) =~= Seq::<TransactionView>::empty());
        }
        while i < n
            invariant
                n == pool_entries(self.memory_pool).len(),
                i <= n,
                ptx == self@.pool_transactions(),
                ptx.len() == n,
                forall|a: int| 0 <= a < n ==> #[trigger] ptx[a] == pool_entries(self.memory_pool)[a].1@,
                selected@.map_values(|t: Transaction| t@) == select(ptx.take(i as int)),
            decreases n - i,
        {
            let tx = pool_value_at(&self.memory_pool, i);
            proof {
                assert(ptx.take(i as int + 1).drop_last() =~= ptx.take(i as int));
                assert(ptx.take(i as int + 1).last() == tx@);
            }
            if !conflicts_exec(tx, &selected) {
                let ghost before = selected@.map_values(|t: Transaction| t@);
                selected.push(tx.clone());
                assert(selected@.map_values(|t: Transaction| t@) =~= before.push(tx@));
            }
            i += 1;
        }
        assert(ptx.take(n as int) =~= ptx);
        selected
    }

    /// Takes the first `MAX_PROVER_SOLUTIONS` solutions of the pool.
    fn select_solutions(&self) -> (r: Vec<PartialSolution>)
        ensures
            r@ == self@.proposed_solutions(),
    {
        let len = solutions_len(&self.coinbase_memory_pool);
        let n = if len > MAX_PROVER_SOLUTIONS {
            MAX_PROVER_SOLUTIONS
        } else {
            len
        };
        let ghost sols = self@.solutions;
        let mut out: Vec<PartialSolution> = Vec::new();
        let mut i: usize = 0;
        while i < n
            invariant
                i <= n <= sols.len(),
                sols == self@.solutions,
                out@ == sols.take(i as int).map_values(|x: (u64, u64, u64)| to_partial(x)),
            decreases n - i,
        {
            let x = solutions_at(&self.coinbase_memory_pool, i);
            out.push(PartialSolution::new(x.0, x.1, x.2));
            assert(out@ =~= sols.take(i as int + 1).map_values(|x: (u64, u64, u64)| to_partial(x)));
            i += 1;
        }
        out
    }

    /// The reward of each prover.
    fn rewards(solutions: &Vec<PartialSolution>, reward: u64, cumulative: u128) -> (r: Result<
        Vec<(u64, u64)>,
        Error,
    >)
        ensures
            match reward_list(solutions@, reward, cumulative) {
                Ok(l) => r matches Ok(v) && v@ == l,
                Err(e) => r == Err::<Vec<(u64, u64)>, Error>(e),
            },
    {
        let mut out: Vec<(u64, u64)> = Vec::new();
        let mut i: usize = 0;
        assert(solutions@.take(0) =~= Seq::<PartialSolution>::empty());
        while i < solutions.len()
            invariant
                i <= solutions@.len(),
                reward_list(solutions@.take(i as int), reward, cumulative) == Ok::<Seq<(u64, u64)>, Error>(out@),
            decreases solutions@.len() - i,
        {
            proof {
                assert(solutions@.take(i as int + 1).drop_last() =~= solutions@.take(i as int));
                assert(solutions@.take(i as int + 1).last() == solutions@[i as int]);
            }
            let s = solutions[i];
            match prover_reward(reward, s.to_target(), cumulative) {
                Err(e) => {
                    proof {
                        lemma_reward_error_persists(solutions@, reward, cumulative, i as int + 1);
                    }
                    return Err(e);
                },
                Ok(amount) => {
                    out.push((s.address, amount));
                },
            }
            i += 1;
        }
        assert(solutions@.take(i as int) =~= solutions@);
        Ok(out)
    }

    /// Returns a candidate for the next block, proposed at `timestamp`.
    pub fn propose_next_block_at(&self, timestamp: i64) -> (r: Result<BlockTemplate, Error>)
        requires
            self.wf(),
        ensures
            self@.blocks.len() == 0 ==> r == Err::<BlockTemplate, Error>(Error::Missing(Item::BlockHeight)),
            self@.blocks.len() > 0 ==> (r matches Ok(t) && self@.proposes(t, timestamp)),
    {
        let n = self.blocks.len();
        if n == 0 {
            return Err(Error::Missing(Item::BlockHeight));
        }
        let latest = &self.blocks[n - 1];
        proof {
            reveal(LedgerView::wf);
            reveal(LedgerView::tip_wf);
        }
        let transactions = self.select_transactions();
        let prover_solutions = self.select_solutions();
        proof {
            crate::coinbase::lemma_cumulative_bound(prover_solutions@);
            assert(prover_solutions@.len() <= MAX_PROVER_SOLUTIONS);
            assert(prover_solutions@.len() * (u64::MAX as int) <= MAX_PROVER_SOLUTIONS * (u64::MAX as int)) by (nonlinear_arith)
                requires prover_solutions@.len() <= MAX_PROVER_SOLUTIONS;
        }
        let cumulative = sum_targets(&prover_solutions);
        let coinbase_required = self.current_height <= anchor_block_height(ANCHOR_TIME, 10)
            && cumulative >= self.latest_coinbase_target() as u128;
        let height = if self.current_height == u32::MAX {
            u32::MAX
        } else {
            self.current_height + 1
        };
        let round = if latest.round() == u64::MAX {
            u64::MAX
        } else {
            latest.round() + 1
        };
        let reward = coinbase_reward(latest.timestamp(), timestamp, height);
        proof {
            assert forall|i: int| 0 <= i < prover_solutions@.len() implies (#[trigger] prover_solutions@[i]).target()
                <= cumulative by {
                crate::state::lemma_target_within_sum(prover_solutions@, i);
            }
            crate::state::lemma_reward_list_ok(prover_solutions@, reward, cumulative);
        }
        let prover_rewards = match Self::rewards(&prover_solutions, reward, cumulative) {
            Err(e) => {
                return Err(e);
            },
            Ok(v) => v,
        };
        let target = coinbase_target(latest.header.metadata.coinbase_target, latest.timestamp(), timestamp);
        let metadata = Metadata {
            network_id: NETWORK_ID,
            round,
            height,
            coinbase_target: target,
            proof_target: proof_target(target),
            timestamp,
        };
        Ok(BlockTemplate {
            previous_hash: self.current_hash,
            metadata,
            transactions,
            prover_solutions,
            cumulative_target: cumulative,
            coinbase_required,
            coinbase_reward: reward,
            prover_rewards,
        })
    }

    /// Returns a candidate for the next block, proposed now. The timestamp comes
    /// from the clock, so the candidate is what `propose_next_block_at` yields
    /// for some timestamp.
    pub fn propose_next_block(&self) -> (r: Result<BlockTemplate, Error>)
        requires
            self.wf(),
        ensures
            self@.blocks.len() == 0 ==> r == Err::<BlockTemplate, Error>(Error::Missing(Item::BlockHeight)),
            self@.blocks.len() > 0 ==> (r matches Ok(t) && self@.proposes(t, t.metadata.timestamp)),
    {
        let timestamp = crate::interop::now_unix_timestamp();
        self.propose_next_block_at(timestamp)
    }
}

/// Where a commitment sits in the ledger: the block (its height, hash, previous
/// hash and transactions root, the leaf of the block tree), the transaction and
/// its index in the block, and the transition and its index in the transaction.
/// The Merkle paths between these levels are computed from it by the hashing
/// primitives.
#[derive(Clone, Copy, Debug, PartialEq, Eq, Structural)]
pub struct StatePath {
    pub block_height: u32,
    pub block_hash: u64,
    pub previous_hash: u64,
    pub transactions_root: u64,
    pub transaction_index: usize,
    pub transaction_id: u64,
    pub transition_index: usize,
    pub transition_id: u64,
}

impl LedgerView {
    /// The path points at a transition of an accepted block that outputs `c`.
    pub open spec fn locates(self, p: StatePath, c: u64) -> bool {
        &&& p.block_height < self.blocks.len()
        &&& p.transaction_index < self.blocks[p.block_height as int].transactions.len()
        &&& p.transition_index < self.blocks[p.block_height as int].transactions[p.transaction_index as int].transitions().len()
        &&& {
            let b = self.blocks[p.block_height as int];
            let tx = b.transactions[p.transaction_index as int];
            let t = tx.transitions()[p.transition_index as int];
            &&& t.commitments.contains(c)
            &&& p.block_hash == b.hash
            &&& p.block_hash == self.tree[p.block_height as int]
            &&& p.previous_hash == b.previous_hash
            &&& p.transactions_root == b.header.transactions_root
            &&& p.transaction_id == tx.id()
            &&& p.transition_id == t.id
        }
    }
}

/// The index of a transaction of the block that outputs `c`.
fn find_transaction(b: &Block, c: u64) -> (r: usize)
    requires
        b@.holds(Kind::Commitment, c),
    ensures
        r < b@.transactions.len(),
        b@.transactions[r as int].holds(Kind::Commitment, c),
{
    let mut j: usize = 0;
    while j < b.transactions.len()
        invariant
            j <= b@.transactions.len(),
            b@.holds(Kind::Commitment, c),
            forall|a: int| 0 <= a < j ==> !(#[trigger] b@.transactions[a]).holds(Kind::Commitment, c),
        decreases b@.transactions.len() - j,
    {
        if b.transactions[j].has_value(Kind::Commitment, c) {
            return j;
        }
        j += 1;
    }
    proof {
        let a = choose|a: int| 0 <= a < b@.transactions.len() && #[trigger] b@.transactions[a].holds(Kind::Commitment, c);
    }
    0
}

/// The index of a transition of the transaction that outputs `c`.
fn find_transition(tx: &Transaction, c: u64) -> (r: usize)
    requires
        tx@.holds(Kind::Commitment, c),
    ensures
        r < tx@.transitions().len(),
        tx@.transitions()[r as int].commitments.contains(c),
{
    let n = tx.transition_count();
    let mut t: usize = 0;
    while t < n
        invariant
            n == tx@.transitions().len(),
            t <= n,
            tx@.holds(Kind::Commitment, c),
            forall|a: int| 0 <= a < t ==> !(#[trigger] tx@.transitions()[a]).values(Kind::Commitment).contains(c),
        decreases n - t,
    {
        if tx.transition(t).has_value(Kind::Commitment, c) {
            return t;
        }
        t += 1;
    }
    proof {
        let a = choose|a: int| 0 <= a < tx@.transitions().len() && #[trigger] tx@.transitions()[a].values(Kind::Commitment).contains(c);
    }
    0
}

impl Ledger {
    /// Locates the transition that outputs the commitment, for its state path.
    pub fn to_state_path(&self, commitment: u64) -> (r: Result<StatePath, Error>)
        requires
            self.wf(),
        ensures
            r is Ok <==> chain_has(self@.blocks, Kind::Commitment, commitment),
            r is Err ==> r == Err::<StatePath, Error>(Error::Missing(Item::Commitment)),
            r matches Ok(p) ==> self@.locates(p, commitment),
    {
        proof {
            reveal(LedgerView::wf);
            reveal(LedgerView::tip_wf);
        }
        let mut i: usize = 0;
        while i < self.blocks.len()
            invariant
                i <= self.blocks@.len(),
                self@.blocks == self.blocks@.map_values(|b: Block| b@),
                forall|a: int| 0 <= a < i ==> !(#[trigger] self@.blocks[a]).holds(Kind::Commitment, commitment),
                self@.tree.len() == self@.blocks.len(),
                forall|a: int| 0 <= a < self@.blocks.len() ==> self@.tree[a] == (#[trigger] self@.blocks[a]).hash,
                forall|a: int| 0 <= a < self@.blocks.len() ==> (#[trigger] self@.blocks[a]).height() == a,
            decreases self.blocks@.len() - i,
        {
            let b = &self.blocks[i];
            if b.has_value(Kind::Commitment, commitment) {
                let j = find_transaction(b, commitment);
                let tx = &b.transactions[j];
                let t = find_transition(tx, commitment);
                let transition = tx.transition(t);
                proof {
                    assert(self@.blocks[i as int] == b@);
                    assert(b@.height() == i);
                }
                return Ok(StatePath {
                    block_height: b.height(),
                    block_hash: b.hash,
                    previous_hash: b.previous_hash,
                    transactions_root: b.header.transactions_root,
                    transaction_index: j,
                    transaction_id: tx.id(),
                    transition_index: t,
                    transition_id: transition.id,
                });
            }
            i += 1;
        }
        Err(Error::Missing(Item::Commitment))
    }
}

} // verus!
