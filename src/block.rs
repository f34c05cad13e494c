use vstd::prelude::*;

use crate::coinbase::{CoinbaseSolution, CoinbaseSolutionView};

verus! {

/// The kinds of per-transition values that must never appear twice in the ledger.
#[derive(Clone, Copy, Debug, PartialEq, Eq, Structural)]
pub enum Kind {
    InputId,
    SerialNumber,
    Tag,
    OutputId,
    Commitment,
    Nonce,
    TransitionPublicKey,
    TransitionCommitment,
}

/// Where an input record was created: a commitment, or a state root (reserved).
#[derive(Clone, Copy, Debug, PartialEq, Eq, Structural)]
pub enum Origin {
    Commitment(u64),
    StateRoot(u64),
}

/// One state transition of a program function.
#[derive(Debug)]
pub struct Transition {
    pub id: u64,
    pub program_id: String,
    pub function_name: String,
    pub input_ids: Vec<u64>,
    pub serial_numbers: Vec<u64>,
    pub tags: Vec<u64>,
    pub origins: Vec<Origin>,
    pub output_ids: Vec<u64>,
    pub commitments: Vec<u64>,
    pub nonces: Vec<u64>,
    pub tpk: u64,
    pub tcm: u64,
    pub fee: i64,
}

/// The mathematical content of a transition.
pub struct TransitionView {
    pub id: u64,
    pub program_id: Seq<char>,
    pub function_name: Seq<char>,
    pub input_ids: Seq<u64>,
    pub serial_numbers: Seq<u64>,
    pub tags: Seq<u64>,
    pub origins: Seq<Origin>,
    pub output_ids: Seq<u64>,
    pub commitments: Seq<u64>,
    pub nonces: Seq<u64>,
    pub tpk: u64,
    pub tcm: u64,
    pub fee: i64,
}

impl View for Transition {
    type V = TransitionView;

    open spec fn view(&self) -> TransitionView {
        TransitionView {
            id: self.id,
            program_id: self.program_id@,
            function_name: self.function_name@,
            input_ids: self.input_ids@,
            serial_numbers: self.serial_numbers@,
            tags: self.tags@,
            origins: self.origins@,
            output_ids: self.output_ids@,
            commitments: self.commitments@,
            nonces: self.nonces@,
            tpk: self.tpk,
            tcm: self.tcm,
            fee: self.fee,
        }
    }
}

impl TransitionView {
    /// The values of the given kind that this transition carries.
    pub open spec fn values(self, k: Kind) -> Seq<u64> {
        match k {
            Kind::InputId => self.input_ids,
            Kind::SerialNumber => self.serial_numbers,
            Kind::Tag => self.tags,
            Kind::OutputId => self.output_ids,
            Kind::Commitment => self.commitments,
            Kind::Nonce => self.nonces,
            Kind::TransitionPublicKey => seq![self.tpk],
            Kind::TransitionCommitment => seq![self.tcm],
        }
    }
}

impl Transition {
    /// Returns `true` if this transition carries `v` as a value of kind `k`.
    pub fn has_value(&self, k: Kind, v: u64) -> (r: bool)
        ensures
            r == self@.values(k).contains(v),
    {
        let list: &Vec<u64> = match k {
            Kind::InputId => &self.input_ids,
            Kind::SerialNumber => &self.serial_numbers,
            Kind::Tag => &self.tags,
            Kind::OutputId => &self.output_ids,
            Kind::Commitment => &self.commitments,
            Kind::Nonce => &self.nonces,
            Kind::TransitionPublicKey => {
                assert(self@.values(k)[0] == self.tpk);
                return self.tpk == v;
            },
            Kind::TransitionCommitment => {
                assert(self@.values(k)[0] == self.tcm);
                return self.tcm == v;
            },
        };
        contains_u64(list, v)
    }

    /// The number of values of kind `k` in this transition.
    pub fn value_count(&self, k: Kind) -> (r: usize)
        ensures
            r == self@.values(k).len(),
    {
        match k {
            Kind::InputId => self.input_ids.len(),
            Kind::SerialNumber => self.serial_numbers.len(),
            Kind::Tag => self.tags.len(),
            Kind::OutputId => self.output_ids.len(),
            Kind::Commitment => self.commitments.len(),
            Kind::Nonce => self.nonces.len(),
            Kind::TransitionPublicKey => 1,
            Kind::TransitionCommitment => 1,
        }
    }

    /// The value of kind `k` at position `i`.
    pub fn value_at(&self, k: Kind, i: usize) -> (r: u64)
        requires
            i < self@.values(k).len(),
        ensures
            r == self@.values(k)[i as int],
    {
        match k {
            Kind::InputId => self.input_ids[i],
            Kind::SerialNumber => self.serial_numbers[i],
            Kind::Tag => self.tags[i],
            Kind::OutputId => self.output_ids[i],
            Kind::Commitment => self.commitments[i],
            Kind::Nonce => self.nonces[i],
            Kind::TransitionPublicKey => self.tpk,
            Kind::TransitionCommitment => self.tcm,
        }
    }
}

/// Returns `true` if `v` occurs in `list`.
pub fn contains_u64(list: &Vec<u64>, v: u64) -> (r: bool)
    ensures
        r == list@.contains(v),
{
    let mut i: usize = 0;
    while i < list.len()
        invariant
            i <= list@.len(),
            forall|j: int| 0 <= j < i ==> list@[j] != v,
        decreases list@.len() - i,
    {
        if list[i] == v {
            assert(list@[i as int] == v);
            return true;
        }
        i += 1;
    }
    false
}

/// A transaction: a program deployment paying a fee, or an execution of transitions.
#[derive(Debug)]
pub enum Transaction {
    Deploy { id: u64, program_id: String, fee: Transition },
    Execute { id: u64, transitions: Vec<Transition> },
}

/// The mathematical content of a transaction.
pub enum TransactionView {
    Deploy { id: u64, program_id: Seq<char>, fee: TransitionView },
    Execute { id: u64, transitions: Seq<TransitionView> },
}

impl View for Transaction {
    type V = TransactionView;

    open spec fn view(&self) -> TransactionView {
        match self {
            Transaction::Deploy { id, program_id, fee } => TransactionView::Deploy {
                id: *id,
                program_id: program_id@,
                fee: fee@,
            },
            Transaction::Execute { id, transitions } => TransactionView::Execute {
                id: *id,
                transitions: transitions@.map_values(|t: Transition| t@),
            },
        }
    }
}

impl TransactionView {
    pub open spec fn id(self) -> u64 {
        match self {
            TransactionView::Deploy { id, .. } => id,
            TransactionView::Execute { id, .. } => id,
        }
    }

    /// The transitions of the transaction, the fee transition of a deployment included.
    pub open spec fn transitions(self) -> Seq<TransitionView> {
        match self {
            TransactionView::Deploy { fee, .. } => seq![fee],
            TransactionView::Execute { transitions, .. } => transitions,
        }
    }

    /// The transaction holds `v` as a value of kind `k` in one of its transitions.
    pub open spec fn holds(self, k: Kind, v: u64) -> bool {
        exists|i: int|
            0 <= i < self.transitions().len() && #[trigger] self.transitions()[i].values(k).contains(v)
    }
}

impl Transaction {
    pub open spec fn spec_id(&self) -> u64 {
        self@.id()
    }

    /// The transaction ID.
    #[verifier::when_used_as_spec(spec_id)]
    pub fn id(&self) -> (r: u64)
        ensures
            r == self.spec_id(),
    {
        match self {
            Transaction::Deploy { id, .. } => *id,
            Transaction::Execute { id, .. } => *id,
        }
    }

    pub fn transition_count(&self) -> (r: usize)
        ensures
            r == self@.transitions().len(),
    {
        match self {
            Transaction::Deploy { .. } => 1,
            Transaction::Execute { transitions, .. } => transitions.len(),
        }
    }

    pub fn transition(&self, i: usize) -> (r: &Transition)
        requires
            i < self@.transitions().len(),
        ensures
            r@ == self@.transitions()[i as int],
    {
        match self {
            Transaction::Deploy { fee, .. } => fee,
            Transaction::Execute { transitions, .. } => &transitions[i],
        }
    }

    /// Returns `true` if the transaction holds `v` as a value of kind `k`.
    pub fn has_value(&self, k: Kind, v: u64) -> (r: bool)
        ensures
            r == self@.holds(k, v),
    {
        let n = self.transition_count();
        let mut i: usize = 0;
        while i < n
            invariant
                n == self@.transitions().len(),
                i <= n,
                forall|j: int| 0 <= j < i ==> !(#[trigger] self@.transitions()[j]).values(k).contains(v),
            decreases n - i,
        {
            if self.transition(i).has_value(k, v) {
                return true;
            }
            i += 1;
        }
        false
    }
}

/// Returns `true` if the transition calls the genesis function of the credits program.
pub open spec fn calls_genesis(t: TransitionView) -> bool {
    t.program_id == "credits.aleo"@ && t.function_name == "genesis"@
}

/// The block metadata.
#[derive(Clone, Copy, Debug, PartialEq, Eq, Structural)]
pub struct Metadata {
    pub network_id: u16,
    pub round: u64,
    pub height: u32,
    pub coinbase_target: u64,
    pub proof_target: u64,
    pub timestamp: i64,
}

/// The block header: the state root it builds on, the root of its transactions,
/// the coinbase accumulator point (zero without a coinbase proof), and the metadata.
#[derive(Clone, Copy, Debug, PartialEq, Eq, Structural)]
pub struct Header {
    pub previous_state_root: u64,
    pub transactions_root: u64,
    pub coinbase_accumulator_point: u64,
    pub metadata: Metadata,
}

/// A block: its hash, the hash it extends, its header, its transactions, its
/// optional coinbase proof, and the address that its signature resolves to.
#[derive(Debug)]
pub struct Block {
    pub hash: u64,
    pub previous_hash: u64,
    pub header: Header,
    pub transactions: Vec<Transaction>,
    pub coinbase_proof: Option<CoinbaseSolution>,
    pub signer: u64,
}

/// The mathematical content of a block.
pub struct BlockView {
    pub hash: u64,
    pub previous_hash: u64,
    pub header: Header,
    pub transactions: Seq<TransactionView>,
    pub coinbase_proof: Option<CoinbaseSolutionView>,
    pub signer: u64,
}

impl View for Block {
    type V = BlockView;

    open spec fn view(&self) -> BlockView {
        BlockView {
            hash: self.hash,
            previous_hash: self.previous_hash,
            header: self.header,
            transactions: self.transactions@.map_values(|t: Transaction| t@),
            coinbase_proof: match self.coinbase_proof {
                Some(p) => Some(p@),
                None => None,
            },
            signer: self.signer,
        }
    }
}

impl BlockView {
    pub open spec fn height(self) -> u32 {
        self.header.metadata.height
    }

    pub open spec fn round(self) -> u64 {
        self.header.metadata.round
    }

    pub open spec fn timestamp(self) -> i64 {
        self.header.metadata.timestamp
    }

    /// The epoch that the block belongs to.
    pub open spec fn epoch_number(self) -> u32 {
        (self.height() / 256) as u32
    }

    /// Some transaction of the block holds `v` as a value of kind `k`.
    pub open spec fn holds(self, k: Kind, v: u64) -> bool {
        exists|j: int| 0 <= j < self.transactions.len() && #[trigger] self.transactions[j].holds(k, v)
    }

    /// Some transaction of the block has the ID `id`.
    pub open spec fn has_transaction_id(self, id: u64) -> bool {
        exists|j: int| 0 <= j < self.transactions.len() && (#[trigger] self.transactions[j]).id() == id
    }
}

impl Block {
    /// Initializes a block from its parts.
    pub fn new(
        hash: u64,
        previous_hash: u64,
        header: Header,
        transactions: Vec<Transaction>,
        coinbase_proof: Option<CoinbaseSolution>,
        signer: u64,
    ) -> (r: Self)
        ensures
            r.hash == hash,
            r.previous_hash == previous_hash,
            r.header == header,
            r.transactions == transactions,
            r.coinbase_proof == coinbase_proof,
            r.signer == signer,
    {
        Block { hash, previous_hash, header, transactions, coinbase_proof, signer }
    }

    pub fn hash(&self) -> (r: u64)
        ensures
            r == self@.hash,
    {
        self.hash
    }

    pub fn height(&self) -> (r: u32)
        ensures
            r == self@.height(),
    {
        self.header.metadata.height
    }

    pub fn round(&self) -> (r: u64)
        ensures
            r == self@.round(),
    {
        self.header.metadata.round
    }

    pub fn timestamp(&self) -> (r: i64)
        ensures
            r == self@.timestamp(),
    {
        self.header.metadata.timestamp
    }

    pub fn epoch_number(&self) -> (r: u32)
        ensures
            r == self@.epoch_number(),
    {
        self.header.metadata.height / 256
    }

    /// Returns `true` if some transaction of the block holds `v` as a value of kind `k`.
    pub fn has_value(&self, k: Kind, v: u64) -> (r: bool)
        ensures
            r == self@.holds(k, v),
    {
        let mut j: usize = 0;
        while j < self.transactions.len()
            invariant
                j <= self@.transactions.len(),
                forall|i: int| 0 <= i < j ==> !(#[trigger] self@.transactions[i]).holds(k, v),
            decreases self@.transactions.len() - j,
        {
            if self.transactions[j].has_value(k, v) {
                assert(self@.transactions[j as int].holds(k, v));
                return true;
            }
            j += 1;
        }
        false
    }

    /// Returns `true` if some transaction of the block has the ID `id`.
    pub fn has_transaction_id(&self, id: u64) -> (r: bool)
        ensures
            r == self@.has_transaction_id(id),
    {
        let mut j: usize = 0;
        while j < self.transactions.len()
            invariant
                j <= self@.transactions.len(),
                forall|i: int| 0 <= i < j ==> (#[trigger] self@.transactions[i]).id() != id,
            decreases self@.transactions.len() - j,
        {
            if self.transactions[j].id() == id {
                assert(self@.transactions[j as int].id() == id);
                return true;
            }
            j += 1;
        }
        false
    }
}

/// What the cryptographic primitives report about a candidate block: the block
/// hash recomputed from its previous hash and header root, the recomputed
/// transactions root, the header's validity, whether it is the genesis block,
/// whether its signature verifies, the VM's verdict on each transaction, the
/// challenge points hashed from the coinbase commitments, and the outcome of the
/// coinbase KZG pairing check.
#[derive(Clone, Debug)]
pub struct BlockEvidence {
    pub computed_hash: u64,
    pub computed_transactions_root: u64,
    pub header_valid: bool,
    pub is_genesis: bool,
    pub signature_valid: bool,
    pub transactions_valid: Vec<bool>,
    pub challenge_points: Vec<u64>,
    pub pairing: bool,
}

impl Clone for Transition {
    fn clone(&self) -> (r: Self)
        ensures
            r@ == self@,
    {
        let r = Transition {
            id: self.id,
            program_id: self.program_id.clone(),
            function_name: self.function_name.clone(),
            input_ids: self.input_ids.clone(),
            serial_numbers: self.serial_numbers.clone(),
            tags: self.tags.clone(),
            origins: self.origins.clone(),
            output_ids: self.output_ids.clone(),
            commitments: self.commitments.clone(),
            nonces: self.nonces.clone(),
            tpk: self.tpk,
            tcm: self.tcm,
            fee: self.fee,
        };
        proof {
            assert(r.input_ids@ =~= self.input_ids@);
            assert(r.serial_numbers@ =~= self.serial_numbers@);
            assert(r.tags@ =~= self.tags@);
            assert(r.origins@ =~= self.origins@);
            assert(r.output_ids@ =~= self.output_ids@);
            assert(r.commitments@ =~= self.commitments@);
            assert(r.nonces@ =~= self.nonces@);
        }
        r
    }
}

impl Clone for Transaction {
    fn clone(&self) -> (r: Self)
        ensures
            r@ == self@,
    {
        match self {
            Transaction::Deploy { id, program_id, fee } => Transaction::Deploy {
                id: *id,
                program_id: program_id.clone(),
                fee: fee.clone(),
            },
            Transaction::Execute { id, transitions } => {
                let copied = transitions.clone();
                assert(copied@.map_values(|t: Transition| t@) =~= transitions@.map_values(
                    |t: Transition| t@,
                ));
                Transaction::Execute { id: *id, transitions: copied }
            },
        }
    }
}

impl Clone for Block {
    fn clone(&self) -> (r: Self)
        ensures
            r@ == self@,
    {
        let transactions = self.transactions.clone();
        assert(transactions@.map_values(|t: Transaction| t@) =~= self.transactions@.map_values(
            |t: Transaction| t@,
        ));
        let coinbase_proof = match &self.coinbase_proof {
            Some(p) => Some(p.clone()),
            None => None,
        };
        Block {
            hash: self.hash,
            previous_hash: self.previous_hash,
            header: self.header,
            transactions,
            coinbase_proof,
            signer: self.signer,
        }
    }
}

} // verus!
