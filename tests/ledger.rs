use snarkledger::block::{Block, BlockEvidence, Header, Metadata, Origin, Transaction, Transition};
use snarkledger::coinbase::{CoinbaseSolution, KzgProof, PartialSolution};
use snarkledger::error::{Error, Item};
use snarkledger::helpers::GENESIS_TIMESTAMP;
use snarkledger::ledger::{BlockTemplate, Ledger, NETWORK_ID};

use rand::rngs::StdRng;
use rand::{Rng, SeedableRng};

const VALIDATOR: u64 = 77;

fn transition(id: u64, function_name: &str, commitments: Vec<u64>, origins: Vec<Origin>, fee: i64) -> Transition {
    Transition {
        id,
        program_id: String::from("credits.aleo"),
        function_name: String::from(function_name),
        input_ids: vec![id * 100 + 1],
        serial_numbers: vec![id * 100 + 2],
        tags: vec![id * 100 + 3],
        origins,
        output_ids: vec![id * 100 + 4],
        commitments,
        nonces: vec![id * 100 + 6],
        tpk: id * 100 + 7,
        tcm: id * 100 + 8,
        fee,
    }
}

fn execute(id: u64, commitments: Vec<u64>, origins: Vec<Origin>) -> Transaction {
    Transaction::Execute { id, transitions: vec![transition(id, "transfer", commitments, origins, 1)] }
}

fn header(height: u32, round: u64, timestamp: i64, coinbase_target: u64, proof_target: u64, point: u64) -> Header {
    Header {
        previous_state_root: 0,
        transactions_root: 1000 + height as u64,
        coinbase_accumulator_point: point,
        metadata: Metadata { network_id: NETWORK_ID, round, height, coinbase_target, proof_target, timestamp },
    }
}

fn evidence(block: &Block) -> BlockEvidence {
    BlockEvidence {
        computed_hash: block.hash,
        computed_transactions_root: block.header.transactions_root,
        header_valid: true,
        is_genesis: block.header.metadata.height == 0,
        signature_valid: true,
        transactions_valid: vec![true; block.transactions.len()],
        challenge_points: vec![],
        pairing: true,
    }
}

/// The genesis block: it creates the record with commitment 1_000_000.
fn genesis_with(signer: u64, coinbase_target: u64, proof_target: u64) -> Block {
    let tx = Transaction::Execute {
        id: 1,
        transitions: vec![transition(1, "genesis", vec![1_000_000], vec![], 0)],
    };
    Block::new(0xAA, 0, header(0, 0, GENESIS_TIMESTAMP, coinbase_target, proof_target, 0), vec![tx], None, signer)
}

fn genesis_ledger(coinbase_target: u64, proof_target: u64) -> (Ledger, Block) {
    let genesis = genesis_with(VALIDATOR, coinbase_target, proof_target);
    let ledger = Ledger::new_with_genesis(&genesis, VALIDATOR, &evidence(&genesis)).unwrap();
    (ledger, genesis)
}

/// Builds the next block from a template, as the cryptographic layer would.
fn block_from(template: BlockTemplate, hash: u64, proof: Option<CoinbaseSolution>, point: u64) -> Block {
    let m = template.metadata;
    Block::new(
        hash,
        template.previous_hash,
        Header {
            previous_state_root: 0,
            transactions_root: 1000 + m.height as u64,
            coinbase_accumulator_point: point,
            metadata: m,
        },
        template.transactions,
        proof,
        VALIDATOR,
    )
}

#[test]
fn test_new() {
    let (ledger, genesis) = genesis_ledger(1023, 0);
    assert_eq!(ledger.latest_height(), 0);
    assert_eq!(ledger.latest_hash(), genesis.hash);
    assert_eq!(ledger.latest_round(), genesis.header.metadata.round);
    assert!(ledger.contains_commitment(1_000_000));
    assert_eq!(ledger.block_tree().len(), 1);
    assert_eq!(ledger.block_tree().leaf(0), genesis.hash);
    assert_eq!(ledger.get_block(0).unwrap().hash, genesis.hash);
    assert_eq!(ledger.memory_pool().len(), 0);
    assert_eq!(ledger.coinbase_memory_pool().len(), 0);
}

#[test]
fn test_ledger_deploy() {
    let (mut ledger, _) = genesis_ledger(1023, 0);
    let deploy = Transaction::Deploy {
        id: 50,
        program_id: String::from("hello.aleo"),
        fee: transition(50, "fee", vec![5001], vec![Origin::Commitment(1_000_000)], 3),
    };
    ledger.add_to_memory_pool(deploy.clone(), true).unwrap();
    let template = ledger.propose_next_block_at(GENESIS_TIMESTAMP + 20).unwrap();
    assert_eq!(template.transactions.len(), 1);
    assert_eq!(template.metadata.height, 1);
    assert_eq!(template.metadata.round, 1);
    let block = block_from(template, 0xB1, None, 0);
    ledger.add_next_block(&block, &evidence(&block)).unwrap();
    assert_eq!(ledger.latest_height(), 1);
    assert_eq!(ledger.latest_hash(), 0xB1);
    assert!(ledger.contains_transaction_id(50));
    assert!(ledger.contains_input_id(50 * 100 + 1));
    assert!(ledger.contains_program_id(&String::from("hello.aleo")));
    // The program store cannot deploy the same program again.
    let mut vm = ledger.vm().clone();
    assert_eq!(vm.finalize(&deploy), Err(Error::Duplicate(Item::ProgramId)));
    // The ledger deems the same transaction invalid, and the pool refuses it.
    assert_eq!(ledger.check_transaction(&deploy, true), Err(Error::Duplicate(Item::TransactionId)));
    assert!(ledger.add_to_memory_pool(deploy, true).is_err());
    assert_eq!(ledger.memory_pool().len(), 0);
}

#[test]
fn test_ledger_execute() {
    let (mut ledger, _) = genesis_ledger(1023, 0);
    let transaction = execute(65, vec![6501, 6502], vec![Origin::Commitment(1_000_000)]);
    ledger.add_to_memory_pool(transaction.clone(), true).unwrap();
    let template = ledger.propose_next_block_at(GENESIS_TIMESTAMP + 20).unwrap();
    let block = block_from(template, 0xB2, None, 0);
    ledger.add_next_block(&block, &evidence(&block)).unwrap();
    assert_eq!(ledger.latest_height(), 1);
    assert_eq!(ledger.latest_hash(), 0xB2);
    // The ledger deems the same transaction invalid, and the pool refuses it.
    assert!(ledger.check_transaction(&transaction, true).is_err());
    assert!(ledger.add_to_memory_pool(transaction, true).is_err());
}

#[test]
fn test_ledger_execute_many() {
    let (mut ledger, _) = genesis_ledger(1023, 0);
    let mut records: Vec<u64> = vec![1_000_000];
    let mut next_id: u64 = 100;
    for height in 1..6u32 {
        assert_eq!(records.len(), 1 << (height - 1));
        let mut created = Vec::new();
        for record in records.iter() {
            let id = next_id;
            next_id += 1;
            let outputs = vec![id * 10 + 1, id * 10 + 2];
            created.extend(outputs.iter().copied());
            ledger.add_to_memory_pool(execute(id, outputs, vec![Origin::Commitment(*record)]), true).unwrap();
        }
        assert_eq!(ledger.memory_pool().len(), 1 << (height - 1));
        let template = ledger.propose_next_block_at(GENESIS_TIMESTAMP + 20 * height as i64).unwrap();
        let block = block_from(template, 0xC000 + height as u64, None, 0);
        ledger.add_next_block(&block, &evidence(&block)).unwrap();
        assert_eq!(ledger.latest_height(), height);
        assert_eq!(ledger.latest_hash(), 0xC000 + height as u64);
        assert_eq!(ledger.memory_pool().len(), 0);
        for c in created.iter() {
            assert!(ledger.contains_commitment(*c));
        }
        records = created;
        assert_eq!(records.len(), 1 << height);
    }
}

#[test]
fn test_proof_target() {
    let proof_target = u64::MAX / 1000;
    let (mut ledger, _) = genesis_ledger(u64::MAX, proof_target);
    assert_eq!(ledger.latest_proof_target(), proof_target);
    let mut rng = StdRng::seed_from_u64(7);
    for _ in 0..100 {
        let solution = PartialSolution::new(VALIDATOR, rng.gen(), rng.gen_range(1..2000));
        if solution.to_target() >= proof_target {
            assert!(ledger.add_to_coinbase_memory_pool(solution, true).is_ok());
        } else {
            assert_eq!(
                ledger.add_to_coinbase_memory_pool(solution, true),
                Err(Error::VerificationFailed(Item::ProverSolution))
            );
        }
    }
}

#[test]
fn test_coinbase_target() {
    let coinbase_target = u64::MAX / 2;
    let (mut ledger, _) = genesis_ledger(coinbase_target, 0);
    ledger.add_to_memory_pool(execute(60, vec![6001], vec![Origin::Commitment(1_000_000)]), true).unwrap();

    // Without solutions, no coinbase proof is asked for.
    let template = ledger.propose_next_block_at(GENESIS_TIMESTAMP + 20).unwrap();
    assert!(!template.coinbase_required);
    assert_eq!(template.cumulative_target, 0);

    // One solution of target u64::MAX / 3 is not enough.
    ledger.add_to_coinbase_memory_pool(PartialSolution::new(VALIDATOR, 1, 3), true).unwrap();
    let template = ledger.propose_next_block_at(GENESIS_TIMESTAMP + 20).unwrap();
    assert!(!template.coinbase_required);
    assert_eq!(template.cumulative_target, (u64::MAX / 3) as u128);
    // Such a block carries no proof and a zero accumulator point.
    let block = block_from(template, 0xD1, None, 0);
    assert!(ledger.check_next_block(&block, &evidence(&block)).is_ok());
    let bad = block_from(ledger.propose_next_block_at(GENESIS_TIMESTAMP + 20).unwrap(), 0xD1, None, 5);
    assert_eq!(ledger.check_next_block(&bad, &evidence(&bad)), Err(Error::Mismatch(Item::AccumulatorPoint)));

    // A second one reaches the target.
    ledger.add_to_coinbase_memory_pool(PartialSolution::new(VALIDATOR, 2, 3), true).unwrap();
    let template = ledger.propose_next_block_at(GENESIS_TIMESTAMP + 20).unwrap();
    assert!(template.coinbase_required);
    assert_eq!(template.prover_solutions.len(), 2);
    assert_eq!(template.prover_rewards.len(), 2);
    assert_eq!(template.prover_rewards[0].1, template.coinbase_reward / 4);

    // The block carries the proof, and its point is the proof's accumulator point.
    let proof = CoinbaseSolution::new(template.prover_solutions.clone(), KzgProof { w: 9, random_v: None });
    let points = vec![11, 12, 13];
    let point = proof.to_accumulator_point(&points).unwrap();
    assert_eq!(point, 13);
    let block = block_from(template, 0xD2, Some(proof), point);
    let mut ev = evidence(&block);
    ev.challenge_points = points;
    ledger.add_next_block(&block, &ev).unwrap();
    assert_eq!(ledger.latest_height(), 1);
    // Still in epoch zero: the solution pool is kept.
    assert_eq!(ledger.coinbase_memory_pool().len(), 2);
}

#[test]
fn test_validators() {
    let genesis = genesis_with(99, 1023, 0);
    assert_eq!(
        Ledger::new_with_genesis(&genesis, VALIDATOR, &evidence(&genesis)).err(),
        Some(Error::VerificationFailed(Item::Signer))
    );
    let (ledger, _) = genesis_ledger(1023, 0);
    assert!(ledger.validators().contains(&VALIDATOR));
}

#[test]
fn validator_set_edits() {
    let (mut ledger, _) = genesis_ledger(1023, 0);
    assert_eq!(ledger.add_validator(VALIDATOR), Err(Error::Duplicate(Item::Validator)));
    assert_eq!(ledger.add_validator(5), Ok(()));
    assert_eq!(ledger.remove_validator(5), Ok(()));
    assert_eq!(ledger.remove_validator(5), Err(Error::Missing(Item::Validator)));
}

fn next_block(ledger: &Ledger, txs: Vec<Transaction>, hash: u64) -> Block {
    let height = ledger.latest_height() + 1;
    Block::new(
        hash,
        ledger.latest_hash(),
        header(height, ledger.latest_round() + 1, GENESIS_TIMESTAMP + 20 * height as i64, 1023, 0, 0),
        txs,
        None,
        VALIDATOR,
    )
}

#[test]
fn failed_append_leaves_ledger_unchanged() {
    let (mut ledger, _) = genesis_ledger(1023, 0);
    let mut block = next_block(&ledger, vec![execute(70, vec![7001], vec![])], 0xE1);
    block.previous_hash = 12345;
    assert_eq!(ledger.add_next_block(&block, &evidence(&block)), Err(Error::Mismatch(Item::PreviousHash)));
    assert_eq!(ledger.latest_height(), 0);
    let block = next_block(&ledger, vec![execute(70, vec![7001], vec![])], 0xE1);
    assert_eq!(ledger.add_next_block(&block, &evidence(&block)), Ok(()));
    assert_eq!(ledger.latest_height(), 1);
}

#[test]
fn block_errors() {
    let (ledger, genesis) = genesis_ledger(1023, 0);
    // A transaction that is already in the chain.
    let b = next_block(&ledger, vec![execute(1, vec![7002], vec![])], 0xE2);
    assert_eq!(ledger.check_next_block(&b, &evidence(&b)), Err(Error::Duplicate(Item::TransactionId)));
    // A state-root origin is not supported.
    let b = next_block(&ledger, vec![execute(71, vec![7003], vec![Origin::StateRoot(4)])], 0xE3);
    assert_eq!(ledger.check_next_block(&b, &evidence(&b)), Err(Error::Unsupported(Item::Origin)));
    // An origin commitment that the chain does not hold.
    let b = next_block(&ledger, vec![execute(72, vec![7004], vec![Origin::Commitment(404)])], 0xE4);
    assert_eq!(ledger.check_next_block(&b, &evidence(&b)), Err(Error::Missing(Item::Commitment)));
    // A repeated commitment.
    let b = next_block(&ledger, vec![execute(73, vec![1_000_000], vec![])], 0xE5);
    assert_eq!(ledger.check_next_block(&b, &evidence(&b)), Err(Error::Duplicate(Item::Commitment)));
    // A repeated block hash.
    let b = next_block(&ledger, vec![execute(74, vec![7005], vec![])], genesis.hash);
    assert_eq!(ledger.check_next_block(&b, &evidence(&b)), Err(Error::Duplicate(Item::BlockHash)));
    // A wrong height.
    let mut b = next_block(&ledger, vec![execute(75, vec![7006], vec![])], 0xE6);
    b.header.metadata.height = 5;
    assert_eq!(ledger.check_next_block(&b, &evidence(&b)), Err(Error::Mismatch(Item::BlockHeight)));
    // A round that does not advance.
    let mut b = next_block(&ledger, vec![execute(75, vec![7006], vec![])], 0xE6);
    b.header.metadata.round = 0;
    assert_eq!(ledger.check_next_block(&b, &evidence(&b)), Err(Error::Mismatch(Item::Round)));
    // A timestamp that does not advance.
    let mut b = next_block(&ledger, vec![execute(75, vec![7006], vec![])], 0xE6);
    b.header.metadata.timestamp = GENESIS_TIMESTAMP;
    assert_eq!(ledger.check_next_block(&b, &evidence(&b)), Err(Error::Mismatch(Item::Timestamp)));
    // The hash that the primitives recompute differs.
    let b = next_block(&ledger, vec![execute(75, vec![7006], vec![])], 0xE6);
    let mut ev = evidence(&b);
    ev.computed_hash = 1;
    assert_eq!(ledger.check_next_block(&b, &ev), Err(Error::Mismatch(Item::BlockHash)));
    // An invalid signature.
    let mut ev = evidence(&b);
    ev.signature_valid = false;
    assert_eq!(ledger.check_next_block(&b, &ev), Err(Error::VerificationFailed(Item::Signature)));
    // A transaction that the VM rejects.
    let mut ev = evidence(&b);
    ev.transactions_valid = vec![false];
    assert_eq!(ledger.check_next_block(&b, &ev), Err(Error::VerificationFailed(Item::Transaction)));
    // No transactions.
    let b = next_block(&ledger, vec![], 0xE7);
    assert_eq!(ledger.check_next_block(&b, &evidence(&b)), Err(Error::OutOfRange(Item::Transactions)));
    // A call of the genesis function after genesis.
    let tx = Transaction::Execute { id: 76, transitions: vec![transition(76, "genesis", vec![7007], vec![], 0)] };
    let b = next_block(&ledger, vec![tx], 0xE8);
    assert_eq!(ledger.check_next_block(&b, &evidence(&b)), Err(Error::VerificationFailed(Item::GenesisCall)));
    // A negative fee.
    let tx = Transaction::Execute { id: 77, transitions: vec![transition(77, "transfer", vec![7008], vec![], -1)] };
    let b = next_block(&ledger, vec![tx], 0xE9);
    assert_eq!(ledger.check_next_block(&b, &evidence(&b)), Err(Error::VerificationFailed(Item::Fee)));
}

#[test]
fn duplicate_deployments_abort_append() {
    let (mut ledger, _) = genesis_ledger(1023, 0);
    let d1 = Transaction::Deploy { id: 80, program_id: String::from("twice.aleo"), fee: transition(80, "fee", vec![8001], vec![], 1) };
    let d2 = Transaction::Deploy { id: 81, program_id: String::from("twice.aleo"), fee: transition(81, "fee", vec![8101], vec![], 1) };
    let b = next_block(&ledger, vec![d1, d2], 0xF1);
    assert!(ledger.check_next_block(&b, &evidence(&b)).is_ok());
    assert_eq!(ledger.add_next_block(&b, &evidence(&b)), Err(Error::Duplicate(Item::ProgramId)));
    assert_eq!(ledger.latest_height(), 0);
    assert!(!ledger.contains_program_id(&String::from("twice.aleo")));
}

#[test]
fn greedy_selection_skips_conflicts() {
    let (mut ledger, _) = genesis_ledger(1023, 0);
    let a = execute(90, vec![9001], vec![]);
    let mut b = execute(91, vec![9101], vec![]);
    if let Transaction::Execute { transitions, .. } = &mut b {
        transitions[0].input_ids = vec![90 * 100 + 1];
    }
    let c = execute(92, vec![9201], vec![]);
    ledger.add_to_memory_pool(a, true).unwrap();
    ledger.add_to_memory_pool(b, true).unwrap();
    ledger.add_to_memory_pool(c, true).unwrap();
    assert_eq!(ledger.add_to_memory_pool(execute(92, vec![9202], vec![]), true), Err(Error::Duplicate(Item::TransactionId)));
    let template = ledger.propose_next_block_at(GENESIS_TIMESTAMP + 20).unwrap();
    let ids: Vec<u64> = template.transactions.iter().map(|t| t.id()).collect();
    assert_eq!(ids, vec![90, 92]);
    // After the block, the conflicting transaction is purged from the pool.
    let block = block_from(template, 0xF2, None, 0);
    ledger.add_next_block(&block, &evidence(&block)).unwrap();
    assert_eq!(ledger.memory_pool().len(), 0);
}

#[test]
fn solution_pool_cleared_on_new_epoch() {
    let (mut ledger, _) = genesis_ledger(u64::MAX, 0);
    ledger.add_to_coinbase_memory_pool(PartialSolution::new(VALIDATOR, 1, 1000), true).unwrap();
    assert_eq!(
        ledger.add_to_coinbase_memory_pool(PartialSolution::new(VALIDATOR, 1, 1000), true),
        Err(Error::Duplicate(Item::ProverSolution))
    );
    for height in 1..256u32 {
        let b = next_block(&ledger, vec![execute(1000 + height as u64, vec![], vec![])], 0x10000 + height as u64);
        ledger.add_next_block(&b, &evidence(&b)).unwrap();
    }
    assert_eq!(ledger.latest_height(), 255);
    assert_eq!(ledger.coinbase_memory_pool().len(), 1);
    let b = next_block(&ledger, vec![execute(2000, vec![], vec![])], 0x20000);
    assert_eq!(b.epoch_number(), 1);
    ledger.add_next_block(&b, &evidence(&b)).unwrap();
    assert_eq!(ledger.latest_epoch_number(), 1);
    assert_eq!(ledger.coinbase_memory_pool().len(), 0);
}

#[test]
fn test_state_path() {
    let (mut ledger, genesis) = genesis_ledger(1023, 0);
    let path = ledger.to_state_path(1_000_000).unwrap();
    assert_eq!(path.block_height, 0);
    assert_eq!(path.block_hash, genesis.hash);
    assert_eq!(path.transaction_id, 1);
    assert_eq!(path.transition_id, 1);
    assert_eq!(ledger.to_state_path(424242), Err(Error::Missing(Item::Commitment)));
    let b = next_block(&ledger, vec![execute(3, vec![31, 32], vec![]), execute(4, vec![41, 42], vec![])], 0xAB);
    ledger.add_next_block(&b, &evidence(&b)).unwrap();
    let path = ledger.to_state_path(42).unwrap();
    assert_eq!(path.block_height, 1);
    assert_eq!(path.block_hash, 0xAB);
    assert_eq!(path.previous_hash, genesis.hash);
    assert_eq!(path.transaction_index, 1);
    assert_eq!(path.transaction_id, 4);
}

#[test]
fn propose_now_uses_the_clock() {
    let (mut ledger, genesis) = genesis_ledger(1023, 0);
    ledger.add_to_memory_pool(execute(95, vec![9501], vec![]), true).unwrap();
    let template = ledger.propose_next_block().unwrap();
    assert_eq!(template.previous_hash, genesis.hash);
    assert_eq!(template.metadata.height, 1);
    assert_eq!(template.transactions.len(), 1);
    // The clock is well past the genesis timestamp.
    assert!(template.metadata.timestamp > GENESIS_TIMESTAMP);
    assert_eq!(template.metadata.round, ledger.latest_round() + 1);
    assert_eq!(template.metadata.network_id, NETWORK_ID);
    // A second proposal agrees on everything that does not depend on the clock.
    let again = ledger.propose_next_block().unwrap();
    assert_eq!(again.coinbase_required, template.coinbase_required);
    assert_eq!(again.cumulative_target, template.cumulative_target);
    assert_eq!(again.prover_solutions, template.prover_solutions);
}

#[test]
fn test_from() {
    let (mut ledger, genesis) = genesis_ledger(1023, 0);
    let b1 = next_block(&ledger, vec![execute(3, vec![31], vec![])], 0xA1);
    ledger.add_next_block(&b1, &evidence(&b1)).unwrap();
    let b2 = next_block(&ledger, vec![execute(4, vec![41], vec![Origin::Commitment(31)])], 0xA2);
    ledger.add_next_block(&b2, &evidence(&b2)).unwrap();

    let stored = vec![genesis.clone(), b1.clone(), b2.clone()];
    let evidences = vec![evidence(&genesis), evidence(&b1), evidence(&b2)];
    let rebuilt = Ledger::from(&stored, &evidences).unwrap();
    assert_eq!(rebuilt.latest_height(), 2);
    assert_eq!(rebuilt.latest_hash(), 0xA2);
    assert_eq!(rebuilt.block_tree().len(), 3);
    assert!(rebuilt.validators().contains(&VALIDATOR));
    assert_eq!(rebuilt.memory_pool().len(), 0);
    assert_eq!(rebuilt.coinbase_memory_pool().len(), 0);
    assert_eq!(Ledger::from(&vec![], &vec![]).err(), Some(Error::Missing(Item::BlockHeight)));
    assert_eq!(Ledger::from(&stored, &evidences[0..2].to_vec()).err(), Some(Error::Mismatch(Item::Transactions)));
    // Out of order, the replay fails.
    let shuffled = vec![genesis, b2, b1];
    let shuffled_evidence = vec![evidences[0].clone(), evidences[2].clone(), evidences[1].clone()];
    assert!(Ledger::from(&shuffled, &shuffled_evidence).is_err());
}
