use snarkledger::coinbase::{CoinbaseSolution, KzgProof, PartialSolution, MAX_NUM_PROOFS};
use snarkledger::error::{Error, Item};
use snarkledger::helpers::{
    anchor_block_height, coinbase_reward, coinbase_target, proof_target, prover_reward, ANCHOR_TIME,
    GENESIS_COINBASE_TARGET,
};
use snarkledger::input::{ComputeKey, Executable, Input, Record, TransactionLocation};

#[test]
fn anchor_height_of_year_ten() {
    assert_eq!(anchor_block_height(ANCHOR_TIME, 10), 15_768_000);
    assert_eq!(anchor_block_height(1, u32::MAX), u32::MAX);
}

#[test]
fn proof_target_of_coinbase_target() {
    assert_eq!(proof_target(1023), 8);
    assert_eq!(proof_target(0), 1);
    assert_eq!(proof_target(128 * 5), 6);
}

#[test]
fn retarget_moves_by_half_lives() {
    // On time: unchanged.
    assert_eq!(coinbase_target(1 << 20, 0, 20), 1 << 20);
    // One half-life late: halved.
    assert_eq!(coinbase_target(1 << 20, 0, 20 + 2560), 1 << 19);
    // One half-life early: doubled.
    assert_eq!(coinbase_target(1 << 20, 2580, 20 + 20), 1 << 21);
    // Never below the floor, saturating above.
    assert_eq!(coinbase_target(2000, 0, 20 + 2560 * 10), GENESIS_COINBASE_TARGET);
    assert_eq!(coinbase_target(u64::MAX / 2, 2560 * 10, 0), u64::MAX);
}

#[test]
fn coinbase_reward_schedule() {
    let h = 15_768_000u128;
    let full = (2 * 1_100_000_000_000_000u128 * (h - 1)) / (h * (h + 1));
    assert_eq!(coinbase_reward(0, 20, 1) as u128, full);
    assert_eq!(coinbase_reward(0, 10, 1) as u128, full * 10 / 20);
    assert_eq!(coinbase_reward(0, 100, 1) as u128, full);
    assert_eq!(coinbase_reward(0, 20, 15_768_001), 0);
}

#[test]
fn prover_reward_shares() {
    assert_eq!(prover_reward(1000, 10, 20), Ok(250));
    assert_eq!(prover_reward(1000, 10, 0), Err(Error::Overflow(Item::Reward)));
    assert_eq!(prover_reward(1000, 10, u128::MAX), Err(Error::Overflow(Item::Reward)));
}

#[test]
fn solution_targets() {
    assert_eq!(PartialSolution::new(1, 2, 0).to_target(), u64::MAX);
    assert_eq!(PartialSolution::new(1, 2, 4).to_target(), u64::MAX / 4);
    let s = CoinbaseSolution::new(
        vec![PartialSolution::new(1, 1, 2), PartialSolution::new(1, 2, 2)],
        KzgProof { w: 0, random_v: None },
    );
    assert_eq!(s.to_cumulative_target(), Ok(2 * (u64::MAX / 2) as u128));
}

#[test]
fn coinbase_solution_verify_errors() {
    let proof = KzgProof { w: 0, random_v: None };
    let empty = CoinbaseSolution::new(vec![], proof);
    assert_eq!(empty.verify(0, 0, true), Err(Error::Missing(Item::PartialSolutions)));
    let hiding = CoinbaseSolution::new(vec![PartialSolution::new(1, 1, 2)], KzgProof { w: 0, random_v: Some(3) });
    assert_eq!(hiding.verify(0, 0, true), Err(Error::VerificationFailed(Item::CoinbaseProof)));
    let s = CoinbaseSolution::new(vec![PartialSolution::new(1, 1, 2), PartialSolution::new(1, 2, 1000)], proof);
    assert_eq!(s.verify(u64::MAX, 0, true), Err(Error::OutOfRange(Item::CoinbaseTarget)));
    assert_eq!(s.verify(1, u64::MAX / 4, true), Err(Error::OutOfRange(Item::ProofTarget)));
    assert_eq!(s.verify(1, 1, true), Ok(true));
    assert_eq!(s.verify(1, 1, false), Ok(false));
    assert_eq!(s.to_accumulator_point(&vec![1, 2]), Err(Error::Mismatch(Item::ChallengePoints)));
    assert_eq!(s.to_accumulator_point(&vec![1, 2, 3]), Ok(3));
    assert!(MAX_NUM_PROOFS >= 2);
}

#[test]
fn input_new() {
    let key = ComputeKey { address: 5, sk_prf: 9 };
    let record = Record { owner: 5, program_id: 0, value: 10, commitment: 33, is_dummy: false };
    let input = Input::new(&key, record, None, 44).unwrap();
    assert_eq!(*input.record(), record);
    assert_eq!(*input.serial_number(), 44);
    assert_eq!(*input.noop_private_key(), None);
    assert!(input.executable().is_noop());
    let other = Record { owner: 6, ..record };
    assert_eq!(Input::new(&key, other, None, 44), Err(Error::Mismatch(Item::Record)));
    let exe = Executable::Program { program_id: 8 };
    assert_eq!(Input::new(&key, record, Some(exe), 44), Err(Error::Mismatch(Item::Executable)));
    let owned = Record { program_id: 8, ..record };
    assert_eq!(*Input::new(&key, owned, Some(exe), 44).unwrap().executable(), exe);
}

#[test]
fn input_new_full_dummy() {
    let key = ComputeKey { address: 5, sk_prf: 9 };
    let dummy = Input::new_full(&key, 0, &vec![], Executable::Noop, 1, 2);
    assert!(dummy.record().is_dummy);
    assert_eq!(dummy.record().owner, 5);
    assert_eq!(*dummy.serial_number(), 2);
    let paid = Input::new_full(&key, 3, &vec![], Executable::Noop, 1, 2);
    assert!(!paid.record().is_dummy);
    let with_payload = Input::new_full(&key, 0, &vec![1], Executable::Noop, 1, 2);
    assert!(!with_payload.record().is_dummy);
    let program = Input::new_full(&key, 0, &vec![], Executable::Program { program_id: 4 }, 1, 2);
    assert!(!program.record().is_dummy);
    assert_eq!(program.record().program_id, 4);
}

#[test]
fn transaction_location_round_trip() {
    let mut hash = [0u8; 32];
    for (i, b) in hash.iter_mut().enumerate() {
        *b = i as u8 * 3;
    }
    let location = TransactionLocation { index: 0x01020304, block_hash: hash };
    let bytes = location.write_le();
    assert_eq!(bytes.len(), 36);
    assert_eq!(&bytes[0..4], &[4, 3, 2, 1]);
    assert_eq!(TransactionLocation::read_le(&bytes), Ok(location));
    assert_eq!(TransactionLocation::read_le(&bytes[0..35]), Err(Error::Parse));
}
