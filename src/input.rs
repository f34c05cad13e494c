use vstd::prelude::*;

use crate::error::{Error, Item};

verus! {

/// The program ID that the noop executable runs under.
pub const NOOP_PROGRAM_ID: u64 = 0;

/// A record: its owner's address, the program it belongs to, its value, its
/// commitment, and whether it is a dummy.
#[derive(Clone, Copy, Debug, PartialEq, Eq, Structural)]
pub struct Record {
    pub owner: u64,
    pub program_id: u64,
    pub value: u64,
    pub commitment: u64,
    pub is_dummy: bool,
}

/// What an input runs: the noop executable, or a program.
#[derive(Clone, Copy, Debug, PartialEq, Eq, Structural)]
pub enum Executable {
    Noop,
    Program { program_id: u64 },
}

impl Executable {
    pub open spec fn spec_program_id(self) -> u64 {
        match self {
            Executable::Noop => NOOP_PROGRAM_ID,
            Executable::Program { program_id } => program_id,
        }
    }

    /// Returns the ID of the program that the executable runs under.
    pub fn program_id(&self) -> (r: u64)
        ensures
            r == self.spec_program_id(),
    {
        match self {
            Executable::Noop => NOOP_PROGRAM_ID,
            Executable::Program { program_id } => *program_id,
        }
    }

    pub fn is_noop(&self) -> (r: bool)
        ensures
            r == (*self is Noop),
    {
        match self {
            Executable::Noop => true,
            Executable::Program { .. } => false,
        }
    }
}

/// A compute key, with the address that it derives.
#[derive(Clone, Copy, Debug, PartialEq, Eq, Structural)]
pub struct ComputeKey {
    pub address: u64,
    pub sk_prf: u64,
}

/// A private key, by its seed.
#[derive(Clone, Copy, Debug, PartialEq, Eq, Structural)]
pub struct PrivateKey {
    pub seed: u64,
}

/// The input state of a transition: the record spent, its serial number, the
/// burner private key of a noop input, and the executable.
#[derive(Clone, Copy, Debug, PartialEq, Eq, Structural)]
pub struct Input {
    record: Record,
    serial_number: u64,
    noop_private_key: Option<PrivateKey>,
    executable: Executable,
}

impl Input {
    pub closed spec fn spec_record(self) -> Record {
        self.record
    }

    pub closed spec fn spec_serial_number(self) -> u64 {
        self.serial_number
    }

    pub closed spec fn spec_noop_private_key(self) -> Option<PrivateKey> {
        self.noop_private_key
    }

    pub closed spec fn spec_executable(self) -> Executable {
        self.executable
    }

    /// Initializes an input that spends `record` under `compute_key`, whose serial
    /// number under that key is `serial_number`. Without an executable, the noop
    /// executable is used. The key's address must own the record, and the
    /// executable must run under the record's program.
    pub fn new(
        compute_key: &ComputeKey,
        record: Record,
        executable: Option<Executable>,
        serial_number: u64,
    ) -> (r: Result<Self, Error>)
        ensures
            compute_key.address != record.owner ==> r == Err::<Input, Error>(Error::Mismatch(Item::Record)),
            compute_key.address == record.owner ==> {
                let e = match executable {
                    Some(e) => e,
                    None => Executable::Noop,
                };
                if e.spec_program_id() != record.program_id {
                    r == Err::<Input, Error>(Error::Mismatch(Item::Executable))
                } else {
                    r matches Ok(input) && input.spec_record() == record && input.spec_serial_number()
                        == serial_number && input.spec_noop_private_key() is None
                        && input.spec_executable() == e
                }
            },
    {
        if compute_key.address != record.owner {
            return Err(Error::Mismatch(Item::Record));
        }
        let executable = match executable {
            Some(executable) => executable,
            None => Executable::Noop,
        };
        if executable.program_id() != record.program_id {
            return Err(Error::Mismatch(Item::Executable));
        }
        Ok(Input { record, serial_number, noop_private_key: None, executable })
    }

    /// Initializes an input from the parts of a new record owned by the compute
    /// key's address: the record is a dummy exactly when its value is zero, its
    /// payload is empty and the executable is the noop. `commitment` is the
    /// record's commitment and `serial_number` its serial number under the key.
    pub fn new_full(
        compute_key: &ComputeKey,
        value: u64,
        payload: &Vec<u8>,
        executable: Executable,
        commitment: u64,
        serial_number: u64,
    ) -> (r: Self)
        ensures
            r.spec_record() == (Record {
                owner: compute_key.address,
                program_id: executable.spec_program_id(),
                value,
                commitment,
                is_dummy: value == 0 && payload@.len() == 0 && executable is Noop,
            }),
            r.spec_serial_number() == serial_number,
            r.spec_noop_private_key() is None,
            r.spec_executable() == executable,
    {
        let is_dummy = value == 0 && payload.len() == 0 && executable.is_noop();
        let record = Record {
            owner: compute_key.address,
            program_id: executable.program_id(),
            value,
            commitment,
            is_dummy,
        };
        Input { record, serial_number, noop_private_key: None, executable }
    }

    /// Returns the input record.
    pub fn record(&self) -> (r: &Record)
        ensures
            *r == self.spec_record(),
    {
        &self.record
    }

    /// Returns the serial number of the input record.
    pub fn serial_number(&self) -> (r: &u64)
        ensures
            *r == self.spec_serial_number(),
    {
        &self.serial_number
    }

    /// Returns the burner private key of a noop input, if there is one.
    pub fn noop_private_key(&self) -> (r: &Option<PrivateKey>)
        ensures
            *r == self.spec_noop_private_key(),
    {
        &self.noop_private_key
    }

    /// Returns the executable.
    pub fn executable(&self) -> (r: &Executable)
        ensures
            *r == self.spec_executable(),
    {
        &self.executable
    }
}

/// Where a transaction sits: its index in the block, and the block's hash.
#[derive(Clone, Copy, Debug, PartialEq, Eq)]
pub struct TransactionLocation {
    pub index: u32,
    pub block_hash: [u8; 32],
}

/// The little-endian encoding of a `u32`.
pub open spec fn u32_le(v: u32) -> Seq<u8> {
    seq![(v % 256) as u8, ((v / 256) % 256) as u8, ((v / 65536) % 256) as u8, (v / 16777216) as u8]
}

proof fn lemma_u32_le_bytes(b0: u8, b1: u8, b2: u8, b3: u8)
    ensures
        ({
            let v = (b0 as u32) | ((b1 as u32) << 8u32) | ((b2 as u32) << 16u32) | ((b3 as u32) << 24u32);
            v % 256 == b0 as u32 && (v / 256) % 256 == b1 as u32 && (v / 65536) % 256 == b2 as u32 && v / 16777216
                == b3 as u32
        }),
{
    assert(({
        let v = (b0 as u32) | ((b1 as u32) << 8u32) | ((b2 as u32) << 16u32) | ((b3 as u32) << 24u32);
        v % 256 == b0 as u32 && (v / 256) % 256 == b1 as u32 && (v / 65536) % 256 == b2 as u32 && v / 16777216
            == b3 as u32
    })) by (bit_vector);
}

impl TransactionLocation {
    /// The encoding: the index in little-endian order, then the block hash.
    pub open spec fn spec_bytes(self) -> Seq<u8> {
        u32_le(self.index) + self.block_hash@
    }

    /// Returns the encoding of the location.
    pub fn write_le(&self) -> (r: Vec<u8>)
        ensures
            r@ == self.spec_bytes(),
    {
        let mut out: Vec<u8> = Vec::new();
        let v = self.index;
        out.push((v % 256) as u8);
        out.push(((v / 256) % 256) as u8);
        out.push(((v / 65536) % 256) as u8);
        out.push((v / 16777216) as u8);
        let mut i: usize = 0;
        while i < 32
            invariant
                i <= 32,
                out@ == u32_le(v) + self.block_hash@.take(i as int),
            decreases 32 - i,
        {
            out.push(self.block_hash[i]);
            assert(out@ =~= u32_le(v) + self.block_hash@.take(i as int + 1));
            i += 1;
        }
        assert(self.block_hash@.take(32) =~= self.block_hash@);
        out
    }

    /// Reads a location from the first 36 bytes; fails on fewer bytes.
    pub fn read_le(bytes: &[u8]) -> (r: Result<TransactionLocation, Error>)
        ensures
            bytes@.len() < 36 ==> r == Err::<TransactionLocation, Error>(Error::Parse),
            bytes@.len() >= 36 ==> (r matches Ok(l) && l.spec_bytes() == bytes@.take(36)),
    {
        if bytes.len() < 36 {
            return Err(Error::Parse);
        }
        let index: u32 = (bytes[0] as u32) | ((bytes[1] as u32) << 8u32) | ((bytes[2] as u32) << 16u32) | ((
        bytes[3] as u32) << 24u32);
        proof {
            lemma_u32_le_bytes(bytes[0], bytes[1], bytes[2], bytes[3]);
        }
        let mut block_hash = [0u8; 32];
        let mut i: usize = 0;
        while i < 32
            invariant
                i <= 32,
                bytes@.len() >= 36,
                forall|j: int| 0 <= j < i ==> block_hash@[j] == bytes@[4 + j],
            decreases 32 - i,
        {
            block_hash[i] = bytes[4 + i];
            i += 1;
        }
        let l = TransactionLocation { index, block_hash };
        assert(l.block_hash@ =~= bytes@.subrange(4, 36));
        assert(u32_le(index) =~= bytes@.take(4));
        assert(l.spec_bytes() =~= bytes@.take(36));
        Ok(l)
    }
}

} // verus!
