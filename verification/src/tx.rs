//! In-memory transaction model: inputs, outputs, witnesses, and the
//! identifying and size data the presentation layer reads.

use vstd::prelude::*;

use crate::types::{zero_hash, Hash32};

verus! {

/// Marker vout of a coinbase previous output.
pub const COINBASE_VOUT: u32 = 0xffff_ffff;

/// A transaction input.
pub struct TxIn {
    pub prev_txid: Hash32,
    pub prev_vout: u32,
    pub script_sig: Vec<u8>,
    pub sequence: u32,
    pub witness: Vec<Vec<u8>>,
}

pub struct TxInV {
    pub prev_txid: Seq<u8>,
    pub prev_vout: u32,
    pub script_sig: Seq<u8>,
    pub sequence: u32,
    pub witness: Seq<Seq<u8>>,
}

impl View for TxIn {
    type V = TxInV;

    open spec fn view(&self) -> TxInV {
        TxInV {
            prev_txid: self.prev_txid@,
            prev_vout: self.prev_vout,
            script_sig: self.script_sig@,
            sequence: self.sequence,
            witness: self.witness@.map_values(|w: Vec<u8>| w@),
        }
    }
}

/// A coinbase input references the all-zero txid with the marker vout.
pub open spec fn is_coinbase_v(t: TxInV) -> bool {
    t.prev_txid == zero_hash() && t.prev_vout == COINBASE_VOUT
}

impl TxIn {
    pub open spec fn wf(&self) -> bool {
        self.prev_txid.wf()
    }

    pub fn is_coinbase(&self) -> (r: bool)
        requires
            self.wf(),
        ensures
            r == is_coinbase_v(self@),
    {
        self.prev_vout == COINBASE_VOUT && self.prev_txid.is_zero()
    }

    /// Whether the input consumes a real previous output.
    pub fn has_prevout(&self) -> (r: bool)
        requires
            self.wf(),
        ensures
            r == !is_coinbase_v(self@),
    {
        !self.is_coinbase()
    }

    pub fn clone_in(&self) -> (r: TxIn)
        ensures
            r@ == self@,
    {
        let mut witness: Vec<Vec<u8>> = Vec::new();
        let mut i: usize = 0;
        while i < self.witness.len()
            invariant
                i <= self.witness@.len(),
                witness@.len() == i,
                forall|j: int| 0 <= j < i ==> (#[trigger] witness@[j])@ == self.witness@[j]@,
            decreases self.witness@.len() - i,
        {
            witness.push(self.witness[i].clone());
            i = i + 1;
        }
        proof {
            assert(witness@.map_values(|w: Vec<u8>| w@) =~= self.witness@.map_values(
                |w: Vec<u8>| w@,
            ));
        }
        TxIn {
            prev_txid: self.prev_txid.clone(),
            prev_vout: self.prev_vout,
            script_sig: self.script_sig.clone(),
            sequence: self.sequence,
            witness,
        }
    }
}

/// A transaction output.
pub struct TxOut {
    pub value: u64,
    pub script_pubkey: Vec<u8>,
}

pub struct TxOutV {
    pub value: u64,
    pub script_pubkey: Seq<u8>,
}

impl View for TxOut {
    type V = TxOutV;

    open spec fn view(&self) -> TxOutV {
        TxOutV { value: self.value, script_pubkey: self.script_pubkey@ }
    }
}

impl Clone for TxOut {
    fn clone(&self) -> (r: Self)
        ensures
            r@ == self@,
    {
        TxOut { value: self.value, script_pubkey: self.script_pubkey.clone() }
    }
}

/// A transaction: its id, shape data, inputs and outputs.
pub struct Transaction {
    pub txid: Hash32,
    pub version: u32,
    pub locktime: u32,
    pub size: u32,
    pub weight: u64,
    pub input: Vec<TxIn>,
    pub output: Vec<TxOut>,
}

pub struct TransactionV {
    pub txid: Seq<u8>,
    pub version: u32,
    pub locktime: u32,
    pub size: u32,
    pub weight: u64,
    pub input: Seq<TxInV>,
    pub output: Seq<TxOutV>,
}

impl View for Transaction {
    type V = TransactionV;

    open spec fn view(&self) -> TransactionV {
        TransactionV {
            txid: self.txid@,
            version: self.version,
            locktime: self.locktime,
            size: self.size,
            weight: self.weight,
            input: self.input@.map_values(|t: TxIn| t@),
            output: self.output@.map_values(|t: TxOut| t@),
        }
    }
}

impl Transaction {
    pub open spec fn wf(&self) -> bool {
        &&& self.txid.wf()
        &&& forall|i: int| 0 <= i < self.input@.len() ==> (#[trigger] self.input@[i]).wf()
    }


    /// Runtime form of well-formedness, for values built outside the
    /// verified world.
    pub fn wf_check(&self) -> (r: bool)
        ensures
            r == self.wf(),
    {
        if self.txid.bytes.len() != crate::types::HASH_LEN {
            return false;
        }
        let mut i: usize = 0;
        while i < self.input.len()
            invariant
                i <= self.input@.len(),
                self.txid.wf(),
                forall|j: int| 0 <= j < i ==> (#[trigger] self.input@[j]).wf(),
            decreases self.input@.len() - i,
        {
            if self.input[i].prev_txid.bytes.len() != crate::types::HASH_LEN {
                proof {
                    assert(!self.input@[i as int].wf());
                }
                return false;
            }
            i = i + 1;
        }
        true
    }

    pub fn clone_tx(&self) -> (r: Transaction)
        ensures
            r@ == self@,
            r.wf() == self.wf(),
    {
        let mut input: Vec<TxIn> = Vec::new();
        let mut i: usize = 0;
        while i < self.input.len()
            invariant
                i <= self.input@.len(),
                input@.len() == i,
                forall|j: int| 0 <= j < i ==> (#[trigger] input@[j])@ == self.input@[j]@,
                forall|j: int|
                    0 <= j < i ==> (#[trigger] input@[j]).prev_txid@ == self.input@[j].prev_txid@,
            decreases self.input@.len() - i,
        {
            input.push(self.input[i].clone_in());
            i = i + 1;
        }
        let mut output: Vec<TxOut> = Vec::new();
        let mut k: usize = 0;
        while k < self.output.len()
            invariant
                k <= self.output@.len(),
                output@.len() == k,
                forall|j: int| 0 <= j < k ==> (#[trigger] output@[j])@ == self.output@[j]@,
            decreases self.output@.len() - k,
        {
            output.push(self.output[k].clone());
            k = k + 1;
        }
        let r = Transaction {
            txid: self.txid.clone(),
            version: self.version,
            locktime: self.locktime,
            size: self.size,
            weight: self.weight,
            input,
            output,
        };
        proof {
            assert(r@.input =~= self@.input);
            assert(r@.output =~= self@.output);
            if self.wf() {
                assert forall|j: int| 0 <= j < r.input@.len() implies (
                #[trigger] r.input@[j]).wf() by {
                    assert(self.input@[j].wf());
                    assert(r.input@[j].prev_txid@ == self.input@[j].prev_txid@);
                }
                assert(r.wf());
            }
            if r.wf() {
                assert forall|j: int| 0 <= j < self.input@.len() implies (
                #[trigger] self.input@[j]).wf() by {
                    assert(r.input@[j].wf());
                    assert(r.input@[j].prev_txid@ == self.input@[j].prev_txid@);
                }
                assert(self.wf());
            }
        }
        r
    }
}

} // verus!
