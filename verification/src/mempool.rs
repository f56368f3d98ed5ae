//! Read-only snapshot of the mempool: unconfirmed transactions, the outputs
//! they create, the outpoints they spend, and per-script aggregates.
//!
//! A well-formed snapshot never lists a UTXO whose outpoint is spent by
//! another mempool transaction, which is what lets the merged UTXO view
//! promise that no returned output is double counted.

use vstd::prelude::*;

use crate::tx::Transaction;
use crate::types::{
    after_txid, eq_bytes, hash_views, hashes_distinct, utxo_views, Hash32, OutPoint, OutPointV,
    ScriptStats, SpendRecord, SpendingInput, Utxo, UtxoV,
};

verus! {

/// An unconfirmed transaction with the mempool-side data the API reads.
pub struct MempoolTx {
    pub txid: Hash32,
    pub tx: Transaction,
    pub raw: Vec<u8>,
    pub fee: u64,
    pub vsize: u64,
    pub has_unconfirmed_parents: bool,
}

impl MempoolTx {
    pub open spec fn wf(&self) -> bool {
        &&& self.txid.wf()
        &&& self.tx.wf()
        &&& self.tx.txid@ == self.txid@
    }
}

/// Per-scripthash slice of the snapshot.
pub struct MempoolScript {
    pub scripthash: Hash32,
    pub utxos: Vec<Utxo>,
    pub history: Vec<Hash32>,
    pub stats: ScriptStats,
}

/// One row of the recent-transactions overview.
pub struct RecentTx {
    pub txid: Hash32,
    pub fee: u64,
    pub vsize: u64,
    pub value: u64,
}

pub struct RecentTxV {
    pub txid: Seq<u8>,
    pub fee: u64,
    pub vsize: u64,
    pub value: u64,
}

impl View for RecentTx {
    type V = RecentTxV;

    open spec fn view(&self) -> RecentTxV {
        RecentTxV { txid: self.txid@, fee: self.fee, vsize: self.vsize, value: self.value }
    }
}

impl Clone for RecentTx {
    fn clone(&self) -> (r: Self)
        ensures
            r@ == self@,
    {
        RecentTx { txid: self.txid.clone(), fee: self.fee, vsize: self.vsize, value: self.value }
    }
}

/// The mempool snapshot.
pub struct MempoolView {
    pub txs: Vec<MempoolTx>,
    pub scripts: Vec<MempoolScript>,
    pub spends: Vec<SpendRecord>,
    pub recent: Vec<RecentTx>,
    pub backlog_vsize: u64,
    pub backlog_total_fee: u64,
    /// Fee histogram rows: (fee rate in millisatoshi per vbyte, vsize).
    pub histogram: Vec<(u64, u64)>,
}

/// Txids of the snapshot, in its iteration order.
pub open spec fn mp_txids(m: &MempoolView) -> Seq<Seq<u8>> {
    m.txs@.map_values(|t: MempoolTx| t.txid@)
}

/// Is the outpoint spent by some mempool transaction?
pub open spec fn mp_spent(m: &MempoolView, op: OutPointV) -> bool {
    exists|i: int| 0 <= i < m.spends@.len() && (#[trigger] m.spends@[i]).outpoint@ == op
}

pub open spec fn mp_spend_of(m: &MempoolView, op: OutPointV) -> SpendingInput {
    m.spends@[choose|i: int|
        0 <= i < m.spends@.len() && (#[trigger] m.spends@[i]).outpoint@ == op].spend
}

pub open spec fn mp_has_script(m: &MempoolView, h: Seq<u8>) -> bool {
    exists|i: int| 0 <= i < m.scripts@.len() && (#[trigger] m.scripts@[i]).scripthash@ == h
}

pub open spec fn mp_script_i(m: &MempoolView, h: Seq<u8>) -> int {
    choose|i: int| 0 <= i < m.scripts@.len() && (#[trigger] m.scripts@[i]).scripthash@ == h
}

/// UTXOs the mempool creates for a scripthash, in iteration order.
pub open spec fn mp_utxos(m: &MempoolView, h: Seq<u8>) -> Seq<UtxoV> {
    if mp_has_script(m, h) {
        utxo_views(m.scripts@[mp_script_i(m, h)].utxos@)
    } else {
        Seq::empty()
    }
}

/// Unconfirmed history txids for a scripthash.
pub open spec fn mp_history(m: &MempoolView, h: Seq<u8>) -> Seq<Seq<u8>> {
    if mp_has_script(m, h) {
        hash_views(m.scripts@[mp_script_i(m, h)].history@)
    } else {
        Seq::empty()
    }
}

pub open spec fn mp_stats(m: &MempoolView, h: Seq<u8>) -> ScriptStats {
    if mp_has_script(m, h) {
        m.scripts@[mp_script_i(m, h)].stats
    } else {
        ScriptStats {
            funded_txo_count: 0,
            funded_txo_sum: 0,
            spent_txo_count: 0,
            spent_txo_sum: 0,
            tx_count: 0,
        }
    }
}

pub open spec fn mp_has_tx(m: &MempoolView, t: Seq<u8>) -> bool {
    exists|i: int| 0 <= i < m.txs@.len() && (#[trigger] m.txs@[i]).txid@ == t
}

pub open spec fn mp_tx_i(m: &MempoolView, t: Seq<u8>) -> int {
    choose|i: int| 0 <= i < m.txs@.len() && (#[trigger] m.txs@[i]).txid@ == t
}

impl MempoolView {
    /// Well-formedness of the snapshot.
    pub open spec fn wf(&self) -> bool {
        &&& forall|i: int| 0 <= i < self.txs@.len() ==> (#[trigger] self.txs@[i]).wf()
        &&& forall|a: int, b: int|
            0 <= a < b < self.txs@.len() ==> (#[trigger] self.txs@[a]).txid@ != (
            #[trigger] self.txs@[b]).txid@
        &&& forall|i: int|
            0 <= i < self.scripts@.len() ==> (#[trigger] self.scripts@[i]).scripthash.wf()
        &&& forall|a: int, b: int|
            0 <= a < b < self.scripts@.len() ==> (#[trigger] self.scripts@[a]).scripthash@ != (
            #[trigger] self.scripts@[b]).scripthash@
        &&& forall|i: int| 0 <= i < self.spends@.len() ==> (#[trigger] self.spends@[i]).wf()
        &&& forall|a: int, b: int|
            0 <= a < b < self.spends@.len() ==> (#[trigger] self.spends@[a]).outpoint@ != (
            #[trigger] self.spends@[b]).outpoint@
        &&& forall|i: int, j: int|
            0 <= i < self.scripts@.len() && 0 <= j < self.scripts@[i].utxos@.len() ==> {
                let u = #[trigger] self.scripts@[i].utxos@[j];
                &&& u.wf()
                &&& u@.confirmed is None
                &&& !mp_spent(self, crate::types::utxo_op(u@))
            }
        &&& forall|i: int, a: int, b: int|
            0 <= i < self.scripts@.len() && 0 <= a < b < self.scripts@[i].utxos@.len()
                ==> crate::types::utxo_op((#[trigger] self.scripts@[i].utxos@[a])@)
                != crate::types::utxo_op((#[trigger] self.scripts@[i].utxos@[b])@)
        &&& forall|i: int, j: int|
            0 <= i < self.scripts@.len() && 0 <= j < self.scripts@[i].history@.len() ==> {
                let t = #[trigger] self.scripts@[i].history@[j];
                t.wf() && mp_has_tx(self, t@)
            }
        &&& forall|i: int, a: int, b: int|
            0 <= i < self.scripts@.len() && 0 <= a < b < self.scripts@[i].history@.len() ==> (
            #[trigger] self.scripts@[i].history@[a])@ != (
            #[trigger] self.scripts@[i].history@[b])@
        &&& forall|i: int| 0 <= i < self.recent@.len() ==> (#[trigger] self.recent@[i]).txid.wf()
    }

    /// An empty snapshot.
    pub fn empty() -> (r: MempoolView)
        ensures
            r.wf(),
            r.txs@.len() == 0,
            r.scripts@.len() == 0,
            r.spends@.len() == 0,
    {
        MempoolView {
            txs: Vec::new(),
            scripts: Vec::new(),
            spends: Vec::new(),
            recent: Vec::new(),
            backlog_vsize: 0,
            backlog_total_fee: 0,
            histogram: Vec::new(),
        }
    }

    /// First entry for a scripthash, if any.
    pub fn find_script(&self, h: &Hash32) -> (r: Option<usize>)
        ensures
            match r {
                Some(i) => i < self.scripts@.len() && self.scripts@[i as int].scripthash@ == h@,
                None => !mp_has_script(self, h@),
            },
    {
        let mut i: usize = 0;
        while i < self.scripts.len()
            invariant
                i <= self.scripts@.len(),
                forall|j: int| 0 <= j < i ==> (#[trigger] self.scripts@[j]).scripthash@ != h@,
            decreases self.scripts@.len() - i,
        {
            if self.scripts[i].scripthash.eq_hash(h) {
                return Some(i);
            }
            i = i + 1;
        }
        None
    }

    /// Is this outpoint consumed by a mempool transaction?
    pub fn has_spend(&self, op: &OutPoint) -> (r: bool)
        ensures
            r == mp_spent(self, op@),
    {
        let mut i: usize = 0;
        while i < self.spends.len()
            invariant
                i <= self.spends@.len(),
                forall|j: int| 0 <= j < i ==> (#[trigger] self.spends@[j]).outpoint@ != op@,
            decreases self.spends@.len() - i,
        {
            if self.spends[i].outpoint.eq_op(op) {
                return true;
            }
            i = i + 1;
        }
        false
    }

    /// The input spending the outpoint, if any.
    pub fn lookup_spend(&self, op: &OutPoint) -> (r: Option<SpendingInput>)
        requires
            self.wf(),
        ensures
            r is Some <==> mp_spent(self, op@),
            match r {
                Some(s) => s@ == mp_spend_of(self, op@)@ && s.wf(),
                None => true,
            },
    {
        let mut i: usize = 0;
        while i < self.spends.len()
            invariant
                self.wf(),
                i <= self.spends@.len(),
                forall|j: int| 0 <= j < i ==> (#[trigger] self.spends@[j]).outpoint@ != op@,
            decreases self.spends@.len() - i,
        {
            if self.spends[i].outpoint.eq_op(op) {
                proof {
                    let k = choose|k: int|
                        0 <= k < self.spends@.len() && (#[trigger] self.spends@[k]).outpoint@
                            == op@;
                    assert(self.spends@[i as int].outpoint@ == op@);
                    assert(mp_spent(self, op@));
                    assert(self.spends@[k].outpoint@ == op@);
                    if k < i {
                        assert(self.spends@[k].outpoint@ != self.spends@[i as int].outpoint@);
                    }
                    if i < k {
                        assert(self.spends@[i as int].outpoint@ != self.spends@[k].outpoint@);
                    }
                    assert(k == i);
                    assert(self.spends@[i as int].wf());
                }
                return Some(self.spends[i].spend.clone());
            }
            i = i + 1;
        }
        None
    }

    /// UTXOs the mempool creates for the scripthash, in iteration order.
    /// No returned outpoint is spent within the snapshot.
    pub fn utxo(&self, h: &Hash32) -> (r: Vec<Utxo>)
        requires
            self.wf(),
        ensures
            utxo_views(r@) == mp_utxos(self, h@),
            forall|i: int|
                0 <= i < r@.len() ==> {
                    let u = #[trigger] r@[i];
                    &&& u.wf()
                    &&& u@.confirmed is None
                    &&& !mp_spent(self, crate::types::utxo_op(u@))
                },
    {
        let entry = self.find_script(h);
        match entry {
            None => {
                let r: Vec<Utxo> = Vec::new();
                proof {
                    assert(utxo_views(r@) =~= mp_utxos(self, h@));
                }
                r
            },
            Some(i) => {
                proof {
                    assert(self.scripts@[i as int].scripthash@ == h@);
                    assert(mp_has_script(self, h@));
                    let k = mp_script_i(self, h@);
                    assert(self.scripts@[k].scripthash@ == h@);
                    if k < i {
                        assert(self.scripts@[k].scripthash@ != self.scripts@[
                            i as int].scripthash@);
                    }
                    if i < k {
                        assert(self.scripts@[i as int].scripthash@ != self.scripts@[
                            k].scripthash@);
                    }
                    assert(k == i);
                }
                let src = &self.scripts[i].utxos;
                let mut r: Vec<Utxo> = Vec::new();
                let mut j: usize = 0;
                while j < src.len()
                    invariant
                        j <= src@.len(),
                        r@.len() == j,
                        forall|k: int| 0 <= k < j ==> (#[trigger] r@[k])@ == src@[k]@,
                        forall|k: int|
                            0 <= k < j ==> (#[trigger] r@[k]).wf() && r@[k]@.confirmed is None
                                && !mp_spent(self, crate::types::utxo_op(r@[k]@)),
                        self.wf(),
                        0 <= i < self.scripts@.len(),
                        src == &self.scripts[i as int].utxos,
                    decreases src@.len() - j,
                {
                    let u = src[j].clone();
                    proof {
                        assert(self.scripts@[i as int].utxos@[j as int].wf());
                    }
                    r.push(u);
                    j = j + 1;
                }
                proof {
                    assert(utxo_views(r@) =~= mp_utxos(self, h@));
                }
                r
            },
        }
    }

    /// Unconfirmed history txids after an optional cursor, up to `limit`.
    pub fn history_txids(&self, h: &Hash32, last_seen: Option<&Hash32>, limit: usize) -> (r: Vec<
        Hash32,
    >)
        requires
            self.wf(),
        ensures
            hash_views(r@) == crate::types::take_up_to(
                after_txid(
                    mp_history(self, h@),
                    match last_seen {
                        Some(t) => Some(t@),
                        None => None,
                    },
                ),
                limit as int,
            ),
            forall|i: int| 0 <= i < r@.len() ==> (#[trigger] r@[i]).wf(),
    {
        let ghost hist = mp_history(self, h@);
        let entry = self.find_script(h);
        match entry {
            None => {
                let r: Vec<Hash32> = Vec::new();
                proof {
                    assert(hash_views(r@) =~= crate::types::take_up_to(
                        after_txid(
                            hist,
                            match last_seen {
                                Some(t) => Some(t@),
                                None => None,
                            },
                        ),
                        limit as int,
                    ));
                }
                r
            },
            Some(i) => {
                proof {
                    assert(self.scripts@[i as int].scripthash@ == h@);
                    assert(mp_has_script(self, h@));
                    let k = mp_script_i(self, h@);
                    assert(self.scripts@[k].scripthash@ == h@);
                    if k < i {
                        assert(self.scripts@[k].scripthash@ != self.scripts@[
                            i as int].scripthash@);
                    }
                    if i < k {
                        assert(self.scripts@[i as int].scripthash@ != self.scripts@[
                            k].scripthash@);
                    }
                    assert(k == i);
                }
                let src = &self.scripts[i].history;
                proof {
                    assert(hist == hash_views(src@));
                }
                // Position strictly after the cursor, or the start.
                let mut start: usize = 0;
                match last_seen {
                    None => {},
                    Some(t) => {
                        let mut p: usize = 0;
                        let mut found = false;
                        while p < src.len() && !found
                            invariant
                                p <= src@.len(),
                                !found ==> forall|j: int| 0 <= j < p ==> hist[j] != t@,
                                found ==> 0 < p <= src@.len() && hist[p - 1] == t@ && forall|
                                    j: int,
                                |
                                    0 <= j < p - 1 ==> hist[j] != t@,
                                hist == hash_views(src@),
                            decreases src@.len() - p,
                        {
                            if eq_bytes(&src[p].bytes, &t.bytes) {
                                found = true;
                            }
                            p = p + 1;
                        }
                        if found {
                            start = p;
                            proof {
                                let w = choose|w: int| 0 <= w < hist.len() && hist[w] == t@;
                                assert(hashes_distinct(hist));
                                assert(w == p - 1);
                            }
                        } else {
                            start = 0;
                            proof {
                                assert(forall|j: int| 0 <= j < hist.len() ==> hist[j] != t@);
                            }
                        }
                    },
                }
                let ghost tail = after_txid(
                    hist,
                    match last_seen {
                        Some(t) => Some(t@),
                        None => None,
                    },
                );
                proof {
                    assert(tail =~= hist.skip(start as int));
                }
                let mut r: Vec<Hash32> = Vec::new();
                let mut j: usize = start;
                while j < src.len() && r.len() < limit
                    invariant
                        start <= j <= src@.len(),
                        r@.len() == j - start,
                        r@.len() <= limit,
                        forall|k: int| 0 <= k < r@.len() ==> (#[trigger] r@[k])@ == hist[
                            start + k],
                        forall|k: int| 0 <= k < r@.len() ==> (#[trigger] r@[k]).wf(),
                        hist == hash_views(src@),
                        self.wf(),
                        0 <= (i as int) < self.scripts@.len(),
                        src == &self.scripts[i as int].history,
                        j - start < limit || j == src@.len() || r@.len() == limit,
                    decreases src@.len() - j,
                {
                    proof {
                        assert(self.scripts@[i as int].history@[j as int].wf());
                    }
                    r.push(src[j].clone());
                    j = j + 1;
                }
                proof {
                    assert(hash_views(r@) =~= crate::types::take_up_to(tail, limit as int));
                }
                r
            },
        }
    }

    /// Combined funding/spending statistics for the scripthash.
    pub fn stats(&self, h: &Hash32) -> (r: ScriptStats)
        requires
            self.wf(),
        ensures
            r == mp_stats(self, h@),
    {
        match self.find_script(h) {
            None => ScriptStats::empty(),
            Some(i) => {
                proof {
                    assert(self.scripts@[i as int].scripthash@ == h@);
                    assert(mp_has_script(self, h@));
                    let k = mp_script_i(self, h@);
                    assert(self.scripts@[k].scripthash@ == h@);
                    if k < i {
                        assert(self.scripts@[k].scripthash@ != self.scripts@[
                            i as int].scripthash@);
                    }
                    if i < k {
                        assert(self.scripts@[i as int].scripthash@ != self.scripts@[
                            k].scripthash@);
                    }
                    assert(k == i);
                }
                self.scripts[i].stats
            },
        }
    }

    /// First transaction with this txid, if any.
    pub fn find_tx(&self, txid: &Hash32) -> (r: Option<usize>)
        ensures
            match r {
                Some(i) => i < self.txs@.len() && self.txs@[i as int].txid@ == txid@,
                None => !mp_has_tx(self, txid@),
            },
    {
        let mut i: usize = 0;
        while i < self.txs.len()
            invariant
                i <= self.txs@.len(),
                forall|j: int| 0 <= j < i ==> (#[trigger] self.txs@[j]).txid@ != txid@,
            decreases self.txs@.len() - i,
        {
            if self.txs[i].txid.eq_hash(txid) {
                return Some(i);
            }
            i = i + 1;
        }
        None
    }

    /// The unconfirmed transaction with this id, if present.
    pub fn lookup_txn(&self, txid: &Hash32) -> (r: Option<Transaction>)
        requires
            self.wf(),
        ensures
            r is Some <==> mp_has_tx(self, txid@),
            match r {
                Some(t) => t@ == self.txs@[mp_tx_i(self, txid@)].tx@ && t.wf(),
                None => true,
            },
    {
        match self.find_tx(txid) {
            None => None,
            Some(i) => {
                proof {
                    assert(self.txs@[i as int].txid@ == txid@);
                    assert(mp_has_tx(self, txid@));
                    let k = mp_tx_i(self, txid@);
                    assert(self.txs@[k].txid@ == txid@);
                    if k < i {
                        assert(self.txs@[k].txid@ != self.txs@[i as int].txid@);
                    }
                    if i < k {
                        assert(self.txs@[i as int].txid@ != self.txs@[k].txid@);
                    }
                    assert(k == i);
                    assert(self.txs@[i as int].wf());
                }
                Some(self.txs[i].tx.clone_tx())
            },
        }
    }

    /// The raw bytes of the unconfirmed transaction with this id, if present.
    pub fn lookup_raw_txn(&self, txid: &Hash32) -> (r: Option<Vec<u8>>)
        requires
            self.wf(),
        ensures
            r is Some <==> mp_has_tx(self, txid@),
            match r {
                Some(b) => b@ == self.txs@[mp_tx_i(self, txid@)].raw@,
                None => true,
            },
    {
        match self.find_tx(txid) {
            None => None,
            Some(i) => {
                proof {
                    assert(self.txs@[i as int].txid@ == txid@);
                    assert(mp_has_tx(self, txid@));
                    let k = mp_tx_i(self, txid@);
                    assert(self.txs@[k].txid@ == txid@);
                    if k < i {
                        assert(self.txs@[k].txid@ != self.txs@[i as int].txid@);
                    }
                    if i < k {
                        assert(self.txs@[i as int].txid@ != self.txs@[k].txid@);
                    }
                    assert(k == i);
                }
                Some(self.txs[i].raw.clone())
            },
        }
    }

    /// Fee of the unconfirmed transaction, if present.
    pub fn get_tx_fee(&self, txid: &Hash32) -> (r: Option<u64>)
        requires
            self.wf(),
        ensures
            r is Some <==> mp_has_tx(self, txid@),
            match r {
                Some(f) => f == self.txs@[mp_tx_i(self, txid@)].fee,
                None => true,
            },
    {
        match self.find_tx(txid) {
            None => None,
            Some(i) => {
                proof {
                    assert(self.txs@[i as int].txid@ == txid@);
                    assert(mp_has_tx(self, txid@));
                    let k = mp_tx_i(self, txid@);
                    assert(self.txs@[k].txid@ == txid@);
                    if k < i {
                        assert(self.txs@[k].txid@ != self.txs@[i as int].txid@);
                    }
                    if i < k {
                        assert(self.txs@[i as int].txid@ != self.txs@[k].txid@);
                    }
                    assert(k == i);
                }
                Some(self.txs[i].fee)
            },
        }
    }

    /// Whether the transaction spends outputs of other unconfirmed
    /// transactions; false when the transaction is unknown.
    pub fn has_unconfirmed_parents(&self, txid: &Hash32) -> (r: bool)
        requires
            self.wf(),
        ensures
            r == (mp_has_tx(self, txid@) && self.txs@[mp_tx_i(self, txid@)].has_unconfirmed_parents),
    {
        match self.find_tx(txid) {
            None => false,
            Some(i) => {
                proof {
                    assert(self.txs@[i as int].txid@ == txid@);
                    assert(mp_has_tx(self, txid@));
                    let k = mp_tx_i(self, txid@);
                    assert(self.txs@[k].txid@ == txid@);
                    if k < i {
                        assert(self.txs@[k].txid@ != self.txs@[i as int].txid@);
                    }
                    if i < k {
                        assert(self.txs@[i as int].txid@ != self.txs@[k].txid@);
                    }
                    assert(k == i);
                }
                self.txs[i].has_unconfirmed_parents
            },
        }
    }

    /// All txids of the snapshot, in iteration order.
    pub fn txids(&self) -> (r: Vec<Hash32>)
        ensures
            hash_views(r@) == mp_txids(self),
            forall|i: int| 0 <= i < r@.len() ==> (#[trigger] r@[i])@ == mp_txids(self)[i],
    {
        let mut r: Vec<Hash32> = Vec::new();
        let mut i: usize = 0;
        while i < self.txs.len()
            invariant
                i <= self.txs@.len(),
                r@.len() == i,
                forall|j: int| 0 <= j < i ==> (#[trigger] r@[j])@ == self.txs@[j].txid@,
            decreases self.txs@.len() - i,
        {
            r.push(self.txs[i].txid.clone());
            i = i + 1;
        }
        proof {
            assert(hash_views(r@) =~= mp_txids(self));
        }
        r
    }

    /// Record a transaction just broadcast, so that reads on this snapshot
    /// see it. Everything else is untouched.
    pub fn register_tx(&mut self, entry: MempoolTx)
        requires
            old(self).wf(),
            entry.wf(),
        ensures
            final(self).wf(),
            mp_has_tx(final(self), entry.txid@),
            old(self).scripts@ == final(self).scripts@,
            old(self).spends@ == final(self).spends@,
            mp_has_tx(old(self), entry.txid@) ==> final(self).txs@ == old(self).txs@,
            !mp_has_tx(old(self), entry.txid@) ==> final(self).txs@ == old(self).txs@.push(entry),
    {
        let present = self.find_tx(&entry.txid);
        match present {
            Some(_) => {},
            None => {
                let ghost pre = *self;
                proof {
                    assert(forall|j: int|
                        0 <= j < pre.txs@.len() ==> (#[trigger] pre.txs@[j]).txid@
                            != entry.txid@);
                }
                self.txs.push(entry);
                proof {
                    let m = &*self;
                    assert(m.txs@[m.txs@.len() - 1].txid@ == entry.txid@);
                    assert(mp_has_tx(m, entry.txid@));
                    assert forall|a: int, b: int|
                        0 <= a < b < m.txs@.len() implies (#[trigger] m.txs@[a]).txid@ != (
                    #[trigger] m.txs@[b]).txid@ by {
                        if b < pre.txs@.len() {
                            assert(pre.txs@[a].txid@ != pre.txs@[b].txid@);
                        } else {
                            assert(m.txs@[a] == pre.txs@[a]);
                            assert(pre.txs@[a].txid@ != entry.txid@);
                        }
                    }
                    assert forall|i: int, j: int|
                        0 <= i < m.scripts@.len() && 0 <= j
                            < m.scripts@[i].history@.len() implies {
                        let t = #[trigger] m.scripts@[i].history@[j];
                        t.wf() && mp_has_tx(m, t@)
                    } by {
                        let t = m.scripts@[i].history@[j];
                        assert(t.wf() && mp_has_tx(&pre, t@));
                        let k = mp_tx_i(&pre, t@);
                        assert(m.txs@[k].txid@ == t@);
                    }
                    assert forall|i: int, j: int|
                        0 <= i < m.scripts@.len() && 0 <= j < m.scripts@[i].utxos@.len() implies {
                        let u = #[trigger] m.scripts@[i].utxos@[j];
                        u.wf() && u@.confirmed is None && !mp_spent(
                            m,
                            crate::types::utxo_op(u@),
                        )
                    } by {
                        let u = m.scripts@[i].utxos@[j];
                        assert(u.wf() && u@.confirmed is None && !mp_spent(
                            &pre,
                            crate::types::utxo_op(u@),
                        ));
                    }
                    assert(m.wf());
                }
            },
        }
    }
}


/// Every mempool UTXO is unconfirmed and not spent within the snapshot.
pub proof fn lemma_mp_utxos_unspent(m: &MempoolView, h: Seq<u8>)
    requires
        m.wf(),
    ensures
        forall|k: int|
            0 <= k < mp_utxos(m, h).len() ==> (#[trigger] mp_utxos(m, h)[k]).confirmed is None
                && !mp_spent(m, crate::types::utxo_op(mp_utxos(m, h)[k])),
{
    if mp_has_script(m, h) {
        let i = mp_script_i(m, h);
        assert forall|k: int|
            0 <= k < mp_utxos(m, h).len() implies (#[trigger] mp_utxos(m, h)[k]).confirmed is None
                && !mp_spent(m, crate::types::utxo_op(mp_utxos(m, h)[k])) by {
            assert(m.scripts@[i].utxos@[k].wf() && m.scripts@[i].utxos@[k]@.confirmed is None
                && !mp_spent(m, crate::types::utxo_op(m.scripts@[i].utxos@[k]@)));
            assert(mp_utxos(m, h)[k] == m.scripts@[i].utxos@[k]@);
        }
    }
}


impl MempoolView {
    /// Unconfirmed transactions of a scripthash after an optional cursor
    /// txid, up to `limit`.
    pub fn history(&self, h: &Hash32, last_seen: Option<&Hash32>, limit: usize) -> (r: Vec<
        Transaction,
    >)
        requires
            self.wf(),
        ensures
            ({
                let tail = crate::types::take_up_to(
                    after_txid(
                        mp_history(self, h@),
                        match last_seen {
                            Some(t) => Some(t@),
                            None => None,
                        },
                    ),
                    limit as int,
                );
                &&& r@.len() == tail.len()
                &&& forall|k: int|
                    0 <= k < r@.len() ==> (#[trigger] r@[k])@.txid == tail[k] && mp_has_tx(
                        self,
                        tail[k],
                    ) && r@[k]@ == self.txs@[mp_tx_i(self, tail[k])].tx@
            }),
            forall|k: int| 0 <= k < r@.len() ==> (#[trigger] r@[k]).wf(),
    {
        let ids = self.history_txids(h, last_seen, limit);
        let ghost tail = crate::types::take_up_to(
            after_txid(
                mp_history(self, h@),
                match last_seen {
                    Some(t) => Some(t@),
                    None => None,
                },
            ),
            limit as int,
        );
        proof {
            assert forall|k: int| 0 <= k < ids@.len() implies (#[trigger] ids@[k])@ == tail[
            k] by {
                assert(hash_views(ids@)[k] == ids@[k]@);
            }
            let hist = mp_history(self, h@);
            let cview: Option<Seq<u8>> = match last_seen {
                Some(t) => Some(t@),
                None => None,
            };
            let after = after_txid(hist, cview);
            assert forall|k: int| 0 <= k < tail.len() implies mp_has_tx(
                self,
                #[trigger] tail[k],
            ) by {
                assert(tail[k] == after[k]);
                let j: int = match cview {
                    None => k,
                    Some(t) => {
                        if exists|w: int| 0 <= w < hist.len() && hist[w] == t {
                            let p = choose|w: int| 0 <= w < hist.len() && hist[w] == t;
                            assert(after == hist.skip(p + 1));
                            assert(after[k] == hist[p + 1 + k]);
                            p + 1 + k
                        } else {
                            k
                        }
                    },
                };
                assert(0 <= j < hist.len() && hist[j] == tail[k]);
                assert(mp_has_script(self, h@));
                let si = mp_script_i(self, h@);
                assert(hist[j] == self.scripts@[si].history@[j]@);
                assert(mp_has_tx(self, self.scripts@[si].history@[j]@));
            }
        }
        let mut r: Vec<Transaction> = Vec::new();
        let mut i: usize = 0;
        while i < ids.len()
            invariant
                self.wf(),
                i <= ids@.len(),
                r@.len() == i,
                ids@.len() == tail.len(),
                forall|k: int| 0 <= k < ids@.len() ==> (#[trigger] ids@[k])@ == tail[k] && ids@[
                    k].wf(),
                forall|k: int|
                    0 <= k < ids@.len() ==> mp_has_tx(self, (#[trigger] ids@[k])@),
                forall|k: int|
                    0 <= k < i ==> (#[trigger] r@[k])@.txid == tail[k] && mp_has_tx(
                        self,
                        tail[k],
                    ) && r@[k]@ == self.txs@[mp_tx_i(self, tail[k])].tx@ && r@[k].wf(),
            decreases ids@.len() - i,
        {
            match self.lookup_txn(&ids[i]) {
                Some(t) => {
                    proof {
                        let j = mp_tx_i(self, ids@[i as int]@);
                        assert(self.txs@[j].wf());
                        assert(self.txs@[j].tx@.txid == self.txs@[j].txid@);
                    }
                    r.push(t);
                },
                None => {
                    proof {
                        assert(false);
                    }
                },
            }
            i = i + 1;
        }
        r
    }
}


/// Runtime well-formedness of a spend record.
pub fn spend_record_check(s: &SpendRecord) -> (r: bool)
    ensures
        r ==> s.wf(),
{
    s.outpoint.txid.bytes.len() == crate::types::HASH_LEN && s.spend.txid.bytes.len()
        == crate::types::HASH_LEN && (match &s.spend.confirmed {
        Some(b) => b.hash.bytes.len() == crate::types::HASH_LEN,
        None => true,
    })
}

/// Runtime well-formedness of a UTXO.
pub fn utxo_check(u: &Utxo) -> (r: bool)
    ensures
        r ==> u.wf(),
{
    u.txid.bytes.len() == crate::types::HASH_LEN && (match &u.confirmed {
        Some(b) => b.hash.bytes.len() == crate::types::HASH_LEN,
        None => true,
    })
}

impl MempoolTx {
    /// Runtime form of well-formedness.
    pub fn wf_check(&self) -> (r: bool)
        ensures
            r ==> self.wf(),
    {
        self.txid.bytes.len() == crate::types::HASH_LEN && self.tx.wf_check()
            && self.tx.txid.eq_hash(&self.txid)
    }
}

impl MempoolView {
    /// Runtime form of well-formedness: lets an embedder establish the
    /// snapshot invariants before handing the view to the engine. A `true`
    /// answer guarantees well-formedness.
    pub fn check_wf(&self) -> (r: bool)
        ensures
            r ==> self.wf(),
    {
        // Transactions: well-formed, distinct txids.
        let mut i: usize = 0;
        while i < self.txs.len()
            invariant
                i <= self.txs@.len(),
                forall|k: int| 0 <= k < i ==> (#[trigger] self.txs@[k]).wf(),
            decreases self.txs@.len() - i,
        {
            if !self.txs[i].wf_check() {
                return false;
            }
            i = i + 1;
        }
        let mut txids: Vec<Hash32> = Vec::new();
        let mut i2: usize = 0;
        while i2 < self.txs.len()
            invariant
                i2 <= self.txs@.len(),
                txids@.len() == i2,
                forall|k: int| 0 <= k < i2 ==> (#[trigger] txids@[k])@ == self.txs@[k].txid@,
            decreases self.txs@.len() - i2,
        {
            txids.push(self.txs[i2].txid.clone());
            i2 = i2 + 1;
        }
        if !crate::types::check_hashes_distinct(&txids) {
            return false;
        }
        proof {
            assert forall|a: int, b: int|
                0 <= a < b < self.txs@.len() implies (#[trigger] self.txs@[a]).txid@ != (
            #[trigger] self.txs@[b]).txid@ by {
                assert(crate::types::hash_views(txids@)[a] != crate::types::hash_views(
                    txids@,
                )[b]);
            }
        }
        // Spends: well-formed, distinct outpoints.
        let mut j: usize = 0;
        while j < self.spends.len()
            invariant
                j <= self.spends@.len(),
                forall|k: int| 0 <= k < j ==> (#[trigger] self.spends@[k]).wf(),
            decreases self.spends@.len() - j,
        {
            if !spend_record_check(&self.spends[j]) {
                return false;
            }
            j = j + 1;
        }
        let mut ops: Vec<OutPoint> = Vec::new();
        let mut j2: usize = 0;
        while j2 < self.spends.len()
            invariant
                j2 <= self.spends@.len(),
                ops@.len() == j2,
                forall|k: int| 0 <= k < j2 ==> (#[trigger] ops@[k])@ == self.spends@[k].outpoint@,
            decreases self.spends@.len() - j2,
        {
            ops.push(self.spends[j2].outpoint.clone());
            j2 = j2 + 1;
        }
        if !crate::types::check_ops_distinct(&ops) {
            return false;
        }
        proof {
            assert forall|a: int, b: int|
                0 <= a < b < self.spends@.len() implies (#[trigger] self.spends@[a]).outpoint@
                != (#[trigger] self.spends@[b]).outpoint@ by {
                assert(crate::types::op_views(ops@)[a] != crate::types::op_views(ops@)[b]);
            }
        }
        // Script entries.
        let mut s: usize = 0;
        while s < self.scripts.len()
            invariant
                s <= self.scripts@.len(),
                forall|k: int|
                    0 <= k < s ==> (#[trigger] self.scripts@[k]).scripthash.wf(),
                forall|k: int, u: int|
                    0 <= k < s && 0 <= u < self.scripts@[k].utxos@.len() ==> {
                        let x = #[trigger] self.scripts@[k].utxos@[u];
                        x.wf() && x@.confirmed is None && !mp_spent(
                            self,
                            crate::types::utxo_op(x@),
                        )
                    },
                forall|k: int, a: int, b: int|
                    0 <= k < s && 0 <= a < b < self.scripts@[k].utxos@.len()
                        ==> crate::types::utxo_op((#[trigger] self.scripts@[k].utxos@[a])@)
                        != crate::types::utxo_op((#[trigger] self.scripts@[k].utxos@[b])@),
                forall|k: int, u: int|
                    0 <= k < s && 0 <= u < self.scripts@[k].history@.len() ==> {
                        let t = #[trigger] self.scripts@[k].history@[u];
                        t.wf() && mp_has_tx(self, t@)
                    },
                forall|k: int, a: int, b: int|
                    0 <= k < s && 0 <= a < b < self.scripts@[k].history@.len() ==> (
                    #[trigger] self.scripts@[k].history@[a])@ != (
                    #[trigger] self.scripts@[k].history@[b])@,
            decreases self.scripts@.len() - s,
        {
            let entry = &self.scripts[s];
            if entry.scripthash.bytes.len() != crate::types::HASH_LEN {
                return false;
            }
            let mut u: usize = 0;
            while u < entry.utxos.len()
                invariant
                    u <= entry.utxos@.len(),
                    0 <= (s as int) < self.scripts@.len(),
                    entry == &self.scripts[s as int],
                    forall|k: int|
                        0 <= k < u ==> {
                            let x = #[trigger] entry.utxos@[k];
                            x.wf() && x@.confirmed is None && !mp_spent(
                                self,
                                crate::types::utxo_op(x@),
                            )
                        },
                decreases entry.utxos@.len() - u,
            {
                let x = &entry.utxos[u];
                if !utxo_check(x) {
                    return false;
                }
                match &x.confirmed {
                    Some(_) => {
                        return false;
                    },
                    None => {},
                }
                let op = x.outpoint();
                if self.has_spend(&op) {
                    return false;
                }
                u = u + 1;
            }
            let mut uops: Vec<OutPoint> = Vec::new();
            let mut u2: usize = 0;
            while u2 < entry.utxos.len()
                invariant
                    u2 <= entry.utxos@.len(),
                    uops@.len() == u2,
                    0 <= (s as int) < self.scripts@.len(),
                    entry == &self.scripts[s as int],
                    forall|k: int|
                        0 <= k < u2 ==> (#[trigger] uops@[k])@ == crate::types::utxo_op(
                            entry.utxos@[k]@,
                        ),
                decreases entry.utxos@.len() - u2,
            {
                uops.push(entry.utxos[u2].outpoint());
                u2 = u2 + 1;
            }
            if !crate::types::check_ops_distinct(&uops) {
                return false;
            }
            let mut h: usize = 0;
            while h < entry.history.len()
                invariant
                    h <= entry.history@.len(),
                    0 <= (s as int) < self.scripts@.len(),
                    entry == &self.scripts[s as int],
                    forall|k: int|
                        0 <= k < h ==> {
                            let t = #[trigger] entry.history@[k];
                            t.wf() && mp_has_tx(self, t@)
                        },
                decreases entry.history@.len() - h,
            {
                let t = &entry.history[h];
                if t.bytes.len() != crate::types::HASH_LEN {
                    return false;
                }
                match self.find_tx(t) {
                    Some(_) => {},
                    None => {
                        return false;
                    },
                }
                proof {
                    assert(mp_has_tx(self, entry.history@[h as int]@));
                }
                h = h + 1;
            }
            if !crate::types::check_hashes_distinct(&entry.history) {
                return false;
            }
            proof {
                assert forall|a: int, b: int|
                    0 <= a < b < entry.history@.len() implies (
                #[trigger] self.scripts@[s as int].history@[a])@ != (
                #[trigger] self.scripts@[s as int].history@[b])@ by {
                    assert(crate::types::hash_views(entry.history@)[a]
                        != crate::types::hash_views(entry.history@)[b]);
                }
                assert forall|a: int, b: int|
                    0 <= a < b < entry.utxos@.len() implies crate::types::utxo_op((
                #[trigger] self.scripts@[s as int].utxos@[a])@) != crate::types::utxo_op((
                #[trigger] self.scripts@[s as int].utxos@[b])@) by {
                    assert(crate::types::op_views(uops@)[a] != crate::types::op_views(uops@)[b]);
                }
            }
            s = s + 1;
        }
        // Distinct script keys.
        let mut keys: Vec<Hash32> = Vec::new();
        let mut s2: usize = 0;
        while s2 < self.scripts.len()
            invariant
                s2 <= self.scripts@.len(),
                keys@.len() == s2,
                forall|k: int| 0 <= k < s2 ==> (#[trigger] keys@[k])@
                    == self.scripts@[k].scripthash@,
            decreases self.scripts@.len() - s2,
        {
            keys.push(self.scripts[s2].scripthash.clone());
            s2 = s2 + 1;
        }
        if !crate::types::check_hashes_distinct(&keys) {
            return false;
        }
        // Recent rows.
        let mut rr: usize = 0;
        while rr < self.recent.len()
            invariant
                rr <= self.recent@.len(),
                forall|k: int| 0 <= k < rr ==> (#[trigger] self.recent@[k]).txid.wf(),
            decreases self.recent@.len() - rr,
        {
            if self.recent[rr].txid.bytes.len() != crate::types::HASH_LEN {
                return false;
            }
            rr = rr + 1;
        }
        proof {
            assert forall|a: int, b: int|
                0 <= a < b < self.scripts@.len() implies (
            #[trigger] self.scripts@[a]).scripthash@ != (
            #[trigger] self.scripts@[b]).scripthash@ by {
                assert(crate::types::hash_views(keys@)[a] != crate::types::hash_views(keys@)[b]);
            }
        }
        true
    }
}

} // verus!
