//! Read-only view of the confirmed chain index: blocks by height, per-script
//! UTXO sets and histories, transaction and spend lookups.
//!
//! Per-script UTXO lists are kept strictly sorted by (txid, vout), which is
//! the storage order cursor pagination walks.

use vstd::prelude::*;
use vstd::string::StringSliceAdditionalSpecFns;

use crate::tx::Transaction;
use crate::types::{
    after_txid, op_lt, take_up_to, utxo_op, utxo_views, BlockId, BlockIdV, Hash32, OutPoint,
    OutPointV, ScriptStats, SpendRecord, SpendingInput, Utxo, UtxoV,
};

verus! {

/// One confirmed history row: a txid and the block that confirmed it.
pub struct HistoryEntry {
    pub txid: Hash32,
    pub block: BlockId,
}

pub struct HistoryEntryV {
    pub txid: Seq<u8>,
    pub block: BlockIdV,
}

impl View for HistoryEntry {
    type V = HistoryEntryV;

    open spec fn view(&self) -> HistoryEntryV {
        HistoryEntryV { txid: self.txid@, block: self.block@ }
    }
}

impl HistoryEntry {
    pub open spec fn wf(&self) -> bool {
        self.txid.wf() && self.block.wf()
    }
}

/// Per-scripthash slice of the chain index.
pub struct ChainScript {
    pub scripthash: Hash32,
    pub utxos: Vec<Utxo>,
    pub history: Vec<HistoryEntry>,
    pub stats: ScriptStats,
}

/// A block of the best chain with the header data the API serves.
pub struct BlockRec {
    pub id: BlockId,
    pub prev_hash: Hash32,
    pub version: u32,
    pub merkle_root: Hash32,
    pub nonce: u32,
    pub bits: u32,
    pub mediantime: u32,
    pub size: u32,
    pub weight: u64,
    pub raw_header: Vec<u8>,
    pub raw: Vec<u8>,
    pub txids: Vec<Hash32>,
}

impl BlockRec {
    pub open spec fn wf(&self) -> bool {
        &&& self.id.wf()
        &&& self.prev_hash.wf()
        &&& self.merkle_root.wf()
        &&& forall|j: int| 0 <= j < self.txids@.len() ==> (#[trigger] self.txids@[j]).wf()
    }
}

/// A confirmed transaction with its raw bytes and confirming block.
pub struct TxRecord {
    pub txid: Hash32,
    pub tx: Transaction,
    pub raw: Vec<u8>,
    pub block: BlockId,
}

impl TxRecord {
    pub open spec fn wf(&self) -> bool {
        &&& self.txid.wf()
        &&& self.tx.wf()
        &&& self.tx.txid@ == self.txid@
        &&& self.block.wf()
    }
}

/// The chain index snapshot.
pub struct ChainIndex {
    pub blocks: Vec<BlockRec>,
    pub scripts: Vec<ChainScript>,
    pub txs: Vec<TxRecord>,
    pub spends: Vec<SpendRecord>,
    /// Indexed addresses, for prefix search.
    pub addresses: Vec<String>,
}

/// A per-script UTXO list sorted strictly by (txid, vout).
pub open spec fn utxos_sorted(s: Seq<Utxo>) -> bool {
    forall|i: int|
        0 <= i && i + 1 < s.len() ==> op_lt(utxo_op((#[trigger] s[i])@), utxo_op(s[i + 1]@))
}

/// Adjacent sortedness gives the pairwise order.
pub proof fn lemma_sorted_pair(s: Seq<Utxo>, a: int, b: int)
    requires
        utxos_sorted(s),
        0 <= a < b < s.len(),
    ensures
        op_lt(utxo_op(s[a]@), utxo_op(s[b]@)),
    decreases b - a,
{
    if a + 1 == b {
    } else {
        lemma_sorted_pair(s, a, b - 1);
        crate::types::lemma_op_trans(utxo_op(s[a]@), utxo_op(s[b - 1]@), utxo_op(s[b]@));
    }
}

pub open spec fn ch_has_script(c: &ChainIndex, h: Seq<u8>) -> bool {
    exists|i: int| 0 <= i < c.scripts@.len() && (#[trigger] c.scripts@[i]).scripthash@ == h
}

pub open spec fn ch_script_i(c: &ChainIndex, h: Seq<u8>) -> int {
    choose|i: int| 0 <= i < c.scripts@.len() && (#[trigger] c.scripts@[i]).scripthash@ == h
}

/// Chain UTXOs of a scripthash, in storage order.
pub open spec fn ch_utxos(c: &ChainIndex, h: Seq<u8>) -> Seq<UtxoV> {
    if ch_has_script(c, h) {
        utxo_views(c.scripts@[ch_script_i(c, h)].utxos@)
    } else {
        Seq::empty()
    }
}

/// Confirmed history of a scripthash, newest-first as stored.
pub open spec fn ch_history(c: &ChainIndex, h: Seq<u8>) -> Seq<HistoryEntryV> {
    if ch_has_script(c, h) {
        c.scripts@[ch_script_i(c, h)].history@.map_values(|e: HistoryEntry| e@)
    } else {
        Seq::empty()
    }
}

pub open spec fn ch_stats(c: &ChainIndex, h: Seq<u8>) -> ScriptStats {
    if ch_has_script(c, h) {
        c.scripts@[ch_script_i(c, h)].stats
    } else {
        ScriptStats {
            funded_txo_count: 0,
            funded_txo_sum: 0,
            spent_txo_count: 0,
            spent_txo_sum: 0,
            tx_count: 0,
        }
    }
}

pub open spec fn ch_has_tx(c: &ChainIndex, t: Seq<u8>) -> bool {
    exists|i: int| 0 <= i < c.txs@.len() && (#[trigger] c.txs@[i]).txid@ == t
}

pub open spec fn ch_tx_i(c: &ChainIndex, t: Seq<u8>) -> int {
    choose|i: int| 0 <= i < c.txs@.len() && (#[trigger] c.txs@[i]).txid@ == t
}

pub open spec fn ch_spent(c: &ChainIndex, op: OutPointV) -> bool {
    exists|i: int| 0 <= i < c.spends@.len() && (#[trigger] c.spends@[i]).outpoint@ == op
}

pub open spec fn ch_spend_of(c: &ChainIndex, op: OutPointV) -> SpendingInput {
    c.spends@[choose|i: int|
        0 <= i < c.spends@.len() && (#[trigger] c.spends@[i]).outpoint@ == op].spend
}

pub open spec fn ch_has_block(c: &ChainIndex, hash: Seq<u8>) -> bool {
    exists|i: int| 0 <= i < c.blocks@.len() && (#[trigger] c.blocks@[i]).id.hash@ == hash
}

pub open spec fn ch_block_i(c: &ChainIndex, hash: Seq<u8>) -> int {
    choose|i: int| 0 <= i < c.blocks@.len() && (#[trigger] c.blocks@[i]).id.hash@ == hash
}

/// The first position strictly after a cursor in a sorted UTXO list.
pub open spec fn first_gt(s: Seq<UtxoV>, c: OutPointV) -> int
    decreases s.len(),
{
    if s.len() == 0 {
        0
    } else if op_lt(c, utxo_op(s[0])) {
        0
    } else {
        1 + first_gt(s.skip(1), c)
    }
}

/// `first_gt` really is the first strictly-greater position.
pub proof fn lemma_first_gt(s: Seq<UtxoV>, c: OutPointV)
    ensures
        0 <= first_gt(s, c) <= s.len(),
        forall|j: int| 0 <= j < first_gt(s, c) ==> !op_lt(c, utxo_op(#[trigger] s[j])),
        first_gt(s, c) < s.len() ==> op_lt(c, utxo_op(s[first_gt(s, c)])),
    decreases s.len(),
{
    if s.len() == 0 {
    } else if op_lt(c, utxo_op(s[0])) {
    } else {
        lemma_first_gt(s.skip(1), c);
        let r = first_gt(s, c);
        assert forall|j: int| 0 <= j < r implies !op_lt(c, utxo_op(#[trigger] s[j])) by {
            if j >= 1 {
                assert(s[j] == s.skip(1)[j - 1]);
            }
        }
        if r < s.len() {
            assert(s[r] == s.skip(1)[r - 1]);
        }
    }
}

/// One step of chain-side cursor pagination over a sorted UTXO list:
/// the page after the cursor and the cursor for the next page. A next
/// cursor is handed out exactly when the page is full.
pub open spec fn ch_cursor_start(u: Seq<UtxoV>, cursor: Option<OutPointV>) -> int {
    match cursor {
        None => 0,
        Some(c) => first_gt(u, c),
    }
}

pub open spec fn ch_cursor_page(u: Seq<UtxoV>, cursor: Option<OutPointV>, limit: int) -> Seq<
    UtxoV,
> {
    let start = ch_cursor_start(u, cursor);
    u.subrange(start, if start + limit <= u.len() {
        start + limit
    } else {
        u.len() as int
    })
}

pub open spec fn ch_cursor_next(u: Seq<UtxoV>, cursor: Option<OutPointV>, limit: int) -> Option<
    OutPointV,
> {
    let page = ch_cursor_page(u, cursor, limit);
    if limit > 0 && page.len() == limit {
        Some(utxo_op(page.last()))
    } else {
        None
    }
}

impl ChainIndex {
    /// Well-formedness of the chain snapshot.
    pub open spec fn wf(&self) -> bool {
        &&& forall|i: int|
            0 <= i < self.blocks@.len() ==> {
                let b = #[trigger] self.blocks@[i];
                &&& b.wf()
                &&& b.id.height == self.blocks@[0].id.height + i
                &&& (i > 0 ==> b.prev_hash@ == self.blocks@[i - 1].id.hash@)
            }
        &&& forall|a: int, b: int|
            0 <= a < b < self.blocks@.len() ==> (#[trigger] self.blocks@[a]).id.hash@ != (
            #[trigger] self.blocks@[b]).id.hash@
        &&& forall|i: int|
            0 <= i < self.scripts@.len() ==> (#[trigger] self.scripts@[i]).scripthash.wf()
        &&& forall|a: int, b: int|
            0 <= a < b < self.scripts@.len() ==> (#[trigger] self.scripts@[a]).scripthash@ != (
            #[trigger] self.scripts@[b]).scripthash@
        &&& forall|i: int, j: int|
            0 <= i < self.scripts@.len() && 0 <= j < self.scripts@[i].utxos@.len() ==> {
                let u = #[trigger] self.scripts@[i].utxos@[j];
                u.wf() && u@.confirmed is Some
            }
        &&& forall|i: int|
            0 <= i < self.scripts@.len() ==> utxos_sorted((#[trigger] self.scripts@[i]).utxos@)
        &&& forall|i: int, j: int|
            0 <= i < self.scripts@.len() && 0 <= j < self.scripts@[i].history@.len() ==> {
                let e = #[trigger] self.scripts@[i].history@[j];
                e.wf() && ch_has_tx(self, e.txid@)
            }
        &&& forall|i: int, a: int, b: int|
            0 <= i < self.scripts@.len() && 0 <= a < b < self.scripts@[i].history@.len() ==> (
            #[trigger] self.scripts@[i].history@[a]).txid@ != (
            #[trigger] self.scripts@[i].history@[b]).txid@
        &&& forall|i: int| 0 <= i < self.txs@.len() ==> (#[trigger] self.txs@[i]).wf()
        &&& forall|a: int, b: int|
            0 <= a < b < self.txs@.len() ==> (#[trigger] self.txs@[a]).txid@ != (
            #[trigger] self.txs@[b]).txid@
        &&& forall|i: int| 0 <= i < self.spends@.len() ==> (#[trigger] self.spends@[i]).wf()
        &&& forall|a: int, b: int|
            0 <= a < b < self.spends@.len() ==> (#[trigger] self.spends@[a]).outpoint@ != (
            #[trigger] self.spends@[b]).outpoint@
    }

    /// Height of the chain tip.
    pub fn best_height(&self) -> (r: u32)
        requires
            self.wf(),
            self.blocks@.len() > 0,
        ensures
            r == self.blocks@[self.blocks@.len() - 1].id.height,
            r == self.blocks@[0].id.height + self.blocks@.len() - 1,
    {
        proof {
            assert(self.blocks@[self.blocks@.len() - 1].id.height == self.blocks@[0].id.height
                + self.blocks@.len() - 1);
        }
        self.blocks[self.blocks.len() - 1].id.height
    }

    /// Hash of the chain tip.
    pub fn best_hash(&self) -> (r: Hash32)
        requires
            self.wf(),
            self.blocks@.len() > 0,
        ensures
            r@ == self.blocks@[self.blocks@.len() - 1].id.hash@,
            r.wf(),
    {
        proof {
            assert(self.blocks@[self.blocks@.len() - 1].wf());
        }
        self.blocks[self.blocks.len() - 1].id.hash.clone()
    }

    /// Index of the block with this hash, if it is on the best chain.
    pub fn find_block(&self, hash: &Hash32) -> (r: Option<usize>)
        ensures
            match r {
                Some(i) => i < self.blocks@.len() && self.blocks@[i as int].id.hash@ == hash@,
                None => !ch_has_block(self, hash@),
            },
    {
        let mut i: usize = 0;
        while i < self.blocks.len()
            invariant
                i <= self.blocks@.len(),
                forall|j: int| 0 <= j < i ==> (#[trigger] self.blocks@[j]).id.hash@ != hash@,
            decreases self.blocks@.len() - i,
        {
            if self.blocks[i].id.hash.eq_hash(hash) {
                return Some(i);
            }
            i = i + 1;
        }
        None
    }

    /// The block at this height, if the chain covers it.
    pub fn header_by_height(&self, height: usize) -> (r: Option<&BlockRec>)
        requires
            self.wf(),
        ensures
            r is Some <==> (self.blocks@.len() > 0 && self.blocks@[0].id.height <= height
                && height < self.blocks@[0].id.height + self.blocks@.len()),
            match r {
                Some(b) => *b == self.blocks@[height - self.blocks@[0].id.height] && b.id.height
                    == height,
                None => true,
            },
    {
        if self.blocks.len() == 0 {
            return None;
        }
        proof {
            assert(self.blocks@[0].id.height == self.blocks@[0].id.height + 0);
        }
        let base = self.blocks[0].id.height;
        if height < base as usize {
            return None;
        }
        let off = height - base as usize;
        if off >= self.blocks.len() {
            return None;
        }
        proof {
            assert(self.blocks@[off as int].id.height == self.blocks@[0].id.height + off);
        }
        Some(&self.blocks[off])
    }

    /// The block record with this hash, if any.
    pub fn block_by_hash(&self, hash: &Hash32) -> (r: Option<&BlockRec>)
        requires
            self.wf(),
        ensures
            r is Some <==> ch_has_block(self, hash@),
            match r {
                Some(b) => 0 <= ch_block_i(self, hash@) < self.blocks@.len() && *b == self.blocks@[
                    ch_block_i(self, hash@)] && b.id.hash@ == hash@,
                None => true,
            },
    {
        match self.find_block(hash) {
            None => None,
            Some(i) => {
                proof {
                    assert(self.blocks@[i as int].id.hash@ == hash@);
                    assert(ch_has_block(self, hash@));
                    let k = ch_block_i(self, hash@);
                    assert(self.blocks@[k].id.hash@ == hash@);
                    if k < i {
                        assert(self.blocks@[k].id.hash@ != self.blocks@[i as int].id.hash@);
                    }
                    if i < k {
                        assert(self.blocks@[i as int].id.hash@ != self.blocks@[k].id.hash@);
                    }
                    assert(k == i);
                }
                Some(&self.blocks[i])
            },
        }
    }

    /// The block id (hash, height, time) for a best-chain block hash.
    pub fn blockid_by_hash(&self, hash: &Hash32) -> (r: Option<BlockId>)
        requires
            self.wf(),
        ensures
            r is Some <==> ch_has_block(self, hash@),
            match r {
                Some(id) => id@ == self.blocks@[ch_block_i(self, hash@)].id@ && id.wf(),
                None => true,
            },
    {
        match self.block_by_hash(hash) {
            None => None,
            Some(b) => {
                proof {
                    assert(self.blocks@[ch_block_i(self, hash@)].wf());
                }
                Some(b.id.clone())
            },
        }
    }

    /// The block confirming a txid, if the chain has the transaction.
    pub fn tx_confirming_block(&self, txid: &Hash32) -> (r: Option<BlockId>)
        requires
            self.wf(),
        ensures
            r is Some <==> ch_has_tx(self, txid@),
            match r {
                Some(id) => id@ == self.txs@[ch_tx_i(self, txid@)].block@ && id.wf(),
                None => true,
            },
    {
        match self.find_tx(txid) {
            None => None,
            Some(i) => {
                proof {
                    self.tx_index_unique(i as int, txid@);
                    assert(self.txs@[i as int].wf());
                }
                Some(self.txs[i].block.clone())
            },
        }
    }

    /// First transaction record with this txid, if any.
    pub fn find_tx(&self, txid: &Hash32) -> (r: Option<usize>)
        ensures
            match r {
                Some(i) => i < self.txs@.len() && self.txs@[i as int].txid@ == txid@,
                None => !ch_has_tx(self, txid@),
            },
    {
        let mut i: usize = 0;
        while i < self.txs.len()
            invariant
                i <= self.txs@.len(),
                forall|j: int| 0 <= j < i ==> (#[trigger] self.txs@[j]).txid@ != txid@,
            decreases self.txs@.len() - i,
        {
            if self.txs[i].txid.eq_hash(txid) {
                return Some(i);
            }
            i = i + 1;
        }
        None
    }

    /// A found index is the index the specification speaks of.
    proof fn tx_index_unique(&self, i: int, t: Seq<u8>)
        requires
            self.wf(),
            0 <= i < self.txs@.len(),
            self.txs@[i].txid@ == t,
        ensures
            ch_has_tx(self, t),
            ch_tx_i(self, t) == i,
    {
        assert(ch_has_tx(self, t));
        let k = ch_tx_i(self, t);
        assert(self.txs@[k].txid@ == t);
        if k < i {
            assert(self.txs@[k].txid@ != self.txs@[i].txid@);
        }
        if i < k {
            assert(self.txs@[i].txid@ != self.txs@[k].txid@);
        }
    }

    proof fn script_index_unique(&self, i: int, h: Seq<u8>)
        requires
            self.wf(),
            0 <= i < self.scripts@.len(),
            self.scripts@[i].scripthash@ == h,
        ensures
            ch_has_script(self, h),
            ch_script_i(self, h) == i,
    {
        assert(ch_has_script(self, h));
        let k = ch_script_i(self, h);
        assert(self.scripts@[k].scripthash@ == h);
        if k < i {
            assert(self.scripts@[k].scripthash@ != self.scripts@[i].scripthash@);
        }
        if i < k {
            assert(self.scripts@[i].scripthash@ != self.scripts@[k].scripthash@);
        }
    }

    /// The confirmed transaction with this id, if present.
    pub fn lookup_txn(&self, txid: &Hash32) -> (r: Option<Transaction>)
        requires
            self.wf(),
        ensures
            r is Some <==> ch_has_tx(self, txid@),
            match r {
                Some(t) => t@ == self.txs@[ch_tx_i(self, txid@)].tx@ && t.wf(),
                None => true,
            },
    {
        match self.find_tx(txid) {
            None => None,
            Some(i) => {
                proof {
                    self.tx_index_unique(i as int, txid@);
                    assert(self.txs@[i as int].wf());
                }
                Some(self.txs[i].tx.clone_tx())
            },
        }
    }

    /// The raw bytes of the confirmed transaction with this id, if present.
    pub fn lookup_raw_txn(&self, txid: &Hash32) -> (r: Option<Vec<u8>>)
        requires
            self.wf(),
        ensures
            r is Some <==> ch_has_tx(self, txid@),
            match r {
                Some(b) => b@ == self.txs@[ch_tx_i(self, txid@)].raw@,
                None => true,
            },
    {
        match self.find_tx(txid) {
            None => None,
            Some(i) => {
                proof {
                    self.tx_index_unique(i as int, txid@);
                }
                Some(self.txs[i].raw.clone())
            },
        }
    }

    /// The confirmed input spending this outpoint, if any.
    pub fn lookup_spend(&self, op: &OutPoint) -> (r: Option<SpendingInput>)
        requires
            self.wf(),
        ensures
            r is Some <==> ch_spent(self, op@),
            match r {
                Some(s) => s@ == ch_spend_of(self, op@)@ && s.wf(),
                None => true,
            },
    {
        let mut i: usize = 0;
        while i < self.spends.len()
            invariant
                self.wf(),
                i <= self.spends@.len(),
                forall|j: int| 0 <= j < i ==> (#[trigger] self.spends@[j]).outpoint@ != op@,
            decreases self.spends@.len() - i,
        {
            if self.spends[i].outpoint.eq_op(op) {
                proof {
                    assert(self.spends@[i as int].outpoint@ == op@);
                    assert(ch_spent(self, op@));
                    let k = choose|k: int|
                        0 <= k < self.spends@.len() && (#[trigger] self.spends@[k]).outpoint@
                            == op@;
                    assert(self.spends@[k].outpoint@ == op@);
                    if k < i {
                        assert(self.spends@[k].outpoint@ != self.spends@[i as int].outpoint@);
                    }
                    if i < k {
                        assert(self.spends@[i as int].outpoint@ != self.spends@[k].outpoint@);
                    }
                    assert(k == i);
                    assert(self.spends@[i as int].wf());
                }
                return Some(self.spends[i].spend.clone());
            }
            i = i + 1;
        }
        None
    }

    /// First script entry for a scripthash, if any.
    pub fn find_script(&self, h: &Hash32) -> (r: Option<usize>)
        ensures
            match r {
                Some(i) => i < self.scripts@.len() && self.scripts@[i as int].scripthash@ == h@,
                None => !ch_has_script(self, h@),
            },
    {
        let mut i: usize = 0;
        while i < self.scripts.len()
            invariant
                i <= self.scripts@.len(),
                forall|j: int| 0 <= j < i ==> (#[trigger] self.scripts@[j]).scripthash@ != h@,
            decreases self.scripts@.len() - i,
        {
            if self.scripts[i].scripthash.eq_hash(h) {
                return Some(i);
            }
            i = i + 1;
        }
        None
    }

    /// Chain funding/spending statistics for the scripthash.
    pub fn stats(&self, h: &Hash32) -> (r: ScriptStats)
        requires
            self.wf(),
        ensures
            r == ch_stats(self, h@),
    {
        match self.find_script(h) {
            None => ScriptStats::empty(),
            Some(i) => {
                proof {
                    self.script_index_unique(i as int, h@);
                }
                self.scripts[i].stats
            },
        }
    }

    /// Up to `limit` chain UTXOs of the scripthash, in storage order.
    pub fn utxo(&self, h: &Hash32, limit: usize) -> (r: Vec<Utxo>)
        requires
            self.wf(),
        ensures
            utxo_views(r@) == take_up_to(ch_utxos(self, h@), limit as int),
            forall|i: int|
                0 <= i < r@.len() ==> (#[trigger] r@[i]).wf() && r@[i]@.confirmed is Some,
    {
        let (page, _total) = self.utxo_paginated(h, 0, limit);
        proof {
            assert(take_up_to(ch_utxos(self, h@), limit as int) =~= ch_utxos(
                self,
                h@,
            ).subrange(
                0,
                if 0 + limit <= ch_utxos(self, h@).len() {
                    limit as int
                } else {
                    ch_utxos(self, h@).len() as int
                },
            ));
        }
        page
    }

    /// The number of chain UTXOs the scripthash has in all.
    pub fn utxo_total(&self, h: &Hash32) -> (r: usize)
        requires
            self.wf(),
        ensures
            r == ch_utxos(self, h@).len(),
    {
        match self.find_script(h) {
            None => 0,
            Some(i) => {
                proof {
                    self.script_index_unique(i as int, h@);
                }
                self.scripts[i].utxos.len()
            },
        }
    }

    /// Offset pagination: the UTXOs at positions
    /// `[start_index, start_index + limit)` of the storage order, and the
    /// total count.
    pub fn utxo_paginated(&self, h: &Hash32, start_index: usize, limit: usize) -> (r: (
        Vec<Utxo>,
        usize,
    ))
        requires
            self.wf(),
        ensures
            ({
                let all = ch_utxos(self, h@);
                let start = if start_index as int <= all.len() {
                    start_index as int
                } else {
                    all.len() as int
                };
                let end = if start_index as int + limit <= all.len() {
                    start_index as int + limit
                } else {
                    all.len() as int
                };
                &&& utxo_views(r.0@) == all.subrange(start, end)
                &&& r.1 == all.len()
            }),
            forall|i: int|
                0 <= i < r.0@.len() ==> (#[trigger] r.0@[i]).wf() && r.0@[i]@.confirmed is Some,
    {
        let ghost all = ch_utxos(self, h@);
        match self.find_script(h) {
            None => {
                let r: Vec<Utxo> = Vec::new();
                proof {
                    assert(utxo_views(r@) =~= all.subrange(0, 0));
                }
                (r, 0)
            },
            Some(i) => {
                proof {
                    self.script_index_unique(i as int, h@);
                }
                let src = &self.scripts[i].utxos;
                let total = src.len();
                let start = if start_index <= total {
                    start_index
                } else {
                    total
                };
                let end = if limit <= total - start {
                    start + limit
                } else {
                    total
                };
                let mut page: Vec<Utxo> = Vec::new();
                let mut j: usize = start;
                while j < end
                    invariant
                        start <= j <= end <= src@.len(),
                        page@.len() == j - start,
                        forall|k: int| 0 <= k < page@.len() ==> (#[trigger] page@[k])@ == src@[
                            start + k]@,
                        forall|k: int|
                            0 <= k < page@.len() ==> (#[trigger] page@[k]).wf()
                                && page@[k]@.confirmed is Some,
                        self.wf(),
                        0 <= (i as int) < self.scripts@.len(),
                        src == &self.scripts[i as int].utxos,
                    decreases end - j,
                {
                    proof {
                        assert(self.scripts@[i as int].utxos@[j as int].wf());
                    }
                    page.push(src[j].clone());
                    j = j + 1;
                }
                proof {
                    let startg = if start_index as int <= all.len() {
                        start_index as int
                    } else {
                        all.len() as int
                    };
                    let endg = if start_index as int + limit <= all.len() {
                        start_index as int + limit
                    } else {
                        all.len() as int
                    };
                    assert(utxo_views(page@) =~= all.subrange(startg, endg));
                }
                (page, total)
            },
        }
    }

    /// Cursor pagination: up to `limit` UTXOs strictly after the cursor in
    /// storage order, the total count, and the next cursor. A next cursor is
    /// handed out exactly when the page is full.
    #[verifier::rlimit(100)]
    pub fn utxo_with_cursor(&self, h: &Hash32, cursor: Option<&OutPoint>, limit: usize) -> (r: (
        Vec<Utxo>,
        usize,
        Option<OutPoint>,
    ))
        requires
            self.wf(),
        ensures
            ({
                let all = ch_utxos(self, h@);
                let cur = match cursor {
                    Some(c) => Some(c@),
                    None => None,
                };
                &&& utxo_views(r.0@) == ch_cursor_page(all, cur, limit as int)
                &&& r.1 == all.len()
                &&& (match r.2 {
                    Some(n) => ch_cursor_next(all, cur, limit as int) == Some(n@) && n.wf(),
                    None => ch_cursor_next(all, cur, limit as int) is None,
                })
            }),
            forall|i: int|
                0 <= i < r.0@.len() ==> (#[trigger] r.0@[i]).wf() && r.0@[i]@.confirmed is Some,
    {
        let ghost all = ch_utxos(self, h@);
        let ghost cur = match cursor {
            Some(c) => Some(c@),
            None => None,
        };
        match self.find_script(h) {
            None => {
                let page: Vec<Utxo> = Vec::new();
                proof {
                    if cur is Some {
                        lemma_first_gt(all, cur->Some_0);
                    }
                    assert(ch_cursor_start(all, cur) == 0);
                    assert(utxo_views(page@) =~= ch_cursor_page(all, cur, limit as int));
                }
                (page, 0, None)
            },
            Some(i) => {
                proof {
                    self.script_index_unique(i as int, h@);
                }
                let src = &self.scripts[i].utxos;
                let total = src.len();
                // Find the first position strictly after the cursor.
                let mut start: usize = 0;
                match cursor {
                    None => {},
                    Some(c) => {
                        let mut p: usize = 0;
                        while p < total && !c.lt_op(&src[p].outpoint())
                            invariant
                                p <= total,
                                total == src@.len(),
                                forall|j: int|
                                    0 <= j < p ==> !op_lt(c@, utxo_op((#[trigger] src@[j])@)),
                                self.wf(),
                                0 <= (i as int) < self.scripts@.len(),
                                src == &self.scripts[i as int].utxos,
                            decreases total - p,
                        {
                            p = p + 1;
                        }
                        start = p;
                        proof {
                            lemma_first_gt(utxo_views(src@), c@);
                            let f = first_gt(utxo_views(src@), c@);
                            assert forall|j: int| 0 <= j < start implies !op_lt(
                                c@,
                                utxo_op(utxo_views(src@)[j]),
                            ) by {
                                assert(!op_lt(c@, utxo_op(src@[j]@)));
                            }
                            if start < total {
                                assert(op_lt(c@, utxo_op(utxo_views(src@)[start as int])));
                            }
                            if f < start {
                                assert(!op_lt(c@, utxo_op(utxo_views(src@)[f])));
                                assert(false);
                            }
                            if start < f {
                                assert(false);
                            }
                            assert(start == f);
                        }
                    },
                }
                let end = if limit <= total - start {
                    start + limit
                } else {
                    total
                };
                let mut page: Vec<Utxo> = Vec::new();
                let mut j: usize = start;
                while j < end
                    invariant
                        start <= j <= end <= src@.len(),
                        page@.len() == j - start,
                        forall|k: int| 0 <= k < page@.len() ==> (#[trigger] page@[k])@ == src@[
                            start + k]@,
                        forall|k: int|
                            0 <= k < page@.len() ==> (#[trigger] page@[k]).wf()
                                && page@[k]@.confirmed is Some,
                        self.wf(),
                        0 <= (i as int) < self.scripts@.len(),
                        src == &self.scripts[i as int].utxos,
                    decreases end - j,
                {
                    proof {
                        assert(self.scripts@[i as int].utxos@[j as int].wf());
                    }
                    page.push(src[j].clone());
                    j = j + 1;
                }
                proof {
                    assert(utxo_views(page@) =~= ch_cursor_page(all, cur, limit as int));
                }
                let next = if limit > 0 && page.len() == limit {
                    let last = &page[page.len() - 1];
                    Some(last.outpoint())
                } else {
                    None
                };
                (page, total, next)
            },
        }
    }

    /// The first `limit` confirmed history rows for the scripthash.
    pub fn history_txids(&self, h: &Hash32, limit: usize) -> (r: Vec<HistoryEntry>)
        requires
            self.wf(),
        ensures
            r@.map_values(|e: HistoryEntry| e@) == take_up_to(ch_history(self, h@), limit as int),
            forall|i: int| 0 <= i < r@.len() ==> (#[trigger] r@[i]).wf(),
    {
        let ghost hist = ch_history(self, h@);
        match self.find_script(h) {
            None => {
                let r: Vec<HistoryEntry> = Vec::new();
                proof {
                    assert(r@.map_values(|e: HistoryEntry| e@) =~= take_up_to(
                        hist,
                        limit as int,
                    ));
                }
                r
            },
            Some(i) => {
                proof {
                    self.script_index_unique(i as int, h@);
                }
                let src = &self.scripts[i].history;
                let end = if limit <= src.len() {
                    limit
                } else {
                    src.len()
                };
                let mut r: Vec<HistoryEntry> = Vec::new();
                let mut j: usize = 0;
                while j < end
                    invariant
                        j <= end <= src@.len(),
                        r@.len() == j,
                        forall|k: int| 0 <= k < j ==> (#[trigger] r@[k])@ == src@[k]@,
                        forall|k: int| 0 <= k < j ==> (#[trigger] r@[k]).wf(),
                        self.wf(),
                        0 <= (i as int) < self.scripts@.len(),
                        src == &self.scripts[i as int].history,
                    decreases end - j,
                {
                    proof {
                        assert(self.scripts@[i as int].history@[j as int].wf());
                    }
                    r.push(HistoryEntry {
                        txid: src[j].txid.clone(),
                        block: src[j].block.clone(),
                    });
                    j = j + 1;
                }
                proof {
                    assert(r@.map_values(|e: HistoryEntry| e@) =~= take_up_to(
                        hist,
                        limit as int,
                    ));
                }
                r
            },
        }
    }

    /// Confirmed transactions of the scripthash after an optional cursor
    /// txid, up to `limit`, with their confirming blocks.
    #[verifier::rlimit(100)]
    pub fn history(&self, h: &Hash32, after: Option<&Hash32>, limit: usize) -> (r: Vec<(
        Transaction,
        BlockId,
    )>)
        requires
            self.wf(),
        ensures
            ({
                let tail = take_up_to(
                    after_txid(
                        ch_history(self, h@).map_values(|e: HistoryEntryV| e.txid),
                        match after {
                            Some(t) => Some(t@),
                            None => None,
                        },
                    ),
                    limit as int,
                );
                &&& r@.len() == tail.len()
                &&& forall|k: int|
                    0 <= k < r@.len() ==> (#[trigger] r@[k]).0@.txid == tail[k] && ch_has_tx(
                        self,
                        tail[k],
                    ) && r@[k].0@ == self.txs@[ch_tx_i(self, tail[k])].tx@ && r@[k].1@
                        == self.txs@[ch_tx_i(self, tail[k])].block@
            }),
            forall|k: int| 0 <= k < r@.len() ==> (#[trigger] r@[k]).0.wf() && r@[k].1.wf(),
    {
        let ghost histv = ch_history(self, h@).map_values(|e: HistoryEntryV| e.txid);
        let entry = self.find_script(h);
        match entry {
            None => {
                let r: Vec<(Transaction, BlockId)> = Vec::new();
                r
            },
            Some(i) => {
                proof {
                    self.script_index_unique(i as int, h@);
                }
                let src = &self.scripts[i].history;
                proof {
                    assert(histv.len() == src@.len());
                    assert(forall|k: int| 0 <= k < src@.len() ==> histv[k] == (
                    #[trigger] src@[k]).txid@);
                }
                // Position strictly after the cursor, or the start.
                let mut start: usize = 0;
                match after {
                    None => {},
                    Some(t) => {
                        let mut p: usize = 0;
                        let mut found = false;
                        while p < src.len() && !found
                            invariant
                                p <= src@.len(),
                                !found ==> forall|j: int| 0 <= j < p ==> histv[j] != t@,
                                found ==> 0 < p <= src@.len() && histv[p - 1] == t@ && forall|
                                    j: int,
                                |
                                    0 <= j < p - 1 ==> histv[j] != t@,
                                histv.len() == src@.len(),
                                forall|k: int| 0 <= k < src@.len() ==> histv[k] == (
                                #[trigger] src@[k]).txid@,
                                self.wf(),
                                0 <= (i as int) < self.scripts@.len(),
                                src == &self.scripts[i as int].history,
                            decreases src@.len() - p,
                        {
                            if src[p].txid.eq_hash(t) {
                                found = true;
                            }
                            p = p + 1;
                        }
                        if found {
                            start = p;
                            proof {
                                let w = choose|w: int| 0 <= w < histv.len() && histv[w] == t@;
                                assert forall|a: int, b: int|
                                    0 <= a < b < histv.len() implies histv[a] != histv[b] by {
                                    assert(self.scripts@[i as int].history@[a].txid@
                                        != self.scripts@[i as int].history@[b].txid@);
                                }
                                assert(w == p - 1);
                            }
                        } else {
                            start = 0;
                        }
                    },
                }
                let ghost tail0 = after_txid(
                    histv,
                    match after {
                        Some(t) => Some(t@),
                        None => None,
                    },
                );
                proof {
                    assert(tail0 =~= histv.skip(start as int));
                }
                let end = if limit <= src.len() - start {
                    start + limit
                } else {
                    src.len()
                };
                let mut r: Vec<(Transaction, BlockId)> = Vec::new();
                let mut j: usize = start;
                while j < end
                    invariant
                        start <= j <= end <= src@.len(),
                        r@.len() == j - start,
                        forall|k: int|
                            0 <= k < r@.len() ==> {
                                let t = histv[start + k];
                                &&& (#[trigger] r@[k]).0@.txid == t
                                &&& ch_has_tx(self, t)
                                &&& r@[k].0@ == self.txs@[ch_tx_i(self, t)].tx@
                                &&& r@[k].1@ == self.txs@[ch_tx_i(self, t)].block@
                                &&& r@[k].0.wf()
                                &&& r@[k].1.wf()
                            },
                        histv.len() == src@.len(),
                        forall|k: int| 0 <= k < src@.len() ==> histv[k] == (
                        #[trigger] src@[k]).txid@,
                        self.wf(),
                        0 <= (i as int) < self.scripts@.len(),
                        src == &self.scripts[i as int].history,
                    decreases end - j,
                {
                    proof {
                        assert(self.scripts@[i as int].history@[j as int].wf());
                        assert(ch_has_tx(self, self.scripts@[i as int].history@[j as int].txid@));
                    }
                    match self.find_tx(&src[j].txid) {
                        Some(ti) => {
                            proof {
                                self.tx_index_unique(ti as int, src@[j as int].txid@);
                                assert(self.txs@[ti as int].wf());
                            }
                            r.push((self.txs[ti].tx.clone_tx(), self.txs[ti].block.clone()));
                        },
                        None => {
                            proof {
                                assert(false);
                            }
                        },
                    }
                    j = j + 1;
                }
                proof {
                    let tail = take_up_to(tail0, limit as int);
                    assert(tail.len() == r@.len());
                    assert(forall|k: int| 0 <= k < tail.len() ==> tail[k] == histv[start + k]);
                }
                r
            },
        }
    }

    /// Txids of a block, if the hash is on the best chain.
    pub fn get_block_txids(&self, hash: &Hash32) -> (r: Option<Vec<Hash32>>)
        requires
            self.wf(),
        ensures
            r is Some <==> ch_has_block(self, hash@),
            match r {
                Some(v) => crate::types::hash_views(v@) == crate::types::hash_views(
                    self.blocks@[ch_block_i(self, hash@)].txids@,
                ) && forall|i: int| 0 <= i < v@.len() ==> (#[trigger] v@[i]).wf(),
                None => true,
            },
    {
        match self.block_by_hash(hash) {
            None => None,
            Some(b) => {
                let ghost bi = ch_block_i(self, hash@);
                let src = &b.txids;
                let mut v: Vec<Hash32> = Vec::new();
                let mut j: usize = 0;
                while j < src.len()
                    invariant
                        j <= src@.len(),
                        v@.len() == j,
                        forall|k: int| 0 <= k < j ==> (#[trigger] v@[k])@ == src@[k]@,
                        forall|k: int| 0 <= k < j ==> (#[trigger] v@[k]).wf(),
                        self.wf(),
                        0 <= bi < self.blocks@.len(),
                        src == &self.blocks[bi].txids,
                    decreases src@.len() - j,
                {
                    proof {
                        assert(self.blocks@[bi].wf());
                        assert(self.blocks@[bi].txids@[j as int].wf());
                    }
                    v.push(src[j].clone());
                    j = j + 1;
                }
                proof {
                    assert(crate::types::hash_views(v@) =~= crate::types::hash_views(
                        self.blocks@[bi].txids@,
                    ));
                }
                Some(v)
            },
        }
    }
}


/// Every chain UTXO is confirmed.
pub proof fn lemma_ch_utxos_confirmed(c: &ChainIndex, h: Seq<u8>)
    requires
        c.wf(),
    ensures
        forall|k: int|
            0 <= k < ch_utxos(c, h).len() ==> (#[trigger] ch_utxos(c, h)[k]).confirmed is Some,
{
    if ch_has_script(c, h) {
        let i = ch_script_i(c, h);
        assert forall|k: int|
            0 <= k < ch_utxos(c, h).len() implies (#[trigger] ch_utxos(c, h)[k]).confirmed
            is Some by {
            assert(c.scripts@[i].utxos@[k].wf() && c.scripts@[i].utxos@[k]@.confirmed is Some);
            assert(ch_utxos(c, h)[k] == c.scripts@[i].utxos@[k]@);
        }
    }
}


/// Does `a` start with `p`?
pub open spec fn starts_with(a: Seq<u8>, p: Seq<u8>) -> bool {
    p.len() <= a.len() && a.take(p.len() as int) == p
}

/// The indexed addresses whose UTF-8 form starts with a prefix, in index
/// order.
pub open spec fn prefix_matches(addrs: Seq<String>, p: Seq<u8>) -> Seq<Seq<char>>
    decreases addrs.len(),
{
    if addrs.len() == 0 {
        Seq::empty()
    } else if starts_with(vstd::utf8::encode_utf8(addrs[0]@), p) {
        seq![addrs[0]@] + prefix_matches(addrs.skip(1), p)
    } else {
        prefix_matches(addrs.skip(1), p)
    }
}

/// Check a byte prefix.
fn check_prefix(a: &Vec<u8>, p: &Vec<u8>) -> (r: bool)
    ensures
        r == starts_with(a@, p@),
{
    if p.len() > a.len() {
        return false;
    }
    let mut i: usize = 0;
    while i < p.len()
        invariant
            i <= p@.len() <= a@.len(),
            forall|j: int| 0 <= j < i ==> a@[j] == p@[j],
        decreases p@.len() - i,
    {
        if a[i] != p[i] {
            proof {
                assert(a@.take(p@.len() as int)[i as int] != p@[i as int]);
            }
            return false;
        }
        i = i + 1;
    }
    proof {
        assert(a@.take(p@.len() as int) =~= p@);
    }
    true
}

impl ChainIndex {
    /// The first `limit` indexed addresses starting with the prefix.
    pub fn address_search(&self, prefix: &str, limit: usize) -> (r: Vec<String>)
        ensures
            r@.map_values(|s: String| s@) == take_up_to(
                prefix_matches(self.addresses@, prefix.spec_bytes()),
                limit as int,
            ),
    {
        let p = prefix.as_bytes_vec();
        let ghost whole = prefix_matches(self.addresses@, prefix.spec_bytes());
        let mut r: Vec<String> = Vec::new();
        let mut i: usize = 0;
        proof {
            assert(self.addresses@.skip(0) =~= self.addresses@);
            assert(r@.map_values(|s: String| s@) =~= Seq::<Seq<char>>::empty());
        }
        while i < self.addresses.len() && r.len() < limit
            invariant
                i <= self.addresses@.len(),
                r@.len() <= limit,
                p@ == prefix.spec_bytes(),
                whole == prefix_matches(self.addresses@, prefix.spec_bytes()),
                take_up_to(whole, limit as int) == r@.map_values(|s: String| s@) + take_up_to(
                    prefix_matches(self.addresses@.skip(i as int), prefix.spec_bytes()),
                    limit - r@.len(),
                ),
                r@.len() == limit ==> take_up_to(whole, limit as int) =~= r@.map_values(
                    |s: String| s@,
                ),
            decreases self.addresses@.len() - i,
        {
            let ghost rest = self.addresses@.skip(i as int);
            proof {
                assert(rest[0] == self.addresses@[i as int]);
                assert(rest.skip(1) =~= self.addresses@.skip(i + 1));
            }
            let ab = self.addresses[i].as_str().as_bytes_vec();
            if check_prefix(&ab, &p) {
                let ghost prevlen = r@.len();
                r.push(self.addresses[i].clone());
                proof {
                    let pm = prefix_matches(rest, prefix.spec_bytes());
                    let pm1 = prefix_matches(rest.skip(1), prefix.spec_bytes());
                    assert(pm == seq![rest[0]@] + pm1);
                    assert(r@.map_values(|s: String| s@) =~= r@.map_values(
                        |s: String| s@,
                    ).take(prevlen as int).push(rest[0]@));
                    assert(take_up_to(whole, limit as int) =~= r@.map_values(|s: String| s@)
                        + take_up_to(pm1, limit - r@.len()));
                }
            } else {
                proof {
                    assert(prefix_matches(rest, prefix.spec_bytes()) == prefix_matches(
                        rest.skip(1),
                        prefix.spec_bytes(),
                    ));
                }
            }
            i = i + 1;
        }
        proof {
            if r@.len() < limit {
                assert(prefix_matches(self.addresses@.skip(i as int), prefix.spec_bytes())
                    =~= Seq::<Seq<char>>::empty());
                assert(take_up_to(whole, limit as int) =~= r@.map_values(|s: String| s@));
            }
        }
        r
    }
}


impl ChainIndex {
    /// Runtime form of well-formedness: lets an embedder establish the
    /// snapshot invariants before handing the index to the engine. A `true`
    /// answer guarantees well-formedness.
    #[verifier::rlimit(100)]
    pub fn check_wf(&self) -> (r: bool)
        ensures
            r ==> self.wf(),
    {
        // Blocks: heights consecutive from the base, links sound, hashes
        // distinct.
        let mut i: usize = 0;
        while i < self.blocks.len()
            invariant
                i <= self.blocks@.len(),
                forall|k: int|
                    0 <= k < i ==> {
                        let b = #[trigger] self.blocks@[k];
                        &&& b.wf()
                        &&& b.id.height == self.blocks@[0].id.height + k
                        &&& (k > 0 ==> b.prev_hash@ == self.blocks@[k - 1].id.hash@)
                    },
            decreases self.blocks@.len() - i,
        {
            let b = &self.blocks[i];
            if b.id.hash.bytes.len() != crate::types::HASH_LEN || b.prev_hash.bytes.len()
                != crate::types::HASH_LEN || b.merkle_root.bytes.len()
                != crate::types::HASH_LEN {
                return false;
            }
            let mut t: usize = 0;
            while t < b.txids.len()
                invariant
                    t <= b.txids@.len(),
                    0 <= (i as int) < self.blocks@.len(),
                    b == &self.blocks[i as int],
                    forall|k: int| 0 <= k < t ==> (#[trigger] b.txids@[k]).wf(),
                decreases b.txids@.len() - t,
            {
                if b.txids[t].bytes.len() != crate::types::HASH_LEN {
                    return false;
                }
                t = t + 1;
            }
            if i > 0 {
                proof {
                    assert(self.blocks@[i - 1].wf());
                    assert(self.blocks@[i - 1].id.height == self.blocks@[0].id.height + (i - 1));
                }
                let prev_height = self.blocks[i - 1].id.height;
                if prev_height == 0xffff_ffffu32 {
                    return false;
                }
                if b.id.height != prev_height + 1 {
                    return false;
                }
                if !b.prev_hash.eq_hash(&self.blocks[i - 1].id.hash) {
                    return false;
                }
            }
            i = i + 1;
        }
        let mut bhashes: Vec<Hash32> = Vec::new();
        let mut i2: usize = 0;
        while i2 < self.blocks.len()
            invariant
                i2 <= self.blocks@.len(),
                bhashes@.len() == i2,
                forall|k: int| 0 <= k < i2 ==> (#[trigger] bhashes@[k])@
                    == self.blocks@[k].id.hash@,
            decreases self.blocks@.len() - i2,
        {
            bhashes.push(self.blocks[i2].id.hash.clone());
            i2 = i2 + 1;
        }
        if !crate::types::check_hashes_distinct(&bhashes) {
            return false;
        }
        // Transactions: well-formed, distinct txids.
        let mut j: usize = 0;
        while j < self.txs.len()
            invariant
                j <= self.txs@.len(),
                forall|k: int| 0 <= k < j ==> (#[trigger] self.txs@[k]).wf(),
            decreases self.txs@.len() - j,
        {
            let rec = &self.txs[j];
            if rec.txid.bytes.len() != crate::types::HASH_LEN || !rec.tx.wf_check()
                || !rec.tx.txid.eq_hash(&rec.txid) || rec.block.hash.bytes.len()
                != crate::types::HASH_LEN {
                return false;
            }
            j = j + 1;
        }
        let mut txids: Vec<Hash32> = Vec::new();
        let mut j2: usize = 0;
        while j2 < self.txs.len()
            invariant
                j2 <= self.txs@.len(),
                txids@.len() == j2,
                forall|k: int| 0 <= k < j2 ==> (#[trigger] txids@[k])@ == self.txs@[k].txid@,
            decreases self.txs@.len() - j2,
        {
            txids.push(self.txs[j2].txid.clone());
            j2 = j2 + 1;
        }
        if !crate::types::check_hashes_distinct(&txids) {
            return false;
        }
        // Spends: well-formed, distinct outpoints.
        let mut w: usize = 0;
        while w < self.spends.len()
            invariant
                w <= self.spends@.len(),
                forall|k: int| 0 <= k < w ==> (#[trigger] self.spends@[k]).wf(),
            decreases self.spends@.len() - w,
        {
            if !crate::mempool::spend_record_check(&self.spends[w]) {
                return false;
            }
            w = w + 1;
        }
        let mut ops: Vec<OutPoint> = Vec::new();
        let mut w2: usize = 0;
        while w2 < self.spends.len()
            invariant
                w2 <= self.spends@.len(),
                ops@.len() == w2,
                forall|k: int| 0 <= k < w2 ==> (#[trigger] ops@[k])@ == self.spends@[k].outpoint@,
            decreases self.spends@.len() - w2,
        {
            ops.push(self.spends[w2].outpoint.clone());
            w2 = w2 + 1;
        }
        if !crate::types::check_ops_distinct(&ops) {
            return false;
        }
        // Script entries: sorted unspent lists, histories backed by stored
        // transactions.
        let mut s: usize = 0;
        while s < self.scripts.len()
            invariant
                s <= self.scripts@.len(),
                forall|k: int| 0 <= k < s ==> (#[trigger] self.scripts@[k]).scripthash.wf(),
                forall|k: int, u: int|
                    0 <= k < s && 0 <= u < self.scripts@[k].utxos@.len() ==> {
                        let x = #[trigger] self.scripts@[k].utxos@[u];
                        x.wf() && x@.confirmed is Some
                    },
                forall|k: int|
                    0 <= k < s ==> utxos_sorted((#[trigger] self.scripts@[k]).utxos@),
                forall|k: int, u: int|
                    0 <= k < s && 0 <= u < self.scripts@[k].history@.len() ==> {
                        let e = #[trigger] self.scripts@[k].history@[u];
                        e.wf() && ch_has_tx(self, e.txid@)
                    },
                forall|k: int, a: int, b: int|
                    0 <= k < s && 0 <= a < b < self.scripts@[k].history@.len() ==> (
                    #[trigger] self.scripts@[k].history@[a]).txid@ != (
                    #[trigger] self.scripts@[k].history@[b]).txid@,
            decreases self.scripts@.len() - s,
        {
            let entry = &self.scripts[s];
            if entry.scripthash.bytes.len() != crate::types::HASH_LEN {
                return false;
            }
            let mut u: usize = 0;
            while u < entry.utxos.len()
                invariant
                    u <= entry.utxos@.len(),
                    0 <= (s as int) < self.scripts@.len(),
                    entry == &self.scripts[s as int],
                    forall|k: int|
                        0 <= k < u ==> {
                            let x = #[trigger] entry.utxos@[k];
                            x.wf() && x@.confirmed is Some
                        },
                    forall|k: int|
                        0 <= k && k + 1 < u ==> op_lt(
                            utxo_op((#[trigger] entry.utxos@[k])@),
                            utxo_op(entry.utxos@[k + 1]@),
                        ),
                decreases entry.utxos@.len() - u,
            {
                let x = &entry.utxos[u];
                if !crate::mempool::utxo_check(x) {
                    return false;
                }
                match &x.confirmed {
                    Some(_) => {},
                    None => {
                        return false;
                    },
                }
                if u > 0 {
                    if !entry.utxos[u - 1].outpoint().lt_op(&x.outpoint()) {
                        return false;
                    }
                }
                u = u + 1;
            }
            let mut h: usize = 0;
            while h < entry.history.len()
                invariant
                    h <= entry.history@.len(),
                    0 <= (s as int) < self.scripts@.len(),
                    entry == &self.scripts[s as int],
                    forall|k: int|
                        0 <= k < h ==> {
                            let e = #[trigger] entry.history@[k];
                            e.wf() && ch_has_tx(self, e.txid@)
                        },
                decreases entry.history@.len() - h,
            {
                let e = &entry.history[h];
                if e.txid.bytes.len() != crate::types::HASH_LEN || e.block.hash.bytes.len()
                    != crate::types::HASH_LEN {
                    return false;
                }
                match self.find_tx(&e.txid) {
                    Some(_) => {},
                    None => {
                        return false;
                    },
                }
                proof {
                    assert(ch_has_tx(self, entry.history@[h as int].txid@));
                }
                h = h + 1;
            }
            let mut hids: Vec<Hash32> = Vec::new();
            let mut h2: usize = 0;
            while h2 < entry.history.len()
                invariant
                    h2 <= entry.history@.len(),
                    hids@.len() == h2,
                    0 <= (s as int) < self.scripts@.len(),
                    entry == &self.scripts[s as int],
                    forall|k: int| 0 <= k < h2 ==> (#[trigger] hids@[k])@
                        == entry.history@[k].txid@,
                decreases entry.history@.len() - h2,
            {
                hids.push(entry.history[h2].txid.clone());
                h2 = h2 + 1;
            }
            if !crate::types::check_hashes_distinct(&hids) {
                return false;
            }
            proof {
                assert forall|a: int, b: int|
                    0 <= a < b < entry.history@.len() implies (
                #[trigger] self.scripts@[s as int].history@[a]).txid@ != (
                #[trigger] self.scripts@[s as int].history@[b]).txid@ by {
                    assert(crate::types::hash_views(hids@)[a] != crate::types::hash_views(
                        hids@,
                    )[b]);
                }
            }
            s = s + 1;
        }
        let mut keys: Vec<Hash32> = Vec::new();
        let mut s2: usize = 0;
        while s2 < self.scripts.len()
            invariant
                s2 <= self.scripts@.len(),
                keys@.len() == s2,
                forall|k: int| 0 <= k < s2 ==> (#[trigger] keys@[k])@
                    == self.scripts@[k].scripthash@,
            decreases self.scripts@.len() - s2,
        {
            keys.push(self.scripts[s2].scripthash.clone());
            s2 = s2 + 1;
        }
        if !crate::types::check_hashes_distinct(&keys) {
            return false;
        }
        proof {
            assert forall|a: int, b: int|
                0 <= a < b < self.blocks@.len() implies (#[trigger] self.blocks@[a]).id.hash@ != (
            #[trigger] self.blocks@[b]).id.hash@ by {
                assert(crate::types::hash_views(bhashes@)[a] != crate::types::hash_views(
                    bhashes@,
                )[b]);
            }
            assert forall|a: int, b: int|
                0 <= a < b < self.txs@.len() implies (#[trigger] self.txs@[a]).txid@ != (
            #[trigger] self.txs@[b]).txid@ by {
                assert(crate::types::hash_views(txids@)[a] != crate::types::hash_views(
                    txids@,
                )[b]);
            }
            assert forall|a: int, b: int|
                0 <= a < b < self.spends@.len() implies (#[trigger] self.spends@[a]).outpoint@
                != (#[trigger] self.spends@[b]).outpoint@ by {
                assert(crate::types::op_views(ops@)[a] != crate::types::op_views(ops@)[b]);
            }
            assert forall|a: int, b: int|
                0 <= a < b < self.scripts@.len() implies (
            #[trigger] self.scripts@[a]).scripthash@ != (
            #[trigger] self.scripts@[b]).scripthash@ by {
                assert(crate::types::hash_views(keys@)[a] != crate::types::hash_views(keys@)[b]);
            }
        }
        true
    }
}

} // verus!
