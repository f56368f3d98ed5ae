//! The query engine: merges the chain index and the mempool snapshot into
//! one queryable surface, and owns the fee caches.

use vstd::prelude::*;

use crate::chain::{
    ch_cursor_next, ch_cursor_page, ch_has_tx, ch_spend_of, ch_spent, ch_stats, ch_tx_i,
    ch_utxos, first_gt, lemma_first_gt, ChainIndex, HistoryEntry,
};
use crate::fees::{cache_fresh, FeeCache};
use crate::mempool::{
    mp_has_tx, mp_spend_of, mp_spent, mp_stats, mp_tx_i, mp_utxos, MempoolTx, MempoolView,
};
use crate::types::{
    op_lt, take_up_to, utxo_op, utxo_views, BlockId, Hash32, OutPoint, OutPointV, ScriptStats,
    TransactionStatus, Utxo, UtxoV,
};

verus! {

/// The network the indexer serves.
#[derive(Clone, Copy, PartialEq, Eq, Structural)]
pub enum Network {
    Bitcoin,
    Testnet,
    Regtest,
    Signet,
}

impl Network {
    pub fn is_regtest(&self) -> (r: bool)
        ensures
            r == (*self is Regtest),
    {
        match self {
            Network::Regtest => true,
            _ => false,
        }
    }
}

/// What the engine is configured with.
pub struct Config {
    pub network_type: Network,
    pub utxos_limit: usize,
    pub cors: Option<String>,
    pub address_search: bool,
}

/// The query engine: the two snapshots it merges, its configuration, and
/// the fee caches it owns.
pub struct Query {
    pub chain: ChainIndex,
    pub mempool: MempoolView,
    pub config: Config,
    pub fees: FeeCache,
}

/// A UTXO sequence with the mempool-spent entries dropped.
pub open spec fn drop_spent(s: Seq<UtxoV>, m: &MempoolView) -> Seq<UtxoV>
    decreases s.len(),
{
    if s.len() == 0 {
        Seq::empty()
    } else if mp_spent(m, utxo_op(s[0])) {
        drop_spent(s.skip(1), m)
    } else {
        seq![s[0]] + drop_spent(s.skip(1), m)
    }
}

/// What `drop_spent` keeps: only unspent entries, all of them, in order.
pub proof fn lemma_drop_spent_elems(s: Seq<UtxoV>, m: &MempoolView)
    ensures
        drop_spent(s, m).len() <= s.len(),
        forall|k: int|
            0 <= k < drop_spent(s, m).len() ==> !mp_spent(m, utxo_op(#[trigger] drop_spent(s, m)[k]))
                && s.contains(drop_spent(s, m)[k]),
    decreases s.len(),
{
    if s.len() == 0 {
    } else {
        lemma_drop_spent_elems(s.skip(1), m);
        let d = drop_spent(s, m);
        let dt = drop_spent(s.skip(1), m);
        assert forall|k: int|
            0 <= k < d.len() implies !mp_spent(m, utxo_op(#[trigger] d[k])) && s.contains(
            d[k],
        ) by {
            if mp_spent(m, utxo_op(s[0])) {
                assert(d[k] == dt[k]);
                assert(s.skip(1).contains(dt[k]));
                let j = choose|j: int| 0 <= j < s.skip(1).len() && s.skip(1)[j] == dt[k];
                assert(s[j + 1] == dt[k]);
            } else {
                if k == 0 {
                    assert(d[0] == s[0]);
                } else {
                    assert(d[k] == dt[k - 1]);
                    assert(s.skip(1).contains(dt[k - 1]));
                    let j = choose|j: int| 0 <= j < s.skip(1).len() && s.skip(1)[j] == dt[k - 1];
                    assert(s[j + 1] == dt[k - 1]);
                }
            }
        }
    }
}

/// Drop the mempool-spent entries of a UTXO page.
pub fn retain_unspent(m: &MempoolView, src: Vec<Utxo>) -> (r: Vec<Utxo>)
    ensures
        utxo_views(r@) == drop_spent(utxo_views(src@), m),
        forall|k: int|
            0 <= k < r@.len() ==> exists|j: int|
                0 <= j < src@.len() && (#[trigger] r@[k])@ == src@[j]@ && r@[k].wf() == src@[
                    j].wf(),
    decreases src@.len(),
{
    let ghost whole = utxo_views(src@);
    let mut r: Vec<Utxo> = Vec::new();
    let mut i: usize = 0;
    proof {
        assert(whole.skip(0) =~= whole);
    }
    while i < src.len()
        invariant
            i <= src@.len(),
            whole == utxo_views(src@),
            drop_spent(whole, m) == utxo_views(r@) + drop_spent(whole.skip(i as int), m),
            forall|k: int|
                0 <= k < r@.len() ==> exists|j: int|
                    0 <= j < src@.len() && (#[trigger] r@[k])@ == src@[j]@ && r@[k].wf() == src@[
                        j].wf(),
        decreases src@.len() - i,
    {
        let ghost rest = whole.skip(i as int);
        proof {
            assert(rest[0] == whole[i as int]);
            assert(rest.skip(1) =~= whole.skip(i + 1));
        }
        let op = src[i].outpoint();
        if !m.has_spend(&op) {
            let u = src[i].clone();
            proof {
                assert(u@ == src@[i as int]@ && u.wf() == src@[i as int].wf());
            }
            r.push(u);
            proof {
                assert(utxo_views(r@) =~= utxo_views(r@.drop_last()) + seq![whole[i as int]]);
                assert(utxo_views(r@.drop_last()) + (seq![rest[0]] + drop_spent(rest.skip(1), m))
                    =~= utxo_views(r@) + drop_spent(whole.skip(i + 1), m));
            }
        }
        i = i + 1;
    }
    proof {
        assert(drop_spent(whole.skip(i as int), m) =~= Seq::<UtxoV>::empty());
        assert(utxo_views(r@) + Seq::<UtxoV>::empty() =~= utxo_views(r@));
    }
    r
}

/// Insert into a sorted sequence, keeping order.
pub open spec fn insert_sorted(u: UtxoV, s: Seq<UtxoV>) -> Seq<UtxoV>
    decreases s.len(),
{
    if s.len() == 0 {
        seq![u]
    } else if op_lt(utxo_op(u), utxo_op(s[0])) {
        seq![u] + s
    } else {
        seq![s[0]] + insert_sorted(u, s.skip(1))
    }
}

/// Sort by (txid, vout) ascending: insertion sort at the specification
/// level; ties keep the later element later.
pub open spec fn sort_utxos(s: Seq<UtxoV>) -> Seq<UtxoV>
    decreases s.len(),
{
    if s.len() == 0 {
        s
    } else {
        insert_sorted(s[0], sort_utxos(s.skip(1)))
    }
}

/// Ascending by (txid, vout): no element is below its predecessor.
pub open spec fn utxos_ascending(s: Seq<UtxoV>) -> bool {
    forall|i: int|
        0 <= i && i + 1 < s.len() ==> !op_lt(utxo_op(s[i + 1]), utxo_op(#[trigger] s[i]))
}

/// Ascending order holds pairwise, not only between neighbours.
pub proof fn lemma_ascending_pair(s: Seq<UtxoV>, a: int, b: int)
    requires
        utxos_ascending(s),
        0 <= a < b < s.len(),
    ensures
        !op_lt(utxo_op(s[b]), utxo_op(s[a])),
    decreases b - a,
{
    if a + 1 == b {
    } else {
        lemma_ascending_pair(s, a, b - 1);
        let x = utxo_op(s[a]);
        let y = utxo_op(s[b - 1]);
        let z = utxo_op(s[b]);
        if op_lt(z, x) {
            crate::types::lemma_op_total(x, y);
            if x == y {
            } else {
                crate::types::lemma_op_trans(z, x, y);
            }
            crate::types::lemma_op_asym(z, y);
        }
    }
}

proof fn lemma_insert_sorted_len(u: UtxoV, s: Seq<UtxoV>)
    ensures
        insert_sorted(u, s).len() == s.len() + 1,
    decreases s.len(),
{
    if s.len() != 0 && !op_lt(utxo_op(u), utxo_op(s[0])) {
        lemma_insert_sorted_len(u, s.skip(1));
    }
}

proof fn lemma_insert_sorted_ascending(u: UtxoV, s: Seq<UtxoV>)
    requires
        utxos_ascending(s),
    ensures
        utxos_ascending(insert_sorted(u, s)),
        insert_sorted(u, s).len() == s.len() + 1,
        forall|k: int|
            0 <= k < insert_sorted(u, s).len() ==> (#[trigger] insert_sorted(u, s)[k] == u || s.contains(
                insert_sorted(u, s)[k],
            )),
    decreases s.len(),
{
    lemma_insert_sorted_len(u, s);
    let r = insert_sorted(u, s);
    if s.len() == 0 {
    } else if op_lt(utxo_op(u), utxo_op(s[0])) {
        assert(r == seq![u] + s);
        assert((seq![u] + s).len() == s.len() + 1);
        assert forall|i: int| 0 <= i && i + 1 < r.len() implies !op_lt(
            utxo_op(r[i + 1]),
            utxo_op(#[trigger] r[i]),
        ) by {
            if i == 0 {
                assert((seq![u] + s)[0] == u && (seq![u] + s)[1] == s[0]);
                crate::types::lemma_op_asym(utxo_op(u), utxo_op(s[0]));
            } else {
                assert((seq![u] + s)[i] == s[i - 1]);
                assert((seq![u] + s)[i + 1] == s[i]);
                assert(r[i] == s[i - 1] && r[i + 1] == s[i]);
            }
        }
        assert forall|k: int| 0 <= k < r.len() implies (#[trigger] r[k] == u || s.contains(
            r[k],
        )) by {
            if k > 0 {
                assert((seq![u] + s)[k] == s[k - 1]);
                assert(r[k] == s[k - 1]);
            }
        }
    } else {
        assert(utxos_ascending(s.skip(1))) by {
            assert forall|i: int| 0 <= i && i + 1 < s.skip(1).len() implies !op_lt(
                utxo_op(s.skip(1)[i + 1]),
                utxo_op(#[trigger] s.skip(1)[i]),
            ) by {
                assert(s.skip(1)[i] == s[i + 1] && s.skip(1)[i + 1] == s[i + 2]);
            }
        }
        lemma_insert_sorted_ascending(u, s.skip(1));
        let rt = insert_sorted(u, s.skip(1));
        assert(r == seq![s[0]] + rt);
        assert((seq![s[0]] + rt).len() == rt.len() + 1);
        assert forall|i: int| 0 <= i && i + 1 < r.len() implies !op_lt(
            utxo_op(r[i + 1]),
            utxo_op(#[trigger] r[i]),
        ) by {
            if i == 0 {
                assert((seq![s[0]] + rt)[0] == s[0] && (seq![s[0]] + rt)[1] == rt[0]);
                assert(r[0] == s[0] && r[1] == rt[0]);
                if rt[0] == u {
                    crate::types::lemma_op_asym(utxo_op(u), utxo_op(s[0]));
                } else {
                    assert(s.skip(1).contains(rt[0]));
                    let j = choose|j: int| 0 <= j < s.skip(1).len() && s.skip(1)[j] == rt[0];
                    if j == 0 {
                        assert(rt[0] == s[1]);
                        assert(!op_lt(utxo_op(s[1]), utxo_op(s[0])));
                    } else {
                        assert(rt[0] == s[j + 1]);
                        lemma_ascending_pair(s, 0, j + 1);
                    }
                }
            } else {
                assert((seq![s[0]] + rt)[i] == rt[i - 1]);
                assert((seq![s[0]] + rt)[i + 1] == rt[i]);
                assert(r[i] == rt[i - 1] && r[i + 1] == rt[i]);
            }
        }
        assert forall|k: int| 0 <= k < r.len() implies (#[trigger] r[k] == u || s.contains(
            r[k],
        )) by {
            if k > 0 {
                assert((seq![s[0]] + rt)[k] == rt[k - 1]);
                assert(r[k] == rt[k - 1]);
                if rt[k - 1] == u {
                } else {
                    assert(s.skip(1).contains(rt[k - 1]));
                    let j = choose|j: int| 0 <= j < s.skip(1).len() && s.skip(1)[j] == rt[k - 1];
                    assert(s[j + 1] == rt[k - 1]);
                }
            }
        }
    }
}

/// The sorted form is ascending and carries the same elements.
pub proof fn lemma_sort_utxos_ascending(s: Seq<UtxoV>)
    ensures
        utxos_ascending(sort_utxos(s)),
        sort_utxos(s).len() == s.len(),
        forall|k: int|
            0 <= k < sort_utxos(s).len() ==> s.contains(#[trigger] sort_utxos(s)[k]),
    decreases s.len(),
{
    if s.len() == 0 {
    } else {
        lemma_sort_utxos_ascending(s.skip(1));
        lemma_insert_sorted_ascending(s[0], sort_utxos(s.skip(1)));
        assert forall|k: int| 0 <= k < sort_utxos(s).len() implies s.contains(
            #[trigger] sort_utxos(s)[k],
        ) by {
            let x = sort_utxos(s)[k];
            if x == s[0] {
            } else {
                assert(sort_utxos(s.skip(1)).contains(x) || x == s[0]);
                if sort_utxos(s.skip(1)).contains(x) {
                    let j = choose|j: int|
                        0 <= j < sort_utxos(s.skip(1)).len() && sort_utxos(s.skip(1))[j] == x;
                    assert(s.skip(1).contains(x));
                    let w = choose|w: int| 0 <= w < s.skip(1).len() && s.skip(1)[w] == x;
                    assert(s[w + 1] == x);
                }
            }
        }
    }
}

/// Insert a UTXO before the first strictly-greater element of a sorted
/// vector.
fn insert_by_outpoint(v: &mut Vec<Utxo>, u: Utxo)
    ensures
        utxo_views(final(v)@) == insert_sorted(u@, utxo_views(old(v)@)),
{
    let ghost s = utxo_views(old(v)@);
    let n = v.len();
    let mut p: usize = 0;
    while p < n && !u.outpoint().lt_op(&v[p].outpoint())
        invariant
            p <= n,
            n == v@.len(),
            v@ == old(v)@,
            forall|j: int| 0 <= j < p ==> !op_lt(utxo_op(u@), utxo_op((#[trigger] v@[j])@)),
        decreases n - p,
    {
        p = p + 1;
    }
    proof {
        lemma_insert_at(u@, s, p as int);
    }
    v.insert(p, u);
    proof {
        assert(utxo_views(v@) =~= s.insert(p as int, u@));
    }
}

/// Inserting at the first strictly-greater position is `insert_sorted`.
proof fn lemma_insert_at(u: UtxoV, s: Seq<UtxoV>, p: int)
    requires
        0 <= p <= s.len(),
        forall|j: int| 0 <= j < p ==> !op_lt(utxo_op(u), utxo_op(#[trigger] s[j])),
        p < s.len() ==> op_lt(utxo_op(u), utxo_op(s[p])),
    ensures
        insert_sorted(u, s) == s.insert(p, u),
    decreases s.len(),
{
    if s.len() == 0 {
        assert(insert_sorted(u, s) =~= s.insert(0, u));
    } else if p == 0 {
        assert(insert_sorted(u, s) =~= s.insert(0, u));
    } else {
        assert(!op_lt(utxo_op(u), utxo_op(s[0])));
        assert forall|j: int| 0 <= j < p - 1 implies !op_lt(
            utxo_op(u),
            utxo_op(#[trigger] s.skip(1)[j]),
        ) by {
            assert(s.skip(1)[j] == s[j + 1]);
        }
        if p - 1 < s.skip(1).len() {
            assert(s.skip(1)[p - 1] == s[p]);
        }
        lemma_insert_at(u, s.skip(1), p - 1);
        assert(seq![s[0]] + s.skip(1).insert(p - 1, u) =~= s.insert(p, u));
    }
}

/// Sort a UTXO list by (txid, vout) ascending.
pub fn sort_by_outpoint(src: Vec<Utxo>) -> (r: Vec<Utxo>)
    ensures
        utxo_views(r@) == sort_utxos(utxo_views(src@)),
{
    let ghost whole = utxo_views(src@);
    let mut r: Vec<Utxo> = Vec::new();
    let mut i: usize = src.len();
    proof {
        assert(whole.skip(i as int) =~= Seq::<UtxoV>::empty());
    }
    while i > 0
        invariant
            i <= src@.len(),
            whole == utxo_views(src@),
            utxo_views(r@) == sort_utxos(whole.skip(i as int)),
        decreases i,
    {
        i = i - 1;
        let ghost rest = whole.skip(i as int);
        proof {
            assert(rest[0] == whole[i as int]);
            assert(rest.skip(1) =~= whole.skip(i + 1));
        }
        let u = src[i].clone();
        insert_by_outpoint(&mut r, u);
    }
    proof {
        assert(whole.skip(0) =~= whole);
    }
    r
}


/// The merged UTXO set of a scripthash under one pair of snapshots: chain
/// UTXOs that the mempool does not spend, then the mempool's own UTXOs.
pub open spec fn merged_utxos(q: &Query, h: Seq<u8>) -> Seq<UtxoV> {
    drop_spent(ch_utxos(&q.chain, h), &q.mempool) + mp_utxos(&q.mempool, h)
}

/// Result of one cursor-pagination step of the merged view.
pub struct CursorPageV {
    pub page: Seq<UtxoV>,
    pub next: Option<OutPointV>,
}

/// One step of cursor pagination over the merged view, exactly as served:
/// a chain page with mempool-spent entries dropped; once the chain hands
/// out no next cursor and the page has room, sorted mempool UTXOs follow,
/// with a mempool cursor when more remain.
pub open spec fn cursor_result(
    c: &ChainIndex,
    m: &MempoolView,
    h: Seq<u8>,
    cursor: Option<OutPointV>,
    limit: int,
) -> CursorPageV {
    let all = ch_utxos(c, h);
    let cp = drop_spent(ch_cursor_page(all, cursor, limit), m);
    let cnext = ch_cursor_next(all, cursor, limit);
    if cp.len() < limit && cnext is None {
        let sorted = sort_utxos(mp_utxos(m, h));
        let mstart = match cursor {
            Some(cv) => first_gt(sorted, cv),
            None => if cp.len() > 0 {
                sorted.len() as int
            } else {
                0
            },
        };
        let remaining = limit - cp.len();
        if mstart < sorted.len() {
            if remaining < sorted.len() - mstart {
                CursorPageV {
                    page: cp + sorted.subrange(mstart, mstart + remaining),
                    next: Some(utxo_op(sorted[mstart + remaining - 1])),
                }
            } else {
                CursorPageV { page: cp + sorted.subrange(mstart, sorted.len() as int), next: None }
            }
        } else {
            CursorPageV { page: cp, next: None }
        }
    } else {
        CursorPageV { page: cp, next: cnext }
    }
}

/// One step of offset pagination over the merged view.
pub open spec fn offset_result(
    c: &ChainIndex,
    m: &MempoolView,
    h: Seq<u8>,
    start_index: int,
    limit: int,
) -> Seq<UtxoV> {
    let all = ch_utxos(c, h);
    let s = if start_index <= all.len() {
        start_index
    } else {
        all.len() as int
    };
    let e = if start_index + limit <= all.len() {
        start_index + limit
    } else {
        all.len() as int
    };
    let cp = drop_spent(all.subrange(s, e), m);
    if cp.len() < limit {
        cp + take_up_to(mp_utxos(m, h), limit - cp.len())
    } else {
        cp
    }
}

/// Where the confirmed input spending an outpoint is found: the chain
/// first, the mempool second.
pub open spec fn spend_status(q: &Query, op: OutPointV) -> Option<crate::types::SpendingInputV> {
    if ch_spent(&q.chain, op) {
        Some(ch_spend_of(&q.chain, op)@)
    } else if mp_spent(&q.mempool, op) {
        Some(mp_spend_of(&q.mempool, op)@)
    } else {
        None
    }
}

/// The output an outpoint refers to: the mempool store first, the chain
/// store second.
pub open spec fn txo_of(q: &Query, op: OutPointV) -> Option<crate::tx::TxOutV> {
    if mp_has_tx(&q.mempool, op.txid) {
        let t = q.mempool.txs@[mp_tx_i(&q.mempool, op.txid)].tx@;
        if op.vout < t.output.len() {
            Some(t.output[op.vout as int])
        } else {
            None
        }
    } else if ch_has_tx(&q.chain, op.txid) {
        let t = q.chain.txs@[ch_tx_i(&q.chain, op.txid)].tx@;
        if op.vout < t.output.len() {
            Some(t.output[op.vout as int])
        } else {
            None
        }
    } else {
        None
    }
}

impl Query {
    /// Both snapshots are well-formed.
    pub open spec fn wf(&self) -> bool {
        self.chain.wf() && self.mempool.wf()
    }

    pub fn new(chain: ChainIndex, mempool: MempoolView, config: Config) -> (r: Query)
        ensures
            r.chain == chain,
            r.mempool == mempool,
            r.config == config,
            r.fees.map@.len() == 0,
            r.fees.stamp is None,
            r.fees.relayfee is None,
    {
        Query { chain, mempool, config, fees: FeeCache::empty() }
    }

    pub fn chain(&self) -> (r: &ChainIndex)
        ensures
            r == &self.chain,
    {
        &self.chain
    }

    pub fn config(&self) -> (r: &Config)
        ensures
            r == &self.config,
    {
        &self.config
    }

    pub fn network(&self) -> (r: Network)
        ensures
            r == self.config.network_type,
    {
        self.config.network_type
    }

    pub fn mempool(&self) -> (r: &MempoolView)
        ensures
            r == &self.mempool,
    {
        &self.mempool
    }

    /// The merged UTXO view: up to the configured limit of chain UTXOs,
    /// those spent in the mempool snapshot dropped, then the mempool's own
    /// UTXOs. No returned outpoint is spent in the snapshot.
    pub fn utxo(&self, scripthash: &Hash32) -> (r: Vec<Utxo>)
        requires
            self.wf(),
        ensures
            utxo_views(r@) == drop_spent(
                take_up_to(ch_utxos(&self.chain, scripthash@), self.config.utxos_limit as int),
                &self.mempool,
            ) + mp_utxos(&self.mempool, scripthash@),
            forall|i: int|
                0 <= i < r@.len() ==> !mp_spent(&self.mempool, utxo_op((#[trigger] r@[i])@)),
            forall|i: int| 0 <= i < r@.len() ==> (#[trigger] r@[i]).wf(),
    {
        let ghost taken = take_up_to(
            ch_utxos(&self.chain, scripthash@),
            self.config.utxos_limit as int,
        );
        let chain_part = self.chain.utxo(scripthash, self.config.utxos_limit);
        let ghost cpv = chain_part@;
        let mut r = retain_unspent(&self.mempool, chain_part);
        let ghost kept = drop_spent(taken, &self.mempool);
        proof {
            lemma_drop_spent_elems(taken, &self.mempool);
            assert(utxo_views(r@) == kept);
            assert forall|k: int| 0 <= k < r@.len() implies !mp_spent(
                &self.mempool,
                utxo_op((#[trigger] r@[k])@),
            ) && r@[k].wf() && r@[k]@ == kept[k] by {
                assert(utxo_views(r@)[k] == r@[k]@);
                let j = choose|j: int|
                    0 <= j < cpv.len() && (#[trigger] r@[k])@ == cpv[j]@ && r@[k].wf() == cpv[
                        j].wf();
                assert(cpv[j].wf());
            }
        }
        let mp = self.mempool.utxo(scripthash);
        let mut i: usize = 0;
        while i < mp.len()
            invariant
                i <= mp@.len(),
                r@.len() == kept.len() + i,
                forall|k: int| 0 <= k < kept.len() ==> (#[trigger] r@[k])@ == kept[k],
                forall|k: int| 0 <= k < i ==> (#[trigger] r@[kept.len() + k])@ == mp@[k]@,
                forall|k: int|
                    0 <= k < r@.len() ==> !mp_spent(&self.mempool, utxo_op((#[trigger] r@[k])@))
                        && r@[k].wf(),
                forall|k: int|
                    0 <= k < mp@.len() ==> (#[trigger] mp@[k]).wf() && !mp_spent(
                        &self.mempool,
                        utxo_op(mp@[k]@),
                    ) && mp@[k]@ == mp_utxos(&self.mempool, scripthash@)[k],
                mp@.len() == mp_utxos(&self.mempool, scripthash@).len(),
            decreases mp@.len() - i,
        {
            r.push(mp[i].clone());
            i = i + 1;
        }
        proof {
            let goal = kept + mp_utxos(&self.mempool, scripthash@);
            assert forall|k: int|
                0 <= k < utxo_views(r@).len() implies utxo_views(r@)[k] == goal[k] by {
                assert(utxo_views(r@)[k] == r@[k]@);
                if k >= kept.len() {
                    let k2 = k - kept.len();
                    assert(r@[kept.len() + k2]@ == mp@[k2]@);
                }
            }
            assert(utxo_views(r@) =~= goal);
        }
        r
    }

    /// Offset pagination over the merged view, with the total count. The
    /// total does not subtract mempool-spent chain UTXOs: a documented
    /// upper bound.
    pub fn utxo_paginated(&self, scripthash: &Hash32, start_index: usize, limit: usize) -> (r: (
        Vec<Utxo>,
        usize,
    ))
        requires
            self.wf(),
        ensures
            utxo_views(r.0@) == offset_result(
                &self.chain,
                &self.mempool,
                scripthash@,
                start_index as int,
                limit as int,
            ),
            r.1 == if ch_utxos(&self.chain, scripthash@).len() + mp_utxos(
                &self.mempool,
                scripthash@,
            ).len() <= usize::MAX {
                (ch_utxos(&self.chain, scripthash@).len() + mp_utxos(
                    &self.mempool,
                    scripthash@,
                ).len()) as int
            } else {
                usize::MAX as int
            },
            forall|i: int|
                0 <= i < r.0@.len() ==> !mp_spent(&self.mempool, utxo_op((#[trigger] r.0@[i])@)),
            forall|i: int| 0 <= i < r.0@.len() ==> (#[trigger] r.0@[i]).wf(),
    {
        let ghost all = ch_utxos(&self.chain, scripthash@);
        let (chain_page, total_chain) = self.chain.utxo_paginated(scripthash, start_index, limit);
        let ghost cpv = chain_page@;
        let ghost cpseq = utxo_views(chain_page@);
        let mut page = retain_unspent(&self.mempool, chain_page);
        let ghost kept = drop_spent(cpseq, &self.mempool);
        proof {
            lemma_drop_spent_elems(cpseq, &self.mempool);
            assert(utxo_views(page@) == kept);
            assert forall|k: int| 0 <= k < page@.len() implies !mp_spent(
                &self.mempool,
                utxo_op((#[trigger] page@[k])@),
            ) && page@[k].wf() && page@[k]@ == kept[k] by {
                assert(utxo_views(page@)[k] == page@[k]@);
                let j = choose|j: int|
                    0 <= j < cpv.len() && (#[trigger] page@[k])@ == cpv[j]@ && page@[k].wf()
                        == cpv[j].wf();
                assert(cpv[j].wf());
            }
        }
        let mp = self.mempool.utxo(scripthash);
        let total = if total_chain <= usize::MAX - mp.len() {
            total_chain + mp.len()
        } else {
            usize::MAX
        };
        if page.len() < limit {
            let remaining = limit - page.len();
            let end = if remaining <= mp.len() {
                remaining
            } else {
                mp.len()
            };
            let mut i: usize = 0;
            while i < end
                invariant
                    i <= end <= mp@.len(),
                    page@.len() == kept.len() + i,
                    forall|k: int| 0 <= k < kept.len() ==> (#[trigger] page@[k])@ == kept[k],
                    forall|k: int| 0 <= k < i ==> (#[trigger] page@[kept.len() + k])@ == mp@[k]@,
                    forall|k: int|
                        0 <= k < page@.len() ==> !mp_spent(
                            &self.mempool,
                            utxo_op((#[trigger] page@[k])@),
                        ) && page@[k].wf(),
                    forall|k: int|
                        0 <= k < mp@.len() ==> (#[trigger] mp@[k]).wf() && !mp_spent(
                            &self.mempool,
                            utxo_op(mp@[k]@),
                        ) && mp@[k]@ == mp_utxos(&self.mempool, scripthash@)[k],
                    mp@.len() == mp_utxos(&self.mempool, scripthash@).len(),
                decreases end - i,
            {
                page.push(mp[i].clone());
                i = i + 1;
            }
            proof {
                let goal = kept + take_up_to(
                    mp_utxos(&self.mempool, scripthash@),
                    limit - kept.len(),
                );
                assert(goal.len() == utxo_views(page@).len());
                assert forall|k: int|
                    0 <= k < utxo_views(page@).len() implies utxo_views(page@)[k] == goal[k] by {
                    assert(utxo_views(page@)[k] == page@[k]@);
                    if k >= kept.len() {
                        let k2 = k - kept.len();
                        assert(page@[kept.len() + k2]@ == mp@[k2]@);
                    }
                }
                assert(utxo_views(page@) =~= goal);
            }
        } else {
            proof {
                assert(utxo_views(page@) =~= offset_result(
                    &self.chain,
                    &self.mempool,
                    scripthash@,
                    start_index as int,
                    limit as int,
                ));
            }
        }
        (page, total)
    }

    /// Cursor pagination over the merged view: a chain page with
    /// mempool-spent entries dropped; once the chain is drained, mempool
    /// UTXOs sorted by (txid, vout) ascending, with a mempool cursor when
    /// more remain. The total is the documented upper bound.
    #[verifier::rlimit(100)]
    pub fn utxo_with_cursor(&self, scripthash: &Hash32, cursor: Option<&OutPoint>, limit: usize)
        -> (r: (Vec<Utxo>, usize, Option<OutPoint>))
        requires
            self.wf(),
        ensures
            ({
                let res = cursor_result(
                    &self.chain,
                    &self.mempool,
                    scripthash@,
                    match cursor {
                        Some(c) => Some(c@),
                        None => None,
                    },
                    limit as int,
                );
                &&& utxo_views(r.0@) == res.page
                &&& match r.2 {
                    Some(n) => res.next == Some(n@) && n.wf(),
                    None => res.next is None,
                }
            }),
            r.1 == if ch_utxos(&self.chain, scripthash@).len() + mp_utxos(
                &self.mempool,
                scripthash@,
            ).len() <= usize::MAX {
                (ch_utxos(&self.chain, scripthash@).len() + mp_utxos(
                    &self.mempool,
                    scripthash@,
                ).len()) as int
            } else {
                usize::MAX as int
            },
            forall|i: int| 0 <= i < r.0@.len() ==> (#[trigger] r.0@[i]).wf(),
    {
        let ghost curv: Option<OutPointV> = match cursor {
            Some(c) => Some(c@),
            None => None,
        };
        let ghost all = ch_utxos(&self.chain, scripthash@);
        let ghost res = cursor_result(&self.chain, &self.mempool, scripthash@, curv, limit as int);
        let (chain_page, total_chain, mut next) = self.chain.utxo_with_cursor(
            scripthash,
            cursor,
            limit,
        );
        let ghost cpv = chain_page@;
        let mut page = retain_unspent(&self.mempool, chain_page);
        let ghost kept = drop_spent(ch_cursor_page(all, curv, limit as int), &self.mempool);
        proof {
            assert(utxo_views(page@) == kept);
            assert forall|k: int| 0 <= k < page@.len() implies (#[trigger] page@[k]).wf() && page@[
                k]@ == kept[k] by {
                assert(utxo_views(page@)[k] == page@[k]@);
                let j = choose|j: int|
                    0 <= j < cpv.len() && (#[trigger] page@[k])@ == cpv[j]@ && page@[k].wf()
                        == cpv[j].wf();
                assert(cpv[j].wf());
            }
        }
        let mp = self.mempool.utxo(scripthash);
        let total = if total_chain <= usize::MAX - mp.len() {
            total_chain + mp.len()
        } else {
            usize::MAX
        };
        if page.len() < limit && next.is_none() {
            let ghost mpv = mp_utxos(&self.mempool, scripthash@);
            let ghost sorted_g = sort_utxos(mpv);
            let sorted = sort_by_outpoint(mp);
            proof {
                lemma_sort_utxos_ascending(mpv);
                assert forall|k: int| 0 <= k < sorted@.len() implies (
                #[trigger] sorted@[k]).wf() && sorted@[k]@ == sorted_g[k] by {
                    assert(utxo_views(sorted@)[k] == sorted@[k]@);
                    assert(mpv.contains(sorted_g[k]));
                    let j = choose|j: int| 0 <= j < mpv.len() && mpv[j] == sorted_g[k];
                    assert(sorted@[k]@.txid == mpv[j].txid);
                    assert(mpv[j].txid.len() == crate::types::HASH_LEN);
                }
            }
            let mut mstart: usize = 0;
            match cursor {
                Some(c) => {
                    let mut p: usize = 0;
                    while p < sorted.len() && !c.lt_op(&sorted[p].outpoint())
                        invariant
                            p <= sorted@.len(),
                            forall|j: int|
                                0 <= j < p ==> !op_lt(c@, utxo_op((#[trigger] sorted@[j])@)),
                            forall|j: int| 0 <= j < sorted@.len() ==> (#[trigger] sorted@[j])@
                                == sorted_g[j],
                            sorted@.len() == sorted_g.len(),
                        decreases sorted@.len() - p,
                    {
                        p = p + 1;
                    }
                    mstart = p;
                    proof {
                        lemma_first_gt(sorted_g, c@);
                        let f = first_gt(sorted_g, c@);
                        assert forall|j: int| 0 <= j < mstart implies !op_lt(
                            c@,
                            utxo_op(sorted_g[j]),
                        ) by {
                            assert(!op_lt(c@, utxo_op(sorted@[j]@)));
                        }
                        if (mstart as int) < sorted_g.len() {
                            assert(op_lt(c@, utxo_op(sorted_g[mstart as int])));
                        }
                        if f < mstart {
                            assert(!op_lt(c@, utxo_op(sorted_g[f])));
                            assert(false);
                        }
                        if mstart < f {
                            assert(false);
                        }
                    }
                },
                None => {
                    if page.len() > 0 {
                        mstart = sorted.len();
                    } else {
                        mstart = 0;
                    }
                },
            }
            if mstart < sorted.len() {
                let remaining = limit - page.len();
                let avail = sorted.len() - mstart;
                let takec = if remaining < avail {
                    remaining
                } else {
                    avail
                };
                if remaining < avail {
                    next = Some(sorted[mstart + remaining - 1].outpoint());
                }
                let mut i: usize = 0;
                while i < takec
                    invariant
                        i <= takec,
                        mstart + takec <= sorted@.len(),
                        page@.len() == kept.len() + i,
                        forall|k: int| 0 <= k < kept.len() ==> (#[trigger] page@[k])@ == kept[k],
                        forall|k: int|
                            0 <= k < i ==> (#[trigger] page@[kept.len() + k])@ == sorted@[
                                mstart + k]@,
                        forall|k: int| 0 <= k < page@.len() ==> (#[trigger] page@[k]).wf(),
                        forall|k: int|
                            0 <= k < sorted@.len() ==> (#[trigger] sorted@[k]).wf() && sorted@[k]@
                                == sorted_g[k],
                        sorted@.len() == sorted_g.len(),
                        sorted@.len() <= usize::MAX,
                    decreases takec - i,
                {
                    page.push(sorted[mstart + i].clone());
                    i = i + 1;
                }
                proof {
                    let mend = if remaining < avail {
                        mstart + remaining
                    } else {
                        sorted_g.len() as int
                    };
                    let goal = kept + sorted_g.subrange(mstart as int, mend);
                    assert(goal.len() == utxo_views(page@).len());
                    assert forall|k: int|
                        0 <= k < utxo_views(page@).len() implies utxo_views(page@)[k] == goal[
                        k] by {
                        assert(utxo_views(page@)[k] == page@[k]@);
                        if k >= kept.len() {
                            let k2 = k - kept.len();
                            assert(page@[kept.len() + k2]@ == sorted@[mstart + k2]@);
                        }
                    }
                    assert(utxo_views(page@) =~= goal);
                    assert(utxo_views(page@) == res.page);
                }
            } else {
                proof {
                    assert(utxo_views(page@) == res.page);
                }
            }
        } else {
            proof {
                assert(utxo_views(page@) == res.page);
            }
        }
        (page, total, next)
    }


    /// Merged history: up to `limit` confirmed txids, then unconfirmed ones
    /// filling the remainder. Confirmed entries precede unconfirmed ones.
    pub fn history_txids(&self, scripthash: &Hash32, limit: usize) -> (r: Vec<(
        Hash32,
        Option<BlockId>,
    )>)
        requires
            self.wf(),
        ensures
            ({
                let conf = take_up_to(
                    crate::chain::ch_history(&self.chain, scripthash@),
                    limit as int,
                );
                let unconf = take_up_to(
                    crate::mempool::mp_history(&self.mempool, scripthash@),
                    limit - conf.len(),
                );
                &&& r@.len() == conf.len() + unconf.len()
                &&& forall|k: int|
                    0 <= k < conf.len() ==> (#[trigger] r@[k]).0@ == conf[k].txid
                        && crate::types::opt_block_v(r@[k].1) == Some(conf[k].block)
                &&& forall|k: int|
                    0 <= k < unconf.len() ==> (#[trigger] r@[conf.len() + k]).0@ == unconf[k]
                        && r@[conf.len() + k].1 is None
            }),
            forall|i: int, j: int|
                0 <= i < j < r@.len() && (#[trigger] r@[j]).1 is Some ==> (#[trigger] r@[i]).1
                    is Some,
            forall|k: int| 0 <= k < r@.len() ==> (#[trigger] r@[k]).0.wf(),
    {
        let ghost confg = take_up_to(crate::chain::ch_history(&self.chain, scripthash@), limit as int);
        let confirmed = self.chain.history_txids(scripthash, limit);
        let confirmed_len = confirmed.len();
        let ghost unconfg = take_up_to(
            crate::mempool::mp_history(&self.mempool, scripthash@),
            limit - confg.len(),
        );
        let unconfirmed = self.mempool.history_txids(scripthash, None, limit - confirmed_len);
        let mut r: Vec<(Hash32, Option<BlockId>)> = Vec::new();
        let mut i: usize = 0;
        while i < confirmed.len()
            invariant
                i <= confirmed@.len(),
                r@.len() == i,
                forall|k: int| 0 <= k < confirmed@.len() ==> (#[trigger] confirmed@[k])@ == confg[
                    k] && confirmed@[k].wf(),
                confirmed@.len() == confg.len(),
                forall|k: int|
                    0 <= k < i ==> (#[trigger] r@[k]).0@ == confg[k].txid && crate::types::opt_block_v(
                        r@[k].1,
                    ) == Some(confg[k].block) && r@[k].0.wf() && r@[k].1 is Some,
            decreases confirmed@.len() - i,
        {
            let e = &confirmed[i];
            r.push((e.txid.clone(), Some(e.block.clone())));
            i = i + 1;
        }
        let mut j: usize = 0;
        while j < unconfirmed.len()
            invariant
                j <= unconfirmed@.len(),
                r@.len() == confg.len() + j,
                confg.len() == confirmed@.len(),
                forall|k: int| 0 <= k < unconfirmed@.len() ==> (#[trigger] unconfirmed@[k])@
                    == unconfg[k] && unconfirmed@[k].wf(),
                unconfirmed@.len() == unconfg.len(),
                forall|k: int|
                    0 <= k < confg.len() ==> (#[trigger] r@[k]).0@ == confg[k].txid
                        && crate::types::opt_block_v(r@[k].1) == Some(confg[k].block) && r@[
                        k].0.wf() && r@[k].1 is Some,
                forall|k: int|
                    0 <= k < j ==> (#[trigger] r@[confg.len() + k]).0@ == unconfg[k] && r@[
                        confg.len() + k].1 is None && r@[confg.len() + k].0.wf(),
            decreases unconfirmed@.len() - j,
        {
            r.push((unconfirmed[j].clone(), None));
            j = j + 1;
        }
        proof {
            assert forall|a: int, b: int|
                0 <= a < b < r@.len() && (#[trigger] r@[b]).1 is Some implies (#[trigger] r@[a]).1
                is Some by {
                if b >= confg.len() {
                    let k2 = b - confg.len();
                    assert(r@[confg.len() + k2].1 is None);
                }
            }
            assert forall|k: int| 0 <= k < r@.len() implies (#[trigger] r@[k]).0.wf() by {
                if k >= confg.len() {
                    let k2 = k - confg.len();
                    assert(r@[confg.len() + k2].0.wf());
                }
            }
        }
        r
    }

    /// Chain and mempool statistics, side by side; the engine never sums.
    pub fn stats(&self, scripthash: &Hash32) -> (r: (ScriptStats, ScriptStats))
        requires
            self.wf(),
        ensures
            r.0 == ch_stats(&self.chain, scripthash@),
            r.1 == crate::mempool::mp_stats(&self.mempool, scripthash@),
    {
        (self.chain.stats(scripthash), self.mempool.stats(scripthash))
    }

    /// Chain first, then the mempool.
    pub fn lookup_txn(&self, txid: &Hash32) -> (r: Option<crate::tx::Transaction>)
        requires
            self.wf(),
        ensures
            r is Some <==> (ch_has_tx(&self.chain, txid@) || mp_has_tx(&self.mempool, txid@)),
            match r {
                Some(t) => t.wf() && t@ == if ch_has_tx(&self.chain, txid@) {
                    self.chain.txs@[ch_tx_i(&self.chain, txid@)].tx@
                } else {
                    self.mempool.txs@[mp_tx_i(&self.mempool, txid@)].tx@
                },
                None => true,
            },
    {
        match self.chain.lookup_txn(txid) {
            Some(t) => Some(t),
            None => self.mempool.lookup_txn(txid),
        }
    }

    /// Chain first, then the mempool.
    pub fn lookup_raw_txn(&self, txid: &Hash32) -> (r: Option<Vec<u8>>)
        requires
            self.wf(),
        ensures
            r is Some <==> (ch_has_tx(&self.chain, txid@) || mp_has_tx(&self.mempool, txid@)),
            match r {
                Some(b) => b@ == if ch_has_tx(&self.chain, txid@) {
                    self.chain.txs@[ch_tx_i(&self.chain, txid@)].raw@
                } else {
                    self.mempool.txs@[mp_tx_i(&self.mempool, txid@)].raw@
                },
                None => true,
            },
    {
        match self.chain.lookup_raw_txn(txid) {
            Some(b) => Some(b),
            None => self.mempool.lookup_raw_txn(txid),
        }
    }

    /// The input spending an outpoint: confirmed spends win over mempool
    /// ones. `None` exactly when neither snapshot spends it.
    pub fn lookup_spend(&self, outpoint: &OutPoint) -> (r: Option<crate::types::SpendingInput>)
        requires
            self.wf(),
        ensures
            r is Some <==> spend_status(self, outpoint@) is Some,
            match r {
                Some(s) => s.wf() && Some(s@) == spend_status(self, outpoint@),
                None => true,
            },
    {
        match self.chain.lookup_spend(outpoint) {
            Some(s) => Some(s),
            None => self.mempool.lookup_spend(outpoint),
        }
    }

    /// The output an outpoint refers to, mempool store first.
    pub fn lookup_txo(&self, outpoint: &OutPoint) -> (r: Option<crate::tx::TxOut>)
        requires
            self.wf(),
        ensures
            match r {
                Some(t) => txo_of(self, outpoint@) == Some(t@),
                None => txo_of(self, outpoint@) is None,
            },
    {
        match self.mempool.lookup_txn(&outpoint.txid) {
            Some(t) => {
                if (outpoint.vout as usize) < t.output.len() {
                    Some(t.output[outpoint.vout as usize].clone())
                } else {
                    None
                }
            },
            None => {
                match self.chain.lookup_txn(&outpoint.txid) {
                    Some(t) => {
                        if (outpoint.vout as usize) < t.output.len() {
                            Some(t.output[outpoint.vout as usize].clone())
                        } else {
                            None
                        }
                    },
                    None => None,
                }
            },
        }
    }

    /// Resolve a batch of outpoints to their outputs. `None` when any is
    /// unknown: a missing previous output is an internal inconsistency.
    pub fn lookup_txos(&self, outpoints: &Vec<OutPoint>) -> (r: Option<Vec<(OutPoint, crate::tx::TxOut)>>)
        requires
            self.wf(),
        ensures
            r is Some <==> (forall|k: int|
                0 <= k < outpoints@.len() ==> txo_of(self, (#[trigger] outpoints@[k])@) is Some),
            match r {
                Some(v) => v@.len() == outpoints@.len() && forall|k: int|
                    0 <= k < v@.len() ==> (#[trigger] v@[k]).0@ == outpoints@[k]@ && txo_of(
                        self,
                        outpoints@[k]@,
                    ) == Some(v@[k].1@),
                None => true,
            },
    {
        let mut v: Vec<(OutPoint, crate::tx::TxOut)> = Vec::new();
        let mut i: usize = 0;
        while i < outpoints.len()
            invariant
                self.wf(),
                i <= outpoints@.len(),
                v@.len() == i,
                forall|k: int|
                    0 <= k < i ==> (#[trigger] v@[k]).0@ == outpoints@[k]@ && txo_of(
                        self,
                        outpoints@[k]@,
                    ) == Some(v@[k].1@),
            decreases outpoints@.len() - i,
        {
            match self.lookup_txo(&outpoints[i]) {
                Some(t) => {
                    v.push((outpoints[i].clone(), t));
                },
                None => {
                    proof {
                        assert(exists|k: int|
                            0 <= k < outpoints@.len() && !(txo_of(
                                self,
                                (#[trigger] outpoints@[k])@,
                            ) is Some)) by {
                            assert(!(txo_of(self, (outpoints@[i as int])@) is Some));
                        }
                    }
                    return None;
                },
            }
            i = i + 1;
        }
        proof {
            assert forall|k: int| 0 <= k < outpoints@.len() implies txo_of(
                self,
                (#[trigger] outpoints@[k])@,
            ) is Some by {
                assert(txo_of(self, outpoints@[k]@) == Some(v@[k].1@));
            }
        }
        Some(v)
    }

    /// Spend lookups for every output of a transaction; outputs that are
    /// unspendable by policy are answered `None` without a lookup.
    pub fn lookup_tx_spends(&self, tx: &crate::tx::Transaction) -> (r: Vec<
        Option<crate::types::SpendingInput>,
    >)
        requires
            self.wf(),
            tx.wf(),
            tx.output@.len() <= u32::MAX,
        ensures
            r@.len() == tx.output@.len(),
            forall|k: int|
                0 <= k < r@.len() ==> {
                    let op = OutPointV { txid: tx.txid@, vout: k as u32 };
                    match #[trigger] r@[k] {
                        Some(s) => crate::script::spec_is_spendable(
                            tx.output@[k].script_pubkey@,
                        ) && spend_status(self, op) == Some(s@) && s.wf(),
                        None => !crate::script::spec_is_spendable(tx.output@[k].script_pubkey@)
                            || spend_status(self, op) is None,
                    }
                },
    {
        let mut r: Vec<Option<crate::types::SpendingInput>> = Vec::new();
        let mut vout: usize = 0;
        while vout < tx.output.len()
            invariant
                self.wf(),
                tx.wf(),
                tx.output@.len() <= u32::MAX,
                vout <= tx.output@.len(),
                r@.len() == vout,
                forall|k: int|
                    0 <= k < vout ==> {
                        let op = OutPointV { txid: tx.txid@, vout: k as u32 };
                        match #[trigger] r@[k] {
                            Some(s) => crate::script::spec_is_spendable(
                                tx.output@[k].script_pubkey@,
                            ) && spend_status(self, op) == Some(s@) && s.wf(),
                            None => !crate::script::spec_is_spendable(
                                tx.output@[k].script_pubkey@,
                            ) || spend_status(self, op) is None,
                        }
                    },
            decreases tx.output@.len() - vout,
        {
            if crate::script::is_spendable(&tx.output[vout].script_pubkey) {
                let op = OutPoint { txid: tx.txid.clone(), vout: vout as u32 };
                r.push(self.lookup_spend(&op));
            } else {
                r.push(None);
            }
            vout = vout + 1;
        }
        r
    }

    /// Status of a transaction, derived from its confirming block if any.
    pub fn get_tx_status(&self, txid: &Hash32) -> (r: TransactionStatus)
        requires
            self.wf(),
        ensures
            r@ == crate::types::status_of(
                if ch_has_tx(&self.chain, txid@) {
                    Some(self.chain.txs@[ch_tx_i(&self.chain, txid@)].block@)
                } else {
                    None
                },
            ),
    {
        TransactionStatus::from_block(self.chain.tx_confirming_block(txid))
    }

    /// Fee of an unconfirmed transaction, if the mempool has it.
    pub fn get_mempool_tx_fee(&self, txid: &Hash32) -> (r: Option<u64>)
        requires
            self.wf(),
        ensures
            r is Some <==> mp_has_tx(&self.mempool, txid@),
            match r {
                Some(f) => f == self.mempool.txs@[mp_tx_i(&self.mempool, txid@)].fee,
                None => true,
            },
    {
        self.mempool.get_tx_fee(txid)
    }

    /// Whether the transaction spends outputs of other unconfirmed
    /// transactions; false when it is unknown.
    pub fn has_unconfirmed_parents(&self, txid: &Hash32) -> (r: bool)
        requires
            self.wf(),
        ensures
            r == (mp_has_tx(&self.mempool, txid@) && self.mempool.txs@[mp_tx_i(
                &self.mempool,
                txid@,
            )].has_unconfirmed_parents),
    {
        self.mempool.has_unconfirmed_parents(txid)
    }

    /// A broadcast succeeded: materialize the transaction in the mempool
    /// view so that later reads on this state see it.
    pub fn notify_broadcast(&mut self, entry: crate::mempool::MempoolTx)
        requires
            old(self).wf(),
            entry.wf(),
        ensures
            final(self).wf(),
            mp_has_tx(&final(self).mempool, entry.txid@),
            final(self).chain == old(self).chain,
            final(self).config == old(self).config,
            final(self).fees == old(self).fees,
            final(self).mempool.scripts@ == old(self).mempool.scripts@,
            final(self).mempool.spends@ == old(self).mempool.spends@,
            !mp_has_tx(&old(self).mempool, entry.txid@) ==> final(self).mempool.txs@ == old(
                self,
            ).mempool.txs@.push(entry),
            mp_has_tx(&old(self).mempool, entry.txid@) ==> final(self).mempool.txs@ == old(
                self,
            ).mempool.txs@,
    {
        self.mempool.register_tx(entry);
    }

    /// What serving a fee estimate needs next: the relay fee on regtest, a
    /// cached rate while the map is fresh, else a refresh.
    pub fn estimate_fee_plan(&self, conf_target: u16, now_ms: u64) -> (r: FeePlan)
        requires
            match self.fees.stamp {
                Some(t) => t <= now_ms,
                None => true,
            },
        ensures
            match r {
                FeePlan::UseRelayFee => self.config.network_type is Regtest,
                FeePlan::Cached(v) => !(self.config.network_type is Regtest) && cache_fresh(
                    &self.fees,
                    now_ms,
                ) && v == crate::fees::rate_for(self.fees.map@, conf_target),
                FeePlan::NeedsRefresh => !(self.config.network_type is Regtest) && !cache_fresh(
                    &self.fees,
                    now_ms,
                ),
            },
    {
        if self.config.network_type.is_regtest() {
            return FeePlan::UseRelayFee;
        }
        if self.fees.is_fresh(now_ms) {
            FeePlan::Cached(self.fees.rate(conf_target))
        } else {
            FeePlan::NeedsRefresh
        }
    }

    /// The whole estimate map if it is still fresh; a stale or empty cache
    /// asks for a refresh first.
    pub fn estimate_fee_map_cached(&self, now_ms: u64) -> (r: Option<Vec<(u16, u64)>>)
        requires
            match self.fees.stamp {
                Some(t) => t <= now_ms,
                None => true,
            },
        ensures
            r is Some <==> cache_fresh(&self.fees, now_ms),
            match r {
                Some(v) => v@ == self.fees.map@,
                None => true,
            },
    {
        if self.fees.is_fresh(now_ms) {
            Some(self.current_fee_map())
        } else {
            None
        }
    }

    /// A copy of whatever the cache holds now, fresh or stale.
    pub fn current_fee_map(&self) -> (r: Vec<(u16, u64)>)
        ensures
            r@ == self.fees.map@,
    {
        let mut r: Vec<(u16, u64)> = Vec::new();
        let mut i: usize = 0;
        while i < self.fees.map.len()
            invariant
                i <= self.fees.map@.len(),
                r@.len() == i,
                forall|k: int| 0 <= k < i ==> (#[trigger] r@[k]) == self.fees.map@[k],
            decreases self.fees.map@.len() - i,
        {
            let (t, v) = self.fees.map[i];
            r.push((t, v));
            i = i + 1;
        }
        proof {
            assert(r@ =~= self.fees.map@);
        }
        r
    }

    /// Store a refreshed estimate map. On a failed refresh nothing is
    /// stored and the stale map stays.
    pub fn apply_fee_estimates(&mut self, map: Vec<(u16, u64)>, now_ms: u64)
        ensures
            final(self).fees.map@ == map@,
            final(self).fees.stamp == Some(now_ms),
            final(self).fees.relayfee == old(self).fees.relayfee,
            final(self).chain == old(self).chain,
            final(self).mempool == old(self).mempool,
            final(self).config == old(self).config,
    {
        self.fees.store(map, now_ms);
    }

    /// The memoized relay fee, if one was ever observed.
    pub fn get_relayfee_cached(&self) -> (r: Option<u64>)
        ensures
            r == self.fees.relayfee,
    {
        self.fees.cached_relayfee()
    }

    /// Memoize the relay fee for the life of the process.
    pub fn apply_relayfee(&mut self, rate: u64)
        ensures
            final(self).fees.relayfee == Some(rate),
            final(self).fees.map@ == old(self).fees.map@,
            final(self).fees.stamp == old(self).fees.stamp,
            final(self).chain == old(self).chain,
            final(self).mempool == old(self).mempool,
            final(self).config == old(self).config,
    {
        self.fees.set_relayfee(rate);
    }
}

/// What serving one fee estimate needs next.
pub enum FeePlan {
    UseRelayFee,
    Cached(Option<u64>),
    NeedsRefresh,
}

/// Cursor stability: two identical cursor requests against the same pair of
/// snapshots return identical pages and next cursors.
pub proof fn lemma_cursor_stability(
    c: &ChainIndex,
    m: &MempoolView,
    h: Seq<u8>,
    cursor: Option<OutPointV>,
    limit: int,
    r1: CursorPageV,
    r2: CursorPageV,
)
    requires
        r1 == cursor_result(c, m, h, cursor, limit),
        r2 == cursor_result(c, m, h, cursor, limit),
    ensures
        r1 == r2,
{
}

/// Ordering within a merged page: every mempool entry follows every chain
/// entry, and the mempool slice is sorted by (txid, vout) ascending.
pub proof fn lemma_page_ordering(
    c: &ChainIndex,
    m: &MempoolView,
    h: Seq<u8>,
    cursor: Option<OutPointV>,
    limit: int,
)
    requires
        c.wf(),
        m.wf(),
        limit >= 0,
    ensures
        ({
            let page = cursor_result(c, m, h, cursor, limit).page;
            &&& forall|i: int, j: int|
                0 <= i < j < page.len() && (#[trigger] page[i]).confirmed is None ==> (
                #[trigger] page[j]).confirmed is None
            &&& forall|i: int, j: int|
                0 <= i < j < page.len() && (#[trigger] page[i]).confirmed is None && (
                #[trigger] page[j]).confirmed is None ==> !op_lt(utxo_op(page[j]), utxo_op(page[i]))
        }),
{
    let all = ch_utxos(c, h);
    if cursor is Some {
        lemma_first_gt(all, cursor->Some_0);
    }
    let cpraw = ch_cursor_page(all, cursor, limit);
    let cp = drop_spent(cpraw, m);
    let page = cursor_result(c, m, h, cursor, limit).page;
    crate::chain::lemma_ch_utxos_confirmed(c, h);
    crate::mempool::lemma_mp_utxos_unspent(m, h);
    lemma_drop_spent_elems(cpraw, m);
    let mpv = mp_utxos(m, h);
    let sorted = sort_utxos(mpv);
    lemma_sort_utxos_ascending(mpv);
    // Chain entries are confirmed.
    assert forall|k: int| 0 <= k < cp.len() implies (#[trigger] cp[k]).confirmed is Some by {
        assert(cpraw.contains(cp[k]));
        let j = choose|j: int| 0 <= j < cpraw.len() && cpraw[j] == cp[k];
        let start = crate::chain::ch_cursor_start(all, cursor);
        let end = if start + limit <= all.len() {
            start + limit
        } else {
            all.len() as int
        };
        assert(cpraw == all.subrange(start, end));
        assert(all.subrange(start, end)[j] == all[start + j]);
        assert(all[start + j].confirmed is Some);
    }
    // Mempool entries are unconfirmed.
    assert forall|k: int| 0 <= k < sorted.len() implies (#[trigger] sorted[k]).confirmed
        is None by {
        assert(mpv.contains(sorted[k]));
        let j = choose|j: int| 0 <= j < mpv.len() && mpv[j] == sorted[k];
        assert(mpv[j].confirmed is None);
    }
    assert forall|i: int, j: int|
        0 <= i < j < page.len() && (#[trigger] page[i]).confirmed is None implies (
    #[trigger] page[j]).confirmed is None by {
        if i < cp.len() {
            assert(page[i] == cp[i]);
            assert(false);
        } else {
            lemma_page_tail_shape(c, m, h, cursor, limit, j);
        }
    }
    assert forall|i: int, j: int|
        0 <= i < j < page.len() && (#[trigger] page[i]).confirmed is None && (
    #[trigger] page[j]).confirmed is None implies !op_lt(utxo_op(page[j]), utxo_op(page[i])) by {
        if i < cp.len() {
            assert(page[i] == cp[i]);
            assert(false);
        } else {
            lemma_page_tail_shape(c, m, h, cursor, limit, i);
            lemma_page_tail_shape(c, m, h, cursor, limit, j);
            let mstart = match cursor {
                Some(cv) => first_gt(sorted, cv),
                None => if cp.len() > 0 {
                    sorted.len() as int
                } else {
                    0
                },
            };
            assert(page[i] == sorted[mstart + (i - cp.len())]);
            assert(page[j] == sorted[mstart + (j - cp.len())]);
            lemma_ascending_pair(sorted, mstart + (i - cp.len()), mstart + (j - cp.len()));
        }
    }
}

/// Positions past the chain part of a merged page come from the sorted
/// mempool slice.
proof fn lemma_page_tail_shape(
    c: &ChainIndex,
    m: &MempoolView,
    h: Seq<u8>,
    cursor: Option<OutPointV>,
    limit: int,
    k: int,
)
    requires
        limit >= 0,
        ({
            let page = cursor_result(c, m, h, cursor, limit).page;
            let cp = drop_spent(ch_cursor_page(ch_utxos(c, h), cursor, limit), m);
            cp.len() <= k < page.len()
        }),
    ensures
        ({
            let page = cursor_result(c, m, h, cursor, limit).page;
            let cp = drop_spent(ch_cursor_page(ch_utxos(c, h), cursor, limit), m);
            let sorted = sort_utxos(mp_utxos(m, h));
            let mstart = match cursor {
                Some(cv) => first_gt(sorted, cv),
                None => if cp.len() > 0 {
                    sorted.len() as int
                } else {
                    0
                },
            };
            &&& 0 <= mstart + (k - cp.len()) < sorted.len()
            &&& page[k] == sorted[mstart + (k - cp.len())]
        }),
{
    let all = ch_utxos(c, h);
    let cp = drop_spent(ch_cursor_page(all, cursor, limit), m);
    let cnext = ch_cursor_next(all, cursor, limit);
    let page = cursor_result(c, m, h, cursor, limit).page;
    if cp.len() < limit && cnext is None {
        let sorted = sort_utxos(mp_utxos(m, h));
        let mstart = match cursor {
            Some(cv) => first_gt(sorted, cv),
            None => if cp.len() > 0 {
                sorted.len() as int
            } else {
                0
            },
        };
        if cursor is Some {
            lemma_first_gt(sorted, cursor->Some_0);
        }
        if mstart < sorted.len() {
            let remaining = limit - cp.len();
            if remaining < sorted.len() - mstart {
                assert(page[k] == sorted.subrange(mstart, mstart + remaining)[k - cp.len()]);
            } else {
                assert(page[k] == sorted.subrange(mstart, sorted.len() as int)[k - cp.len()]);
            }
        }
    }
}



impl Query {
    /// Runtime form of well-formedness over both snapshots.
    pub fn check_wf(&self) -> (r: bool)
        ensures
            r ==> self.wf(),
    {
        self.chain.check_wf() && self.mempool.check_wf()
    }
}


/// Pairwise distinct outpoints at the view level.
pub open spec fn vops_distinct(s: Seq<UtxoV>) -> bool {
    forall|a: int, b: int|
        0 <= a < b < s.len() ==> utxo_op(#[trigger] s[a]) != utxo_op(#[trigger] s[b])
}

/// Strictly ascending by (txid, vout) at the view level.
pub open spec fn vops_strict(s: Seq<UtxoV>) -> bool {
    forall|a: int, b: int|
        0 <= a < b < s.len() ==> op_lt(utxo_op(#[trigger] s[a]), utxo_op(#[trigger] s[b]))
}

proof fn lemma_insert_sorted_elems(u: UtxoV, s: Seq<UtxoV>)
    ensures
        insert_sorted(u, s).len() == s.len() + 1,
        forall|k: int|
            0 <= k < insert_sorted(u, s).len() ==> (#[trigger] insert_sorted(u, s)[k] == u
                || s.contains(insert_sorted(u, s)[k])),
    decreases s.len(),
{
    lemma_insert_sorted_len(u, s);
    let r = insert_sorted(u, s);
    if s.len() == 0 {
    } else if op_lt(utxo_op(u), utxo_op(s[0])) {
        assert forall|k: int| 0 <= k < r.len() implies (#[trigger] r[k] == u || s.contains(
            r[k],
        )) by {
            if k > 0 {
                assert((seq![u] + s)[k] == s[k - 1]);
            }
        }
    } else {
        lemma_insert_sorted_elems(u, s.skip(1));
        let rt = insert_sorted(u, s.skip(1));
        assert forall|k: int| 0 <= k < r.len() implies (#[trigger] r[k] == u || s.contains(
            r[k],
        )) by {
            if k > 0 {
                assert((seq![s[0]] + rt)[k] == rt[k - 1]);
                if rt[k - 1] == u {
                } else {
                    assert(s.skip(1).contains(rt[k - 1]));
                    let w = choose|w: int| 0 <= w < s.skip(1).len() && s.skip(1)[w] == rt[k - 1];
                    assert(s[w + 1] == rt[k - 1]);
                }
            }
        }
    }
}

proof fn lemma_insert_sorted_distinct(u: UtxoV, s: Seq<UtxoV>)
    requires
        vops_distinct(s),
        forall|k: int| 0 <= k < s.len() ==> utxo_op(u) != utxo_op(#[trigger] s[k]),
    ensures
        vops_distinct(insert_sorted(u, s)),
    decreases s.len(),
{
    lemma_insert_sorted_len(u, s);
    let r = insert_sorted(u, s);
    if s.len() == 0 {
    } else if op_lt(utxo_op(u), utxo_op(s[0])) {
        assert forall|a: int, b: int|
            0 <= a < b < r.len() implies utxo_op(#[trigger] r[a]) != utxo_op(
            #[trigger] r[b],
        ) by {
            assert((seq![u] + s)[a] == if a == 0 {
                u
            } else {
                s[a - 1]
            });
            assert((seq![u] + s)[b] == s[b - 1]);
        }
    } else {
        assert(vops_distinct(s.skip(1))) by {
            assert forall|a: int, b: int|
                0 <= a < b < s.skip(1).len() implies utxo_op(#[trigger] s.skip(1)[a]) != utxo_op(
                #[trigger] s.skip(1)[b],
            ) by {
                assert(s.skip(1)[a] == s[a + 1] && s.skip(1)[b] == s[b + 1]);
            }
        }
        assert(forall|k: int|
            0 <= k < s.skip(1).len() ==> utxo_op(u) != utxo_op(#[trigger] s.skip(1)[k])) by {
            assert(forall|k: int| 0 <= k < s.skip(1).len() ==> #[trigger] s.skip(1)[k] == s[k
                + 1]);
        }
        lemma_insert_sorted_distinct(u, s.skip(1));
        lemma_insert_sorted_elems(u, s.skip(1));
        let rt = insert_sorted(u, s.skip(1));
        assert forall|a: int, b: int|
            0 <= a < b < r.len() implies utxo_op(#[trigger] r[a]) != utxo_op(
            #[trigger] r[b],
        ) by {
            assert((seq![s[0]] + rt)[b] == rt[b - 1]);
            if a == 0 {
                assert(r[0] == s[0]);
                if rt[b - 1] == u {
                } else {
                    assert(s.skip(1).contains(rt[b - 1]));
                    let w = choose|w: int| 0 <= w < s.skip(1).len() && s.skip(1)[w] == rt[b - 1];
                    assert(s[w + 1] == rt[b - 1]);
                }
            } else {
                assert((seq![s[0]] + rt)[a] == rt[a - 1]);
            }
        }
    }
}

/// Sorting keeps outpoints pairwise distinct; with the ascending order that
/// makes the sorted list strictly increasing.
proof fn lemma_sort_utxos_strict(s: Seq<UtxoV>)
    requires
        vops_distinct(s),
    ensures
        vops_strict(sort_utxos(s)),
        sort_utxos(s).len() == s.len(),
        forall|k: int| 0 <= k < sort_utxos(s).len() ==> s.contains(#[trigger] sort_utxos(s)[k]),
    decreases s.len(),
{
    lemma_sort_utxos_ascending(s);
    if s.len() == 0 {
    } else {
        assert(vops_distinct(s.skip(1))) by {
            assert forall|a: int, b: int|
                0 <= a < b < s.skip(1).len() implies utxo_op(#[trigger] s.skip(1)[a]) != utxo_op(
                #[trigger] s.skip(1)[b],
            ) by {
                assert(s.skip(1)[a] == s[a + 1] && s.skip(1)[b] == s[b + 1]);
            }
        }
        lemma_sort_utxos_strict(s.skip(1));
        lemma_sort_utxos_ascending(s.skip(1));
        let t = sort_utxos(s.skip(1));
        assert(forall|k: int|
            0 <= k < t.len() ==> utxo_op(s[0]) != utxo_op(#[trigger] t[k])) by {
            assert forall|k: int| 0 <= k < t.len() implies utxo_op(s[0]) != utxo_op(
                #[trigger] t[k],
            ) by {
                assert(s.skip(1).contains(t[k]));
                let w = choose|w: int| 0 <= w < s.skip(1).len() && s.skip(1)[w] == t[k];
                assert(s[w + 1] == t[k]);
            }
        }
        assert(vops_distinct(t)) by {
            assert forall|a: int, b: int|
                0 <= a < b < t.len() implies utxo_op(#[trigger] t[a]) != utxo_op(
                #[trigger] t[b],
            ) by {
                assert(s.skip(1).contains(t[a]) && s.skip(1).contains(t[b]));
            }
        }
        lemma_insert_sorted_distinct(s[0], t);
        lemma_insert_sorted_elems(s[0], t);
        let r = sort_utxos(s);
        assert forall|a: int, b: int|
            0 <= a < b < r.len() implies op_lt(
            utxo_op(#[trigger] r[a]),
            utxo_op(#[trigger] r[b]),
        ) by {
            lemma_ascending_pair(r, a, b);
            crate::types::lemma_op_total(utxo_op(r[a]), utxo_op(r[b]));
            if utxo_op(r[a]) == utxo_op(r[b]) {
                assert(vops_distinct(r));
            }
        }
    }
}

/// `first_gt` is determined by its characterization.
proof fn lemma_first_gt_is(s: Seq<UtxoV>, cv: OutPointV, r: int)
    requires
        0 <= r <= s.len(),
        forall|j: int| 0 <= j < r ==> !op_lt(cv, utxo_op(#[trigger] s[j])),
        r < s.len() ==> op_lt(cv, utxo_op(s[r])),
    ensures
        first_gt(s, cv) == r,
{
    lemma_first_gt(s, cv);
    let f = first_gt(s, cv);
    if f < r {
        assert(!op_lt(cv, utxo_op(s[f])));
        assert(op_lt(cv, utxo_op(s[f])));
    }
    if r < f {
        assert(!op_lt(cv, utxo_op(s[r])));
    }
}

/// Dropping spent entries distributes over concatenation.
proof fn lemma_drop_spent_concat(x: Seq<UtxoV>, y: Seq<UtxoV>, m: &MempoolView)
    ensures
        drop_spent(x + y, m) == drop_spent(x, m) + drop_spent(y, m),
    decreases x.len(),
{
    if x.len() == 0 {
        assert(x + y =~= y);
        assert(drop_spent(x, m) + drop_spent(y, m) =~= drop_spent(y, m));
    } else {
        assert((x + y).skip(1) =~= x.skip(1) + y);
        assert((x + y)[0] == x[0]);
        lemma_drop_spent_concat(x.skip(1), y, m);
        if mp_spent(m, utxo_op(x[0])) {
        } else {
            assert(seq![x[0]] + (drop_spent(x.skip(1), m) + drop_spent(y, m)) =~= (seq![x[0]]
                + drop_spent(x.skip(1), m)) + drop_spent(y, m));
        }
    }
}


/// Concatenation of every page a client sees, following next cursors, with
/// a fuel bound on the number of requests.
pub open spec fn pages_from(
    c: &ChainIndex,
    m: &MempoolView,
    h: Seq<u8>,
    cursor: Option<OutPointV>,
    limit: int,
    fuel: nat,
) -> Seq<UtxoV>
    decreases fuel,
{
    if fuel == 0 {
        Seq::empty()
    } else {
        let res = cursor_result(c, m, h, cursor, limit);
        match res.next {
            None => res.page,
            Some(n) => res.page + pages_from(c, m, h, Some(n), limit, (fuel - 1) as nat),
        }
    }
}

/// Every chain outpoint of the scripthash sits strictly below every mempool
/// outpoint of it.
pub open spec fn chain_below_mempool(c: &ChainIndex, m: &MempoolView, h: Seq<u8>) -> bool {
    forall|a: int, b: int|
        0 <= a < ch_utxos(c, h).len() && 0 <= b < mp_utxos(m, h).len() ==> op_lt(
            utxo_op(#[trigger] ch_utxos(c, h)[a]),
            utxo_op(#[trigger] mp_utxos(m, h)[b]),
        )
}

/// The chain's per-script list is strictly sorted at the view level.
proof fn lemma_chain_views_strict(c: &ChainIndex, h: Seq<u8>)
    requires
        c.wf(),
    ensures
        vops_strict(ch_utxos(c, h)),
{
    let all = ch_utxos(c, h);
    if crate::chain::ch_has_script(c, h) {
        let i = crate::chain::ch_script_i(c, h);
        assert forall|a: int, b: int|
            0 <= a < b < all.len() implies op_lt(
            utxo_op(#[trigger] all[a]),
            utxo_op(#[trigger] all[b]),
        ) by {
            crate::chain::lemma_sorted_pair(c.scripts@[i].utxos@, a, b);
            assert(all[a] == c.scripts@[i].utxos@[a]@);
            assert(all[b] == c.scripts@[i].utxos@[b]@);
        }
    }
}

/// The mempool's per-script outpoints are pairwise distinct at the view
/// level.
proof fn lemma_mempool_views_distinct(m: &MempoolView, h: Seq<u8>)
    requires
        m.wf(),
    ensures
        vops_distinct(mp_utxos(m, h)),
{
    let mpv = mp_utxos(m, h);
    if crate::mempool::mp_has_script(m, h) {
        let i = crate::mempool::mp_script_i(m, h);
        assert forall|a: int, b: int|
            0 <= a < b < mpv.len() implies utxo_op(#[trigger] mpv[a]) != utxo_op(
            #[trigger] mpv[b],
        ) by {
            assert(mpv[a] == m.scripts@[i].utxos@[a]@);
            assert(mpv[b] == m.scripts@[i].utxos@[b]@);
            assert(crate::types::utxo_op(m.scripts@[i].utxos@[a]@) != crate::types::utxo_op(
                m.scripts@[i].utxos@[b]@,
            ));
        }
    }
}

/// Mempool phase of the iteration: from a cursor past the whole chain and
/// past the first `k` sorted mempool entries, the remaining pages are
/// exactly the rest of the sorted mempool list.
proof fn lemma_pages_mempool(
    c: &ChainIndex,
    m: &MempoolView,
    h: Seq<u8>,
    limit: int,
    cv: OutPointV,
    k: int,
    fuel: nat,
)
    requires
        c.wf(),
        m.wf(),
        limit >= 1,
        chain_below_mempool(c, m, h),
        0 <= k <= sort_utxos(mp_utxos(m, h)).len(),
        first_gt(sort_utxos(mp_utxos(m, h)), cv) == k,
        first_gt(ch_utxos(c, h), cv) == ch_utxos(c, h).len(),
        fuel >= sort_utxos(mp_utxos(m, h)).len() - k + 1,
    ensures
        pages_from(c, m, h, Some(cv), limit, fuel) == sort_utxos(mp_utxos(m, h)).subrange(
            k,
            sort_utxos(mp_utxos(m, h)).len() as int,
        ),
    decreases fuel,
{
    let all = ch_utxos(c, h);
    let mpv = mp_utxos(m, h);
    let sorted = sort_utxos(mpv);
    let mlen = sorted.len() as int;
    lemma_chain_views_strict(c, h);
    lemma_mempool_views_distinct(m, h);
    lemma_sort_utxos_strict(mpv);
    lemma_sort_utxos_ascending(mpv);
    lemma_first_gt(all, cv);
    // The chain hands back an empty page.
    let chunk = ch_cursor_page(all, Some(cv), limit);
    assert(chunk =~= Seq::<UtxoV>::empty());
    let cp = drop_spent(chunk, m);
    assert(cp =~= Seq::<UtxoV>::empty());
    assert(ch_cursor_next(all, Some(cv), limit) is None);
    let res = cursor_result(c, m, h, Some(cv), limit);
    if k == mlen {
        assert(res.page =~= sorted.subrange(k, mlen));
        assert(res.next is None);
        assert(pages_from(c, m, h, Some(cv), limit, fuel) == res.page);
    } else {
        let remaining = limit - cp.len();
        assert(remaining == limit);
        if remaining < mlen - k {
            assert(res.page == cp + sorted.subrange(k, k + remaining));
            let nxt = utxo_op(sorted[k + remaining - 1]);
            assert(res.next == Some(nxt));
            // The next cursor resumes right after what was taken.
            assert(first_gt(sorted, nxt) == k + remaining) by {
                assert forall|j: int| 0 <= j < k + remaining implies !op_lt(
                    nxt,
                    utxo_op(#[trigger] sorted[j]),
                ) by {
                    if j < k + remaining - 1 {
                        assert(op_lt(utxo_op(sorted[j]), nxt));
                        crate::types::lemma_op_asym(utxo_op(sorted[j]), nxt);
                    } else {
                        crate::types::lemma_op_asym(nxt, nxt);
                    }
                }
                assert(op_lt(nxt, utxo_op(sorted[k + remaining])));
                lemma_first_gt_is(sorted, nxt, k + remaining);
            }
            assert(first_gt(all, nxt) == all.len()) by {
                assert forall|j: int| 0 <= j < all.len() implies !op_lt(
                    nxt,
                    utxo_op(#[trigger] all[j]),
                ) by {
                    assert(mpv.contains(sorted[k + remaining - 1]));
                    let w = choose|w: int| 0 <= w < mpv.len() && mpv[w] == sorted[k + remaining
                        - 1];
                    assert(op_lt(utxo_op(all[j]), utxo_op(mpv[w])));
                    crate::types::lemma_op_asym(utxo_op(all[j]), nxt);
                }
                lemma_first_gt_is(all, nxt, all.len() as int);
            }
            lemma_pages_mempool(c, m, h, limit, nxt, k + remaining, (fuel - 1) as nat);
            assert(pages_from(c, m, h, Some(cv), limit, fuel) == res.page + sorted.subrange(
                k + remaining,
                mlen,
            ));
            assert(cp + sorted.subrange(k, k + remaining) =~= sorted.subrange(k, k + remaining));
            assert(sorted.subrange(k, k + remaining) + sorted.subrange(k + remaining, mlen)
                =~= sorted.subrange(k, mlen));
        } else {
            assert(res.page == cp + sorted.subrange(k, mlen));
            assert(res.next is None);
            assert(cp + sorted.subrange(k, mlen) =~= sorted.subrange(k, mlen));
            assert(pages_from(c, m, h, Some(cv), limit, fuel) == res.page);
        }
    }
}


/// Chain phase of the iteration: from a cursor sitting after the first `j`
/// chain entries and before every mempool entry, the remaining pages are
/// the unspent rest of the chain followed by the whole sorted mempool list.
#[verifier::rlimit(100)]
proof fn lemma_pages_chain(
    c: &ChainIndex,
    m: &MempoolView,
    h: Seq<u8>,
    limit: int,
    cv: OutPointV,
    j: int,
    fuel: nat,
)
    requires
        c.wf(),
        m.wf(),
        limit >= 1,
        chain_below_mempool(c, m, h),
        0 <= j <= ch_utxos(c, h).len(),
        first_gt(ch_utxos(c, h), cv) == j,
        first_gt(sort_utxos(mp_utxos(m, h)), cv) == 0,
    ensures
        fuel >= ch_utxos(c, h).len() - j + sort_utxos(mp_utxos(m, h)).len() + 1 ==> pages_from(
            c,
            m,
            h,
            Some(cv),
            limit,
            fuel,
        ) == drop_spent(
            ch_utxos(c, h).subrange(j, ch_utxos(c, h).len() as int),
            m,
        ) + sort_utxos(mp_utxos(m, h)),
    decreases fuel,
{
    let all = ch_utxos(c, h);
    let n = all.len() as int;
    let mpv = mp_utxos(m, h);
    let sorted = sort_utxos(mpv);
    let mlen = sorted.len() as int;
    if fuel < n - j + mlen + 1 {
        return ;
    }
    lemma_chain_views_strict(c, h);
    lemma_mempool_views_distinct(m, h);
    lemma_sort_utxos_strict(mpv);
    lemma_sort_utxos_ascending(mpv);
    let res = cursor_result(c, m, h, Some(cv), limit);
    let chunk = ch_cursor_page(all, Some(cv), limit);
    let cp = drop_spent(chunk, m);
    lemma_drop_spent_elems(chunk, m);
    if j + limit <= n {
        // A full chain page: the next cursor is its last entry.
        assert(chunk == all.subrange(j, j + limit));
        assert(chunk.len() == limit);
        let nxt = utxo_op(all[j + limit - 1]);
        assert(chunk.last() == all[j + limit - 1]);
        assert(ch_cursor_next(all, Some(cv), limit) == Some(nxt));
        assert(res.page == cp && res.next == Some(nxt));
        assert(first_gt(all, nxt) == j + limit) by {
            assert forall|w: int| 0 <= w < j + limit implies !op_lt(
                nxt,
                utxo_op(#[trigger] all[w]),
            ) by {
                if w < j + limit - 1 {
                    assert(op_lt(utxo_op(all[w]), nxt));
                    crate::types::lemma_op_asym(utxo_op(all[w]), nxt);
                } else {
                    crate::types::lemma_op_asym(nxt, nxt);
                }
            }
            if j + limit < n {
                assert(op_lt(nxt, utxo_op(all[j + limit])));
            }
            lemma_first_gt_is(all, nxt, j + limit);
        }
        assert(first_gt(sorted, nxt) == 0) by {
            if 0 < mlen {
                assert(mpv.contains(sorted[0]));
                let w = choose|w: int| 0 <= w < mpv.len() && mpv[w] == sorted[0];
                assert(op_lt(utxo_op(all[j + limit - 1]), utxo_op(mpv[w])));
            }
            lemma_first_gt_is(sorted, nxt, 0);
        }
        lemma_pages_chain(c, m, h, limit, nxt, j + limit, (fuel - 1) as nat);
        lemma_drop_spent_concat(
            all.subrange(j, j + limit),
            all.subrange(j + limit, n),
            m,
        );
        assert(all.subrange(j, j + limit) + all.subrange(j + limit, n) =~= all.subrange(j, n));
        assert((cp + drop_spent(all.subrange(j + limit, n), m)) + sorted =~= cp + (drop_spent(
            all.subrange(j + limit, n),
            m,
        ) + sorted));
        assert(pages_from(c, m, h, Some(cv), limit, fuel) == cp + (drop_spent(
            all.subrange(j + limit, n),
            m,
        ) + sorted));
    } else {
        lemma_pages_chain_tail(c, m, h, limit, cv, j, fuel);
    }
}

/// The drained-chain step of the chain phase: a partial page empties the
/// chain and the sorted mempool follows.
#[verifier::rlimit(100)]
proof fn lemma_pages_chain_tail(
    c: &ChainIndex,
    m: &MempoolView,
    h: Seq<u8>,
    limit: int,
    cv: OutPointV,
    j: int,
    fuel: nat,
)
    requires
        c.wf(),
        m.wf(),
        limit >= 1,
        chain_below_mempool(c, m, h),
        0 <= j <= ch_utxos(c, h).len(),
        first_gt(ch_utxos(c, h), cv) == j,
        first_gt(sort_utxos(mp_utxos(m, h)), cv) == 0,
        j + limit > ch_utxos(c, h).len(),
        fuel >= ch_utxos(c, h).len() - j + sort_utxos(mp_utxos(m, h)).len() + 1,
    ensures
        pages_from(c, m, h, Some(cv), limit, fuel) == drop_spent(
            ch_utxos(c, h).subrange(j, ch_utxos(c, h).len() as int),
            m,
        ) + sort_utxos(mp_utxos(m, h)),
    decreases fuel,
{
    let all = ch_utxos(c, h);
    let n = all.len() as int;
    let mpv = mp_utxos(m, h);
    let sorted = sort_utxos(mpv);
    let mlen = sorted.len() as int;
    lemma_chain_views_strict(c, h);
    lemma_mempool_views_distinct(m, h);
    lemma_sort_utxos_strict(mpv);
    lemma_sort_utxos_ascending(mpv);
    let res = cursor_result(c, m, h, Some(cv), limit);
    let chunk = ch_cursor_page(all, Some(cv), limit);
    let cp = drop_spent(chunk, m);
    lemma_drop_spent_elems(chunk, m);
        // A partial chain page drains the chain; the mempool follows.
        assert(chunk == all.subrange(j, n));
        assert(chunk.len() == n - j);
        assert(chunk.len() < limit);
        assert(ch_cursor_next(all, Some(cv), limit) is None);
        assert(cp.len() < limit);
        // The step's mempool part starts at the front of the sorted list.
        let remaining = limit - cp.len();
        if 0 < mlen {
            if remaining < mlen {
                assert(res.page == cp + sorted.subrange(0, remaining));
                let nxt = utxo_op(sorted[remaining - 1]);
                assert(res.next == Some(nxt));
                assert(first_gt(sorted, nxt) == remaining) by {
                    assert forall|w: int| 0 <= w < remaining implies !op_lt(
                        nxt,
                        utxo_op(#[trigger] sorted[w]),
                    ) by {
                        if w < remaining - 1 {
                            assert(op_lt(utxo_op(sorted[w]), nxt));
                            crate::types::lemma_op_asym(utxo_op(sorted[w]), nxt);
                        } else {
                            crate::types::lemma_op_asym(nxt, nxt);
                        }
                    }
                    assert(op_lt(nxt, utxo_op(sorted[remaining])));
                    lemma_first_gt_is(sorted, nxt, remaining);
                }
                assert(first_gt(all, nxt) == n) by {
                    assert forall|w: int| 0 <= w < n implies !op_lt(
                        nxt,
                        utxo_op(#[trigger] all[w]),
                    ) by {
                        assert(mpv.contains(sorted[remaining - 1]));
                        let ww = choose|ww: int|
                            0 <= ww < mpv.len() && mpv[ww] == sorted[remaining - 1];
                        assert(op_lt(utxo_op(all[w]), utxo_op(mpv[ww])));
                        crate::types::lemma_op_asym(utxo_op(all[w]), nxt);
                    }
                    lemma_first_gt_is(all, nxt, n);
                }
                lemma_pages_mempool(c, m, h, limit, nxt, remaining, (fuel - 1) as nat);
                assert(pages_from(c, m, h, Some(cv), limit, fuel) == (cp + sorted.subrange(
                    0,
                    remaining,
                )) + sorted.subrange(remaining, mlen));
                assert((cp + sorted.subrange(0, remaining)) + sorted.subrange(remaining, mlen)
                    =~= cp + sorted);
            } else {
                assert(res.page == cp + sorted.subrange(0, mlen));
                assert(res.next is None);
                assert(sorted.subrange(0, mlen) =~= sorted);
                assert(pages_from(c, m, h, Some(cv), limit, fuel) == res.page);
            }
        } else {
            assert(res.page == cp);
            assert(res.next is None);
            assert(cp + sorted =~= cp);
            assert(pages_from(c, m, h, Some(cv), limit, fuel) == res.page);
        }
}

/// Page completeness: iterating cursor pages from the start until no next
/// cursor comes back yields exactly the merged UTXO view of the scripthash
/// — the unspent chain entries in order, then the mempool entries sorted by
/// (txid, vout) — each outpoint exactly once.
///
/// The two side conditions name the inputs on which the served pagination
/// honestly loses entries. When some mempool outpoint does not sort after
/// every chain outpoint, resuming past a chain cursor skips the mempool
/// entries below it. And when a cursor-less first page drains the chain but
/// still shows chain entries, no next cursor is handed out, so the mempool
/// tail is never served.
#[verifier::rlimit(100)]
pub proof fn lemma_page_completeness(
    c: &ChainIndex,
    m: &MempoolView,
    h: Seq<u8>,
    limit: int,
    fuel: nat,
)
    requires
        c.wf(),
        m.wf(),
        limit >= 1,
        chain_below_mempool(c, m, h),
        ch_utxos(c, h).len() >= limit || mp_utxos(m, h).len() == 0 || drop_spent(
            ch_utxos(c, h),
            m,
        ).len() == 0,
        fuel >= ch_utxos(c, h).len() + mp_utxos(m, h).len() + 2,
    ensures
        pages_from(c, m, h, None, limit, fuel) == drop_spent(ch_utxos(c, h), m) + sort_utxos(
            mp_utxos(m, h),
        ),
{
    let all = ch_utxos(c, h);
    let n = all.len() as int;
    let mpv = mp_utxos(m, h);
    let sorted = sort_utxos(mpv);
    let mlen = sorted.len() as int;
    lemma_chain_views_strict(c, h);
    lemma_mempool_views_distinct(m, h);
    lemma_sort_utxos_strict(mpv);
    lemma_sort_utxos_ascending(mpv);
    let res = cursor_result(c, m, h, None, limit);
    let chunk = ch_cursor_page(all, None, limit);
    let cp = drop_spent(chunk, m);
    lemma_drop_spent_elems(chunk, m);
    if limit <= n {
        // A full first page; the walk continues from its last entry.
        assert(chunk == all.subrange(0, limit));
        let nxt = utxo_op(all[limit - 1]);
        assert(chunk.last() == all[limit - 1]);
        assert(ch_cursor_next(all, None, limit) == Some(nxt));
        assert(res.page == cp && res.next == Some(nxt));
        assert(first_gt(all, nxt) == limit) by {
            assert forall|w: int| 0 <= w < limit implies !op_lt(
                nxt,
                utxo_op(#[trigger] all[w]),
            ) by {
                if w < limit - 1 {
                    assert(op_lt(utxo_op(all[w]), nxt));
                    crate::types::lemma_op_asym(utxo_op(all[w]), nxt);
                } else {
                    crate::types::lemma_op_asym(nxt, nxt);
                }
            }
            if limit < n {
                assert(op_lt(nxt, utxo_op(all[limit])));
            }
            lemma_first_gt_is(all, nxt, limit);
        }
        assert(first_gt(sorted, nxt) == 0) by {
            if 0 < mlen {
                assert(mpv.contains(sorted[0]));
                let w = choose|w: int| 0 <= w < mpv.len() && mpv[w] == sorted[0];
                assert(op_lt(utxo_op(all[limit - 1]), utxo_op(mpv[w])));
            }
            lemma_first_gt_is(sorted, nxt, 0);
        }
        lemma_pages_chain(c, m, h, limit, nxt, limit, (fuel - 1) as nat);
        lemma_drop_spent_concat(all.subrange(0, limit), all.subrange(limit, n), m);
        assert(all.subrange(0, limit) + all.subrange(limit, n) =~= all);
        assert((cp + drop_spent(all.subrange(limit, n), m)) + sorted =~= cp + (drop_spent(
            all.subrange(limit, n),
            m,
        ) + sorted));
        assert(pages_from(c, m, h, None, limit, fuel) == cp + (drop_spent(
            all.subrange(limit, n),
            m,
        ) + sorted));
    } else {
        lemma_page_completeness_small(c, m, h, limit, fuel);
    }
}

/// The cursor-less start when the whole chain fits the first page.
#[verifier::rlimit(100)]
proof fn lemma_page_completeness_small(
    c: &ChainIndex,
    m: &MempoolView,
    h: Seq<u8>,
    limit: int,
    fuel: nat,
)
    requires
        c.wf(),
        m.wf(),
        limit >= 1,
        chain_below_mempool(c, m, h),
        ch_utxos(c, h).len() < limit,
        mp_utxos(m, h).len() == 0 || drop_spent(ch_utxos(c, h), m).len() == 0,
        fuel >= ch_utxos(c, h).len() + mp_utxos(m, h).len() + 2,
    ensures
        pages_from(c, m, h, None, limit, fuel) == drop_spent(ch_utxos(c, h), m) + sort_utxos(
            mp_utxos(m, h),
        ),
{
    let all = ch_utxos(c, h);
    let n = all.len() as int;
    let mpv = mp_utxos(m, h);
    let sorted = sort_utxos(mpv);
    let mlen = sorted.len() as int;
    lemma_chain_views_strict(c, h);
    lemma_mempool_views_distinct(m, h);
    lemma_sort_utxos_strict(mpv);
    lemma_sort_utxos_ascending(mpv);
    let res = cursor_result(c, m, h, None, limit);
    let chunk = ch_cursor_page(all, None, limit);
    let cp = drop_spent(chunk, m);
    lemma_drop_spent_elems(chunk, m);
        // The whole chain fits the first page.
        assert(chunk == all.subrange(0, n));
        assert(chunk =~= all);
        assert(chunk.len() < limit);
        assert(ch_cursor_next(all, None, limit) is None);
        assert(cp.len() < limit);
        let remaining = limit - cp.len();
        if mlen == 0 {
            assert(res.page == cp);
            assert(res.next is None);
            assert(cp + sorted =~= cp);
            assert(pages_from(c, m, h, None, limit, fuel) == res.page);
        } else {
            // The side condition leaves only the drained-chain start.
            assert(cp.len() == 0);
            if remaining < mlen {
                assert(res.page == cp + sorted.subrange(0, remaining));
                let nxt = utxo_op(sorted[remaining - 1]);
                assert(res.next == Some(nxt));
                assert(first_gt(sorted, nxt) == remaining) by {
                    assert forall|w: int| 0 <= w < remaining implies !op_lt(
                        nxt,
                        utxo_op(#[trigger] sorted[w]),
                    ) by {
                        if w < remaining - 1 {
                            assert(op_lt(utxo_op(sorted[w]), nxt));
                            crate::types::lemma_op_asym(utxo_op(sorted[w]), nxt);
                        } else {
                            crate::types::lemma_op_asym(nxt, nxt);
                        }
                    }
                    assert(op_lt(nxt, utxo_op(sorted[remaining])));
                    lemma_first_gt_is(sorted, nxt, remaining);
                }
                assert(first_gt(all, nxt) == n) by {
                    assert forall|w: int| 0 <= w < n implies !op_lt(
                        nxt,
                        utxo_op(#[trigger] all[w]),
                    ) by {
                        assert(mpv.contains(sorted[remaining - 1]));
                        let ww = choose|ww: int|
                            0 <= ww < mpv.len() && mpv[ww] == sorted[remaining - 1];
                        assert(op_lt(utxo_op(all[w]), utxo_op(mpv[ww])));
                        crate::types::lemma_op_asym(utxo_op(all[w]), nxt);
                    }
                    lemma_first_gt_is(all, nxt, n);
                }
                lemma_pages_mempool(c, m, h, limit, nxt, remaining, (fuel - 1) as nat);
                assert(pages_from(c, m, h, None, limit, fuel) == (cp + sorted.subrange(
                    0,
                    remaining,
                )) + sorted.subrange(remaining, mlen));
                assert((cp + sorted.subrange(0, remaining)) + sorted.subrange(remaining, mlen)
                    =~= drop_spent(all, m) + sorted);
            } else {
                assert(res.page == cp + sorted.subrange(0, mlen));
                assert(res.next is None);
                assert(cp + sorted.subrange(0, mlen) =~= drop_spent(all, m) + sorted);
                assert(pages_from(c, m, h, None, limit, fuel) == res.page);
            }
        }
}

} // verus!
