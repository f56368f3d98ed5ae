use utxoquery::chain::{BlockRec, ChainIndex, ChainScript, HistoryEntry, TxRecord};
use utxoquery::fees::FeeCache;
use utxoquery::mempool::{MempoolScript, MempoolTx, MempoolView};
use utxoquery::query::{Config, Network, Query};
use utxoquery::script::{script_type, ScriptType};
use utxoquery::tx::{Transaction, TxOut};
use utxoquery::types::{BlockId, Hash32, OutPoint, ScriptStats, SpendRecord, SpendingInput, Utxo};

fn h(n: u8) -> Hash32 {
    Hash32 { bytes: vec![n; 32] }
}

fn blockid() -> BlockId {
    BlockId { hash: h(0xB0), height: 800_000, time: 1234 }
}

fn stats0() -> ScriptStats {
    ScriptStats {
        funded_txo_count: 0,
        funded_txo_sum: 0,
        spent_txo_count: 0,
        spent_txo_sum: 0,
        tx_count: 0,
    }
}

fn spendable_script() -> Vec<u8> {
    let mut s = vec![0x00u8, 0x14];
    s.extend(vec![0u8; 20]);
    s
}

fn tx_with_txid(txid: Hash32) -> Transaction {
    Transaction {
        txid,
        version: 2,
        locktime: 0,
        size: 100,
        weight: 400,
        input: Vec::new(),
        output: vec![TxOut { value: 500, script_pubkey: spendable_script() }],
    }
}

fn chain_utxo(txid: u8, vout: u32, value: u64) -> Utxo {
    Utxo { txid: h(txid), vout, value, confirmed: Some(blockid()) }
}

fn mempool_utxo(txid: u8, vout: u32, value: u64) -> Utxo {
    Utxo { txid: h(txid), vout, value, confirmed: None }
}

/// One chain block at height 800000; scripthash 0xAA has two chain UTXOs,
/// of which the first is spent by mempool transaction 0x05, which also
/// creates one UTXO for it; scripthash 0xBB has three chain UTXOs and two
/// mempool UTXOs for pagination tests.
fn fixture() -> Query {
    let chain = ChainIndex {
        blocks: vec![
            BlockRec {
                id: blockid(),
                prev_hash: h(0xAF),
                version: 2,
                merkle_root: h(0x01),
                nonce: 7,
                bits: 0x1700_0000,
                mediantime: 1200,
                size: 1000,
                weight: 4000,
                raw_header: vec![1, 2, 3],
                raw: vec![9, 9],
                txids: vec![h(0x01)],
            },
        ],
        scripts: vec![
            ChainScript {
                scripthash: h(0xAA),
                utxos: vec![chain_utxo(0x01, 0, 1000), chain_utxo(0x02, 1, 2000)],
                history: vec![HistoryEntry { txid: h(0x01), block: blockid() }],
                stats: ScriptStats {
                    funded_txo_count: 2,
                    funded_txo_sum: 3000,
                    spent_txo_count: 0,
                    spent_txo_sum: 0,
                    tx_count: 1,
                },
            },
            ChainScript {
                scripthash: h(0xBB),
                utxos: vec![
                    chain_utxo(0x01, 1, 10),
                    chain_utxo(0x02, 0, 20),
                    chain_utxo(0x03, 0, 30),
                ],
                history: Vec::new(),
                stats: stats0(),
            },
        ],
        txs: vec![
            TxRecord { txid: h(0x01), tx: tx_with_txid(h(0x01)), raw: vec![0xab, 0xcd], block: blockid() },
        ],
        spends: Vec::new(),
        addresses: Vec::new(),
    };
    let mempool = MempoolView {
        txs: vec![
            MempoolTx {
                txid: h(0x05),
                tx: tx_with_txid(h(0x05)),
                raw: vec![0x05, 0x05],
                fee: 100,
                vsize: 50,
                has_unconfirmed_parents: false,
            },
        ],
        scripts: vec![
            MempoolScript {
                scripthash: h(0xAA),
                utxos: vec![mempool_utxo(0x05, 0, 500)],
                history: vec![h(0x05)],
                stats: ScriptStats {
                    funded_txo_count: 1,
                    funded_txo_sum: 500,
                    spent_txo_count: 1,
                    spent_txo_sum: 1000,
                    tx_count: 1,
                },
            },
            MempoolScript {
                scripthash: h(0xBB),
                // Deliberately unsorted; pagination must sort them.
                utxos: vec![mempool_utxo(0x11, 0, 2), mempool_utxo(0x10, 0, 1)],
                history: Vec::new(),
                stats: stats0(),
            },
        ],
        spends: vec![
            SpendRecord {
                outpoint: OutPoint { txid: h(0x01), vout: 0 },
                spend: SpendingInput { txid: h(0x05), vin: 0, confirmed: None },
            },
        ],
        recent: Vec::new(),
        backlog_vsize: 50,
        backlog_total_fee: 100,
        histogram: vec![(12_500, 50)],
    };
    let config = Config {
        network_type: Network::Bitcoin,
        utxos_limit: 500,
        cors: None,
        address_search: false,
    };
    Query { chain, mempool, config, fees: FeeCache::empty() }
}

#[test]
fn fixture_is_well_formed() {
    assert!(fixture().check_wf());
}

#[test]
fn utxo_excludes_mempool_spent() {
    // The merged view never hands out an outpoint the mempool spends.
    let q = fixture();
    let utxos = q.utxo(&h(0xAA));
    assert_eq!(2, utxos.len());
    assert_eq!(vec![0x02u8; 32], utxos[0].txid.bytes);
    assert_eq!(vec![0x05u8; 32], utxos[1].txid.bytes);
    for u in &utxos {
        assert!(!(u.txid.bytes == vec![0x01u8; 32] && u.vout == 0));
    }
}

#[test]
fn cursor_pages_cover_everything_once() {
    // Iterating pages until the cursor runs out yields every merged UTXO
    // of the scripthash exactly once, chain first, sorted mempool after.
    let q = fixture();
    let hh = h(0xBB);
    let mut seen: Vec<(Vec<u8>, u32)> = Vec::new();
    let mut cursor: Option<OutPoint> = None;
    loop {
        let (page, total, next) = q.utxo_with_cursor(&hh, cursor.as_ref(), 2);
        assert_eq!(5, total);
        assert!(page.len() <= 2);
        for u in &page {
            seen.push((u.txid.bytes.clone(), u.vout));
        }
        match next {
            Some(op) => cursor = Some(op),
            None => break,
        }
    }
    let expect: Vec<(Vec<u8>, u32)> = vec![
        (vec![0x01u8; 32], 1),
        (vec![0x02u8; 32], 0),
        (vec![0x03u8; 32], 0),
        (vec![0x10u8; 32], 0),
        (vec![0x11u8; 32], 0),
    ];
    assert_eq!(expect, seen);
}

#[test]
fn cursor_requests_are_stable() {
    let q = fixture();
    let hh = h(0xBB);
    let (p1, t1, n1) = q.utxo_with_cursor(&hh, None, 2);
    let (p2, t2, n2) = q.utxo_with_cursor(&hh, None, 2);
    assert_eq!(t1, t2);
    assert_eq!(p1.len(), p2.len());
    for k in 0..p1.len() {
        assert_eq!(p1[k].txid.bytes, p2[k].txid.bytes);
        assert_eq!(p1[k].vout, p2[k].vout);
    }
    assert_eq!(n1.is_some(), n2.is_some());
}

#[test]
fn mempool_slice_is_sorted() {
    // The mempool entries were stored unsorted; once the chain is drained,
    // the page serves them sorted by (txid, vout) ascending.
    let q = fixture();
    let cursor = OutPoint { txid: h(0x03), vout: 0 };
    let (page, _, next) = q.utxo_with_cursor(&h(0xBB), Some(&cursor), 10);
    assert_eq!(2, page.len());
    assert!(page[0].confirmed.is_none());
    assert!(page[1].confirmed.is_none());
    assert_eq!(vec![0x10u8; 32], page[0].txid.bytes);
    assert_eq!(vec![0x11u8; 32], page[1].txid.bytes);
    assert!(next.is_none());
}

#[test]
fn cursorless_partial_chain_page_defers_mempool() {
    // From a cursor-less start, a page that still holds chain entries does
    // not mix mempool entries in: mempool pages begin only once the chain
    // is drained.
    let q = fixture();
    let (page, total, next) = q.utxo_with_cursor(&h(0xBB), None, 10);
    assert_eq!(5, total);
    assert_eq!(3, page.len());
    assert!(page.iter().all(|u| u.confirmed.is_some()));
    assert!(next.is_none());
}

#[test]
fn history_confirmed_before_unconfirmed() {
    let q = fixture();
    let hist = q.history_txids(&h(0xAA), 10);
    assert_eq!(2, hist.len());
    assert!(hist[0].1.is_some());
    assert!(hist[1].1.is_none());
    assert_eq!(vec![0x01u8; 32], hist[0].0.bytes);
    assert_eq!(vec![0x05u8; 32], hist[1].0.bytes);
}

#[test]
fn offset_pagination_totals() {
    let q = fixture();
    let (page, total) = q.utxo_paginated(&h(0xAA), 0, 10);
    // The total is the documented upper bound: it does not subtract the
    // mempool-spent chain UTXO.
    assert_eq!(3, total);
    assert_eq!(2, page.len());
}

#[test]
fn spend_lookup_prefers_chain_then_mempool() {
    let q = fixture();
    let spent = q.lookup_spend(&OutPoint { txid: h(0x01), vout: 0 }).unwrap();
    assert_eq!(vec![0x05u8; 32], spent.txid.bytes);
    assert!(spent.confirmed.is_none());
    assert!(q.lookup_spend(&OutPoint { txid: h(0x02), vout: 1 }).is_none());
}

#[test]
fn tx_lookup_chain_first() {
    let q = fixture();
    assert!(q.lookup_txn(&h(0x01)).is_some());
    assert!(q.lookup_txn(&h(0x05)).is_some());
    assert!(q.lookup_txn(&h(0x42)).is_none());
    assert_eq!(Some(vec![0xab, 0xcd]), q.lookup_raw_txn(&h(0x01)));
    assert_eq!(Some(vec![0x05, 0x05]), q.lookup_raw_txn(&h(0x05)));
}

#[test]
fn tx_status_comes_from_chain() {
    let q = fixture();
    let st = q.get_tx_status(&h(0x01));
    assert!(st.confirmed);
    assert_eq!(Some(800_000), st.block_height);
    let st = q.get_tx_status(&h(0x05));
    assert!(!st.confirmed);
    assert_eq!(None, st.block_height);
}

#[test]
fn mempool_fee_and_parents() {
    let q = fixture();
    assert_eq!(Some(100), q.get_mempool_tx_fee(&h(0x05)));
    assert_eq!(None, q.get_mempool_tx_fee(&h(0x01)));
    assert!(!q.has_unconfirmed_parents(&h(0x05)));
    assert!(!q.has_unconfirmed_parents(&h(0x42)));
}

#[test]
fn broadcast_registers_in_mempool() {
    let mut q = fixture();
    let entry = MempoolTx {
        txid: h(0x77),
        tx: tx_with_txid(h(0x77)),
        raw: vec![0x77],
        fee: 1,
        vsize: 10,
        has_unconfirmed_parents: false,
    };
    q.notify_broadcast(entry);
    assert!(q.lookup_txn(&h(0x77)).is_some());
    assert!(q.mempool.check_wf());
}

#[test]
fn fee_plan_follows_network_and_freshness() {
    let mut q = fixture();
    // Cold cache on mainnet: a refresh is needed.
    assert!(matches!(q.estimate_fee_plan(1, 1_000), utxoquery::query::FeePlan::NeedsRefresh));
    q.apply_fee_estimates(vec![(1, 12_500)], 1_000);
    assert!(matches!(
        q.estimate_fee_plan(1, 30_000),
        utxoquery::query::FeePlan::Cached(Some(12_500))
    ));
    assert!(matches!(
        q.estimate_fee_plan(9, 30_000),
        utxoquery::query::FeePlan::Cached(None)
    ));
    assert!(matches!(q.estimate_fee_plan(1, 61_001), utxoquery::query::FeePlan::NeedsRefresh));
    // Regtest always falls through to the relay fee.
    q.config.network_type = Network::Regtest;
    assert!(matches!(q.estimate_fee_plan(1, 30_000), utxoquery::query::FeePlan::UseRelayFee));
    assert_eq!(None, q.get_relayfee_cached());
    q.apply_relayfee(1_000);
    assert_eq!(Some(1_000), q.get_relayfee_cached());
}

#[test]
fn script_classification_order() {
    assert_eq!(ScriptType::Empty, script_type(&vec![]));
    assert_eq!(ScriptType::OpReturn, script_type(&vec![0x6a, 0x01, 0xff]));
    let mut p2pkh = vec![0x76, 0xa9, 0x14];
    p2pkh.extend(vec![0u8; 20]);
    p2pkh.extend(vec![0x88, 0xac]);
    assert_eq!(ScriptType::P2pkh, script_type(&p2pkh));
    let mut p2sh = vec![0xa9, 0x14];
    p2sh.extend(vec![0u8; 20]);
    p2sh.push(0x87);
    assert_eq!(ScriptType::P2sh, script_type(&p2sh));
    assert_eq!(ScriptType::V0P2wpkh, script_type(&spendable_script()));
    let mut p2wsh = vec![0x00, 0x20];
    p2wsh.extend(vec![0u8; 32]);
    assert_eq!(ScriptType::V0P2wsh, script_type(&p2wsh));
    let mut p2tr = vec![0x51, 0x20];
    p2tr.extend(vec![0u8; 32]);
    assert_eq!(ScriptType::V1P2tr, script_type(&p2tr));
    let mut p2pk = vec![0x21];
    p2pk.extend(vec![2u8; 33]);
    p2pk.push(0xac);
    assert_eq!(ScriptType::P2pk, script_type(&p2pk));
    assert_eq!(ScriptType::ProvablyUnspendable, script_type(&vec![0x50]));
    assert_eq!(ScriptType::Unknown, script_type(&vec![0x51]));
    assert!(utxoquery::script::is_spendable(&spendable_script()));
    assert!(!utxoquery::script::is_spendable(&vec![0x6a]));
    assert!(!utxoquery::script::is_spendable(&vec![]));
}
