use utxoquery::chain::{BlockRec, ChainIndex, ChainScript, HistoryEntry, TxRecord};
use utxoquery::fees::FeeCache;
use utxoquery::mempool::{MempoolScript, MempoolTx, MempoolView};
use utxoquery::query::{Config, Network, Query};
use utxoquery::router::{
    handle_request, resume_request, ttl_by_depth, ContentType, DaemonReply, DaemonRequest, Method,
    Pending, RespBody, Step, TTL_LONG, TTL_SHORT,
};
use utxoquery::tx::{Transaction, TxOut};
use utxoquery::types::{BlockId, Hash32, OutPoint, ScriptStats, SpendRecord, SpendingInput, Utxo};

fn h(n: u8) -> Hash32 {
    Hash32 { bytes: vec![n; 32] }
}

fn hex_of(n: u8) -> String {
    hex::encode(vec![n; 32])
}

fn blockid() -> BlockId {
    BlockId { hash: h(0xB0), height: 800_000, time: 1234 }
}

fn stats0() -> ScriptStats {
    ScriptStats {
        funded_txo_count: 0,
        funded_txo_sum: 0,
        spent_txo_count: 0,
        spent_txo_sum: 0,
        tx_count: 0,
    }
}

fn spendable_script() -> Vec<u8> {
    let mut s = vec![0x00u8, 0x14];
    s.extend(vec![0u8; 20]);
    s
}

fn tx_with_txid(txid: Hash32) -> Transaction {
    Transaction {
        txid,
        version: 2,
        locktime: 0,
        size: 100,
        weight: 400,
        input: Vec::new(),
        output: vec![TxOut { value: 500, script_pubkey: spendable_script() }],
    }
}

fn chain_utxo(txid: u8, vout: u32, value: u64) -> Utxo {
    Utxo { txid: h(txid), vout, value, confirmed: Some(blockid()) }
}

fn mempool_utxo(txid: u8, vout: u32, value: u64) -> Utxo {
    Utxo { txid: h(txid), vout, value, confirmed: None }
}

fn fixture() -> Query {
    let chain = ChainIndex {
        blocks: vec![
            BlockRec {
                id: blockid(),
                prev_hash: h(0xAF),
                version: 2,
                merkle_root: h(0x01),
                nonce: 7,
                bits: 0x1700_0000,
                mediantime: 1200,
                size: 1000,
                weight: 4000,
                raw_header: vec![1, 2, 3],
                raw: vec![9, 9],
                txids: vec![h(0x01)],
            },
        ],
        scripts: vec![
            ChainScript {
                scripthash: h(0xAA),
                utxos: vec![chain_utxo(0x01, 0, 1000), chain_utxo(0x02, 1, 2000)],
                history: vec![HistoryEntry { txid: h(0x01), block: blockid() }],
                stats: ScriptStats {
                    funded_txo_count: 2,
                    funded_txo_sum: 3000,
                    spent_txo_count: 0,
                    spent_txo_sum: 0,
                    tx_count: 1,
                },
            },
            ChainScript {
                scripthash: h(0xBB),
                utxos: vec![
                    chain_utxo(0x01, 1, 10),
                    chain_utxo(0x02, 0, 20),
                    chain_utxo(0x03, 0, 30),
                ],
                history: Vec::new(),
                stats: stats0(),
            },
        ],
        txs: vec![
            TxRecord { txid: h(0x01), tx: tx_with_txid(h(0x01)), raw: vec![0xab, 0xcd], block: blockid() },
        ],
        spends: Vec::new(),
        addresses: Vec::new(),
    };
    let mempool = MempoolView {
        txs: vec![
            MempoolTx {
                txid: h(0x05),
                tx: tx_with_txid(h(0x05)),
                raw: vec![0x05, 0x05],
                fee: 100,
                vsize: 50,
                has_unconfirmed_parents: false,
            },
        ],
        scripts: vec![
            MempoolScript {
                scripthash: h(0xAA),
                utxos: vec![mempool_utxo(0x05, 0, 500)],
                history: vec![h(0x05)],
                stats: stats0(),
            },
            MempoolScript {
                scripthash: h(0xBB),
                utxos: vec![mempool_utxo(0x11, 0, 2), mempool_utxo(0x10, 0, 1)],
                history: Vec::new(),
                stats: stats0(),
            },
        ],
        spends: vec![
            SpendRecord {
                outpoint: OutPoint { txid: h(0x01), vout: 0 },
                spend: SpendingInput { txid: h(0x05), vin: 0, confirmed: None },
            },
        ],
        recent: Vec::new(),
        backlog_vsize: 50,
        backlog_total_fee: 100,
        histogram: vec![(12_500, 50)],
    };
    let config = Config {
        network_type: Network::Bitcoin,
        utxos_limit: 500,
        cors: None,
        address_search: false,
    };
    Query { chain, mempool, config, fees: FeeCache::empty() }
}

fn done(step: Step) -> (u16, Option<u32>, ContentType, String) {
    match step {
        Step::Done(resp) => {
            let body = match resp.body {
                RespBody::Text(t) => t,
                RespBody::Raw(b) => hex::encode(b),
            };
            (resp.status, resp.cache_ttl, resp.content_type, body)
        },
        Step::Daemon(_, _) => panic!("expected a finished response"),
    }
}

fn get(q: &Query, path: &str, qs: &str) -> (u16, Option<u32>, ContentType, String) {
    done(handle_request(q, Method::Get, path, qs, &Vec::new(), 1_000))
}

#[test]
fn tip_height_text() {
    let q = fixture();
    let (status, ttl, ct, body) = get(&q, "/blocks/tip/height", "");
    assert_eq!(200, status);
    assert_eq!(Some(10), ttl);
    assert_eq!(ContentType::TextPlain, ct);
    assert_eq!("800000", body);
}

#[test]
fn tip_hash_text() {
    let q = fixture();
    let (status, _, _, body) = get(&q, "/blocks/tip/hash", "");
    assert_eq!(200, status);
    assert_eq!(hex_of(0xB0), body);
}

#[test]
fn ttl_policy_by_depth() {
    assert_eq!(TTL_LONG, ttl_by_depth(Some(799_990), 800_000));
    assert_eq!(TTL_SHORT, ttl_by_depth(Some(799_991), 800_000));
    assert_eq!(TTL_SHORT, ttl_by_depth(None, 800_000));
    assert_eq!(TTL_SHORT, ttl_by_depth(Some(800_000), 800_000));
}

#[test]
fn unknown_tx_is_404() {
    let q = fixture();
    let (status, _, _, body) = get(&q, &format!("/tx/{}", hex_of(0xCC)), "");
    assert_eq!(404, status);
    assert_eq!("Transaction not found", body);
}

#[test]
fn known_tx_renders() {
    let q = fixture();
    let (status, ttl, _, body) = get(&q, &format!("/tx/{}", hex_of(0x01)), "");
    assert_eq!(200, status);
    // The block sits at the tip, so the answer is short-lived.
    assert_eq!(Some(TTL_SHORT), ttl);
    assert!(body.contains(&format!("\"txid\":\"{}\"", hex_of(0x01))));
    assert!(body.contains("\"confirmed\":true"));
    assert!(body.contains("\"block_height\":800000"));
}

#[test]
fn utxo_route_excludes_spent() {
    let q = fixture();
    let (status, _, _, body) = get(&q, &format!("/scripthash/{}/utxo", hex_of(0xAA)), "");
    assert_eq!(200, status);
    assert!(!body.contains(&hex_of(0x01)));
    assert!(body.contains(&hex_of(0x02)));
    assert!(body.contains(&hex_of(0x05)));
}

#[test]
fn cursor_route_pages_are_disjoint() {
    let q = fixture();
    let (status, _, _, body) = get(
        &q,
        &format!("/scripthash/{}/utxo", hex_of(0xBB)),
        "cursor=:&limit=2",
    );
    assert_eq!(200, status);
    let v: serde_json::Value = serde_json::from_str(&body).unwrap();
    assert_eq!(5, v["total"].as_u64().unwrap());
    let first: Vec<String> = v["utxos"]
        .as_array()
        .unwrap()
        .iter()
        .map(|u| format!("{}:{}", u["txid"].as_str().unwrap(), u["vout"]))
        .collect();
    let next = v["next_cursor"].as_str().unwrap().to_string();
    let (status, _, _, body2) = get(
        &q,
        &format!("/scripthash/{}/utxo", hex_of(0xBB)),
        &format!("cursor={}&limit=2", next),
    );
    assert_eq!(200, status);
    let v2: serde_json::Value = serde_json::from_str(&body2).unwrap();
    let second: Vec<String> = v2["utxos"]
        .as_array()
        .unwrap()
        .iter()
        .map(|u| format!("{}:{}", u["txid"].as_str().unwrap(), u["vout"]))
        .collect();
    assert_eq!(2, first.len());
    assert_eq!(2, second.len());
    for item in &first {
        assert!(!second.contains(item));
    }
}

#[test]
fn balance_route_adds_up() {
    let q = fixture();
    let (status, _, _, body) = get(&q, &format!("/scripthash/{}/balance", hex_of(0xAA)), "");
    assert_eq!(200, status);
    // Chain: 3000 funded, 0 spent; mempool stats are zero here.
    assert!(body.contains("\"confirm_amount\":\"0.00003000\""));
    assert!(body.contains("\"amount\":\"0.00003000\""));
}

#[test]
fn broadcast_has_no_size_check_and_lands_in_mempool() {
    let mut q = fixture();
    // A 60-byte body is far below the batch endpoints' floor of 120, and
    // still goes straight to the daemon.
    let body: Vec<u8> = vec![b'a'; 60];
    let step = handle_request(&q, Method::Post, "/tx", "", &body, 1_000);
    let pending = match step {
        Step::Daemon(DaemonRequest::Broadcast(hex), p) => {
            assert_eq!("a".repeat(60), hex);
            p
        },
        _ => panic!("expected a daemon hand-off"),
    };
    assert!(matches!(pending, Pending::Broadcast));
    let entry = MempoolTx {
        txid: h(0x77),
        tx: tx_with_txid(h(0x77)),
        raw: vec![0x77],
        fee: 1,
        vsize: 10,
        has_unconfirmed_parents: false,
    };
    let step = resume_request(&mut q, pending, DaemonReply::BroadcastOk(entry), 1_000);
    let (status, _, _, body) = done(step);
    assert_eq!(200, status);
    assert_eq!(hex_of(0x77), body);
    let (_, _, _, txids) = get(&q, "/mempool/txids", "");
    assert!(txids.contains(&hex_of(0x77)));
}

#[test]
fn fee_estimates_hit_daemon_once_within_ttl() {
    let mut q = fixture();
    let step = handle_request(&q, Method::Get, "/fee-estimates", "", &Vec::new(), 1_000);
    let pending = match step {
        Step::Daemon(DaemonRequest::FeeEstimates, p) => p,
        _ => panic!("a cold cache asks the daemon"),
    };
    let step = resume_request(
        &mut q,
        pending,
        DaemonReply::FeeEstimates(vec![(1, 12_500), (2, 10_000)]),
        1_000,
    );
    let (status, _, _, body) = done(step);
    assert_eq!(200, status);
    assert!(body.contains("\"1\":12.500"));
    // A second request within sixty seconds is served from the cache: no
    // second daemon call.
    let step = handle_request(&q, Method::Get, "/fee-estimates", "", &Vec::new(), 50_000);
    let (status, _, _, body) = done(step);
    assert_eq!(200, status);
    assert!(body.contains("\"2\":10.000"));
    // Past the window the daemon is asked again.
    let step = handle_request(&q, Method::Get, "/fee-estimates", "", &Vec::new(), 62_000);
    assert!(matches!(step, Step::Daemon(DaemonRequest::FeeEstimates, _)));
}

#[test]
fn outspend_route_reports_mempool_spend() {
    let q = fixture();
    let (status, _, _, body) = get(&q, &format!("/tx/{}/outspend/0", hex_of(0x01)), "");
    assert_eq!(200, status);
    assert!(body.contains("\"spent\":true"));
    assert!(body.contains(&format!("\"txid\":\"{}\"", hex_of(0x05))));
    assert!(body.contains("\"confirmed\":false"));
}

#[test]
fn batch_size_check_only_on_batch_endpoints() {
    let q = fixture();
    // A 60-character item fails the batch floor of 120 with the per-item
    // message.
    let body = format!("[\"{}\"]", "a".repeat(60));
    let step = handle_request(&q, Method::Post, "/txs/test", "", &body.into_bytes(), 1_000);
    let (status, _, _, text) = done(step);
    assert_eq!(400, status);
    assert_eq!("Invalid transaction size for item 0", text);
}

#[test]
fn unknown_endpoint_is_404() {
    let q = fixture();
    let (status, _, _, body) = get(&q, "/no/such/endpoint", "");
    assert_eq!(404, status);
    assert!(body.contains("endpoint does not exist"));
}

#[test]
fn block_routes() {
    let q = fixture();
    let (status, _, _, body) = get(&q, "/block-height/800000", "");
    assert_eq!(200, status);
    assert_eq!(hex_of(0xB0), body);

    let (status, _, _, _) = get(&q, "/block-height/1", "");
    assert_eq!(404, status);

    let (status, ttl, _, body) = get(&q, &format!("/block/{}", hex_of(0xB0)), "");
    assert_eq!(200, status);
    assert_eq!(Some(TTL_LONG), ttl);
    assert!(body.contains("\"height\":800000"));
    assert!(body.contains("\"tx_count\":1"));

    let (status, _, _, body) = get(&q, &format!("/block/{}/txids", hex_of(0xB0)), "");
    assert_eq!(200, status);
    assert!(body.contains(&hex_of(0x01)));

    let (status, _, _, body) = get(&q, &format!("/block/{}/header", hex_of(0xB0)), "");
    assert_eq!(200, status);
    assert_eq!("010203", body);

    let (status, _, _, body) = get(&q, &format!("/block/{}/txid/0", hex_of(0xB0)), "");
    assert_eq!(200, status);
    assert_eq!(hex_of(0x01), body);

    let (status, _, _, body) = get(&q, &format!("/block/{}/txid/5", hex_of(0xB0)), "");
    assert_eq!(404, status);
    assert_eq!("tx index out of range", body);
}

#[test]
fn mempool_routes() {
    let q = fixture();
    let (status, _, _, body) = get(&q, "/mempool", "");
    assert_eq!(200, status);
    assert!(body.contains("\"count\":1"));
    assert!(body.contains("\"total_fee\":100"));
    assert!(body.contains("[12.500,50]"));

    let (status, ttl, _, body) = get(&q, "/mempool/recent", "");
    assert_eq!(200, status);
    assert_eq!(Some(5), ttl);
    assert_eq!("[]", body);
}

#[test]
fn other_method_is_404() {
    let q = fixture();
    let step = handle_request(&q, Method::Other, "/blocks/tip/height", "", &Vec::new(), 1_000);
    let (status, _, _, _) = done(step);
    assert_eq!(404, status);
}

#[test]
fn merkle_proof_single_tx_block() {
    let q = fixture();
    let (status, ttl, _, body) = get(&q, &format!("/tx/{}/merkle-proof", hex_of(0x01)), "");
    assert_eq!(200, status);
    // The block sits at the tip, so the proof is short-lived.
    assert_eq!(Some(TTL_SHORT), ttl);
    let v: serde_json::Value = serde_json::from_str(&body).unwrap();
    assert_eq!(800_000, v["block_height"].as_u64().unwrap());
    assert_eq!(0, v["pos"].as_u64().unwrap());
    assert_eq!(0, v["merkle"].as_array().unwrap().len());

    let (status, _, _, body) = get(&q, &format!("/tx/{}/merkle-proof", hex_of(0x05)), "");
    assert_eq!(404, status);
    assert_eq!("Transaction not found or is unconfirmed", body);
}

#[test]
fn package_broadcasts_one_by_one() {
    let mut q = fixture();
    let item = "ab".repeat(60);
    let body = format!("[\"{}\",\"{}\"]", item, item);
    let step = handle_request(&q, Method::Post, "/txs/package", "", &body.into_bytes(), 1_000);
    let pending = match step {
        Step::Daemon(DaemonRequest::Broadcast(hex), p) => {
            assert_eq!(item, hex);
            p
        },
        _ => panic!("expected the first broadcast"),
    };
    let step = resume_request(
        &mut q,
        pending,
        DaemonReply::BroadcastErr("bad tx".to_string()),
        1_000,
    );
    let pending = match step {
        Step::Daemon(DaemonRequest::Broadcast(_), p) => p,
        _ => panic!("expected the second broadcast"),
    };
    let entry = MempoolTx {
        txid: h(0x78),
        tx: tx_with_txid(h(0x78)),
        raw: vec![0x78],
        fee: 1,
        vsize: 10,
        has_unconfirmed_parents: false,
    };
    let step = resume_request(&mut q, pending, DaemonReply::BroadcastOk(entry), 1_000);
    let (status, _, _, body) = done(step);
    assert_eq!(200, status);
    let v: serde_json::Value = serde_json::from_str(&body).unwrap();
    assert_eq!(false, v["success"].as_bool().unwrap());
    assert_eq!(1, v["txids_submitted"].as_u64().unwrap());
    assert_eq!(2, v["total_txids"].as_u64().unwrap());
    assert_eq!(2, v["transactions"].as_array().unwrap().len());
}

#[test]
fn getsupply_round_trip() {
    let mut q = fixture();
    let step = handle_request(&q, Method::Get, "/blockchain/getsupply", "", &Vec::new(), 1_000);
    let pending = match step {
        Step::Daemon(DaemonRequest::TxOutSetInfo, p) => p,
        _ => panic!("the supply needs the daemon"),
    };
    let step = resume_request(&mut q, pending, DaemonReply::Supply(2_100_000_000_000_000), 1_000);
    let (status, _, _, body) = done(step);
    assert_eq!(200, status);
    assert!(body.contains("\"total_amount\":\"21000000.00000000\""));
    assert!(body.contains("\"height\":800000"));
}

#[test]
fn batch_size_boundary_is_inclusive() {
    let q = fixture();
    // Exactly 800000 bytes of hex passes the size precheck; the item then
    // fails consensus decoding, which is an allowed=false row, not a 400.
    let body = format!("[\"{}\"]", "aa".repeat(400_000));
    let step = handle_request(&q, Method::Post, "/txs/test", "", &body.into_bytes(), 1_000);
    let (status, _, _, text) = done(step);
    assert_eq!(200, status);
    assert!(text.contains("\"allowed\":false"));

    // One byte over the bound is rejected with the size message.
    let body = format!("[\"{}a\"]", "aa".repeat(400_000));
    let step = handle_request(&q, Method::Post, "/txs/test", "", &body.into_bytes(), 1_000);
    let (status, _, _, text) = done(step);
    assert_eq!(400, status);
    assert_eq!("Invalid transaction size for item 0", text);
}

#[test]
fn blocks_walk_stops_at_zero_prev() {
    let mut q = fixture();
    // A window whose oldest block's previous hash is unknown cannot finish
    // the walk.
    let (status, _, _, body) = get(&q, "/blocks", "");
    assert_eq!(404, status);
    assert_eq!("Block not found", body);

    // With an all-zero previous hash the walk stops after that block.
    q.chain.blocks[0].prev_hash = Hash32 { bytes: vec![0u8; 32] };
    assert!(q.check_wf());
    let (status, ttl, _, body) = get(&q, "/blocks", "");
    assert_eq!(200, status);
    assert_eq!(Some(TTL_SHORT), ttl);
    let v: serde_json::Value = serde_json::from_str(&body).unwrap();
    assert_eq!(1, v.as_array().unwrap().len());
    assert_eq!(800_000, v[0]["height"].as_u64().unwrap());
}

#[test]
fn fee_targets_are_the_recognized_set() {
    let targets = utxoquery::fees::conf_targets();
    let expected: Vec<u16> = (1u16..=25).chain([144u16, 504, 1008]).collect();
    assert_eq!(expected, targets);
}

#[test]
fn merkleblock_proof_matches_consensus_encoding() {
    let mut q = fixture();
    q.chain.blocks[0].raw_header = vec![0u8; 80];
    let path = format!("/tx/{}/merkleblock-proof", hex_of(0x01));
    let (status, ttl, ct, body) = get(&q, &path, "");
    assert_eq!(200, status);
    assert_eq!(Some(10), ttl);
    assert_eq!(ContentType::TextPlain, ct);
    let header: bitcoin::block::Header =
        bitcoin::consensus::encode::deserialize(&[0u8; 80]).unwrap();
    let id = <bitcoin::Txid as bitcoin::hashes::Hash>::from_slice(&[0x01u8; 32]).unwrap();
    let txn = bitcoin::merkle_tree::PartialMerkleTree::from_txids(&[id], &[true]);
    let expected = bitcoin::consensus::encode::serialize_hex(&bitcoin::MerkleBlock { header, txn });
    assert_eq!(expected, body);
}

#[test]
fn merkleblock_proof_unknown_tx_is_not_found() {
    let q = fixture();
    let path = format!("/tx/{}/merkleblock-proof", hex_of(0x44));
    let (status, _, _, body) = get(&q, &path, "");
    assert_eq!(404, status);
    assert_eq!("Transaction not found or is unconfirmed", body);
}

#[test]
fn fee_estimates_keep_only_recognized_targets() {
    let mut q = fixture();
    let step = handle_request(&q, Method::Get, "/fee-estimates", "", &Vec::new(), 1_000);
    let pending = match step {
        Step::Daemon(DaemonRequest::FeeEstimates, p) => p,
        _ => panic!("a cold cache asks the daemon"),
    };
    // The daemon hands back a target outside the recognized set; the body
    // and the stored cache both drop it.
    let step = resume_request(
        &mut q,
        pending,
        DaemonReply::FeeEstimates(vec![(1, 12_000), (37, 9_000), (144, 5_000)]),
        1_000,
    );
    let (status, _, _, body) = done(step);
    assert_eq!(200, status);
    assert!(body.contains("\"1\":12.000"));
    assert!(body.contains("\"144\":5.000"));
    assert!(!body.contains("\"37\""));
    assert_eq!(vec![(1u16, 12_000u64), (144, 5_000)], q.fees.map);
}
