use utxoquery::query::Network;
use utxoquery::router::{address_to_scripthash, to_scripthash};
use utxoquery::shapes::txout_json;
use utxoquery::tx::TxOut;

#[test]
fn address_scripthash_is_sha256_of_script() {
    let addr = "1A1zP1eP5QGefi2DMPTfTL5SLmv7DivfNa";
    let parsed: bitcoin::Address = addr
        .parse::<bitcoin::Address<bitcoin::address::NetworkUnchecked>>()
        .unwrap()
        .assume_checked();
    let script = parsed.script_pubkey();
    let digest = <bitcoin::hashes::sha256::Hash as bitcoin::hashes::Hash>::hash(script.as_bytes());
    let expected = <bitcoin::hashes::sha256::Hash as bitcoin::hashes::Hash>::to_byte_array(digest);
    let got = address_to_scripthash(addr, Network::Bitcoin).unwrap();
    assert_eq!(expected.to_vec(), got.bytes);

    // The same answer through the combined entry point.
    let got2 = to_scripthash("address", addr, Network::Bitcoin).unwrap();
    assert_eq!(expected.to_vec(), got2.bytes);

    // A mainnet address is rejected on another network.
    let err = address_to_scripthash(addr, Network::Regtest).unwrap_err();
    assert_eq!(400, err.status);
    assert_eq!("Address on invalid network", err.msg);

    // Garbage carries the parser's own message.
    let err = address_to_scripthash("notanaddress", Network::Bitcoin).unwrap_err();
    assert_eq!(400, err.status);
    assert!(!err.msg.is_empty());
}

#[test]
fn txout_rendering_matches_independent_tools() {
    // A P2PKH output: the rendered hex, class, address and assembly must
    // match what independent decoding of the same bytes yields.
    let addr = "1A1zP1eP5QGefi2DMPTfTL5SLmv7DivfNa";
    let parsed: bitcoin::Address = addr
        .parse::<bitcoin::Address<bitcoin::address::NetworkUnchecked>>()
        .unwrap()
        .assume_checked();
    let script = parsed.script_pubkey();
    let out = TxOut { value: 1234, script_pubkey: script.as_bytes().to_vec() };
    let body = txout_json(&out, Network::Bitcoin);
    assert!(body.contains(&format!("\"scriptpubkey\":\"{}\"", hex::encode(script.as_bytes()))));
    assert!(body.contains("\"scriptpubkey_type\":\"p2pkh\""));
    assert!(body.contains(&format!("\"scriptpubkey_address\":\"{}\"", addr)));
    assert!(body.contains(&format!(
        "\"scriptpubkey_asm\":\"{}\"",
        bitcoin::Script::from_bytes(script.as_bytes()).to_asm_string()
    )));
    assert!(body.contains("\"value\":1234"));
}

#[test]
fn tx_decode_reports_the_real_txid() {
    // A minimal but consensus-valid transaction, serialized independently.
    let tx = bitcoin::Transaction {
        version: bitcoin::transaction::Version::TWO,
        lock_time: bitcoin::absolute::LockTime::ZERO,
        input: vec![bitcoin::TxIn {
            previous_output: bitcoin::OutPoint {
                txid: <bitcoin::Txid as bitcoin::hashes::Hash>::from_byte_array([7u8; 32]),
                vout: 1,
            },
            script_sig: bitcoin::ScriptBuf::new(),
            sequence: bitcoin::Sequence::MAX,
            witness: bitcoin::Witness::new(),
        }],
        output: vec![bitcoin::TxOut {
            value: bitcoin::Amount::from_sat(5000),
            script_pubkey: bitcoin::ScriptBuf::from_bytes(vec![0x6a]),
        }],
    };
    let raw = bitcoin::consensus::encode::serialize(&tx);
    let got = utxoquery::bridge::decode_tx_id(&raw).unwrap();
    let mut expected =
        <bitcoin::Txid as bitcoin::hashes::Hash>::to_byte_array(tx.compute_txid()).to_vec();
    expected.reverse();
    assert_eq!(expected, got.bytes);

    assert!(utxoquery::bridge::decode_tx_id(&vec![0u8; 10]).is_err());
}
