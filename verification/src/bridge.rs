//! The crate's contact points with outside libraries: hex coding, hashing,
//! address handling, consensus decoding, query-string and JSON parsing.
//! Each item wraps one outside call; its contract states what that
//! library's source shows, and nothing more.

use core::str::FromStr;

use vstd::prelude::*;

use crate::query::Network;
use crate::types::Hash32;

verus! {

pub open spec fn hex_digit(d: int) -> char {
    if d == 0 {
        '0'
    } else if d == 1 {
        '1'
    } else if d == 2 {
        '2'
    } else if d == 3 {
        '3'
    } else if d == 4 {
        '4'
    } else if d == 5 {
        '5'
    } else if d == 6 {
        '6'
    } else if d == 7 {
        '7'
    } else if d == 8 {
        '8'
    } else if d == 9 {
        '9'
    } else if d == 10 {
        'a'
    } else if d == 11 {
        'b'
    } else if d == 12 {
        'c'
    } else if d == 13 {
        'd'
    } else if d == 14 {
        'e'
    } else {
        'f'
    }
}

/// Lowercase hex rendering: two digits per byte.
pub open spec fn spec_hex(b: Seq<u8>) -> Seq<char> {
    Seq::new(
        2 * b.len(),
        |i: int|
            if i % 2 == 0 {
                hex_digit(b[i / 2] as int / 16)
            } else {
                hex_digit(b[i / 2] as int % 16)
            },
    )
}

/// Relies on hex::encode: lowercase hex, two digits per byte, in order.
#[verifier::external_body]
pub fn hex_encode(b: &Vec<u8>) -> (r: String)
    ensures
        r@ == spec_hex(b@),
{
    hex::encode(b.as_slice())
}

/// The SHA-256 digest of a byte string; it depends on the bytes alone.
pub uninterp spec fn sha256_of(data: Seq<u8>) -> Seq<u8>;

/// Relies on bitcoin::hashes::sha256: the 32-byte SHA-256 digest of the
/// input.
#[verifier::external_body]
pub fn sha256(data: &Vec<u8>) -> (r: Vec<u8>)
    ensures
        r@ == sha256_of(data@),
        r@.len() == 32,
{
    let digest = <bitcoin::hashes::sha256::Hash as bitcoin::hashes::Hash>::hash(data.as_slice());
    <bitcoin::hashes::sha256::Hash as bitcoin::hashes::Hash>::to_byte_array(digest).to_vec()
}

/// Outcome of turning an address string into its script pubkey.
pub enum AddressParse {
    Script(Vec<u8>),
    WrongNetwork,
    Bad(String),
}

/// The script pubkey of an address string on a network, when the string
/// parses and belongs to that network; it depends on the text and network
/// alone.
pub uninterp spec fn address_script_of(addr: Seq<char>, network: Network) -> Option<Seq<u8>>;

/// Whether the text parses as an address at all, apart from the network
/// check; it names the outcome of the address parser and depends on the
/// text alone.
pub uninterp spec fn address_parses(addr: Seq<char>) -> bool;

/// Relies on bitcoin::address::Address: parse, check the network, and read
/// the script pubkey. `Bad` carries the parser's error text and comes
/// exactly when the text does not parse; `WrongNetwork` exactly when it
/// parses but fails the network check.
#[verifier::external_body]
pub fn address_to_script(addr: &str, network: Network) -> (r: AddressParse)
    ensures
        r is Script <==> address_script_of(addr@, network) is Some,
        r is Bad <==> !address_parses(addr@),
        r is WrongNetwork <==> (address_parses(addr@) && address_script_of(addr@, network)
            is None),
        match r {
            AddressParse::Script(s) => address_script_of(addr@, network) == Some(s@),
            AddressParse::WrongNetwork => true,
            AddressParse::Bad(_) => true,
        },
{
    let parsed = match bitcoin::Address::from_str(addr) {
        Ok(a) => a,
        Err(e) => return AddressParse::Bad(e.to_string()),
    };
    let net = match network {
        Network::Bitcoin => bitcoin::Network::Bitcoin,
        Network::Testnet => bitcoin::Network::Testnet,
        Network::Regtest => bitcoin::Network::Regtest,
        Network::Signet => bitcoin::Network::Signet,
    };
    if !parsed.is_valid_for_network(net) {
        return AddressParse::WrongNetwork;
    }
    AddressParse::Script(parsed.assume_checked().script_pubkey().as_bytes().to_vec())
}

/// The display-order txid of a raw transaction, when the bytes decode as
/// one; it depends on the bytes alone.
pub uninterp spec fn decoded_txid_of(raw: Seq<u8>) -> Option<Seq<u8>>;

/// Relies on bitcoin consensus decoding and txid computation; the error
/// text is the decoder's own.
#[verifier::external_body]
pub fn decode_tx_id(raw: &Vec<u8>) -> (r: Result<Hash32, String>)
    ensures
        r is Ok <==> decoded_txid_of(raw@) is Some,
        match r {
            Ok(t) => decoded_txid_of(raw@) == Some(t@) && t@.len() == 32,
            Err(_) => true,
        },
{
    match bitcoin::consensus::encode::deserialize::<bitcoin::Transaction>(raw.as_slice()) {
        Ok(tx) => {
            let txid = tx.compute_txid();
            let mut bytes =
                <bitcoin::Txid as bitcoin::hashes::Hash>::to_byte_array(txid).to_vec();
            bytes.reverse();
            Ok(Hash32 { bytes })
        },
        Err(e) => Err(e.to_string()),
    }
}

/// The assembly rendering of a script; it depends on the bytes alone.
pub uninterp spec fn script_asm_of(script: Seq<u8>) -> Seq<char>;

/// Relies on bitcoin::Script::to_asm_string.
#[verifier::external_body]
pub fn script_asm(script: &Vec<u8>) -> (r: String)
    ensures
        r@ == script_asm_of(script@),
{
    bitcoin::Script::from_bytes(script.as_slice()).to_asm_string()
}

/// The address a script pubkey renders to on a network, when it has one;
/// it depends on the bytes and network alone.
pub uninterp spec fn script_address_of(script: Seq<u8>, network: Network) -> Option<Seq<char>>;

/// Relies on bitcoin::Address::from_script.
#[verifier::external_body]
pub fn script_address(script: &Vec<u8>, network: Network) -> (r: Option<String>)
    ensures
        r is Some <==> script_address_of(script@, network) is Some,
        match r {
            Some(s) => script_address_of(script@, network) == Some(s@),
            None => true,
        },
{
    let net = match network {
        Network::Bitcoin => bitcoin::Network::Bitcoin,
        Network::Testnet => bitcoin::Network::Testnet,
        Network::Regtest => bitcoin::Network::Regtest,
        Network::Signet => bitcoin::Network::Signet,
    };
    match bitcoin::Address::from_script(bitcoin::Script::from_bytes(script.as_slice()), net) {
        Ok(a) => Some(a.to_string()),
        Err(_) => None,
    }
}

/// One decoded query-string pair.
pub struct Param {
    pub key: String,
    pub value: String,
}

/// The decoded key/value pairs of a query string, in order; they depend on
/// the text alone.
pub uninterp spec fn form_params_of(q: Seq<char>) -> Seq<(Seq<char>, Seq<char>)>;

/// Relies on url::form_urlencoded::parse.
#[verifier::external_body]
pub fn parse_query_params(q: &str) -> (r: Vec<Param>)
    ensures
        r@.len() == form_params_of(q@).len(),
        forall|i: int|
            0 <= i < r@.len() ==> (#[trigger] r@[i]).key@ == form_params_of(q@)[i].0 && r@[
                i].value@ == form_params_of(q@)[i].1,
{
    url::form_urlencoded::parse(q.as_bytes()).into_owned().map(
        |(k, v)| Param { key: k, value: v },
    ).collect()
}

/// The list a JSON array of strings denotes, when the text is one; it
/// depends on the text alone.
pub uninterp spec fn json_string_list_of(s: Seq<char>) -> Option<Seq<Seq<char>>>;

/// Relies on serde_json::from_str for Vec<String>; the error text is the
/// parser's own.
#[verifier::external_body]
pub fn parse_json_string_list(s: &str) -> (r: Result<Vec<String>, String>)
    ensures
        r is Ok <==> json_string_list_of(s@) is Some,
        match r {
            Ok(v) => json_string_list_of(s@) matches Some(l) && v@.len() == l.len() && forall|
                i: int,
            | 0 <= i < v@.len() ==> (#[trigger] v@[i])@ == l[i],
            Err(_) => true,
        },
{
    match serde_json::from_str::<Vec<String>>(s) {
        Ok(v) => Ok(v),
        Err(e) => Err(e.to_string()),
    }
}

/// Relies on String::from_utf8: succeeds exactly on valid UTF-8 and keeps
/// the bytes.
#[verifier::external_body]
pub fn utf8_string(bytes: &Vec<u8>) -> (r: Option<String>)
    ensures
        r is Some <==> vstd::utf8::valid_utf8(bytes@),
        match r {
            Some(s) => vstd::utf8::encode_utf8(s@) == bytes@,
            None => true,
        },
{
    String::from_utf8(bytes.clone()).ok()
}


/// The consensus hex of a merkle block proving one txid within a block's
/// txid list, when the header decodes and the txid is listed; it depends
/// on the header bytes, the txid list and the target alone.
pub uninterp spec fn merkleblock_hex_of(
    raw_header: Seq<u8>,
    txids: Seq<Seq<u8>>,
    target: Seq<u8>,
) -> Option<Seq<char>>;

/// Relies on bitcoin's header decoding, PartialMerkleTree::from_txids and
/// consensus serialization of MerkleBlock.
#[verifier::external_body]
pub fn merkleblock_hex(raw_header: &Vec<u8>, txids: &Vec<Hash32>, target: &Hash32) -> (r: Option<
    String,
>)
    requires
        txids@.len() > 0,
    ensures
        r is Some <==> merkleblock_hex_of(
            raw_header@,
            crate::types::hash_views(txids@),
            target@,
        ) is Some,
        match r {
            Some(s) => merkleblock_hex_of(raw_header@, crate::types::hash_views(txids@), target@)
                == Some(s@),
            None => true,
        },
{
    let header = bitcoin::consensus::encode::deserialize(raw_header.as_slice()).ok()?;
    let ids: Vec<bitcoin::Txid> = txids.iter().map(|t| {
        let mut b = t.bytes.clone();
        b.reverse();
        <bitcoin::Txid as bitcoin::hashes::Hash>::from_slice(&b)
    }).collect::<Result<_, _>>().ok()?;
    let flags: Vec<bool> = txids.iter().map(|t| t.bytes == target.bytes).collect();
    if !flags.contains(&true) {
        return None;
    }
    let txn = bitcoin::merkle_tree::PartialMerkleTree::from_txids(&ids, &flags);
    Some(bitcoin::consensus::encode::serialize_hex(&bitcoin::MerkleBlock { header, txn }))
}

} // verus!
