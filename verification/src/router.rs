//! The REST surface: request parsing, dispatch, response assembly with
//! cache-control tied to confirmation depth, and the daemon hand-off for
//! broadcast, fee-estimate and supply requests.

use vstd::prelude::*;
use vstd::string::StringSliceAdditionalSpecFns;

use crate::bridge::Param;
use crate::errors::HttpError;
use crate::parsing::{
    all_hex_b, hex_decode_bytes, parse_u32, spec_parse_u64, spec_split, spec_unhex_b, split_bytes,
};
use crate::query::{Network, Query};
use crate::types::{Hash32, OutPoint, OutPointV};

verus! {

broadcast use vstd::utf8::encode_utf8_valid_utf8, vstd::utf8::encode_utf8_decode_utf8;

/// Transactions per page for confirmed-history endpoints.
pub const CHAIN_TXS_PER_PAGE: usize = 25;

/// Cap on unconfirmed transactions returned at once.
pub const MAX_MEMPOOL_TXS: usize = 50;

/// Blocks returned by the block-list endpoint.
pub const BLOCK_LIMIT: usize = 10;

/// Addresses returned by the address-search endpoint.
pub const ADDRESS_SEARCH_LIMIT: usize = 10;

/// Cache lifetime for items finalized deep under the tip: about five years.
pub const TTL_LONG: u32 = 157_784_630;

/// Cache lifetime for tip-adjacent or unconfirmed items.
pub const TTL_SHORT: u32 = 10;

/// Cache lifetime for the recent-mempool overview.
pub const TTL_MEMPOOL_RECENT: u32 = 5;

/// Confirmation depth past which a reorganization is considered unlikely.
pub const CONF_FINAL: u32 = 10;

/// The request methods the surface distinguishes.
#[derive(Clone, Copy, PartialEq, Eq, Structural)]
pub enum Method {
    Get,
    Post,
    Other,
}

#[derive(Clone, Copy, PartialEq, Eq, Structural, Debug)]
pub enum ContentType {
    TextPlain,
    Json,
    OctetStream,
}

/// A response body: text, or raw bytes.
pub enum RespBody {
    Text(String),
    Raw(Vec<u8>),
}

/// A finished response: status, content type, optional `max-age`, body.
pub struct HttpResponse {
    pub status: u16,
    pub content_type: ContentType,
    pub cache_ttl: Option<u32>,
    pub body: RespBody,
}

/// Work only the daemon can do for a request.
pub enum DaemonRequest {
    Broadcast(String),
    FeeEstimates,
    TxOutSetInfo,
}

/// What the daemon answered.
pub enum DaemonReply {
    BroadcastOk(crate::mempool::MempoolTx),
    BroadcastErr(String),
    FeeEstimates(Vec<(u16, u64)>),
    FeeEstimatesErr,
    /// Supply in satoshis, with the error text when the call failed.
    Supply(u64),
    SupplyErr(String),
}

/// The waiting half of a request that needs the daemon.
pub enum Pending {
    Broadcast,
    FeeMap,
    Supply,
    Package { hexes: Vec<String>, idx: usize, parts: Vec<String>, all_ok: bool, submitted: u64 },
}

/// Either a finished response, or a daemon call with its continuation.
pub enum Step {
    Done(HttpResponse),
    Daemon(DaemonRequest, Pending),
}

/// The step a routed result resolves to: errors render as plain text with
/// their status and no cache header, exactly as the dispatcher serves them.
pub open spec fn settled(r: Result<Step, HttpError>) -> Step {
    match r {
        Ok(s) => s,
        Err(e) => Step::Done(
            HttpResponse {
                status: e.status,
                content_type: ContentType::TextPlain,
                cache_ttl: None,
                body: RespBody::Text(e.msg),
            },
        ),
    }
}

/// Cache lifetime by confirmation depth: long exactly when the item sits at
/// least `CONF_FINAL` blocks below the tip; short otherwise.
pub fn ttl_by_depth(height: Option<u32>, best_height: u32) -> (r: u32)
    ensures
        r == spec_ttl_by_depth(height, best_height),
{
    match height {
        Some(h) => {
            if h <= best_height && best_height - h >= CONF_FINAL {
                TTL_LONG
            } else {
                TTL_SHORT
            }
        },
        None => TTL_SHORT,
    }
}

/// The cache policy itself: `TTL_LONG` iff the referenced block is present
/// and at least `CONF_FINAL` below the tip; else `TTL_SHORT`.
pub open spec fn spec_ttl_by_depth(height: Option<u32>, best_height: u32) -> u32 {
    match height {
        Some(h) => if h <= best_height && best_height - h >= CONF_FINAL {
            TTL_LONG
        } else {
            TTL_SHORT
        },
        None => TTL_SHORT,
    }
}

/// A plain-text response with a cache header.
pub fn http_message(status: u16, message: String, ttl: u32) -> (r: HttpResponse)
    ensures
        r.status == status,
        r.content_type == ContentType::TextPlain,
        r.cache_ttl == Some(ttl),
        r.body matches RespBody::Text(t) && t@ == message@,
{
    HttpResponse {
        status,
        content_type: ContentType::TextPlain,
        cache_ttl: Some(ttl),
        body: RespBody::Text(message),
    }
}

/// A JSON response with a cache header.
pub fn json_response(body: String, ttl: u32) -> (r: HttpResponse)
    ensures
        r.status == 200,
        r.content_type == ContentType::Json,
        r.cache_ttl == Some(ttl),
        r.body matches RespBody::Text(t) && t@ == body@,
{
    HttpResponse {
        status: 200,
        content_type: ContentType::Json,
        cache_ttl: Some(ttl),
        body: RespBody::Text(body),
    }
}

/// A raw byte response with a cache header.
pub fn raw_response(body: Vec<u8>, ttl: u32) -> (r: HttpResponse)
    ensures
        r.status == 200,
        r.content_type == ContentType::OctetStream,
        r.cache_ttl == Some(ttl),
        r.body matches RespBody::Raw(b) && b@ == body@,
{
    HttpResponse {
        status: 200,
        content_type: ContentType::OctetStream,
        cache_ttl: Some(ttl),
        body: RespBody::Raw(body),
    }
}

/// Render a failure: its status, the message as plain text, no cache
/// header.
pub fn err_response(e: HttpError) -> (r: HttpResponse)
    ensures
        r == (HttpResponse {
            status: e.status,
            content_type: ContentType::TextPlain,
            cache_ttl: None,
            body: RespBody::Text(e.msg),
        }),
        r.status == e.status,
        r.content_type == ContentType::TextPlain,
        r.cache_ttl is None,
        r.body matches RespBody::Text(t) && t@ == e.msg@,
{
    HttpResponse {
        status: e.status,
        content_type: ContentType::TextPlain,
        cache_ttl: None,
        body: RespBody::Text(e.msg),
    }
}

/// The value of the last occurrence of a key, as a later duplicate
/// overwrites an earlier one.
pub open spec fn lookup_param(ps: Seq<(Seq<char>, Seq<char>)>, name: Seq<char>) -> Option<
    Seq<char>,
>
    decreases ps.len(),
{
    if ps.len() == 0 {
        None
    } else if ps.last().0 == name {
        Some(ps.last().1)
    } else {
        lookup_param(ps.drop_last(), name)
    }
}

/// Spec view of a parameter list.
pub open spec fn params_view(ps: Seq<Param>) -> Seq<(Seq<char>, Seq<char>)> {
    ps.map_values(|p: Param| (p.key@, p.value@))
}

/// Find a query parameter; the last occurrence wins.
pub fn get_param(params: &Vec<Param>, name: &str) -> (r: Option<String>)
    ensures
        match r {
            Some(v) => lookup_param(params_view(params@), name@) == Some(v@),
            None => lookup_param(params_view(params@), name@) is None,
        },
{
    let probe = String::from_str(name);
    let mut i: usize = params.len();
    proof {
        assert(params_view(params@).take(params@.len() as int) =~= params_view(params@));
    }
    while i > 0
        invariant
            i <= params@.len(),
            probe@ == name@,
            lookup_param(params_view(params@), name@) == lookup_param(
                params_view(params@).take(i as int),
                name@,
            ),
        decreases i,
    {
        i = i - 1;
        proof {
            assert(params_view(params@).take(i + 1).drop_last() =~= params_view(
                params@,
            ).take(i as int));
            assert(params_view(params@).take(i + 1).last() == params_view(params@)[i as int]);
        }
        if params[i].key == probe {
            return Some(params[i].value.clone());
        }
    }
    proof {
        assert(params_view(params@).take(0) =~= Seq::<(Seq<char>, Seq<char>)>::empty());
    }
    None
}

/// Whether a parameter is present at all.
pub fn has_param(params: &Vec<Param>, name: &str) -> (r: bool)
    ensures
        r == (lookup_param(params_view(params@), name@) is Some),
{
    match get_param(params, name) {
        Some(_) => true,
        None => false,
    }
}

/// Parse a scripthash path segment: 64 hex digits.
pub fn parse_scripthash(scripthash: &str) -> (r: Result<Hash32, HttpError>)
    ensures
        ({
            let b = scripthash.spec_bytes();
            match r {
                Ok(h) => b.len() == 64 && all_hex_b(b) && h@ == spec_unhex_b(b) && h.wf(),
                Err(e) => !(b.len() == 64 && all_hex_b(b)) && e.status == 400 && e.msg@
                    == "Invalid scripthash"@,
            }
        }),
{
    let bytes = scripthash.as_bytes_vec();
    if bytes.len() != 64 {
        return Err(HttpError::bad_request(String::from_str("Invalid scripthash")));
    }
    match hex_decode_bytes(&bytes) {
        Some(v) => Ok(Hash32::new(v)),
        None => Err(HttpError::bad_request(String::from_str("Invalid scripthash"))),
    }
}

/// Parse an address into the scripthash that indexes it: the SHA-256 of
/// its script pubkey. Succeeds exactly when the string is an address of
/// the given network; a parse failure carries the parser's text, and an
/// address of another network earns the fixed message.
pub fn address_to_scripthash(addr: &str, network: Network) -> (r: Result<Hash32, HttpError>)
    ensures
        r is Ok <==> crate::bridge::address_script_of(addr@, network) is Some,
        ({
            match r {
                Ok(h) => crate::bridge::address_script_of(addr@, network) matches Some(s) && h@
                    == crate::bridge::sha256_of(s) && h.wf(),
                Err(e) => e.status == 400,
            }
        }),
        // A parseable address of another network earns the fixed message;
        // an unparseable one carries the parser's text.
        (crate::bridge::address_parses(addr@) && crate::bridge::address_script_of(addr@, network)
            is None) ==> (r matches Err(e) && e.msg@ == "Address on invalid network"@),
{
    match crate::bridge::address_to_script(addr, network) {
        crate::bridge::AddressParse::Script(script) => {
            let digest = crate::bridge::sha256(&script);
            Ok(Hash32::new(digest))
        },
        crate::bridge::AddressParse::WrongNetwork => Err(
            HttpError::bad_request(String::from_str("Address on invalid network")),
        ),
        crate::bridge::AddressParse::Bad(msg) => Err(HttpError::bad_request(msg)),
    }
}

/// Turn an `address` or `scripthash` path pair into the scripthash key.
pub fn to_scripthash(script_type: &str, script_str: &str, network: Network) -> (r: Result<
    Hash32,
    HttpError,
>)
    ensures
        ({
            match r {
                Ok(h) => h.wf() && (script_type@ == "address"@ || script_type@ == "scripthash"@),
                Err(e) => e.status == 400,
            }
        }),
        script_type@ == "scripthash"@ ==> ({
            let b = script_str.spec_bytes();
            match r {
                Ok(h) => b.len() == 64 && all_hex_b(b) && h@ == spec_unhex_b(b),
                Err(e) => !(b.len() == 64 && all_hex_b(b)) && e.msg@ == "Invalid scripthash"@,
            }
        }),
        script_type@ == "address"@ ==> ({
            let parses = crate::bridge::address_script_of(script_str@, network);
            match r {
                Ok(h) => parses matches Some(s) && h@ == crate::bridge::sha256_of(s),
                Err(_) => parses is None,
            }
        }),
        !(script_type@ == "address"@ || script_type@ == "scripthash"@) ==> (r matches Err(e)
            && e.msg@ == "Invalid script type"@),
{
    let address_word = String::from_str("address");
    let scripthash_word = String::from_str("scripthash");
    let st = String::from_str(script_type);
    if st == address_word {
        proof {
            crate::router::lemma_distinct_words();
        }
        address_to_scripthash(script_str, network)
    } else if st == scripthash_word {
        parse_scripthash(script_str)
    } else {
        Err(HttpError::bad_request(String::from_str("Invalid script type")))
    }
}

/// The two route words are different.
pub proof fn lemma_distinct_words()
    ensures
        "address"@ != "scripthash"@,
{
    reveal_strlit("address");
    reveal_strlit("scripthash");
    assert("address"@.len() == 7);
    assert("scripthash"@.len() == 10);
}

/// Parse a cursor of the form `txid:vout`. The empty cursor (and the bare
/// separator) mean "from the start"; anything else must be a 64-digit hex
/// txid, one colon, and a decimal vout.
pub fn parse_cursor(cursor_str: &str) -> (r: Result<Option<OutPoint>, HttpError>)
    ensures
        ({
            let b = cursor_str.spec_bytes();
            let parts = spec_split(b, 58);
            match r {
                Ok(opt) => match opt {
                    None => b.len() == 0 || b =~= seq![58u8],
                    Some(op) => {
                        &&& parts.len() == 2
                        &&& parts[0].len() == 64 && all_hex_b(parts[0])
                        &&& op.txid@ == spec_unhex_b(parts[0])
                        &&& op.wf()
                        &&& spec_parse_u64(parts[1]) == Some(op.vout as u64)
                    },
                },
                Err(e) => {
                    &&& e.status == 400
                    &&& b.len() > 0 && !(b =~= seq![58u8])
                    &&& {
                        if parts.len() != 2 {
                            e.msg@ == "Invalid cursor format, expected 'txid:vout'"@
                        } else if !(parts[0].len() == 64 && all_hex_b(parts[0])) {
                            e.msg@ == "Invalid txid in cursor"@
                        } else {
                            e.msg@ == "Invalid vout in cursor"@ && !(spec_parse_u64(parts[1])
                                matches Some(v) && v <= u32::MAX)
                        }
                    }
                },
            }
        }),
{
    let bytes = cursor_str.as_bytes_vec();
    if bytes.len() == 0 {
        return Ok(None);
    }
    if bytes.len() == 1 && bytes[0] == 58 {
        proof {
            assert(bytes@ =~= seq![58u8]);
        }
        return Ok(None);
    }
    proof {
        if bytes@.len() == 1 {
            assert(bytes@[0] != 58);
            assert(!(bytes@ =~= seq![58u8]));
        }
    }
    let parts = split_bytes(&bytes, 58);
    if parts.len() != 2 {
        return Err(
            HttpError::bad_request(
                String::from_str("Invalid cursor format, expected 'txid:vout'"),
            ),
        );
    }
    proof {
        assert(parts@[0]@ == spec_split(bytes@, 58)[0]);
        assert(parts@[1]@ == spec_split(bytes@, 58)[1]);
    }
    if parts[0].len() != 64 {
        return Err(HttpError::bad_request(String::from_str("Invalid txid in cursor")));
    }
    let txid_bytes = match hex_decode_bytes(&parts[0]) {
        Some(v) => v,
        None => {
            return Err(HttpError::bad_request(String::from_str("Invalid txid in cursor")));
        },
    };
    let vout = match parse_u32(&parts[1]) {
        Some(v) => v,
        None => {
            return Err(HttpError::bad_request(String::from_str("Invalid vout in cursor")));
        },
    };
    Ok(Some(OutPoint { txid: Hash32::new(txid_bytes), vout }))
}


/// Does the segment spell this route word?
fn word(seg: &Vec<u8>, w: &str) -> (r: bool)
    ensures
        r == (seg@ == w.spec_bytes()),
{
    let wb = w.as_bytes_vec();
    crate::types::eq_bytes(seg, &wb)
}

/// A path segment back as text. Segments of a UTF-8 path are UTF-8.
fn seg_str(seg: &Vec<u8>) -> (r: Option<String>)
    ensures
        r is Some <==> vstd::utf8::valid_utf8(seg@),
        match r {
            Some(s) => vstd::utf8::encode_utf8(s@) == seg@,
            None => true,
        },
{
    crate::bridge::utf8_string(seg)
}

/// Parse a 64-digit hex hash segment.
pub fn parse_hash_seg(seg: &Vec<u8>) -> (r: Result<Hash32, HttpError>)
    ensures
        match r {
            Ok(h) => seg@.len() == 64 && all_hex_b(seg@) && h@ == spec_unhex_b(seg@) && h.wf(),
            Err(e) => !(seg@.len() == 64 && all_hex_b(seg@)) && e.status == 400 && e.msg@
                == "Invalid hex string"@,
        },
{
    if seg.len() != 64 {
        return Err(HttpError::bad_request(String::from_str("Invalid hex string")));
    }
    match hex_decode_bytes(seg) {
        Some(v) => Ok(Hash32::new(v)),
        None => Err(HttpError::bad_request(String::from_str("Invalid hex string"))),
    }
}

/// The numeric value of a parameter, or the default when it is absent or
/// does not parse.
pub open spec fn spec_usize_param(
    ps: Seq<(Seq<char>, Seq<char>)>,
    name: Seq<char>,
    default: usize,
) -> usize {
    match lookup_param(ps, name) {
        None => default,
        Some(v) => match spec_parse_u64(vstd::utf8::encode_utf8(v)) {
            Some(x) => if x <= usize::MAX {
                x as usize
            } else {
                default
            },
            None => default,
        },
    }
}

/// Read a numeric parameter with a default.
pub fn usize_param(params: &Vec<Param>, name: &str, default: usize) -> (r: usize)
    ensures
        r == spec_usize_param(params_view(params@), name@, default),
{
    match get_param(params, name) {
        None => default,
        Some(v) => {
            let bytes = v.as_str().as_bytes_vec();
            match crate::parsing::parse_usize(&bytes) {
                Some(x) => x,
                None => default,
            }
        },
    }
}

/// The boolean value of a parameter, or the default when it is absent or
/// is neither `true` nor `false`.
pub open spec fn spec_bool_param(
    ps: Seq<(Seq<char>, Seq<char>)>,
    name: Seq<char>,
    default: bool,
) -> bool {
    match lookup_param(ps, name) {
        None => default,
        Some(v) => if v == "true"@ {
            true
        } else if v == "false"@ {
            false
        } else {
            default
        },
    }
}

/// Read a boolean parameter with a default.
pub fn bool_param(params: &Vec<Param>, name: &str, default: bool) -> (r: bool)
    ensures
        r == spec_bool_param(params_view(params@), name@, default),
{
    match get_param(params, name) {
        None => default,
        Some(v) => {
            let t = String::from_str("true");
            let f = String::from_str("false");
            if v == t {
                true
            } else if v == f {
                false
            } else {
                proof {
                    reveal_strlit("true");
                    reveal_strlit("false");
                }
                default
            }
        },
    }
}

/// Correctly resolved previous outputs: `None` exactly for coinbase slots
/// and outputs the stores do not hold, the stored output's value otherwise.
pub open spec fn prevouts_ok(q: &Query, tx: &crate::tx::Transaction, v: Seq<
    Option<crate::tx::TxOut>,
>) -> bool {
    &&& v.len() == tx.input@.len()
    &&& forall|k: int|
        0 <= k < v.len() ==> match #[trigger] v[k] {
            Some(t) => !crate::tx::is_coinbase_v(tx.input@[k]@) && crate::query::txo_of(
                q,
                crate::types::OutPointV {
                    txid: tx.input@[k].prev_txid@,
                    vout: tx.input@[k].prev_vout,
                },
            ) == Some(t@),
            None => crate::tx::is_coinbase_v(tx.input@[k]@) || crate::query::txo_of(
                q,
                crate::types::OutPointV {
                    txid: tx.input@[k].prev_txid@,
                    vout: tx.input@[k].prev_vout,
                },
            ) is None,
        }
}

/// Resolve the previous outputs of a transaction's inputs: `None` for
/// coinbase slots, the stored output otherwise; a missing output is the
/// internal inconsistency the spend index must not show.
fn resolve_prevouts(q: &Query, tx: &crate::tx::Transaction) -> (r: Result<
    Vec<Option<crate::tx::TxOut>>,
    HttpError,
>)
    requires
        q.wf(),
        tx.wf(),
    ensures
        match r {
            Ok(v) => prevouts_ok(q, tx, v@),
            Err(e) => e.status == 500,
        },
{
    let mut v: Vec<Option<crate::tx::TxOut>> = Vec::new();
    let mut i: usize = 0;
    while i < tx.input.len()
        invariant
            q.wf(),
            tx.wf(),
            i <= tx.input@.len(),
            v@.len() == i,
            forall|k: int|
                0 <= k < i ==> match #[trigger] v@[k] {
                    Some(t) => !crate::tx::is_coinbase_v(tx.input@[k]@) && crate::query::txo_of(
                        q,
                        crate::types::OutPointV {
                            txid: tx.input@[k].prev_txid@,
                            vout: tx.input@[k].prev_vout,
                        },
                    ) == Some(t@),
                    None => crate::tx::is_coinbase_v(tx.input@[k]@) || crate::query::txo_of(
                        q,
                        crate::types::OutPointV {
                            txid: tx.input@[k].prev_txid@,
                            vout: tx.input@[k].prev_vout,
                        },
                    ) is None,
                },
        decreases tx.input@.len() - i,
    {
        proof {
            assert(tx.input@[i as int].wf());
        }
        if tx.input[i].has_prevout() {
            let op = OutPoint {
                txid: tx.input[i].prev_txid.clone(),
                vout: tx.input[i].prev_vout,
            };
            match q.lookup_txo(&op) {
                Some(t) => v.push(Some(t)),
                None => {
                    return Err(HttpError::internal(String::from_str("failed loading txos")));
                },
            }
        } else {
            v.push(None);
        }
        i = i + 1;
    }
    Ok(v)
}

/// Render a list of transactions with their confirming blocks as a JSON
/// array, resolving each transaction's prevouts first. On success the body
/// is exactly the array of `render_tx` rows against correctly resolved
/// prevouts.
fn txs_list_json(q: &Query, txs: &Vec<(crate::tx::Transaction, Option<crate::types::BlockId>)>)
    -> (r: Result<String, HttpError>)
    requires
        q.wf(),
        forall|k: int| 0 <= k < txs@.len() ==> (#[trigger] txs@[k]).0.wf(),
    ensures
        match r {
            Ok(s) => exists|pv: Seq<Vec<Option<crate::tx::TxOut>>>|
                {
                    &&& #[trigger] pv.len() == txs@.len()
                    &&& (forall|k: int|
                        0 <= k < txs@.len() ==> prevouts_ok(q, &txs@[k].0, (#[trigger] pv[k])@))
                    &&& s@ == crate::json::spec_array(
                        Seq::new(
                            txs@.len(),
                            |k: int|
                                crate::shapes::render_tx(
                                    &txs@[k].0,
                                    &txs@[k].1,
                                    pv[k]@,
                                    q.config.network_type,
                                ),
                        ),
                    )
                },
            Err(e) => e.status == 500,
        },
{
    let mut parts: Vec<String> = Vec::new();
    let ghost mut pvs: Seq<Vec<Option<crate::tx::TxOut>>> = Seq::empty();
    let mut i: usize = 0;
    while i < txs.len()
        invariant
            q.wf(),
            i <= txs@.len(),
            parts@.len() == i,
            pvs.len() == i,
            forall|k: int| 0 <= k < txs@.len() ==> (#[trigger] txs@[k]).0.wf(),
            forall|k: int| 0 <= k < i ==> prevouts_ok(q, &txs@[k].0, (#[trigger] pvs[k])@),
            forall|k: int|
                0 <= k < i ==> (#[trigger] parts@[k])@ == crate::shapes::render_tx(
                    &txs@[k].0,
                    &txs@[k].1,
                    pvs[k]@,
                    q.config.network_type,
                ),
        decreases txs@.len() - i,
    {
        let prevouts = match resolve_prevouts(q, &txs[i].0) {
            Ok(p) => p,
            Err(e) => {
                return Err(e);
            },
        };
        parts.push(
            crate::shapes::tx_json(&txs[i].0, &txs[i].1, &prevouts, q.config.network_type),
        );
        proof {
            pvs = pvs.push(prevouts);
        }
        i = i + 1;
    }
    let mut out = String::new();
    crate::json::append_array(&mut out, &parts);
    proof {
        let goal = Seq::new(
            txs@.len(),
            |k: int|
                crate::shapes::render_tx(&txs@[k].0, &txs@[k].1, pvs[k]@, q.config.network_type),
        );
        assert(parts@.map_values(|p: String| p@) =~= goal);
        assert(pvs.len() == txs@.len());
    }
    Ok(out)
}

/// The rendered walk back from the block at index `j`: the block itself,
/// then — unless its previous hash is all zero or the cap is reached — the
/// walk from its previous block; an unknown previous hash fails the walk.
pub open spec fn spec_block_walk(q: &Query, j: int, fuel: int) -> Option<Seq<Seq<char>>>
    decreases fuel,
{
    let b = q.chain.blocks@[j];
    let head = seq![crate::shapes::render_block(&b)];
    if b.prev_hash@ == crate::types::zero_hash() {
        Some(head)
    } else if fuel <= 1 {
        Some(head)
    } else if crate::chain::ch_has_block(&q.chain, b.prev_hash@) {
        match spec_block_walk(q, crate::chain::ch_block_i(&q.chain, b.prev_hash@), fuel - 1) {
            Some(rest) => Some(head + rest),
            None => None,
        }
    } else {
        None
    }
}

/// Walk back from the tip (or a start height) and render up to
/// `BLOCK_LIMIT` block summaries. Succeeds exactly when the start height is
/// covered and the walk completes; the body is the rendered walk.
#[verifier::rlimit(100)]
pub fn blocks_list(q: &Query, start_height: Option<usize>) -> (r: Result<HttpResponse, HttpError>)
    requires
        q.wf(),
        q.chain.blocks@.len() > 0,
    ensures
        ({
            let start_ok = match start_height {
                Some(h) => q.chain.blocks@[0].id.height <= h && h < q.chain.blocks@[0].id.height
                    + q.chain.blocks@.len(),
                None => true,
            };
            let j0: int = match start_height {
                Some(h) => h - q.chain.blocks@[0].id.height,
                None => q.chain.blocks@.len() - 1,
            };
            match r {
                Ok(resp) => start_ok && (spec_block_walk(q, j0, BLOCK_LIMIT as int)
                    matches Some(parts) && resp.status == 200 && resp.content_type
                    == ContentType::Json && resp.cache_ttl == Some(TTL_SHORT) && (resp.body
                    matches RespBody::Text(t) && t@ == crate::json::spec_array(parts))),
                Err(e) => (!start_ok || spec_block_walk(q, j0, BLOCK_LIMIT as int) is None)
                    && e.status == 404 && e.msg@ == "Block not found"@,
            }
        }),
{
    let j0: usize = match start_height {
        Some(h) => {
            match q.chain.header_by_height(h) {
                Some(_) => {
                    proof {
                        assert(q.chain.blocks@[0].id.height == q.chain.blocks@[0].id.height + 0);
                    }
                    let base = q.chain.blocks[0].id.height;
                    h - base as usize
                },
                None => {
                    proof {
                        assert(!(q.chain.blocks@.len() > 0 && q.chain.blocks@[0].id.height <= h
                            && h < q.chain.blocks@[0].id.height + q.chain.blocks@.len()));
                    }
                    return Err(HttpError::not_found(String::from_str("Block not found")));
                },
            }
        },
        None => q.chain.blocks.len() - 1,
    };
    let ghost full = spec_block_walk(q, j0 as int, BLOCK_LIMIT as int);
    let mut parts: Vec<String> = Vec::new();
    let mut cur = j0;
    let mut finished = false;
    while !finished
        invariant
            q.wf(),
            q.chain.blocks@.len() > 0,
            cur < q.chain.blocks@.len(),
            full == spec_block_walk(q, j0 as int, BLOCK_LIMIT as int),
            j0 as int == (match start_height {
                Some(h) => h - q.chain.blocks@[0].id.height,
                None => q.chain.blocks@.len() - 1,
            }),
            !finished ==> parts@.len() < BLOCK_LIMIT,
            !finished ==> (full is Some <==> spec_block_walk(
                q,
                cur as int,
                BLOCK_LIMIT - parts@.len(),
            ) is Some),
            !finished ==> (full matches Some(f) ==> (spec_block_walk(
                q,
                cur as int,
                BLOCK_LIMIT - parts@.len(),
            ) matches Some(rest) && f == parts@.map_values(|s: String| s@) + rest)),
            finished ==> full == Some(parts@.map_values(|s: String| s@)),
        decreases BLOCK_LIMIT - parts@.len(),
    {
        let ghost fuel_left: int = BLOCK_LIMIT - parts@.len();
        let ghost pv = parts@.map_values(|s: String| s@);
        proof {
            assert(q.chain.blocks@[cur as int].wf());
        }
        let piece = crate::shapes::block_json(&q.chain.blocks[cur]);
        parts.push(piece);
        proof {
            assert(parts@.map_values(|s: String| s@) =~= pv.push(
                crate::shapes::render_block(&q.chain.blocks@[cur as int]),
            ));
        }
        let ghost head = seq![crate::shapes::render_block(&q.chain.blocks@[cur as int])];
        if q.chain.blocks[cur].prev_hash.is_zero() {
            proof {
                assert(spec_block_walk(q, cur as int, fuel_left) == Some(head));
                assert(pv + head =~= parts@.map_values(|s: String| s@));
            }
            finished = true;
        } else if parts.len() == BLOCK_LIMIT {
            proof {
                assert(fuel_left == 1);
                assert(spec_block_walk(q, cur as int, fuel_left) == Some(head));
                assert(pv + head =~= parts@.map_values(|s: String| s@));
            }
            finished = true;
        } else {
            match q.chain.find_block(&q.chain.blocks[cur].prev_hash) {
                Some(idx) => {
                    proof {
                        let ph = q.chain.blocks@[cur as int].prev_hash@;
                        assert(q.chain.blocks@[idx as int].id.hash@ == ph);
                        assert(crate::chain::ch_has_block(&q.chain, ph));
                        let k = crate::chain::ch_block_i(&q.chain, ph);
                        assert(q.chain.blocks@[k].id.hash@ == ph);
                        if k < idx {
                            assert(q.chain.blocks@[k].id.hash@ != q.chain.blocks@[
                                idx as int].id.hash@);
                        }
                        if idx < k {
                            assert(q.chain.blocks@[idx as int].id.hash@ != q.chain.blocks@[
                                k].id.hash@);
                        }
                        assert(k == idx);
                        assert(spec_block_walk(q, cur as int, fuel_left) == (
                        match spec_block_walk(q, idx as int, fuel_left - 1) {
                            Some(rest) => Some(head + rest),
                            None => None,
                        }));
                        if full is Some {
                            let f = full->Some_0;
                            assert(spec_block_walk(q, cur as int, fuel_left) matches Some(w));
                            assert(spec_block_walk(q, idx as int, fuel_left - 1) is Some);
                            let rest = spec_block_walk(q, idx as int, fuel_left - 1)->Some_0;
                            assert(pv + (head + rest) =~= parts@.map_values(|s: String| s@)
                                + rest);
                        }
                    }
                    cur = idx;
                },
                None => {
                    proof {
                        assert(!crate::chain::ch_has_block(
                            &q.chain,
                            q.chain.blocks@[cur as int].prev_hash@,
                        ));
                        assert(spec_block_walk(q, cur as int, fuel_left) is None);
                        assert(full is None);
                    }
                    return Err(HttpError::not_found(String::from_str("Block not found")));
                },
            }
        }
    }
    let mut out = String::new();
    crate::json::append_array(&mut out, &parts);
    proof {
        assert(out@ == crate::json::spec_array(parts@.map_values(|s: String| s@)));
    }
    Ok(json_response(out, TTL_SHORT))
}

/// `{"t":rate,...}` over an estimate map, in its stored order.
pub open spec fn render_fee_map(map: Seq<(u16, u64)>) -> Seq<char> {
    "{"@ + crate::json::spec_join(
        map.map_values(
            |e: (u16, u64)|
                seq!['"'] + crate::amounts::spec_dec(e.0 as nat) + "\":"@
                    + crate::shapes::render_rate(e.1),
        ),
    ) + "}"@
}

/// Render an estimate map.
fn fee_map_json(map: &Vec<(u16, u64)>) -> (r: String)
    ensures
        r@ == render_fee_map(map@),
{
    let ghost goal = map@.map_values(
        |e: (u16, u64)|
            seq!['"'] + crate::amounts::spec_dec(e.0 as nat) + "\":"@
                + crate::shapes::render_rate(e.1),
    );
    let mut parts: Vec<String> = Vec::new();
    let mut i: usize = 0;
    while i < map.len()
        invariant
            i <= map@.len(),
            parts@.len() == i,
            goal.len() == map@.len(),
            forall|k: int|
                0 <= k < map@.len() ==> goal[k] == seq!['"'] + crate::amounts::spec_dec(
                    (#[trigger] map@[k]).0 as nat,
                ) + "\":"@ + crate::shapes::render_rate(map@[k].1),
            forall|k: int| 0 <= k < i ==> (#[trigger] parts@[k])@ == goal[k],
        decreases map@.len() - i,
    {
        let (t, v) = map[i];
        let mut p = String::from_str("\"");
        p.append(crate::amounts::u64_to_dec(t as u64).as_str());
        p.append("\":");
        p.append(crate::shapes::rate_json(v).as_str());
        proof {
            reveal_strlit("\"");
            assert(p@ =~= goal[i as int]);
        }
        parts.push(p);
        i = i + 1;
    }
    let mut body = String::new();
    crate::json::append_array(&mut body, &parts);
    proof {
        assert(parts@.map_values(|p: String| p@) =~= goal);
        assert(body@ == crate::json::spec_array(goal));
    }
    // Reuse the array joiner, then swap the brackets for braces.
    let mut out = String::from_str("{");
    let total = body.as_str().unicode_len();
    let inner = body.as_str().substring_char(1, total - 1);
    out.append(inner);
    out.append("}");
    proof {
        reveal_strlit("{");
        reveal_strlit("}");
        assert(inner@ =~= crate::json::spec_join(goal));
        assert(out@ =~= render_fee_map(map@));
    }
    out
}

/// The supply shape: the amount as a BTC string and the same digits as a
/// JSON number, with the tip the answer was computed against.
pub open spec fn render_supply(sats: u64, height: u32, hash: Seq<u8>) -> Seq<char> {
    "{\"total_amount\":\""@ + crate::amounts::spec_btc_string(sats)
        + "\",\"total_amount_float\":"@ + crate::amounts::spec_btc_string(sats)
        + ",\"height\":"@ + crate::amounts::spec_dec(height as nat) + ",\"block_hash\":\""@
        + crate::bridge::spec_hex(hash) + "\"}"@
}

/// The mempool backlog shape.
fn backlog_json(m: &crate::mempool::MempoolView) -> (r: String)
{
    let mut out = String::from_str("{\"count\":");
    out.append(crate::amounts::usize_to_dec(m.txs.len()).as_str());
    out.append(",\"vsize\":");
    out.append(crate::amounts::u64_to_dec(m.backlog_vsize).as_str());
    out.append(",\"total_fee\":");
    out.append(crate::amounts::u64_to_dec(m.backlog_total_fee).as_str());
    out.append(",\"fee_histogram\":");
    let mut parts: Vec<String> = Vec::new();
    let mut i: usize = 0;
    while i < m.histogram.len()
        decreases m.histogram@.len() - i,
    {
        let (rate, vsize) = m.histogram[i];
        let mut p = String::from_str("[");
        p.append(crate::shapes::rate_json(rate).as_str());
        p.append(",");
        p.append(crate::amounts::u64_to_dec(vsize).as_str());
        p.append("]");
        parts.push(p);
        i = i + 1;
    }
    crate::json::append_array(&mut out, &parts);
    out.append("}");
    out
}

/// The recent-transactions overview shape.
fn recent_json(m: &crate::mempool::MempoolView) -> (r: String)
    requires
        forall|i: int| 0 <= i < m.recent@.len() ==> (#[trigger] m.recent@[i]).txid.wf(),
{
    let mut parts: Vec<String> = Vec::new();
    let mut i: usize = 0;
    while i < m.recent.len()
        invariant
            i <= m.recent@.len(),
            forall|k: int| 0 <= k < m.recent@.len() ==> (#[trigger] m.recent@[k]).txid.wf(),
        decreases m.recent@.len() - i,
    {
        let e = &m.recent[i];
        let mut p = String::from_str("{\"txid\":\"");
        p.append(crate::bridge::hex_encode(&e.txid.bytes).as_str());
        p.append("\",\"fee\":");
        p.append(crate::amounts::u64_to_dec(e.fee).as_str());
        p.append(",\"vsize\":");
        p.append(crate::amounts::u64_to_dec(e.vsize).as_str());
        p.append(",\"value\":");
        p.append(crate::amounts::u64_to_dec(e.value).as_str());
        p.append("}");
        parts.push(p);
        i = i + 1;
    }
    let mut out = String::new();
    crate::json::append_array(&mut out, &parts);
    out
}

/// A JSON array of quoted hex hashes.
pub open spec fn render_txid_array(ids: Seq<Seq<u8>>) -> Seq<char> {
    crate::json::spec_array(
        ids.map_values(|t: Seq<u8>| seq!['"'] + crate::bridge::spec_hex(t) + seq!['"']),
    )
}

/// Quoted hex renderings of a txid list.
fn txid_array_json(ids: &Vec<Hash32>) -> (r: String)
    ensures
        r@ == render_txid_array(crate::types::hash_views(ids@)),
{
    let ghost goal = crate::types::hash_views(ids@).map_values(
        |t: Seq<u8>| seq!['"'] + crate::bridge::spec_hex(t) + seq!['"'],
    );
    let mut parts: Vec<String> = Vec::new();
    let mut i: usize = 0;
    while i < ids.len()
        invariant
            i <= ids@.len(),
            parts@.len() == i,
            goal.len() == ids@.len(),
            forall|k: int|
                0 <= k < ids@.len() ==> goal[k] == seq!['"'] + crate::bridge::spec_hex(
                    (#[trigger] ids@[k])@,
                ) + seq!['"'],
            forall|k: int| 0 <= k < i ==> (#[trigger] parts@[k])@ == goal[k],
        decreases ids@.len() - i,
    {
        let mut p = String::from_str("\"");
        p.append(crate::bridge::hex_encode(&ids[i].bytes).as_str());
        p.append("\"");
        proof {
            reveal_strlit("\"");
            assert(p@ =~= goal[i as int]);
        }
        parts.push(p);
        i = i + 1;
    }
    let mut out = String::new();
    crate::json::append_array(&mut out, &parts);
    proof {
        assert(parts@.map_values(|p: String| p@) =~= goal);
        assert(out@ =~= render_txid_array(crate::types::hash_views(ids@)));
    }
    out
}

/// Byte lengths of the words the route contracts distinguish — with
/// distinct lengths two words cannot collide — and the two same-length
/// pairs that must differ by content.
proof fn lemma_seg_word_lens()
    ensures
        "balance".spec_bytes().len() == 7,
        "stats".spec_bytes().len() == 5,
        "txs".spec_bytes().len() == 3,
        "utxo".spec_bytes().len() == 4,
        "utxo-legacy".spec_bytes().len() == 11,
        "txids".spec_bytes().len() == 5,
        "recent".spec_bytes().len() == 6,
        "mempool".spec_bytes().len() == 7,
        "address".spec_bytes().len() == 7,
        "scripthash".spec_bytes().len() == 10,
        "blocks".spec_bytes().len() == 6,
        "tip".spec_bytes().len() == 3,
        "hash".spec_bytes().len() == 4,
        "height".spec_bytes().len() == 6,
        "block-height".spec_bytes().len() == 12,
        "block".spec_bytes().len() == 5,
        "tx".spec_bytes().len() == 2,
        "status".spec_bytes().len() == 6,
        "header".spec_bytes().len() == 6,
        "raw".spec_bytes().len() == 3,
        "txid".spec_bytes().len() == 4,
        "test".spec_bytes().len() == 4,
        "package".spec_bytes().len() == 7,
        "broadcast".spec_bytes().len() == 9,
        "blockchain".spec_bytes().len() == 10,
        "getsupply".spec_bytes().len() == 9,
        "fee-estimates".spec_bytes().len() == 13,
        "address-prefix".spec_bytes().len() == 14,
        "chain".spec_bytes().len() == 5,
        "hex".spec_bytes().len() == 3,
        "outspend".spec_bytes().len() == 8,
        "outspends".spec_bytes().len() == 9,
        "merkle-proof".spec_bytes().len() == 12,
        "merkleblock-proof".spec_bytes().len() == 17,
        "address".spec_bytes() != "mempool".spec_bytes(),
        "address".spec_bytes() != "package".spec_bytes(),
        "raw".spec_bytes() != "txs".spec_bytes(),
        "hex".spec_bytes() != "txs".spec_bytes(),
        "txs".spec_bytes() != "tip".spec_bytes(),
{
    broadcast use vstd::string::is_ascii_spec_bytes;

    reveal_strlit("address");
    reveal_strlit("scripthash");
    reveal_strlit("balance");
    reveal_strlit("stats");
    reveal_strlit("txs");
    reveal_strlit("utxo");
    reveal_strlit("utxo-legacy");
    reveal_strlit("txids");
    reveal_strlit("recent");
    reveal_strlit("mempool");
    reveal_strlit("blocks");
    reveal_strlit("tip");
    reveal_strlit("hash");
    reveal_strlit("height");
    reveal_strlit("block-height");
    reveal_strlit("block");
    reveal_strlit("tx");
    reveal_strlit("status");
    reveal_strlit("header");
    reveal_strlit("raw");
    reveal_strlit("txid");
    reveal_strlit("test");
    reveal_strlit("package");
    reveal_strlit("broadcast");
    reveal_strlit("blockchain");
    reveal_strlit("getsupply");
    reveal_strlit("fee-estimates");
    reveal_strlit("address-prefix");
    reveal_strlit("chain");
    reveal_strlit("hex");
    reveal_strlit("outspend");
    reveal_strlit("outspends");
    reveal_strlit("merkle-proof");
    reveal_strlit("merkleblock-proof");
    assert(vstd::string::is_ascii("address"));
    assert(vstd::string::is_ascii("scripthash"));
    assert(vstd::string::is_ascii("balance"));
    assert(vstd::string::is_ascii("stats"));
    assert(vstd::string::is_ascii("txs"));
    assert(vstd::string::is_ascii("utxo"));
    assert(vstd::string::is_ascii("utxo-legacy"));
    assert(vstd::string::is_ascii("txids"));
    assert(vstd::string::is_ascii("recent"));
    assert(vstd::string::is_ascii("mempool"));
    assert(vstd::string::is_ascii("blocks"));
    assert(vstd::string::is_ascii("tip"));
    assert(vstd::string::is_ascii("hash"));
    assert(vstd::string::is_ascii("height"));
    assert(vstd::string::is_ascii("block-height"));
    assert(vstd::string::is_ascii("block"));
    assert(vstd::string::is_ascii("tx"));
    assert(vstd::string::is_ascii("status"));
    assert(vstd::string::is_ascii("header"));
    assert(vstd::string::is_ascii("raw"));
    assert(vstd::string::is_ascii("txid"));
    assert(vstd::string::is_ascii("test"));
    assert(vstd::string::is_ascii("package"));
    assert(vstd::string::is_ascii("broadcast"));
    assert(vstd::string::is_ascii("blockchain"));
    assert(vstd::string::is_ascii("getsupply"));
    assert(vstd::string::is_ascii("fee-estimates"));
    assert(vstd::string::is_ascii("address-prefix"));
    assert(vstd::string::is_ascii("chain"));
    assert(vstd::string::is_ascii("hex"));
    assert(vstd::string::is_ascii("outspend"));
    assert(vstd::string::is_ascii("outspends"));
    assert(vstd::string::is_ascii("merkle-proof"));
    assert(vstd::string::is_ascii("merkleblock-proof"));
    assert("address".spec_bytes()[0] != "mempool".spec_bytes()[0]);
    assert("address".spec_bytes()[0] != "package".spec_bytes()[0]);
    assert("raw".spec_bytes()[0] != "txs".spec_bytes()[0]);
    assert("hex".spec_bytes()[0] != "txs".spec_bytes()[0]);
    assert("txs".spec_bytes()[0] != "tip".spec_bytes()[2]);
    assert("txs".spec_bytes()[1] != "tip".spec_bytes()[1]);
}

/// The paginated mempool txids shape.
pub open spec fn render_mempool_txids(q: &Query, ps: Seq<(Seq<char>, Seq<char>)>) -> Seq<char> {
    let all = crate::mempool::mp_txids(&q.mempool);
    let start = spec_usize_param(ps, "start_index"@, 0);
    let limit = spec_usize_param(ps, "limit"@, 100);
    let from: int = if start <= all.len() {
        start as int
    } else {
        all.len() as int
    };
    let to: int = if limit <= all.len() - from {
        from + limit
    } else {
        all.len() as int
    };
    "{\"txids\":"@ + render_txid_array(all.subrange(from, to)) + ",\"total\":"@
        + crate::amounts::spec_dec(all.len()) + ",\"start_index\":"@ + crate::amounts::spec_dec(
        start as nat,
    ) + ",\"limit\":"@ + crate::amounts::spec_dec(limit as nat) + "}"@
}

/// Quoted JSON string list.
fn string_array_json(items: &Vec<String>) -> (r: String)
{
    let mut parts: Vec<String> = Vec::new();
    let mut i: usize = 0;
    while i < items.len()
        decreases items@.len() - i,
    {
        let mut p = String::new();
        crate::json::append_jstr(&mut p, items[i].as_str());
        parts.push(p);
        i = i + 1;
    }
    let mut out = String::new();
    crate::json::append_array(&mut out, &parts);
    out
}

/// A batch item has a sensible size: within [120, 800000] bytes of hex.
pub open spec fn batch_size_ok(item: Seq<u8>) -> bool {
    120 <= item.len() <= 800_000
}

/// A batch item is hex: even length, hex digits only.
pub open spec fn batch_hex_ok(item: Seq<u8>) -> bool {
    item.len() % 2 == 0 && all_hex_b(item)
}

/// The first batch item failing a precheck, or the length when all pass.
pub open spec fn first_bad_item(items: Seq<Seq<u8>>) -> int
    decreases items.len(),
{
    if items.len() == 0 {
        0
    } else if !(batch_size_ok(items[0]) && batch_hex_ok(items[0])) {
        0
    } else {
        1 + first_bad_item(items.skip(1))
    }
}

/// Spec view of a batch: the byte form of each item.
pub open spec fn batch_bytes(txhexes: Seq<String>) -> Seq<Seq<u8>> {
    txhexes.map_values(|s: String| vstd::utf8::encode_utf8(s@))
}

/// Size and hex prechecks the batch endpoints run: every item must be
/// 120 to 800000 bytes of hex; the first offender names itself, sizes
/// before hex.
fn batch_prechecks(txhexes: &Vec<String>) -> (r: Result<(), HttpError>)
    ensures
        ({
            let items = batch_bytes(txhexes@);
            match r {
                Ok(_) => first_bad_item(items) == items.len(),
                Err(e) => {
                    let i = first_bad_item(items);
                    &&& 0 <= i < items.len()
                    &&& e.status == 400
                    &&& (if !batch_size_ok(items[i]) {
                        e.msg@ == "Invalid transaction size for item "@
                            + crate::amounts::spec_dec(i as nat)
                    } else {
                        e.msg@ == "Invalid transaction hex for item "@ + crate::amounts::spec_dec(
                            i as nat,
                        )
                    })
                },
            }
        }),
{
    let ghost items = batch_bytes(txhexes@);
    let mut i: usize = 0;
    proof {
        assert(items.skip(0) =~= items);
    }
    while i < txhexes.len()
        invariant
            i <= txhexes@.len(),
            items == batch_bytes(txhexes@),
            first_bad_item(items) == i + first_bad_item(items.skip(i as int)),
        decreases txhexes@.len() - i,
    {
        let ghost rest = items.skip(i as int);
        proof {
            assert(rest[0] == items[i as int]);
            assert(rest.skip(1) =~= items.skip(i + 1));
            assert(items[i as int] == vstd::utf8::encode_utf8(txhexes@[i as int]@));
        }
        let bytes = txhexes[i].as_str().as_bytes_vec();
        let n = bytes.len();
        if !(120 <= n && n <= 800_000) {
            let mut msg = String::from_str("Invalid transaction size for item ");
            msg.append(crate::amounts::usize_to_dec(i).as_str());
            proof {
                assert(!batch_size_ok(items[i as int]));
                assert(first_bad_item(rest) == 0);
            }
            return Err(HttpError::bad_request(msg));
        }
        match hex_decode_bytes(&bytes) {
            Some(_) => {},
            None => {
                let mut msg = String::from_str("Invalid transaction hex for item ");
                msg.append(crate::amounts::usize_to_dec(i).as_str());
                proof {
                    assert(!batch_hex_ok(items[i as int]));
                    assert(first_bad_item(rest) == 0);
                }
                return Err(HttpError::bad_request(msg));
            },
        }
        i = i + 1;
    }
    proof {
        assert(items.skip(i as int).len() == 0);
    }
    Ok(())
}

/// An optional rate parameter is acceptable when absent or a plain
/// decimal.
pub open spec fn spec_rate_ok(ps: Seq<(Seq<char>, Seq<char>)>, name: Seq<char>) -> bool {
    match lookup_param(ps, name) {
        None => true,
        Some(v) => crate::parsing::spec_is_decimal(vstd::utf8::encode_utf8(v)),
    }
}

/// Validate an optional decimal rate parameter.
fn check_rate_param(params: &Vec<Param>, name: &str, err: &str) -> (r: Result<(), HttpError>)
    ensures
        r is Ok <==> spec_rate_ok(params_view(params@), name@),
        match r {
            Ok(_) => true,
            Err(e) => e.status == 400 && e.msg@ == err@,
        },
{
    match get_param(params, name) {
        None => Ok(()),
        Some(v) => {
            let bytes = v.as_str().as_bytes_vec();
            if crate::parsing::is_decimal_number(&bytes) {
                Ok(())
            } else {
                Err(HttpError::bad_request(String::from_str(err)))
            }
        },
    }
}


/// The path segments of a request: everything after the leading slash.
pub open spec fn req_segs(path: &str) -> Seq<Seq<u8>> {
    spec_split(path.spec_bytes(), 47).skip(1)
}

/// Block and chain-tip routes; later groups follow.
#[verifier::rlimit(100)]
fn route(
    q: &Query,
    method: Method,
    segs: &Vec<Vec<u8>>,
    params: &Vec<Param>,
    body: &Vec<u8>,
    path: &str,
) -> (r: Result<Step, HttpError>)
    requires
        q.wf(),
        q.chain.blocks@.len() > 0,
    ensures
        block_routes_contract(
            q,
            method,
            segs@.map_values(|p: Vec<u8>| p@),
            params_view(params@),
            body@,
            r,
        ),
{
    proof {
        lemma_seg_word_lens();
    }
    let n = segs.len();
    let best = q.chain.best_height();
    if method == Method::Get && n == 3 && word(&segs[0], "blocks") && word(&segs[1], "tip")
        && word(&segs[2], "hash") {
        return Ok(
            Step::Done(
                http_message(200, crate::bridge::hex_encode(&q.chain.best_hash().bytes), TTL_SHORT),
            ),
        );
    }
    if method == Method::Get && n <= 2 && n >= 1 && word(&segs[0], "blocks") {
        let start_height: Option<usize> = if n == 2 {
            crate::parsing::parse_usize(&segs[1])
        } else {
            None
        };
        return match blocks_list(q, start_height) {
            Ok(resp) => Ok(Step::Done(resp)),
            Err(e) => Err(e),
        };
    }
    if method == Method::Get && n == 2 && word(&segs[0], "block-height") {
        let height = match crate::parsing::parse_usize(&segs[1]) {
            Some(h) => h,
            None => {
                return Err(HttpError::bad_request(String::from_str("Invalid number")));
            },
        };
        let rec = match q.chain.header_by_height(height) {
            Some(b) => b,
            None => {
                return Err(HttpError::not_found(String::from_str("Block not found")));
            },
        };
        proof {
            assert(q.chain.blocks@[height - q.chain.blocks@[0].id.height].wf());
        }
        let ttl = ttl_by_depth(Some(rec.id.height), best);
        return Ok(Step::Done(http_message(200, crate::bridge::hex_encode(&rec.id.hash.bytes), ttl)));
    }
    route_block(q, method, segs, params, body, path)
}

/// Routes under a block hash.
#[verifier::rlimit(100)]
fn route_block(
    q: &Query,
    method: Method,
    segs: &Vec<Vec<u8>>,
    params: &Vec<Param>,
    body: &Vec<u8>,
    path: &str,
) -> (r: Result<Step, HttpError>)
    requires
        q.wf(),
        q.chain.blocks@.len() > 0,
    ensures
        block_routes_contract(
            q,
            method,
            segs@.map_values(|p: Vec<u8>| p@),
            params_view(params@),
            body@,
            r,
        ),
{
    proof {
        lemma_seg_word_lens();
    }
    let n = segs.len();
    let best = q.chain.best_height();
    if method == Method::Get && n >= 2 && word(&segs[0], "block") {
        let hash = match parse_hash_seg(&segs[1]) {
            Ok(h) => h,
            Err(e) => {
                return Err(e);
            },
        };
        if n == 2 {
            let rec = match q.chain.block_by_hash(&hash) {
                Some(b) => b,
                None => {
                    return Err(HttpError::not_found(String::from_str("Block not found")));
                },
            };
            proof {
                assert(q.chain.blocks@[crate::chain::ch_block_i(&q.chain, hash@)].wf());
            }
            return Ok(Step::Done(json_response(crate::shapes::block_json(rec), TTL_LONG)));
        }
        if n == 3 && word(&segs[2], "status") {
            match q.chain.find_block(&hash) {
                Some(i) => {
                    proof {
                        assert(q.chain.blocks@[i as int].wf());
                    }
                    let height = q.chain.blocks[i].id.height;
                    let next_best: Option<Hash32> = if i < q.chain.blocks.len() - 1 {
                        proof {
                            assert(q.chain.blocks@[i + 1].wf());
                        }
                        Some(q.chain.blocks[i + 1].id.hash.clone())
                    } else {
                        None
                    };
                    let ttl = ttl_by_depth(Some(height), best);
                    return Ok(
                        Step::Done(
                            json_response(
                                crate::shapes::block_status_json(true, Some(height), &next_best),
                                ttl,
                            ),
                        ),
                    );
                },
                None => {
                    return Ok(
                        Step::Done(
                            json_response(
                                crate::shapes::block_status_json(false, None, &None),
                                TTL_SHORT,
                            ),
                        ),
                    );
                },
            }
        }
        if n == 3 && word(&segs[2], "txids") {
            let ids = match q.chain.get_block_txids(&hash) {
                Some(v) => v,
                None => {
                    return Err(HttpError::not_found(String::from_str("Block not found")));
                },
            };
            return Ok(Step::Done(json_response(txid_array_json(&ids), TTL_LONG)));
        }
        return route_block2(q, method, segs, params, body, path);
    }
    route_scripts(q, method, segs, params, body, path)
}

/// Further routes under a block hash.
#[verifier::rlimit(100)]
fn route_block2(
    q: &Query,
    method: Method,
    segs: &Vec<Vec<u8>>,
    params: &Vec<Param>,
    body: &Vec<u8>,
    path: &str,
) -> (r: Result<Step, HttpError>)
    requires
        q.wf(),
        q.chain.blocks@.len() > 0,
    ensures
        block_routes_contract(
            q,
            method,
            segs@.map_values(|p: Vec<u8>| p@),
            params_view(params@),
            body@,
            r,
        ),
{
    proof {
        lemma_seg_word_lens();
    }
    let n = segs.len();
    let best = q.chain.best_height();
    if !(method == Method::Get && n >= 2 && word(&segs[0], "block")) {
        return route_scripts(q, method, segs, params, body, path);
    }
    let hash = match parse_hash_seg(&segs[1]) {
        Ok(h) => h,
        Err(e) => {
            return Err(e);
        },
    };
        if n == 3 && word(&segs[2], "header") {
            let rec = match q.chain.block_by_hash(&hash) {
                Some(b) => b,
                None => {
                    return Err(HttpError::not_found(String::from_str("Block not found")));
                },
            };
            return Ok(
                Step::Done(http_message(200, crate::bridge::hex_encode(&rec.raw_header), TTL_LONG)),
            );
        }
        if n == 3 && word(&segs[2], "raw") {
            let rec = match q.chain.block_by_hash(&hash) {
                Some(b) => b,
                None => {
                    return Err(HttpError::not_found(String::from_str("Block not found")));
                },
            };
            return Ok(Step::Done(raw_response(rec.raw.clone(), TTL_LONG)));
        }
        if n == 4 && word(&segs[2], "txid") {
            let index = match crate::parsing::parse_usize(&segs[3]) {
                Some(i) => i,
                None => {
                    return Err(HttpError::bad_request(String::from_str("Invalid number")));
                },
            };
            let ids = match q.chain.get_block_txids(&hash) {
                Some(v) => v,
                None => {
                    return Err(HttpError::not_found(String::from_str("Block not found")));
                },
            };
            if index >= ids.len() {
                return Err(HttpError::not_found(String::from_str("tx index out of range")));
            }
            return Ok(
                Step::Done(
                    http_message(200, crate::bridge::hex_encode(&ids[index].bytes), TTL_LONG),
                ),
            );
        }
        if (n == 3 || n == 4) && word(&segs[2], "txs") {
            let start_seg: Option<&Vec<u8>> = if n == 4 {
                Some(&segs[3])
            } else {
                None
            };
            return block_txs_resp(q, &hash, start_seg, best);
        }
    route_scripts(q, method, segs, params, body, path)
}

/// Look up a block's transactions for one page: one row per txid of the
/// window, each tagged with the block's id.
fn collect_block_txs(
    q: &Query,
    ids: &Vec<Hash32>,
    start_index: usize,
    end: usize,
    blockid: &Option<crate::types::BlockId>,
) -> (r: Result<Vec<(crate::tx::Transaction, Option<crate::types::BlockId>)>, HttpError>)
    requires
        q.wf(),
        start_index <= end <= ids@.len(),
        forall|k: int| 0 <= k < ids@.len() ==> (#[trigger] ids@[k]).wf(),
    ensures
        match r {
            Ok(v) => v@.len() == end - start_index && forall|k: int|
                0 <= k < v@.len() ==> {
                    &&& (#[trigger] v@[k]).0.wf()
                    &&& v@[k].0@.txid == ids@[start_index + k]@
                    &&& crate::types::opt_block_v(v@[k].1) == crate::types::opt_block_v(*blockid)
                },
            Err(e) => e.status == 400 && e.msg@ == "missing tx"@,
        },
{
    let mut txs: Vec<(crate::tx::Transaction, Option<crate::types::BlockId>)> = Vec::new();
    let mut i: usize = start_index;
    while i < end
        invariant
            q.wf(),
            start_index <= i <= end <= ids@.len(),
            txs@.len() == i - start_index,
            forall|k: int| 0 <= k < ids@.len() ==> (#[trigger] ids@[k]).wf(),
            forall|k: int|
                0 <= k < txs@.len() ==> {
                    &&& (#[trigger] txs@[k]).0.wf()
                    &&& txs@[k].0@.txid == ids@[start_index + k]@
                    &&& crate::types::opt_block_v(txs@[k].1) == crate::types::opt_block_v(
                        *blockid,
                    )
                },
        decreases end - i,
    {
        match q.lookup_txn(&ids[i]) {
            Some(t) => {
                proof {
                    if crate::chain::ch_has_tx(&q.chain, ids@[i as int]@) {
                        let w = crate::chain::ch_tx_i(&q.chain, ids@[i as int]@);
                        assert(q.chain.txs@[w].wf());
                    } else {
                        let w = crate::mempool::mp_tx_i(&q.mempool, ids@[i as int]@);
                        assert(q.mempool.txs@[w].wf());
                    }
                }
                txs.push((t, crate::types::clone_opt_block(blockid)));
            },
            None => {
                return Err(HttpError::bad_request(String::from_str("missing tx")));
            },
        }
        i = i + 1;
    }
    Ok(txs)
}

/// The start index a block-txs route uses: the parsed segment, or zero
/// when it is absent or does not parse.
pub open spec fn spec_block_txs_start(start_seg: Option<Seq<u8>>) -> int {
    match start_seg {
        Some(b) => match spec_parse_u64(b) {
            Some(v) => if v <= u32::MAX {
                v as int
            } else {
                0
            },
            None => 0,
        },
        None => 0,
    }
}

/// The paginated transactions of one block: 404 for an unknown block or an
/// out-of-range start, 400 when the start is not a page multiple, else one
/// page of rendered transactions cached by the block's depth.
#[verifier::rlimit(100)]
fn block_txs_resp(q: &Query, hash: &Hash32, start_seg: Option<&Vec<u8>>, best: u32) -> (r: Result<
    Step,
    HttpError,
>)
    requires
        q.wf(),
    ensures
        !crate::chain::ch_has_block(&q.chain, hash@) ==> (r matches Err(e) && e.status == 404
            && e.msg@ == "Block not found"@),
        ({
            let known = crate::chain::ch_has_block(&q.chain, hash@);
            let ids = q.chain.blocks@[crate::chain::ch_block_i(&q.chain, hash@)].txids@;
            let start = spec_block_txs_start(match start_seg {
                Some(sb) => Some(sb@),
                None => None,
            });
            &&& (known && start >= ids.len()) ==> (r matches Err(e) && e.status == 404 && e.msg@
                == "start index out of range"@)
            &&& (known && start < ids.len() && start % (CHAIN_TXS_PER_PAGE as int) != 0) ==> (r
                matches Err(e) && e.status == 400 && e.msg@
                == "start index must be a multipication of 25"@)
            &&& (known && start < ids.len() && start % (CHAIN_TXS_PER_PAGE as int) == 0) ==> (
            match r {
                Ok(step) => step matches Step::Done(resp) && resp.status == 200
                    && resp.content_type == ContentType::Json && resp.cache_ttl == Some(
                    spec_ttl_by_depth(
                        Some(q.chain.blocks@[crate::chain::ch_block_i(&q.chain, hash@)].id.height),
                        best,
                    ),
                ),
                // A txid of the block that the store does not hold, or a
                // previous output the stores cannot resolve.
                Err(e) => (e.status == 400 && e.msg@ == "missing tx"@) || e.status == 500,
            })
        }),
{

            let ids = match q.chain.get_block_txids(hash) {
                Some(v) => v,
                None => {
                    return Err(HttpError::not_found(String::from_str("Block not found")));
                },
            };
            proof {
                let sids = q.chain.blocks@[crate::chain::ch_block_i(&q.chain, hash@)].txids@;
                assert(crate::types::hash_views(ids@).len() == ids@.len());
                assert(crate::types::hash_views(sids).len() == sids.len());
                assert(ids@.len() == sids.len());
            }
            let start_index: usize = match start_seg {
                Some(sb) => match parse_u32(sb) {
                    Some(v) => v as usize,
                    None => 0,
                },
                None => 0,
            };
            if start_index >= ids.len() {
                return Err(HttpError::not_found(String::from_str("start index out of range")));
            }
            if start_index % CHAIN_TXS_PER_PAGE != 0 {
                return Err(
                    HttpError::bad_request(
                        String::from_str("start index must be a multipication of 25"),
                    ),
                );
            }
            let blockid = q.chain.blockid_by_hash(hash);
            proof {
                assert(blockid is Some);
            }
            let end = if CHAIN_TXS_PER_PAGE <= ids.len() - start_index {
                start_index + CHAIN_TXS_PER_PAGE
            } else {
                ids.len()
            };
            let txs = match collect_block_txs(q, &ids, start_index, end, &blockid) {
                Ok(v) => v,
                Err(e) => {
                    return Err(e);
                },
            };
            let ttl = match &blockid {
                Some(b) => ttl_by_depth(Some(b.height), best),
                None => ttl_by_depth(None, best),
            };
            let body_json = match txs_list_json(q, &txs) {
                Ok(s) => s,
                Err(e) => {
                    return Err(e);
                },
            };
            return Ok(Step::Done(json_response(body_json, ttl)));
        
}

/// A run of hex digits is ASCII, so it is valid UTF-8.
proof fn lemma_ascii_hex_valid_utf8(b: Seq<u8>)
    requires
        all_hex_b(b),
    ensures
        vstd::utf8::valid_utf8(b),
{
    assert forall|i: int|
        0 <= 0 <= i < b.len() <= b.len() implies vstd::utf8::is_leading_byte_width_1(
        #[trigger] b[i],
    ) by {
        assert(crate::parsing::is_hex_b(b[i]));
    }
    assert(vstd::utf8::partial_valid_utf8(b, 0)) by {
        assert(b.subrange(0, 0) =~= Seq::<u8>::empty());
        assert(vstd::utf8::valid_utf8(Seq::<u8>::empty()));
    }
    vstd::utf8::partial_valid_utf8_extend_ascii_block(b, 0, b.len() as int);
    assert(b.subrange(0, b.len() as int) =~= b);
}

/// The scripthash a `{address|scripthash}/{s}` route pair denotes: the hex
/// form directly, or the SHA-256 of the script of an address of the
/// configured network.
pub open spec fn seg_scripthash(q: &Query, seg0: Seq<u8>, seg1: Seq<u8>) -> Option<Seq<u8>> {
    if seg0 == "scripthash".spec_bytes() {
        if seg1.len() == 64 && all_hex_b(seg1) {
            Some(spec_unhex_b(seg1))
        } else {
            None
        }
    } else if vstd::utf8::valid_utf8(seg1) {
        match crate::bridge::address_script_of(
            vstd::utf8::decode_utf8(seg1),
            q.config.network_type,
        ) {
            Some(s) => Some(crate::bridge::sha256_of(s)),
            None => None,
        }
    } else {
        None
    }
}

/// The merged UTXO view a bare utxo route serves: unspent chain entries up
/// to the configured limit, then the mempool's own entries.
pub open spec fn merged_page(q: &Query, h: Seq<u8>) -> Seq<crate::types::UtxoV> {
    crate::query::drop_spent(
        crate::types::take_up_to(
            crate::chain::ch_utxos(&q.chain, h),
            q.config.utxos_limit as int,
        ),
        &q.mempool,
    ) + crate::mempool::mp_utxos(&q.mempool, h)
}

/// The documented upper-bound total of a paginated utxo answer.
pub open spec fn utxo_total_bound(q: &Query, h: Seq<u8>) -> int {
    let chl = crate::chain::ch_utxos(&q.chain, h).len();
    let mpl = crate::mempool::mp_utxos(&q.mempool, h).len();
    if chl + mpl <= usize::MAX {
        (chl + mpl) as int
    } else {
        usize::MAX as int
    }
}

/// The cursor-mode utxo body: the page the engine serves, the upper-bound
/// total, the limit, and the next cursor when one is handed out.
pub open spec fn render_cursor_page(
    q: &Query,
    h: Seq<u8>,
    cur: Option<OutPointV>,
    limit: int,
) -> Seq<char> {
    let res = crate::query::cursor_result(&q.chain, &q.mempool, h, cur, limit);
    "{\"utxos\":"@ + crate::shapes::render_utxo_list_v(res.page) + ",\"total\":"@
        + crate::amounts::spec_dec(utxo_total_bound(q, h) as nat) + ",\"limit\":"@
        + crate::amounts::spec_dec(limit as nat) + (match res.next {
        Some(op) => ",\"next_cursor\":\""@ + crate::bridge::spec_hex(op.txid) + seq![':']
            + crate::amounts::spec_dec(op.vout as nat) + seq!['"'],
        None => Seq::<char>::empty(),
    }) + "}"@
}

/// The offset-mode utxo body.
pub open spec fn render_offset_page(q: &Query, h: Seq<u8>, start_index: int, limit: int) -> Seq<
    char,
> {
    "{\"utxos\":"@ + crate::shapes::render_utxo_list_v(
        crate::query::offset_result(&q.chain, &q.mempool, h, start_index, limit),
    ) + ",\"total\":"@ + crate::amounts::spec_dec(utxo_total_bound(q, h) as nat)
        + ",\"start_index\":"@ + crate::amounts::spec_dec(start_index as nat) + ",\"limit\":"@
        + crate::amounts::spec_dec(limit as nat) + "}"@
}

/// `a + b` capped, in the integers.
pub open spec fn sat_add_int(a: int, b: int) -> int {
    if a + b <= u64::MAX {
        a + b
    } else {
        u64::MAX as int
    }
}

/// Confirmed and pending satoshi sums over a UTXO list, each capped.
pub open spec fn split_sums(s: Seq<crate::types::UtxoV>) -> (int, int)
    decreases s.len(),
{
    if s.len() == 0 {
        (0, 0)
    } else {
        let rest = split_sums(s.drop_last());
        let u = s.last();
        if u.confirmed is Some {
            (sat_add_int(rest.0, u.value as int), rest.1)
        } else {
            (rest.0, sat_add_int(rest.1, u.value as int))
        }
    }
}

/// The confirmed/pending pair a balance route serves: summed from the
/// merged UTXO view when `optimized`, else from the stored statistics with
/// spent subtracted (floored at zero).
pub open spec fn spec_balance_sums(q: &Query, h: Seq<u8>, optimized: bool) -> (int, int) {
    if optimized {
        split_sums(merged_page(q, h))
    } else {
        let cs = crate::chain::ch_stats(&q.chain, h);
        let ms = crate::mempool::mp_stats(&q.mempool, h);
        (
            if cs.funded_txo_sum >= cs.spent_txo_sum {
                cs.funded_txo_sum - cs.spent_txo_sum
            } else {
                0
            },
            if ms.funded_txo_sum >= ms.spent_txo_sum {
                ms.funded_txo_sum - ms.spent_txo_sum
            } else {
                0
            },
        )
    }
}

/// The earliest confirmation time among history rows.
pub open spec fn min_seen(s: Seq<crate::chain::HistoryEntryV>) -> Option<u64>
    decreases s.len(),
{
    if s.len() == 0 {
        None
    } else {
        let rest = min_seen(s.drop_last());
        let t = s.last().block.time as u64;
        match rest {
            None => Some(t),
            Some(m) => if m > t {
                Some(t)
            } else {
                Some(m)
            },
        }
    }
}

/// The latest confirmation time among history rows.
pub open spec fn max_seen(s: Seq<crate::chain::HistoryEntryV>) -> Option<u64>
    decreases s.len(),
{
    if s.len() == 0 {
        None
    } else {
        let rest = max_seen(s.drop_last());
        let t = s.last().block.time as u64;
        match rest {
            None => Some(t),
            Some(m) => if m < t {
                Some(t)
            } else {
                Some(m)
            },
        }
    }
}

/// The aggregated address statistics: chain and mempool sides summed
/// (capped), the balance floored at zero, and first/last-seen times scanned
/// from the most recent confirmed history rows.
#[verifier::rlimit(100)]
fn stats_resp(q: &Query, h: &Hash32) -> (resp: HttpResponse)
    requires
        q.wf(),
    ensures
        resp.status == 200,
        resp.content_type == ContentType::Json,
        resp.cache_ttl == Some(TTL_SHORT),
        ({
            let cs = crate::chain::ch_stats(&q.chain, h@);
            let ms = crate::mempool::mp_stats(&q.mempool, h@);
            let conf = crate::types::take_up_to(crate::chain::ch_history(&q.chain, h@), 1000);
            let funded_sum = sat_add_int(cs.funded_txo_sum as int, ms.funded_txo_sum as int);
            let spent_sum = sat_add_int(cs.spent_txo_sum as int, ms.spent_txo_sum as int);
            resp.body matches RespBody::Text(t) && t@ == crate::shapes::render_address_stats(
                sat_add_int(cs.funded_txo_count as int, ms.funded_txo_count as int) as u64,
                funded_sum as u64,
                sat_add_int(cs.spent_txo_count as int, ms.spent_txo_count as int) as u64,
                spent_sum as u64,
                sat_add_int(cs.tx_count as int, ms.tx_count as int) as u64,
                (if funded_sum >= spent_sum {
                    funded_sum - spent_sum
                } else {
                    0
                }) as u64,
                min_seen(conf),
                max_seen(conf),
            )
        }),
{
    let (cs, ms) = q.stats(h);
    let funded_count = crate::shapes::sat_add(cs.funded_txo_count, ms.funded_txo_count);
    let funded_sum = crate::shapes::sat_add(cs.funded_txo_sum, ms.funded_txo_sum);
    let spent_count = crate::shapes::sat_add(cs.spent_txo_count, ms.spent_txo_count);
    let spent_sum = crate::shapes::sat_add(cs.spent_txo_sum, ms.spent_txo_sum);
    let tx_count = crate::shapes::sat_add(cs.tx_count, ms.tx_count);
    let balance = if funded_sum >= spent_sum {
        funded_sum - spent_sum
    } else {
        0
    };
    let ghost conf = crate::types::take_up_to(crate::chain::ch_history(&q.chain, h@), 1000);
    let hist = q.history_txids(h, 1000);
    let mut first_seen: Option<u64> = None;
    let mut last_seen: Option<u64> = None;
    let mut i: usize = 0;
    proof {
        assert(conf.take(0) =~= Seq::<crate::chain::HistoryEntryV>::empty());
        assert forall|k: int| 0 <= k < conf.len() implies ((#[trigger] hist@[k]).1 is Some
            && crate::types::opt_block_v(hist@[k].1) == Some(conf[k].block)) by {
            assert(hist@[k].0@ == conf[k].txid && crate::types::opt_block_v(hist@[k].1) == Some(
                conf[k].block,
            ));
        }
        assert forall|k: int| conf.len() <= k < hist@.len() implies (#[trigger] hist@[k]).1
            is None by {
            let k2 = k - conf.len();
            assert(hist@[conf.len() + k2].1 is None);
        }
    }
    while i < hist.len()
        invariant
            i <= hist@.len(),
            conf == crate::types::take_up_to(crate::chain::ch_history(&q.chain, h@), 1000),
            conf.len() <= hist@.len(),
            forall|k: int|
                0 <= k < conf.len() ==> (#[trigger] hist@[k]).1 is Some
                    && crate::types::opt_block_v(hist@[k].1) == Some(conf[k].block),
            forall|k: int| conf.len() <= k < hist@.len() ==> (#[trigger] hist@[k]).1 is None,
            first_seen == min_seen(conf.take(if i <= conf.len() {
                i as int
            } else {
                conf.len() as int
            })),
            last_seen == max_seen(conf.take(if i <= conf.len() {
                i as int
            } else {
                conf.len() as int
            })),
        decreases hist@.len() - i,
    {
        proof {
            if i < conf.len() {
                assert(conf.take(i + 1).drop_last() =~= conf.take(i as int));
                assert(conf.take(i + 1).last() == conf[i as int]);
            }
        }
        match &hist[i].1 {
            Some(b) => {
                let t = b.time as u64;
                first_seen = match first_seen {
                    None => Some(t),
                    Some(f) => if f > t {
                        Some(t)
                    } else {
                        Some(f)
                    },
                };
                last_seen = match last_seen {
                    None => Some(t),
                    Some(l) => if l < t {
                        Some(t)
                    } else {
                        Some(l)
                    },
                };
            },
            None => {},
        }
        i = i + 1;
    }
    proof {
        assert(conf.take(conf.len() as int) =~= conf);
    }
    json_response(
        crate::shapes::address_stats_json(
            funded_count,
            funded_sum,
            spent_count,
            spent_sum,
            tx_count,
            balance,
            first_seen,
            last_seen,
        ),
        TTL_SHORT,
    )
}

/// The balance shape for a scripthash: confirmed/pending sums from the
/// engine (UTXO-summed when `optimized`, statistics otherwise), rendered as
/// 8-place BTC strings under both key sets.
#[verifier::rlimit(100)]
fn balance_resp(q: &Query, h: &Hash32, params: &Vec<Param>) -> (resp: HttpResponse)
    requires
        q.wf(),
    ensures
        resp.status == 200,
        resp.content_type == ContentType::Json,
        resp.cache_ttl == Some(TTL_SHORT),
        ({
            let sums = spec_balance_sums(
                q,
                h@,
                spec_bool_param(params_view(params@), "optimized"@, false),
            );
            resp.body matches RespBody::Text(t) && t@ == crate::shapes::render_balance(
                sums.0 as u64,
                sums.1 as u64,
                sat_add_int(sums.0, sums.1) as u64,
            )
        }),
{
    let optimized = bool_param(params, "optimized", false);
    let (confirmed, pending) = if optimized {
        let utxos = q.utxo(h);
        let ghost views = crate::types::utxo_views(utxos@);
        let mut c: u64 = 0;
        let mut p: u64 = 0;
        let mut i: usize = 0;
        proof {
            assert(views.take(0) =~= Seq::<crate::types::UtxoV>::empty());
        }
        while i < utxos.len()
            invariant
                i <= utxos@.len(),
                views == crate::types::utxo_views(utxos@),
                (c as int, p as int) == split_sums(views.take(i as int)),
            decreases utxos@.len() - i,
        {
            proof {
                assert(views.take(i + 1).drop_last() =~= views.take(i as int));
                assert(views.take(i + 1).last() == utxos@[i as int]@);
            }
            match &utxos[i].confirmed {
                Some(_) => {
                    c = crate::shapes::sat_add(c, utxos[i].value);
                },
                None => {
                    p = crate::shapes::sat_add(p, utxos[i].value);
                },
            }
            i = i + 1;
        }
        proof {
            assert(views.take(utxos@.len() as int) =~= views);
            assert(views =~= merged_page(q, h@));
        }
        (c, p)
    } else {
        let (cs, ms) = q.stats(h);
        let c = if cs.funded_txo_sum >= cs.spent_txo_sum {
            cs.funded_txo_sum - cs.spent_txo_sum
        } else {
            0
        };
        let p = if ms.funded_txo_sum >= ms.spent_txo_sum {
            ms.funded_txo_sum - ms.spent_txo_sum
        } else {
            0
        };
        (c, p)
    };
    json_response(crate::shapes::balance_json(confirmed, pending), TTL_SHORT)
}

/// Cursor-mode utxo answer, given the resolved limit.
#[verifier::rlimit(100)]
fn utxo_cursor_resp(q: &Query, h: &Hash32, params: &Vec<Param>, limit: usize) -> (r: Result<
    HttpResponse,
    HttpError,
>)
    requires
        q.wf(),
        limit == spec_usize_param(params_view(params@), "limit"@, q.config.utxos_limit),
    ensures
        ({
            let ps = params_view(params@);
            lookup_param(ps, "cursor"@) matches Some(cv) && (vstd::utf8::encode_utf8(cv).len()
                == 0 || vstd::utf8::encode_utf8(cv) == seq![58u8])
        }) ==> (r matches Ok(resp) && resp.status == 200 && resp.content_type
            == ContentType::Json && resp.cache_ttl == Some(TTL_SHORT) && (resp.body
            matches RespBody::Text(t) && t@ == render_cursor_page(q, h@, None, limit as int))),
        ({
            let ps = params_view(params@);
            lookup_param(ps, "cursor"@) matches Some(cv) && ({
                let b = vstd::utf8::encode_utf8(cv);
                let parts = spec_split(b, 58);
                &&& b.len() > 0
                &&& b != seq![58u8]
                &&& parts.len() == 2
                &&& parts[0].len() == 64
                &&& all_hex_b(parts[0])
                &&& (spec_parse_u64(parts[1]) matches Some(vv) && vv <= u32::MAX)
            })
        }) ==> (r matches Ok(resp) && resp.status == 200 && resp.content_type
            == ContentType::Json && resp.cache_ttl == Some(TTL_SHORT) && (resp.body
            matches RespBody::Text(t) && t@ == ({
            let b = vstd::utf8::encode_utf8(
                lookup_param(params_view(params@), "cursor"@)->Some_0,
            );
            let parts = spec_split(b, 58);
            render_cursor_page(
                q,
                h@,
                Some(
                    OutPointV {
                        txid: spec_unhex_b(parts[0]),
                        vout: (spec_parse_u64(parts[1])->Some_0) as u32,
                    },
                ),
                limit as int,
            )
        }))),
{
    let cursor_val = match get_param(params, "cursor") {
        Some(v) => v,
        None => String::new(),
    };
    let cursor = match parse_cursor(cursor_val.as_str()) {
        Ok(c) => c,
        Err(e) => {
            return Err(e);
        },
    };
    let ghost curv: Option<OutPointV> = match cursor {
        Some(ref c) => Some(c@),
        None => None,
    };
    let (utxos, total, next) = q.utxo_with_cursor(
        h,
        match &cursor {
            Some(c) => Some(c),
            None => None,
        },
        limit,
    );
    let mut out = String::from_str("{\"utxos\":");
    out.append(crate::shapes::utxo_list_json(&utxos).as_str());
    out.append(",\"total\":");
    out.append(crate::amounts::usize_to_dec(total).as_str());
    out.append(",\"limit\":");
    out.append(crate::amounts::usize_to_dec(limit).as_str());
    match &next {
        Some(op) => {
            out.append(",\"next_cursor\":\"");
            out.append(crate::bridge::hex_encode(&op.txid.bytes).as_str());
            out.append(":");
            out.append(crate::amounts::u32_to_dec(op.vout).as_str());
            out.append("\"");
        },
        None => {},
    }
    out.append("}");
    proof {
        reveal_strlit(":");
        reveal_strlit("\"");
        assert(out@ =~= render_cursor_page(q, h@, curv, limit as int));
    }
    Ok(json_response(out, TTL_SHORT))
}

/// The utxo shape for a scripthash, in the mode the parameters pick:
/// cursor pagination, offset pagination, or the bare merged list.
#[verifier::rlimit(100)]
fn utxo_resp(q: &Query, h: &Hash32, params: &Vec<Param>) -> (r: Result<HttpResponse, HttpError>)
    requires
        q.wf(),
    ensures
        // Bare mode.
        ({
            let ps = params_view(params@);
            lookup_param(ps, "cursor"@) is None && lookup_param(ps, "start_index"@) is None
                && lookup_param(ps, "limit"@) is None
        }) ==> (r matches Ok(resp) && resp.status == 200 && resp.content_type
            == ContentType::Json && resp.cache_ttl == Some(TTL_SHORT) && (resp.body
            matches RespBody::Text(t) && t@ == crate::shapes::render_utxo_list_v(
            merged_page(q, h@),
        ))),
        // Cursor mode, from the start.
        ({
            let ps = params_view(params@);
            lookup_param(ps, "cursor"@) matches Some(cv) && (vstd::utf8::encode_utf8(cv).len()
                == 0 || vstd::utf8::encode_utf8(cv) == seq![58u8])
        }) ==> (r matches Ok(resp) && resp.status == 200 && resp.content_type
            == ContentType::Json && resp.cache_ttl == Some(TTL_SHORT) && (resp.body
            matches RespBody::Text(t) && t@ == render_cursor_page(
            q,
            h@,
            None,
            spec_usize_param(params_view(params@), "limit"@, q.config.utxos_limit) as int,
        ))),
        // Cursor mode, resuming after an outpoint.
        ({
            let ps = params_view(params@);
            lookup_param(ps, "cursor"@) matches Some(cv) && ({
                let b = vstd::utf8::encode_utf8(cv);
                let parts = spec_split(b, 58);
                &&& b.len() > 0
                &&& b != seq![58u8]
                &&& parts.len() == 2
                &&& parts[0].len() == 64
                &&& all_hex_b(parts[0])
                &&& (spec_parse_u64(parts[1]) matches Some(vv) && vv <= u32::MAX)
            })
        }) ==> (r matches Ok(resp) && resp.status == 200 && resp.content_type
            == ContentType::Json && resp.cache_ttl == Some(TTL_SHORT) && (resp.body
            matches RespBody::Text(t) && t@ == ({
            let b = vstd::utf8::encode_utf8(
                lookup_param(params_view(params@), "cursor"@)->Some_0,
            );
            let parts = spec_split(b, 58);
            render_cursor_page(
                q,
                h@,
                Some(
                    OutPointV {
                        txid: spec_unhex_b(parts[0]),
                        vout: (spec_parse_u64(parts[1])->Some_0) as u32,
                    },
                ),
                spec_usize_param(params_view(params@), "limit"@, q.config.utxos_limit) as int,
            )
        }))),
        // Offset mode.
        ({
            let ps = params_view(params@);
            lookup_param(ps, "cursor"@) is None && (lookup_param(ps, "start_index"@) is Some
                || lookup_param(ps, "limit"@) is Some)
        }) ==> (r matches Ok(resp) && resp.status == 200 && resp.content_type
            == ContentType::Json && resp.cache_ttl == Some(TTL_SHORT) && (resp.body
            matches RespBody::Text(t) && t@ == render_offset_page(
            q,
            h@,
            spec_usize_param(params_view(params@), "start_index"@, 0) as int,
            spec_usize_param(params_view(params@), "limit"@, q.config.utxos_limit) as int,
        ))),
{
    let limit = usize_param(params, "limit", q.config.utxos_limit);
    if has_param(params, "cursor") {
        return utxo_cursor_resp(q, h, params, limit);
    }
    if has_param(params, "start_index") || has_param(params, "limit") {
        let start_index = usize_param(params, "start_index", 0);
        let (utxos, total) = q.utxo_paginated(h, start_index, limit);
        let mut out = String::from_str("{\"utxos\":");
        out.append(crate::shapes::utxo_list_json(&utxos).as_str());
        out.append(",\"total\":");
        out.append(crate::amounts::usize_to_dec(total).as_str());
        out.append(",\"start_index\":");
        out.append(crate::amounts::usize_to_dec(start_index).as_str());
        out.append(",\"limit\":");
        out.append(crate::amounts::usize_to_dec(limit).as_str());
        out.append("}");
        proof {
            assert(out@ =~= render_offset_page(q, h@, start_index as int, limit as int));
        }
        return Ok(json_response(out, TTL_SHORT));
    }
    let utxos = q.utxo(h);
    let body = crate::shapes::utxo_list_json(&utxos);
    proof {
        assert(crate::types::utxo_views(utxos@) =~= merged_page(q, h@));
    }
    Ok(json_response(body, TTL_SHORT))
}

/// A finished 200 JSON answer carrying this body and cache lifetime.
pub open spec fn json_done(s: Step, body: Seq<char>, ttl: u32) -> bool {
    (s matches Step::Done(resp) && resp.status == 200 && resp.content_type == ContentType::Json
        && resp.cache_ttl == Some(ttl) && (resp.body matches RespBody::Text(t) && t@ == body))
}

/// A finished plain-text answer with this status and message and no cache
/// header — the shape every routed error takes.
pub open spec fn plain_done(s: Step, status: u16, msg: Seq<char>) -> bool {
    (s matches Step::Done(resp) && resp.status == status && resp.content_type
        == ContentType::TextPlain && resp.cache_ttl is None && (resp.body
        matches RespBody::Text(t) && t@ == msg))
}

/// The items a batch body denotes: a JSON array of strings in UTF-8.
pub open spec fn batch_items(body: Seq<u8>) -> Option<Seq<Seq<char>>> {
    if vstd::utf8::valid_utf8(body) {
        crate::bridge::json_string_list_of(vstd::utf8::decode_utf8(body))
    } else {
        None
    }
}

/// The byte form of each batch item.
pub open spec fn items_bytes(items: Seq<Seq<char>>) -> Seq<Seq<u8>> {
    items.map_values(|s: Seq<char>| vstd::utf8::encode_utf8(s))
}

/// The message the first failing batch item earns: size before hex.
pub open spec fn first_bad_msg(items: Seq<Seq<char>>) -> Seq<char> {
    let bs = items_bytes(items);
    let i = first_bad_item(bs);
    if !batch_size_ok(bs[i]) {
        "Invalid transaction size for item "@ + crate::amounts::spec_dec(i as nat)
    } else {
        "Invalid transaction hex for item "@ + crate::amounts::spec_dec(i as nat)
    }
}

/// The tip height of the indexed window.
pub open spec fn best_of(q: &Query) -> u32 {
    q.chain.blocks@[q.chain.blocks@.len() - 1].id.height
}

/// What the batch endpoints answer: an oversize array is rejected with its
/// fixed message, and the first item failing the size or hex precheck
/// names itself.
pub open spec fn batch_routes_contract(
    q: &Query,
    method: Method,
    segs: Seq<Seq<u8>>,
    ps: Seq<(Seq<char>, Seq<char>)>,
    body: Seq<u8>,
    r: Result<Step, HttpError>,
) -> bool {
    &&& ({
        &&& method == Method::Post
        &&& segs.len() == 2
        &&& segs[0] == "txs".spec_bytes()
        &&& (segs[1] == "test".spec_bytes() || segs[1] == "package".spec_bytes())
        &&& (batch_items(body) matches Some(items) && items.len() > 25)
    }) ==> plain_done(settled(r), 400, "Exceeded maximum of 25 transactions"@)
    &&& ({
        &&& method == Method::Post
        &&& segs.len() == 2
        &&& segs[0] == "txs".spec_bytes()
        &&& segs[1] == "test".spec_bytes()
        &&& spec_rate_ok(ps, "maxfeerate"@)
        &&& (batch_items(body) matches Some(items) && items.len() <= 25 && first_bad_item(
            items_bytes(items),
        ) < items.len())
    }) ==> plain_done(settled(r), 400, first_bad_msg(batch_items(body)->Some_0))
    &&& ({
        &&& method == Method::Post
        &&& segs.len() == 2
        &&& segs[0] == "txs".spec_bytes()
        &&& segs[1] == "package".spec_bytes()
        &&& spec_rate_ok(ps, "maxfeerate"@)
        &&& spec_rate_ok(ps, "maxburnamount"@)
        &&& (batch_items(body) matches Some(items) && items.len() <= 25 && first_bad_item(
            items_bytes(items),
        ) < items.len())
    }) ==> plain_done(settled(r), 400, first_bad_msg(batch_items(body)->Some_0))
}

/// The above, plus the paginated mempool txid listing.
pub open spec fn mempool_routes_contract(
    q: &Query,
    method: Method,
    segs: Seq<Seq<u8>>,
    ps: Seq<(Seq<char>, Seq<char>)>,
    body: Seq<u8>,
    r: Result<Step, HttpError>,
) -> bool {
    &&& batch_routes_contract(q, method, segs, ps, body, r)
    &&& ({
        &&& method == Method::Get
        &&& segs.len() == 2
        &&& segs[0] == "mempool".spec_bytes()
        &&& segs[1] == "txids".spec_bytes()
    }) ==> json_done(settled(r), render_mempool_txids(q, ps), TTL_SHORT)
}

/// The above, plus the balance, statistics and utxo answers for a
/// scripthash or address.
pub open spec fn script_routes_contract(
    q: &Query,
    method: Method,
    segs: Seq<Seq<u8>>,
    ps: Seq<(Seq<char>, Seq<char>)>,
    body: Seq<u8>,
    r: Result<Step, HttpError>,
) -> bool {
    &&& mempool_routes_contract(q, method, segs, ps, body, r)
    &&& ({
        &&& method == Method::Get
        &&& segs.len() == 3
        &&& (segs[0] == "address".spec_bytes() || segs[0] == "scripthash".spec_bytes())
        &&& segs[2] == "balance".spec_bytes()
        &&& seg_scripthash(q, segs[0], segs[1]) is Some
    }) ==> json_done(
        settled(r),
        ({
            let h = seg_scripthash(q, segs[0], segs[1])->Some_0;
            let sums = spec_balance_sums(q, h, spec_bool_param(ps, "optimized"@, false));
            crate::shapes::render_balance(
                sums.0 as u64,
                sums.1 as u64,
                sat_add_int(sums.0, sums.1) as u64,
            )
        }),
        TTL_SHORT,
    )
    &&& ({
        &&& method == Method::Get
        &&& segs.len() == 3
        &&& (segs[0] == "address".spec_bytes() || segs[0] == "scripthash".spec_bytes())
        &&& segs[2] == "stats".spec_bytes()
        &&& seg_scripthash(q, segs[0], segs[1]) is Some
    }) ==> json_done(
        settled(r),
        ({
            let h = seg_scripthash(q, segs[0], segs[1])->Some_0;
            let cs = crate::chain::ch_stats(&q.chain, h);
            let ms = crate::mempool::mp_stats(&q.mempool, h);
            let conf = crate::types::take_up_to(crate::chain::ch_history(&q.chain, h), 1000);
            let funded_sum = sat_add_int(cs.funded_txo_sum as int, ms.funded_txo_sum as int);
            let spent_sum = sat_add_int(cs.spent_txo_sum as int, ms.spent_txo_sum as int);
            crate::shapes::render_address_stats(
                sat_add_int(cs.funded_txo_count as int, ms.funded_txo_count as int) as u64,
                funded_sum as u64,
                sat_add_int(cs.spent_txo_count as int, ms.spent_txo_count as int) as u64,
                spent_sum as u64,
                sat_add_int(cs.tx_count as int, ms.tx_count as int) as u64,
                (if funded_sum >= spent_sum {
                    funded_sum - spent_sum
                } else {
                    0
                }) as u64,
                min_seen(conf),
                max_seen(conf),
            )
        }),
        TTL_SHORT,
    )
    &&& ({
        &&& method == Method::Get
        &&& segs.len() == 3
        &&& (segs[0] == "address".spec_bytes() || segs[0] == "scripthash".spec_bytes())
        &&& segs[2] == "utxo".spec_bytes()
        &&& lookup_param(ps, "cursor"@) is None
        &&& lookup_param(ps, "start_index"@) is None
        &&& lookup_param(ps, "limit"@) is None
        &&& seg_scripthash(q, segs[0], segs[1]) is Some
    }) ==> json_done(
        settled(r),
        crate::shapes::render_utxo_list_v(
            merged_page(q, seg_scripthash(q, segs[0], segs[1])->Some_0),
        ),
        TTL_SHORT,
    )
    &&& ({
        &&& method == Method::Get
        &&& segs.len() == 3
        &&& (segs[0] == "address".spec_bytes() || segs[0] == "scripthash".spec_bytes())
        &&& segs[2] == "utxo".spec_bytes()
        &&& (lookup_param(ps, "cursor"@) matches Some(cv) && (vstd::utf8::encode_utf8(cv).len()
            == 0 || vstd::utf8::encode_utf8(cv) == seq![58u8]))
        &&& seg_scripthash(q, segs[0], segs[1]) is Some
    }) ==> json_done(
        settled(r),
        render_cursor_page(
            q,
            seg_scripthash(q, segs[0], segs[1])->Some_0,
            None,
            spec_usize_param(ps, "limit"@, q.config.utxos_limit) as int,
        ),
        TTL_SHORT,
    )
    &&& ({
        &&& method == Method::Get
        &&& segs.len() == 3
        &&& (segs[0] == "address".spec_bytes() || segs[0] == "scripthash".spec_bytes())
        &&& segs[2] == "utxo".spec_bytes()
        &&& (lookup_param(ps, "cursor"@) matches Some(cv) && ({
            let b = vstd::utf8::encode_utf8(cv);
            let parts = spec_split(b, 58);
            &&& b.len() > 0
            &&& b != seq![58u8]
            &&& parts.len() == 2
            &&& parts[0].len() == 64
            &&& all_hex_b(parts[0])
            &&& (spec_parse_u64(parts[1]) matches Some(vv) && vv <= u32::MAX)
        }))
        &&& seg_scripthash(q, segs[0], segs[1]) is Some
    }) ==> json_done(
        settled(r),
        ({
            let b = vstd::utf8::encode_utf8(lookup_param(ps, "cursor"@)->Some_0);
            let parts = spec_split(b, 58);
            render_cursor_page(
                q,
                seg_scripthash(q, segs[0], segs[1])->Some_0,
                Some(
                    OutPointV {
                        txid: spec_unhex_b(parts[0]),
                        vout: (spec_parse_u64(parts[1])->Some_0) as u32,
                    },
                ),
                spec_usize_param(ps, "limit"@, q.config.utxos_limit) as int,
            )
        }),
        TTL_SHORT,
    )
    &&& ({
        &&& method == Method::Get
        &&& segs.len() == 3
        &&& (segs[0] == "address".spec_bytes() || segs[0] == "scripthash".spec_bytes())
        &&& segs[2] == "utxo".spec_bytes()
        &&& lookup_param(ps, "cursor"@) is None
        &&& (lookup_param(ps, "start_index"@) is Some || lookup_param(ps, "limit"@) is Some)
        &&& seg_scripthash(q, segs[0], segs[1]) is Some
    }) ==> json_done(
        settled(r),
        render_offset_page(
            q,
            seg_scripthash(q, segs[0], segs[1])->Some_0,
            spec_usize_param(ps, "start_index"@, 0) as int,
            spec_usize_param(ps, "limit"@, q.config.utxos_limit) as int,
        ),
        TTL_SHORT,
    )
}

/// The above, plus the block-txs pagination rules.
pub open spec fn block_routes_contract(
    q: &Query,
    method: Method,
    segs: Seq<Seq<u8>>,
    ps: Seq<(Seq<char>, Seq<char>)>,
    body: Seq<u8>,
    r: Result<Step, HttpError>,
) -> bool {
    &&& script_routes_contract(q, method, segs, ps, body, r)
    &&& ({
        &&& method == Method::Get
        &&& (segs.len() == 3 || segs.len() == 4)
        &&& segs[0] == "block".spec_bytes()
        &&& segs[2] == "txs".spec_bytes()
        &&& segs[1].len() == 64
        &&& all_hex_b(segs[1])
    }) ==> ({
        let hh = spec_unhex_b(segs[1]);
        let known = crate::chain::ch_has_block(&q.chain, hh);
        let ids = q.chain.blocks@[crate::chain::ch_block_i(&q.chain, hh)].txids@;
        let start = spec_block_txs_start(if segs.len() == 4 {
            Some(segs[3])
        } else {
            None
        });
        &&& (!known ==> plain_done(settled(r), 404, "Block not found"@))
        &&& ((known && start >= ids.len()) ==> plain_done(
            settled(r),
            404,
            "start index out of range"@,
        ))
        &&& ((known && start < ids.len() && start % (CHAIN_TXS_PER_PAGE as int) != 0)
            ==> plain_done(settled(r), 400, "start index must be a multipication of 25"@))
        &&& ((known && start < ids.len() && start % (CHAIN_TXS_PER_PAGE as int) == 0) ==> ((
        settled(r) matches Step::Done(resp) && resp.status == 200 && resp.content_type
            == ContentType::Json && resp.cache_ttl == Some(
            spec_ttl_by_depth(
                Some(q.chain.blocks@[crate::chain::ch_block_i(&q.chain, hh)].id.height),
                best_of(q),
            ),
        )) || plain_done(settled(r), 400, "missing tx"@) || (settled(r) matches Step::Done(resp)
            && resp.status == 500)))
    })
}

/// Address and scripthash routes. The contract ties the balance and utxo
/// answers to the verified engine and renderers, keyed by the scripthash
/// the path denotes.
#[verifier::rlimit(100)]
fn route_scripts(
    q: &Query,
    method: Method,
    segs: &Vec<Vec<u8>>,
    params: &Vec<Param>,
    body: &Vec<u8>,
    path: &str,
) -> (r: Result<Step, HttpError>)
    requires
        q.wf(),
        q.chain.blocks@.len() > 0,
    ensures
        script_routes_contract(
            q,
            method,
            segs@.map_values(|p: Vec<u8>| p@),
            params_view(params@),
            body@,
            r,
        ),
{
    proof {
        lemma_seg_word_lens();
    }
    let n = segs.len();
    let best = q.chain.best_height();
    // Address and scripthash routes.
    let is_address = n >= 2 && word(&segs[0], "address");
    let is_scripthash = n >= 2 && word(&segs[0], "scripthash");
    if method == Method::Get && (is_address || is_scripthash) {
        let script_str = match seg_str(&segs[1]) {
            Some(s) => s,
            None => {
                proof {
                    if segs@[0]@ == "scripthash".spec_bytes() && segs@[1]@.len() == 64
                        && all_hex_b(segs@[1]@) {
                        lemma_ascii_hex_valid_utf8(segs@[1]@);
                    }
                }
                return Err(HttpError::bad_request(String::from_str("Invalid script type")));
            },
        };
        let h = if is_address {
            match to_scripthash("address", script_str.as_str(), q.config.network_type) {
                Ok(h) => h,
                Err(e) => {
                    proof {
                        assert(seg_scripthash(q, segs@[0]@, segs@[1]@) is None);
                    }
                    return Err(e);
                },
            }
        } else {
            match to_scripthash("scripthash", script_str.as_str(), q.config.network_type) {
                Ok(h) => h,
                Err(e) => {
                    proof {
                        assert(seg_scripthash(q, segs@[0]@, segs@[1]@) is None);
                    }
                    return Err(e);
                },
            }
        };
        proof {
            assert(seg_scripthash(q, segs@[0]@, segs@[1]@) == Some(h@));
        }
        if n == 2 {
            let (cs, ms) = q.stats(&h);
            let mut out = String::from_str("{");
            let key: &str = if is_address {
                "address"
            } else {
                "scripthash"
            };
            crate::json::append_jstr(&mut out, key);
            out.append(":");
            crate::json::append_jstr(&mut out, script_str.as_str());
            out.append(",\"chain_stats\":");
            out.append(crate::shapes::script_stats_json(&cs).as_str());
            out.append(",\"mempool_stats\":");
            out.append(crate::shapes::script_stats_json(&ms).as_str());
            out.append("}");
            return Ok(Step::Done(json_response(out, TTL_SHORT)));
        }
        if n == 3 && word(&segs[2], "balance") {
            return Ok(Step::Done(balance_resp(q, &h, params)));
        }
        if n == 3 && word(&segs[2], "stats") {
            return Ok(Step::Done(stats_resp(q, &h)));
        }
        if n == 3 && word(&segs[2], "txs") {
            let has_pagination = has_param(params, "start_index") || has_param(params, "limit")
                || has_param(params, "after_txid");
            let start_index = usize_param(params, "start_index", 0);
            let limit = usize_param(params, "limit", CHAIN_TXS_PER_PAGE);
            let after_txid: Option<Hash32> = match get_param(params, "after_txid") {
                Some(v) => {
                    let vb = v.as_str().as_bytes_vec();
                    if vb.len() == 64 {
                        match hex_decode_bytes(&vb) {
                            Some(b) => Some(Hash32::new(b)),
                            None => None,
                        }
                    } else {
                        None
                    }
                },
                None => None,
            };
            let include_mempool = bool_param(params, "mempool", true);
            let mut txs: Vec<(crate::tx::Transaction, Option<crate::types::BlockId>)> =
                Vec::new();
            if include_mempool {
                let mtxs = q.mempool.history(
                    &h,
                    match &after_txid {
                        Some(t) => Some(t),
                        None => None,
                    },
                    limit,
                );
                let mut i: usize = 0;
                while i < mtxs.len()
                    invariant
                        i <= mtxs@.len(),
                        forall|k: int| 0 <= k < mtxs@.len() ==> (#[trigger] mtxs@[k]).wf(),
                        forall|k: int| 0 <= k < txs@.len() ==> (#[trigger] txs@[k]).0.wf(),
                    decreases mtxs@.len() - i,
                {
                    txs.push((mtxs[i].clone_tx(), None));
                    i = i + 1;
                }
            }
            if txs.len() < limit {
                let remaining = limit - txs.len();
                let chain_after: Option<&Hash32> = if txs.len() == 0 {
                    match &after_txid {
                        Some(t) => Some(t),
                        None => None,
                    }
                } else {
                    None
                };
                let ctxs = q.chain.history(&h, chain_after, remaining);
                let mut i: usize = 0;
                while i < ctxs.len()
                    invariant
                        i <= ctxs@.len(),
                        forall|k: int|
                            0 <= k < ctxs@.len() ==> (#[trigger] ctxs@[k]).0.wf() && ctxs@[
                                k].1.wf(),
                        forall|k: int| 0 <= k < txs@.len() ==> (#[trigger] txs@[k]).0.wf(),
                    decreases ctxs@.len() - i,
                {
                    txs.push((ctxs[i].0.clone_tx(), Some(ctxs[i].1.clone())));
                    i = i + 1;
                }
            }
            let (cs, ms) = q.stats(&h);
            let total = crate::shapes::sat_add(cs.tx_count, ms.tx_count);
            let last_txid: Option<Hash32> = if txs.len() > 0 {
                proof {
                    assert(txs@[txs@.len() - 1].0.wf());
                }
                Some(txs[txs.len() - 1].0.txid.clone())
            } else {
                None
            };
            let body_json = match txs_list_json(q, &txs) {
                Ok(s) => s,
                Err(e) => {
                    return Err(e);
                },
            };
            if !has_pagination {
                return Ok(Step::Done(json_response(body_json, TTL_SHORT)));
            }
            let mut out = String::from_str("{\"transactions\":");
            out.append(body_json.as_str());
            out.append(",\"total\":");
            out.append(crate::amounts::u64_to_dec(total).as_str());
            out.append(",\"start_index\":");
            out.append(crate::amounts::usize_to_dec(start_index).as_str());
            out.append(",\"limit\":");
            out.append(crate::amounts::usize_to_dec(limit).as_str());
            out.append(",\"next_page_after_txid\":");
            match &last_txid {
                Some(t) => {
                    out.append("\"");
                    out.append(crate::bridge::hex_encode(&t.bytes).as_str());
                    out.append("\"");
                },
                None => out.append("null"),
            }
            out.append("}");
            return Ok(Step::Done(json_response(out, TTL_SHORT)));
        }
        if (n == 4 || n == 5) && word(&segs[2], "txs") && word(&segs[3], "chain") {
            let last_seen: Option<Hash32> = if n == 5 {
                if segs[4].len() == 64 {
                    match hex_decode_bytes(&segs[4]) {
                        Some(b) => Some(Hash32::new(b)),
                        None => None,
                    }
                } else {
                    None
                }
            } else {
                None
            };
            let ctxs = q.chain.history(
                &h,
                match &last_seen {
                    Some(t) => Some(t),
                    None => None,
                },
                CHAIN_TXS_PER_PAGE,
            );
            let mut txs: Vec<(crate::tx::Transaction, Option<crate::types::BlockId>)> =
                Vec::new();
            let mut i: usize = 0;
            while i < ctxs.len()
                invariant
                    i <= ctxs@.len(),
                    forall|k: int|
                        0 <= k < ctxs@.len() ==> (#[trigger] ctxs@[k]).0.wf() && ctxs@[k].1.wf(),
                    forall|k: int| 0 <= k < txs@.len() ==> (#[trigger] txs@[k]).0.wf(),
                decreases ctxs@.len() - i,
            {
                txs.push((ctxs[i].0.clone_tx(), Some(ctxs[i].1.clone())));
                i = i + 1;
            }
            let body_json = match txs_list_json(q, &txs) {
                Ok(s) => s,
                Err(e) => {
                    return Err(e);
                },
            };
            return Ok(Step::Done(json_response(body_json, TTL_SHORT)));
        }
        if n == 4 && word(&segs[2], "txs") && word(&segs[3], "mempool") {
            let mtxs = q.mempool.history(&h, None, MAX_MEMPOOL_TXS);
            let mut txs: Vec<(crate::tx::Transaction, Option<crate::types::BlockId>)> =
                Vec::new();
            let mut i: usize = 0;
            while i < mtxs.len()
                invariant
                    i <= mtxs@.len(),
                    forall|k: int| 0 <= k < mtxs@.len() ==> (#[trigger] mtxs@[k]).wf(),
                    forall|k: int| 0 <= k < txs@.len() ==> (#[trigger] txs@[k]).0.wf(),
                decreases mtxs@.len() - i,
            {
                txs.push((mtxs[i].clone_tx(), None));
                i = i + 1;
            }
            let body_json = match txs_list_json(q, &txs) {
                Ok(s) => s,
                Err(e) => {
                    return Err(e);
                },
            };
            return Ok(Step::Done(json_response(body_json, TTL_SHORT)));
        }
        if n == 3 && word(&segs[2], "utxo-legacy") {
            let utxos = q.utxo(&h);
            return Ok(
                Step::Done(json_response(crate::shapes::utxo_list_json(&utxos), TTL_SHORT)),
            );
        }
        if n == 3 && word(&segs[2], "utxo") {
            return match utxo_resp(q, &h, params) {
                Ok(resp) => Ok(Step::Done(resp)),
                Err(e) => Err(e),
            };
        }
    }
    if method == Method::Get && n == 2 && word(&segs[0], "address-prefix") {
        if !q.config.address_search {
            return Err(HttpError::bad_request(String::from_str("address search disabled")));
        }
        let prefix = match seg_str(&segs[1]) {
            Some(s) => s,
            None => {
                return Err(HttpError::bad_request(String::from_str("address search disabled")));
            },
        };
        let found = q.chain.address_search(prefix.as_str(), ADDRESS_SEARCH_LIMIT);
        return Ok(Step::Done(json_response(string_array_json(&found), TTL_SHORT)));
    }
    route_tx(q, method, segs, params, body, path)
}

/// Transaction detail routes and the broadcast hand-off.
#[verifier::rlimit(100)]
fn route_tx(
    q: &Query,
    method: Method,
    segs: &Vec<Vec<u8>>,
    params: &Vec<Param>,
    body: &Vec<u8>,
    path: &str,
) -> (r: Result<Step, HttpError>)
    requires
        q.wf(),
        q.chain.blocks@.len() > 0,
    ensures
        mempool_routes_contract(
            q,
            method,
            segs@.map_values(|p: Vec<u8>| p@),
            params_view(params@),
            body@,
            r,
        ),
{
    proof {
        lemma_seg_word_lens();
    }
    let n = segs.len();
    let best = q.chain.best_height();
    // Transaction routes other than the bare lookup.
    if method == Method::Get && n >= 3 && word(&segs[0], "tx") {
        let txid = match parse_hash_seg(&segs[1]) {
            Ok(h) => h,
            Err(e) => {
                return Err(e);
            },
        };
        if n == 3 && (word(&segs[2], "hex") || word(&segs[2], "raw")) {
            let raw = match q.lookup_raw_txn(&txid) {
                Some(b) => b,
                None => {
                    return Err(HttpError::not_found(String::from_str("Transaction not found")));
                },
            };
            let st = q.get_tx_status(&txid);
            let ttl = ttl_by_depth(st.block_height, best);
            if word(&segs[2], "raw") {
                return Ok(Step::Done(raw_response(raw, ttl)));
            }
            return Ok(Step::Done(http_message(200, crate::bridge::hex_encode(&raw), ttl)));
        }
        if n == 3 && word(&segs[2], "status") {
            let st = q.get_tx_status(&txid);
            let ttl = ttl_by_depth(st.block_height, best);
            proof {
                if st.confirmed {
                    assert(st@ == crate::types::status_of(
                        Some(q.chain.txs@[crate::chain::ch_tx_i(&q.chain, txid@)].block@),
                    ));
                }
            }
            return Ok(Step::Done(json_response(crate::shapes::status_json(&st), ttl)));
        }
        if n == 3 && word(&segs[2], "merkle-proof") {
            let blockid = match q.chain.tx_confirming_block(&txid) {
                Some(b) => b,
                None => {
                    return Err(
                        HttpError::not_found(
                            String::from_str("Transaction not found or is unconfirmed"),
                        ),
                    );
                },
            };
            let ids = match q.chain.get_block_txids(&blockid.hash) {
                Some(v) => v,
                None => {
                    return Err(HttpError::bad_request(String::from_str("missing block")));
                },
            };
            let mut pos: usize = 0;
            let mut found = false;
            let mut i: usize = 0;
            while i < ids.len() && !found
                invariant
                    i <= ids@.len(),
                    found ==> pos < ids@.len(),
                decreases ids@.len() - i,
            {
                if ids[i].eq_hash(&txid) {
                    pos = i;
                    found = true;
                }
                i = i + 1;
            }
            if !found {
                return Err(HttpError::bad_request(String::from_str("missing txid in block")));
            }
            let branch = crate::merkle::merkle_branch(&ids, pos);
            let mut parts: Vec<String> = Vec::new();
            let mut k: usize = 0;
            while k < branch.len()
                invariant
                    k <= branch@.len(),
                    forall|w: int| 0 <= w < branch@.len() ==> (#[trigger] branch@[w]).wf(),
                decreases branch@.len() - k,
            {
                let mut p = String::from_str("\"");
                p.append(crate::bridge::hex_encode(&branch[k].bytes).as_str());
                p.append("\"");
                parts.push(p);
                k = k + 1;
            }
            let mut out = String::from_str("{\"block_height\":");
            out.append(crate::amounts::u32_to_dec(blockid.height).as_str());
            out.append(",\"merkle\":");
            crate::json::append_array(&mut out, &parts);
            out.append(",\"pos\":");
            out.append(crate::amounts::usize_to_dec(pos).as_str());
            out.append("}");
            let ttl = ttl_by_depth(Some(blockid.height), best);
            return Ok(Step::Done(json_response(out, ttl)));
        }
        if n == 3 && word(&segs[2], "merkleblock-proof") {
            let blockid = match q.chain.tx_confirming_block(&txid) {
                Some(b) => b,
                None => {
                    return Err(
                        HttpError::not_found(
                            String::from_str("Transaction not found or is unconfirmed"),
                        ),
                    );
                },
            };
            let rec = match q.chain.block_by_hash(&blockid.hash) {
                Some(b) => b,
                None => {
                    return Err(HttpError::bad_request(String::from_str("missing block")));
                },
            };
            if rec.txids.len() == 0 {
                return Err(
                    HttpError::not_found(
                        String::from_str("Transaction not found or is unconfirmed"),
                    ),
                );
            }
            match crate::bridge::merkleblock_hex(&rec.raw_header, &rec.txids, &txid) {
                Some(hexstr) => {
                    let ttl = ttl_by_depth(Some(blockid.height), best);
                    return Ok(Step::Done(http_message(200, hexstr, ttl)));
                },
                None => {
                    return Err(
                        HttpError::not_found(
                            String::from_str("Transaction not found or is unconfirmed"),
                        ),
                    );
                },
            }
        }
        if n == 4 && word(&segs[2], "outspend") {
            let index = match parse_u32(&segs[3]) {
                Some(i) => i,
                None => {
                    return Err(HttpError::bad_request(String::from_str("Invalid number")));
                },
            };
            let op = OutPoint { txid, vout: index };
            let spend = q.lookup_spend(&op);
            let ttl = match &spend {
                Some(s) => {
                    match &s.confirmed {
                        Some(b) => ttl_by_depth(Some(b.height), best),
                        None => ttl_by_depth(None, best),
                    }
                },
                None => ttl_by_depth(None, best),
            };
            return Ok(Step::Done(json_response(crate::shapes::spending_json(&spend), ttl)));
        }
        if n == 3 && word(&segs[2], "outspends") {
            let tx = match q.lookup_txn(&txid) {
                Some(t) => t,
                None => {
                    return Err(HttpError::not_found(String::from_str("Transaction not found")));
                },
            };
            if tx.output.len() > 0xffff_ffff {
                return Err(HttpError::internal(String::from_str("too many outputs")));
            }
            let spends = q.lookup_tx_spends(&tx);
            let mut parts: Vec<String> = Vec::new();
            let mut i: usize = 0;
            while i < spends.len()
                decreases spends@.len() - i,
            {
                parts.push(crate::shapes::spending_json(&spends[i]));
                i = i + 1;
            }
            let mut out = String::new();
            crate::json::append_array(&mut out, &parts);
            return Ok(Step::Done(json_response(out, TTL_SHORT)));
        }
    }
    if method == Method::Get && n == 1 && word(&segs[0], "broadcast") {
        let txhex = match get_param(params, "tx") {
            Some(v) => v,
            None => {
                return Err(HttpError::bad_request(String::from_str("Missing tx")));
            },
        };
        return Ok(Step::Daemon(DaemonRequest::Broadcast(txhex), Pending::Broadcast));
    }
    route_mempool(q, method, segs, params, body, path)
}

/// Mempool overview and internal mempool routes.
#[verifier::rlimit(100)]
fn route_mempool(
    q: &Query,
    method: Method,
    segs: &Vec<Vec<u8>>,
    params: &Vec<Param>,
    body: &Vec<u8>,
    path: &str,
) -> (r: Result<Step, HttpError>)
    requires
        q.wf(),
        q.chain.blocks@.len() > 0,
    ensures
        mempool_routes_contract(
            q,
            method,
            segs@.map_values(|p: Vec<u8>| p@),
            params_view(params@),
            body@,
            r,
        ),
{
    proof {
        lemma_seg_word_lens();
    }
    let n = segs.len();
    let best = q.chain.best_height();
    if method == Method::Get && n == 1 && word(&segs[0], "mempool") {
        return Ok(Step::Done(json_response(backlog_json(&q.mempool), TTL_SHORT)));
    }
    if method == Method::Get && n == 2 && word(&segs[0], "mempool") && word(&segs[1], "txids") {
        let start_index = usize_param(params, "start_index", 0);
        let limit = usize_param(params, "limit", 100);
        let all = q.mempool.txids();
        let total = all.len();
        let from = if start_index <= total {
            start_index
        } else {
            total
        };
        let to = if limit <= total - from {
            from + limit
        } else {
            total
        };
        proof {
            assert(crate::types::hash_views(all@).len() == all@.len());
            assert(crate::mempool::mp_txids(&q.mempool).len() == q.mempool.txs@.len());
        }
        let mut page: Vec<Hash32> = Vec::new();
        let mut i: usize = from;
        while i < to
            invariant
                from <= i <= to <= all@.len(),
                page@.len() == i - from,
                forall|k: int| 0 <= k < all@.len() ==> (#[trigger] all@[k])@ == crate::mempool::mp_txids(&q.mempool)[k],
                forall|k: int| 0 <= k < q.mempool.txs@.len() ==> (#[trigger] q.mempool.txs@[k]).wf(),
                all@.len() == q.mempool.txs@.len(),
                forall|k: int|
                    0 <= k < page@.len() ==> (#[trigger] page@[k])@ == crate::mempool::mp_txids(
                        &q.mempool,
                    )[from + k],
            decreases to - i,
        {
            proof {
                assert(q.mempool.txs@[i as int].wf());
            }
            page.push(all[i].clone());
            i = i + 1;
        }
        let mut out = String::from_str("{\"txids\":");
        out.append(txid_array_json(&page).as_str());
        out.append(",\"total\":");
        out.append(crate::amounts::usize_to_dec(total).as_str());
        out.append(",\"start_index\":");
        out.append(crate::amounts::usize_to_dec(start_index).as_str());
        out.append(",\"limit\":");
        out.append(crate::amounts::usize_to_dec(limit).as_str());
        out.append("}");
        proof {
            let allv = crate::mempool::mp_txids(&q.mempool);
            assert(crate::types::hash_views(page@) =~= allv.subrange(from as int, to as int));
            assert(out@ =~= render_mempool_txids(q, params_view(params@)));
        }
        return Ok(Step::Done(json_response(out, TTL_SHORT)));
    }
    if method == Method::Get && n == 2 && word(&segs[0], "mempool") && word(&segs[1], "recent") {
        return Ok(Step::Done(json_response(recent_json(&q.mempool), TTL_MEMPOOL_RECENT)));
    }
    if method == Method::Post && n == 3 && word(&segs[1], "mempool") && word(&segs[2], "txs") {
        let body_str = match crate::bridge::utf8_string(body) {
            Some(s) => s,
            None => {
                return Err(HttpError::bad_request(String::from_str("invalid request body")));
            },
        };
        let txid_strings = match crate::bridge::parse_json_string_list(body_str.as_str()) {
            Ok(v) => v,
            Err(e) => {
                return Err(HttpError::bad_request(e));
            },
        };
        let mut ids: Vec<Hash32> = Vec::new();
        let mut i: usize = 0;
        while i < txid_strings.len()
            invariant
                method == Method::Post,
                segs@.len() == 3,
                i <= txid_strings@.len(),
                forall|k: int| 0 <= k < ids@.len() ==> (#[trigger] ids@[k]).wf(),
            decreases txid_strings@.len() - i,
        {
            let vb = txid_strings[i].as_str().as_bytes_vec();
            if vb.len() != 64 {
                return Ok(Step::Done(http_message(400, String::from_str("Invalid hex string"), 0)));
            }
            match hex_decode_bytes(&vb) {
                Some(b) => ids.push(Hash32::new(b)),
                None => {
                    return Ok(
                        Step::Done(http_message(400, String::from_str("Invalid hex string"), 0)),
                    );
                },
            }
            i = i + 1;
        }
        let mut txs: Vec<(crate::tx::Transaction, Option<crate::types::BlockId>)> = Vec::new();
        let mut j: usize = 0;
        while j < ids.len()
            invariant
                q.wf(),
                j <= ids@.len(),
                forall|k: int| 0 <= k < ids@.len() ==> (#[trigger] ids@[k]).wf(),
                forall|k: int| 0 <= k < txs@.len() ==> (#[trigger] txs@[k]).0.wf(),
            decreases ids@.len() - j,
        {
            match q.mempool.lookup_txn(&ids[j]) {
                Some(t) => txs.push((t, None)),
                None => {},
            }
            j = j + 1;
        }
        let body_json = match txs_list_json(q, &txs) {
            Ok(s) => s,
            Err(e) => {
                return Err(e);
            },
        };
        return Ok(Step::Done(json_response(body_json, 0)));
    }
    if method == Method::Get && (n == 3 || n == 4) && word(&segs[1], "mempool") && word(
        &segs[2],
        "txs",
    ) {
        let last_seen: Option<Hash32> = if n == 4 && segs[3].len() == 64 {
            match hex_decode_bytes(&segs[3]) {
                Some(b) => Some(Hash32::new(b)),
                None => None,
            }
        } else {
            None
        };
        let max_txs = usize_param(params, "max_txs", MAX_MEMPOOL_TXS);
        let all = q.mempool.txids();
        // Position strictly after the cursor, or the start.
        let mut skip: usize = 0;
        match &last_seen {
            Some(t) => {
                let mut p: usize = 0;
                let mut found = false;
                while p < all.len() && !found
                    invariant
                        p <= all@.len(),
                    decreases all@.len() - p,
                {
                    if all[p].eq_hash(t) {
                        found = true;
                    }
                    p = p + 1;
                }
                if found {
                    skip = p;
                }
            },
            None => {},
        }
        proof {
            assert(crate::types::hash_views(all@).len() == all@.len());
            assert(crate::mempool::mp_txids(&q.mempool).len() == q.mempool.txs@.len());
        }
        let mut txs: Vec<(crate::tx::Transaction, Option<crate::types::BlockId>)> = Vec::new();
        let mut i: usize = skip;
        while i < all.len() && txs.len() < max_txs
            invariant
                q.wf(),
                i <= all@.len(),
                forall|k: int| 0 <= k < all@.len() ==> (#[trigger] all@[k])@
                    == crate::mempool::mp_txids(&q.mempool)[k],
                all@.len() == q.mempool.txs@.len(),
                forall|k: int| 0 <= k < txs@.len() ==> (#[trigger] txs@[k]).0.wf(),
            decreases all@.len() - i,
        {
            proof {
                assert(q.mempool.txs@[i as int].wf());
            }
            match q.mempool.lookup_txn(&all[i]) {
                Some(t) => txs.push((t, None)),
                None => {},
            }
            i = i + 1;
        }
        let body_json = match txs_list_json(q, &txs) {
            Ok(s) => s,
            Err(e) => {
                return Err(e);
            },
        };
        return Ok(Step::Done(json_response(body_json, TTL_SHORT)));
    }
    route_batch(q, method, segs, params, body, path)
}

/// Batch endpoints and the supply hand-off; unmatched paths are a 404.
#[verifier::rlimit(100)]
fn route_batch(
    q: &Query,
    method: Method,
    segs: &Vec<Vec<u8>>,
    params: &Vec<Param>,
    body: &Vec<u8>,
    path: &str,
) -> (r: Result<Step, HttpError>)
    requires
        q.wf(),
        q.chain.blocks@.len() > 0,
    ensures
        batch_routes_contract(
            q,
            method,
            segs@.map_values(|p: Vec<u8>| p@),
            params_view(params@),
            body@,
            r,
        ),
{
    proof {
        lemma_seg_word_lens();
    }
    let n = segs.len();
    let best = q.chain.best_height();
    if method == Method::Post && n == 2 && word(&segs[0], "txs") && word(&segs[1], "test") {
        let body_str = match crate::bridge::utf8_string(body) {
            Some(s) => s,
            None => {
                return Err(HttpError::bad_request(String::from_str("invalid request body")));
            },
        };
        let txhexes = match crate::bridge::parse_json_string_list(body_str.as_str()) {
            Ok(v) => v,
            Err(e) => {
                proof {
                    assert(vstd::utf8::decode_utf8(body@) == body_str@);
                    assert(batch_items(body@) is None);
                }
                return Err(HttpError::bad_request(e));
            },
        };
        proof {
            assert(vstd::utf8::decode_utf8(body@) == body_str@);
            assert(batch_items(body@) == crate::bridge::json_string_list_of(body_str@));
            let l = crate::bridge::json_string_list_of(body_str@)->Some_0;
            assert(txhexes@.len() == l.len());
            assert forall|k: int|
                0 <= k < txhexes@.len() implies batch_bytes(txhexes@)[k] == items_bytes(
                l,
            )[k] by {
                assert((#[trigger] txhexes@[k])@ == l[k]);
            }
            assert(batch_bytes(txhexes@) =~= items_bytes(l));
        }
        if txhexes.len() > 25 {
            return Err(
                HttpError::bad_request(String::from_str("Exceeded maximum of 25 transactions")),
            );
        }
        match check_rate_param(params, "maxfeerate", "Invalid maxfeerate") {
            Ok(_) => {},
            Err(e) => {
                return Err(e);
            },
        }
        match batch_prechecks(&txhexes) {
            Ok(_) => {},
            Err(e) => {
                return Err(e);
            },
        }
        let mut parts: Vec<String> = Vec::new();
        let mut i: usize = 0;
        while i < txhexes.len()
            decreases txhexes@.len() - i,
        {
            let bytes = txhexes[i].as_str().as_bytes_vec();
            match hex_decode_bytes(&bytes) {
                Some(raw) => {
                    match crate::bridge::decode_tx_id(&raw) {
                        Ok(txid) => {
                            let mut p = String::from_str("{\"txid\":\"");
                            p.append(crate::bridge::hex_encode(&txid.bytes).as_str());
                            p.append("\",\"allowed\":true,\"reason\":null}");
                            parts.push(p);
                        },
                        Err(e) => {
                            let mut p = String::from_str(
                                "{\"allowed\":false,\"reason\":\"Invalid transaction: ",
                            );
                            let mut msg = String::new();
                            crate::json::append_escaped(&mut msg, e.as_str());
                            p.append(msg.as_str());
                            p.append("\"}");
                            parts.push(p);
                        },
                    }
                },
                None => {
                    parts.push(
                        String::from_str("{\"allowed\":false,\"reason\":\"Invalid hex\"}"),
                    );
                },
            }
            i = i + 1;
        }
        let mut out = String::new();
        crate::json::append_array(&mut out, &parts);
        return Ok(Step::Done(json_response(out, TTL_SHORT)));
    }
    if method == Method::Post && n == 2 && word(&segs[0], "txs") && word(&segs[1], "package") {
        let body_str = match crate::bridge::utf8_string(body) {
            Some(s) => s,
            None => {
                return Err(HttpError::bad_request(String::from_str("invalid request body")));
            },
        };
        let txhexes = match crate::bridge::parse_json_string_list(body_str.as_str()) {
            Ok(v) => v,
            Err(e) => {
                proof {
                    assert(vstd::utf8::decode_utf8(body@) == body_str@);
                    assert(batch_items(body@) is None);
                }
                return Err(HttpError::bad_request(e));
            },
        };
        proof {
            assert(vstd::utf8::decode_utf8(body@) == body_str@);
            assert(batch_items(body@) == crate::bridge::json_string_list_of(body_str@));
            let l = crate::bridge::json_string_list_of(body_str@)->Some_0;
            assert(txhexes@.len() == l.len());
            assert forall|k: int|
                0 <= k < txhexes@.len() implies batch_bytes(txhexes@)[k] == items_bytes(
                l,
            )[k] by {
                assert((#[trigger] txhexes@[k])@ == l[k]);
            }
            assert(batch_bytes(txhexes@) =~= items_bytes(l));
        }
        if txhexes.len() > 25 {
            return Err(
                HttpError::bad_request(String::from_str("Exceeded maximum of 25 transactions")),
            );
        }
        match check_rate_param(params, "maxfeerate", "Invalid maxfeerate") {
            Ok(_) => {},
            Err(e) => {
                return Err(e);
            },
        }
        match check_rate_param(params, "maxburnamount", "Invalid maxburnamount") {
            Ok(_) => {},
            Err(e) => {
                return Err(e);
            },
        }
        match batch_prechecks(&txhexes) {
            Ok(_) => {},
            Err(e) => {
                return Err(e);
            },
        }
        if txhexes.len() == 0 {
            let out = String::from_str(
                "{\"success\":true,\"txids_submitted\":0,\"total_txids\":0,\"transactions\":[]}",
            );
            return Ok(Step::Done(json_response(out, TTL_SHORT)));
        }
        let first = txhexes[0].clone();
        return Ok(
            Step::Daemon(
                DaemonRequest::Broadcast(first),
                Pending::Package {
                    hexes: txhexes,
                    idx: 0,
                    parts: Vec::new(),
                    all_ok: true,
                    submitted: 0,
                },
            ),
        );
    }
    if method == Method::Get && n == 2 && word(&segs[0], "txs") && word(&segs[1], "outspends") {
        let txids_param = match get_param(params, "txids") {
            Some(v) => v,
            None => {
                return Err(HttpError::bad_request(String::from_str("No txids specified")));
            },
        };
        let pb = txids_param.as_str().as_bytes_vec();
        let pieces = split_bytes(&pb, 44);
        if pieces.len() > 50 {
            return Ok(
                Step::Done(http_message(400, String::from_str("Too many txids requested"), 0)),
            );
        }
        let mut parts: Vec<String> = Vec::new();
        let mut i: usize = 0;
        while i < pieces.len()
            invariant
                q.wf(),
                i <= pieces@.len(),
            decreases pieces@.len() - i,
        {
            let mut spend_parts: Vec<String> = Vec::new();
            if pieces[i].len() == 64 {
                match hex_decode_bytes(&pieces[i]) {
                    Some(b) => {
                        let txid = Hash32::new(b);
                        match q.lookup_txn(&txid) {
                            Some(tx) => {
                                if tx.output.len() <= 0xffff_ffff {
                                    let spends = q.lookup_tx_spends(&tx);
                                    let mut k: usize = 0;
                                    while k < spends.len()
                                        decreases spends@.len() - k,
                                    {
                                        spend_parts.push(
                                            crate::shapes::spending_json(&spends[k]),
                                        );
                                        k = k + 1;
                                    }
                                }
                            },
                            None => {},
                        }
                    },
                    None => {},
                }
            }
            let mut inner = String::new();
            crate::json::append_array(&mut inner, &spend_parts);
            parts.push(inner);
            i = i + 1;
        }
        let mut out = String::new();
        crate::json::append_array(&mut out, &parts);
        return Ok(Step::Done(json_response(out, TTL_SHORT)));
    }
    if method == Method::Get && n == 2 && word(&segs[0], "blockchain") && word(
        &segs[1],
        "getsupply",
    ) {
        return Ok(Step::Daemon(DaemonRequest::TxOutSetInfo, Pending::Supply));
    }
    // No route matched.
    let mut msg = String::from_str("endpoint does not exist \"");
    msg.append(path);
    msg.append("\"");
    Err(HttpError::not_found(msg))
}


/// Dispatch one request against the current snapshots. Routes that need
/// the daemon come back as a `Step::Daemon` hand-off; `resume_request`
/// finishes them.
#[verifier::rlimit(100)]
pub fn handle_request(
    q: &Query,
    method: Method,
    path: &str,
    query_string: &str,
    body: &Vec<u8>,
    now_ms: u64,
) -> (r: Step)
    requires
        q.wf(),
        q.chain.blocks@.len() > 0,
        match q.fees.stamp {
            Some(t) => t <= now_ms,
            None => true,
        },
    ensures
        method == Method::Other ==> (r matches Step::Done(resp) && resp.status == 404),
        // The tip-height text endpoint: the decimal height, cached briefly.
        ({
            let segs = req_segs(path);
            method == Method::Get && segs.len() == 3 && segs[0] == "blocks".spec_bytes()
                && segs[1] == "tip".spec_bytes() && segs[2] == "height".spec_bytes()
        }) ==> (r matches Step::Done(resp) && resp.status == 200 && resp.cache_ttl == Some(
            TTL_SHORT,
        ) && resp.content_type == ContentType::TextPlain && (resp.body matches RespBody::Text(t)
            && t@ == crate::amounts::spec_dec(
            q.chain.blocks@[q.chain.blocks@.len() - 1].id.height as nat,
        ))),
        // An unknown transaction is a 404 with its fixed message.
        ({
            let segs = req_segs(path);
            method == Method::Get && segs.len() == 2 && segs[0] == "tx".spec_bytes() && segs[1].len()
                == 64 && all_hex_b(segs[1]) && !crate::chain::ch_has_tx(
                &q.chain,
                spec_unhex_b(segs[1]),
            ) && !crate::mempool::mp_has_tx(&q.mempool, spec_unhex_b(segs[1]))
        }) ==> (r matches Step::Done(resp) && resp.status == 404 && resp.content_type
            == ContentType::TextPlain && (resp.body matches RespBody::Text(t) && t@
            == "Transaction not found"@)),
        // A broadcast hands the raw hex to the daemon unchanged: no size
        // check on the single-transaction endpoint.
        ({
            let segs = req_segs(path);
            method == Method::Post && segs.len() == 1 && segs[0] == "tx".spec_bytes()
                && vstd::utf8::valid_utf8(body@)
        }) ==> (r matches Step::Daemon(dr, p) && (dr matches DaemonRequest::Broadcast(hex)
            && vstd::utf8::encode_utf8(hex@) == body@) && p is Broadcast),
        // Fee estimates are served from the cache while it is fresh: no
        // daemon call happens inside the TTL window.
        ({
            let segs = req_segs(path);
            method == Method::Get && segs.len() == 1 && segs[0] == "fee-estimates".spec_bytes()
        }) ==> (if crate::fees::cache_fresh(&q.fees, now_ms) {
            (r matches Step::Done(resp) && resp.status == 200 && resp.content_type
                == ContentType::Json && resp.cache_ttl == Some(TTL_SHORT) && (resp.body
                matches RespBody::Text(t) && t@ == render_fee_map(q.fees.map@)))
        } else {
            (r matches Step::Daemon(dr, p) && dr is FeeEstimates && p is FeeMap)
        }),
        // Every routed answer below the dispatcher: balance, stats, the
        // three utxo modes, the mempool txid window, the block-txs
        // pagination rules, and the batch prechecks.
        block_routes_contract(
            q,
            method,
            req_segs(path),
            crate::bridge::form_params_of(query_string@),
            body@,
            Ok(r),
        ),
{
    let pb = path.as_bytes_vec();
    let mut segs = split_bytes(&pb, 47);
    proof {
        crate::parsing::lemma_split_len(pb@, 47);
    }
    if segs.len() > 0 {
        segs.remove(0);
    }
    proof {
        assert(segs@.map_values(|p: Vec<u8>| p@) =~= req_segs(path)) by {
            assert(spec_split(pb@, 47).len() >= 1);
        }
        assert forall|k: int| 0 <= k < segs@.len() implies (#[trigger] segs@[k])@ == req_segs(
            path,
        )[k] by {
            assert(segs@.map_values(|p: Vec<u8>| p@)[k] == segs@[k]@);
        }
    }
    proof {
        lemma_seg_word_lens();
    }
    if method == Method::Other {
        let mut msg = String::from_str("endpoint does not exist \"");
        msg.append(path);
        msg.append("\"");
        return Step::Done(err_response(HttpError::not_found(msg)));
    }
    let params = crate::bridge::parse_query_params(query_string);
    proof {
        assert forall|k: int|
            0 <= k < params@.len() implies params_view(params@)[k]
            == crate::bridge::form_params_of(query_string@)[k] by {
            assert((#[trigger] params@[k]).key@ == crate::bridge::form_params_of(
                query_string@,
            )[k].0 && params@[k].value@ == crate::bridge::form_params_of(query_string@)[k].1);
        }
        assert(params_view(params@) =~= crate::bridge::form_params_of(query_string@));
    }
    let n = segs.len();
    // The tip-height endpoint.
    if method == Method::Get && n == 3 && word(&segs[0], "blocks") && word(&segs[1], "tip")
        && word(&segs[2], "height") {
        let best = q.chain.best_height();
        return Step::Done(http_message(200, crate::amounts::u32_to_dec(best), TTL_SHORT));
    }
    // Fee estimates: cached within the TTL, refreshed through the daemon
    // otherwise.
    if method == Method::Get && n == 1 && word(&segs[0], "fee-estimates") {
        match q.estimate_fee_map_cached(now_ms) {
            Some(map) => {
                return Step::Done(json_response(fee_map_json(&map), TTL_SHORT));
            },
            None => {
                return Step::Daemon(DaemonRequest::FeeEstimates, Pending::FeeMap);
            },
        }
    }
    // Broadcast: the raw hex goes to the daemon as-is.
    if method == Method::Post && n == 1 && word(&segs[0], "tx") {
        let txhex = match crate::bridge::utf8_string(body) {
            Some(s) => s,
            None => {
                return Step::Done(
                    err_response(
                        HttpError::bad_request(String::from_str("invalid utf-8 in request body")),
                    ),
                );
            },
        };
        return Step::Daemon(DaemonRequest::Broadcast(txhex), Pending::Broadcast);
    }
    // Transaction lookup.
    if method == Method::Get && n == 2 && word(&segs[0], "tx") {
        let txid = match parse_hash_seg(&segs[1]) {
            Ok(h) => h,
            Err(e) => {
                return Step::Done(err_response(e));
            },
        };
        let tx = match q.lookup_txn(&txid) {
            Some(t) => t,
            None => {
                return Step::Done(
                    err_response(HttpError::not_found(String::from_str("Transaction not found"))),
                );
            },
        };
        let blockid = q.chain.tx_confirming_block(&txid);
        let best = q.chain.best_height();
        let ttl = match &blockid {
            Some(b) => ttl_by_depth(Some(b.height), best),
            None => ttl_by_depth(None, best),
        };
        let prevouts = match resolve_prevouts(q, &tx) {
            Ok(p) => p,
            Err(e) => {
                return Step::Done(err_response(e));
            },
        };
        return Step::Done(
            json_response(
                crate::shapes::tx_json(&tx, &blockid, &prevouts, q.config.network_type),
                ttl,
            ),
        );
    }
    let routed = route(q, method, &segs, &params, body, path);
    let ghost routed_g = routed;
    let step = match routed {
        Ok(s) => s,
        Err(e) => Step::Done(err_response(e)),
    };
    proof {
        assert(step == settled(routed_g));
        assert(settled(Ok(step)) == settled(routed_g));
    }
    step
}

/// One package row for an accepted broadcast.
pub open spec fn package_ok_row(txid: Seq<u8>) -> Seq<char> {
    "{\"txid\":\""@ + crate::bridge::spec_hex(txid) + "\",\"success\":true}"@
}

/// One package row for a rejected broadcast, carrying the daemon's text.
pub open spec fn package_err_row(msg: Seq<char>) -> Seq<char> {
    "{\"success\":false,\"error\":"@ + crate::json::spec_jstr(msg) + "}"@
}

/// The package summary body.
pub open spec fn package_summary(ok: bool, submitted: u64, total: nat, rows: Seq<Seq<char>>)
    -> Seq<char> {
    "{\"success\":"@ + crate::json::spec_bool(ok) + ",\"txids_submitted\":"@
        + crate::amounts::spec_dec(submitted as nat) + ",\"total_txids\":"@
        + crate::amounts::spec_dec(total) + ",\"transactions\":"@ + crate::json::spec_array(rows)
        + "}"@
}

/// Finish a request once the daemon answered: record what the answer
/// implies (a broadcast transaction, a refreshed fee map) and build the
/// response, or hand out the next broadcast of a package.
pub fn resume_request(q: &mut Query, pending: Pending, reply: DaemonReply, now_ms: u64) -> (r:
    Step)
    requires
        old(q).wf(),
        old(q).chain.blocks@.len() > 0,
    ensures
        final(q).wf(),
        final(q).chain == old(q).chain,
        final(q).config == old(q).config,
        // A successful fee refresh stores the new map at this instant (so
        // reads within the TTL are then served without another call) and
        // answers with the freshly stored map.
        pending is FeeMap ==> (reply matches DaemonReply::FeeEstimates(map) ==> (
        final(q).fees.map@ == crate::fees::recognized_entries(map@) && final(q).fees.stamp
            == Some(now_ms) && (forall|k: int|
            0 <= k < final(q).fees.map@.len() ==> crate::fees::is_recognized_target(
                (#[trigger] final(q).fees.map@[k]).0,
            )) && (r matches Step::Done(resp) && resp.status == 200 && resp.content_type
            == ContentType::Json && resp.cache_ttl == Some(TTL_SHORT) && (resp.body
            matches RespBody::Text(t) && t@ == render_fee_map(
            crate::fees::recognized_entries(map@),
        ))))),
        // A failed refresh surfaces no error: nothing is stored and the
        // stale map is served.
        (pending is FeeMap && reply is FeeEstimatesErr) ==> (*final(q) == *old(q) && (r
            matches Step::Done(resp) && resp.status == 200 && resp.content_type
            == ContentType::Json && resp.cache_ttl == Some(TTL_SHORT) && (resp.body
            matches RespBody::Text(t) && t@ == render_fee_map(old(q).fees.map@)))),
        // A successful broadcast materializes the transaction in the
        // mempool view and answers with its txid.
        pending is Broadcast ==> (reply matches DaemonReply::BroadcastOk(entry) ==> (entry.wf()
            ==> (crate::mempool::mp_has_tx(&final(q).mempool, entry.txid@) && (r
            matches Step::Done(resp) && resp.status == 200 && resp.content_type
            == ContentType::TextPlain && resp.cache_ttl == Some(0u32) && (resp.body
            matches RespBody::Text(t) && t@ == crate::bridge::spec_hex(entry.txid@)))))),
        // A failed broadcast touches nothing and propagates the daemon's
        // text, with the missing-block remap.
        pending is Broadcast ==> (reply matches DaemonReply::BroadcastErr(msg) ==> (*final(q)
            == *old(q) && (r matches Step::Done(resp) && resp.content_type
            == ContentType::TextPlain && resp.cache_ttl is None && (if msg@
            == "getblock RPC error: {\"code\":-5,\"message\":\"Block not found\"}"@ {
            resp.status == 404 && (resp.body matches RespBody::Text(t) && t@
                == "Block not found"@)
        } else {
            resp.status == 400 && (resp.body matches RespBody::Text(t) && t@ == msg@)
        })))),
        // The supply answer renders the satoshi amount against the current
        // tip; a failure touches nothing and propagates the daemon's text.
        pending is Supply ==> (reply matches DaemonReply::Supply(sats) ==> (*final(q) == *old(q)
            && (r matches Step::Done(resp) && resp.status == 200 && resp.content_type
            == ContentType::Json && resp.cache_ttl == Some(TTL_SHORT) && (resp.body
            matches RespBody::Text(t) && t@ == render_supply(
            sats,
            old(q).chain.blocks@[old(q).chain.blocks@.len() - 1].id.height,
            old(q).chain.blocks@[old(q).chain.blocks@.len() - 1].id.hash@,
        ))))),
        // A package continuation records its row, then hands out the next
        // broadcast or the summary.
        pending matches Pending::Package { hexes, idx, parts, all_ok, submitted } ==> (reply
            matches DaemonReply::BroadcastOk(entry) ==> (entry.wf() ==> ({
            let rows = parts@.map_values(|s: String| s@).push(package_ok_row(entry.txid@));
            let sub2: u64 = if submitted < u64::MAX {
                (submitted + 1) as u64
            } else {
                submitted
            };
            &&& crate::mempool::mp_has_tx(&final(q).mempool, entry.txid@)
            &&& (if idx < hexes@.len() && idx < hexes@.len() - 1 {
                (r matches Step::Daemon(dr, p2) && (dr matches DaemonRequest::Broadcast(hx)
                    && hx@ == hexes@[idx + 1]@) && (p2 matches Pending::Package {
                    hexes: h2,
                    idx: i2,
                    parts: p3,
                    all_ok: a2,
                    submitted: s2,
                } && h2 == hexes && i2 == idx + 1 && p3@.map_values(|s: String| s@) == rows && a2
                    == all_ok && s2 == sub2))
            } else {
                json_done(r, package_summary(all_ok, sub2, hexes@.len(), rows), TTL_SHORT)
            })
        }))),
        pending matches Pending::Package { hexes, idx, parts, all_ok, submitted } ==> (reply
            matches DaemonReply::BroadcastErr(msg) ==> ({
            let rows = parts@.map_values(|s: String| s@).push(package_err_row(msg@));
            &&& *final(q) == *old(q)
            &&& (if idx < hexes@.len() && idx < hexes@.len() - 1 {
                (r matches Step::Daemon(dr, p2) && (dr matches DaemonRequest::Broadcast(hx)
                    && hx@ == hexes@[idx + 1]@) && (p2 matches Pending::Package {
                    hexes: h2,
                    idx: i2,
                    parts: p3,
                    all_ok: a2,
                    submitted: s2,
                } && h2 == hexes && i2 == idx + 1 && p3@.map_values(|s: String| s@) == rows && a2
                    == false && s2 == submitted))
            } else {
                json_done(r, package_summary(false, submitted, hexes@.len(), rows), TTL_SHORT)
            })
        })),
        pending is Supply ==> (reply matches DaemonReply::SupplyErr(msg) ==> (*final(q) == *old(q)
            && (r matches Step::Done(resp) && resp.content_type == ContentType::TextPlain
            && resp.cache_ttl is None && (if msg@
            == "getblock RPC error: {\"code\":-5,\"message\":\"Block not found\"}"@ {
            resp.status == 404 && (resp.body matches RespBody::Text(t) && t@
                == "Block not found"@)
        } else {
            resp.status == 400 && (resp.body matches RespBody::Text(t) && t@ == msg@)
        })))),
{
    match pending {
        Pending::Broadcast => {
            match reply {
                DaemonReply::BroadcastOk(entry) => {
                    if entry.txid.bytes.len() == 32 && entry.tx.txid.eq_hash(&entry.txid)
                        && entry.tx.wf_check() {
                        let hex = crate::bridge::hex_encode(&entry.txid.bytes);
                        q.notify_broadcast(entry);
                        Step::Done(http_message(200, hex, 0))
                    } else {
                        Step::Done(
                            err_response(
                                HttpError::internal(String::from_str("malformed daemon reply")),
                            ),
                        )
                    }
                },
                DaemonReply::BroadcastErr(msg) => Step::Done(
                    err_response(crate::errors::daemon_error(msg)),
                ),
                _ => Step::Done(
                    err_response(HttpError::internal(String::from_str("unexpected daemon reply"))),
                ),
            }
        },
        Pending::FeeMap => {
            match reply {
                DaemonReply::FeeEstimates(map) => {
                    // Whatever the daemon answered, only recognized targets
                    // are stored.
                    let kept = crate::fees::retain_recognized(map);
                    q.apply_fee_estimates(kept, now_ms);
                    let body = fee_map_json(&q.fees.map);
                    Step::Done(json_response(body, TTL_SHORT))
                },
                DaemonReply::FeeEstimatesErr => {
                    // The stale map is served; nothing is stored.
                    let body = fee_map_json(&q.fees.map);
                    Step::Done(json_response(body, TTL_SHORT))
                },
                _ => Step::Done(
                    err_response(HttpError::internal(String::from_str("unexpected daemon reply"))),
                ),
            }
        },
        Pending::Supply => {
            match reply {
                DaemonReply::Supply(sats) => {
                    let amount = crate::amounts::btc_string(sats);
                    let mut out = String::from_str("{\"total_amount\":\"");
                    out.append(amount.as_str());
                    out.append("\",\"total_amount_float\":");
                    out.append(amount.as_str());
                    out.append(",\"height\":");
                    let best = q.chain.best_height();
                    out.append(crate::amounts::u32_to_dec(best).as_str());
                    out.append(",\"block_hash\":\"");
                    out.append(crate::bridge::hex_encode(&q.chain.best_hash().bytes).as_str());
                    out.append("\"}");
                    proof {
                        assert(out@ =~= render_supply(
                            sats,
                            q.chain.blocks@[q.chain.blocks@.len() - 1].id.height,
                            q.chain.blocks@[q.chain.blocks@.len() - 1].id.hash@,
                        ));
                    }
                    Step::Done(json_response(out, TTL_SHORT))
                },
                DaemonReply::SupplyErr(msg) => Step::Done(
                    err_response(crate::errors::daemon_error(msg)),
                ),
                _ => Step::Done(
                    err_response(HttpError::internal(String::from_str("unexpected daemon reply"))),
                ),
            }
        },
        Pending::Package { hexes, idx, parts, all_ok, submitted } => {
            let ghost rows0 = parts@.map_values(|s: String| s@);
            let mut parts = parts;
            let mut all_ok = all_ok;
            let mut submitted = submitted;
            match reply {
                DaemonReply::BroadcastOk(entry) => {
                    if entry.txid.bytes.len() == 32 && entry.tx.txid.eq_hash(&entry.txid)
                        && entry.tx.wf_check() {
                        let mut p = String::from_str("{\"txid\":\"");
                        p.append(crate::bridge::hex_encode(&entry.txid.bytes).as_str());
                        p.append("\",\"success\":true}");
                        proof {
                            assert(p@ =~= package_ok_row(entry.txid@));
                        }
                        parts.push(p);
                        proof {
                            assert(parts@.map_values(|s: String| s@) =~= rows0.push(
                                package_ok_row(entry.txid@),
                            ));
                        }
                        submitted = if submitted < u64::MAX {
                            submitted + 1
                        } else {
                            submitted
                        };
                        q.notify_broadcast(entry);
                    } else {
                        parts.push(
                            String::from_str("{\"success\":false,\"error\":\"malformed daemon reply\"}"),
                        );
                        all_ok = false;
                    }
                },
                DaemonReply::BroadcastErr(msg) => {
                    let mut p = String::from_str("{\"success\":false,\"error\":");
                    crate::json::append_jstr(&mut p, msg.as_str());
                    p.append("}");
                    proof {
                        assert(p@ =~= package_err_row(msg@));
                    }
                    parts.push(p);
                    proof {
                        assert(parts@.map_values(|s: String| s@) =~= rows0.push(
                            package_err_row(msg@),
                        ));
                    }
                    all_ok = false;
                },
                _ => {
                    return Step::Done(
                        err_response(
                            HttpError::internal(String::from_str("unexpected daemon reply")),
                        ),
                    );
                },
            }
            if idx < hexes.len() && idx < hexes.len() - 1 {
                let next = idx + 1;
                let hex = hexes[next].clone();
                Step::Daemon(
                    DaemonRequest::Broadcast(hex),
                    Pending::Package { hexes, idx: next, parts, all_ok, submitted },
                )
            } else {
                let mut out = String::from_str("{\"success\":");
                crate::json::append_bool(&mut out, all_ok);
                out.append(",\"txids_submitted\":");
                out.append(crate::amounts::u64_to_dec(submitted).as_str());
                out.append(",\"total_txids\":");
                out.append(crate::amounts::usize_to_dec(hexes.len()).as_str());
                out.append(",\"transactions\":");
                crate::json::append_array(&mut out, &parts);
                out.append("}");
                proof {
                    assert(out@ =~= package_summary(
                        all_ok,
                        submitted,
                        hexes@.len(),
                        parts@.map_values(|s: String| s@),
                    ));
                }
                Step::Done(json_response(out, TTL_SHORT))
            }
        },
    }
}

} // verus!
