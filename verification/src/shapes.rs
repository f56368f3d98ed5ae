//! Presentation shapes rendered as JSON text: transaction status, UTXOs,
//! spend answers, balances, statistics, blocks, and full transactions.
//! Each builder's contract pins the produced text exactly.

use vstd::prelude::*;

use crate::amounts::{btc_string, spec_btc_string, spec_dec, u32_to_dec, u64_to_dec, usize_to_dec};
use crate::bridge::{hex_encode, script_address, script_address_of, script_asm, script_asm_of, spec_hex};
use crate::json::{append_array, append_bool, append_jstr, spec_array, spec_bool, spec_jstr};
use crate::query::Network;
use crate::script::{is_p2sh, is_p2wsh, spec_last_push};
use crate::tx::{Transaction, TxIn, TxOut};
use crate::types::{Hash32, ScriptStats, SpendingInput, TransactionStatus, Utxo};

verus! {

/// `a + b` capped at the largest representable value.
pub fn sat_add(a: u64, b: u64) -> (r: u64)
    ensures
        r == if a + b <= u64::MAX {
            a + b
        } else {
            u64::MAX as int
        },
{
    if a <= u64::MAX - b {
        a + b
    } else {
        u64::MAX
    }
}

/// The sum of a value sequence, capped at the largest representable value.
pub open spec fn sat_sum(s: Seq<u64>) -> nat
    decreases s.len(),
{
    if s.len() == 0 {
        0
    } else {
        let rest = sat_sum(s.drop_last());
        if rest + s.last() <= u64::MAX {
            (rest + s.last()) as nat
        } else {
            u64::MAX as nat
        }
    }
}

/// Confirmation status derived from an optional block id, as JSON.
pub open spec fn render_opt_status(b: &Option<crate::types::BlockId>) -> Seq<char> {
    match b {
        Some(id) => "{\"confirmed\":true,\"block_height\":"@ + spec_dec(id.height as nat)
            + ",\"block_hash\":\""@ + spec_hex(id.hash@) + "\",\"block_time\":"@ + spec_dec(
            id.time as nat,
        ) + "}"@,
        None => "{\"confirmed\":false}"@,
    }
}

/// Confirmation status as JSON.
pub open spec fn render_status(st: &TransactionStatus) -> Seq<char> {
    if st.confirmed {
        "{\"confirmed\":true,\"block_height\":"@ + spec_dec(st.block_height->Some_0 as nat)
            + ",\"block_hash\":\""@ + spec_hex(st.block_hash->Some_0@) + "\",\"block_time\":"@
            + spec_dec(st.block_time->Some_0 as nat) + "}"@
    } else {
        "{\"confirmed\":false}"@
    }
}

/// Render a confirmation status.
pub fn status_json(st: &TransactionStatus) -> (r: String)
    requires
        st.confirmed ==> st.block_height is Some && st.block_hash is Some && st.block_time
            is Some,
    ensures
        r@ == render_status(st),
{
    if st.confirmed {
        let mut r = String::from_str("{\"confirmed\":true,\"block_height\":");
        match (&st.block_height, &st.block_hash, &st.block_time) {
            (Some(h), Some(hash), Some(t)) => {
                r.append(u32_to_dec(*h).as_str());
                r.append(",\"block_hash\":\"");
                r.append(hex_encode(&hash.bytes).as_str());
                r.append("\",\"block_time\":");
                r.append(u32_to_dec(*t).as_str());
                r.append("}");
                proof {
                    assert(r@ =~= render_status(st));
                }
                r
            },
            _ => {
                proof {
                    assert(false);
                }
                r
            },
        }
    } else {
        let r = String::from_str("{\"confirmed\":false}");
        r
    }
}

/// A UTXO row as JSON: txid, vout, status, value.
pub open spec fn render_utxo(u: &Utxo) -> Seq<char> {
    "{\"txid\":\""@ + spec_hex(u.txid@) + "\",\"vout\":"@ + spec_dec(u.vout as nat)
        + ",\"status\":"@ + render_opt_status(&u.confirmed) + ",\"value\":"@ + spec_dec(
        u.value as nat,
    ) + "}"@
}

/// Render one UTXO; its status is derived from its confirmation slot.
pub fn utxo_json(u: &Utxo) -> (r: String)
    ensures
        r@ == render_utxo(u),
{
    let st = TransactionStatus::from_block(crate::types::clone_opt_block(&u.confirmed));
    let mut r = String::from_str("{\"txid\":\"");
    r.append(hex_encode(&u.txid.bytes).as_str());
    r.append("\",\"vout\":");
    r.append(u32_to_dec(u.vout).as_str());
    r.append(",\"status\":");
    r.append(status_json(&st).as_str());
    r.append(",\"value\":");
    r.append(u64_to_dec(u.value).as_str());
    r.append("}");
    proof {
        assert(render_status(&st) == render_opt_status(&u.confirmed));
        assert(r@ =~= render_utxo(u));
    }
    r
}

/// View form of the status rendering.
pub open spec fn render_opt_status_v(b: Option<crate::types::BlockIdV>) -> Seq<char> {
    match b {
        Some(id) => "{\"confirmed\":true,\"block_height\":"@ + spec_dec(id.height as nat)
            + ",\"block_hash\":\""@ + spec_hex(id.hash) + "\",\"block_time\":"@ + spec_dec(
            id.time as nat,
        ) + "}"@,
        None => "{\"confirmed\":false}"@,
    }
}

/// View form of the UTXO rendering: the row is determined by the value's
/// view alone.
pub open spec fn render_utxo_v(u: crate::types::UtxoV) -> Seq<char> {
    "{\"txid\":\""@ + spec_hex(u.txid) + "\",\"vout\":"@ + spec_dec(u.vout as nat)
        + ",\"status\":"@ + render_opt_status_v(u.confirmed) + ",\"value\":"@ + spec_dec(
        u.value as nat,
    ) + "}"@
}

/// The exec and view renderings agree.
pub proof fn lemma_render_utxo_v(u: &Utxo)
    ensures
        render_utxo(u) == render_utxo_v(u@),
{
    match &u.confirmed {
        Some(id) => {
            assert(render_opt_status(&u.confirmed) == render_opt_status_v(u@.confirmed));
        },
        None => {
            assert(render_opt_status(&u.confirmed) == render_opt_status_v(u@.confirmed));
        },
    }
}

/// A list of UTXO rows as a JSON array, at the view level.
pub open spec fn render_utxo_list_v(us: Seq<crate::types::UtxoV>) -> Seq<char> {
    spec_array(us.map_values(|u: crate::types::UtxoV| render_utxo_v(u)))
}

/// A list of UTXO rows as a JSON array.
pub open spec fn render_utxo_list(us: Seq<Utxo>) -> Seq<char> {
    spec_array(us.map_values(|u: Utxo| render_utxo(&u)))
}

/// Render a UTXO list.
pub fn utxo_list_json(us: &Vec<Utxo>) -> (r: String)
    ensures
        r@ == render_utxo_list(us@),
        r@ == render_utxo_list_v(crate::types::utxo_views(us@)),
{
    let mut parts: Vec<String> = Vec::new();
    let ghost goal = us@.map_values(|u: Utxo| render_utxo(&u));
    let mut i: usize = 0;
    while i < us.len()
        invariant
            i <= us@.len(),
            parts@.len() == i,
            goal == us@.map_values(|u: Utxo| render_utxo(&u)),
            forall|k: int| 0 <= k < i ==> (#[trigger] parts@[k])@ == goal[k],
        decreases us@.len() - i,
    {
        parts.push(utxo_json(&us[i]));
        i = i + 1;
    }
    let mut r = String::new();
    append_array(&mut r, &parts);
    proof {
        assert(parts@.map_values(|p: String| p@) =~= goal);
        assert(r@ =~= render_utxo_list(us@));
        assert forall|k: int|
            0 <= k < us@.len() implies goal[k] == crate::types::utxo_views(us@).map_values(
            |u: crate::types::UtxoV| render_utxo_v(u),
        )[k] by {
            lemma_render_utxo_v(&us@[k]);
        }
        assert(goal =~= crate::types::utxo_views(us@).map_values(
            |u: crate::types::UtxoV| render_utxo_v(u),
        ));
    }
    r
}

/// A spend answer as JSON: `{"spent":false}`, or the spending input with
/// its status.
pub open spec fn render_spending(s: &Option<SpendingInput>) -> Seq<char> {
    match s {
        None => "{\"spent\":false}"@,
        Some(sp) => "{\"spent\":true,\"txid\":\""@ + spec_hex(sp.txid@) + "\",\"vin\":"@
            + spec_dec(sp.vin as nat) + ",\"status\":"@ + render_opt_status(&sp.confirmed)
            + "}"@,
    }
}

/// Render a spend answer.
pub fn spending_json(s: &Option<SpendingInput>) -> (r: String)
    ensures
        r@ == render_spending(s),
{
    match s {
        None => String::from_str("{\"spent\":false}"),
        Some(sp) => {
            let st = TransactionStatus::from_block(crate::types::clone_opt_block(&sp.confirmed));
            let mut r = String::from_str("{\"spent\":true,\"txid\":\"");
            r.append(hex_encode(&sp.txid.bytes).as_str());
            r.append("\",\"vin\":");
            r.append(u32_to_dec(sp.vin).as_str());
            r.append(",\"status\":");
            r.append(status_json(&st).as_str());
            r.append("}");
            proof {
                assert(render_status(&st) == render_opt_status(&sp.confirmed));
                assert(r@ =~= render_spending(s));
            }
            r
        },
    }
}

/// The balance shape: confirmed, pending and total amounts as BTC strings,
/// each under two keys.
pub open spec fn render_balance(confirm_sats: u64, pending_sats: u64, total_sats: u64) -> Seq<
    char,
> {
    "{\"confirm_amount\":\""@ + spec_btc_string(confirm_sats) + "\",\"pending_amount\":\""@
        + spec_btc_string(pending_sats) + "\",\"amount\":\""@ + spec_btc_string(total_sats)
        + "\",\"confirm_coin_amount\":\""@ + spec_btc_string(confirm_sats)
        + "\",\"pending_coin_amount\":\""@ + spec_btc_string(pending_sats)
        + "\",\"coin_amount\":\""@ + spec_btc_string(total_sats) + "\"}"@
}

/// Render the balance shape; the total is the capped sum of the parts.
pub fn balance_json(confirm_sats: u64, pending_sats: u64) -> (r: String)
    ensures
        r@ == render_balance(
            confirm_sats,
            pending_sats,
            (if confirm_sats + pending_sats <= u64::MAX {
                confirm_sats + pending_sats
            } else {
                u64::MAX as int
            }) as u64,
        ),
{
    let total = sat_add(confirm_sats, pending_sats);
    let c = btc_string(confirm_sats);
    let p = btc_string(pending_sats);
    let t = btc_string(total);
    let mut r = String::from_str("{\"confirm_amount\":\"");
    r.append(c.as_str());
    r.append("\",\"pending_amount\":\"");
    r.append(p.as_str());
    r.append("\",\"amount\":\"");
    r.append(t.as_str());
    r.append("\",\"confirm_coin_amount\":\"");
    r.append(c.as_str());
    r.append("\",\"pending_coin_amount\":\"");
    r.append(p.as_str());
    r.append("\",\"coin_amount\":\"");
    r.append(t.as_str());
    r.append("\"}");
    proof {
        assert(r@ =~= render_balance(confirm_sats, pending_sats, total));
    }
    r
}

/// Per-side script statistics as JSON.
pub open spec fn render_script_stats(s: ScriptStats) -> Seq<char> {
    "{\"funded_txo_count\":"@ + spec_dec(s.funded_txo_count as nat) + ",\"funded_txo_sum\":"@
        + spec_dec(s.funded_txo_sum as nat) + ",\"spent_txo_count\":"@ + spec_dec(
        s.spent_txo_count as nat,
    ) + ",\"spent_txo_sum\":"@ + spec_dec(s.spent_txo_sum as nat) + ",\"tx_count\":"@ + spec_dec(
        s.tx_count as nat,
    ) + "}"@
}

/// Render per-side script statistics.
pub fn script_stats_json(s: &ScriptStats) -> (r: String)
    ensures
        r@ == render_script_stats(*s),
{
    let mut r = String::from_str("{\"funded_txo_count\":");
    r.append(u64_to_dec(s.funded_txo_count).as_str());
    r.append(",\"funded_txo_sum\":");
    r.append(u64_to_dec(s.funded_txo_sum).as_str());
    r.append(",\"spent_txo_count\":");
    r.append(u64_to_dec(s.spent_txo_count).as_str());
    r.append(",\"spent_txo_sum\":");
    r.append(u64_to_dec(s.spent_txo_sum).as_str());
    r.append(",\"tx_count\":");
    r.append(u64_to_dec(s.tx_count).as_str());
    r.append("}");
    proof {
        assert(r@ =~= render_script_stats(*s));
    }
    r
}

/// An optional timestamp as JSON: the number, or `null`.
pub open spec fn render_opt_num(v: Option<u64>) -> Seq<char> {
    match v {
        Some(n) => spec_dec(n as nat),
        None => "null"@,
    }
}

/// The aggregated address statistics shape.
pub open spec fn render_address_stats(
    funded_txo_count: u64,
    funded_txo_sum: u64,
    spent_txo_count: u64,
    spent_txo_sum: u64,
    tx_count: u64,
    balance: u64,
    first_seen: Option<u64>,
    last_seen: Option<u64>,
) -> Seq<char> {
    "{\"funded_txo_count\":"@ + spec_dec(funded_txo_count as nat) + ",\"funded_txo_sum\":"@
        + spec_dec(funded_txo_sum as nat) + ",\"spent_txo_count\":"@ + spec_dec(
        spent_txo_count as nat,
    ) + ",\"spent_txo_sum\":"@ + spec_dec(spent_txo_sum as nat) + ",\"tx_count\":"@ + spec_dec(
        tx_count as nat,
    ) + ",\"balance\":"@ + spec_dec(balance as nat) + ",\"first_seen_tx_time\":"@ + render_opt_num(
        first_seen,
    ) + ",\"last_seen_tx_time\":"@ + render_opt_num(last_seen) + "}"@
}

/// Render the aggregated address statistics shape.
pub fn address_stats_json(
    funded_txo_count: u64,
    funded_txo_sum: u64,
    spent_txo_count: u64,
    spent_txo_sum: u64,
    tx_count: u64,
    balance: u64,
    first_seen: Option<u64>,
    last_seen: Option<u64>,
) -> (r: String)
    ensures
        r@ == render_address_stats(
            funded_txo_count,
            funded_txo_sum,
            spent_txo_count,
            spent_txo_sum,
            tx_count,
            balance,
            first_seen,
            last_seen,
        ),
{
    let mut r = String::from_str("{\"funded_txo_count\":");
    r.append(u64_to_dec(funded_txo_count).as_str());
    r.append(",\"funded_txo_sum\":");
    r.append(u64_to_dec(funded_txo_sum).as_str());
    r.append(",\"spent_txo_count\":");
    r.append(u64_to_dec(spent_txo_count).as_str());
    r.append(",\"spent_txo_sum\":");
    r.append(u64_to_dec(spent_txo_sum).as_str());
    r.append(",\"tx_count\":");
    r.append(u64_to_dec(tx_count).as_str());
    r.append(",\"balance\":");
    r.append(u64_to_dec(balance).as_str());
    r.append(",\"first_seen_tx_time\":");
    match first_seen {
        Some(v) => r.append(u64_to_dec(v).as_str()),
        None => r.append("null"),
    }
    r.append(",\"last_seen_tx_time\":");
    match last_seen {
        Some(v) => r.append(u64_to_dec(v).as_str()),
        None => r.append("null"),
    }
    r.append("}");
    proof {
        assert(r@ =~= render_address_stats(
            funded_txo_count,
            funded_txo_sum,
            spent_txo_count,
            spent_txo_sum,
            tx_count,
            balance,
            first_seen,
            last_seen,
        ));
    }
    r
}


/// The name of a script-pubkey class.
pub open spec fn script_class_name(t: crate::script::ScriptType) -> Seq<char> {
    match t {
        crate::script::ScriptType::Empty => "empty"@,
        crate::script::ScriptType::OpReturn => "op_return"@,
        crate::script::ScriptType::P2pk => "p2pk"@,
        crate::script::ScriptType::P2pkh => "p2pkh"@,
        crate::script::ScriptType::P2sh => "p2sh"@,
        crate::script::ScriptType::V0P2wpkh => "v0_p2wpkh"@,
        crate::script::ScriptType::V0P2wsh => "v0_p2wsh"@,
        crate::script::ScriptType::V1P2tr => "v1_p2tr"@,
        crate::script::ScriptType::ProvablyUnspendable => "provably_unspendable"@,
        crate::script::ScriptType::Unknown => "unknown"@,
    }
}

fn script_class_str(t: crate::script::ScriptType) -> (r: &'static str)
    ensures
        r@ == script_class_name(t),
{
    match t {
        crate::script::ScriptType::Empty => "empty",
        crate::script::ScriptType::OpReturn => "op_return",
        crate::script::ScriptType::P2pk => "p2pk",
        crate::script::ScriptType::P2pkh => "p2pkh",
        crate::script::ScriptType::P2sh => "p2sh",
        crate::script::ScriptType::V0P2wpkh => "v0_p2wpkh",
        crate::script::ScriptType::V0P2wsh => "v0_p2wsh",
        crate::script::ScriptType::V1P2tr => "v1_p2tr",
        crate::script::ScriptType::ProvablyUnspendable => "provably_unspendable",
        crate::script::ScriptType::Unknown => "unknown",
    }
}

/// An output as JSON: script hex, assembly, class, address when it has
/// one, and the value.
pub open spec fn render_txout(t: &TxOut, network: Network) -> Seq<char> {
    "{\"scriptpubkey\":\""@ + spec_hex(t.script_pubkey@) + "\",\"scriptpubkey_asm\":"@
        + spec_jstr(script_asm_of(t.script_pubkey@)) + ",\"scriptpubkey_type\":"@ + spec_jstr(
        script_class_name(crate::script::spec_script_type(t.script_pubkey@)),
    ) + (match script_address_of(t.script_pubkey@, network) {
        Some(a) => ",\"scriptpubkey_address\":"@ + spec_jstr(a),
        None => Seq::empty(),
    }) + ",\"value\":"@ + spec_dec(t.value as nat) + "}"@
}

/// Render one output.
pub fn txout_json(t: &TxOut, network: Network) -> (r: String)
    ensures
        r@ == render_txout(t, network),
{
    let mut r = String::from_str("{\"scriptpubkey\":\"");
    r.append(hex_encode(&t.script_pubkey).as_str());
    r.append("\",\"scriptpubkey_asm\":");
    append_jstr(&mut r, script_asm(&t.script_pubkey).as_str());
    r.append(",\"scriptpubkey_type\":");
    append_jstr(&mut r, script_class_str(crate::script::script_type(&t.script_pubkey)));
    match script_address(&t.script_pubkey, network) {
        Some(a) => {
            r.append(",\"scriptpubkey_address\":");
            append_jstr(&mut r, a.as_str());
        },
        None => {},
    }
    r.append(",\"value\":");
    r.append(u64_to_dec(t.value).as_str());
    r.append("}");
    proof {
        assert(r@ =~= render_txout(t, network));
    }
    r
}

/// A witness as a JSON array of hex strings.
pub open spec fn render_witness(w: Seq<Seq<u8>>) -> Seq<char> {
    spec_array(w.map_values(|item: Seq<u8>| seq!['"'] + spec_hex(item) + seq!['"']))
}

fn witness_json(w: &Vec<Vec<u8>>) -> (r: String)
    ensures
        r@ == render_witness(w@.map_values(|item: Vec<u8>| item@)),
{
    let ghost goal = w@.map_values(|item: Vec<u8>| item@).map_values(
        |item: Seq<u8>| seq!['"'] + spec_hex(item) + seq!['"'],
    );
    let mut parts: Vec<String> = Vec::new();
    let mut i: usize = 0;
    while i < w.len()
        invariant
            i <= w@.len(),
            parts@.len() == i,
            goal.len() == w@.len(),
            forall|k: int| 0 <= k < w@.len() ==> goal[k] == seq!['"'] + spec_hex(
                (#[trigger] w@[k])@,
            ) + seq!['"'],
            forall|k: int| 0 <= k < i ==> (#[trigger] parts@[k])@ == goal[k],
        decreases w@.len() - i,
    {
        let mut p = String::from_str("\"");
        p.append(hex_encode(&w[i]).as_str());
        p.append("\"");
        proof {
            reveal_strlit("\"");
            assert(p@ =~= seq!['"'] + spec_hex(w@[i as int]@) + seq!['"']);
        }
        parts.push(p);
        i = i + 1;
    }
    let mut r = String::new();
    append_array(&mut r, &parts);
    proof {
        assert(parts@.map_values(|p: String| p@) =~= goal);
        assert(r@ =~= render_witness(w@.map_values(|item: Vec<u8>| item@)));
    }
    r
}

/// An input as JSON: previous outpoint, resolved prevout (or null), script
/// sig with assembly, witness when present, coinbase flag, sequence, and
/// the inner scripts a P2SH or P2WSH prevout implies.
pub open spec fn render_txin(i: &TxIn, prevout: &Option<TxOut>, network: Network) -> Seq<char> {
    "{\"txid\":\""@ + spec_hex(i.prev_txid@) + "\",\"vout\":"@ + spec_dec(i.prev_vout as nat)
        + ",\"prevout\":"@ + (match prevout {
        Some(p) => render_txout(p, network),
        None => "null"@,
    }) + ",\"scriptsig\":\""@ + spec_hex(i.script_sig@) + "\",\"scriptsig_asm\":"@
        + spec_jstr(script_asm_of(i.script_sig@)) + (if i.witness@.len() > 0 {
        ",\"witness\":"@ + render_witness(i.witness@.map_values(|item: Vec<u8>| item@))
    } else {
        Seq::empty()
    }) + ",\"is_coinbase\":"@ + spec_bool(crate::tx::is_coinbase_v(i@)) + ",\"sequence\":"@
        + spec_dec(i.sequence as nat) + (match prevout {
        Some(p) => {
            if is_p2sh(p.script_pubkey@) && spec_last_push(i.script_sig@, None) is Some {
                ",\"inner_redeemscript_asm\":"@ + spec_jstr(
                    script_asm_of(spec_last_push(i.script_sig@, None)->Some_0),
                )
            } else {
                Seq::empty()
            }
        },
        None => Seq::empty(),
    }) + (match prevout {
        Some(p) => {
            if is_p2wsh(p.script_pubkey@) && i.witness@.len() > 0 {
                ",\"inner_witnessscript_asm\":"@ + spec_jstr(
                    script_asm_of(i.witness@.last()@),
                )
            } else {
                Seq::empty()
            }
        },
        None => Seq::empty(),
    }) + "}"@
}

/// Render one input against its resolved prevout.
pub fn txin_json(i: &TxIn, prevout: &Option<TxOut>, network: Network) -> (r: String)
    requires
        i.wf(),
    ensures
        r@ == render_txin(i, prevout, network),
{
    let mut r = String::from_str("{\"txid\":\"");
    r.append(hex_encode(&i.prev_txid.bytes).as_str());
    r.append("\",\"vout\":");
    r.append(u32_to_dec(i.prev_vout).as_str());
    r.append(",\"prevout\":");
    match prevout {
        Some(p) => r.append(txout_json(p, network).as_str()),
        None => r.append("null"),
    }
    r.append(",\"scriptsig\":\"");
    r.append(hex_encode(&i.script_sig).as_str());
    r.append("\",\"scriptsig_asm\":");
    append_jstr(&mut r, script_asm(&i.script_sig).as_str());
    if i.witness.len() > 0 {
        r.append(",\"witness\":");
        r.append(witness_json(&i.witness).as_str());
    }
    r.append(",\"is_coinbase\":");
    append_bool(&mut r, i.is_coinbase());
    r.append(",\"sequence\":");
    r.append(u32_to_dec(i.sequence).as_str());
    match prevout {
        Some(p) => {
            if crate::script::script_type(&p.script_pubkey) == crate::script::ScriptType::P2sh {
                match crate::script::last_push(&i.script_sig) {
                    Some(redeem) => {
                        r.append(",\"inner_redeemscript_asm\":");
                        append_jstr(&mut r, script_asm(&redeem).as_str());
                    },
                    None => {},
                }
            }
        },
        None => {},
    }
    match prevout {
        Some(p) => {
            if crate::script::script_type(&p.script_pubkey) == crate::script::ScriptType::V0P2wsh
                && i.witness.len() > 0 {
                r.append(",\"inner_witnessscript_asm\":");
                append_jstr(&mut r, script_asm(&i.witness[i.witness.len() - 1]).as_str());
            }
        },
        None => {},
    }
    r.append("}");
    proof {
        match prevout {
            Some(p) => {
                assert((crate::script::spec_script_type(p.script_pubkey@)
                    == crate::script::ScriptType::P2sh) == is_p2sh(p.script_pubkey@));
                assert((crate::script::spec_script_type(p.script_pubkey@)
                    == crate::script::ScriptType::V0P2wsh) == is_p2wsh(p.script_pubkey@));
                if i.witness@.len() > 0 {
                    assert(i.witness@.map_values(|item: Vec<u8>| item@).last() == i.witness@.last(
                    )@);
                }
            },
            None => {},
        }
        assert(r@ =~= render_txin(i, prevout, network));
    }
    r
}

/// The fee shown for a transaction: resolved prevout values minus output
/// values, each sum capped, floored at zero.
pub open spec fn spec_tx_fee(tx: &Transaction, prevouts: Seq<Option<TxOut>>) -> nat {
    let si = sat_sum(
        prevouts.map_values(
            |p: Option<TxOut>|
                match p {
                    Some(t) => t.value,
                    None => 0u64,
                },
        ),
    );
    let so = sat_sum(tx.output@.map_values(|t: TxOut| t.value));
    if si >= so {
        (si - so) as nat
    } else {
        0
    }
}

fn sum_values(vals: &Vec<u64>) -> (r: u64)
    ensures
        r as nat == sat_sum(vals@),
{
    let mut acc: u64 = 0;
    let mut i: usize = 0;
    proof {
        assert(vals@.take(0) =~= Seq::<u64>::empty());
    }
    while i < vals.len()
        invariant
            i <= vals@.len(),
            acc as nat == sat_sum(vals@.take(i as int)),
        decreases vals@.len() - i,
    {
        proof {
            assert(vals@.take(i + 1).drop_last() =~= vals@.take(i as int));
            assert(vals@.take(i + 1).last() == vals@[i as int]);
        }
        acc = sat_add(acc, vals[i]);
        i = i + 1;
    }
    proof {
        assert(vals@.take(i as int) =~= vals@);
    }
    acc
}

/// Compute the shown fee.
pub fn tx_fee(tx: &Transaction, prevouts: &Vec<Option<TxOut>>) -> (r: u64)
    ensures
        r as nat == spec_tx_fee(tx, prevouts@),
{
    let mut invals: Vec<u64> = Vec::new();
    let mut i: usize = 0;
    while i < prevouts.len()
        invariant
            i <= prevouts@.len(),
            invals@.len() == i,
            forall|k: int|
                0 <= k < i ==> invals@[k] == (match #[trigger] prevouts@[k] {
                    Some(t) => t.value,
                    None => 0u64,
                }),
        decreases prevouts@.len() - i,
    {
        match &prevouts[i] {
            Some(t) => invals.push(t.value),
            None => invals.push(0),
        }
        i = i + 1;
    }
    let mut outvals: Vec<u64> = Vec::new();
    let mut j: usize = 0;
    while j < tx.output.len()
        invariant
            j <= tx.output@.len(),
            outvals@.len() == j,
            forall|k: int| 0 <= k < j ==> outvals@[k] == (#[trigger] tx.output@[k]).value,
        decreases tx.output@.len() - j,
    {
        outvals.push(tx.output[j].value);
        j = j + 1;
    }
    let si = sum_values(&invals);
    let so = sum_values(&outvals);
    proof {
        assert(invals@ =~= prevouts@.map_values(
            |p: Option<TxOut>|
                match p {
                    Some(t) => t.value,
                    None => 0u64,
                },
        ));
        assert(outvals@ =~= tx.output@.map_values(|t: TxOut| t.value));
    }
    if si >= so {
        si - so
    } else {
        0
    }
}

/// A full transaction as JSON: id, shape data, inputs against their
/// prevouts, outputs, the shown fee, and the confirmation status.
pub open spec fn render_tx(
    tx: &Transaction,
    blockid: &Option<crate::types::BlockId>,
    prevouts: Seq<Option<TxOut>>,
    network: Network,
) -> Seq<char> {
    "{\"txid\":\""@ + spec_hex(tx.txid@) + "\",\"version\":"@ + spec_dec(tx.version as nat)
        + ",\"locktime\":"@ + spec_dec(tx.locktime as nat) + ",\"vin\":"@ + spec_array(
        Seq::new(
            tx.input@.len(),
            |k: int| render_txin(&tx.input@[k], &prevouts[k], network),
        ),
    ) + ",\"vout\":"@ + spec_array(
        tx.output@.map_values(|t: TxOut| render_txout(&t, network)),
    ) + ",\"size\":"@ + spec_dec(tx.size as nat) + ",\"weight\":"@ + spec_dec(
        tx.weight as nat,
    ) + ",\"fee\":"@ + spec_dec(spec_tx_fee(tx, prevouts)) + ",\"status\":"@
        + render_opt_status(blockid) + "}"@
}

/// Render a full transaction.
pub fn tx_json(
    tx: &Transaction,
    blockid: &Option<crate::types::BlockId>,
    prevouts: &Vec<Option<TxOut>>,
    network: Network,
) -> (r: String)
    requires
        tx.wf(),
        prevouts@.len() == tx.input@.len(),
    ensures
        r@ == render_tx(tx, blockid, prevouts@, network),
{
    let mut r = String::from_str("{\"txid\":\"");
    r.append(hex_encode(&tx.txid.bytes).as_str());
    r.append("\",\"version\":");
    r.append(u32_to_dec(tx.version).as_str());
    r.append(",\"locktime\":");
    r.append(u32_to_dec(tx.locktime).as_str());
    r.append(",\"vin\":");
    let ghost vin_goal = Seq::new(
        tx.input@.len(),
        |k: int| render_txin(&tx.input@[k], &prevouts@[k], network),
    );
    let mut vin_parts: Vec<String> = Vec::new();
    let mut i: usize = 0;
    while i < tx.input.len()
        invariant
            i <= tx.input@.len(),
            prevouts@.len() == tx.input@.len(),
            tx.wf(),
            vin_parts@.len() == i,
            vin_goal == Seq::new(
                tx.input@.len(),
                |k: int| render_txin(&tx.input@[k], &prevouts@[k], network),
            ),
            forall|k: int| 0 <= k < i ==> (#[trigger] vin_parts@[k])@ == vin_goal[k],
        decreases tx.input@.len() - i,
    {
        proof {
            assert(tx.input@[i as int].wf());
        }
        vin_parts.push(txin_json(&tx.input[i], &prevouts[i], network));
        i = i + 1;
    }
    append_array(&mut r, &vin_parts);
    r.append(",\"vout\":");
    let ghost vout_goal = tx.output@.map_values(|t: TxOut| render_txout(&t, network));
    let mut vout_parts: Vec<String> = Vec::new();
    let mut j: usize = 0;
    while j < tx.output.len()
        invariant
            j <= tx.output@.len(),
            vout_parts@.len() == j,
            vout_goal == tx.output@.map_values(|t: TxOut| render_txout(&t, network)),
            forall|k: int| 0 <= k < j ==> (#[trigger] vout_parts@[k])@ == vout_goal[k],
        decreases tx.output@.len() - j,
    {
        vout_parts.push(txout_json(&tx.output[j], network));
        j = j + 1;
    }
    append_array(&mut r, &vout_parts);
    r.append(",\"size\":");
    r.append(u32_to_dec(tx.size).as_str());
    r.append(",\"weight\":");
    r.append(u64_to_dec(tx.weight).as_str());
    r.append(",\"fee\":");
    r.append(u64_to_dec(tx_fee(tx, prevouts)).as_str());
    r.append(",\"status\":");
    let st = TransactionStatus::from_block(crate::types::clone_opt_block(blockid));
    r.append(status_json(&st).as_str());
    r.append("}");
    proof {
        assert(vin_parts@.map_values(|p: String| p@) =~= vin_goal);
        assert(vout_parts@.map_values(|p: String| p@) =~= vout_goal);
        assert(render_status(&st) == render_opt_status(blockid));
        assert(r@ =~= render_tx(tx, blockid, prevouts@, network));
    }
    r
}

/// A block summary as JSON. A difficulty figure would be floating point
/// and is not served here.
pub open spec fn render_block(b: &crate::chain::BlockRec) -> Seq<char> {
    "{\"id\":\""@ + spec_hex(b.id.hash@) + "\",\"height\":"@ + spec_dec(b.id.height as nat)
        + ",\"version\":"@ + spec_dec(b.version as nat) + ",\"timestamp\":"@ + spec_dec(
        b.id.time as nat,
    ) + ",\"tx_count\":"@ + spec_dec(b.txids@.len()) + ",\"size\":"@ + spec_dec(
        b.size as nat,
    ) + ",\"weight\":"@ + spec_dec(b.weight as nat) + ",\"merkle_root\":\""@ + spec_hex(
        b.merkle_root@,
    ) + "\",\"previousblockhash\":"@ + (if b.prev_hash@ == crate::types::zero_hash() {
        "null"@
    } else {
        seq!['"'] + spec_hex(b.prev_hash@) + seq!['"']
    }) + ",\"mediantime\":"@ + spec_dec(b.mediantime as nat) + ",\"nonce\":"@ + spec_dec(
        b.nonce as nat,
    ) + ",\"bits\":"@ + spec_dec(b.bits as nat) + "}"@
}

/// Render a block summary.
pub fn block_json(b: &crate::chain::BlockRec) -> (r: String)
    requires
        b.wf(),
    ensures
        r@ == render_block(b),
{
    let mut r = String::from_str("{\"id\":\"");
    r.append(hex_encode(&b.id.hash.bytes).as_str());
    r.append("\",\"height\":");
    r.append(u32_to_dec(b.id.height).as_str());
    r.append(",\"version\":");
    r.append(u32_to_dec(b.version).as_str());
    r.append(",\"timestamp\":");
    r.append(u32_to_dec(b.id.time).as_str());
    r.append(",\"tx_count\":");
    r.append(usize_to_dec(b.txids.len()).as_str());
    r.append(",\"size\":");
    r.append(u32_to_dec(b.size).as_str());
    r.append(",\"weight\":");
    r.append(u64_to_dec(b.weight).as_str());
    r.append(",\"merkle_root\":\"");
    r.append(hex_encode(&b.merkle_root.bytes).as_str());
    r.append("\",\"previousblockhash\":");
    if b.prev_hash.is_zero() {
        r.append("null");
    } else {
        r.append("\"");
        r.append(hex_encode(&b.prev_hash.bytes).as_str());
        r.append("\"");
        proof {
            reveal_strlit("\"");
        }
    }
    r.append(",\"mediantime\":");
    r.append(u32_to_dec(b.mediantime).as_str());
    r.append(",\"nonce\":");
    r.append(u32_to_dec(b.nonce).as_str());
    r.append(",\"bits\":");
    r.append(u32_to_dec(b.bits).as_str());
    r.append("}");
    proof {
        assert(r@ =~= render_block(b));
    }
    r
}

/// A block's membership answer as JSON.
pub open spec fn render_block_status(
    in_best_chain: bool,
    height: Option<u32>,
    next_best: Option<Seq<u8>>,
) -> Seq<char> {
    "{\"in_best_chain\":"@ + spec_bool(in_best_chain) + ",\"height\":"@ + (match height {
        Some(h) => spec_dec(h as nat),
        None => "null"@,
    }) + ",\"next_best\":"@ + (match next_best {
        Some(h) => seq!['"'] + spec_hex(h) + seq!['"'],
        None => "null"@,
    }) + "}"@
}

/// Render a block's membership answer.
pub fn block_status_json(in_best_chain: bool, height: Option<u32>, next_best: &Option<Hash32>)
    -> (r: String)
    ensures
        r@ == render_block_status(
            in_best_chain,
            height,
            match next_best {
                Some(h) => Some(h@),
                None => None,
            },
        ),
{
    let mut r = String::from_str("{\"in_best_chain\":");
    append_bool(&mut r, in_best_chain);
    r.append(",\"height\":");
    match height {
        Some(h) => r.append(u32_to_dec(h).as_str()),
        None => r.append("null"),
    }
    r.append(",\"next_best\":");
    match next_best {
        Some(h) => {
            r.append("\"");
            r.append(hex_encode(&h.bytes).as_str());
            r.append("\"");
            proof {
                reveal_strlit("\"");
            }
        },
        None => r.append("null"),
    }
    r.append("}");
    proof {
        assert(r@ =~= render_block_status(
            in_best_chain,
            height,
            match next_best {
                Some(h) => Some(h@),
                None => None,
            },
        ));
    }
    r
}

/// A fee rate in millisatoshi per vbyte as a JSON number with three
/// decimal places.
pub open spec fn render_rate(milli: u64) -> Seq<char> {
    spec_dec((milli / 1000) as nat) + seq!['.'] + crate::amounts::spec_dec_fixed(
        (milli % 1000) as nat,
        3,
    )
}

/// Render a fee rate.
pub fn rate_json(milli: u64) -> (r: String)
    ensures
        r@ == render_rate(milli),
{
    let mut r = u64_to_dec(milli / 1000);
    r.append(".");
    let frac = milli % 1000;
    let d2 = frac / 100;
    let d1 = (frac / 10) % 10;
    let d0 = frac % 10;
    r.append(crate::amounts::digit_str(d2));
    r.append(crate::amounts::digit_str(d1));
    r.append(crate::amounts::digit_str(d0));
    proof {
        reveal_strlit(".");
        crate::amounts::lemma_pow10_vals();
        let f = (milli % 1000) as nat;
        let fixed = crate::amounts::spec_dec_fixed(f, 3);
        assert(fixed.len() == 3);
        assert(fixed[0] == crate::amounts::digit_char(((f / 100) % 10) as int));
        assert(fixed[1] == crate::amounts::digit_char(((f / 10) % 10) as int));
        assert(f / 1 == f) by (nonlinear_arith);
        assert(fixed[2] == crate::amounts::digit_char((f % 10) as int));
        assert(f / 100 < 10);
        assert((f / 100) % 10 == f / 100) by {
            vstd::arithmetic::div_mod::lemma_small_mod(f / 100, 10);
        }
        assert(fixed =~= seq![
            crate::amounts::digit_char(d2 as int),
            crate::amounts::digit_char(d1 as int),
            crate::amounts::digit_char(d0 as int),
        ]);
        assert(r@ =~= render_rate(milli));
    }
    r
}

} // verus!
