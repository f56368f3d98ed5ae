//! Core domain values: 32-byte identifiers, outpoints, block ids, UTXOs,
//! spending inputs, per-script statistics and transaction status.

use vstd::prelude::*;

verus! {

/// Number of bytes in a transaction / block / script identifier.
pub const HASH_LEN: usize = 32;

/// A 32-byte content identifier (transaction id, block hash or scripthash),
/// kept in display order and totally ordered by its byte sequence.
#[derive(Debug)]
pub struct Hash32 {
    pub bytes: Vec<u8>,
}

impl View for Hash32 {
    type V = Seq<u8>;

    open spec fn view(&self) -> Seq<u8> {
        self.bytes@
    }
}

impl Clone for Hash32 {
    fn clone(&self) -> (r: Self)
        ensures
            r@ == self@,
    {
        Hash32 { bytes: self.bytes.clone() }
    }
}

impl Hash32 {
    /// Well-formed identifiers hold exactly 32 bytes.
    pub open spec fn wf(&self) -> bool {
        self@.len() == HASH_LEN
    }

    pub fn new(bytes: Vec<u8>) -> (r: Self)
        requires
            bytes@.len() == HASH_LEN,
        ensures
            r@ == bytes@,
            r.wf(),
    {
        Hash32 { bytes }
    }

    /// The all-zero identifier, used by coinbase previous outputs and as the
    /// previous-block hash of the genesis block.
    pub fn zero() -> (r: Self)
        ensures
            r@ == zero_hash(),
            r.wf(),
    {
        let mut bytes: Vec<u8> = Vec::new();
        let mut i: usize = 0;
        while i < HASH_LEN
            invariant
                i <= HASH_LEN,
                bytes@ =~= Seq::new(i as nat, |j: int| 0u8),
            decreases HASH_LEN - i,
        {
            bytes.push(0u8);
            i = i + 1;
        }
        proof {
            assert(bytes@ =~= zero_hash());
        }
        Hash32 { bytes }
    }

    pub fn eq_hash(&self, other: &Hash32) -> (r: bool)
        ensures
            r == (self@ == other@),
    {
        eq_bytes(&self.bytes, &other.bytes)
    }

    pub fn is_zero(&self) -> (r: bool)
        requires
            self.wf(),
        ensures
            r == (self@ == zero_hash()),
    {
        let mut i: usize = 0;
        while i < self.bytes.len()
            invariant
                i <= self@.len(),
                self.wf(),
                forall|j: int| 0 <= j < i ==> self@[j] == 0u8,
            decreases self@.len() - i,
        {
            if self.bytes[i] != 0u8 {
                proof {
                    assert(self@[i as int] != zero_hash()[i as int]);
                }
                return false;
            }
            i = i + 1;
        }
        proof {
            assert(self@ =~= zero_hash());
        }
        true
    }
}

/// The 32-byte all-zero sequence.
pub open spec fn zero_hash() -> Seq<u8> {
    Seq::new(HASH_LEN as nat, |i: int| 0u8)
}

/// Byte-wise equality of two vectors.
pub fn eq_bytes(a: &Vec<u8>, b: &Vec<u8>) -> (r: bool)
    ensures
        r == (a@ == b@),
{
    if a.len() != b.len() {
        proof {
            assert(a@ != b@);
        }
        return false;
    }
    let mut i: usize = 0;
    while i < a.len()
        invariant
            i <= a@.len(),
            a@.len() == b@.len(),
            forall|j: int| 0 <= j < i ==> a@[j] == b@[j],
        decreases a@.len() - i,
    {
        if a[i] != b[i] {
            proof {
                assert(a@[i as int] != b@[i as int]);
            }
            return false;
        }
        i = i + 1;
    }
    proof {
        assert(a@ =~= b@);
    }
    true
}

/// Strict lexicographic order on byte sequences.
pub open spec fn lex_lt(a: Seq<u8>, b: Seq<u8>) -> bool
    decreases a.len(),
{
    if b.len() == 0 {
        false
    } else if a.len() == 0 {
        true
    } else if a[0] != b[0] {
        a[0] < b[0]
    } else {
        lex_lt(a.skip(1), b.skip(1))
    }
}

/// Lexicographic order is total: of two distinct sequences one is smaller.
pub proof fn lemma_lex_total(a: Seq<u8>, b: Seq<u8>)
    ensures
        lex_lt(a, b) || lex_lt(b, a) || a == b,
    decreases a.len(),
{
    if a.len() == 0 && b.len() == 0 {
        assert(a =~= b);
    } else if a.len() == 0 || b.len() == 0 {
    } else if a[0] != b[0] {
    } else {
        lemma_lex_total(a.skip(1), b.skip(1));
        if a.skip(1) == b.skip(1) {
            assert(a.skip(1).len() == a.len() - 1);
            assert(b.skip(1).len() == b.len() - 1);
            assert(a.len() == b.len());
            assert forall|i: int| 0 <= i < a.len() implies a[i] == b[i] by {
                if i >= 1 {
                    assert(a[i] == a.skip(1)[i - 1]);
                    assert(b[i] == b.skip(1)[i - 1]);
                }
            }
            assert(a =~= b);
        }
    }
}

/// Lexicographic order is irreflexive and asymmetric.
pub proof fn lemma_lex_asym(a: Seq<u8>, b: Seq<u8>)
    ensures
        !(lex_lt(a, b) && lex_lt(b, a)),
        !lex_lt(a, a),
    decreases a.len(),
{
    if a.len() != 0 && b.len() != 0 && a[0] == b[0] {
        lemma_lex_asym(a.skip(1), b.skip(1));
    }
    if a.len() != 0 {
        lemma_lex_asym(a.skip(1), a.skip(1));
    }
}

/// Lexicographic order is transitive.
pub proof fn lemma_lex_trans(a: Seq<u8>, b: Seq<u8>, c: Seq<u8>)
    requires
        lex_lt(a, b),
        lex_lt(b, c),
    ensures
        lex_lt(a, c),
    decreases a.len() + b.len() + c.len(),
{
    if b.len() == 0 {
    } else if c.len() == 0 {
    } else if a.len() == 0 {
    } else {
        if a[0] == b[0] && b[0] == c[0] {
            lemma_lex_trans(a.skip(1), b.skip(1), c.skip(1));
        }
    }
}

/// Exec comparison: is `a` lexicographically before `b`?
pub fn bytes_lt(a: &Vec<u8>, b: &Vec<u8>) -> (r: bool)
    ensures
        r == lex_lt(a@, b@),
{
    let n = if a.len() < b.len() {
        a.len()
    } else {
        b.len()
    };
    let mut i: usize = 0;
    proof {
        assert(a@.skip(0) =~= a@);
        assert(b@.skip(0) =~= b@);
    }
    while i < n
        invariant
            i <= n,
            n == if a@.len() < b@.len() {
                a@.len()
            } else {
                b@.len()
            },
            forall|j: int| 0 <= j < i ==> a@[j] == b@[j],
            lex_lt(a@, b@) == lex_lt(a@.skip(i as int), b@.skip(i as int)),
        decreases n - i,
    {
        let x = a[i];
        let y = b[i];
        proof {
            let sa = a@.skip(i as int);
            let sb = b@.skip(i as int);
            assert(sa[0] == a@[i as int]);
            assert(sb[0] == b@[i as int]);
            assert(sa.skip(1) =~= a@.skip(i + 1));
            assert(sb.skip(1) =~= b@.skip(i + 1));
        }
        if x < y {
            return true;
        }
        if x > y {
            return false;
        }
        i = i + 1;
    }
    proof {
        let sa = a@.skip(i as int);
        let sb = b@.skip(i as int);
        if a@.len() < b@.len() {
            assert(sa.len() == 0 && sb.len() > 0);
        } else if a@.len() > b@.len() {
            assert(sb.len() == 0);
        } else {
            assert(sa.len() == 0 && sb.len() == 0);
        }
    }
    a.len() < b.len()
}

/// Reference to a specific output of a specific transaction.
#[derive(Debug)]
pub struct OutPoint {
    pub txid: Hash32,
    pub vout: u32,
}

/// Mathematical form of an outpoint.
pub struct OutPointV {
    pub txid: Seq<u8>,
    pub vout: u32,
}

impl View for OutPoint {
    type V = OutPointV;

    open spec fn view(&self) -> OutPointV {
        OutPointV { txid: self.txid@, vout: self.vout }
    }
}

impl Clone for OutPoint {
    fn clone(&self) -> (r: Self)
        ensures
            r@ == self@,
    {
        OutPoint { txid: self.txid.clone(), vout: self.vout }
    }
}

/// Strict order on outpoints: txid bytes first, then vout.
pub open spec fn op_lt(a: OutPointV, b: OutPointV) -> bool {
    lex_lt(a.txid, b.txid) || (a.txid == b.txid && a.vout < b.vout)
}

/// Outpoint order is total.
pub proof fn lemma_op_total(a: OutPointV, b: OutPointV)
    ensures
        op_lt(a, b) || op_lt(b, a) || a == b,
{
    lemma_lex_total(a.txid, b.txid);
    if a.txid == b.txid && a.vout == b.vout {
        assert(a == b);
    }
}

/// Outpoint order is irreflexive and asymmetric.
pub proof fn lemma_op_asym(a: OutPointV, b: OutPointV)
    ensures
        !(op_lt(a, b) && op_lt(b, a)),
        !op_lt(a, a),
{
    lemma_lex_asym(a.txid, b.txid);
}

/// Outpoint order is transitive.
pub proof fn lemma_op_trans(a: OutPointV, b: OutPointV, c: OutPointV)
    requires
        op_lt(a, b),
        op_lt(b, c),
    ensures
        op_lt(a, c),
{
    if lex_lt(a.txid, b.txid) && lex_lt(b.txid, c.txid) {
        lemma_lex_trans(a.txid, b.txid, c.txid);
    }
}

impl OutPoint {
    pub open spec fn wf(&self) -> bool {
        self.txid.wf()
    }

    pub fn eq_op(&self, other: &OutPoint) -> (r: bool)
        ensures
            r == (self@ == other@),
    {
        let r = self.txid.eq_hash(&other.txid) && self.vout == other.vout;
        proof {
            if r {
                assert(self@ == other@);
            }
        }
        r
    }

    /// Exec comparison in the (txid, vout) order.
    pub fn lt_op(&self, other: &OutPoint) -> (r: bool)
        ensures
            r == op_lt(self@, other@),
    {
        if bytes_lt(&self.txid.bytes, &other.txid.bytes) {
            true
        } else if self.txid.eq_hash(&other.txid) {
            self.vout < other.vout
        } else {
            false
        }
    }
}

/// Identity of a confirmed block: hash, height and timestamp.
#[derive(Debug)]
pub struct BlockId {
    pub hash: Hash32,
    pub height: u32,
    pub time: u32,
}

pub struct BlockIdV {
    pub hash: Seq<u8>,
    pub height: u32,
    pub time: u32,
}

impl View for BlockId {
    type V = BlockIdV;

    open spec fn view(&self) -> BlockIdV {
        BlockIdV { hash: self.hash@, height: self.height, time: self.time }
    }
}

impl Clone for BlockId {
    fn clone(&self) -> (r: Self)
        ensures
            r@ == self@,
    {
        BlockId { hash: self.hash.clone(), height: self.height, time: self.time }
    }
}

impl BlockId {
    pub open spec fn wf(&self) -> bool {
        self.hash.wf()
    }
}

/// Spec-level view of an optional block id.
pub open spec fn opt_block_v(b: Option<BlockId>) -> Option<BlockIdV> {
    match b {
        Some(id) => Some(id@),
        None => None,
    }
}

pub fn clone_opt_block(b: &Option<BlockId>) -> (r: Option<BlockId>)
    ensures
        opt_block_v(r) == opt_block_v(*b),
{
    match b {
        Some(id) => Some(id.clone()),
        None => None,
    }
}

/// An unspent transaction output. Chain UTXOs carry `confirmed = Some`;
/// mempool UTXOs carry `None`.
#[derive(Debug)]
pub struct Utxo {
    pub txid: Hash32,
    pub vout: u32,
    pub value: u64,
    pub confirmed: Option<BlockId>,
}

pub struct UtxoV {
    pub txid: Seq<u8>,
    pub vout: u32,
    pub value: u64,
    pub confirmed: Option<BlockIdV>,
}

impl View for Utxo {
    type V = UtxoV;

    open spec fn view(&self) -> UtxoV {
        UtxoV {
            txid: self.txid@,
            vout: self.vout,
            value: self.value,
            confirmed: opt_block_v(self.confirmed),
        }
    }
}

impl Clone for Utxo {
    fn clone(&self) -> (r: Self)
        ensures
            r@ == self@,
    {
        Utxo {
            txid: self.txid.clone(),
            vout: self.vout,
            value: self.value,
            confirmed: clone_opt_block(&self.confirmed),
        }
    }
}

/// The outpoint a UTXO answers to.
pub open spec fn utxo_op(u: UtxoV) -> OutPointV {
    OutPointV { txid: u.txid, vout: u.vout }
}

impl Utxo {
    pub open spec fn wf(&self) -> bool {
        &&& self.txid.wf()
        &&& match self.confirmed {
            Some(b) => b.wf(),
            None => true,
        }
    }

    pub fn outpoint(&self) -> (r: OutPoint)
        ensures
            r@ == utxo_op(self@),
    {
        OutPoint { txid: self.txid.clone(), vout: self.vout }
    }
}

/// The input that consumes a given outpoint.
#[derive(Debug)]
pub struct SpendingInput {
    pub txid: Hash32,
    pub vin: u32,
    pub confirmed: Option<BlockId>,
}

pub struct SpendingInputV {
    pub txid: Seq<u8>,
    pub vin: u32,
    pub confirmed: Option<BlockIdV>,
}

impl View for SpendingInput {
    type V = SpendingInputV;

    open spec fn view(&self) -> SpendingInputV {
        SpendingInputV { txid: self.txid@, vin: self.vin, confirmed: opt_block_v(self.confirmed) }
    }
}

impl Clone for SpendingInput {
    fn clone(&self) -> (r: Self)
        ensures
            r@ == self@,
    {
        SpendingInput {
            txid: self.txid.clone(),
            vin: self.vin,
            confirmed: clone_opt_block(&self.confirmed),
        }
    }
}

impl SpendingInput {
    pub open spec fn wf(&self) -> bool {
        &&& self.txid.wf()
        &&& match self.confirmed {
            Some(b) => b.wf(),
            None => true,
        }
    }
}

/// Funding and spending totals over a single scripthash, computed separately
/// for the chain index and the mempool.
#[derive(Clone, Copy, PartialEq, Eq, Structural)]
pub struct ScriptStats {
    pub funded_txo_count: u64,
    pub funded_txo_sum: u64,
    pub spent_txo_count: u64,
    pub spent_txo_sum: u64,
    pub tx_count: u64,
}

impl ScriptStats {
    pub fn empty() -> (r: ScriptStats)
        ensures
            r == (ScriptStats {
                funded_txo_count: 0u64,
                funded_txo_sum: 0u64,
                spent_txo_count: 0u64,
                spent_txo_sum: 0u64,
                tx_count: 0u64,
            }),
    {
        ScriptStats {
            funded_txo_count: 0,
            funded_txo_sum: 0,
            spent_txo_count: 0,
            spent_txo_sum: 0,
            tx_count: 0,
        }
    }
}

/// The suffix after a cursor: everything strictly after the first
/// occurrence of the cursor txid, or the whole sequence when the cursor is
/// absent or not given.
pub open spec fn after_txid(s: Seq<Seq<u8>>, c: Option<Seq<u8>>) -> Seq<Seq<u8>> {
    match c {
        None => s,
        Some(t) => {
            if exists|i: int| 0 <= i < s.len() && s[i] == t {
                s.skip((choose|i: int| 0 <= i < s.len() && s[i] == t) + 1)
            } else {
                s
            }
        },
    }
}

/// The first `n` elements of a sequence, or all of it when it is shorter.
pub open spec fn take_up_to<A>(s: Seq<A>, n: int) -> Seq<A> {
    if n <= s.len() {
        s.take(n)
    } else {
        s
    }
}

/// A record that some outpoint is consumed by some input.
pub struct SpendRecord {
    pub outpoint: OutPoint,
    pub spend: SpendingInput,
}

impl SpendRecord {
    pub open spec fn wf(&self) -> bool {
        self.outpoint.wf() && self.spend.wf()
    }
}

/// Views of a sequence of UTXOs.
pub open spec fn utxo_views(s: Seq<Utxo>) -> Seq<UtxoV> {
    s.map_values(|u: Utxo| u@)
}

/// Views of a sequence of identifiers.
pub open spec fn hash_views(s: Seq<Hash32>) -> Seq<Seq<u8>> {
    s.map_values(|h: Hash32| h@)
}

/// Pairwise-distinct identifiers.
pub open spec fn hashes_distinct(s: Seq<Seq<u8>>) -> bool {
    forall|i: int, j: int| 0 <= i < j < s.len() ==> s[i] != s[j]
}

/// Check that a list of identifiers is pairwise distinct.
pub fn check_hashes_distinct(v: &Vec<Hash32>) -> (r: bool)
    ensures
        r == hashes_distinct(hash_views(v@)),
{
    let n = v.len();
    let mut i: usize = 0;
    while i < n
        invariant
            i <= n,
            n == v@.len(),
            forall|a: int, b: int| 0 <= a < b < v@.len() && a < i ==> v@[a]@ != v@[b]@,
        decreases n - i,
    {
        let mut j: usize = i + 1;
        while j < n
            invariant
                i < j <= n,
                n == v@.len(),
                forall|b: int| i < b < j ==> v@[i as int]@ != v@[b]@,
            decreases n - j,
        {
            if v[i].eq_hash(&v[j]) {
                assert(hash_views(v@)[i as int] == hash_views(v@)[j as int]);
                return false;
            }
            j = j + 1;
        }
        i = i + 1;
    }
    proof {
        assert forall|a: int, b: int|
            0 <= a < b < hash_views(v@).len() implies #[trigger] hash_views(v@)[a]
            != #[trigger] hash_views(v@)[b] by {
            assert(v@[a]@ != v@[b]@);
        }
    }
    true
}

/// Pairwise-distinct outpoints.
pub open spec fn ops_distinct(s: Seq<OutPointV>) -> bool {
    forall|i: int, j: int| 0 <= i < j < s.len() ==> s[i] != s[j]
}

/// Views of a sequence of outpoints.
pub open spec fn op_views(s: Seq<OutPoint>) -> Seq<OutPointV> {
    s.map_values(|o: OutPoint| o@)
}

/// Check that a list of outpoints is pairwise distinct.
pub fn check_ops_distinct(v: &Vec<OutPoint>) -> (r: bool)
    ensures
        r == ops_distinct(op_views(v@)),
{
    let n = v.len();
    let mut i: usize = 0;
    while i < n
        invariant
            i <= n,
            n == v@.len(),
            forall|a: int, b: int| 0 <= a < b < v@.len() && a < i ==> v@[a]@ != v@[b]@,
        decreases n - i,
    {
        let mut j: usize = i + 1;
        while j < n
            invariant
                i < j <= n,
                n == v@.len(),
                forall|b: int| i < b < j ==> v@[i as int]@ != v@[b]@,
            decreases n - j,
        {
            if v[i].eq_op(&v[j]) {
                assert(op_views(v@)[i as int] == op_views(v@)[j as int]);
                return false;
            }
            j = j + 1;
        }
        i = i + 1;
    }
    proof {
        assert forall|a: int, b: int|
            0 <= a < b < op_views(v@).len() implies #[trigger] op_views(v@)[a]
            != #[trigger] op_views(v@)[b] by {
            assert(v@[a]@ != v@[b]@);
        }
    }
    true
}

/// Confirmation status of a transaction, derived solely from an optional
/// block id.
pub struct TransactionStatus {
    pub confirmed: bool,
    pub block_height: Option<u32>,
    pub block_hash: Option<Hash32>,
    pub block_time: Option<u32>,
}

pub struct TransactionStatusV {
    pub confirmed: bool,
    pub block_height: Option<u32>,
    pub block_hash: Option<Seq<u8>>,
    pub block_time: Option<u32>,
}

impl View for TransactionStatus {
    type V = TransactionStatusV;

    open spec fn view(&self) -> TransactionStatusV {
        TransactionStatusV {
            confirmed: self.confirmed,
            block_height: self.block_height,
            block_hash: match self.block_hash {
                Some(h) => Some(h@),
                None => None,
            },
            block_time: self.block_time,
        }
    }
}

/// What a transaction status must say of the block id it was derived from.
pub open spec fn status_of(b: Option<BlockIdV>) -> TransactionStatusV {
    match b {
        Some(id) => TransactionStatusV {
            confirmed: true,
            block_height: Some(id.height),
            block_hash: Some(id.hash),
            block_time: Some(id.time),
        },
        None => TransactionStatusV {
            confirmed: false,
            block_height: None,
            block_hash: None,
            block_time: None,
        },
    }
}

impl TransactionStatus {
    /// Derive a status from an optional confirming block.
    pub fn from_block(b: Option<BlockId>) -> (r: TransactionStatus)
        ensures
            r@ == status_of(opt_block_v(b)),
    {
        match b {
            Some(id) => TransactionStatus {
                confirmed: true,
                block_height: Some(id.height),
                block_hash: Some(id.hash),
                block_time: Some(id.time),
            },
            None => TransactionStatus {
                confirmed: false,
                block_height: None,
                block_hash: None,
                block_time: None,
            },
        }
    }
}

} // verus!
