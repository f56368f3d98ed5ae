//! Decimal rendering: plain integers, and satoshi amounts as BTC strings
//! with exactly eight decimal places, together with the proof that such a
//! string parses back to the amount it was made from.

use vstd::arithmetic::div_mod::{
    lemma_div_denominator, lemma_fundamental_div_mod,
    lemma_fundamental_div_mod_converse,
};
use vstd::prelude::*;

verus! {

/// One satoshi count per whole coin.
pub const SATS_PER_COIN: u64 = 100_000_000;

pub open spec fn digit_char(d: int) -> char {
    if d == 0 {
        '0'
    } else if d == 1 {
        '1'
    } else if d == 2 {
        '2'
    } else if d == 3 {
        '3'
    } else if d == 4 {
        '4'
    } else if d == 5 {
        '5'
    } else if d == 6 {
        '6'
    } else if d == 7 {
        '7'
    } else if d == 8 {
        '8'
    } else {
        '9'
    }
}

pub open spec fn digit_val(c: char) -> int {
    if c == '0' {
        0
    } else if c == '1' {
        1
    } else if c == '2' {
        2
    } else if c == '3' {
        3
    } else if c == '4' {
        4
    } else if c == '5' {
        5
    } else if c == '6' {
        6
    } else if c == '7' {
        7
    } else if c == '8' {
        8
    } else if c == '9' {
        9
    } else {
        -1
    }
}

pub open spec fn is_digit(c: char) -> bool {
    digit_val(c) >= 0
}

/// Decimal rendering of a natural number, most significant digit first.
pub open spec fn spec_dec(n: nat) -> Seq<char>
    decreases n,
{
    if n < 10 {
        seq![digit_char(n as int)]
    } else {
        spec_dec(n / 10) + seq![digit_char((n % 10) as int)]
    }
}

/// Every character of a decimal rendering is a digit.
pub proof fn lemma_dec_digits(n: nat)
    ensures
        spec_dec(n).len() >= 1,
        forall|i: int| 0 <= i < spec_dec(n).len() ==> is_digit(#[trigger] spec_dec(n)[i]),
    decreases n,
{
    if n < 10 {
        assert(spec_dec(n) == seq![digit_char(n as int)]);
        assert(is_digit(spec_dec(n)[0]));
    } else {
        lemma_dec_digits(n / 10);
        assert forall|i: int| 0 <= i < spec_dec(n).len() implies is_digit(
            #[trigger] spec_dec(n)[i],
        ) by {
            if i < spec_dec(n / 10).len() {
                assert(spec_dec(n)[i] == spec_dec(n / 10)[i]);
            } else {
                assert(spec_dec(n)[i] == digit_char((n % 10) as int));
            }
        }
    }
}

/// The value of a digit string, most significant digit first.
pub open spec fn dec_val(s: Seq<char>) -> nat
    decreases s.len(),
{
    if s.len() == 0 {
        0
    } else {
        dec_val(s.drop_last()) * 10 + (if 0 <= digit_val(s.last()) {
            digit_val(s.last()) as nat
        } else {
            0
        })
    }
}

/// Rendering then evaluating gives the number back.
pub proof fn lemma_dec_val(n: nat)
    ensures
        dec_val(spec_dec(n)) == n,
    decreases n,
{
    if n < 10 {
        let s = spec_dec(n);
        assert(s.drop_last() =~= Seq::<char>::empty());
        assert(digit_val(digit_char(n as int)) == n);
        assert(dec_val(Seq::<char>::empty()) == 0);
        assert(s.last() == digit_char(n as int));
        assert(dec_val(s) == 0 * 10 + n);
    } else {
        lemma_dec_val(n / 10);
        let s = spec_dec(n);
        assert(s.drop_last() =~= spec_dec(n / 10));
        assert(s.last() == digit_char((n % 10) as int));
        assert(dec_val(s) == dec_val(spec_dec(n / 10)) * 10 + n % 10);
        assert(n == (n / 10) * 10 + n % 10) by {
            lemma_fundamental_div_mod(n as int, 10);
        }
    }
}

pub open spec fn pow10(k: nat) -> nat
    decreases k,
{
    if k == 0 {
        1
    } else {
        10 * pow10((k - 1) as nat)
    }
}

/// Fixed-width decimal rendering: `k` digits, leading zeros kept.
pub open spec fn spec_dec_fixed(n: nat, k: nat) -> Seq<char> {
    Seq::new(k, |i: int| digit_char(((n / pow10((k - 1 - i) as nat)) % 10) as int))
}

pub proof fn lemma_pow10_vals()
    ensures
        pow10(0) == 1,
        pow10(1) == 10,
        pow10(2) == 100,
        pow10(3) == 1000,
        pow10(4) == 10000,
        pow10(5) == 100000,
        pow10(6) == 1000000,
        pow10(7) == 10000000,
        pow10(8) == 100000000,
{
    assert(pow10(0) == 1);
    assert(pow10(1) == 10);
    assert(pow10(2) == 100);
    assert(pow10(3) == 1000);
    assert(pow10(4) == 10000);
    assert(pow10(5) == 100000);
    assert(pow10(6) == 1000000);
    assert(pow10(7) == 10000000);
    assert(pow10(8) == 100000000);
}

proof fn lemma_pow10_pos(k: nat)
    ensures
        pow10(k) >= 1,
    decreases k,
{
    if k > 0 {
        lemma_pow10_pos((k - 1) as nat);
    }
}

/// Fixed-width rendering evaluates to the number modulo its width.
proof fn lemma_dec_fixed_val(n: nat, k: nat)
    ensures
        dec_val(spec_dec_fixed(n, k)) == n % pow10(k),
    decreases k,
{
    lemma_pow10_pos(k);
    if k == 0 {
        assert(spec_dec_fixed(n, 0) =~= Seq::<char>::empty());
        assert(n % 1 == 0) by {
            lemma_fundamental_div_mod(n as int, 1);
        }
    } else {
        lemma_dec_fixed_val(n / 10, (k - 1) as nat);
        let s = spec_dec_fixed(n, k);
        assert(s.drop_last() =~= spec_dec_fixed(n / 10, (k - 1) as nat)) by {
            lemma_pow10_pos((k - 1) as nat);
            assert forall|i: int| 0 <= i < k - 1 implies s.drop_last()[i] == spec_dec_fixed(
                n / 10,
                (k - 1) as nat,
            )[i] by {
                let e = (k - 1 - i) as nat;
                assert(pow10(e) == 10 * pow10((e - 1) as nat));
                lemma_pow10_pos((e - 1) as nat);
                assert((n / 10) / pow10((e - 1) as nat) == n / (10 * pow10((e - 1) as nat))) by {
                    lemma_div_denominator(n as int, 10, pow10((e - 1) as nat) as int);
                }
            }
        }
        assert(s.last() == digit_char(((n / pow10(0)) % 10) as int));
        assert(n / pow10(0) == n);
        assert(dec_val(s) == (n / 10) % pow10((k - 1) as nat) * 10 + n % 10);
        // n % (10 * p) == ((n / 10) % p) * 10 + n % 10
        let p = pow10((k - 1) as nat) as int;
        let ni = n as int;
        assert(ni % (10 * p) == ((ni / 10) % p) * 10 + ni % 10) by {
            lemma_fundamental_div_mod(ni, 10);
            lemma_fundamental_div_mod(ni / 10, p);
            let q = (ni / 10) / p;
            assert(ni == q * (10 * p) + (((ni / 10) % p) * 10 + ni % 10)) by (nonlinear_arith)
                requires
                    ni == 10 * (ni / 10) + ni % 10,
                    ni / 10 == p * q + (ni / 10) % p,
            ;
            assert(0 <= ((ni / 10) % p) * 10 + ni % 10 < 10 * p) by (nonlinear_arith)
                requires
                    0 <= (ni / 10) % p < p,
                    0 <= ni % 10 < 10,
                    p >= 1,
            ;
            lemma_fundamental_div_mod_converse(
                ni,
                10 * p,
                q,
                ((ni / 10) % p) * 10 + ni % 10,
            );
        }
    }
}

/// A satoshi amount as a BTC string: the whole-coin part, a dot, then the
/// satoshi remainder as exactly eight digits.
pub open spec fn spec_btc_string(sats: u64) -> Seq<char> {
    spec_dec((sats / SATS_PER_COIN) as nat) + seq!['.'] + spec_dec_fixed(
        (sats % SATS_PER_COIN) as nat,
        8,
    )
}

/// The first dot of a string, or its length when there is none.
pub open spec fn dot_pos(s: Seq<char>) -> int
    decreases s.len(),
{
    if s.len() == 0 {
        0
    } else if s[0] == '.' {
        0
    } else {
        1 + dot_pos(s.skip(1))
    }
}

proof fn lemma_dot_pos(s: Seq<char>)
    ensures
        0 <= dot_pos(s) <= s.len(),
        forall|j: int| 0 <= j < dot_pos(s) ==> s[j] != '.',
        dot_pos(s) < s.len() ==> s[dot_pos(s)] == '.',
    decreases s.len(),
{
    if s.len() == 0 {
    } else if s[0] == '.' {
    } else {
        lemma_dot_pos(s.skip(1));
        let r = dot_pos(s);
        assert forall|j: int| 0 <= j < r implies s[j] != '.' by {
            if j >= 1 {
                assert(s[j] == s.skip(1)[j - 1]);
            }
        }
        if r < s.len() {
            assert(s[r] == s.skip(1)[r - 1]);
        }
    }
}

pub open spec fn all_digits(s: Seq<char>) -> bool {
    forall|i: int| 0 <= i < s.len() ==> is_digit(#[trigger] s[i])
}

/// Parse a decimal-BTC string with eight places: digits, one dot, eight
/// digits, value within range.
pub open spec fn spec_parse_btc(s: Seq<char>) -> Option<u64> {
    let p = dot_pos(s);
    if 1 <= p && p < s.len() && s.len() == p + 9 && all_digits(s.take(p)) && all_digits(
        s.skip(p + 1),
    ) {
        let v = dec_val(s.take(p)) * (SATS_PER_COIN as nat) + dec_val(s.skip(p + 1));
        if v <= u64::MAX {
            Some(v as u64)
        } else {
            None
        }
    } else {
        None
    }
}

/// Rendering a satoshi amount as BTC and parsing it back is the identity.
pub proof fn lemma_btc_round_trip(sats: u64)
    ensures
        spec_parse_btc(spec_btc_string(sats)) == Some(sats),
{
    let whole = (sats / SATS_PER_COIN) as nat;
    let frac = (sats % SATS_PER_COIN) as nat;
    let w = spec_dec(whole);
    let f = spec_dec_fixed(frac, 8);
    let s = spec_btc_string(sats);
    lemma_dec_digits(whole);
    assert(f.len() == 8);
    assert(s.len() == w.len() + 9);
    // The dot sits right after the whole part.
    lemma_dot_pos(s);
    assert(s[w.len() as int] == '.');
    assert forall|j: int| 0 <= j < w.len() implies s[j] != '.' by {
        assert(s[j] == w[j]);
        assert(is_digit(w[j]));
    }
    let p = dot_pos(s);
    assert(p <= w.len()) by {
        if p > w.len() {
            assert(s[w.len() as int] != '.');
        }
    }
    assert(p >= w.len()) by {
        if p < w.len() {
            assert(s[p] == '.');
            assert(s[p] != '.');
        }
    }
    assert(p == w.len());
    assert(s.take(p) =~= w);
    assert(s.skip(p + 1) =~= f);
    assert(all_digits(w));
    assert(all_digits(f)) by {
        assert forall|i: int| 0 <= i < f.len() implies is_digit(#[trigger] f[i]) by {
            let d = (frac / pow10((7 - i) as nat)) % 10;
            assert(0 <= d < 10);
        }
    }
    lemma_dec_val(whole);
    lemma_dec_fixed_val(frac, 8);
    assert(pow10(8) == 100_000_000) by {
        lemma_pow10_vals();
    }
    assert(frac < 100_000_000);
    assert(frac % 100_000_000 == frac) by {
        lemma_fundamental_div_mod_converse(frac as int, 100_000_000, 0, frac as int);
    }
    assert(dec_val(w) == whole && dec_val(f) == frac);
    assert(whole * (SATS_PER_COIN as nat) + frac == sats) by {
        lemma_fundamental_div_mod(sats as int, SATS_PER_COIN as int);
    }
}

/// The balance a caller reads adds up: the total amount string parses to
/// exactly the sum of what the confirmed and pending strings parse to.
pub proof fn lemma_balance_round_trip(confirm_sats: u64, pending_sats: u64)
    requires
        confirm_sats + pending_sats <= u64::MAX,
    ensures
        spec_parse_btc(spec_btc_string((confirm_sats + pending_sats) as u64)) == Some(
            (confirm_sats + pending_sats) as u64,
        ),
        spec_parse_btc(spec_btc_string(confirm_sats)) == Some(confirm_sats),
        spec_parse_btc(spec_btc_string(pending_sats)) == Some(pending_sats),
{
    lemma_btc_round_trip((confirm_sats + pending_sats) as u64);
    lemma_btc_round_trip(confirm_sats);
    lemma_btc_round_trip(pending_sats);
}

pub fn digit_str(d: u64) -> (r: &'static str)
    requires
        d < 10,
    ensures
        r@ == seq![digit_char(d as int)],
{
    let r: &'static str = if d == 0 {
        "0"
    } else if d == 1 {
        "1"
    } else if d == 2 {
        "2"
    } else if d == 3 {
        "3"
    } else if d == 4 {
        "4"
    } else if d == 5 {
        "5"
    } else if d == 6 {
        "6"
    } else if d == 7 {
        "7"
    } else if d == 8 {
        "8"
    } else {
        "9"
    };
    proof {
        reveal_strlit("0");
        reveal_strlit("1");
        reveal_strlit("2");
        reveal_strlit("3");
        reveal_strlit("4");
        reveal_strlit("5");
        reveal_strlit("6");
        reveal_strlit("7");
        reveal_strlit("8");
        reveal_strlit("9");
        assert(r@ =~= seq![digit_char(d as int)]);
    }
    r
}

/// Render an integer in decimal.
pub fn u64_to_dec(n: u64) -> (r: String)
    ensures
        r@ == spec_dec(n as nat),
{
    let mut digits: Vec<u64> = Vec::new();
    let mut m = n;
    // Digits of `n`, least significant first.
    while m >= 10
        invariant
            spec_dec(n as nat) == spec_dec(m as nat) + Seq::new(
                digits@.len(),
                |i: int| digit_char(digits@[digits@.len() - 1 - i] as int),
            ),
            forall|i: int| 0 <= i < digits@.len() ==> digits@[i] < 10,
        decreases m,
    {
        let ghost pre = digits@;
        let d = m % 10;
        digits.push(d);
        m = m / 10;
        proof {
            assert(spec_dec((m * 10 + d) as nat) == spec_dec(m as nat) + seq![
                digit_char(d as int),
            ]) by {
                lemma_fundamental_div_mod_converse(
                    (m * 10 + d) as int,
                    10,
                    m as int,
                    d as int,
                );
            }
            assert(seq![digit_char(d as int)] + Seq::new(
                pre.len(),
                |i: int| digit_char(pre[pre.len() - 1 - i] as int),
            ) =~= Seq::new(
                digits@.len(),
                |i: int| digit_char(digits@[digits@.len() - 1 - i] as int),
            ));
        }
    }
    let mut r = String::new();
    r.append(digit_str(m));
    proof {
        assert(r@ =~= spec_dec(m as nat));
    }
    let ghost total = spec_dec(n as nat);
    let mut i: usize = digits.len();
    while i > 0
        invariant
            i <= digits@.len(),
            forall|k: int| 0 <= k < digits@.len() ==> digits@[k] < 10,
            total == spec_dec(n as nat),
            total == r@ + Seq::new(
                i as nat,
                |k: int| digit_char(digits@[i - 1 - k] as int),
            ),
        decreases i,
    {
        i = i - 1;
        let ghost prev = r@;
        r.append(digit_str(digits[i]));
        proof {
            assert(prev + Seq::new(
                (i + 1) as nat,
                |k: int| digit_char(digits@[i + 1 - 1 - k] as int),
            ) =~= r@ + Seq::new(i as nat, |k: int| digit_char(digits@[i - 1 - k] as int)));
        }
    }
    proof {
        assert(total =~= r@ + Seq::new(0, |k: int| digit_char(digits@[i - 1 - k] as int)));
        assert(r@ =~= total);
    }
    r
}

/// Render a u32 in decimal.
pub fn u32_to_dec(n: u32) -> (r: String)
    ensures
        r@ == spec_dec(n as nat),
{
    u64_to_dec(n as u64)
}

/// Render a usize in decimal.
pub fn usize_to_dec(n: usize) -> (r: String)
    ensures
        r@ == spec_dec(n as nat),
{
    u64_to_dec(n as u64)
}

/// Render a satoshi amount as a BTC string with eight decimal places.
pub fn btc_string(sats: u64) -> (r: String)
    ensures
        r@ == spec_btc_string(sats),
{
    let mut r = u64_to_dec(sats / SATS_PER_COIN);
    r.append(".");
    proof {
        reveal_strlit(".");
        assert(r@ =~= spec_dec((sats / SATS_PER_COIN) as nat) + seq!['.']);
    }
    let frac = sats % SATS_PER_COIN;
    let ghost head = r@;
    let mut k: usize = 0;
    let mut div: u64 = 10_000_000;
    proof {
        lemma_pow10_vals();
        assert(spec_dec_fixed((sats % SATS_PER_COIN) as nat, 8).take(0)
            =~= Seq::<char>::empty());
        assert(r@ =~= head + spec_dec_fixed((sats % SATS_PER_COIN) as nat, 8).take(0));
    }
    while k < 8
        invariant
            k <= 8,
            head == spec_dec((sats / SATS_PER_COIN) as nat) + seq!['.'],
            r@ == head + spec_dec_fixed((sats % SATS_PER_COIN) as nat, 8).take(k as int),
            frac == sats % SATS_PER_COIN,
            k < 8 ==> div as nat == pow10((7 - k) as nat),
            div >= 1,
        decreases 8 - k,
    {
        let ghost prev = r@;
        let d = (frac / div) % 10;
        r.append(digit_str(d));
        proof {
            lemma_pow10_vals();
            assert(spec_dec_fixed((sats % SATS_PER_COIN) as nat, 8)[k as int] == digit_char(
                d as int,
            ));
            assert(prev + seq![digit_char(d as int)] =~= head + spec_dec_fixed(
                (sats % SATS_PER_COIN) as nat,
                8,
            ).take(k + 1));
        }
        k = k + 1;
        if k < 8 {
            proof {
                assert(7 - (k - 1) >= 1);
                assert(pow10((7 - (k - 1)) as nat) == 10 * pow10((7 - k) as nat));
                lemma_pow10_pos((7 - k) as nat);
                assert((10 * pow10((7 - k) as nat)) / 10 == pow10((7 - k) as nat) as int) by {
                    vstd::arithmetic::div_mod::lemma_div_multiples_vanish(
                        pow10((7 - k) as nat) as int,
                        10,
                    );
                }
            }
            div = div / 10;
        }
    }
    proof {
        assert(spec_dec_fixed((sats % SATS_PER_COIN) as nat, 8).take(8) =~= spec_dec_fixed(
            (sats % SATS_PER_COIN) as nat,
            8,
        ));
    }
    r
}

} // verus!
