//! Verified numeric parsing over ASCII bytes: unsigned decimal integers as
//! the standard library accepts them (an optional leading plus, then
//! digits), and the decimal-number shape used to validate rate parameters.

use vstd::prelude::*;

verus! {

pub open spec fn is_ascii_digit(b: u8) -> bool {
    48 <= b <= 57
}

/// The value of an all-digit byte string, most significant digit first.
pub open spec fn digits_val(s: Seq<u8>) -> nat
    decreases s.len(),
{
    if s.len() == 0 {
        0
    } else {
        digits_val(s.drop_last()) * 10 + (if is_ascii_digit(s.last()) {
            (s.last() - 48) as nat
        } else {
            0
        })
    }
}

pub open spec fn all_ascii_digits(s: Seq<u8>) -> bool {
    forall|i: int| 0 <= i < s.len() ==> is_ascii_digit(#[trigger] s[i])
}

/// What `str::parse::<u64>` accepts of an ASCII byte string: an optional
/// leading plus, then at least one digit, with the value in range.
pub open spec fn spec_parse_u64(s: Seq<u8>) -> Option<u64> {
    let t = if s.len() > 0 && s[0] == 43 {
        s.skip(1)
    } else {
        s
    };
    if t.len() >= 1 && all_ascii_digits(t) && digits_val(t) <= u64::MAX {
        Some(digits_val(t) as u64)
    } else {
        None
    }
}

/// A longer digit prefix never has a smaller value.
proof fn lemma_digits_val_mono(s: Seq<u8>, i: int)
    requires
        0 <= i <= s.len(),
    ensures
        digits_val(s) >= digits_val(s.take(i)),
    decreases s.len() - i,
{
    if i == s.len() {
        assert(s.take(i) =~= s);
    } else {
        lemma_digits_val_mono(s, i + 1);
        let t = s.take(i + 1);
        assert(t.drop_last() =~= s.take(i));
        assert(digits_val(t) >= digits_val(s.take(i))) by {
            assert(digits_val(t) == digits_val(s.take(i)) * 10 + (if is_ascii_digit(t.last()) {
                (t.last() - 48) as nat
            } else {
                0
            }));
        }
    }
}

/// Parse the digit run of `s` starting at `from`, which must reach the end.
fn parse_digits(s: &Vec<u8>, from: usize) -> (r: Option<u64>)
    requires
        from <= s@.len(),
    ensures
        ({
            let t = s@.skip(from as int);
            match r {
                Some(v) => t.len() >= 1 && all_ascii_digits(t) && digits_val(t) == v,
                None => !(t.len() >= 1 && all_ascii_digits(t) && digits_val(t) <= u64::MAX),
            }
        }),
{
    let ghost t = s@.skip(from as int);
    let n = s.len();
    if from >= n {
        return None;
    }
    let mut acc: u64 = 0;
    let mut i: usize = from;
    while i < n
        invariant
            from <= i <= n,
            n == s@.len(),
            t == s@.skip(from as int),
            acc as nat == digits_val(t.take(i - from)),
            all_ascii_digits(t.take(i - from)),
        decreases n - i,
    {
        let b = s[i];
        if b < 48 || b > 57 {
            proof {
                assert(t[i - from] == s@[i as int]);
                assert(!all_ascii_digits(t)) by {
                    assert(!is_ascii_digit(t[i - from]));
                }
            }
            return None;
        }
        let d = (b - 48) as u64;
        if acc > (u64::MAX - d) / 10 {
            proof {
                assert(t.take(i - from + 1).drop_last() =~= t.take(i - from));
                assert(t.take(i - from + 1).last() == t[i - from]);
                assert(t[i - from] == s@[i as int]);
                assert(digits_val(t.take(i - from + 1)) == (acc as nat) * 10 + d);
                let m = (u64::MAX - d) as int;
                vstd::arithmetic::div_mod::lemma_fundamental_div_mod(m, 10);
                let qq = m / 10;
                assert((acc as nat) * 10 + d > u64::MAX) by (nonlinear_arith)
                    requires
                        acc as int > qq,
                        qq >= 0,
                        acc >= 0,
                        0 <= d <= 9,
                        m == 10 * qq + m % 10,
                        0 <= m % 10 < 10,
                        m == u64::MAX - d,
                ;
                lemma_digits_val_mono(t, i - from + 1);
            }
            return None;
        }
        acc = acc * 10 + d;
        proof {
            assert(t.take(i - from + 1).drop_last() =~= t.take(i - from));
            assert(t.take(i - from + 1).last() == t[i - from]);
            assert(t[i - from] == s@[i as int]);
            assert(all_ascii_digits(t.take(i - from + 1))) by {
                assert(forall|k: int|
                    0 <= k < i - from + 1 ==> #[trigger] t.take(i - from + 1)[k] == t.take(
                        i - from + 1,
                    )[k]);
                assert forall|k: int| 0 <= k < i - from + 1 implies is_ascii_digit(
                    #[trigger] t.take(i - from + 1)[k],
                ) by {
                    if k < i - from {
                        assert(t.take(i - from + 1)[k] == t.take(i - from)[k]);
                    } else {
                        assert(t.take(i - from + 1)[k] == t[i - from]);
                    }
                }
            }
        }
        i = i + 1;
    }
    proof {
        assert(t.take(i - from) =~= t);
    }
    Some(acc)
}

/// Parse an unsigned decimal as `str::parse::<u64>` would.
pub fn parse_u64(s: &Vec<u8>) -> (r: Option<u64>)
    ensures
        r == spec_parse_u64(s@),
{
    let from: usize = if s.len() > 0 && s[0] == 43 {
        1
    } else {
        0
    };
    proof {
        if !(s@.len() > 0 && s@[0] == 43) {
            assert(s@.skip(0) =~= s@);
        }
    }
    parse_digits(s, from)
}

/// Parse an unsigned decimal that must also fit a u32.
pub fn parse_u32(s: &Vec<u8>) -> (r: Option<u32>)
    ensures
        ({
            match spec_parse_u64(s@) {
                Some(v) => if v <= u32::MAX {
                    r == Some(v as u32)
                } else {
                    r is None
                },
                None => r is None,
            }
        }),
{
    match parse_u64(s) {
        Some(v) => {
            if v <= 0xffff_ffff {
                Some(v as u32)
            } else {
                None
            }
        },
        None => None,
    }
}

/// Parse an unsigned decimal that must also fit a usize.
pub fn parse_usize(s: &Vec<u8>) -> (r: Option<usize>)
    ensures
        ({
            match spec_parse_u64(s@) {
                Some(v) => if v <= usize::MAX {
                    r == Some(v as usize)
                } else {
                    r is None
                },
                None => r is None,
            }
        }),
{
    match parse_u64(s) {
        Some(v) => {
            if v <= usize::MAX as u64 {
                Some(v as usize)
            } else {
                None
            }
        },
        None => None,
    }
}

/// Parse an unsigned decimal that must also fit a u16.
pub fn parse_u16(s: &Vec<u8>) -> (r: Option<u16>)
    ensures
        ({
            match spec_parse_u64(s@) {
                Some(v) => if v <= u16::MAX {
                    r == Some(v as u16)
                } else {
                    r is None
                },
                None => r is None,
            }
        }),
{
    match parse_u64(s) {
        Some(v) => {
            if v <= 0xffff {
                Some(v as u16)
            } else {
                None
            }
        },
        None => None,
    }
}

/// The plain decimal-number shape: an optional sign, at least one digit,
/// and at most one dot with digits on both sides.
pub open spec fn spec_is_decimal(s: Seq<u8>) -> bool {
    let t = if s.len() > 0 && (s[0] == 43 || s[0] == 45) {
        s.skip(1)
    } else {
        s
    };
    let p = byte_dot_pos(t);
    if p == t.len() {
        t.len() >= 1 && all_ascii_digits(t)
    } else {
        p >= 1 && t.len() - p - 1 >= 1 && all_ascii_digits(t.take(p)) && all_ascii_digits(
            t.skip(p + 1),
        )
    }
}

/// The first dot of a byte string, or its length when there is none.
pub open spec fn byte_dot_pos(s: Seq<u8>) -> int
    decreases s.len(),
{
    if s.len() == 0 {
        0
    } else if s[0] == 46 {
        0
    } else {
        1 + byte_dot_pos(s.skip(1))
    }
}

proof fn lemma_byte_dot_pos(s: Seq<u8>)
    ensures
        0 <= byte_dot_pos(s) <= s.len(),
        forall|j: int| 0 <= j < byte_dot_pos(s) ==> s[j] != 46,
        byte_dot_pos(s) < s.len() ==> s[byte_dot_pos(s)] == 46,
    decreases s.len(),
{
    if s.len() == 0 {
    } else if s[0] == 46 {
    } else {
        lemma_byte_dot_pos(s.skip(1));
        assert forall|j: int| 0 <= j < byte_dot_pos(s) implies s[j] != 46 by {
            if j >= 1 {
                assert(s[j] == s.skip(1)[j - 1]);
            }
        }
        if byte_dot_pos(s) < s.len() {
            assert(s[byte_dot_pos(s)] == s.skip(1)[byte_dot_pos(s) - 1]);
        }
    }
}

fn digits_only(s: &Vec<u8>, from: usize, to: usize) -> (r: bool)
    requires
        from <= to <= s@.len(),
    ensures
        r == all_ascii_digits(s@.subrange(from as int, to as int)),
{
    let mut i: usize = from;
    while i < to
        invariant
            from <= i <= to <= s@.len(),
            forall|j: int| from <= j < i ==> is_ascii_digit(#[trigger] s@[j]),
        decreases to - i,
    {
        let b = s[i];
        if b < 48 || b > 57 {
            proof {
                assert(s@.subrange(from as int, to as int)[i - from] == s@[i as int]);
            }
            return false;
        }
        i = i + 1;
    }
    proof {
        assert forall|j: int|
            0 <= j < to - from implies is_ascii_digit(
            #[trigger] s@.subrange(from as int, to as int)[j],
        ) by {
            assert(s@.subrange(from as int, to as int)[j] == s@[from + j]);
        }
    }
    true
}

/// Check the decimal-number shape (used to validate rate parameters).
pub fn is_decimal_number(s: &Vec<u8>) -> (r: bool)
    ensures
        r == spec_is_decimal(s@),
{
    let n = s.len();
    let from: usize = if n > 0 && (s[0] == 43 || s[0] == 45) {
        1
    } else {
        0
    };
    let ghost t = if s@.len() > 0 && (s@[0] == 43 || s@[0] == 45) {
        s@.skip(1)
    } else {
        s@
    };
    proof {
        if from == 0 {
            assert(s@.skip(0) =~= s@);
        }
    }
    // Find the first dot in t.
    let mut p: usize = from;
    while p < n && s[p] != 46
        invariant
            from <= p <= n,
            n == s@.len(),
            t == s@.skip(from as int),
            forall|j: int| 0 <= j < p - from ==> t[j] != 46,
        decreases n - p,
    {
        proof {
            assert(t[p - from] == s@[p as int]);
        }
        p = p + 1;
    }
    proof {
        lemma_byte_dot_pos(t);
        let d = byte_dot_pos(t);
        if p < n {
            assert(t[p - from] == s@[p as int]);
        }
        if d < p - from {
            assert(t[d] != 46);
        }
        if (p - from) < d {
            assert(t[p - from] != 46);
        }
        assert(d == p - from);
    }
    if p == n {
        let r = n - from >= 1 && digits_only(s, from, n);
        proof {
            assert(s@.subrange(from as int, n as int) =~= t);
        }
        r
    } else {
        let r = (p - from >= 1) && (n - p - 1 >= 1) && digits_only(s, from, p) && digits_only(
            s,
            p + 1,
            n,
        );
        proof {
            assert(s@.subrange(from as int, p as int) =~= t.take(p - from));
            assert(s@.subrange(p + 1, n as int) =~= t.skip(p - from + 1));
        }
        r
    }
}


pub open spec fn hex_val_b(b: u8) -> int {
    if 48 <= b <= 57 {
        b - 48
    } else if 97 <= b <= 102 {
        b - 87
    } else if 65 <= b <= 70 {
        b - 55
    } else {
        -1
    }
}

pub open spec fn is_hex_b(b: u8) -> bool {
    hex_val_b(b) >= 0
}

pub open spec fn all_hex_b(s: Seq<u8>) -> bool {
    forall|i: int| 0 <= i < s.len() ==> is_hex_b(#[trigger] s[i])
}

/// The bytes an even run of hex digits denotes, one per digit pair.
pub open spec fn spec_unhex_b(s: Seq<u8>) -> Seq<u8> {
    Seq::new(s.len() / 2, |i: int| (hex_val_b(s[2 * i]) * 16 + hex_val_b(s[2 * i + 1])) as u8)
}

fn hex_val_byte(b: u8) -> (r: i16)
    ensures
        r == hex_val_b(b),
{
    if 48 <= b && b <= 57 {
        (b - 48) as i16
    } else if 97 <= b && b <= 102 {
        (b - 87) as i16
    } else if 65 <= b && b <= 70 {
        (b - 55) as i16
    } else {
        -1
    }
}

/// Decode a hex byte string: even length, hex digits only.
pub fn hex_decode_bytes(s: &Vec<u8>) -> (r: Option<Vec<u8>>)
    ensures
        r is Some <==> (s@.len() % 2 == 0 && all_hex_b(s@)),
        match r {
            Some(v) => v@ == spec_unhex_b(s@),
            None => true,
        },
{
    let n = s.len();
    if n % 2 != 0 {
        return None;
    }
    let mut out: Vec<u8> = Vec::new();
    let mut i: usize = 0;
    while i < n
        invariant
            i <= n,
            i % 2 == 0,
            n % 2 == 0,
            n == s@.len(),
            out@.len() == i / 2,
            forall|j: int| 0 <= j < i ==> is_hex_b(#[trigger] s@[j]),
            forall|k: int| 0 <= k < out@.len() ==> out@[k] == spec_unhex_b(s@)[k],
        decreases n - i,
    {
        let hi = hex_val_byte(s[i]);
        let lo = hex_val_byte(s[i + 1]);
        if hi < 0 || lo < 0 {
            proof {
                if hi < 0 {
                    assert(!is_hex_b(s@[i as int]));
                } else {
                    assert(!is_hex_b(s@[i + 1]));
                }
            }
            return None;
        }
        out.push((hi * 16 + lo) as u8);
        proof {
            assert(out@[out@.len() - 1] == spec_unhex_b(s@)[(i as int) / 2]);
        }
        i = i + 2;
    }
    proof {
        assert(out@ =~= spec_unhex_b(s@));
    }
    Some(out)
}

/// Split a byte string at a separator byte; `n` separators give `n + 1`
/// pieces.
pub open spec fn spec_split(s: Seq<u8>, sep: u8) -> Seq<Seq<u8>>
    decreases s.len(),
{
    let p = first_sep(s, sep);
    if 0 <= p && p < s.len() {
        seq![s.take(p)] + spec_split(s.skip(p + 1), sep)
    } else {
        seq![s]
    }
}

/// The first separator position, or the length when there is none.
pub open spec fn first_sep(s: Seq<u8>, sep: u8) -> int
    decreases s.len(),
{
    if s.len() == 0 {
        0
    } else if s[0] == sep {
        0
    } else {
        1 + first_sep(s.skip(1), sep)
    }
}

pub proof fn lemma_first_sep(s: Seq<u8>, sep: u8)
    ensures
        0 <= first_sep(s, sep) <= s.len(),
        forall|j: int| 0 <= j < first_sep(s, sep) ==> s[j] != sep,
        first_sep(s, sep) < s.len() ==> s[first_sep(s, sep)] == sep,
    decreases s.len(),
{
    if s.len() == 0 {
    } else if s[0] == sep {
    } else {
        lemma_first_sep(s.skip(1), sep);
        assert forall|j: int| 0 <= j < first_sep(s, sep) implies s[j] != sep by {
            if j >= 1 {
                assert(s[j] == s.skip(1)[j - 1]);
            }
        }
        if first_sep(s, sep) < s.len() {
            assert(s[first_sep(s, sep)] == s.skip(1)[first_sep(s, sep) - 1]);
        }
    }
}

/// Every split has at least one piece.
pub proof fn lemma_split_len(s: Seq<u8>, sep: u8)
    ensures
        spec_split(s, sep).len() >= 1,
{
    lemma_first_sep(s, sep);
}

/// Prepending a prefix to the first piece.
pub open spec fn glue(prefix: Seq<u8>, parts: Seq<Seq<u8>>) -> Seq<Seq<u8>> {
    seq![prefix + parts[0]] + parts.skip(1)
}

/// Splitting after a non-separator head folds the head into the first
/// piece.
proof fn lemma_split_cons(s: Seq<u8>, sep: u8)
    requires
        s.len() > 0,
        s[0] != sep,
    ensures
        spec_split(s, sep) == glue(seq![s[0]], spec_split(s.skip(1), sep)),
{
    lemma_first_sep(s, sep);
    lemma_first_sep(s.skip(1), sep);
    lemma_split_len(s.skip(1), sep);
    let p = first_sep(s, sep);
    let p1 = first_sep(s.skip(1), sep);
    assert(p == 1 + p1);
    let rest = spec_split(s.skip(1), sep);
    if p == s.len() {
        assert(rest == seq![s.skip(1)]);
        assert(seq![s[0]] + s.skip(1) =~= s);
        assert(spec_split(s, sep) == seq![s]);
        assert(glue(seq![s[0]], rest) =~= seq![s]);
    } else {
        assert(spec_split(s, sep) == seq![s.take(p)] + spec_split(s.skip(p + 1), sep));
        assert(rest == seq![s.skip(1).take(p1)] + spec_split(s.skip(1).skip(p1 + 1), sep));
        assert(seq![s[0]] + s.skip(1).take(p1) =~= s.take(p));
        assert(s.skip(1).skip(p1 + 1) =~= s.skip(p + 1));
        assert(glue(seq![s[0]], rest) =~= spec_split(s, sep));
    }
}

/// Split a byte vector at a separator byte.
pub fn split_bytes(s: &Vec<u8>, sep: u8) -> (r: Vec<Vec<u8>>)
    ensures
        r@.map_values(|p: Vec<u8>| p@) == spec_split(s@, sep),
{
    let n = s.len();
    let ghost whole = s@;
    let mut pieces: Vec<Vec<u8>> = Vec::new();
    let mut cur: Vec<u8> = Vec::new();
    let mut i: usize = 0;
    proof {
        lemma_split_len(whole, sep);
        assert(whole.skip(0) =~= whole);
        assert(Seq::<u8>::empty() + spec_split(whole, sep)[0] =~= spec_split(whole, sep)[0]);
        assert(glue(Seq::<u8>::empty(), spec_split(whole, sep)) =~= spec_split(whole, sep));
        assert(pieces@.map_values(|p: Vec<u8>| p@) + glue(cur@, spec_split(whole, sep)) =~= glue(
            Seq::<u8>::empty(),
            spec_split(whole, sep),
        ));
    }
    while i < n
        invariant
            i <= n,
            n == s@.len(),
            whole == s@,
            spec_split(whole, sep) == pieces@.map_values(|p: Vec<u8>| p@) + glue(
                cur@,
                spec_split(whole.skip(i as int), sep),
            ),
        decreases n - i,
    {
        let ghost rest = whole.skip(i as int);
        let ghost sp1 = spec_split(whole.skip(i + 1), sep);
        let ghost pmap = pieces@.map_values(|p: Vec<u8>| p@);
        let ghost oldcur = cur@;
        proof {
            assert(rest[0] == whole[i as int]);
            assert(rest.skip(1) =~= whole.skip(i + 1));
            lemma_split_len(whole.skip(i + 1), sep);
            lemma_split_len(rest, sep);
            lemma_first_sep(rest, sep);
        }
        let b = s[i];
        if b == sep {
            pieces.push(cur);
            cur = Vec::new();
            proof {
                let sp = spec_split(rest, sep);
                assert(first_sep(rest, sep) == 0);
                assert(sp == seq![rest.take(0)] + sp1);
                assert(rest.take(0) =~= Seq::<u8>::empty());
                assert(glue(oldcur, sp) =~= seq![oldcur] + sp1) by {
                    assert(glue(oldcur, sp)[0] == oldcur + sp[0]);
                    assert(sp[0] == rest.take(0));
                    assert(oldcur + rest.take(0) =~= oldcur);
                    assert(sp.skip(1) =~= sp1);
                    assert forall|k: int|
                        0 <= k < glue(oldcur, sp).len() implies glue(oldcur, sp)[k] == (
                    seq![oldcur] + sp1)[k] by {
                        if k >= 1 {
                            assert(glue(oldcur, sp)[k] == sp.skip(1)[k - 1]);
                        }
                    }
                }
                assert(glue(cur@, sp1) =~= sp1) by {
                    assert(Seq::<u8>::empty() + sp1[0] =~= sp1[0]);
                    assert forall|k: int|
                        0 <= k < glue(cur@, sp1).len() implies glue(cur@, sp1)[k] == sp1[k] by {
                        if k >= 1 {
                            assert(glue(cur@, sp1)[k] == sp1.skip(1)[k - 1]);
                        }
                    }
                }
                assert(pieces@.map_values(|p: Vec<u8>| p@) =~= pmap + seq![oldcur]);
                assert(pieces@.map_values(|p: Vec<u8>| p@) + glue(
                    cur@,
                    spec_split(whole.skip(i + 1), sep),
                ) =~= pmap + glue(oldcur, sp));
            }
        } else {
            cur.push(b);
            proof {
                lemma_split_cons(rest, sep);
                let inner = glue(seq![rest[0]], sp1);
                assert(glue(oldcur, inner) =~= glue(cur@, sp1)) by {
                    assert(inner[0] == seq![rest[0]] + sp1[0]);
                    assert(inner.skip(1) =~= sp1.skip(1));
                    assert(glue(oldcur, inner)[0] == oldcur + inner[0]);
                    assert(oldcur + (seq![rest[0]] + sp1[0]) =~= cur@ + sp1[0]);
                    assert forall|k: int|
                        0 <= k < glue(oldcur, inner).len() implies glue(oldcur, inner)[k] == glue(
                        cur@,
                        sp1,
                    )[k] by {
                        if k >= 1 {
                            assert(glue(oldcur, inner)[k] == inner.skip(1)[k - 1]);
                            assert(glue(cur@, sp1)[k] == sp1.skip(1)[k - 1]);
                        }
                    }
                }
            }
        }
        i = i + 1;
    }
    pieces.push(cur);
    proof {
        assert(whole.skip(n as int) =~= Seq::<u8>::empty());
        let spe = spec_split(whole.skip(n as int), sep);
        assert(first_sep(Seq::<u8>::empty(), sep) == 0);
        assert(spe == seq![Seq::<u8>::empty()]);
        assert(pieces@.map_values(|p: Vec<u8>| p@) =~= spec_split(whole, sep));
    }
    pieces
}

} // verus!
