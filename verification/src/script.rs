//! Script-pubkey classification over raw script bytes: the standard output
//! templates, spendability policy, and extraction of the last push of a
//! script (the redeem script of a P2SH input).

use vstd::prelude::*;

verus! {

/// The recognized script-pubkey shapes, in classification order.
#[derive(Clone, Copy, PartialEq, Eq, Structural, Debug)]
pub enum ScriptType {
    Empty,
    OpReturn,
    P2pk,
    P2pkh,
    P2sh,
    V0P2wpkh,
    V0P2wsh,
    V1P2tr,
    ProvablyUnspendable,
    Unknown,
}

pub open spec fn is_op_return(s: Seq<u8>) -> bool {
    s.len() > 0 && s[0] == 0x6au8
}

/// A push of 65 or 33 public-key bytes followed by OP_CHECKSIG.
pub open spec fn is_p2pk(s: Seq<u8>) -> bool {
    ||| (s.len() == 67 && s[0] == 0x41u8 && s[66] == 0xacu8)
    ||| (s.len() == 35 && s[0] == 0x21u8 && s[34] == 0xacu8)
}

/// OP_DUP OP_HASH160 <20 bytes> OP_EQUALVERIFY OP_CHECKSIG.
pub open spec fn is_p2pkh(s: Seq<u8>) -> bool {
    s.len() == 25 && s[0] == 0x76u8 && s[1] == 0xa9u8 && s[2] == 0x14u8 && s[23] == 0x88u8 && s[24]
        == 0xacu8
}

/// OP_HASH160 <20 bytes> OP_EQUAL.
pub open spec fn is_p2sh(s: Seq<u8>) -> bool {
    s.len() == 23 && s[0] == 0xa9u8 && s[1] == 0x14u8 && s[22] == 0x87u8
}

/// Witness v0 with a 20-byte program.
pub open spec fn is_p2wpkh(s: Seq<u8>) -> bool {
    s.len() == 22 && s[0] == 0x00u8 && s[1] == 0x14u8
}

/// Witness v0 with a 32-byte program.
pub open spec fn is_p2wsh(s: Seq<u8>) -> bool {
    s.len() == 34 && s[0] == 0x00u8 && s[1] == 0x20u8
}

/// Witness v1 with a 32-byte program.
pub open spec fn is_p2tr(s: Seq<u8>) -> bool {
    s.len() == 34 && s[0] == 0x51u8 && s[1] == 0x20u8
}

/// The first opcode makes the script fail or return under legacy rules:
/// OP_RETURN, the reserved opcodes, the disabled ones, or anything at or
/// above OP_CHECKSIGADD.
pub open spec fn unspendable_opcode(b: u8) -> bool {
    ||| b == 0x6au8  // OP_RETURN
    ||| b == 0x50u8  // OP_RESERVED
    ||| b == 0x62u8  // OP_VER
    ||| b == 0x89u8  // OP_RESERVED1
    ||| b == 0x8au8  // OP_RESERVED2
    ||| b == 0x65u8  // OP_VERIF
    ||| b == 0x66u8  // OP_VERNOTIF
    ||| b == 0x7eu8  // OP_CAT
    ||| b == 0x7fu8  // OP_SUBSTR
    ||| b == 0x80u8  // OP_LEFT
    ||| b == 0x81u8  // OP_RIGHT
    ||| b == 0x83u8  // OP_INVERT
    ||| b == 0x84u8  // OP_AND
    ||| b == 0x85u8  // OP_OR
    ||| b == 0x86u8  // OP_XOR
    ||| b == 0x8du8  // OP_2MUL
    ||| b == 0x8eu8  // OP_2DIV
    ||| (0x95u8 <= b && b <= 0x99u8)  // OP_MUL..OP_RSHIFT
    ||| b >= 0xbau8  // OP_CHECKSIGADD and above

}

pub open spec fn is_provably_unspendable(s: Seq<u8>) -> bool {
    s.len() > 0 && unspendable_opcode(s[0])
}

/// Classification order of the presentation layer: empty, op_return, p2pk,
/// p2pkh, p2sh, v0_p2wpkh, v0_p2wsh, v1_p2tr, provably unspendable, unknown.
pub open spec fn spec_script_type(s: Seq<u8>) -> ScriptType {
    if s.len() == 0 {
        ScriptType::Empty
    } else if is_op_return(s) {
        ScriptType::OpReturn
    } else if is_p2pk(s) {
        ScriptType::P2pk
    } else if is_p2pkh(s) {
        ScriptType::P2pkh
    } else if is_p2sh(s) {
        ScriptType::P2sh
    } else if is_p2wpkh(s) {
        ScriptType::V0P2wpkh
    } else if is_p2wsh(s) {
        ScriptType::V0P2wsh
    } else if is_p2tr(s) {
        ScriptType::V1P2tr
    } else if is_provably_unspendable(s) {
        ScriptType::ProvablyUnspendable
    } else {
        ScriptType::Unknown
    }
}

/// An output is spendable by policy unless its script is empty, an
/// OP_RETURN, or provably unspendable.
pub open spec fn spec_is_spendable(s: Seq<u8>) -> bool {
    !(s.len() == 0 || is_op_return(s) || is_provably_unspendable(s))
}

fn byte_unspendable(b: u8) -> (r: bool)
    ensures
        r == unspendable_opcode(b),
{
    b == 0x6a || b == 0x50 || b == 0x62 || b == 0x89 || b == 0x8a || b == 0x65 || b == 0x66 || b
        == 0x7e || b == 0x7f || b == 0x80 || b == 0x81 || b == 0x83 || b == 0x84 || b == 0x85 || b
        == 0x86 || b == 0x8d || b == 0x8e || (0x95 <= b && b <= 0x99) || b >= 0xba
}

/// Classify a script pubkey.
pub fn script_type(s: &Vec<u8>) -> (r: ScriptType)
    ensures
        r == spec_script_type(s@),
{
    let n = s.len();
    if n == 0 {
        ScriptType::Empty
    } else if s[0] == 0x6a {
        ScriptType::OpReturn
    } else if (n == 67 && s[0] == 0x41 && s[66] == 0xac) || (n == 35 && s[0] == 0x21 && s[34]
        == 0xac) {
        ScriptType::P2pk
    } else if n == 25 && s[0] == 0x76 && s[1] == 0xa9 && s[2] == 0x14 && s[23] == 0x88 && s[24]
        == 0xac {
        ScriptType::P2pkh
    } else if n == 23 && s[0] == 0xa9 && s[1] == 0x14 && s[22] == 0x87 {
        ScriptType::P2sh
    } else if n == 22 && s[0] == 0x00 && s[1] == 0x14 {
        ScriptType::V0P2wpkh
    } else if n == 34 && s[0] == 0x00 && s[1] == 0x20 {
        ScriptType::V0P2wsh
    } else if n == 34 && s[0] == 0x51 && s[1] == 0x20 {
        ScriptType::V1P2tr
    } else if byte_unspendable(s[0]) {
        ScriptType::ProvablyUnspendable
    } else {
        ScriptType::Unknown
    }
}

/// Spendability policy for spend lookups.
pub fn is_spendable(script_pubkey: &Vec<u8>) -> (r: bool)
    ensures
        r == spec_is_spendable(script_pubkey@),
{
    let n = script_pubkey.len();
    if n == 0 {
        return false;
    }
    let b = script_pubkey[0];
    !(b == 0x6a || byte_unspendable(b))
}

/// The last data push of a script, walking pushes and opcodes from the
/// front. A truncated push ends the walk with what was seen so far.
pub open spec fn spec_last_push(s: Seq<u8>, acc: Option<Seq<u8>>) -> Option<Seq<u8>>
    decreases s.len(),
{
    if s.len() == 0 {
        acc
    } else {
        let b = s[0];
        if b <= 75 {
            if s.len() >= 1 + b {
                spec_last_push(s.skip(1 + b as int), Some(s.subrange(1, 1 + b as int)))
            } else {
                acc
            }
        } else if b == 0x4c {
            if s.len() >= 2 && s.len() >= 2 + s[1] {
                spec_last_push(s.skip(2 + s[1] as int), Some(s.subrange(2, 2 + s[1] as int)))
            } else {
                acc
            }
        } else if b == 0x4d {
            if s.len() >= 3 && s.len() >= 3 + s[1] + 256 * s[2] {
                spec_last_push(
                    s.skip(3 + s[1] + 256 * s[2]),
                    Some(s.subrange(3, 3 + s[1] + 256 * s[2])),
                )
            } else {
                acc
            }
        } else {
            spec_last_push(s.skip(1), acc)
        }
    }
}

/// Option views of optional byte vectors.
pub open spec fn opt_bytes_v(o: Option<Vec<u8>>) -> Option<Seq<u8>> {
    match o {
        Some(v) => Some(v@),
        None => None,
    }
}

/// Extract the last data push of a script.
pub fn last_push(s: &Vec<u8>) -> (r: Option<Vec<u8>>)
    ensures
        opt_bytes_v(r) == spec_last_push(s@, None),
{
    let n = s.len();
    let mut i: usize = 0;
    let mut acc: Option<Vec<u8>> = None;
    proof {
        assert(s@.skip(0) =~= s@);
    }
    while i < n
        invariant
            i <= n,
            n == s@.len(),
            spec_last_push(s@, None) == spec_last_push(s@.skip(i as int), opt_bytes_v(acc)),
        decreases n - i,
    {
        let ghost pre = s@.skip(i as int);
        proof {
            assert(pre[0] == s@[i as int]);
        }
        let b = s[i];
        if b <= 75 {
            let len = b as usize;
            if n - i >= 1 + len {
                let mut push: Vec<u8> = Vec::new();
                let mut k: usize = i + 1;
                while k < i + 1 + len
                    invariant
                        i + 1 <= k <= i + 1 + len,
                        i + 1 + len <= n == s@.len(),
                        push@ =~= s@.subrange(i + 1, k as int),
                    decreases i + 1 + len - k,
                {
                    push.push(s[k]);
                    proof {
                        assert(push@ =~= s@.subrange(i + 1, k + 1));
                    }
                    k = k + 1;
                }
                proof {
                    assert(pre.len() >= 1 + b);
                    assert(pre.skip(1 + b as int) =~= s@.skip(i + 1 + len));
                    assert(pre.subrange(1, 1 + b as int) =~= s@.subrange(i + 1, (i + 1 + len) as int));
                }
                acc = Some(push);
                i = i + 1 + len;
            } else {
                proof {
                    assert(pre.len() < 1 + b);
                }
                return acc;
            }
        } else if b == 0x4c {
            if n - i >= 2 {
                let len = s[i + 1] as usize;
                proof {
                    assert(pre[1] == s@[i + 1]);
                }
                if n - i >= 2 + len {
                    let mut push: Vec<u8> = Vec::new();
                    let mut k: usize = i + 2;
                    while k < i + 2 + len
                        invariant
                            i + 2 <= k <= i + 2 + len,
                            i + 2 + len <= n == s@.len(),
                            push@ =~= s@.subrange(i + 2, k as int),
                        decreases i + 2 + len - k,
                    {
                        push.push(s[k]);
                        proof {
                            assert(push@ =~= s@.subrange(i + 2, k + 1));
                        }
                        k = k + 1;
                    }
                    proof {
                        assert(pre.len() >= 2 + pre[1]);
                        assert(pre.skip(2 + pre[1] as int) =~= s@.skip(i + 2 + len));
                        assert(pre.subrange(2, 2 + pre[1] as int) =~= s@.subrange(
                            i + 2,
                            (i + 2 + len) as int,
                        ));
                    }
                    acc = Some(push);
                    i = i + 2 + len;
                } else {
                    return acc;
                }
            } else {
                return acc;
            }
        } else if b == 0x4d {
            if n - i >= 3 {
                let lo = s[i + 1] as usize;
                let hi = s[i + 2] as usize;
                let len = lo + 256 * hi;
                proof {
                    assert(pre[1] == s@[i + 1]);
                    assert(pre[2] == s@[i + 2]);
                }
                if n - i >= 3 + len {
                    let mut push: Vec<u8> = Vec::new();
                    let mut k: usize = i + 3;
                    while k < i + 3 + len
                        invariant
                            i + 3 <= k <= i + 3 + len,
                            i + 3 + len <= n == s@.len(),
                            push@ =~= s@.subrange(i + 3, k as int),
                        decreases i + 3 + len - k,
                    {
                        push.push(s[k]);
                        proof {
                            assert(push@ =~= s@.subrange(i + 3, k + 1));
                        }
                        k = k + 1;
                    }
                    proof {
                        assert(pre.len() >= 3 + pre[1] + 256 * pre[2]);
                        assert(pre.skip(3 + pre[1] + 256 * pre[2]) =~= s@.skip(i + 3 + len));
                        assert(pre.subrange(3, 3 + pre[1] + 256 * pre[2]) =~= s@.subrange(
                            i + 3,
                            (i + 3 + len) as int,
                        ));
                    }
                    acc = Some(push);
                    i = i + 3 + len;
                } else {
                    return acc;
                }
            } else {
                return acc;
            }
        } else {
            proof {
                assert(pre.skip(1) =~= s@.skip(i + 1));
            }
            i = i + 1;
        }
    }
    proof {
        assert(s@.skip(i as int).len() == 0);
    }
    acc
}

} // verus!
