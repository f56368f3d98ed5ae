//! JSON text assembly: string escaping, quoting, and array joining. The
//! response bodies are built as plain strings whose content the builders'
//! contracts pin character by character.

use vstd::prelude::*;

use crate::bridge::hex_digit;

verus! {

/// The JSON escape of one character: quotes and backslashes are escaped,
/// control characters take the `\u00XX` form, everything else stands.
pub open spec fn esc_char(c: char) -> Seq<char> {
    if c == '"' {
        seq!['\\', '"']
    } else if c == '\\' {
        seq!['\\', '\\']
    } else if (c as u32) < 32 {
        seq!['\\', 'u', '0', '0', hex_digit((c as u32) as int / 16), hex_digit(
            (c as u32) as int % 16,
        )]
    } else {
        seq![c]
    }
}

/// The JSON escape of a string.
pub open spec fn spec_escape(s: Seq<char>) -> Seq<char>
    decreases s.len(),
{
    if s.len() == 0 {
        Seq::empty()
    } else {
        esc_char(s[0]) + spec_escape(s.skip(1))
    }
}

/// A JSON string literal: quoted and escaped.
pub open spec fn spec_jstr(s: Seq<char>) -> Seq<char> {
    seq!['"'] + spec_escape(s) + seq!['"']
}

fn hex_digit_str(d: u32) -> (r: &'static str)
    requires
        d < 16,
    ensures
        r@ == seq![hex_digit(d as int)],
{
    let r: &'static str = if d == 0 {
        "0"
    } else if d == 1 {
        "1"
    } else if d == 2 {
        "2"
    } else if d == 3 {
        "3"
    } else if d == 4 {
        "4"
    } else if d == 5 {
        "5"
    } else if d == 6 {
        "6"
    } else if d == 7 {
        "7"
    } else if d == 8 {
        "8"
    } else if d == 9 {
        "9"
    } else if d == 10 {
        "a"
    } else if d == 11 {
        "b"
    } else if d == 12 {
        "c"
    } else if d == 13 {
        "d"
    } else if d == 14 {
        "e"
    } else {
        "f"
    };
    proof {
        reveal_strlit("0");
        reveal_strlit("1");
        reveal_strlit("2");
        reveal_strlit("3");
        reveal_strlit("4");
        reveal_strlit("5");
        reveal_strlit("6");
        reveal_strlit("7");
        reveal_strlit("8");
        reveal_strlit("9");
        reveal_strlit("a");
        reveal_strlit("b");
        reveal_strlit("c");
        reveal_strlit("d");
        reveal_strlit("e");
        reveal_strlit("f");
        assert(r@ =~= seq![hex_digit(d as int)]);
    }
    r
}

/// Append the JSON escape of `s` to `out`.
pub fn append_escaped(out: &mut String, s: &str)
    ensures
        final(out)@ == old(out)@ + spec_escape(s@),
{
    let n = s.unicode_len();
    let ghost whole = s@;
    let mut i: usize = 0;
    proof {
        assert(whole.skip(0) =~= whole);
        assert(old(out)@ + Seq::<char>::empty() =~= old(out)@);
    }
    while i < n
        invariant
            i <= n,
            n == whole.len(),
            whole == s@,
            old(out)@ + spec_escape(whole) == out@ + spec_escape(whole.skip(i as int)),
        decreases n - i,
    {
        let ghost rest = whole.skip(i as int);
        proof {
            assert(rest[0] == whole[i as int]);
            assert(rest.skip(1) =~= whole.skip(i + 1));
        }
        let c = s.get_char(i);
        if c == '"' {
            out.append("\\\"");
            proof {
                reveal_strlit("\\\"");
                assert("\\\""@ =~= esc_char(c));
            }
        } else if c == '\\' {
            out.append("\\\\");
            proof {
                reveal_strlit("\\\\");
                assert("\\\\"@ =~= esc_char(c));
            }
        } else if (c as u32) < 32 {
            let code = c as u32;
            let ghost pre = out@;
            out.append("\\u00");
            out.append(hex_digit_str(code / 16));
            out.append(hex_digit_str(code % 16));
            proof {
                reveal_strlit("\\u00");
                assert(out@ =~= pre + esc_char(c));
            }
        } else {
            let piece = s.substring_char(i, i + 1);
            out.append(piece);
            proof {
                assert(piece@ =~= esc_char(c));
            }
        }
        i = i + 1;
    }
    proof {
        assert(spec_escape(whole.skip(n as int)) =~= Seq::<char>::empty());
        assert(out@ + Seq::<char>::empty() =~= out@);
    }
}

/// Append a quoted, escaped JSON string to `out`.
pub fn append_jstr(out: &mut String, s: &str)
    ensures
        final(out)@ == old(out)@ + spec_jstr(s@),
{
    let ghost pre = out@;
    out.append("\"");
    append_escaped(out, s);
    out.append("\"");
    proof {
        reveal_strlit("\"");
        assert(out@ =~= pre + spec_jstr(s@));
    }
}

/// The comma-joined concatenation of rendered elements.
pub open spec fn spec_join(parts: Seq<Seq<char>>) -> Seq<char>
    decreases parts.len(),
{
    if parts.len() == 0 {
        Seq::empty()
    } else if parts.len() == 1 {
        parts[0]
    } else {
        spec_join(parts.drop_last()) + seq![','] + parts.last()
    }
}

/// A JSON array of pre-rendered elements.
pub open spec fn spec_array(parts: Seq<Seq<char>>) -> Seq<char> {
    seq!['['] + spec_join(parts) + seq![']']
}

/// Append `[e0,e1,...]` to `out`, where the elements are already rendered.
pub fn append_array(out: &mut String, parts: &Vec<String>)
    ensures
        final(out)@ == old(out)@ + spec_array(parts@.map_values(|p: String| p@)),
{
    let ghost views = parts@.map_values(|p: String| p@);
    out.append("[");
    let mut i: usize = 0;
    while i < parts.len()
        invariant
            i <= parts@.len(),
            views == parts@.map_values(|p: String| p@),
            out@ == old(out)@ + "["@ + spec_join(views.take(i as int)),
        decreases parts@.len() - i,
    {
        if i > 0 {
            out.append(",");
        }
        out.append(parts[i].as_str());
        proof {
            reveal_strlit(",");
            assert(views.take(i + 1).drop_last() =~= views.take(i as int));
            assert(views.take(i + 1).last() == views[i as int]);
            if i > 0 {
                assert(out@ =~= old(out)@ + "["@ + spec_join(views.take(i + 1)));
            } else {
                assert(spec_join(views.take(1)) =~= views[0]);
                assert(out@ =~= old(out)@ + "["@ + spec_join(views.take(i + 1)));
            }
        }
        i = i + 1;
    }
    out.append("]");
    proof {
        reveal_strlit("[");
        reveal_strlit("]");
        assert(views.take(i as int) =~= views);
        assert(out@ =~= old(out)@ + spec_array(views));
    }
}

/// `true` / `false` as JSON.
pub open spec fn spec_bool(b: bool) -> Seq<char> {
    if b {
        "true"@
    } else {
        "false"@
    }
}

pub fn append_bool(out: &mut String, b: bool)
    ensures
        final(out)@ == old(out)@ + spec_bool(b),
{
    if b {
        out.append("true");
    } else {
        out.append("false");
    }
}

} // verus!
