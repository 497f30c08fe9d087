//! Text helpers shared by every wire format of the mesh: string equality,
//! decimal rendering of integers, and JSON string literals as `serde_json`
//! writes them.

use vstd::prelude::*;

verus! {

/// `String::push` appends one character (std documentation: "Appends the
/// given char to the end of this String").
pub assume_specification[ String::push ](s: &mut String, ch: char)
    ensures
        final(s)@ == old(s)@.push(ch),
;

/// Character-wise equality of two string slices.
pub fn str_eq(a: &str, b: &str) -> (r: bool)
    ensures
        r == (a@ == b@),
{
    let x: String = a.to_owned();
    let y: String = b.to_owned();
    x == y
}

/// Appends every character of `s` to `out`.
pub fn push_str(out: &mut String, s: &str)
    ensures
        final(out)@ == old(out)@ + s@,
{
    out.append(s);
}

// ─── Decimal ─────────────────────────────────────────────────────────────

/// The ASCII digit for `d` in `0..10`.
pub open spec fn digit_char(d: int) -> char {
    (d + 48) as char
}

/// Decimal representation of a natural number, without leading zeros
/// ("0" for zero), as `u64`'s `Display` writes it.
pub open spec fn decimal(n: nat) -> Seq<char>
    decreases n,
{
    if n < 10 {
        seq![digit_char(n as int)]
    } else {
        decimal(n / 10).push(digit_char((n % 10) as int))
    }
}

/// Appends the decimal representation of `n` to `out`.
pub fn push_decimal(out: &mut String, n: u64)
    ensures
        final(out)@ == old(out)@ + decimal(n as nat),
    decreases n,
{
    if n < 10 {
        let c = ((n as u8) + 48) as char;
        out.push(c);
        assert(final(out)@ =~= old(out)@ + decimal(n as nat)) by {
            assert(decimal(n as nat) =~= seq![digit_char(n as int)]);
        }
    } else {
        push_decimal(out, n / 10);
        let c = (((n % 10) as u8) + 48) as char;
        out.push(c);
        assert(out@ =~= old(out)@ + decimal(n as nat));
    }
}

// ─── JSON string literals ────────────────────────────────────────────────

/// Lower-case hexadecimal digit for `d` in `0..16`.
pub open spec fn hex_char(d: int) -> char {
    if d < 10 {
        (d + 48) as char
    } else {
        (d + 87) as char
    }
}

/// How one character is written inside a JSON string literal: quote and
/// backslash are escaped, the control characters with a short form get it,
/// the other control characters become `\u00xx`, everything else is kept.
pub open spec fn json_escape_char(c: char) -> Seq<char> {
    if c == '"' {
        seq!['\\', '"']
    } else if c == '\\' {
        seq!['\\', '\\']
    } else if c == '\n' {
        seq!['\\', 'n']
    } else if c == '\r' {
        seq!['\\', 'r']
    } else if c == '\t' {
        seq!['\\', 't']
    } else if c == '\u{8}' {
        seq!['\\', 'b']
    } else if c == '\u{c}' {
        seq!['\\', 'f']
    } else if (c as u32) < 0x20 {
        seq!['\\', 'u', '0', '0', hex_char((c as int) / 16), hex_char((c as int) % 16)]
    } else {
        seq![c]
    }
}

/// The escaped body of a JSON string literal.
pub open spec fn json_escape(s: Seq<char>) -> Seq<char>
    decreases s.len(),
{
    if s.len() == 0 {
        seq![]
    } else {
        json_escape(s.drop_last()) + json_escape_char(s.last())
    }
}

/// A complete JSON string literal for `s`, quotes included.
pub open spec fn json_string(s: Seq<char>) -> Seq<char> {
    seq!['"'] + json_escape(s) + seq!['"']
}

fn push_hex(out: &mut String, d: u32)
    requires
        d < 16,
    ensures
        final(out)@ == old(out)@.push(hex_char(d as int)),
{
    let b = d as u8;
    if b < 10 {
        out.push((b + 48) as char);
    } else {
        out.push((b + 87) as char);
    }
}

fn push_escaped_char(out: &mut String, c: char)
    ensures
        final(out)@ == old(out)@ + json_escape_char(c),
{
    let ghost o = old(out)@;
    if c == '"' {
        out.push('\\');
        out.push('"');
    } else if c == '\\' {
        out.push('\\');
        out.push('\\');
    } else if c == '\n' {
        out.push('\\');
        out.push('n');
    } else if c == '\r' {
        out.push('\\');
        out.push('r');
    } else if c == '\t' {
        out.push('\\');
        out.push('t');
    } else if c == '\u{8}' {
        out.push('\\');
        out.push('b');
    } else if c == '\u{c}' {
        out.push('\\');
        out.push('f');
    } else if (c as u32) < 0x20 {
        let v = c as u32;
        out.push('\\');
        out.push('u');
        out.push('0');
        out.push('0');
        push_hex(out, v / 16);
        push_hex(out, v % 16);
    } else {
        out.push(c);
    }
    assert(out@ =~= o + json_escape_char(c));
}

/// Appends `s` as a JSON string literal (quotes included) to `out`.
pub fn push_json_string(out: &mut String, s: &str)
    ensures
        final(out)@ == old(out)@ + json_string(s@),
{
    let ghost start = old(out)@;
    out.push('"');
    let n = s.unicode_len();
    let mut i: usize = 0;
    while i < n
        invariant
            n == s@.len(),
            i <= n,
            out@ == start + seq!['"'] + json_escape(s@.take(i as int)),
        decreases n - i,
    {
        let c = s.get_char(i);
        push_escaped_char(out, c);
        proof {
            let t = s@.take(i + 1);
            assert(t.drop_last() =~= s@.take(i as int));
            assert(t.last() == c);
        }
        i = i + 1;
    }
    out.push('"');
    proof {
        assert(s@.take(n as int) =~= s@);
    }
    assert(out@ =~= start + json_string(s@));
}

}

verus! {

/// The elements of `items`, each as a JSON string literal, separated by commas.
pub open spec fn json_string_list(items: Seq<Seq<char>>) -> Seq<char>
    decreases items.len(),
{
    if items.len() == 0 {
        seq![]
    } else if items.len() == 1 {
        json_string(items[0])
    } else {
        json_string_list(items.drop_last()) + seq![','] + json_string(items.last())
    }
}

/// A JSON array of string literals.
pub open spec fn json_string_array(items: Seq<Seq<char>>) -> Seq<char> {
    seq!['['] + json_string_list(items) + seq![']']
}

/// The character views of a sequence of strings.
pub open spec fn views(v: Seq<String>) -> Seq<Seq<char>> {
    v.map_values(|s: String| s@)
}

/// Appends `items` as a JSON array of string literals to `out`.
pub fn push_json_string_array(out: &mut String, items: &Vec<String>)
    ensures
        final(out)@ == old(out)@ + json_string_array(views(items@)),
{
    let ghost start = old(out)@;
    out.push('[');
    let n = items.len();
    let mut i: usize = 0;
    while i < n
        invariant
            n == items@.len(),
            i <= n,
            out@ == start + seq!['['] + json_string_list(views(items@.take(i as int))),
        decreases n - i,
    {
        let ghost before = out@;
        if i > 0 {
            out.push(',');
        }
        push_json_string(out, items[i].as_str());
        proof {
            let t = items@.take(i + 1);
            assert(views(t).drop_last() =~= views(items@.take(i as int)));
            assert(views(t).last() == items@[i as int]@);
            assert(views(t).len() == i + 1);
            if i == 0 {
                assert(views(items@.take(0)) =~= Seq::<Seq<char>>::empty());
                assert(views(t)[0] == items@[0]@);
            }
        }
        i = i + 1;
    }
    out.push(']');
    proof {
        assert(items@.take(n as int) =~= items@);
    }
    assert(out@ =~= start + json_string_array(views(items@)));
}

}
