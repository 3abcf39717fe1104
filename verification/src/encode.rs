//! Building blocks of the canonical JSON encoding: decimal rendering of the
//! integer fields and JSON string escaping, each proved against a spec-level
//! description of the exact character sequence produced.

use vstd::prelude::*;

verus! {

/// The character for a single digit value below sixteen, lowercase.
pub open spec fn spec_digit(d: int) -> char {
    if d == 0 {
        '0'
    } else if d == 1 {
        '1'
    } else if d == 2 {
        '2'
    } else if d == 3 {
        '3'
    } else if d == 4 {
        '4'
    } else if d == 5 {
        '5'
    } else if d == 6 {
        '6'
    } else if d == 7 {
        '7'
    } else if d == 8 {
        '8'
    } else if d == 9 {
        '9'
    } else if d == 10 {
        'a'
    } else if d == 11 {
        'b'
    } else if d == 12 {
        'c'
    } else if d == 13 {
        'd'
    } else if d == 14 {
        'e'
    } else {
        'f'
    }
}

/// Decimal rendering of a natural number, most significant digit first,
/// with no leading zeros (a lone zero renders as "0").
pub open spec fn spec_dec_nat(n: nat) -> Seq<char>
    decreases n,
{
    if n < 10 {
        seq![spec_digit(n as int)]
    } else {
        spec_dec_nat(n / 10).push(spec_digit((n % 10) as int))
    }
}

/// Decimal rendering of an unsigned 64-bit value.
pub open spec fn spec_dec_u64(n: u64) -> Seq<char> {
    spec_dec_nat(n as nat)
}

/// Decimal rendering of a signed 64-bit value: a minus sign before the
/// magnitude for negative values.
pub open spec fn spec_dec_i64(n: i64) -> Seq<char> {
    if n < 0 {
        seq!['-'] + spec_dec_nat((-(n as int)) as nat)
    } else {
        spec_dec_nat(n as nat)
    }
}

/// The escape of one character inside a JSON string: quote and backslash get
/// a backslash, the five control characters with short forms get those, the
/// remaining control characters below 0x20 get a lowercase `\u00XX` form, and
/// every other character stands as itself.
pub open spec fn spec_escaped_char(c: char) -> Seq<char> {
    if c == '"' {
        seq!['\\', '"']
    } else if c == '\\' {
        seq!['\\', '\\']
    } else if c == '\u{8}' {
        seq!['\\', 'b']
    } else if c == '\t' {
        seq!['\\', 't']
    } else if c == '\n' {
        seq!['\\', 'n']
    } else if c == '\u{c}' {
        seq!['\\', 'f']
    } else if c == '\r' {
        seq!['\\', 'r']
    } else if (c as u32) < 0x20 {
        seq!['\\', 'u', '0', '0', spec_digit(c as u32 as int / 16), spec_digit(c as u32 as int % 16)]
    } else {
        seq![c]
    }
}

/// The body of a JSON string: every character escaped, in order.
pub open spec fn spec_escaped(s: Seq<char>) -> Seq<char>
    decreases s.len(),
{
    if s.len() == 0 {
        Seq::empty()
    } else {
        spec_escaped(s.drop_last()) + spec_escaped_char(s.last())
    }
}

/// A complete JSON string: the escaped body between double quotes.
pub open spec fn spec_json_string(s: Seq<char>) -> Seq<char> {
    seq!['"'] + spec_escaped(s) + seq!['"']
}

/// Relies on `String::push`: appends the given character to the end of the
/// string.
#[verifier::external_body]
pub(crate) fn push_char(out: &mut String, c: char)
    ensures
        final(out)@ == old(out)@.push(c),
{
    out.push(c);
}

/// The character for a single digit value below sixteen, lowercase.
fn digit_char(d: u64) -> (c: char)
    requires
        d < 16,
    ensures
        c == spec_digit(d as int),
{
    match d {
        0 => '0',
        1 => '1',
        2 => '2',
        3 => '3',
        4 => '4',
        5 => '5',
        6 => '6',
        7 => '7',
        8 => '8',
        9 => '9',
        10 => 'a',
        11 => 'b',
        12 => 'c',
        13 => 'd',
        14 => 'e',
        _ => 'f',
    }
}

/// Appends the decimal rendering of `n` to `out`.
pub fn push_dec_u64(out: &mut String, n: u64)
    ensures
        final(out)@ == old(out)@ + spec_dec_u64(n),
    decreases n,
{
    if n >= 10 {
        push_dec_u64(out, n / 10);
        let d = digit_char(n % 10);
        push_char(out, d);
        proof {
            assert((n / 10) as nat == n as nat / 10);
            assert((n % 10) as nat == n as nat % 10);
            assert(out@ =~= old(out)@ + spec_dec_u64(n));
        }
    } else {
        let d = digit_char(n);
        push_char(out, d);
        proof {
            assert(out@ =~= old(out)@ + spec_dec_u64(n));
        }
    }
}

/// Appends the decimal rendering of `n` to `out`, minus sign included.
pub fn push_dec_i64(out: &mut String, n: i64)
    ensures
        final(out)@ == old(out)@ + spec_dec_i64(n),
{
    if n < 0 {
        push_char(out, '-');
        let m: u64 = (-(n as i128)) as u64;
        proof {
            assert(m as nat == (-(n as int)) as nat);
        }
        push_dec_u64(out, m);
        proof {
            assert(out@ =~= old(out)@ + spec_dec_i64(n));
        }
    } else {
        push_dec_u64(out, n as u64);
    }
}

/// Appends the JSON string form of `s` (quotes and escapes included) to `out`.
pub fn push_json_string(out: &mut String, s: &str)
    ensures
        final(out)@ == old(out)@ + spec_json_string(s@),
{
    push_char(out, '"');
    let len = s.unicode_len();
    let mut i: usize = 0;
    while i < len
        invariant
            i <= len,
            len == s@.len(),
            out@ == old(out)@.push('"') + spec_escaped(s@.subrange(0, i as int)),
        decreases len - i,
    {
        let c = s.get_char(i);
        if c == '"' {
            push_char(out, '\\');
            push_char(out, '"');
        } else if c == '\\' {
            push_char(out, '\\');
            push_char(out, '\\');
        } else if c == '\u{8}' {
            push_char(out, '\\');
            push_char(out, 'b');
        } else if c == '\t' {
            push_char(out, '\\');
            push_char(out, 't');
        } else if c == '\n' {
            push_char(out, '\\');
            push_char(out, 'n');
        } else if c == '\u{c}' {
            push_char(out, '\\');
            push_char(out, 'f');
        } else if c == '\r' {
            push_char(out, '\\');
            push_char(out, 'r');
        } else if (c as u32) < 0x20 {
            push_char(out, '\\');
            push_char(out, 'u');
            push_char(out, '0');
            push_char(out, '0');
            let v: u32 = c as u32;
            let hi = digit_char((v / 16) as u64);
            push_char(out, hi);
            let lo = digit_char((v % 16) as u64);
            push_char(out, lo);
        } else {
            push_char(out, c);
        }
        proof {
            assert(s@.subrange(0, i + 1 as int).drop_last() =~= s@.subrange(0, i as int));
            assert(s@.subrange(0, i + 1 as int).last() == s@[i as int]);
            assert(out@ =~= old(out)@.push('"') + spec_escaped(s@.subrange(0, i + 1 as int)));
        }
        i = i + 1;
    }
    push_char(out, '"');
    proof {
        assert(s@.subrange(0, s@.len() as int) =~= s@);
        assert(out@ =~= old(out)@ + spec_json_string(s@));
    }
}

} // verus!
