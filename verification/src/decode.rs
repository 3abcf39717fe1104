//! The canonical encoding is lossless: a spec-level decoder for its pieces,
//! and proofs that equal encodings can only come from equal field values.

use vstd::prelude::*;
use crate::block::{spec_block_json, spec_transaction_json, spec_transactions_json, Block, Transaction};
use crate::chain::{block_fields_eq, transaction_fields_eq};
use crate::encode::{
    spec_dec_i64,
    spec_dec_nat,
    spec_dec_u64,
    spec_digit,
    spec_escaped,
    spec_escaped_char,
    spec_json_string,
};

verus! {

/// Whether `c` is a decimal digit character.
pub open spec fn is_digit_char(c: char) -> bool {
    c == '0' || c == '1' || c == '2' || c == '3' || c == '4' || c == '5' || c == '6' || c == '7'
        || c == '8' || c == '9'
}

/// Dropping a shared prefix of equal concatenations leaves equal remainders.
proof fn lemma_cancel_prefix(p: Seq<char>, x: Seq<char>, y: Seq<char>)
    requires
        p + x == p + y,
    ensures
        x == y,
{
    assert(x =~= (p + x).skip(p.len() as int));
    assert(y =~= (p + y).skip(p.len() as int));
}

/// A decimal rendering is never empty and holds digits only.
proof fn lemma_dec_nat_digits(n: nat)
    ensures
        spec_dec_nat(n).len() >= 1,
        forall|i: int| 0 <= i < spec_dec_nat(n).len() ==> is_digit_char(#[trigger] spec_dec_nat(n)[i]),
    decreases n,
{
    if n >= 10 {
        lemma_dec_nat_digits(n / 10);
    }
}

/// Distinct naturals render as distinct digit strings.
proof fn lemma_dec_nat_injective(m: nat, n: nat)
    requires
        spec_dec_nat(m) == spec_dec_nat(n),
    ensures
        m == n,
    decreases m,
{
    lemma_dec_nat_digits(m / 10);
    lemma_dec_nat_digits(n / 10);
    if m < 10 && n < 10 {
        assert(spec_dec_nat(m)[0] == spec_digit(m as int));
        assert(spec_dec_nat(n)[0] == spec_digit(n as int));
    } else if m < 10 && n >= 10 {
        assert(spec_dec_nat(m).len() == 1);
        assert(spec_dec_nat(n).len() >= 2);
    } else if m >= 10 && n < 10 {
        assert(spec_dec_nat(m).len() >= 2);
        assert(spec_dec_nat(n).len() == 1);
    } else {
        assert(spec_dec_nat(m).last() == spec_digit((m % 10) as int));
        assert(spec_dec_nat(n).last() == spec_digit((n % 10) as int));
        assert(m % 10 == n % 10);
        assert(spec_dec_nat(m).drop_last() =~= spec_dec_nat(m / 10));
        assert(spec_dec_nat(n).drop_last() =~= spec_dec_nat(n / 10));
        lemma_dec_nat_injective(m / 10, n / 10);
    }
}

/// Two equal concatenations, each a run of digits followed by a remainder
/// that does not begin with a digit, split at the same place.
proof fn lemma_digit_run_boundary(d1: Seq<char>, r1: Seq<char>, d2: Seq<char>, r2: Seq<char>)
    requires
        d1 + r1 == d2 + r2,
        forall|i: int| 0 <= i < d1.len() ==> is_digit_char(#[trigger] d1[i]),
        forall|i: int| 0 <= i < d2.len() ==> is_digit_char(#[trigger] d2[i]),
        r1.len() > 0,
        !is_digit_char(r1[0]),
        r2.len() > 0,
        !is_digit_char(r2[0]),
    ensures
        d1 == d2,
        r1 == r2,
{
    if d1.len() < d2.len() {
        assert((d1 + r1)[d1.len() as int] == r1[0]);
        assert((d2 + r2)[d1.len() as int] == d2[d1.len() as int]);
    } else if d2.len() < d1.len() {
        assert((d2 + r2)[d2.len() as int] == r2[0]);
        assert((d1 + r1)[d2.len() as int] == d1[d2.len() as int]);
    }
    assert(d1.len() == d2.len());
    assert(d1 =~= (d1 + r1).take(d1.len() as int));
    assert(d2 =~= (d2 + r2).take(d2.len() as int));
    assert(r1 =~= (d1 + r1).skip(d1.len() as int));
    assert(r2 =~= (d2 + r2).skip(d2.len() as int));
}

/// An unsigned decimal field followed by a non-digit terminator decodes to
/// one value only.
proof fn lemma_dec_u64_boundary(n1: u64, r1: Seq<char>, n2: u64, r2: Seq<char>)
    requires
        spec_dec_u64(n1) + r1 == spec_dec_u64(n2) + r2,
        r1.len() > 0,
        !is_digit_char(r1[0]),
        r2.len() > 0,
        !is_digit_char(r2[0]),
    ensures
        n1 == n2,
        r1 == r2,
{
    lemma_dec_nat_digits(n1 as nat);
    lemma_dec_nat_digits(n2 as nat);
    lemma_digit_run_boundary(spec_dec_u64(n1), r1, spec_dec_u64(n2), r2);
    lemma_dec_nat_injective(n1 as nat, n2 as nat);
}

/// A signed decimal field followed by a terminator that is neither a digit
/// nor a minus sign decodes to one value only.
proof fn lemma_dec_i64_boundary(n1: i64, r1: Seq<char>, n2: i64, r2: Seq<char>)
    requires
        spec_dec_i64(n1) + r1 == spec_dec_i64(n2) + r2,
        r1.len() > 0,
        !is_digit_char(r1[0]),
        r1[0] != '-',
        r2.len() > 0,
        !is_digit_char(r2[0]),
        r2[0] != '-',
    ensures
        n1 == n2,
        r1 == r2,
{
    lemma_dec_nat_digits(n1 as nat);
    lemma_dec_nat_digits(n2 as nat);
    lemma_dec_nat_digits((-(n1 as int)) as nat);
    lemma_dec_nat_digits((-(n2 as int)) as nat);
    if n1 < 0 && n2 < 0 {
        let m1 = spec_dec_nat((-(n1 as int)) as nat);
        let m2 = spec_dec_nat((-(n2 as int)) as nat);
        assert(m1 + r1 =~= (spec_dec_i64(n1) + r1).skip(1));
        assert(m2 + r2 =~= (spec_dec_i64(n2) + r2).skip(1));
        lemma_digit_run_boundary(m1, r1, m2, r2);
        lemma_dec_nat_injective((-(n1 as int)) as nat, (-(n2 as int)) as nat);
    } else if n1 >= 0 && n2 >= 0 {
        lemma_digit_run_boundary(spec_dec_nat(n1 as nat), r1, spec_dec_nat(n2 as nat), r2);
        lemma_dec_nat_injective(n1 as nat, n2 as nat);
    } else if n1 < 0 {
        assert((spec_dec_i64(n1) + r1)[0] == '-');
        assert((spec_dec_i64(n2) + r2)[0] == spec_dec_nat(n2 as nat)[0]);
    } else {
        assert((spec_dec_i64(n2) + r2)[0] == '-');
        assert((spec_dec_i64(n1) + r1)[0] == spec_dec_nat(n1 as nat)[0]);
    }
}

/// Whether `c` is one of the letters that closes a two-character escape.
pub open spec fn is_short_escape(c: char) -> bool {
    c == '"' || c == '\\' || c == 'b' || c == 't' || c == 'n' || c == 'f' || c == 'r'
}

/// The character a two-character escape stands for.
pub open spec fn short_escape_char(c: char) -> char {
    if c == '"' {
        '"'
    } else if c == '\\' {
        '\\'
    } else if c == 'b' {
        '\u{8}'
    } else if c == 't' {
        '\t'
    } else if c == 'n' {
        '\n'
    } else if c == 'f' {
        '\u{c}'
    } else {
        '\r'
    }
}

/// Whether `c` is a lowercase hexadecimal digit character.
pub open spec fn is_hex_lower(c: char) -> bool {
    is_digit_char(c) || c == 'a' || c == 'b' || c == 'c' || c == 'd' || c == 'e' || c == 'f'
}

/// The value of a lowercase hexadecimal digit character.
pub open spec fn spec_hex_val(c: char) -> int {
    if c == '0' {
        0
    } else if c == '1' {
        1
    } else if c == '2' {
        2
    } else if c == '3' {
        3
    } else if c == '4' {
        4
    } else if c == '5' {
        5
    } else if c == '6' {
        6
    } else if c == '7' {
        7
    } else if c == '8' {
        8
    } else if c == '9' {
        9
    } else if c == 'a' {
        10
    } else if c == 'b' {
        11
    } else if c == 'c' {
        12
    } else if c == 'd' {
        13
    } else if c == 'e' {
        14
    } else {
        15
    }
}

/// The control character with the given code below 0x20.
pub open spec fn control_char_of(v: int) -> char {
    if v == 0 {
        '\u{0}'
    } else if v == 1 {
        '\u{1}'
    } else if v == 2 {
        '\u{2}'
    } else if v == 3 {
        '\u{3}'
    } else if v == 4 {
        '\u{4}'
    } else if v == 5 {
        '\u{5}'
    } else if v == 6 {
        '\u{6}'
    } else if v == 7 {
        '\u{7}'
    } else if v == 8 {
        '\u{8}'
    } else if v == 9 {
        '\u{9}'
    } else if v == 10 {
        '\u{a}'
    } else if v == 11 {
        '\u{b}'
    } else if v == 12 {
        '\u{c}'
    } else if v == 13 {
        '\u{d}'
    } else if v == 14 {
        '\u{e}'
    } else if v == 15 {
        '\u{f}'
    } else if v == 16 {
        '\u{10}'
    } else if v == 17 {
        '\u{11}'
    } else if v == 18 {
        '\u{12}'
    } else if v == 19 {
        '\u{13}'
    } else if v == 20 {
        '\u{14}'
    } else if v == 21 {
        '\u{15}'
    } else if v == 22 {
        '\u{16}'
    } else if v == 23 {
        '\u{17}'
    } else if v == 24 {
        '\u{18}'
    } else if v == 25 {
        '\u{19}'
    } else if v == 26 {
        '\u{1a}'
    } else if v == 27 {
        '\u{1b}'
    } else if v == 28 {
        '\u{1c}'
    } else if v == 29 {
        '\u{1d}'
    } else if v == 30 {
        '\u{1e}'
    } else {
        '\u{1f}'
    }
}

/// Decodes the body of a JSON string up to and over its closing quote:
/// the decoded characters and whatever follows the quote.
pub open spec fn parse_string_body(s: Seq<char>) -> Option<(Seq<char>, Seq<char>)>
    decreases s.len(),
{
    if s.len() == 0 {
        None
    } else if s[0] == '"' {
        Some((Seq::empty(), s.drop_first()))
    } else if s[0] == '\\' {
        if s.len() >= 2 && is_short_escape(s[1]) {
            match parse_string_body(s.skip(2)) {
                Some(p) => Some((seq![short_escape_char(s[1])] + p.0, p.1)),
                None => None,
            }
        } else if s.len() >= 6 && s[1] == 'u' && s[2] == '0' && s[3] == '0' && is_hex_lower(s[4])
            && is_hex_lower(s[5]) {
            match parse_string_body(s.skip(6)) {
                Some(p) => Some(
                    (seq![control_char_of(16 * spec_hex_val(s[4]) + spec_hex_val(s[5]))] + p.0, p.1),
                ),
                None => None,
            }
        } else {
            None
        }
    } else {
        match parse_string_body(s.drop_first()) {
            Some(p) => Some((seq![s[0]] + p.0, p.1)),
            None => None,
        }
    }
}

/// Escaping distributes over concatenation.
proof fn lemma_escaped_append(a: Seq<char>, b: Seq<char>)
    ensures
        spec_escaped(a + b) == spec_escaped(a) + spec_escaped(b),
    decreases b.len(),
{
    if b.len() == 0 {
        assert(a + b =~= a);
        assert(spec_escaped(a) + spec_escaped(b) =~= spec_escaped(a));
    } else {
        lemma_escaped_append(a, b.drop_last());
        assert((a + b).drop_last() =~= a + b.drop_last());
        assert((a + b).last() == b.last());
        assert(spec_escaped(a) + (spec_escaped(b.drop_last()) + spec_escaped_char(b.last())) =~= (
        spec_escaped(a) + spec_escaped(b.drop_last())) + spec_escaped_char(b.last()));
    }
}

/// Escaping peels its first character.
proof fn lemma_escaped_front(s: Seq<char>)
    requires
        s.len() > 0,
    ensures
        spec_escaped(s) == spec_escaped_char(s[0]) + spec_escaped(s.drop_first()),
{
    assert(s =~= seq![s[0]] + s.drop_first());
    lemma_escaped_append(seq![s[0]], s.drop_first());
    assert(seq![s[0]].drop_last() =~= Seq::<char>::empty());
    assert(spec_escaped(seq![s[0]]) == spec_escaped(seq![s[0]].drop_last()) + spec_escaped_char(
        s[0],
    ));
    assert(Seq::<char>::empty() + spec_escaped_char(s[0]) =~= spec_escaped_char(s[0]));
}

proof fn lemma_control_char(c: char)
    requires
        (c as u32) < 32,
    ensures
        control_char_of(c as u32 as int) == c,
{
    assert(control_char_of(c as u32 as int) as u32 == c as u32);
}

proof fn lemma_hex_val_digit(d: int)
    requires
        0 <= d < 16,
    ensures
        is_hex_lower(spec_digit(d)),
        spec_hex_val(spec_digit(d)) == d,
{
}

/// Decoding inverts escaping: the escaped body, the closing quote, and any
/// remainder decode back to the original characters and that remainder.
proof fn lemma_parse_escaped(s: Seq<char>, r: Seq<char>)
    ensures
        parse_string_body(spec_escaped(s) + seq!['"'] + r) == Some((s, r)),
    decreases s.len(),
{
    let t = spec_escaped(s) + seq!['"'] + r;
    if s.len() == 0 {
        assert(t =~= seq!['"'] + r);
        assert(t[0] == '"');
        assert(t.drop_first() =~= r);
    } else {
        let c = s[0];
        let rest = s.drop_first();
        lemma_escaped_front(s);
        lemma_parse_escaped(rest, r);
        let tail = spec_escaped(rest) + seq!['"'] + r;
        assert(t =~= spec_escaped_char(c) + tail);
        if c == '"' {
            assert(t[0] == '\\' && t[1] == '"');
            assert(t.skip(2) =~= tail);
            assert(seq![short_escape_char('"')] + rest =~= s);
        } else if c == '\\' {
            assert(t[0] == '\\' && t[1] == '\\');
            assert(t.skip(2) =~= tail);
            assert(seq![short_escape_char('\\')] + rest =~= s);
        } else if c == '\u{8}' {
            assert(t[0] == '\\' && t[1] == 'b');
            assert(t.skip(2) =~= tail);
            assert(seq![short_escape_char('b')] + rest =~= s);
        } else if c == '\t' {
            assert(t[0] == '\\' && t[1] == 't');
            assert(t.skip(2) =~= tail);
            assert(seq![short_escape_char('t')] + rest =~= s);
        } else if c == '\n' {
            assert(t[0] == '\\' && t[1] == 'n');
            assert(t.skip(2) =~= tail);
            assert(seq![short_escape_char('n')] + rest =~= s);
        } else if c == '\u{c}' {
            assert(t[0] == '\\' && t[1] == 'f');
            assert(t.skip(2) =~= tail);
            assert(seq![short_escape_char('f')] + rest =~= s);
        } else if c == '\r' {
            assert(t[0] == '\\' && t[1] == 'r');
            assert(t.skip(2) =~= tail);
            assert(seq![short_escape_char('r')] + rest =~= s);
        } else if (c as u32) < 0x20 {
            let v = c as u32 as int;
            assert(t[0] == '\\' && t[1] == 'u' && t[2] == '0' && t[3] == '0');
            assert(t[4] == spec_digit(v / 16) && t[5] == spec_digit(v % 16));
            lemma_hex_val_digit(v / 16);
            lemma_hex_val_digit(v % 16);
            assert(!is_short_escape('u'));
            assert(16 * spec_hex_val(t[4]) + spec_hex_val(t[5]) == v);
            lemma_control_char(c);
            assert(t.skip(6) =~= tail);
            assert(seq![c] + rest =~= s);
        } else {
            assert(t[0] == c);
            assert(t.drop_first() =~= tail);
            assert(seq![c] + rest =~= s);
        }
    }
}

/// A JSON string field followed by a remainder decodes to one value only.
proof fn lemma_json_string_boundary(s1: Seq<char>, r1: Seq<char>, s2: Seq<char>, r2: Seq<char>)
    requires
        spec_json_string(s1) + r1 == spec_json_string(s2) + r2,
    ensures
        s1 == s2,
        r1 == r2,
{
    let t1 = spec_escaped(s1) + seq!['"'] + r1;
    let t2 = spec_escaped(s2) + seq!['"'] + r2;
    assert(spec_json_string(s1) + r1 =~= seq!['"'] + t1);
    assert(spec_json_string(s2) + r2 =~= seq!['"'] + t2);
    lemma_cancel_prefix(seq!['"'], t1, t2);
    lemma_parse_escaped(s1, r1);
    lemma_parse_escaped(s2, r2);
}

/// A transaction object followed by a remainder decodes to one set of field
/// values only.
proof fn lemma_transaction_boundary(t1: Transaction, r1: Seq<char>, t2: Transaction, r2: Seq<char>)
    requires
        spec_transaction_json(t1) + r1 == spec_transaction_json(t2) + r2,
    ensures
        transaction_fields_eq(t1, t2),
        r1 == r2,
{
    reveal_strlit("{\"transaction_id\":");
    reveal_strlit(",\"transaction_timestamp\":");
    reveal_strlit(",\"transaction_details\":");
    reveal_strlit("}");
    let l1 = "{\"transaction_id\":"@;
    let l2 = ",\"transaction_timestamp\":"@;
    let l3 = ",\"transaction_details\":"@;
    let l4 = "}"@;
    let w1 = spec_json_string(t1.transaction_id@) + (l2 + (spec_dec_i64(t1.transaction_timestamp)
        + (l3 + (spec_json_string(t1.transaction_details@) + (l4 + r1)))));
    let w2 = spec_json_string(t2.transaction_id@) + (l2 + (spec_dec_i64(t2.transaction_timestamp)
        + (l3 + (spec_json_string(t2.transaction_details@) + (l4 + r2)))));
    assert(spec_transaction_json(t1) + r1 =~= l1 + w1);
    assert(spec_transaction_json(t2) + r2 =~= l1 + w2);
    lemma_cancel_prefix(l1, w1, w2);
    let x1 = l2 + (spec_dec_i64(t1.transaction_timestamp) + (l3 + (spec_json_string(
        t1.transaction_details@,
    ) + (l4 + r1))));
    let x2 = l2 + (spec_dec_i64(t2.transaction_timestamp) + (l3 + (spec_json_string(
        t2.transaction_details@,
    ) + (l4 + r2))));
    lemma_json_string_boundary(t1.transaction_id@, x1, t2.transaction_id@, x2);
    let y1 = spec_dec_i64(t1.transaction_timestamp) + (l3 + (spec_json_string(
        t1.transaction_details@,
    ) + (l4 + r1)));
    let y2 = spec_dec_i64(t2.transaction_timestamp) + (l3 + (spec_json_string(
        t2.transaction_details@,
    ) + (l4 + r2)));
    lemma_cancel_prefix(l2, y1, y2);
    let z1 = l3 + (spec_json_string(t1.transaction_details@) + (l4 + r1));
    let z2 = l3 + (spec_json_string(t2.transaction_details@) + (l4 + r2));
    assert(z1[0] == ',' && z2[0] == ',');
    lemma_dec_i64_boundary(t1.transaction_timestamp, z1, t2.transaction_timestamp, z2);
    lemma_cancel_prefix(
        l3,
        spec_json_string(t1.transaction_details@) + (l4 + r1),
        spec_json_string(t2.transaction_details@) + (l4 + r2),
    );
    lemma_json_string_boundary(t1.transaction_details@, l4 + r1, t2.transaction_details@, l4 + r2);
    lemma_cancel_prefix(l4, r1, r2);
}

/// A transaction object's encoding begins with an opening brace.
proof fn lemma_transaction_first_char(t: Transaction)
    ensures
        spec_transaction_json(t).len() > 0,
        spec_transaction_json(t)[0] == '{',
{
    reveal_strlit("{\"transaction_id\":");
    let l1 = "{\"transaction_id\":"@;
    assert(spec_transaction_json(t)[0] == l1[0]);
}

/// A comma-separated transaction list peels its first element.
proof fn lemma_transactions_front(ts: Seq<Transaction>)
    requires
        ts.len() >= 2,
    ensures
        spec_transactions_json(ts) == spec_transaction_json(ts[0]) + seq![',']
            + spec_transactions_json(ts.drop_first()),
    decreases ts.len(),
{
    let u = ts.drop_last();
    if ts.len() == 2 {
        assert(u.len() == 1 && u[0] == ts[0]);
        assert(ts.drop_first().len() == 1 && ts.drop_first()[0] == ts[1]);
        assert(ts.last() == ts[1]);
    } else {
        lemma_transactions_front(u);
        let v = ts.drop_first();
        assert(v.len() >= 2);
        assert(v.drop_last() =~= u.drop_first());
        assert(v.last() == ts.last());
        assert(u[0] == ts[0]);
        assert(spec_transactions_json(ts) == spec_transactions_json(u) + seq![',']
            + spec_transaction_json(ts.last()));
        assert(spec_transactions_json(v) == spec_transactions_json(v.drop_last()) + seq![',']
            + spec_transaction_json(v.last()));
        assert(spec_transaction_json(ts[0]) + seq![','] + spec_transactions_json(v) =~= (
        spec_transaction_json(u[0]) + seq![','] + spec_transactions_json(u.drop_first())) + seq![',']
            + spec_transaction_json(ts.last()));
    }
}

/// A nonempty transaction list's encoding begins with an opening brace.
proof fn lemma_transactions_first_char(ts: Seq<Transaction>)
    requires
        ts.len() > 0,
    ensures
        spec_transactions_json(ts).len() > 0,
        spec_transactions_json(ts)[0] == '{',
{
    lemma_transaction_first_char(ts[0]);
    if ts.len() >= 2 {
        lemma_transactions_front(ts);
        assert(spec_transactions_json(ts)[0] == spec_transaction_json(ts[0])[0]);
    }
}

/// A transaction list followed by a closing bracket decodes to one sequence
/// of field values only.
#[verifier::rlimit(100)]
proof fn lemma_transactions_boundary(
    x: Seq<Transaction>,
    r1: Seq<char>,
    y: Seq<Transaction>,
    r2: Seq<char>,
)
    requires
        spec_transactions_json(x) + r1 == spec_transactions_json(y) + r2,
        r1.len() > 0,
        r1[0] == ']',
        r2.len() > 0,
        r2[0] == ']',
    ensures
        x.len() == y.len(),
        forall|i: int| 0 <= i < x.len() ==> transaction_fields_eq(#[trigger] x[i], y[i]),
        r1 == r2,
    decreases x.len(),
{
    if x.len() == 0 && y.len() == 0 {
        assert(spec_transactions_json(x) + r1 =~= r1);
        assert(spec_transactions_json(y) + r2 =~= r2);
    } else if x.len() == 0 {
        lemma_transactions_first_char(y);
        assert((spec_transactions_json(x) + r1)[0] == r1[0]);
        assert((spec_transactions_json(y) + r2)[0] == '{');
    } else if y.len() == 0 {
        lemma_transactions_first_char(x);
        assert((spec_transactions_json(y) + r2)[0] == r2[0]);
        assert((spec_transactions_json(x) + r1)[0] == '{');
    } else if x.len() == 1 && y.len() == 1 {
        lemma_transaction_boundary(x[0], r1, y[0], r2);
    } else if x.len() == 1 {
        lemma_transactions_front(y);
        let tail2 = seq![','] + (spec_transactions_json(y.drop_first()) + r2);
        assert(spec_transactions_json(y) + r2 =~= spec_transaction_json(y[0]) + tail2);
        assert(spec_transactions_json(x) + r1 =~= spec_transaction_json(x[0]) + r1);
        lemma_transaction_boundary(x[0], r1, y[0], tail2);
        assert(r1[0] == ',');
    } else if y.len() == 1 {
        lemma_transactions_front(x);
        let tail1 = seq![','] + (spec_transactions_json(x.drop_first()) + r1);
        assert(spec_transactions_json(x) + r1 =~= spec_transaction_json(x[0]) + tail1);
        assert(spec_transactions_json(y) + r2 =~= spec_transaction_json(y[0]) + r2);
        lemma_transaction_boundary(x[0], tail1, y[0], r2);
        assert(r2[0] == ',');
    } else {
        lemma_transactions_front(x);
        lemma_transactions_front(y);
        let tail1 = seq![','] + (spec_transactions_json(x.drop_first()) + r1);
        let tail2 = seq![','] + (spec_transactions_json(y.drop_first()) + r2);
        assert(spec_transactions_json(x) + r1 =~= spec_transaction_json(x[0]) + tail1);
        assert(spec_transactions_json(y) + r2 =~= spec_transaction_json(y[0]) + tail2);
        lemma_transaction_boundary(x[0], tail1, y[0], tail2);
        lemma_cancel_prefix(
            seq![','],
            spec_transactions_json(x.drop_first()) + r1,
            spec_transactions_json(y.drop_first()) + r2,
        );
        lemma_transactions_boundary(x.drop_first(), r1, y.drop_first(), r2);
        assert forall|i: int| 0 <= i < x.len() implies transaction_fields_eq(
            #[trigger] x[i],
            y[i],
        ) by {
            if i > 0 {
                assert(x[i] == x.drop_first()[i - 1]);
                assert(y[i] == y.drop_first()[i - 1]);
            }
        }
    }
}

/// An interleaving of eleven pieces reassociates from the left-leaning sum
/// to its fully right-nested form.
proof fn lemma_block_shape(
    p1: Seq<char>,
    q1: Seq<char>,
    p2: Seq<char>,
    q2: Seq<char>,
    p3: Seq<char>,
    q3: Seq<char>,
    p4: Seq<char>,
    q4: Seq<char>,
    p5: Seq<char>,
    q5: Seq<char>,
    p6: Seq<char>,
)
    ensures
        p1 + q1 + p2 + q2 + p3 + q3 + p4 + q4 + p5 + q5 + p6 == p1 + (q1 + (p2 + (q2 + (p3 + (q3
            + (p4 + (q4 + (p5 + (q5 + p6))))))))),
{
    assert(p1 + q1 + p2 + q2 + p3 + q3 + p4 + q4 + p5 + q5 + p6 =~= p1 + (q1 + (p2 + (q2 + (p3 + (
    q3 + (p4 + (q4 + (p5 + (q5 + p6))))))))));
}

/// The leading integer fields of the block encoding decode to one set of
/// values only, and the remainders past them stay equal.
#[verifier::rlimit(100)]
proof fn lemma_block_header_boundary(a: Block, b: Block)
    requires
        spec_block_json(a) == spec_block_json(b),
    ensures
        a.block_number == b.block_number,
        a.block_timestamp == b.block_timestamp,
        a.block_nonce == b.block_nonce,
        spec_transactions_json(a.transaction_list@) + ("],\"previous_block_hash\":"@ + (
        spec_json_string(a.previous_block_hash@) + "}"@)) == spec_transactions_json(
            b.transaction_list@,
        ) + ("],\"previous_block_hash\":"@ + (spec_json_string(b.previous_block_hash@) + "}"@)),
{
    reveal_strlit(",\"block_timestamp\":");
    reveal_strlit(",\"block_nonce\":");
    reveal_strlit(",\"transaction_list\":[");
    let l1 = "{\"block_number\":"@;
    let l2 = ",\"block_timestamp\":"@;
    let l3 = ",\"block_nonce\":"@;
    let l4 = ",\"transaction_list\":["@;
    let l5 = "],\"previous_block_hash\":"@;
    let l6 = "}"@;
    let w1 = spec_dec_u64(a.block_number) + (l2 + (spec_dec_i64(a.block_timestamp) + (l3 + (
    spec_dec_u64(a.block_nonce) + (l4 + (spec_transactions_json(a.transaction_list@) + (l5 + (
    spec_json_string(a.previous_block_hash@) + l6))))))));
    let w2 = spec_dec_u64(b.block_number) + (l2 + (spec_dec_i64(b.block_timestamp) + (l3 + (
    spec_dec_u64(b.block_nonce) + (l4 + (spec_transactions_json(b.transaction_list@) + (l5 + (
    spec_json_string(b.previous_block_hash@) + l6))))))));
    lemma_block_shape(
        l1,
        spec_dec_u64(a.block_number),
        l2,
        spec_dec_i64(a.block_timestamp),
        l3,
        spec_dec_u64(a.block_nonce),
        l4,
        spec_transactions_json(a.transaction_list@),
        l5,
        spec_json_string(a.previous_block_hash@),
        l6,
    );
    lemma_block_shape(
        l1,
        spec_dec_u64(b.block_number),
        l2,
        spec_dec_i64(b.block_timestamp),
        l3,
        spec_dec_u64(b.block_nonce),
        l4,
        spec_transactions_json(b.transaction_list@),
        l5,
        spec_json_string(b.previous_block_hash@),
        l6,
    );
    assert(spec_block_json(a) == l1 + w1);
    assert(spec_block_json(b) == l1 + w2);
    lemma_cancel_prefix(l1, w1, w2);
    let x1 = l2 + (spec_dec_i64(a.block_timestamp) + (l3 + (spec_dec_u64(a.block_nonce) + (l4 + (
    spec_transactions_json(a.transaction_list@) + (l5 + (spec_json_string(a.previous_block_hash@)
        + l6)))))));
    let x2 = l2 + (spec_dec_i64(b.block_timestamp) + (l3 + (spec_dec_u64(b.block_nonce) + (l4 + (
    spec_transactions_json(b.transaction_list@) + (l5 + (spec_json_string(b.previous_block_hash@)
        + l6)))))));
    assert(x1[0] == ',' && x2[0] == ',');
    lemma_dec_u64_boundary(a.block_number, x1, b.block_number, x2);
    let y1 = spec_dec_i64(a.block_timestamp) + (l3 + (spec_dec_u64(a.block_nonce) + (l4 + (
    spec_transactions_json(a.transaction_list@) + (l5 + (spec_json_string(a.previous_block_hash@)
        + l6))))));
    let y2 = spec_dec_i64(b.block_timestamp) + (l3 + (spec_dec_u64(b.block_nonce) + (l4 + (
    spec_transactions_json(b.transaction_list@) + (l5 + (spec_json_string(b.previous_block_hash@)
        + l6))))));
    lemma_cancel_prefix(l2, y1, y2);
    let z1 = l3 + (spec_dec_u64(a.block_nonce) + (l4 + (spec_transactions_json(
        a.transaction_list@,
    ) + (l5 + (spec_json_string(a.previous_block_hash@) + l6)))));
    let z2 = l3 + (spec_dec_u64(b.block_nonce) + (l4 + (spec_transactions_json(
        b.transaction_list@,
    ) + (l5 + (spec_json_string(b.previous_block_hash@) + l6)))));
    assert(z1[0] == ',' && z2[0] == ',');
    lemma_dec_i64_boundary(a.block_timestamp, z1, b.block_timestamp, z2);
    let u1 = spec_dec_u64(a.block_nonce) + (l4 + (spec_transactions_json(a.transaction_list@) + (l5
        + (spec_json_string(a.previous_block_hash@) + l6))));
    let u2 = spec_dec_u64(b.block_nonce) + (l4 + (spec_transactions_json(b.transaction_list@) + (l5
        + (spec_json_string(b.previous_block_hash@) + l6))));
    lemma_cancel_prefix(l3, u1, u2);
    let v1 = l4 + (spec_transactions_json(a.transaction_list@) + (l5 + (spec_json_string(
        a.previous_block_hash@,
    ) + l6)));
    let v2 = l4 + (spec_transactions_json(b.transaction_list@) + (l5 + (spec_json_string(
        b.previous_block_hash@,
    ) + l6)));
    assert(v1[0] == ',' && v2[0] == ',');
    lemma_dec_u64_boundary(a.block_nonce, v1, b.block_nonce, v2);
    lemma_cancel_prefix(
        l4,
        spec_transactions_json(a.transaction_list@) + (l5 + (spec_json_string(
            a.previous_block_hash@,
        ) + l6)),
        spec_transactions_json(b.transaction_list@) + (l5 + (spec_json_string(
            b.previous_block_hash@,
        ) + l6)),
    );
}

/// Law: the canonical encoding is lossless. Two blocks whose encodings are
/// the same character sequence hold the same field values, so a decoder of
/// the encoding recovers every field of the block that produced it.
#[verifier::rlimit(100)]
pub proof fn lemma_encoding_lossless(a: Block, b: Block)
    requires
        spec_block_json(a) == spec_block_json(b),
    ensures
        block_fields_eq(a, b),
{
    reveal_strlit("],\"previous_block_hash\":");
    let l5 = "],\"previous_block_hash\":"@;
    let l6 = "}"@;
    lemma_block_header_boundary(a, b);
    let s1 = l5 + (spec_json_string(a.previous_block_hash@) + l6);
    let s2 = l5 + (spec_json_string(b.previous_block_hash@) + l6);
    assert(s1[0] == ']' && s2[0] == ']');
    lemma_transactions_boundary(a.transaction_list@, s1, b.transaction_list@, s2);
    lemma_cancel_prefix(
        l5,
        spec_json_string(a.previous_block_hash@) + l6,
        spec_json_string(b.previous_block_hash@) + l6,
    );
    lemma_json_string_boundary(a.previous_block_hash@, l6, b.previous_block_hash@, l6);
}

} // verus!
