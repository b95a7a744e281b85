//! JSON text: string literals and arrays of small numbers, and what they
//! determine.

use vstd::prelude::*;

use crate::text::{append_decimal, decimal, law_decimal_determines_the_number, lemma_decimal_shape};

verus! {

/// The hexadecimal digit of a number below sixteen, in lower case.
pub open spec fn hex_digit(n: int) -> char {
    if n < 10 {
        ('0' as int + n) as char
    } else {
        ('a' as int + (n - 10)) as char
    }
}

/// How a character stands in a JSON string literal.
pub open spec fn escape(c: char) -> Seq<char> {
    if c == '"' || c == '\\' {
        seq!['\\', c]
    } else if c == '\u{8}' {
        seq!['\\', 'b']
    } else if c == '\u{c}' {
        seq!['\\', 'f']
    } else if c == '\n' {
        seq!['\\', 'n']
    } else if c == '\r' {
        seq!['\\', 'r']
    } else if c == '\t' {
        seq!['\\', 't']
    } else if c as int <= 0x1f {
        seq!['\\', 'u', '0', '0', hex_digit(c as int / 16), hex_digit(c as int % 16)]
    } else {
        seq![c]
    }
}

/// The characters of `s`, each as it stands in a JSON string literal.
pub open spec fn escaped(s: Seq<char>) -> Seq<char>
    decreases s.len(),
{
    if s.len() == 0 {
        seq![]
    } else {
        escape(s.first()) + escaped(s.drop_first())
    }
}

/// The JSON string literal for `s`.
pub open spec fn json_string(s: Seq<char>) -> Seq<char> {
    seq!['"'] + escaped(s) + seq!['"']
}

/// `serde_json::to_string` on a string.
///
/// It gives the JSON string literal for `text`: the text between quotes, with
/// the quote, the backslash and the characters below U+0020 escaped and every
/// other character as it is. On a string it does not fail.
#[verifier::external_body]
pub(crate) fn string_literal(text: &str) -> (r: Result<String, String>)
    ensures
        r is Ok,
        r->Ok_0@ == json_string(text@),
{
    match serde_json::to_string(text) {
        Ok(literal) => Ok(literal),
        Err(err) => Err(err.to_string()),
    }
}

/// A quoted character never begins with a quote, and two characters whose
/// quoted forms begin the same text are one character.
proof fn lemma_escape_is_a_code(a: char, b: char, x: Seq<char>, y: Seq<char>)
    ensures
        escape(a).len() > 0,
        escape(a)[0] != '"',
        escape(a) + x == escape(b) + y ==> a == b && x == y,
{
    if escape(a) + x == escape(b) + y {
        let s = escape(a) + x;
        assert(s[0] == escape(a)[0]);
        assert(s[0] == escape(b)[0]);
        if s[0] == '\\' {
            assert(s[1] == escape(a)[1]);
            assert(s[1] == escape(b)[1]);
            if s[1] == 'u' {
                assert(s[4] == escape(a)[4]);
                assert(s[4] == escape(b)[4]);
                assert(s[5] == escape(a)[5]);
                assert(s[5] == escape(b)[5]);
                assert(a as int / 16 == b as int / 16);
                assert(a as int % 16 == b as int % 16);
            }
        }
        assert(a == b);
        assert(x =~= s.skip(escape(a).len() as int));
        assert(y =~= s.skip(escape(a).len() as int));
    }
}

proof fn lemma_escaped_is_a_code(a: Seq<char>, b: Seq<char>, x: Seq<char>, y: Seq<char>)
    requires
        escaped(a) + seq!['"'] + x == escaped(b) + seq!['"'] + y,
    ensures
        a == b,
        x == y,
    decreases a.len() + b.len(),
{
    let quote = seq!['"'];
    let s = escaped(a) + quote + x;
    if a.len() == 0 && b.len() == 0 {
        assert(x =~= s.skip(1));
        assert(y =~= s.skip(1));
    } else if a.len() == 0 {
        lemma_escape_is_a_code(b.first(), b.first(), x, x);
        assert(s[0] == '"');
        assert(s[0] == escape(b.first())[0]);
    } else if b.len() == 0 {
        lemma_escape_is_a_code(a.first(), a.first(), x, x);
        assert(s[0] == '"');
        assert(s[0] == escape(a.first())[0]);
    } else {
        let p = escaped(a.drop_first()) + quote + x;
        let q = escaped(b.drop_first()) + quote + y;
        assert(escape(a.first()) + p =~= s);
        assert(escape(b.first()) + q =~= s);
        lemma_escape_is_a_code(a.first(), b.first(), p, q);
        lemma_escaped_is_a_code(a.drop_first(), b.drop_first(), x, y);
        assert(a =~= seq![a.first()] + a.drop_first());
        assert(b =~= seq![b.first()] + b.drop_first());
    }
}

/// A JSON string literal at the start of a text determines the string it
/// stands for, and where it ends.
pub proof fn law_json_string_is_a_code(a: Seq<char>, b: Seq<char>, x: Seq<char>, y: Seq<char>)
    requires
        json_string(a) + x == json_string(b) + y,
    ensures
        a == b,
        x == y,
{
    let s = json_string(a) + x;
    assert(escaped(a) + seq!['"'] + x =~= s.skip(1));
    assert(escaped(b) + seq!['"'] + y =~= s.skip(1));
    lemma_escaped_is_a_code(a, b, x, y);
}

/// The numbers in `bytes`, with commas between them.
pub open spec fn json_numbers(bytes: Seq<u8>) -> Seq<char>
    decreases bytes.len(),
{
    if bytes.len() == 0 {
        seq![]
    } else if bytes.len() == 1 {
        decimal(bytes[0] as nat)
    } else {
        json_numbers(bytes.drop_last()).push(',') + decimal(bytes.last() as nat)
    }
}

/// The JSON array of the numbers in `bytes`.
pub open spec fn json_array(bytes: Seq<u8>) -> Seq<char> {
    seq!['['] + json_numbers(bytes) + seq![']']
}

/// Appends the JSON array of the numbers in `bytes` to `out`.
pub(crate) fn append_array(out: &mut String, bytes: &[u8])
    ensures
        final(out)@ == old(out)@ + json_array(bytes@),
{
    proof {
        reveal_strlit("[");
        reveal_strlit(",");
        reveal_strlit("]");
    }
    let ghost before = out@;
    out.append("[");
    let mut i: usize = 0;
    assert(out@ =~= before + seq!['['] + json_numbers(bytes@.take(0)));
    while i < bytes.len()
        invariant
            i <= bytes@.len(),
            ","@ == seq![','],
            out@ == before + seq!['['] + json_numbers(bytes@.take(i as int)),
        decreases bytes@.len() - i,
    {
        let ghost done = bytes@.take(i as int);
        let ghost more = bytes@.take(i + 1);
        assert(more.drop_last() =~= done);
        assert(more.last() == bytes@[i as int]);
        if i > 0 {
            out.append(",");
        }
        append_decimal(out, bytes[i] as u64);
        i = i + 1;
        assert(out@ =~= before + seq!['['] + json_numbers(more));
    }
    assert(bytes@.take(i as int) =~= bytes@);
    out.append("]");
    assert(out@ =~= before + json_array(bytes@));
}

/// Two texts that end in a comma and then no other comma are cut at the same
/// place.
proof fn lemma_last_comma(p: Seq<char>, d: Seq<char>, q: Seq<char>, e: Seq<char>)
    requires
        p.push(',') + d == q.push(',') + e,
        forall|i: int| 0 <= i < d.len() ==> '0' <= #[trigger] d[i] <= '9',
        forall|i: int| 0 <= i < e.len() ==> '0' <= #[trigger] e[i] <= '9',
    ensures
        p == q,
        d == e,
{
    let s = p.push(',') + d;
    assert(s.len() == p.len() + 1 + d.len());
    assert(s.len() == q.len() + 1 + e.len());
    assert(s[p.len() as int] == ',');
    assert((q.push(',') + e)[q.len() as int] == ',');
    if p.len() < q.len() {
        assert(s[q.len() as int] == d[q.len() - p.len() - 1]);
    } else if q.len() < p.len() {
        assert((q.push(',') + e)[p.len() as int] == e[p.len() - q.len() - 1]);
    }
    assert(p =~= s.take(p.len() as int));
    assert(q =~= s.take(p.len() as int));
    assert(d =~= s.skip(p.len() as int + 1));
    assert(e =~= s.skip(p.len() as int + 1));
}

/// A JSON array of numbers determines the numbers.
pub proof fn law_json_array_determines_the_numbers(a: Seq<u8>, b: Seq<u8>)
    requires
        json_array(a) == json_array(b),
    ensures
        a == b,
{
    assert(json_numbers(a) =~= json_array(a).subrange(1, json_array(a).len() - 1));
    assert(json_numbers(b) =~= json_array(b).subrange(1, json_array(b).len() - 1));
    lemma_numbers_determine(a, b);
}

proof fn lemma_numbers_determine(a: Seq<u8>, b: Seq<u8>)
    requires
        json_numbers(a) == json_numbers(b),
    ensures
        a == b,
    decreases a.len(),
{
    if a.len() > 0 {
        lemma_decimal_shape(a.last() as nat);
    }
    if b.len() > 0 {
        lemma_decimal_shape(b.last() as nat);
    }
    if a.len() > 1 && b.len() > 1 {
        lemma_last_comma(
            json_numbers(a.drop_last()),
            decimal(a.last() as nat),
            json_numbers(b.drop_last()),
            decimal(b.last() as nat),
        );
        lemma_numbers_determine(a.drop_last(), b.drop_last());
        law_decimal_determines_the_number(a.last() as nat, b.last() as nat);
        assert(a =~= a.drop_last().push(a.last()));
        assert(b =~= b.drop_last().push(b.last()));
    } else if a.len() > 1 {
        let k = json_numbers(a.drop_last()).len() as int;
        assert(k < json_numbers(a).len());
        assert(json_numbers(a)[k] == ',');
        if b.len() == 1 {
            assert('0' <= decimal(b[0] as nat)[k] <= '9');
        }
    } else if b.len() > 1 {
        let k = json_numbers(b.drop_last()).len() as int;
        assert(k < json_numbers(b).len());
        assert(json_numbers(b)[k] == ',');
        if a.len() == 1 {
            assert('0' <= decimal(a[0] as nat)[k] <= '9');
        }
    } else if a.len() == 1 && b.len() == 1 {
        law_decimal_determines_the_number(a[0] as nat, b[0] as nat);
        assert(a =~= b);
    } else {
        assert(a =~= b);
    }
}

/// How a text is spelled in JSON: quotes around it, the quote, the backslash and
/// the five control characters with a letter of their own behind a backslash, the
/// other control characters by their number, and every other character as it is.
pub proof fn law_json_strings_are_spelled_character_by_character(c: char, s: Seq<char>)
    ensures
        json_string(seq![]) == seq!['"', '"'],
        json_string(seq![c] + s).skip(1) == (if c == '"' {
            seq!['\\', '"']
        } else if c == '\\' {
            seq!['\\', '\\']
        } else if c == '\u{8}' {
            seq!['\\', 'b']
        } else if c == '\u{9}' {
            seq!['\\', 't']
        } else if c == '\u{a}' {
            seq!['\\', 'n']
        } else if c == '\u{c}' {
            seq!['\\', 'f']
        } else if c == '\u{d}' {
            seq!['\\', 'r']
        } else if 0x1a <= c as int && c as int <= 0x1f {
            seq!['\\', 'u', '0', '0', '1', ('a' as int + (c as int - 0x1a)) as char]
        } else if 0x10 <= c as int && c as int <= 0x19 {
            seq!['\\', 'u', '0', '0', '1', ('0' as int + (c as int - 0x10)) as char]
        } else if 0xa <= c as int && c as int <= 0xf {
            seq!['\\', 'u', '0', '0', '0', ('a' as int + (c as int - 0xa)) as char]
        } else if c as int <= 9 {
            seq!['\\', 'u', '0', '0', '0', ('0' as int + c as int) as char]
        } else {
            seq![c]
        }) + json_string(s).skip(1),
        json_string(seq![c] + s).first() == '"',
{
    assert(json_string(seq![]) =~= seq!['"', '"']);
    let t = seq![c] + s;
    assert(t.first() == c);
    assert(t.drop_first() =~= s);
    assert(json_string(t).skip(1) =~= escape(c) + json_string(s).skip(1));
}

/// How numbers are listed in JSON: in their order, in decimal, with commas between
/// them and brackets around them.
pub proof fn law_json_arrays_are_listed_number_by_number(bytes: Seq<u8>, b: u8)
    ensures
        json_array(seq![]) == seq!['[', ']'],
        json_array(seq![b]) == seq!['['] + decimal(b as nat) + seq![']'],
        bytes.len() > 0 ==> json_array(bytes.push(b)) == json_array(bytes).drop_last() + seq![',']
            + decimal(b as nat) + seq![']'],
{
    assert(json_array(seq![]) =~= seq!['[', ']']);
    assert(bytes.push(b).drop_last() =~= bytes);
    if bytes.len() > 0 {
        assert(json_array(bytes.push(b)) =~= json_array(bytes).drop_last() + seq![','] + decimal(
            b as nat,
        ) + seq![']']);
    }
}

/// A JSON array of four numbers, spelled out.
pub proof fn law_json_array_of_four(a: u8, b: u8, c: u8, d: u8)
    ensures
        json_array(seq![a, b, c, d]) == seq!['['] + decimal(a as nat) + seq![','] + decimal(
            b as nat,
        ) + seq![','] + decimal(c as nat) + seq![','] + decimal(d as nat) + seq![']'],
{
    law_json_arrays_are_listed_number_by_number(seq![], a);
    law_json_arrays_are_listed_number_by_number(seq![a], b);
    law_json_arrays_are_listed_number_by_number(seq![a, b], c);
    law_json_arrays_are_listed_number_by_number(seq![a, b, c], d);
    assert(seq![a].push(b) =~= seq![a, b]);
    assert(seq![a, b].push(c) =~= seq![a, b, c]);
    assert(seq![a, b, c].push(d) =~= seq![a, b, c, d]);
    assert(json_array(seq![a, b, c, d]) =~= seq!['['] + decimal(a as nat) + seq![','] + decimal(
        b as nat,
    ) + seq![','] + decimal(c as nat) + seq![','] + decimal(d as nat) + seq![']']);
}

} // verus!
