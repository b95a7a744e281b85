//! Issuing a bundle to one identity: the request that a container is built from.

use vstd::prelude::*;
use vstd::utf8::{encode_utf8, encode_utf8_decode_utf8};

use crate::bundle::LEDGER_SECRET_TLV_TYPE;
use crate::json::{
    append_array, json_array, law_json_array_determines_the_numbers, law_json_array_of_four,
};
use crate::text::{
    append_decimal, decimal, law_decimal_determines_the_number,
    law_decimals_are_built_digit_by_digit, lemma_decimal_shape, lemma_regroup,
    lemma_same_start,
};

verus! {

/// How a container is cut into chunks. `None` leaves the container's own default
/// in place, which is padding and a target size of about 32 MiB.
///
/// Neither of the two has a say in the region that every container sets aside for
/// its chunk index, some 50 MiB whatever it holds: that region is most of a small
/// bundle.
#[derive(Debug, Clone, Copy)]
pub struct BundleChunkOptions {
    pub chunk_padding: Option<bool>,
    pub chunk_target_size: Option<u64>,
}

impl Default for BundleChunkOptions {
    /// The container's own defaults.
    fn default() -> (options: BundleChunkOptions)
        ensures
            options.chunk_padding is None,
            options.chunk_target_size is None,
    {
        BundleChunkOptions { chunk_padding: None, chunk_target_size: None }
    }
}

/// How a truth value stands in JSON.
pub open spec fn json_bool(b: bool) -> Seq<char> {
    if b {
        "true"@
    } else {
        "false"@
    }
}

/// The member of a request that sets the padding, where it is set.
pub open spec fn padding_member(padding: Option<bool>) -> Seq<char> {
    match padding {
        None => seq![],
        Some(b) => "\"chunk_padding\":"@ + json_bool(b) + ","@,
    }
}

/// The member of a request that sets the target size, where it is set.
pub open spec fn target_size_member(target_size: Option<u64>) -> Seq<char> {
    match target_size {
        None => seq![],
        Some(n) => "\"chunk_target_size\":"@ + decimal(n as nat) + ","@,
    }
}

/// The member of a request that puts the identity secret into the container: a
/// TLV of its own type that is immutable, secret and not critical.
pub open spec fn secret_member(secret: Seq<u8>) -> Seq<char> {
    "\"extra_tlvs\":[{\"critical\":false,\"immutable\":true,\"secret\":true,\"ty\":"@ + decimal(
        LEDGER_SECRET_TLV_TYPE as nat,
    ) + ",\"value\":"@ + json_array(secret) + "}]"@
}

/// The request for a container that carries the secret: a JSON object with its
/// members in the order of their names.
pub open spec fn request(secret: Seq<u8>, options: BundleChunkOptions) -> Seq<char> {
    "{"@ + padding_member(options.chunk_padding) + target_size_member(options.chunk_target_size)
        + secret_member(secret) + "}"@
}

/// The request to build a container that carries `secret`, as JSON in UTF-8.
pub fn secret_tlv_request(secret: [u8; 4], options: BundleChunkOptions) -> (r: Vec<u8>)
    ensures
        r@ == encode_utf8(request(secret@, options)),
{
    let mut out: String = String::new();
    out.append("{");
    if let Some(padding) = options.chunk_padding {
        out.append("\"chunk_padding\":");
        if padding {
            out.append("true");
        } else {
            out.append("false");
        }
        out.append(",");
    }
    assert(out@ =~= "{"@ + padding_member(options.chunk_padding));
    if let Some(target_size) = options.chunk_target_size {
        out.append("\"chunk_target_size\":");
        append_decimal(&mut out, target_size);
        out.append(",");
    }
    assert(out@ =~= "{"@ + padding_member(options.chunk_padding) + target_size_member(
        options.chunk_target_size,
    ));
    out.append(
        "\"extra_tlvs\":[{\"critical\":false,\"immutable\":true,\"secret\":true,\"ty\":",
    );
    append_decimal(&mut out, LEDGER_SECRET_TLV_TYPE as u64);
    out.append(",\"value\":");
    append_array(&mut out, &secret);
    out.append("}]");
    out.append("}");
    assert(out@ =~= request(secret@, options));
    out.as_str().as_bytes_vec()
}

/// Where nothing is set, the request speaks of the secret alone.
pub proof fn law_unset_options_are_left_out(secret: Seq<u8>, options: BundleChunkOptions)
    requires
        options.chunk_padding is None,
        options.chunk_target_size is None,
    ensures
        request(secret, options) == "{"@ + secret_member(secret) + "}"@,
{
    assert(request(secret, options) =~= "{"@ + secret_member(secret) + "}"@);
}

/// The request determines the secret and the options: no two bundles that are
/// issued differently are asked for alike.
pub proof fn law_request_determines_secret_and_options(
    secret: Seq<u8>,
    options: BundleChunkOptions,
    other_secret: Seq<u8>,
    other_options: BundleChunkOptions,
)
    requires
        encode_utf8(request(secret, options)) == encode_utf8(request(other_secret, other_options)),
    ensures
        secret == other_secret,
        options == other_options,
{
    encode_utf8_decode_utf8(request(secret, options));
    encode_utf8_decode_utf8(request(other_secret, other_options));
    let a1 = secret_member(secret) + "}"@;
    let b1 = secret_member(other_secret) + "}"@;
    let a2 = target_size_member(options.chunk_target_size) + a1;
    let b2 = target_size_member(other_options.chunk_target_size) + b1;
    let a3 = padding_member(options.chunk_padding) + a2;
    let b3 = padding_member(other_options.chunk_padding) + b2;
    assert(request(secret, options) =~= "{"@ + a3);
    assert(request(other_secret, other_options) =~= "{"@ + b3);
    lemma_same_start("{"@, a3, b3);
    lemma_secret_member_start(secret);
    lemma_secret_member_start(other_secret);
    lemma_target_size_start(options.chunk_target_size, a1);
    lemma_target_size_start(other_options.chunk_target_size, b1);
    lemma_padding_first(options.chunk_padding, a2, other_options.chunk_padding, b2);
    lemma_target_size_first(
        options.chunk_target_size,
        a1,
        other_options.chunk_target_size,
        b1,
    );
    lemma_secret_member_determines_the_secret(secret, other_secret);
}

/// The member with the secret starts like no other.
proof fn lemma_secret_member_start(secret: Seq<u8>)
    ensures
        secret_member(secret).len() > 2,
        secret_member(secret)[1] == 'e',
{
    reveal_strlit(
        "\"extra_tlvs\":[{\"critical\":false,\"immutable\":true,\"secret\":true,\"ty\":",
    );
}

/// What comes behind the padding does not start as the padding does.
proof fn lemma_target_size_start(target_size: Option<u64>, rest: Seq<char>)
    requires
        rest.len() > 2,
        rest[1] == 'e',
    ensures
        (target_size_member(target_size) + rest).len() > 2,
        (target_size_member(target_size) + rest)[1] == 'e' || ((target_size_member(target_size)
            + rest).len() > 10 && (target_size_member(target_size) + rest)[1] == 'c' && (
        target_size_member(target_size) + rest)[7] == 't'),
{
    reveal_strlit("\"chunk_target_size\":");
    if target_size is None {
        assert(target_size_member(target_size) + rest =~= rest);
    }
}

proof fn lemma_padding_first(
    a: Option<bool>,
    x: Seq<char>,
    b: Option<bool>,
    y: Seq<char>,
)
    requires
        padding_member(a) + x == padding_member(b) + y,
        x.len() > 2,
        x[1] == 'e' || (x.len() > 10 && x[1] == 'c' && x[7] == 't'),
        y.len() > 2,
        y[1] == 'e' || (y.len() > 10 && y[1] == 'c' && y[7] == 't'),
    ensures
        a == b,
        x == y,
{
    let s = padding_member(a) + x;
    let t = padding_member(b) + y;
    let key = "\"chunk_padding\":"@;
    reveal_strlit("\"chunk_padding\":");
    reveal_strlit("true");
    reveal_strlit("false");
    if a is None {
        assert(s =~= x);
    } else {
        assert(s[1] == 'c' && s[7] == 'p');
        assert(s[key.len() as int] == json_bool(a->Some_0)[0]);
    }
    if b is None {
        assert(t =~= y);
    } else {
        assert(t[1] == 'c' && t[7] == 'p');
        assert(t[key.len() as int] == json_bool(b->Some_0)[0]);
    }
    if a is Some && b is Some {
        assert(a->Some_0 == b->Some_0);
        lemma_same_start(padding_member(a), x, y);
    }
}

proof fn lemma_target_size_first(
    a: Option<u64>,
    x: Seq<char>,
    b: Option<u64>,
    y: Seq<char>,
)
    requires
        target_size_member(a) + x == target_size_member(b) + y,
        x.len() > 2,
        x[1] == 'e',
        y.len() > 2,
        y[1] == 'e',
    ensures
        a == b,
        x == y,
{
    let s = target_size_member(a) + x;
    let t = target_size_member(b) + y;
    let key = "\"chunk_target_size\":"@;
    reveal_strlit("\"chunk_target_size\":");
    reveal_strlit(",");
    if a is None {
        assert(s =~= x);
    } else {
        assert(s[1] == 'c');
    }
    if b is None {
        assert(t =~= y);
    } else {
        assert(t[1] == 'c');
    }
    if a is Some && b is Some {
        let d = decimal(a->Some_0 as nat);
        let e = decimal(b->Some_0 as nat);
        assert(s =~= key + (d.push(',') + x));
        assert(t =~= key + (e.push(',') + y));
        lemma_same_start(key, d.push(',') + x, e.push(',') + y);
        lemma_decimal_shape(a->Some_0 as nat);
        lemma_decimal_shape(b->Some_0 as nat);
        lemma_first_comma(d, x, e, y);
        law_decimal_determines_the_number(a->Some_0 as nat, b->Some_0 as nat);
    }
}

/// Two texts that start with digits and then a comma are cut at the same place.
proof fn lemma_first_comma(d: Seq<char>, x: Seq<char>, e: Seq<char>, y: Seq<char>)
    requires
        d.push(',') + x == e.push(',') + y,
        forall|i: int| 0 <= i < d.len() ==> '0' <= #[trigger] d[i] <= '9',
        forall|i: int| 0 <= i < e.len() ==> '0' <= #[trigger] e[i] <= '9',
    ensures
        d == e,
        x == y,
{
    let s = d.push(',') + x;
    let t = e.push(',') + y;
    assert(s[d.len() as int] == ',');
    assert(t[e.len() as int] == ',');
    if d.len() < e.len() {
        assert(t[d.len() as int] == e[d.len() as int]);
    } else if e.len() < d.len() {
        assert(s[e.len() as int] == d[e.len() as int]);
    }
    assert(d =~= s.take(d.len() as int));
    assert(e =~= t.take(d.len() as int));
    lemma_same_start(d.push(','), x, y);
}

proof fn lemma_secret_member_determines_the_secret(a: Seq<u8>, b: Seq<u8>)
    requires
        secret_member(a) + "}"@ == secret_member(b) + "}"@,
    ensures
        a == b,
{
    let start = "\"extra_tlvs\":[{\"critical\":false,\"immutable\":true,\"secret\":true,\"ty\":"@
        + decimal(LEDGER_SECRET_TLV_TYPE as nat) + ",\"value\":"@;
    let end = "}]"@ + "}"@;
    assert(secret_member(a) + "}"@ =~= start + (json_array(a) + end));
    assert(secret_member(b) + "}"@ =~= start + (json_array(b) + end));
    lemma_same_start(start, json_array(a) + end, json_array(b) + end);
    assert((json_array(a) + end).len() == (json_array(b) + end).len());
    assert(json_array(a) =~= (json_array(a) + end).take(json_array(a).len() as int));
    assert(json_array(b) =~= (json_array(b) + end).take(json_array(a).len() as int));
    law_json_array_determines_the_numbers(a, b);
}

/// What a container is asked for, to the letter: an object with the padding and
/// the target size where they are set, and with one TLV, of the type of identity
/// secrets, whose value is the four bytes of the secret in their order.
pub proof fn law_the_request_carries_the_secret_and_the_options(
    a: u8,
    b: u8,
    c: u8,
    d: u8,
    options: BundleChunkOptions,
)
    ensures
        request(seq![a, b, c, d], options) == "{"@ + (match options.chunk_padding {
            None => ""@,
            Some(true) => "\"chunk_padding\":true,"@,
            Some(false) => "\"chunk_padding\":false,"@,
        }) + (match options.chunk_target_size {
            None => ""@,
            Some(n) => "\"chunk_target_size\":"@ + decimal(n as nat) + ","@,
        })
            + "\"extra_tlvs\":[{\"critical\":false,\"immutable\":true,\"secret\":true,\"ty\":49153,\"value\":["@
            + decimal(a as nat) + ","@ + decimal(b as nat) + ","@ + decimal(c as nat) + ","@
            + decimal(d as nat) + "]}]}"@,
{
    let x = "{"@ + padding_member(options.chunk_padding) + target_size_member(
        options.chunk_target_size,
    );
    lemma_option_members(options);
    let start =
        "\"extra_tlvs\":[{\"critical\":false,\"immutable\":true,\"secret\":true,\"ty\":49153,\"value\":["@;
    let y1 = start + decimal(a as nat);
    let y2 = y1 + ","@;
    let y3 = y2 + decimal(b as nat);
    let y4 = y3 + ","@;
    let y5 = y4 + decimal(c as nat);
    let y6 = y5 + ","@;
    let y7 = y6 + decimal(d as nat);
    lemma_secret_member_of_four(a, b, c, d);
    lemma_regroup(x, secret_member(seq![a, b, c, d]), "}"@);
    lemma_regroup(x, y7, "]}]}"@);
    lemma_regroup(x, y6, decimal(d as nat));
    lemma_regroup(x, y5, ","@);
    lemma_regroup(x, y4, decimal(c as nat));
    lemma_regroup(x, y3, ","@);
    lemma_regroup(x, y2, decimal(b as nat));
    lemma_regroup(x, y1, ","@);
    lemma_regroup(x, start, decimal(a as nat));
}

proof fn lemma_option_members(options: BundleChunkOptions)
    ensures
        padding_member(options.chunk_padding) == (match options.chunk_padding {
            None => ""@,
            Some(true) => "\"chunk_padding\":true,"@,
            Some(false) => "\"chunk_padding\":false,"@,
        }),
        target_size_member(options.chunk_target_size) == (match options.chunk_target_size {
            None => ""@,
            Some(n) => "\"chunk_target_size\":"@ + decimal(n as nat) + ","@,
        }),
{
    reveal_strlit("");
    reveal_strlit(",");
    reveal_strlit("\"chunk_padding\":");
    reveal_strlit("true");
    reveal_strlit("false");
    reveal_strlit("\"chunk_padding\":true,");
    reveal_strlit("\"chunk_padding\":false,");
    assert(""@ =~= seq![]);
    assert("\"chunk_padding\":"@ + "true"@ + ","@ =~= "\"chunk_padding\":true,"@);
    assert("\"chunk_padding\":"@ + "false"@ + ","@ =~= "\"chunk_padding\":false,"@);
}

proof fn lemma_secret_member_of_four(a: u8, b: u8, c: u8, d: u8)
    ensures
        secret_member(seq![a, b, c, d]) + "}"@
            == "\"extra_tlvs\":[{\"critical\":false,\"immutable\":true,\"secret\":true,\"ty\":49153,\"value\":["@
            + decimal(a as nat) + ","@ + decimal(b as nat) + ","@ + decimal(c as nat) + ","@
            + decimal(d as nat) + "]}]}"@,
{
    let head = "\"extra_tlvs\":[{\"critical\":false,\"immutable\":true,\"secret\":true,\"ty\":"@
        + decimal(LEDGER_SECRET_TLV_TYPE as nat) + ",\"value\":"@;
    let secret = seq![a, b, c, d];
    let z1 = seq!['['] + decimal(a as nat);
    let z2 = z1 + seq![','];
    let z3 = z2 + decimal(b as nat);
    let z4 = z3 + seq![','];
    let z5 = z4 + decimal(c as nat);
    let z6 = z5 + seq![','];
    let z7 = z6 + decimal(d as nat);
    law_json_array_of_four(a, b, c, d);
    assert(json_array(secret) == z7 + seq![']']);
    lemma_start_of_the_secret_member();
    assert(","@ =~= seq![',']) by {
        reveal_strlit(",");
    }
    assert(seq![']'] + ("}]"@ + "}"@) =~= "]}]}"@) by {
        reveal_strlit("}");
        reveal_strlit("}]");
        reveal_strlit("]}]}");
    }
    lemma_regroup(head, z7, seq![']']);
    lemma_regroup(head + z7, seq![']'], "}]"@);
    lemma_regroup(head + z7, seq![']'] + "}]"@, "}"@);
    lemma_regroup(seq![']'], "}]"@, "}"@);
    lemma_regroup(head, z6, decimal(d as nat));
    lemma_regroup(head, z5, seq![',']);
    lemma_regroup(head, z4, decimal(c as nat));
    lemma_regroup(head, z3, seq![',']);
    lemma_regroup(head, z2, decimal(b as nat));
    lemma_regroup(head, z1, seq![',']);
    lemma_regroup(head, seq!['['], decimal(a as nat));
}

proof fn lemma_start_of_the_secret_member()
    ensures
        "\"extra_tlvs\":[{\"critical\":false,\"immutable\":true,\"secret\":true,\"ty\":"@ + decimal(
            LEDGER_SECRET_TLV_TYPE as nat,
        ) + ",\"value\":"@ + seq!['[']
            == "\"extra_tlvs\":[{\"critical\":false,\"immutable\":true,\"secret\":true,\"ty\":49153,\"value\":["@,
{
    reveal_strlit(
        "\"extra_tlvs\":[{\"critical\":false,\"immutable\":true,\"secret\":true,\"ty\":",
    );
    reveal_strlit(",\"value\":");
    reveal_strlit(
        "\"extra_tlvs\":[{\"critical\":false,\"immutable\":true,\"secret\":true,\"ty\":49153,\"value\":[",
    );
    law_decimals_are_built_digit_by_digit(0, 4);
    law_decimals_are_built_digit_by_digit(4, 9);
    law_decimals_are_built_digit_by_digit(49, 1);
    law_decimals_are_built_digit_by_digit(491, 5);
    law_decimals_are_built_digit_by_digit(4915, 3);
    assert(decimal(49153) =~= seq!['4', '9', '1', '5', '3']);
    assert("\"extra_tlvs\":[{\"critical\":false,\"immutable\":true,\"secret\":true,\"ty\":"@ + decimal(
        LEDGER_SECRET_TLV_TYPE as nat,
    ) + ",\"value\":"@ + seq!['[']
        =~= "\"extra_tlvs\":[{\"critical\":false,\"immutable\":true,\"secret\":true,\"ty\":49153,\"value\":["@);
}

} // verus!
