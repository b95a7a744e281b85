//! The BLAKE3 hash of bytes.

use vstd::prelude::*;

use crate::text::chars_of;

verus! {

/// The hexadecimal digits of the hash that `acai_core::HashEntry::new` finds for
/// bytes.
pub uninterp spec fn content_hash(content: Seq<u8>) -> Seq<char>;

/// `acai_core::HashEntry::new`, as far as the hash in it.
///
/// The hash depends on the bytes alone; it is given the name [`content_hash`]. It
/// is written down in two hexadecimal digits for each of its bytes. The time that
/// the call notes beside it is left out.
#[verifier::external_body]
fn hash_hex(content: &[u8]) -> (r: String)
    ensures
        r@ == content_hash(content@),
        r@.len() == 2 * DIGEST_SIZE,
{
    acai_core::HashEntry::new(acai_core::HashKind::Payload, "", content).hash
}

/// The bytes of a hash.
pub const DIGEST_SIZE: usize = 32;

/// The value of a hexadecimal digit in lower case.
pub open spec fn hex_value(c: char) -> int {
    if '0' <= c <= '9' {
        c as int - '0' as int
    } else if 'a' <= c <= 'f' {
        c as int - 'a' as int + 10
    } else {
        0
    }
}

/// The hash of bytes.
pub open spec fn digest(content: Seq<u8>) -> Seq<u8> {
    Seq::new(
        DIGEST_SIZE as nat,
        |i: int|
            (16 * hex_value(content_hash(content)[2 * i]) + hex_value(
                content_hash(content)[2 * i + 1],
            )) as u8,
    )
}

fn value_of(c: char) -> (r: u8)
    ensures
        r == hex_value(c),
        r < 16,
{
    if '0' <= c && c <= '9' {
        (c as u32 - '0' as u32) as u8
    } else if 'a' <= c && c <= 'f' {
        (c as u32 - 'a' as u32) as u8 + 10
    } else {
        0
    }
}

/// The hash of `content`.
pub fn digest_of(content: &[u8]) -> (r: [u8; 32])
    ensures
        r@ == digest(content@),
{
    let text: String = hash_hex(content);
    let digits: Vec<char> = chars_of(text.as_str());
    let mut r: [u8; 32] = [0u8; 32];
    let mut i: usize = 0;
    while i < DIGEST_SIZE
        invariant
            i <= DIGEST_SIZE,
            digits@ == content_hash(content@),
            digits@.len() == 2 * DIGEST_SIZE,
            r@.len() == DIGEST_SIZE,
            forall|j: int| 0 <= j < i ==> r@[j] == digest(content@)[j],
        decreases DIGEST_SIZE - i,
    {
        r[i] = 16 * value_of(digits[2 * i]) + value_of(digits[2 * i + 1]);
        i = i + 1;
    }
    assert(r@ =~= digest(content@));
    r
}

/// The bytes of a hash are those that its digits spell: two digits a byte, the
/// greater one first, each `0` to `9` or `a` to `f`.
pub proof fn law_a_hash_is_what_its_digits_spell(content: Seq<u8>, i: int, x: int, y: int)
    ensures
        digest(content).len() == 32,
        0 <= i < 32 && 0 <= x < 16 && 0 <= y < 16 && content_hash(content)[2 * i] == (if x < 10 {
            '0' as int + x
        } else {
            'a' as int + x - 10
        }) as char && content_hash(content)[2 * i + 1] == (if y < 10 {
            '0' as int + y
        } else {
            'a' as int + y - 10
        }) as char ==> digest(content)[i] == 16 * x + y,
{
}

} // verus!
