//! The mail server's public key, as it is stored: an X25519
//! `SubjectPublicKeyInfo` in DER (RFC 8410).

use vstd::prelude::*;

use crate::error::{ErrorKind, MailError};

verus! {

/// The fixed start of an X25519 `SubjectPublicKeyInfo` in DER:
/// `SEQUENCE { SEQUENCE { OID 1.3.101.110 }, BIT STRING { <32 raw key bytes> } }`.
pub const X25519_SPKI_PREFIX: [u8; 12] = [
    0x30,
    0x2a,
    0x30,
    0x05,
    0x06,
    0x03,
    0x2b,
    0x65,
    0x6e,
    0x03,
    0x21,
    0x00,
];

/// The `SubjectPublicKeyInfo` of an X25519 key.
pub open spec fn x25519_spki_der(key: Seq<u8>) -> Seq<u8> {
    X25519_SPKI_PREFIX@ + key
}

/// Whether `der` is the `SubjectPublicKeyInfo` of some X25519 key.
pub open spec fn is_x25519_spki_der(der: Seq<u8>) -> bool {
    der.len() == 44 && der.take(12) == X25519_SPKI_PREFIX@
}

/// The raw 32-byte X25519 key in a DER-encoded `SubjectPublicKeyInfo`.
///
/// The encoding of an X25519 key has a fixed shape, so its length and its first
/// bytes decide, and the rest is the key.
pub fn parse_x25519_spki_der(der: &[u8]) -> (r: Result<[u8; 32], MailError>)
    ensures
        match r {
            Ok(key) => {
                &&& is_x25519_spki_der(der@)
                &&& der@ == x25519_spki_der(key@)
                &&& der@.len() == 44
                &&& key@ == der@.skip(12)
            },
            Err(e) => !is_x25519_spki_der(der@) && e.says(
                ErrorKind::ConfigParsing,
                "not a valid X25519 SubjectPublicKeyInfo DER"@,
            ),
        },
{
    let mut i: usize = 0;
    while der.len() == 44 && i < 12 && der[i] == X25519_SPKI_PREFIX[i]
        invariant
            i <= 12,
            i > 0 ==> der@.len() == 44,
            forall|j: int| 0 <= j < i ==> der@[j] == X25519_SPKI_PREFIX@[j],
        decreases 12 - i,
    {
        i = i + 1;
    }
    if i < 12 {
        assert(!is_x25519_spki_der(der@)) by {
            if is_x25519_spki_der(der@) {
                assert(der@.take(12)[i as int] == X25519_SPKI_PREFIX@[i as int]);
            }
        }
        return Err(
            MailError::new(ErrorKind::ConfigParsing, "not a valid X25519 SubjectPublicKeyInfo DER"),
        );
    }
    assert(der@.take(12) =~= X25519_SPKI_PREFIX@);
    let mut key: [u8; 32] = [0u8; 32];
    let mut k: usize = 0;
    while k < 32
        invariant
            k <= 32,
            der@.len() == 44,
            key@.len() == 32,
            forall|j: int| 0 <= j < k ==> key@[j] == der@[12 + j],
        decreases 32 - k,
    {
        key[k] = der[12 + k];
        k = k + 1;
    }
    assert(der@ =~= x25519_spki_der(key@));
    assert(key@ =~= der@.skip(12));
    Ok(key)
}

/// Every 32-byte key is read back from its own encoding, and no other bytes
/// encode it.
pub proof fn law_key_encoding_round_trips(key: Seq<u8>, der: Seq<u8>)
    requires
        key.len() == 32,
    ensures
        is_x25519_spki_der(x25519_spki_der(key)),
        x25519_spki_der(key).skip(12) == key,
        is_x25519_spki_der(der) && der.skip(12) == key <==> der == x25519_spki_der(key),
{
    assert(X25519_SPKI_PREFIX@.len() == 12);
    assert(x25519_spki_der(key).take(12) =~= X25519_SPKI_PREFIX@);
    assert(x25519_spki_der(key).skip(12) =~= key);
    if is_x25519_spki_der(der) && der.skip(12) == key {
        assert(der =~= der.take(12) + der.skip(12));
    }
}

/// The encoding of a key is twelve fixed bytes and the key behind them, and
/// nothing else is one: forty-four bytes that begin with those twelve.
pub proof fn law_key_encoding_has_a_fixed_start(key: Seq<u8>, der: Seq<u8>)
    ensures
        x25519_spki_der(key) == seq![
            0x30u8,
            0x2a,
            0x30,
            0x05,
            0x06,
            0x03,
            0x2b,
            0x65,
            0x6e,
            0x03,
            0x21,
            0x00,
        ] + key,
        is_x25519_spki_der(der) <==> der.len() == 44 && der[0] == 0x30 && der[1] == 0x2a && der[2]
            == 0x30 && der[3] == 0x05 && der[4] == 0x06 && der[5] == 0x03 && der[6] == 0x2b
            && der[7] == 0x65 && der[8] == 0x6e && der[9] == 0x03 && der[10] == 0x21 && der[11]
            == 0x00,
{
    let start = seq![
        0x30u8,
        0x2a,
        0x30,
        0x05,
        0x06,
        0x03,
        0x2b,
        0x65,
        0x6e,
        0x03,
        0x21,
        0x00,
    ];
    assert(X25519_SPKI_PREFIX@ =~= start);
    if der.len() == 44 {
        if der.take(12) == start {
            assert forall|i: int| 0 <= i < 12 implies #[trigger] der[i] == start[i] by {
                assert(der.take(12)[i] == der[i]);
            }
        }
        if der[0] == 0x30 && der[1] == 0x2a && der[2] == 0x30 && der[3] == 0x05 && der[4] == 0x06
            && der[5] == 0x03 && der[6] == 0x2b && der[7] == 0x65 && der[8] == 0x6e && der[9]
            == 0x03 && der[10] == 0x21 && der[11] == 0x00 {
            assert(der.take(12) =~= start);
        }
    }
}

} // verus!
