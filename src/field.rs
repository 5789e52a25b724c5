//! The outside arithmetic this library relies on: SHA-256 digests and
//! reduction of big numbers modulo a decimal modulus.
use crate::digits::{dec_value, decimal_of, is_decimal_text};
use vstd::prelude::*;
use vstd::string::StringSliceAdditionalSpecFns;

verus! {

/// The SHA-256 digest of a byte string.
pub uninterp spec fn sha256_of(data: Seq<u8>) -> Seq<u8>;

/// The number that a byte string denotes, read big-endian.
pub open spec fn be_value(b: Seq<u8>) -> nat
    decreases b.len(),
{
    if b.len() == 0 {
        0
    } else {
        256 * be_value(b.drop_last()) + b.last() as nat
    }
}

/// Relies on sha2's `Sha256::digest`: the digest of the UTF-8 bytes of `text`.
#[verifier::external_body]
pub(crate) fn sha256_digest(text: &str) -> (r: Vec<u8>)
    ensures
        r@ == sha256_of(text.spec_bytes()),
{
    <sha2::Sha256 as sha2::Digest>::digest(text.as_bytes()).to_vec()
}

/// Relies on num-bigint: `BigUint::from_bytes_be` reads `bytes` big-endian,
/// `BigUint`'s `FromStr` reads the modulus digits, `%` takes the remainder and
/// `to_string` writes it in canonical decimal.
#[verifier::external_body]
pub(crate) fn reduce_be_bytes(bytes: &[u8], modulus: &str) -> (r: String)
    requires
        is_decimal_text(modulus@),
        dec_value(modulus@) > 0,
    ensures
        r@ == decimal_of(be_value(bytes@) % dec_value(modulus@)),
{
    let m = modulus.parse::<num_bigint::BigUint>().unwrap();
    (num_bigint::BigUint::from_bytes_be(bytes) % m).to_string()
}

/// Relies on num-bigint: `BigUint::from(u64)`, `BigUint`'s `FromStr` on the
/// modulus digits, `%` and `to_string` in canonical decimal.
#[verifier::external_body]
pub(crate) fn reduce_u64(n: u64, modulus: &str) -> (r: String)
    requires
        is_decimal_text(modulus@),
        dec_value(modulus@) > 0,
    ensures
        r@ == decimal_of(n as nat % dec_value(modulus@)),
{
    let m = modulus.parse::<num_bigint::BigUint>().unwrap();
    (num_bigint::BigUint::from(n) % m).to_string()
}

/// Relies on num-bigint: `BigUint`'s `FromStr` on two digit strings and its `<`.
#[verifier::external_body]
pub(crate) fn decimal_below(value: &str, modulus: &str) -> (r: bool)
    requires
        is_decimal_text(value@),
        is_decimal_text(modulus@),
    ensures
        r == (dec_value(value@) < dec_value(modulus@)),
{
    let v = value.parse::<num_bigint::BigUint>().unwrap();
    let m = modulus.parse::<num_bigint::BigUint>().unwrap();
    v < m
}

} // verus!
