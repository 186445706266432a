//! Natural numbers as big-endian byte strings, and the arithmetic on them that
//! the key exchange needs.
//!
//! The numbers are far larger than a machine word. They travel as bytes, most
//! significant byte first, and their value as a natural number is what the
//! contracts speak of.

use num_bigint::{BigUint, RandBigInt};
use vstd::arithmetic::power::pow;
use vstd::prelude::*;

verus! {

/// The number that `bytes` spell, most significant byte first. No bytes spell
/// zero, and leading zero bytes change nothing.
pub open spec fn be_nat(bytes: Seq<u8>) -> nat
    decreases bytes.len(),
{
    if bytes.len() == 0 {
        0
    } else {
        be_nat(bytes.drop_last()) * 256 + bytes.last() as nat
    }
}

/// The shortest big-endian spelling of `n`: one zero byte for zero, and no
/// leading zero byte otherwise.
pub open spec fn minimal_be(n: nat) -> Seq<u8>
    decreases n,
{
    if n < 256 {
        seq![n as u8]
    } else {
        minimal_be(n / 256).push((n % 256) as u8)
    }
}

/// `base` to the power `exponent`, reduced by `modulus`.
pub open spec fn mod_pow_nat(base: nat, exponent: nat, modulus: nat) -> nat {
    (pow(base as int, exponent) % (modulus as int)) as nat
}

/// The shortest spelling of a number spells that number.
pub proof fn lemma_be_nat_of_minimal_be(n: nat)
    ensures
        be_nat(minimal_be(n)) == n,
    decreases n,
{
    if n < 256 {
        assert(be_nat(seq![n as u8].drop_last()) == 0);
    } else {
        assert(minimal_be(n).drop_last() =~= minimal_be(n / 256));
        lemma_be_nat_of_minimal_be(n / 256);
    }
}

/// The shortest spelling has at least one byte, a single one exactly for the
/// numbers below 256, and no leading zero byte but for zero itself.
pub proof fn lemma_minimal_be_shape(n: nat)
    ensures
        minimal_be(n).len() >= 1,
        minimal_be(n).len() == 1 <==> n < 256,
        n > 0 ==> minimal_be(n)[0] != 0,
    decreases n,
{
    if n >= 256 {
        lemma_minimal_be_shape(n / 256);
    }
}

/// The shortest spelling of a number is no longer than any spelling of a
/// number that is at least as large.
pub proof fn lemma_minimal_be_len_bound(n: nat, bytes: Seq<u8>)
    requires
        bytes.len() >= 1,
        n <= be_nat(bytes),
    ensures
        minimal_be(n).len() <= bytes.len(),
    decreases bytes.len(),
{
    if n >= 256 {
        let high = bytes.drop_last();
        // One byte spells less than 256, so there are two or more.
        assert(bytes.len() >= 2) by {
            if bytes.len() == 1 {
                assert(high =~= Seq::<u8>::empty());
            }
        }
        lemma_minimal_be_len_bound(n / 256, high);
    }
}

/// A spelling whose leading byte is not zero spells a number that is not
/// zero, and one of at least 256 where it has two bytes or more.
pub proof fn lemma_be_nat_lower_bound(bytes: Seq<u8>)
    requires
        bytes.len() >= 1,
        bytes[0] != 0,
    ensures
        be_nat(bytes) >= 1,
        bytes.len() >= 2 ==> be_nat(bytes) >= 256,
    decreases bytes.len(),
{
    if bytes.len() > 1 {
        lemma_be_nat_lower_bound(bytes.drop_last());
    }
}

/// `BigUint::modpow` on numbers spelled in big-endian bytes, which
/// `BigUint::from_bytes_be` reads and `BigUint::to_bytes_be` writes in their
/// shortest form: the power of `base` by `exponent`, reduced by `modulus`.
/// The crate panics on a zero modulus.
#[verifier::external_body]
pub(crate) fn mod_pow(base: &[u8], exponent: &[u8], modulus: &[u8]) -> (out: Vec<u8>)
    requires
        be_nat(modulus@) != 0,
    ensures
        out@ == minimal_be(mod_pow_nat(be_nat(base@), be_nat(exponent@), be_nat(modulus@))),
{
    let base = BigUint::from_bytes_be(base);
    let exponent = BigUint::from_bytes_be(exponent);
    let modulus = BigUint::from_bytes_be(modulus);
    base.modpow(&exponent, &modulus).to_bytes_be()
}

/// `RandBigInt::gen_biguint_range` on `rand`'s thread-local generator: some
/// number from `low` up to, not including, `high`, in its shortest spelling.
/// Which one is not known. The crate panics unless `low` is below `high`.
#[verifier::external_body]
pub(crate) fn random_in_range(low: &[u8], high: &[u8]) -> (out: Vec<u8>)
    requires
        be_nat(low@) < be_nat(high@),
    ensures
        be_nat(low@) <= be_nat(out@) < be_nat(high@),
        out@ == minimal_be(be_nat(out@)),
{
    let low = BigUint::from_bytes_be(low);
    let high = BigUint::from_bytes_be(high);
    rand::thread_rng().gen_biguint_range(&low, &high).to_bytes_be()
}

} // verus!
