//! The per-connection key exchange.
//!
//! Both peers raise a fixed generator to a private exponent in a fixed
//! prime-field group, swap the results, and raise what they received to their
//! own exponent. Both arrive at the same number, whose bytes key the stream
//! that protects the reply.

use crate::cipher::{apply_key_stream, xor_stream};
use crate::numbers::{
    be_nat, lemma_be_nat_lower_bound, lemma_be_nat_of_minimal_be, lemma_minimal_be_len_bound,
    lemma_minimal_be_shape, minimal_be, mod_pow, mod_pow_nat, random_in_range,
};
use vstd::arithmetic::power::{lemma_pow_mod_noop, lemma_pow_multiplies, pow};
use vstd::prelude::*;
use vstd::slice::slice_to_vec;

verus! {

/// The prime of the group, most significant byte first: the 2048-bit prime of
/// the well-known modular exponential groups for key exchange.
pub const GROUP_PRIME: [u8; 256] = [
    0xFF, 0xFF, 0xFF, 0xFF, 0xFF, 0xFF, 0xFF, 0xFF, 0xC9, 0x0F, 0xDA, 0xA2, 0x21, 0x68, 0xC2, 0x34,
    0xC4, 0xC6, 0x62, 0x8B, 0x80, 0xDC, 0x1C, 0xD1, 0x29, 0x02, 0x4E, 0x08, 0x8A, 0x67, 0xCC, 0x74,
    0x02, 0x0B, 0xBE, 0xA6, 0x3B, 0x13, 0x9B, 0x22, 0x51, 0x4A, 0x08, 0x79, 0x8E, 0x34, 0x04, 0xDD,
    0xEF, 0x95, 0x19, 0xB3, 0xCD, 0x3A, 0x43, 0x1B, 0x30, 0x2B, 0x0A, 0x6D, 0xF2, 0x5F, 0x14, 0x37,
    0x4F, 0xE1, 0x35, 0x6D, 0x6D, 0x51, 0xC2, 0x45, 0xE4, 0x85, 0xB5, 0x76, 0x62, 0x5E, 0x7E, 0xC6,
    0xF4, 0x4C, 0x42, 0xE9, 0xA6, 0x37, 0xED, 0x6B, 0x0B, 0xFF, 0x5C, 0xB6, 0xF4, 0x06, 0xB7, 0xED,
    0xEE, 0x38, 0x6B, 0xFB, 0x5A, 0x89, 0x9F, 0xA5, 0xAE, 0x9F, 0x24, 0x11, 0x7C, 0x4B, 0x1F, 0xE6,
    0x49, 0x28, 0x66, 0x51, 0xEC, 0xE4, 0x5B, 0x3D, 0xC2, 0x00, 0x7C, 0xB8, 0xA1, 0x63, 0xBF, 0x05,
    0x98, 0xDA, 0x48, 0x36, 0x1C, 0x55, 0xD3, 0x9A, 0x69, 0x16, 0x3F, 0xA8, 0xFD, 0x24, 0xCF, 0x5F,
    0x83, 0x65, 0x5D, 0x23, 0xDC, 0xA3, 0xAD, 0x96, 0x1C, 0x62, 0xF3, 0x56, 0x20, 0x85, 0x52, 0xBB,
    0x9E, 0xD5, 0x29, 0x07, 0x70, 0x96, 0x96, 0x6D, 0x67, 0x0C, 0x35, 0x4E, 0x4A, 0xBC, 0x98, 0x04,
    0xF1, 0x74, 0x6C, 0x08, 0xCA, 0x18, 0x21, 0x7C, 0x32, 0x90, 0x5E, 0x46, 0x2E, 0x36, 0xCE, 0x3B,
    0xE3, 0x9E, 0x77, 0x2C, 0x18, 0x0E, 0x86, 0x03, 0x9B, 0x27, 0x83, 0xA2, 0xEC, 0x07, 0xA2, 0x8F,
    0xB5, 0xC5, 0x5D, 0xF0, 0x6F, 0x4C, 0x52, 0xC9, 0xDE, 0x2B, 0xCB, 0xF6, 0x95, 0x58, 0x17, 0x18,
    0x39, 0x95, 0x49, 0x7C, 0xEA, 0x95, 0x6A, 0xE5, 0x15, 0xD2, 0x26, 0x18, 0x98, 0xFA, 0x05, 0x10,
    0x15, 0x72, 0x8E, 0x5A, 0x8A, 0xAC, 0xAA, 0x68, 0xFF, 0xFF, 0xFF, 0xFF, 0xFF, 0xFF, 0xFF, 0xFF,
];

/// The generator of the group.
pub const GROUP_GENERATOR: u8 = 2;

/// The prime of the group as a number.
pub open spec fn group_modulus() -> nat {
    be_nat(GROUP_PRIME@)
}

/// The public value that belongs to a private exponent.
pub open spec fn public_value(private: nat) -> nat {
    mod_pow_nat(GROUP_GENERATOR as nat, private, group_modulus())
}

/// The bytes that a peer with this private exponent sends.
pub open spec fn public_key_bytes(private: nat) -> Seq<u8> {
    minimal_be(public_value(private))
}

/// The secret that a peer with this private exponent derives from the bytes
/// it received.
pub open spec fn shared_secret_bytes(private: nat, peer_public: Seq<u8>) -> Seq<u8> {
    minimal_be(mod_pow_nat(be_nat(peer_public), private, group_modulus()))
}

/// The prime of the group is no small number.
pub proof fn lemma_group_modulus_is_large()
    ensures
        group_modulus() >= 256,
{
    lemma_be_nat_lower_bound(GROUP_PRIME@);
}

/// A value reduced by the prime has at least one byte and no more bytes than
/// the prime.
pub proof fn lemma_reduced_value_len(base: nat, exponent: nat)
    ensures
        1 <= minimal_be(mod_pow_nat(base, exponent, group_modulus())).len() <= GROUP_PRIME@.len(),
        GROUP_PRIME@.len() == 256,
{
    lemma_group_modulus_is_large();
    let reduced = mod_pow_nat(base, exponent, group_modulus());
    vstd::arithmetic::div_mod::lemma_mod_bound(pow(base as int, exponent), group_modulus() as int);
    lemma_minimal_be_shape(reduced);
    lemma_minimal_be_len_bound(reduced, GROUP_PRIME@);
}

/// One side of a key exchange: a private exponent and the public value that
/// belongs to it.
pub struct DHKeyExchange {
    private_key: Vec<u8>,
    public_key: Vec<u8>,
}

impl DHKeyExchange {
    #[verifier::type_invariant]
    spec fn well_formed(self) -> bool {
        self.public_key@ == public_key_bytes(be_nat(self.private_key@))
    }

    /// The private exponent.
    pub closed spec fn private_value(&self) -> nat {
        be_nat(self.private_key@)
    }

    /// A key pair with a random private exponent from 2 up to, not including,
    /// the prime less one.
    pub fn new() -> (exchange: Self)
        ensures
            2 <= exchange.private_value() < group_modulus() - 1,
    {
        let mut high: Vec<u8> = slice_to_vec(GROUP_PRIME.as_slice());
        let last: usize = high.len() - 1;
        high[last] = 0xFE;
        let mut low: Vec<u8> = Vec::new();
        low.push(2);
        proof {
            lemma_group_modulus_is_large();
            assert(high@.drop_last() =~= GROUP_PRIME@.drop_last());
            assert(be_nat(low@.drop_last()) == 0);
        }
        let private_key = random_in_range(low.as_slice(), high.as_slice());
        Self::from_private_key(private_key)
    }

    /// The key pair of the private exponent that `private_key` spells, most
    /// significant byte first.
    pub fn from_private_key(private_key: Vec<u8>) -> (exchange: Self)
        ensures
            exchange.private_value() == be_nat(private_key@),
    {
        let mut generator: Vec<u8> = Vec::new();
        generator.push(GROUP_GENERATOR);
        proof {
            lemma_group_modulus_is_large();
            assert(be_nat(generator@.drop_last()) == 0);
        }
        let public_key = mod_pow(
            generator.as_slice(),
            private_key.as_slice(),
            GROUP_PRIME.as_slice(),
        );
        DHKeyExchange { private_key, public_key }
    }

    /// The public value to send to the peer, in its shortest big-endian
    /// spelling.
    pub fn get_public_key(&self) -> (out: Vec<u8>)
        ensures
            out@ == public_key_bytes(self.private_value()),
            1 <= out@.len() <= 256,
    {
        proof {
            use_type_invariant(self);
            lemma_reduced_value_len(GROUP_GENERATOR as nat, self.private_value());
        }
        slice_to_vec(self.public_key.as_slice())
    }

    /// The secret shared with the peer whose public value `peer_public`
    /// spells, in its shortest big-endian spelling. Any bytes spell a number;
    /// none are refused.
    pub fn compute_shared_secret(&self, peer_public: &[u8]) -> (out: Vec<u8>)
        ensures
            out@ == shared_secret_bytes(self.private_value(), peer_public@),
            1 <= out@.len() <= 256,
    {
        proof {
            lemma_group_modulus_is_large();
            lemma_reduced_value_len(be_nat(peer_public@), self.private_value());
        }
        mod_pow(peer_public, self.private_key.as_slice(), GROUP_PRIME.as_slice())
    }

    /// `data` under the key stream of the shared secret.
    pub fn encrypt(shared_secret: &[u8], data: &[u8]) -> (out: Vec<u8>)
        ensures
            out@ == xor_stream(data@, shared_secret@),
    {
        apply_key_stream(data, shared_secret)
    }

    /// `data` under the key stream of the shared secret, which undoes
    /// `encrypt` with the same secret.
    pub fn decrypt(shared_secret: &[u8], data: &[u8]) -> (out: Vec<u8>)
        ensures
            out@ == xor_stream(data@, shared_secret@),
    {
        apply_key_stream(data, shared_secret)
    }
}

/// Handshake symmetry: two peers that exchange their public values derive the
/// same secret, whatever their private exponents are.
pub proof fn lemma_handshake_symmetry(a: nat, b: nat)
    ensures
        shared_secret_bytes(a, public_key_bytes(b)) == shared_secret_bytes(b, public_key_bytes(a)),
{
    lemma_group_modulus_is_large();
    let p = group_modulus() as int;
    let g = GROUP_GENERATOR as int;
    lemma_be_nat_of_minimal_be(public_value(a));
    lemma_be_nat_of_minimal_be(public_value(b));
    lemma_pow_mod_noop(pow(g, b), a, p);
    lemma_pow_multiplies(g, b, a);
    lemma_pow_mod_noop(pow(g, a), b, p);
    lemma_pow_multiplies(g, a, b);
    assert(a * b == b * a) by (nonlinear_arith);
    assert(pow(g, b) % p >= 0 && pow(g, a) % p >= 0) by {
        vstd::arithmetic::div_mod::lemma_mod_bound(pow(g, b), p);
        vstd::arithmetic::div_mod::lemma_mod_bound(pow(g, a), p);
    }
    assert(mod_pow_nat(public_value(b), a, group_modulus()) == mod_pow_nat(
        public_value(a),
        b,
        group_modulus(),
    ));
}

} // verus!
