use rpo_falcon512::codec::{decompress_signature, pub_key_from_bytes, FalconError};
use rpo_falcon512::field::{FalconFelt, Felt};
use rpo_falcon512::hash::{RpoHasher, Word};
use rpo_falcon512::poly::Polynomial;
use rpo_falcon512::signature::{accepts_norms, DeserializationError, SIG_L2_BOUND};
use rpo_falcon512::{decode_nonce, hash_to_point, Signature};
use vstd::prelude::{int, Seq};

const Q: i64 = 12289;

/// A permutation that sends every state to zero, and a hash that is always zero.
struct ZeroHasher;

impl RpoHasher for ZeroHasher {
    // the abstract functions matter only to the verifier
    fn spec_permute(&self, state: Seq<int>) -> Seq<int> {
        state
    }

    fn spec_hash_elements(&self, elements: Seq<int>) -> Seq<int> {
        elements
    }

    fn apply_permutation(&self, state: &mut [Felt; 12]) {
        *state = [Felt::zero(); 12];
    }

    fn hash_elements(&self, _elements: &[Felt]) -> Word {
        [Felt::zero(); 4]
    }
}

/// A simple mixing map on the state, standing in for a real permutation.
struct MixHasher;

impl RpoHasher for MixHasher {
    // the abstract functions matter only to the verifier
    fn spec_permute(&self, state: Seq<int>) -> Seq<int> {
        state
    }

    fn spec_hash_elements(&self, elements: Seq<int>) -> Seq<int> {
        elements
    }

    fn apply_permutation(&self, state: &mut [Felt; 12]) {
        let old = *state;
        for i in 0..12 {
            let a = old[(i + 1) % 12].as_int();
            let b = old[(i + 5) % 12].as_int();
            state[i] = Felt::new(a.wrapping_mul(0x9e37_79b9).wrapping_add(b).wrapping_add(i as u64 + 1));
        }
    }

    fn hash_elements(&self, elements: &[Felt]) -> Word {
        let mut s: u64 = 0;
        for e in elements {
            s = s.wrapping_mul(31).wrapping_add(e.as_int());
        }
        [Felt::new(s), Felt::new(1), Felt::new(2), Felt::new(3)]
    }
}

fn pack_bits(bits: &[bool], len: usize) -> Vec<u8> {
    let mut out = vec![0u8; len];
    for (i, &b) in bits.iter().enumerate() {
        if b {
            out[i / 8] |= 0x80 >> (i % 8);
        }
    }
    out
}

fn encode_pk(coeffs: &[u16]) -> Vec<u8> {
    let mut bits = Vec::new();
    for &c in coeffs {
        for t in (0..14).rev() {
            bits.push((c >> t) & 1 == 1);
        }
    }
    let mut out = vec![9u8];
    out.extend(pack_bits(&bits, 896));
    out
}

fn encode_stream(coeffs: &[i32]) -> Vec<bool> {
    let mut bits = Vec::new();
    for &c in coeffs {
        let m = c.unsigned_abs();
        bits.push(c < 0);
        for t in (0..7).rev() {
            bits.push((m >> t) & 1 == 1);
        }
        for _ in 0..(m >> 7) {
            bits.push(false);
        }
        bits.push(true);
    }
    bits
}

fn encode_sig(coeffs: &[i32], nonce: &[u8; 40]) -> Vec<u8> {
    let mut out = vec![0x39u8];
    out.extend_from_slice(nonce);
    out.extend(pack_bits(&encode_stream(coeffs), 625));
    out
}

fn sample_pk_coeffs() -> Vec<u16> {
    (0..512).map(|i| ((i * 7919 + 13) % 12289) as u16).collect()
}

fn sample_sig_coeffs() -> Vec<i32> {
    (0..512).map(|i| ((i * 37) % 401) as i32 - 200).collect()
}

fn sample_nonce() -> [u8; 40] {
    let mut n = [0u8; 40];
    for (i, b) in n.iter_mut().enumerate() {
        *b = (i as u8).wrapping_mul(13).wrapping_add(5);
    }
    n
}

fn sample_bytes() -> Vec<u8> {
    let mut bytes = encode_pk(&sample_pk_coeffs());
    bytes.extend(encode_sig(&sample_sig_coeffs(), &sample_nonce()));
    bytes
}

fn coeff_values(p: &Polynomial) -> Vec<i64> {
    p.to_vec().iter().map(|c| c.value() as i64).collect()
}

#[test]
fn test_serialization_round_trip() {
    let signature = Signature::read_from_bytes(&sample_bytes()).unwrap();
    let serialized = signature.to_bytes();
    let deserialized = Signature::read_from_bytes(&serialized).unwrap();
    assert_eq!(signature.sig_poly(), deserialized.sig_poly());
    assert_eq!(signature.pub_key_poly(), deserialized.pub_key_poly());
}

#[test]
fn serialized_bytes_are_the_input() {
    let bytes = sample_bytes();
    assert_eq!(bytes.len(), 1563);
    let signature = Signature::read_from_bytes(&bytes).unwrap();
    assert_eq!(signature.to_bytes(), bytes);
    let mut target = vec![1u8, 2];
    signature.write_into(&mut target);
    assert_eq!(target.len(), 1565);
    assert_eq!(&target[2..], &bytes[..]);
}

#[test]
fn decoded_polynomials_match_encoded_coefficients() {
    let signature = Signature::read_from_bytes(&sample_bytes()).unwrap();
    let h: Vec<i64> = sample_pk_coeffs().iter().map(|&c| c as i64).collect();
    assert_eq!(coeff_values(signature.pub_key_poly()), h);
    let s2: Vec<i64> = sample_sig_coeffs().iter().map(|&c| (c as i64).rem_euclid(Q)).collect();
    assert_eq!(coeff_values(signature.sig_poly()), s2);
}

#[test]
fn nonce_is_taken_from_the_signature_blob() {
    let signature = Signature::read_from_bytes(&sample_bytes()).unwrap();
    assert_eq!(signature.nonce(), sample_nonce());
}

#[test]
fn decode_nonce_reads_five_little_endian_bytes() {
    let mut nonce = [0u8; 40];
    for (i, b) in nonce.iter_mut().enumerate() {
        *b = i as u8 + 1;
    }
    let elems = decode_nonce(&nonce);
    assert_eq!(elems[0].as_int(), 1 + 2 * 256 + 3 * 65536 + 4 * 16777216 + 5 * 4294967296);
    assert_eq!(elems[7].as_int(), 36 + 37 * 256 + 38 * 65536 + 39 * 16777216 + 40 * 4294967296);
    let top = decode_nonce(&[0xffu8; 40]);
    assert_eq!(top[3].as_int(), (1u64 << 40) - 1);
}

#[test]
fn hash_to_point_is_deterministic_and_nonce_dependent() {
    let message: Word = [Felt::new(1), Felt::new(2), Felt::new(3), Felt::new(4)];
    let nonce = sample_nonce();
    let a = hash_to_point(message, &nonce, &MixHasher);
    let b = hash_to_point(message, &nonce, &MixHasher);
    assert_eq!(a, b);
    let mut other = nonce;
    other[0] ^= 1;
    let c = hash_to_point(message, &other, &MixHasher);
    assert_ne!(a, c);
    assert!(coeff_values(&a).iter().all(|&v| (0..Q).contains(&v)));
}

#[test]
fn hash_to_point_reduces_rate_elements_modulo_q() {
    // a permutation that fills the rate with 12289 + 5 squeezes coefficients equal to 5
    struct ConstHasher;
    impl RpoHasher for ConstHasher {
        // the abstract functions matter only to the verifier
        fn spec_permute(&self, state: Seq<int>) -> Seq<int> {
            state
        }

        fn spec_hash_elements(&self, elements: Seq<int>) -> Seq<int> {
            elements
        }

        fn apply_permutation(&self, state: &mut [Felt; 12]) {
            *state = [Felt::new(12294); 12];
        }
        fn hash_elements(&self, _elements: &[Felt]) -> Word {
            [Felt::zero(); 4]
        }
    }
    let p = hash_to_point([Felt::zero(); 4], &[0u8; 40], &ConstHasher);
    assert_eq!(coeff_values(&p), vec![5; 512]);
    let signature = Signature::read_from_bytes(&sample_bytes()).unwrap();
    assert_eq!(signature.hash_to_point([Felt::zero(); 4], &ConstHasher), p);
}

#[test]
fn verify_accepts_short_pair_under_matching_commitment() {
    // h = 0 and s2 = 0 with a zero hash give s1 = 0, whose norm is 0
    let mut bytes = encode_pk(&[0u16; 512]);
    bytes.extend(encode_sig(&[0i32; 512], &sample_nonce()));
    let signature = Signature::read_from_bytes(&bytes).unwrap();
    let message: Word = [Felt::zero(); 4];
    assert!(signature.verify(message, [Felt::zero(); 4], &ZeroHasher));
    assert!(!signature.verify(message, [Felt::new(1), Felt::zero(), Felt::zero(), Felt::zero()], &ZeroHasher));
}

#[test]
fn verify_rejects_long_pair() {
    let signature = Signature::read_from_bytes(&sample_bytes()).unwrap();
    let message: Word = [Felt::new(9), Felt::new(8), Felt::new(7), Felt::new(6)];
    let h: Vec<Felt> = sample_pk_coeffs().iter().map(|&c| Felt::new(c as u64)).collect();
    let com = MixHasher.hash_elements(&h);
    assert!(!signature.verify(message, com, &MixHasher));
}

#[test]
fn verify_accepts_when_s1_is_small() {
    // h = 2 makes s1 = c - 2 * s2; with c = 0 the total norm is 5 * |s2|^2
    let mut pk = vec![0u16; 512];
    pk[0] = 2;
    let s2: Vec<i32> = (0..512).map(|i| if i % 2 == 0 { 100 } else { -100 }).collect();
    let mut bytes = encode_pk(&pk);
    bytes.extend(encode_sig(&s2, &sample_nonce()));
    let signature = Signature::read_from_bytes(&bytes).unwrap();
    // 5 * 512 * 100^2 = 25600000 < bound
    assert!(signature.verify([Felt::zero(); 4], [Felt::zero(); 4], &ZeroHasher));
    let big: Vec<i32> = (0..512).map(|i| if i % 2 == 0 { 127 } else { -127 }).collect();
    let mut bytes = encode_pk(&pk);
    bytes.extend(encode_sig(&big, &sample_nonce()));
    let signature = Signature::read_from_bytes(&bytes).unwrap();
    // 5 * 512 * 127^2 = 41290240 >= bound
    assert!(!signature.verify([Felt::zero(); 4], [Felt::zero(); 4], &ZeroHasher));
}

#[test]
fn norm_bound_is_strict() {
    assert!(accepts_norms(SIG_L2_BOUND - 1, 0));
    assert!(!accepts_norms(SIG_L2_BOUND, 0));
    assert!(!accepts_norms(SIG_L2_BOUND - 100, 100));
    assert!(accepts_norms(0, 0));
    assert_eq!(SIG_L2_BOUND, 34034726);
}

#[test]
fn wrong_length_is_rejected() {
    let bytes = sample_bytes();
    assert_eq!(Signature::read_from_bytes(&bytes[..1562]).unwrap_err(), DeserializationError::InvalidLength);
    let mut longer = bytes.clone();
    longer.push(0);
    assert_eq!(Signature::read_from_bytes(&longer).unwrap_err(), DeserializationError::InvalidLength);
    assert_eq!(Signature::read_from_bytes(&[]).unwrap_err(), DeserializationError::InvalidLength);
}

#[test]
fn corrupted_public_key_is_rejected() {
    let mut bytes = sample_bytes();
    bytes[0] = 10;
    assert_eq!(Signature::read_from_bytes(&bytes).unwrap_err(), DeserializationError::InvalidPublicKey);
    let mut pk = sample_pk_coeffs();
    pk[3] = 12289;
    let encoded = encode_pk(&pk);
    assert_eq!(pub_key_from_bytes(&encoded), Err(FalconError::PubKeyDecodingInvalidCoefficient));
    assert_eq!(pub_key_from_bytes(&encoded[..896]), Err(FalconError::PubKeyDecodingInvalidLength));
    let mut tagged = encode_pk(&sample_pk_coeffs());
    tagged[0] = 8;
    assert_eq!(pub_key_from_bytes(&tagged), Err(FalconError::PubKeyDecodingInvalidTag));
}

#[test]
fn corrupted_signature_header_is_rejected() {
    let mut bytes = sample_bytes();
    bytes[897] ^= 0x10;
    assert_eq!(
        Signature::read_from_bytes(&bytes).unwrap_err(),
        DeserializationError::InvalidSignatureEncoding
    );
    let mut sig = encode_sig(&sample_sig_coeffs(), &sample_nonce());
    sig[0] = 0x29;
    assert_eq!(decompress_signature(&sig), Err(FalconError::SigDecodingIncorrectHeader));
    assert_eq!(decompress_signature(&sig[..665]), Err(FalconError::SigDecodingInvalidLength));
}

#[test]
fn stream_overrun_is_rejected() {
    // all-zero stream bits never end a unary run
    let mut sig = vec![0x39u8];
    sig.extend_from_slice(&[0u8; 40]);
    sig.extend_from_slice(&[0u8; 625]);
    assert_eq!(decompress_signature(&sig), Err(FalconError::SigDecodingInvalidEncoding));
    // large coefficients do not fit in 625 bytes
    let big = vec![2000i32; 512];
    let mut bits = encode_stream(&big);
    bits.truncate(625 * 8);
    let mut sig = vec![0x39u8];
    sig.extend_from_slice(&[0u8; 40]);
    sig.extend(pack_bits(&bits, 625));
    assert_eq!(decompress_signature(&sig), Err(FalconError::SigDecodingInvalidEncoding));
}

#[test]
fn minus_zero_and_trailing_bits_are_rejected() {
    let mut coeffs = vec![0i32; 512];
    coeffs[0] = 0;
    let mut bits = encode_stream(&coeffs);
    bits[0] = true; // sign bit on a zero magnitude
    let mut sig = vec![0x39u8];
    sig.extend_from_slice(&[0u8; 40]);
    sig.extend(pack_bits(&bits, 625));
    assert_eq!(decompress_signature(&sig), Err(FalconError::SigDecodingInvalidEncoding));

    let mut sig = encode_sig(&vec![1i32; 512], &[0u8; 40]);
    assert!(decompress_signature(&sig).is_ok());
    let last = sig.len() - 1;
    sig[last] = 1;
    assert_eq!(decompress_signature(&sig), Err(FalconError::SigDecodingInvalidEncoding));
}

#[test]
fn sixteen_zero_high_bits_are_rejected() {
    // magnitude 2047 uses fifteen zero bits; one more zero bit is too many
    let mut ok = vec![0i32; 512];
    ok[0] = -2047;
    let sig = encode_sig(&ok, &[0u8; 40]);
    let p = decompress_signature(&sig).unwrap();
    assert_eq!(p.coefficient(0).value() as i64, Q - 2047);
    let mut bits = vec![false, true, true, true, true, true, true, true];
    bits.extend(vec![false; 16]);
    bits.push(true);
    bits.extend(encode_stream(&vec![0i32; 511]));
    let mut sig = vec![0x39u8];
    sig.extend_from_slice(&[0u8; 40]);
    sig.extend(pack_bits(&bits, 625));
    assert_eq!(decompress_signature(&sig), Err(FalconError::SigDecodingInvalidEncoding));
}

#[test]
fn field_arithmetic_reduces_modulo_q() {
    assert_eq!(FalconFelt::new(-1).value(), 12288);
    assert_eq!(FalconFelt::new(-32768).value(), ((-32768i64).rem_euclid(Q)) as u32);
    assert_eq!(FalconFelt::new(32767).value(), (32767 % Q) as u32);
    let a = FalconFelt::new(12000);
    let b = FalconFelt::new(500);
    assert_eq!(a.add(&b).value(), 211);
    assert_eq!(b.sub(&a).value(), 789);
    assert_eq!(a.mul(&b).value(), ((12000i64 * 500) % Q) as u32);
    assert_eq!(FalconFelt::zero().value(), 0);
    assert_eq!(Felt::new(u64::MAX).as_int(), u64::MAX - 18446744069414584321);
}

fn monomial(i: usize, c: i16) -> Polynomial {
    let mut v = vec![FalconFelt::zero(); 512];
    v[i] = FalconFelt::new(c);
    Polynomial::new(v)
}

#[test]
fn ring_product_wraps_with_negation() {
    // x * x^511 = x^512 = -1
    let p = monomial(1, 1).mul(&monomial(511, 1));
    assert_eq!(p, monomial(0, -1));
    // (2 + x^3) * 3x^2 = 6x^2 + 3x^5
    let mut a = vec![FalconFelt::zero(); 512];
    a[0] = FalconFelt::new(2);
    a[3] = FalconFelt::new(1);
    let prod = Polynomial::new(a).mul(&monomial(2, 3));
    let vals = coeff_values(&prod);
    assert_eq!(vals[2], 6);
    assert_eq!(vals[5], 3);
    assert_eq!(vals.iter().filter(|&&v| v != 0).count(), 2);
    assert_eq!(monomial(4, 5).sub(&monomial(4, 7)), monomial(4, -2));
}

#[test]
fn norm_uses_centered_coefficients() {
    assert_eq!(monomial(0, -1).norm_squared(), 1);
    assert_eq!(monomial(7, 6144).norm_squared(), 6144 * 6144);
    assert_eq!(monomial(7, 6145).norm_squared(), 6144 * 6144);
    let all: Vec<FalconFelt> = (0..512).map(|_| FalconFelt::new(-3)).collect();
    assert_eq!(Polynomial::new(all).norm_squared(), 512 * 9);
}

fn sample_poly(seed: i64) -> Polynomial {
    let v: Vec<FalconFelt> = (0..512)
        .map(|i| FalconFelt::new((((i as i64) * seed * 7 + seed * seed) % Q) as i16))
        .collect();
    Polynomial::new(v)
}

#[test]
fn evaluation_form_inverts() {
    for seed in [1i64, 17, 4099] {
        let p = sample_poly(seed);
        assert_eq!(p.to_evaluation_form().to_coefficient_form(), p);
    }
    let one = monomial(0, 1);
    let e = one.to_evaluation_form();
    assert_eq!(e.to_coefficient_form(), one);
}

#[test]
fn evaluation_form_turns_products_pointwise() {
    let a = sample_poly(3);
    let b = sample_poly(11);
    let lhs = a.mul(&b).to_evaluation_form();
    let rhs = a.to_evaluation_form().hadamard_mul(&b.to_evaluation_form());
    assert_eq!(lhs, rhs);
    // s1 = c - s2 * h computed both ways
    let c = sample_poly(5);
    let direct = c.sub(&a.mul(&b));
    let via = c
        .to_evaluation_form()
        .sub(&a.to_evaluation_form().hadamard_mul(&b.to_evaluation_form()))
        .to_coefficient_form();
    assert_eq!(direct, via);
}

#[test]
fn evaluation_of_x_is_the_roots() {
    // x evaluates at PSI^(2j + 1): the first value is PSI itself
    let x = monomial(1, 1).to_evaluation_form();
    let back = x.to_coefficient_form();
    assert_eq!(back, monomial(1, 1));
    let sq = x.hadamard_mul(&x).to_coefficient_form();
    assert_eq!(sq, monomial(2, 1));
}
