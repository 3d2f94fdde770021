//! Decoding of the public-key blob (fixed 14-bit coefficients) and of the
//! signature blob (sign bit, seven low bits, then the high bits in unary).
use vstd::prelude::*;

use crate::field::{modq, FalconFelt};
use crate::poly::Polynomial;
use crate::{MODULUS, N};

use vstd::arithmetic::power2::{lemma2_to64, lemma_pow2_unfold, pow2};

verus! {

/// Length of the public-key blob: a header byte and 512 coefficients of 14 bits.
pub const PK_LEN: usize = 897;

/// Header byte of the public-key blob: log2(N).
pub const PK_HEADER: u8 = 9;

/// Length of the signature blob: header, nonce and compressed coefficients.
pub const SIG_LEN: usize = 666;

/// Header byte of the signature blob: compressed encoding, log2(N) = 9.
pub const SIG_HEADER: u8 = 0x39;

/// Length of the header of the signature blob.
pub const SIG_HEADER_LEN: usize = 1;

/// Length of the nonce in the signature blob.
pub const SIG_NONCE_LEN: usize = 40;

/// Bit position where the compressed coefficients start in the signature blob.
pub const SIG_STREAM_START: usize = 328;

/// Why a blob does not decode.
#[derive(Clone, Copy, Debug, PartialEq, Eq)]
pub enum FalconError {
    PubKeyDecodingInvalidLength,
    PubKeyDecodingInvalidTag,
    PubKeyDecodingInvalidCoefficient,
    SigDecodingInvalidLength,
    SigDecodingIncorrectHeader,
    SigDecodingInvalidEncoding,
}

/// Bit i of a byte string, most significant bit of each byte first.
pub open spec fn bit(b: Seq<u8>, i: int) -> u8 {
    (b[i / 8] >> ((7 - i % 8) as u32)) & 1u8
}

/// The n bits from position pos read as an unsigned integer, first bit highest.
pub open spec fn bits_val(b: Seq<u8>, pos: int, n: nat) -> int
    decreases n,
{
    if n == 0 {
        0
    } else {
        2 * bits_val(b, pos, (n - 1) as nat) + bit(b, pos + n - 1)
    }
}

/// Coefficient k of a public-key blob.
pub open spec fn pk_coeff(b: Seq<u8>, k: int) -> int {
    bits_val(b, 8 + 14 * k, 14)
}

/// A public-key blob of the right length and header whose coefficients all lie in [0, q).
pub open spec fn pk_valid(b: Seq<u8>) -> bool {
    &&& b.len() == PK_LEN
    &&& b[0] == PK_HEADER
    &&& forall|k: int| 0 <= k < N ==> #[trigger] pk_coeff(b, k) < MODULUS
}

/// The coefficients that a public-key blob encodes.
pub open spec fn pk_poly(b: Seq<u8>) -> Seq<int> {
    Seq::new(N as nat, |k: int| pk_coeff(b, k))
}

/// Counts the 0 bits from p + k up to the first 1 bit; fails at the sixteenth 0 bit
/// or past the end.
pub open spec fn unary_len(b: Seq<u8>, p: int, k: nat) -> Option<nat>
    decreases 16 - k,
{
    if k >= 16 {
        None
    } else if p + k >= 8 * b.len() {
        None
    } else if bit(b, p + k) == 1 {
        Some(k)
    } else {
        unary_len(b, p, k + 1)
    }
}

/// Decodes the coefficient that starts at bit p, with the position that follows it.
pub open spec fn coeff_at(b: Seq<u8>, p: int) -> Option<(int, int)> {
    if p + 8 > 8 * b.len() {
        None
    } else {
        match unary_len(b, p + 8, 0) {
            None => None,
            Some(z) => {
                let m = bits_val(b, p + 1, 7) + 128 * z;
                if bit(b, p) == 1 && m == 0 {
                    None
                } else if bit(b, p) == 1 {
                    Some((modq(-m), p + 8 + z + 1))
                } else {
                    Some((m, p + 8 + z + 1))
                }
            },
        }
    }
}

/// Decodes n coefficients from bit `start` on, with the position after the last one.
pub open spec fn coeffs_upto(b: Seq<u8>, start: int, n: nat) -> Option<(Seq<int>, int)>
    decreases n,
{
    if n == 0 {
        Some((Seq::empty(), start))
    } else {
        match coeffs_upto(b, start, (n - 1) as nat) {
            None => None,
            Some((cs, p)) => match coeff_at(b, p) {
                None => None,
                Some((v, next)) => Some((cs.push(v), next)),
            },
        }
    }
}

/// All bits from position p to the end are 0.
pub open spec fn zero_from(b: Seq<u8>, p: int) -> bool {
    forall|i: int| p <= i < 8 * b.len() ==> bit(b, i) == 0
}

/// A signature blob of the right length and header whose stream decodes to N
/// coefficients followed by zero bits only.
pub open spec fn sig_valid(b: Seq<u8>) -> bool {
    &&& b.len() == SIG_LEN
    &&& b[0] == SIG_HEADER
    &&& match coeffs_upto(b, SIG_STREAM_START as int, N as nat) {
        Some((_, p)) => zero_from(b, p),
        None => false,
    }
}

/// The coefficients that a valid signature blob encodes.
pub open spec fn sig_poly(b: Seq<u8>) -> Seq<int> {
    coeffs_upto(b, SIG_STREAM_START as int, N as nat).unwrap().0
}

proof fn lemma_coeffs_none(b: Seq<u8>, start: int, i: nat, n: nat)
    requires
        i <= n,
        coeffs_upto(b, start, i) is None,
    ensures
        coeffs_upto(b, start, n) is None,
    decreases n - i,
{
    if i < n {
        assert(coeffs_upto(b, start, i + 1) is None);
        lemma_coeffs_none(b, start, i + 1, n);
    }
}

fn get_bit(b: &[u8], i: usize) -> (r: u8)
    requires
        i < 8 * b@.len(),
    ensures
        r == bit(b@, i as int),
        r <= 1,
{
    let x: u8 = b[i / 8];
    let sh: u32 = (7 - i % 8) as u32;
    let r = (x >> sh) & 1u8;
    assert(r <= 1) by (bit_vector)
        requires
            r == (x >> sh) & 1u8,
    ;
    r
}

fn read_bits(b: &[u8], pos: usize, n: usize) -> (r: u32)
    requires
        n <= 16,
        b@.len() <= PK_LEN,
        pos + n <= 8 * b@.len(),
    ensures
        r == bits_val(b@, pos as int, n as nat),
        r < pow2(n as nat),
{
    let mut v: u32 = 0;
    let mut t: usize = 0;
    proof {
        lemma2_to64();
    }
    while t < n
        invariant
            t <= n <= 16,
            b@.len() <= PK_LEN,
            pos + n <= 8 * b@.len(),
            v == bits_val(b@, pos as int, t as nat),
            v < pow2(t as nat),
            pow2(16) == 0x10000,
        decreases n - t,
    {
        let x = get_bit(b, pos + t);
        proof {
            lemma_pow2_unfold((t + 1) as nat);
            vstd::arithmetic::power2::lemma_pow2_strictly_increases((t + 1) as nat, 17);
            lemma_pow2_unfold(17);
        }
        v = 2 * v + x as u32;
        t = t + 1;
    }
    v
}

/// Decodes a public-key blob into the polynomial h.
pub fn pub_key_from_bytes(input: &[u8]) -> (r: Result<Polynomial, FalconError>)
    ensures
        r is Ok <==> pk_valid(input@),
        r matches Ok(p) ==> p.wf() && p@ == pk_poly(input@),
        input@.len() != PK_LEN ==> r == Err::<Polynomial, _>(FalconError::PubKeyDecodingInvalidLength),
        input@.len() == PK_LEN && input@[0] != PK_HEADER ==> r == Err::<Polynomial, _>(
            FalconError::PubKeyDecodingInvalidTag,
        ),
        input@.len() == PK_LEN && input@[0] == PK_HEADER && !pk_valid(input@) ==> r == Err::<
            Polynomial,
            _,
        >(FalconError::PubKeyDecodingInvalidCoefficient),
{
    if input.len() != PK_LEN {
        return Err(FalconError::PubKeyDecodingInvalidLength);
    }
    if input[0] != PK_HEADER {
        return Err(FalconError::PubKeyDecodingInvalidTag);
    }
    let mut out: Vec<FalconFelt> = Vec::new();
    let mut k: usize = 0;
    while k < N
        invariant
            input@.len() == PK_LEN,
            input@[0] == PK_HEADER,
            k <= N,
            out.len() == k,
            forall|j: int| 0 <= j < k ==> (#[trigger] out[j]).wf(),
            forall|j: int| 0 <= j < k ==> (#[trigger] out[j]).val() == pk_coeff(input@, j),
            forall|j: int| 0 <= j < k ==> #[trigger] pk_coeff(input@, j) < MODULUS,
        decreases N - k,
    {
        let w = read_bits(input, 8 + 14 * k, 14);
        if w >= MODULUS {
            assert(!pk_valid(input@)) by {
                assert(pk_coeff(input@, k as int) >= MODULUS);
            }
            return Err(FalconError::PubKeyDecodingInvalidCoefficient);
        }
        out.push(FalconFelt::from_canonical(w));
        k = k + 1;
    }
    let p = Polynomial::new(out);
    proof {
        p.lemma_coefficients();
        assert(p@ =~= pk_poly(input@));
    }
    Ok(p)
}

fn read_unary(b: &[u8], p: usize) -> (r: Option<usize>)
    requires
        b@.len() <= SIG_LEN,
        p <= 8 * b@.len(),
    ensures
        match r {
            Some(z) => unary_len(b@, p as int, 0) == Some(z as nat) && z < 16 && p + z < 8
                * b@.len(),
            None => unary_len(b@, p as int, 0) is None,
        },
{
    let mut z: usize = 0;
    while z < 16
        invariant
            b@.len() <= SIG_LEN,
            p <= 8 * b@.len(),
            z <= 16,
            unary_len(b@, p as int, 0) == unary_len(b@, p as int, z as nat),
        decreases 16 - z,
    {
        if p + z >= 8 * b.len() {
            return None;
        }
        if get_bit(b, p + z) == 1 {
            return Some(z);
        }
        z = z + 1;
    }
    None
}

/// Decodes the compressed signature blob into the polynomial s2.
pub fn decompress_signature(input: &[u8]) -> (r: Result<Polynomial, FalconError>)
    ensures
        r is Ok <==> sig_valid(input@),
        r matches Ok(p) ==> p.wf() && p@ == sig_poly(input@),
        input@.len() != SIG_LEN ==> r == Err::<Polynomial, _>(FalconError::SigDecodingInvalidLength),
        input@.len() == SIG_LEN && input@[0] != SIG_HEADER ==> r == Err::<Polynomial, _>(
            FalconError::SigDecodingIncorrectHeader,
        ),
        input@.len() == SIG_LEN && input@[0] == SIG_HEADER && !sig_valid(input@) ==> r == Err::<
            Polynomial,
            _,
        >(FalconError::SigDecodingInvalidEncoding),
{
    if input.len() != SIG_LEN {
        return Err(FalconError::SigDecodingInvalidLength);
    }
    if input[0] != SIG_HEADER {
        return Err(FalconError::SigDecodingIncorrectHeader);
    }
    let ghost b = input@;
    let mut out: Vec<FalconFelt> = Vec::new();
    let mut pos: usize = SIG_STREAM_START;
    let mut i: usize = 0;
    while i < N
        invariant
            b == input@,
            b.len() == SIG_LEN,
            b[0] == SIG_HEADER,
            i <= N,
            pos <= 8 * SIG_LEN,
            out.len() == i,
            forall|j: int| 0 <= j < i ==> (#[trigger] out[j]).wf(),
            coeffs_upto(b, SIG_STREAM_START as int, i as nat) == Some(
                (out@.map_values(|c: FalconFelt| c.val()), pos as int),
            ),
        decreases N - i,
    {
        let ghost prev = out@.map_values(|c: FalconFelt| c.val());
        if pos + 8 > 8 * SIG_LEN {
            proof {
                lemma_coeffs_none(b, SIG_STREAM_START as int, (i + 1) as nat, N as nat);
            }
            return Err(FalconError::SigDecodingInvalidEncoding);
        }
        let s = get_bit(input, pos);
        let low = read_bits(input, pos + 1, 7);
        proof {
            lemma2_to64();
        }
        let z = match read_unary(input, pos + 8) {
            Some(z) => z,
            None => {
                proof {
                    lemma_coeffs_none(b, SIG_STREAM_START as int, (i + 1) as nat, N as nat);
                }
                return Err(FalconError::SigDecodingInvalidEncoding);
            },
        };
        let m: u32 = low + 128 * (z as u32);
        if s == 1 && m == 0 {
            proof {
                lemma_coeffs_none(b, SIG_STREAM_START as int, (i + 1) as nat, N as nat);
            }
            return Err(FalconError::SigDecodingInvalidEncoding);
        }
        let c = if s == 1 {
            FalconFelt::new(-(m as i16))
        } else {
            FalconFelt::from_canonical(m)
        };
        out.push(c);
        pos = pos + 8 + z + 1;
        i = i + 1;
        proof {
            assert(out@.map_values(|c: FalconFelt| c.val()) =~= prev.push(c.val()));
        }
    }
    let end = pos;
    let mut j: usize = end;
    while j < 8 * SIG_LEN
        invariant
            b == input@,
            b.len() == SIG_LEN,
            b[0] == SIG_HEADER,
            end <= j <= 8 * SIG_LEN,
            coeffs_upto(b, SIG_STREAM_START as int, N as nat) is Some,
            coeffs_upto(b, SIG_STREAM_START as int, N as nat).unwrap().1 == end as int,
            forall|t: int| end <= t < j ==> bit(b, t) == 0,
        decreases 8 * SIG_LEN - j,
    {
        if get_bit(input, j) != 0 {
            return Err(FalconError::SigDecodingInvalidEncoding);
        }
        j = j + 1;
    }
    let p = Polynomial::new(out);
    proof {
        p.lemma_coefficients();
        assert(p@ =~= sig_poly(b));
    }
    Ok(p)
}

} // verus!
