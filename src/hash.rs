//! Hash-to-point: a deterministic map from a message digest and a nonce to a
//! ring element, built on a sponge permutation over the wider field.
use vstd::prelude::*;

use crate::field::{modq, FalconFelt, Felt};
use crate::poly::Polynomial;
use crate::{MODULUS, N};

verus! {

/// Width of the sponge state.
pub const STATE_WIDTH: usize = 12;

/// First index of the rate part of the state; the rate is indices 4 to 11.
pub const RATE_START: usize = 4;

/// A message digest: four elements of the wider field.
pub type Word = [Felt; 4];

/// The nonce as it is stored in the signature blob.
pub type NonceBytes = [u8; 40];

/// The nonce as field elements.
pub type NonceElements = [Felt; 8];

/// The integer values of a sequence of field elements.
pub open spec fn felt_vals(s: Seq<Felt>) -> Seq<int> {
    s.map_values(|f: Felt| f.val())
}

/// The sponge primitive: a fixed permutation of a 12-element state, whose rate is
/// indices 4 to 11, and the hash of a sequence of elements built on it. Users
/// supply it; what this library proves about hash-to-point and verification holds
/// for every implementation that meets these contracts.
pub trait RpoHasher {
    /// The permutation, on the values of the state.
    spec fn spec_permute(&self, state: Seq<int>) -> Seq<int>;

    /// The digest of a sequence of element values.
    spec fn spec_hash_elements(&self, elements: Seq<int>) -> Seq<int>;

    /// Applies the permutation to the state in place.
    fn apply_permutation(&self, state: &mut [Felt; 12])
        ensures
            felt_vals(final(state)@) == self.spec_permute(felt_vals(old(state)@)),
    ;

    /// Hashes a sequence of elements into a digest.
    fn hash_elements(&self, elements: &[Felt]) -> (r: Word)
        ensures
            felt_vals(r@) == self.spec_hash_elements(felt_vals(elements@)),
    ;
}

/// Element i of the nonce: bytes 5i to 5i + 4 read little-endian.
pub open spec fn nonce_elem(nonce: Seq<u8>, i: int) -> int {
    nonce[5 * i] + 256 * nonce[5 * i + 1] + 65536 * nonce[5 * i + 2] + 16777216 * nonce[5
        * i + 3] + 4294967296 * nonce[5 * i + 4]
}

/// The state after the nonce is written into the rate of the zero state.
pub open spec fn nonce_state(nonce: Seq<u8>) -> Seq<int> {
    Seq::new(
        STATE_WIDTH as nat,
        |i: int|
            if i < RATE_START {
                0
            } else {
                nonce_elem(nonce, i - RATE_START)
            },
    )
}

/// The state with the four message elements written over the start of the rate.
pub open spec fn absorb_message(state: Seq<int>, message: Seq<int>) -> Seq<int> {
    Seq::new(
        STATE_WIDTH as nat,
        |i: int|
            if RATE_START <= i < RATE_START + 4 {
                message[i - RATE_START]
            } else {
                state[i]
            },
    )
}

/// The state after r squeezing permutations.
pub open spec fn squeeze_state<H: RpoHasher>(
    h: &H,
    message: Seq<int>,
    nonce: Seq<u8>,
    r: nat,
) -> Seq<int>
    decreases r,
{
    if r == 0 {
        absorb_message(h.spec_permute(nonce_state(nonce)), message)
    } else {
        h.spec_permute(squeeze_state(h, message, nonce, (r - 1) as nat))
    }
}

/// Coefficient k of the hash-to-point polynomial: rate element k % 8 after
/// k / 8 + 1 squeezing permutations, reduced modulo q.
pub open spec fn hash_to_point_spec<H: RpoHasher>(
    h: &H,
    message: Seq<int>,
    nonce: Seq<u8>,
) -> Seq<int> {
    Seq::new(
        N as nat,
        |k: int| modq(squeeze_state(h, message, nonce, (k / 8 + 1) as nat)[RATE_START + k % 8]),
    )
}

/// Hash-to-point is a function of the message and the nonce: equal inputs give
/// equal polynomials.
pub proof fn lemma_hash_to_point_deterministic<H: RpoHasher>(
    h: &H,
    m1: Seq<int>,
    n1: Seq<u8>,
    m2: Seq<int>,
    n2: Seq<u8>,
)
    requires
        m1 == m2,
        n1 == n2,
    ensures
        hash_to_point_spec(h, m1, n1) == hash_to_point_spec(h, m2, n2),
{
}

/// Converts the 40 nonce bytes into 8 field elements, 5 little-endian bytes each.
pub fn decode_nonce(nonce: &NonceBytes) -> (r: NonceElements)
    ensures
        forall|i: int| 0 <= i < 8 ==> (#[trigger] r@[i]).val() == nonce_elem(nonce@, i),
{
    let mut result: [Felt; 8] = [Felt::zero(); 8];
    let mut i: usize = 0;
    while i < 8
        invariant
            i <= 8,
            forall|j: int| 0 <= j < i ==> (#[trigger] result@[j]).val() == nonce_elem(nonce@, j),
        decreases 8 - i,
    {
        let v: u64 = nonce[5 * i] as u64 + 256 * (nonce[5 * i + 1] as u64) + 65536 * (nonce[5 * i
            + 2] as u64) + 16777216 * (nonce[5 * i + 3] as u64) + 4294967296 * (nonce[5 * i
            + 4] as u64);
        // at most 40 bits, so below the field modulus
        result.set(i, Felt::new(v));
        i = i + 1;
    }
    result
}

/// Returns the polynomial in Z_q[x]/(x^N + 1) that hashes the message and nonce.
pub fn hash_to_point<H: RpoHasher>(message: Word, nonce: &NonceBytes, hasher: &H) -> (r:
    Polynomial)
    ensures
        r.wf(),
        r@ == hash_to_point_spec(hasher, felt_vals(message@), nonce@),
{
    let ghost m = felt_vals(message@);
    let mut state: [Felt; 12] = [Felt::zero(); 12];

    // absorb the nonce into the rate
    let elems = decode_nonce(nonce);
    let mut i: usize = 0;
    while i < 8
        invariant
            i <= 8,
            forall|j: int| 0 <= j < 12 ==> (#[trigger] state@[j]).val() == (if j < 4 || j >= 4 + i {
                0
            } else {
                nonce_elem(nonce@, j - 4)
            }),
            forall|j: int| 0 <= j < 8 ==> (#[trigger] elems@[j]).val() == nonce_elem(nonce@, j),
        decreases 8 - i,
    {
        state.set(RATE_START + i, elems[i]);
        i = i + 1;
    }
    assert(felt_vals(state@) =~= nonce_state(nonce@));
    hasher.apply_permutation(&mut state);

    // absorb the message into the start of the rate
    let ghost after_nonce = felt_vals(state@);
    let mut i: usize = 0;
    while i < 4
        invariant
            i <= 4,
            m == felt_vals(message@),
            after_nonce.len() == 12,
            forall|j: int| 0 <= j < 12 ==> (#[trigger] state@[j]).val() == (if 4 <= j < 4 + i {
                m[j - 4]
            } else {
                after_nonce[j]
            }),
        decreases 4 - i,
    {
        state.set(RATE_START + i, message[i]);
        i = i + 1;
    }
    assert(felt_vals(state@) =~= absorb_message(after_nonce, m));

    // squeeze the coefficients
    let mut out: Vec<FalconFelt> = Vec::new();
    let mut r: usize = 0;
    while r < 64
        invariant
            r <= 64,
            m == felt_vals(message@),
            felt_vals(state@) == squeeze_state(hasher, m, nonce@, r as nat),
            out.len() == 8 * r,
            forall|k: int| 0 <= k < out.len() ==> (#[trigger] out[k]).wf(),
            forall|k: int|
                0 <= k < out.len() ==> (#[trigger] out[k]).val() == modq(
                    squeeze_state(hasher, m, nonce@, (k / 8 + 1) as nat)[RATE_START + k % 8],
                ),
        decreases 64 - r,
    {
        hasher.apply_permutation(&mut state);
        let mut t: usize = 0;
        while t < 8
            invariant
                r < 64,
                t <= 8,
                m == felt_vals(message@),
                felt_vals(state@) == squeeze_state(hasher, m, nonce@, (r + 1) as nat),
                out.len() == 8 * r + t,
                forall|k: int| 0 <= k < out.len() ==> (#[trigger] out[k]).wf(),
                forall|k: int|
                    0 <= k < out.len() ==> (#[trigger] out[k]).val() == modq(
                        squeeze_state(hasher, m, nonce@, (k / 8 + 1) as nat)[RATE_START + k % 8],
                    ),
            decreases 8 - t,
        {
            let a: u64 = state[RATE_START + t].as_int();
            let c = FalconFelt::from_canonical((a % (MODULUS as u64)) as u32);
            proof {
                let k = 8 * r + t;
                assert(k / 8 == r && k % 8 == t);
                assert(felt_vals(state@)[RATE_START + t] == a);
            }
            out.push(c);
            t = t + 1;
        }
        r = r + 1;
    }
    let p = Polynomial::new(out);
    proof {
        p.lemma_coefficients();
        assert(p@ =~= hash_to_point_spec(hasher, m, nonce@));
    }
    p
}

} // verus!
