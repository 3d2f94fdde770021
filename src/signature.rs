//! The signature value: raw public-key and signature blobs with their decoded
//! polynomials, verification, and the byte encoding.
use vstd::prelude::*;

use crate::codec::{
    decompress_signature, pk_poly, SIG_HEADER, pk_valid, pub_key_from_bytes, sig_poly, sig_valid, PK_LEN,
    SIG_HEADER_LEN, SIG_LEN, SIG_NONCE_LEN,
};
use crate::field::Felt;
use crate::hash::{felt_vals, hash_to_point, hash_to_point_spec, NonceBytes, RpoHasher, Word};
use crate::poly::{is_ring_elem, norm_sq, ring_mul, ring_sub, Polynomial};
use crate::ring_laws::{lemma_to_coeff_to_eval, lemma_to_eval_mul, lemma_to_eval_sub};
use crate::N;

verus! {

/// Bound on the squared norm of (s1, s2): a signature verifies only below it.
pub const SIG_L2_BOUND: u64 = 34034726;

/// Length of a serialized signature: public-key blob then signature blob.
pub const SERIALIZED_LEN: usize = 1563;

/// Why bytes do not deserialize into a signature.
#[derive(Clone, Copy, Debug, PartialEq, Eq)]
pub enum DeserializationError {
    /// The input is not exactly one public-key blob and one signature blob long.
    InvalidLength,
    /// The public-key blob does not decode.
    InvalidPublicKey,
    /// The signature blob does not decode.
    InvalidSignatureEncoding,
}

/// The nonce bytes of a signature blob.
pub open spec fn nonce_of(sig: Seq<u8>) -> Seq<u8> {
    sig.subrange(SIG_HEADER_LEN as int, (SIG_HEADER_LEN + SIG_NONCE_LEN) as int)
}

/// s1 = c - s2 * h in Z_q[x]/(x^N + 1).
pub open spec fn s1_of(c: Seq<int>, s2: Seq<int>, h: Seq<int>) -> Seq<int> {
    ring_sub(c, ring_mul(s2, h))
}

/// Whether two squared norms sum to strictly less than the bound.
pub open spec fn within_bound(n1: int, n2: int) -> bool {
    n1 + n2 < SIG_L2_BOUND
}

/// What verification decides for the blobs pk and sig, a message and a commitment:
/// the public key hashes to the commitment, and (s1, s2) is short enough.
pub open spec fn verifies<H: RpoHasher>(
    h: &H,
    pk: Seq<u8>,
    sig: Seq<u8>,
    message: Seq<int>,
    commitment: Seq<int>,
) -> bool {
    let c = hash_to_point_spec(h, message, nonce_of(sig));
    let s2 = sig_poly(sig);
    &&& h.spec_hash_elements(pk_poly(pk)) == commitment
    &&& within_bound(norm_sq(s1_of(c, s2, pk_poly(pk))), norm_sq(s2))
}

/// Bytes that hold a public-key blob and a signature blob that both decode.
pub open spec fn blob_valid(b: Seq<u8>) -> bool {
    &&& b.len() == SERIALIZED_LEN
    &&& pk_valid(b.subrange(0, PK_LEN as int))
    &&& sig_valid(b.subrange(PK_LEN as int, SERIALIZED_LEN as int))
}

/// Serializing a signature gives bytes that deserialize, and whose two blobs
/// are the signature's own, so the decoded polynomials come back unchanged.
pub proof fn lemma_round_trip(s: &Signature)
    requires
        s.wf(),
    ensures
        blob_valid(s.pk_bytes() + s.sig_bytes()),
        (s.pk_bytes() + s.sig_bytes()).subrange(0, PK_LEN as int) == s.pk_bytes(),
        (s.pk_bytes() + s.sig_bytes()).subrange(PK_LEN as int, SERIALIZED_LEN as int)
            == s.sig_bytes(),
        pk_poly((s.pk_bytes() + s.sig_bytes()).subrange(0, PK_LEN as int)) == pk_poly(
            s.pk_bytes(),
        ),
        sig_poly((s.pk_bytes() + s.sig_bytes()).subrange(PK_LEN as int, SERIALIZED_LEN as int))
            == sig_poly(s.sig_bytes()),
{
    let b = s.pk_bytes() + s.sig_bytes();
    assert(b.subrange(0, PK_LEN as int) =~= s.pk_bytes());
    assert(b.subrange(PK_LEN as int, SERIALIZED_LEN as int) =~= s.sig_bytes());
}

/// A pair (s1, s2) whose squared norms sum to exactly the bound is rejected.
pub proof fn lemma_bound_is_strict<H: RpoHasher>(
    h: &H,
    pk: Seq<u8>,
    sig: Seq<u8>,
    message: Seq<int>,
    commitment: Seq<int>,
)
    requires
        norm_sq(s1_of(hash_to_point_spec(h, message, nonce_of(sig)), sig_poly(sig), pk_poly(pk)))
            + norm_sq(sig_poly(sig)) == SIG_L2_BOUND,
    ensures
        !verifies(h, pk, sig, message, commitment),
{
}

/// Serialized bytes whose signature header is not the compressed-encoding
/// header do not deserialize.
pub proof fn lemma_corrupt_header_rejected(b: Seq<u8>)
    requires
        b.len() == SERIALIZED_LEN,
        b[PK_LEN as int] != SIG_HEADER,
    ensures
        !blob_valid(b),
{
    assert(b.subrange(PK_LEN as int, SERIALIZED_LEN as int)[0] == b[PK_LEN as int]);
}

/// Whether two squared norms sum to strictly less than the bound.
pub fn accepts_norms(n1: u64, n2: u64) -> (r: bool)
    requires
        n1 + n2 <= u64::MAX,
    ensures
        r == within_bound(n1 as int, n2 as int),
{
    n1 + n2 < SIG_L2_BOUND
}

/// An RPO Falcon512 signature: the public-key blob h and the signature blob
/// (header, nonce, compressed s2), with h and s2 decoded once.
#[derive(Clone, Debug)]
pub struct Signature {
    pk: Vec<u8>,
    sig: Vec<u8>,
    pk_poly: Polynomial,
    sig_poly: Polynomial,
}

impl Signature {
    /// The public-key blob.
    pub closed spec fn pk_bytes(&self) -> Seq<u8> {
        self.pk@
    }

    /// The signature blob.
    pub closed spec fn sig_bytes(&self) -> Seq<u8> {
        self.sig@
    }

    /// Both blobs decode and the cached polynomials are their decodings.
    pub closed spec fn wf(&self) -> bool {
        &&& pk_valid(self.pk@)
        &&& sig_valid(self.sig@)
        &&& self.pk_poly.wf()
        &&& self.pk_poly@ == pk_poly(self.pk@)
        &&& self.sig_poly.wf()
        &&& self.sig_poly@ == sig_poly(self.sig@)
    }

    /// Returns the public key polynomial h.
    pub fn pub_key_poly(&self) -> (r: &Polynomial)
        requires
            self.wf(),
        ensures
            r.wf(),
            r@ == pk_poly(self.pk_bytes()),
    {
        &self.pk_poly
    }

    /// Returns the nonce bytes of the signature.
    pub fn nonce(&self) -> (r: NonceBytes)
        requires
            self.wf(),
        ensures
            r@ == nonce_of(self.sig_bytes()),
    {
        let mut out: [u8; 40] = [0u8; 40];
        let mut i: usize = 0;
        while i < SIG_NONCE_LEN
            invariant
                self.sig@.len() == SIG_LEN,
                i <= SIG_NONCE_LEN,
                forall|j: int| 0 <= j < i ==> out@[j] == self.sig@[SIG_HEADER_LEN + j],
            decreases SIG_NONCE_LEN - i,
        {
            out.set(i, self.sig[SIG_HEADER_LEN + i]);
            i = i + 1;
        }
        assert(out@ =~= nonce_of(self.sig@));
        out
    }

    /// Returns the signature polynomial s2.
    pub fn sig_poly(&self) -> (r: &Polynomial)
        requires
            self.wf(),
        ensures
            r.wf(),
            r@ == sig_poly(self.sig_bytes()),
    {
        &self.sig_poly
    }

    /// Returns the polynomial that hashes the message with this signature's nonce.
    pub fn hash_to_point<H: RpoHasher>(&self, message: Word, hasher: &H) -> (r: Polynomial)
        requires
            self.wf(),
        ensures
            r.wf(),
            r@ == hash_to_point_spec(hasher, felt_vals(message@), nonce_of(self.sig_bytes())),
    {
        let nonce = self.nonce();
        hash_to_point(message, &nonce, hasher)
    }

    /// Returns true if this signature is valid for the message under the key whose
    /// commitment is given.
    pub fn verify<H: RpoHasher>(&self, message: Word, pubkey_com: Word, hasher: &H) -> (r: bool)
        requires
            self.wf(),
        ensures
            r == verifies(
                hasher,
                self.pk_bytes(),
                self.sig_bytes(),
                felt_vals(message@),
                felt_vals(pubkey_com@),
            ),
    {
        proof {
            self.pk_poly.lemma_wf();
        }
        // the commitment hashes h's coefficients as elements of the wider field
        let mut h_felts: Vec<Felt> = Vec::new();
        let mut i: usize = 0;
        while i < N
            invariant
                self.wf(),
                is_ring_elem(self.pk_poly@),
                i <= N,
                h_felts.len() == i,
                forall|j: int| 0 <= j < i ==> (#[trigger] h_felts@[j]).val() == self.pk_poly@[j],
            decreases N - i,
        {
            let v = self.pk_poly.coefficient(i).value();
            h_felts.push(Felt::new(v as u64));
            i = i + 1;
        }
        assert(felt_vals(h_felts@) =~= pk_poly(self.pk@));
        let h_digest = hasher.hash_elements(h_felts.as_slice());
        let mut same = true;
        let mut j: usize = 0;
        while j < 4
            invariant
                j <= 4,
                same <==> forall|t: int| 0 <= t < j ==> h_digest@[t].val() == pubkey_com@[t].val(),
            decreases 4 - j,
        {
            if h_digest[j].as_int() != pubkey_com[j].as_int() {
                same = false;
            }
            j = j + 1;
        }
        assert(same <==> felt_vals(h_digest@) == felt_vals(pubkey_com@)) by {
            if same {
                assert(felt_vals(h_digest@) =~= felt_vals(pubkey_com@));
            } else {
                let t = choose|t: int| 0 <= t < 4 && h_digest@[t].val() != pubkey_com@[t].val();
                assert(felt_vals(h_digest@)[t] != felt_vals(pubkey_com@)[t]);
            }
        }
        if !same {
            return false;
        }
        let c = self.hash_to_point(message, hasher);
        let s2 = &self.sig_poly;
        let h = &self.pk_poly;
        // s1 = c - s2 * h, computed in evaluation form
        let c_ntt = c.to_evaluation_form();
        let s2_ntt = s2.to_evaluation_form();
        let h_ntt = h.to_evaluation_form();
        let s1 = c_ntt.sub(&s2_ntt.hadamard_mul(&h_ntt)).to_coefficient_form();
        proof {
            c.lemma_wf();
            s2.lemma_wf();
            h.lemma_wf();
            let prod = ring_mul(s2@, h@);
            lemma_to_eval_mul(s2@, h@);
            lemma_to_eval_sub(c@, prod);
            assert(is_ring_elem(ring_sub(c@, prod)));
            lemma_to_coeff_to_eval(ring_sub(c@, prod));
        }
        let n1 = s1.norm_squared();
        let n2 = s2.norm_squared();
        proof {
            s1.lemma_wf();
            s2.lemma_wf();
            crate::poly::lemma_norm_bound(s1@);
            crate::poly::lemma_norm_bound(s2@);
        }
        accepts_norms(n1, n2)
    }

    /// Appends the public-key blob, then the signature blob.
    pub fn write_into(&self, target: &mut Vec<u8>)
        ensures
            final(target)@ == old(target)@ + self.pk_bytes() + self.sig_bytes(),
    {
        let mut i: usize = 0;
        let ghost start = target@;
        while i < self.pk.len()
            invariant
                target@ == start + self.pk@.take(i as int),
                i <= self.pk@.len(),
            decreases self.pk@.len() - i,
        {
            target.push(self.pk[i]);
            i = i + 1;
            assert(self.pk@.take(i as int) == self.pk@.take(i - 1).push(self.pk@[i - 1]));
        }
        assert(self.pk@.take(self.pk@.len() as int) == self.pk@);
        let ghost mid = target@;
        let mut i: usize = 0;
        while i < self.sig.len()
            invariant
                target@ == mid + self.sig@.take(i as int),
                i <= self.sig@.len(),
            decreases self.sig@.len() - i,
        {
            target.push(self.sig[i]);
            i = i + 1;
            assert(self.sig@.take(i as int) == self.sig@.take(i - 1).push(self.sig@[i - 1]));
        }
        assert(self.sig@.take(self.sig@.len() as int) == self.sig@);
    }

    /// The serialized signature: public-key blob, then signature blob.
    pub fn to_bytes(&self) -> (r: Vec<u8>)
        ensures
            r@ == self.pk_bytes() + self.sig_bytes(),
    {
        let mut out: Vec<u8> = Vec::new();
        self.write_into(&mut out);
        assert(out@ =~= self.pk@ + self.sig@);
        out
    }

    /// Reads a signature from its serialized form, decoding both polynomials.
    pub fn read_from_bytes(bytes: &[u8]) -> (r: Result<Signature, DeserializationError>)
        ensures
            r is Ok <==> blob_valid(bytes@),
            r matches Ok(s) ==> s.wf() && s.pk_bytes() == bytes@.subrange(0, PK_LEN as int)
                && s.sig_bytes() == bytes@.subrange(PK_LEN as int, SERIALIZED_LEN as int),
            bytes@.len() != SERIALIZED_LEN ==> r == Err::<Signature, _>(
                DeserializationError::InvalidLength,
            ),
            bytes@.len() == SERIALIZED_LEN && !pk_valid(bytes@.subrange(0, PK_LEN as int))
                ==> r == Err::<Signature, _>(DeserializationError::InvalidPublicKey),
            bytes@.len() == SERIALIZED_LEN && pk_valid(bytes@.subrange(0, PK_LEN as int))
                && !sig_valid(bytes@.subrange(PK_LEN as int, SERIALIZED_LEN as int)) ==> r
                == Err::<Signature, _>(DeserializationError::InvalidSignatureEncoding),
    {
        if bytes.len() != SERIALIZED_LEN {
            return Err(DeserializationError::InvalidLength);
        }
        let mut pk: Vec<u8> = Vec::new();
        let mut sig: Vec<u8> = Vec::new();
        let mut i: usize = 0;
        while i < SERIALIZED_LEN
            invariant
                bytes@.len() == SERIALIZED_LEN,
                i <= SERIALIZED_LEN,
                i <= PK_LEN ==> pk@ == bytes@.subrange(0, i as int) && sig@.len() == 0,
                i > PK_LEN ==> pk@ == bytes@.subrange(0, PK_LEN as int) && sig@
                    == bytes@.subrange(PK_LEN as int, i as int),
            decreases SERIALIZED_LEN - i,
        {
            if i < PK_LEN {
                pk.push(bytes[i]);
            } else {
                sig.push(bytes[i]);
            }
            i = i + 1;
            assert(pk@ =~= bytes@.subrange(0, if i <= PK_LEN { i as int } else { PK_LEN as int }));
            if i > PK_LEN {
                assert(sig@ =~= bytes@.subrange(PK_LEN as int, i as int));
            }
        }
        let pk_poly = match pub_key_from_bytes(pk.as_slice()) {
            Ok(p) => p,
            Err(_) => {
                return Err(DeserializationError::InvalidPublicKey);
            },
        };
        let sig_poly = match decompress_signature(sig.as_slice()) {
            Ok(p) => p,
            Err(_) => {
                return Err(DeserializationError::InvalidSignatureEncoding);
            },
        };
        Ok(Signature { pk, sig, pk_poly, sig_poly })
    }
}

} // verus!
