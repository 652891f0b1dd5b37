//! Elements of the BLS12-381 scalar field, held in their canonical 32-byte
//! little-endian encoding. The arithmetic itself is done by `bls12_381`
//! behind trusted wrappers; every contract speaks of the mathematical value
//! of the encoding.

use vstd::prelude::*;

verus! {

use crate::ZkError;

/// Order of the scalar field of the BLS12-381 curve.
pub open spec fn fp() -> nat {
    0x73eda753299d7d483339d80809a1d80553bda402fffe5bfeffffffff00000001nat
}

/// The integer that a little-endian byte string stands for.
pub open spec fn le_bytes_to_nat(s: Seq<u8>) -> nat
    decreases s.len(),
{
    if s.len() == 0 {
        0
    } else {
        s[0] as nat + 256 * le_bytes_to_nat(s.drop_first())
    }
}

/// A scalar-field element in canonical form.
#[derive(Debug)]
pub struct Fr {
    pub bytes: Vec<u8>,
}

/// Every element of a sequence is a well-formed field element.
pub open spec fn all_wf(s: Seq<Fr>) -> bool {
    forall|i: int| 0 <= i < s.len() ==> s[i].wf()
}

/// The mathematical values of a sequence of field elements.
pub open spec fn fr_values(s: Seq<Fr>) -> Seq<nat> {
    s.map_values(|f: Fr| f.value())
}

impl Fr {
    /// The value the element stands for.
    pub open spec fn value(&self) -> nat {
        le_bytes_to_nat(self.bytes@)
    }

    /// Canonical form: exactly 32 bytes, below the field order.
    pub open spec fn wf(&self) -> bool {
        self.bytes@.len() == 32 && self.value() < fp()
    }
}

/// Relies on `bls12_381::Scalar`: `from_bytes` accepts exactly the canonical
/// little-endian encodings, `+` is addition mod the field order, and
/// `to_bytes` returns the canonical encoding of the result.
#[verifier::external_body]
fn w_add(a: &Fr, b: &Fr) -> (r: Fr)
    requires
        a.wf(),
        b.wf(),
    ensures
        r.wf(),
        r.value() == (a.value() + b.value()) % fp(),
{
    let x = bls12_381::Scalar::from_bytes(a.bytes.as_slice().try_into().unwrap()).unwrap();
    let y = bls12_381::Scalar::from_bytes(b.bytes.as_slice().try_into().unwrap()).unwrap();
    Fr { bytes: (x + y).to_bytes().to_vec() }
}

/// Relies on `bls12_381::Scalar`: `*` is multiplication mod the field order.
#[verifier::external_body]
fn w_mul(a: &Fr, b: &Fr) -> (r: Fr)
    requires
        a.wf(),
        b.wf(),
    ensures
        r.wf(),
        r.value() == (a.value() * b.value()) % fp(),
{
    let x = bls12_381::Scalar::from_bytes(a.bytes.as_slice().try_into().unwrap()).unwrap();
    let y = bls12_381::Scalar::from_bytes(b.bytes.as_slice().try_into().unwrap()).unwrap();
    Fr { bytes: (x * y).to_bytes().to_vec() }
}

/// Relies on `bls12_381::Scalar::neg`: the additive inverse mod the field
/// order.
#[verifier::external_body]
fn w_neg(a: &Fr) -> (r: Fr)
    requires
        a.wf(),
    ensures
        r.wf(),
        r.value() == if a.value() == 0 {
            0nat
        } else {
            (fp() - a.value()) as nat
        },
{
    let x = bls12_381::Scalar::from_bytes(a.bytes.as_slice().try_into().unwrap()).unwrap();
    Fr { bytes: (-x).to_bytes().to_vec() }
}

/// Relies on `bls12_381::Scalar::from::<u64>`: a machine integer maps to the
/// field element of the same value, which is below the field order.
#[verifier::external_body]
fn w_from_u64(x: u64) -> (r: Fr)
    ensures
        r.wf(),
        r.value() == x as nat,
{
    Fr { bytes: bls12_381::Scalar::from(x).to_bytes().to_vec() }
}

/// Relies on `bls12_381::Scalar::from_bytes`: it succeeds exactly when the
/// 32 little-endian bytes stand for a value below the field order.
#[verifier::external_body]
fn w_bytes_canonical(bytes: &Vec<u8>) -> (r: bool)
    requires
        bytes@.len() == 32,
    ensures
        r == (le_bytes_to_nat(bytes@) < fp()),
{
    bool::from(bls12_381::Scalar::from_bytes(bytes.as_slice().try_into().unwrap()).is_some())
}

/// Relies on `ff::Field::random` for `bls12_381::Scalar`: every outcome is a
/// field element; nothing is assumed about which one.
#[verifier::external_body]
fn w_random(rng: &mut rand::rngs::StdRng) -> (r: Fr)
    ensures
        r.wf(),
{
    Fr { bytes: <bls12_381::Scalar as ff::Field>::random(&mut *rng).to_bytes().to_vec() }
}

/// The standard random-number generator of `rand`, used as an explicit
/// randomness source by the callers that need one.
#[verifier::external_type_specification]
#[verifier::external_body]
pub struct ExStdRng(rand::rngs::StdRng);

/// A copy of a byte string.
pub fn clone_bytes(v: &Vec<u8>) -> (r: Vec<u8>)
    ensures
        r@ == v@,
{
    let mut r: Vec<u8> = Vec::new();
    let mut i: usize = 0;
    while i < v.len()
        invariant
            0 <= i <= v@.len(),
            r@ == v@.take(i as int),
        decreases v@.len() - i,
    {
        r.push(v[i]);
        proof {
            assert(r@ =~= v@.take(i as int + 1));
        }
        i = i + 1;
    }
    proof {
        assert(r@ =~= v@);
    }
    r
}

/// Two byte strings of the same integer value and length are equal.
pub proof fn lemma_le_bytes_injective(a: Seq<u8>, b: Seq<u8>)
    requires
        a.len() == b.len(),
        le_bytes_to_nat(a) == le_bytes_to_nat(b),
    ensures
        a =~= b,
    decreases a.len(),
{
    if a.len() > 0 {
        lemma_le_bytes_low(a);
        lemma_le_bytes_low(b);
        assert(a[0] == b[0]);
        assert(le_bytes_to_nat(a.drop_first()) == le_bytes_to_nat(b.drop_first()));
        lemma_le_bytes_injective(a.drop_first(), b.drop_first());
        assert forall|i: int| 0 <= i < a.len() implies a[i] == b[i] by {
            if i > 0 {
                assert(a[i] == a.drop_first()[i - 1]);
                assert(b[i] == b.drop_first()[i - 1]);
            }
        }
        assert(a =~= b);
    }
}

/// The low byte of a byte string is its value mod 256.
proof fn lemma_le_bytes_low(a: Seq<u8>)
    requires
        a.len() > 0,
    ensures
        le_bytes_to_nat(a) % 256 == a[0] as nat,
        le_bytes_to_nat(a) == a[0] as nat + 256 * le_bytes_to_nat(a.drop_first()),
{
    vstd::arithmetic::div_mod::lemma_mod_multiples_vanish(
        le_bytes_to_nat(a.drop_first()) as int,
        a[0] as int,
        256,
    );
    vstd::arithmetic::div_mod::lemma_small_mod(a[0] as nat, 256);
}

impl Fr {
    /// Field addition.
    pub fn add(&self, other: &Fr) -> (r: Fr)
        requires
            self.wf(),
            other.wf(),
        ensures
            r.wf(),
            r.value() == (self.value() + other.value()) % fp(),
    {
        w_add(self, other)
    }

    /// Field multiplication.
    pub fn mul(&self, other: &Fr) -> (r: Fr)
        requires
            self.wf(),
            other.wf(),
        ensures
            r.wf(),
            r.value() == (self.value() * other.value()) % fp(),
    {
        w_mul(self, other)
    }

    /// Additive inverse.
    pub fn neg(&self) -> (r: Fr)
        requires
            self.wf(),
        ensures
            r.wf(),
            r.value() == if self.value() == 0 {
                0nat
            } else {
                (fp() - self.value()) as nat
            },
    {
        w_neg(self)
    }

    /// The field element of a machine integer's value.
    pub fn from_u64(x: u64) -> (r: Fr)
        ensures
            r.wf(),
            r.value() == x as nat,
    {
        w_from_u64(x)
    }

    /// Decode a canonical 32-byte little-endian encoding; every other
    /// input is rejected as a decode failure.
    pub fn from_bytes(bytes: &Vec<u8>) -> (r: Result<Fr, ZkError>)
        ensures
            (bytes@.len() == 32 && le_bytes_to_nat(bytes@) < fp()) ==> (r matches Ok(f)
                && f.bytes@ == bytes@ && f.wf()),
            (bytes@.len() != 32 || le_bytes_to_nat(bytes@) >= fp()) ==> r == Err::<
                Fr,
                ZkError,
            >(ZkError::DecodeError),
    {
        if bytes.len() != 32 {
            return Err(ZkError::DecodeError);
        }
        if !w_bytes_canonical(bytes) {
            return Err(ZkError::DecodeError);
        }
        Ok(Fr { bytes: clone_bytes(bytes) })
    }

    /// The canonical encoding of the element.
    pub fn to_bytes(&self) -> (r: Vec<u8>)
        ensures
            r@ == self.bytes@,
    {
        clone_bytes(&self.bytes)
    }

    /// A copy of the element.
    pub fn dup(&self) -> (r: Fr)
        ensures
            r.bytes@ == self.bytes@,
    {
        Fr { bytes: clone_bytes(&self.bytes) }
    }

    /// Value equality, decided on the canonical encodings.
    pub fn eq_fr(&self, other: &Fr) -> (r: bool)
        requires
            self.wf(),
            other.wf(),
        ensures
            r == (self.value() == other.value()),
    {
        if self.bytes.len() != other.bytes.len() {
            return false;
        }
        let mut i: usize = 0;
        while i < self.bytes.len()
            invariant
                self.bytes@.len() == other.bytes@.len(),
                0 <= i <= self.bytes@.len(),
                forall|j: int| 0 <= j < i ==> self.bytes@[j] == other.bytes@[j],
            decreases self.bytes@.len() - i,
        {
            if self.bytes[i] != other.bytes[i] {
                proof {
                    if self.value() == other.value() {
                        lemma_le_bytes_injective(self.bytes@, other.bytes@);
                    }
                }
                return false;
            }
            i = i + 1;
        }
        proof {
            assert(self.bytes@ =~= other.bytes@);
        }
        true
    }

    /// A fresh uniformly random field element drawn from the given source.
    pub fn random(rng: &mut rand::rngs::StdRng) -> (r: Fr)
        ensures
            r.wf(),
    {
        w_random(rng)
    }
}

} // verus!
