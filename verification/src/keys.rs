//! Canonical byte encodings of the Groth16 artifacts: the verifying key, the
//! proof, and the proving key. Each library type holds the encoding itself,
//! validated on the way in, so that serialization is the identity on what
//! deserialization accepted.
//!
//! A verifying key encodes six fixed-width group elements (864 bytes), a
//! big-endian 32-bit count of input commitments, and that many 96-byte
//! elements; a proof encodes three compressed group elements (192 bytes).

use vstd::prelude::*;

verus! {

use crate::ZkError;
use crate::field::clone_bytes;

/// Whether `bellman::groth16::VerifyingKey::<Bls12>::read` accepts a byte
/// string: a fact of the bytes alone.
pub uninterp spec fn vk_bytes_well_formed(b: Seq<u8>) -> bool;

/// Whether `bellman::groth16::Proof::<Bls12>::read` accepts a byte string.
pub uninterp spec fn proof_bytes_well_formed(b: Seq<u8>) -> bool;

/// Whether `bellman::groth16::Parameters::<Bls12>::read` accepts a byte
/// string under full validity checking.
pub uninterp spec fn params_bytes_well_formed(b: Seq<u8>) -> bool;

/// The value of a big-endian 32-bit integer.
pub open spec fn be_u32(s: Seq<u8>) -> nat {
    s[0] as nat * 0x1000000 + s[1] as nat * 0x10000 + s[2] as nat * 0x100 + s[3] as nat
}

/// The count of input commitments a verifying-key encoding declares, read
/// from the four bytes after the six fixed group elements.
pub open spec fn vk_ic_len(b: Seq<u8>) -> nat {
    be_u32(b.subrange(864, 868))
}

/// The exact length of a verifying-key encoding with the given count of
/// input commitments.
pub open spec fn vk_exact_len(b: Seq<u8>) -> nat {
    868 + 96 * vk_ic_len(b)
}

/// A byte string that the library accepts as a verifying key: the parser
/// takes it, it declares at least the one mandatory commitment, and it ends
/// exactly where the declared shape says.
pub open spec fn vk_encoding_ok(b: Seq<u8>) -> bool {
    &&& vk_bytes_well_formed(b)
    &&& vk_ic_len(b) >= 1
    &&& b.len() == vk_exact_len(b)
}

/// A byte string that the library accepts as a proof: the parser takes it
/// and it is exactly the three compressed group elements.
pub open spec fn proof_encoding_ok(b: Seq<u8>) -> bool {
    proof_bytes_well_formed(b) && b.len() == 192
}

/// The count a four-byte big-endian integer at the given offset declares.
pub open spec fn count_at(b: Seq<u8>, off: int) -> nat {
    be_u32(b.subrange(off, off + 4))
}

/// The exact length of a parameters encoding: the verifying key, then four
/// sections of 96-byte elements and one of 192-byte elements, each behind a
/// big-endian 32-bit count. `None` when a count would lie beyond the buffer.
pub open spec fn params_exact_len(b: Seq<u8>) -> Option<nat> {
    if b.len() < 868 {
        Option::None
    } else {
        let p1 = 868 + 96 * vk_ic_len(b);
        if b.len() < p1 + 4 {
            Option::None
        } else {
            let p2 = p1 + 4 + 96 * count_at(b, p1 as int);
            if b.len() < p2 + 4 {
                Option::None
            } else {
                let p3 = p2 + 4 + 96 * count_at(b, p2 as int);
                if b.len() < p3 + 4 {
                    Option::None
                } else {
                    let p4 = p3 + 4 + 96 * count_at(b, p3 as int);
                    if b.len() < p4 + 4 {
                        Option::None
                    } else {
                        let p5 = p4 + 4 + 96 * count_at(b, p4 as int);
                        if b.len() < p5 + 4 {
                            Option::None
                        } else {
                            Option::Some(p5 + 4 + 192 * count_at(b, p5 as int))
                        }
                    }
                }
            }
        }
    }
}

/// A byte string that the library accepts as proving parameters: the parser
/// takes it and it ends exactly where its declared section counts say.
pub open spec fn pk_encoding_ok(b: Seq<u8>) -> bool {
    params_bytes_well_formed(b) && params_exact_len(b) == Option::Some(b.len())
}

/// Relies on `bellman::groth16::VerifyingKey::<Bls12>::read`: success is a
/// function of the bytes alone; it consumes six fixed-width group elements
/// (864 bytes), a big-endian `u32` count, and 96 bytes per counted element,
/// so success needs at least that many bytes.
#[verifier::external_body]
fn w_vk_parse_ok(bytes: &Vec<u8>) -> (r: bool)
    ensures
        r == vk_bytes_well_formed(bytes@),
        r ==> bytes@.len() >= 868 && bytes@.len() >= vk_exact_len(bytes@),
{
    bellman::groth16::VerifyingKey::<bls12_381::Bls12>::read(&bytes[..]).is_ok()
}

/// Relies on `bellman::groth16::Proof::<Bls12>::read`: success is a function
/// of the bytes alone; it consumes two 48-byte and one 96-byte compressed
/// group encodings, so success needs at least 192 bytes.
#[verifier::external_body]
fn w_proof_parse_ok(bytes: &Vec<u8>) -> (r: bool)
    ensures
        r == proof_bytes_well_formed(bytes@),
        r ==> bytes@.len() >= 192,
{
    bellman::groth16::Proof::<bls12_381::Bls12>::read(&bytes[..]).is_ok()
}

/// Relies on `bellman::groth16::Parameters::<Bls12>::read` with checking
/// switched on: success is a function of the bytes alone.
#[verifier::external_body]
fn w_params_parse_ok(bytes: &Vec<u8>) -> (r: bool)
    ensures
        r == params_bytes_well_formed(bytes@),
{
    bellman::groth16::Parameters::<bls12_381::Bls12>::read(&bytes[..], true).is_ok()
}

/// Read the big-endian 32-bit integer at the given offset.
fn read_be_u32(bytes: &Vec<u8>, off: usize) -> (r: u32)
    requires
        off + 4 <= bytes@.len(),
    ensures
        r as nat == be_u32(bytes@.subrange(off as int, off as int + 4)),
{
    let n = bytes.len();
    proof {
        assert(off + 4 <= n);
    }
    let b0 = bytes[off] as u32;
    let b1 = bytes[off + 1] as u32;
    let b2 = bytes[off + 2] as u32;
    let b3 = bytes[off + 3] as u32;
    proof {
        let s = bytes@.subrange(off as int, off as int + 4);
        assert(s[0] == bytes@[off as int]);
        assert(s[1] == bytes@[off as int + 1]);
        assert(s[2] == bytes@[off as int + 2]);
        assert(s[3] == bytes@[off as int + 3]);
    }
    b0 * 0x1000000 + b1 * 0x10000 + b2 * 0x100 + b3
}

/// The canonical encoding of a Groth16 verifying key.
#[derive(Debug)]
pub struct VerifyingKeyBytes {
    pub bytes: Vec<u8>,
}

impl VerifyingKeyBytes {
    /// The key holds exactly one accepted encoding.
    pub open spec fn wf(&self) -> bool {
        vk_encoding_ok(self.bytes@)
    }

    /// How many public inputs the key expects: one less than its count of
    /// input commitments.
    pub open spec fn spec_num_inputs(&self) -> nat {
        (vk_ic_len(self.bytes@) - 1) as nat
    }

    /// Accept exactly the byte strings the parser takes whose length matches
    /// their declared shape; reject everything else as a decode failure.
    pub fn deserialize(bytes: &Vec<u8>) -> (r: Result<VerifyingKeyBytes, ZkError>)
        ensures
            vk_encoding_ok(bytes@) ==> (r matches Ok(k) && k.bytes@ == bytes@),
            !vk_encoding_ok(bytes@) ==> r == Err::<VerifyingKeyBytes, ZkError>(
                ZkError::DecodeError,
            ),
            r matches Ok(k) ==> k.wf() && k.bytes@ == bytes@,
    {
        if !w_vk_parse_ok(bytes) {
            return Err(ZkError::DecodeError);
        }
        let ic = read_be_u32(bytes, 864);
        if ic == 0 {
            return Err(ZkError::DecodeError);
        }
        if (bytes.len() as u64) != 868u64 + 96u64 * (ic as u64) {
            return Err(ZkError::DecodeError);
        }
        Ok(VerifyingKeyBytes { bytes: clone_bytes(bytes) })
    }

    /// The canonical encoding back, unchanged.
    pub fn serialize(&self) -> (r: Vec<u8>)
        ensures
            r@ == self.bytes@,
    {
        clone_bytes(&self.bytes)
    }

    /// How many public inputs the key expects.
    pub fn num_public_inputs(&self) -> (r: usize)
        requires
            self.wf(),
        ensures
            r as nat == self.spec_num_inputs(),
    {
        let ic = read_be_u32(&self.bytes, 864);
        (ic - 1) as usize
    }
}

/// The canonical encoding of a Groth16 proof.
#[derive(Debug)]
pub struct ProofBytes {
    pub bytes: Vec<u8>,
}

impl ProofBytes {
    /// The proof holds exactly one accepted 192-byte encoding.
    pub open spec fn wf(&self) -> bool {
        proof_encoding_ok(self.bytes@)
    }

    /// Accept exactly the 192-byte strings the parser takes; reject
    /// everything else as a decode failure.
    pub fn deserialize(bytes: &Vec<u8>) -> (r: Result<ProofBytes, ZkError>)
        ensures
            proof_encoding_ok(bytes@) ==> (r matches Ok(p) && p.bytes@ == bytes@),
            !proof_encoding_ok(bytes@) ==> r == Err::<ProofBytes, ZkError>(ZkError::DecodeError),
            r matches Ok(p) ==> p.wf() && p.bytes@ == bytes@,
    {
        if bytes.len() != 192 {
            return Err(ZkError::DecodeError);
        }
        if !w_proof_parse_ok(bytes) {
            return Err(ZkError::DecodeError);
        }
        Ok(ProofBytes { bytes: clone_bytes(bytes) })
    }

    /// The canonical encoding back, unchanged.
    pub fn serialize(&self) -> (r: Vec<u8>)
        ensures
            r@ == self.bytes@,
    {
        clone_bytes(&self.bytes)
    }
}

/// Walk the declared section counts of a parameters encoding and compute the
/// exact length the buffer must have.
fn params_exact_len_exec(bytes: &Vec<u8>) -> (r: Option<u64>)
    ensures
        match (r, params_exact_len(bytes@)) {
            (Option::Some(v), Option::Some(s)) => v as nat == s,
            (Option::None, Option::None) => true,
            _ => false,
        },
{
    let len: u64 = bytes.len() as u64;
    if bytes.len() < 868 {
        return Option::None;
    }
    let ic = read_be_u32(bytes, 864);
    let p1: u64 = 868 + 96 * (ic as u64);
    if len < p1 + 4 {
        return Option::None;
    }
    proof {
        assert(p1 as usize as int == p1 as int);
    }
    let c1 = read_be_u32(bytes, p1 as usize);
    let p2: u64 = p1 + 4 + 96 * (c1 as u64);
    if len < p2 + 4 {
        return Option::None;
    }
    proof {
        assert(p2 as usize as int == p2 as int);
    }
    let c2 = read_be_u32(bytes, p2 as usize);
    let p3: u64 = p2 + 4 + 96 * (c2 as u64);
    if len < p3 + 4 {
        return Option::None;
    }
    proof {
        assert(p3 as usize as int == p3 as int);
    }
    let c3 = read_be_u32(bytes, p3 as usize);
    let p4: u64 = p3 + 4 + 96 * (c3 as u64);
    if len < p4 + 4 {
        return Option::None;
    }
    proof {
        assert(p4 as usize as int == p4 as int);
    }
    let c4 = read_be_u32(bytes, p4 as usize);
    let p5: u64 = p4 + 4 + 96 * (c4 as u64);
    if len < p5 + 4 {
        return Option::None;
    }
    proof {
        assert(p5 as usize as int == p5 as int);
    }
    let c5 = read_be_u32(bytes, p5 as usize);
    Option::Some(p5 + 4 + 192 * (c5 as u64))
}

/// The encoding of the full Groth16 parameters, whose verifying key is only
/// one part; the prover consumes it.
#[derive(Debug)]
pub struct ProvingKeyBytes {
    pub bytes: Vec<u8>,
}

impl ProvingKeyBytes {
    /// The key holds exactly one accepted encoding.
    pub open spec fn wf(&self) -> bool {
        pk_encoding_ok(self.bytes@)
    }

    /// Accept exactly the byte strings the parameters parser takes under
    /// full checking whose length matches their declared section counts;
    /// reject everything else as a decode failure.
    pub fn deserialize(bytes: &Vec<u8>) -> (r: Result<ProvingKeyBytes, ZkError>)
        ensures
            pk_encoding_ok(bytes@) ==> (r matches Ok(k) && k.bytes@ == bytes@),
            !pk_encoding_ok(bytes@) ==> r == Err::<ProvingKeyBytes, ZkError>(
                ZkError::DecodeError,
            ),
            r matches Ok(k) ==> k.wf() && k.bytes@ == bytes@,
    {
        if !w_params_parse_ok(bytes) {
            return Err(ZkError::DecodeError);
        }
        let expected = match params_exact_len_exec(bytes) {
            Option::Some(v) => v,
            Option::None => {
                return Err(ZkError::DecodeError);
            },
        };
        if (bytes.len() as u64) != expected {
            return Err(ZkError::DecodeError);
        }
        Ok(ProvingKeyBytes { bytes: clone_bytes(bytes) })
    }

    /// The canonical encoding back, unchanged.
    pub fn serialize(&self) -> (r: Vec<u8>)
        ensures
            r@ == self.bytes@,
    {
        clone_bytes(&self.bytes)
    }
}

/// Law: serialization and deserialization of a verifying key are mutually
/// inverse, byte for byte. Together with the contracts above: a key
/// deserialized from bytes serializes back to exactly those bytes, and a
/// well-formed key's serialization deserializes to a key with the same bytes.
pub proof fn lemma_vk_codec_round_trip(k: VerifyingKeyBytes, b: Seq<u8>)
    ensures
        k.wf() ==> vk_encoding_ok(k.bytes@),
        (vk_encoding_ok(b) && k.bytes@ == b) ==> k.wf(),
{
}

/// Law: serialization and deserialization of a proof are mutually inverse,
/// byte for byte.
pub proof fn lemma_proof_codec_round_trip(p: ProofBytes, b: Seq<u8>)
    ensures
        p.wf() ==> proof_encoding_ok(p.bytes@),
        (proof_encoding_ok(b) && p.bytes@ == b) ==> p.wf(),
{
}

/// Law: serialization and deserialization of the proving parameters are
/// mutually inverse, byte for byte.
pub proof fn lemma_pk_codec_round_trip(k: ProvingKeyBytes, b: Seq<u8>)
    ensures
        k.wf() ==> pk_encoding_ok(k.bytes@),
        (pk_encoding_ok(b) && k.bytes@ == b) ==> k.wf(),
{
}

} // verus!
