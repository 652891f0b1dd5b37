//! Proof verification. The pairing check itself is `bellman`'s, behind one
//! trusted wrapper that works on the canonical byte encodings; everything
//! around it — transport decoding, length and canonicity checks, and the
//! public-input arity check — is verified.

use vstd::prelude::*;

verus! {

use crate::ZkError;
use crate::field::{Fr, all_wf, fp, fr_values, le_bytes_to_nat};
use crate::keys::{
    ProofBytes, VerifyingKeyBytes, proof_encoding_ok, vk_encoding_ok, vk_ic_len,
};

/// What the Groth16 pairing check answers for a verifying key, a proof and a
/// sequence of public-input values: a deterministic function of those alone.
pub uninterp spec fn groth16_accepts(vk: Seq<u8>, proof: Seq<u8>, inputs: Seq<nat>) -> bool;

/// What `base64::decode` returns on a text, standard alphabet with padding:
/// a function of the text alone.
pub uninterp spec fn b64_decoded(s: Seq<char>) -> Option<Seq<u8>>;

/// Relies on `base64::decode`.
#[verifier::external_body]
fn w_b64_decode(s: &str) -> (r: Option<Vec<u8>>)
    ensures
        r is Some <==> b64_decoded(s@) is Some,
        r matches Some(v) ==> v@ == b64_decoded(s@).unwrap(),
{
    match base64::decode(s) {
        Ok(v) => Some(v),
        Err(_) => None,
    }
}

/// Relies on `bellman::groth16::verify_proof` and `prepare_verifying_key`,
/// with `VerifyingKey::read`, `Proof::read` and `Scalar::from_bytes`
/// rebuilding the checked values from their canonical encodings; the
/// verdict is deterministic in the key bytes, proof bytes and input values.
/// With the input count matching the key's shape, `verify_proof` returns
/// `Ok` exactly when the pairing equation holds.
#[verifier::external_body]
fn w_groth16_verify(vk: &VerifyingKeyBytes, proof: &ProofBytes, inputs: &Vec<Fr>) -> (r: bool)
    requires
        vk.wf(),
        proof.wf(),
        all_wf(inputs@),
        inputs@.len() + 1 == vk_ic_len(vk.bytes@),
    ensures
        r == groth16_accepts(vk.bytes@, proof.bytes@, fr_values(inputs@)),
{
    let k = match bellman::groth16::VerifyingKey::<bls12_381::Bls12>::read(&vk.bytes[..]) {
        Ok(k) => k,
        Err(_) => return false,
    };
    let p = match bellman::groth16::Proof::read(&proof.bytes[..]) {
        Ok(p) => p,
        Err(_) => return false,
    };
    let mut scalars: Vec<bls12_381::Scalar> = Vec::new();
    for f in inputs.iter() {
        scalars.push(bls12_381::Scalar::from_bytes(f.bytes.as_slice().try_into().unwrap()).unwrap());
    }
    let pvk = bellman::groth16::prepare_verifying_key(&k);
    bellman::groth16::verify_proof(&pvk, &p, &scalars).is_ok()
}

/// Check a proof against a verifying key and a sequence of public inputs.
///
/// An input count that differs from the key's declared arity is a caller
/// error, reported apart; with the count right, the result is exactly the
/// pairing check's verdict.
pub fn verify_inputs(vk: &VerifyingKeyBytes, proof: &ProofBytes, inputs: &Vec<Fr>) -> (r: Result<
    bool,
    ZkError,
>)
    requires
        vk.wf(),
        proof.wf(),
        all_wf(inputs@),
    ensures
        inputs@.len() != vk.spec_num_inputs() ==> r == Err::<bool, ZkError>(
            ZkError::KeyTopologyMismatch,
        ),
        inputs@.len() == vk.spec_num_inputs() ==> r == Ok::<bool, ZkError>(
            groth16_accepts(vk.bytes@, proof.bytes@, fr_values(inputs@)),
        ),
{
    let n = vk.num_public_inputs();
    if inputs.len() != n {
        return Err(ZkError::KeyTopologyMismatch);
    }
    Ok(w_groth16_verify(vk, proof, inputs))
}

/// The outcome the public verification entry point owes for each triple of
/// transport-encoded parameters: a decode failure on any malformed text,
/// non-canonical or wrongly sized buffer; a topology error when the key does
/// not expect exactly the one image; otherwise the pairing check's verdict.
pub open spec fn spec_verify_outcome(vk_s: Seq<char>, proof_s: Seq<char>, image_s: Seq<char>) -> Result<
    bool,
    ZkError,
> {
    if b64_decoded(vk_s) is None || b64_decoded(proof_s) is None || b64_decoded(image_s) is None {
        Err(ZkError::DecodeError)
    } else {
        let vkb = b64_decoded(vk_s).unwrap();
        let pfb = b64_decoded(proof_s).unwrap();
        let imb = b64_decoded(image_s).unwrap();
        if imb.len() != 32 || le_bytes_to_nat(imb) >= fp() || !vk_encoding_ok(vkb)
            || !proof_encoding_ok(pfb) {
            Err(ZkError::DecodeError)
        } else if vk_ic_len(vkb) != 2 {
            Err(ZkError::KeyTopologyMismatch)
        } else {
            Ok(groth16_accepts(vkb, pfb, seq![le_bytes_to_nat(imb)]))
        }
    }
}

/// Decode three transport-encoded parameters — a verifying key, a proof and
/// a 32-byte field element — and check the proof against that one public
/// input.
pub fn verify(vk_base64: String, proof_base64: String, image_base64: String) -> (r: Result<
    bool,
    ZkError,
>)
    ensures
        r == spec_verify_outcome(vk_base64@, proof_base64@, image_base64@),
{
    let vk_bytes = match w_b64_decode(vk_base64.as_str()) {
        Some(v) => v,
        None => return Err(ZkError::DecodeError),
    };
    let proof_bytes = match w_b64_decode(proof_base64.as_str()) {
        Some(v) => v,
        None => return Err(ZkError::DecodeError),
    };
    let image_vec = match w_b64_decode(image_base64.as_str()) {
        Some(v) => v,
        None => return Err(ZkError::DecodeError),
    };
    let image = match Fr::from_bytes(&image_vec) {
        Ok(f) => f,
        Err(_) => return Err(ZkError::DecodeError),
    };
    let vk = match VerifyingKeyBytes::deserialize(&vk_bytes) {
        Ok(k) => k,
        Err(_) => return Err(ZkError::DecodeError),
    };
    let pf = match ProofBytes::deserialize(&proof_bytes) {
        Ok(p) => p,
        Err(_) => return Err(ZkError::DecodeError),
    };
    let mut inputs: Vec<Fr> = Vec::new();
    inputs.push(image);
    proof {
        assert(fr_values(inputs@) =~= seq![le_bytes_to_nat(image_vec@)]);
    }
    verify_inputs(&vk, &pf, &inputs)
}

/// The 32-byte buffer a decoded image must fill exactly.
pub fn pop(bytes: Vec<u8>) -> (r: [u8; 32])
    requires
        bytes@.len() == 32,
    ensures
        r@ == bytes@,
{
    let r: [u8; 32] = [
        bytes[0], bytes[1], bytes[2], bytes[3], bytes[4], bytes[5], bytes[6], bytes[7], bytes[8],
        bytes[9], bytes[10], bytes[11], bytes[12], bytes[13], bytes[14], bytes[15], bytes[16],
        bytes[17], bytes[18], bytes[19], bytes[20], bytes[21], bytes[22], bytes[23], bytes[24],
        bytes[25], bytes[26], bytes[27], bytes[28], bytes[29], bytes[30], bytes[31],
    ];
    proof {
        assert(r@ =~= bytes@);
    }
    r
}

} // verus!
