//! Curve points and scalars of BLS12-381, held as their canonical bytes.
use ark_bls12_381::{Fr, G1Affine, G2Affine};
use ark_serialize::{CanonicalDeserialize, CanonicalSerialize, Compress, Validate};
use vstd::prelude::*;

verus! {

/// The kinds of single elements a payload is made of.
#[derive(Clone, Copy, Debug, PartialEq, Eq, Structural)]
pub enum Elem {
    /// A point of the first source group.
    G1,
    /// A point of the second source group.
    G2,
    /// A scalar of the prime-order field.
    Fr,
}

/// Number of bytes one element takes in the given density.
pub open spec fn width(e: Elem, compressed: bool) -> nat {
    match e {
        Elem::G1 => if compressed { 48 } else { 96 },
        Elem::G2 => if compressed { 96 } else { 192 },
        Elem::Fr => 32,
    }
}

/// Uncompressed canonical bytes of the first-group point that `b` encodes, if any.
pub uninterp spec fn g1_point(b: Seq<u8>, compressed: bool) -> Option<Seq<u8>>;

/// Uncompressed canonical bytes of the second-group point that `b` encodes, if any.
pub uninterp spec fn g2_point(b: Seq<u8>, compressed: bool) -> Option<Seq<u8>>;

/// Canonical bytes of the field scalar that `b` encodes, if any.
pub uninterp spec fn fr_scalar(b: Seq<u8>, compressed: bool) -> Option<Seq<u8>>;

/// The uncompressed canonical form of the element that `b` encodes in the given density.
pub open spec fn canonical(e: Elem, b: Seq<u8>, compressed: bool) -> Option<Seq<u8>> {
    match e {
        Elem::G1 => g1_point(b, compressed),
        Elem::G2 => g2_point(b, compressed),
        Elem::Fr => fr_scalar(b, compressed),
    }
}

pub fn elem_width(e: Elem, compressed: bool) -> (r: usize)
    ensures
        r == width(e, compressed),
{
    match e {
        Elem::G1 => if compressed { 48 } else { 96 },
        Elem::G2 => if compressed { 96 } else { 192 },
        Elem::Fr => 32,
    }
}

/// Relies on `CanonicalDeserialize::deserialize_with_mode` for `ark_bls12_381::G1Affine`
/// (validating the point) followed by `serialize_uncompressed`, which writes 96 bytes.
#[verifier::external_body]
fn recode_g1(b: &[u8], compressed: bool) -> (r: Option<Vec<u8>>)
    ensures
        r is Some <==> g1_point(b@, compressed) is Some,
        r is Some ==> r->0@ == g1_point(b@, compressed)->0 && r->0@.len() == 96,
{
    let mode = if compressed { Compress::Yes } else { Compress::No };
    let p = G1Affine::deserialize_with_mode(b, mode, Validate::Yes).ok()?;
    let mut v = Vec::new();
    p.serialize_uncompressed(&mut v).ok()?;
    Some(v)
}

/// Relies on `CanonicalDeserialize::deserialize_with_mode` for `ark_bls12_381::G2Affine`
/// (validating the point) followed by `serialize_uncompressed`, which writes 192 bytes.
#[verifier::external_body]
fn recode_g2(b: &[u8], compressed: bool) -> (r: Option<Vec<u8>>)
    ensures
        r is Some <==> g2_point(b@, compressed) is Some,
        r is Some ==> r->0@ == g2_point(b@, compressed)->0 && r->0@.len() == 192,
{
    let mode = if compressed { Compress::Yes } else { Compress::No };
    let p = G2Affine::deserialize_with_mode(b, mode, Validate::Yes).ok()?;
    let mut v = Vec::new();
    p.serialize_uncompressed(&mut v).ok()?;
    Some(v)
}

/// Relies on `CanonicalDeserialize::deserialize_with_mode` for `ark_bls12_381::Fr`
/// (rejecting values not below the modulus) followed by `serialize_uncompressed`,
/// which writes 32 bytes.
#[verifier::external_body]
fn recode_fr(b: &[u8], compressed: bool) -> (r: Option<Vec<u8>>)
    ensures
        r is Some <==> fr_scalar(b@, compressed) is Some,
        r is Some ==> r->0@ == fr_scalar(b@, compressed)->0 && r->0@.len() == 32,
{
    let mode = if compressed { Compress::Yes } else { Compress::No };
    let s = Fr::deserialize_with_mode(b, mode, Validate::Yes).ok()?;
    let mut v = Vec::new();
    s.serialize_uncompressed(&mut v).ok()?;
    Some(v)
}

/// The uncompressed canonical bytes of the element that `b` encodes, kept only when
/// they have the uncompressed width.
pub open spec fn elem_result(e: Elem, b: Seq<u8>, compressed: bool) -> Option<Seq<u8>> {
    match canonical(e, b, compressed) {
        Some(v) => if v.len() == width(e, false) { Some(v) } else { None },
        None => None,
    }
}

/// Decodes one element given in the stated density and returns its uncompressed
/// canonical bytes.
pub fn recode_elem(e: Elem, b: &[u8], compressed: bool) -> (r: Option<Vec<u8>>)
    ensures
        r is Some <==> elem_result(e, b@, compressed) is Some,
        r is Some ==> r->0@ == elem_result(e, b@, compressed)->0,
{
    match e {
        Elem::G1 => recode_g1(b, compressed),
        Elem::G2 => recode_g2(b, compressed),
        Elem::Fr => recode_fr(b, compressed),
    }
}

} // verus!
