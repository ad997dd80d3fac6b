//! The closed set of setup-parameter kinds, the `SetupParam` value and its canonical
//! tagged encoding.
use crate::element::Elem;
use crate::layout::{append_range, check_payload, fits, lemma_fits_prefix_free, Cause, Part};
use vstd::slice::slice_subrange;
use vstd::prelude::*;

verus! {

/// Every kind of setup material the composite proof system understands.
#[derive(Clone, Copy, Debug, PartialEq, Eq, Structural)]
pub enum Kind {
    BbsSignatureParams,
    BbsPublicKey,
    AccumulatorParams,
    AccumulatorPublicKey,
    AccumulatorMemProvingKey,
    AccumulatorNonMemProvingKey,
    PedersenCommitmentKeyG1,
    PedersenCommitmentKeyG2,
    SaverEncryptionGens,
    SaverCommitmentGens,
    SaverEncryptionKey,
    SaverProvingKey,
    SaverVerifyingKey,
    LegoProvingKey,
    LegoVerifyingKey,
    R1cs,
    Bytes,
    FieldElemVec,
}

/// Number of kinds; tags run from zero up to this bound, exclusive.
pub const KIND_COUNT: u8 = 18;

/// The tag byte written for each kind.
pub open spec fn tag_of(k: Kind) -> u8 {
    match k {
        Kind::BbsSignatureParams => 0,
        Kind::BbsPublicKey => 1,
        Kind::AccumulatorParams => 2,
        Kind::AccumulatorPublicKey => 3,
        Kind::AccumulatorMemProvingKey => 4,
        Kind::AccumulatorNonMemProvingKey => 5,
        Kind::PedersenCommitmentKeyG1 => 6,
        Kind::PedersenCommitmentKeyG2 => 7,
        Kind::SaverEncryptionGens => 8,
        Kind::SaverCommitmentGens => 9,
        Kind::SaverEncryptionKey => 10,
        Kind::SaverProvingKey => 11,
        Kind::SaverVerifyingKey => 12,
        Kind::LegoProvingKey => 13,
        Kind::LegoVerifyingKey => 14,
        Kind::R1cs => 15,
        Kind::Bytes => 16,
        Kind::FieldElemVec => 17,
    }
}

/// The kind a tag byte names, if any.
pub open spec fn kind_of_tag(t: u8) -> Option<Kind> {
    if t == 0 { Some(Kind::BbsSignatureParams) }
    else if t == 1 { Some(Kind::BbsPublicKey) }
    else if t == 2 { Some(Kind::AccumulatorParams) }
    else if t == 3 { Some(Kind::AccumulatorPublicKey) }
    else if t == 4 { Some(Kind::AccumulatorMemProvingKey) }
    else if t == 5 { Some(Kind::AccumulatorNonMemProvingKey) }
    else if t == 6 { Some(Kind::PedersenCommitmentKeyG1) }
    else if t == 7 { Some(Kind::PedersenCommitmentKeyG2) }
    else if t == 8 { Some(Kind::SaverEncryptionGens) }
    else if t == 9 { Some(Kind::SaverCommitmentGens) }
    else if t == 10 { Some(Kind::SaverEncryptionKey) }
    else if t == 11 { Some(Kind::SaverProvingKey) }
    else if t == 12 { Some(Kind::SaverVerifyingKey) }
    else if t == 13 { Some(Kind::LegoProvingKey) }
    else if t == 14 { Some(Kind::LegoVerifyingKey) }
    else if t == 15 { Some(Kind::R1cs) }
    else if t == 16 { Some(Kind::Bytes) }
    else if t == 17 { Some(Kind::FieldElemVec) }
    else { None }
}

/// Fields of a Groth16-style verifying key: `alpha` in the first group, `beta`,
/// `gamma` and `delta` in the second, then the input bases.
pub open spec fn groth_vk_layout() -> Seq<Part> {
    seq![Part::One(Elem::G1), Part::One(Elem::G2), Part::One(Elem::G2), Part::One(Elem::G2), Part::Many(Elem::G1)]
}

/// The queries of a Groth16-style proving key after its verifying key: `beta` and
/// `delta` in the first group, then the `a`, `b` (both groups), `h` and `l` queries.
pub open spec fn groth_pk_tail() -> Seq<Part> {
    seq![Part::One(Elem::G1), Part::One(Elem::G1), Part::Many(Elem::G1), Part::Many(Elem::G1),
        Part::Many(Elem::G2), Part::Many(Elem::G1), Part::Many(Elem::G1)]
}

/// A LegoGroth16 verifying key: the Groth16 fields, `eta / gamma` in the first group
/// and the count of committed witnesses.
pub open spec fn lego_vk_layout() -> Seq<Part> {
    groth_vk_layout() + seq![Part::One(Elem::G1), Part::Word]
}

/// The uncompressed byte layout of each kind's payload.
pub open spec fn layout(k: Kind) -> Seq<Part> {
    match k {
        Kind::BbsSignatureParams => seq![Part::One(Elem::G1), Part::One(Elem::G2), Part::One(Elem::G1), Part::Many(Elem::G1)],
        Kind::BbsPublicKey => seq![Part::One(Elem::G2)],
        Kind::AccumulatorParams => seq![Part::One(Elem::G1), Part::One(Elem::G2)],
        Kind::AccumulatorPublicKey => seq![Part::One(Elem::G2)],
        Kind::AccumulatorMemProvingKey => seq![Part::One(Elem::G1), Part::One(Elem::G1), Part::One(Elem::G1)],
        Kind::AccumulatorNonMemProvingKey => seq![Part::One(Elem::G1), Part::One(Elem::G1), Part::One(Elem::G1), Part::One(Elem::G1)],
        Kind::PedersenCommitmentKeyG1 => seq![Part::Many(Elem::G1)],
        Kind::PedersenCommitmentKeyG2 => seq![Part::Many(Elem::G2)],
        Kind::SaverEncryptionGens => seq![Part::One(Elem::G1), Part::One(Elem::G2)],
        Kind::SaverCommitmentGens => seq![Part::One(Elem::G1), Part::One(Elem::G1)],
        Kind::SaverEncryptionKey => seq![Part::Many(Elem::G1), Part::Many(Elem::G1), Part::Many(Elem::G1), Part::One(Elem::G1), Part::One(Elem::G1)],
        Kind::SaverProvingKey => groth_vk_layout() + groth_pk_tail() + seq![Part::Many(Elem::G1)],
        Kind::SaverVerifyingKey => groth_vk_layout() + seq![Part::Many(Elem::G1)],
        Kind::LegoProvingKey => lego_vk_layout() + groth_pk_tail() + seq![Part::One(Elem::G1)],
        Kind::LegoVerifyingKey => lego_vk_layout(),
        Kind::R1cs => seq![Part::Word, Part::Word, Part::Word, Part::Rows],
        Kind::Bytes => seq![Part::Run(1)],
        Kind::FieldElemVec => seq![Part::Many(Elem::Fr)],
    }
}

/// The canonical encoding of a kind and its payload: the tag byte, then the payload.
pub open spec fn encoding(k: Kind, payload: Seq<u8>) -> Seq<u8> {
    seq![tag_of(k)] + payload
}

/// What decoding `b` gives: its kind and payload, when the first byte is a known tag
/// and the rest has the shape of that kind's layout.
pub open spec fn decoded(b: Seq<u8>) -> Option<(Kind, Seq<u8>)> {
    if b.len() == 0 {
        None
    } else {
        match kind_of_tag(b[0]) {
            Some(k) => if fits(layout(k), b.skip(1)) { Some((k, b.skip(1))) } else { None },
            None => None,
        }
    }
}

/// The tag byte of a kind.
pub fn tag(k: Kind) -> (r: u8)
    ensures
        r == tag_of(k),
{
    match k {
        Kind::BbsSignatureParams => 0,
        Kind::BbsPublicKey => 1,
        Kind::AccumulatorParams => 2,
        Kind::AccumulatorPublicKey => 3,
        Kind::AccumulatorMemProvingKey => 4,
        Kind::AccumulatorNonMemProvingKey => 5,
        Kind::PedersenCommitmentKeyG1 => 6,
        Kind::PedersenCommitmentKeyG2 => 7,
        Kind::SaverEncryptionGens => 8,
        Kind::SaverCommitmentGens => 9,
        Kind::SaverEncryptionKey => 10,
        Kind::SaverProvingKey => 11,
        Kind::SaverVerifyingKey => 12,
        Kind::LegoProvingKey => 13,
        Kind::LegoVerifyingKey => 14,
        Kind::R1cs => 15,
        Kind::Bytes => 16,
        Kind::FieldElemVec => 17,
    }
}

/// The kind a tag byte names; `None` for a tag outside the closed set.
pub fn kind_from_tag(t: u8) -> (r: Option<Kind>)
    ensures
        r == kind_of_tag(t),
        r is None <==> t >= KIND_COUNT,
{
    match t {
        0 => Some(Kind::BbsSignatureParams),
        1 => Some(Kind::BbsPublicKey),
        2 => Some(Kind::AccumulatorParams),
        3 => Some(Kind::AccumulatorPublicKey),
        4 => Some(Kind::AccumulatorMemProvingKey),
        5 => Some(Kind::AccumulatorNonMemProvingKey),
        6 => Some(Kind::PedersenCommitmentKeyG1),
        7 => Some(Kind::PedersenCommitmentKeyG2),
        8 => Some(Kind::SaverEncryptionGens),
        9 => Some(Kind::SaverCommitmentGens),
        10 => Some(Kind::SaverEncryptionKey),
        11 => Some(Kind::SaverProvingKey),
        12 => Some(Kind::SaverVerifyingKey),
        13 => Some(Kind::LegoProvingKey),
        14 => Some(Kind::LegoVerifyingKey),
        15 => Some(Kind::R1cs),
        16 => Some(Kind::Bytes),
        17 => Some(Kind::FieldElemVec),
        _ => None,
    }
}

/// The layout of a kind's payload.
pub fn layout_of(k: Kind) -> (r: Vec<Part>)
    ensures
        r@ == layout(k),
{
    let mut v: Vec<Part> = Vec::new();
    match k {
        Kind::BbsSignatureParams => {
            v.push(Part::One(Elem::G1));
            v.push(Part::One(Elem::G2));
            v.push(Part::One(Elem::G1));
            v.push(Part::Many(Elem::G1));
        },
        Kind::BbsPublicKey => {
            v.push(Part::One(Elem::G2));
        },
        Kind::AccumulatorParams => {
            v.push(Part::One(Elem::G1));
            v.push(Part::One(Elem::G2));
        },
        Kind::AccumulatorPublicKey => {
            v.push(Part::One(Elem::G2));
        },
        Kind::AccumulatorMemProvingKey => {
            v.push(Part::One(Elem::G1));
            v.push(Part::One(Elem::G1));
            v.push(Part::One(Elem::G1));
        },
        Kind::AccumulatorNonMemProvingKey => {
            v.push(Part::One(Elem::G1));
            v.push(Part::One(Elem::G1));
            v.push(Part::One(Elem::G1));
            v.push(Part::One(Elem::G1));
        },
        Kind::PedersenCommitmentKeyG1 => {
            v.push(Part::Many(Elem::G1));
        },
        Kind::PedersenCommitmentKeyG2 => {
            v.push(Part::Many(Elem::G2));
        },
        Kind::SaverEncryptionGens => {
            v.push(Part::One(Elem::G1));
            v.push(Part::One(Elem::G2));
        },
        Kind::SaverCommitmentGens => {
            v.push(Part::One(Elem::G1));
            v.push(Part::One(Elem::G1));
        },
        Kind::SaverEncryptionKey => {
            v.push(Part::Many(Elem::G1));
            v.push(Part::Many(Elem::G1));
            v.push(Part::Many(Elem::G1));
            v.push(Part::One(Elem::G1));
            v.push(Part::One(Elem::G1));
        },
        Kind::SaverProvingKey => {
            v.push(Part::One(Elem::G1));
            v.push(Part::One(Elem::G2));
            v.push(Part::One(Elem::G2));
            v.push(Part::One(Elem::G2));
            v.push(Part::Many(Elem::G1));
            v.push(Part::One(Elem::G1));
            v.push(Part::One(Elem::G1));
            v.push(Part::Many(Elem::G1));
            v.push(Part::Many(Elem::G1));
            v.push(Part::Many(Elem::G2));
            v.push(Part::Many(Elem::G1));
            v.push(Part::Many(Elem::G1));
            v.push(Part::Many(Elem::G1));
        },
        Kind::SaverVerifyingKey => {
            v.push(Part::One(Elem::G1));
            v.push(Part::One(Elem::G2));
            v.push(Part::One(Elem::G2));
            v.push(Part::One(Elem::G2));
            v.push(Part::Many(Elem::G1));
            v.push(Part::Many(Elem::G1));
        },
        Kind::LegoProvingKey => {
            v.push(Part::One(Elem::G1));
            v.push(Part::One(Elem::G2));
            v.push(Part::One(Elem::G2));
            v.push(Part::One(Elem::G2));
            v.push(Part::Many(Elem::G1));
            v.push(Part::One(Elem::G1));
            v.push(Part::Word);
            v.push(Part::One(Elem::G1));
            v.push(Part::One(Elem::G1));
            v.push(Part::Many(Elem::G1));
            v.push(Part::Many(Elem::G1));
            v.push(Part::Many(Elem::G2));
            v.push(Part::Many(Elem::G1));
            v.push(Part::Many(Elem::G1));
            v.push(Part::One(Elem::G1));
        },
        Kind::LegoVerifyingKey => {
            v.push(Part::One(Elem::G1));
            v.push(Part::One(Elem::G2));
            v.push(Part::One(Elem::G2));
            v.push(Part::One(Elem::G2));
            v.push(Part::Many(Elem::G1));
            v.push(Part::One(Elem::G1));
            v.push(Part::Word);
        },
        Kind::R1cs => {
            v.push(Part::Word);
            v.push(Part::Word);
            v.push(Part::Word);
            v.push(Part::Rows);
        },
        Kind::Bytes => {
            v.push(Part::Run(1));
        },
        Kind::FieldElemVec => {
            v.push(Part::Many(Elem::Fr));
        },
    }
    assert(v@ =~= layout(k));
    v
}

/// Why a setup parameter could not be built or read.
#[derive(Clone, Debug)]
pub enum SetupError {
    /// The payload of the given kind could not be read.
    Decode { kind: Kind, cause: Cause },
    /// An element of a list handed in for the given kind is not one element wide.
    Adapter { kind: Kind, index: u64 },
    /// The encoding is empty.
    Empty,
    /// The first byte names no kind.
    UnknownTag(u8),
    /// The circuit builder does not know the curve.
    UnsupportedCurve(String),
    /// A constraint names a variable past the circuit's inputs.
    VariableOutOfRange { index: u64 },
}

/// One piece of setup material: a kind and its payload in uncompressed canonical
/// form, fixed together when the value is made.
#[derive(Clone, Debug)]
pub struct SetupParam {
    kind: Kind,
    payload: Vec<u8>,
}

impl SetupParam {
    pub closed spec fn kind_spec(&self) -> Kind {
        self.kind
    }

    pub closed spec fn payload_spec(&self) -> Seq<u8> {
        self.payload@
    }

    /// The payload has the uncompressed shape of its kind's layout.
    pub open spec fn wf(&self) -> bool {
        fits(layout(self.kind_spec()), self.payload_spec())
    }

    pub(crate) fn from_parts(kind: Kind, payload: Vec<u8>) -> (r: SetupParam)
        requires
            fits(layout(kind), payload@),
        ensures
            r.kind_spec() == kind,
            r.payload_spec() == payload@,
            r.wf(),
    {
        SetupParam { kind, payload }
    }

    pub fn kind(&self) -> (r: Kind)
        ensures
            r == self.kind_spec(),
    {
        self.kind
    }

    pub fn payload(&self) -> (r: &Vec<u8>)
        ensures
            r@ == self.payload_spec(),
    {
        &self.payload
    }

    /// The canonical encoding: the tag byte, then the uncompressed payload.
    pub fn encode(&self) -> (r: Vec<u8>)
        ensures
            r@ == encoding(self.kind_spec(), self.payload_spec()),
    {
        let mut out: Vec<u8> = Vec::new();
        out.push(tag(self.kind));
        let mut j: usize = 0;
        while j < self.payload.len()
            invariant
                j <= self.payload@.len(),
                out@ == seq![tag_of(self.kind)] + self.payload@.take(j as int),
            decreases self.payload@.len() - j,
        {
            out.push(self.payload[j]);
            assert(self.payload@.take(j + 1) =~= self.payload@.take(j as int).push(self.payload@[j as int]));
            j = j + 1;
        }
        assert(self.payload@.take(j as int) =~= self.payload@);
        out
    }

    /// Reads a canonical encoding back. Fails on an empty input, on a tag outside the
    /// closed set, and on a payload that does not have its kind's shape.
    pub fn decode(b: &[u8]) -> (r: Result<SetupParam, SetupError>)
        ensures
            match r {
                Ok(p) => decoded(b@) == Some((p.kind_spec(), p.payload_spec())) && p.wf(),
                Err(SetupError::Empty) => b@.len() == 0,
                Err(SetupError::UnknownTag(t)) => b@.len() > 0 && t == b@[0] && kind_of_tag(t) is None,
                Err(SetupError::Decode { kind, cause }) => b@.len() > 0 && kind_of_tag(b@[0]) == Some(kind)
                    && !fits(layout(kind), b@.skip(1)) && cause == Cause::Malformed,
                Err(_) => false,
            },
            r is Ok <==> decoded(b@) is Some,
    {
        if b.len() == 0 {
            return Err(SetupError::Empty);
        }
        let kind = match kind_from_tag(b[0]) {
            Some(k) => k,
            None => {
                return Err(SetupError::UnknownTag(b[0]));
            },
        };
        let parts = layout_of(kind);
        let rest = slice_subrange(b, 1, b.len());
        assert(rest@ =~= b@.skip(1));
        if !check_payload(&parts, rest) {
            return Err(SetupError::Decode { kind, cause: Cause::Malformed });
        }
        let mut payload: Vec<u8> = Vec::new();
        append_range(&mut payload, rest, 0, rest.len());
        assert(rest@.subrange(0, rest@.len() as int) =~= rest@);
        Ok(SetupParam::from_parts(kind, payload))
    }
}

/// Every tag names its kind back.
pub proof fn lemma_tag_kind(k: Kind)
    ensures
        kind_of_tag(tag_of(k)) == Some(k),
        tag_of(k) < KIND_COUNT,
{
}

/// Decoding the encoding of a well-formed payload gives back the same kind and payload.
pub proof fn lemma_round_trip(k: Kind, payload: Seq<u8>)
    requires
        fits(layout(k), payload),
    ensures
        decoded(encoding(k, payload)) == Some((k, payload)),
{
    lemma_tag_kind(k);
    assert(encoding(k, payload).skip(1) =~= payload);
}

/// The encoding of one kind never decodes as another kind, whatever the payload.
pub proof fn lemma_tag_integrity(k: Kind, payload: Seq<u8>)
    ensures
        match decoded(encoding(k, payload)) {
            Some((k2, _)) => k2 == k,
            None => true,
        },
{
    lemma_tag_kind(k);
}

/// Two setup parameters with the same kind and payload have the same encoding.
pub proof fn lemma_encoding_deterministic(p: SetupParam, q: SetupParam)
    requires
        p.kind_spec() == q.kind_spec(),
        p.payload_spec() == q.payload_spec(),
    ensures
        encoding(p.kind_spec(), p.payload_spec()) == encoding(q.kind_spec(), q.payload_spec()),
{
}

/// Any proper prefix of the encoding of a well-formed payload fails to decode.
pub proof fn lemma_truncation_rejected(k: Kind, payload: Seq<u8>, s: Seq<u8>)
    requires
        fits(layout(k), payload),
        s.len() < encoding(k, payload).len(),
        s =~= encoding(k, payload).take(s.len() as int),
    ensures
        decoded(s) is None,
{
    lemma_tag_kind(k);
    let e = encoding(k, payload);
    if s.len() > 0 {
        assert(s[0] == e[0]);
        assert(e.skip(1) =~= payload);
        if fits(layout(k), s.skip(1)) {
            assert(s.skip(1) =~= payload.take(s.skip(1).len() as int));
            lemma_fits_prefix_free(layout(k), payload, s.skip(1));
        }
    }
}

/// A first byte outside the closed set of tags never decodes, whatever follows it.
pub proof fn lemma_unknown_tag_rejected(t: u8, rest: Seq<u8>)
    requires
        t >= KIND_COUNT,
    ensures
        decoded(seq![t] + rest) is None,
{
    assert((seq![t] + rest)[0] == t);
}

} // verus!
