//! Entry points that build one setup parameter each and hand back its canonical
//! encoding. Payloads are read in the density the caller states; the output is
//! always uncompressed.
use crate::element::{width, Elem};
use crate::element::elem_width;
use crate::layout::{append_range, lemma_recode_fits, lemma_word_bytes, push_word, recode, recode_payload, word, word_bytes, Cause, Part};
use crate::param::{encoding, layout, layout_of, tag, tag_of, Kind, SetupError};
use vstd::prelude::*;

verus! {

/// The canonical encoding that reading `input` as a payload of kind `k` leads to, or
/// why the payload could not be read.
pub open spec fn setup_output(k: Kind, input: Seq<u8>, compressed: bool) -> Result<Seq<u8>, Cause> {
    match recode(layout(k), input, compressed) {
        Ok(p) => Ok(encoding(k, p)),
        Err(c) => Err(c),
    }
}

/// `r` is the outcome `expected` for kind `k`: the same bytes, or a decode error of
/// that kind with the same cause.
pub open spec fn answers(r: Result<Vec<u8>, SetupError>, k: Kind, expected: Result<Seq<u8>, Cause>) -> bool {
    match expected {
        Ok(e) => r is Ok && r->Ok_0@ == e,
        Err(c) => match r {
            Err(SetupError::Decode { kind, cause }) => kind == k && cause == c,
            _ => false,
        },
    }
}

/// Builds the setup parameter of kind `k` from its payload given in the stated
/// density, and returns its canonical (uncompressed) encoding.
pub fn generate(k: Kind, input: &[u8], compressed: bool) -> (r: Result<Vec<u8>, SetupError>)
    ensures
        answers(r, k, setup_output(k, input@, compressed)),
{
    let parts = layout_of(k);
    match recode_payload(&parts, input, compressed) {
        Ok(p) => {
            let mut out: Vec<u8> = Vec::new();
            out.push(tag(k));
            let mut q = p;
            let ghost pv = q@;
            out.append(&mut q);
            assert(out@ =~= encoding(k, pv));
            Ok(out)
        },
        Err(cause) => Err(SetupError::Decode { kind: k, cause }),
    }
}

/// Whatever the density of the input, the output is the uncompressed encoding: two
/// inputs whose payloads read the same, one compressed and one not, give the same
/// bytes, and those bytes decode to the kind and the uncompressed payload.
pub proof fn lemma_density_invariance(k: Kind, compressed_input: Seq<u8>, uncompressed_input: Seq<u8>)
    requires
        recode(layout(k), compressed_input, true) is Ok,
        recode(layout(k), compressed_input, true) == recode(layout(k), uncompressed_input, false),
    ensures
        setup_output(k, compressed_input, true) == setup_output(k, uncompressed_input, false),
        crate::param::decoded(setup_output(k, compressed_input, true)->Ok_0) == Some(
            (k, recode(layout(k), compressed_input, true)->Ok_0),
        ),
{
    lemma_recode_fits(layout(k), compressed_input, true);
    crate::param::lemma_round_trip(k, recode(layout(k), compressed_input, true)->Ok_0);
}

/// Setup parameter holding a signature parameters (first group), read from its compressed encoding.
pub fn generate_setup_param_for_bbs_sig_params_g1(params: &[u8]) -> (r: Result<Vec<u8>, SetupError>)
    ensures
        answers(r, Kind::BbsSignatureParams, setup_output(Kind::BbsSignatureParams, params@, true)),
{
    generate(Kind::BbsSignatureParams, params, true)
}

/// Setup parameter holding a signer's public key (second group), read from its compressed encoding.
pub fn generate_setup_param_for_bbs_public_key_g2(public_key: &[u8]) -> (r: Result<Vec<u8>, SetupError>)
    ensures
        answers(r, Kind::BbsPublicKey, setup_output(Kind::BbsPublicKey, public_key@, true)),
{
    generate(Kind::BbsPublicKey, public_key, true)
}

/// Setup parameter holding a accumulator parameters, read from its compressed encoding.
pub fn generate_setup_param_for_vb_accumulator_params(params: &[u8]) -> (r: Result<Vec<u8>, SetupError>)
    ensures
        answers(r, Kind::AccumulatorParams, setup_output(Kind::AccumulatorParams, params@, true)),
{
    generate(Kind::AccumulatorParams, params, true)
}

/// Setup parameter holding a accumulator manager's public key, read from its compressed encoding.
pub fn generate_setup_param_for_vb_accumulator_public_key(public_key: &[u8]) -> (r: Result<Vec<u8>, SetupError>)
    ensures
        answers(r, Kind::AccumulatorPublicKey, setup_output(Kind::AccumulatorPublicKey, public_key@, true)),
{
    generate(Kind::AccumulatorPublicKey, public_key, true)
}

/// Setup parameter holding a membership proving key, read from its compressed encoding.
pub fn generate_setup_param_for_vb_accumulator_mem_proving_key(key: &[u8]) -> (r: Result<Vec<u8>, SetupError>)
    ensures
        answers(r, Kind::AccumulatorMemProvingKey, setup_output(Kind::AccumulatorMemProvingKey, key@, true)),
{
    generate(Kind::AccumulatorMemProvingKey, key, true)
}

/// Setup parameter holding a non-membership proving key, read from its compressed encoding.
pub fn generate_setup_param_for_vb_accumulator_non_mem_proving_key(key: &[u8]) -> (r: Result<Vec<u8>, SetupError>)
    ensures
        answers(r, Kind::AccumulatorNonMemProvingKey, setup_output(Kind::AccumulatorNonMemProvingKey, key@, true)),
{
    generate(Kind::AccumulatorNonMemProvingKey, key, true)
}

/// Setup parameter holding a verifiable-encryption generators, read from its uncompressed encoding when
/// `uncompressed` is set and from its compressed one otherwise.
pub fn generate_setup_param_for_saver_encryption_gens(enc_gens: &[u8], uncompressed: bool) -> (r: Result<Vec<u8>, SetupError>)
    ensures
        answers(r, Kind::SaverEncryptionGens, setup_output(Kind::SaverEncryptionGens, enc_gens@, !uncompressed)),
{
    generate(Kind::SaverEncryptionGens, enc_gens, !uncompressed)
}

/// Setup parameter holding a chunked-commitment generators, read from its uncompressed encoding when
/// `uncompressed` is set and from its compressed one otherwise.
pub fn generate_setup_param_for_saver_commitment_gens(comm_gens: &[u8], uncompressed: bool) -> (r: Result<Vec<u8>, SetupError>)
    ensures
        answers(r, Kind::SaverCommitmentGens, setup_output(Kind::SaverCommitmentGens, comm_gens@, !uncompressed)),
{
    generate(Kind::SaverCommitmentGens, comm_gens, !uncompressed)
}

/// Setup parameter holding a verifiable-encryption key, read from its uncompressed encoding when
/// `uncompressed` is set and from its compressed one otherwise.
pub fn generate_setup_param_for_saver_encryption_key(key: &[u8], uncompressed: bool) -> (r: Result<Vec<u8>, SetupError>)
    ensures
        answers(r, Kind::SaverEncryptionKey, setup_output(Kind::SaverEncryptionKey, key@, !uncompressed)),
{
    generate(Kind::SaverEncryptionKey, key, !uncompressed)
}

/// Setup parameter holding a verifiable-encryption SNARK proving key, read from its uncompressed encoding when
/// `uncompressed` is set and from its compressed one otherwise.
pub fn generate_setup_param_for_saver_proving_key(key: &[u8], uncompressed: bool) -> (r: Result<Vec<u8>, SetupError>)
    ensures
        answers(r, Kind::SaverProvingKey, setup_output(Kind::SaverProvingKey, key@, !uncompressed)),
{
    generate(Kind::SaverProvingKey, key, !uncompressed)
}

/// Setup parameter holding a verifiable-encryption SNARK verifying key, read from its uncompressed encoding when
/// `uncompressed` is set and from its compressed one otherwise.
pub fn generate_setup_param_for_saver_verifying_key(key: &[u8], uncompressed: bool) -> (r: Result<Vec<u8>, SetupError>)
    ensures
        answers(r, Kind::SaverVerifyingKey, setup_output(Kind::SaverVerifyingKey, key@, !uncompressed)),
{
    generate(Kind::SaverVerifyingKey, key, !uncompressed)
}

/// Setup parameter holding a LegoGroth16 proving key, read from its uncompressed encoding when
/// `uncompressed` is set and from its compressed one otherwise.
pub fn generate_setup_param_for_lego_proving_key(key: &[u8], uncompressed: bool) -> (r: Result<Vec<u8>, SetupError>)
    ensures
        answers(r, Kind::LegoProvingKey, setup_output(Kind::LegoProvingKey, key@, !uncompressed)),
{
    generate(Kind::LegoProvingKey, key, !uncompressed)
}

/// Setup parameter holding a LegoGroth16 verifying key, read from its uncompressed encoding when
/// `uncompressed` is set and from its compressed one otherwise.
pub fn generate_setup_param_for_lego_verifying_key(key: &[u8], uncompressed: bool) -> (r: Result<Vec<u8>, SetupError>)
    ensures
        answers(r, Kind::LegoVerifyingKey, setup_output(Kind::LegoVerifyingKey, key@, !uncompressed)),
{
    generate(Kind::LegoVerifyingKey, key, !uncompressed)
}

/// The byte views of a list of buffers.
pub open spec fn views(items: Seq<Vec<u8>>) -> Seq<Seq<u8>> {
    items.map_values(|v: Vec<u8>| v@)
}

/// The buffers of a list, one after the other.
pub open spec fn joined(items: Seq<Seq<u8>>) -> Seq<u8>
    decreases items.len(),
{
    if items.len() == 0 {
        seq![]
    } else {
        joined(items.drop_last()) + items.last()
    }
}

/// Every buffer in the list is exactly `w` bytes long.
pub open spec fn all_wide(items: Seq<Seq<u8>>, w: nat) -> bool {
    forall|i: int| 0 <= i < items.len() ==> #[trigger] items[i].len() == w
}

/// The outcome of building a parameter of kind `k`, whose layout is one list of
/// elements `e`, from a list of compressed elements: an adapter error at the first
/// element of the wrong width, else what reading the count and the elements gives.
pub open spec fn list_answers(r: Result<Vec<u8>, SetupError>, k: Kind, e: Elem, items: Seq<Seq<u8>>) -> bool {
    if all_wide(items, width(e, true)) {
        answers(r, k, setup_output(k, word_bytes(items.len() as u64) + joined(items), true))
    } else {
        match r {
            Err(SetupError::Adapter { kind, index }) => kind == k && index < items.len()
                && items[index as int].len() != width(e, true)
                && all_wide(items.take(index as int), width(e, true)),
            _ => false,
        }
    }
}

fn generate_from_list(k: Kind, e: Elem, items: &Vec<Vec<u8>>) -> (r: Result<Vec<u8>, SetupError>)
    ensures
        list_answers(r, k, e, views(items@)),
{
    let w = elem_width(e, true);
    let ghost vs = views(items@);
    let mut buf: Vec<u8> = Vec::new();
    push_word(&mut buf, items.len() as u64);
    let mut j: usize = 0;
    while j < items.len()
        invariant
            j <= items@.len(),
            vs == views(items@),
            w == width(e, true),
            all_wide(vs.take(j as int), w as nat),
            buf@ == word_bytes(items@.len() as u64) + joined(vs.take(j as int)),
        decreases items@.len() - j,
    {
        let item = &items[j];
        assert(vs[j as int] == item@);
        if item.len() != w {
            assert(!all_wide(vs, w as nat));
            return Err(SetupError::Adapter { kind: k, index: j as u64 });
        }
        let ghost before = buf@;
        let s = item.as_slice();
        append_range(&mut buf, s, 0, s.len());
        assert(s@.subrange(0, s@.len() as int) =~= item@);
        assert(vs.take(j + 1).drop_last() =~= vs.take(j as int));
        assert(vs.take(j + 1).last() == item@);
        assert(buf@ =~= word_bytes(items@.len() as u64) + joined(vs.take(j + 1)));
        assert(all_wide(vs.take(j + 1), w as nat)) by {
            assert forall|i: int| 0 <= i < j + 1 implies #[trigger] vs.take(j + 1)[i].len() == w by {
                if i < j {
                    assert(vs.take(j + 1)[i] == vs.take(j as int)[i]);
                }
            }
        }
        j = j + 1;
    }
    assert(vs.take(j as int) =~= vs);
    assert(vs.len() == items@.len());
    generate(k, buf.as_slice(), true)
}

/// Setup parameter holding a Pedersen commitment key in the first group, from its
/// generators, each in compressed form.
pub fn generate_setup_param_for_pedersen_commitment_key_g1(commitment_key: &Vec<Vec<u8>>) -> (r: Result<Vec<u8>, SetupError>)
    ensures
        list_answers(r, Kind::PedersenCommitmentKeyG1, Elem::G1, views(commitment_key@)),
{
    generate_from_list(Kind::PedersenCommitmentKeyG1, Elem::G1, commitment_key)
}

/// Setup parameter holding a Pedersen commitment key in the second group, from its
/// generators, each in compressed form.
pub fn generate_setup_param_for_pedersen_commitment_key_g2(commitment_key: &Vec<Vec<u8>>) -> (r: Result<Vec<u8>, SetupError>)
    ensures
        list_answers(r, Kind::PedersenCommitmentKeyG2, Elem::G2, views(commitment_key@)),
{
    generate_from_list(Kind::PedersenCommitmentKeyG2, Elem::G2, commitment_key)
}

/// Setup parameter holding a list of field scalars, each given as its 32 canonical bytes.
pub fn generate_setup_param_for_field_elem_vec(arr: &Vec<Vec<u8>>) -> (r: Result<Vec<u8>, SetupError>)
    ensures
        list_answers(r, Kind::FieldElemVec, Elem::Fr, views(arr@)),
{
    generate_from_list(Kind::FieldElemVec, Elem::Fr, arr)
}

/// Setup parameter holding raw bytes, kept as they are behind their count.
pub fn generate_setup_param_for_bytes(bytes: &[u8]) -> (r: Result<Vec<u8>, SetupError>)
    ensures
        r is Ok,
        r->Ok_0@ == encoding(Kind::Bytes, word_bytes(bytes@.len() as u64) + bytes@),
{
    let mut buf: Vec<u8> = Vec::new();
    push_word(&mut buf, bytes.len() as u64);
    append_range(&mut buf, bytes, 0, bytes.len());
    assert(bytes@.subrange(0, bytes@.len() as int) =~= bytes@);
    proof {
        let b = buf@;
        lemma_word_bytes(bytes@.len() as u64, bytes@);
        assert(b.take(b.len() as int) =~= b);
        assert(b.skip(b.len() as int) =~= Seq::<u8>::empty());
        assert(layout(Kind::Bytes).drop_first() =~= Seq::<Part>::empty());
        assert(recode(layout(Kind::Bytes).drop_first(), b.skip(b.len() as int), false) == Ok::<Seq<u8>, Cause>(seq![]));
        assert(b + Seq::<u8>::empty() =~= b);
        assert(layout(Kind::Bytes)[0] == Part::Run(1));
        assert(word(b) == bytes@.len());
        assert(8 + word(b) * (1u8 as nat) == b.len());
        assert(recode(layout(Kind::Bytes), b, false) == Ok::<Seq<u8>, Cause>(b));
    }
    generate(Kind::Bytes, buf.as_slice(), false)
}

} // verus!
