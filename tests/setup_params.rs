use setup_params::api::{
    generate, generate_setup_param_for_bbs_public_key_g2, generate_setup_param_for_bytes,
    generate_setup_param_for_field_elem_vec, generate_setup_param_for_pedersen_commitment_key_g1,
    generate_setup_param_for_pedersen_commitment_key_g2, generate_setup_param_for_saver_encryption_gens,
    generate_setup_param_for_vb_accumulator_mem_proving_key, generate_setup_param_for_vb_accumulator_params,
};
use setup_params::circuit::{generate_setup_param_for_r1cs, Constraint, Term};
use setup_params::layout::Cause;
use setup_params::param::{kind_from_tag, tag, Kind, SetupError, SetupParam};

fn g1_inf_compressed() -> Vec<u8> {
    let mut v = vec![0u8; 48];
    v[0] = 0xc0;
    v
}

fn g1_inf_uncompressed() -> Vec<u8> {
    let mut v = vec![0u8; 96];
    v[0] = 0x40;
    v
}

fn g2_inf_compressed() -> Vec<u8> {
    let mut v = vec![0u8; 96];
    v[0] = 0xc0;
    v
}

fn g2_inf_uncompressed() -> Vec<u8> {
    let mut v = vec![0u8; 192];
    v[0] = 0x40;
    v
}

fn hex(s: &str) -> Vec<u8> {
    (0..s.len() / 2).map(|i| u8::from_str_radix(&s[2 * i..2 * i + 2], 16).unwrap()).collect()
}

fn g1_generator_compressed() -> Vec<u8> {
    hex("97f1d3a73197d7942695638c4fa9ac0fc3688c4f9774b905a14e3a3f171bac586c55e83ff97a1aeffb3af00adb22c6bb")
}

fn word(n: u64) -> Vec<u8> {
    n.to_le_bytes().to_vec()
}

#[test]
fn raw_bytes_wrap_and_decode() {
    let out = generate_setup_param_for_bytes(&[0x01, 0x02, 0x03]).unwrap();
    let p = SetupParam::decode(&out).unwrap();
    assert_eq!(p.kind(), Kind::Bytes);
    let payload = p.payload();
    assert_eq!(&payload[..8], &word(3)[..]);
    assert_eq!(&payload[8..], &[0x01, 0x02, 0x03]);
    assert_eq!(out[0], tag(Kind::Bytes));
}

#[test]
fn raw_bytes_empty() {
    let out = generate_setup_param_for_bytes(&[]).unwrap();
    let p = SetupParam::decode(&out).unwrap();
    assert_eq!(p.kind(), Kind::Bytes);
    assert_eq!(p.payload(), &word(0));
}

#[test]
fn r1cs_empty_constraints() {
    let out = generate_setup_param_for_r1cs("bls12381", 2, 3, &vec![]).unwrap();
    let p = SetupParam::decode(&out).unwrap();
    assert_eq!(p.kind(), Kind::R1cs);
    let mut expected = word(0);
    expected.extend(word(2));
    expected.extend(word(3));
    expected.extend(word(0));
    assert_eq!(p.payload(), &expected);
}

#[test]
fn r1cs_with_constraint_round_trip() {
    let t = |var: u64| Term { var, coeff: vec![1u8; 32].iter().enumerate().map(|(i, _)| if i == 0 { 1 } else { 0 }).collect() };
    let c = Constraint { a: vec![t(1)], b: vec![t(2)], c: vec![t(5), t(0)] };
    let out = generate_setup_param_for_r1cs("bn128", 2, 3, &vec![c]).unwrap();
    let p = SetupParam::decode(&out).unwrap();
    assert_eq!(p.kind(), Kind::R1cs);
    assert_eq!(&p.payload()[..8], &word(1)[..]);
    assert_eq!(p.encode(), out);
    // 1 tag + 4 words + 3 term counts + 4 terms of 40 bytes
    assert_eq!(out.len(), 1 + 32 + 24 + 160);
}

#[test]
fn r1cs_unknown_curve() {
    let r = generate_setup_param_for_r1cs("bls12377", 2, 3, &vec![]);
    match r {
        Err(SetupError::UnsupportedCurve(name)) => assert_eq!(name, "bls12377"),
        other => panic!("unexpected {:?}", other),
    }
}

#[test]
fn r1cs_variable_out_of_range() {
    let term = Term { var: 6, coeff: vec![0u8; 32] };
    let c = Constraint { a: vec![term], b: vec![], c: vec![] };
    let r = generate_setup_param_for_r1cs("bls12381", 2, 3, &vec![c]);
    assert!(matches!(r, Err(SetupError::VariableOutOfRange { index: 6 })));
}

#[test]
fn r1cs_short_coefficient() {
    let term = Term { var: 1, coeff: vec![0u8; 31] };
    let c = Constraint { a: vec![], b: vec![term], c: vec![] };
    let r = generate_setup_param_for_r1cs("bn128", 2, 3, &vec![c.clone(), c]);
    assert!(matches!(r, Err(SetupError::Adapter { kind: Kind::R1cs, index: 0 })));
}

#[test]
fn short_public_key_rejected() {
    let r = generate_setup_param_for_bbs_public_key_g2(&[0u8; 10]);
    assert!(matches!(r, Err(SetupError::Decode { kind: Kind::BbsPublicKey, cause: Cause::Truncated })));
}

#[test]
fn public_key_with_trailing_bytes_rejected() {
    let mut pk = g2_inf_compressed();
    pk.push(0);
    let r = generate_setup_param_for_bbs_public_key_g2(&pk);
    assert!(matches!(r, Err(SetupError::Decode { kind: Kind::BbsPublicKey, cause: Cause::TrailingBytes })));
}

#[test]
fn public_key_is_stored_uncompressed() {
    let out = generate_setup_param_for_bbs_public_key_g2(&g2_inf_compressed()).unwrap();
    assert_eq!(out.len(), 1 + 192);
    assert_eq!(&out[1..], &g2_inf_uncompressed()[..]);
}

#[test]
fn invalid_point_rejected() {
    let mut bad = vec![0u8; 48];
    bad[0] = 0x80;
    bad[47] = 0x05;
    let r = generate(Kind::AccumulatorParams, &[bad, g2_inf_compressed()].concat(), true);
    assert!(matches!(r, Err(SetupError::Decode { kind: Kind::AccumulatorParams, cause: Cause::InvalidElement })));
}

#[test]
fn generator_point_recoded() {
    let g = g1_generator_compressed();
    let out = generate_setup_param_for_vb_accumulator_params(&[g.clone(), g2_inf_compressed()].concat()).unwrap();
    assert_eq!(out.len(), 1 + 96 + 192);
    // the x coordinate keeps its bytes, without the compression flags
    let mut x = g.clone();
    x[0] &= 0x1f;
    assert_eq!(&out[1..49], &x[..]);
    assert_ne!(&out[49..97], &[0u8; 48][..]);
    let back = generate(Kind::AccumulatorParams, &out[1..], false).unwrap();
    assert_eq!(back, out);
}

#[test]
fn density_invariance_of_output() {
    let compressed = [g1_inf_compressed(), g2_inf_compressed()].concat();
    let uncompressed = [g1_inf_uncompressed(), g2_inf_uncompressed()].concat();
    let a = generate_setup_param_for_saver_encryption_gens(&compressed, false).unwrap();
    let b = generate_setup_param_for_saver_encryption_gens(&uncompressed, true).unwrap();
    assert_eq!(a, b);
    assert_eq!(a.len(), 1 + 96 + 192);
}

#[test]
fn density_flag_must_match_input() {
    let compressed = [g1_inf_compressed(), g2_inf_compressed()].concat();
    let r = generate_setup_param_for_saver_encryption_gens(&compressed, true);
    assert!(r.is_err());
}

#[test]
fn encoding_is_deterministic() {
    let input = [g1_inf_compressed(), g1_inf_compressed(), g1_inf_compressed()].concat();
    let a = generate_setup_param_for_vb_accumulator_mem_proving_key(&input).unwrap();
    let b = generate_setup_param_for_vb_accumulator_mem_proving_key(&input).unwrap();
    assert_eq!(a, b);
    let p = SetupParam::decode(&a).unwrap();
    assert_eq!(p.encode(), p.encode());
    assert_eq!(p.encode(), a);
}

#[test]
fn round_trip_and_tag_integrity() {
    let outputs = vec![
        (Kind::Bytes, generate_setup_param_for_bytes(&[9, 8, 7, 6]).unwrap()),
        (Kind::PedersenCommitmentKeyG1, generate_setup_param_for_pedersen_commitment_key_g1(&vec![g1_inf_compressed(), g1_generator_compressed()]).unwrap()),
        (Kind::PedersenCommitmentKeyG2, generate_setup_param_for_pedersen_commitment_key_g2(&vec![g2_inf_compressed()]).unwrap()),
        (Kind::FieldElemVec, generate_setup_param_for_field_elem_vec(&vec![vec![0u8; 32], vec![7u8; 32]]).unwrap()),
        (Kind::BbsPublicKey, generate_setup_param_for_bbs_public_key_g2(&g2_inf_compressed()).unwrap()),
        (Kind::R1cs, generate_setup_param_for_r1cs("bn128", 1, 1, &vec![]).unwrap()),
    ];
    for (kind, out) in outputs {
        let p = SetupParam::decode(&out).unwrap();
        assert_eq!(p.kind(), kind);
        assert_eq!(p.encode(), out);
    }
}

#[test]
fn truncation_rejected() {
    let out = generate_setup_param_for_pedersen_commitment_key_g1(&vec![g1_inf_compressed(), g1_inf_compressed()]).unwrap();
    for n in 0..out.len() {
        assert!(SetupParam::decode(&out[..n]).is_err(), "prefix of length {}", n);
    }
    let bytes = generate_setup_param_for_bytes(&[1, 2, 3]).unwrap();
    for n in 0..bytes.len() {
        assert!(SetupParam::decode(&bytes[..n]).is_err());
    }
}

#[test]
fn unknown_tag_rejected() {
    assert!(matches!(SetupParam::decode(&[18]), Err(SetupError::UnknownTag(18))));
    assert!(matches!(SetupParam::decode(&[255, 0, 0]), Err(SetupError::UnknownTag(255))));
    assert_eq!(kind_from_tag(18), None);
    assert_eq!(kind_from_tag(17), Some(Kind::FieldElemVec));
    assert!(matches!(SetupParam::decode(&[]), Err(SetupError::Empty)));
}

#[test]
fn decode_rejects_malformed_payload() {
    let r = SetupParam::decode(&[tag(Kind::BbsPublicKey), 1, 2, 3]);
    assert!(matches!(r, Err(SetupError::Decode { kind: Kind::BbsPublicKey, cause: Cause::Malformed })));
}

#[test]
fn pedersen_key_wrong_width_element() {
    let r = generate_setup_param_for_pedersen_commitment_key_g1(&vec![g1_inf_compressed(), vec![0u8; 47]]);
    assert!(matches!(r, Err(SetupError::Adapter { kind: Kind::PedersenCommitmentKeyG1, index: 1 })));
}

#[test]
fn field_element_out_of_range() {
    let r = generate_setup_param_for_field_elem_vec(&vec![vec![0xffu8; 32]]);
    assert!(matches!(r, Err(SetupError::Decode { kind: Kind::FieldElemVec, cause: Cause::InvalidElement })));
}

#[test]
fn field_elements_kept_canonical() {
    let mut one = vec![0u8; 32];
    one[0] = 1;
    let out = generate_setup_param_for_field_elem_vec(&vec![one.clone()]).unwrap();
    assert_eq!(out[0], tag(Kind::FieldElemVec));
    assert_eq!(&out[1..9], &word(1)[..]);
    assert_eq!(&out[9..], &one[..]);
}
