//! Arithmetic-circuit (R1CS) setup parameters: a curve, the input counts and the
//! ordered constraints.
use crate::layout::{append_range, copies, fits, lemma_word_bytes, push_word, word, word_bytes, Part};
use crate::param::{encoding, layout, tag, Kind, SetupError};
use vstd::prelude::*;
use vstd::string::StringSliceAdditionalSpecFns;

verus! {

/// One term of a linear combination: a variable index and its coefficient, given as
/// the 32 canonical bytes of a field scalar. Variable zero is the constant one, then
/// come the public inputs, then the private ones.
#[derive(Clone, Debug)]
pub struct Term {
    pub var: u64,
    pub coeff: Vec<u8>,
}

/// A rank-one constraint `a * b = c` over linear combinations of variables.
#[derive(Clone, Debug)]
pub struct Constraint {
    pub a: Vec<Term>,
    pub b: Vec<Term>,
    pub c: Vec<Term>,
}

/// The code of each curve the circuit builder knows by name: `bls12381` and `bn128`.
pub open spec fn curve_code(name: Seq<u8>) -> Option<u64> {
    if name == seq![98u8, 108u8, 115u8, 49u8, 50u8, 51u8, 56u8, 49u8] {
        Some(0)
    } else if name == seq![98u8, 110u8, 49u8, 50u8, 56u8] {
        Some(1)
    } else {
        None
    }
}

/// A term: its variable as a word, then its coefficient.
pub open spec fn term_bytes(t: Term) -> Seq<u8> {
    word_bytes(t.var) + t.coeff@
}

/// The terms of a linear combination, one after the other.
pub open spec fn terms_body(ts: Seq<Term>) -> Seq<u8>
    decreases ts.len(),
{
    if ts.len() == 0 {
        seq![]
    } else {
        terms_body(ts.drop_last()) + term_bytes(ts.last())
    }
}

/// A linear combination: its count of terms, then each term's variable and coefficient.
pub open spec fn terms_bytes(ts: Seq<Term>) -> Seq<u8> {
    word_bytes(ts.len() as u64) + terms_body(ts)
}

/// A constraint: its three linear combinations in order.
pub open spec fn constraint_bytes(c: Constraint) -> Seq<u8> {
    terms_bytes(c.a@) + terms_bytes(c.b@) + terms_bytes(c.c@)
}

/// The constraints, one after the other.
pub open spec fn rows_body(cs: Seq<Constraint>) -> Seq<u8>
    decreases cs.len(),
{
    if cs.len() == 0 {
        seq![]
    } else {
        rows_body(cs.drop_last()) + constraint_bytes(cs.last())
    }
}

/// The payload of a circuit: curve code, public and private input counts, the count
/// of constraints, then each constraint's three linear combinations.
pub open spec fn circuit_bytes(code: u64, num_public: u64, num_private: u64, cs: Seq<Constraint>) -> Seq<u8> {
    word_bytes(code) + word_bytes(num_public) + word_bytes(num_private) + word_bytes(cs.len() as u64)
        + rows_body(cs)
}

/// A term names a variable of the circuit and carries a 32-byte coefficient.
pub open spec fn term_ok(t: Term, last_var: nat) -> bool {
    t.var <= last_var && t.coeff@.len() == 32
}

pub open spec fn terms_ok(ts: Seq<Term>, last_var: nat) -> bool {
    ts.len() <= u64::MAX && forall|i: int| 0 <= i < ts.len() ==> #[trigger] term_ok(ts[i], last_var)
}

pub open spec fn constraint_ok(c: Constraint, last_var: nat) -> bool {
    terms_ok(c.a@, last_var) && terms_ok(c.b@, last_var) && terms_ok(c.c@, last_var)
}

pub open spec fn constraints_ok(cs: Seq<Constraint>, last_var: nat) -> bool {
    cs.len() <= u64::MAX && forall|i: int| 0 <= i < cs.len() ==> #[trigger] constraint_ok(cs[i], last_var)
}

/// A term that breaks `term_ok` gives this error: the variable when it is out of
/// range, else an adapter error at the constraint's position.
pub open spec fn term_error(t: Term, last_var: nat, row: u64, e: SetupError) -> bool {
    if t.var > last_var {
        e == SetupError::VariableOutOfRange { index: t.var }
    } else {
        t.coeff@.len() != 32 && e == SetupError::Adapter { kind: Kind::R1cs, index: row }
    }
}

fn curve_code_of(name: &[u8]) -> (r: Option<u64>)
    ensures
        r == curve_code(name@),
{
    if name.len() == 8 && name[0] == 98 && name[1] == 108 && name[2] == 115 && name[3] == 49
        && name[4] == 50 && name[5] == 51 && name[6] == 56 && name[7] == 49 {
        assert(name@ =~= seq![98u8, 108u8, 115u8, 49u8, 50u8, 51u8, 56u8, 49u8]);
        Some(0)
    } else if name.len() == 5 && name[0] == 98 && name[1] == 110 && name[2] == 49 && name[3] == 50
        && name[4] == 56 {
        assert(name@ =~= seq![98u8, 110u8, 49u8, 50u8, 56u8]);
        Some(1)
    } else {
        proof {
            let s1 = seq![98u8, 108u8, 115u8, 49u8, 50u8, 51u8, 56u8, 49u8];
            let s2 = seq![98u8, 110u8, 49u8, 50u8, 56u8];
            assert(s1.len() == 8 && s1[0] == 98 && s1[1] == 108 && s1[2] == 115 && s1[3] == 49 && s1[4] == 50
                && s1[5] == 51 && s1[6] == 56 && s1[7] == 49);
            assert(s2.len() == 5 && s2[0] == 98 && s2[1] == 110 && s2[2] == 49 && s2[3] == 50 && s2[4] == 56);
        }
        None
    }
}

fn append_terms(out: &mut Vec<u8>, ts: &Vec<Term>, last_var: u128, row: u64) -> (r: Result<(), SetupError>)
    ensures
        match r {
            Ok(()) => terms_ok(ts@, last_var as nat) && final(out)@ == old(out)@ + terms_bytes(ts@),
            Err(e) => !terms_ok(ts@, last_var as nat) && exists|i: int|
                0 <= i < ts@.len() && #[trigger] term_error(ts@[i], last_var as nat, row, e),
        },
{
    push_word(out, ts.len() as u64);
    let mut j: usize = 0;
    while j < ts.len()
        invariant
            j <= ts@.len(),
            terms_ok(ts@.take(j as int), last_var as nat),
            out@ == old(out)@ + word_bytes(ts@.len() as u64) + terms_body(ts@.take(j as int)),
        decreases ts@.len() - j,
    {
        let t = &ts[j];
        if t.var as u128 > last_var {
            let e = SetupError::VariableOutOfRange { index: t.var };
            assert(term_error(ts@[j as int], last_var as nat, row, e));
            assert(!term_ok(ts@[j as int], last_var as nat));
            return Err(e);
        }
        if t.coeff.len() != 32 {
            let e = SetupError::Adapter { kind: Kind::R1cs, index: row };
            assert(term_error(ts@[j as int], last_var as nat, row, e));
            assert(!term_ok(ts@[j as int], last_var as nat));
            return Err(e);
        }
        let ghost before = out@;
        push_word(out, t.var);
        let s = t.coeff.as_slice();
        append_range(out, s, 0, s.len());
        assert(s@.subrange(0, s@.len() as int) =~= t.coeff@);
        assert(ts@.take(j + 1).drop_last() =~= ts@.take(j as int));
        assert(ts@.take(j + 1).last() == *t);
        assert(out@ =~= old(out)@ + word_bytes(ts@.len() as u64) + terms_body(ts@.take(j + 1)));
        assert(terms_ok(ts@.take(j + 1), last_var as nat)) by {
            assert forall|i: int| 0 <= i < j + 1 implies #[trigger] term_ok(ts@.take(j + 1)[i], last_var as nat) by {
                if i < j {
                    assert(ts@.take(j + 1)[i] == ts@.take(j as int)[i]);
                }
            }
        }
        j = j + 1;
    }
    assert(ts@.take(j as int) =~= ts@);
    assert(out@ =~= old(out)@ + terms_bytes(ts@));
    Ok(())
}

/// The error `e` comes from a term of the constraint `c` at position `row`.
pub open spec fn row_error(c: Constraint, last_var: nat, row: u64, e: SetupError) -> bool {
    (exists|j: int| 0 <= j < c.a@.len() && #[trigger] term_error(c.a@[j], last_var, row, e))
        || (exists|j: int| 0 <= j < c.b@.len() && #[trigger] term_error(c.b@[j], last_var, row, e))
        || (exists|j: int| 0 <= j < c.c@.len() && #[trigger] term_error(c.c@[j], last_var, row, e))
}

/// Setup parameter holding an arithmetic circuit for the named curve, with the given
/// input counts and ordered constraints. Fails on a curve the builder does not know,
/// and on a term that names a variable past `num_public + num_private` or whose
/// coefficient is not 32 bytes long.
pub fn generate_setup_param_for_r1cs(
    curve_name: &str,
    num_public: usize,
    num_private: usize,
    constraints: &Vec<Constraint>,
) -> (r: Result<Vec<u8>, SetupError>)
    ensures
        curve_code(curve_name.spec_bytes()) is None ==> (r matches Err(SetupError::UnsupportedCurve(n))
            && n@ == curve_name@),
        curve_code(curve_name.spec_bytes()) is Some && constraints_ok(constraints@, (num_public + num_private) as nat)
            ==> r is Ok && r->Ok_0@ == encoding(
            Kind::R1cs,
            circuit_bytes(
                curve_code(curve_name.spec_bytes())->0,
                num_public as u64,
                num_private as u64,
                constraints@,
            ),
        ),
        curve_code(curve_name.spec_bytes()) is Some && !constraints_ok(constraints@, (num_public + num_private) as nat)
            ==> (r matches Err(e) && exists|i: int|
            0 <= i < constraints@.len() && #[trigger] row_error(
                constraints@[i],
                (num_public + num_private) as nat,
                i as u64,
                e,
            )),
{
    let code = match curve_code_of(curve_name.as_bytes()) {
        Some(c) => c,
        None => {
            return Err(SetupError::UnsupportedCurve(curve_name.to_owned()));
        },
    };
    let last_var: u128 = num_public as u128 + num_private as u128;
    let mut out: Vec<u8> = Vec::new();
    out.push(tag(Kind::R1cs));
    push_word(&mut out, code);
    push_word(&mut out, num_public as u64);
    push_word(&mut out, num_private as u64);
    push_word(&mut out, constraints.len() as u64);
    let ghost head = seq![15u8] + word_bytes(code) + word_bytes(num_public as u64) + word_bytes(num_private as u64)
        + word_bytes(constraints@.len() as u64);
    assert(out@ =~= head);
    let mut i: usize = 0;
    while i < constraints.len()
        invariant
            i <= constraints@.len(),
            last_var == num_public + num_private,
            curve_code(curve_name.spec_bytes()) == Some(code),
            constraints_ok(constraints@.take(i as int), last_var as nat),
            out@ == head + rows_body(constraints@.take(i as int)),
        decreases constraints@.len() - i,
    {
        let c = &constraints[i];
        let ghost before = out@;
        let ra = append_terms(&mut out, &c.a, last_var, i as u64);
        if let Err(e) = ra {
            assert(row_error(constraints@[i as int], last_var as nat, i as u64, e));
            assert(!constraint_ok(constraints@[i as int], last_var as nat));
            return Err(e);
        }
        let rb = append_terms(&mut out, &c.b, last_var, i as u64);
        if let Err(e) = rb {
            assert(row_error(constraints@[i as int], last_var as nat, i as u64, e));
            assert(!constraint_ok(constraints@[i as int], last_var as nat));
            return Err(e);
        }
        let rc = append_terms(&mut out, &c.c, last_var, i as u64);
        if let Err(e) = rc {
            assert(row_error(constraints@[i as int], last_var as nat, i as u64, e));
            assert(!constraint_ok(constraints@[i as int], last_var as nat));
            return Err(e);
        }
        assert(constraints@.take(i + 1).drop_last() =~= constraints@.take(i as int));
        assert(constraints@.take(i + 1).last() == *c);
        assert(out@ =~= head + rows_body(constraints@.take(i + 1)));
        assert(constraints_ok(constraints@.take(i + 1), last_var as nat)) by {
            assert forall|k: int| 0 <= k < i + 1 implies #[trigger] constraint_ok(constraints@.take(i + 1)[k], last_var as nat) by {
                if k < i {
                    assert(constraints@.take(i + 1)[k] == constraints@.take(i as int)[k]);
                }
            }
        }
        i = i + 1;
    }
    assert(constraints@.take(i as int) =~= constraints@);
    assert(out@ =~= encoding(Kind::R1cs, circuit_bytes(code, num_public as u64, num_private as u64, constraints@)));
    Ok(out)
}

proof fn lemma_terms_body_len(ts: Seq<Term>, last_var: nat)
    requires
        terms_ok(ts, last_var),
    ensures
        terms_body(ts).len() == 40 * ts.len(),
    decreases ts.len(),
{
    if ts.len() > 0 {
        assert(terms_ok(ts.drop_last(), last_var)) by {
            assert forall|i: int| 0 <= i < ts.drop_last().len() implies #[trigger] term_ok(ts.drop_last()[i], last_var) by {
                assert(ts.drop_last()[i] == ts[i]);
                assert(term_ok(ts[i], last_var));
            }
        }
        lemma_terms_body_len(ts.drop_last(), last_var);
        assert(term_ok(ts[ts.len() - 1], last_var));
        assert(word_bytes(ts.last().var).len() == 8);
    }
}

proof fn lemma_fits_terms(ts: Seq<Term>, last_var: nat, parts: Seq<Part>, tail: Seq<u8>)
    requires
        terms_ok(ts, last_var),
        fits(parts, tail),
    ensures
        fits(seq![Part::Run(40)] + parts, terms_bytes(ts) + tail),
{
    let b = terms_bytes(ts) + tail;
    let ps = seq![Part::Run(40)] + parts;
    lemma_terms_body_len(ts, last_var);
    lemma_word_bytes(ts.len() as u64, terms_body(ts) + tail);
    assert(b =~= word_bytes(ts.len() as u64) + (terms_body(ts) + tail));
    assert(ps[0] == Part::Run(40));
    assert(ps.drop_first() =~= parts);
    let len = 8 + word(b) * (40u8 as nat);
    assert(len == 8 + 40 * ts.len());
    assert(b.skip(len as int) =~= tail);
}

proof fn lemma_fits_constraint(c: Constraint, last_var: nat, parts: Seq<Part>, tail: Seq<u8>)
    requires
        constraint_ok(c, last_var),
        fits(parts, tail),
    ensures
        fits(copies(3, Part::Run(40)) + parts, constraint_bytes(c) + tail),
{
    lemma_fits_terms(c.c@, last_var, parts, tail);
    let parts_c = seq![Part::Run(40)] + parts;
    lemma_fits_terms(c.b@, last_var, parts_c, terms_bytes(c.c@) + tail);
    let parts_b = seq![Part::Run(40)] + parts_c;
    lemma_fits_terms(c.a@, last_var, parts_b, terms_bytes(c.b@) + (terms_bytes(c.c@) + tail));
    assert(seq![Part::Run(40)] + parts_b =~= copies(3, Part::Run(40)) + parts);
    assert(terms_bytes(c.a@) + (terms_bytes(c.b@) + (terms_bytes(c.c@) + tail)) =~= constraint_bytes(c) + tail);
}

proof fn lemma_fits_rows(cs: Seq<Constraint>, last_var: nat, parts: Seq<Part>, tail: Seq<u8>)
    requires
        constraints_ok(cs, last_var),
        fits(parts, tail),
    ensures
        fits(copies(3 * cs.len(), Part::Run(40)) + parts, rows_body(cs) + tail),
    decreases cs.len(),
{
    if cs.len() == 0 {
        assert(copies(0, Part::Run(40)) + parts =~= parts);
        assert(rows_body(cs) + tail =~= tail);
    } else {
        let c = cs.last();
        let init = cs.drop_last();
        assert(constraint_ok(cs[cs.len() - 1], last_var));
        lemma_fits_constraint(c, last_var, parts, tail);
        let parts_a = copies(3, Part::Run(40)) + parts;
        let t0 = constraint_bytes(c) + tail;
        assert(constraints_ok(init, last_var)) by {
            assert forall|i: int| 0 <= i < init.len() implies #[trigger] constraint_ok(init[i], last_var) by {
                assert(init[i] == cs[i]);
                assert(constraint_ok(cs[i], last_var));
            }
        }
        lemma_fits_rows(init, last_var, parts_a, t0);
        assert(copies(3 * init.len(), Part::Run(40)) + parts_a =~= copies(3 * cs.len(), Part::Run(40)) + parts);
        assert(rows_body(cs) =~= rows_body(init) + constraint_bytes(c));
        assert(rows_body(init) + t0 =~= rows_body(cs) + tail);
    }
}

/// The payload of a circuit whose constraints are well formed has the shape of the
/// circuit layout, so the encoding built for it decodes back.
pub proof fn lemma_circuit_fits(code: u64, num_public: u64, num_private: u64, cs: Seq<Constraint>, last_var: nat)
    requires
        constraints_ok(cs, last_var),
    ensures
        fits(layout(Kind::R1cs), circuit_bytes(code, num_public, num_private, cs)),
{
    let e: Seq<u8> = seq![];
    let none: Seq<Part> = seq![];
    assert(fits(none, e));
    lemma_fits_rows(cs, last_var, none, e);
    let m = cs.len() as u64;
    let body = rows_body(cs);
    assert(body + e =~= body);
    assert(copies(3 * cs.len(), Part::Run(40)) + none =~= copies(3 * cs.len(), Part::Run(40)));
    let l = layout(Kind::R1cs);
    let b3 = word_bytes(m) + body;
    lemma_word_bytes(m, body);
    assert(b3.skip(8) =~= body);
    let rows_only: Seq<Part> = seq![Part::Rows];
    assert(rows_only[0] == Part::Rows);
    assert(rows_only.drop_first() =~= none);
    assert(copies(3 * (word(b3) as nat), Part::Run(40)) + none =~= copies(3 * cs.len(), Part::Run(40)));
    assert(fits(rows_only, b3));
    let b2 = word_bytes(num_private) + b3;
    let parts_c: Seq<Part> = seq![Part::Word, Part::Rows];
    assert(b2.skip(8) =~= b3);
    assert(parts_c.drop_first() =~= rows_only);
    assert(fits(parts_c, b2));
    let b1 = word_bytes(num_public) + b2;
    let parts_b: Seq<Part> = seq![Part::Word, Part::Word, Part::Rows];
    assert(b1.skip(8) =~= b2);
    assert(parts_b.drop_first() =~= parts_c);
    assert(fits(parts_b, b1));
    let b0 = word_bytes(code) + b1;
    assert(b0.skip(8) =~= b1);
    assert(l.drop_first() =~= parts_b);
    assert(fits(l, b0));
    assert(b0 =~= circuit_bytes(code, num_public, num_private, cs));
}

/// The encoding built for a circuit with well-formed constraints decodes back to the
/// circuit kind and the same payload.
pub proof fn lemma_circuit_round_trip(code: u64, num_public: u64, num_private: u64, cs: Seq<Constraint>, last_var: nat)
    requires
        constraints_ok(cs, last_var),
    ensures
        crate::param::decoded(encoding(Kind::R1cs, circuit_bytes(code, num_public, num_private, cs))) == Some(
            (Kind::R1cs, circuit_bytes(code, num_public, num_private, cs)),
        ),
{
    lemma_circuit_fits(code, num_public, num_private, cs, last_var);
    crate::param::lemma_round_trip(Kind::R1cs, circuit_bytes(code, num_public, num_private, cs));
}

} // verus!
