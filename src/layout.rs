//! Byte layouts of payloads: which elements, words and length-prefixed runs a
//! payload is made of, in which order.
use crate::element::{elem_result, elem_width, recode_elem, width, Elem};
use vstd::prelude::*;
use vstd::slice::slice_subrange;

verus! {

/// One piece of a payload layout.
#[derive(Clone, Copy, Debug, PartialEq, Eq, Structural)]
pub enum Part {
    /// A single element.
    One(Elem),
    /// A little-endian 64-bit count `n`, then `n` elements.
    Many(Elem),
    /// A little-endian 64-bit word, kept as it is.
    Word,
    /// A little-endian 64-bit count `n`, then `n` records of the given width, kept as they are.
    Run(u8),
    /// A little-endian 64-bit count `m`, then `3 * m` runs of 40-byte records.
    Rows,
}

/// Why a payload could not be read.
#[derive(Clone, Copy, Debug, PartialEq, Eq, Structural)]
pub enum Cause {
    /// The input ends inside the payload.
    Truncated,
    /// Bytes remain after the payload.
    TrailingBytes,
    /// Bytes that do not encode a point on the curve or a field scalar.
    InvalidElement,
    /// The bytes do not have the shape of the layout.
    Malformed,
}

/// The little-endian 64-bit word in the first eight bytes of `b`.
pub open spec fn word(b: Seq<u8>) -> u64 {
    (b[0] as u64) | ((b[1] as u64) << 8u64) | ((b[2] as u64) << 16u64) | ((b[3] as u64) << 24u64)
        | ((b[4] as u64) << 32u64) | ((b[5] as u64) << 40u64) | ((b[6] as u64) << 48u64)
        | ((b[7] as u64) << 56u64)
}

/// The eight little-endian bytes of `n`.
pub open spec fn word_bytes(n: u64) -> Seq<u8> {
    seq![n as u8, (n >> 8u64) as u8, (n >> 16u64) as u8, (n >> 24u64) as u8,
        (n >> 32u64) as u8, (n >> 40u64) as u8, (n >> 48u64) as u8, (n >> 56u64) as u8]
}

/// `n` copies of the part `p`.
pub open spec fn copies(n: nat, p: Part) -> Seq<Part> {
    Seq::new(n, |i: int| p)
}

/// `a` put in front of a successful result; an error passes through.
pub open spec fn prepend(a: Seq<u8>, r: Result<Seq<u8>, Cause>) -> Result<Seq<u8>, Cause> {
    match r {
        Ok(s) => Ok(a + s),
        Err(c) => Err(c),
    }
}

/// Reads `b` as the layout `parts` in the given density, and gives the payload in
/// uncompressed canonical form: each element replaced by its uncompressed bytes,
/// words, counts and runs kept as they are.
pub open spec fn recode(parts: Seq<Part>, b: Seq<u8>, compressed: bool) -> Result<Seq<u8>, Cause>
    decreases b.len(),
{
    if parts.len() == 0 {
        if b.len() == 0 { Ok(seq![]) } else { Err(Cause::TrailingBytes) }
    } else {
        let rest = parts.drop_first();
        match parts[0] {
            Part::One(e) => {
                let w = width(e, compressed);
                if b.len() < w {
                    Err(Cause::Truncated)
                } else {
                    match elem_result(e, b.take(w as int), compressed) {
                        Some(v) => prepend(v, recode(rest, b.skip(w as int), compressed)),
                        None => Err(Cause::InvalidElement),
                    }
                }
            },
            Part::Many(e) => {
                if b.len() < 8 {
                    Err(Cause::Truncated)
                } else {
                    let n = word(b) as nat;
                    prepend(b.take(8), recode(copies(n, Part::One(e)) + rest, b.skip(8), compressed))
                }
            },
            Part::Word => {
                if b.len() < 8 {
                    Err(Cause::Truncated)
                } else {
                    prepend(b.take(8), recode(rest, b.skip(8), compressed))
                }
            },
            Part::Run(k) => {
                if b.len() < 8 || b.len() < 8 + word(b) * k {
                    Err(Cause::Truncated)
                } else {
                    let len = 8 + word(b) * k;
                    prepend(b.take(len), recode(rest, b.skip(len), compressed))
                }
            },
            Part::Rows => {
                if b.len() < 8 {
                    Err(Cause::Truncated)
                } else {
                    let m = word(b) as nat;
                    prepend(b.take(8), recode(copies(3 * m, Part::Run(40)) + rest, b.skip(8), compressed))
                }
            },
        }
    }
}

/// Whether `b` has exactly the shape of the layout `parts` in uncompressed form.
pub open spec fn fits(parts: Seq<Part>, b: Seq<u8>) -> bool
    decreases b.len(),
{
    if parts.len() == 0 {
        b.len() == 0
    } else {
        let rest = parts.drop_first();
        match parts[0] {
            Part::One(e) => {
                let w = width(e, false);
                b.len() >= w && fits(rest, b.skip(w as int))
            },
            Part::Many(e) => b.len() >= 8 && fits(copies(word(b) as nat, Part::One(e)) + rest, b.skip(8)),
            Part::Word => b.len() >= 8 && fits(rest, b.skip(8)),
            Part::Run(k) => {
                let len = 8 + word(b) * k;
                b.len() >= 8 && b.len() >= len && fits(rest, b.skip(len))
            },
            Part::Rows => b.len() >= 8 && fits(copies(3 * (word(b) as nat), Part::Run(40)) + rest, b.skip(8)),
        }
    }
}

proof fn lemma_word_prefix(a: Seq<u8>, b: Seq<u8>)
    requires
        a.len() >= 8,
        b.len() >= 8,
        a.take(8) =~= b.take(8),
    ensures
        word(a) == word(b),
{
    assert(forall|i: int| 0 <= i < 8 ==> a[i] == a.take(8)[i] && b[i] == b.take(8)[i]);
}

/// A recoded payload has the uncompressed shape of its layout.
pub proof fn lemma_recode_fits(parts: Seq<Part>, b: Seq<u8>, compressed: bool)
    requires
        recode(parts, b, compressed) is Ok,
    ensures
        fits(parts, recode(parts, b, compressed)->Ok_0),
    decreases b.len(),
{
    let out = recode(parts, b, compressed)->Ok_0;
    if parts.len() > 0 {
        let rest = parts.drop_first();
        match parts[0] {
            Part::One(e) => {
                let w = width(e, compressed);
                let v = elem_result(e, b.take(w as int), compressed)->0;
                lemma_recode_fits(rest, b.skip(w as int), compressed);
                assert(out.skip(width(e, false) as int) =~= recode(rest, b.skip(w as int), compressed)->Ok_0);
            },
            Part::Many(e) => {
                let n = word(b) as nat;
                let inner = copies(n, Part::One(e)) + rest;
                lemma_recode_fits(inner, b.skip(8), compressed);
                assert(out.take(8) =~= b.take(8));
                lemma_word_prefix(out, b);
                assert(out.skip(8) =~= recode(inner, b.skip(8), compressed)->Ok_0);
            },
            Part::Word => {
                lemma_recode_fits(rest, b.skip(8), compressed);
                assert(out.skip(8) =~= recode(rest, b.skip(8), compressed)->Ok_0);
            },
            Part::Run(k) => {
                let len = 8 + word(b) * k;
                lemma_recode_fits(rest, b.skip(len), compressed);
                assert(out.take(8) =~= b.take(8));
                lemma_word_prefix(out, b);
                assert(out.skip(len) =~= recode(rest, b.skip(len), compressed)->Ok_0);
            },
            Part::Rows => {
                let m = word(b) as nat;
                let inner = copies(3 * m, Part::Run(40)) + rest;
                lemma_recode_fits(inner, b.skip(8), compressed);
                assert(out.take(8) =~= b.take(8));
                lemma_word_prefix(out, b);
                assert(out.skip(8) =~= recode(inner, b.skip(8), compressed)->Ok_0);
            },
        }
    }
}

/// No proper prefix of a payload that fits a layout fits the same layout.
pub proof fn lemma_fits_prefix_free(parts: Seq<Part>, b: Seq<u8>, s: Seq<u8>)
    requires
        fits(parts, b),
        fits(parts, s),
        s.len() <= b.len(),
        s =~= b.take(s.len() as int),
    ensures
        s.len() == b.len(),
    decreases b.len(),
{
    if parts.len() > 0 {
        let rest = parts.drop_first();
        match parts[0] {
            Part::One(e) => {
                let w = width(e, false) as int;
                assert(s.skip(w) =~= b.skip(w).take(s.skip(w).len() as int));
                lemma_fits_prefix_free(rest, b.skip(w), s.skip(w));
            },
            Part::Many(e) => {
                assert(s.take(8) =~= b.take(8));
                lemma_word_prefix(s, b);
                let inner = copies(word(b) as nat, Part::One(e)) + rest;
                assert(s.skip(8) =~= b.skip(8).take(s.skip(8).len() as int));
                lemma_fits_prefix_free(inner, b.skip(8), s.skip(8));
            },
            Part::Word => {
                assert(s.skip(8) =~= b.skip(8).take(s.skip(8).len() as int));
                lemma_fits_prefix_free(rest, b.skip(8), s.skip(8));
            },
            Part::Run(k) => {
                assert(s.take(8) =~= b.take(8));
                lemma_word_prefix(s, b);
                let len = (8 + word(b) * k) as int;
                assert(s.skip(len) =~= b.skip(len).take(s.skip(len).len() as int));
                lemma_fits_prefix_free(rest, b.skip(len), s.skip(len));
            },
            Part::Rows => {
                assert(s.take(8) =~= b.take(8));
                lemma_word_prefix(s, b);
                let inner = copies(3 * (word(b) as nat), Part::Run(40)) + rest;
                assert(s.skip(8) =~= b.skip(8).take(s.skip(8).len() as int));
                lemma_fits_prefix_free(inner, b.skip(8), s.skip(8));
            },
        }
    }
}

proof fn lemma_copies_front(n: nat, p: Part, rest: Seq<Part>)
    ensures
        n > 0 ==> (copies(n, p) + rest)[0] == p,
        n > 0 ==> (copies(n, p) + rest).drop_first() =~= copies((n - 1) as nat, p) + rest,
        copies(0, p) + rest =~= rest,
{
}

proof fn lemma_prepend_assoc(a: Seq<u8>, v: Seq<u8>, r: Result<Seq<u8>, Cause>)
    ensures
        prepend(a, prepend(v, r)) == prepend(a + v, r),
{
    if let Ok(s) = r {
        assert(a + (v + s) =~= (a + v) + s);
    }
}

/// Reads the little-endian 64-bit word at `pos`.
pub fn read_word(b: &[u8], pos: usize) -> (r: u64)
    requires
        pos + 8 <= b@.len(),
    ensures
        r == word(b@.skip(pos as int)),
{
    (b[pos] as u64) | ((b[pos + 1] as u64) << 8u64) | ((b[pos + 2] as u64) << 16u64) | ((b[pos + 3] as u64) << 24u64)
        | ((b[pos + 4] as u64) << 32u64) | ((b[pos + 5] as u64) << 40u64) | ((b[pos + 6] as u64) << 48u64)
        | ((b[pos + 7] as u64) << 56u64)
}

/// Appends the bytes of `b` from `start` up to `end`.
pub fn append_range(out: &mut Vec<u8>, b: &[u8], start: usize, end: usize)
    requires
        start <= end <= b@.len(),
    ensures
        final(out)@ == old(out)@ + b@.subrange(start as int, end as int),
{
    let mut j: usize = start;
    while j < end
        invariant
            start <= j <= end <= b@.len(),
            out@ == old(out)@ + b@.subrange(start as int, j as int),
        decreases end - j,
    {
        out.push(b[j]);
        assert(b@.subrange(start as int, j + 1) =~= b@.subrange(start as int, j as int).push(b@[j as int]));
        j = j + 1;
    }
}

/// Reads `b` as the layout `parts` in the given density and returns the payload in
/// uncompressed canonical form.
#[verifier::rlimit(40)]
pub fn recode_payload(parts: &Vec<Part>, b: &[u8], compressed: bool) -> (r: Result<Vec<u8>, Cause>)
    ensures
        match r {
            Ok(v) => recode(parts@, b@, compressed) == Ok::<Seq<u8>, Cause>(v@),
            Err(c) => recode(parts@, b@, compressed) == Err::<Seq<u8>, Cause>(c),
        },
{
    let mut out: Vec<u8> = Vec::new();
    let mut i: usize = 0;
    let mut pend: u128 = 0;
    let mut pp: Part = Part::Word;
    let mut pos: usize = 0;
    proof {
        lemma_copies_front(0, pp, parts@);
        assert(parts@.skip(0) =~= parts@);
        assert(b@.skip(0) =~= b@);
        lemma_prepend_assoc(seq![], seq![], recode(parts@, b@, compressed));
        assert(Seq::<u8>::empty() + Seq::<u8>::empty() =~= Seq::<u8>::empty());
        if let Ok(s) = recode(parts@, b@, compressed) {
            assert(Seq::<u8>::empty() + s =~= s);
        }
    }
    while pend > 0 || i < parts.len()
        invariant
            i <= parts@.len(),
            pos <= b@.len(),
            pend > 0 ==> (pp is One || pp is Run),
            recode(parts@, b@, compressed) == prepend(
                out@,
                recode(copies(pend as nat, pp) + parts@.skip(i as int), b@.skip(pos as int), compressed),
            ),
        decreases b@.len() - pos,
    {
        let ghost cur = copies(pend as nat, pp) + parts@.skip(i as int);
        let ghost rest_b = b@.skip(pos as int);
        let front: Part;
        if pend > 0 {
            front = pp;
            proof { lemma_copies_front(pend as nat, pp, parts@.skip(i as int)); }
            pend = pend - 1;
        } else {
            front = parts[i];
            proof {
                lemma_copies_front(0, pp, parts@.skip(i as int));
                lemma_copies_front(0, pp, parts@.skip(i + 1));
                assert(parts@.skip(i as int).drop_first() =~= parts@.skip(i + 1));
            }
            i = i + 1;
        }
        assert(cur[0] == front);
        assert(cur.drop_first() =~= copies(pend as nat, pp) + parts@.skip(i as int));
        let avail = b.len() - pos;
        match front {
            Part::One(e) => {
                let w = elem_width(e, compressed);
                if avail < w {
                    return Err(Cause::Truncated);
                }
                let chunk = slice_subrange(b, pos, pos + w);
                assert(chunk@ =~= rest_b.take(w as int));
                match recode_elem(e, chunk, compressed) {
                    None => {
                        return Err(Cause::InvalidElement);
                    },
                    Some(v) => {
                        let ghost before = out@;
                        let vs = v.as_slice();
                        append_range(&mut out, vs, 0, vs.len());
                        assert(vs@.subrange(0, vs@.len() as int) =~= v@);
                        assert(b@.skip(pos + w) =~= rest_b.skip(w as int));
                        pos = pos + w;
                        proof { lemma_prepend_assoc(before, v@, recode(cur.drop_first(), b@.skip(pos as int), compressed)); }
                    },
                }
            },
            _ => {
                if avail < 8 {
                    return Err(Cause::Truncated);
                }
                let n = read_word(b, pos);
                let mut len: usize = 8;
                match front {
                    Part::Run(k) => {
                        assert((n as u128) * (k as u128) <= 0xffff_ffff_ffff_ffffu128 * 255) by (nonlinear_arith)
                            requires
                                n <= 0xffff_ffff_ffff_ffffu64,
                                k <= 255u8,
                        ;
                        let need: u128 = 8u128 + (n as u128) * (k as u128);
                        if (avail as u128) < need {
                            return Err(Cause::Truncated);
                        }
                        len = need as usize;
                    },
                    Part::Many(e) => {
                        pend = n as u128;
                        pp = Part::One(e);
                    },
                    Part::Rows => {
                        pend = 3 * (n as u128);
                        pp = Part::Run(40);
                    },
                    _ => {},
                }
                let ghost before = out@;
                append_range(&mut out, b, pos, pos + len);
                assert(b@.subrange(pos as int, pos + len) =~= rest_b.take(len as int));
                assert(b@.skip(pos + len) =~= rest_b.skip(len as int));
                pos = pos + len;
                proof {
                    lemma_prepend_assoc(before, rest_b.take(len as int),
                        recode(copies(pend as nat, pp) + parts@.skip(i as int), b@.skip(pos as int), compressed));
                }
            },
        }
    }
    proof { lemma_copies_front(0, pp, parts@.skip(i as int)); }
    assert(parts@.skip(i as int) =~= Seq::<Part>::empty());
    if pos < b.len() {
        Err(Cause::TrailingBytes)
    } else {
        assert(b@.skip(pos as int) =~= Seq::<u8>::empty());
        assert(out@ + Seq::<u8>::empty() =~= out@);
        Ok(out)
    }
}

/// Whether `b` has exactly the uncompressed shape of the layout `parts`.
#[verifier::rlimit(40)]
pub fn check_payload(parts: &Vec<Part>, b: &[u8]) -> (r: bool)
    ensures
        r == fits(parts@, b@),
{
    let mut i: usize = 0;
    let mut pend: u128 = 0;
    let mut pp: Part = Part::Word;
    let mut pos: usize = 0;
    proof {
        lemma_copies_front(0, pp, parts@);
        assert(parts@.skip(0) =~= parts@);
        assert(b@.skip(0) =~= b@);
    }
    while pend > 0 || i < parts.len()
        invariant
            i <= parts@.len(),
            pos <= b@.len(),
            pend > 0 ==> (pp is One || pp is Run),
            fits(parts@, b@) == fits(copies(pend as nat, pp) + parts@.skip(i as int), b@.skip(pos as int)),
        decreases b@.len() - pos,
    {
        let ghost cur = copies(pend as nat, pp) + parts@.skip(i as int);
        let ghost rest_b = b@.skip(pos as int);
        let front: Part;
        if pend > 0 {
            front = pp;
            proof { lemma_copies_front(pend as nat, pp, parts@.skip(i as int)); }
            pend = pend - 1;
        } else {
            front = parts[i];
            proof {
                lemma_copies_front(0, pp, parts@.skip(i as int));
                lemma_copies_front(0, pp, parts@.skip(i + 1));
                assert(parts@.skip(i as int).drop_first() =~= parts@.skip(i + 1));
            }
            i = i + 1;
        }
        assert(cur[0] == front);
        assert(cur.drop_first() =~= copies(pend as nat, pp) + parts@.skip(i as int));
        let avail = b.len() - pos;
        let mut len: usize = 8;
        match front {
            Part::One(e) => {
                len = elem_width(e, false);
            },
            _ => {
                if avail < 8 {
                    return false;
                }
                let n = read_word(b, pos);
                match front {
                    Part::Run(k) => {
                        assert((n as u128) * (k as u128) <= 0xffff_ffff_ffff_ffffu128 * 255) by (nonlinear_arith)
                            requires
                                n <= 0xffff_ffff_ffff_ffffu64,
                                k <= 255u8,
                        ;
                        let need: u128 = 8u128 + (n as u128) * (k as u128);
                        if (avail as u128) < need {
                            return false;
                        }
                        len = need as usize;
                    },
                    Part::Many(e) => {
                        pend = n as u128;
                        pp = Part::One(e);
                    },
                    Part::Rows => {
                        pend = 3 * (n as u128);
                        pp = Part::Run(40);
                    },
                    _ => {},
                }
            },
        }
        if avail < len {
            return false;
        }
        assert(b@.skip(pos + len) =~= rest_b.skip(len as int));
        pos = pos + len;
    }
    proof { lemma_copies_front(0, pp, parts@.skip(i as int)); }
    assert(parts@.skip(i as int) =~= Seq::<Part>::empty());
    pos == b.len()
}

/// The word written for `n` reads back as `n`.
pub proof fn lemma_word_bytes(n: u64, rest: Seq<u8>)
    ensures
        word(word_bytes(n) + rest) == n,
        (word_bytes(n) + rest).len() == 8 + rest.len(),
{
    let b = word_bytes(n) + rest;
    assert(b[0] == n as u8 && b[1] == (n >> 8u64) as u8 && b[2] == (n >> 16u64) as u8 && b[3] == (n >> 24u64) as u8);
    assert(b[4] == (n >> 32u64) as u8 && b[5] == (n >> 40u64) as u8 && b[6] == (n >> 48u64) as u8 && b[7] == (n >> 56u64) as u8);
    assert(((n as u8) as u64) | ((((n >> 8u64) as u8) as u64) << 8u64) | ((((n >> 16u64) as u8) as u64) << 16u64)
        | ((((n >> 24u64) as u8) as u64) << 24u64) | ((((n >> 32u64) as u8) as u64) << 32u64)
        | ((((n >> 40u64) as u8) as u64) << 40u64) | ((((n >> 48u64) as u8) as u64) << 48u64)
        | ((((n >> 56u64) as u8) as u64) << 56u64) == n) by (bit_vector);
}

/// Appends the eight little-endian bytes of `n`.
pub fn push_word(out: &mut Vec<u8>, n: u64)
    ensures
        final(out)@ == old(out)@ + word_bytes(n),
{
    out.push(n as u8);
    out.push((n >> 8u64) as u8);
    out.push((n >> 16u64) as u8);
    out.push((n >> 24u64) as u8);
    out.push((n >> 32u64) as u8);
    out.push((n >> 40u64) as u8);
    out.push((n >> 48u64) as u8);
    out.push((n >> 56u64) as u8);
    assert(final(out)@ =~= old(out)@ + word_bytes(n));
}

} // verus!
