//! Reconstruction of a read's bases from a reference sequence and the read's features.
//!
//! Two cursors walk in step: the 1-based reference position and the 1-based read position.
//! Before each feature, the reference bases between the cursors are copied; the feature then
//! emits its own bases, if any, and moves the cursors. After the last feature the reference is
//! copied up to the end of the read.
use vstd::prelude::*;

use crate::error::Error;
use crate::num::extend_from;
use crate::feature::{feature_advance, feature_position, Feature};
use crate::substitution_matrix::{base_letter, base_of, Base, SubstitutionMatrix};

verus! {

/// Whether a byte is an ASCII lower-case letter.
pub open spec fn is_lower(b: u8) -> bool {
    0x61 <= b <= 0x7a
}

/// The lower-case form of an upper-case ASCII letter.
pub open spec fn to_lower(b: u8) -> u8 {
    if 0x41 <= b <= 0x5a {
        (b + 0x20) as u8
    } else {
        b
    }
}

/// The read base that substitutes reference base `raw` under code `code`, in the case of
/// `raw`.
pub open spec fn substituted_base(
    matrix: SubstitutionMatrix,
    raw: u8,
    code: u8,
) -> Result<u8, Error> {
    match base_of(raw) {
        None => Err(Error::InvalidData),
        Some(b) => match matrix.spec_get(b, code) {
            None => Err(Error::InvalidData),
            Some(s) => Ok(
                if is_lower(raw) {
                    to_lower(base_letter(s))
                } else {
                    base_letter(s)
                },
            ),
        },
    }
}

/// The bases that a feature emits, given the reference position `r` it stands at.
pub open spec fn feature_bases(
    reference: Option<Seq<u8>>,
    matrix: SubstitutionMatrix,
    f: Feature,
    r: int,
) -> Result<Seq<u8>, Error> {
    match f {
        Feature::Bases { bases, .. } => Ok(bases@),
        Feature::Insertion { bases, .. } => Ok(bases@),
        Feature::SoftClip { bases, .. } => Ok(bases@),
        Feature::ReadBase { base, .. } => Ok(seq![base]),
        Feature::InsertBase { base, .. } => Ok(seq![base]),
        Feature::Substitution { code, .. } => match reference {
            None => Err(Error::MissingReferenceSequence),
            Some(rs) => if 1 <= r <= rs.len() {
                match substituted_base(matrix, rs[r - 1], code) {
                    Err(e) => Err(e),
                    Ok(b) => Ok(seq![b]),
                }
            } else {
                Err(Error::InvalidData)
            },
        },
        _ => Ok(Seq::empty()),
    }
}

/// The reference bases from position `from` up to, not including, position `to`: without a
/// reference there are none, which is only right when the span is empty.
pub open spec fn reference_bases(reference: Option<Seq<u8>>, from: int, to: int) -> Result<
    Seq<u8>,
    Error,
> {
    match reference {
        Some(rs) => if 1 <= from <= to && to - 1 <= rs.len() {
            Ok(rs.subrange(from - 1, to - 1))
        } else {
            Err(Error::InvalidData)
        },
        None => if from == to {
            Ok(Seq::empty())
        } else {
            Err(Error::MissingReferenceSequence)
        },
    }
}

/// One feature applied to the bases `out` emitted so far, with the cursors at reference
/// position `r` and read position `q`.
pub open spec fn apply_feature(
    reference: Option<Seq<u8>>,
    matrix: SubstitutionMatrix,
    f: Feature,
    out: Seq<u8>,
    r: int,
    q: int,
) -> Result<(Seq<u8>, int, int), Error> {
    let p = feature_position(f);
    let r1 = r + (p - q);
    if p < q || r1 > usize::MAX {
        Err(Error::InvalidData)
    } else {
        let copied = if reference is Some {
            reference_bases(reference, r, r1)
        } else {
            reference_bases(reference, q, p)
        };
        match copied {
            Err(e) => Err(e),
            Ok(c) => match feature_bases(reference, matrix, f, r1) {
                Err(e) => Err(e),
                Ok(b) => {
                    let r2 = r1 + feature_advance(f).0;
                    let q2 = p + feature_advance(f).1;
                    if r2 > usize::MAX || q2 > usize::MAX {
                        Err(Error::InvalidData)
                    } else {
                        Ok((out + c + b, r2, q2))
                    }
                },
            },
        }
    }
}

/// The bases emitted by the first `k` features and the cursors after them.
pub open spec fn walk(
    reference: Option<Seq<u8>>,
    matrix: SubstitutionMatrix,
    features: Seq<Feature>,
    alignment_start: int,
    k: nat,
) -> Result<(Seq<u8>, int, int), Error>
    decreases k,
{
    if k == 0 {
        Ok((Seq::empty(), alignment_start, 1))
    } else {
        match walk(reference, matrix, features, alignment_start, (k - 1) as nat) {
            Err(e) => Err(e),
            Ok((out, r, q)) => apply_feature(reference, matrix, features[k - 1], out, r, q),
        }
    }
}

/// The bases after the last feature: the reference from the cursor to the end of the read.
pub open spec fn finish(
    reference: Option<Seq<u8>>,
    out: Seq<u8>,
    r: int,
    q: int,
    read_length: int,
) -> Result<Seq<u8>, Error> {
    match reference {
        Some(rs) => if q > read_length {
            Ok(out)
        } else {
            let end = r + (read_length - q + 1);
            if end > usize::MAX {
                Err(Error::InvalidData)
            } else {
                match reference_bases(reference, r, end) {
                    Err(e) => Err(e),
                    Ok(c) => Ok(out + c),
                }
            }
        },
        None => if q != read_length + 1 {
            Err(Error::MissingReferenceSequence)
        } else {
            Ok(out)
        },
    }
}

/// The read's bases: the features applied in order, then the reference up to the end of the
/// read.
pub open spec fn reconstruction(
    reference: Option<Seq<u8>>,
    matrix: SubstitutionMatrix,
    features: Seq<Feature>,
    alignment_start: int,
    read_length: int,
) -> Result<Seq<u8>, Error> {
    if alignment_start < 1 {
        Err(Error::InvalidData)
    } else {
        match walk(reference, matrix, features, alignment_start, features.len()) {
            Err(e) => Err(e),
            Ok((out, r, q)) => finish(reference, out, r, q, read_length),
        }
    }
}

/// The view of an optional reference slice.
pub open spec fn reference_view(reference: Option<&[u8]>) -> Option<Seq<u8>> {
    match reference {
        Some(rs) => Some(rs@),
        None => None,
    }
}

/// The read base that substitutes reference base `raw` under code `code`.
fn substitute(matrix: &SubstitutionMatrix, raw: u8, code: u8) -> (r: Result<u8, Error>)
    requires
        matrix.wf(),
    ensures
        r == substituted_base(*matrix, raw, code),
{
    let b: Base = match Base::from_u8(raw) {
        Some(b) => b,
        None => return Err(Error::InvalidData),
    };
    let s: Base = match matrix.get(b, code) {
        Some(s) => s,
        None => return Err(Error::InvalidData),
    };
    let letter: u8 = s.to_u8();
    if 0x61 <= raw && raw <= 0x7a {
        if 0x41 <= letter && letter <= 0x5a {
            Ok(letter + 0x20)
        } else {
            Ok(letter)
        }
    } else {
        Ok(letter)
    }
}

/// Appends the bases a feature emits.
fn push_feature_bases(
    out: &mut Vec<u8>,
    reference: Option<&[u8]>,
    matrix: &SubstitutionMatrix,
    feature: &Feature,
    r: usize,
) -> (res: Result<(), Error>)
    requires
        matrix.wf(),
    ensures
        match feature_bases(reference_view(reference), *matrix, *feature, r as int) {
            Ok(b) => res is Ok && final(out)@ == old(out)@ + b,
            Err(e) => res == Err::<(), Error>(e),
        },
{
    match feature {
        Feature::Bases { bases, .. } | Feature::Insertion { bases, .. } | Feature::SoftClip { bases, .. } => {
            extend_from(out, bases.as_slice(), 0, bases.len());
            assert(bases@.subrange(0, bases@.len() as int) =~= bases@);
            Ok(())
        },
        Feature::ReadBase { base, .. } | Feature::InsertBase { base, .. } => {
            out.push(*base);
            assert(old(out)@.push(*base) =~= old(out)@ + seq![*base]);
            Ok(())
        },
        Feature::Substitution { code, .. } => match reference {
            None => Err(Error::MissingReferenceSequence),
            Some(rs) => {
                if r < 1 || r > rs.len() {
                    return Err(Error::InvalidData);
                }
                let read_base: u8 = match substitute(matrix, rs[r - 1], *code) {
                    Ok(b) => b,
                    Err(e) => return Err(e),
                };
                out.push(read_base);
                assert(old(out)@.push(read_base) =~= old(out)@ + seq![read_base]);
                Ok(())
            },
        },
        _ => {
            assert(old(out)@ + Seq::<u8>::empty() =~= old(out)@);
            Ok(())
        },
    }
}

/// Applies one feature: copies the reference up to it, emits its bases, and moves the cursors.
fn apply(
    out: &mut Vec<u8>,
    reference: Option<&[u8]>,
    matrix: &SubstitutionMatrix,
    feature: &Feature,
    r: usize,
    q: usize,
) -> (res: Result<(usize, usize), Error>)
    requires
        matrix.wf(),
    ensures
        match apply_feature(reference_view(reference), *matrix, *feature, old(out)@, r as int, q as int) {
            Ok((o, r2, q2)) => res == Ok::<(usize, usize), Error>((r2 as usize, q2 as usize)) && final(out)@ == o,
            Err(e) => res == Err::<(usize, usize), Error>(e),
        },
{
    let p: usize = feature.position();
    if p < q || r > usize::MAX - (p - q) {
        return Err(Error::InvalidData);
    }
    let r1: usize = r + (p - q);
    match reference {
        Some(rs) => {
            if r < 1 || r1 - 1 > rs.len() {
                return Err(Error::InvalidData);
            }
            extend_from(out, rs, r - 1, r1 - 1);
        },
        None => {
            if p != q {
                return Err(Error::MissingReferenceSequence);
            }
            assert(old(out)@ + Seq::<u8>::empty() =~= old(out)@);
        },
    }
    let ghost copied: Seq<u8> = out@;
    match push_feature_bases(out, reference, matrix, feature, r1) {
        Ok(()) => {},
        Err(e) => return Err(e),
    }
    let (dr, dq): (usize, usize) = feature.advance();
    if r1 > usize::MAX - dr || p > usize::MAX - dq {
        return Err(Error::InvalidData);
    }
    proof {
        let c = if reference is Some {
            reference_bases(reference_view(reference), r as int, r1 as int).unwrap()
        } else {
            Seq::<u8>::empty()
        };
        assert(copied == old(out)@ + c);
        let b = feature_bases(reference_view(reference), *matrix, *feature, r1 as int).unwrap();
        assert(out@ == old(out)@ + c + b);
    }
    Ok((r1 + dr, p + dq))
}

/// Once the walk has failed, walking further fails the same way.
proof fn lemma_walk_failed(
    reference: Option<Seq<u8>>,
    matrix: SubstitutionMatrix,
    features: Seq<Feature>,
    alignment_start: int,
    k: nat,
    m: nat,
)
    requires
        k <= m,
        walk(reference, matrix, features, alignment_start, k) is Err,
    ensures
        walk(reference, matrix, features, alignment_start, m) == walk(
            reference,
            matrix,
            features,
            alignment_start,
            k,
        ),
    decreases m - k,
{
    if k < m {
        lemma_walk_failed(reference, matrix, features, alignment_start, k, (m - 1) as nat);
    }
}

/// Reconstructs a read's bases from the reference slice, if one is given, the substitution
/// matrix and the read's features. Without a reference, a feature that needs one is reported
/// as a missing reference sequence.
pub fn reconstruct_sequence(
    reference_sequence: Option<&[u8]>,
    substitution_matrix: &SubstitutionMatrix,
    features: &[Feature],
    alignment_start: usize,
    read_length: usize,
) -> (r: Result<Vec<u8>, Error>)
    requires
        substitution_matrix.wf(),
    ensures
        match reconstruction(
            reference_view(reference_sequence),
            *substitution_matrix,
            features@,
            alignment_start as int,
            read_length as int,
        ) {
            Ok(s) => r matches Ok(v) && v@ == s,
            Err(e) => r == Err::<Vec<u8>, Error>(e),
        },
{
    if alignment_start < 1 {
        return Err(Error::InvalidData);
    }
    let ghost rv: Option<Seq<u8>> = reference_view(reference_sequence);
    let mut out: Vec<u8> = Vec::new();
    let mut r: usize = alignment_start;
    let mut q: usize = 1;
    let mut k: usize = 0;
    while k < features.len()
        invariant
            k <= features@.len(),
            1 <= q,
            1 <= alignment_start,
            substitution_matrix.wf(),
            rv == reference_view(reference_sequence),
            walk(rv, *substitution_matrix, features@, alignment_start as int, k as nat) == Ok::<
                (Seq<u8>, int, int),
                Error,
            >((out@, r as int, q as int)),
        decreases features@.len() - k,
    {
        let ghost prev: Seq<u8> = out@;
        assert(walk(rv, *substitution_matrix, features@, alignment_start as int, (k + 1) as nat)
            == apply_feature(rv, *substitution_matrix, features@[k as int], prev, r as int, q as int));
        match apply(&mut out, reference_sequence, substitution_matrix, &features[k], r, q) {
            Ok((r2, q2)) => {
                r = r2;
                q = q2;
            },
            Err(e) => {
                proof {
                    lemma_walk_failed(rv, *substitution_matrix, features@, alignment_start as int, (k + 1) as nat, features@.len());
                    assert(walk(rv, *substitution_matrix, features@, alignment_start as int, features@.len()) == Err::<(Seq<u8>, int, int), Error>(e));
                }
                return Err(e);
            },
        }
        k = k + 1;
    }
    match reference_sequence {
        Some(rs) => {
            if q > read_length {
                return Ok(out);
            }
            let len: usize = read_length - q + 1;
            if r > usize::MAX - len {
                return Err(Error::InvalidData);
            }
            let end: usize = r + len;
            if r < 1 || end - 1 > rs.len() {
                return Err(Error::InvalidData);
            }
            extend_from(&mut out, rs, r - 1, end - 1);
            Ok(out)
        },
        None => {
            if q - 1 != read_length {
                return Err(Error::MissingReferenceSequence);
            }
            Ok(out)
        },
    }
}

/// Every successful walk has emitted one base for each read position it has passed.
proof fn lemma_walk_length(
    reference: Option<Seq<u8>>,
    matrix: SubstitutionMatrix,
    features: Seq<Feature>,
    alignment_start: int,
    k: nat,
)
    requires
        k <= features.len(),
        walk(reference, matrix, features, alignment_start, k) is Ok,
    ensures
        walk(reference, matrix, features, alignment_start, k) matches Ok((out, _, q)) && out.len()
            == q - 1,
    decreases k,
{
    if k > 0 {
        let prev = walk(reference, matrix, features, alignment_start, (k - 1) as nat);
        if prev is Err {
            lemma_walk_failed(reference, matrix, features, alignment_start, (k - 1) as nat, k);
        } else {
            lemma_walk_length(reference, matrix, features, alignment_start, (k - 1) as nat);
        }
    }
}

/// A reconstruction that succeeds, with features that end within the read (the read position
/// after the last feature is at most one past the read's length), has exactly `read_length`
/// bases.
pub proof fn lemma_reconstruction_length(
    reference: Option<Seq<u8>>,
    matrix: SubstitutionMatrix,
    features: Seq<Feature>,
    alignment_start: int,
    read_length: int,
)
    requires
        read_length >= 0,
        walk(reference, matrix, features, alignment_start, features.len()) matches Ok((_, _, q))
            && q <= read_length + 1,
        reconstruction(reference, matrix, features, alignment_start, read_length) is Ok,
    ensures
        reconstruction(reference, matrix, features, alignment_start, read_length).unwrap().len()
            == read_length,
{
    lemma_walk_length(reference, matrix, features, alignment_start, features.len());
}

/// Without a reference sequence, a substitution feature makes reconstruction fail; when the
/// walk reaches the substitution with its read position at or before the feature's, and the
/// reference cursor does not overflow, the failure is a missing reference sequence.
pub proof fn lemma_substitution_needs_reference(
    matrix: SubstitutionMatrix,
    features: Seq<Feature>,
    alignment_start: int,
    read_length: int,
    k: int,
)
    requires
        0 <= k < features.len(),
        features[k] is Substitution,
    ensures
        reconstruction(None, matrix, features, alignment_start, read_length) is Err,
        (alignment_start >= 1 && (walk(None, matrix, features, alignment_start, k as nat) matches Ok(
            (_, r, q),
        ) && q <= feature_position(features[k]) && r + feature_position(features[k]) - q
            <= usize::MAX)) ==> reconstruction(None, matrix, features, alignment_start, read_length)
            == Err::<Seq<u8>, Error>(Error::MissingReferenceSequence),
{
    let n = features.len();
    if walk(None, matrix, features, alignment_start, k as nat) is Err {
        lemma_walk_failed(None, matrix, features, alignment_start, k as nat, n);
    } else {
        assert(walk(None, matrix, features, alignment_start, (k + 1) as nat) is Err);
        lemma_walk_failed(None, matrix, features, alignment_start, (k + 1) as nat, n);
    }
}

/// The reference and read cursors after the first `k` features, ignoring every check.
pub open spec fn cursor(features: Seq<Feature>, alignment_start: int, k: nat) -> (int, int)
    decreases k,
{
    if k == 0 {
        (alignment_start, 1)
    } else {
        let (r, q) = cursor(features, alignment_start, (k - 1) as nat);
        let f = features[k - 1];
        let p = feature_position(f);
        (r + (p - q) + feature_advance(f).0, p + feature_advance(f).1)
    }
}

/// The reference position a feature stands at, given the cursors before it.
pub open spec fn feature_reference_position(features: Seq<Feature>, alignment_start: int, k: nat) -> int {
    let (r, q) = cursor(features, alignment_start, k);
    r + (feature_position(features[k as int]) - q)
}

/// Inputs on which reconstruction has what it needs: the alignment starts at 1 or later; each
/// feature stands at or after the read position the previous one ends at; the cursors stay
/// within `usize`; the reference covers every base copied before a feature and up to the end
/// of the read; and each substitution falls on an A, C, G or T of either case, with a code
/// of at most 2.
pub open spec fn reconstructible(
    reference: Seq<u8>,
    features: Seq<Feature>,
    alignment_start: int,
    read_length: int,
) -> bool {
    let n = features.len();
    let (rn, qn) = cursor(features, alignment_start, n);
    &&& 1 <= alignment_start
    &&& forall|k: nat|
        k < n ==> {
            let (r, q) = #[trigger] cursor(features, alignment_start, k);
            let r1 = feature_reference_position(features, alignment_start, k);
            let (r2, q2) = cursor(features, alignment_start, k + 1);
            &&& q <= feature_position(features[k as int])
            &&& r1 - 1 <= reference.len()
            &&& r2 <= usize::MAX
            &&& q2 <= usize::MAX
            &&& features[k as int] matches Feature::Substitution { code, .. } ==> {
                &&& r1 <= reference.len()
                &&& base_of(reference[r1 - 1]) is Some
                &&& code < 3
            }
        }
    &&& qn <= read_length ==> rn + (read_length - qn + 1) - 1 <= reference.len() && rn + (
    read_length - qn + 1) <= usize::MAX
}

/// On reconstructible inputs every step of the walk succeeds, with the cursors of `cursor`.
proof fn lemma_walk_succeeds(
    reference: Seq<u8>,
    matrix: SubstitutionMatrix,
    features: Seq<Feature>,
    alignment_start: int,
    read_length: int,
    k: nat,
)
    requires
        reconstructible(reference, features, alignment_start, read_length),
        k <= features.len(),
    ensures
        walk(Some(reference), matrix, features, alignment_start, k) matches Ok((_, r, q)) && (r, q)
            == cursor(features, alignment_start, k) && r >= 1,
    decreases k,
{
    if k > 0 {
        let j = (k - 1) as nat;
        lemma_walk_succeeds(reference, matrix, features, alignment_start, read_length, j);
        let (r, q) = cursor(features, alignment_start, j);
        assert(q <= feature_position(features[j as int]));
        let f = features[j as int];
        if let Feature::Substitution { code, .. } = f {
            let r1 = feature_reference_position(features, alignment_start, j);
            let b = base_of(reference[r1 - 1]).unwrap();
            assert(matrix.spec_get(b, code) is Some);
        }
    }
}

/// On reconstructible inputs, reconstruction succeeds; and when the features end within the
/// read (their read cursor is at most one past its length), it has exactly `read_length` bases.
pub proof fn lemma_reconstruction_succeeds(
    reference: Seq<u8>,
    matrix: SubstitutionMatrix,
    features: Seq<Feature>,
    alignment_start: int,
    read_length: int,
)
    requires
        read_length >= 0,
        reconstructible(reference, features, alignment_start, read_length),
    ensures
        reconstruction(Some(reference), matrix, features, alignment_start, read_length) is Ok,
        cursor(features, alignment_start, features.len()).1 <= read_length + 1 ==> reconstruction(
            Some(reference),
            matrix,
            features,
            alignment_start,
            read_length,
        ).unwrap().len() == read_length,
{
    lemma_walk_succeeds(reference, matrix, features, alignment_start, read_length, features.len());
    if cursor(features, alignment_start, features.len()).1 <= read_length + 1 {
        lemma_reconstruction_length(Some(reference), matrix, features, alignment_start, read_length);
    }
}

/// Walks over equal features with matrices of equal entries are equal.
proof fn lemma_walk_same_entries(
    reference: Option<Seq<u8>>,
    m1: SubstitutionMatrix,
    m2: SubstitutionMatrix,
    features: Seq<Feature>,
    alignment_start: int,
    k: nat,
)
    requires
        m1.entries() == m2.entries(),
    ensures
        walk(reference, m1, features, alignment_start, k) == walk(
            reference,
            m2,
            features,
            alignment_start,
            k,
        ),
    decreases k,
{
    if k > 0 {
        lemma_walk_same_entries(reference, m1, m2, features, alignment_start, (k - 1) as nat);
        let f = features[k - 1];
        if let Feature::Substitution { code, .. } = f {
            assert forall|b: Base| #[trigger] m1.spec_get(b, code) == m2.spec_get(b, code) by {}
        }
    }
}

/// Reconstruction is determined by its inputs: the same reference, matrix entries, features,
/// alignment start and read length always give the same result.
pub proof fn lemma_reconstruction_deterministic(
    reference: Option<Seq<u8>>,
    m1: SubstitutionMatrix,
    m2: SubstitutionMatrix,
    features: Seq<Feature>,
    alignment_start: int,
    read_length: int,
)
    requires
        m1.entries() == m2.entries(),
    ensures
        reconstruction(reference, m1, features, alignment_start, read_length) == reconstruction(
            reference,
            m2,
            features,
            alignment_start,
            read_length,
        ),
{
    lemma_walk_same_entries(reference, m1, m2, features, alignment_start, features.len());
}

/// Whether `a` is a prefix of `b`.
pub open spec fn is_prefix(a: Seq<u8>, b: Seq<u8>) -> bool {
    a.len() <= b.len() && b.subrange(0, a.len() as int) == a
}

/// A walk that succeeds over `j` features succeeded over the first `k`, and emitted a prefix of
/// what it emits over `j`.
proof fn lemma_walk_prefix(
    reference: Option<Seq<u8>>,
    matrix: SubstitutionMatrix,
    features: Seq<Feature>,
    alignment_start: int,
    k: nat,
    j: nat,
)
    requires
        k <= j,
        walk(reference, matrix, features, alignment_start, j) is Ok,
    ensures
        walk(reference, matrix, features, alignment_start, k) is Ok,
        is_prefix(
            walk(reference, matrix, features, alignment_start, k).unwrap().0,
            walk(reference, matrix, features, alignment_start, j).unwrap().0,
        ),
    decreases j - k,
{
    if k < j {
        if walk(reference, matrix, features, alignment_start, (j - 1) as nat) is Err {
            lemma_walk_failed(reference, matrix, features, alignment_start, (j - 1) as nat, j);
        }
        lemma_walk_prefix(reference, matrix, features, alignment_start, k, (j - 1) as nat);
        let a = walk(reference, matrix, features, alignment_start, k).unwrap().0;
        let b = walk(reference, matrix, features, alignment_start, (j - 1) as nat).unwrap().0;
        let c = walk(reference, matrix, features, alignment_start, j).unwrap().0;
        assert(c.subrange(0, b.len() as int) =~= b);
        assert(c.subrange(0, a.len() as int) =~= b.subrange(0, a.len() as int));
    } else {
        let a = walk(reference, matrix, features, alignment_start, k).unwrap().0;
        assert(a.subrange(0, a.len() as int) =~= a);
    }
}

/// The output of the last walk, over at most `k` features, that succeeded.
pub open spec fn last_walk_output(
    reference: Option<Seq<u8>>,
    matrix: SubstitutionMatrix,
    features: Seq<Feature>,
    alignment_start: int,
    k: nat,
) -> Seq<u8>
    decreases k,
{
    match walk(reference, matrix, features, alignment_start, k) {
        Ok((out, _, _)) => out,
        Err(_) => if k == 0 {
            Seq::empty()
        } else {
            last_walk_output(reference, matrix, features, alignment_start, (k - 1) as nat)
        },
    }
}

/// The bases that a lazy reconstruction hands out: the whole read when reconstruction
/// succeeds; otherwise those emitted before the feature, or the final copy, that fails.
pub open spec fn yielded(
    reference: Option<Seq<u8>>,
    matrix: SubstitutionMatrix,
    features: Seq<Feature>,
    alignment_start: int,
    read_length: int,
) -> Seq<u8> {
    if alignment_start < 1 {
        Seq::empty()
    } else {
        match walk(reference, matrix, features, alignment_start, features.len()) {
            Ok((out, r, q)) => match finish(reference, out, r, q, read_length) {
                Ok(full) => full,
                Err(_) => out,
            },
            Err(_) => last_walk_output(reference, matrix, features, alignment_start, features.len()),
        }
    }
}

/// What a successful walk emitted is a prefix of the last successful walk's output.
proof fn lemma_prefix_of_last(
    reference: Option<Seq<u8>>,
    matrix: SubstitutionMatrix,
    features: Seq<Feature>,
    alignment_start: int,
    k: nat,
    j: nat,
)
    requires
        k <= j,
        walk(reference, matrix, features, alignment_start, k) is Ok,
    ensures
        is_prefix(
            walk(reference, matrix, features, alignment_start, k).unwrap().0,
            last_walk_output(reference, matrix, features, alignment_start, j),
        ),
    decreases j - k,
{
    let a = walk(reference, matrix, features, alignment_start, k).unwrap().0;
    if j == k {
        assert(a.subrange(0, a.len() as int) =~= a);
    } else if walk(reference, matrix, features, alignment_start, j) is Ok {
        lemma_walk_prefix(reference, matrix, features, alignment_start, k, j);
    } else {
        lemma_prefix_of_last(reference, matrix, features, alignment_start, k, (j - 1) as nat);
    }
}

/// Once the walk fails at feature `k`, the last successful output is that of the first `k`.
proof fn lemma_last_after_failure(
    reference: Option<Seq<u8>>,
    matrix: SubstitutionMatrix,
    features: Seq<Feature>,
    alignment_start: int,
    k: nat,
    m: nat,
)
    requires
        k <= m,
        walk(reference, matrix, features, alignment_start, k) is Ok,
        walk(reference, matrix, features, alignment_start, k + 1) is Err,
    ensures
        last_walk_output(reference, matrix, features, alignment_start, m) == walk(
            reference,
            matrix,
            features,
            alignment_start,
            k,
        ).unwrap().0,
    decreases m - k,
{
    if k < m {
        lemma_walk_failed(reference, matrix, features, alignment_start, k + 1, m);
        lemma_last_after_failure(reference, matrix, features, alignment_start, k, (m - 1) as nat);
    }
}

/// What a successful walk over `k` features emitted is a prefix of what a lazy reconstruction
/// hands out.
proof fn lemma_prefix_of_yielded(
    reference: Option<Seq<u8>>,
    matrix: SubstitutionMatrix,
    features: Seq<Feature>,
    alignment_start: int,
    read_length: int,
    k: nat,
)
    requires
        alignment_start >= 1,
        k <= features.len(),
        walk(reference, matrix, features, alignment_start, k) is Ok,
    ensures
        is_prefix(
            walk(reference, matrix, features, alignment_start, k).unwrap().0,
            yielded(reference, matrix, features, alignment_start, read_length),
        ),
{
    let n = features.len();
    let a = walk(reference, matrix, features, alignment_start, k).unwrap().0;
    if walk(reference, matrix, features, alignment_start, n) is Ok {
        lemma_walk_prefix(reference, matrix, features, alignment_start, k, n);
        let (w, r, q) = walk(reference, matrix, features, alignment_start, n).unwrap();
        let y = yielded(reference, matrix, features, alignment_start, read_length);
        assert(y.subrange(0, w.len() as int) =~= w);
        assert(y.subrange(0, a.len() as int) =~= w.subrange(0, a.len() as int));
    } else {
        lemma_prefix_of_last(reference, matrix, features, alignment_start, k, n);
    }
}

/// When the walk fails at feature `k`, a lazy reconstruction hands out exactly what the first
/// `k` features emitted.
proof fn lemma_yielded_after_failure(
    reference: Option<Seq<u8>>,
    matrix: SubstitutionMatrix,
    features: Seq<Feature>,
    alignment_start: int,
    read_length: int,
    k: nat,
)
    requires
        alignment_start >= 1,
        k < features.len(),
        walk(reference, matrix, features, alignment_start, k) is Ok,
        walk(reference, matrix, features, alignment_start, k + 1) is Err,
    ensures
        walk(reference, matrix, features, alignment_start, features.len()) == walk(
            reference,
            matrix,
            features,
            alignment_start,
            k + 1,
        ),
        yielded(reference, matrix, features, alignment_start, read_length) == walk(
            reference,
            matrix,
            features,
            alignment_start,
            k,
        ).unwrap().0,
{
    lemma_walk_failed(reference, matrix, features, alignment_start, k + 1, features.len());
    lemma_last_after_failure(reference, matrix, features, alignment_start, k, features.len());
}

/// The bases a feature carries itself: those of a stretch, an insertion or a soft clip.
pub open spec fn carried_bases(f: Feature) -> Seq<u8> {
    match f {
        Feature::Bases { bases, .. } => bases@,
        Feature::Insertion { bases, .. } => bases@,
        Feature::SoftClip { bases, .. } => bases@,
        _ => Seq::empty(),
    }
}

/// The bases of the current feature still to be handed out.
#[derive(Clone, Copy, Debug, PartialEq, Eq, Structural)]
pub enum Pending {
    /// None.
    Nothing,
    /// One base.
    One(u8),
    /// The bases the feature at `feature` carries, from `index` on.
    Carried { feature: usize, index: usize },
}

/// Where a lazy reconstruction stands.
#[derive(Clone, Copy, Debug, PartialEq, Eq, Structural)]
pub enum State {
    /// The next feature is to be taken.
    Next,
    /// Reference bases `[from, to)` (0-based) are being copied; then the pending bases follow.
    Prepare { from: usize, to: usize, pending: Pending },
    /// The feature's own bases are being handed out.
    Emit(Pending),
    /// Reference bases `[from, to)` up to the end of the read are being copied.
    Finish { from: usize, to: usize },
    /// All bases have been handed out.
    Done,
    /// Reconstruction failed, and the error was handed out.
    Failed,
}

/// The bases that pending output stands for.
pub open spec fn pending_bases(features: Seq<Feature>, p: Pending) -> Seq<u8> {
    match p {
        Pending::Nothing => Seq::empty(),
        Pending::One(b) => seq![b],
        Pending::Carried { feature, index } => {
            let all = carried_bases(features[feature as int]);
            all.subrange(index as int, all.len() as int)
        },
    }
}

/// A lazy reconstruction of a read's bases, handed out one at a time.
pub struct Iter<'a> {
    reference_sequence: Option<&'a [u8]>,
    substitution_matrix: &'a SubstitutionMatrix,
    features: &'a [Feature],
    alignment_start: usize,
    read_length: usize,
    next_feature: usize,
    last_reference_position: usize,
    last_read_position: usize,
    state: State,
    emitted: Ghost<Seq<u8>>,
}

impl<'a> Iter<'a> {
    /// The bases handed out so far.
    pub closed spec fn emitted(&self) -> Seq<u8> {
        self.emitted@
    }

    /// The whole reconstruction that the bases come from.
    pub closed spec fn target(&self) -> Result<Seq<u8>, Error> {
        reconstruction(
            reference_view(self.reference_sequence),
            *self.substitution_matrix,
            self.features@,
            self.alignment_start as int,
            self.read_length as int,
        )
    }

    /// The bases the iterator hands out in all, before it ends or reports an error.
    pub closed spec fn yield_target(&self) -> Seq<u8> {
        yielded(
            reference_view(self.reference_sequence),
            *self.substitution_matrix,
            self.features@,
            self.alignment_start as int,
            self.read_length as int,
        )
    }

    /// Whether the iterator has handed out an error.
    pub closed spec fn failed(&self) -> bool {
        self.state is Failed
    }

    /// Whether the iterator has ended: it hands out nothing more.
    pub closed spec fn ended(&self) -> bool {
        self.state is Done || self.state is Failed
    }

    /// The reference bases `[from, to)`, none without a reference.
    closed spec fn copied(&self, from: usize, to: usize) -> Seq<u8> {
        match self.reference_sequence {
            Some(rs) => rs@.subrange(from as int, to as int),
            None => Seq::empty(),
        }
    }

    /// The bases still to come from the current state.
    closed spec fn remaining(&self) -> Seq<u8> {
        match self.state {
            State::Prepare { from, to, pending } => self.copied(from, to) + pending_bases(
                self.features@,
                pending,
            ),
            State::Emit(pending) => pending_bases(self.features@, pending),
            State::Finish { from, to } => self.copied(from, to),
            _ => Seq::empty(),
        }
    }

    /// Whether pending output is well formed.
    closed spec fn pending_wf(&self, p: Pending) -> bool {
        match p {
            Pending::Carried { feature, index } => feature < self.features@.len() && index
                <= carried_bases(self.features@[feature as int]).len(),
            _ => true,
        }
    }

    /// The iterator's invariant: what was handed out and what remains make up the walk so far,
    /// or the whole reconstruction once the features are used up.
    pub closed spec fn wf(&self) -> bool {
        let rv = reference_view(self.reference_sequence);
        let m = *self.substitution_matrix;
        let fs = self.features@;
        let k = self.next_feature as nat;
        &&& m.wf()
        &&& (self.alignment_start >= 1 || self.state is Failed || (self.state is Next
            && self.next_feature == 0 && self.emitted@ == Seq::<u8>::empty()))
        &&& (self.last_read_position >= 1 || self.state is Failed)
        &&& k <= fs.len()
        &&& match self.state {
            State::Next | State::Prepare { .. } | State::Emit(..) => walk(
                rv,
                m,
                fs,
                self.alignment_start as int,
                k,
            ) == Ok::<(Seq<u8>, int, int), Error>(
                (
                    self.emitted@ + self.remaining(),
                    self.last_reference_position as int,
                    self.last_read_position as int,
                ),
            ),
            State::Finish { .. } => self.target() == Ok::<Seq<u8>, Error>(
                self.emitted@ + self.remaining(),
            ),
            State::Done => self.target() == Ok::<Seq<u8>, Error>(self.emitted@),
            State::Failed => self.target() is Err && self.emitted@ == self.yield_target(),
        }
        &&& match self.state {
            State::Prepare { from, to, pending } => from <= to && self.pending_wf(pending) && match self.reference_sequence {
                Some(rs) => to <= rs@.len(),
                None => from == to,
            },
            State::Emit(pending) => self.pending_wf(pending),
            State::Finish { from, to } => from <= to && match self.reference_sequence {
                Some(rs) => to <= rs@.len(),
                None => from == to,
            },
            _ => true,
        }
    }

    /// Starts a lazy reconstruction; the inputs are those of [`reconstruct_sequence`].
    pub fn new(
        reference_sequence: Option<&'a [u8]>,
        substitution_matrix: &'a SubstitutionMatrix,
        features: &'a [Feature],
        alignment_start: usize,
        read_length: usize,
    ) -> (r: Iter<'a>)
        requires
            substitution_matrix.wf(),
        ensures
            r.wf(),
            !r.failed(),
            !r.ended(),
            r.emitted() == Seq::<u8>::empty(),
            r.yield_target() == yielded(
                reference_view(reference_sequence),
                *substitution_matrix,
                features@,
                alignment_start as int,
                read_length as int,
            ),
            r.target() == reconstruction(
                reference_view(reference_sequence),
                *substitution_matrix,
                features@,
                alignment_start as int,
                read_length as int,
            ),
    {
        let state: State = State::Next;
        let it = Iter {
            reference_sequence,
            substitution_matrix,
            features,
            alignment_start,
            read_length,
            next_feature: 0,
            last_reference_position: alignment_start,
            last_read_position: 1,
            state,
            emitted: Ghost(Seq::empty()),
        };
        proof {
            assert(Seq::<u8>::empty() + Seq::<u8>::empty() =~= Seq::<u8>::empty());
        }
        it
    }

    /// Takes the next feature: checks it, moves the cursors past it, and prepares the
    /// reference bases before it and its own bases.
    fn take_feature(&mut self) -> (r: Result<(), Error>)
        requires
            old(self).wf(),
            old(self).state is Next,
            old(self).next_feature < old(self).features@.len(),
            old(self).alignment_start >= 1,
        ensures
            final(self).target() == old(self).target(),
            final(self).yield_target() == old(self).yield_target(),
            r is Err ==> old(self).emitted() == old(self).yield_target(),
            final(self).emitted() == old(self).emitted(),
            r is Ok ==> final(self).wf() && final(self).state is Prepare && final(self).next_feature
                == old(self).next_feature + 1,
            r matches Err(e) ==> old(self).target() == Err::<Seq<u8>, Error>(e),
            r is Err ==> *final(self) == *old(self),
            final(self).features == old(self).features,
    {
        let ghost rv = reference_view(self.reference_sequence);
        let ghost m = *self.substitution_matrix;
        let ghost fs = self.features@;
        let k: usize = self.next_feature;
        let feature: &Feature = &self.features[k];
        let p: usize = feature.position();
        let q: usize = self.last_read_position;
        let r: usize = self.last_reference_position;
        let ghost out = self.emitted@;
        proof {
            assert(self.emitted@ + Seq::<u8>::empty() =~= self.emitted@);
            assert(walk(rv, m, fs, self.alignment_start as int, (k + 1) as nat) == apply_feature(
                rv,
                m,
                fs[k as int],
                out,
                r as int,
                q as int,
            ));
        }
        let ghost start = self.alignment_start as int;
        let ghost n = fs.len();
        if p < q || r > usize::MAX - (p - q) {
            proof {
                lemma_yielded_after_failure(rv, m, fs, start, self.read_length as int, k as nat);
            }
            return Err(Error::InvalidData);
        }
        let r1: usize = r + (p - q);
        let (from, to): (usize, usize) = match self.reference_sequence {
            Some(rs) => {
                if r < 1 || r1 - 1 > rs.len() {
                    proof {
                        lemma_yielded_after_failure(rv, m, fs, start, self.read_length as int, k as nat);
                    }
                    return Err(Error::InvalidData);
                }
                (r - 1, r1 - 1)
            },
            None => {
                if p != q {
                    proof {
                        lemma_yielded_after_failure(rv, m, fs, start, self.read_length as int, k as nat);
                    }
                    return Err(Error::MissingReferenceSequence);
                }
                (0, 0)
            },
        };
        let pending: Pending = match feature {
            Feature::Bases { .. } | Feature::Insertion { .. } | Feature::SoftClip { .. } => {
                Pending::Carried { feature: k, index: 0 }
            },
            Feature::ReadBase { base, .. } | Feature::InsertBase { base, .. } => Pending::One(*base),
            Feature::Substitution { code, .. } => match self.reference_sequence {
                None => {
                    proof {
                        lemma_yielded_after_failure(rv, m, fs, start, self.read_length as int, k as nat);
                    }
                    return Err(Error::MissingReferenceSequence);
                },
                Some(rs) => {
                    if r1 < 1 || r1 > rs.len() {
                        proof {
                            lemma_yielded_after_failure(rv, m, fs, start, self.read_length as int, k as nat);
                        }
                        return Err(Error::InvalidData);
                    }
                    match substitute(self.substitution_matrix, rs[r1 - 1], *code) {
                        Ok(b) => Pending::One(b),
                        Err(e) => {
                            proof {
                                lemma_yielded_after_failure(rv, m, fs, start, self.read_length as int, k as nat);
                            }
                            return Err(e);
                        },
                    }
                },
            },
            _ => Pending::Nothing,
        };
        let (dr, dq): (usize, usize) = feature.advance();
        if r1 > usize::MAX - dr || p > usize::MAX - dq {
            proof {
                lemma_yielded_after_failure(rv, m, fs, start, self.read_length as int, k as nat);
            }
            return Err(Error::InvalidData);
        }
        self.last_reference_position = r1 + dr;
        self.last_read_position = p + dq;
        self.next_feature = k + 1;
        self.state = State::Prepare { from, to, pending };
        proof {
            let c = if rv is Some {
                reference_bases(rv, r as int, r1 as int).unwrap()
            } else {
                Seq::<u8>::empty()
            };
            assert(self.copied(from, to) =~= c);
            let b = feature_bases(rv, m, fs[k as int], r1 as int).unwrap();
            assert(pending_bases(fs, pending) =~= b);
            assert(out + c + b =~= self.emitted@ + self.remaining());
        }
        Ok(())
    }

    /// Once the features are used up: prepares the reference bases up to the end of the read.
    fn start_finish(&mut self) -> (r: Result<(), Error>)
        requires
            old(self).wf(),
            old(self).state is Next,
            old(self).next_feature == old(self).features@.len(),
            old(self).alignment_start >= 1,
        ensures
            final(self).target() == old(self).target(),
            final(self).yield_target() == old(self).yield_target(),
            r is Err ==> old(self).emitted() == old(self).yield_target(),
            final(self).emitted() == old(self).emitted(),
            r is Ok ==> final(self).wf() && (final(self).state is Finish || final(self).state is Done),
            r matches Err(e) ==> old(self).target() == Err::<Seq<u8>, Error>(e),
            r is Err ==> *final(self) == *old(self),
            final(self).features == old(self).features,
    {
        let q: usize = self.last_read_position;
        let r: usize = self.last_reference_position;
        proof {
            assert(self.emitted@ + Seq::<u8>::empty() =~= self.emitted@);
        }
        match self.reference_sequence {
            Some(rs) => {
                if q > self.read_length {
                    self.state = State::Done;
                    return Ok(());
                }
                let len: usize = self.read_length - q + 1;
                if r > usize::MAX - len {
                    return Err(Error::InvalidData);
                }
                let end: usize = r + len;
                if r < 1 || end - 1 > rs.len() {
                    return Err(Error::InvalidData);
                }
                self.state = State::Finish { from: r - 1, to: end - 1 };
                Ok(())
            },
            None => {
                if q - 1 != self.read_length {
                    return Err(Error::MissingReferenceSequence);
                }
                self.state = State::Done;
                Ok(())
            },
        }
    }

    /// Copies one reference base before a feature, or moves on to the feature's own bases.
    fn step_prepare(&mut self) -> (r: Option<u8>)
        requires
            old(self).wf(),
            old(self).state is Prepare,
        ensures
            final(self).wf(),
            final(self).target() == old(self).target(),
            final(self).features == old(self).features,
            final(self).next_feature == old(self).next_feature,
            !final(self).ended(),
            final(self).yield_target() == old(self).yield_target(),
            match r {
                Some(b) => final(self).emitted() == old(self).emitted().push(b),
                None => final(self).emitted() == old(self).emitted() && final(self).state is Emit,
            },
    {
        let (from, to, pending): (usize, usize, Pending) = match self.state {
            State::Prepare { from, to, pending } => (from, to, pending),
            _ => (0, 0, Pending::Nothing),
        };
        if from < to {
            match self.reference_sequence {
                Some(rs) => {
                    let b: u8 = rs[from];
                    let ghost before = self.emitted@;
                    let ghost old_rest = self.remaining();
                    proof {
                        assert(self.copied(from, to) =~= seq![b] + rs@.subrange(from + 1, to as int));
                        self.emitted@ = self.emitted@.push(b);
                    }
                    self.state = State::Prepare { from: from + 1, to, pending };
                    proof {
                        assert(old_rest =~= seq![b] + self.remaining());
                        assert(self.emitted@ + self.remaining() =~= before + old_rest);
                    }
                    return Some(b);
                },
                None => {},
            }
        }
        proof {
            assert(self.copied(from, to) =~= Seq::<u8>::empty());
            assert(Seq::<u8>::empty() + pending_bases(self.features@, pending) =~= pending_bases(
                self.features@,
                pending,
            ));
        }
        self.state = State::Emit(pending);
        None
    }

    /// Hands out one of the feature's own bases, or moves on to the next feature.
    fn step_emit(&mut self) -> (r: Option<u8>)
        requires
            old(self).wf(),
            old(self).state is Emit,
        ensures
            final(self).wf(),
            final(self).target() == old(self).target(),
            final(self).features == old(self).features,
            final(self).next_feature == old(self).next_feature,
            !final(self).ended(),
            final(self).yield_target() == old(self).yield_target(),
            match r {
                Some(b) => final(self).emitted() == old(self).emitted().push(b),
                None => final(self).emitted() == old(self).emitted() && final(self).state is Next,
            },
    {
        let pending: Pending = match self.state {
            State::Emit(pending) => pending,
            _ => Pending::Nothing,
        };
        let ghost before = self.emitted@;
        match pending {
            Pending::Nothing => {
                self.state = State::Next;
                None
            },
            Pending::One(b) => {
                proof {
                    self.emitted@ = self.emitted@.push(b);
                }
                self.state = State::Next;
                proof {
                    assert(self.emitted@ + Seq::<u8>::empty() =~= before + seq![b]);
                }
                Some(b)
            },
            Pending::Carried { feature, index } => {
                let bases: &[u8] = match &self.features[feature] {
                    Feature::Bases { bases, .. } => bases.as_slice(),
                    Feature::Insertion { bases, .. } => bases.as_slice(),
                    Feature::SoftClip { bases, .. } => bases.as_slice(),
                    _ => &[],
                };
                assert(bases@ == carried_bases(self.features@[feature as int]));
                if index < bases.len() {
                    let b: u8 = bases[index];
                    proof {
                        self.emitted@ = self.emitted@.push(b);
                    }
                    self.state = State::Emit(Pending::Carried { feature, index: index + 1 });
                    proof {
                        assert(bases@.subrange(index as int, bases@.len() as int) =~= seq![b]
                            + bases@.subrange(index + 1, bases@.len() as int));
                        assert(self.emitted@ + self.remaining() =~= before + (seq![b] + self.remaining()));
                    }
                    return Some(b);
                }
                proof {
                    assert(bases@.subrange(index as int, bases@.len() as int) =~= Seq::<u8>::empty());
                }
                self.state = State::Next;
                None
            },
        }
    }

    /// Copies one reference base up to the end of the read, or finishes.
    fn step_finish(&mut self) -> (r: Option<u8>)
        requires
            old(self).wf(),
            old(self).state is Finish,
        ensures
            final(self).wf(),
            final(self).target() == old(self).target(),
            final(self).features == old(self).features,
            final(self).yield_target() == old(self).yield_target(),
            !final(self).failed(),
            r is Some <==> !final(self).ended(),
            match r {
                Some(b) => final(self).emitted() == old(self).emitted().push(b),
                None => final(self).emitted() == old(self).emitted() && old(self).target() == Ok::<
                    Seq<u8>,
                    Error,
                >(old(self).emitted()),
            },
    {
        let (from, to): (usize, usize) = match self.state {
            State::Finish { from, to } => (from, to),
            _ => (0, 0),
        };
        if from < to {
            match self.reference_sequence {
                Some(rs) => {
                    let b: u8 = rs[from];
                    let ghost before = self.emitted@;
                    proof {
                        assert(self.copied(from, to) =~= seq![b] + rs@.subrange(from + 1, to as int));
                        self.emitted@ = self.emitted@.push(b);
                    }
                    self.state = State::Finish { from: from + 1, to };
                    proof {
                        assert(self.emitted@ + self.remaining() =~= before + (seq![b] + self.remaining()));
                    }
                    return Some(b);
                },
                None => {},
            }
        }
        proof {
            assert(self.copied(from, to) =~= Seq::<u8>::empty());
            assert(self.emitted@ + Seq::<u8>::empty() =~= self.emitted@);
        }
        self.state = State::Done;
        None
    }

    /// The bases handed out so far are a prefix of all the iterator hands out; that is the
    /// whole reconstruction when it succeeds, and then the iterator has not failed. Once it has
    /// failed, all it hands out has been handed out, and reconstruction fails.
    pub proof fn lemma_emitted_prefix(&self)
        requires
            self.wf(),
        ensures
            is_prefix(self.emitted(), self.yield_target()),
            self.target() matches Ok(full) ==> self.yield_target() == full && is_prefix(
                self.emitted(),
                full,
            ) && !self.failed(),
            self.failed() ==> self.target() is Err && self.emitted() == self.yield_target(),
    {
        let rv = reference_view(self.reference_sequence);
        let m = *self.substitution_matrix;
        let fs = self.features@;
        let start = self.alignment_start as int;
        let rl = self.read_length as int;
        let e = self.emitted@;
        let y = self.yield_target();
        match self.state {
            State::Next | State::Prepare { .. } | State::Emit(..) => {
                if start >= 1 {
                    lemma_prefix_of_yielded(rv, m, fs, start, rl, self.next_feature as nat);
                    let w = walk(rv, m, fs, start, self.next_feature as nat).unwrap().0;
                    let here = e + self.remaining();
                    assert(here.subrange(0, e.len() as int) =~= e);
                    assert(y.subrange(0, e.len() as int) =~= w.subrange(0, e.len() as int));
                } else {
                    assert(y.subrange(0, 0) =~= e);
                }
            },
            State::Finish { .. } => {
                assert(y.subrange(0, e.len() as int) =~= e);
            },
            State::Done => {
                assert(y.subrange(0, e.len() as int) =~= e);
            },
            State::Failed => {
                assert(y.subrange(0, e.len() as int) =~= e);
            },
        }
    }

    /// How far the iterator is from handing out a base or finishing.
    closed spec fn steps_left(&self) -> int {
        let n = self.features@.len() as int;
        let k = self.next_feature as int;
        match self.state {
            State::Next => 3 * (n - k) + 2,
            State::Emit(..) => 3 * (n - k) + 3,
            State::Prepare { .. } => 3 * (n - k) + 4,
            State::Finish { .. } => 1,
            _ => 0,
        }
    }

    /// Hands out the next base of the reconstruction; or, where it fails, its error, once,
    /// after the bases before the failing feature or copy; then nothing, ever after.
    pub fn next(&mut self) -> (r: Option<Result<u8, Error>>)
        requires
            old(self).wf(),
        ensures
            final(self).wf(),
            final(self).target() == old(self).target(),
            final(self).yield_target() == old(self).yield_target(),
            old(self).ended() ==> r is None && final(self).ended() && final(self).failed() == old(
                self,
            ).failed(),
            match r {
                Some(Ok(b)) => final(self).emitted() == old(self).emitted().push(b) && !old(
                    self,
                ).ended() && !final(self).ended() && !final(self).failed(),
                Some(Err(e)) => final(self).emitted() == old(self).emitted() && old(self).target()
                    == Err::<Seq<u8>, Error>(e) && old(self).emitted() == old(self).yield_target()
                    && !old(self).ended() && final(self).failed() && final(self).ended(),
                None => final(self).emitted() == old(self).emitted() && final(self).ended()
                    && final(self).failed() == old(self).failed() && (old(self).failed() || old(
                    self,
                ).target() == Ok::<Seq<u8>, Error>(old(self).emitted())),
            },
    {
        loop
            invariant
                self.wf(),
                self.target() == old(self).target(),
                self.emitted() == old(self).emitted(),
                self.failed() == old(self).failed(),
                self.ended() == old(self).ended(),
                self.yield_target() == old(self).yield_target(),
                self.features == old(self).features,
            decreases self.steps_left(),
        {
            match self.state {
                State::Next => {
                    if self.alignment_start < 1 {
                        self.state = State::Failed;
                        return Some(Err(Error::InvalidData));
                    }
                    if self.next_feature < self.features.len() {
                        match self.take_feature() {
                            Ok(()) => {},
                            Err(e) => {
                                self.state = State::Failed;
                                return Some(Err(e));
                            },
                        }
                    } else {
                        match self.start_finish() {
                            Ok(()) => {
                                if let State::Done = self.state {
                                    return None;
                                }
                            },
                            Err(e) => {
                                self.state = State::Failed;
                                return Some(Err(e));
                            },
                        }
                    }
                },
                State::Prepare { .. } => {
                    if let Some(b) = self.step_prepare() {
                        return Some(Ok(b));
                    }
                },
                State::Emit(..) => {
                    if let Some(b) = self.step_emit() {
                        return Some(Ok(b));
                    }
                },
                State::Finish { .. } => {
                    return match self.step_finish() {
                        Some(b) => Some(Ok(b)),
                        None => None,
                    };
                },
                State::Done => return None,
                State::Failed => return None,
            }
        }
    }
}

} // verus!
