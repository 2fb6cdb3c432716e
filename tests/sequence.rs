use cram::error::Error;
use cram::feature::Feature;
use cram::sequence::{reconstruct_sequence, Iter};
use cram::substitution_matrix::{Base, SubstitutionMatrix};

const REFERENCE: &[u8] = b"ACGTACGTAC";

fn matrix() -> SubstitutionMatrix {
    SubstitutionMatrix::default()
}

#[test]
fn without_features_the_reference_is_copied() {
    let actual = reconstruct_sequence(Some(REFERENCE), &matrix(), &[], 1, 5);
    assert_eq!(actual, Ok(b"ACGTA".to_vec()));

    let actual = reconstruct_sequence(Some(REFERENCE), &matrix(), &[], 3, 4);
    assert_eq!(actual, Ok(b"GTAC".to_vec()));
}

#[test]
fn substitution_uses_the_matrix_and_the_reference_case() {
    let features = [Feature::Substitution { position: 2, code: 0 }];
    let actual = reconstruct_sequence(Some(REFERENCE), &matrix(), &features, 1, 5);
    assert_eq!(actual, Ok(b"AAGTA".to_vec()));

    let features = [Feature::Substitution { position: 2, code: 2 }];
    let actual = reconstruct_sequence(Some(b"acgtacgtac"), &matrix(), &features, 1, 5);
    assert_eq!(actual, Ok(b"atgta".to_vec()));
}

#[test]
fn insertion_deletion_and_soft_clip() {
    let features = [Feature::Insertion { position: 3, bases: b"TT".to_vec() }];
    let actual = reconstruct_sequence(Some(REFERENCE), &matrix(), &features, 1, 5);
    assert_eq!(actual, Ok(b"ACTTG".to_vec()));

    let features = [Feature::Deletion { position: 3, len: 2 }];
    let actual = reconstruct_sequence(Some(REFERENCE), &matrix(), &features, 1, 5);
    assert_eq!(actual, Ok(b"ACACG".to_vec()));

    let features = [Feature::SoftClip { position: 1, bases: b"NN".to_vec() }];
    let actual = reconstruct_sequence(Some(REFERENCE), &matrix(), &features, 1, 4);
    assert_eq!(actual, Ok(b"NNAC".to_vec()));
}

#[test]
fn read_base_insert_base_and_scores() {
    let features = [
        Feature::ReadBase { position: 1, base: b'N', quality_score: 30 },
        Feature::QualityScore { position: 2, quality_score: 8 },
        Feature::InsertBase { position: 3, base: b'G' },
        Feature::HardClip { position: 4, len: 9 },
    ];
    let actual = reconstruct_sequence(Some(REFERENCE), &matrix(), &features, 1, 5);
    assert_eq!(actual, Ok(b"NCGGT".to_vec()));
}

#[test]
fn reconstruction_has_the_read_length() {
    let features = [
        Feature::Substitution { position: 2, code: 1 },
        Feature::Insertion { position: 4, bases: b"A".to_vec() },
        Feature::Deletion { position: 6, len: 1 },
    ];
    let actual = reconstruct_sequence(Some(REFERENCE), &matrix(), &features, 2, 8).unwrap();
    assert_eq!(actual.len(), 8);
    assert_eq!(actual, b"CCTAAGTA".to_vec());
}

#[test]
fn reconstruction_is_deterministic() {
    let features = [
        Feature::Substitution { position: 3, code: 1 },
        Feature::Bases { position: 5, bases: b"TT".to_vec() },
    ];
    let a = reconstruct_sequence(Some(REFERENCE), &matrix(), &features, 1, 8);
    let b = reconstruct_sequence(Some(REFERENCE), &matrix(), &features, 1, 8);
    assert_eq!(a, b);
    assert_eq!(a, Ok(b"ACCTTTGT".to_vec()));
}

#[test]
fn substitution_without_reference_is_an_error() {
    let features = [Feature::Substitution { position: 1, code: 0 }];
    let actual = reconstruct_sequence(None, &matrix(), &features, 1, 1);
    assert_eq!(actual, Err(Error::MissingReferenceSequence));
}

#[test]
fn reference_free_reads_need_bases_for_every_position() {
    let features = [Feature::Bases { position: 1, bases: b"ACGT".to_vec() }];
    let actual = reconstruct_sequence(None, &matrix(), &features, 7, 4);
    assert_eq!(actual, Ok(b"ACGT".to_vec()));

    let actual = reconstruct_sequence(None, &matrix(), &[], 7, 3);
    assert_eq!(actual, Err(Error::MissingReferenceSequence));
}

#[test]
fn malformed_features_are_invalid_data() {
    // features out of read order
    let features = [
        Feature::InsertBase { position: 3, base: b'A' },
        Feature::InsertBase { position: 2, base: b'A' },
    ];
    let actual = reconstruct_sequence(Some(REFERENCE), &matrix(), &features, 1, 5);
    assert_eq!(actual, Err(Error::InvalidData));

    // a reference too short for the read
    let actual = reconstruct_sequence(Some(REFERENCE), &matrix(), &[], 8, 5);
    assert_eq!(actual, Err(Error::InvalidData));

    // a substitution code outside the matrix
    let features = [Feature::Substitution { position: 1, code: 3 }];
    let actual = reconstruct_sequence(Some(REFERENCE), &matrix(), &features, 1, 2);
    assert_eq!(actual, Err(Error::InvalidData));

    // a substitution of a base the matrix has no row for
    let features = [Feature::Substitution { position: 1, code: 0 }];
    let actual = reconstruct_sequence(Some(b"NNNN"), &matrix(), &features, 1, 2);
    assert_eq!(actual, Err(Error::InvalidData));
}

#[test]
fn substitution_matrix_rejects_bad_rows() {
    let valid = vec![Base::T, Base::G, Base::C, Base::T, Base::G, Base::A, Base::A, Base::C, Base::T, Base::A, Base::C, Base::G];
    let m = SubstitutionMatrix::new(valid).unwrap();
    assert_eq!(m.get(Base::A, 0), Some(Base::T));
    assert_eq!(m.get(Base::C, 2), Some(Base::A));
    assert_eq!(m.get(Base::A, 3), None);

    let to_itself = vec![Base::A, Base::G, Base::T, Base::A, Base::G, Base::T, Base::A, Base::C, Base::T, Base::A, Base::C, Base::G];
    assert!(SubstitutionMatrix::new(to_itself).is_err());

    let repeated = vec![Base::C, Base::C, Base::T, Base::A, Base::G, Base::T, Base::A, Base::C, Base::T, Base::A, Base::C, Base::G];
    assert!(SubstitutionMatrix::new(repeated).is_err());

    assert!(SubstitutionMatrix::new(vec![Base::C, Base::G, Base::T]).is_err());
}

fn drain(mut iter: Iter<'_>) -> (Vec<u8>, Option<Error>) {
    let mut bases = Vec::new();
    loop {
        match iter.next() {
            Some(Ok(b)) => bases.push(b),
            Some(Err(e)) => {
                assert_eq!(iter.next(), None);
                return (bases, Some(e));
            }
            None => {
                assert_eq!(iter.next(), None);
                return (bases, None);
            }
        }
    }
}

#[test]
fn lazy_bases_match_the_reconstruction() {
    let m = matrix();
    let cases: Vec<(Option<&[u8]>, Vec<Feature>, usize, usize)> = vec![
        (Some(REFERENCE), vec![], 1, 5),
        (Some(REFERENCE), vec![Feature::Substitution { position: 2, code: 0 }], 1, 5),
        (Some(REFERENCE), vec![Feature::Insertion { position: 3, bases: b"TT".to_vec() }], 1, 5),
        (
            Some(REFERENCE),
            vec![
                Feature::Substitution { position: 2, code: 1 },
                Feature::Insertion { position: 4, bases: b"A".to_vec() },
                Feature::Deletion { position: 6, len: 1 },
            ],
            2,
            8,
        ),
        (None, vec![Feature::Bases { position: 1, bases: b"ACGT".to_vec() }], 7, 4),
    ];
    for (reference, features, start, len) in cases {
        let expected = reconstruct_sequence(reference, &m, &features, start, len).unwrap();
        let (bases, error) = drain(Iter::new(reference, &m, &features, start, len));
        assert_eq!(bases, expected);
        assert_eq!(error, None);
    }
}

#[test]
fn lazy_bases_stop_at_the_error() {
    let m = matrix();
    // the reference ends before the read does: bases up to the missing stretch come first
    let features = [Feature::InsertBase { position: 2, base: b'G' }];
    let (bases, error) = drain(Iter::new(Some(b"ACG"), &m, &features, 1, 8));
    assert_eq!(bases, b"AG");
    assert_eq!(error, Some(Error::InvalidData));

    let features = [Feature::Substitution { position: 1, code: 0 }];
    let (bases, error) = drain(Iter::new(None, &m, &features, 1, 1));
    assert!(bases.is_empty());
    assert_eq!(error, Some(Error::MissingReferenceSequence));
}

#[test]
fn lazy_bases_of_a_deletion_then_nothing() {
    let m = matrix();
    let features = [Feature::Deletion { position: 3, len: 2 }];
    let mut iter = Iter::new(Some(b"ACGTACGT"), &m, &features, 1, 6);
    let mut bases = Vec::new();
    for _ in 0..6 {
        match iter.next() {
            Some(Ok(b)) => bases.push(b),
            other => panic!("unexpected {:?}", other),
        }
    }
    assert_eq!(bases, b"ACACGT");
    assert_eq!(iter.next(), None);
    assert_eq!(iter.next(), None);
}

#[test]
fn lazy_reconstruction_reports_a_bad_start_and_a_bad_reference_base() {
    let m = matrix();
    let (bases, error) = drain(Iter::new(Some(REFERENCE), &m, &[], 0, 3));
    assert!(bases.is_empty());
    assert_eq!(error, Some(Error::InvalidData));

    let features = [Feature::Substitution { position: 2, code: 0 }];
    // the feature is checked before the reference bases in front of it are handed out
    let (bases, error) = drain(Iter::new(Some(b"ANGT"), &m, &features, 1, 4));
    assert!(bases.is_empty());
    assert_eq!(error, Some(Error::InvalidData));
}
