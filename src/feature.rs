//! Record features: positional edits that say how a read differs from, or extends, the
//! reference.
use vstd::prelude::*;

verus! {

/// An edit anchored at a 1-based read position.
#[derive(Clone, Debug, PartialEq, Eq)]
pub enum Feature {
    /// A stretch of read bases.
    Bases { position: usize, bases: Vec<u8> },
    /// A stretch of quality scores.
    Scores { position: usize, quality_scores: Vec<u8> },
    /// A read base and its quality score, in place of a reference base.
    ReadBase { position: usize, base: u8, quality_score: u8 },
    /// A reference base replaced by the alternate of rank `code` in the substitution matrix.
    Substitution { position: usize, code: u8 },
    /// Bases inserted into the read.
    Insertion { position: usize, bases: Vec<u8> },
    /// Reference bases missing from the read.
    Deletion { position: usize, len: usize },
    /// One base inserted into the read.
    InsertBase { position: usize, base: u8 },
    /// A quality score.
    QualityScore { position: usize, quality_score: u8 },
    /// A reference region skipped over.
    ReferenceSkip { position: usize, len: usize },
    /// Read bases left out of the alignment.
    SoftClip { position: usize, bases: Vec<u8> },
    /// Padding.
    Padding { position: usize, len: usize },
    /// Read bases removed from the record.
    HardClip { position: usize, len: usize },
}

/// The read position of a feature.
pub open spec fn feature_position(f: Feature) -> int {
    match f {
        Feature::Bases { position, .. } => position as int,
        Feature::Scores { position, .. } => position as int,
        Feature::ReadBase { position, .. } => position as int,
        Feature::Substitution { position, .. } => position as int,
        Feature::Insertion { position, .. } => position as int,
        Feature::Deletion { position, .. } => position as int,
        Feature::InsertBase { position, .. } => position as int,
        Feature::QualityScore { position, .. } => position as int,
        Feature::ReferenceSkip { position, .. } => position as int,
        Feature::SoftClip { position, .. } => position as int,
        Feature::Padding { position, .. } => position as int,
        Feature::HardClip { position, .. } => position as int,
    }
}

/// How far a feature moves the reference and the read positions.
pub open spec fn feature_advance(f: Feature) -> (int, int) {
    match f {
        Feature::Bases { bases, .. } => (bases@.len() as int, bases@.len() as int),
        Feature::ReadBase { .. } => (1, 1),
        Feature::Substitution { .. } => (1, 1),
        Feature::Insertion { bases, .. } => (0, bases@.len() as int),
        Feature::SoftClip { bases, .. } => (0, bases@.len() as int),
        Feature::Deletion { len, .. } => (len as int, 0),
        Feature::ReferenceSkip { len, .. } => (len as int, 0),
        Feature::InsertBase { .. } => (0, 1),
        _ => (0, 0),
    }
}

impl Feature {
    /// The read position of the feature.
    pub fn position(&self) -> (r: usize)
        ensures
            r == feature_position(*self),
    {
        match self {
            Feature::Bases { position, .. } => *position,
            Feature::Scores { position, .. } => *position,
            Feature::ReadBase { position, .. } => *position,
            Feature::Substitution { position, .. } => *position,
            Feature::Insertion { position, .. } => *position,
            Feature::Deletion { position, .. } => *position,
            Feature::InsertBase { position, .. } => *position,
            Feature::QualityScore { position, .. } => *position,
            Feature::ReferenceSkip { position, .. } => *position,
            Feature::SoftClip { position, .. } => *position,
            Feature::Padding { position, .. } => *position,
            Feature::HardClip { position, .. } => *position,
        }
    }

    /// How far the feature moves the reference and the read positions.
    pub fn advance(&self) -> (r: (usize, usize))
        ensures
            r.0 == feature_advance(*self).0,
            r.1 == feature_advance(*self).1,
    {
        match self {
            Feature::Bases { bases, .. } => (bases.len(), bases.len()),
            Feature::ReadBase { .. } => (1, 1),
            Feature::Substitution { .. } => (1, 1),
            Feature::Insertion { bases, .. } => (0, bases.len()),
            Feature::SoftClip { bases, .. } => (0, bases.len()),
            Feature::Deletion { len, .. } => (*len, 0),
            Feature::ReferenceSkip { len, .. } => (*len, 0),
            Feature::InsertBase { .. } => (0, 1),
            _ => (0, 0),
        }
    }
}

} // verus!
