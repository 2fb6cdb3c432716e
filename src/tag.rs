//! Tags of the auxiliary data fields of alignment records.
use vstd::prelude::*;

verus! {

/// The length of a tag.
pub const LENGTH: usize = 2;

/// A tag outside the standard set: a letter, then a letter or digit.
#[derive(Clone, Copy, Debug, Eq, Hash, Ord, PartialEq, PartialOrd)]
pub struct Other(pub [u8; 2]);

/// An auxiliary data field tag: one of the standard tags, or another.
#[derive(Clone, Copy, Debug, Eq, Hash, Ord, PartialEq, PartialOrd)]
pub enum Tag {
    MinMappingQuality,
    AlignmentScore,
    SampleBarcodeSequence,
    BaseAlignmentQualityOffsets,
    OriginalUmiQualityScores,
    CellBarcodeId,
    NextHitReferenceSequenceName,
    Cigar,
    ColorEditDistance,
    Comment,
    NextHitPosition,
    ColorQualityScores,
    CellBarcodeSequence,
    ColorSequence,
    CompleteReadAnnotations,
    CellBarcodeQualityScores,
    NextHitSequence,
    SegmentIndex,
    SegmentSuffix,
    AlternativeSequence,
    ReservedGc,
    ReservedGq,
    ReservedGs,
    PerfectHitCount,
    OneDifferenceHitCount,
    TwoDifferenceHitCount,
    HitIndex,
    TotalHitCount,
    Library,
    MateCigar,
    MismatchedPositions,
    ReservedMf,
    UmiId,
    BaseModificationProbabilities,
    BaseModifications,
    BaseModificationSequenceLength,
    MateMappingQuality,
    AlignmentHitCount,
    EditDistance,
    OriginalAlignment,
    OriginalCigar,
    OriginalPosition,
    OriginalQualityScores,
    OriginalUmiBarcodeSequence,
    Program,
    TemplateLikelihood,
    PaddedReadAnnotations,
    PlatformUnit,
    MateQualityScores,
    SampleBarcodeQualityScores,
    UmiQualityScores,
    MateSequence,
    ReadGroup,
    ReservedRt,
    UmiSequence,
    ReservedS2,
    OtherAlignments,
    TemplateMappingQuality,
    ReservedSq,
    SegmentCount,
    TranscriptStrand,
    NextHitQualityScores,
    SegmentLikelihood,
    /// A non-standard tag.
    Other(Other),
}

/// Why text is not a tag.
#[derive(Clone, Debug, Eq, PartialEq)]
pub enum ParseError {
    /// The input is empty.
    Empty,
    /// The input is not two characters long.
    InvalidLength(usize),
    /// A character cannot stand where it does.
    InvalidCharacter(char),
}

/// The two characters of a tag.
pub open spec fn tag_bytes(tag: Tag) -> (u8, u8) {
    match tag {
        Tag::MinMappingQuality => (0x41, 0x4d),
        Tag::AlignmentScore => (0x41, 0x53),
        Tag::SampleBarcodeSequence => (0x42, 0x43),
        Tag::BaseAlignmentQualityOffsets => (0x42, 0x51),
        Tag::OriginalUmiQualityScores => (0x42, 0x5a),
        Tag::CellBarcodeId => (0x43, 0x42),
        Tag::NextHitReferenceSequenceName => (0x43, 0x43),
        Tag::Cigar => (0x43, 0x47),
        Tag::ColorEditDistance => (0x43, 0x4d),
        Tag::Comment => (0x43, 0x4f),
        Tag::NextHitPosition => (0x43, 0x50),
        Tag::ColorQualityScores => (0x43, 0x51),
        Tag::CellBarcodeSequence => (0x43, 0x52),
        Tag::ColorSequence => (0x43, 0x53),
        Tag::CompleteReadAnnotations => (0x43, 0x54),
        Tag::CellBarcodeQualityScores => (0x43, 0x59),
        Tag::NextHitSequence => (0x45, 0x32),
        Tag::SegmentIndex => (0x46, 0x49),
        Tag::SegmentSuffix => (0x46, 0x53),
        Tag::AlternativeSequence => (0x46, 0x5a),
        Tag::ReservedGc => (0x47, 0x43),
        Tag::ReservedGq => (0x47, 0x51),
        Tag::ReservedGs => (0x47, 0x53),
        Tag::PerfectHitCount => (0x48, 0x4f),
        Tag::OneDifferenceHitCount => (0x48, 0x31),
        Tag::TwoDifferenceHitCount => (0x48, 0x32),
        Tag::HitIndex => (0x48, 0x49),
        Tag::TotalHitCount => (0x49, 0x48),
        Tag::Library => (0x4c, 0x42),
        Tag::MateCigar => (0x4d, 0x43),
        Tag::MismatchedPositions => (0x4d, 0x44),
        Tag::ReservedMf => (0x4d, 0x46),
        Tag::UmiId => (0x4d, 0x49),
        Tag::BaseModificationProbabilities => (0x4d, 0x4c),
        Tag::BaseModifications => (0x4d, 0x4d),
        Tag::BaseModificationSequenceLength => (0x4d, 0x4e),
        Tag::MateMappingQuality => (0x4d, 0x51),
        Tag::AlignmentHitCount => (0x4e, 0x48),
        Tag::EditDistance => (0x4e, 0x4d),
        Tag::OriginalAlignment => (0x4f, 0x41),
        Tag::OriginalCigar => (0x4f, 0x43),
        Tag::OriginalPosition => (0x4f, 0x50),
        Tag::OriginalQualityScores => (0x4f, 0x51),
        Tag::OriginalUmiBarcodeSequence => (0x4f, 0x58),
        Tag::Program => (0x50, 0x47),
        Tag::TemplateLikelihood => (0x50, 0x51),
        Tag::PaddedReadAnnotations => (0x50, 0x54),
        Tag::PlatformUnit => (0x50, 0x55),
        Tag::MateQualityScores => (0x51, 0x32),
        Tag::SampleBarcodeQualityScores => (0x51, 0x54),
        Tag::UmiQualityScores => (0x51, 0x58),
        Tag::MateSequence => (0x52, 0x32),
        Tag::ReadGroup => (0x52, 0x47),
        Tag::ReservedRt => (0x52, 0x54),
        Tag::UmiSequence => (0x52, 0x58),
        Tag::ReservedS2 => (0x53, 0x32),
        Tag::OtherAlignments => (0x53, 0x41),
        Tag::TemplateMappingQuality => (0x53, 0x4d),
        Tag::ReservedSq => (0x53, 0x51),
        Tag::SegmentCount => (0x54, 0x43),
        Tag::TranscriptStrand => (0x54, 0x53),
        Tag::NextHitQualityScores => (0x55, 0x32),
        Tag::SegmentLikelihood => (0x55, 0x51),
        Tag::Other(o) => (o.0@[0], o.0@[1]),
    }
}

/// An ASCII letter.
pub open spec fn is_alphabetic(b: u8) -> bool {
    (0x41 <= b <= 0x5a) || (0x61 <= b <= 0x7a)
}

/// An ASCII letter or digit.
pub open spec fn is_alphanumeric(b: u8) -> bool {
    is_alphabetic(b) || (0x30 <= b <= 0x39)
}

/// The tag spelled by two characters that spell no standard tag: a non-standard tag when the
/// first is a letter and the second a letter or digit, else the first character out of place.
pub open spec fn other_tag(b0: u8, b1: u8) -> Result<Tag, ParseError> {
    if !is_alphabetic(b0) {
        Err(ParseError::InvalidCharacter(b0 as char))
    } else if !is_alphanumeric(b1) {
        Err(ParseError::InvalidCharacter(b1 as char))
    } else {
        Ok(Tag::Other(Other([b0, b1])))
    }
}

/// Whether two characters spell a standard tag.
pub open spec fn is_standard(b0: u8, b1: u8) -> bool {
    exists|t: Tag| !(t is Other) && #[trigger] tag_bytes(t) == (b0, b1)
}

impl Tag {
    /// The two characters of the tag.
    pub fn as_bytes(&self) -> (r: (u8, u8))
        ensures
            r == tag_bytes(*self),
    {
        match self {
            Tag::MinMappingQuality => (0x41, 0x4d),
            Tag::AlignmentScore => (0x41, 0x53),
            Tag::SampleBarcodeSequence => (0x42, 0x43),
            Tag::BaseAlignmentQualityOffsets => (0x42, 0x51),
            Tag::OriginalUmiQualityScores => (0x42, 0x5a),
            Tag::CellBarcodeId => (0x43, 0x42),
            Tag::NextHitReferenceSequenceName => (0x43, 0x43),
            Tag::Cigar => (0x43, 0x47),
            Tag::ColorEditDistance => (0x43, 0x4d),
            Tag::Comment => (0x43, 0x4f),
            Tag::NextHitPosition => (0x43, 0x50),
            Tag::ColorQualityScores => (0x43, 0x51),
            Tag::CellBarcodeSequence => (0x43, 0x52),
            Tag::ColorSequence => (0x43, 0x53),
            Tag::CompleteReadAnnotations => (0x43, 0x54),
            Tag::CellBarcodeQualityScores => (0x43, 0x59),
            Tag::NextHitSequence => (0x45, 0x32),
            Tag::SegmentIndex => (0x46, 0x49),
            Tag::SegmentSuffix => (0x46, 0x53),
            Tag::AlternativeSequence => (0x46, 0x5a),
            Tag::ReservedGc => (0x47, 0x43),
            Tag::ReservedGq => (0x47, 0x51),
            Tag::ReservedGs => (0x47, 0x53),
            Tag::PerfectHitCount => (0x48, 0x4f),
            Tag::OneDifferenceHitCount => (0x48, 0x31),
            Tag::TwoDifferenceHitCount => (0x48, 0x32),
            Tag::HitIndex => (0x48, 0x49),
            Tag::TotalHitCount => (0x49, 0x48),
            Tag::Library => (0x4c, 0x42),
            Tag::MateCigar => (0x4d, 0x43),
            Tag::MismatchedPositions => (0x4d, 0x44),
            Tag::ReservedMf => (0x4d, 0x46),
            Tag::UmiId => (0x4d, 0x49),
            Tag::BaseModificationProbabilities => (0x4d, 0x4c),
            Tag::BaseModifications => (0x4d, 0x4d),
            Tag::BaseModificationSequenceLength => (0x4d, 0x4e),
            Tag::MateMappingQuality => (0x4d, 0x51),
            Tag::AlignmentHitCount => (0x4e, 0x48),
            Tag::EditDistance => (0x4e, 0x4d),
            Tag::OriginalAlignment => (0x4f, 0x41),
            Tag::OriginalCigar => (0x4f, 0x43),
            Tag::OriginalPosition => (0x4f, 0x50),
            Tag::OriginalQualityScores => (0x4f, 0x51),
            Tag::OriginalUmiBarcodeSequence => (0x4f, 0x58),
            Tag::Program => (0x50, 0x47),
            Tag::TemplateLikelihood => (0x50, 0x51),
            Tag::PaddedReadAnnotations => (0x50, 0x54),
            Tag::PlatformUnit => (0x50, 0x55),
            Tag::MateQualityScores => (0x51, 0x32),
            Tag::SampleBarcodeQualityScores => (0x51, 0x54),
            Tag::UmiQualityScores => (0x51, 0x58),
            Tag::MateSequence => (0x52, 0x32),
            Tag::ReadGroup => (0x52, 0x47),
            Tag::ReservedRt => (0x52, 0x54),
            Tag::UmiSequence => (0x52, 0x58),
            Tag::ReservedS2 => (0x53, 0x32),
            Tag::OtherAlignments => (0x53, 0x41),
            Tag::TemplateMappingQuality => (0x53, 0x4d),
            Tag::ReservedSq => (0x53, 0x51),
            Tag::SegmentCount => (0x54, 0x43),
            Tag::TranscriptStrand => (0x54, 0x53),
            Tag::NextHitQualityScores => (0x55, 0x32),
            Tag::SegmentLikelihood => (0x55, 0x51),
            Tag::Other(o) => (o.0[0], o.0[1]),
        }
    }

    /// The standard tag spelled by two characters, if any.
    pub fn standard_from_bytes(b0: u8, b1: u8) -> (r: Option<Tag>)
        ensures
            r matches Some(t) ==> !(t is Other) && tag_bytes(t) == (b0, b1),
            r is None ==> !is_standard(b0, b1),
    {
        match (b0, b1) {
            (0x41, 0x4d) => Some(Tag::MinMappingQuality),
            (0x41, 0x53) => Some(Tag::AlignmentScore),
            (0x42, 0x43) => Some(Tag::SampleBarcodeSequence),
            (0x42, 0x51) => Some(Tag::BaseAlignmentQualityOffsets),
            (0x42, 0x5a) => Some(Tag::OriginalUmiQualityScores),
            (0x43, 0x42) => Some(Tag::CellBarcodeId),
            (0x43, 0x43) => Some(Tag::NextHitReferenceSequenceName),
            (0x43, 0x47) => Some(Tag::Cigar),
            (0x43, 0x4d) => Some(Tag::ColorEditDistance),
            (0x43, 0x4f) => Some(Tag::Comment),
            (0x43, 0x50) => Some(Tag::NextHitPosition),
            (0x43, 0x51) => Some(Tag::ColorQualityScores),
            (0x43, 0x52) => Some(Tag::CellBarcodeSequence),
            (0x43, 0x53) => Some(Tag::ColorSequence),
            (0x43, 0x54) => Some(Tag::CompleteReadAnnotations),
            (0x43, 0x59) => Some(Tag::CellBarcodeQualityScores),
            (0x45, 0x32) => Some(Tag::NextHitSequence),
            (0x46, 0x49) => Some(Tag::SegmentIndex),
            (0x46, 0x53) => Some(Tag::SegmentSuffix),
            (0x46, 0x5a) => Some(Tag::AlternativeSequence),
            (0x47, 0x43) => Some(Tag::ReservedGc),
            (0x47, 0x51) => Some(Tag::ReservedGq),
            (0x47, 0x53) => Some(Tag::ReservedGs),
            (0x48, 0x4f) => Some(Tag::PerfectHitCount),
            (0x48, 0x31) => Some(Tag::OneDifferenceHitCount),
            (0x48, 0x32) => Some(Tag::TwoDifferenceHitCount),
            (0x48, 0x49) => Some(Tag::HitIndex),
            (0x49, 0x48) => Some(Tag::TotalHitCount),
            (0x4c, 0x42) => Some(Tag::Library),
            (0x4d, 0x43) => Some(Tag::MateCigar),
            (0x4d, 0x44) => Some(Tag::MismatchedPositions),
            (0x4d, 0x46) => Some(Tag::ReservedMf),
            (0x4d, 0x49) => Some(Tag::UmiId),
            (0x4d, 0x4c) => Some(Tag::BaseModificationProbabilities),
            (0x4d, 0x4d) => Some(Tag::BaseModifications),
            (0x4d, 0x4e) => Some(Tag::BaseModificationSequenceLength),
            (0x4d, 0x51) => Some(Tag::MateMappingQuality),
            (0x4e, 0x48) => Some(Tag::AlignmentHitCount),
            (0x4e, 0x4d) => Some(Tag::EditDistance),
            (0x4f, 0x41) => Some(Tag::OriginalAlignment),
            (0x4f, 0x43) => Some(Tag::OriginalCigar),
            (0x4f, 0x50) => Some(Tag::OriginalPosition),
            (0x4f, 0x51) => Some(Tag::OriginalQualityScores),
            (0x4f, 0x58) => Some(Tag::OriginalUmiBarcodeSequence),
            (0x50, 0x47) => Some(Tag::Program),
            (0x50, 0x51) => Some(Tag::TemplateLikelihood),
            (0x50, 0x54) => Some(Tag::PaddedReadAnnotations),
            (0x50, 0x55) => Some(Tag::PlatformUnit),
            (0x51, 0x32) => Some(Tag::MateQualityScores),
            (0x51, 0x54) => Some(Tag::SampleBarcodeQualityScores),
            (0x51, 0x58) => Some(Tag::UmiQualityScores),
            (0x52, 0x32) => Some(Tag::MateSequence),
            (0x52, 0x47) => Some(Tag::ReadGroup),
            (0x52, 0x54) => Some(Tag::ReservedRt),
            (0x52, 0x58) => Some(Tag::UmiSequence),
            (0x53, 0x32) => Some(Tag::ReservedS2),
            (0x53, 0x41) => Some(Tag::OtherAlignments),
            (0x53, 0x4d) => Some(Tag::TemplateMappingQuality),
            (0x53, 0x51) => Some(Tag::ReservedSq),
            (0x54, 0x43) => Some(Tag::SegmentCount),
            (0x54, 0x53) => Some(Tag::TranscriptStrand),
            (0x55, 0x32) => Some(Tag::NextHitQualityScores),
            (0x55, 0x51) => Some(Tag::SegmentLikelihood),
            _ => None,
        }
    }

    /// The tag spelled by two characters: a standard tag where there is one, else a
    /// non-standard tag whose first character is a letter and whose second is a letter or digit.
    pub fn try_from_pair(b0: u8, b1: u8) -> (r: Result<Tag, ParseError>)
        ensures
            is_standard(b0, b1) ==> (r matches Ok(t) && !(t is Other) && tag_bytes(t) == (b0, b1)),
            !is_standard(b0, b1) ==> r == other_tag(b0, b1),
    {
        match Tag::standard_from_bytes(b0, b1) {
            Some(t) => Ok(t),
            None => {
                if !(is_ascii_alphabetic(b0)) {
                    Err(ParseError::InvalidCharacter(b0 as char))
                } else if !(is_ascii_alphabetic(b1) || (0x30 <= b1 && b1 <= 0x39)) {
                    Err(ParseError::InvalidCharacter(b1 as char))
                } else {
                    Ok(Tag::Other(Other([b0, b1])))
                }
            },
        }
    }

    /// The tag spelled by a byte string: it must be two characters long.
    pub fn try_from_bytes(b: &[u8]) -> (r: Result<Tag, ParseError>)
        ensures
            b@.len() == 0 ==> r == Err::<Tag, ParseError>(ParseError::Empty),
            b@.len() != 0 && b@.len() != LENGTH ==> r == Err::<Tag, ParseError>(
                ParseError::InvalidLength(b@.len() as usize),
            ),
            b@.len() == LENGTH && is_standard(b@[0], b@[1]) ==> (r matches Ok(t) && !(t is Other)
                && tag_bytes(t) == (b@[0], b@[1])),
            b@.len() == LENGTH && !is_standard(b@[0], b@[1]) ==> r == other_tag(b@[0], b@[1]),
    {
        if b.len() == 0 {
            Err(ParseError::Empty)
        } else if b.len() == LENGTH {
            Tag::try_from_pair(b[0], b[1])
        } else {
            Err(ParseError::InvalidLength(b.len()))
        }
    }

    /// The tag's two characters as text.
    pub fn to_string(&self) -> (r: String)
        ensures
            r@ == seq![tag_bytes(*self).0 as char, tag_bytes(*self).1 as char],
    {
        let (b0, b1): (u8, u8) = self.as_bytes();
        let mut s: String = String::new();
        push_char(&mut s, b0 as char);
        push_char(&mut s, b1 as char);
        s
    }
}

/// Whether a byte is an ASCII letter.
fn is_ascii_alphabetic(b: u8) -> (r: bool)
    ensures
        r == is_alphabetic(b),
{
    (0x41 <= b && b <= 0x5a) || (0x61 <= b && b <= 0x7a)
}

/// Relies on `String::push`: the character is appended at the end.
#[verifier::external_body]
fn push_char(s: &mut String, c: char)
    ensures
        final(s)@ == old(s)@.push(c),
{
    s.push(c)
}

impl core::str::FromStr for Tag {
    type Err = ParseError;

    fn from_str(s: &str) -> Result<Tag, ParseError> {
        Tag::try_from_bytes(s.as_bytes())
    }
}

/// The smallest template-independent mapping quality in the template (`AM`).
pub const MIN_MAPPING_QUALITY: Tag = Tag::MinMappingQuality;

/// Alignment score generated by aligner (`AS`).
pub const ALIGNMENT_SCORE: Tag = Tag::AlignmentScore;

/// Barcode sequence identifying the sample (`BC`).
pub const SAMPLE_BARCODE_SEQUENCE: Tag = Tag::SampleBarcodeSequence;

/// Offset to base alignment quality (BAQ) (`BQ`).
pub const BASE_ALIGNMENT_QUALITY_OFFSETS: Tag = Tag::BaseAlignmentQualityOffsets;

/// Phred quality of the unique molecular barcode bases in the `OX` tag (`BZ`).
pub const ORIGINAL_UMI_QUALITY_SCORES: Tag = Tag::OriginalUmiQualityScores;

/// Cell identifier (`CB`).
pub const CELL_BARCODE_ID: Tag = Tag::CellBarcodeId;

/// Reference name of the next hit (`CC`).
pub const NEXT_HIT_REFERENCE_SEQUENCE_NAME: Tag = Tag::NextHitReferenceSequenceName;

/// CIGAR in binary form, when it has too many operators (`CG`).
pub const CIGAR: Tag = Tag::Cigar;

/// Edit distance between the color sequence and the color reference (see also `NM`) (`CM`).
pub const COLOR_EDIT_DISTANCE: Tag = Tag::ColorEditDistance;

/// Free-text comments (`CO`).
pub const COMMENT: Tag = Tag::Comment;

/// Leftmost coordinate of the next hit (`CP`).
pub const NEXT_HIT_POSITION: Tag = Tag::NextHitPosition;

/// Color read base qualities (`CQ`).
pub const COLOR_QUALITY_SCORES: Tag = Tag::ColorQualityScores;

/// Cellular barcode sequence bases (uncorrected) (`CR`).
pub const CELL_BARCODE_SEQUENCE: Tag = Tag::CellBarcodeSequence;

/// Color read sequence (`CS`).
pub const COLOR_SEQUENCE: Tag = Tag::ColorSequence;

/// Complete read annotation tag, used for consensus annotation dummy features (`CT`).
pub const COMPLETE_READ_ANNOTATIONS: Tag = Tag::CompleteReadAnnotations;

/// Phred quality of the cellular barcode sequence in the `CR` tag (`CY`).
pub const CELL_BARCODE_QUALITY_SCORES: Tag = Tag::CellBarcodeQualityScores;

/// The 2nd most likely base calls (`E2`).
pub const NEXT_HIT_SEQUENCE: Tag = Tag::NextHitSequence;

/// The index of segment in the template (`FI`).
pub const SEGMENT_INDEX: Tag = Tag::SegmentIndex;

/// Segment suffix (`FS`).
pub const SEGMENT_SUFFIX: Tag = Tag::SegmentSuffix;

/// Flow signal intensities (`FZ`).
pub const ALTERNATIVE_SEQUENCE: Tag = Tag::AlternativeSequence;

/// Reserved for backwards compatibility reasons (`GC`).
pub const RESERVED_GC: Tag = Tag::ReservedGc;

/// Reserved for backwards compatibility reasons (`GQ`).
pub const RESERVED_GQ: Tag = Tag::ReservedGq;

/// Reserved for backwards compatibility reasons (`GS`).
pub const RESERVED_GS: Tag = Tag::ReservedGs;

/// Number of perfect hits (`HO`).
pub const PERFECT_HIT_COUNT: Tag = Tag::PerfectHitCount;

/// Number of 1-difference hits (see also `NM`) (`H1`).
pub const ONE_DIFFERENCE_HIT_COUNT: Tag = Tag::OneDifferenceHitCount;

/// Number of 2-difference hits (`H2`).
pub const TWO_DIFFERENCE_HIT_COUNT: Tag = Tag::TwoDifferenceHitCount;

/// Query hit index (`HI`).
pub const HIT_INDEX: Tag = Tag::HitIndex;

/// Query hit total count (`IH`).
pub const TOTAL_HIT_COUNT: Tag = Tag::TotalHitCount;

/// Library (`LB`).
pub const LIBRARY: Tag = Tag::Library;

/// CIGAR string for mate/next segment (`MC`).
pub const MATE_CIGAR: Tag = Tag::MateCigar;

/// String encoding mismatched and deleted reference bases (`MD`).
pub const MISMATCHED_POSITIONS: Tag = Tag::MismatchedPositions;

/// Reserved for backwards compatibility reasons (`MF`).
pub const RESERVED_MF: Tag = Tag::ReservedMf;

/// Molecular identifier (`MI`).
pub const UMI_ID: Tag = Tag::UmiId;

/// Base modification probabilities (`ML`).
pub const BASE_MODIFICATION_PROBABILITIES: Tag = Tag::BaseModificationProbabilities;

/// Base modifications / methylation (`MM`).
pub const BASE_MODIFICATIONS: Tag = Tag::BaseModifications;

/// Length of sequence at the time `MM` and `ML` were produced (`MN`).
pub const BASE_MODIFICATION_SEQUENCE_LENGTH: Tag = Tag::BaseModificationSequenceLength;

/// Mapping quality of the mate/next segment (`MQ`).
pub const MATE_MAPPING_QUALITY: Tag = Tag::MateMappingQuality;

/// Number of reported alignments that contain the query in the current record (`NH`).
pub const ALIGNMENT_HIT_COUNT: Tag = Tag::AlignmentHitCount;

/// Edit distance to the reference (`NM`).
pub const EDIT_DISTANCE: Tag = Tag::EditDistance;

/// Original alignment (`OA`).
pub const ORIGINAL_ALIGNMENT: Tag = Tag::OriginalAlignment;

/// Original CIGAR (deprecated; use `OA` instead) (`OC`).
pub const ORIGINAL_CIGAR: Tag = Tag::OriginalCigar;

/// Original mapping position (deprecated; use `OA` instead) (`OP`).
pub const ORIGINAL_POSITION: Tag = Tag::OriginalPosition;

/// Original base quality (`OQ`).
pub const ORIGINAL_QUALITY_SCORES: Tag = Tag::OriginalQualityScores;

/// Original unique molecular barcode bases (`OX`).
pub const ORIGINAL_UMI_BARCODE_SEQUENCE: Tag = Tag::OriginalUmiBarcodeSequence;

/// Program (`PG`).
pub const PROGRAM: Tag = Tag::Program;

/// Phred likelihood of the template (`PQ`).
pub const TEMPLATE_LIKELIHOOD: Tag = Tag::TemplateLikelihood;

/// Read annotations for parse of the padded read sequence (`PT`).
pub const PADDED_READ_ANNOTATIONS: Tag = Tag::PaddedReadAnnotations;

/// Platform unit (`PU`).
pub const PLATFORM_UNIT: Tag = Tag::PlatformUnit;

/// Phred quality of the mate/next segment sequence in the `R2` tag (`Q2`).
pub const MATE_QUALITY_SCORES: Tag = Tag::MateQualityScores;

/// Phred quality of the sample barcode sequence in the `BC` tag (`QT`).
pub const SAMPLE_BARCODE_QUALITY_SCORES: Tag = Tag::SampleBarcodeQualityScores;

/// Quality score of the unique molecular identifier in the `RX` tag (`QX`).
pub const UMI_QUALITY_SCORES: Tag = Tag::UmiQualityScores;

/// Sequence of the mate/next segment in the template (`R2`).
pub const MATE_SEQUENCE: Tag = Tag::MateSequence;

/// Read group (`RG`).
pub const READ_GROUP: Tag = Tag::ReadGroup;

/// Reserved for backwards compatibility reasons (`RT`).
pub const RESERVED_RT: Tag = Tag::ReservedRt;

/// Sequence bases of the (possibly corrected) unique molecular identifier (`RX`).
pub const UMI_SEQUENCE: Tag = Tag::UmiSequence;

/// Reserved for backwards compatibility reasons (`S2`).
pub const RESERVED_S2: Tag = Tag::ReservedS2;

/// Other canonical alignments in a chimeric alignment (`SA`).
pub const OTHER_ALIGNMENTS: Tag = Tag::OtherAlignments;

/// Template-independent mapping quality (`SM`).
pub const TEMPLATE_MAPPING_QUALITY: Tag = Tag::TemplateMappingQuality;

/// Reserved for backwards compatibility reasons (`SQ`).
pub const RESERVED_SQ: Tag = Tag::ReservedSq;

/// The number of segments in the template (`TC`).
pub const SEGMENT_COUNT: Tag = Tag::SegmentCount;

/// Transcript strand (`TS`).
pub const TRANSCRIPT_STRAND: Tag = Tag::TranscriptStrand;

/// Phred probability of the 2nd call being wrong conditional on the best being wrong (`U2`).
pub const NEXT_HIT_QUALITY_SCORES: Tag = Tag::NextHitQualityScores;

/// Phred likelihood of the segment, conditional on the mapping being correct (`UQ`).
pub const SEGMENT_LIKELIHOOD: Tag = Tag::SegmentLikelihood;

} // verus!
