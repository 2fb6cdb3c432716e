use cram::tag::{
    MIN_MAPPING_QUALITY,
    ALIGNMENT_SCORE,
    SAMPLE_BARCODE_SEQUENCE,
    BASE_ALIGNMENT_QUALITY_OFFSETS,
    ORIGINAL_UMI_QUALITY_SCORES,
    CELL_BARCODE_ID,
    NEXT_HIT_REFERENCE_SEQUENCE_NAME,
    CIGAR,
    COLOR_EDIT_DISTANCE,
    COMMENT,
    NEXT_HIT_POSITION,
    COLOR_QUALITY_SCORES,
    CELL_BARCODE_SEQUENCE,
    COLOR_SEQUENCE,
    COMPLETE_READ_ANNOTATIONS,
    CELL_BARCODE_QUALITY_SCORES,
    NEXT_HIT_SEQUENCE,
    SEGMENT_INDEX,
    SEGMENT_SUFFIX,
    ALTERNATIVE_SEQUENCE,
    RESERVED_GC,
    RESERVED_GQ,
    RESERVED_GS,
    PERFECT_HIT_COUNT,
    ONE_DIFFERENCE_HIT_COUNT,
    TWO_DIFFERENCE_HIT_COUNT,
    HIT_INDEX,
    TOTAL_HIT_COUNT,
    LIBRARY,
    MATE_CIGAR,
    MISMATCHED_POSITIONS,
    RESERVED_MF,
    UMI_ID,
    BASE_MODIFICATION_PROBABILITIES,
    BASE_MODIFICATIONS,
    BASE_MODIFICATION_SEQUENCE_LENGTH,
    MATE_MAPPING_QUALITY,
    ALIGNMENT_HIT_COUNT,
    EDIT_DISTANCE,
    ORIGINAL_ALIGNMENT,
    ORIGINAL_CIGAR,
    ORIGINAL_POSITION,
    ORIGINAL_QUALITY_SCORES,
    ORIGINAL_UMI_BARCODE_SEQUENCE,
    PROGRAM,
    TEMPLATE_LIKELIHOOD,
    PADDED_READ_ANNOTATIONS,
    PLATFORM_UNIT,
    MATE_QUALITY_SCORES,
    SAMPLE_BARCODE_QUALITY_SCORES,
    UMI_QUALITY_SCORES,
    MATE_SEQUENCE,
    READ_GROUP,
    RESERVED_RT,
    UMI_SEQUENCE,
    RESERVED_S2,
    OTHER_ALIGNMENTS,
    TEMPLATE_MAPPING_QUALITY,
    RESERVED_SQ,
    SEGMENT_COUNT,
    TRANSCRIPT_STRAND,
    NEXT_HIT_QUALITY_SCORES,
    SEGMENT_LIKELIHOOD,
    Other, ParseError, Tag,
};

#[test]
fn test_fmt() {
    assert_eq!(MIN_MAPPING_QUALITY.to_string(), "AM");
    assert_eq!(ALIGNMENT_SCORE.to_string(), "AS");
    assert_eq!(SAMPLE_BARCODE_SEQUENCE.to_string(), "BC");
    assert_eq!(BASE_ALIGNMENT_QUALITY_OFFSETS.to_string(), "BQ");
    assert_eq!(ORIGINAL_UMI_QUALITY_SCORES.to_string(), "BZ");
    assert_eq!(CELL_BARCODE_ID.to_string(), "CB");
    assert_eq!(NEXT_HIT_REFERENCE_SEQUENCE_NAME.to_string(), "CC");
    assert_eq!(CIGAR.to_string(), "CG");
    assert_eq!(COLOR_EDIT_DISTANCE.to_string(), "CM");
    assert_eq!(COMMENT.to_string(), "CO");
    assert_eq!(NEXT_HIT_POSITION.to_string(), "CP");
    assert_eq!(COLOR_QUALITY_SCORES.to_string(), "CQ");
    assert_eq!(CELL_BARCODE_SEQUENCE.to_string(), "CR");
    assert_eq!(COLOR_SEQUENCE.to_string(), "CS");
    assert_eq!(COMPLETE_READ_ANNOTATIONS.to_string(), "CT");
    assert_eq!(CELL_BARCODE_QUALITY_SCORES.to_string(), "CY");
    assert_eq!(NEXT_HIT_SEQUENCE.to_string(), "E2");
    assert_eq!(SEGMENT_INDEX.to_string(), "FI");
    assert_eq!(SEGMENT_SUFFIX.to_string(), "FS");
    assert_eq!(ALTERNATIVE_SEQUENCE.to_string(), "FZ");
    assert_eq!(RESERVED_GC.to_string(), "GC");
    assert_eq!(RESERVED_GQ.to_string(), "GQ");
    assert_eq!(RESERVED_GS.to_string(), "GS");
    assert_eq!(PERFECT_HIT_COUNT.to_string(), "HO");
    assert_eq!(ONE_DIFFERENCE_HIT_COUNT.to_string(), "H1");
    assert_eq!(TWO_DIFFERENCE_HIT_COUNT.to_string(), "H2");
    assert_eq!(HIT_INDEX.to_string(), "HI");
    assert_eq!(TOTAL_HIT_COUNT.to_string(), "IH");
    assert_eq!(LIBRARY.to_string(), "LB");
    assert_eq!(MATE_CIGAR.to_string(), "MC");
    assert_eq!(MISMATCHED_POSITIONS.to_string(), "MD");
    assert_eq!(RESERVED_MF.to_string(), "MF");
    assert_eq!(UMI_ID.to_string(), "MI");
    assert_eq!(BASE_MODIFICATION_PROBABILITIES.to_string(), "ML");
    assert_eq!(BASE_MODIFICATIONS.to_string(), "MM");
    assert_eq!(MATE_MAPPING_QUALITY.to_string(), "MQ");
    assert_eq!(ALIGNMENT_HIT_COUNT.to_string(), "NH");
    assert_eq!(EDIT_DISTANCE.to_string(), "NM");
    assert_eq!(ORIGINAL_ALIGNMENT.to_string(), "OA");
    assert_eq!(ORIGINAL_CIGAR.to_string(), "OC");
    assert_eq!(ORIGINAL_POSITION.to_string(), "OP");
    assert_eq!(ORIGINAL_QUALITY_SCORES.to_string(), "OQ");
    assert_eq!(ORIGINAL_UMI_BARCODE_SEQUENCE.to_string(), "OX");
    assert_eq!(PROGRAM.to_string(), "PG");
    assert_eq!(TEMPLATE_LIKELIHOOD.to_string(), "PQ");
    assert_eq!(PADDED_READ_ANNOTATIONS.to_string(), "PT");
    assert_eq!(PLATFORM_UNIT.to_string(), "PU");
    assert_eq!(MATE_QUALITY_SCORES.to_string(), "Q2");
    assert_eq!(SAMPLE_BARCODE_QUALITY_SCORES.to_string(), "QT");
    assert_eq!(UMI_QUALITY_SCORES.to_string(), "QX");
    assert_eq!(MATE_SEQUENCE.to_string(), "R2");
    assert_eq!(READ_GROUP.to_string(), "RG");
    assert_eq!(RESERVED_RT.to_string(), "RT");
    assert_eq!(UMI_SEQUENCE.to_string(), "RX");
    assert_eq!(RESERVED_S2.to_string(), "S2");
    assert_eq!(OTHER_ALIGNMENTS.to_string(), "SA");
    assert_eq!(TEMPLATE_MAPPING_QUALITY.to_string(), "SM");
    assert_eq!(RESERVED_SQ.to_string(), "SQ");
    assert_eq!(SEGMENT_COUNT.to_string(), "TC");
    assert_eq!(TRANSCRIPT_STRAND.to_string(), "TS");
    assert_eq!(NEXT_HIT_QUALITY_SCORES.to_string(), "U2");
    assert_eq!(SEGMENT_LIKELIHOOD.to_string(), "UQ");
    assert_eq!(Tag::Other(Other([b'Z', b'N'])).to_string(), "ZN");
}

#[test]
fn tag_test_from_str() {
    assert_eq!("AM".parse(), Ok(MIN_MAPPING_QUALITY));
    assert_eq!("AS".parse(), Ok(ALIGNMENT_SCORE));
    assert_eq!("BC".parse(), Ok(SAMPLE_BARCODE_SEQUENCE));
    assert_eq!("BQ".parse(), Ok(BASE_ALIGNMENT_QUALITY_OFFSETS));
    assert_eq!("BZ".parse(), Ok(ORIGINAL_UMI_QUALITY_SCORES));
    assert_eq!("CB".parse(), Ok(CELL_BARCODE_ID));
    assert_eq!("CC".parse(), Ok(NEXT_HIT_REFERENCE_SEQUENCE_NAME));
    assert_eq!("CG".parse(), Ok(CIGAR));
    assert_eq!("CM".parse(), Ok(COLOR_EDIT_DISTANCE));
    assert_eq!("CO".parse(), Ok(COMMENT));
    assert_eq!("CP".parse(), Ok(NEXT_HIT_POSITION));
    assert_eq!("CQ".parse(), Ok(COLOR_QUALITY_SCORES));
    assert_eq!("CR".parse(), Ok(CELL_BARCODE_SEQUENCE));
    assert_eq!("CS".parse(), Ok(COLOR_SEQUENCE));
    assert_eq!("CT".parse(), Ok(COMPLETE_READ_ANNOTATIONS));
    assert_eq!("CY".parse(), Ok(CELL_BARCODE_QUALITY_SCORES));
    assert_eq!("E2".parse(), Ok(NEXT_HIT_SEQUENCE));
    assert_eq!("FI".parse(), Ok(SEGMENT_INDEX));
    assert_eq!("FS".parse(), Ok(SEGMENT_SUFFIX));
    assert_eq!("FZ".parse(), Ok(ALTERNATIVE_SEQUENCE));
    assert_eq!("GC".parse(), Ok(RESERVED_GC));
    assert_eq!("GQ".parse(), Ok(RESERVED_GQ));
    assert_eq!("GS".parse(), Ok(RESERVED_GS));
    assert_eq!("HO".parse(), Ok(PERFECT_HIT_COUNT));
    assert_eq!("H1".parse(), Ok(ONE_DIFFERENCE_HIT_COUNT));
    assert_eq!("H2".parse(), Ok(TWO_DIFFERENCE_HIT_COUNT));
    assert_eq!("HI".parse(), Ok(HIT_INDEX));
    assert_eq!("IH".parse(), Ok(TOTAL_HIT_COUNT));
    assert_eq!("LB".parse(), Ok(LIBRARY));
    assert_eq!("MC".parse(), Ok(MATE_CIGAR));
    assert_eq!("MD".parse(), Ok(MISMATCHED_POSITIONS));
    assert_eq!("MF".parse(), Ok(RESERVED_MF));
    assert_eq!("MI".parse(), Ok(UMI_ID));
    assert_eq!("ML".parse(), Ok(BASE_MODIFICATION_PROBABILITIES));
    assert_eq!("MM".parse(), Ok(BASE_MODIFICATIONS));
    assert_eq!("MN".parse(), Ok(BASE_MODIFICATION_SEQUENCE_LENGTH));
    assert_eq!("MQ".parse(), Ok(MATE_MAPPING_QUALITY));
    assert_eq!("NH".parse(), Ok(ALIGNMENT_HIT_COUNT));
    assert_eq!("NM".parse(), Ok(EDIT_DISTANCE));
    assert_eq!("OA".parse(), Ok(ORIGINAL_ALIGNMENT));
    assert_eq!("OC".parse(), Ok(ORIGINAL_CIGAR));
    assert_eq!("OP".parse(), Ok(ORIGINAL_POSITION));
    assert_eq!("OQ".parse(), Ok(ORIGINAL_QUALITY_SCORES));
    assert_eq!("OX".parse(), Ok(ORIGINAL_UMI_BARCODE_SEQUENCE));
    assert_eq!("PG".parse(), Ok(PROGRAM));
    assert_eq!("PQ".parse(), Ok(TEMPLATE_LIKELIHOOD));
    assert_eq!("PT".parse(), Ok(PADDED_READ_ANNOTATIONS));
    assert_eq!("PU".parse(), Ok(PLATFORM_UNIT));
    assert_eq!("Q2".parse(), Ok(MATE_QUALITY_SCORES));
    assert_eq!("QT".parse(), Ok(SAMPLE_BARCODE_QUALITY_SCORES));
    assert_eq!("QX".parse(), Ok(UMI_QUALITY_SCORES));
    assert_eq!("R2".parse(), Ok(MATE_SEQUENCE));
    assert_eq!("RG".parse(), Ok(READ_GROUP));
    assert_eq!("RT".parse(), Ok(RESERVED_RT));
    assert_eq!("RX".parse(), Ok(UMI_SEQUENCE));
    assert_eq!("S2".parse(), Ok(RESERVED_S2));
    assert_eq!("SA".parse(), Ok(OTHER_ALIGNMENTS));
    assert_eq!("SM".parse(), Ok(TEMPLATE_MAPPING_QUALITY));
    assert_eq!("SQ".parse(), Ok(RESERVED_SQ));
    assert_eq!("TC".parse(), Ok(SEGMENT_COUNT));
    assert_eq!("TS".parse(), Ok(TRANSCRIPT_STRAND));
    assert_eq!("U2".parse(), Ok(NEXT_HIT_QUALITY_SCORES));
    assert_eq!("UQ".parse(), Ok(SEGMENT_LIKELIHOOD));
    assert_eq!("ZN".parse(), Ok(Tag::Other(Other([b'Z', b'N']))));

    assert_eq!("".parse::<Tag>(), Err(ParseError::Empty));
    assert_eq!("R".parse::<Tag>(), Err(ParseError::InvalidLength(1)));
    assert_eq!("RGP".parse::<Tag>(), Err(ParseError::InvalidLength(3)));
    assert_eq!("1G".parse::<Tag>(), Err(ParseError::InvalidCharacter('1')));
    assert_eq!("R_".parse::<Tag>(), Err(ParseError::InvalidCharacter('_')));
}

#[test]
fn tag_from_bytes_of_standard_and_other_tags() {
    assert_eq!(Tag::try_from_bytes(b"NM"), Ok(EDIT_DISTANCE));
    assert_eq!(Tag::try_from_bytes(b"X1"), Ok(Tag::Other(Other([b'X', b'1']))));
    assert_eq!(Tag::try_from_bytes(b"X"), Err(ParseError::InvalidLength(1)));
    assert_eq!(Tag::try_from_bytes(b""), Err(ParseError::Empty));
    assert_eq!(Tag::try_from_pair(b'Z', b'-'), Err(ParseError::InvalidCharacter('-')));
}
