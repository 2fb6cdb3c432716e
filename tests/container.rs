use cram::container::{get_content_type, Builder, ContentType, ReferenceSequenceContext};
use cram::error::Error;
use cram::block::{read_block, CompressionMethod};
use cram::container::read_container_header;
use cram::num::{read_itf8, read_ltf8};

#[test]
fn test_get_content_type() {
    fn t(src: &[u8], expected: ContentType) {
        let mut pos = 0;
        let actual = get_content_type(src, &mut pos).unwrap();
        assert_eq!(actual, expected);
        assert_eq!(pos, 1);
    }

    t(&[0x00], ContentType::FileHeader);
    t(&[0x01], ContentType::CompressionHeader);
    t(&[0x02], ContentType::SliceHeader);
    t(&[0x03], ContentType::Reserved);
    t(&[0x04], ContentType::ExternalData);
    t(&[0x05], ContentType::CoreData);

    let mut pos = 0;
    assert_eq!(get_content_type(&[], &mut pos), Err(Error::UnexpectedEof));

    let mut pos = 0;
    assert_eq!(get_content_type(&[0x06], &mut pos), Err(Error::InvalidData));
}

#[test]
fn builder_builds_the_fields_it_was_given() {
    let header = Builder::default()
        .set_reference_sequence_context(ReferenceSequenceContext::Mapped {
            reference_sequence_id: 2,
            alignment_start: 8,
            alignment_span: 13,
        })
        .set_record_count(3)
        .set_record_counter(21)
        .set_base_count(34)
        .set_block_count(5)
        .set_landmarks(vec![55, 89])
        .build();

    assert_eq!(
        header.reference_sequence_context(),
        ReferenceSequenceContext::Mapped {
            reference_sequence_id: 2,
            alignment_start: 8,
            alignment_span: 13,
        }
    );
    assert_eq!(header.record_count(), 3);
    assert_eq!(header.record_counter(), 21);
    assert_eq!(header.base_count(), 34);
    assert_eq!(header.block_count(), 5);
    assert_eq!(header.landmarks(), &vec![55, 89]);
}

#[test]
fn default_builder_is_empty_and_unmapped() {
    let header = Builder::default().build();
    assert_eq!(header.reference_sequence_context(), ReferenceSequenceContext::Unmapped);
    assert_eq!(header.record_count(), 0);
    assert_eq!(header.block_count(), 0);
    assert!(header.landmarks().is_empty());
}

const EOF_HEADER: [u8; 23] = [
    0x0f, 0x00, 0x00, 0x00, 0xff, 0xff, 0xff, 0xff, 0x0f, 0xe0, 0x45, 0x4f, 0x46, 0x00, 0x00,
    0x00, 0x00, 0x01, 0x00, 0x05, 0xbd, 0xd9, 0x4f,
];

#[test]
fn eof_header_ends_the_data() {
    let mut src = EOF_HEADER.to_vec();
    // the end-of-file container's block follows its header
    src.extend_from_slice(&[0x00, 0x01, 0x00, 0x06, 0x06, 0x01, 0x00, 0x01, 0x00, 0x01, 0x00]);
    let mut pos = 0;
    assert!(matches!(read_container_header(&src, &mut pos), Ok(None)));
    assert_eq!(pos, 23);
}

#[test]
fn container_header_fields() {
    let src = [
        0x64, 0x00, 0x00, 0x00, // length
        0x02, 0x0a, 0x14, // reference sequence 2, from 10, over 20
        0x03, // records
        0x81, 0x2c, // record counter 300
        0x05, // bases
        0x04, // blocks
        0x02, 0x10, 0x81, 0x00, // landmarks 16 and 256
        0x01, 0x02, 0x03, 0x04, // checksum
    ];
    let mut pos = 0;
    let header = read_container_header(&src, &mut pos).unwrap().unwrap();
    assert_eq!(pos, src.len());
    assert_eq!(
        header.reference_sequence_context(),
        ReferenceSequenceContext::Mapped {
            reference_sequence_id: 2,
            alignment_start: 10,
            alignment_span: 20,
        }
    );
    assert_eq!(header.record_count(), 3);
    assert_eq!(header.record_counter(), 300);
    assert_eq!(header.base_count(), 5);
    assert_eq!(header.block_count(), 4);
    assert_eq!(header.landmarks(), &vec![16, 256]);
}

#[test]
fn container_header_contexts_and_errors() {
    let mut src = vec![0x10, 0x00, 0x00, 0x00, 0xff, 0xff, 0xff, 0xff, 0x0e];
    src.extend_from_slice(&[0x00, 0x00, 0x00, 0x00, 0x00, 0x01, 0x00, 0x00, 0x00, 0x00, 0x00]);
    let mut pos = 0;
    let header = read_container_header(&src, &mut pos).unwrap().unwrap();
    assert_eq!(header.reference_sequence_context(), ReferenceSequenceContext::Many);

    // the sentinel's values with a different length are an ordinary unmapped header
    let mut src = EOF_HEADER.to_vec();
    src[0] = 0x10;
    let mut pos = 0;
    let header = read_container_header(&src, &mut pos).unwrap().unwrap();
    assert_eq!(header.reference_sequence_context(), ReferenceSequenceContext::Unmapped);
    assert_eq!(header.block_count(), 1);

    // a negative record count
    let src = [0x10, 0x00, 0x00, 0x00, 0x01, 0x01, 0x01, 0xff, 0xff, 0xff, 0xff, 0x0f];
    let mut pos = 0;
    assert!(matches!(read_container_header(&src, &mut pos), Err(Error::InvalidData)));

    // a reference sequence id below -2
    let src = [0x10, 0x00, 0x00, 0x00, 0xff, 0xff, 0xff, 0xff, 0x0d, 0x01, 0x01];
    let mut pos = 0;
    assert!(matches!(read_container_header(&src, &mut pos), Err(Error::InvalidData)));

    // truncated
    let mut pos = 0;
    assert!(matches!(read_container_header(&EOF_HEADER[..20], &mut pos), Err(Error::UnexpectedEof)));
}

#[test]
fn variable_length_integers() {
    let cases: [(&[u8], u32); 6] = [
        (&[0x00], 0),
        (&[0x7f], 127),
        (&[0x80, 0x80], 128),
        (&[0xc0, 0x40, 0x00], 0x4000),
        (&[0xe0, 0x20, 0x00, 0x00], 0x20_0000),
        (&[0xff, 0xff, 0xff, 0xff, 0x0f], 0xffff_ffff),
    ];
    for (src, expected) in cases {
        let mut pos = 0;
        assert_eq!(read_itf8(src, &mut pos), Ok(expected));
        assert_eq!(pos, src.len());
    }

    let cases: [(&[u8], u64); 5] = [
        (&[0x7f], 127),
        (&[0x81, 0x2c], 300),
        (&[0xc1, 0x02, 0x03], 0x01_0203),
        (&[0xfe, 0x01, 0x02, 0x03, 0x04, 0x05, 0x06, 0x07], 0x0001_0203_0405_0607),
        (&[0xff, 0x81, 0x02, 0x03, 0x04, 0x05, 0x06, 0x07, 0x08], 0x8102_0304_0506_0708),
    ];
    for (src, expected) in cases {
        let mut pos = 0;
        assert_eq!(read_ltf8(src, &mut pos), Ok(expected));
        assert_eq!(pos, src.len());
    }

    let mut pos = 0;
    assert_eq!(read_ltf8(&[0xff, 0x00], &mut pos), Err(Error::UnexpectedEof));
    assert_eq!(pos, 0);
}

#[test]
fn stored_block_round() {
    let src = [0x00, 0x04, 0x01, 0x03, 0x03, b'a', b'b', b'c', 0x00, 0x00, 0x00, 0x00];
    let mut pos = 0;
    let block = read_block(&src, &mut pos).unwrap();
    assert_eq!(pos, src.len());
    assert_eq!(block.compression_method, CompressionMethod::Stored);
    assert_eq!(block.content_type, ContentType::ExternalData);
    assert_eq!(block.content_id, 1);
    assert_eq!(block.decode(), Ok(b"abc".to_vec()));
}

#[test]
fn block_errors() {
    // declared uncompressed size 4, but 3 bytes stored
    let src = [0x00, 0x05, 0x00, 0x03, 0x04, b'a', b'b', b'c', 0x00, 0x00, 0x00, 0x00];
    let mut pos = 0;
    let block = read_block(&src, &mut pos).unwrap();
    assert_eq!(block.decode(), Err(Error::InvalidData));

    // gzip is not decoded here
    let src = [0x01, 0x05, 0x00, 0x01, 0x01, 0x00, 0x00, 0x00, 0x00, 0x00];
    let mut pos = 0;
    let block = read_block(&src, &mut pos).unwrap();
    assert_eq!(block.compression_method, CompressionMethod::Gzip);
    assert_eq!(block.decode(), Err(Error::UnsupportedCompressionMethod));

    // a content type out of range
    let src = [0x00, 0x07, 0x00, 0x00, 0x00, 0x00, 0x00, 0x00, 0x00];
    let mut pos = 0;
    assert!(matches!(read_block(&src, &mut pos), Err(Error::InvalidData)));

    // data cut short
    let src = [0x00, 0x04, 0x00, 0x05, 0x05, b'a'];
    let mut pos = 0;
    assert!(matches!(read_block(&src, &mut pos), Err(Error::UnexpectedEof)));
}
