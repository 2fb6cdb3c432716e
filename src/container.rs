//! Container headers, their builder, and block content types.
use vstd::prelude::*;

use crate::error::Error;
use crate::num::{
    byte_at, itf8_at, ltf8_at, read_itf8, read_ltf8, read_u32_le, read_u8, u32_le_at,
};

verus! {

/// Which reference sequence the records of a container are aligned to.
#[derive(Clone, Copy, Debug, PartialEq, Eq, Structural)]
pub enum ReferenceSequenceContext {
    /// The records are unmapped.
    Unmapped,
    /// The records are aligned to several reference sequences.
    Many,
    /// The records are aligned to one reference sequence, over a span of it.
    Mapped { reference_sequence_id: usize, alignment_start: usize, alignment_span: usize },
}

/// A container header.
#[derive(Debug)]
pub struct Header {
    reference_sequence_context: ReferenceSequenceContext,
    record_count: usize,
    record_counter: u64,
    base_count: u64,
    block_count: usize,
    landmarks: Vec<usize>,
}

/// The fields of a header or a builder, as plain values.
pub struct HeaderFields {
    pub reference_sequence_context: ReferenceSequenceContext,
    pub record_count: usize,
    pub record_counter: u64,
    pub base_count: u64,
    pub block_count: usize,
    pub landmarks: Seq<usize>,
}

impl Header {
    /// The header's fields.
    pub closed spec fn fields(&self) -> HeaderFields {
        HeaderFields {
            reference_sequence_context: self.reference_sequence_context,
            record_count: self.record_count,
            record_counter: self.record_counter,
            base_count: self.base_count,
            block_count: self.block_count,
            landmarks: self.landmarks@,
        }
    }

    /// Which reference sequence the records are aligned to.
    pub fn reference_sequence_context(&self) -> (r: ReferenceSequenceContext)
        ensures
            r == self.fields().reference_sequence_context,
    {
        self.reference_sequence_context
    }

    /// The number of records.
    pub fn record_count(&self) -> (r: usize)
        ensures
            r == self.fields().record_count,
    {
        self.record_count
    }

    /// The 0-based index of the first record in the whole file.
    pub fn record_counter(&self) -> (r: u64)
        ensures
            r == self.fields().record_counter,
    {
        self.record_counter
    }

    /// The number of bases.
    pub fn base_count(&self) -> (r: u64)
        ensures
            r == self.fields().base_count,
    {
        self.base_count
    }

    /// The number of blocks.
    pub fn block_count(&self) -> (r: usize)
        ensures
            r == self.fields().block_count,
    {
        self.block_count
    }

    /// The byte offsets of the slices in the container.
    pub fn landmarks(&self) -> (r: &Vec<usize>)
        ensures
            r@ == self.fields().landmarks,
    {
        &self.landmarks
    }
}

/// A container header under construction, filled field by field.
#[derive(Debug)]
pub struct Builder {
    reference_sequence_context: ReferenceSequenceContext,
    record_count: usize,
    record_counter: u64,
    base_count: u64,
    block_count: usize,
    landmarks: Vec<usize>,
}

impl Default for Builder {
    /// A builder for an unmapped header with no records, no blocks and no landmarks.
    fn default() -> (r: Builder)
        ensures
            r.fields() == (HeaderFields {
                reference_sequence_context: ReferenceSequenceContext::Unmapped,
                record_count: 0,
                record_counter: 0,
                base_count: 0,
                block_count: 0,
                landmarks: Seq::empty(),
            }),
    {
        Builder {
            reference_sequence_context: ReferenceSequenceContext::Unmapped,
            record_count: 0,
            record_counter: 0,
            base_count: 0,
            block_count: 0,
            landmarks: Vec::new(),
        }
    }
}

impl Builder {
    /// The fields set so far.
    pub closed spec fn fields(&self) -> HeaderFields {
        HeaderFields {
            reference_sequence_context: self.reference_sequence_context,
            record_count: self.record_count,
            record_counter: self.record_counter,
            base_count: self.base_count,
            block_count: self.block_count,
            landmarks: self.landmarks@,
        }
    }

    /// Sets the reference sequence context.
    pub fn set_reference_sequence_context(
        self,
        reference_sequence_context: ReferenceSequenceContext,
    ) -> (r: Builder)
        ensures
            r.fields() == (HeaderFields { reference_sequence_context, ..self.fields() }),
    {
        let mut b = self;
        b.reference_sequence_context = reference_sequence_context;
        b
    }

    /// Sets the number of records.
    pub fn set_record_count(self, record_count: usize) -> (r: Builder)
        ensures
            r.fields() == (HeaderFields { record_count, ..self.fields() }),
    {
        let mut b = self;
        b.record_count = record_count;
        b
    }

    /// Sets the index of the first record in the file.
    pub fn set_record_counter(self, record_counter: u64) -> (r: Builder)
        ensures
            r.fields() == (HeaderFields { record_counter, ..self.fields() }),
    {
        let mut b = self;
        b.record_counter = record_counter;
        b
    }

    /// Sets the number of bases.
    pub fn set_base_count(self, base_count: u64) -> (r: Builder)
        ensures
            r.fields() == (HeaderFields { base_count, ..self.fields() }),
    {
        let mut b = self;
        b.base_count = base_count;
        b
    }

    /// Sets the number of blocks.
    pub fn set_block_count(self, block_count: usize) -> (r: Builder)
        ensures
            r.fields() == (HeaderFields { block_count, ..self.fields() }),
    {
        let mut b = self;
        b.block_count = block_count;
        b
    }

    /// Sets the slice landmarks.
    pub fn set_landmarks(self, landmarks: Vec<usize>) -> (r: Builder)
        ensures
            r.fields() == (HeaderFields { landmarks: landmarks@, ..self.fields() }),
    {
        let mut b = self;
        b.landmarks = landmarks;
        b
    }

    /// Freezes the builder into a header with the same fields.
    pub fn build(self) -> (r: Header)
        ensures
            r.fields() == self.fields(),
    {
        Header {
            reference_sequence_context: self.reference_sequence_context,
            record_count: self.record_count,
            record_counter: self.record_counter,
            base_count: self.base_count,
            block_count: self.block_count,
            landmarks: self.landmarks,
        }
    }
}

/// The kind of data a block holds.
#[derive(Clone, Copy, Debug, PartialEq, Eq, Structural)]
pub enum ContentType {
    FileHeader,
    CompressionHeader,
    SliceHeader,
    Reserved,
    ExternalData,
    CoreData,
}

/// The content type that a byte encodes.
pub open spec fn content_type_of(n: u8) -> Option<ContentType> {
    if n == 0 {
        Some(ContentType::FileHeader)
    } else if n == 1 {
        Some(ContentType::CompressionHeader)
    } else if n == 2 {
        Some(ContentType::SliceHeader)
    } else if n == 3 {
        Some(ContentType::Reserved)
    } else if n == 4 {
        Some(ContentType::ExternalData)
    } else if n == 5 {
        Some(ContentType::CoreData)
    } else {
        None
    }
}

/// Reads a block content type: a byte from 0 to 5.
pub fn get_content_type(src: &[u8], pos: &mut usize) -> (r: Result<ContentType, Error>)
    ensures
        match byte_at(src@, *old(pos) as int) {
            Err(e) => r == Err::<ContentType, Error>(e),
            Ok((n, p)) => match content_type_of(n) {
                Some(t) => r == Ok::<ContentType, Error>(t) && *final(pos) == p,
                None => r == Err::<ContentType, Error>(Error::InvalidData),
            },
        },
{
    let n: u8 = match read_u8(src, pos) {
        Ok(n) => n,
        Err(e) => return Err(e),
    };
    if n == 0 {
        Ok(ContentType::FileHeader)
    } else if n == 1 {
        Ok(ContentType::CompressionHeader)
    } else if n == 2 {
        Ok(ContentType::SliceHeader)
    } else if n == 3 {
        Ok(ContentType::Reserved)
    } else if n == 4 {
        Ok(ContentType::ExternalData)
    } else if n == 5 {
        Ok(ContentType::CoreData)
    } else {
        Err(Error::InvalidData)
    }
}

/// The length in bytes of the end-of-file container's body.
pub const EOF_LENGTH: u32 = 15;

/// The alignment start that the end-of-file container records.
pub const EOF_ALIGNMENT_START: u32 = 4542278;

/// The reference sequence id of unmapped records, as the 32 bits of `-1`.
pub const UNMAPPED_ID: u32 = 0xffff_ffff;

/// The reference sequence id of records on several references, as the 32 bits of `-2`.
pub const MANY_ID: u32 = 0xffff_fffe;

/// An ITF-8 integer that must not be negative as a 32-bit signed integer.
pub open spec fn itf8_nonneg_at(src: Seq<u8>, pos: int) -> Result<(usize, int), Error> {
    match itf8_at(src, pos) {
        Err(e) => Err(e),
        Ok((n, p)) => if n < 0x8000_0000 {
            Ok((n as usize, p))
        } else {
            Err(Error::InvalidData)
        },
    }
}

/// An LTF-8 integer that must not be negative as a 64-bit signed integer.
pub open spec fn ltf8_nonneg_at(src: Seq<u8>, pos: int) -> Result<(u64, int), Error> {
    match ltf8_at(src, pos) {
        Err(e) => Err(e),
        Ok((n, p)) => if n < 0x8000_0000_0000_0000 {
            Ok((n, p))
        } else {
            Err(Error::InvalidData)
        },
    }
}

/// `count` non-negative ITF-8 integers from `pos` on.
pub open spec fn itf8_list_at(src: Seq<u8>, pos: int, count: nat) -> Result<(Seq<usize>, int), Error>
    decreases count,
{
    if count == 0 {
        Ok((Seq::empty(), pos))
    } else {
        match itf8_list_at(src, pos, (count - 1) as nat) {
            Err(e) => Err(e),
            Ok((items, p)) => match itf8_nonneg_at(src, p) {
                Err(e) => Err(e),
                Ok((n, p2)) => Ok((items.push(n), p2)),
            },
        }
    }
}

/// The reference sequence context of an id and a span; an id below `-2` is invalid.
pub open spec fn context_of(id: u32, start: u32, span: u32) -> Result<ReferenceSequenceContext, Error> {
    if id == UNMAPPED_ID {
        Ok(ReferenceSequenceContext::Unmapped)
    } else if id == MANY_ID {
        Ok(ReferenceSequenceContext::Many)
    } else if id < 0x8000_0000 && start < 0x8000_0000 && span < 0x8000_0000 {
        Ok(
            ReferenceSequenceContext::Mapped {
                reference_sequence_id: id as usize,
                alignment_start: start as usize,
                alignment_span: span as usize,
            },
        )
    } else {
        Err(Error::InvalidData)
    }
}

/// Whether header values are those of the end-of-file container.
pub open spec fn is_eof(length: u32, id: u32, start: u32, record_count: usize, block_count: usize) -> bool {
    length == EOF_LENGTH && id == UNMAPPED_ID && start == EOF_ALIGNMENT_START && record_count == 0
        && block_count == 1
}

/// The container header at `pos`, or `None` for the end-of-file container, and the position
/// after it. Fields in order: length (32-bit little-endian), reference sequence id, alignment
/// start and span, record count (ITF-8), record counter and base count (LTF-8), block count,
/// the landmark count and landmarks (ITF-8), and a 32-bit checksum.
pub open spec fn container_header_at(src: Seq<u8>, pos: int) -> Result<(Option<HeaderFields>, int), Error> {
    match u32_le_at(src, pos) {
        Err(e) => Err(e),
        Ok((length, p1)) => if length >= 0x8000_0000 {
            Err(Error::InvalidData)
        } else {
            match itf8_at(src, p1) {
                Err(e) => Err(e),
                Ok((id, p2)) => match itf8_at(src, p2) {
                    Err(e) => Err(e),
                    Ok((start, p3)) => match itf8_at(src, p3) {
                        Err(e) => Err(e),
                        Ok((span, p4)) => match context_of(id, start, span) {
                            Err(e) => Err(e),
                            Ok(context) => match itf8_nonneg_at(src, p4) {
                                Err(e) => Err(e),
                                Ok((record_count, p5)) => match ltf8_nonneg_at(src, p5) {
                                    Err(e) => Err(e),
                                    Ok((record_counter, p6)) => match ltf8_nonneg_at(src, p6) {
                                        Err(e) => Err(e),
                                        Ok((base_count, p7)) => match itf8_nonneg_at(src, p7) {
                                            Err(e) => Err(e),
                                            Ok((block_count, p8)) => match itf8_nonneg_at(src, p8) {
                                                Err(e) => Err(e),
                                                Ok((count, p9)) => match itf8_list_at(src, p9, count as nat) {
                                                    Err(e) => Err(e),
                                                    Ok((landmarks, p10)) => match u32_le_at(src, p10) {
                                                        Err(e) => Err(e),
                                                        Ok((_, p11)) => if is_eof(length, id, start, record_count, block_count) {
                                                            Ok((None, p11))
                                                        } else {
                                                            Ok(
                                                                (
                                                                    Some(
                                                                        HeaderFields {
                                                                            reference_sequence_context: context,
                                                                            record_count,
                                                                            record_counter,
                                                                            base_count,
                                                                            block_count,
                                                                            landmarks,
                                                                        },
                                                                    ),
                                                                    p11,
                                                                ),
                                                            )
                                                        },
                                                    },
                                                },
                                            },
                                        },
                                    },
                                },
                            },
                        },
                    },
                },
            }
        },
    }
}

/// Reads an ITF-8 integer that must not be negative.
pub(crate) fn read_itf8_nonneg(src: &[u8], pos: &mut usize) -> (r: Result<usize, Error>)
    ensures
        match itf8_nonneg_at(src@, *old(pos) as int) {
            Ok((n, p)) => r == Ok::<usize, Error>(n) && *final(pos) == p,
            Err(e) => r == Err::<usize, Error>(e),
        },
{
    let n: u32 = match read_itf8(src, pos) {
        Ok(n) => n,
        Err(e) => return Err(e),
    };
    if n < 0x8000_0000 {
        Ok(n as usize)
    } else {
        Err(Error::InvalidData)
    }
}

/// Reads an LTF-8 integer that must not be negative.
fn read_ltf8_nonneg(src: &[u8], pos: &mut usize) -> (r: Result<u64, Error>)
    ensures
        match ltf8_nonneg_at(src@, *old(pos) as int) {
            Ok((n, p)) => r == Ok::<u64, Error>(n) && *final(pos) == p,
            Err(e) => r == Err::<u64, Error>(e),
        },
{
    let n: u64 = match read_ltf8(src, pos) {
        Ok(n) => n,
        Err(e) => return Err(e),
    };
    if n < 0x8000_0000_0000_0000 {
        Ok(n)
    } else {
        Err(Error::InvalidData)
    }
}

/// Once a list has failed to read, reading more items fails the same way.
proof fn lemma_itf8_list_failed(src: Seq<u8>, pos: int, k: nat, m: nat)
    requires
        k <= m,
        itf8_list_at(src, pos, k) is Err,
    ensures
        itf8_list_at(src, pos, m) == itf8_list_at(src, pos, k),
    decreases m - k,
{
    if k < m {
        lemma_itf8_list_failed(src, pos, k, (m - 1) as nat);
    }
}

/// Reads `count` non-negative ITF-8 integers.
fn read_itf8_list(src: &[u8], pos: &mut usize, count: usize) -> (r: Result<Vec<usize>, Error>)
    ensures
        match itf8_list_at(src@, *old(pos) as int, count as nat) {
            Ok((items, p)) => r matches Ok(v) && v@ == items && *final(pos) == p,
            Err(e) => r == Err::<Vec<usize>, Error>(e),
        },
{
    let ghost start: int = *pos as int;
    let mut items: Vec<usize> = Vec::new();
    let mut i: usize = 0;
    while i < count
        invariant
            i <= count,
            start == *old(pos),
            itf8_list_at(src@, start, i as nat) == Ok::<(Seq<usize>, int), Error>((items@, *pos as int)),
        decreases count - i,
    {
        let n: usize = match read_itf8_nonneg(src, pos) {
            Ok(n) => n,
            Err(e) => {
                proof {
                    lemma_itf8_list_failed(src@, start, (i + 1) as nat, count as nat);
                }
                return Err(e);
            },
        };
        items.push(n);
        i = i + 1;
    }
    Ok(items)
}

/// Reads a container header. The end-of-file container gives `None`: the end of the data,
/// not an error. The checksum is read and not checked.
pub fn read_container_header(src: &[u8], pos: &mut usize) -> (r: Result<Option<Header>, Error>)
    ensures
        match container_header_at(src@, *old(pos) as int) {
            Ok((None, p)) => r matches Ok(None) && *final(pos) == p,
            Ok((Some(fields), p)) => r matches Ok(Some(h)) && h.fields() == fields && *final(pos) == p,
            Err(e) => r == Err::<Option<Header>, Error>(e),
        },
{
    let length: u32 = match read_u32_le(src, pos) {
        Ok(n) => n,
        Err(e) => return Err(e),
    };
    if length >= 0x8000_0000 {
        return Err(Error::InvalidData);
    }
    let id: u32 = match read_itf8(src, pos) {
        Ok(n) => n,
        Err(e) => return Err(e),
    };
    let start: u32 = match read_itf8(src, pos) {
        Ok(n) => n,
        Err(e) => return Err(e),
    };
    let span: u32 = match read_itf8(src, pos) {
        Ok(n) => n,
        Err(e) => return Err(e),
    };
    let context: ReferenceSequenceContext = if id == UNMAPPED_ID {
        ReferenceSequenceContext::Unmapped
    } else if id == MANY_ID {
        ReferenceSequenceContext::Many
    } else if id < 0x8000_0000 && start < 0x8000_0000 && span < 0x8000_0000 {
        ReferenceSequenceContext::Mapped {
            reference_sequence_id: id as usize,
            alignment_start: start as usize,
            alignment_span: span as usize,
        }
    } else {
        return Err(Error::InvalidData);
    };
    let record_count: usize = match read_itf8_nonneg(src, pos) {
        Ok(n) => n,
        Err(e) => return Err(e),
    };
    let record_counter: u64 = match read_ltf8_nonneg(src, pos) {
        Ok(n) => n,
        Err(e) => return Err(e),
    };
    let base_count: u64 = match read_ltf8_nonneg(src, pos) {
        Ok(n) => n,
        Err(e) => return Err(e),
    };
    let block_count: usize = match read_itf8_nonneg(src, pos) {
        Ok(n) => n,
        Err(e) => return Err(e),
    };
    let count: usize = match read_itf8_nonneg(src, pos) {
        Ok(n) => n,
        Err(e) => return Err(e),
    };
    let landmarks: Vec<usize> = match read_itf8_list(src, pos, count) {
        Ok(v) => v,
        Err(e) => return Err(e),
    };
    match read_u32_le(src, pos) {
        Ok(_) => {},
        Err(e) => return Err(e),
    }
    if length == EOF_LENGTH && id == UNMAPPED_ID && start == EOF_ALIGNMENT_START && record_count == 0
        && block_count == 1 {
        return Ok(None);
    }
    let header: Header = Builder::default()
        .set_reference_sequence_context(context)
        .set_record_count(record_count)
        .set_record_counter(record_counter)
        .set_base_count(base_count)
        .set_block_count(block_count)
        .set_landmarks(landmarks)
        .build();
    Ok(Some(header))
}

/// The header of the end-of-file container, as it is written.
pub open spec fn eof_header_bytes() -> Seq<u8> {
    seq![
        0x0fu8, 0x00, 0x00, 0x00,
        0xff, 0xff, 0xff, 0xff, 0x0f,
        0xe0, 0x45, 0x4f, 0x46,
        0x00,
        0x00,
        0x00,
        0x00,
        0x01,
        0x00,
        0x05, 0xbd, 0xd9, 0x4f,
    ]
}

/// Wherever the end-of-file header stands in the input, reading it gives no container and no
/// error, and moves past it.
pub proof fn lemma_eof_sentinel(src: Seq<u8>, pos: int)
    requires
        0 <= pos,
        pos + 23 <= src.len(),
        src.subrange(pos, pos + 23) == eof_header_bytes(),
    ensures
        container_header_at(src, pos) == Ok::<(Option<HeaderFields>, int), Error>((None, pos + 23)),
{
    let e = eof_header_bytes();
    assert forall|i: int| 0 <= i < 23 implies src[pos + i] == #[trigger] e[i] by {
        assert(src.subrange(pos, pos + 23)[i] == src[pos + i]);
    }
    assert(src[pos] == 0x0f && src[pos + 1] == 0 && src[pos + 2] == 0 && src[pos + 3] == 0);
    assert(src[pos + 4] == 0xff && src[pos + 5] == 0xff && src[pos + 6] == 0xff && src[pos + 7] == 0xff && src[pos + 8] == 0x0f);
    assert(src[pos + 9] == 0xe0 && src[pos + 10] == 0x45 && src[pos + 11] == 0x4f && src[pos + 12] == 0x46);
    assert(src[pos + 13] == 0 && src[pos + 14] == 0 && src[pos + 15] == 0 && src[pos + 16] == 0);
    assert(src[pos + 17] == 1 && src[pos + 18] == 0);
    assert(ltf8_at(src, pos + 15) == Ok::<(u64, int), Error>((0u64, pos + 16))) by {
        assert(crate::num::pow256(0) == 1);
    }
    assert(ltf8_at(src, pos + 16) == Ok::<(u64, int), Error>((0u64, pos + 17))) by {
        assert(crate::num::pow256(0) == 1);
    }
    assert(itf8_list_at(src, pos + 19, 0) == Ok::<(Seq<usize>, int), Error>((Seq::empty(), pos + 19)));
}

} // verus!
