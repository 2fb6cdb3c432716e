//! Blocks: typed byte spans of a container, stored as they are or entropy coded.
use vstd::prelude::*;

use crate::container::{content_type_of, get_content_type, ContentType};
use crate::error::Error;
use crate::num::{byte_at, extend_from, itf8_at, read_itf8, read_u32_le, read_u8, u32_le_at};
use crate::rans::{decode, decode_at};

verus! {

/// How a block's data is compressed.
#[derive(Clone, Copy, Debug, PartialEq, Eq, Structural)]
pub enum CompressionMethod {
    /// Stored as it is.
    Stored,
    Gzip,
    Bzip2,
    Lzma,
    /// The rANS codec with four interleaved states.
    Rans4x8,
    /// A method tag this library does not know.
    Other(u8),
}

/// The compression method of a tag byte.
pub open spec fn method_of(n: u8) -> CompressionMethod {
    if n == 0 {
        CompressionMethod::Stored
    } else if n == 1 {
        CompressionMethod::Gzip
    } else if n == 2 {
        CompressionMethod::Bzip2
    } else if n == 3 {
        CompressionMethod::Lzma
    } else if n == 4 {
        CompressionMethod::Rans4x8
    } else {
        CompressionMethod::Other(n)
    }
}

/// A block as read: its data is still compressed.
#[derive(Debug)]
pub struct Block {
    pub compression_method: CompressionMethod,
    pub content_type: ContentType,
    pub content_id: u32,
    pub uncompressed_size: usize,
    pub data: Vec<u8>,
}

/// The parts of a block at `pos`, and the position after it: method, content type, content
/// id, compressed and uncompressed sizes, the compressed bytes, and a 32-bit checksum.
pub open spec fn block_at(src: Seq<u8>, pos: int) -> Result<
    (CompressionMethod, ContentType, u32, usize, Seq<u8>, int),
    Error,
> {
    match byte_at(src, pos) {
        Err(e) => Err(e),
        Ok((m, p1)) => match byte_at(src, p1) {
            Err(e) => Err(e),
            Ok((t, p2)) => match content_type_of(t) {
                None => Err(Error::InvalidData),
                Some(content_type) => match itf8_at(src, p2) {
                    Err(e) => Err(e),
                    Ok((id, p3)) => match itf8_at(src, p3) {
                        Err(e) => Err(e),
                        Ok((size, p4)) => match itf8_at(src, p4) {
                            Err(e) => Err(e),
                            Ok((raw_size, p5)) => if size >= 0x8000_0000 || raw_size >= 0x8000_0000 {
                                Err(Error::InvalidData)
                            } else if p5 + size > src.len() {
                                Err(Error::UnexpectedEof)
                            } else {
                                match u32_le_at(src, p5 + size) {
                                    Err(e) => Err(e),
                                    Ok((_, p6)) => Ok(
                                        (
                                            method_of(m),
                                            content_type,
                                            id,
                                            raw_size as usize,
                                            src.subrange(p5, p5 + size),
                                            p6,
                                        ),
                                    ),
                                }
                            },
                        },
                    },
                },
            },
        },
    }
}

/// Reads a block. The checksum is read and not checked.
pub fn read_block(src: &[u8], pos: &mut usize) -> (r: Result<Block, Error>)
    ensures
        match block_at(src@, *old(pos) as int) {
            Ok((m, t, id, raw_size, data, p)) => r matches Ok(b) && b.compression_method == m
                && b.content_type == t && b.content_id == id && b.uncompressed_size == raw_size
                && b.data@ == data && *final(pos) == p,
            Err(e) => r == Err::<Block, Error>(e),
        },
{
    let m: u8 = match read_u8(src, pos) {
        Ok(n) => n,
        Err(e) => return Err(e),
    };
    let content_type: ContentType = match get_content_type(src, pos) {
        Ok(t) => t,
        Err(e) => return Err(e),
    };
    let content_id: u32 = match read_itf8(src, pos) {
        Ok(n) => n,
        Err(e) => return Err(e),
    };
    let size: u32 = match read_itf8(src, pos) {
        Ok(n) => n,
        Err(e) => return Err(e),
    };
    let raw_size: u32 = match read_itf8(src, pos) {
        Ok(n) => n,
        Err(e) => return Err(e),
    };
    if size >= 0x8000_0000 || raw_size >= 0x8000_0000 {
        return Err(Error::InvalidData);
    }
    let start: usize = *pos;
    if src.len() - start < size as usize {
        return Err(Error::UnexpectedEof);
    }
    let end: usize = start + size as usize;
    let mut data: Vec<u8> = Vec::new();
    extend_from(&mut data, src, start, end);
    assert(data@ =~= src@.subrange(start as int, end as int));
    *pos = end;
    match read_u32_le(src, pos) {
        Ok(_) => {},
        Err(e) => return Err(e),
    }
    let compression_method: CompressionMethod = if m == 0 {
        CompressionMethod::Stored
    } else if m == 1 {
        CompressionMethod::Gzip
    } else if m == 2 {
        CompressionMethod::Bzip2
    } else if m == 3 {
        CompressionMethod::Lzma
    } else if m == 4 {
        CompressionMethod::Rans4x8
    } else {
        CompressionMethod::Other(m)
    };
    Ok(Block { compression_method, content_type, content_id, uncompressed_size: raw_size as usize, data })
}

/// What a rANS payload decodes to: an order byte (only order 0 is decoded), the compressed and
/// the uncompressed lengths as 32-bit little-endian integers, then the coded data.
pub open spec fn rans_payload_decoded(data: Seq<u8>) -> Result<Seq<u8>, Error> {
    match byte_at(data, 0) {
        Err(e) => Err(e),
        Ok((order, _)) => if order != 0 {
            Err(Error::UnsupportedCompressionMethod)
        } else {
            match u32_le_at(data, 1) {
                Err(e) => Err(e),
                Ok((_, _)) => match u32_le_at(data, 5) {
                    Err(e) => Err(e),
                    Ok((n, p)) => match decode_at(data, p, n as nat) {
                        Err(e) => Err(e),
                        Ok((out, _)) => Ok(out),
                    },
                },
            }
        },
    }
}

/// What a block decodes to: its data as it is, or as the rANS codec decodes it; the result
/// must have the declared uncompressed size.
pub open spec fn block_decoded(
    method: CompressionMethod,
    data: Seq<u8>,
    uncompressed_size: usize,
) -> Result<Seq<u8>, Error> {
    let out = match method {
        CompressionMethod::Stored => Ok(data),
        CompressionMethod::Rans4x8 => rans_payload_decoded(data),
        _ => Err(Error::UnsupportedCompressionMethod),
    };
    match out {
        Err(e) => Err(e),
        Ok(o) => if o.len() == uncompressed_size {
            Ok(o)
        } else {
            Err(Error::InvalidData)
        },
    }
}

/// Decodes a rANS payload.
fn decode_rans_payload(data: &[u8]) -> (r: Result<Vec<u8>, Error>)
    ensures
        match rans_payload_decoded(data@) {
            Ok(out) => r matches Ok(v) && v@ == out,
            Err(e) => r == Err::<Vec<u8>, Error>(e),
        },
{
    let mut pos: usize = 0;
    let order: u8 = match read_u8(data, &mut pos) {
        Ok(n) => n,
        Err(e) => return Err(e),
    };
    if order != 0 {
        return Err(Error::UnsupportedCompressionMethod);
    }
    match read_u32_le(data, &mut pos) {
        Ok(_) => {},
        Err(e) => return Err(e),
    }
    let n: u32 = match read_u32_le(data, &mut pos) {
        Ok(n) => n,
        Err(e) => return Err(e),
    };
    let mut dst: Vec<u8> = Vec::new();
    let mut i: u32 = 0;
    while i < n
        invariant
            i <= n,
            dst@.len() == i,
        decreases n - i,
    {
        dst.push(0);
        i = i + 1;
    }
    match decode(data, &mut pos, &mut dst) {
        Ok(()) => Ok(dst),
        Err(e) => Err(e),
    }
}

impl Block {
    /// Decodes the block's data and checks it against the declared uncompressed size.
    pub fn decode(&self) -> (r: Result<Vec<u8>, Error>)
        ensures
            match block_decoded(self.compression_method, self.data@, self.uncompressed_size) {
                Ok(out) => r matches Ok(v) && v@ == out,
                Err(e) => r == Err::<Vec<u8>, Error>(e),
            },
    {
        let out: Vec<u8> = match self.compression_method {
            CompressionMethod::Stored => {
                let mut out: Vec<u8> = Vec::new();
                extend_from(&mut out, self.data.as_slice(), 0, self.data.len());
                assert(out@ =~= self.data@);
                out
            },
            CompressionMethod::Rans4x8 => match decode_rans_payload(self.data.as_slice()) {
                Ok(out) => out,
                Err(e) => return Err(e),
            },
            _ => return Err(Error::UnsupportedCompressionMethod),
        };
        if out.len() == self.uncompressed_size {
            Ok(out)
        } else {
            Err(Error::InvalidData)
        }
    }
}

} // verus!
