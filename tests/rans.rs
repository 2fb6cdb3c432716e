use cram::error::Error;
use cram::rans::{
    build_cumulative_frequencies, build_cumulative_freqs_symbols_table_0, decode,
    read_frequencies_0,
};
use cram::block::{read_block, CompressionMethod};

fn itf8(n: u32, out: &mut Vec<u8>) {
    if n < 0x80 {
        out.push(n as u8);
    } else if n < 0x4000 {
        out.push(0x80 | (n >> 8) as u8);
        out.push(n as u8);
    } else {
        out.push(0xc0 | (n >> 16) as u8);
        out.push((n >> 8) as u8);
        out.push(n as u8);
    }
}

/// Frequencies proportional to the counts of `data`, summing to 4096.
fn frequencies_of(data: &[u8]) -> Vec<u32> {
    let mut counts = vec![0u32; 256];
    for &b in data {
        counts[usize::from(b)] += 1;
    }
    let n = data.len() as u32;
    let mut freqs: Vec<u32> = counts.iter().map(|&c| if c > 0 { (c * 4096 / n).max(1) } else { 0 }).collect();
    let sum: u32 = freqs.iter().sum();
    let top = (0..256).max_by_key(|&i| freqs[i]).unwrap();
    freqs[top] = freqs[top] + 4096 - sum;
    freqs
}

fn prologue(freqs: &[u32]) -> Vec<u8> {
    let mut out = Vec::new();
    let mut prev: Option<usize> = None;
    for (sym, &f) in freqs.iter().enumerate() {
        if f == 0 {
            continue;
        }
        out.push(sym as u8);
        if let Some(p) = prev {
            if p + 1 == sym {
                out.push(0);
            }
        }
        itf8(f, &mut out);
        prev = Some(sym);
    }
    out.push(0);
    out
}

/// An order-0 encoder with four interleaved states.
fn encode(data: &[u8]) -> Vec<u8> {
    let freqs = frequencies_of(data);
    let mut cum = vec![0u32; 257];
    for i in 0..256 {
        cum[i + 1] = cum[i] + freqs[i];
    }
    let mut states = [1u32 << 23; 4];
    let mut stack = Vec::new();
    for i in (0..data.len()).rev() {
        let s = usize::from(data[i]);
        let j = i % 4;
        let mut x = states[j];
        let x_max = ((1u32 << 23) >> 12 << 8) * freqs[s];
        while x >= x_max {
            stack.push(x as u8);
            x >>= 8;
        }
        states[j] = ((x / freqs[s]) << 12) + (x % freqs[s]) + cum[s];
    }
    let mut out = prologue(&freqs);
    for x in states {
        out.extend_from_slice(&x.to_le_bytes());
    }
    stack.reverse();
    out.extend(stack);
    out
}

fn round_trip(data: &[u8]) {
    let src = encode(data);
    let mut dst = vec![0; data.len()];
    let mut pos = 0;
    assert_eq!(decode(&src, &mut pos, &mut dst), Ok(()));
    assert_eq!(dst, data);
    assert_eq!(pos, src.len());
}

#[test]
fn decode_inverts_encode() {
    round_trip(b"noodles");
    round_trip(b"AAAAAAAAAAAAAAAACGT");
    round_trip(b"the quick brown fox jumps over the lazy dog, again and again and again");
    round_trip(b"abcdefghijklmnopqrstuvwxyz0123456789");
}

#[test]
fn decode_of_a_single_symbol_table() {
    // 'A' with the whole total, then four states at the lower bound
    let mut src = vec![0x41, 0x90, 0x00, 0x00];
    for _ in 0..4 {
        src.extend_from_slice(&[0x00, 0x00, 0x80, 0x00]);
    }
    let mut dst = vec![0; 6];
    let mut pos = 0;
    assert_eq!(decode(&src, &mut pos, &mut dst), Ok(()));
    assert_eq!(dst, b"AAAAAA");
    assert_eq!(pos, 20);
}

#[test]
fn frequencies_with_a_run() {
    // 'a' = 1024, then 'b' starts a run of two more: 'b', 'c', 'd' = 1024 each
    let src = [0x61, 0x84, 0x00, 0x62, 0x02, 0x84, 0x00, 0x84, 0x00, 0x84, 0x00, 0x00];
    let mut pos = 0;
    let freqs = read_frequencies_0(&src, &mut pos).unwrap();
    assert_eq!(pos, src.len());
    for (i, &f) in freqs.iter().enumerate() {
        let expected = if (0x61..=0x64).contains(&i) { 1024 } else { 0 };
        assert_eq!(f, expected);
    }
}

#[test]
fn frequencies_that_miss_the_total_are_rejected() {
    // 'A' = 4095
    let src = [0x41, 0x8f, 0xff, 0x00];
    let mut pos = 0;
    assert_eq!(read_frequencies_0(&src, &mut pos), Err(Error::InvalidData));

    let mut src = src.to_vec();
    src.extend_from_slice(&[0u8; 16]);
    let mut dst = vec![0; 4];
    let mut pos = 0;
    assert_eq!(decode(&src, &mut pos, &mut dst), Err(Error::InvalidData));
    assert_eq!(dst, vec![0; 4]);
}

#[test]
fn truncated_input_is_an_unexpected_eof() {
    let mut pos = 0;
    assert_eq!(read_frequencies_0(&[0x41, 0x90], &mut pos), Err(Error::UnexpectedEof));

    let src = encode(b"noodles");
    let mut dst = vec![0; 7];
    let mut pos = 0;
    assert_eq!(decode(&src[..src.len() - 1], &mut pos, &mut dst), Err(Error::UnexpectedEof));
}

#[test]
fn a_frequency_above_u16_is_invalid() {
    // 0x1_0000 as a three-byte integer
    let src = [0x41, 0xc1, 0x00, 0x00, 0x00];
    let mut pos = 0;
    assert_eq!(read_frequencies_0(&src, &mut pos), Err(Error::InvalidData));
}

#[test]
fn cumulative_and_symbol_tables() {
    let mut freqs = vec![0u16; 256];
    freqs[1] = 1000;
    freqs[3] = 3000;
    freqs[255] = 96;
    let cum = build_cumulative_frequencies(&freqs);
    assert_eq!(cum.len(), 257);
    assert_eq!(cum[0], 0);
    assert_eq!(cum[1], 0);
    assert_eq!(cum[2], 1000);
    assert_eq!(cum[4], 4000);
    assert_eq!(cum[255], 4000);
    assert_eq!(cum[256], 4096);
    assert!(cum.windows(2).all(|w| w[0] <= w[1]));

    let table = build_cumulative_freqs_symbols_table_0(&cum);
    assert_eq!(table.len(), 4096);
    assert_eq!(table[0], 1);
    assert_eq!(table[999], 1);
    assert_eq!(table[1000], 3);
    assert_eq!(table[3999], 3);
    assert_eq!(table[4000], 255);
    assert_eq!(table[4095], 255);
}

#[test]
fn rans_block_decodes_to_its_declared_size() {
    let data = b"ACGTTTGACCAGGTTACGAT";
    let coded = encode(data);
    let mut payload = vec![0x00];
    payload.extend_from_slice(&(coded.len() as u32).to_le_bytes());
    payload.extend_from_slice(&(data.len() as u32).to_le_bytes());
    payload.extend_from_slice(&coded);

    let mut src = vec![0x04, 0x05, 0x00];
    itf8(payload.len() as u32, &mut src);
    itf8(data.len() as u32, &mut src);
    src.extend_from_slice(&payload);
    src.extend_from_slice(&[0; 4]);

    let mut pos = 0;
    let block = read_block(&src, &mut pos).unwrap();
    assert_eq!(pos, src.len());
    assert_eq!(block.compression_method, CompressionMethod::Rans4x8);
    assert_eq!(block.decode(), Ok(data.to_vec()));

    // an order-1 payload is not decoded
    let mut order_1 = src.clone();
    order_1[5] = 0x01;
    let mut pos = 0;
    let block = read_block(&order_1, &mut pos).unwrap();
    assert_eq!(block.decode(), Err(Error::UnsupportedCompressionMethod));
}

#[test]
fn a_failed_decode_keeps_the_buffer_length() {
    let src = encode(b"noodles");
    let mut dst = vec![7; 7];
    let mut pos = 0;
    assert_eq!(decode(&src[..src.len() - 1], &mut pos, &mut dst), Err(Error::UnexpectedEof));
    assert_eq!(dst.len(), 7);

    // missing initial states: nothing is written
    let mut src = vec![0x41, 0x90, 0x00, 0x00];
    src.extend_from_slice(&[0x00, 0x00, 0x80]);
    let mut dst = vec![7; 3];
    let mut pos = 0;
    assert_eq!(decode(&src, &mut pos, &mut dst), Err(Error::UnexpectedEof));
    assert_eq!(dst, vec![7; 3]);
}
