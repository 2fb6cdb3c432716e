//! The encoder that the order-0 decoder inverts, stated as specification, and the proof that
//! decoding what it writes gives back the symbols.
//!
//! Symbols are encoded from last to first, state `i % 4` taking symbol `i`. Before a symbol is
//! encoded, its state gives up its low bytes until it is below `2^19` times the symbol's
//! frequency; those bytes are read back, most significant first, by the decoder right after it
//! decodes that symbol.
use vstd::arithmetic::div_mod::{lemma_fundamental_div_mod, lemma_fundamental_div_mod_converse};
use vstd::prelude::*;

use crate::error::Error;
use crate::num::u32_le_at;
use crate::rans::{
    advance, cumulative, decode_at, decode_steps, frequencies_at, states_at, encode_step, lemma_cumulative_monotone,
    lemma_step_round_trip, renormalize, total, ALPHABET_SIZE, LOWER_BOUND, STATE_COUNT,
    TOTAL_FREQUENCY,
};

verus! {

/// The bound under which a state must be before it takes a symbol of frequency `f`.
pub open spec fn state_bound(f: int) -> int {
    0x8_0000 * f
}

/// The bytes a state gives up before it goes under `bound`, most significant first.
pub open spec fn shifted_out(x: int, bound: int) -> Seq<u8>
    decreases x,
{
    if bound > 0 && x >= bound {
        shifted_out(x / 256, bound).push((x % 256) as u8)
    } else {
        Seq::empty()
    }
}

/// What is left of a state once it has gone under `bound`.
pub open spec fn shifted_state(x: int, bound: int) -> int
    decreases x,
{
    if bound > 0 && x >= bound {
        shifted_state(x / 256, bound)
    } else {
        x
    }
}

/// The states after symbols `k..` of `data` have been encoded.
pub open spec fn encoded_states(freqs: Seq<u16>, data: Seq<u8>, k: int) -> Seq<u32>
    decreases data.len() - k,
{
    if k >= data.len() || k < 0 {
        seq![LOWER_BOUND, LOWER_BOUND, LOWER_BOUND, LOWER_BOUND]
    } else {
        let st = encoded_states(freqs, data, k + 1);
        let j = k % (STATE_COUNT as int);
        let s = data[k] as int;
        let y = shifted_state(st[j] as int, state_bound(freqs[s] as int));
        st.update(j, encode_step(freqs, s, y) as u32)
    }
}

/// The bytes written for symbol `k`, in the order the decoder reads them.
pub open spec fn symbol_bytes(freqs: Seq<u16>, data: Seq<u8>, k: int) -> Seq<u8> {
    let j = k % (STATE_COUNT as int);
    shifted_out(
        encoded_states(freqs, data, k + 1)[j] as int,
        state_bound(freqs[data[k] as int] as int),
    )
}

/// The bytes written for the first `k` symbols.
pub open spec fn encoded_bytes(freqs: Seq<u16>, data: Seq<u8>, k: int) -> Seq<u8>
    decreases k,
{
    if k <= 0 {
        Seq::empty()
    } else {
        encoded_bytes(freqs, data, k - 1) + symbol_bytes(freqs, data, k - 1)
    }
}

/// A valid table in which every symbol of `data` has a frequency.
pub open spec fn encodable(freqs: Seq<u16>, data: Seq<u8>) -> bool {
    &&& freqs.len() == ALPHABET_SIZE
    &&& total(freqs) == TOTAL_FREQUENCY
    &&& forall|i: int| 0 <= i < data.len() ==> freqs[#[trigger] data[i] as int] > 0
}

/// What is left of a state is below the bound, and not below it by more than a byte.
proof fn lemma_shifted_state_range(x: int, bound: int)
    requires
        bound > 0,
        x >= 0,
    ensures
        0 <= shifted_state(x, bound) < bound || x < bound,
        x >= bound ==> shifted_state(x, bound) >= bound / 256,
        x < bound ==> shifted_state(x, bound) == x,
    decreases x,
{
    if x >= bound {
        let y = x / 256;
        lemma_shifted_state_range(y, bound);
        assert(y >= bound / 256) by {
            lemma_fundamental_div_mod(x, 256);
            lemma_fundamental_div_mod(bound, 256);
        }
    }
}

/// Renormalizing what is left of a state, over the bytes it gave up, rebuilds the state.
proof fn lemma_shift_back(src: Seq<u8>, p: int, x: int, bound: int)
    requires
        bound > 0,
        0 <= x < 0x8000_0000,
        0 <= p,
        p + shifted_out(x, bound).len() <= src.len(),
        src.subrange(p, p + shifted_out(x, bound).len()) == shifted_out(x, bound),
    ensures
        renormalize(src, shifted_state(x, bound), p) == renormalize(
            src,
            x,
            p + shifted_out(x, bound).len(),
        ),
    decreases x,
{
    if x >= bound {
        let y = x / 256;
        let out_y = shifted_out(y, bound);
        let q = p + out_y.len();
        lemma_fundamental_div_mod(x, 256);
        assert(src.subrange(p, q) =~= out_y) by {
            assert forall|i: int| 0 <= i < out_y.len() implies src.subrange(p, q)[i] == out_y[i] by {
                assert(src.subrange(p, p + shifted_out(x, bound).len())[i] == src[p + i]);
            }
        }
        lemma_shift_back(src, p, y, bound);
        assert(src[q] == (x % 256) as u8) by {
            assert(src.subrange(p, p + shifted_out(x, bound).len())[out_y.len() as int] == src[q]);
        }
        assert(y < LOWER_BOUND);
        assert(y * 256 + src[q] == x);
    }
}

/// Every state the encoder holds lies in `[2^23, 2^31)`.
proof fn lemma_encoded_states_range(freqs: Seq<u16>, data: Seq<u8>, k: int)
    requires
        encodable(freqs, data),
        0 <= k <= data.len(),
    ensures
        encoded_states(freqs, data, k).len() == STATE_COUNT,
        forall|j: int|
            0 <= j < STATE_COUNT ==> LOWER_BOUND <= #[trigger] encoded_states(freqs, data, k)[j]
                < 0x8000_0000,
        k < data.len() ==> {
            let x = encoded_states(freqs, data, k + 1)[k % (STATE_COUNT as int)] as int;
            let s = data[k] as int;
            let e = encode_step(freqs, s, shifted_state(x, state_bound(freqs[s] as int)));
            LOWER_BOUND <= e < 0x8000_0000
        },
    decreases data.len() - k,
{
    if k < data.len() {
        lemma_encoded_states_range(freqs, data, k + 1);
        let st = encoded_states(freqs, data, k + 1);
        let j = k % (STATE_COUNT as int);
        let s = data[k] as int;
        let f = freqs[s] as int;
        let bound = state_bound(f);
        let x = st[j] as int;
        let y = shifted_state(x, bound);
        assert(f > 0);
        lemma_cumulative_monotone(freqs, s + 1, ALPHABET_SIZE as int);
        lemma_cumulative_monotone(freqs, 0, s);
        assert(cumulative(freqs, s + 1) == cumulative(freqs, s) + f);
        assert(f <= 4096);
        lemma_shifted_state_range(x, bound);
        assert(0x800 * f <= y < bound) by {
            if x < bound {
                assert(0x800 * f <= 0x80_0000);
            } else {
                assert(bound / 256 == 0x800 * f);
            }
        }
        let c = cumulative(freqs, s);
        assert(c + f <= 4096);
        let q = y / f;
        lemma_fundamental_div_mod(y, f);
        assert(0x800 <= q < 0x8_0000) by (nonlinear_arith)
            requires
                y == f * q + y % f,
                0 <= y % f < f,
                0x800 * f <= y < 0x8_0000 * f,
                f > 0,
        {
            if q < 0x800 {
                assert(f * q <= f * 0x7ff);
            }
            if q >= 0x8_0000 {
                assert(f * q >= f * 0x8_0000);
            }
        }
        let e = encode_step(freqs, s, y);
        assert(e == q * 4096 + y % f + c);
        assert(0x80_0000 <= e < 0x8000_0000) by (nonlinear_arith)
            requires
                e == q * 4096 + y % f + c,
                0x800 <= q < 0x8_0000,
                0 <= y % f < f,
                c >= 0,
                c + f <= 4096,
        {
        }
    }
}

/// Decoding the first `k` symbols from the encoder's initial states, over its bytes, gives
/// those symbols, the states the encoder held after them, and the position after their bytes.
proof fn lemma_decode_prefix(src: Seq<u8>, p: int, freqs: Seq<u16>, data: Seq<u8>, k: int)
    requires
        encodable(freqs, data),
        0 <= k <= data.len(),
        0 <= p,
        p + encoded_bytes(freqs, data, data.len() as int).len() <= src.len(),
        src.subrange(p, p + encoded_bytes(freqs, data, data.len() as int).len()) == encoded_bytes(
            freqs,
            data,
            data.len() as int,
        ),
    ensures
        decode_steps(src, freqs, encoded_states(freqs, data, 0), p, k as nat) == Ok::<
            (Seq<u8>, Seq<u32>, int),
            Error,
        >((data.take(k), encoded_states(freqs, data, k), p + encoded_bytes(freqs, data, k).len())),
    decreases k,
{
    if k > 0 {
        lemma_decode_prefix(src, p, freqs, data, k - 1);
        let i = k - 1;
        let j = i % (STATE_COUNT as int);
        let s = data[i] as int;
        let f = freqs[s] as int;
        let bound = state_bound(f);
        let after = encoded_states(freqs, data, k);
        let before = encoded_states(freqs, data, i);
        lemma_encoded_states_range(freqs, data, k);
        lemma_encoded_states_range(freqs, data, i);
        let x = after[j] as int;
        let y = shifted_state(x, bound);
        assert(f > 0);
        lemma_shifted_state_range(x, bound);
        assert(before[j] as int == encode_step(freqs, s, y));
        lemma_step_round_trip(freqs, s, y);
        assert(advance(freqs, before[j] as int) == (s, y));
        let q = p + encoded_bytes(freqs, data, i).len();
        let out = shifted_out(x, bound);
        assert(symbol_bytes(freqs, data, i) == out);
        lemma_encoded_bytes_prefix(freqs, data, k, data.len() as int);
        let all = encoded_bytes(freqs, data, data.len() as int);
        assert(src.subrange(q, q + out.len()) =~= out) by {
            assert forall|t: int| 0 <= t < out.len() implies src.subrange(q, q + out.len())[t] == out[t] by {
                let u = encoded_bytes(freqs, data, i).len() + t;
                assert(src.subrange(p, p + all.len())[u] == src[p + u]);
                assert(encoded_bytes(freqs, data, k) == encoded_bytes(freqs, data, i) + out);
                assert(all[u] == encoded_bytes(freqs, data, k)[u]);
            }
        }
        lemma_shift_back(src, q, x, bound);
        assert(renormalize(src, x, q + out.len()) == Ok::<(u32, int), Error>((x as u32, q + out.len())));
        assert(before.update(j, x as u32) =~= after);
        assert(data.take(i).push(data[i]) =~= data.take(k));
        assert(renormalize(src, y, q) == Ok::<(u32, int), Error>((x as u32, q + out.len())));
        assert(encoded_bytes(freqs, data, k).len() == q - p + out.len());
        let st0 = encoded_states(freqs, data, 0);
        assert(decode_steps(src, freqs, st0, p, i as nat) == Ok::<(Seq<u8>, Seq<u32>, int), Error>(
            (data.take(i), before, q),
        ));
        assert(decode_steps(src, freqs, st0, p, k as nat) == Ok::<(Seq<u8>, Seq<u32>, int), Error>(
            (data.take(i).push(s as u8), before.update(j, x as u32), q + out.len()),
        ));
    } else {
        assert(data.take(0) =~= Seq::<u8>::empty());
    }
}

/// Bytes written for fewer symbols are a prefix of the bytes written for more.
proof fn lemma_encoded_bytes_prefix(freqs: Seq<u16>, data: Seq<u8>, k: int, m: int)
    requires
        0 <= k <= m,
    ensures
        encoded_bytes(freqs, data, k).len() <= encoded_bytes(freqs, data, m).len(),
        encoded_bytes(freqs, data, m).subrange(0, encoded_bytes(freqs, data, k).len() as int)
            == encoded_bytes(freqs, data, k),
    decreases m - k,
{
    if k < m {
        lemma_encoded_bytes_prefix(freqs, data, k, m - 1);
        let a = encoded_bytes(freqs, data, k);
        let b = encoded_bytes(freqs, data, m - 1);
        let c = encoded_bytes(freqs, data, m);
        assert(c == b + symbol_bytes(freqs, data, m - 1));
        assert(c.subrange(0, a.len() as int) =~= b.subrange(0, a.len() as int));
    }
}

/// Round trip: for a frequency table and symbols that all have a frequency in it, decoding,
/// from the encoder's final states, the bytes the encoder wrote gives back the symbols, and
/// consumes exactly those bytes.
pub proof fn lemma_round_trip(src: Seq<u8>, p: int, freqs: Seq<u16>, data: Seq<u8>)
    requires
        encodable(freqs, data),
        0 <= p,
        p + encoded_bytes(freqs, data, data.len() as int).len() <= src.len(),
        src.subrange(p, p + encoded_bytes(freqs, data, data.len() as int).len()) == encoded_bytes(
            freqs,
            data,
            data.len() as int,
        ),
    ensures
        decode_steps(src, freqs, encoded_states(freqs, data, 0), p, data.len()) matches Ok(
            (out, _, q),
        ) && out == data && q == p + encoded_bytes(freqs, data, data.len() as int).len(),
{
    lemma_decode_prefix(src, p, freqs, data, data.len() as int);
    assert(data.take(data.len() as int) =~= data);
}

/// The four little-endian bytes of `x`.
pub open spec fn le_bytes(x: u32) -> Seq<u8> {
    seq![
        (x % 0x100) as u8,
        (x / 0x100 % 0x100) as u8,
        (x / 0x1_0000 % 0x100) as u8,
        (x / 0x100_0000) as u8,
    ]
}

/// The bytes of four states, in order.
pub open spec fn states_bytes(st: Seq<u32>) -> Seq<u8> {
    le_bytes(st[0]) + le_bytes(st[1]) + le_bytes(st[2]) + le_bytes(st[3])
}

/// Reading the little-endian bytes of `x` gives back `x`.
proof fn lemma_le_bytes(src: Seq<u8>, p: int, x: u32)
    requires
        0 <= p,
        p + 4 <= src.len(),
        src.subrange(p, p + 4) == le_bytes(x),
    ensures
        u32_le_at(src, p) == Ok::<(u32, int), Error>((x, p + 4)),
{
    let b = le_bytes(x);
    assert(src[p] == b[0] && src[p + 1] == b[1] && src[p + 2] == b[2] && src[p + 3] == b[3]) by {
        assert(src.subrange(p, p + 4)[0] == src[p]);
        assert(src.subrange(p, p + 4)[1] == src[p + 1]);
        assert(src.subrange(p, p + 4)[2] == src[p + 2]);
        assert(src.subrange(p, p + 4)[3] == src[p + 3]);
    }
    let v = x as int;
    lemma_fundamental_div_mod(v, 0x100);
    lemma_fundamental_div_mod(v / 0x100, 0x100);
    lemma_fundamental_div_mod(v / 0x100 / 0x100, 0x100);
    assert(v / 0x100 / 0x100 == v / 0x1_0000) by {
        vstd::arithmetic::div_mod::lemma_div_denominator(v, 0x100, 0x100);
    }
    assert(v / 0x1_0000 / 0x100 == v / 0x100_0000) by {
        vstd::arithmetic::div_mod::lemma_div_denominator(v, 0x1_0000, 0x100);
    }
    assert(v / 0x100_0000 < 0x100);
}

/// Round trip of a whole block: a prologue that reads as a table in which every symbol has a
/// frequency, then the bytes of the encoder's final states, then the bytes it wrote, decode to
/// the symbols and consume exactly that input.
pub proof fn lemma_block_round_trip(src: Seq<u8>, pos: int, data: Seq<u8>)
    requires
        0 <= pos,
        frequencies_at(src, pos) matches Ok((freqs, p)) && {
            let body = encoded_bytes(freqs, data, data.len() as int);
            &&& encodable(freqs, data)
            &&& p + 16 + body.len() <= src.len()
            &&& src.subrange(p, p + 16) == states_bytes(encoded_states(freqs, data, 0))
            &&& src.subrange(p + 16, p + 16 + body.len()) == body
        },
    ensures
        frequencies_at(src, pos) matches Ok((freqs, p)) && decode_at(src, pos, data.len())
            == Ok::<(Seq<u8>, int), Error>(
            (data, p + 16 + encoded_bytes(freqs, data, data.len() as int).len()),
        ),
{
    let (freqs, p) = frequencies_at(src, pos).unwrap();
    crate::rans::lemma_frequencies_advance(src, pos);
    let st = encoded_states(freqs, data, 0);
    lemma_encoded_states_range(freqs, data, 0);
    let sb = states_bytes(st);
    assert forall|i: int| 0 <= i < 4 implies src.subrange(p + 4 * i, p + 4 * i + 4) == le_bytes(
        #[trigger] st[i],
    ) by {
        assert(src.subrange(p + 4 * i, p + 4 * i + 4) =~= sb.subrange(4 * i, 4 * i + 4));
        assert(sb.subrange(4 * i, 4 * i + 4) =~= le_bytes(st[i]));
    }
    lemma_le_bytes(src, p, st[0]);
    lemma_le_bytes(src, p + 4, st[1]);
    lemma_le_bytes(src, p + 8, st[2]);
    lemma_le_bytes(src, p + 12, st[3]);
    assert(states_at(src, p) == Ok::<(Seq<u32>, int), Error>((st, p + 16))) by {
        assert(states_at(src, p).unwrap().0 =~= st);
    }
    lemma_round_trip(src, p + 16, freqs, data);
}

} // verus!
