//! The order-0 rANS entropy codec with four interleaved states.
use vstd::arithmetic::div_mod::{lemma_fundamental_div_mod, lemma_fundamental_div_mod_converse};
use vstd::prelude::*;

use crate::error::Error;
use crate::num::{byte_at, itf8_u16_at, read_itf8_as_u16, read_u32_le, read_u8, u32_le_at};

verus! {

/// The number of symbols.
pub const ALPHABET_SIZE: usize = 256;

/// The sum that the frequencies of a valid table reach.
pub const TOTAL_FREQUENCY: u32 = 4096;

/// The number of interleaved codec states.
pub const STATE_COUNT: usize = 4;

/// The lower bound under which a state is refilled from the input.
pub const LOWER_BOUND: u32 = 0x80_0000;

/// A table of all zero frequencies.
pub open spec fn zero_frequencies() -> Seq<u16> {
    Seq::new(ALPHABET_SIZE as nat, |i: int| 0u16)
}

/// The frequency entries of a table prologue, from the entry of `sym` at `pos` on. `last` is
/// the previous symbol read, `run` how many symbols of a run are left after this one.
pub open spec fn frequency_entries(
    src: Seq<u8>,
    pos: int,
    sym: int,
    last: int,
    run: int,
    freqs: Seq<u16>,
) -> Result<(Seq<u16>, int), Error>
    decreases src.len() - pos,
{
    if pos < 0 || pos >= src.len() {
        Err(Error::UnexpectedEof)
    } else {
        match itf8_u16_at(src, pos) {
            Err(e) => Err(e),
            Ok((f, p)) => {
                let freqs = freqs.update(sym, f);
                if run > 0 {
                    if sym >= 255 {
                        Err(Error::InvalidData)
                    } else {
                        frequency_entries(src, p, sym + 1, sym + 1, run - 1, freqs)
                    }
                } else {
                    match byte_at(src, p) {
                        Err(e) => Err(e),
                        Ok((b, p2)) => if b == 0 {
                            Ok((freqs, p2))
                        } else if last < 255 && b == last + 1 {
                            match byte_at(src, p2) {
                                Err(e) => Err(e),
                                Ok((n, p3)) => frequency_entries(src, p3, b as int, b as int, n as int, freqs),
                            }
                        } else {
                            frequency_entries(src, p2, b as int, b as int, 0, freqs)
                        },
                    }
                }
            },
        }
    }
}

/// The sum of the first `k` frequencies.
pub open spec fn cumulative(freqs: Seq<u16>, k: int) -> int
    decreases k,
{
    if k <= 0 {
        0
    } else {
        cumulative(freqs, k - 1) + freqs[k - 1]
    }
}

/// The sum of all frequencies of a table.
pub open spec fn total(freqs: Seq<u16>) -> int {
    cumulative(freqs, ALPHABET_SIZE as int)
}

/// The frequency table that a prologue at `pos` encodes, and the position after it. A table
/// whose frequencies do not sum to the fixed total is invalid.
pub open spec fn frequencies_at(src: Seq<u8>, pos: int) -> Result<(Seq<u16>, int), Error> {
    match byte_at(src, pos) {
        Err(e) => Err(e),
        Ok((s, p)) => match frequency_entries(src, p, s as int, s as int, 0, zero_frequencies()) {
            Err(e) => Err(e),
            Ok((freqs, p2)) => if total(freqs) == TOTAL_FREQUENCY {
                Ok((freqs, p2))
            } else {
                Err(Error::InvalidData)
            },
        },
    }
}

/// Reads the frequency table prologue of an order-0 block and checks that its frequencies sum
/// to the fixed total, before any symbol is decoded.
pub fn read_frequencies_0(src: &[u8], pos: &mut usize) -> (r: Result<Vec<u16>, Error>)
    ensures
        match frequencies_at(src@, *old(pos) as int) {
            Ok((freqs, p)) => r matches Ok(v) && v@ == freqs && *final(pos) == p && p <= src@.len()
                && freqs.len() == ALPHABET_SIZE,
            Err(e) => r == Err::<Vec<u16>, Error>(e),
        },
{
    let mut frequencies: Vec<u16> = Vec::new();
    let mut i: usize = 0;
    while i < ALPHABET_SIZE
        invariant
            i <= ALPHABET_SIZE,
            frequencies@ == Seq::new(i as nat, |j: int| 0u16),
        decreases ALPHABET_SIZE - i,
    {
        frequencies.push(0);
        i = i + 1;
    }
    assert(frequencies@ =~= zero_frequencies());
    let ghost start: int = *pos as int;
    let first: u8 = match read_u8(src, pos) {
        Ok(b) => b,
        Err(e) => return Err(e),
    };
    let mut sym: u8 = first;
    let mut last: u8 = first;
    let mut run: u8 = 0;
    let ghost entries: int = *pos as int;
    let ghost parsed = frequency_entries(src@, entries, first as int, first as int, 0, zero_frequencies());
    loop
        invariant_except_break
            parsed == frequency_entries(src@, *pos as int, sym as int, last as int, run as int, frequencies@),
        invariant
            *pos <= src@.len(),
            start == *old(pos),
            frequencies@.len() == ALPHABET_SIZE,
            byte_at(src@, start) == Ok::<(u8, int), Error>((first, entries)),
            parsed == frequency_entries(src@, entries, first as int, first as int, 0, zero_frequencies()),
        ensures
            parsed == Ok::<(Seq<u16>, int), Error>((frequencies@, *pos as int)),
        decreases src@.len() - *pos,
    {
        let f: u16 = match read_itf8_as_u16(src, pos) {
            Ok(f) => f,
            Err(e) => return Err(e),
        };
        frequencies.set(sym as usize, f);
        if run > 0 {
            if sym == 255 {
                return Err(Error::InvalidData);
            }
            run = run - 1;
            sym = sym + 1;
            last = sym;
        } else {
            let b: u8 = match read_u8(src, pos) {
                Ok(b) => b,
                Err(e) => return Err(e),
            };
            if b == 0 {
                break;
            }
            if last < 255 && b == last + 1 {
                run = match read_u8(src, pos) {
                    Ok(n) => n,
                    Err(e) => return Err(e),
                };
            }
            sym = b;
            last = b;
        }
    }
    let sum: u32 = sum_frequencies(&frequencies);
    if sum == TOTAL_FREQUENCY {
        Ok(frequencies)
    } else {
        Err(Error::InvalidData)
    }
}

/// The sum of all frequencies of a table.
fn sum_frequencies(freqs: &Vec<u16>) -> (r: u32)
    requires
        freqs@.len() == ALPHABET_SIZE,
    ensures
        r == total(freqs@),
{
    let mut sum: u32 = 0;
    let mut i: usize = 0;
    while i < ALPHABET_SIZE
        invariant
            i <= ALPHABET_SIZE,
            freqs@.len() == ALPHABET_SIZE,
            sum == cumulative(freqs@, i as int),
            sum <= i * 0xffff,
        decreases ALPHABET_SIZE - i,
    {
        sum = sum + freqs[i] as u32;
        i = i + 1;
    }
    sum
}

/// Cumulative sums never decrease along the table.
pub proof fn lemma_cumulative_monotone(freqs: Seq<u16>, i: int, j: int)
    requires
        0 <= i <= j,
    ensures
        cumulative(freqs, i) <= cumulative(freqs, j),
    decreases j - i,
{
    if i < j {
        lemma_cumulative_monotone(freqs, i, j - 1);
    }
}

/// Builds the cumulative frequency table: one more entry than symbols, starting at zero,
/// never decreasing, and ending at the sum of all frequencies.
pub fn build_cumulative_frequencies(frequencies: &Vec<u16>) -> (r: Vec<u32>)
    requires
        frequencies@.len() == ALPHABET_SIZE,
    ensures
        r@.len() == ALPHABET_SIZE + 1,
        forall|k: int| 0 <= k <= ALPHABET_SIZE ==> #[trigger] r@[k] == cumulative(frequencies@, k),
        r@[0] == 0,
        forall|k: int| 0 <= k < ALPHABET_SIZE ==> #[trigger] r@[k] <= r@[k + 1],
        r@[ALPHABET_SIZE as int] == total(frequencies@),
{
    let mut cumulative_frequencies: Vec<u32> = Vec::new();
    let mut f: u32 = 0;
    cumulative_frequencies.push(f);
    let mut i: usize = 0;
    while i < ALPHABET_SIZE
        invariant
            i <= ALPHABET_SIZE,
            frequencies@.len() == ALPHABET_SIZE,
            cumulative_frequencies@.len() == i + 1,
            f == cumulative(frequencies@, i as int),
            f <= i * 0xffff,
            forall|k: int| 0 <= k <= i ==> #[trigger] cumulative_frequencies@[k] == cumulative(frequencies@, k),
        decreases ALPHABET_SIZE - i,
    {
        f = f + frequencies[i] as u32;
        cumulative_frequencies.push(f);
        i = i + 1;
    }
    cumulative_frequencies
}

/// A cumulative table of a valid frequency table: starts at zero, never decreases, and ends at
/// the fixed total.
pub open spec fn valid_cumulative(cum: Seq<u32>) -> bool {
    &&& cum.len() == ALPHABET_SIZE + 1
    &&& cum[0] == 0
    &&& forall|k: int| 0 <= k < ALPHABET_SIZE ==> #[trigger] cum[k] <= cum[k + 1]
    &&& cum[ALPHABET_SIZE as int] == TOTAL_FREQUENCY
}

/// Builds the table from each slot of the total frequency to the symbol owning it: the
/// symbol `s` of slot `f` has `cum[s] <= f < cum[s + 1]`.
pub fn build_cumulative_freqs_symbols_table_0(cumulative_freqs: &Vec<u32>) -> (r: Vec<u8>)
    requires
        valid_cumulative(cumulative_freqs@),
    ensures
        r@.len() == TOTAL_FREQUENCY,
        forall|f: int|
            0 <= f < TOTAL_FREQUENCY ==> cumulative_freqs@[#[trigger] r@[f] as int] <= f
                < cumulative_freqs@[r@[f] as int + 1],
{
    let mut table: Vec<u8> = Vec::new();
    let mut sym: u8 = 0;
    let mut f: u32 = 0;
    while f < TOTAL_FREQUENCY
        invariant
            valid_cumulative(cumulative_freqs@),
            f <= TOTAL_FREQUENCY,
            table@.len() == f,
            cumulative_freqs@[sym as int] <= f,
            forall|g: int|
                0 <= g < f ==> cumulative_freqs@[#[trigger] table@[g] as int] <= g
                    < cumulative_freqs@[table@[g] as int + 1],
        decreases TOTAL_FREQUENCY - f,
    {
        while sym < 255 && f >= cumulative_freqs[sym as usize + 1]
            invariant
                valid_cumulative(cumulative_freqs@),
                f < TOTAL_FREQUENCY,
                cumulative_freqs@[sym as int] <= f,
            decreases 255 - sym,
        {
            sym = sym + 1;
        }
        table.push(sym);
        f = f + 1;
    }
    table
}

/// The symbol whose cumulative range holds slot `f`.
pub open spec fn slot_symbol(freqs: Seq<u16>, f: int) -> int {
    choose|s: int| 0 <= s < ALPHABET_SIZE && #[trigger] cumulative(freqs, s) <= f < cumulative(freqs, s + 1)
}

/// In a table whose frequencies sum to the total, each slot below the total has exactly one
/// symbol whose cumulative range holds it.
pub proof fn lemma_slot_symbol(freqs: Seq<u16>, f: int, s: int)
    requires
        total(freqs) == TOTAL_FREQUENCY,
        0 <= s < ALPHABET_SIZE,
        cumulative(freqs, s) <= f < cumulative(freqs, s + 1),
    ensures
        slot_symbol(freqs, f) == s,
{
    let t = slot_symbol(freqs, f);
    assert(0 <= t < ALPHABET_SIZE && cumulative(freqs, t) <= f < cumulative(freqs, t + 1));
    if t < s {
        lemma_cumulative_monotone(freqs, t + 1, s);
    } else if s < t {
        lemma_cumulative_monotone(freqs, s + 1, t);
    }
}

/// The state reached after `x` yields its symbol, before it is refilled: the symbol and the
/// reduced state.
pub open spec fn advance(freqs: Seq<u16>, x: int) -> (int, int) {
    let f = x % (TOTAL_FREQUENCY as int);
    let s = slot_symbol(freqs, f);
    (s, freqs[s] * (x / (TOTAL_FREQUENCY as int)) + f - cumulative(freqs, s))
}

/// Refills state `x` from the input at `pos`, one byte at a time, until it reaches the lower
/// bound.
pub open spec fn renormalize(src: Seq<u8>, x: int, pos: int) -> Result<(u32, int), Error>
    decreases src.len() - pos,
{
    if x >= LOWER_BOUND {
        Ok((x as u32, pos))
    } else if pos < 0 || pos >= src.len() {
        Err(Error::UnexpectedEof)
    } else {
        renormalize(src, x * 0x100 + src[pos], pos + 1)
    }
}

/// The four initial states at `pos` and the position after them.
pub open spec fn states_at(src: Seq<u8>, pos: int) -> Result<(Seq<u32>, int), Error> {
    if 0 <= pos && pos + 16 <= src.len() {
        Ok(
            (
                seq![
                    u32_le_at(src, pos).unwrap().0,
                    u32_le_at(src, pos + 4).unwrap().0,
                    u32_le_at(src, pos + 8).unwrap().0,
                    u32_le_at(src, pos + 12).unwrap().0,
                ],
                pos + 16,
            ),
        )
    } else {
        Err(Error::UnexpectedEof)
    }
}

/// The first `k` decoded symbols, the states and the input position after them. Symbol `i`
/// comes from state `i % 4`.
pub open spec fn decode_steps(
    src: Seq<u8>,
    freqs: Seq<u16>,
    states: Seq<u32>,
    pos: int,
    k: nat,
) -> Result<(Seq<u8>, Seq<u32>, int), Error>
    decreases k,
{
    if k == 0 {
        Ok((Seq::empty(), states, pos))
    } else {
        match decode_steps(src, freqs, states, pos, (k - 1) as nat) {
            Err(e) => Err(e),
            Ok((out, st, p)) => {
                let j = (k - 1) % (STATE_COUNT as int);
                let (s, x) = advance(freqs, st[j] as int);
                match renormalize(src, x, p) {
                    Err(e) => Err(e),
                    Ok((y, p2)) => Ok((out.push(s as u8), st.update(j, y), p2)),
                }
            },
        }
    }
}

/// The `n` bytes that the order-0 block at `pos` decodes to, and the position after the
/// input that was consumed.
pub open spec fn decode_at(src: Seq<u8>, pos: int, n: nat) -> Result<(Seq<u8>, int), Error> {
    match frequencies_at(src, pos) {
        Err(e) => Err(e),
        Ok((freqs, p)) => match states_at(src, p) {
            Err(e) => Err(e),
            Ok((states, p2)) => match decode_steps(src, freqs, states, p2, n) {
                Err(e) => Err(e),
                Ok((out, _, p3)) => Ok((out, p3)),
            },
        },
    }
}

/// Once decoding has failed, decoding more symbols fails the same way.
proof fn lemma_decode_steps_failed(
    src: Seq<u8>,
    freqs: Seq<u16>,
    states: Seq<u32>,
    pos: int,
    k: nat,
    m: nat,
)
    requires
        k <= m,
        decode_steps(src, freqs, states, pos, k) is Err,
    ensures
        decode_steps(src, freqs, states, pos, m) == decode_steps(src, freqs, states, pos, k),
    decreases m - k,
{
    if k < m {
        lemma_decode_steps_failed(src, freqs, states, pos, k, (m - 1) as nat);
    }
}

/// Reads the four initial states.
fn read_states(src: &[u8], pos: &mut usize) -> (r: Result<Vec<u32>, Error>)
    ensures
        match states_at(src@, *old(pos) as int) {
            Ok((states, p)) => r matches Ok(v) && v@ == states && *final(pos) == p,
            Err(e) => r == Err::<Vec<u32>, Error>(e),
        },
{
    if *pos > src.len() || src.len() - *pos < 16 {
        return Err(Error::UnexpectedEof);
    }
    let ghost p: int = *pos as int;
    let mut states: Vec<u32> = Vec::new();
    let mut i: usize = 0;
    while i < STATE_COUNT
        invariant
            i <= STATE_COUNT,
            p + 16 <= src@.len(),
            *pos == p + 4 * i,
            states@.len() == i,
            forall|k: int| 0 <= k < i ==> #[trigger] states@[k] == u32_le_at(src@, p + 4 * k).unwrap().0,
        decreases STATE_COUNT - i,
    {
        let x: u32 = match read_u32_le(src, pos) {
            Ok(x) => x,
            Err(e) => return Err(e),
        };
        states.push(x);
        i = i + 1;
    }
    assert(states@ =~= states_at(src@, p).unwrap().0);
    Ok(states)
}

/// Refills a state from the input until it reaches the lower bound.
fn renormalize_state(src: &[u8], pos: &mut usize, x: u32) -> (r: Result<u32, Error>)
    requires
        *old(pos) <= src@.len(),
    ensures
        match renormalize(src@, x as int, *old(pos) as int) {
            Ok((y, p)) => r == Ok::<u32, Error>(y) && *final(pos) == p && p <= src@.len(),
            Err(e) => r == Err::<u32, Error>(e),
        },
{
    let mut y: u32 = x;
    while y < LOWER_BOUND
        invariant
            *pos <= src@.len(),
            renormalize(src@, x as int, *old(pos) as int) == renormalize(src@, y as int, *pos as int),
        decreases src@.len() - *pos,
    {
        let b: u8 = match read_u8(src, pos) {
            Ok(b) => b,
            Err(e) => return Err(e),
        };
        y = y * 0x100 + b as u32;
    }
    Ok(y)
}

/// Decodes an order-0 block, filling `dst` whole: the frequency table prologue, the four
/// initial states, then one symbol per output byte, the states taking turns.
pub fn decode(src: &[u8], pos: &mut usize, dst: &mut Vec<u8>) -> (r: Result<(), Error>)
    requires
        *old(pos) <= src@.len(),
    ensures
        match decode_at(src@, *old(pos) as int, old(dst)@.len()) {
            Ok((out, p)) => r is Ok && final(dst)@ == out && *final(pos) == p,
            Err(e) => r == Err::<(), Error>(e),
        },
        final(dst)@.len() == old(dst)@.len(),
        frequencies_at(src@, *old(pos) as int) is Err ==> final(dst)@ == old(dst)@,
        (frequencies_at(src@, *old(pos) as int) matches Ok((_, p)) && states_at(src@, p) is Err)
            ==> final(dst)@ == old(dst)@,
{
    let ghost start: int = *pos as int;
    let ghost n: nat = dst@.len();
    let freqs: Vec<u16> = match read_frequencies_0(src, pos) {
        Ok(f) => f,
        Err(e) => return Err(e),
    };
    let cumulative_frequencies: Vec<u32> = build_cumulative_frequencies(&freqs);
    let cumulative_freqs_symbols_table: Vec<u8> = build_cumulative_freqs_symbols_table_0(&cumulative_frequencies);
    let mut states: Vec<u32> = match read_states(src, pos) {
        Ok(s) => s,
        Err(e) => return Err(e),
    };
    decode_symbols(src, pos, &freqs, &cumulative_frequencies, &cumulative_freqs_symbols_table, &mut states, dst)
}

/// Decodes one symbol per byte of `dst`, the states taking turns.
fn decode_symbols(
    src: &[u8],
    pos: &mut usize,
    freqs: &Vec<u16>,
    cumulative_frequencies: &Vec<u32>,
    cumulative_freqs_symbols_table: &Vec<u8>,
    states: &mut Vec<u32>,
    dst: &mut Vec<u8>,
) -> (r: Result<(), Error>)
    requires
        *old(pos) <= src@.len(),
        freqs@.len() == ALPHABET_SIZE,
        total(freqs@) == TOTAL_FREQUENCY,
        cumulative_frequencies@.len() == ALPHABET_SIZE + 1,
        forall|k: int| 0 <= k <= ALPHABET_SIZE ==> #[trigger] cumulative_frequencies@[k] == cumulative(freqs@, k),
        cumulative_freqs_symbols_table@.len() == TOTAL_FREQUENCY,
        forall|f: int|
            0 <= f < TOTAL_FREQUENCY ==> cumulative_frequencies@[#[trigger] cumulative_freqs_symbols_table@[f] as int] <= f
                < cumulative_frequencies@[cumulative_freqs_symbols_table@[f] as int + 1],
        old(states)@.len() == STATE_COUNT,
    ensures
        match decode_steps(src@, freqs@, old(states)@, *old(pos) as int, old(dst)@.len()) {
            Ok((out, _, p)) => r is Ok && final(dst)@ == out && *final(pos) == p,
            Err(e) => r == Err::<(), Error>(e),
        },
        final(dst)@.len() == old(dst)@.len(),
{
    let ghost p2: int = *pos as int;
    let ghost states0: Seq<u32> = states@;
    let ghost n: nat = dst@.len();
    assert(dst@.take(0) =~= Seq::<u8>::empty());
    let mut i: usize = 0;
    while i < dst.len()
        invariant
            dst@.len() == n,
            n == old(dst)@.len(),
            states0 == old(states)@,
            p2 == *old(pos),
            i <= n,
            *pos <= src@.len(),
            freqs@.len() == ALPHABET_SIZE,
            total(freqs@) == TOTAL_FREQUENCY,
            cumulative_frequencies@.len() == ALPHABET_SIZE + 1,
            forall|k: int| 0 <= k <= ALPHABET_SIZE ==> #[trigger] cumulative_frequencies@[k] == cumulative(freqs@, k),
            cumulative_freqs_symbols_table@.len() == TOTAL_FREQUENCY,
            forall|f: int|
                0 <= f < TOTAL_FREQUENCY ==> cumulative_frequencies@[#[trigger] cumulative_freqs_symbols_table@[f] as int] <= f
                    < cumulative_frequencies@[cumulative_freqs_symbols_table@[f] as int + 1],
            decode_steps(src@, freqs@, states0, p2, i as nat) == Ok::<(Seq<u8>, Seq<u32>, int), Error>(
                (dst@.take(i as int), states@, *pos as int),
            ),
            states@.len() == STATE_COUNT,
        decreases n - i,
    {
        let j: usize = i % STATE_COUNT;
        let x: u32 = states[j];
        let f: u32 = x % TOTAL_FREQUENCY;
        let s: u8 = cumulative_freqs_symbols_table[f as usize];
        let freq: u32 = freqs[s as usize] as u32;
        let cfreq: u32 = cumulative_frequencies[s as usize];
        proof {
            lemma_slot_symbol(freqs@, f as int, s as int);
            lemma_cumulative_monotone(freqs@, s as int + 1, ALPHABET_SIZE as int);
        }
        let reduced: u32 = advance_step(x, freq, cfreq);
        let ghost before: Seq<u8> = dst@.take(i as int);
        dst.set(i, s);
        let y: u32 = match renormalize_state(src, pos, reduced) {
            Ok(y) => y,
            Err(e) => {
                assert(decode_steps(src@, freqs@, states0, p2, (i + 1) as nat) == Err::<(Seq<u8>, Seq<u32>, int), Error>(e));
                proof {
                    lemma_decode_steps_failed(src@, freqs@, states0, p2, (i + 1) as nat, n);
                }
                return Err(e);
            },
        };
        states.set(j, y);
        assert(dst@.take(i + 1) =~= before.push(s));
        i = i + 1;
    }
    assert(dst@.take(n as int) =~= dst@);
    Ok(())
}

/// Takes the symbol of slot `x % 4096` out of state `x`.
fn advance_step(x: u32, freq: u32, cfreq: u32) -> (r: u32)
    requires
        freq <= TOTAL_FREQUENCY,
        cfreq <= x % TOTAL_FREQUENCY < cfreq + freq,
    ensures
        r == freq * (x / TOTAL_FREQUENCY) + x % TOTAL_FREQUENCY - cfreq,
{
    let q: u64 = (x / TOTAL_FREQUENCY) as u64;
    assert(freq * q + x % TOTAL_FREQUENCY - cfreq < 0x1_0000_0000) by (nonlinear_arith)
        requires
            freq <= 4096,
            q == x / 4096,
            x < 0x1_0000_0000,
            cfreq <= x % 4096 < cfreq + freq,
    {
        assert(q <= 0xfffff);
        assert(freq * q + freq <= 4096 * q + 4096);
    }
    (freq as u64 * q + (x % TOTAL_FREQUENCY) as u64 - cfreq as u64) as u32
}

/// The state that encodes symbol `s` on top of state `y`: the inverse of one decoding step.
pub open spec fn encode_step(freqs: Seq<u16>, s: int, y: int) -> int {
    (y / freqs[s] as int) * (TOTAL_FREQUENCY as int) + y % (freqs[s] as int) + cumulative(freqs, s)
}

/// One decoding step undoes one encoding step: from the state that encodes symbol `s` on top of
/// state `y`, decoding yields `s` and gives back `y`. This is the round trip of the codec for a
/// single symbol; the refilling of states from the byte stream is not covered.
pub proof fn lemma_step_round_trip(freqs: Seq<u16>, s: int, y: int)
    requires
        freqs.len() == ALPHABET_SIZE,
        total(freqs) == TOTAL_FREQUENCY,
        0 <= s < ALPHABET_SIZE,
        freqs[s] > 0,
        y >= 0,
    ensures
        advance(freqs, encode_step(freqs, s, y)) == (s, y),
{
    let f = freqs[s] as int;
    let c = cumulative(freqs, s);
    let q = y / f;
    let m = y % f;
    lemma_fundamental_div_mod(y, f);
    assert(0 <= m < f);
    lemma_cumulative_monotone(freqs, s + 1, ALPHABET_SIZE as int);
    lemma_cumulative_monotone(freqs, 0, s);
    assert(cumulative(freqs, s + 1) == c + f);
    let x = encode_step(freqs, s, y);
    assert(x == q * 4096 + (m + c));
    lemma_fundamental_div_mod_converse(x, 4096, q, m + c);
    lemma_slot_symbol(freqs, m + c, s);
    assert(f * q + m == y) by (nonlinear_arith)
        requires
            y == f * (y / f) + y % f,
            q == y / f,
            m == y % f,
    {
    }
}

/// A prologue whose frequencies do not sum to the fixed total is rejected as invalid data
/// when the table is read, before any symbol is decoded, whatever follows it.
pub proof fn lemma_frequency_corruption(src: Seq<u8>, pos: int, n: nat)
    requires
        byte_at(src, pos) matches Ok((s, p)) && frequency_entries(
            src,
            p,
            s as int,
            s as int,
            0,
            zero_frequencies(),
        ) matches Ok((freqs, _)) && total(freqs) != TOTAL_FREQUENCY,
    ensures
        frequencies_at(src, pos) == Err::<(Seq<u16>, int), Error>(Error::InvalidData),
        decode_at(src, pos, n) == Err::<(Seq<u8>, int), Error>(Error::InvalidData),
{
}

/// Reading frequency entries moves forward.
proof fn lemma_frequency_entries_advance(
    src: Seq<u8>,
    pos: int,
    sym: int,
    last: int,
    run: int,
    freqs: Seq<u16>,
)
    requires
        frequency_entries(src, pos, sym, last, run, freqs) is Ok,
    ensures
        frequency_entries(src, pos, sym, last, run, freqs).unwrap().1 > pos,
    decreases src.len() - pos,
{
    if 0 <= pos < src.len() {
        if let Ok((f, p)) = itf8_u16_at(src, pos) {
            let fr = freqs.update(sym, f);
            if run > 0 {
                if sym < 255 {
                    lemma_frequency_entries_advance(src, p, sym + 1, sym + 1, run - 1, fr);
                }
            } else if let Ok((b, p2)) = byte_at(src, p) {
                if b != 0 {
                    if last < 255 && b == last + 1 {
                        if let Ok((n, p3)) = byte_at(src, p2) {
                            lemma_frequency_entries_advance(src, p3, b as int, b as int, n as int, fr);
                        }
                    } else {
                        lemma_frequency_entries_advance(src, p2, b as int, b as int, 0, fr);
                    }
                }
            }
        }
    }
}

/// A frequency table prologue that reads ends after where it starts.
pub proof fn lemma_frequencies_advance(src: Seq<u8>, pos: int)
    requires
        frequencies_at(src, pos) is Ok,
    ensures
        frequencies_at(src, pos).unwrap().1 > pos,
{
    let (s, p) = byte_at(src, pos).unwrap();
    lemma_frequency_entries_advance(src, p, s as int, s as int, 0, zero_frequencies());
}

} // verus!
