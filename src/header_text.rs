//! The text of a header block that may be followed by NUL padding: the text ends at the first
//! line that starts with a NUL byte, or at the end of the block.
use vstd::prelude::*;

use crate::num::extend_from;

verus! {

/// The line feed byte.
pub const LINE_FEED: u8 = 0x0a;

/// The NUL byte.
pub const NUL: u8 = 0x00;

/// The index of the first line feed at or after `i`, if any.
pub open spec fn line_feed_from(src: Seq<u8>, i: int) -> Option<int>
    decreases src.len() - i,
{
    if i < 0 || i >= src.len() {
        None
    } else if src[i] == LINE_FEED {
        Some(i)
    } else {
        line_feed_from(src, i + 1)
    }
}

/// How many bytes of `src` can be handed out next, and whether they end a line. At the start
/// of a line, a NUL byte or the end of the input ends the text: nothing is handed out. Otherwise
/// the bytes up to and including the next line feed are, or all of them when there is none.
pub open spec fn line_span(src: Seq<u8>, at_line_start: bool) -> (int, bool) {
    if at_line_start && (src.len() == 0 || src[0] == NUL) {
        (0, at_line_start)
    } else {
        match line_feed_from(src, 0) {
            Some(i) => (i + 1, true),
            None => (src.len() as int, false),
        }
    }
}

/// The text of `src` from `pos` on.
pub open spec fn header_text_from(src: Seq<u8>, pos: int, at_line_start: bool) -> Seq<u8>
    decreases src.len() - pos,
{
    if pos < 0 || pos >= src.len() {
        Seq::empty()
    } else {
        let (n, eol) = line_span(src.subrange(pos, src.len() as int), at_line_start);
        if n <= 0 || pos + n > src.len() {
            Seq::empty()
        } else {
            src.subrange(pos, pos + n) + header_text_from(src, pos + n, eol)
        }
    }
}

/// The index of the first line feed at or after `from`.
fn find_line_feed(src: &[u8], from: usize) -> (r: Option<usize>)
    requires
        from <= src@.len(),
    ensures
        r matches Some(i) ==> from <= i < src@.len() && line_feed_from(src@, from as int) == Some(
            i as int,
        ),
        r is None ==> line_feed_from(src@, from as int) is None,
{
    let mut i: usize = from;
    while i < src.len()
        invariant
            from <= i <= src@.len(),
            line_feed_from(src@, from as int) == line_feed_from(src@, i as int),
        decreases src@.len() - i,
    {
        if src[i] == LINE_FEED {
            return Some(i);
        }
        i = i + 1;
    }
    None
}

/// A line feed found from `pos` in the whole is one found from 0 in the rest, shifted.
proof fn lemma_line_feed_shift(src: Seq<u8>, pos: int, i: int)
    requires
        0 <= pos <= i <= src.len(),
    ensures
        line_feed_from(src, i) == match line_feed_from(src.subrange(pos, src.len() as int), i - pos) {
            Some(j) => Some(j + pos),
            None => None::<int>,
        },
    decreases src.len() - i,
{
    if i < src.len() {
        lemma_line_feed_shift(src, pos, i + 1);
    }
}

/// How many bytes from `pos` can be handed out next, and whether they end a line.
pub fn next_line_span(src: &[u8], pos: usize, at_line_start: bool) -> (r: (usize, bool))
    requires
        pos <= src@.len(),
    ensures
        r.0 == line_span(src@.subrange(pos as int, src@.len() as int), at_line_start).0,
        r.1 == line_span(src@.subrange(pos as int, src@.len() as int), at_line_start).1,
        r.0 <= src@.len() - pos,
{
    proof {
        lemma_line_feed_shift(src@, pos as int, pos as int);
    }
    let ghost rest: Seq<u8> = src@.subrange(pos as int, src@.len() as int);
    if at_line_start && (pos == src.len() || src[pos] == NUL) {
        assert(rest.len() == 0 || rest[0] == NUL);
        (0, at_line_start)
    } else {
        assert(!(at_line_start && (rest.len() == 0 || rest[0] == NUL)));
        match find_line_feed(src, pos) {
            Some(i) => {
                proof {
                    lemma_line_feed_shift(src@, pos as int, pos as int);
                    assert(line_feed_from(src@, pos as int) == Some(i as int));
                    match line_feed_from(rest, 0) {
                        Some(j) => assert(j + pos == i),
                        None => assert(false),
                    }
                }
                let len: usize = src.len();
                assert(i < len);
                (i + 1 - pos, true)
            },
            None => {
                assert(line_feed_from(rest, 0) is None);
                (src.len() - pos, false)
            },
        }
    }
}

/// The header text of a block: its lines up to the first that starts with NUL padding.
pub fn header_text(src: &[u8]) -> (r: Vec<u8>)
    ensures
        r@ == header_text_from(src@, 0, true),
{
    let mut out: Vec<u8> = Vec::new();
    let mut pos: usize = 0;
    let mut at_line_start: bool = true;
    while pos < src.len()
        invariant
            pos <= src@.len(),
            header_text_from(src@, 0, true) == out@ + header_text_from(src@, pos as int, at_line_start),
        decreases src@.len() - pos,
    {
        let (n, eol): (usize, bool) = next_line_span(src, pos, at_line_start);
        if n == 0 {
            assert(out@ + Seq::<u8>::empty() =~= out@);
            return out;
        }
        proof {
            lemma_line_feed_shift(src@, pos as int, pos as int);
        }
        let ghost before: Seq<u8> = out@;
        extend_from(&mut out, src, pos, pos + n);
        assert(before + header_text_from(src@, pos as int, at_line_start) =~= out@ + header_text_from(
            src@,
            pos + n,
            eol,
        ));
        pos = pos + n;
        at_line_start = eol;
    }
    assert(out@ + Seq::<u8>::empty() =~= out@);
    out
}

} // verus!
