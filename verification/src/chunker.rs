//! Splitting text into overlapping, UTF-8-safe chunks.
//!
//! A text of `L` bytes is cut into windows of `chunk_size` bytes whose
//! start positions advance by `chunk_size - overlap`; every cut is moved
//! to a UTF-8 character boundary (window ends move down, window starts
//! move up), and a window that collapses to nothing is discarded.

use vstd::prelude::*;
use vstd::string::StringSliceAdditionalSpecFns;
use vstd::utf8::encode_utf8;
use vstd::utf8::encode_utf8_valid_utf8;
use vstd::utf8::is_char_boundary;
use vstd::utf8::is_char_boundary_iff_not_is_continuation_byte;
use vstd::utf8::is_char_boundary_start_end_of_seq;
use vstd::utf8::valid_utf8;
use vstd::utf8::valid_utf8_split;

verus! {

/// The largest character boundary at or below `i` (0 at the latest).
pub open spec fn spec_round_down(b: Seq<u8>, i: int) -> int
    decreases i,
{
    if i <= 0 {
        0
    } else if is_char_boundary(b, i) {
        i
    } else {
        spec_round_down(b, i - 1)
    }
}

/// The smallest character boundary at or above `i`, at most the length.
pub open spec fn spec_round_up(b: Seq<u8>, i: int) -> int
    decreases b.len() - i,
{
    if i >= b.len() {
        b.len() as int
    } else if is_char_boundary(b, i) {
        i
    } else {
        spec_round_up(b, i + 1)
    }
}

pub proof fn lemma_round_up_bounds(b: Seq<u8>, i: int)
    requires
        0 <= i,
    ensures
        spec_round_up(b, i) <= b.len(),
        i <= b.len() ==> i <= spec_round_up(b, i),
    decreases b.len() - i,
{
    if i < b.len() && !is_char_boundary(b, i) {
        lemma_round_up_bounds(b, i + 1);
    }
}

/// Rounding down commutes with skipping a boundary-free suffix.
pub proof fn lemma_round_down_skip(b: Seq<u8>, r: int, i: int)
    requires
        0 <= r <= i,
        forall|j: int| r < j <= i ==> !is_char_boundary(b, j),
    ensures
        spec_round_down(b, i) == spec_round_down(b, r),
    decreases i - r,
{
    if i > r {
        lemma_round_down_skip(b, r, i - 1);
    }
}

/// Rounding up is the first boundary reached when none lies in between.
pub proof fn lemma_round_up_at(b: Seq<u8>, i: int, r: int)
    requires
        0 <= i <= r <= b.len(),
        forall|j: int| i <= j < r ==> !is_char_boundary(b, j),
        r == b.len() || is_char_boundary(b, r),
    ensures
        spec_round_up(b, i) == r,
    decreases r - i,
{
    if i < r {
        lemma_round_up_at(b, i + 1, r);
    }
}

/// A character boundary of the whole sequence is one of the suffix that
/// starts at another boundary before it.
pub proof fn lemma_boundary_in_suffix(b: Seq<u8>, s: int, e: int)
    requires
        valid_utf8(b),
        is_char_boundary(b, s),
        is_char_boundary(b, e),
        0 <= s <= e <= b.len(),
    ensures
        is_char_boundary(b.subrange(s, b.len() as int), e - s),
{
    let suffix = b.subrange(s, b.len() as int);
    valid_utf8_split(b, s);
    if e == b.len() {
        is_char_boundary_start_end_of_seq(suffix);
    } else if e == s {
        is_char_boundary_start_end_of_seq(suffix);
        assert(is_char_boundary(suffix, 0));
    } else {
        is_char_boundary_iff_not_is_continuation_byte(b, e);
        is_char_boundary_iff_not_is_continuation_byte(suffix, e - s);
        assert(suffix[e - s] == b[e]);
    }
}

/// The chunk windows, as byte-index pairs, produced from `start` onwards.
pub open spec fn spec_chunks_from(b: Seq<u8>, c: int, o: int, start: int) -> Seq<(int, int)>
    decreases b.len() - start,
    when 0 < c && 0 <= o < c && 0 <= start
    via spec_chunks_from_decreases
{
    if start >= b.len() {
        Seq::empty()
    } else {
        let end0 = if start + c < b.len() {
            start + c
        } else {
            b.len() as int
        };
        let rd = spec_round_down(b, end0);
        let end = if rd > start {
            rd
        } else {
            start
        };
        let head: Seq<(int, int)> = if end > start {
            seq![(start, end)]
        } else {
            Seq::empty()
        };
        if end == b.len() {
            head
        } else {
            head + spec_chunks_from(b, c, o, spec_round_up(b, start + (c - o)))
        }
    }
}

#[via_fn]
proof fn spec_chunks_from_decreases(b: Seq<u8>, c: int, o: int, start: int) {
    if 0 < c && 0 <= o < c && 0 <= start < b.len() {
        lemma_round_up_bounds(b, start + (c - o));
    }
}

/// All chunk windows of a byte sequence.
pub open spec fn spec_chunks(b: Seq<u8>, c: int, o: int) -> Seq<(int, int)> {
    spec_chunks_from(b, c, o, 0)
}

/// Every chunk window is a non-empty range between character boundaries.
pub proof fn lemma_chunks_wf(b: Seq<u8>, c: int, o: int, start: int)
    requires
        valid_utf8(b),
        0 < c,
        0 <= o < c,
        0 <= start <= b.len(),
        is_char_boundary(b, start),
    ensures
        forall|k: int|
            0 <= k < spec_chunks_from(b, c, o, start).len() ==> {
                let p = #[trigger] spec_chunks_from(b, c, o, start)[k];
                &&& start <= p.0 < p.1 <= b.len()
                &&& is_char_boundary(b, p.0)
                &&& is_char_boundary(b, p.1)
            },
    decreases b.len() - start,
{
    if start < b.len() {
        let end0 = if start + c < b.len() {
            start + c
        } else {
            b.len() as int
        };
        let rd = spec_round_down(b, end0);
        let end = if rd > start {
            rd
        } else {
            start
        };
        assert(is_char_boundary(b, end)) by {
            if rd > start {
                lemma_round_down_boundary(b, end0);
            }
        }
        let head: Seq<(int, int)> = if end > start {
            seq![(start, end)]
        } else {
            Seq::empty()
        };
        if end != b.len() {
            let next = spec_round_up(b, start + (c - o));
            lemma_round_up_bounds(b, start + (c - o));
            lemma_round_up_boundary(b, start + (c - o));
            lemma_chunks_wf(b, c, o, next);
            let rest = spec_chunks_from(b, c, o, next);
            assert(next >= start);
            assert(spec_chunks_from(b, c, o, start) == head + rest);
            assert forall|k: int| 0 <= k < spec_chunks_from(b, c, o, start).len() implies {
                let p = #[trigger] spec_chunks_from(b, c, o, start)[k];
                &&& start <= p.0 < p.1 <= b.len()
                &&& is_char_boundary(b, p.0)
                &&& is_char_boundary(b, p.1)
            } by {
                if k >= head.len() {
                    assert(spec_chunks_from(b, c, o, start)[k] == rest[k - head.len()]);
                }
            }
        }
    }
}

/// What rounding down lands on is itself a boundary (or position zero,
/// which is always a boundary).
pub proof fn lemma_round_down_boundary(b: Seq<u8>, i: int)
    requires
        valid_utf8(b),
        0 <= i <= b.len(),
    ensures
        0 <= spec_round_down(b, i) <= i,
        is_char_boundary(b, spec_round_down(b, i)),
    decreases i,
{
    is_char_boundary_start_end_of_seq(b);
    if i > 0 && !is_char_boundary(b, i) {
        lemma_round_down_boundary(b, i - 1);
    }
}

/// What rounding up lands on is itself a boundary.
pub proof fn lemma_round_up_boundary(b: Seq<u8>, i: int)
    requires
        valid_utf8(b),
        0 <= i,
    ensures
        is_char_boundary(b, spec_round_up(b, i)),
    decreases b.len() - i,
{
    is_char_boundary_start_end_of_seq(b);
    if i < b.len() && !is_char_boundary(b, i) {
        lemma_round_up_boundary(b, i + 1);
    }
}

/// The bytes of every chunk form valid UTF-8: cuts land on character
/// boundaries only.
pub proof fn lemma_chunks_valid_utf8(b: Seq<u8>, c: int, o: int)
    requires
        valid_utf8(b),
        0 < c,
        0 <= o < c,
    ensures
        forall|k: int|
            0 <= k < spec_chunks(b, c, o).len() ==> valid_utf8(
                b.subrange(
                    (#[trigger] spec_chunks(b, c, o)[k]).0,
                    spec_chunks(b, c, o)[k].1,
                ),
            ),
{
    is_char_boundary_start_end_of_seq(b);
    lemma_chunks_wf(b, c, o, 0);
    assert forall|k: int| 0 <= k < spec_chunks(b, c, o).len() implies valid_utf8(
        b.subrange((#[trigger] spec_chunks(b, c, o)[k]).0, spec_chunks(b, c, o)[k].1),
    ) by {
        let p = spec_chunks(b, c, o)[k];
        lemma_boundary_in_suffix(b, p.0, p.1);
        valid_utf8_split(b, p.0);
        let suffix = b.subrange(p.0, b.len() as int);
        valid_utf8_split(suffix, p.1 - p.0);
        assert(suffix.subrange(0, p.1 - p.0) =~= b.subrange(p.0, p.1));
    }
}

/// Every byte of the sequence is an ASCII byte.
pub open spec fn all_ascii(b: Seq<u8>) -> bool {
    forall|i: int| 0 <= i < b.len() ==> #[trigger] b[i] < 0x80
}

/// In an ASCII sequence every position is a character boundary.
pub proof fn lemma_ascii_all_boundaries(b: Seq<u8>)
    requires
        valid_utf8(b),
        all_ascii(b),
    ensures
        forall|i: int| 0 <= i <= b.len() ==> #[trigger] is_char_boundary(b, i),
{
    is_char_boundary_start_end_of_seq(b);
    assert forall|i: int| 0 <= i <= b.len() implies #[trigger] is_char_boundary(b, i) by {
        if i < b.len() {
            is_char_boundary_iff_not_is_continuation_byte(b, i);
        }
    }
}

/// The shape of the chunk list over ASCII text: the first window starts at
/// `start`; every window but the last is exactly `c` bytes wide and the
/// next window starts `c - o` bytes after it; the last window ends at the
/// end of the text.
pub proof fn lemma_chunks_shape_ascii(b: Seq<u8>, c: int, o: int, start: int)
    requires
        valid_utf8(b),
        all_ascii(b),
        0 < c,
        0 <= o < c,
        0 <= start < b.len(),
    ensures
        spec_chunks_from(b, c, o, start).len() >= 1,
        spec_chunks_from(b, c, o, start)[0].0 == start,
        spec_chunks_from(b, c, o, start).last().1 == b.len(),
        forall|k: int|
            0 <= k < spec_chunks_from(b, c, o, start).len() - 1 ==> {
                let p = #[trigger] spec_chunks_from(b, c, o, start)[k];
                let q = spec_chunks_from(b, c, o, start)[k + 1];
                p.1 == p.0 + c && q.0 == p.0 + (c - o)
            },
    decreases b.len() - start,
{
    lemma_ascii_all_boundaries(b);
    let end0 = if start + c < b.len() {
        start + c
    } else {
        b.len() as int
    };
    assert(spec_round_down(b, end0) == end0);
    let ch = spec_chunks_from(b, c, o, start);
    if end0 == b.len() {
        assert(ch =~= seq![(start, b.len() as int)]);
    } else {
        let next = start + (c - o);
        lemma_round_up_at(b, next, next);
        lemma_chunks_shape_ascii(b, c, o, next);
        let rest = spec_chunks_from(b, c, o, next);
        assert(ch =~= seq![(start, end0)] + rest);
        assert forall|k: int| 0 <= k < ch.len() - 1 implies {
            let p = #[trigger] ch[k];
            let q = ch[k + 1];
            p.1 == p.0 + c && q.0 == p.0 + (c - o)
        } by {
            if k > 0 {
                assert(ch[k] == rest[k - 1]);
                assert(ch[k + 1] == rest[k]);
            } else {
                assert(ch[1] == rest[0]);
            }
        }
    }
}

/// Byte position `p` lies inside some window of the chunk list.
pub open spec fn spec_covered(b: Seq<u8>, c: int, o: int, start: int, p: int) -> bool {
    exists|k: int|
        0 <= k < spec_chunks_from(b, c, o, start).len() && (#[trigger] spec_chunks_from(
            b,
            c,
            o,
            start,
        )[k]).0 <= p < spec_chunks_from(b, c, o, start)[k].1
}

/// Chunk coverage over ASCII text: every byte of the text lies in at least
/// one chunk window.
pub proof fn lemma_chunks_cover_ascii(b: Seq<u8>, c: int, o: int, start: int)
    requires
        valid_utf8(b),
        all_ascii(b),
        0 < c,
        0 <= o < c,
        0 <= start < b.len(),
    ensures
        forall|p: int| start <= p < b.len() ==> #[trigger] spec_covered(b, c, o, start, p),
    decreases b.len() - start,
{
    lemma_ascii_all_boundaries(b);
    let end0 = if start + c < b.len() {
        start + c
    } else {
        b.len() as int
    };
    assert(spec_round_down(b, end0) == end0);
    let ch = spec_chunks_from(b, c, o, start);
    if end0 == b.len() {
        assert(ch =~= seq![(start, b.len() as int)]);
        assert forall|p: int| start <= p < b.len() implies #[trigger] spec_covered(
            b,
            c,
            o,
            start,
            p,
        ) by {
            assert(ch[0].0 <= p < ch[0].1);
        }
    } else {
        let next = start + (c - o);
        lemma_round_up_at(b, next, next);
        lemma_chunks_cover_ascii(b, c, o, next);
        let rest = spec_chunks_from(b, c, o, next);
        assert(ch =~= seq![(start, end0)] + rest);
        assert forall|p: int| start <= p < b.len() implies #[trigger] spec_covered(
            b,
            c,
            o,
            start,
            p,
        ) by {
            if p < end0 {
                assert(ch[0].0 <= p < ch[0].1);
            } else {
                assert(spec_covered(b, c, o, next, p));
                let k0 = choose|k0: int|
                    0 <= k0 < rest.len() && (#[trigger] rest[k0]).0 <= p < rest[k0].1;
                assert(ch[k0 + 1] == rest[k0]);
                assert(ch[k0 + 1].0 <= p < ch[k0 + 1].1);
            }
        }
    }
}

/// The bytes rebuilt from a chunk list: the non-overlapping prefix (the
/// first `c - o` bytes) of every window but the last, then the last window
/// whole.
pub open spec fn spec_reassemble(b: Seq<u8>, ch: Seq<(int, int)>, c: int, o: int) -> Seq<u8>
    decreases ch.len(),
{
    if ch.len() == 0 {
        Seq::empty()
    } else if ch.len() == 1 {
        b.subrange(ch[0].0, ch[0].1)
    } else {
        b.subrange(ch[0].0, ch[0].0 + (c - o)) + spec_reassemble(b, ch.drop_first(), c, o)
    }
}

/// Round trip over ASCII text: concatenating each chunk's non-overlapping
/// prefix (the whole last chunk) rebuilds the text exactly.
pub proof fn lemma_chunks_reassemble_ascii(b: Seq<u8>, c: int, o: int, start: int)
    requires
        valid_utf8(b),
        all_ascii(b),
        0 < c,
        0 <= o < c,
        0 <= start < b.len(),
    ensures
        spec_reassemble(b, spec_chunks_from(b, c, o, start), c, o) == b.subrange(
            start,
            b.len() as int,
        ),
    decreases b.len() - start,
{
    lemma_ascii_all_boundaries(b);
    let end0 = if start + c < b.len() {
        start + c
    } else {
        b.len() as int
    };
    assert(spec_round_down(b, end0) == end0);
    let ch = spec_chunks_from(b, c, o, start);
    if end0 == b.len() {
        assert(ch =~= seq![(start, b.len() as int)]);
    } else {
        let next = start + (c - o);
        lemma_round_up_at(b, next, next);
        lemma_chunks_reassemble_ascii(b, c, o, next);
        let rest = spec_chunks_from(b, c, o, next);
        assert(ch =~= seq![(start, end0)] + rest);
        assert(rest.len() >= 1) by {
            lemma_chunks_shape_ascii(b, c, o, next);
        }
        assert(ch.drop_first() =~= rest);
        assert(b.subrange(start, next) + b.subrange(next, b.len() as int) =~= b.subrange(
            start,
            b.len() as int,
        ));
    }
}

/// Split a text into overlapping chunks.
///
/// The windows follow `spec_chunks` over the text's UTF-8 bytes: an empty
/// text yields no chunks; a text no longer than `chunk_size` yields itself;
/// otherwise windows of `chunk_size` bytes advance by `chunk_size -
/// overlap`, ends rounded down and starts rounded up to character
/// boundaries, empty windows discarded.
pub fn chunk_text(text: &str, chunk_size: usize, overlap: usize) -> (r: Vec<String>)
    requires
        overlap < chunk_size,
    ensures
        r.deep_view().len() == spec_chunks(
            text.spec_bytes(),
            chunk_size as int,
            overlap as int,
        ).len(),
        forall|k: int|
            0 <= k < r.deep_view().len() ==> encode_utf8(#[trigger] r.deep_view()[k])
                == text.spec_bytes().subrange(
                spec_chunks(text.spec_bytes(), chunk_size as int, overlap as int)[k].0,
                spec_chunks(text.spec_bytes(), chunk_size as int, overlap as int)[k].1,
            ),
{
    let ghost b = text.spec_bytes();
    let ghost c = chunk_size as int;
    let ghost o = overlap as int;
    proof {
        encode_utf8_valid_utf8(text@);
        is_char_boundary_start_end_of_seq(b);
    }
    let text_bytes = text.as_bytes();
    proof {
        vstd::slice::axiom_spec_len(text_bytes);
    }
    let len = text_bytes.len();
    let mut chunks: Vec<String> = Vec::new();
    let mut start: usize = 0;
    let ghost mut done: Seq<(int, int)> = Seq::empty();
    while start < len
        invariant
            overlap < chunk_size,
            b == text.spec_bytes(),
            c == chunk_size as int,
            o == overlap as int,
            len == b.len(),
            valid_utf8(b),
            0 <= start <= len,
            is_char_boundary(b, start as int),
            spec_chunks(b, c, o) == done + spec_chunks_from(b, c, o, start as int),
            chunks.deep_view().len() == done.len(),
            forall|k: int|
                0 <= k < done.len() ==> encode_utf8(#[trigger] chunks.deep_view()[k])
                    == b.subrange(done[k].0, done[k].1),
        decreases len - start,
    {
        // Nominal window end, clamped to the length.
        let end0: usize = if chunk_size < len - start {
            start + chunk_size
        } else {
            len
        };
        // Move the end down to a character boundary, but not below start.
        let mut end: usize = end0;
        while end > start && !text.is_char_boundary(end)
            invariant
                b == text.spec_bytes(),
                len == b.len(),
                start <= end <= end0 <= len,
                forall|j: int| end < j <= end0 ==> !is_char_boundary(b, j),
            decreases end,
        {
            end = end - 1;
        }
        proof {
            lemma_round_down_skip(b, end as int, end0 as int);
        }
        let ghost rd = spec_round_down(b, end0 as int);
        let ghost spec_end: int = if rd > start { rd } else { start as int };
        if end > start {
            // This window is non-empty: its end is a boundary.
            assert(spec_end == end) by {
                assert(is_char_boundary(b, end as int));
                assert(spec_round_down(b, end as int) == end);
            }
            proof {
                lemma_boundary_in_suffix(b, start as int, end as int);
            }
            let (_, tail) = text.split_at(start);
            let (piece, _) = tail.split_at(end - start);
            proof {
                assert(piece.spec_bytes() =~= b.subrange(start as int, end as int));
            }
            let ghost pre = chunks.deep_view();
            chunks.push(piece.to_owned());
            proof {
                assert(chunks.deep_view() =~= pre.push(piece@));
            }
        } else {
            assert(spec_end == start) by {
                lemma_round_down_boundary(b, start as int);
            }
        }
        if end == len && end > start {
            // Final window reaches the end of the text: stop.
            proof {
                done = done + seq![(start as int, end as int)];
                assert(spec_chunks_from(b, c, o, start as int) =~= seq![
                    (start as int, end as int),
                ]);
                assert(spec_chunks(b, c, o) =~= done);
            }
            start = len;
        } else {
            // Advance the start by the step, rounded up to a boundary.
            let step = chunk_size - overlap;
            let next0: usize = if step < len - start {
                start + step
            } else {
                len
            };
            let mut next: usize = next0;
            while next < len && !text.is_char_boundary(next)
                invariant
                    b == text.spec_bytes(),
                    len == b.len(),
                    next0 <= next <= len,
                    forall|j: int| next0 <= j < next ==> !is_char_boundary(b, j),
                decreases len - next,
            {
                next = next + 1;
            }
            proof {
                is_char_boundary_start_end_of_seq(b);
                lemma_round_up_at(b, next0 as int, next as int);
                if step < len - start {
                    assert(spec_round_up(b, start + (c - o)) == next);
                } else {
                    // The nominal step lands at or past the end.
                    lemma_round_up_at(b, len as int, len as int);
                    assert(spec_round_up(b, start + (c - o)) == len) by {
                        if start + (c - o) >= len {
                        } else {
                            assert(next0 == len);
                            assert(false);
                        }
                    }
                }
                let head: Seq<(int, int)> = if spec_end > start {
                    seq![(start as int, spec_end)]
                } else {
                    Seq::empty()
                };
                assert(spec_chunks_from(b, c, o, start as int) =~= head + spec_chunks_from(
                    b,
                    c,
                    o,
                    next as int,
                ));
                done = done + head;
                assert(spec_chunks(b, c, o) =~= done + spec_chunks_from(b, c, o, next as int));
            }
            assert(next > start) by {
                if step < len - start {
                    assert(next0 == start + step);
                } else {
                    assert(next0 == len);
                }
            }
            start = next;
        }
    }
    proof {
        assert(spec_chunks_from(b, c, o, start as int) =~= Seq::<(int, int)>::empty());
        assert(spec_chunks(b, c, o) =~= done);
    }
    chunks
}

} // verus!
