//! What the ADS-B demodulator promises of a whole stream, however it is cut
//! into chunks.

use vstd::prelude::*;

use crate::adsb;
use crate::adsb::{
    decode_bits, is_preamble, louder, AdsbLiveDemod, FRAME_BITS, FRAME_SPAN, PREAMBLE_LEN,
};
use crate::parity;

verus! {

/// Bit `i` of the frame that chip pairs spell is set exactly when the first
/// chip of pair `i` is louder than the second.
pub proof fn law_bits_read_back(m: Seq<u32>, i: int)
    requires
        0 <= i < FRAME_BITS,
    ensures
        parity::bits_of(adsb::chip_bytes(m)).len() == FRAME_BITS,
        parity::bits_of(adsb::chip_bytes(m))[i] == adsb::chip_bit(m, i),
{
    let k = i / 8;
    let j = i % 8;
    let b0 = adsb::chip_bit(m, 8 * k);
    let b1 = adsb::chip_bit(m, 8 * k + 1);
    let b2 = adsb::chip_bit(m, 8 * k + 2);
    let b3 = adsb::chip_bit(m, 8 * k + 3);
    let b4 = adsb::chip_bit(m, 8 * k + 4);
    let b5 = adsb::chip_bit(m, 8 * k + 5);
    let b6 = adsb::chip_bit(m, 8 * k + 6);
    let b7 = adsb::chip_bit(m, 8 * k + 7);
    let x = adsb::chip_byte(m, k);
    assert(x == (if b0 { 128u8 } else { 0u8 }) + (if b1 { 64u8 } else { 0u8 }) + (if b2 {
        32u8
    } else {
        0u8
    }) + (if b3 { 16u8 } else { 0u8 }) + (if b4 { 8u8 } else { 0u8 }) + (if b5 {
        4u8
    } else {
        0u8
    }) + (if b6 { 2u8 } else { 0u8 }) + (if b7 { 1u8 } else { 0u8 }));
    assert(((x / 128) % 2 == 1) == b0 && ((x / 64) % 2 == 1) == b1 && ((x / 32) % 2 == 1) == b2 && ((
    x / 16) % 2 == 1) == b3 && ((x / 8) % 2 == 1) == b4 && ((x / 4) % 2 == 1) == b5 && ((x / 2) % 2
        == 1) == b6 && ((x / 1) % 2 == 1) == b7) by (bit_vector)
        requires
            x == (if b0 { 128u8 } else { 0u8 }) + (if b1 { 64u8 } else { 0u8 }) + (if b2 {
                32u8
            } else {
                0u8
            }) + (if b3 { 16u8 } else { 0u8 }) + (if b4 { 8u8 } else { 0u8 }) + (if b5 {
                4u8
            } else {
                0u8
            }) + (if b6 { 2u8 } else { 0u8 }) + (if b7 { 1u8 } else { 0u8 }),
    ;
    assert(i == 8 * k + j);
    assert(adsb::chip_bytes(m)[k] == x);
    assert(parity::bits_of(adsb::chip_bytes(m))[i] == parity::bit_of(x, j));
}

/// Chip pairs that spell a frame, bit for bit, are read as that frame.
pub proof fn law_spelled_frame_read(m: Seq<u32>, frame: Seq<u8>)
    requires
        frame.len() == adsb::FRAME_BYTES,
        forall|i: int|
            0 <= i < FRAME_BITS ==> adsb::chip_bit(m, i) == #[trigger] parity::bits_of(frame)[i],
    ensures
        adsb::chip_bytes(m) == frame,
{
    let read = parity::bits_of(adsb::chip_bytes(m));
    let sent = parity::bits_of(frame);
    law_bits_read_back(m, 0);
    assert forall|i: int| 0 <= i < FRAME_BITS implies read[i] == sent[i] by {
        law_bits_read_back(m, i);
    }
    assert(read =~= sent);
    parity::lemma_bits_determine_bytes(adsb::chip_bytes(m), frame);
}

/// A search reports only intact frames, in order, and no two of them overlap.
pub proof fn law_found_intact_and_apart(m: Seq<u32>, pos: int)
    requires
        0 <= pos,
    ensures
        forall|i: int|
            0 <= i < adsb::found(m, pos).len() ==> {
                let p = #[trigger] adsb::found(m, pos)[i];
                pos <= p && p + FRAME_SPAN <= m.len() && adsb::intact_at(m, p)
            },
        forall|i: int, j: int|
            0 <= i < j < adsb::found(m, pos).len() ==> #[trigger] adsb::found(m, pos)[i]
                + FRAME_SPAN <= #[trigger] adsb::found(m, pos)[j],
    decreases m.len() - pos,
{
    if pos + FRAME_SPAN > m.len() {
        assert(adsb::found(m, pos).len() == 0);
    } else if adsb::intact_at(m, pos) {
        law_found_intact_and_apart(m, pos + FRAME_SPAN);
        let rest = adsb::found(m, pos + FRAME_SPAN);
        let all = adsb::found(m, pos);
        assert(all == seq![pos] + rest);
        assert forall|i: int| 0 <= i < all.len() implies {
            let p = #[trigger] all[i];
            pos <= p && p + FRAME_SPAN <= m.len() && adsb::intact_at(m, p)
        } by {
            if i > 0 {
                assert(all[i] == rest[i - 1]);
            }
        }
        assert forall|i: int, j: int| 0 <= i < j < all.len() implies #[trigger] all[i] + FRAME_SPAN
            <= #[trigger] all[j] by {
            assert(all[j] == rest[j - 1]);
            if i > 0 {
                assert(all[i] == rest[i - 1]);
            }
        }
    } else {
        law_found_intact_and_apart(m, pos + 1);
        assert(adsb::found(m, pos) == adsb::found(m, pos + 1));
    }
}

/// A search passes over an intact frame only if it starts inside one that is
/// reported.
pub proof fn law_only_overlapped_frames_skipped(m: Seq<u32>, pos: int, q: int)
    requires
        0 <= pos <= q,
        q + FRAME_SPAN <= m.len(),
        adsb::intact_at(m, q),
    ensures
        adsb::found(m, pos).contains(q) || exists|p: int|
            #[trigger] adsb::found(m, pos).contains(p) && p < q < p + FRAME_SPAN,
    decreases m.len() - pos,
{
    if adsb::intact_at(m, pos) {
        let rest = adsb::found(m, pos + FRAME_SPAN);
        let all = adsb::found(m, pos);
        assert(all == seq![pos] + rest);
        assert(all[0] == pos);
        assert(all.contains(pos));
        if pos + FRAME_SPAN <= q {
            law_only_overlapped_frames_skipped(m, pos + FRAME_SPAN, q);
            assert forall|p: int| #[trigger] rest.contains(p) implies all.contains(p) by {
                let i = rest.index_of(p);
                assert(all[i + 1] == p);
            }
            if !rest.contains(q) {
                let p = choose|p: int|
                    #[trigger] rest.contains(p) && p < q < p + FRAME_SPAN;
                assert(all.contains(p));
            }
        }
    } else {
        law_only_overlapped_frames_skipped(m, pos + 1, q);
    }
}

/// All the levels of a stream: what was carried over, then every chunk.
pub open spec fn stream(carry: Seq<u32>, chunks: Seq<Seq<u32>>) -> Seq<u32>
    decreases chunks.len(),
{
    if chunks.len() == 0 {
        carry
    } else {
        stream(carry + chunks[0], chunks.drop_first())
    }
}

/// All the frames that feeding one chunk after another reports.
pub open spec fn reported(carry: Seq<u32>, chunks: Seq<Seq<u32>>) -> Seq<Seq<u8>>
    decreases chunks.len(),
{
    if chunks.len() == 0 {
        Seq::empty()
    } else {
        adsb::frames_in(carry + chunks[0]) + reported(
            adsb::carried(carry + chunks[0]),
            chunks.drop_first(),
        )
    }
}

proof fn lemma_stream_prefix(x: Seq<u32>, y: Seq<u32>, chunks: Seq<Seq<u32>>)
    ensures
        stream(x + y, chunks) == x + stream(y, chunks),
    decreases chunks.len(),
{
    if chunks.len() > 0 {
        assert((x + y) + chunks[0] =~= x + (y + chunks[0]));
        lemma_stream_prefix(x, y + chunks[0], chunks.drop_first());
    }
}

/// What stands at a place depends on the levels of that window alone.
proof fn lemma_same_window(a: Seq<u32>, p: int, b: Seq<u32>, q: int)
    requires
        0 <= p,
        p + FRAME_SPAN <= a.len(),
        0 <= q,
        q + FRAME_SPAN <= b.len(),
        a.subrange(p, p + FRAME_SPAN) =~= b.subrange(q, q + FRAME_SPAN),
    ensures
        adsb::intact_at(a, p) == adsb::intact_at(b, q),
        adsb::frame_at(a, p) == adsb::frame_at(b, q),
{
    let wa = a.subrange(p, p + FRAME_SPAN);
    let wb = b.subrange(q, q + FRAME_SPAN);
    assert(a.subrange(p, p + PREAMBLE_LEN) =~= wa.take(PREAMBLE_LEN as int));
    assert(b.subrange(q, q + PREAMBLE_LEN) =~= wb.take(PREAMBLE_LEN as int));
    assert(a.subrange(p + PREAMBLE_LEN, p + FRAME_SPAN) =~= wa.skip(PREAMBLE_LEN as int));
    assert(b.subrange(q + PREAMBLE_LEN, q + FRAME_SPAN) =~= wb.skip(PREAMBLE_LEN as int));
}

/// Where a search from `pos` on gives up for want of levels.
spec fn search_end(m: Seq<u32>, pos: int) -> int
    decreases m.len() - pos,
{
    if pos + FRAME_SPAN > m.len() {
        pos
    } else if adsb::intact_at(m, pos) {
        search_end(m, pos + FRAME_SPAN)
    } else {
        search_end(m, pos + 1)
    }
}

/// Between the end of the last frame used and the place where a search gives
/// up, no intact frame starts.
proof fn lemma_search_end(m: Seq<u32>, pos: int)
    requires
        0 <= pos <= m.len(),
    ensures
        pos <= adsb::used_end(m, pos) <= search_end(m, pos) <= m.len(),
        m.len() < search_end(m, pos) + FRAME_SPAN,
        adsb::used_end(m, pos) < search_end(m, pos) ==> search_end(m, pos) + FRAME_SPAN
            == m.len() + 1,
        forall|q: int|
            adsb::used_end(m, pos) <= q < search_end(m, pos) ==> !#[trigger] adsb::intact_at(m, q),
    decreases m.len() - pos,
{
    if pos + FRAME_SPAN > m.len() {
        assert(adsb::found(m, pos).len() == 0);
    } else if adsb::intact_at(m, pos) {
        lemma_search_end(m, pos + FRAME_SPAN);
        let rest = adsb::found(m, pos + FRAME_SPAN);
        assert(adsb::found(m, pos) == seq![pos] + rest);
        assert(adsb::used_end(m, pos) == adsb::used_end(m, pos + FRAME_SPAN));
    } else {
        lemma_search_end(m, pos + 1);
        assert(adsb::found(m, pos) == adsb::found(m, pos + 1));
    }
}

proof fn lemma_found_skips(m: Seq<u32>, from: int, to: int)
    requires
        0 <= from <= to,
        forall|q: int|
            from <= q < to && q + FRAME_SPAN <= m.len() ==> !#[trigger] adsb::intact_at(m, q),
    ensures
        adsb::found(m, from) == adsb::found(m, to),
    decreases to - from,
{
    if from < to {
        if from + FRAME_SPAN <= m.len() {
            assert(!adsb::intact_at(m, from));
        } else {
            assert(adsb::found(m, from) =~= adsb::found(m, from + 1));
        }
        lemma_found_skips(m, from + 1, to);
    }
}

proof fn lemma_found_extends(m: Seq<u32>, more: Seq<u32>, pos: int)
    requires
        0 <= pos,
    ensures
        adsb::found(m + more, pos) == adsb::found(m, pos) + adsb::found(
            m + more,
            search_end(m, pos),
        ),
    decreases m.len() - pos,
{
    if pos + FRAME_SPAN > m.len() {
        assert(adsb::found(m, pos) =~= Seq::<int>::empty());
        assert(Seq::<int>::empty() + adsb::found(m + more, pos) =~= adsb::found(m + more, pos));
    } else {
        lemma_same_window(m, pos, m + more, pos);
        if adsb::intact_at(m, pos) {
            lemma_found_extends(m, more, pos + FRAME_SPAN);
            let a = adsb::found(m, pos + FRAME_SPAN);
            let b = adsb::found(m + more, search_end(m, pos));
            assert(seq![pos] + (a + b) =~= (seq![pos] + a) + b);
        } else {
            lemma_found_extends(m, more, pos + 1);
        }
    }
}

proof fn lemma_found_shifted(x: Seq<u32>, y: Seq<u32>, k: int)
    requires
        0 <= k,
    ensures
        adsb::found(x + y, x.len() + k) == adsb::found(y, k).map_values(|p: int| x.len() + p),
    decreases y.len() - k,
{
    let n = x.len() as int;
    let up = |p: int| x.len() + p;
    if k + FRAME_SPAN > y.len() {
        assert(adsb::found(x + y, n + k) =~= adsb::found(y, k).map_values(up));
    } else {
        lemma_same_window(x + y, n + k, y, k);
        if adsb::intact_at(y, k) {
            lemma_found_shifted(x, y, k + FRAME_SPAN);
            let rest = adsb::found(y, k + FRAME_SPAN);
            assert(n + k + FRAME_SPAN == n + (k + FRAME_SPAN));
            assert((seq![k] + rest).map_values(up) =~= seq![n + k] + rest.map_values(up));
        } else {
            lemma_found_shifted(x, y, k + 1);
            assert(n + k + 1 == n + (k + 1));
        }
    }
}

/// What is found in a buffer and, later, in what is carried on from it together
/// with more is what is found in the whole.
proof fn lemma_found_across_cut(buf: Seq<u32>, more: Seq<u32>)
    ensures
        ({
            let from = adsb::kept_from(buf);
            let first = adsb::found(buf, 0);
            let second = adsb::found(adsb::carried(buf) + more, 0);
            let all = adsb::found(buf + more, 0);
            &&& 0 <= from <= buf.len()
            &&& all.len() == first.len() + second.len()
            &&& forall|i: int| 0 <= i < first.len() ==> #[trigger] all[i] == first[i]
            &&& forall|i: int|
                first.len() <= i < all.len() ==> #[trigger] all[i] == from + second[i
                    - first.len()]
        }),
{
    let whole = buf + more;
    let from = adsb::kept_from(buf);
    let end = search_end(buf, 0);
    let rest = adsb::carried(buf);
    lemma_search_end(buf, 0);
    let front = buf.take(from);
    assert(whole =~= front + (rest + more));
    lemma_found_extends(buf, more, 0);
    assert forall|q: int| from <= q < end && q + FRAME_SPAN <= whole.len() implies
        !#[trigger] adsb::intact_at(whole, q) by {
        assert(!adsb::intact_at(buf, q));
        lemma_same_window(whole, q, buf, q);
    }
    lemma_found_skips(whole, from, end);
    lemma_found_shifted(front, rest + more, 0);
}

proof fn lemma_kept_bounds(m: Seq<u32>)
    ensures
        0 <= adsb::used_end(m, 0) <= adsb::kept_from(m) <= m.len(),
        m.len() - adsb::kept_from(m) <= FRAME_SPAN,
{
    lemma_search_end(m, 0);
}

/// What is carried on past a cut is what the whole carries on.
proof fn lemma_carried_across_cut(buf: Seq<u32>, more: Seq<u32>)
    ensures
        adsb::carried(buf + more) == adsb::carried(adsb::carried(buf) + more),
{
    let whole = buf + more;
    let from = adsb::kept_from(buf);
    let later = adsb::carried(buf) + more;
    let all = adsb::found(whole, 0);
    lemma_found_across_cut(buf, more);
    lemma_kept_bounds(buf);
    lemma_kept_bounds(later);
    lemma_kept_bounds(whole);
    if all.len() > 0 {
        assert(all[all.len() - 1] == all.last());
    }
    let n = from + adsb::kept_from(later);
    assert(adsb::kept_from(whole) == n);
    assert(adsb::carried(whole) =~= adsb::carried(later));
}

/// Cutting a stream in two changes nothing: the frames reported before and
/// after the cut are those of the whole, and so is what is carried on.
pub proof fn law_cut_changes_nothing(buf: Seq<u32>, more: Seq<u32>)
    ensures
        adsb::frames_in(buf + more) == adsb::frames_in(buf) + adsb::frames_in(
            adsb::carried(buf) + more,
        ),
        adsb::carried(buf + more) == adsb::carried(adsb::carried(buf) + more),
{
    let whole = buf + more;
    let from = adsb::kept_from(buf);
    let rest = adsb::carried(buf);
    let first = adsb::found(buf, 0);
    let second = adsb::found(rest + more, 0);
    let all = adsb::found(whole, 0);
    lemma_found_across_cut(buf, more);
    law_found_intact_and_apart(buf, 0);
    law_found_intact_and_apart(rest + more, 0);
    let left = adsb::frames_in(whole);
    let right = adsb::frames_in(buf) + adsb::frames_in(rest + more);
    assert forall|i: int| 0 <= i < left.len() implies left[i] == right[i] by {
        if i < first.len() {
            assert(all[i] == first[i]);
            lemma_same_window(whole, first[i], buf, first[i]);
        } else {
            let p = second[i - first.len()];
            assert(all[i] == from + p);
            lemma_same_window(whole, from + p, rest + more, p);
        }
    }
    assert(left =~= right);
    lemma_carried_across_cut(buf, more);
}

/// A frame that was used is not used again: with nothing new to search, nothing
/// is reported.
pub proof fn law_nothing_reported_twice(buf: Seq<u32>)
    ensures
        adsb::carried(buf).len() <= FRAME_SPAN,
        adsb::frames_in(adsb::carried(buf)) == Seq::<Seq<u8>>::empty(),
{
    let rest = adsb::carried(buf);
    lemma_kept_bounds(buf);
    law_cut_changes_nothing(buf, Seq::empty());
    assert(buf + Seq::<u32>::empty() =~= buf);
    assert(rest + Seq::<u32>::empty() =~= rest);
    assert(adsb::frames_in(rest).len() == 0);
    assert(adsb::frames_in(rest) =~= Seq::<Seq<u8>>::empty());
}

/// Where no frame was found, the last levels are carried on, as many as a frame
/// takes up; a buffer too short for a frame is carried on whole.
pub proof fn law_tail_carried(buf: Seq<u32>)
    ensures
        adsb::frames_in(buf).len() == 0 && buf.len() >= FRAME_SPAN ==> adsb::carried(buf)
            == buf.subrange(buf.len() - FRAME_SPAN, buf.len() as int),
        buf.len() < FRAME_SPAN ==> adsb::frames_in(buf).len() == 0 && adsb::carried(buf) == buf,
        adsb::carried(buf).is_suffix_of(buf),
{
    lemma_kept_bounds(buf);
    let rest = adsb::carried(buf);
    if adsb::frames_in(buf).len() == 0 && buf.len() >= FRAME_SPAN {
        assert(rest =~= buf.subrange(buf.len() - FRAME_SPAN, buf.len() as int));
    }
    if buf.len() < FRAME_SPAN {
        assert(rest =~= buf);
    }
    assert(rest =~= buf.subrange(buf.len() - rest.len(), buf.len() as int));
}

/// However a stream is cut into chunks, feeding them one after the other
/// reports the frames of the whole stream: each of them once, and in order.
pub proof fn law_chunks_report_the_whole(carry: Seq<u32>, chunks: Seq<Seq<u32>>)
    requires
        adsb::frames_in(carry).len() == 0 || chunks.len() > 0,
    ensures
        reported(carry, chunks) == adsb::frames_in(stream(carry, chunks)),
    decreases chunks.len(),
{
    if chunks.len() == 0 {
        assert(adsb::frames_in(carry) =~= Seq::<Seq<u8>>::empty());
    } else {
        let buf = carry + chunks[0];
        let rest = chunks.drop_first();
        let left = adsb::carried(buf);
        let more = stream(Seq::<u32>::empty(), rest);
        law_nothing_reported_twice(buf);
        law_chunks_report_the_whole(left, rest);
        assert(buf + Seq::<u32>::empty() =~= buf);
        assert(left + Seq::<u32>::empty() =~= left);
        lemma_stream_prefix(buf, Seq::<u32>::empty(), rest);
        lemma_stream_prefix(left, Seq::<u32>::empty(), rest);
        law_cut_changes_nothing(buf, more);
    }
}

/// A frame that no other overlaps from the front is reported, wherever the
/// stream is cut: one that straddles chunks is found once its last level is in.
pub proof fn law_lone_frame_reported(carry: Seq<u32>, chunks: Seq<Seq<u32>>, p: int)
    requires
        adsb::frames_in(carry).len() == 0,
        0 <= p,
        p + FRAME_SPAN <= stream(carry, chunks).len(),
        adsb::intact_at(stream(carry, chunks), p),
        forall|q: int|
            0 <= q && p - FRAME_SPAN < q < p ==> !#[trigger] adsb::intact_at(
                stream(carry, chunks),
                q,
            ),
    ensures
        reported(carry, chunks).contains(adsb::frame_at(stream(carry, chunks), p)),
{
    let whole = stream(carry, chunks);
    let at = adsb::found(whole, 0);
    law_chunks_report_the_whole(carry, chunks);
    law_only_overlapped_frames_skipped(whole, 0, p);
    law_found_intact_and_apart(whole, 0);
    if !at.contains(p) {
        let o = choose|o: int| #[trigger] at.contains(o) && o < p < o + FRAME_SPAN;
        let i = at.index_of(o);
        assert(at[i] == o);
        assert(adsb::intact_at(whole, o));
    }
    let i = at.index_of(p);
    assert(adsb::frames_in(whole)[i] == adsb::frame_at(whole, p));
}

/// What is sent is received: a frame with sound parity that follows a preamble
/// somewhere in the stream is reported, bit for bit, if no other intact frame
/// overlaps it from the front.
pub proof fn law_sent_frame_reported(
    carry: Seq<u32>,
    chunks: Seq<Seq<u32>>,
    p: int,
    frame: Seq<u8>,
)
    requires
        adsb::frames_in(carry).len() == 0,
        0 <= p,
        p + FRAME_SPAN <= stream(carry, chunks).len(),
        frame.len() == adsb::FRAME_BYTES,
        parity::parity_holds(frame),
        adsb::preamble_shape(stream(carry, chunks).subrange(p, p + PREAMBLE_LEN)),
        forall|i: int|
            0 <= i < FRAME_BITS ==> adsb::chip_bit(
                stream(carry, chunks).subrange(p + PREAMBLE_LEN, p + FRAME_SPAN),
                i,
            ) == #[trigger] parity::bits_of(frame)[i],
        forall|q: int|
            0 <= q && p - FRAME_SPAN < q < p ==> !#[trigger] adsb::intact_at(
                stream(carry, chunks),
                q,
            ),
    ensures
        reported(carry, chunks).contains(frame),
{
    let whole = stream(carry, chunks);
    law_spelled_frame_read(whole.subrange(p + PREAMBLE_LEN, p + FRAME_SPAN), frame);
    law_lone_frame_reported(carry, chunks, p);
}

/// Every frame that is reported, from whichever chunk, stands intact in the
/// stream.
pub proof fn law_reported_frames_in_stream(carry: Seq<u32>, chunks: Seq<Seq<u32>>, i: int)
    requires
        0 <= i < reported(carry, chunks).len(),
    ensures
        exists|p: int|
            0 <= p && p + FRAME_SPAN <= stream(carry, chunks).len() && #[trigger] adsb::intact_at(
                stream(carry, chunks),
                p,
            ) && reported(carry, chunks)[i] == adsb::frame_at(stream(carry, chunks), p),
{
    let whole = stream(carry, chunks);
    law_chunks_report_the_whole(carry, chunks);
    law_found_intact_and_apart(whole, 0);
    let p = adsb::found(whole, 0)[i];
    assert(adsb::intact_at(whole, p));
}

/// Whether a level is above another, both of them numbers. The level of
/// infinity is `0x7f80_0000`.
pub open spec fn above(a: u32, b: u32) -> bool {
    b < a <= 0x7f80_0000
}

/// Of two levels that are numbers the higher one is louder, however faint both
/// are. A level that is no number is neither louder nor quieter than another.
pub proof fn law_louder_by_level(a: u32, b: u32, r: bool)
    requires
        call_ensures(louder, (a, b), r),
    ensures
        a <= 0x7f80_0000 && b <= 0x7f80_0000 ==> (r <==> a > b),
        a > 0x7f80_0000 || b > 0x7f80_0000 ==> !r,
{
}

/// Levels begin with a preamble exactly when the pulses at slots 0, 2, 7 and 9
/// stand above the slots beside them.
pub proof fn law_preamble_slots(m: &[u32], r: bool)
    requires
        m@.len() >= 10,
        call_ensures(is_preamble, (m,), r),
    ensures
        r <==> above(m@[0], m@[1]) && above(m@[2], m@[1]) && above(m@[2], m@[3]) && above(
            m@[7],
            m@[6],
        ) && above(m@[7], m@[8]) && above(m@[9], m@[8]),
{
}

/// A bit is read from its two chips alone: where their levels are the numbers
/// `a` and `b`, it is 1 exactly when `a > b`; where one of them is no number,
/// it is 0.
pub proof fn law_bit_by_levels(m: Seq<u32>, i: int, a: u32, b: u32)
    requires
        m.len() >= 224,
        0 <= i < 112,
        m[2 * i] == a,
        m[2 * i + 1] == b,
    ensures
        adsb::chip_bytes(m).len() == 14,
        a <= 0x7f80_0000 && b <= 0x7f80_0000 ==> (parity::sent_bit(adsb::chip_bytes(m), i) <==> a
            > b),
        a > 0x7f80_0000 || b > 0x7f80_0000 ==> !parity::sent_bit(adsb::chip_bytes(m), i),
{
    law_bits_read_back(m, i);
    parity::law_bits_in_order(adsb::chip_bytes(m), i);
}

/// Whether a frame has, bit for bit, what chip pairs from `p` on say: a bit is
/// set exactly when the first of its chips is above the second.
pub open spec fn chips_say(m: Seq<u32>, p: int, frame: Seq<u8>) -> bool {
    &&& frame.len() == 14
    &&& forall|i: int|
        0 <= i < 112 ==> (#[trigger] parity::sent_bit(frame, i) <==> above(
            m[p + 2 * i],
            m[p + 2 * i + 1],
        ))
}

/// Chip pairs say exactly one frame, the one that is read from them.
proof fn lemma_chips_say(m: Seq<u32>, p: int, chips: Seq<u32>, frame: Seq<u8>)
    requires
        0 <= p,
        p + 224 <= m.len(),
        chips.len() >= 224,
        forall|i: int| 0 <= i < 224 ==> #[trigger] chips[i] == m[p + i],
    ensures
        chips_say(m, p, frame) <==> frame == adsb::chip_bytes(chips),
{
    let read = adsb::chip_bytes(chips);
    assert forall|i: int| 0 <= i < 112 implies (#[trigger] parity::sent_bit(read, i) <==> above(
        m[p + 2 * i],
        m[p + 2 * i + 1],
    )) by {
        assert(chips[2 * i] == m[p + 2 * i]);
        assert(chips[2 * i + 1] == m[p + 2 * i + 1]);
        law_bit_by_levels(chips, i, chips[2 * i], chips[2 * i + 1]);
    }
    if chips_say(m, p, frame) {
        let a = parity::bits_of(frame);
        let b = parity::bits_of(read);
        assert forall|i: int| 0 <= i < 112 implies a[i] == b[i] by {
            parity::law_bits_in_order(frame, i);
            parity::law_bits_in_order(read, i);
            assert(parity::sent_bit(frame, i) == parity::sent_bit(read, i));
        }
        assert(a =~= b);
        parity::lemma_bits_determine_bytes(frame, read);
    }
}

/// What is decoded is what the chips say, and it is handed out exactly when its
/// parity is sound.
pub proof fn law_decoded_as_said(chips: &[u32], frame: Option<Vec<u8>>, said: Seq<u8>)
    requires
        chips@.len() >= 224,
        call_ensures(decode_bits, (chips,), frame),
        chips_say(chips@, 0, said),
    ensures
        frame is Some <==> parity::parity_holds(said),
        frame matches Some(bytes) ==> bytes@ == said,
{
    lemma_chips_say(chips@, 0, chips@, said);
}

/// Whether a preamble, and behind it chips that say `frame`, stand at `p`.
pub open spec fn heard_at(m: Seq<u32>, p: int, frame: Seq<u8>) -> bool {
    &&& 0 <= p
    &&& p + 240 <= m.len()
    &&& above(m[p], m[p + 1])
    &&& above(m[p + 2], m[p + 1])
    &&& above(m[p + 2], m[p + 3])
    &&& above(m[p + 7], m[p + 6])
    &&& above(m[p + 7], m[p + 8])
    &&& above(m[p + 9], m[p + 8])
    &&& chips_say(m, p + 16, frame)
}

proof fn lemma_heard(m: Seq<u32>, p: int, frame: Seq<u8>)
    requires
        0 <= p,
        p + 240 <= m.len(),
    ensures
        heard_at(m, p, frame) && parity::parity_holds(frame) <==> adsb::intact_at(m, p) && frame
            == adsb::frame_at(m, p),
{
    let head = m.subrange(p, p + PREAMBLE_LEN);
    let chips = m.subrange(p + PREAMBLE_LEN, p + FRAME_SPAN);
    assert(head[0] == m[p] && head[1] == m[p + 1] && head[2] == m[p + 2] && head[3] == m[p + 3]
        && head[6] == m[p + 6] && head[7] == m[p + 7] && head[8] == m[p + 8] && head[9] == m[p
        + 9]);
    lemma_chips_say(m, p + 16, chips, frame);
}

/// What a search reports, said of the levels alone: each frame reported is
/// heard at its place with sound parity, the places are in order and never
/// overlap, and a frame with sound parity that is heard anywhere is reported
/// unless it starts inside one that is.
pub proof fn law_search_hears(m: Seq<u32>)
    ensures
        exists|at: Seq<int>|
            {
                &&& #[trigger] at.len() == adsb::frames_in(m).len()
                &&& forall|i: int|
                    0 <= i < at.len() ==> heard_at(m, #[trigger] at[i], adsb::frames_in(m)[i])
                        && parity::parity_holds(adsb::frames_in(m)[i])
                &&& forall|i: int, j: int|
                    0 <= i < j < at.len() ==> #[trigger] at[i] + 240 <= #[trigger] at[j]
                &&& forall|q: int, frame: Seq<u8>| #[trigger]
                    heard_at(m, q, frame) && parity::parity_holds(frame) ==> (exists|i: int|
                        0 <= i < at.len() && at[i] <= q < #[trigger] at[i] + 240 && (at[i] == q
                            ==> adsb::frames_in(m)[i] == frame))
            },
{
    let at = adsb::found(m, 0);
    let frames = adsb::frames_in(m);
    law_found_intact_and_apart(m, 0);
    assert(at.len() == frames.len());
    assert forall|i: int| 0 <= i < at.len() implies heard_at(m, #[trigger] at[i], frames[i])
        && parity::parity_holds(frames[i]) by {
        assert(adsb::intact_at(m, at[i]));
        assert(frames[i] == adsb::frame_at(m, at[i]));
        lemma_heard(m, at[i], frames[i]);
    }
    assert forall|q: int, frame: Seq<u8>| #[trigger]
        heard_at(m, q, frame) && parity::parity_holds(frame) implies (exists|i: int|
        0 <= i < at.len() && at[i] <= q < #[trigger] at[i] + 240 && (at[i] == q ==> frames[i]
            == frame)) by {
        lemma_heard(m, q, frame);
        law_only_overlapped_frames_skipped(m, 0, q);
        if at.contains(q) {
            let i = at.index_of(q);
            assert(at[i] == q && frames[i] == frame);
        } else {
            let p = choose|p: int| #[trigger] at.contains(p) && p < q < p + FRAME_SPAN;
            let i = at.index_of(p);
            assert(at[i] == p);
        }
    }
}

/// How loud a signal is does not matter, only which levels are above which:
/// streams in which the same places hold numbers, in the same order, report the
/// same frames.
pub proof fn law_only_order_counts(m: Seq<u32>, n: Seq<u32>)
    requires
        m.len() == n.len(),
        forall|i: int, j: int|
            0 <= i < m.len() && 0 <= j < m.len() ==> above(#[trigger] m[i], #[trigger] m[j])
                == above(n[i], n[j]),
    ensures
        adsb::frames_in(m) == adsb::frames_in(n),
{
    lemma_same_order_found(m, n, 0);
    let at = adsb::found(m, 0);
    law_found_intact_and_apart(m, 0);
    assert forall|i: int| 0 <= i < at.len() implies adsb::frames_in(m)[i] == adsb::frames_in(n)[i] by {
        assert(adsb::intact_at(m, at[i]));
        lemma_same_order_window(m, n, at[i]);
    }
    assert(adsb::frames_in(m) =~= adsb::frames_in(n));
}

proof fn lemma_same_order_window(m: Seq<u32>, n: Seq<u32>, p: int)
    requires
        m.len() == n.len(),
        forall|i: int, j: int|
            0 <= i < m.len() && 0 <= j < m.len() ==> above(#[trigger] m[i], #[trigger] m[j])
                == above(n[i], n[j]),
        0 <= p,
        p + 240 <= m.len(),
    ensures
        adsb::intact_at(m, p) == adsb::intact_at(n, p),
        adsb::frame_at(m, p) == adsb::frame_at(n, p),
{
    let f = adsb::frame_at(m, p);
    let g = adsb::frame_at(n, p);
    lemma_chips_say(m, p + 16, m.subrange(p + PREAMBLE_LEN, p + FRAME_SPAN), f);
    lemma_chips_say(n, p + 16, n.subrange(p + PREAMBLE_LEN, p + FRAME_SPAN), f);
    assert forall|i: int| 0 <= i < 112 implies (#[trigger] parity::sent_bit(f, i) <==> above(
        n[p + 16 + 2 * i],
        n[p + 16 + 2 * i + 1],
    )) by {
        assert(above(m[p + 16 + 2 * i], m[p + 16 + 2 * i + 1]) == above(
            n[p + 16 + 2 * i],
            n[p + 16 + 2 * i + 1],
        ));
    }
    assert(chips_say(n, p + 16, f));
    assert(f == g);
    assert(above(m[p], m[p + 1]) == above(n[p], n[p + 1]));
    assert(above(m[p + 2], m[p + 1]) == above(n[p + 2], n[p + 1]));
    assert(above(m[p + 2], m[p + 3]) == above(n[p + 2], n[p + 3]));
    assert(above(m[p + 7], m[p + 6]) == above(n[p + 7], n[p + 6]));
    assert(above(m[p + 7], m[p + 8]) == above(n[p + 7], n[p + 8]));
    assert(above(m[p + 9], m[p + 8]) == above(n[p + 9], n[p + 8]));
    lemma_heard(m, p, f);
    lemma_heard(n, p, f);
}

proof fn lemma_same_order_found(m: Seq<u32>, n: Seq<u32>, pos: int)
    requires
        m.len() == n.len(),
        forall|i: int, j: int|
            0 <= i < m.len() && 0 <= j < m.len() ==> above(#[trigger] m[i], #[trigger] m[j])
                == above(n[i], n[j]),
        0 <= pos,
    ensures
        adsb::found(m, pos) == adsb::found(n, pos),
    decreases m.len() - pos,
{
    if pos + FRAME_SPAN <= m.len() {
        lemma_same_order_window(m, n, pos);
        if adsb::intact_at(m, pos) {
            lemma_same_order_found(m, n, pos + FRAME_SPAN);
        } else {
            lemma_same_order_found(m, n, pos + 1);
        }
    }
}

/// A frame on the air, in the levels `lo` and `hi`: the preamble, with pulses
/// at slots 0, 2, 7 and 9, and then for each bit a pulse in the first half of
/// its time if it is set, in the second half if it is not.
pub open spec fn on_air(frame: Seq<u8>, lo: u32, hi: u32) -> Seq<u32> {
    Seq::new(
        240,
        |i: int|
            if i < 16 {
                if i == 0 || i == 2 || i == 7 || i == 9 {
                    hi
                } else {
                    lo
                }
            } else if parity::sent_bit(frame, (i - 16) / 2) == (i % 2 == 0) {
                hi
            } else {
                lo
            },
    )
}

/// Frames on the air one after the other, with any number of quiet samples
/// before, between and after them.
pub open spec fn all_on_air(frames: Seq<Seq<u8>>, gaps: Seq<nat>, lo: u32, hi: u32) -> Seq<u32>
    decreases frames.len(),
{
    let quiet = Seq::new(gaps[0], |i: int| lo);
    if frames.len() == 0 {
        quiet
    } else {
        quiet + on_air(frames[0], lo, hi) + all_on_air(
            frames.drop_first(),
            gaps.drop_first(),
            lo,
            hi,
        )
    }
}

proof fn lemma_on_air_heard(frame: Seq<u8>, lo: u32, hi: u32)
    requires
        frame.len() == 14,
        lo < hi <= 0x7f80_0000,
    ensures
        heard_at(on_air(frame, lo, hi), 0, frame),
{
    let m = on_air(frame, lo, hi);
    assert forall|i: int| 0 <= i < 112 implies (#[trigger] parity::sent_bit(frame, i) <==> above(
        m[16 + 2 * i],
        m[16 + 2 * i + 1],
    )) by {
        let a = 16 + 2 * i;
        let b = 16 + 2 * i + 1;
        assert((a - 16) / 2 == i && a % 2 == 0);
        assert((b - 16) / 2 == i && b % 2 == 1);
    }
}

/// A search through quiet samples comes upon the frame behind them.
proof fn lemma_quiet_passed(quiet: Seq<u32>, air: Seq<u32>, rest: Seq<u32>, frame: Seq<u8>)
    requires
        air.len() == 240,
        heard_at(air, 0, frame),
        parity::parity_holds(frame),
        forall|i: int| 0 <= i < quiet.len() ==> #[trigger] quiet[i] == quiet[0] && quiet[i] < air[0],
    ensures
        forall|q: int| 0 <= q < quiet.len() ==> !#[trigger] adsb::intact_at(quiet + air + rest, q),
        adsb::intact_at(quiet + air + rest, quiet.len() as int),
        adsb::frame_at(quiet + air + rest, quiet.len() as int) == frame,
{
    let whole = quiet + air + rest;
    let n = quiet.len() as int;
    lemma_heard(air, 0, frame);
    assert forall|q: int| 0 <= q < n implies !#[trigger] adsb::intact_at(whole, q) by {
        lemma_heard(whole, q, adsb::frame_at(whole, q));
        assert(whole[q] == quiet[q]);
        if q + 1 < n {
            assert(whole[q + 1] == quiet[q + 1]);
        } else {
            assert(whole[q + 1] == air[0]);
        }
        assert(!above(whole[q], whole[q + 1]));
    }
    assert(whole.subrange(n, n + FRAME_SPAN) =~= air.subrange(0, 0 + FRAME_SPAN));
    lemma_same_window(whole, n, air, 0);
}

/// A frame at the start of a search is reported first, and then whatever
/// follows it.
proof fn lemma_found_then_rest(front: Seq<u32>, rest: Seq<u32>)
    requires
        front.len() >= FRAME_SPAN,
        forall|q: int|
            0 <= q < front.len() - FRAME_SPAN ==> !#[trigger] adsb::intact_at(front + rest, q),
        adsb::intact_at(front + rest, front.len() - FRAME_SPAN),
    ensures
        adsb::frames_in(front + rest) == seq![
            adsb::frame_at(front + rest, front.len() - FRAME_SPAN),
        ] + adsb::frames_in(rest),
{
    let whole = front + rest;
    let n = front.len() as int;
    let first = n - FRAME_SPAN;
    lemma_found_skips(whole, 0, first);
    lemma_found_shifted(front, rest, 0);
    let later = adsb::found(rest, 0);
    let all = adsb::found(whole, 0);
    assert(all == seq![first] + adsb::found(whole, n));
    law_found_intact_and_apart(rest, 0);
    let left = adsb::frames_in(whole);
    let right = seq![adsb::frame_at(whole, first)] + adsb::frames_in(rest);
    assert forall|i: int| 0 <= i < left.len() implies left[i] == right[i] by {
        if i > 0 {
            let p = later[i - 1];
            assert(all[i] == n + p);
            assert(adsb::intact_at(rest, p));
            assert(whole.subrange(n + p, n + p + FRAME_SPAN) =~= rest.subrange(p, p + FRAME_SPAN));
            lemma_same_window(whole, n + p, rest, p);
            assert(right[i] == adsb::frames_in(rest)[i - 1]);
        }
    }
    assert(left =~= right);
}

proof fn lemma_first_on_air(gap: nat, frame: Seq<u8>, lo: u32, hi: u32, rest: Seq<u32>)
    requires
        frame.len() == 14,
        parity::parity_holds(frame),
        lo < hi <= 0x7f80_0000,
    ensures
        adsb::frames_in(Seq::new(gap, |i: int| lo) + on_air(frame, lo, hi) + rest) == seq![frame]
            + adsb::frames_in(rest),
{
    let quiet = Seq::new(gap, |i: int| lo);
    let front = quiet + on_air(frame, lo, hi);
    lemma_on_air_heard(frame, lo, hi);
    lemma_quiet_passed(quiet, on_air(frame, lo, hi), rest, frame);
    assert(front.len() == gap + FRAME_SPAN);
    lemma_found_then_rest(front, rest);
}

/// What goes on the air is reported, and nothing else: any list of frames with
/// sound parity, sent in any two levels and with any pauses, comes out of the
/// search as that very list.
pub proof fn law_all_on_air_found(frames: Seq<Seq<u8>>, gaps: Seq<nat>, lo: u32, hi: u32)
    requires
        gaps.len() == frames.len() + 1,
        forall|i: int|
            0 <= i < frames.len() ==> (#[trigger] frames[i]).len() == 14 && parity::parity_holds(
                frames[i],
            ),
        lo < hi <= 0x7f80_0000,
    ensures
        adsb::frames_in(all_on_air(frames, gaps, lo, hi)) == frames,
    decreases frames.len(),
{
    let m = all_on_air(frames, gaps, lo, hi);
    if frames.len() == 0 {
        assert forall|q: int| 0 <= q < m.len() && q + FRAME_SPAN <= m.len() implies
            !#[trigger] adsb::intact_at(m, q) by {
            lemma_heard(m, q, adsb::frame_at(m, q));
            assert(m[q] == lo && m[q + 1] == lo);
        }
        lemma_found_skips(m, 0, m.len() as int);
        assert(adsb::frames_in(m) =~= frames);
    } else {
        let rest = all_on_air(frames.drop_first(), gaps.drop_first(), lo, hi);
        assert forall|i: int| 0 <= i < frames.drop_first().len() implies (
        #[trigger] frames.drop_first()[i]).len() == 14 && parity::parity_holds(
            frames.drop_first()[i],
        ) by {
            assert(frames.drop_first()[i] == frames[i + 1]);
        }
        law_all_on_air_found(frames.drop_first(), gaps.drop_first(), lo, hi);
        lemma_first_on_air(gaps[0], frames[0], lo, hi, rest);
        assert(seq![frames[0]] + frames.drop_first() =~= frames);
    }
}

/// A frame with sound parity on the air by itself, in any two levels `lo` and
/// `hi` up to infinity, is reported as exactly that frame.
pub proof fn law_frame_on_air_found(frame: Seq<u8>, lo: u32, hi: u32)
    requires
        frame.len() == 14,
        parity::parity_holds(frame),
        lo < hi <= 0x7f80_0000,
    ensures
        adsb::frames_in(on_air(frame, lo, hi)) == seq![frame],
        adsb::carried(on_air(frame, lo, hi)) == Seq::<u32>::empty(),
{
    let air = on_air(frame, lo, hi);
    lemma_first_on_air(0, frame, lo, hi, Seq::empty());
    assert(Seq::new(0, |i: int| lo) + air + Seq::<u32>::empty() =~= air);
    assert(adsb::frames_in(Seq::<u32>::empty()) =~= Seq::<Seq<u8>>::empty());
    assert(adsb::frames_in(air) =~= seq![frame]);
    lemma_kept_bounds(air);
    assert(adsb::found(air, 0).len() == 1);
    law_found_intact_and_apart(air, 0);
    assert(adsb::intact_at(air, adsb::found(air, 0)[0]));
    assert(adsb::carried(air) =~= Seq::<u32>::empty());
}

/// However the samples of a transmission are cut into chunks, feeding them to a
/// fresh demodulator reports the frames that were sent: all of them, once each,
/// in order and nothing else.
pub proof fn law_all_on_air_reported(
    frames: Seq<Seq<u8>>,
    gaps: Seq<nat>,
    lo: u32,
    hi: u32,
    chunks: Seq<Seq<u32>>,
)
    requires
        gaps.len() == frames.len() + 1,
        forall|i: int|
            0 <= i < frames.len() ==> (#[trigger] frames[i]).len() == 14 && parity::parity_holds(
                frames[i],
            ),
        lo < hi <= 0x7f80_0000,
        chunks.flatten() == all_on_air(frames, gaps, lo, hi),
    ensures
        reported(Seq::empty(), chunks) == frames,
{
    let none = Seq::<u32>::empty();
    law_stream_flat(none, chunks);
    assert(none + chunks.flatten() =~= chunks.flatten());
    assert(adsb::frames_in(none) =~= Seq::<Seq<u8>>::empty());
    law_chunks_report_the_whole(none, chunks);
    law_all_on_air_found(frames, gaps, lo, hi);
}

/// A stream is what was carried over and then the chunks, one after the other.
pub proof fn law_stream_flat(carry: Seq<u32>, chunks: Seq<Seq<u32>>)
    ensures
        stream(carry, chunks) == carry + chunks.flatten(),
    decreases chunks.len(),
{
    reveal(Seq::flatten);
    if chunks.len() == 0 {
        assert(carry + chunks.flatten() =~= carry);
    } else {
        law_stream_flat(carry + chunks[0], chunks.drop_first());
        assert((carry + chunks[0]) + chunks.drop_first().flatten() =~= carry + chunks.flatten());
    }
}

/// Feeding a chunk reports what a search through everything since the last
/// frame used reports, and keeps of it what no frame used, up to 240 levels.
pub proof fn law_feed(demod: &mut AdsbLiveDemod, mags: &[u32], frames: Vec<Vec<u8>>)
    requires
        call_ensures(AdsbLiveDemod::feed, (demod, mags), frames),
    ensures
        ({
            let buf = old(demod).carry@ + mags@;
            let kept = final(demod).carry@;
            let at = adsb::found(buf, 0);
            let used = if at.len() == 0 {
                0
            } else {
                at.last() + 240
            };
            &&& frames@.len() == adsb::frames_in(buf).len()
            &&& forall|i: int|
                0 <= i < frames@.len() ==> (#[trigger] frames@[i])@ == adsb::frames_in(buf)[i]
            &&& kept.len() == if buf.len() - used > 240 {
                240
            } else {
                buf.len() - used
            }
            &&& forall|i: int|
                0 <= i < kept.len() ==> #[trigger] kept[i] == buf[buf.len() - kept.len() + i]
        }),
{
    let buf = old(demod).carry@ + mags@;
    lemma_kept_bounds(buf);
    assert(adsb::contents(frames@).len() == frames@.len());
    assert forall|i: int| 0 <= i < frames@.len() implies (#[trigger] frames@[i])@
        == adsb::frames_in(buf)[i] by {
        assert(adsb::contents(frames@)[i] == frames@[i]@);
    }
}

/// A demodulator that has heard nothing keeps nothing.
pub proof fn law_fresh_demodulator(demod: AdsbLiveDemod)
    requires
        call_ensures(AdsbLiveDemod::new, (), demod),
    ensures
        demod.carry@.len() == 0,
{
}

} // verus!
