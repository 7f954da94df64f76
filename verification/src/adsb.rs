//! A simplified Mode S / ADS-B pulse-position demodulator, in the spirit of
//! the classic two-samples-per-bit decoders: a short magnitude pattern marks
//! the preamble, then each bit is read as "first half-bit chip louder than the
//! second" (1) or not (0).
//!
//! - The sample rate is exactly 2.0 Msps, two samples per bit.
//! - Only 112-bit long frames are attempted.
//! - Every candidate is parity-checked; one that fails is dropped.
//!
//! The demodulator only ever compares magnitudes, so it works on *levels*: the
//! IEEE 754 single-precision bit pattern of a magnitude. Magnitudes are never
//! negative, and on those the integer order of the patterns is the order of
//! the numbers. A pattern above that of infinity is not a number, and is
//! neither louder nor quieter than anything.

use vstd::prelude::*;

use crate::parity;
use crate::parity::modes_crc_ok;

verus! {

/// Samples in a preamble: 8 microseconds at two samples per microsecond.
pub const PREAMBLE_LEN: usize = 16;

/// Bits in a long frame.
pub const FRAME_BITS: usize = 112;

/// Bytes in a long frame.
pub const FRAME_BYTES: usize = 14;

/// Samples that a preamble and the frame after it take up together.
pub const FRAME_SPAN: usize = PREAMBLE_LEN + 2 * FRAME_BITS;

/// The level of an infinite magnitude, the highest level that is a number.
pub const LEVEL_INFINITE: u32 = 0x7f80_0000;

/// Whether the magnitude behind level `a` is greater than the one behind `b`.
pub open spec fn is_louder(a: u32, b: u32) -> bool {
    a <= LEVEL_INFINITE && b <= LEVEL_INFINITE && a > b
}

/// Whether the magnitude behind level `a` is greater than the one behind `b`.
pub fn louder(a: u32, b: u32) -> (r: bool)
    ensures
        r == is_louder(a, b),
{
    a <= LEVEL_INFINITE && b <= LEVEL_INFINITE && a > b
}

/// The Mode S preamble: pulses at half-microsecond slots 0, 2, 7 and 9.
pub open spec fn preamble_shape(m: Seq<u32>) -> bool {
    &&& is_louder(m[0], m[1])
    &&& is_louder(m[2], m[1])
    &&& is_louder(m[2], m[3])
    &&& is_louder(m[7], m[6])
    &&& is_louder(m[7], m[8])
    &&& is_louder(m[9], m[8])
}

/// Bit `i` of a run of chip pairs.
pub open spec fn chip_bit(m: Seq<u32>, i: int) -> bool {
    is_louder(m[2 * i], m[2 * i + 1])
}

/// Byte `k` of a run of chip pairs, most significant bit first.
pub open spec fn chip_byte(m: Seq<u32>, k: int) -> u8 {
    (parity::place(chip_bit(m, 8 * k), 128) + parity::place(chip_bit(m, 8 * k + 1), 64) + parity::place(
        chip_bit(m, 8 * k + 2),
        32,
    ) + parity::place(chip_bit(m, 8 * k + 3), 16) + parity::place(chip_bit(m, 8 * k + 4), 8) + parity::place(
        chip_bit(m, 8 * k + 5),
        4,
    ) + parity::place(chip_bit(m, 8 * k + 6), 2) + parity::place(chip_bit(m, 8 * k + 7), 1)) as u8
}

/// The frame that a run of chip pairs spells.
pub open spec fn chip_bytes(m: Seq<u32>) -> Seq<u8> {
    Seq::new(FRAME_BYTES as nat, |k: int| chip_byte(m, k))
}

/// The frame spelled by the levels after a preamble at `p`.
pub open spec fn frame_at(m: Seq<u32>, p: int) -> Seq<u8> {
    chip_bytes(m.subrange(p + PREAMBLE_LEN, p + FRAME_SPAN))
}

/// Whether a preamble followed by an intact frame starts at `p`.
pub open spec fn intact_at(m: Seq<u32>, p: int) -> bool {
    &&& preamble_shape(m.subrange(p, p + PREAMBLE_LEN))
    &&& parity::parity_holds(frame_at(m, p))
}

/// Where the frames stand that a search from `pos` on reports: the first
/// intact one, then the first one that starts after its end, and so on.
pub open spec fn found(m: Seq<u32>, pos: int) -> Seq<int>
    decreases m.len() - pos,
{
    if pos + FRAME_SPAN > m.len() {
        Seq::empty()
    } else if intact_at(m, pos) {
        seq![pos] + found(m, pos + FRAME_SPAN)
    } else {
        found(m, pos + 1)
    }
}

/// The frames that a search through a whole buffer reports, in order.
pub open spec fn frames_in(m: Seq<u32>) -> Seq<Seq<u8>> {
    found(m, 0).map_values(|p: int| frame_at(m, p))
}

/// Where the last frame that a search from `pos` on reports ends, or `pos` if
/// it reports none.
pub open spec fn used_end(m: Seq<u32>, pos: int) -> int {
    let at = found(m, pos);
    if at.len() == 0 {
        pos
    } else {
        at.last() + FRAME_SPAN
    }
}

/// Where the part of a searched buffer begins that the next chunk is appended
/// to: as many levels as a frame takes up, but none of a frame that was used.
pub open spec fn kept_from(m: Seq<u32>) -> int {
    let end = used_end(m, 0);
    if m.len() - end > FRAME_SPAN {
        m.len() - FRAME_SPAN
    } else {
        end
    }
}

/// The part of a searched buffer that the next chunk is appended to. It is long
/// enough that a frame straddling the two is seen whole, and nothing of a frame
/// that was used is seen again.
pub open spec fn carried(m: Seq<u32>) -> Seq<u32> {
    m.skip(kept_from(m))
}

/// The contents of a list of byte strings.
pub open spec fn contents(v: Seq<Vec<u8>>) -> Seq<Seq<u8>> {
    v.map_values(|f: Vec<u8>| f@)
}

/// Whether levels begin with a Mode S preamble.
pub fn is_preamble(m: &[u32]) -> (r: bool)
    requires
        m@.len() >= 10,
    ensures
        r == preamble_shape(m@),
{
    louder(m[0], m[1]) && louder(m[2], m[1]) && louder(m[2], m[3]) && louder(m[7], m[6])
        && louder(m[7], m[8]) && louder(m[9], m[8])
}

/// The value of the first `j` bits of byte `k`, in place.
spec fn chip_prefix(m: Seq<u32>, k: int, j: int) -> int
    decreases j,
{
    if j <= 0 {
        0
    } else {
        chip_prefix(m, k, j - 1) + parity::place(chip_bit(m, 8 * k + j - 1), parity::weight(j - 1))
    }
}

proof fn lemma_chip_prefix_whole(m: Seq<u32>, k: int)
    ensures
        chip_prefix(m, k, 8) == chip_byte(m, k),
        0 <= chip_prefix(m, k, 8) <= 255,
{
    reveal_with_fuel(chip_prefix, 9);
}

/// Reads the frame that chip pairs spell, and hands it out if it is intact.
pub fn decode_bits(bit_mags: &[u32]) -> (frame: Option<Vec<u8>>)
    requires
        bit_mags@.len() >= 2 * FRAME_BITS,
    ensures
        frame is Some <==> parity::parity_holds(chip_bytes(bit_mags@)),
        frame matches Some(bytes) ==> bytes@ == chip_bytes(bit_mags@),
{
    let mut bytes: Vec<u8> = Vec::with_capacity(FRAME_BYTES);
    let ghost m = bit_mags@;
    let mut k: usize = 0;
    while k < FRAME_BYTES
        invariant
            k <= FRAME_BYTES,
            m == bit_mags@,
            m.len() >= 2 * FRAME_BITS,
            bytes@.len() == k,
            forall|t: int| 0 <= t < k ==> #[trigger] bytes@[t] == chip_byte(m, t),
        decreases FRAME_BYTES - k,
    {
        let mut byte: u8 = 0;
        let mut w: u8 = 128;
        let mut j: usize = 0;
        while j < 8
            invariant
                k < FRAME_BYTES,
                m == bit_mags@,
                m.len() >= 2 * FRAME_BITS,
                j <= 8,
                j < 8 ==> w == parity::weight(j as int),
                byte + 2 * w <= 256,
                byte == chip_prefix(m, k as int, j as int),
            decreases 8 - j,
        {
            let bit_i: usize = 8 * k + j;
            if louder(bit_mags[2 * bit_i], bit_mags[2 * bit_i + 1]) {
                byte = byte + w;
            }
            w = w / 2;
            j += 1;
        }
        proof {
            lemma_chip_prefix_whole(m, k as int);
        }
        bytes.push(byte);
        k += 1;
    }
    assert(bytes@ =~= chip_bytes(m));
    if modes_crc_ok(bytes.as_slice()) {
        Some(bytes)
    } else {
        None
    }
}

/// A streaming demodulator: the end of one chunk is searched together with the
/// next.
pub struct AdsbLiveDemod {
    pub carry: Vec<u32>,
}

impl AdsbLiveDemod {
    /// A demodulator that has heard nothing yet.
    pub fn new() -> (demod: Self)
        ensures
            demod.carry@ == Seq::<u32>::empty(),
    {
        AdsbLiveDemod { carry: Vec::new() }
    }

    /// Takes in a chunk of levels sampled at 2.0 Msps and returns the complete,
    /// intact 14-byte frames found.
    pub fn feed(&mut self, mags: &[u32]) -> (frames: Vec<Vec<u8>>)
        ensures
            contents(frames@) == frames_in(old(self).carry@ + mags@),
            final(self).carry@ == carried(old(self).carry@ + mags@),
            final(self).carry@.len() <= FRAME_SPAN,
    {
        let ghost buf = self.carry@ + mags@;
        self.carry.extend_from_slice(mags);
        assert(self.carry@ =~= buf);
        let mag: &[u32] = self.carry.as_slice();
        let len: usize = mag.len();
        let mut frames: Vec<Vec<u8>> = Vec::new();
        let mut pos: usize = 0;
        let mut used: usize = 0;
        let ghost mut at: Seq<int> = Seq::empty();
        assert(at + found(buf, 0) =~= found(buf, 0));
        while len - pos >= FRAME_SPAN
            invariant
                mag@ == buf,
                len == buf.len(),
                pos <= len,
                at + found(buf, pos as int) == found(buf, 0),
                used <= pos,
                used == if at.len() == 0 {
                    0
                } else {
                    at.last() + FRAME_SPAN
                },
                at.len() == frames@.len(),
                forall|i: int|
                    0 <= i < frames@.len() ==> #[trigger] frames@[i]@ == frame_at(buf, at[i]),
            decreases len - pos,
        {
            let window: &[u32] = vstd::slice::slice_subrange(mag, pos, pos + FRAME_SPAN);
            let head: &[u32] = vstd::slice::slice_subrange(window, 0, PREAMBLE_LEN);
            let chips: &[u32] = vstd::slice::slice_subrange(window, PREAMBLE_LEN, FRAME_SPAN);
            assert(head@ =~= buf.subrange(pos as int, pos + PREAMBLE_LEN));
            assert(chips@ =~= buf.subrange(pos + PREAMBLE_LEN, pos + FRAME_SPAN));
            let mut step: usize = 1;
            if is_preamble(head) {
                if let Some(bytes) = decode_bits(chips) {
                    proof {
                        let rest = found(buf, pos + FRAME_SPAN);
                        assert(at + (seq![pos as int] + rest) =~= at.push(pos as int) + rest);
                        at = at.push(pos as int);
                    }
                    frames.push(bytes);
                    step = FRAME_SPAN;
                    used = pos + FRAME_SPAN;
                }
            }
            pos = pos + step;
        }
        assert(at =~= found(buf, 0));
        assert(contents(frames@) =~= frames_in(buf));
        let from: usize = if len - used > FRAME_SPAN {
            len - FRAME_SPAN
        } else {
            used
        };
        let keep: Vec<u32> = self.carry.split_off(from);
        self.carry = keep;
        assert(self.carry@ =~= carried(buf));
        frames
    }
}

} // verus!
