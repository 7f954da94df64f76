//! The Mode S parity check.
//!
//! A frame, read as a polynomial over the two-element field with the first
//! transmitted bit as the leading coefficient, is intact when the generator
//! polynomial divides it.

use vstd::prelude::*;

verus! {

/// The generator polynomial of the Mode S parity check, of degree 24.
pub const GENERATOR: u32 = 0x1FF_F409;

/// The place value of bit `j` of a byte, counting from the most significant.
pub open spec fn weight(j: int) -> int {
    if j == 0 {
        128
    } else if j == 1 {
        64
    } else if j == 2 {
        32
    } else if j == 3 {
        16
    } else if j == 4 {
        8
    } else if j == 5 {
        4
    } else if j == 6 {
        2
    } else {
        1
    }
}

/// Bit `j` of a byte, counting from the most significant.
pub open spec fn bit_of(byte: u8, j: int) -> bool {
    (byte as int / weight(j)) % 2 == 1
}

/// The bits of a byte string in transmission order.
pub open spec fn bits_of(bytes: Seq<u8>) -> Seq<bool> {
    Seq::new(8 * bytes.len(), |i: int| bit_of(bytes[i / 8], i % 8))
}

/// One step of long division by the generator: the running remainder `r`
/// takes in the next coefficient.
pub open spec fn divide_step(r: u32, bit: bool) -> u32 {
    let shifted: u32 = (r << 1) | (if bit { 1u32 } else { 0u32 });
    if shifted & 0x100_0000u32 != 0 {
        shifted ^ 0x1FF_F409u32
    } else {
        shifted
    }
}

/// The remainder of a polynomial, given by its coefficients, on division by
/// the generator.
pub open spec fn remainder(bits: Seq<bool>) -> u32
    decreases bits.len(),
{
    if bits.len() == 0 {
        0
    } else {
        divide_step(remainder(bits.drop_last()), bits.last())
    }
}

/// Whether the generator divides a byte string.
pub open spec fn parity_holds(bytes: Seq<u8>) -> bool {
    remainder(bits_of(bytes)) == 0
}

/// Whether the parity field of a Mode S frame agrees with the rest of it.
pub fn modes_crc_ok(bytes: &[u8]) -> (ok: bool)
    ensures
        ok == parity_holds(bytes@),
{
    let mut rem: u32 = 0;
    let mut k: usize = 0;
    let ghost bits = bits_of(bytes@);
    assert(bits.take(0) =~= Seq::<bool>::empty());
    while k < bytes.len()
        invariant
            k <= bytes.len(),
            bits == bits_of(bytes@),
            rem == remainder(bits.take(8 * k as int)),
        decreases bytes.len() - k,
    {
        let byte: u8 = bytes[k];
        let mut w: u8 = 128;
        let mut j: usize = 0;
        while j < 8
            invariant
                k < bytes.len(),
                byte == bytes@[k as int],
                j <= 8,
                j < 8 ==> w == weight(j as int),
                bits == bits_of(bytes@),
                rem == remainder(bits.take(8 * k + j)),
            decreases 8 - j,
        {
            let bit: bool = (byte / w) % 2 == 1;
            let ghost i = 8 * k + j;
            proof {
                assert(i / 8 == k && i % 8 == j);
                assert(bits[i] == bit);
                assert(bits.take(i + 1).drop_last() =~= bits.take(i));
                assert(bits.take(i + 1).last() == bit);
            }
            let shifted: u32 = (rem << 1) | (if bit { 1u32 } else { 0u32 });
            rem = if shifted & 0x100_0000u32 != 0 {
                shifted ^ GENERATOR
            } else {
                shifted
            };
            w = w / 2;
            j += 1;
        }
        k += 1;
    }
    assert(bits.take(8 * k as int) =~= bits);
    rem == 0
}

/// The coefficient-wise sum of two polynomials of the same length.
pub open spec fn difference(a: Seq<bool>, b: Seq<bool>) -> Seq<bool> {
    Seq::new(a.len(), |i: int| a[i] != b[i])
}

proof fn lemma_step_linear(r1: u32, r2: u32, b1: bool, b2: bool)
    requires
        r1 < 0x100_0000,
        r2 < 0x100_0000,
    ensures
        divide_step(r1, b1) < 0x100_0000,
        divide_step(r1 ^ r2, b1 != b2) == divide_step(r1, b1) ^ divide_step(r2, b2),
{
    let c1: u32 = if b1 { 1 } else { 0 };
    let c2: u32 = if b2 { 1 } else { 0 };
    let c3: u32 = if b1 != b2 { 1 } else { 0 };
    assert(c3 == c1 ^ c2) by {
        assert(0u32 ^ 0u32 == 0 && 0u32 ^ 1u32 == 1 && 1u32 ^ 0u32 == 1 && 1u32 ^ 1u32 == 0)
            by (bit_vector);
    }
    let s1: u32 = (r1 << 1) | c1;
    let s2: u32 = (r2 << 1) | c2;
    let s3: u32 = ((r1 ^ r2) << 1) | c3;
    let d1: u32 = if s1 & 0x100_0000u32 != 0 { s1 ^ 0x1FF_F409u32 } else { s1 };
    let d2: u32 = if s2 & 0x100_0000u32 != 0 { s2 ^ 0x1FF_F409u32 } else { s2 };
    let d3: u32 = if s3 & 0x100_0000u32 != 0 { s3 ^ 0x1FF_F409u32 } else { s3 };
    assert(d1 < 0x100_0000u32) by (bit_vector)
        requires
            r1 < 0x100_0000u32,
            c1 <= 1u32,
            s1 == (r1 << 1) | c1,
            d1 == if s1 & 0x100_0000u32 != 0 { s1 ^ 0x1FF_F409u32 } else { s1 },
    ;
    assert(d3 == d1 ^ d2) by (bit_vector)
        requires
            c1 <= 1u32,
            c2 <= 1u32,
            c3 == c1 ^ c2,
            s1 == (r1 << 1) | c1,
            s2 == (r2 << 1) | c2,
            s3 == ((r1 ^ r2) << 1) | c3,
            d1 == if s1 & 0x100_0000u32 != 0 { s1 ^ 0x1FF_F409u32 } else { s1 },
            d2 == if s2 & 0x100_0000u32 != 0 { s2 ^ 0x1FF_F409u32 } else { s2 },
            d3 == if s3 & 0x100_0000u32 != 0 { s3 ^ 0x1FF_F409u32 } else { s3 },
    ;
}

/// A remainder has at most 24 bits.
pub proof fn lemma_remainder_bound(bits: Seq<bool>)
    ensures
        remainder(bits) < 0x100_0000,
    decreases bits.len(),
{
    if bits.len() > 0 {
        lemma_remainder_bound(bits.drop_last());
        lemma_step_linear(remainder(bits.drop_last()), 0, bits.last(), false);
    }
}

/// Taking the remainder is linear: the remainders of two frames differ by the
/// remainder of their difference.
pub proof fn law_remainder_linear(a: Seq<bool>, b: Seq<bool>)
    requires
        a.len() == b.len(),
    ensures
        remainder(difference(a, b)) == remainder(a) ^ remainder(b),
    decreases a.len(),
{
    if a.len() == 0 {
        assert(0u32 ^ 0u32 == 0) by (bit_vector);
    } else {
        let a1 = a.drop_last();
        let b1 = b.drop_last();
        law_remainder_linear(a1, b1);
        lemma_remainder_bound(a1);
        lemma_remainder_bound(b1);
        lemma_step_linear(remainder(a1), remainder(b1), a.last(), b.last());
        assert(difference(a, b).drop_last() =~= difference(a1, b1));
    }
}

/// A polynomial that vanishes before `start` and has at most 24 coefficients
/// from there on is its own remainder: it fits in as many bits, and is zero only
/// if every coefficient is.
proof fn lemma_short_tail(bits: Seq<bool>, start: int)
    requires
        0 <= start <= bits.len() <= start + 24,
        forall|i: int| 0 <= i < start ==> !bits[i],
    ensures
        remainder(bits) < 1u32 << ((bits.len() - start) as u32),
        remainder(bits) == 0 ==> forall|i: int| 0 <= i < bits.len() ==> !bits[i],
    decreases bits.len(),
{
    let n: u32 = (bits.len() - start) as u32;
    if n == 0 {
        lemma_zeros(bits);
        assert(0u32 < 1u32 << 0u32) by (bit_vector);
    } else {
        let front = bits.drop_last();
        let r: u32 = remainder(front);
        lemma_short_tail(front, start);
        let m: u32 = (n - 1) as u32;
        let c: u32 = if bits.last() { 1 } else { 0 };
        let s: u32 = (r << 1) | c;
        assert(s & 0x100_0000u32 == 0 && s < (1u32 << n) && (s == 0 ==> r == 0 && c == 0))
            by (bit_vector)
            requires
                n <= 24u32,
                1u32 <= n,
                m == n - 1,
                r < (1u32 << m),
                c <= 1u32,
                s == (r << 1) | c,
        ;
        if remainder(bits) == 0 {
            assert forall|i: int| 0 <= i < bits.len() implies !bits[i] by {
                if i < front.len() {
                    assert(!front[i]);
                }
            }
        }
    }
}

proof fn lemma_zeros(bits: Seq<bool>)
    requires
        forall|i: int| 0 <= i < bits.len() ==> !bits[i],
    ensures
        remainder(bits) == 0,
    decreases bits.len(),
{
    if bits.len() > 0 {
        assert forall|i: int| 0 <= i < bits.drop_last().len() implies !bits.drop_last()[i] by {
            assert(!bits[i]);
        }
        lemma_zeros(bits.drop_last());
        assert((0u32 << 1) | 0u32 == 0 && 0u32 & 0x100_0000u32 == 0) by (bit_vector);
    }
}

/// Appending zero coefficients to a polynomial that the generator does not
/// divide leaves it undivided.
proof fn lemma_zeros_keep_nonzero(bits: Seq<bool>, end: int)
    requires
        0 <= end <= bits.len(),
        forall|i: int| end <= i < bits.len() ==> !bits[i],
        remainder(bits.take(end)) != 0,
    ensures
        remainder(bits) != 0,
    decreases bits.len() - end,
{
    if end == bits.len() {
        assert(bits.take(end) =~= bits);
    } else {
        let r: u32 = remainder(bits.take(end));
        lemma_remainder_bound(bits.take(end));
        assert(bits.take(end + 1).drop_last() =~= bits.take(end));
        assert(bits.take(end + 1).last() == bits[end]);
        let s: u32 = (r << 1) | 0u32;
        assert(if s & 0x100_0000u32 != 0 {
            s ^ 0x1FF_F409u32 != 0
        } else {
            s != 0
        }) by (bit_vector)
            requires
                r < 0x100_0000u32,
                r != 0u32,
                s == (r << 1) | 0u32,
        ;
        lemma_zeros_keep_nonzero(bits, end + 1);
    }
}

/// Byte strings with the same bits are the same.
pub proof fn lemma_bits_determine_bytes(a: Seq<u8>, b: Seq<u8>)
    requires
        bits_of(a) == bits_of(b),
    ensures
        a == b,
{
    assert(bits_of(a).len() == 8 * a.len() && bits_of(b).len() == 8 * b.len());
    assert forall|k: int| 0 <= k < a.len() implies a[k] == b[k] by {
        assert forall|j: int| 0 <= j < 8 implies bit_of(a[k], j) == bit_of(b[k], j) by {
            let i = 8 * k + j;
            assert(i / 8 == k && i % 8 == j);
            assert(bits_of(a)[i] == bit_of(a[i / 8], i % 8));
            assert(bits_of(b)[i] == bit_of(b[i / 8], i % 8));
        }
        lemma_byte_from_bits(a[k]);
        lemma_byte_from_bits(b[k]);
        assert(bit_of(a[k], 0) == bit_of(b[k], 0));
        assert(bit_of(a[k], 1) == bit_of(b[k], 1));
        assert(bit_of(a[k], 2) == bit_of(b[k], 2));
        assert(bit_of(a[k], 3) == bit_of(b[k], 3));
        assert(bit_of(a[k], 4) == bit_of(b[k], 4));
        assert(bit_of(a[k], 5) == bit_of(b[k], 5));
        assert(bit_of(a[k], 6) == bit_of(b[k], 6));
        assert(bit_of(a[k], 7) == bit_of(b[k], 7));
    }
    assert(a =~= b);
}

/// `w` if the bit is set, nothing otherwise.
pub open spec fn place(bit: bool, w: int) -> int {
    if bit {
        w
    } else {
        0
    }
}

#[verifier::rlimit(40)]
proof fn lemma_byte_from_bits(x: u8)
    ensures
        x == place(bit_of(x, 0), 128) + place(bit_of(x, 1), 64) + place(bit_of(x, 2), 32) + place(
            bit_of(x, 3),
            16,
        ) + place(bit_of(x, 4), 8) + place(bit_of(x, 5), 4) + place(bit_of(x, 6), 2) + place(
            bit_of(x, 7),
            1,
        ),
{
    assert(x == ((x / 128) % 2) * 128 + ((x / 64) % 2) * 64 + ((x / 32) % 2) * 32 + ((x / 16) % 2)
        * 16 + ((x / 8) % 2) * 8 + ((x / 4) % 2) * 4 + ((x / 2) % 2) * 2 + ((x / 1) % 2) * 1)
        by (bit_vector);
}

/// Damage confined to 24 consecutive bits of an intact frame, a single flipped
/// bit among them, never goes unnoticed.
pub proof fn law_short_burst_detected(sent: Seq<u8>, received: Seq<u8>, start: int)
    requires
        sent.len() == received.len(),
        sent != received,
        0 <= start,
        forall|i: int|
            0 <= i < 8 * sent.len() && #[trigger] bits_of(sent)[i] != bits_of(received)[i] ==> start
                <= i < start + 24,
        parity_holds(sent),
    ensures
        !parity_holds(received),
{
    let a = bits_of(sent);
    let b = bits_of(received);
    let d = difference(a, b);
    let n = d.len() as int;
    if a == b {
        lemma_bits_determine_bytes(sent, received);
    }
    assert(exists|i: int| 0 <= i < n && a[i] != b[i]) by {
        if forall|i: int| 0 <= i < n ==> a[i] == b[i] {
            assert(a =~= b);
        }
    }
    let at = choose|i: int| 0 <= i < n && a[i] != b[i];
    let end = if start + 24 <= n { start + 24 } else { n };
    let head = d.take(end);
    assert forall|i: int| 0 <= i < start && i < head.len() implies !head[i] by {
        assert(a[i] == b[i]);
    }
    assert(head[at]);
    lemma_short_tail(head, start);
    assert(remainder(head) != 0);
    assert forall|i: int| end <= i < d.len() implies !d[i] by {
        assert(a[i] == b[i]);
    }
    lemma_zeros_keep_nonzero(d, end);
    law_remainder_linear(a, b);
    if parity_holds(received) {
        assert(0u32 ^ 0u32 == 0) by (bit_vector);
    }
}

/// Bit `i` of a byte string as it goes out: bytes in order, and the most
/// significant bit of each first.
pub open spec fn sent_bit(bytes: Seq<u8>, i: int) -> bool {
    (bytes[i / 8] >> ((7 - i % 8) as u8)) & 1 == 1
}

/// The bits of a byte string are its sent bits, eight to a byte.
pub proof fn law_bits_in_order(bytes: Seq<u8>, i: int)
    requires
        0 <= i < 8 * bytes.len(),
    ensures
        bits_of(bytes).len() == 8 * bytes.len(),
        bits_of(bytes)[i] == sent_bit(bytes, i),
{
    let x = bytes[i / 8];
    assert(((x >> 7u8) & 1 == 1) == ((x / 128) % 2 == 1) && ((x >> 6u8) & 1 == 1) == ((x / 64) % 2
        == 1) && ((x >> 5u8) & 1 == 1) == ((x / 32) % 2 == 1) && ((x >> 4u8) & 1 == 1) == ((x / 16)
        % 2 == 1) && ((x >> 3u8) & 1 == 1) == ((x / 8) % 2 == 1) && ((x >> 2u8) & 1 == 1) == ((x
        / 4) % 2 == 1) && ((x >> 1u8) & 1 == 1) == ((x / 2) % 2 == 1) && ((x >> 0u8) & 1 == 1)
        == ((x / 1) % 2 == 1)) by (bit_vector);
}

/// The coefficient of `x^e` in the generator of the Mode S parity check:
/// `x^24 + x^23 + ... + x^12 + x^10 + x^3 + 1`.
pub open spec fn generator_has(e: int) -> bool {
    12 <= e <= 24 || e == 10 || e == 3 || e == 0
}

/// The product of a polynomial and the generator, by schoolbook
/// multiplication: each further coefficient moves what is there up by one
/// place, and adds the generator if it is set.
pub open spec fn times_generator(q: Seq<bool>) -> Seq<bool>
    decreases q.len(),
{
    if q.len() == 0 {
        Seq::new(24, |i: int| false)
    } else {
        let up = times_generator(q.drop_last()).push(false);
        Seq::new(up.len(), |i: int| up[i] != (q.last() && generator_has(up.len() - 1 - i)))
    }
}

proof fn lemma_push(bits: Seq<bool>, bit: bool)
    ensures
        remainder(bits.push(bit)) == divide_step(remainder(bits), bit),
{
    assert(bits.push(bit).drop_last() =~= bits);
}

/// The generator, behind any number of zero coefficients, leaves no remainder.
proof fn lemma_generator_divides_itself(n: nat)
    ensures
        remainder(Seq::new(n + 25, |i: int| generator_has(n + 24 - i))) == 0,
{
    let s = Seq::new(n, |i: int| false);
    lemma_zeros(s);
    let s0 = s.push(true);
    let s1 = s0.push(true);
    let s2 = s1.push(true);
    let s3 = s2.push(true);
    let s4 = s3.push(true);
    let s5 = s4.push(true);
    let s6 = s5.push(true);
    let s7 = s6.push(true);
    let s8 = s7.push(true);
    let s9 = s8.push(true);
    let s10 = s9.push(true);
    let s11 = s10.push(true);
    let s12 = s11.push(true);
    let s13 = s12.push(false);
    let s14 = s13.push(true);
    let s15 = s14.push(false);
    let s16 = s15.push(false);
    let s17 = s16.push(false);
    let s18 = s17.push(false);
    let s19 = s18.push(false);
    let s20 = s19.push(false);
    let s21 = s20.push(true);
    let s22 = s21.push(false);
    let s23 = s22.push(false);
    let s24 = s23.push(true);
    lemma_push(s, true);
    lemma_push(s0, true);
    lemma_push(s1, true);
    lemma_push(s2, true);
    lemma_push(s3, true);
    lemma_push(s4, true);
    lemma_push(s5, true);
    lemma_push(s6, true);
    lemma_push(s7, true);
    lemma_push(s8, true);
    lemma_push(s9, true);
    lemma_push(s10, true);
    lemma_push(s11, true);
    lemma_push(s12, false);
    lemma_push(s13, true);
    lemma_push(s14, false);
    lemma_push(s15, false);
    lemma_push(s16, false);
    lemma_push(s17, false);
    lemma_push(s18, false);
    lemma_push(s19, false);
    lemma_push(s20, true);
    lemma_push(s21, false);
    lemma_push(s22, false);
    lemma_push(s23, true);
    assert(divide_step(0, true) == 0x1 && divide_step(0x1, true) == 0x3 && divide_step(0x3, true)
        == 0x7 && divide_step(0x7, true) == 0xf && divide_step(0xf, true) == 0x1f && divide_step(
        0x1f,
        true,
    ) == 0x3f && divide_step(0x3f, true) == 0x7f && divide_step(0x7f, true) == 0xff && divide_step(
        0xff,
        true,
    ) == 0x1ff && divide_step(0x1ff, true) == 0x3ff && divide_step(0x3ff, true) == 0x7ff
        && divide_step(0x7ff, true) == 0xfff && divide_step(0xfff, true) == 0x1fff && divide_step(
        0x1fff,
        false,
    ) == 0x3ffe && divide_step(0x3ffe, true) == 0x7ffd && divide_step(0x7ffd, false) == 0xfffa
        && divide_step(0xfffa, false) == 0x1_fff4 && divide_step(0x1_fff4, false) == 0x3_ffe8
        && divide_step(0x3_ffe8, false) == 0x7_ffd0 && divide_step(0x7_ffd0, false) == 0xf_ffa0
        && divide_step(0xf_ffa0, false) == 0x1f_ff40 && divide_step(0x1f_ff40, true) == 0x3f_fe81
        && divide_step(0x3f_fe81, false) == 0x7f_fd02 && divide_step(0x7f_fd02, false)
        == 0xff_fa04 && divide_step(0xff_fa04, true) == 0) by (bit_vector);
    assert(s24 =~= Seq::new(n + 25, |i: int| generator_has(n + 24 - i)));
}

proof fn lemma_multiple_leaves_nothing(q: Seq<bool>)
    ensures
        times_generator(q).len() == q.len() + 24,
        remainder(times_generator(q)) == 0,
    decreases q.len(),
{
    if q.len() == 0 {
        lemma_zeros(times_generator(q));
    } else {
        let front = q.drop_last();
        lemma_multiple_leaves_nothing(front);
        let up = times_generator(front).push(false);
        lemma_push(times_generator(front), false);
        lemma_zeros(Seq::<bool>::empty().push(false));
        lemma_push(Seq::<bool>::empty(), false);
        assert(remainder(up) == 0);
        if q.last() {
            let n: nat = front.len();
            let g = Seq::new(n + 25, |i: int| generator_has(n + 24 - i));
            lemma_generator_divides_itself(n);
            law_remainder_linear(up, g);
            assert(times_generator(q) =~= difference(up, g));
            assert(0u32 ^ 0u32 == 0) by (bit_vector);
        } else {
            assert(times_generator(q) =~= up);
        }
    }
}

/// What long division by the generator gives, down to the last 24 coefficients.
spec fn quotient(bits: Seq<bool>) -> Seq<bool>
    decreases bits.len(),
{
    if bits.len() <= 24 {
        Seq::empty()
    } else {
        let q = quotient(bits.drop_last());
        q.push(bits[bits.len() - 25] != times_generator(q).push(false)[bits.len() - 25])
    }
}

proof fn lemma_quotient(bits: Seq<bool>)
    requires
        bits.len() >= 24,
    ensures
        quotient(bits).len() == bits.len() - 24,
        times_generator(quotient(bits)).len() == bits.len(),
        forall|i: int|
            0 <= i < bits.len() - 24 ==> bits[i] == #[trigger] times_generator(quotient(bits))[i],
    decreases bits.len(),
{
    lemma_multiple_leaves_nothing(quotient(bits));
    if bits.len() > 24 {
        let front = bits.drop_last();
        let n = bits.len() as int;
        lemma_quotient(front);
        let q = quotient(front);
        lemma_multiple_leaves_nothing(q);
        let up = times_generator(q).push(false);
        let all = quotient(bits);
        assert(all.drop_last() =~= q);
        assert forall|i: int| 0 <= i < n - 24 implies bits[i] == #[trigger] times_generator(all)[i]
            by {
            assert(times_generator(all)[i] == (up[i] != (all.last() && generator_has(n - 1 - i))));
            if i < n - 25 {
                assert(!generator_has(n - 1 - i));
                assert(up[i] == times_generator(q)[i]);
                assert(bits[i] == front[i]);
            }
        }
    }
}

/// A polynomial leaves no remainder exactly when it is a multiple of the
/// generator.
proof fn lemma_no_remainder_iff_multiple(bits: Seq<bool>)
    requires
        bits.len() >= 24,
    ensures
        remainder(bits) == 0 <==> exists|q: Seq<bool>| #[trigger] times_generator(q) == bits,
{
    if remainder(bits) == 0 {
        let q = quotient(bits);
        let p = times_generator(q);
        lemma_quotient(bits);
        lemma_multiple_leaves_nothing(q);
        law_remainder_linear(bits, p);
        let d = difference(bits, p);
        assert(0u32 ^ 0u32 == 0) by (bit_vector);
        lemma_short_tail(d, bits.len() - 24);
        assert forall|i: int| 0 <= i < bits.len() implies bits[i] == p[i] by {
            assert(!d[i]);
        }
        assert(p =~= bits);
    }
    if exists|q: Seq<bool>| #[trigger] times_generator(q) == bits {
        let q = choose|q: Seq<bool>| #[trigger] times_generator(q) == bits;
        lemma_multiple_leaves_nothing(q);
    }
}

/// The parity check accepts exactly the multiples of the generator: a byte
/// string passes if and only if its bits, first one leading, are the product of
/// some polynomial and the generator. One of fewer than three bytes passes only
/// if it is all zero.
pub proof fn law_accepted_iff_multiple(bytes: &[u8], ok: bool)
    requires
        call_ensures(modes_crc_ok, (bytes,), ok),
    ensures
        bytes@.len() >= 3 ==> (ok <==> exists|q: Seq<bool>|
            {
                &&& (#[trigger] times_generator(q)).len() == 8 * bytes@.len()
                &&& forall|i: int|
                    0 <= i < 8 * bytes@.len() ==> times_generator(q)[i] == #[trigger] sent_bit(
                        bytes@,
                        i,
                    )
            }),
        bytes@.len() < 3 ==> (ok <==> forall|k: int| 0 <= k < bytes@.len() ==> bytes@[k] == 0),
        ok == parity_holds(bytes@),
{
    law_parity_holds_iff_multiple(bytes@);
}

/// A byte string has sound parity if and only if it is a multiple of the
/// generator.
pub proof fn law_parity_holds_iff_multiple(bytes: Seq<u8>)
    ensures
        bytes.len() >= 3 ==> (parity_holds(bytes) <==> exists|q: Seq<bool>|
            {
                &&& (#[trigger] times_generator(q)).len() == 8 * bytes.len()
                &&& forall|i: int|
                    0 <= i < 8 * bytes.len() ==> times_generator(q)[i] == #[trigger] sent_bit(
                        bytes,
                        i,
                    )
            }),
        bytes.len() < 3 ==> (parity_holds(bytes) <==> forall|k: int|
            0 <= k < bytes.len() ==> bytes[k] == 0),
{
    let bits = bits_of(bytes);
    assert forall|i: int| 0 <= i < 8 * bytes.len() implies bits[i] == #[trigger] sent_bit(bytes, i) by {
        law_bits_in_order(bytes, i);
    }
    if bytes.len() >= 3 {
        lemma_no_remainder_iff_multiple(bits);
        if parity_holds(bytes) {
            let q = choose|q: Seq<bool>| #[trigger] times_generator(q) == bits;
            assert(times_generator(q).len() == 8 * bytes.len());
        }
        assert forall|q: Seq<bool>|
            (#[trigger] times_generator(q)).len() == 8 * bytes.len() && (forall|i: int|
                0 <= i < 8 * bytes.len() ==> times_generator(q)[i] == #[trigger] sent_bit(
                    bytes,
                    i,
                )) implies parity_holds(bytes) by {
            assert forall|i: int| 0 <= i < bits.len() implies times_generator(q)[i] == bits[i] by {
                assert(bits[i] == sent_bit(bytes, i));
            }
            assert(times_generator(q) =~= bits);
        }
    } else {
        if parity_holds(bytes) {
            lemma_short_tail(bits, 0);
            assert forall|k: int| 0 <= k < bytes.len() implies bytes[k] == 0 by {
                lemma_byte_from_bits(bytes[k]);
                assert forall|j: int| 0 <= j < 8 implies !bit_of(bytes[k], j) by {
                    assert(!bits[8 * k + j]);
                    assert((8 * k + j) / 8 == k && (8 * k + j) % 8 == j);
                }
                assert(!bit_of(bytes[k], 0) && !bit_of(bytes[k], 1) && !bit_of(bytes[k], 2)
                    && !bit_of(bytes[k], 3) && !bit_of(bytes[k], 4) && !bit_of(bytes[k], 5)
                    && !bit_of(bytes[k], 6) && !bit_of(bytes[k], 7));
            }
        }
        if forall|k: int| 0 <= k < bytes.len() ==> bytes[k] == 0 {
            assert forall|i: int| 0 <= i < bits.len() implies !bits[i] by {
                assert(bytes[i / 8] == 0);
                assert(0int / weight(i % 8) == 0);
            }
            lemma_zeros(bits);
        }
    }
}

} // verus!
