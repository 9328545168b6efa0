//! The boolean arithmetic decoder.
//!
//! The decoder reads a partition as one long string of bits, the most significant bit of each
//! byte first, followed by zeros without end. [`BoolState`] describes it by the eight bits
//! under consideration (`win`) and the size of the current interval (`range`); the machine
//! register of [`BoolDecoder`] holds the same window together with bits fetched ahead.

use crate::tables::VP8_NORM;
use vstd::arithmetic::power2::{
    lemma2_to64, lemma2_to64_rest, lemma_pow2_adds, lemma_pow2_pos, pow2,
};
use vstd::prelude::*;

verus! {

/// The register that holds the window and the bits fetched ahead.
pub type BdValue = u64;

/// The width of [`BdValue`].
pub const BD_VALUE_BITS: u32 = 64;

/// Added to the count of fetched bits once the partition is exhausted.
pub const VP8_LOTS_OF_BITS: i32 = 0x4000_0000;

/// A boolean decoder over one partition.
pub struct BoolDecoder<'a> {
    /// The bytes of the partition.
    pub buffer: &'a [u8],
    /// How many bytes have been fetched.
    pub pos: usize,
    /// The window in the top byte, fetched bits below it.
    pub value: BdValue,
    /// How many bits below the window have been fetched.
    pub count: i32,
    /// The size of the current interval.
    pub range: u32,
    /// How many bits of the stream have left the window.
    pub used: Ghost<int>,
}

/// A reader of one partition.
pub type Vp8Reader<'a> = BoolDecoder<'a>;

/// The state of a boolean decoder.
pub struct BoolState {
    /// The bytes of the partition.
    pub data: Seq<u8>,
    /// How many bytes have been fetched.
    pub pos: int,
    /// The bits of the stream that have left the window.
    pub used: int,
    /// How many bits beyond the window have been fetched; a large number is added when the
    /// partition runs out.
    pub count: int,
    /// The size of the current interval.
    pub range: int,
    /// The eight bits under consideration, less the lower ends of the intervals left behind.
    pub win: int,
}

/// Bit `i` of the stream: the bits of `data` and then zeros.
#[verifier::opaque]
pub open spec fn stream_bit(data: Seq<u8>, i: int) -> int {
    if 0 <= i < 8 * data.len() {
        (data[i / 8] as int / pow2((7 - i % 8) as nat) as int) % 2
    } else {
        0
    }
}

/// The `n` bits of the stream from position `from` on, as a number.
pub open spec fn stream_bits(data: Seq<u8>, from: int, n: nat) -> int
    decreases n,
{
    if n == 0 {
        0
    } else {
        2 * stream_bits(data, from, (n - 1) as nat) + stream_bit(data, from + n - 1)
    }
}

/// The number of doublings that bring `range` back to at least 128.
pub open spec fn norm_shift(range: int) -> nat {
    if range >= 128 {
        0
    } else if range >= 64 {
        1
    } else if range >= 32 {
        2
    } else if range >= 16 {
        3
    } else if range >= 8 {
        4
    } else if range >= 4 {
        5
    } else if range >= 2 {
        6
    } else {
        7
    }
}

/// `range` doubled until it is at least 128.
pub open spec fn renormalized(range: int) -> int {
    range * pow2(norm_shift(range))
}

/// Fetches as many bytes as the register has room for.
pub open spec fn fetch(s: BoolState) -> BoolState {
    let room = (56 - s.count) / 8;
    let left = s.data.len() - s.pos;
    if left <= room {
        BoolState { pos: s.data.len() as int, count: s.count + VP8_LOTS_OF_BITS + 8 * left, ..s }
    } else if room > 0 {
        BoolState { pos: s.pos + room, count: s.count + 8 * room, ..s }
    } else {
        s
    }
}

/// The point that splits the interval between zero (below) and one.
pub open spec fn split_point(range: int, prob: int) -> int {
    1 + ((range - 1) * prob) / 256
}

/// Narrows the interval to `range` and the window to `win`, and doubles both until the
/// interval has its full size again.
pub open spec fn renormalize(s: BoolState, range: int, win: int) -> BoolState {
    let k = norm_shift(range);
    BoolState {
        range: range * pow2(k),
        win: (win * pow2(k) + stream_bits(s.data, s.used + 8, k)) % 256,
        used: s.used + k,
        count: s.count - k,
        ..s
    }
}

/// Reads one boolean that is zero with probability `prob / 256`.
#[verifier::opaque]
pub open spec fn read_bool(s: BoolState, prob: int) -> (int, BoolState) {
    let f = if s.count < 0 {
        fetch(s)
    } else {
        s
    };
    let split = split_point(s.range, prob);
    if f.win >= split {
        (1, renormalize(f, s.range - split, f.win - split))
    } else {
        (0, renormalize(f, split, f.win))
    }
}

/// Reads an `n`-bit number, the most significant bit first.
pub open spec fn read_literal(s: BoolState, n: nat) -> (int, BoolState)
    decreases n,
{
    if n == 0 {
        (0, s)
    } else {
        let (high, t) = read_literal(s, (n - 1) as nat);
        let (bit, u) = read_bool(t, 128);
        (2 * high + bit, u)
    }
}

/// More bits have been consumed than the partition holds.
pub open spec fn overrun(s: BoolState) -> bool {
    64 < s.count < VP8_LOTS_OF_BITS
}

/// A decoder at the start of a partition.
pub open spec fn fresh(data: Seq<u8>) -> BoolState {
    fetch(BoolState { data, pos: 0, used: 0, count: -8, range: 255, win: stream_bits(data, 0, 8) })
}

impl<'a> BoolDecoder<'a> {
    /// The window and the stream below it, as the register would hold them had it all been
    /// fetched.
    pub open spec fn full_value(&self) -> int {
        if self.live() {
            self.value + stream_bits(self.buffer@, 8 * self.pos, (56 - self.count) as nat)
        } else {
            self.value as int
        }
    }

    /// Bytes remain, and the register holds exactly those that were fetched.
    pub open spec fn live(&self) -> bool {
        self.count <= 56 && 8 * self.pos == self.used@ + 8 + self.count
    }

    /// The state of the decoder.
    pub open spec fn view(&self) -> BoolState {
        BoolState {
            data: self.buffer@,
            pos: self.pos as int,
            used: self.used@,
            count: self.count as int,
            range: self.range as int,
            win: self.full_value() / (pow2(56) as int),
        }
    }

    /// The register agrees with the stream.
    pub open spec fn wf(&self) -> bool {
        &&& self.used@ >= 0
        &&& self.pos <= self.buffer@.len()
        &&& 128 <= self.range <= 255
        &&& -8 <= self.count <= VP8_LOTS_OF_BITS + 64
        &&& self.live() ==> self.value as int % (pow2((56 - self.count) as nat) as int) == 0
        &&& self.full_value() < pow2(64)
        &&& self.full_value() % (pow2(56) as int) == stream_bits(self.buffer@, self.used@ + 8, 56)
        &&& self.live() || {
            &&& self.pos == self.buffer@.len()
            &&& self.used@ + 64 >= 8 * self.buffer@.len()
            &&& self.used@ + 8 + self.count >= 8 * self.buffer@.len() + VP8_LOTS_OF_BITS
        }
    }
}

proof fn lemma_bits_bound(data: Seq<u8>, from: int, n: nat)
    ensures
        0 <= stream_bits(data, from, n) < pow2(n),
    decreases n,
{
    if n == 0 {
        lemma2_to64();
    } else {
        lemma_bits_bound(data, from, (n - 1) as nat);
        lemma_pow2_adds(1, (n - 1) as nat);
        lemma2_to64();
        assert(0 <= stream_bit(data, from + n - 1) <= 1) by {
            reveal(stream_bit);
        }
    }
}

proof fn lemma_bits_concat(data: Seq<u8>, from: int, a: nat, b: nat)
    ensures
        stream_bits(data, from, a + b) == stream_bits(data, from, a) * pow2(b) + stream_bits(
            data,
            from + a,
            b,
        ),
    decreases b,
{
    if b == 0 {
        lemma2_to64();
        assert(pow2(b) == 1);
        assert(stream_bits(data, from, a) * pow2(b) == stream_bits(data, from, a));
        assert(stream_bits(data, from + a, b) == 0);
    } else {
        let c = (b - 1) as nat;
        lemma_bits_concat(data, from, a, c);
        lemma_pow2_adds(1, c);
        lemma2_to64();
        let x = stream_bits(data, from, a);
        assert(x * pow2(b) == 2 * (x * pow2(c))) by (nonlinear_arith)
            requires
                pow2(b) == 2 * pow2(c),
        ;
        assert(stream_bits(data, from, a + b) == 2 * stream_bits(data, from, a + c) + stream_bit(
            data,
            from + a + b - 1,
        ));
    }
}

/// The eight bits of byte `i` make up that byte.
proof fn lemma_bits_byte(data: Seq<u8>, i: int)
    requires
        0 <= i < data.len(),
    ensures
        stream_bits(data, 8 * i, 8) == data[i],
{
    let b = data[i] as int;
    let f = 8 * i;
    lemma2_to64();
    assert(stream_bit(data, f) == (b / 128) % 2 && stream_bit(data, f + 1) == (b / 64) % 2
        && stream_bit(data, f + 2) == (b / 32) % 2 && stream_bit(data, f + 3) == (b / 16) % 2
        && stream_bit(data, f + 4) == (b / 8) % 2 && stream_bit(data, f + 5) == (b / 4) % 2
        && stream_bit(data, f + 6) == (b / 2) % 2 && stream_bit(data, f + 7) == b % 2) by {
        reveal(stream_bit);
        assert(b / 1 == b);
    }
    assert(stream_bits(data, f, 0) == 0);
    assert(stream_bits(data, f, 1) == b / 128);
    assert(stream_bits(data, f, 2) == b / 64);
    assert(stream_bits(data, f, 3) == b / 32);
    assert(stream_bits(data, f, 4) == b / 16);
    assert(stream_bits(data, f, 5) == b / 8);
    assert(stream_bits(data, f, 6) == b / 4);
    assert(stream_bits(data, f, 7) == b / 2);
    assert(stream_bits(data, f, 8) == b);
}

/// Beyond the end of the data the stream is zero.
proof fn lemma_bits_zero(data: Seq<u8>, from: int, n: nat)
    requires
        from >= 8 * data.len(),
    ensures
        stream_bits(data, from, n) == 0,
    decreases n,
{
    if n > 0 {
        reveal(stream_bit);
        lemma_bits_zero(data, from, (n - 1) as nat);
    }
}

/// Doubling a register `k` times.
proof fn lemma_shl(v: u64, k: u64)
    requires
        k <= 7,
    ensures
        (v << k) as int == (v as int * pow2(k as nat)) % (pow2(64) as int),
{
    lemma2_to64();
    lemma2_to64_rest();
    lemma_shl_cases(v);
    let high = if k == 0 {
        0
    } else {
        (v >> ((64 - k) as u64)) as int
    };
    let low = (v << k) as int;
    assert(pow2(64) == 0x1_0000_0000_0000_0000);
    assert(v as int * pow2(k as nat) == high * pow2(64) + low) by {
        assert(k == 0 || k == 1 || k == 2 || k == 3 || k == 4 || k == 5 || k == 6 || k == 7);
    }
    vstd::arithmetic::div_mod::lemma_fundamental_div_mod_converse(
        v as int * pow2(k as nat),
        pow2(64) as int,
        high,
        low,
    );
}

proof fn lemma_shl_cases(v: u64)
    by (bit_vector)
    ensures
        (v << 0u64) == v,
        (v << 1u64) + (v >> 63u64) * 0x1_0000_0000_0000_0000 == v * 2,
        (v << 2u64) + (v >> 62u64) * 0x1_0000_0000_0000_0000 == v * 4,
        (v << 3u64) + (v >> 61u64) * 0x1_0000_0000_0000_0000 == v * 8,
        (v << 4u64) + (v >> 60u64) * 0x1_0000_0000_0000_0000 == v * 16,
        (v << 5u64) + (v >> 59u64) * 0x1_0000_0000_0000_0000 == v * 32,
        (v << 6u64) + (v >> 58u64) * 0x1_0000_0000_0000_0000 == v * 64,
        (v << 7u64) + (v >> 57u64) * 0x1_0000_0000_0000_0000 == v * 128,
{
}

/// A byte put into eight clear bits of a register adds to it.
proof fn lemma_or_byte(v: u64, b: u64, sh: u64)
    requires
        sh <= 56,
        b < 256,
        v as int % (pow2((sh + 8) as nat) as int) == 0,
        v + b * pow2(sh as nat) <= u64::MAX,
    ensures
        (v | (b << sh)) == v + b * pow2(sh as nat),
{
    let p = pow2(sh as nat) as int;
    lemma_pow2_pos(sh as nat);
    lemma_pow2_adds(sh as nat, 8);
    lemma2_to64();
    vstd::bits::lemma_u64_shr_is_div(v, sh);
    let q = v as int / (256 * p);
    assert(v as int == 256 * p * q) by {
        vstd::arithmetic::div_mod::lemma_fundamental_div_mod(v as int, 256 * p);
    }
    assert(v as int / p == 256 * q) by (nonlinear_arith)
        requires
            v as int == 256 * p * q,
            p > 0,
    ;
    let d = v >> sh;
    assert(d % 256 == 0);
    assert((v >> sh) & 0xffu64 == 0u64) by (bit_vector)
        requires
            (v >> sh) % 256u64 == 0u64,
    ;
    assert((v | (b << sh)) == v + (b << sh)) by (bit_vector)
        requires
            (v >> sh) & 0xffu64 == 0u64,
            b < 256,
            sh <= 56,
    ;
    assert(b * p <= u64::MAX);
    vstd::bits::lemma_u64_shl_is_mul(b, sh);
}

/// The register after `k` doublings, read against the stream.
proof fn lemma_renorm(data: Seq<u8>, s: int, live: bool, u: nat, t: int, v1: int, w1: int, k: nat)
    requires
        k <= 7,
        u <= 56,
        0 <= w1 < 256,
        v1 == w1 * pow2(56) + stream_bits(data, s + 8, 56) - t,
        live ==> t == stream_bits(data, s + 64 - u, u) && v1 % (pow2(u) as int) == 0,
        !live ==> t == 0 && s + 64 >= 8 * data.len(),
    ensures
        ({
            let v2 = (v1 * pow2(k)) % (pow2(64) as int);
            let t2 = if live {
                stream_bits(data, s + 64 - u, u + k)
            } else {
                0
            };
            let x = (w1 * pow2(k) + stream_bits(data, s + 8, k)) % 256;
            &&& v2 + t2 == x * pow2(56) + stream_bits(data, s + k + 8, 56)
            &&& live ==> v2 % (pow2(u + k) as int) == 0
        }),
{
    let kk = pow2(k) as int;
    let p56 = pow2(56) as int;
    let p64 = pow2(64) as int;
    let b = stream_bits(data, s + 8, k);
    let r = stream_bits(data, s + 8 + k, (56 - k) as nat);
    let l = stream_bits(data, s + 8, 56);
    let l2 = stream_bits(data, s + k + 8, 56);
    let n = stream_bits(data, s + 64, k);
    let m = pow2((56 - k) as nat) as int;
    lemma_bits_concat(data, s + 8, k, (56 - k) as nat);
    lemma_bits_concat(data, s + 8 + k, (56 - k) as nat, k);
    lemma_pow2_adds(k, (56 - k) as nat);
    lemma_pow2_adds(8, 56);
    lemma2_to64();
    lemma_pow2_pos(k);
    lemma_bits_bound(data, s + k + 8, 56);
    assert(l == b * m + r);
    assert(l2 == r * kk + n);
    let t2 = if live {
        stream_bits(data, s + 64 - u, u + k)
    } else {
        0
    };
    if live {
        lemma_bits_concat(data, s + 64 - u, u, k);
        assert(s + 64 - u + u == s + 64);
        assert(t2 == t * kk + n);
    } else {
        lemma_bits_zero(data, s + 64, k);
        assert(t2 == t * kk + n) by (nonlinear_arith)
            requires
                t == 0,
                n == 0,
                t2 == 0,
        ;
    }
    let x0 = w1 * kk + b;
    assert(v1 * kk + t2 == x0 * p56 + l2) by (nonlinear_arith)
        requires
            v1 == w1 * p56 + (b * m + r) - t,
            t2 == t * kk + n,
            l2 == r * kk + n,
            p56 == kk * m,
            x0 == w1 * kk + b,
    ;
    let q = x0 / 256;
    let x = x0 % 256;
    let w2 = x * p56 + l2;
    assert(x0 * p56 == q * p64 + x * p56) by (nonlinear_arith)
        requires
            x0 == 256 * q + x,
            p64 == 256 * p56,
    ;
    assert(0 <= w2 < p64) by (nonlinear_arith)
        requires
            0 <= x <= 255,
            0 <= l2 < p56,
            w2 == x * p56 + l2,
            p64 == 256 * p56,
    ;
    assert(v1 * kk == q * p64 + w2 - t2);
    if live {
        let u2 = u + k;
        let pu = pow2(u) as int;
        let pu2 = pow2(u2) as int;
        lemma_pow2_adds(u, k);
        lemma_pow2_adds(u2, (64 - u2) as nat);
        lemma_pow2_pos(u2);
        lemma_pow2_pos(u);
        lemma_bits_bound(data, s + 64 - u, u2);
        let c = v1 / pu;
        vstd::arithmetic::div_mod::lemma_fundamental_div_mod(v1, pu);
        let e = pow2((64 - u2) as nat) as int;
        let d = c - q * e;
        assert(v1 * kk == pu2 * c) by (nonlinear_arith)
            requires
                v1 == pu * c,
                pu2 == pu * kk,
        ;
        assert(w2 - t2 == pu2 * d) by (nonlinear_arith)
            requires
                v1 * kk == q * p64 + w2 - t2,
                v1 * kk == pu2 * c,
                p64 == pu2 * e,
                d == c - q * e,
        ;
        assert(d >= 0) by (nonlinear_arith)
            requires
                w2 - t2 == pu2 * d,
                w2 >= 0,
                t2 < pu2,
                pu2 > 0,
        ;
        assert(w2 - t2 >= 0) by (nonlinear_arith)
            requires
                w2 - t2 == pu2 * d,
                d >= 0,
                pu2 > 0,
        ;
        assert((pu2 * d) % pu2 == 0) by {
            vstd::arithmetic::div_mod::lemma_mod_multiples_basic(d, pu2);
            vstd::arithmetic::mul::lemma_mul_is_commutative(d, pu2);
        }
    }
    vstd::arithmetic::div_mod::lemma_fundamental_div_mod_converse(v1 * kk, p64, q, w2 - t2);
}

/// The table of doublings is the function of that name.
proof fn lemma_norm_table()
    ensures
        forall|r: int| 1 <= r < 256 ==> #[trigger] VP8_NORM[r] == norm_shift(r),
{
}

/// Doubling a range by its norm brings it to between 128 and 255.
proof fn lemma_norm_range(r: int)
    requires
        1 <= r <= 254,
    ensures
        128 <= r * pow2(norm_shift(r)) <= 254,
        norm_shift(r) <= 7,
{
    lemma2_to64();
    let k = norm_shift(r);
    assert(k == 0 ==> r * pow2(k) == r);
    assert(k == 1 ==> r * pow2(k) == r * 2);
    assert(k == 2 ==> r * pow2(k) == r * 4);
    assert(k == 3 ==> r * pow2(k) == r * 8);
    assert(k == 4 ==> r * pow2(k) == r * 16);
    assert(k == 5 ==> r * pow2(k) == r * 32);
    assert(k == 6 ==> r * pow2(k) == r * 64);
    assert(k == 7 ==> r * pow2(k) == r * 128);
}

/// A split point lies strictly inside the interval.
proof fn lemma_split(range: int, prob: int)
    requires
        128 <= range <= 255,
        0 <= prob <= 255,
    ensures
        1 <= split_point(range, prob) < range,
        0 <= (range - 1) * prob <= 254 * 255,
{
    assert(0 <= (range - 1) * prob <= 254 * 255) by (nonlinear_arith)
        requires
            128 <= range <= 255,
            0 <= prob <= 255,
    ;
    assert((range - 1) * prob <= (range - 1) * 255) by (nonlinear_arith)
        requires
            128 <= range <= 255,
            0 <= prob <= 255,
    ;
}

/// Fetches bytes into the register until it is full or the partition ends.
pub fn vp8dx_bool_decoder_fill(br: &mut BoolDecoder<'_>)
    requires
        old(br).wf(),
    ensures
        final(br).wf(),
        final(br)@ == fetch(old(br)@),
        final(br).buffer == old(br).buffer,
        final(br).range == old(br).range,
        final(br).used == old(br).used,
{
    let ghost fv = br.full_value();
    let ghost was_live = br.live();
    let data = br.buffer;
    let left: usize = data.len() - br.pos;
    let mut shift: i32 = 48 - br.count;
    let mut loop_end: i32 = 0;
    let mut count: i32 = br.count;
    let mut value: u64 = br.value;
    let mut pos: usize = br.pos;
    if shift + 8 < 0 {
        return;
    }
    let room: usize = ((shift + 8) / 8) as usize;
    let ghost extra: int = 0;
    if left <= room {
        count = count + VP8_LOTS_OF_BITS;
        loop_end = shift + 8 - 8 * (left as i32);
        proof {
            extra = VP8_LOTS_OF_BITS as int;
        }
    }
    if left != 0 {
        proof {
            assert(was_live);
            lemma_bits_bound(data@, 8 * pos, (56 - br.count) as nat);
        }
        let ghost n: int = if left <= room { left as int } else { room as int };
        while shift >= loop_end
            invariant
                data == br.buffer,
                0 <= extra <= VP8_LOTS_OF_BITS,
                -8 <= 48 - shift,
                shift == 48 - (count - extra),
                -8 <= shift <= 56,
                loop_end >= 0,
                br.pos <= pos <= br.pos + n,
                br.pos + n <= data@.len(),
                shift - loop_end >= -8,
                shift == 48 - br.count - 8 * (pos - br.pos),
                loop_end <= 48 - br.count - 8 * (n - 1),
                loop_end > 48 - br.count - 8 * n,
                8 * pos == br.used@ + 8 + (count - extra),
                value + stream_bits(data@, 8 * pos, (shift + 8) as nat) == fv,
                fv < pow2(64),
                value as int % (pow2((shift + 8) as nat) as int) == 0,
            decreases shift + 8,
        {
            let b: u64 = data[pos] as u64;
            let sh: u64 = shift as u64;
            proof {
                let t = stream_bits(data@, 8 * pos, (shift + 8) as nat);
                lemma_bits_concat(data@, 8 * pos, 8, shift as nat);
                lemma_bits_byte(data@, pos as int);
                lemma_bits_bound(data@, 8 * (pos + 1), shift as nat);
                lemma2_to64();
                lemma2_to64_rest();
                lemma_or_byte(value, b, sh);
                lemma_pow2_pos(shift as nat);
                lemma_pow2_adds(shift as nat, 8);
                let p = pow2(shift as nat) as int;
                let q = value as int / (256 * p);
                vstd::arithmetic::div_mod::lemma_fundamental_div_mod(value as int, 256 * p);
                let v2 = value + b * p;
                assert(v2 == p * (256 * q + b)) by (nonlinear_arith)
                    requires
                        v2 == value + b * p,
                        value as int == 256 * p * q,
                ;
                vstd::arithmetic::div_mod::lemma_mod_multiples_basic(256 * q + b, p);
                vstd::arithmetic::mul::lemma_mul_is_commutative(256 * q + b, p);
            }
            count = count + 8;
            value = value | (b << sh);
            pos = pos + 1;
            shift = shift - 8;
        }
    }
    br.value = value;
    br.count = count;
    br.pos = pos;
    proof {
        if left <= room {
            assert(pos == data@.len());
            lemma_bits_zero(data@, 8 * pos, (shift + 8) as nat);
            assert(value == fv);
            assert(!br.live());
        } else {
            assert(br.live());
        }
        assert(br.full_value() == fv);
    }
}

/// The window decides the comparison of the whole register, and the doubled register holds
/// the doubled window.
proof fn lemma_decode(br: BoolDecoder<'_>, w1: int, v1: int, k: nat)
    requires
        br.wf(),
        br.count >= 0,
        k <= 7,
        w1 == br@.win || (0 <= w1 <= br@.win),
        v1 == br.value - (br@.win - w1) * pow2(56),
    ensures
        0 <= br@.win < 256,
        br.value as int / (pow2(56) as int) == br@.win,
        v1 >= 0,
        ({
            let v2 = (v1 * pow2(k)) % (pow2(64) as int);
            let s = br.used@;
            let data = br.buffer@;
            let u = (56 - br.count) as nat;
            let t2 = if br.live() {
                stream_bits(data, s + 64 - u, u + k)
            } else {
                0
            };
            let x = (w1 * pow2(k) + stream_bits(data, s + 8, k)) % 256;
            &&& 0 <= v2 + t2 < pow2(64)
            &&& (v2 + t2) / (pow2(56) as int) == x
            &&& (v2 + t2) % (pow2(56) as int) == stream_bits(data, s + k + 8, 56)
            &&& br.live() ==> v2 % (pow2(u + k) as int) == 0
        }),
{
    let s = br.used@;
    let data = br.buffer@;
    let live = br.live();
    let u = if live {
        (56 - br.count) as nat
    } else {
        0
    };
    let p56 = pow2(56) as int;
    let w = br@.win;
    let fv = br.full_value();
    let t = fv - br.value;
    let l = stream_bits(data, s + 8, 56);
    lemma_pow2_pos(56);
    lemma_pow2_adds(8, 56);
    lemma2_to64();
    vstd::arithmetic::div_mod::lemma_fundamental_div_mod(fv, p56);
    assert(fv == p56 * w + l);
    lemma_bits_bound(data, s + 8, 56);
    if live {
        lemma_bits_bound(data, 8 * br.pos, u);
    }
    assert(0 <= w < 256) by (nonlinear_arith)
        requires
            fv == p56 * w + l,
            0 <= l < p56,
            0 <= fv < 256 * p56,
    ;
    if live {
        assert(8 * br.pos == s + 64 - u);
        lemma_bits_concat(data, s + 8, (56 - u) as nat, u);
        assert(s + 8 + (56 - u) == s + 64 - u);
        assert(l == stream_bits(data, s + 8, (56 - u) as nat) * pow2(u) + t);
        lemma_bits_bound(data, s + 8, (56 - u) as nat);
        lemma_pow2_pos(u);
        let h = stream_bits(data, s + 8, (56 - u) as nat);
        assert(h * pow2(u) >= 0) by (nonlinear_arith)
            requires
                h >= 0,
                pow2(u) > 0,
        ;
        assert(t <= l);
    }
    assert(br.value as int == p56 * w + (l - t));
    vstd::arithmetic::mul::lemma_mul_is_commutative(p56, w);
    vstd::arithmetic::div_mod::lemma_fundamental_div_mod_converse(br.value as int, p56, w, l - t);
    assert(v1 == w1 * p56 + l - t) by (nonlinear_arith)
        requires
            v1 == br.value - (w - w1) * p56,
            br.value as int == p56 * w + (l - t),
    ;
    assert(v1 >= 0) by (nonlinear_arith)
        requires
            v1 == w1 * p56 + l - t,
            w1 >= 0,
            p56 > 0,
            l - t >= 0,
    ;
    if live {
        let pu = pow2(u) as int;
        lemma_pow2_adds(u, (56 - u) as nat);
        lemma_pow2_pos(u);
        let e = pow2((56 - u) as nat) as int;
        let c = br.value as int / pu;
        vstd::arithmetic::div_mod::lemma_fundamental_div_mod(br.value as int, pu);
        let d = c - (w - w1) * e;
        assert(v1 == pu * d) by (nonlinear_arith)
            requires
                v1 == br.value - (w - w1) * p56,
                br.value as int == pu * c,
                p56 == pu * e,
                d == c - (w - w1) * e,
        ;
        vstd::arithmetic::div_mod::lemma_mod_multiples_basic(d, pu);
        vstd::arithmetic::mul::lemma_mul_is_commutative(d, pu);
    }
    lemma_renorm(data, s, live, u, t, v1, w1, k);
    let v2 = (v1 * pow2(k)) % (pow2(64) as int);
    let t2 = if live {
        stream_bits(data, s + 64 - u, u + k)
    } else {
        0
    };
    let x = (w1 * pow2(k) + stream_bits(data, s + 8, k)) % 256;
    let l2 = stream_bits(data, s + k + 8, 56);
    lemma_bits_bound(data, s + k + 8, 56);
    vstd::arithmetic::div_mod::lemma_fundamental_div_mod_converse(v2 + t2, p56, x, l2);
    assert(v2 + t2 < 256 * p56) by (nonlinear_arith)
        requires
            v2 + t2 == x * p56 + l2,
            0 <= x <= 255,
            0 <= l2 < p56,
    ;
    if live {
        lemma_bits_bound(data, s + 64 - u, u + k);
    }
    lemma_pow2_pos(64);
}

/// Reads one boolean whose chance of being zero is `probability / 256`.
#[verifier::spinoff_prover]
#[verifier::rlimit(50)]
pub fn vp8dx_decode_bool(br: &mut BoolDecoder<'_>, probability: i32) -> (bit: i32)
    requires
        old(br).wf(),
        0 <= probability <= 255,
    ensures
        final(br).wf(),
        final(br).buffer == old(br).buffer,
        final(br).range <= 254,
        (bit as int, final(br)@) == read_bool(old(br)@, probability as int),
        bit == 0 || bit == 1,
        ({
            let split = split_point(old(br).range as int, probability as int);
            final(br).range == renormalized(if bit == 0 {
                split
            } else {
                old(br).range - split
            })
        }),
        old(br).pos <= final(br).pos <= final(br).buffer@.len(),
{
    let ghost start = *br;
    proof {
        lemma_split(br.range as int, probability as int);
        vstd::arithmetic::mul::lemma_mul_is_commutative(br.range - 1, probability as int);
    }
    let product: u32 = (br.range - 1) * (probability as u32);
    let split: u32 = 1 + product / 256;
    if br.count < 0 {
        vp8dx_bool_decoder_fill(br);
    }
    let ghost mid = *br;
    proof {
        assert(br.count >= 0) by {
            assert(start.live() || start.pos == start.buffer@.len());
        }
        lemma2_to64();
        lemma2_to64_rest();
        assert(pow2(56) == 0x100_0000_0000_0000) by {
            lemma_pow2_adds(32, 24);
        }
        lemma_decode(mid, mid@.win, mid.value as int, 0);
    }
    let bigsplit: BdValue = (split as u64) * 0x100_0000_0000_0000;
    let mut range: u32 = split;
    let mut value: BdValue = br.value;
    let mut bit: i32 = 0;
    if value >= bigsplit {
        range = br.range - split;
        value = value - bigsplit;
        bit = 1;
    }
    let ghost w1 = if bit == 1 { mid@.win - split } else { mid@.win };
    proof {
        assert(bit == 1 <==> mid@.win >= split);
        lemma_norm_table();
        lemma_norm_range(range as int);
    }
    let shift: u8 = VP8_NORM[range as usize];
    proof {
        let k = norm_shift(range as int);
        lemma_decode(mid, w1, value as int, k);
        lemma_shl(value, shift as u64);
        assert(range * pow2(k) <= u32::MAX);
        vstd::bits::lemma_u32_shl_is_mul(range, shift as u32);
    }
    br.range = range << (shift as u32);
    br.value = value << (shift as u64);
    br.count = br.count - shift as i32;
    br.used = Ghost(br.used@ + shift);
    proof {
        reveal(read_bool);
        let k = norm_shift(range as int);
        assert(mid.live() ==> br.live());
        assert(!mid.live() ==> !br.live());
        assert(br.range == range * pow2(k));
    }
    bit
}

impl<'a> BoolDecoder<'a> {
    /// A decoder without data.
    pub fn new(nothing: &'a [u8; 0]) -> (br: BoolDecoder<'a>)
        ensures
            br.wf(),
            br.buffer@.len() == 0,
            br.pos == 0,
            br.value == 0,
            br.count == -8,
            br.range == 255,
    {
        let br = BoolDecoder {
            buffer: nothing.as_slice(),
            pos: 0,
            value: 0,
            count: -8,
            range: 255,
            used: Ghost(0),
        };
        proof {
            lemma_bits_zero(br.buffer@, 0, 64);
            lemma_bits_zero(br.buffer@, 8, 56);
            lemma_pow2_pos(64);
            lemma_pow2_pos(56);
            vstd::arithmetic::div_mod::lemma_small_mod(0, pow2(64));
            vstd::arithmetic::div_mod::lemma_small_mod(0, pow2(56));
        }
        br
    }
}

/// The bytes that `source` and `source_sz` name: none at all where there is no source.
pub open spec fn source_bytes(source: Option<&[u8]>, source_sz: usize) -> Seq<u8> {
    match source {
        Some(s) => s@.take(source_sz as int),
        None => Seq::empty(),
    }
}

/// Opens a partition: the first `source_sz` bytes of `source`. Returns one, and leaves the
/// decoder alone, where bytes are asked for but there is no source.
pub fn vp8dx_start_decode<'a>(
    br: &mut BoolDecoder<'a>,
    source: Option<&'a [u8]>,
    source_sz: usize,
) -> (rc: i32)
    requires
        old(br).wf(),
        source is Some ==> source_sz <= source->0@.len(),
    ensures
        final(br).wf(),
        source is None && source_sz != 0 ==> rc == 1 && *final(br) == *old(br),
        !(source is None && source_sz != 0) ==> rc == 0 && final(br)@ == fresh(
            source_bytes(source, source_sz),
        ) && final(br).buffer@ == source_bytes(source, source_sz),
{
    let buffer: &'a [u8] = match source {
        Some(s) => vstd::slice::slice_subrange(s, 0, source_sz),
        None => {
            if source_sz != 0 {
                return 1;
            }
            vstd::slice::slice_subrange(br.buffer, 0, 0)
        },
    };
    br.buffer = buffer;
    br.pos = 0;
    br.value = 0;
    br.count = -8;
    br.range = 255;
    br.used = Ghost(0);
    proof {
        let data = br.buffer@;
        assert(data =~= source_bytes(source, source_sz));
        lemma_pow2_pos(64);
        lemma_pow2_pos(56);
        lemma_bits_bound(data, 0, 64);
        lemma_bits_concat(data, 0, 8, 56);
        lemma_bits_bound(data, 8, 56);
        vstd::arithmetic::div_mod::lemma_fundamental_div_mod_converse(
            br.full_value(),
            pow2(56) as int,
            stream_bits(data, 0, 8),
            stream_bits(data, 8, 56),
        );
        assert(br.live());
    }
    vp8dx_bool_decoder_fill(br);
    0
}

/// Reads a number of `bits` bits, the most significant bit first.
pub fn vp8_decode_value(br: &mut BoolDecoder<'_>, bits: i32) -> (z: i32)
    requires
        old(br).wf(),
        bits <= 31,
    ensures
        final(br).wf(),
        final(br).buffer == old(br).buffer,
        bits > 0 ==> (z as int, final(br)@) == read_literal(old(br)@, bits as nat) && 0 <= z < pow2(
            bits as nat,
        ),
        bits <= 0 ==> z == 0 && *final(br) == *old(br),
{
    let ghost start = br@;
    let mut z: i32 = 0;
    let mut i: i32 = 0;
    proof {
        lemma2_to64();
    }
    while i < bits
        invariant
            br.wf(),
            br.buffer == old(br).buffer,
            start == old(br)@,
            0 <= i,
            i <= bits || i == 0,
            bits <= 0 ==> i == 0 && z == 0 && *br == *old(br),
            bits <= 31,
            (z as int, br@) == read_literal(start, i as nat),
            0 <= z < pow2(i as nat),
        decreases bits - i,
    {
        let bit: i32 = vp8dx_decode_bool(br, 0x80);
        proof {
            lemma_pow2_adds(1, i as nat);
            lemma2_to64();
            assert(pow2(i as nat) <= 0x4000_0000) by {
                lemma_pow2_adds(i as nat, (30 - i) as nat);
                lemma_pow2_pos((30 - i) as nat);
                assert(pow2(i as nat) <= pow2(i as nat) * pow2((30 - i) as nat))
                    by (nonlinear_arith)
                    requires
                        pow2((30 - i) as nat) >= 1,
                        pow2(i as nat) >= 0,
                ;
            }
        }
        z = 2 * z + bit;
        i += 1;
    }
    z
}

/// One where more bits have been consumed than the partition holds.
pub fn vp8dx_bool_error(br: &BoolDecoder<'_>) -> (e: i32)
    ensures
        e == (if overrun(br@) {
            1int
        } else {
            0
        }),
{
    if br.count > 64 && br.count < VP8_LOTS_OF_BITS {
        return 1;
    }
    0
}

/// What every reading operation keeps of a decoder's state.
pub open spec fn state_ok(s: BoolState) -> bool {
    &&& 0 <= s.pos <= s.data.len()
    &&& s.used >= 0
    &&& 128 <= s.range <= 255
    &&& 0 <= s.win < 256
    &&& -8 <= s.count <= VP8_LOTS_OF_BITS + 64
}

/// Reading keeps the interval between 128 and 254 wide and never goes back in the stream.
pub proof fn law_read_bool_keeps_state(s: BoolState, prob: int)
    requires
        state_ok(s),
        0 <= prob <= 255,
        s.pos < s.data.len() ==> s.count <= 56,
    ensures
        ({
            let (bit, t) = read_bool(s, prob);
            &&& bit == 0 || bit == 1
            &&& state_ok(t)
            &&& t.range <= 254
            &&& t.data == s.data
            &&& t.used >= s.used
            &&& t.pos >= s.pos
        }),
{
    reveal(read_bool);
    lemma_split(s.range, prob);
    let split = split_point(s.range, prob);
    lemma_norm_range(split);
    lemma_norm_range(s.range - split);
}

/// What reading a boolean leaves of the interval: the part below the split point for a zero and the
/// part above for a one, doubled as often as it takes to make it at least 128 wide, and no oftener.
pub proof fn law_interval_after_bool(s: BoolState, prob: int)
    requires
        128 <= s.range <= 255,
        0 <= prob <= 255,
    ensures
        ({
            let (bit, t) = read_bool(s, prob);
            let split = 1 + ((s.range - 1) * prob) / 256;
            let part = if bit == 0 {
                split
            } else {
                s.range - split
            };
            let k = norm_shift(part);
            &&& bit == 0 || bit == 1
            &&& 1 <= split < s.range
            &&& t.range == part * pow2(k)
            &&& 128 <= t.range <= 254
            &&& forall|j: nat| #[trigger] pow2(j) * part >= 128 ==> k <= j
            &&& t.data == s.data
        }),
{
    reveal(read_bool);
    lemma_split(s.range, prob);
    let split = split_point(s.range, prob);
    let (bit, t) = read_bool(s, prob);
    let part = if bit == 0 {
        split
    } else {
        s.range - split
    };
    lemma_norm_range(part);
    assert forall|j: nat| #[trigger] pow2(j) * part >= 128 implies norm_shift(part) <= j by {
        lemma2_to64();
        if j < 7 {
            assert(j == 0 || j == 1 || j == 2 || j == 3 || j == 4 || j == 5 || j == 6);
            assert(pow2(j) * part == part * pow2(j)) by (nonlinear_arith);
        }
    }
}

/// A number of `a + b` bits is one of `a` bits followed by one of `b` bits: the most significant
/// bits come first, and the reader ends in the same place. A number of no bits is zero and takes
/// nothing.
pub proof fn law_literals_join(s: BoolState, a: nat, b: nat)
    ensures
        ({
            let (high, t) = read_literal(s, a);
            let (low, u) = read_literal(t, b);
            &&& read_literal(s, a + b) == (high * pow2(b) + low, u)
            &&& 0 <= low < pow2(b)
        }),
        read_literal(s, 0) == (0int, s),
    decreases b,
{
    let (high, t) = read_literal(s, a);
    law_literal_bounded(t, b);
    if b == 0 {
        lemma2_to64();
        assert(high * pow2(b) == high);
    } else {
        let c = (b - 1) as nat;
        law_literals_join(s, a, c);
        lemma_pow2_adds(1, c);
        lemma2_to64();
        assert(high * pow2(b) == 2 * (high * pow2(c))) by (nonlinear_arith)
            requires
                pow2(b) == 2 * pow2(c),
        ;
        assert((a + b - 1) as nat == a + c);
    }
}

/// A literal of `n` bits is a number below `2^n`.
pub proof fn law_literal_bounded(s: BoolState, n: nat)
    ensures
        0 <= read_literal(s, n).0 < pow2(n),
    decreases n,
{
    lemma2_to64();
    if n > 0 {
        law_literal_bounded(s, (n - 1) as nat);
        lemma_pow2_adds(1, (n - 1) as nat);
        reveal(read_bool);
    }
}

/// Until the stream has been overrun by about a billion bits, an overrun is reported exactly
/// when more bits have entered the window than the partition holds.
pub proof fn law_overrun(br: BoolDecoder<'_>)
    requires
        br.wf(),
        br.used@ + 8 < 8 * br.buffer@.len() + VP8_LOTS_OF_BITS - 64,
        br.live() || br.used@ + 8 + br.count == 8 * br.buffer@.len() + VP8_LOTS_OF_BITS,
    ensures
        overrun(br@) <==> !br.live() && br.used@ + 8 > 8 * br.buffer@.len(),
{
}

/// A boolean is one if and only if the window lies in the upper part of the interval, which the
/// probability splits. What is left of the window is followed by the next bits of the stream, as
/// many as the interval was doubled.
pub proof fn law_bool_by_window(s: BoolState, prob: int)
    ensures
        ({
            let (bit, t) = read_bool(s, prob);
            let split = 1 + ((s.range - 1) * prob) / 256;
            let part = if bit == 0 {
                split
            } else {
                s.range - split
            };
            let rest = if bit == 0 {
                s.win
            } else {
                s.win - split
            };
            let k = norm_shift(part);
            &&& bit == 1 <==> s.win >= split
            &&& bit == 0 <==> s.win < split
            &&& t.data == s.data
            &&& t.used == s.used + k
            &&& t.win == (rest * pow2(k) + stream_bits(s.data, s.used + 8, k)) % 256
        }),
{
    reveal(read_bool);
}

/// What is read does not depend on how many bytes were fetched so far: two readers with the same
/// window, interval and place in the same stream read the same.
pub proof fn law_reading_without_fetching(s: BoolState, t: BoolState, prob: int)
    requires
        s.data == t.data,
        s.used == t.used,
        s.range == t.range,
        s.win == t.win,
    ensures
        ({
            let (a, u) = read_bool(s, prob);
            let (b, v) = read_bool(t, prob);
            a == b && u.used == v.used && u.range == v.range && u.win == v.win && u.data == v.data
        }),
{
    reveal(read_bool);
}

} // verus!
