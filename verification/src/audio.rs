//! The compute half of the audio capture path: sample-format conversion,
//! channel downmix, linear-interpolation resampling to the wire rate, and
//! fixed-size chunking.
//!
//! The capture callback itself runs outside this crate; it hands raw samples
//! in and takes finished chunks back.  The resampler keeps its read position
//! as an exact fraction `pos_num / out_rate` of an input-sample index, so its
//! behaviour is a pure function of the samples it has seen.

use vstd::prelude::*;
use vstd::arithmetic::div_mod::{
    lemma_fundamental_div_mod, lemma_fundamental_div_mod_converse, lemma_div_is_ordered,
};
use vstd::arithmetic::mul::lemma_mul_inequality;

verus! {

/// A message from the audio path to the active session.
#[derive(Debug)]
pub enum AudioMsg {
    Chunk(Vec<u8>),
}

/// Truncating division (round toward zero), the semantics of `/` on machine
/// integers.
pub open spec fn trunc_div(t: int, d: int) -> int {
    if t >= 0 {
        t / d
    } else {
        -((-t) / d)
    }
}

/// An unsigned 16-bit sample recentred to signed.
pub fn convert_u16_sample(s: u16) -> (r: i16)
    ensures
        r as int == s as int - 32768,
{
    ((s as i32) - 32768) as i16
}

/// Recentre a whole buffer of unsigned samples.
pub fn convert_u16_samples(data: &[u16]) -> (r: Vec<i16>)
    ensures
        r@.len() == data@.len(),
        forall|i: int| 0 <= i < data@.len() ==> #[trigger] r@[i] as int == data@[i] as int - 32768,
{
    let mut out: Vec<i16> = Vec::new();
    let mut i: usize = 0;
    while i < data.len()
        invariant
            i <= data@.len(),
            out@.len() == i,
            forall|j: int| 0 <= j < i ==> #[trigger] out@[j] as int == data@[j] as int - 32768,
        decreases data@.len() - i,
    {
        out.push(convert_u16_sample(data[i]));
        i = i + 1;
    }
    out
}

/// Sum of a sequence of samples.
pub open spec fn sum_of(s: Seq<i16>) -> int
    decreases s.len(),
{
    if s.len() == 0 {
        0
    } else {
        sum_of(s.drop_last()) + s.last()
    }
}

/// The truncated mean of one interleaved frame.
pub open spec fn frame_avg(frame: Seq<i16>) -> i16
    recommends
        frame.len() >= 1,
{
    trunc_div(sum_of(frame), frame.len() as int) as i16
}

/// Mono downmix: the mean of each interleaved frame of `channels` samples
/// (a shorter trailing frame is averaged over its own length).
pub open spec fn downmix_spec(input: Seq<i16>, channels: int) -> Seq<i16>
    decreases input.len(), 0int when channels >= 1
{
    if input.len() == 0 || channels < 1 {
        Seq::empty()
    } else {
        let k = if channels <= input.len() { channels } else { input.len() as int };
        seq![frame_avg(input.take(k))] + downmix_spec(input.skip(k), channels)
    }
}

/// The truncated mean of samples lies between the extremes of the range.
proof fn lemma_avg_range(t: int, d: int)
    requires
        1 <= d,
        -32768 * d <= t <= 32767 * d,
    ensures
        -32768 <= trunc_div(t, d) <= 32767,
{
    if t >= 0 {
        lemma_div_is_ordered(t, 32767 * d, d);
        assert((32767 * d) / d == 32767) by (nonlinear_arith)
            requires d >= 1;
        lemma_div_is_ordered(0, t, d);
    } else {
        lemma_div_is_ordered(-t, 32768 * d, d);
        assert((32768 * d) / d == 32768) by (nonlinear_arith)
            requires d >= 1;
        lemma_div_is_ordered(0, -t, d);
    }
}

/// Average one frame of samples, computed exactly.
fn avg_frame(data: &[i16], start: usize, k: usize) -> (r: i16)
    requires
        1 <= k,
        start + k <= data@.len(),
    ensures
        r == frame_avg(data@.subrange(start as int, start as int + k as int)),
{
    let ghost frame = data@.subrange(start as int, start as int + k as int);
    let n: usize = data.len();
    let mut sum: i128 = 0;
    let mut j: usize = 0;
    while j < k
        invariant
            j <= k,
            1 <= k,
            start + k <= n,
            n == data@.len(),
            frame == data@.subrange(start as int, start as int + k as int),
            sum == sum_of(frame.take(j as int)),
            -32768 * j <= sum <= 32767 * j,
        decreases k - j,
    {
        proof {
            assert(frame.take(j as int + 1).drop_last() =~= frame.take(j as int));
            assert(frame.take(j as int + 1).last() == data@[start as int + j]);
        }
        sum = sum + (data[start + j] as i128);
        j = j + 1;
    }
    proof {
        assert(frame.take(k as int) =~= frame);
        lemma_avg_range(sum as int, k as int);
    }
    let d: u128 = k as u128;
    if sum >= 0 {
        let q: u128 = (sum as u128) / d;
        q as i16
    } else {
        let m: i128 = -sum;
        let q: u128 = (m as u128) / d;
        -(q as i64) as i16
    }
}

/// Downmix interleaved samples to mono.
pub fn mix_to_mono(input: &[i16], channels: usize) -> (r: Vec<i16>)
    requires
        channels >= 1,
    ensures
        r@ == downmix_spec(input@, channels as int),
{
    let mut out: Vec<i16> = Vec::new();
    proof {
        assert(input@.skip(0) =~= input@);
        assert(out@ + downmix_spec(input@, channels as int) =~= downmix_spec(
            input@,
            channels as int,
        ));
    }
    let mut i: usize = 0;
    while i < input.len()
        invariant
            channels >= 1,
            i <= input@.len(),
            downmix_spec(input@, channels as int) =~= out@ + downmix_spec(
                input@.skip(i as int),
                channels as int,
            ),
        decreases input@.len() - i,
    {
        let rest: usize = input.len() - i;
        let k: usize = if channels <= rest { channels } else { rest };
        let ghost tailseq = input@.skip(i as int);
        proof {
            assert(tailseq.take(k as int) =~= input@.subrange(i as int, i as int + k as int));
            assert(tailseq.skip(k as int) =~= input@.skip(i as int + k as int));
        }
        let v: i16 = avg_frame(input, i, k);
        out.push(v);
        i = i + k;
    }
    proof {
        assert(input@.skip(input@.len() as int) =~= Seq::<i16>::empty());
        assert(out@ + Seq::<i16>::empty() =~= out@);
    }
    out
}

/// The two's-complement image of a signed 16-bit sample.
pub open spec fn u16_of_i16(s: i16) -> u16 {
    if s >= 0 {
        s as u16
    } else {
        (s + 0x10000) as u16
    }
}

/// Little-endian serialization of a run of samples.
pub open spec fn le_bytes_of(samples: Seq<i16>) -> Seq<u8>
    decreases samples.len(),
{
    if samples.len() == 0 {
        Seq::empty()
    } else {
        le_bytes_of(samples.drop_last()) + seq![
            (u16_of_i16(samples.last()) & 0xFF) as u8,
            ((u16_of_i16(samples.last()) >> 8) & 0xFF) as u8,
        ]
    }
}

pub fn i16_to_le_bytes(samples: &[i16]) -> (r: Vec<u8>)
    ensures
        r@ == le_bytes_of(samples@),
        r@.len() == 2 * samples@.len(),
{
    let mut out: Vec<u8> = Vec::new();
    let mut i: usize = 0;
    while i < samples.len()
        invariant
            i <= samples@.len(),
            out@ == le_bytes_of(samples@.take(i as int)),
            out@.len() == 2 * i,
        decreases samples@.len() - i,
    {
        let s: i16 = samples[i];
        let u: u16 = #[verifier::truncate] (s as u16);
        proof {
            assert(u == u16_of_i16(s)) by (bit_vector)
                requires u == s as u16;
            assert(samples@.take(i as int + 1).drop_last() =~= samples@.take(i as int));
            assert(samples@.take(i as int + 1).last() == samples@[i as int]);
        }
        out.push((u & 0xFF) as u8);
        out.push(((u >> 8) & 0xFF) as u8);
        proof {
            assert(out@ =~= le_bytes_of(samples@.take(i as int + 1)));
        }
        i = i + 1;
    }
    proof {
        assert(samples@.take(samples@.len() as int) =~= samples@);
    }
    out
}

/// Clamp to the signed 16-bit range.
pub open spec fn clamp_i16(v: int) -> i16 {
    if v < -32768 {
        -32768i16
    } else if v > 32767 {
        32767i16
    } else {
        v as i16
    }
}

/// Division rounded to the nearest integer, ties away from zero.
pub open spec fn div_round_half_away(t: int, d: int) -> int
    recommends
        d >= 1,
{
    if t >= 0 {
        (2 * t + d) / (2 * d)
    } else {
        -((2 * (-t) + d) / (2 * d))
    }
}

/// Linear interpolation between two samples at fractional offset `rem / den`,
/// rounded to nearest and clamped.
pub open spec fn lerp(v0: i16, v1: i16, rem: int, den: int) -> i16
    recommends
        den >= 1,
        0 <= rem < den,
{
    clamp_i16(div_round_half_away(v0 * (den - rem) + v1 * rem, den))
}

/// All samples emitted by the interpolation loop, reading `merged` from the
/// fractional position `pos / out_r` and advancing by `in_r / out_r` per
/// output sample, while a right neighbour exists.
pub open spec fn resample_from(merged: Seq<i16>, pos: int, in_r: int, out_r: int) -> Seq<i16>
    decreases merged.len() * out_r + in_r - pos when 1 <= in_r && 1 <= out_r && 0 <= pos
        via resample_from_dec
{
    if 1 <= in_r && 1 <= out_r && 0 <= pos && pos / out_r + 1 < merged.len() {
        seq![lerp(merged[pos / out_r], merged[pos / out_r + 1], pos % out_r, out_r)]
            + resample_from(merged, pos + in_r, in_r, out_r)
    } else {
        Seq::empty()
    }
}

#[via_fn]
proof fn resample_from_dec(merged: Seq<i16>, pos: int, in_r: int, out_r: int) {
    if 1 <= in_r && 1 <= out_r && 0 <= pos && pos / out_r + 1 < merged.len() {
        lemma_fundamental_div_mod(pos, out_r);
        assert(0 <= pos % out_r < out_r);
        assert(pos < (merged.len() - 1) * out_r && pos <= merged.len() * out_r)
            by (nonlinear_arith)
            requires
                pos == out_r * (pos / out_r) + pos % out_r,
                0 <= pos % out_r < out_r,
                pos / out_r + 1 < merged.len() as int,
                out_r >= 1,
        ;
    }
}

/// Streaming linear resampler.  The read position is held exactly, as
/// `pos_num / out_rate` input samples into `tail ++ future input`.
pub struct StreamingResampler {
    pub in_rate: usize,
    pub out_rate: usize,
    pub pos_num: u128,
    pub tail: Vec<i16>,
}

pub struct ResamplerView {
    pub in_rate: int,
    pub out_rate: int,
    pub pos_num: int,
    pub tail: Seq<i16>,
}

impl View for StreamingResampler {
    type V = ResamplerView;

    open spec fn view(&self) -> ResamplerView {
        ResamplerView {
            in_rate: self.in_rate as int,
            out_rate: self.out_rate as int,
            pos_num: self.pos_num as int,
            tail: self.tail@,
        }
    }
}

impl ResamplerView {
    /// Well-formed state: positive rates, and a position that never runs
    /// more than one step past the retained tail.
    pub open spec fn wf(self) -> bool {
        &&& 1 <= self.in_rate <= 0xFFFF_FFFF_FFFF_FFFF
        &&& 1 <= self.out_rate <= 0xFFFF_FFFF_FFFF_FFFF
        &&& 0 <= self.pos_num <= self.tail.len() * self.out_rate + self.in_rate
    }
}

/// What one `process` call returns and the state it leaves.
pub open spec fn process_spec(rv: ResamplerView, input: Seq<i16>) -> (ResamplerView, Seq<i16>) {
    if rv.in_rate == rv.out_rate {
        (rv, input)
    } else if input.len() == 0 {
        (rv, Seq::empty())
    } else {
        let merged = rv.tail + input;
        let out = resample_from(merged, rv.pos_num, rv.in_rate, rv.out_rate);
        let ep = rv.pos_num + out.len() * rv.in_rate;
        let base = ep / rv.out_rate;
        let keep0 = if base >= 1 { base - 1 } else { 0 };
        let keep = if keep0 <= merged.len() { keep0 } else { merged.len() as int };
        (
            ResamplerView {
                in_rate: rv.in_rate,
                out_rate: rv.out_rate,
                pos_num: ep - keep * rv.out_rate,
                tail: merged.skip(keep),
            },
            out,
        )
    }
}

/// One interpolated sample, computed exactly.
fn lerp_sample(v0: i16, v1: i16, rem: u128, den: u128) -> (r: i16)
    requires
        1 <= den <= 0xFFFF_FFFF_FFFF_FFFF,
        rem < den,
    ensures
        r == lerp(v0, v1, rem as int, den as int),
{
    let diff: u128 = den - rem;
    proof {
        lemma_mul_inequality(v0 as int, 32767, diff as int);
        lemma_mul_inequality(-32768, v0 as int, diff as int);
        lemma_mul_inequality(v1 as int, 32767, rem as int);
        lemma_mul_inequality(-32768, v1 as int, rem as int);
    }
    let a: i128 = (v0 as i128) * (diff as i128);
    let b: i128 = (v1 as i128) * (rem as i128);
    let t: i128 = a + b;
    assert(-32768 * (den as int) <= t as int <= 32767 * (den as int));
    let den2: u128 = 2 * den;
    if t >= 0 {
        let num: u128 = 2 * (t as u128) + den;
        let q: u128 = num / den2;
        proof {
            lemma_div_is_ordered(num as int, 65535 * (den as int), den2 as int);
            lemma_fundamental_div_mod_converse(
                65535 * (den as int),
                2 * (den as int),
                32767,
                den as int,
            );
        }
        q as i16
    } else {
        let num: u128 = 2 * ((-t) as u128) + den;
        let q: u128 = num / den2;
        proof {
            lemma_div_is_ordered(num as int, 65537 * (den as int), den2 as int);
            lemma_fundamental_div_mod_converse(
                65537 * (den as int),
                2 * (den as int),
                32768,
                den as int,
            );
        }
        -(q as i64) as i16
    }
}

impl StreamingResampler {
    pub fn new(in_rate: usize, out_rate: usize) -> (r: StreamingResampler)
        requires
            1 <= in_rate,
            1 <= out_rate,
        ensures
            r@.in_rate == in_rate as int,
            r@.out_rate == out_rate as int,
            r@.pos_num == 0,
            r@.tail.len() == 0,
            r@.wf(),
    {
        StreamingResampler { in_rate, out_rate, pos_num: 0, tail: Vec::new() }
    }

    /// Resample one block of mono input.  Same-rate streams pass through
    /// untouched; empty input is a no-op; otherwise the call emits every
    /// sample the merged stream allows and retains the tail the next call
    /// needs to interpolate continuously.
    pub fn process(&mut self, input: &[i16]) -> (out: Vec<i16>)
        requires
            old(self)@.wf(),
        ensures
            final(self)@.wf(),
            (final(self)@, out@) == process_spec(old(self)@, input@),
    {
        let ghost rv = self@;
        if self.in_rate == self.out_rate {
            let mut out: Vec<i16> = Vec::new();
            out.extend_from_slice(input);
            assert(out@ =~= input@);
            return out;
        }
        if input.len() == 0 {
            let out: Vec<i16> = Vec::new();
            assert(out@ =~= Seq::<i16>::empty());
            return out;
        }

        let mut merged: Vec<i16> = Vec::new();
        merged.extend_from_slice(self.tail.as_slice());
        merged.extend_from_slice(input);
        proof {
            assert(merged@ =~= rv.tail + input@);
        }
        let mlen: usize = merged.len();
        assert(mlen >= 1);

        let den: u128 = self.out_rate as u128;
        let step: u128 = self.in_rate as u128;
        let mut pos: u128 = self.pos_num;
        let mut out: Vec<i16> = Vec::new();
        proof {
            assert(out@ + resample_from(merged@, pos as int, step as int, den as int)
                =~= resample_from(merged@, rv.pos_num, rv.in_rate, rv.out_rate));
            assert((pos as int) <= (mlen as int) * (den as int) + step) by (nonlinear_arith)
                requires
                    pos as int <= rv.tail.len() * (den as int) + step,
                    rv.tail.len() <= mlen as int,
                    den >= 1,
            ;
        }
        loop
            invariant
                1 <= step <= 0xFFFF_FFFF_FFFF_FFFF,
                1 <= den <= 0xFFFF_FFFF_FFFF_FFFF,
                mlen == merged@.len(),
                1 <= mlen <= 0xFFFF_FFFF_FFFF_FFFF,
                pos as int <= (mlen as int) * (den as int) + step,
                pos as int == rv.pos_num + out@.len() * (step as int),
                out@ + resample_from(merged@, pos as int, step as int, den as int)
                    =~= resample_from(merged@, rv.pos_num, rv.in_rate, rv.out_rate),
                rv.in_rate == step as int,
                rv.out_rate == den as int,
            ensures
                (pos as int) / (den as int) + 1 >= mlen as int,
                pos as int == rv.pos_num + out@.len() * (step as int),
                out@ + resample_from(merged@, pos as int, step as int, den as int)
                    =~= resample_from(merged@, rv.pos_num, rv.in_rate, rv.out_rate),
                pos as int <= (mlen as int) * (den as int) + step,
            decreases (mlen as int) * (den as int) + step - pos,
        {
            let i0big: u128 = pos / den;
            if i0big >= (mlen as u128) - 1 {
                break;
            }
            let i0: usize = i0big as usize;
            let rem: u128 = pos % den;
            let v: i16 = lerp_sample(merged[i0], merged[i0 + 1], rem, den);
            out.push(v);
            proof {
                assert((out@.len()) * (step as int) == (out@.len() - 1) * (step as int) + (
                step as int)) by (nonlinear_arith);
                lemma_fundamental_div_mod(pos as int, den as int);
                assert((pos as int) + (step as int) <= (mlen as int) * (den as int) + step)
                    by (nonlinear_arith)
                    requires
                        pos as int == (den as int) * ((pos as int) / (den as int)) + (
                        pos as int) % (den as int),
                        0 <= (pos as int) % (den as int) < den as int,
                        (pos as int) / (den as int) + 1 < mlen as int,
                        den >= 1,
                ;
                assert((mlen as int) * (den as int) + (step as int) < 0x1_0000_0000_0000_0000_0000_0000_0000_0000)
                    by (nonlinear_arith)
                    requires
                        mlen as int <= 0xFFFF_FFFF_FFFF_FFFF,
                        den as int <= 0xFFFF_FFFF_FFFF_FFFF,
                        step as int <= 0xFFFF_FFFF_FFFF_FFFF,
                ;
                assert(out@ + resample_from(merged@, pos as int + step as int, step as int, den as int)
                    =~= resample_from(merged@, rv.pos_num, rv.in_rate, rv.out_rate));
            }
            pos = pos + step;
        }
        proof {
            assert(resample_from(merged@, pos as int, step as int, den as int)
                =~= Seq::<i16>::empty());
            assert(out@ + Seq::<i16>::empty() =~= out@);
            assert(out@ == resample_from(merged@, rv.pos_num, rv.in_rate, rv.out_rate));
        }

        let basebig: u128 = pos / den;
        let keep0: u128 = if basebig >= 1 { basebig - 1 } else { 0 };
        let keep: usize = if keep0 <= mlen as u128 { keep0 as usize } else { mlen };
        proof {
            lemma_fundamental_div_mod(pos as int, den as int);
            assert(0 <= (pos as int) % (den as int) < den as int);
            lemma_mul_inequality(keep as int, basebig as int, den as int);
            assert((keep as int) * (den as int) <= pos as int) by (nonlinear_arith)
                requires
                    (keep as int) * (den as int) <= (basebig as int) * (den as int),
                    pos as int == (den as int) * (basebig as int) + (pos as int) % (den as int),
                    0 <= (pos as int) % (den as int),
            ;
            assert((keep as int) * (den as int) < 0x1_0000_0000_0000_0000_0000_0000_0000_0000)
                by (nonlinear_arith)
                requires
                    keep as int <= 0xFFFF_FFFF_FFFF_FFFF,
                    den as int <= 0xFFFF_FFFF_FFFF_FFFF,
            ;
        }
        let mut new_tail: Vec<i16> = Vec::new();
        let mut i: usize = keep;
        while i < mlen
            invariant
                keep <= i <= mlen,
                mlen == merged@.len(),
                new_tail@ == merged@.subrange(keep as int, i as int),
            decreases mlen - i,
        {
            new_tail.push(merged[i]);
            assert(new_tail@ =~= merged@.subrange(keep as int, i as int + 1));
            i = i + 1;
        }
        proof {
            assert(new_tail@ =~= merged@.skip(keep as int));
        }
        self.tail = new_tail;
        self.pos_num = pos - (keep as u128) * den;
        proof {
            assert(self@.pos_num <= self@.tail.len() * self@.out_rate + self@.in_rate)
                by (nonlinear_arith)
                requires
                    self@.pos_num == pos as int - (keep as int) * (den as int),
                    self@.tail.len() == mlen as int - keep as int,
                    self@.out_rate == den as int,
                    self@.in_rate == step as int,
                    pos as int <= (mlen as int) * (den as int) + step,
                    keep as int >= 0,
                    den >= 1,
            ;
        }
        out
    }
}

/// Pass-through: with equal rates, `process` returns its input unchanged and
/// does not disturb the state.
pub proof fn lemma_passthrough(rv: ResamplerView, input: Seq<i16>)
    requires
        rv.in_rate == rv.out_rate,
    ensures
        process_spec(rv, input) == (rv, input),
{
}

/// Empty input is the identity: nothing is emitted and the state is kept.
pub proof fn lemma_empty_input(rv: ResamplerView)
    ensures
        process_spec(rv, Seq::<i16>::empty()) == (rv, Seq::<i16>::empty()),
{
}

/// Appending future input does not change what is emitted now: the samples
/// from the shorter stream are a prefix of those from the longer one, and
/// the rest resumes exactly where the shorter stream stopped.
pub proof fn lemma_resample_extend(m: Seq<i16>, e: Seq<i16>, pos: int, in_r: int, out_r: int)
    requires
        1 <= in_r,
        1 <= out_r,
        0 <= pos,
    ensures
        resample_from(m + e, pos, in_r, out_r) == resample_from(m, pos, in_r, out_r)
            + resample_from(
            m + e,
            pos + resample_from(m, pos, in_r, out_r).len() * in_r,
            in_r,
            out_r,
        ),
    decreases m.len() * out_r + in_r - pos,
{
    let o1 = resample_from(m, pos, in_r, out_r);
    if pos / out_r + 1 < m.len() {
        proof_pos_bound(m, pos, in_r, out_r);
        lemma_resample_extend(m, e, pos + in_r, in_r, out_r);
        let o1r = resample_from(m, pos + in_r, in_r, out_r);
        assert((m + e)[pos / out_r] == m[pos / out_r]);
        assert((m + e)[pos / out_r + 1] == m[pos / out_r + 1]);
        assert((1 + o1r.len()) * in_r == in_r + o1r.len() * in_r) by (nonlinear_arith);
        assert(o1 == seq![lerp(m[pos / out_r], m[pos / out_r + 1], pos % out_r, out_r)] + o1r);
        assert(resample_from(m + e, pos, in_r, out_r) =~= o1 + resample_from(
            m + e,
            pos + o1.len() * in_r,
            in_r,
            out_r,
        ));
    } else {
        assert(o1 =~= Seq::<i16>::empty());
        assert(o1.len() * in_r == 0) by (nonlinear_arith)
            requires o1.len() == 0;
        assert(resample_from(m + e, pos, in_r, out_r) =~= o1 + resample_from(
            m + e,
            pos,
            in_r,
            out_r,
        ));
    }
}

/// Helper: a position inside the emitting region is below the last readable
/// sample, scaled.
proof fn proof_pos_bound(m: Seq<i16>, pos: int, in_r: int, out_r: int)
    requires
        1 <= in_r,
        1 <= out_r,
        0 <= pos,
        pos / out_r + 1 < m.len(),
    ensures
        pos < (m.len() - 1) * out_r,
        pos <= m.len() * out_r,
{
    lemma_fundamental_div_mod(pos, out_r);
    assert(0 <= pos % out_r < out_r);
    assert(pos < (m.len() - 1) * out_r && pos <= m.len() * out_r) by (nonlinear_arith)
        requires
            pos == out_r * (pos / out_r) + pos % out_r,
            0 <= pos % out_r < out_r,
            pos / out_r + 1 < m.len() as int,
            out_r >= 1,
    ;
}

/// Dropping `keep` leading samples that the loop has fully passed, while
/// shifting the position to match, does not change what is emitted.
pub proof fn lemma_resample_cut(m: Seq<i16>, pos: int, keep: int, in_r: int, out_r: int)
    requires
        1 <= in_r,
        1 <= out_r,
        0 <= pos,
        0 <= keep <= pos / out_r,
        keep <= m.len(),
    ensures
        resample_from(m.skip(keep), pos - keep * out_r, in_r, out_r) == resample_from(
            m,
            pos,
            in_r,
            out_r,
        ),
    decreases m.len() * out_r + in_r - pos,
{
    lemma_fundamental_div_mod(pos, out_r);
    assert(0 <= pos % out_r < out_r);
    let p2 = pos - keep * out_r;
    assert(p2 == out_r * (pos / out_r - keep) + pos % out_r) by (nonlinear_arith)
        requires
            pos == out_r * (pos / out_r) + pos % out_r,
            p2 == pos - keep * out_r,
    ;
    assert(0 <= pos / out_r - keep);
    lemma_fundamental_div_mod_converse(p2, out_r, pos / out_r - keep, pos % out_r);
    assert(p2 / out_r == pos / out_r - keep && p2 % out_r == pos % out_r);
    let ms = m.skip(keep);
    assert(ms.len() == m.len() - keep);
    if pos / out_r + 1 < m.len() {
        proof_pos_bound(m, pos, in_r, out_r);
        assert(ms[p2 / out_r] == m[pos / out_r]);
        assert(ms[p2 / out_r + 1] == m[pos / out_r + 1]);
        lemma_div_is_ordered(pos, pos + in_r, out_r);
        lemma_resample_cut(m, pos + in_r, keep, in_r, out_r);
        assert(p2 + in_r == (pos + in_r) - keep * out_r);
        assert(resample_from(ms, p2, in_r, out_r) =~= resample_from(m, pos, in_r, out_r));
    } else {
        assert(resample_from(ms, p2, in_r, out_r) =~= Seq::<i16>::empty());
        assert(resample_from(m, pos, in_r, out_r) =~= Seq::<i16>::empty());
    }
}

/// Continuity: feeding `a` then `b` emits exactly the samples of feeding
/// `a ++ b` at once, and leaves the identical state.  Splitting a stream at
/// any point is invisible downstream.
pub proof fn lemma_process_continuity(rv: ResamplerView, a: Seq<i16>, b: Seq<i16>)
    requires
        rv.wf(),
    ensures
        process_spec(rv, a).1 + process_spec(process_spec(rv, a).0, b).1 == process_spec(
            rv,
            a + b,
        ).1,
        process_spec(process_spec(rv, a).0, b).0 == process_spec(rv, a + b).0,
{
    let r1 = process_spec(rv, a).0;
    let o1 = process_spec(rv, a).1;
    let o2 = process_spec(r1, b).1;
    if rv.in_rate == rv.out_rate {
        assert(o1 + o2 =~= a + b);
        return;
    }
    if a.len() == 0 {
        assert(a + b =~= b);
        assert(o1 + o2 =~= o2);
        return;
    }
    if b.len() == 0 {
        assert(a + b =~= a);
        assert(o1 + o2 =~= o1);
        return;
    }
    let in_r = rv.in_rate;
    let out_r = rv.out_rate;
    let p0 = rv.pos_num;
    let m1 = rv.tail + a;
    let full = rv.tail + (a + b);
    assert(full =~= m1 + b);
    let ep1 = p0 + o1.len() * in_r;
    let base1 = ep1 / out_r;
    let keep1a = if base1 >= 1 { base1 - 1 } else { 0 };
    let keep1 = if keep1a <= m1.len() { keep1a } else { m1.len() as int };
    assert(r1.tail == m1.skip(keep1) && r1.pos_num == ep1 - keep1 * out_r);

    lemma_resample_extend(m1, b, p0, in_r, out_r);
    assert(process_spec(rv, a + b).1 == o1 + resample_from(full, ep1, in_r, out_r));

    lemma_fundamental_div_mod(ep1, out_r);
    assert(0 <= ep1 % out_r < out_r);
    assert(keep1 * out_r <= base1 * out_r) by (nonlinear_arith)
        requires keep1 <= base1, out_r >= 1, keep1 >= 0;
    assert(base1 * out_r <= ep1) by (nonlinear_arith)
        requires ep1 == out_r * base1 + ep1 % out_r, 0 <= ep1 % out_r;
    let m2 = r1.tail + b;
    assert(m2 =~= full.skip(keep1));
    lemma_resample_cut(full, ep1, keep1, in_r, out_r);
    assert(o2 == resample_from(full, ep1, in_r, out_r));
    assert(process_spec(rv, a + b).1 == o1 + o2);

    // States agree.
    let o3 = process_spec(rv, a + b).1;
    let ep3 = p0 + o3.len() * in_r;
    assert(o3.len() == o1.len() + o2.len());
    assert(ep3 == ep1 + o2.len() * in_r) by (nonlinear_arith)
        requires
            ep3 == p0 + (o1.len() + o2.len()) * in_r,
            ep1 == p0 + o1.len() * in_r,
    ;
    let p1 = r1.pos_num;
    let ep2 = p1 + o2.len() * in_r;
    assert(ep3 == ep2 + keep1 * out_r);
    let base2 = ep2 / out_r;
    lemma_fundamental_div_mod(ep2, out_r);
    assert(0 <= ep2 % out_r < out_r);
    assert(ep3 == out_r * (base2 + keep1) + ep2 % out_r) by (nonlinear_arith)
        requires
            ep2 == out_r * base2 + ep2 % out_r,
            ep3 == ep2 + keep1 * out_r,
    ;
    lemma_fundamental_div_mod_converse(ep3, out_r, base2 + keep1, ep2 % out_r);
    let base3 = ep3 / out_r;
    assert(base3 == base2 + keep1);
    let keep2a = if base2 >= 1 { base2 - 1 } else { 0 };
    let keep2 = if keep2a <= m2.len() { keep2a } else { m2.len() as int };
    let keep3a = if base3 >= 1 { base3 - 1 } else { 0 };
    let keep3 = if keep3a <= full.len() { keep3a } else { full.len() as int };
    assert(m2.len() == full.len() - keep1);
    if base1 >= 1 {
        // After draining `a`, the position still sits at least one whole
        // sample into the retained tail, so `b`'s pass also advances.
        assert(keep1 <= base1 - 1);
        assert(keep1 * out_r <= (base1 - 1) * out_r) by (nonlinear_arith)
            requires keep1 <= base1 - 1, out_r >= 1;
        assert((base1 - 1) * out_r == base1 * out_r - out_r) by (nonlinear_arith);
        assert(p1 >= out_r);
        lemma_div_is_ordered(p1, ep2, out_r);
        assert(p1 / out_r >= 1) by {
            lemma_fundamental_div_mod(p1, out_r);
            assert(0 <= p1 % out_r < out_r);
            assert(p1 / out_r >= 1) by (nonlinear_arith)
                requires
                    p1 == out_r * (p1 / out_r) + p1 % out_r,
                    0 <= p1 % out_r < out_r,
                    p1 >= out_r,
            ;
        }
        assert(base2 >= 1);
        assert(keep3 == keep1 + keep2);
    } else {
        assert(keep1 == 0);
        assert(keep3 == keep2);
    }
    assert(full.skip(keep1 + keep2) =~= m2.skip(keep2));
    assert((keep1 + keep2) * out_r == keep1 * out_r + keep2 * out_r) by (nonlinear_arith);
    assert(process_spec(r1, b).0 == process_spec(rv, a + b).0);
}

/// How many samples a single pass emits: exactly the number of whole steps
/// that fit before the read position runs out of right neighbours.
pub open spec fn resample_count(len: int, pos: int, in_r: int, out_r: int) -> int {
    if pos < (len - 1) * out_r {
        ((len - 1) * out_r - pos + in_r - 1) / in_r
    } else {
        0
    }
}

/// The emitted length is `resample_count`: the ceiling of
/// `((len − 1)·out_rate − pos) / in_rate`, never negative.
pub proof fn lemma_resample_len(m: Seq<i16>, pos: int, in_r: int, out_r: int)
    requires
        1 <= in_r,
        1 <= out_r,
        0 <= pos,
    ensures
        resample_from(m, pos, in_r, out_r).len() == resample_count(m.len() as int, pos, in_r, out_r),
    decreases m.len() * out_r + in_r - pos,
{
    let len = m.len() as int;
    lemma_fundamental_div_mod(pos, out_r);
    assert(0 <= pos % out_r < out_r);
    if pos / out_r + 1 < len {
        proof_pos_bound(m, pos, in_r, out_r);
        lemma_resample_len(m, pos + in_r, in_r, out_r);
        let d = (len - 1) * out_r - pos;
        assert(d > 0);
        if pos + in_r < (len - 1) * out_r {
            let d2 = (len - 1) * out_r - pos - in_r;
            lemma_fundamental_div_mod(d2 + in_r - 1, in_r);
            assert(0 <= (d2 + in_r - 1) % in_r < in_r);
            assert(d + in_r - 1 == in_r * ((d2 + in_r - 1) / in_r + 1) + (d2 + in_r - 1) % in_r)
                by (nonlinear_arith)
                requires
                    d2 + in_r - 1 == in_r * ((d2 + in_r - 1) / in_r) + (d2 + in_r - 1) % in_r,
                    d == d2 + in_r,
            ;
            lemma_fundamental_div_mod_converse(
                d + in_r - 1,
                in_r,
                (d2 + in_r - 1) / in_r + 1,
                (d2 + in_r - 1) % in_r,
            );
        } else {
            assert(0 < d <= in_r);
            lemma_fundamental_div_mod_converse(d + in_r - 1, in_r, 1, d - 1);
        }
    } else {
        assert(pos >= (len - 1) * out_r) by (nonlinear_arith)
            requires
                pos == out_r * (pos / out_r) + pos % out_r,
                0 <= pos % out_r < out_r,
                pos / out_r + 1 >= len,
                out_r >= 1,
        ;
    }
}

/// Cumulative length from a fresh state: a merged stream of `n` samples at
/// differing rates yields `ceil((n−1)·out_rate / in_rate)` samples, so the
/// cumulative output length divided by the input length converges to
/// `out_rate / in_rate`.
pub proof fn lemma_fresh_output_len(input: Seq<i16>, in_r: int, out_r: int)
    requires
        1 <= in_r,
        1 <= out_r,
        in_r != out_r,
        input.len() >= 1,
    ensures
        ({
            let rv = ResamplerView { in_rate: in_r, out_rate: out_r, pos_num: 0, tail: Seq::empty() };
            let n = process_spec(rv, input).1.len() as int;
            &&& (input.len() - 1) * out_r <= n * in_r
            &&& n * in_r < (input.len() - 1) * out_r + 2 * in_r
        }),
{
    let rv = ResamplerView { in_rate: in_r, out_rate: out_r, pos_num: 0, tail: Seq::empty() };
    let merged = rv.tail + input;
    assert(merged =~= input);
    lemma_resample_len(input, 0, in_r, out_r);
    let len = input.len() as int;
    let n = resample_count(len, 0, in_r, out_r);
    if 0 < (len - 1) * out_r {
        let d = (len - 1) * out_r;
        lemma_fundamental_div_mod(d + in_r - 1, in_r);
        assert(0 <= (d + in_r - 1) % in_r < in_r);
        assert(d <= n * in_r && n * in_r < d + 2 * in_r) by (nonlinear_arith)
            requires
                d + in_r - 1 == in_r * n + (d + in_r - 1) % in_r,
                0 <= (d + in_r - 1) % in_r < in_r,
                in_r >= 1,
        ;
    } else {
        assert((len - 1) * out_r == 0 || (len - 1) * out_r < 0) by (nonlinear_arith)
            requires (len - 1) * out_r <= 0;
        assert(len >= 1 && out_r >= 1);
        assert((len - 1) * out_r >= 0) by (nonlinear_arith)
            requires len >= 1, out_r >= 1;
        assert(n == 0);
        assert(n * in_r == 0) by (nonlinear_arith)
            requires n == 0;
    }
}

/// The serialized chunks drained from `all`, each of exactly `cs` samples.
pub open spec fn chunks_of(all: Seq<i16>, cs: int) -> Seq<Seq<u8>>
    recommends
        cs >= 1,
{
    Seq::new((all.len() as int / cs) as nat, |q: int| le_bytes_of(all.subrange(q * cs, q * cs + cs)))
}

/// Feed one block of captured samples through downmix, resampling and
/// chunking.  Returns the finished chunks, each `chunk_samples` samples
/// serialized little-endian; `buffer` keeps the remainder.
pub fn push_samples(
    buffer: &mut Vec<i16>,
    resampler: &mut StreamingResampler,
    channels: usize,
    input: &[i16],
    chunk_samples: usize,
) -> (chunks: Vec<Vec<u8>>)
    requires
        channels >= 1,
        chunk_samples >= 1,
        old(resampler)@.wf(),
    ensures
        final(resampler)@.wf(),
        input@.len() == 0 ==> final(buffer)@ == old(buffer)@ && final(resampler)@ == old(
            resampler,
        )@ && chunks@.len() == 0,
        input@.len() > 0 ==> ({
            let mono = downmix_spec(input@, channels as int);
            let all = old(buffer)@ + process_spec(old(resampler)@, mono).1;
            &&& final(resampler)@ == process_spec(old(resampler)@, mono).0
            &&& final(buffer)@ == all.skip((all.len() as int / chunk_samples as int)
                * chunk_samples as int)
            &&& chunks.deep_view() == chunks_of(all, chunk_samples as int)
        }),
{
    if input.len() == 0 {
        return Vec::new();
    }
    let mono: Vec<i16> = mix_to_mono(input, channels);
    let resampled: Vec<i16> = resampler.process(mono.as_slice());
    buffer.extend_from_slice(resampled.as_slice());
    let ghost all = buffer@;
    proof {
        assert(all =~= old(buffer)@ + process_spec(old(resampler)@, downmix_spec(
            input@,
            channels as int,
        )).1);
    }
    let cs: usize = chunk_samples;
    let blen: usize = buffer.len();
    let mut chunks: Vec<Vec<u8>> = Vec::new();
    let mut start: usize = 0;
    proof {
        assert(chunks@.len() * (cs as int) == 0) by (nonlinear_arith)
            requires chunks@.len() == 0;
    }
    while blen - start >= cs
        invariant
            cs >= 1,
            start <= blen,
            blen == all.len(),
            buffer@ == all,
            start == chunks@.len() * cs,
            forall|q: int|
                0 <= q < chunks@.len() ==> #[trigger] chunks@[q]@ == le_bytes_of(
                    all.subrange(q * cs, q * cs + cs),
                ),
        decreases blen - start,
    {
        let mut piece: Vec<i16> = Vec::new();
        let mut i: usize = start;
        while i < start + cs
            invariant
                start <= i <= start + cs <= blen,
                blen == all.len(),
                buffer@ == all,
                piece@ == all.subrange(start as int, i as int),
            decreases start + cs - i,
        {
            piece.push(buffer[i]);
            assert(piece@ =~= all.subrange(start as int, i as int + 1));
            i = i + 1;
        }
        let bytes: Vec<u8> = i16_to_le_bytes(piece.as_slice());
        let ghost k = chunks@.len() as int;
        proof {
            assert(bytes@ == le_bytes_of(all.subrange(k * cs, k * cs + cs)));
            assert((k + 1) * cs == k * cs + cs) by (nonlinear_arith);
        }
        chunks.push(bytes);
        start = start + cs;
    }
    proof {
        let n = all.len() as int / cs as int;
        lemma_fundamental_div_mod_converse(
            all.len() as int,
            cs as int,
            chunks@.len() as int,
            all.len() - start,
        );
        assert(chunks@.len() == n && start == n * cs);
        assert(chunks.deep_view() =~~= chunks_of(all, cs as int));
    }
    let mut rest: Vec<i16> = Vec::new();
    let mut i: usize = start;
    while i < blen
        invariant
            start <= i <= blen,
            blen == all.len(),
            buffer@ == all,
            rest@ == all.subrange(start as int, i as int),
        decreases blen - i,
    {
        rest.push(buffer[i]);
        assert(rest@ =~= all.subrange(start as int, i as int + 1));
        i = i + 1;
    }
    proof {
        assert(rest@ =~= all.skip(start as int));
    }
    *buffer = rest;
    chunks
}

} // verus!
