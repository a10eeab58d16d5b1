//! Reduction of a decoded PCM sample stream to one peak amplitude per chunk.
//!
//! An amplitude is kept as an exact fraction: the peak sample, widened to the
//! reference bit depth, over `FULL_SCALE`. Turning it into a float is left to
//! the caller.
use vstd::prelude::*;

use crate::startup::StartupError;

verus! {

/// Bit depth that every sample is widened to before normalization.
pub const REFERENCE_BIT_DEPTH: u32 = 24;

/// Largest sample at the reference bit depth, `2^23 - 1`: the denominator
/// of every normalized amplitude.
pub const FULL_SCALE: i32 = 8_388_607;

/// `2^e`.
pub open spec fn two_to(e: nat) -> int
    decreases e,
{
    if e == 0 {
        1
    } else {
        2 * two_to((e - 1) as nat)
    }
}

/// `2^(a + b) == 2^a * 2^b`.
pub proof fn lemma_two_to_adds(a: nat, b: nat)
    ensures
        two_to(a + b) == two_to(a) * two_to(b),
    decreases a,
{
    if a > 0 {
        lemma_two_to_adds((a - 1) as nat, b);
        assert(two_to(a + b) == 2 * two_to((a - 1 + b) as nat));
        assert(two_to(a) * two_to(b) == 2 * (two_to((a - 1) as nat) * two_to(b))) by (nonlinear_arith)
            requires
                two_to(a) == 2 * two_to((a - 1) as nat),
        ;
    }
}

/// Powers of two are positive and grow with the exponent.
pub proof fn lemma_two_to_bounds(a: nat, b: nat)
    requires
        a <= b,
    ensures
        1 <= two_to(a) <= two_to(b),
    decreases b,
{
    if b > a {
        lemma_two_to_bounds(a, (b - 1) as nat);
    } else if a > 0 {
        lemma_two_to_bounds((a - 1) as nat, (a - 1) as nat);
    }
}

/// The powers of two at the reference depth.
pub proof fn lemma_two_to_reference()
    ensures
        two_to(22) == 4_194_304,
        two_to(23) == 8_388_608,
{
    reveal_with_fuel(two_to, 24);
}

/// Bit depths that can be widened to the reference depth.
pub open spec fn valid_bit_depth(bits: u32) -> bool {
    1 <= bits <= REFERENCE_BIT_DEPTH
}

/// Smallest sample representable with `bits` bits: `-2^(bits-1)`.
pub open spec fn min_sample(bits: u32) -> int {
    -two_to((bits - 1) as nat)
}

/// Largest sample representable with `bits` bits: `2^(bits-1) - 1`.
pub open spec fn max_sample(bits: u32) -> int {
    two_to((bits - 1) as nat) - 1
}

pub open spec fn sample_fits(s: i32, bits: u32) -> bool {
    min_sample(bits) <= s <= max_sample(bits)
}

pub open spec fn samples_fit(samples: Seq<i32>, bits: u32) -> bool {
    forall|i: int| 0 <= i < samples.len() ==> #[trigger] sample_fits(samples[i], bits)
}

/// A sample of depth `bits` shifted left to the reference depth.
pub open spec fn aligned(s: int, bits: u32) -> int {
    s * two_to((REFERENCE_BIT_DEPTH - bits) as nat)
}

/// Number of samples in each window: `max(1, n / groups)`.
pub open spec fn chunk_size_of(n: nat, groups: nat) -> nat {
    if groups > 0 && n / groups > 0 {
        n / groups
    } else {
        1
    }
}

/// Largest element of a non-empty sequence.
pub open spec fn seq_max(s: Seq<i32>) -> i32
    decreases s.len(),
{
    if s.len() <= 1 {
        s[0]
    } else {
        let m = seq_max(s.drop_last());
        if s.last() > m {
            s.last()
        } else {
            m
        }
    }
}

/// The `k`-th window of `size` consecutive samples.
pub open spec fn window(samples: Seq<i32>, size: nat, k: int) -> Seq<i32> {
    samples.subrange(k * size, k * size + size)
}

/// The reduced waveform: one aligned window maximum per full window, in
/// order; samples after the last full window are left out.
pub open spec fn reduced(samples: Seq<i32>, bits: u32, groups: nat) -> Seq<int> {
    let size = chunk_size_of(samples.len(), groups);
    Seq::new(samples.len() / size, |k: int| aligned(seq_max(window(samples, size, k)) as int, bits))
}

/// `2^e` for the exponents that the reference depth needs.
fn two_to_exec(e: u32) -> (r: i32)
    requires
        e < REFERENCE_BIT_DEPTH,
    ensures
        r == two_to(e as nat),
{
    let mut r: i32 = 1;
    let mut k: u32 = 0;
    while k < e
        invariant
            k <= e < REFERENCE_BIT_DEPTH,
            r == two_to(k as nat),
        decreases e - k,
    {
        proof {
            lemma_two_to_bounds(k as nat, 22);
            lemma_two_to_reference();
        }
        r = r * 2;
        k = k + 1;
    }
    r
}

/// A widened sample lies in `[-FULL_SCALE - 1, FULL_SCALE]`, and only the
/// smallest sample of its depth lands below `-FULL_SCALE`.
pub proof fn lemma_aligned_range(s: i32, bits: u32)
    requires
        valid_bit_depth(bits),
        sample_fits(s, bits),
    ensures
        -FULL_SCALE - 1 <= aligned(s as int, bits) <= FULL_SCALE,
        s > min_sample(bits) ==> -FULL_SCALE <= aligned(s as int, bits),
{
    let lo = (bits - 1) as nat;
    let shift = (REFERENCE_BIT_DEPTH - bits) as nat;
    let factor = two_to(shift);
    lemma_two_to_adds(lo, shift);
    lemma_two_to_reference();
    assert(lo + shift == 23);
    let half = two_to(lo);
    lemma_two_to_bounds(0, shift);
    assert(-half * factor <= s * factor <= (half - 1) * factor) by (nonlinear_arith)
        requires
            -half <= s <= half - 1,
            factor >= 1,
    ;
    assert((half - 1) * factor == half * factor - factor) by (nonlinear_arith);
    assert(-half * factor == -(half * factor)) by (nonlinear_arith);
    if s > min_sample(bits) {
        assert((-half + 1) * factor <= s * factor) by (nonlinear_arith)
            requires
                -half + 1 <= s,
                factor >= 1,
        ;
        assert((-half + 1) * factor == -(half * factor) + factor) by (nonlinear_arith);
    }
}

/// The largest sample of any depth widens to within `2^(24 - depth)` of
/// `FULL_SCALE` (exactly onto it at the reference depth), so its amplitude
/// is close to `1.0`; the smallest widens to `-FULL_SCALE - 1`, an amplitude
/// just below `-1.0`.
pub proof fn lemma_extremes_normalize(bits: u32)
    requires
        valid_bit_depth(bits),
    ensures
        aligned(max_sample(bits), bits) == FULL_SCALE + 1 - two_to(
            (REFERENCE_BIT_DEPTH - bits) as nat,
        ),
        bits == REFERENCE_BIT_DEPTH ==> aligned(max_sample(bits), bits) == FULL_SCALE,
        aligned(min_sample(bits), bits) == -FULL_SCALE - 1,
{
    let lo = (bits - 1) as nat;
    let shift = (REFERENCE_BIT_DEPTH - bits) as nat;
    let factor = two_to(shift);
    let half = two_to(lo);
    lemma_two_to_adds(lo, shift);
    lemma_two_to_reference();
    assert(lo + shift == 23);
    assert((half - 1) * factor == half * factor - factor) by (nonlinear_arith);
    assert(-half * factor == -(half * factor)) by (nonlinear_arith);
}

/// Widens a sample of depth `source_bit_depth` to the reference depth.
pub fn align_sample(sample: i32, source_bit_depth: u32) -> (r: i32)
    requires
        valid_bit_depth(source_bit_depth),
        sample_fits(sample, source_bit_depth),
    ensures
        r == aligned(sample as int, source_bit_depth),
        -FULL_SCALE - 1 <= r <= FULL_SCALE,
{
    let shift = REFERENCE_BIT_DEPTH - source_bit_depth;
    let factor = two_to_exec(shift);
    proof {
        lemma_aligned_range(sample, source_bit_depth);
    }
    sample * factor
}

/// Largest sample of `samples[start..start + len]`.
fn window_peak(samples: &Vec<i32>, start: usize, len: usize) -> (m: i32)
    requires
        len >= 1,
        start + len <= samples.len(),
    ensures
        m == seq_max(samples@.subrange(start as int, start + len)),
{
    let mut m = samples[start];
    let mut j: usize = 1;
    assert(samples@.subrange(start as int, start + 1).len() == 1);
    while j < len
        invariant
            1 <= j <= len,
            start + len <= samples.len(),
            m == seq_max(samples@.subrange(start as int, start + j)),
        decreases len - j,
    {
        let ghost next = samples@.subrange(start as int, start + j + 1);
        assert(next.drop_last() =~= samples@.subrange(start as int, start + j));
        assert(next.last() == samples@[start + j]);
        if samples[start + j] > m {
            m = samples[start + j];
        }
        j = j + 1;
    }
    m
}

/// Reduces `samples` to `max(1, len / group_count)`-sample windows and
/// returns, in order, the largest sample of each full window widened to the
/// reference depth. The amplitude of entry `k` is `r[k] / FULL_SCALE`.
pub fn reduce(samples: &Vec<i32>, source_bit_depth: u32, group_count: usize) -> (r: Vec<i32>)
    requires
        group_count >= 1,
        valid_bit_depth(source_bit_depth),
        samples_fit(samples@, source_bit_depth),
    ensures
        r@.len() == reduced(samples@, source_bit_depth, group_count as nat).len(),
        forall|k: int|
            0 <= k < r@.len() ==> r@[k] as int == #[trigger] reduced(
                samples@,
                source_bit_depth,
                group_count as nat,
            )[k],
        forall|k: int| 0 <= k < r@.len() ==> -FULL_SCALE - 1 <= #[trigger] r@[k] <= FULL_SCALE,
{
    let n = samples.len();
    let chunk_size: usize = if n / group_count > 0 {
        n / group_count
    } else {
        1
    };
    let count = n / chunk_size;
    let ghost spec_seq = reduced(samples@, source_bit_depth, group_count as nat);
    proof {
        assert(count * chunk_size <= n) by (nonlinear_arith)
            requires
                count == n / chunk_size,
                chunk_size >= 1,
        ;
    }
    let mut out: Vec<i32> = Vec::new();
    let mut k: usize = 0;
    while k < count
        invariant
            chunk_size == chunk_size_of(samples@.len(), group_count as nat),
            count == spec_seq.len(),
            spec_seq == reduced(samples@, source_bit_depth, group_count as nat),
            count * chunk_size <= n,
            n == samples@.len(),
            chunk_size >= 1,
            k <= count,
            valid_bit_depth(source_bit_depth),
            samples_fit(samples@, source_bit_depth),
            out@.len() == k,
            forall|j: int| 0 <= j < k ==> out@[j] as int == #[trigger] spec_seq[j],
            forall|j: int| 0 <= j < k ==> -FULL_SCALE - 1 <= #[trigger] out@[j] <= FULL_SCALE,
        decreases count - k,
    {
        proof {
            assert(k * chunk_size + chunk_size <= count * chunk_size) by (nonlinear_arith)
                requires
                    k < count,
                    chunk_size >= 1,
            ;
        }
        let start = k * chunk_size;
        let peak = window_peak(samples, start, chunk_size);
        proof {
            let w = samples@.subrange(start as int, start + chunk_size);
            assert(w =~= window(samples@, chunk_size as nat, k as int));
            lemma_max_is_member(w);
            let i = choose|i: int| 0 <= i < w.len() && w[i] == seq_max(w);
            assert(sample_fits(samples@[start + i], source_bit_depth));
        }
        let v = align_sample(peak, source_bit_depth);
        out.push(v);
        k = k + 1;
    }
    out
}

/// Whether every sample lies in the range of depth `source_bit_depth`.
pub fn all_samples_fit(samples: &Vec<i32>, source_bit_depth: u32) -> (r: bool)
    requires
        valid_bit_depth(source_bit_depth),
    ensures
        r == samples_fit(samples@, source_bit_depth),
{
    let half = two_to_exec(source_bit_depth - 1);
    proof {
        lemma_two_to_bounds((source_bit_depth - 1) as nat, 23);
        lemma_two_to_reference();
    }
    let mut i: usize = 0;
    while i < samples.len()
        invariant
            i <= samples@.len(),
            half == two_to((source_bit_depth - 1) as nat),
            1 <= half <= 8_388_608,
            forall|j: int| 0 <= j < i ==> #[trigger] sample_fits(samples@[j], source_bit_depth),
        decreases samples.len() - i,
    {
        if samples[i] < -half || samples[i] > half - 1 {
            assert(!sample_fits(samples@[i as int], source_bit_depth));
            return false;
        }
        i = i + 1;
    }
    true
}

/// The outcome of `checked_reduce` on its inputs.
pub open spec fn checked_reduced(samples: Seq<i32>, bits: u32, groups: nat) -> Result<
    Seq<int>,
    StartupError,
> {
    if groups == 0 {
        Err(StartupError::InvalidGroupCount)
    } else if !valid_bit_depth(bits) {
        Err(StartupError::UnsupportedBitDepth)
    } else if samples.len() == 0 {
        Err(StartupError::NoSamples)
    } else if !samples_fit(samples, bits) {
        Err(StartupError::SampleOutOfRange)
    } else {
        Ok(reduced(samples, bits, groups))
    }
}

/// `reduce` on any input: a zero group count, an unsupported bit depth, an
/// empty stream and a sample out of range are reported, in that order.
pub fn checked_reduce(samples: &Vec<i32>, source_bit_depth: u32, group_count: usize) -> (r:
    Result<Vec<i32>, StartupError>)
    ensures
        match (r, checked_reduced(samples@, source_bit_depth, group_count as nat)) {
            (Ok(v), Ok(w)) => v@.len() == w.len() && forall|k: int|
                0 <= k < v@.len() ==> v@[k] as int == #[trigger] w[k],
            (Err(e), Err(f)) => e == f,
            _ => false,
        },
{
    if group_count == 0 {
        Err(StartupError::InvalidGroupCount)
    } else if source_bit_depth < 1 || source_bit_depth > REFERENCE_BIT_DEPTH {
        Err(StartupError::UnsupportedBitDepth)
    } else if samples.len() == 0 {
        Err(StartupError::NoSamples)
    } else if !all_samples_fit(samples, source_bit_depth) {
        Err(StartupError::SampleOutOfRange)
    } else {
        Ok(reduce(samples, source_bit_depth, group_count))
    }
}

/// When the group count is at most the number of samples and the samples
/// left over after `n / group_count`-sample windows are fewer than a window,
/// there is one amplitude per group.
pub proof fn lemma_length_is_group_count(samples: Seq<i32>, bits: u32, group_count: nat)
    requires
        1 <= group_count <= samples.len(),
        samples.len() % group_count < samples.len() / group_count,
    ensures
        reduced(samples, bits, group_count).len() == group_count,
{
    let n = samples.len() as int;
    let g = group_count as int;
    let c = n / g;
    vstd::arithmetic::div_mod::lemma_fundamental_div_mod(n, g);
    vstd::arithmetic::div_mod::lemma_div_is_ordered(g, n, g);
    vstd::arithmetic::div_mod::lemma_div_basics(g);
    assert(n == c * g + n % g) by (nonlinear_arith)
        requires
            n == g * c + n % g,
    ;
    vstd::arithmetic::div_mod::lemma_fundamental_div_mod_converse(n, c, g, n % g);
}

/// With more groups than samples each window holds one sample, so there is
/// one amplitude per sample.
pub proof fn lemma_length_is_sample_count(samples: Seq<i32>, bits: u32, group_count: nat)
    requires
        group_count > samples.len(),
    ensures
        chunk_size_of(samples.len(), group_count) == 1,
        reduced(samples, bits, group_count).len() == samples.len(),
{
    vstd::arithmetic::div_mod::lemma_basic_div(samples.len() as int, group_count as int);
}

/// Every amplitude lies in `[-1, 1]`, that is every reduced value in
/// `[-FULL_SCALE, FULL_SCALE]`, unless a window holds nothing but the
/// smallest sample of its depth.
pub proof fn lemma_amplitudes_in_unit_range(samples: Seq<i32>, bits: u32, group_count: nat)
    requires
        group_count >= 1,
        valid_bit_depth(bits),
        samples_fit(samples, bits),
        forall|k: int|
            0 <= k < samples.len() / chunk_size_of(samples.len(), group_count) ==> seq_max(
                #[trigger] window(samples, chunk_size_of(samples.len(), group_count), k),
            ) > min_sample(bits),
    ensures
        forall|k: int|
            0 <= k < reduced(samples, bits, group_count).len() ==> -FULL_SCALE <= #[trigger] reduced(
                samples,
                bits,
                group_count,
            )[k] <= FULL_SCALE,
{
    let r = reduced(samples, bits, group_count);
    let size = chunk_size_of(samples.len(), group_count);
    assert forall|k: int| 0 <= k < r.len() implies -FULL_SCALE <= #[trigger] r[k] <= FULL_SCALE by {
        let count = samples.len() / size;
        assert(k * size + size <= samples.len()) by (nonlinear_arith)
            requires
                0 <= k < count,
                count == samples.len() / size,
                size >= 1,
        ;
        assert(0 <= k * size) by (nonlinear_arith)
            requires
                0 <= k,
                size >= 1,
        ;
        let w = window(samples, size, k);
        lemma_max_is_member(w);
        let i = choose|i: int| 0 <= i < w.len() && w[i] == seq_max(w);
        assert(w[i] == samples[k * size + i]);
        assert(sample_fits(samples[k * size + i], bits));
        assert(seq_max(w) > min_sample(bits));
        lemma_aligned_range(seq_max(w), bits);
    }
}

/// The maximum of a non-empty sequence is one of its elements and bounds
/// every element.
pub proof fn lemma_max_is_member(s: Seq<i32>)
    requires
        s.len() >= 1,
    ensures
        exists|i: int| 0 <= i < s.len() && s[i] == seq_max(s),
        forall|i: int| 0 <= i < s.len() ==> s[i] <= seq_max(s),
    decreases s.len(),
{
    if s.len() == 1 {
        assert(s[0] == seq_max(s));
    } else {
        let t = s.drop_last();
        lemma_max_is_member(t);
        let j = choose|j: int| 0 <= j < t.len() && t[j] == seq_max(t);
        if s.last() > seq_max(t) {
            assert(s[s.len() - 1] == seq_max(s));
        } else {
            assert(s[j] == seq_max(s));
        }
        assert forall|i: int| 0 <= i < s.len() implies s[i] <= seq_max(s) by {
            if i < s.len() - 1 {
                assert(s[i] == t[i]);
            }
        }
    }
}

} // verus!
