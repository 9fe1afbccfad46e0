//! Dual-frame scratch buffer: one owned word buffer split into an input
//! region and an output region, with bit-level frame access, used to feed
//! randomized bit patterns to a foreign jet computation and capture its
//! verdict.

use vstd::prelude::*;

verus! {

/// Number of bits in one buffer word.
pub const WORD_BITS: usize = 64;

/// Words needed to hold `bits` bits: ceiling division by the word size.
pub open spec fn words_for(bits: nat) -> nat {
    if bits % 64 == 0 {
        bits / 64
    } else {
        bits / 64 + 1
    }
}

/// Ceiling division of a bit count by the word size.
pub fn word_count(bits: usize) -> (r: usize)
    ensures
        r == words_for(bits as nat),
        r == 0 <==> bits == 0,
        64 * r >= bits,
{
    if bits % WORD_BITS == 0 {
        bits / WORD_BITS
    } else {
        bits / WORD_BITS + 1
    }
}

/// Whether a frame is open for reading or for writing.
#[derive(Clone, Copy, PartialEq, Eq, Structural, Debug)]
pub enum FrameMode {
    Read,
    Write,
}

/// A view over a sub-range of a word buffer: the words `start..end`, of
/// which the first `bit_width` bit positions are meaningful. Frames own no
/// memory; they are descriptors handed around together with the buffer.
#[derive(Clone, Copy, PartialEq, Eq, Structural, Debug)]
pub struct Frame {
    pub start: usize,
    pub end: usize,
    pub bit_width: usize,
    pub mode: FrameMode,
}

impl Frame {
    /// The frame's word range lies inside a buffer of `len` words and its
    /// bit width fits the range's capacity.
    pub open spec fn valid_for(self, len: nat) -> bool {
        self.start <= self.end && self.end <= len && self.bit_width <= 64 * (self.end
            - self.start)
    }
}

/// Bit `t` of a word, counted from the most significant end, as the frame
/// serialization orders bits.
pub open spec fn word_bit(w: u64, t: int) -> bool
    recommends
        0 <= t < 64,
{
    ((w >> ((63 - t) as u64)) & 1u64) == 1u64
}

/// Bit `i` of the frame `f` over the buffer `words`.
pub open spec fn frame_bit(words: Seq<u64>, f: Frame, i: int) -> bool
    recommends
        f.valid_for(words.len()),
        0 <= i < 64 * (f.end - f.start),
{
    word_bit(words[f.start + i / 64], i % 64)
}

/// A bit index below the frame's capacity lands on a word inside the
/// frame's range.
proof fn lemma_bit_index_in_range(f: Frame, len: nat, i: int)
    requires
        f.valid_for(len),
        0 <= i < 64 * (f.end - f.start),
    ensures
        f.start <= f.start + i / 64 < f.end,
        0 <= i % 64 < 64,
{
    vstd::arithmetic::div_mod::lemma_multiply_divide_lt(i, 64, f.end - f.start);
    vstd::arithmetic::div_mod::lemma_mod_bound(i, 64);
    vstd::arithmetic::div_mod::lemma_fundamental_div_mod(i, 64);
}

/// Two distinct bit indices either land on different words or on different
/// positions within one word.
proof fn lemma_distinct_bits(i: int, k: int)
    requires
        0 <= i,
        0 <= k,
        i != k,
        i / 64 == k / 64,
    ensures
        i % 64 != k % 64,
{
    vstd::arithmetic::div_mod::lemma_fundamental_div_mod(i, 64);
    vstd::arithmetic::div_mod::lemma_fundamental_div_mod(k, 64);
}

/// Read bit `i` of frame `f`.
pub fn read_frame_bit(words: &Vec<u64>, f: Frame, i: usize) -> (bit: bool)
    requires
        f.valid_for(words@.len()),
        f.mode == FrameMode::Read,
        i < f.bit_width,
    ensures
        bit == frame_bit(words@, f, i as int),
{
    proof {
        lemma_bit_index_in_range(f, words@.len(), i as int);
    }
    let widx: usize = f.start + i / 64;
    let shift: u64 = 63 - (i as u64 % 64);
    ((words[widx] >> shift) & 1) == 1
}

/// Write bit `i` of frame `f`, leaving every other bit of the buffer as it
/// was.
pub fn write_frame_bit(words: &mut Vec<u64>, f: Frame, i: usize, bit: bool)
    requires
        f.valid_for(old(words)@.len()),
        f.mode == FrameMode::Write,
        i < f.bit_width,
    ensures
        final(words)@.len() == old(words)@.len(),
        forall|j: int|
            0 <= j < final(words)@.len() && j != f.start + i as int / 64 ==> final(words)@[j]
                == old(words)@[j],
        frame_bit(final(words)@, f, i as int) == bit,
        forall|k: int|
            0 <= k < 64 * (f.end - f.start) && k != i ==> frame_bit(final(words)@, f, k)
                == frame_bit(old(words)@, f, k),
{
    proof {
        lemma_bit_index_in_range(f, old(words)@.len(), i as int);
    }
    let widx: usize = f.start + i / 64;
    let shift: u64 = 63 - (i as u64 % 64);
    let w: u64 = words[widx];
    let neww: u64 = if bit {
        w | (1u64 << shift)
    } else {
        w & !(1u64 << shift)
    };
    words.set(widx, neww);
    proof {
        let t = i as int % 64;
        assert(shift == (63 - t) as u64);
        if bit {
            assert(((w | (1u64 << shift)) >> shift) & 1u64 == 1u64) by (bit_vector)
                requires
                    shift < 64,
            ;
        } else {
            assert(((w & !(1u64 << shift)) >> shift) & 1u64 == 0u64) by (bit_vector)
                requires
                    shift < 64,
            ;
        }
        assert(word_bit(neww, t) == bit);
        assert forall|k: int|
            0 <= k < 64 * (f.end - f.start) && k != i implies frame_bit(words@, f, k) == frame_bit(
            old(words)@,
            f,
            k,
        ) by {
            lemma_bit_index_in_range(f, old(words)@.len(), k);
            if f.start + k / 64 == f.start + i as int / 64 {
                lemma_distinct_bits(i as int, k);
                let u = k % 64;
                let osh = (63 - u) as u64;
                assert(osh != shift);
                assert(((w | (1u64 << shift)) >> osh) & 1u64 == (w >> osh) & 1u64) by (bit_vector)
                    requires
                        shift < 64,
                        osh < 64,
                        osh != shift,
                ;
                assert(((w & !(1u64 << shift)) >> osh) & 1u64 == (w >> osh) & 1u64) by (bit_vector)
                    requires
                        shift < 64,
                        osh < 64,
                        osh != shift,
                ;
                assert(word_bit(neww, u) == word_bit(w, u));
            }
        }
    }
}

/// The word count covers the bit count, and is zero exactly for zero bits.
pub proof fn lemma_words_for_bound(b: nat)
    ensures
        64 * words_for(b) >= b,
        words_for(b) == 0 <==> b == 0,
        words_for(b) <= b / 64 + 1,
{
}

/// Raised by `initialize` when both requested bit widths are zero: a
/// computation with neither input nor output is caller misuse.
#[derive(Clone, Copy, PartialEq, Eq, Structural, Debug)]
pub struct ConfigurationError;

/// Outcome of one foreign invocation. After `Failure` the output region is
/// stale and must not be read.
#[derive(Clone, Copy, PartialEq, Eq, Structural, Debug)]
pub enum InvocationResult {
    Success,
    Failure,
}

/// An owned word buffer holding an input region (words `0..input_words`)
/// and an output region (the rest) back to back, with the bit widths and
/// boundary offsets computed once at construction.
pub struct ScratchBuffer {
    pub words: Vec<u64>,
    pub input_bits: usize,
    pub output_bits: usize,
    pub input_words: usize,
    pub output_words: usize,
}

impl ScratchBuffer {
    /// The stored word counts are the ceiling word counts of the bit
    /// widths, the buffer holds exactly both regions, and the buffer is
    /// not empty.
    pub open spec fn wf(self) -> bool {
        &&& self.input_words == words_for(self.input_bits as nat)
        &&& self.output_words == words_for(self.output_bits as nat)
        &&& self.words@.len() == self.input_words + self.output_words
        &&& self.input_words + self.output_words > 0
    }

    /// Every word of the input region is zero: the primed state.
    pub open spec fn input_region_zero(self) -> bool {
        forall|j: int| 0 <= j < self.input_words ==> self.words@[j] == 0u64
    }

    /// The frame describing the input region.
    pub open spec fn spec_input_frame(self, mode: FrameMode) -> Frame {
        Frame { start: 0, end: self.input_words, bit_width: self.input_bits, mode }
    }

    /// The frame describing the output region.
    pub open spec fn spec_output_frame(self, mode: FrameMode) -> Frame {
        Frame {
            start: self.input_words,
            end: (self.input_words + self.output_words) as usize,
            bit_width: self.output_bits,
            mode,
        }
    }

    /// Both frames fit the buffer, and the input region ends where the
    /// output region begins: the two regions never overlap.
    pub proof fn lemma_frames_valid(self, in_mode: FrameMode, out_mode: FrameMode)
        requires
            self.wf(),
        ensures
            self.spec_input_frame(in_mode).valid_for(self.words@.len()),
            self.spec_output_frame(out_mode).valid_for(self.words@.len()),
            self.spec_input_frame(in_mode).end == self.spec_output_frame(out_mode).start,
    {
        lemma_words_for_bound(self.input_bits as nat);
        lemma_words_for_bound(self.output_bits as nat);
    }

    /// The input-region frame, for one invocation.
    pub fn input_frame(&self, mode: FrameMode) -> (f: Frame)
        ensures
            f == self.spec_input_frame(mode),
    {
        Frame { start: 0, end: self.input_words, bit_width: self.input_bits, mode }
    }

    /// The output-region frame, for one invocation.
    pub fn output_frame(&self, mode: FrameMode) -> (f: Frame)
        requires
            self.wf(),
        ensures
            f == self.spec_output_frame(mode),
    {
        Frame {
            start: self.input_words,
            end: self.input_words + self.output_words,
            bit_width: self.output_bits,
            mode,
        }
    }
}

/// Allocate a zeroed scratch buffer for one input/output bit-width pair.
/// Fails exactly when both widths are zero.
pub fn initialize(input_bits: usize, output_bits: usize) -> (r: Result<
    ScratchBuffer,
    ConfigurationError,
>)
    ensures
        r is Ok <==> input_bits + output_bits > 0,
        r matches Ok(b) ==> b.wf(),
        r matches Ok(b) ==> b.input_bits == input_bits && b.output_bits == output_bits,
        r matches Ok(b) ==> b.words@.len() == words_for(input_bits as nat) + words_for(
            output_bits as nat,
        ),
        r matches Ok(b) ==> forall|j: int| 0 <= j < b.words@.len() ==> b.words@[j] == 0u64,
        r matches Ok(b) ==> b.input_region_zero(),
{
    let input_words = word_count(input_bits);
    let output_words = word_count(output_bits);
    if input_words == 0 && output_words == 0 {
        return Err(ConfigurationError);
    }
    proof {
        lemma_words_for_bound(input_bits as nat);
        lemma_words_for_bound(output_bits as nat);
        vstd::arithmetic::div_mod::lemma_div_is_ordered(input_bits as int, usize::MAX as int, 64);
        vstd::arithmetic::div_mod::lemma_div_is_ordered(output_bits as int, usize::MAX as int, 64);
    }
    let total = input_words + output_words;
    let mut words: Vec<u64> = Vec::new();
    while words.len() < total
        invariant
            words@.len() <= total,
            forall|j: int| 0 <= j < words@.len() ==> words@[j] == 0u64,
        decreases total - words@.len(),
    {
        words.push(0);
    }
    Ok(ScratchBuffer { words, input_bits, output_bits, input_words, output_words })
}

/// Set the words `0..n` of the buffer to zero, leaving the rest unchanged.
pub fn zero_prefix(words: &mut Vec<u64>, n: usize)
    requires
        n <= old(words)@.len(),
    ensures
        final(words)@.len() == old(words)@.len(),
        forall|j: int| 0 <= j < n ==> final(words)@[j] == 0u64,
        forall|j: int| n <= j < final(words)@.len() ==> final(words)@[j] == old(words)@[j],
{
    let mut k: usize = 0;
    while k < n
        invariant
            k <= n,
            n <= words@.len(),
            words@.len() == old(words)@.len(),
            forall|j: int| 0 <= j < k ==> words@[j] == 0u64,
            forall|j: int| k <= j < words@.len() ==> words@[j] == old(words)@[j],
        decreases n - k,
    {
        words.set(k, 0);
        k = k + 1;
    }
}

/// A supply of bits for filling the input frame, one per call. Nothing is
/// assumed of the values drawn: the buffer protocol holds for every
/// sequence of bits.
pub trait BitSource {
    fn next_bit(&mut self) -> bool;
}

/// The foreign jet computation: it reads the bits of the read-mode frame
/// `src`, may write bits of the write-mode frame `dst`, and returns `true`
/// exactly when it produced valid output. Its semantics are outside this
/// library; implementors promise only that the word buffer keeps its
/// length.
pub trait ForeignComputation {
    type Env;

    fn invoke(&self, words: &mut Vec<u64>, dst: Frame, src: Frame, env: &Self::Env) -> (ok: bool)
        requires
            src.valid_for(old(words)@.len()),
            dst.valid_for(old(words)@.len()),
        ensures
            final(words)@.len() == old(words)@.len(),
    ;
}

/// An environment a jet computation runs against, viewed through its
/// native (foreign-call) representation. The conversion is produced by an
/// external collaborator and passed through unchanged as an opaque token.
pub trait JetEnvironment {
    type CJetEnvironment;

    fn as_ffi(&self) -> &Self::CJetEnvironment;
}

impl JetEnvironment for () {
    type CJetEnvironment = ();

    fn as_ffi(&self) -> &Self::CJetEnvironment {
        &()
    }
}

/// Map the foreign computation's boolean verdict to the result the caller
/// sees: `true` means the output frame is valid, `false` means it is
/// stale.
pub fn interpret_outcome(ok: bool) -> (r: InvocationResult)
    ensures
        r == InvocationResult::Success <==> ok,
        r == InvocationResult::Failure <==> !ok,
{
    if ok {
        InvocationResult::Success
    } else {
        InvocationResult::Failure
    }
}

/// One trial: draw `input_bits` bits into the input frame, hand both
/// frames to the foreign computation, zero the input region whatever the
/// verdict was, and report that verdict. The buffer's layout is unchanged
/// and it comes back in the primed state, ready for the next trial.
pub fn fill_and_invoke<F: ForeignComputation, B: BitSource>(
    buf: &mut ScratchBuffer,
    foreign: &F,
    env: &F::Env,
    bits: &mut B,
) -> (r: InvocationResult)
    requires
        old(buf).wf(),
    ensures
        final(buf).wf(),
        final(buf).input_bits == old(buf).input_bits,
        final(buf).output_bits == old(buf).output_bits,
        final(buf).input_words == old(buf).input_words,
        final(buf).output_words == old(buf).output_words,
        final(buf).words@.len() == old(buf).words@.len(),
        final(buf).input_region_zero(),
{
    let in_frame = buf.input_frame(FrameMode::Write);
    proof {
        buf.lemma_frames_valid(FrameMode::Write, FrameMode::Write);
    }
    let mut i: usize = 0;
    while i < in_frame.bit_width
        invariant
            i <= in_frame.bit_width,
            buf.wf(),
            buf.input_bits == old(buf).input_bits,
            buf.output_bits == old(buf).output_bits,
            buf.input_words == old(buf).input_words,
            buf.output_words == old(buf).output_words,
            buf.words@.len() == old(buf).words@.len(),
            in_frame == buf.spec_input_frame(FrameMode::Write),
            in_frame.valid_for(buf.words@.len()),
        decreases in_frame.bit_width - i,
    {
        let bitv = bits.next_bit();
        write_frame_bit(&mut buf.words, in_frame, i, bitv);
        i = i + 1;
    }
    let src_frame = buf.input_frame(FrameMode::Read);
    let dst_frame = buf.output_frame(FrameMode::Write);
    proof {
        buf.lemma_frames_valid(FrameMode::Read, FrameMode::Write);
    }
    let ok = foreign.invoke(&mut buf.words, dst_frame, src_frame, env);
    let n = buf.input_words;
    zero_prefix(&mut buf.words, n);
    interpret_outcome(ok)
}

/// Hygiene across trials: in the primed state every bit of the input frame
/// reads as zero, so no bits written during one invocation survive into
/// the next one's fill.
pub proof fn lemma_no_cross_trial_leak(buf: ScratchBuffer, mode: FrameMode)
    requires
        buf.wf(),
        buf.input_region_zero(),
    ensures
        forall|i: int|
            0 <= i < buf.input_bits ==> !frame_bit(buf.words@, buf.spec_input_frame(mode), i),
{
    let f = buf.spec_input_frame(mode);
    lemma_words_for_bound(buf.input_bits as nat);
    assert forall|i: int| 0 <= i < buf.input_bits implies !frame_bit(buf.words@, f, i) by {
        lemma_bit_index_in_range(f, buf.words@.len(), i);
        let s = (63 - i % 64) as u64;
        assert((0u64 >> s) & 1u64 == 0u64) by (bit_vector)
            requires
                s < 64,
        ;
    }
}

} // verus!
