use std::cell::Cell;

use jet_harness::frame::{
    fill_and_invoke, initialize, interpret_outcome, read_frame_bit, word_count, write_frame_bit,
    BitSource, ForeignComputation, Frame, FrameMode, InvocationResult, JetEnvironment,
    ScratchBuffer, WORD_BITS,
};
use jet_harness::rng::ThreadRngSource;
use jet_harness::{bad_add, bad_fibonacci, better_add, better_fibonacci};

/// Yields `false` forever.
struct ZeroBits;

impl BitSource for ZeroBits {
    fn next_bit(&mut self) -> bool {
        false
    }
}

/// Yields a fixed deterministic pattern.
struct PatternBits {
    k: usize,
}

impl BitSource for PatternBits {
    fn next_bit(&mut self) -> bool {
        let b = self.k % 3 == 0 || self.k % 7 == 0;
        self.k += 1;
        b
    }
}

/// Copies the first `min(src.bit_width, dst.bit_width)` bits from the input
/// frame to the output frame and reports success.
struct CopyStub;

impl ForeignComputation for CopyStub {
    type Env = ();

    fn invoke(&self, words: &mut Vec<u64>, dst: Frame, src: Frame, _env: &()) -> bool {
        let n = src.bit_width.min(dst.bit_width);
        for i in 0..n {
            let b = read_frame_bit(words, src, i);
            write_frame_bit(words, dst, i, b);
        }
        true
    }
}

/// Declines every input without touching the buffer.
struct AlwaysFail;

impl ForeignComputation for AlwaysFail {
    type Env = ();

    fn invoke(&self, _words: &mut Vec<u64>, _dst: Frame, _src: Frame, _env: &()) -> bool {
        false
    }
}

/// Reads all input bits, writes nothing, and succeeds.
struct ReadOnlyStub;

impl ForeignComputation for ReadOnlyStub {
    type Env = ();

    fn invoke(&self, words: &mut Vec<u64>, _dst: Frame, src: Frame, _env: &()) -> bool {
        let mut seen = 0usize;
        for i in 0..src.bit_width {
            if read_frame_bit(words, src, i) {
                seen += 1;
            }
        }
        let _ = seen;
        true
    }
}

/// Fails on even-numbered trials and succeeds on odd ones; on every call
/// after the first it checks that the input region carries no bits left
/// over from the previous trial.
struct ParityStub {
    calls: Cell<usize>,
}

impl ForeignComputation for ParityStub {
    type Env = ();

    fn invoke(&self, words: &mut Vec<u64>, _dst: Frame, src: Frame, _env: &()) -> bool {
        let c = self.calls.get();
        if c > 0 {
            for w in src.start..src.end {
                assert_eq!(words[w], 0, "stale bits leaked into trial {}", c);
            }
        }
        self.calls.set(c + 1);
        c % 2 == 1
    }
}

fn read_output_bits(buf: &ScratchBuffer) -> Vec<bool> {
    let f = buf.output_frame(FrameMode::Read);
    let mut out = Vec::new();
    for i in 0..f.bit_width {
        out.push(read_frame_bit(&buf.words, f, i));
    }
    out
}

fn pattern_prefix(n: usize) -> Vec<bool> {
    let mut src = PatternBits { k: 0 };
    let mut v = Vec::new();
    for _ in 0..n {
        v.push(src.next_bit());
    }
    v
}

#[test]
fn initialize_sizes_buffer_by_ceiling_division() {
    assert_eq!(WORD_BITS, 64);
    for &(i, o) in &[(8usize, 0usize), (0, 8), (1, 1), (64, 64), (65, 130), (1000, 3)] {
        let buf = initialize(i, o).unwrap();
        let expect = (i + 63) / 64 + (o + 63) / 64;
        assert_eq!(buf.words.len(), expect);
        assert_eq!(buf.words.len(), word_count(i) + word_count(o));
        assert_eq!(buf.input_bits, i);
        assert_eq!(buf.output_bits, o);
        assert!(buf.words.iter().all(|&w| w == 0));
    }
    assert_eq!(initialize(8, 0).unwrap().words.len(), 1);
    assert_eq!(initialize(65, 130).unwrap().words.len(), 5);
}

#[test]
fn initialize_rejects_zero_by_zero() {
    let r = initialize(0, 0);
    assert!(r.is_err());
}

#[test]
fn input_region_zeroed_after_success_and_failure() {
    let mut buf = initialize(130, 65).unwrap();
    let mut bits = PatternBits { k: 0 };
    let r = fill_and_invoke(&mut buf, &CopyStub, &(), &mut bits);
    assert_eq!(r, InvocationResult::Success);
    for w in 0..buf.input_words {
        assert_eq!(buf.words[w], 0);
    }
    let r = fill_and_invoke(&mut buf, &AlwaysFail, &(), &mut bits);
    assert_eq!(r, InvocationResult::Failure);
    for w in 0..buf.input_words {
        assert_eq!(buf.words[w], 0);
    }
}

#[test]
fn success_output_matches_copy_stub() {
    // 70 input bits and 70 output bits, crossing a word boundary on both sides.
    let mut buf = initialize(70, 70).unwrap();
    let mut bits = PatternBits { k: 0 };
    let r = fill_and_invoke(&mut buf, &CopyStub, &(), &mut bits);
    assert_eq!(r, InvocationResult::Success);
    assert_eq!(read_output_bits(&buf), pattern_prefix(70));
}

#[test]
fn success_output_matches_copy_stub_short_output() {
    let mut buf = initialize(100, 10).unwrap();
    let mut bits = PatternBits { k: 0 };
    let r = fill_and_invoke(&mut buf, &CopyStub, &(), &mut bits);
    assert_eq!(r, InvocationResult::Success);
    assert_eq!(read_output_bits(&buf), pattern_prefix(10));
}

#[test]
fn failure_is_reported_as_failure() {
    let mut buf = initialize(16, 16).unwrap();
    let mut bits = PatternBits { k: 0 };
    let r = fill_and_invoke(&mut buf, &AlwaysFail, &(), &mut bits);
    assert_eq!(r, InvocationResult::Failure);
}

#[test]
fn interpret_outcome_maps_both_verdicts() {
    assert_eq!(interpret_outcome(true), InvocationResult::Success);
    assert_eq!(interpret_outcome(false), InvocationResult::Failure);
}

#[test]
fn repeated_trials_do_not_leak_bits() {
    let mut buf = initialize(200, 64).unwrap();
    let stub = ParityStub { calls: Cell::new(0) };
    let mut bits = ZeroBits;
    for trial in 0..8 {
        let r = fill_and_invoke(&mut buf, &stub, &(), &mut bits);
        if trial % 2 == 1 {
            assert_eq!(r, InvocationResult::Success);
        } else {
            assert_eq!(r, InvocationResult::Failure);
        }
    }
    assert_eq!(stub.calls.get(), 8);
}

#[test]
fn eight_bit_input_no_output_scenario() {
    let buf = initialize(8, 0).unwrap();
    assert_eq!(buf.words.len(), 1);
    let mut buf = buf;
    let mut bits = PatternBits { k: 0 };
    let r = fill_and_invoke(&mut buf, &ReadOnlyStub, &(), &mut bits);
    assert_eq!(r, InvocationResult::Success);
    for w in 0..buf.input_words {
        assert_eq!(buf.words[w], 0);
    }
}

#[test]
fn thread_rng_source_drives_a_trial() {
    let mut buf = initialize(128, 8).unwrap();
    let mut bits = ThreadRngSource::new();
    let r = fill_and_invoke(&mut buf, &CopyStub, &(), &mut bits);
    assert_eq!(r, InvocationResult::Success);
    for w in 0..buf.input_words {
        assert_eq!(buf.words[w], 0);
    }
}

#[test]
fn frame_bits_round_trip_across_word_boundary() {
    let mut words = vec![0u64; 3];
    let wf = Frame { start: 0, end: 3, bit_width: 130, mode: FrameMode::Write };
    let rf = Frame { start: 0, end: 3, bit_width: 130, mode: FrameMode::Read };
    let pattern = pattern_prefix(130);
    for (i, &b) in pattern.iter().enumerate() {
        write_frame_bit(&mut words, wf, i, b);
    }
    for (i, &b) in pattern.iter().enumerate() {
        assert_eq!(read_frame_bit(&words, rf, i), b, "bit {}", i);
    }
    // The very first bit written lands on the most significant end of word 0.
    let mut words2 = vec![0u64; 1];
    let wf2 = Frame { start: 0, end: 1, bit_width: 1, mode: FrameMode::Write };
    write_frame_bit(&mut words2, wf2, 0, true);
    assert_eq!(words2[0], 1u64 << 63);
}

#[test]
fn unit_environment_is_its_own_ffi_view() {
    let env = ();
    let ffi: &() = env.as_ffi();
    assert_eq!(*ffi, ());
}

#[test]
fn fibonacci_implementations_agree_with_exact_values() {
    // With this indexing the sequence runs 1, 1, 2, 3, 5, 8, ...
    let expect = [1u64, 1, 2, 3, 5, 8, 13, 21, 34, 55, 89];
    for (n, &e) in expect.iter().enumerate() {
        assert_eq!(bad_fibonacci(n as u64), e);
        assert_eq!(better_fibonacci(n as u64), e);
    }
    assert_eq!(better_fibonacci(92), 12200160415121876738);
}

#[test]
fn addition_implementations_agree() {
    assert_eq!(bad_add(0, 7), 7);
    assert_eq!(bad_add(1000, 2345), 3345);
    assert_eq!(better_add(0, 0), 0);
    assert_eq!(better_add(u64::MAX - 1, 1), u64::MAX);
    assert_eq!(bad_add(5, u64::MAX - 5), u64::MAX);
}
