//! What the microphone brings, and how it is sent.
//!
//! The sound arrives as 16-bit samples at 16 kHz, mono, and is kept in the form
//! in which it is sent. Beside the samples stands one level for each 10 ms, for
//! the wave on the screen, and a mark up to which the samples were handed to the
//! live transcription.

use vstd::prelude::*;

use crate::float::Single;
use crate::text::{copy_text, decimal, decimal_text, optional, optional_str, same_text};

verus! {

/// The form that the service asks for.
pub const TARGET_RATE: u32 = 16_000;

pub const TARGET_CHANNELS: u16 = 1;

/// Samples per level: 10 ms.
pub const LEVEL_WINDOW: usize = 160;

/// The bits of the magnitude above which somebody spoke: 0.06.
pub const SPEECH_THRESHOLD: u32 = 0x3d75_c28f;

/// How far a sample is from silence.
pub open spec fn loudness(sample: i16) -> nat {
    if sample < 0 {
        (-sample) as nat
    } else {
        sample as nat
    }
}

/// The loudest of some samples.
pub open spec fn loudest(samples: Seq<i16>) -> nat
    decreases samples.len(),
{
    if samples.len() == 0 {
        0
    } else {
        let before = loudest(samples.drop_last());
        if loudness(samples.last()) > before {
            loudness(samples.last())
        } else {
            before
        }
    }
}

/// The samples of the level at `index`.
pub open spec fn level_window(samples: Seq<i16>, index: int) -> Seq<i16> {
    samples.subrange(index * LEVEL_WINDOW, (index + 1) * LEVEL_WINDOW)
}

/// What the microphone has brought so far.
#[derive(Debug)]
pub struct Capture {
    pub samples: Vec<i16>,
    /// The loudest sample of each window of 10 ms.
    pub envelope: Vec<u16>,
    pub peak: Single,
    pub speech_detected: bool,
    /// Up to where the samples were handed to the live transcription.
    pub streamed_upto: usize,
}

/// A recording that is over.
#[derive(Debug)]
pub struct Recording {
    pub samples: Vec<i16>,
    pub peak: Single,
    pub speech_detected: bool,
    pub device_name: String,
}

fn magnitude(sample: i16) -> (out: u16)
    ensures
        out == loudness(sample),
{
    if sample < 0 {
        (-(sample as i32)) as u16
    } else {
        sample as u16
    }
}

impl Capture {
    /// There is one level for each full window, it is the loudest sample of that
    /// window, and no more was handed on than came in.
    pub open spec fn wf(self) -> bool {
        &&& self.envelope@.len() == self.samples@.len() as int / LEVEL_WINDOW as int
        &&& forall|i: int|
            0 <= i < self.envelope@.len() ==> #[trigger] self.envelope@[i] == loudest(
                level_window(self.samples@, i),
            )
        &&& self.streamed_upto <= self.samples@.len()
    }

    /// What was not handed on yet.
    pub open spec fn pending(self) -> Seq<i16> {
        self.samples@.skip(self.streamed_upto as int)
    }

    /// The levels of the last `count` windows, silence where there are fewer.
    pub open spec fn last_levels(self, count: nat) -> Seq<u16> {
        Seq::new(
            count,
            |i: int|
                {
                    let at = self.envelope@.len() - count + i;
                    if at < 0 {
                        0u16
                    } else {
                        self.envelope@[at]
                    }
                },
        )
    }

    /// Nothing yet.
    pub fn new() -> (buffer: Capture)
        ensures
            buffer.wf(),
            buffer.samples@.len() == 0,
            buffer.peak.bits == 0,
            !buffer.speech_detected,
            buffer.streamed_upto == 0,
    {
        Capture {
            samples: Vec::new(),
            envelope: Vec::new(),
            peak: Single { bits: 0 },
            speech_detected: false,
            streamed_upto: 0,
        }
    }

    /// One more sample, with the magnitude that it had before it was rounded.
    pub fn push_sample(&mut self, magnitude_before: Single, sample: i16)
        requires
            old(self).wf(),
        ensures
            final(self).wf(),
            final(self).samples@ == old(self).samples@.push(sample),
            final(self).peak == if old(self).peak.below(magnitude_before) {
                magnitude_before
            } else {
                old(self).peak
            },
            final(self).speech_detected == (old(self).speech_detected || (Single {
                bits: 0x3d75_c28f,
            }).below(magnitude_before)),
            final(self).streamed_upto == old(self).streamed_upto,
            final(self).envelope@.len() == (old(self).samples@.len() + 1) / 160,
            final(self).envelope@.take(old(self).envelope@.len() as int)
                == old(self).envelope@,
    {
        if self.peak.less(magnitude_before) {
            self.peak = magnitude_before;
        }
        if (Single { bits: SPEECH_THRESHOLD }).less(magnitude_before) {
            self.speech_detected = true;
        }
        let ghost before = self.samples@;
        let ghost levels = self.envelope@;
        self.samples.push(sample);
        proof {
            assert forall|i: int| 0 <= i < levels.len() implies #[trigger] levels[i] == loudest(
                level_window(self.samples@, i),
            ) by {
                assert((i + 1) * LEVEL_WINDOW <= before.len());
                assert(level_window(self.samples@, i) =~= level_window(before, i));
            }
        }
        if self.samples.len() % LEVEL_WINDOW == 0 {
            let start: usize = self.samples.len() - LEVEL_WINDOW;
            let mut top: u16 = 0;
            let mut i: usize = start;
            while i < self.samples.len()
                invariant
                    start <= i <= self.samples.len(),
                    start + LEVEL_WINDOW == self.samples.len(),
                    top == loudest(self.samples@.subrange(start as int, i as int)),
                decreases self.samples.len() - i,
            {
                let here = magnitude(self.samples[i]);
                proof {
                    let longer = self.samples@.subrange(start as int, i + 1);
                    assert(longer.drop_last() =~= self.samples@.subrange(start as int, i as int));
                }
                if here > top {
                    top = here;
                }
                i = i + 1;
            }
            self.envelope.push(top);
            proof {
                let n = self.samples@.len() as int;
                assert(levels.len() * LEVEL_WINDOW == start);
                assert(level_window(self.samples@, levels.len() as int) =~= self.samples@.subrange(
                    start as int,
                    n,
                ));
            }
        }
    }

    /// The levels of the last `bar_count` windows, silence where there are fewer:
    /// the wave does not change its width.
    pub fn levels(&self, bar_count: usize) -> (bars: Vec<u16>)
        ensures
            bars@ == self.last_levels(bar_count as nat),
    {
        let known: usize = self.envelope.len();
        let mut bars: Vec<u16> = Vec::new();
        let mut i: usize = 0;
        while i < bar_count
            invariant
                i <= bar_count,
                known == self.envelope@.len(),
                bars@ == self.last_levels(bar_count as nat).take(i as int),
            decreases bar_count - i,
        {
            let left: usize = bar_count - i;
            let ghost all = self.last_levels(bar_count as nat);
            if left > known {
                bars.push(0);
            } else {
                bars.push(self.envelope[known - left]);
            }
            i = i + 1;
            proof {
                assert(bars@ =~= all.take(i as int));
            }
        }
        proof {
            let all = self.last_levels(bar_count as nat);
            assert(all.take(all.len() as int) =~= all);
        }
        bars
    }

    /// The samples that came since the last call. Nothing is consumed: the whole
    /// is still needed when the recording ends.
    pub fn drain_new_samples(&mut self) -> (fresh: Vec<i16>)
        requires
            old(self).wf(),
        ensures
            final(self).wf(),
            fresh@ == old(self).pending(),
            final(self).pending().len() == 0,
            final(self).streamed_upto == old(self).samples@.len(),
            final(self).samples == old(self).samples,
            final(self).envelope == old(self).envelope,
            final(self).peak == old(self).peak,
            final(self).speech_detected == old(self).speech_detected,
    {
        let mut fresh: Vec<i16> = Vec::new();
        let total: usize = self.samples.len();
        let start: usize = self.streamed_upto;
        let mut i: usize = start;
        while i < total
            invariant
                start <= i <= total,
                total == self.samples@.len(),
                fresh@ == self.samples@.subrange(start as int, i as int),
            decreases total - i,
        {
            fresh.push(self.samples[i]);
            i = i + 1;
        }
        proof {
            assert(self.samples@.subrange(start as int, total as int) =~= self.samples@.skip(
                start as int,
            ));
        }
        self.streamed_upto = total;
        fresh
    }

    /// Ends the recording.
    pub fn finish(self, device_name: String) -> (recording: Recording)
        ensures
            recording.samples == self.samples,
            recording.peak == self.peak,
            recording.speech_detected == self.speech_detected,
            recording.device_name == device_name,
    {
        Recording {
            samples: self.samples,
            peak: self.peak,
            speech_detected: self.speech_detected,
            device_name,
        }
    }
}

/// However a recording is handed on piece by piece, the pieces are its samples in
/// order, none lost and none twice: what a call hands on continues what was handed
/// on before, whatever came in between.
pub proof fn law_pieces_make_the_recording(before: Capture, came: Seq<i16>)
    requires
        before.wf(),
    ensures
        before.samples@.take(before.streamed_upto as int) + before.pending() == before.samples@,
        before.samples@.take(before.streamed_upto as int) + (before.samples@ + came).skip(
            before.streamed_upto as int,
        ) == before.samples@ + came,
{
    let upto = before.streamed_upto as int;
    assert(before.samples@.take(upto) + before.pending() =~= before.samples@);
    assert(before.samples@.take(upto) + (before.samples@ + came).skip(upto) =~= before.samples@
        + came);
}

// ------------------------------------------------------------------- the file

/// A number of two bytes, the lower one first.
pub open spec fn two_bytes(n: int) -> Seq<u8> {
    seq![(n % 256) as u8, ((n / 256) % 256) as u8]
}

/// A number of four bytes, the lower ones first.
pub open spec fn four_bytes(n: int) -> Seq<u8> {
    seq![
        (n % 256) as u8,
        ((n / 256) % 256) as u8,
        ((n / 65536) % 256) as u8,
        ((n / 16777216) % 256) as u8,
    ]
}

/// A sample as an unsigned number of 16 bits.
pub open spec fn unsigned(sample: i16) -> int {
    if sample < 0 {
        sample + 65536
    } else {
        sample as int
    }
}

/// The samples as bytes, the lower one of each first.
pub open spec fn sample_bytes(samples: Seq<i16>) -> Seq<u8>
    decreases samples.len(),
{
    if samples.len() == 0 {
        Seq::empty()
    } else {
        sample_bytes(samples.drop_last()) + two_bytes(unsigned(samples.last()))
    }
}

/// How many bytes of samples the file says that it holds: as many as it does,
/// as far as 32 bits can say it.
pub open spec fn announced(samples: Seq<i16>) -> int {
    (2 * samples.len() as int) % 0x1_0000_0000
}

/// The head of a file of samples: one channel, 16 kHz, 16 bits, not compressed.
pub open spec fn wav_head(samples: Seq<i16>) -> Seq<u8> {
    seq![0x52u8, 0x49u8, 0x46u8, 0x46u8] + four_bytes(36 + announced(samples)) + seq![
        0x57u8,
        0x41u8,
        0x56u8,
        0x45u8,
        0x66u8,
        0x6du8,
        0x74u8,
        0x20u8,
    ] + four_bytes(16) + two_bytes(1) + two_bytes(TARGET_CHANNELS as int) + four_bytes(
        TARGET_RATE as int,
    ) + four_bytes(32_000) + two_bytes(2) + two_bytes(16) + seq![0x64u8, 0x61u8, 0x74u8, 0x61u8]
        + four_bytes(announced(samples))
}

/// The samples as a file.
pub open spec fn wav_file(samples: Seq<i16>) -> Seq<u8> {
    wav_head(samples) + sample_bytes(samples)
}

fn push_two(out: &mut Vec<u8>, n: u16)
    ensures
        final(out)@ == old(out)@ + two_bytes(n as int),
{
    out.push((n % 256) as u8);
    out.push(((n / 256) % 256) as u8);
    proof {
        assert(out@ =~= old(out)@ + two_bytes(n as int));
    }
}

fn push_four(out: &mut Vec<u8>, n: u32)
    ensures
        final(out)@ == old(out)@ + four_bytes(n as int),
{
    out.push((n % 256) as u8);
    out.push(((n / 256) % 256) as u8);
    out.push(((n / 65536) % 256) as u8);
    out.push(((n / 16777216) % 256) as u8);
    proof {
        assert(out@ =~= old(out)@ + four_bytes(n as int));
    }
}

fn push_samples_bytes(out: &mut Vec<u8>, samples: &[i16])
    ensures
        final(out)@ == old(out)@ + sample_bytes(samples@),
{
    let ghost start = out@;
    let mut i: usize = 0;
    proof {
        assert(start + sample_bytes(samples@.take(0)) =~= start);
    }
    while i < samples.len()
        invariant
            i <= samples.len(),
            start == old(out)@,
            out@ == start + sample_bytes(samples@.take(i as int)),
        decreases samples.len() - i,
    {
        let sample = samples[i];
        let n: u16 = if sample < 0 {
            (sample as i32 + 65536) as u16
        } else {
            sample as u16
        };
        proof {
            assert(samples@.take(i + 1).drop_last() =~= samples@.take(i as int));
        }
        push_two(out, n);
        proof {
            assert(out@ =~= start + sample_bytes(samples@.take(i + 1)));
        }
        i = i + 1;
    }
    proof {
        assert(samples@.take(samples@.len() as int) =~= samples@);
    }
}

/// The samples as bytes, the lower one of each first.
pub fn bytes_of_samples(samples: &[i16]) -> (out: Vec<u8>)
    ensures
        out@ == sample_bytes(samples@),
{
    let mut out: Vec<u8> = Vec::new();
    push_samples_bytes(&mut out, samples);
    proof {
        assert(Seq::<u8>::empty() + sample_bytes(samples@) =~= sample_bytes(samples@));
    }
    out
}

impl Recording {
    /// Does the recording last less than a quarter of a second?
    pub open spec fn is_short(self) -> bool {
        self.samples@.len() * 4 < TARGET_RATE
    }

    /// Does the recording last less than a quarter of a second?
    pub fn too_short(&self) -> (short: bool)
        ensures
            short == self.is_short(),
            short <==> self.samples@.len() < 4_000,
    {
        self.samples.len() < 4_000
    }

    /// Packs the samples as the file that the service takes.
    pub fn to_wav(&self) -> (out: Vec<u8>)
        requires
            2 * self.samples@.len() <= usize::MAX,
            announced(self.samples@) + 36 <= u32::MAX,
        ensures
            out@ == wav_file(self.samples@),
    {
        let total: usize = self.samples.len() * 2;
        let data_len: u32 = (total as u64 % 0x1_0000_0000) as u32;
        let mut out: Vec<u8> = vec![0x52, 0x49, 0x46, 0x46];
        push_four(&mut out, 36 + data_len);
        let format: Vec<u8> = vec![0x57, 0x41, 0x56, 0x45, 0x66, 0x6d, 0x74, 0x20];
        out.extend_from_slice(format.as_slice());
        push_four(&mut out, 16);
        push_two(&mut out, 1);
        push_two(&mut out, TARGET_CHANNELS);
        push_four(&mut out, TARGET_RATE);
        push_four(&mut out, 32_000);
        push_two(&mut out, 2);
        push_two(&mut out, 16);
        let data: Vec<u8> = vec![0x64, 0x61, 0x74, 0x61];
        out.extend_from_slice(data.as_slice());
        push_four(&mut out, data_len);
        proof {
            assert(out@ =~= wav_head(self.samples@));
        }
        push_samples_bytes(&mut out, self.samples.as_slice());
        out
    }
}

/// The number that two bytes write, the lower one first, with its sign.
pub open spec fn signed_of(low: u8, high: u8) -> int {
    let n = low as int + 256 * high as int;
    if n >= 32768 {
        n - 65536
    } else {
        n
    }
}

proof fn lemma_sample_bytes(samples: Seq<i16>)
    ensures
        sample_bytes(samples).len() == 2 * samples.len(),
        forall|i: int|
            0 <= i < samples.len() ==> #[trigger] samples[i] == signed_of(
                sample_bytes(samples)[2 * i],
                sample_bytes(samples)[2 * i + 1],
            ),
    decreases samples.len(),
{
    if samples.len() > 0 {
        let front = samples.drop_last();
        lemma_sample_bytes(front);
        let bytes = sample_bytes(samples);
        assert forall|i: int| 0 <= i < samples.len() implies #[trigger] samples[i] == signed_of(
            bytes[2 * i],
            bytes[2 * i + 1],
        ) by {
            if i < front.len() {
                assert(samples[i] == front[i]);
                assert(bytes[2 * i] == sample_bytes(front)[2 * i]);
                assert(bytes[2 * i + 1] == sample_bytes(front)[2 * i + 1]);
            } else {
                let n = unsigned(samples.last());
                assert(bytes[2 * i] == two_bytes(n)[0]);
                assert(bytes[2 * i + 1] == two_bytes(n)[1]);
                assert(n / 256 % 256 == n / 256);
                assert(n == n % 256 + 256 * (n / 256));
            }
        }
    }
}

/// The file holds the recording: after a head of 44 bytes come the samples, two
/// bytes each, and every one of them can be read back.
pub proof fn law_wav_holds_the_samples(samples: Seq<i16>)
    ensures
        wav_file(samples).len() == 44 + 2 * samples.len(),
        forall|i: int|
            0 <= i < samples.len() ==> #[trigger] samples[i] == signed_of(
                wav_file(samples)[44 + 2 * i],
                wav_file(samples)[45 + 2 * i],
            ),
{
    lemma_sample_bytes(samples);
    let head = wav_head(samples);
    assert(head.len() == 44);
    let file = wav_file(samples);
    assert forall|i: int| 0 <= i < samples.len() implies #[trigger] samples[i] == signed_of(
        file[44 + 2 * i],
        file[45 + 2 * i],
    ) by {
        assert(file[44 + 2 * i] == sample_bytes(samples)[2 * i]);
        assert(file[45 + 2 * i] == sample_bytes(samples)[2 * i + 1]);
    }
}

/// The number that four bytes of a file write, the lower ones first.
pub open spec fn number_at(file: Seq<u8>, at: int) -> int {
    file[at] as int + 256 * (file[at + 1] as int) + 65536 * (file[at + 2] as int) + 16777216 * (file[at
        + 3] as int)
}

/// The number that two bytes of a file write, the lower one first.
pub open spec fn half_at(file: Seq<u8>, at: int) -> int {
    file[at] as int + 256 * (file[at + 1] as int)
}

proof fn lemma_four_bytes(n: int)
    requires
        0 <= n < 0x1_0000_0000,
    ensures
        number_at(four_bytes(n), 0) == n,
{
    assert(n == n % 256 + 256 * (n / 256));
    assert(n / 256 == (n / 256) % 256 + 256 * ((n / 256) / 256));
    assert((n / 256) / 256 == n / 65536);
    assert(n / 65536 == (n / 65536) % 256 + 256 * ((n / 65536) / 256));
    assert((n / 65536) / 256 == n / 16777216);
    assert((n / 16777216) % 256 == n / 16777216);
}

/// What the file says of itself is true: the two sizes in it are those of what
/// follows them, to the end of the file, and it is sound of one channel, 16000
/// samples a second of 16 bits, not compressed.
pub proof fn law_wav_tells_the_truth(samples: Seq<i16>)
    requires
        samples.len() < 0x7fff_ffee,
    ensures
        wav_file(samples).len() == 44 + 2 * samples.len(),
        number_at(wav_file(samples), 40) == wav_file(samples).len() - 44,
        number_at(wav_file(samples), 40) == 2 * samples.len(),
        number_at(wav_file(samples), 4) == wav_file(samples).len() - 8,
        wav_file(samples).subrange(0, 4) == seq![0x52u8, 0x49u8, 0x46u8, 0x46u8],
        wav_file(samples).subrange(8, 16) == seq![
            0x57u8,
            0x41u8,
            0x56u8,
            0x45u8,
            0x66u8,
            0x6du8,
            0x74u8,
            0x20u8,
        ],
        number_at(wav_file(samples), 16) == 16,
        half_at(wav_file(samples), 20) == 1,
        half_at(wav_file(samples), 22) == 1,
        number_at(wav_file(samples), 24) == 16000,
        half_at(wav_file(samples), 34) == 16,
        8 * half_at(wav_file(samples), 32) == half_at(wav_file(samples), 22) * half_at(
            wav_file(samples),
            34,
        ),
        number_at(wav_file(samples), 28) == number_at(wav_file(samples), 24) * half_at(
            wav_file(samples),
            32,
        ),
        wav_file(samples).subrange(36, 40) == seq![0x64u8, 0x61u8, 0x74u8, 0x61u8],
{
    law_wav_holds_the_samples(samples);
    let file = wav_file(samples);
    let size = 2 * samples.len() as int;
    assert(announced(samples) == size);
    lemma_four_bytes(size);
    lemma_four_bytes(36 + size);
    lemma_four_bytes(16);
    lemma_four_bytes(16000);
    lemma_four_bytes(32000);
    let head = wav_head(samples);
    assert(head.len() == 44);
    assert(file.subrange(40, 44) =~= four_bytes(size));
    assert(file.subrange(4, 8) =~= four_bytes(36 + size));
    assert(file.subrange(16, 20) =~= four_bytes(16));
    assert(file.subrange(24, 28) =~= four_bytes(16000));
    assert(file.subrange(28, 32) =~= four_bytes(32000));
    assert(number_at(file, 40) == number_at(file.subrange(40, 44), 0));
    assert(number_at(file, 4) == number_at(file.subrange(4, 8), 0));
    assert(number_at(file, 16) == number_at(file.subrange(16, 20), 0));
    assert(number_at(file, 24) == number_at(file.subrange(24, 28), 0));
    assert(number_at(file, 28) == number_at(file.subrange(28, 32), 0));
    assert(file.subrange(0, 4) =~= seq![0x52u8, 0x49u8, 0x46u8, 0x46u8]);
    assert(file.subrange(8, 16) =~= seq![
        0x57u8,
        0x41u8,
        0x56u8,
        0x45u8,
        0x66u8,
        0x6du8,
        0x74u8,
        0x20u8,
    ]);
    assert(file.subrange(36, 40) =~= seq![0x64u8, 0x61u8, 0x74u8, 0x61u8]);
    assert(half_at(file, 20) == 1);
    assert(half_at(file, 22) == 1);
    assert(half_at(file, 32) == 2);
    assert(half_at(file, 34) == 16);
}

proof fn lemma_loudest(samples: Seq<i16>)
    ensures
        forall|i: int|
            0 <= i < samples.len() ==> (#[trigger] samples[i]) <= loudest(samples) && -(samples[i])
                <= loudest(samples),
        samples.len() > 0 ==> exists|i: int|
            0 <= i < samples.len() && ((#[trigger] samples[i]) == loudest(samples) || -(samples[i])
                == loudest(samples)),
        samples.len() == 0 ==> loudest(samples) == 0,
    decreases samples.len(),
{
    if samples.len() > 0 {
        let front = samples.drop_last();
        let top = loudest(samples);
        lemma_loudest(front);
        assert forall|i: int| 0 <= i < samples.len() implies (#[trigger] samples[i]) <= top
            && -(samples[i]) <= top by {
            if i < front.len() {
                assert(front[i] == samples[i]);
            }
        }
        if loudness(samples.last()) > loudest(front) || front.len() == 0 {
            let i = samples.len() - 1;
            assert(samples[i] == top || -(samples[i]) == top);
        } else {
            let i = choose|i: int|
                0 <= i < front.len() && ((#[trigger] front[i]) == loudest(front) || -(front[i])
                    == loudest(front));
            assert(samples[i] == front[i]);
        }
    }
}

/// Each level is the height of the wave in its 10 ms: no sample of those 160 is
/// farther from silence, and one is as far.
pub proof fn law_levels_are_the_peaks(capture: Capture, level: int)
    requires
        capture.wf(),
        0 <= level < capture.envelope@.len(),
    ensures
        160 * capture.envelope@.len() <= capture.samples@.len() < 160 * (capture.envelope@.len()
            + 1),
        forall|i: int|
            160 * level <= i < 160 * level + 160 ==> -capture.envelope@[level] <= (
            #[trigger] capture.samples@[i]) <= capture.envelope@[level],
        exists|i: int|
            160 * level <= i < 160 * level + 160 && ((#[trigger] capture.samples@[i])
                == capture.envelope@[level] || capture.samples@[i] == -capture.envelope@[level]),
{
    let window = level_window(capture.samples@, level);
    assert((level + 1) * 160 <= capture.samples@.len());
    assert(window.len() == 160);
    assert(capture.envelope@[level] == loudest(window));
    lemma_loudest(window);
    assert forall|i: int| 160 * level <= i < 160 * level + 160 implies -capture.envelope@[level]
        <= (#[trigger] capture.samples@[i]) <= capture.envelope@[level] by {
        assert(window[i - 160 * level] == capture.samples@[i]);
    }
    let k = choose|k: int|
        0 <= k < window.len() && ((#[trigger] window[k]) == loudest(window) || -(window[k])
            == loudest(window));
    assert(window[k] == capture.samples@[160 * level + k]);
}

/// The wave is the end of what was heard, with silence before it where less was
/// heard than the wave is wide.
pub proof fn law_wave_is_the_end(capture: Capture, count: nat)
    ensures
        capture.last_levels(count).len() == count,
        count <= capture.envelope@.len() ==> capture.last_levels(count) == capture.envelope@.skip(
            capture.envelope@.len() - count,
        ),
        count > capture.envelope@.len() ==> capture.last_levels(count) == Seq::new(
            (count - capture.envelope@.len()) as nat,
            |i: int| 0u16,
        ) + capture.envelope@,
{
    let shown = capture.last_levels(count);
    if count <= capture.envelope@.len() {
        assert(shown =~= capture.envelope@.skip(capture.envelope@.len() - count));
    } else {
        assert(shown =~= Seq::new(
            (count - capture.envelope@.len()) as nat,
            |i: int| 0u16,
        ) + capture.envelope@);
    }
}

// ------------------------------------------------------------ the microphones

/// A microphone, as the panel lists it.
#[derive(Debug)]
pub struct InputDevice {
    pub id: String,
    pub name: String,
    pub is_default: bool,
}

/// A microphone as the system knows it: an identifier that stays, and the name
/// that it has at the moment.
#[derive(Debug)]
pub struct Endpoint {
    pub id: String,
    pub name: String,
}

/// The entries of the list: the name of each microphone that tells one, and
/// whether it is the one that the system prefers.
pub open spec fn listed(names: Seq<Option<Seq<char>>>, preferred: Option<Seq<char>>) -> Seq<
    (Seq<char>, bool),
>
    decreases names.len(),
{
    if names.len() == 0 {
        Seq::empty()
    } else {
        match names.last() {
            Some(name) => listed(names.drop_last(), preferred).push(
                (name, preferred == Some(name)),
            ),
            None => listed(names.drop_last(), preferred),
        }
    }
}

/// What a list of optional names reads as.
pub open spec fn names_view(names: Seq<Option<String>>) -> Seq<Option<Seq<char>>> {
    names.map_values(|name: Option<String>| optional(name))
}

/// What a list of microphones reads as.
pub open spec fn devices_view(devices: Seq<InputDevice>) -> Seq<(Seq<char>, bool)> {
    devices.map_values(|device: InputDevice| (device.name@, device.is_default))
}

/// The microphones that can be chosen, from the names that the system tells. The
/// name serves as the identifier.
pub fn list_input_devices(names: &Vec<Option<String>>, default_name: &Option<String>) -> (devices:
    Vec<InputDevice>)
    ensures
        devices_view(devices@) == listed(names_view(names@), optional(*default_name)),
        forall|i: int|
            0 <= i < devices@.len() ==> (#[trigger] devices@[i]).id@ == devices@[i].name@,
{
    let ghost all = names_view(names@);
    let mut devices: Vec<InputDevice> = Vec::new();
    let mut i: usize = 0;
    while i < names.len()
        invariant
            i <= names.len(),
            all == names_view(names@),
            devices_view(devices@) == listed(all.take(i as int), optional(*default_name)),
            forall|k: int|
                0 <= k < devices@.len() ==> (#[trigger] devices@[k]).id@ == devices@[k].name@,
        decreases names.len() - i,
    {
        proof {
            assert(all.take(i + 1).drop_last() =~= all.take(i as int));
        }
        let ghost before = devices_view(devices@);
        match &names[i] {
            Some(name) => {
                let is_default = match default_name {
                    Some(other) => same_text(name.as_str(), other.as_str()),
                    None => false,
                };
                devices.push(
                    InputDevice {
                        id: copy_text(name.as_str()),
                        name: copy_text(name.as_str()),
                        is_default,
                    },
                );
                proof {
                    assert(devices_view(devices@) =~= before.push((name@, is_default)));
                }
            },
            None => {},
        }
        i = i + 1;
    }
    proof {
        assert(all.take(all.len() as int) =~= all);
    }
    devices
}

/// Each microphone that tells its name is listed, under that name, and no other is;
/// the one that the system prefers is marked, and none else.
pub proof fn law_microphones_are_listed(
    names: Seq<Option<Seq<char>>>,
    preferred: Option<Seq<char>>,
    name: Seq<char>,
    marked: bool,
)
    ensures
        listed(names, preferred).contains((name, marked)) <==> names.contains(Some(name))
            && marked == (preferred == Some(name)),
        listed(names, preferred).len() <= names.len(),
    decreases names.len(),
{
    if names.len() > 0 {
        let front = names.drop_last();
        let before = listed(front, preferred);
        let all = listed(names, preferred);
        law_microphones_are_listed(front, preferred, name, marked);
        if names.contains(Some(name)) && marked == (preferred == Some(name)) {
            let i = choose|i: int| 0 <= i < names.len() && names[i] == Some(name);
            if i < front.len() {
                assert(front[i] == names[i]);
                let k = choose|k: int| 0 <= k < before.len() && before[k] == (name, marked);
                assert(all[k] == before[k]);
            } else {
                assert(all[all.len() - 1] == (name, marked));
            }
        }
        if all.contains((name, marked)) {
            let k = choose|k: int| 0 <= k < all.len() && all[k] == (name, marked);
            if k < before.len() {
                assert(before[k] == all[k]);
                let i = choose|i: int| 0 <= i < front.len() && front[i] == Some(name);
                assert(names[i] == front[i]);
            } else {
                assert(names[names.len() - 1] == Some(name));
            }
        }
    }
}

/// Which microphone records.
#[derive(Debug, Clone, Copy, PartialEq, Eq, Structural)]
pub enum DeviceChoice {
    /// The one at this place of the list.
    Listed(usize),
    /// The one that the system prefers.
    SystemDefault,
    /// There is none.
    Unavailable,
}

/// Chooses the microphone: the one that the user wants, if it is connected now,
/// else the one that the system prefers. To record with another is better than
/// not to record.
pub fn choose_device(
    wanted: Option<&str>,
    names: &Vec<Option<String>>,
    has_default: bool,
) -> (choice: DeviceChoice)
    ensures
        match choice {
            DeviceChoice::Listed(i) => wanted is Some && i < names@.len() && names_view(
                names@,
            )[i as int] == optional_str(wanted) && forall|k: int|
                0 <= k < i ==> #[trigger] names_view(names@)[k] != optional_str(wanted),
            DeviceChoice::SystemDefault => has_default && (wanted is None || forall|k: int|
                0 <= k < names@.len() ==> #[trigger] names_view(names@)[k] != optional_str(
                    wanted,
                )),
            DeviceChoice::Unavailable => !has_default && (wanted is None || forall|k: int|
                0 <= k < names@.len() ==> #[trigger] names_view(names@)[k] != optional_str(
                    wanted,
                )),
        },
{
    if let Some(name) = wanted {
        let mut i: usize = 0;
        while i < names.len()
            invariant
                i <= names.len(),
                wanted == Some(name),
                forall|k: int| 0 <= k < i ==> #[trigger] names_view(names@)[k] != Some(name@),
            decreases names.len() - i,
        {
            let found = match &names[i] {
                Some(other) => same_text(other.as_str(), name),
                None => false,
            };
            proof {
                assert(names_view(names@)[i as int] == optional(names@[i as int]));
            }
            if found {
                return DeviceChoice::Listed(i);
            }
            i = i + 1;
        }
    }
    if has_default {
        DeviceChoice::SystemDefault
    } else {
        DeviceChoice::Unavailable
    }
}

/// Where the sound comes from, in words.
pub fn source_description(device_name: &str, source_rate: u32, source_channels: u16) -> (text:
    String)
    ensures
        text@ == device_name@ + " ("@ + decimal(source_rate as nat) + " Hz, "@ + decimal(
            source_channels as nat,
        ) + " ch)"@,
{
    let mut text = copy_text(device_name);
    text.append(" (");
    text.append(decimal_text(source_rate as u64).as_str());
    text.append(" Hz, ");
    text.append(decimal_text(source_channels as u64).as_str());
    text.append(" ch)");
    text
}

} // verus!
