//! Recorded audio: WAV encoding, mixing down to mono, and duration.

use vstd::prelude::*;

use crate::resample::split_frames;

verus! {

/// One recording: interleaved samples with their rate and channel count.
#[derive(Debug, Clone)]
pub struct Capture {
    pub samples: Vec<i16>,
    pub rate: u32,
    pub channels: u16,
}

/// The two bytes of `x` modulo 2^16, low byte first.
pub open spec fn le16(x: int) -> Seq<u8> {
    seq![(x % 256) as u8, ((x / 256) % 256) as u8]
}

/// The four bytes of `x` modulo 2^32, low byte first.
pub open spec fn le32(x: int) -> Seq<u8> {
    seq![
        (x % 256) as u8,
        ((x / 256) % 256) as u8,
        ((x / 65536) % 256) as u8,
        ((x / 16777216) % 256) as u8,
    ]
}

/// Samples as bytes, two for each, low byte first.
pub open spec fn sample_bytes(samples: Seq<i16>) -> Seq<u8>
    decreases samples.len(),
{
    if samples.len() == 0 {
        Seq::empty()
    } else {
        sample_bytes(samples.drop_last()) + le16(samples.last() as int)
    }
}

/// The header of a 16-bit PCM WAV file with `data_len` bytes of samples.
pub open spec fn wav_header(data_len: int, rate: u32, channels: u16) -> Seq<u8> {
    seq![82u8, 73u8, 70u8, 70u8]  // RIFF
     + le32(36 + data_len % 0x1_0000_0000)
         + seq![87u8, 65u8, 86u8, 69u8, 102u8, 109u8, 116u8, 32u8]  // WAVEfmt
     + le32(16) + le16(1) + le16(channels as int) + le32(rate as int) + le32(rate * channels * 2)
        + le16(channels * 2) + le16(16) + seq![100u8, 97u8, 116u8, 97u8]  // data
     + le32(data_len % 0x1_0000_0000)
}

fn push_le16(out: &mut Vec<u8>, x: u16)
    ensures
        final(out)@ == old(out)@ + le16(x as int),
{
    out.push((x % 256) as u8);
    out.push((x / 256) as u8);
    assert(out@ =~= old(out)@ + le16(x as int));
}

fn push_le32(out: &mut Vec<u8>, x: u32)
    ensures
        final(out)@ == old(out)@ + le32(x as int),
{
    out.push((x % 256) as u8);
    out.push(((x / 256) % 256) as u8);
    out.push(((x / 65536) % 256) as u8);
    out.push((x / 16777216) as u8);
    assert(out@ =~= old(out)@ + le32(x as int));
}

fn push_bytes(out: &mut Vec<u8>, bytes: &[u8])
    ensures
        final(out)@ == old(out)@ + bytes@,
{
    let ghost start = out@;
    for i in 0..bytes.len()
        invariant
            out@ == start + bytes@.take(i as int),
    {
        out.push(bytes[i]);
        assert(bytes@.take(i + 1) =~= bytes@.take(i as int).push(bytes@[i as int]));
    }
    assert(bytes@.take(bytes@.len() as int) =~= bytes@);
}

/// A signed sample as the unsigned number with the same two bytes.
fn unsigned(s: i16) -> (u: u16)
    ensures
        u as int == s as int % 65536,
{
    if s >= 0 {
        s as u16
    } else {
        (s as i32 + 65536) as u16
    }
}

/// A 16-bit PCM WAV file with the samples. The sizes in the header are those of
/// the format, modulo 2^32.
pub fn encode_wav(samples: &[i16], rate: u32, channels: u16) -> (out: Vec<u8>)
    requires
        samples@.len() * 2 + 44 <= usize::MAX,
        36 + (samples@.len() * 2) % 0x1_0000_0000 <= u32::MAX,
        rate * channels * 2 <= u32::MAX,
        channels * 2 <= u16::MAX,
    ensures
        out@ == wav_header((samples@.len() * 2) as int, rate, channels) + sample_bytes(samples@),
{
    let len = samples.len() * 2;
    let len32: u32 = (len as u64 % 0x1_0000_0000) as u32;
    let mut out: Vec<u8> = Vec::new();
    push_bytes(&mut out, &[82, 73, 70, 70]);
    push_le32(&mut out, 36 + len32);
    push_bytes(&mut out, &[87, 65, 86, 69, 102, 109, 116, 32]);
    push_le32(&mut out, 16);
    push_le16(&mut out, 1);
    push_le16(&mut out, channels);
    push_le32(&mut out, rate);
    assert(rate * (channels as u32) <= u32::MAX);
    push_le32(&mut out, rate * channels as u32 * 2);
    push_le16(&mut out, channels * 2);
    push_le16(&mut out, 16);
    push_bytes(&mut out, &[100, 97, 116, 97]);
    push_le32(&mut out, len32);
    let ghost header = out@;
    proof {
        assert(header =~= wav_header((samples@.len() * 2) as int, rate, channels));
        assert(header + sample_bytes(samples@.take(0)) =~= header);
    }
    for i in 0..samples.len()
        invariant
            out@ == header + sample_bytes(samples@.take(i as int)),
    {
        push_le16(&mut out, unsigned(samples[i]));
        proof {
            let s = samples@[i as int] as int;
            assert(le16(s % 65536) =~= le16(s));
            assert(samples@.take(i + 1).drop_last() =~= samples@.take(i as int));
            assert(out@ =~= header + (sample_bytes(samples@.take(i as int)) + le16(s)));
        }
    }
    assert(samples@.take(samples@.len() as int) =~= samples@);
    out
}

/// The number in two bytes at `at`, low byte first.
pub open spec fn read_le16(b: Seq<u8>, at: int) -> int {
    b[at] + 256 * b[at + 1]
}

/// The number in four bytes at `at`, low byte first.
pub open spec fn read_le32(b: Seq<u8>, at: int) -> int {
    b[at] + 256 * b[at + 1] + 65536 * b[at + 2] + 16777216 * b[at + 3]
}

/// The signed number in two bytes at `at`.
pub open spec fn read_sample(b: Seq<u8>, at: int) -> int {
    if read_le16(b, at) < 32768 {
        read_le16(b, at)
    } else {
        read_le16(b, at) - 65536
    }
}

proof fn lemma_sample_bytes(samples: Seq<i16>, i: int)
    requires
        0 <= i < samples.len(),
    ensures
        sample_bytes(samples).len() == 2 * samples.len(),
        read_sample(sample_bytes(samples), 2 * i) == samples[i],
    decreases samples.len(),
{
    let init = samples.drop_last();
    let bytes = sample_bytes(samples);
    if init.len() > 0 {
        lemma_sample_bytes(init, if i < init.len() {
            i
        } else {
            0
        });
    }
    let last = le16(samples.last() as int);
    assert(bytes == sample_bytes(init) + last);
    if i < init.len() {
        assert(bytes[2 * i] == sample_bytes(init)[2 * i]);
        assert(bytes[2 * i + 1] == sample_bytes(init)[2 * i + 1]);
    } else {
        assert(bytes[2 * i] == last[0]);
        assert(bytes[2 * i + 1] == last[1]);
    }
}

/// Where the parts of a header stand in it.
proof fn lemma_header_layout(
    riff: Seq<u8>,
    size: Seq<u8>,
    wave: Seq<u8>,
    block: Seq<u8>,
    pcm: Seq<u8>,
    channels: Seq<u8>,
    rate: Seq<u8>,
    speed: Seq<u8>,
    frame: Seq<u8>,
    bits: Seq<u8>,
    data: Seq<u8>,
    len: Seq<u8>,
)
    requires
        riff.len() == 4,
        size.len() == 4,
        wave.len() == 8,
        block.len() == 4,
        pcm.len() == 2,
        channels.len() == 2,
        rate.len() == 4,
        speed.len() == 4,
        frame.len() == 2,
        bits.len() == 2,
        data.len() == 4,
        len.len() == 4,
    ensures
        ({
            let h = riff + size + wave + block + pcm + channels + rate + speed + frame + bits + data
                + len;
            &&& h.len() == 44
            &&& h.subrange(0, 4) == riff
            &&& h.subrange(4, 8) == size
            &&& h.subrange(8, 16) == wave
            &&& h.subrange(16, 20) == block
            &&& h.subrange(20, 22) == pcm
            &&& h.subrange(36, 40) == data
            &&& h.subrange(22, 24) == channels
            &&& h.subrange(24, 28) == rate
            &&& h.subrange(28, 32) == speed
            &&& h.subrange(32, 34) == frame
            &&& h.subrange(34, 36) == bits
            &&& h.subrange(40, 44) == len
        }),
{
}

proof fn lemma_read_le32(b: Seq<u8>, at: int, x: int)
    requires
        0 <= at,
        at + 4 <= b.len(),
        0 <= x <= u32::MAX,
        b.subrange(at, at + 4) == le32(x),
    ensures
        read_le32(b, at) == x,
{
    let part = b.subrange(at, at + 4);
    assert(part[0] == b[at] && part[1] == b[at + 1] && part[2] == b[at + 2] && part[3] == b[at + 3]);
}

proof fn lemma_read_le16(b: Seq<u8>, at: int, x: int)
    requires
        0 <= at,
        at + 2 <= b.len(),
        0 <= x <= u16::MAX,
        b.subrange(at, at + 2) == le16(x),
    ensures
        read_le16(b, at) == x,
{
    let part = b.subrange(at, at + 2);
    assert(part[0] == b[at] && part[1] == b[at + 1]);
}

proof fn lemma_header_reads_back(n: int, rate: u32, channels: u16)
    requires
        0 <= n,
        n + 36 <= u32::MAX,
        rate * channels * 2 <= u32::MAX,
        channels * 2 <= u16::MAX,
    ensures
        ({
            let h = wav_header(n, rate, channels);
            &&& h.len() == 44
            &&& h.subrange(0, 4) == seq![0x52u8, 0x49u8, 0x46u8, 0x46u8]
            &&& read_le32(h, 4) == 36 + n
            &&& h.subrange(8, 12) == seq![0x57u8, 0x41u8, 0x56u8, 0x45u8]
            &&& h.subrange(12, 16) == seq![0x66u8, 0x6du8, 0x74u8, 0x20u8]
            &&& read_le32(h, 16) == 16
            &&& read_le16(h, 20) == 1
            &&& read_le16(h, 22) == channels
            &&& read_le32(h, 24) == rate
            &&& read_le32(h, 28) == rate * channels * 2
            &&& read_le16(h, 32) == channels * 2
            &&& read_le16(h, 34) == 16
            &&& h.subrange(36, 40) == seq![0x64u8, 0x61u8, 0x74u8, 0x61u8]
            &&& read_le32(h, 40) == n
        }),
{
    let h = wav_header(n, rate, channels);
    lemma_header_layout(
        seq![82u8, 73u8, 70u8, 70u8],
        le32(36 + n % 0x1_0000_0000),
        seq![87u8, 65u8, 86u8, 69u8, 102u8, 109u8, 116u8, 32u8],
        le32(16),
        le16(1),
        le16(channels as int),
        le32(rate as int),
        le32(rate * channels * 2),
        le16(channels * 2),
        le16(16),
        seq![100u8, 97u8, 116u8, 97u8],
        le32(n % 0x1_0000_0000),
    );
    assert(n % 0x1_0000_0000 == n);
    assert(h.subrange(8, 12) =~= h.subrange(8, 16).take(4));
    assert(h.subrange(12, 16) =~= h.subrange(8, 16).skip(4));
    assert(h.subrange(8, 12) =~= seq![0x57u8, 0x41u8, 0x56u8, 0x45u8]);
    assert(h.subrange(12, 16) =~= seq![0x66u8, 0x6du8, 0x74u8, 0x20u8]);
    lemma_read_le32(h, 16, 16);
    lemma_read_le16(h, 20, 1);
    lemma_read_le32(h, 4, 36 + n);
    lemma_read_le16(h, 22, channels as int);
    lemma_read_le32(h, 24, rate as int);
    lemma_read_le32(h, 28, rate * channels * 2);
    lemma_read_le16(h, 32, channels * 2);
    lemma_read_le16(h, 34, 16);
    lemma_read_le32(h, 40, n);
}

/// A WAV file reads back: behind the marks "RIFF", "WAVE" and "fmt " stand a
/// format block of 16 bytes, the tag of PCM, the channels, the rate, the bytes per
/// second and per frame, and 16 bits per sample; behind the mark "data" stand the
/// size of the samples and the samples in order.
pub proof fn law_wav_reads_back(samples: Seq<i16>, rate: u32, channels: u16)
    requires
        samples.len() * 2 + 36 <= u32::MAX,
        rate * channels * 2 <= u32::MAX,
        channels * 2 <= u16::MAX,
    ensures
        ({
            let w = wav_header((samples.len() * 2) as int, rate, channels) + sample_bytes(samples);
            &&& w.len() == 44 + 2 * samples.len()
            &&& w.subrange(0, 4) == seq![0x52u8, 0x49u8, 0x46u8, 0x46u8]
            &&& read_le32(w, 4) == w.len() - 8
            &&& w.subrange(8, 12) == seq![0x57u8, 0x41u8, 0x56u8, 0x45u8]
            &&& w.subrange(12, 16) == seq![0x66u8, 0x6du8, 0x74u8, 0x20u8]
            &&& read_le32(w, 16) == 16
            &&& read_le16(w, 20) == 1
            &&& read_le16(w, 22) == channels
            &&& read_le32(w, 24) == rate
            &&& read_le32(w, 28) == rate * channels * 2
            &&& read_le16(w, 32) == channels * 2
            &&& read_le16(w, 34) == 16
            &&& w.subrange(36, 40) == seq![0x64u8, 0x61u8, 0x74u8, 0x61u8]
            &&& read_le32(w, 40) == 2 * samples.len()
            &&& forall|i: int|
                0 <= i < samples.len() ==> read_sample(w, 44 + 2 * i) == #[trigger] samples[i]
        }),
{
    let n = (samples.len() * 2) as int;
    let h = wav_header(n, rate, channels);
    let w = h + sample_bytes(samples);
    if samples.len() > 0 {
        lemma_sample_bytes(samples, 0);
    }
    lemma_header_reads_back(n, rate, channels);
    assert forall|i: int| 0 <= i < 44 implies #[trigger] w[i] == h[i] by {
    }
    assert(w.subrange(0, 4) =~= h.subrange(0, 4));
    assert(w.subrange(8, 12) =~= h.subrange(8, 12));
    assert(w.subrange(12, 16) =~= h.subrange(12, 16));
    assert(w.subrange(36, 40) =~= h.subrange(36, 40));
    assert forall|i: int| 0 <= i < samples.len() implies read_sample(w, 44 + 2 * i)
        == #[trigger] samples[i] by {
        lemma_sample_bytes(samples, i);
        assert(w[44 + 2 * i] == sample_bytes(samples)[2 * i]);
        assert(w[44 + 2 * i + 1] == sample_bytes(samples)[2 * i + 1]);
    }
}

/// The sum of samples.
pub open spec fn total(frame: Seq<i16>) -> int
    decreases frame.len(),
{
    if frame.len() == 0 {
        0
    } else {
        total(frame.drop_last()) + frame.last()
    }
}

fn sum_frame(frame: &Vec<i16>) -> (t: i32)
    requires
        frame@.len() <= u16::MAX,
    ensures
        t == total(frame@),
{
    let mut t: i32 = 0;
    for i in 0..frame.len()
        invariant
            frame@.len() <= u16::MAX,
            t == total(frame@.take(i as int)),
            -32768 * i <= t <= 32767 * i,
    {
        assert(frame@.take(i + 1).drop_last() =~= frame@.take(i as int));
        t = t + frame[i] as i32;
    }
    assert(frame@.take(frame@.len() as int) =~= frame@);
    t
}

/// Mixes down to mono: the sum of each frame, to be divided by the number of
/// channels. No channels count as one.
pub fn downmix_sums(samples: &[i16], channels: u16) -> (r: Vec<i32>)
    ensures
        r@.map_values(|t: i32| t as int) == crate::resample::frames_of(
            samples@,
            crate::resample::frame_width(channels as int),
        ).map_values(|f: Seq<i16>| total(f)),
{
    let width: usize = if channels > 1 {
        channels as usize
    } else {
        1
    };
    let frames = split_frames(samples, width);
    let ghost model = crate::resample::frames_of(samples@, width as int);
    proof {
        crate::resample::law_frames_keep_samples(samples@, width as int);
    }
    let mut r: Vec<i32> = Vec::new();
    for i in 0..frames.len()
        invariant
            width <= u16::MAX,
            crate::resample::rows(frames@) == model,
            forall|k: int| 0 <= k < model.len() ==> (#[trigger] model[k]).len() <= width,
            r@.len() == i,
            forall|k: int| 0 <= k < i ==> #[trigger] r@[k] == total(model[k]),
    {
        assert(crate::resample::rows(frames@)[i as int] == frames@[i as int]@);
        assert(model[i as int].len() <= width);
        let t = sum_frame(&frames[i]);
        r.push(t);
    }
    assert(crate::resample::rows(frames@).len() == frames@.len());
    assert(r@.map_values(|t: i32| t as int) =~= model.map_values(|f: Seq<i16>| total(f)));
    r
}

/// An unsigned sample shifted to the signed range.
pub fn sample_from_u16(s: u16) -> (r: i16)
    ensures
        r == s - 32768,
{
    (s as i32 - 32768) as i16
}

/// Unsigned samples shifted to the signed range.
pub fn samples_from_u16(samples: &[u16]) -> (r: Vec<i16>)
    ensures
        r@.len() == samples@.len(),
        forall|i: int| 0 <= i < samples@.len() ==> #[trigger] r@[i] == samples@[i] - 32768,
{
    let mut r: Vec<i16> = Vec::new();
    for i in 0..samples.len()
        invariant
            r@.len() == i,
            forall|k: int| 0 <= k < i ==> #[trigger] r@[k] == samples@[k] - 32768,
    {
        r.push(sample_from_u16(samples[i]));
    }
    r
}

/// The length of a recording in milliseconds, rounded down.
pub open spec fn duration_ms(samples: int, rate: int, channels: int) -> int {
    samples * 1000 / (rate * crate::resample::frame_width(channels))
}

impl Capture {
    /// The length of the recording in milliseconds, rounded down.
    pub fn duration_ms(&self) -> (ms: u64)
        requires
            self.rate > 0,
            self.samples@.len() * 1000 <= u64::MAX,
        ensures
            ms == duration_ms(self.samples@.len() as int, self.rate as int, self.channels as int),
    {
        let width: u64 = if self.channels > 1 {
            self.channels as u64
        } else {
            1
        };
        assert(0 < self.rate * width <= u64::MAX) by (nonlinear_arith)
            requires
                0 < self.rate <= u32::MAX,
                0 < width <= u16::MAX,
        ;
        self.samples.len() as u64 * 1000 / (self.rate as u64 * width)
    }
}

/// The sum of a frame is the sum of its parts.
pub proof fn law_sums_add_up(a: Seq<i16>, b: Seq<i16>, x: i16)
    ensures
        total(a + b) == total(a) + total(b),
        total(seq![x]) == x,
        total(Seq::<i16>::empty()) == 0,
    decreases b.len(),
{
    reveal_with_fuel(total, 2);
    assert(seq![x].drop_last() =~= Seq::<i16>::empty());
    if b.len() == 0 {
        assert(a + b =~= a);
    } else {
        law_sums_add_up(a, b.drop_last(), x);
        assert((a + b).drop_last() =~= a + b.drop_last());
    }
}

/// The length of a recording is the number of its frames over their rate, in whole
/// milliseconds.
pub proof fn law_duration(samples: int, rate: int, channels: int)
    requires
        0 <= samples,
        0 < rate,
        1 <= channels,
    ensures
        duration_ms(samples, rate, channels) * (rate * channels) <= samples * 1000,
        samples * 1000 < (duration_ms(samples, rate, channels) + 1) * (rate * channels),
        duration_ms(samples, rate, 0) == duration_ms(samples, rate, 1),
{
    let per = rate * channels;
    assert(per > 0) by (nonlinear_arith)
        requires
            0 < rate,
            1 <= channels,
            per == rate * channels,
    ;
    let d = samples * 1000 / per;
    vstd::arithmetic::div_mod::lemma_fundamental_div_mod(samples * 1000, per);
    vstd::arithmetic::div_mod::lemma_mod_bound(samples * 1000, per);
    assert(per * d == d * per) by (nonlinear_arith);
    assert((d + 1) * per == d * per + per) by (nonlinear_arith);
    assert(crate::resample::frame_width(channels) == channels);
}

} // verus!
