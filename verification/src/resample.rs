//! Frame bookkeeping for resampling: which samples go through unchanged, which
//! wait, and which are handed to the resampling engine, channel by channel.

use vstd::prelude::*;

verus! {

/// `s` cut into frames of `width` samples; the last one may be shorter.
pub open spec fn frames_of<T>(s: Seq<T>, width: int) -> Seq<Seq<T>>
    decreases s.len(),
{
    if s.len() == 0 || width <= 0 {
        Seq::empty()
    } else if s.len() <= width {
        seq![s]
    } else {
        seq![s.take(width)] + frames_of(s.skip(width), width)
    }
}

/// The contents of nested vectors.
pub open spec fn rows<T>(v: Seq<Vec<T>>) -> Seq<Seq<T>> {
    v.map_values(|row: Vec<T>| row@)
}

/// The samples of one channel among interleaved ones.
pub open spec fn channel<T>(s: Seq<T>, channels: int, c: int, frames: int) -> Seq<T> {
    Seq::new(frames as nat, |f: int| s[f * channels + c])
}

/// Interleaved samples taken apart by channel.
pub open spec fn deinterleaved<T>(s: Seq<T>, channels: int, frames: int) -> Seq<Seq<T>> {
    Seq::new(channels as nat, |c: int| channel(s, channels, c, frames))
}

/// The samples per frame of audio with the given number of channels.
pub open spec fn frame_width(channels: int) -> int {
    if channels > 1 {
        channels
    } else {
        1
    }
}

/// Cuts samples into frames of `width`.
pub fn split_frames<T: Copy>(samples: &[T], width: usize) -> (r: Vec<Vec<T>>)
    requires
        width > 0,
    ensures
        rows(r@) == frames_of(samples@, width as int),
{
    let mut r: Vec<Vec<T>> = Vec::new();
    let mut pos: usize = 0;
    let n = samples.len();
    assert(samples@.skip(0) =~= samples@);
    assert(rows(r@) + frames_of(samples@, width as int) =~= frames_of(samples@, width as int));
    while pos < n
        invariant
            pos <= n == samples@.len(),
            width > 0,
            rows(r@) + frames_of(samples@.skip(pos as int), width as int) == frames_of(
                samples@,
                width as int,
            ),
        decreases n - pos,
    {
        let end = if n - pos <= width {
            n
        } else {
            pos + width
        };
        let ghost rest = samples@.skip(pos as int);
        let ghost done = rows(r@);
        let frame = copy_range(samples, pos, end);
        let ghost piece = frame@;
        r.push(frame);
        proof {
            assert(rows(r@) =~= done.push(piece));
            if n - pos <= width {
                assert(piece =~= rest);
                assert(samples@.skip(n as int) =~= Seq::<T>::empty());
                assert(rows(r@) + Seq::<Seq<T>>::empty() =~= done + seq![rest]);
            } else {
                assert(piece =~= rest.take(width as int));
                assert(rest.skip(width as int) =~= samples@.skip(end as int));
                assert(done + (seq![rest.take(width as int)] + frames_of(
                    rest.skip(width as int),
                    width as int,
                )) =~= rows(r@) + frames_of(samples@.skip(end as int), width as int));
            }
        }
        pos = end;
    }
    assert(samples@.skip(n as int) =~= Seq::<T>::empty());
    assert(rows(r@) + Seq::<Seq<T>>::empty() =~= rows(r@));
    r
}

fn copy_range<T: Copy>(samples: &[T], from: usize, to: usize) -> (r: Vec<T>)
    requires
        from <= to <= samples@.len(),
    ensures
        r@ == samples@.subrange(from as int, to as int),
{
    let mut r: Vec<T> = Vec::new();
    for i in from..to
        invariant
            from <= to <= samples@.len(),
            r@ == samples@.subrange(from as int, i as int),
    {
        r.push(samples[i]);
    }
    r
}

/// Brings audio from any sample rate to another one. The arithmetic on samples
/// is done by an engine that takes whole chunks, one row per channel.
pub struct Resampler<T> {
    from_rate: u32,
    to_rate: u32,
    channels: usize,
    input_buffer: Vec<T>,
}

/// What a resampler is set to and what waits in it.
pub struct ResamplerView<T> {
    pub from_rate: u32,
    pub to_rate: u32,
    pub channels: usize,
    /// Interleaved samples that no engine has seen yet.
    pub waiting: Seq<T>,
}

impl<T> View for Resampler<T> {
    type V = ResamplerView<T>;

    closed spec fn view(&self) -> ResamplerView<T> {
        ResamplerView {
            from_rate: self.from_rate,
            to_rate: self.to_rate,
            channels: self.channels,
            waiting: self.input_buffer@,
        }
    }
}

impl<T> ResamplerView<T> {
    /// The rates are equal, so samples are only mixed down.
    pub open spec fn bypasses(self) -> bool {
        self.from_rate == self.to_rate
    }

    /// How many frames go to an engine that works on chunks of `needed`.
    pub open spec fn ready(self, needed: int) -> int {
        let frames = self.waiting.len() as int / self.channels as int;
        frames - frames % needed
    }
}

impl<T: Copy> Resampler<T> {
    pub fn new(from_rate: u32, to_rate: u32, channels: usize) -> (r: Resampler<T>)
        ensures
            r@ == (ResamplerView { from_rate, to_rate, channels, waiting: Seq::<T>::empty() }),
    {
        Resampler { from_rate, to_rate, channels, input_buffer: Vec::new() }
    }

    /// Takes in samples. With equal rates it returns them as frames to be
    /// averaged; otherwise they wait for the engine.
    pub fn process(&mut self, input: &[T]) -> (r: Option<Vec<Vec<T>>>)
        ensures
            old(self)@.bypasses() ==> *final(self) == *old(self) && r is Some && rows(r->0@)
                == frames_of(input@, frame_width(old(self)@.channels as int)),
            !old(self)@.bypasses() ==> r is None && final(self)@ == (ResamplerView {
                waiting: old(self)@.waiting + input@,
                ..old(self)@
            }),
    {
        if self.from_rate == self.to_rate {
            let width = if self.channels > 1 {
                self.channels
            } else {
                1
            };
            return Some(split_frames(input, width));
        }
        let ghost start = self.input_buffer@;
        for i in 0..input.len()
            invariant
                self.from_rate == old(self).from_rate,
                self.to_rate == old(self).to_rate,
                self.channels == old(self).channels,
                self.input_buffer@ == start + input@.take(i as int),
        {
            self.input_buffer.push(input[i]);
            assert(input@.take(i + 1) =~= input@.take(i as int).push(input@[i as int]));
        }
        assert(input@.take(input@.len() as int) =~= input@);
        None
    }

    /// The chunk size for an engine made now: all that waits, and no less than 1024.
    pub fn engine_chunk(&self) -> (n: usize)
        ensures
            n == (if self@.waiting.len() < 1024 {
                1024
            } else {
                self@.waiting.len()
            }),
    {
        if self.input_buffer.len() < 1024 {
            1024
        } else {
            self.input_buffer.len()
        }
    }

    /// Hands over the frames for an engine that works on chunks of `needed`,
    /// one row per channel, or nothing while fewer wait.
    pub fn take_frames(&mut self, needed: usize) -> (r: Option<Vec<Vec<T>>>)
        requires
            old(self)@.channels > 0,
            needed > 0,
        ensures
            r is None <==> old(self)@.waiting.len() as int / old(self)@.channels as int <= needed - 1,
            r is None ==> *final(self) == *old(self),
            r matches Some(v) ==> {
                let frames = old(self)@.ready(needed as int);
                &&& rows(v@) == deinterleaved(
                    old(self)@.waiting,
                    old(self)@.channels as int,
                    frames,
                )
                &&& final(self)@ == (ResamplerView {
                    waiting: old(self)@.waiting.skip(frames * old(self)@.channels),
                    ..old(self)@
                })
            },
    {
        let channels = self.channels;
        let len = self.input_buffer.len();
        let frames = len / channels;
        if frames < needed {
            return None;
        }
        let exact = frames - frames % needed;
        proof {
            lemma_whole_frames(len as int, channels as int, frames as int, exact as int);
        }
        let mut r: Vec<Vec<T>> = Vec::new();
        let ghost s = self.input_buffer@;
        for c in 0..channels
            invariant
                s == self.input_buffer@,
                len == s.len(),
                exact * channels <= len,
                self.channels == channels,
                r@.len() == c,
                forall|d: int|
                    0 <= d < c ==> (#[trigger] r@[d])@ == channel(
                        s,
                        channels as int,
                        d,
                        exact as int,
                    ),
        {
            let mut row: Vec<T> = Vec::new();
            let mut pos: usize = c;
            let mut f: usize = 0;
            while f < exact
                invariant
                    f <= exact,
                    c < channels,
                    s == self.input_buffer@,
                    len == s.len(),
                    exact * channels <= len,
                    f < exact ==> pos == f * channels + c,
                    row@ =~= channel(s, channels as int, c as int, f as int),
                decreases exact - f,
            {
                proof {
                    lemma_sample_in_range(f as int, exact as int, channels as int, c as int);
                }
                row.push(self.input_buffer[pos]);
                f = f + 1;
                if f < exact {
                    proof {
                        lemma_sample_in_range(f as int, exact as int, channels as int, c as int);
                        assert((f - 1) * channels + channels == f * channels) by (nonlinear_arith);
                    }
                    pos = pos + channels;
                }
            }
            r.push(row);
        }
        proof {
            assert(rows(r@) =~= deinterleaved(s, channels as int, exact as int));
        }
        let used = exact * channels;
        let kept = copy_range(self.input_buffer.as_slice(), used, len);
        assert(kept@ =~= s.skip(used as int));
        self.input_buffer = kept;
        Some(r)
    }

    /// Ends a recording: hands over, as frames to be averaged, what waits and no
    /// engine is there to take; with an engine, what waits is dropped. Nothing
    /// waits afterwards.
    pub fn flush(&mut self, has_engine: bool) -> (r: Option<Vec<Vec<T>>>)
        ensures
            final(self)@ == (ResamplerView { waiting: Seq::<T>::empty(), ..old(self)@ }),
            has_engine ==> r is None,
            !has_engine ==> r is Some && rows(r->0@) == frames_of(
                old(self)@.waiting,
                frame_width(old(self)@.channels as int),
            ),
    {
        let r = if has_engine {
            None
        } else {
            let width = if self.channels > 1 {
                self.channels
            } else {
                1
            };
            Some(split_frames(self.input_buffer.as_slice(), width))
        };
        self.input_buffer = Vec::new();
        r
    }

    pub fn reset(&mut self, from_rate: u32, to_rate: u32, channels: usize)
        ensures
            final(self)@ == (ResamplerView {
                from_rate,
                to_rate,
                channels,
                waiting: Seq::<T>::empty(),
            }),
    {
        self.from_rate = from_rate;
        self.to_rate = to_rate;
        self.channels = channels;
        self.input_buffer = Vec::new();
    }
}

proof fn lemma_whole_frames(len: int, channels: int, frames: int, exact: int)
    requires
        channels > 0,
        len >= 0,
        frames == len / channels,
        0 <= exact <= frames,
    ensures
        0 <= exact * channels <= len,
{
    vstd::arithmetic::div_mod::lemma_fundamental_div_mod(len, channels);
    assert(exact * channels <= frames * channels) by (nonlinear_arith)
        requires
            0 <= exact <= frames,
            channels > 0,
    ;
    assert(0 <= exact * channels) by (nonlinear_arith)
        requires
            0 <= exact,
            channels > 0,
    ;
    assert(frames * channels == channels * frames) by (nonlinear_arith);
}

proof fn lemma_sample_in_range(f: int, frames: int, channels: int, c: int)
    requires
        0 <= f < frames,
        0 <= c < channels,
    ensures
        0 <= f * channels + c < frames * channels,
{
    assert(f * channels + c < frames * channels) by (nonlinear_arith)
        requires
            0 <= f < frames,
            0 <= c < channels,
    ;
    assert(0 <= f * channels) by (nonlinear_arith)
        requires
            0 <= f,
            0 < channels,
    ;
}

/// Cutting into frames loses nothing: the frames in a row are the samples.
pub proof fn law_frames_keep_samples<T>(s: Seq<T>, width: int)
    requires
        width > 0,
    ensures
        frames_of(s, width).flatten() == s,
        forall|i: int| 0 <= i < frames_of(s, width).len() ==> 0 < (#[trigger] frames_of(
            s,
            width,
        )[i]).len() <= width,
    decreases s.len(),
{
    if s.len() == 0 {
        assert(frames_of(s, width).flatten() =~= s);
    } else if s.len() <= width {
        let one = seq![s];
        assert(one.drop_first() =~= Seq::<Seq<T>>::empty());
        assert(Seq::<Seq<T>>::empty().flatten() =~= Seq::<T>::empty());
        assert(one.flatten() =~= s + Seq::<T>::empty());
    } else {
        let rest = frames_of(s.skip(width), width);
        law_frames_keep_samples(s.skip(width), width);
        let all = seq![s.take(width)] + rest;
        assert(all.drop_first() =~= rest);
        assert(all.first() == s.take(width));
        assert(all.flatten() == s.take(width) + rest.flatten());
        assert(s.take(width) + s.skip(width) =~= s);
        assert forall|i: int| 0 <= i < all.len() implies 0 < (#[trigger] all[i]).len() <= width by {
            if i > 0 {
                assert(all[i] == rest[i - 1]);
            }
        }
    }
}

/// What is handed to the engine and what stays add up to what waited: a sample
/// is neither lost nor handed over twice.
pub proof fn law_no_sample_is_lost<T>(v: ResamplerView<T>, needed: int, f: int, c: int)
    requires
        v.channels > 0,
        needed > 0,
        0 <= f < v.ready(needed),
        0 <= c < v.channels,
    ensures
        0 <= f * v.channels + c < v.ready(needed) * v.channels <= v.waiting.len(),
        deinterleaved(v.waiting, v.channels as int, v.ready(needed))[c][f] == v.waiting[f
            * v.channels + c],
        v.waiting.skip(v.ready(needed) * v.channels).len() == v.waiting.len() - v.ready(needed)
            * v.channels,
{
    let frames = v.waiting.len() as int / v.channels as int;
    assert(0 <= v.ready(needed) <= frames) by {
        vstd::arithmetic::div_mod::lemma_mod_bound(frames, needed);
        vstd::arithmetic::div_mod::lemma_div_pos_is_pos(v.waiting.len() as int, v.channels as int);
        vstd::arithmetic::div_mod::lemma_mod_decreases(frames as nat, needed as nat);
    }
    lemma_whole_frames(v.waiting.len() as int, v.channels as int, frames, v.ready(needed));
    lemma_sample_in_range(f, v.ready(needed), v.channels as int, c);
}

/// Every frame is full but for the last one.
pub proof fn law_frames_are_full<T>(s: Seq<T>, width: int, i: int)
    requires
        width > 0,
        0 <= i < frames_of(s, width).len() - 1,
    ensures
        frames_of(s, width)[i].len() == width,
    decreases s.len(),
{
    if s.len() > width {
        let rest = frames_of(s.skip(width), width);
        if i > 0 {
            assert(frames_of(s, width)[i] == rest[i - 1]);
            law_frames_are_full(s.skip(width), width, i - 1);
        }
    }
}

/// As many whole chunks as wait go to the engine: less than a chunk of frames and
/// of samples of a frame is left.
pub proof fn law_whole_chunks_are_taken<T>(v: ResamplerView<T>, needed: int)
    requires
        v.channels > 0,
        needed > 0,
    ensures
        0 <= v.ready(needed),
        v.ready(needed) % needed == 0,
        v.ready(needed) * v.channels <= v.waiting.len(),
        v.waiting.len() < (v.ready(needed) + needed) * v.channels,
        v.bypasses() <==> v.from_rate == v.to_rate,
{
    let n = v.waiting.len() as int;
    let c = v.channels as int;
    let frames = n / c;
    let r = v.ready(needed);
    vstd::arithmetic::div_mod::lemma_fundamental_div_mod(n, c);
    vstd::arithmetic::div_mod::lemma_mod_bound(n, c);
    vstd::arithmetic::div_mod::lemma_div_pos_is_pos(n, c);
    vstd::arithmetic::div_mod::lemma_fundamental_div_mod(frames, needed);
    vstd::arithmetic::div_mod::lemma_mod_bound(frames, needed);
    vstd::arithmetic::div_mod::lemma_div_pos_is_pos(frames, needed);
    let q = frames / needed;
    assert(r == needed * q);
    assert(0 <= needed * q) by (nonlinear_arith)
        requires
            0 < needed,
            0 <= q,
    ;
    vstd::arithmetic::div_mod::lemma_mod_multiples_basic(q, needed);
    assert(needed * q == q * needed) by (nonlinear_arith);
    assert(r * c <= n) by (nonlinear_arith)
        requires
            r <= frames,
            0 < c,
            n == c * frames + n % c,
            0 <= n % c,
    ;
    assert(n < (r + needed) * c) by (nonlinear_arith)
        requires
            frames + 1 <= r + needed,
            0 < c,
            n == c * frames + n % c,
            n % c < c,
    ;
}

/// A frame has one sample for each channel; no channels count as one.
pub proof fn law_frame_width(channels: int)
    ensures
        channels >= 1 ==> frame_width(channels) == channels,
        channels < 1 ==> frame_width(channels) == 1,
{
}

} // verus!
