//! The daemon and the record command: what a hotkey does, and what becomes of the
//! samples of a recording.

use vstd::prelude::*;

use crate::audio::RingBuffer;
use crate::hotkey::HotkeyEvent;
use crate::pipeline::{Pipeline, PipelineEvent, PipelineState};
use crate::resample::Resampler;
use crate::text::to_chars;

verus! {

/// The least number of samples that is worth transcribing: one second.
pub const MIN_SAMPLES: usize = 16000;

/// The rate that recordings are brought to.
pub const TARGET_RATE: u32 = 16000;

/// The rate that a capture is taken to have.
pub const CAPTURE_RATE: u32 = 48000;

/// How many samples a recording holds back at most.
pub const RING_CAPACITY: usize = 65536;

/// What the daemon's loop hears.
#[derive(Debug, Clone, Copy, PartialEq, Eq, Structural)]
pub enum DaemonEvent {
    Hotkey(HotkeyEvent),
    /// Nothing came for a while.
    Timeout,
    /// No more events will come.
    Closed,
}

/// What the daemon's loop is to do.
#[derive(Debug, Clone, Copy, PartialEq, Eq, Structural)]
pub enum DaemonAction {
    StartRecording,
    /// Stop, transcribe and insert.
    StopRecording,
    Wait,
    Quit,
}

/// Whether the daemon records after an event, and what it is to do.
pub open spec fn daemon_reaction(recording: bool, event: DaemonEvent) -> (bool, DaemonAction) {
    match event {
        DaemonEvent::Hotkey(HotkeyEvent::Down { .. }) => if recording {
            (true, DaemonAction::Wait)
        } else {
            (true, DaemonAction::StartRecording)
        },
        DaemonEvent::Hotkey(HotkeyEvent::Up { .. }) => if recording {
            (false, DaemonAction::StopRecording)
        } else {
            (false, DaemonAction::Wait)
        },
        DaemonEvent::Timeout => (recording, DaemonAction::Wait),
        DaemonEvent::Closed => (recording, DaemonAction::Quit),
    }
}

/// Reacts to an event: a press starts a recording, a release ends it, and a
/// repeated press or a stray release does nothing.
pub fn daemon_step(recording: bool, event: DaemonEvent) -> (r: (bool, DaemonAction))
    ensures
        r == daemon_reaction(recording, event),
{
    match event {
        DaemonEvent::Hotkey(HotkeyEvent::Down { .. }) => if recording {
            (true, DaemonAction::Wait)
        } else {
            (true, DaemonAction::StartRecording)
        },
        DaemonEvent::Hotkey(HotkeyEvent::Up { .. }) => if recording {
            (false, DaemonAction::StopRecording)
        } else {
            (false, DaemonAction::Wait)
        },
        DaemonEvent::Timeout => (recording, DaemonAction::Wait),
        DaemonEvent::Closed => (recording, DaemonAction::Quit),
    }
}

/// Whether the daemon records after a number of events.
pub open spec fn records_after(events: Seq<DaemonEvent>) -> bool
    decreases events.len(),
{
    if events.len() == 0 {
        false
    } else {
        daemon_reaction(records_after(events.drop_last()), events.last()).0
    }
}

/// How many recordings were started less how many were stopped.
pub open spec fn open_recordings(events: Seq<DaemonEvent>) -> int
    decreases events.len(),
{
    if events.len() == 0 {
        0
    } else {
        let before = open_recordings(events.drop_last());
        match daemon_reaction(records_after(events.drop_last()), events.last()).1 {
            DaemonAction::StartRecording => before + 1,
            DaemonAction::StopRecording => before - 1,
            _ => before,
        }
    }
}

/// Starts and stops alternate: one recording at most is open, and it is open
/// exactly while the daemon records.
pub proof fn law_one_recording_at_a_time(events: Seq<DaemonEvent>)
    ensures
        open_recordings(events) == (if records_after(events) {
            1int
        } else {
            0int
        }),
    decreases events.len(),
{
    if events.len() > 0 {
        law_one_recording_at_a_time(events.drop_last());
    }
}

/// The daemon follows the key: it records after a press and not after a release,
/// and nothing else changes that. It starts a recording just when it begins to
/// record, stops one just when it ceases to, and quits when no more can come.
pub proof fn law_daemon_follows_the_key(recording: bool, event: DaemonEvent)
    ensures
        ({
            let (now, action) = daemon_reaction(recording, event);
            &&& event matches DaemonEvent::Hotkey(HotkeyEvent::Down { .. }) ==> now
            &&& event matches DaemonEvent::Hotkey(HotkeyEvent::Up { .. }) ==> !now
            &&& !(event is Hotkey) ==> now == recording
            &&& action == DaemonAction::StartRecording <==> !recording && now
            &&& action == DaemonAction::StopRecording <==> recording && !now
            &&& action == DaemonAction::Quit <==> event == DaemonEvent::Closed
        }),
{
}

/// What is worth transcribing is one second at the rate of recordings, which is
/// 16 kHz.
pub proof fn law_one_second_is_enough()
    ensures
        MIN_SAMPLES == TARGET_RATE,
        TARGET_RATE == 16_000,
        CAPTURE_RATE == 3 * TARGET_RATE,
        RING_CAPACITY >= 4 * MIN_SAMPLES,
{
}

/// The pipeline begins to record at `now`.
pub fn start_recording(pipeline: &mut Pipeline, now: std::time::Instant) -> (e: PipelineEvent)
    ensures
        final(pipeline).state matches PipelineState::Recording {
            accumulated_samples,
            streaming_text,
            started_at,
        } && accumulated_samples == 0 && streaming_text@.len() == 0 && started_at == now,
        e == PipelineEvent::StateChanged(final(pipeline).state),
{
    pipeline.transition_to(
        PipelineState::Recording {
            accumulated_samples: 0,
            streaming_text: String::new(),
            started_at: now,
        },
    )
}

/// Whether a recording of so many samples is worth transcribing.
pub fn is_long_enough(samples: usize) -> (b: bool)
    ensures
        b == (samples >= MIN_SAMPLES),
{
    samples >= MIN_SAMPLES
}

/// A recording of `samples` samples has ended: whether it is to be transcribed,
/// and the event to send on. One that is too short ends in an error that the
/// next recording recovers from.
pub fn stop_and_transcribe(pipeline: &mut Pipeline, samples: usize) -> (r: (bool, PipelineEvent))
    ensures
        r.0 == (samples >= MIN_SAMPLES),
        samples >= MIN_SAMPLES ==> final(pipeline).state == PipelineState::Transcribing,
        samples < MIN_SAMPLES ==> (final(pipeline).state matches PipelineState::Error {
            message,
            recoverable,
        } && message@ == "Audio too short"@ && recoverable),
        r.1 == PipelineEvent::StateChanged(final(pipeline).state),
{
    if !is_long_enough(samples) {
        let e = pipeline.transition_to(
            PipelineState::Error { message: "Audio too short".to_owned(), recoverable: true },
        );
        return (false, e);
    }
    let e = pipeline.transition_to(PipelineState::Transcribing);
    (true, e)
}

/// A transcription has come: the pipeline turns to inserting it. The second part
/// of the result tells whether there is anything to insert.
pub fn transcribed(pipeline: &mut Pipeline, text: &str) -> (r: (PipelineEvent, bool))
    ensures
        final(pipeline).state matches PipelineState::Inserting { text: t } && t@ == text@,
        r.0 == PipelineEvent::StateChanged(final(pipeline).state),
        r.1 == (text@.len() > 0),
{
    let e = pipeline.transition_to(PipelineState::Inserting { text: text.to_owned() });
    (e, to_chars(text).len() > 0)
}

/// The samples of a recording: those that wait for resampling and those that
/// wait for transcription.
pub struct RecorderState<T> {
    pub ring: RingBuffer<T>,
    /// What was taken out of the ring while recording, oldest first.
    pub taken: Vec<T>,
    pub resampler: Resampler<T>,
}

impl<T: Copy + Default> RecorderState<T> {
    pub fn new() -> (r: RecorderState<T>)
        ensures
            r.ring.wf(),
            r.ring@.samples == Seq::<T>::empty(),
            r.ring@.size == RING_CAPACITY,
            r.taken@ == Seq::<T>::empty(),
            r.resampler@ == (crate::resample::ResamplerView {
                from_rate: CAPTURE_RATE,
                to_rate: TARGET_RATE,
                channels: 1usize,
                waiting: Seq::<T>::empty(),
            }),
    {
        let ring = RingBuffer::new(RING_CAPACITY);
        proof {
            vstd::arithmetic::power2::lemma2_to64();
            assert(vstd::arithmetic::power2::pow2(16) == RING_CAPACITY);
            assert(crate::audio::is_capacity(RING_CAPACITY as int));
        }
        RecorderState {
            ring,
            taken: Vec::new(),
            resampler: Resampler::new(CAPTURE_RATE, TARGET_RATE, 1),
        }
    }

    /// Takes in resampled samples; those that find no room are lost.
    pub fn take_in(&mut self, samples: &[T])
        requires
            old(self).ring.wf(),
        ensures
            final(self).ring.wf(),
            final(self).ring@.size == old(self).ring@.size,
            final(self).ring@.samples == crate::audio::pushed(
                old(self).ring@.samples,
                old(self).ring@.size,
                samples@,
            ),
            final(self).taken == old(self).taken,
            final(self).resampler == old(self).resampler,
    {
        self.ring.push(samples);
    }

    /// Makes room in the ring during a recording. What is taken out is kept for
    /// the end.
    pub fn stream(&mut self, last_pos: usize) -> (pos: usize)
        requires
            old(self).ring.wf(),
            last_pos + MIN_SAMPLES <= usize::MAX,
        ensures
            final(self).ring.wf(),
            final(self).ring@.size == old(self).ring@.size,
            pos == last_pos,
            final(self).ring@.samples == (if old(self).ring@.samples.len() > last_pos + MIN_SAMPLES {
                old(self).ring@.samples.skip(old(self).ring@.samples.len() - last_pos)
            } else {
                old(self).ring@.samples
            }),
            final(self).taken@ + final(self).ring@.samples == old(self).taken@ + old(self).ring@.samples,
            final(self).resampler == old(self).resampler,
    {
        streaming_step(&mut self.ring, &mut self.taken, last_pos)
    }

    /// Ends a recording: takes in what the resampler still gave and hands over
    /// all samples, those that were taken out before among them.
    pub fn stop_and_drain(&mut self, tail: &[T]) -> (r: Vec<T>)
        requires
            old(self).ring.wf(),
        ensures
            final(self).ring.wf(),
            final(self).ring@.size == old(self).ring@.size,
            final(self).ring@.samples == Seq::<T>::empty(),
            final(self).taken@ == Seq::<T>::empty(),
            final(self).resampler == old(self).resampler,
            r@ == old(self).taken@ + crate::audio::pushed(
                old(self).ring@.samples,
                old(self).ring@.size,
                tail@,
            ),
    {
        self.ring.push(tail);
        let mut rest = drain(&mut self.ring);
        let mut all: Vec<T> = Vec::new();
        all.append(&mut self.taken);
        all.append(&mut rest);
        all
    }
}

/// Hands over all samples of a ring.
pub fn drain<T: Copy + Default>(ring: &mut RingBuffer<T>) -> (r: Vec<T>)
    requires
        old(ring).wf(),
    ensures
        final(ring).wf(),
        final(ring)@.size == old(ring)@.size,
        final(ring)@.samples == Seq::<T>::empty(),
        r@ == old(ring)@.samples,
{
    let total = ring.len();
    let mut samples: Vec<T> = Vec::new();
    let mut i: usize = 0;
    while i < total
        invariant
            i <= total,
            samples@.len() == i,
        decreases total - i,
    {
        samples.push(T::default());
        i = i + 1;
    }
    ring.pop(samples.as_mut_slice());
    assert(samples@ =~= old(ring)@.samples);
    assert(ring@.samples =~= Seq::<T>::empty());
    samples
}

/// Looks after a ring during a recording: once more than a second has come in
/// beyond `last_pos` samples, all but `last_pos` of them are taken out, oldest
/// first, and put behind those taken out before. None is lost.
pub fn streaming_step<T: Copy + Default>(
    ring: &mut RingBuffer<T>,
    taken: &mut Vec<T>,
    last_pos: usize,
) -> (pos: usize)
    requires
        old(ring).wf(),
        last_pos + MIN_SAMPLES <= usize::MAX,
    ensures
        final(ring).wf(),
        final(ring)@.size == old(ring)@.size,
        pos == last_pos,
        final(ring)@.samples == (if old(ring)@.samples.len() > last_pos + MIN_SAMPLES {
            old(ring)@.samples.skip(old(ring)@.samples.len() - last_pos)
        } else {
            old(ring)@.samples
        }),
        final(taken)@ + final(ring)@.samples == old(taken)@ + old(ring)@.samples,
{
    let available = ring.len();
    if available > last_pos + MIN_SAMPLES {
        let size = available - last_pos;
        let mut chunk: Vec<T> = Vec::new();
        let mut i: usize = 0;
        while i < size
            invariant
                i <= size,
                chunk@.len() == i,
            decreases size - i,
        {
            chunk.push(T::default());
            i = i + 1;
        }
        ring.pop(chunk.as_mut_slice());
        assert(chunk@ =~= old(ring)@.samples.take(size as int));
        taken.append(&mut chunk);
        assert(taken@ + ring@.samples =~= old(taken)@ + old(ring)@.samples);
        return ring.len();
    }
    last_pos
}

} // verus!
