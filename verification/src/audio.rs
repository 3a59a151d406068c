//! Audio buffering: the sample ring, and what audio capture offers and fails with.

use vstd::prelude::*;

use crate::text::{joined, to_decimal};

verus! {

/// The number of values that a `usize` counter runs through.
pub open spec fn counter_range() -> int {
    usize::MAX + 1
}

/// `n` is a power of two that a `usize` can hold.
pub open spec fn is_capacity(n: int) -> bool {
    exists|e: nat| e < usize::BITS && n == #[trigger] vstd::arithmetic::power2::pow2(e)
}

/// The least capacity that is no less than `n`.
pub open spec fn is_least_capacity(cap: int, n: int) -> bool {
    &&& is_capacity(cap)
    &&& cap >= n
    &&& forall|c: int| #[trigger] is_capacity(c) && c >= n ==> cap <= c
}

proof fn lemma_capacity_divides_range(cap: int)
    requires
        is_capacity(cap),
    ensures
        0 < cap <= usize::MAX,
        counter_range() % cap == 0,
{
    broadcast use vstd::arithmetic::power2::lemma_pow2_pos;

    let e = choose|e: nat|
        e < usize::BITS && cap == #[trigger] vstd::arithmetic::power2::pow2(e);
    vstd::bits::lemma_usize_pow2_no_overflow(e);
    let bits = usize::BITS as nat;
    let rest = vstd::arithmetic::power2::pow2((bits - e) as nat) as int;
    assert(counter_range() == vstd::arithmetic::power2::pow2(bits)) by {
        vstd::arithmetic::power2::lemma2_to64();
        vstd::arithmetic::power2::lemma2_to64_rest();
    }
    vstd::arithmetic::power2::lemma_pow2_adds(e, (bits - e) as nat);
    vstd::arithmetic::div_mod::lemma_mod_multiples_basic(rest, cap);
    assert(rest * cap == cap * rest) by (nonlinear_arith);
}

/// Masking with one less than the capacity is the remainder by the capacity.
proof fn lemma_mask_is_remainder(x: usize, mask: usize)
    requires
        is_capacity(mask + 1),
    ensures
        (x & mask) as int == x as int % (mask + 1),
{
    let e = choose|e: nat|
        e < usize::BITS && mask + 1 == #[trigger] vstd::arithmetic::power2::pow2(e);
    vstd::bits::lemma_usize_pow2_no_overflow(e);
    vstd::bits::lemma_usize_low_bits_mask_is_mod(x, e);
    assert(vstd::bits::low_bits_mask(e) == mask);
}

/// A counter that wraps still names the right slot.
proof fn lemma_wrapped_slot(x: usize, y: usize, cap: int)
    requires
        is_capacity(cap),
    ensures
        vstd::wrapping::usize_specs::wrapping_add(x, y) as int % cap == (x + y) % cap,
{
    lemma_capacity_divides_range(cap);
    if x + y > usize::MAX {
        let r = counter_range();
        vstd::arithmetic::div_mod::lemma_mod_equivalence(x + y, x + y - r, cap);
    }
}

/// Slots that are less than a capacity apart are different.
proof fn lemma_slots_differ(base: int, a: int, b: int, cap: int)
    requires
        0 <= a < b < a + cap,
    ensures
        (base + a) % cap != (base + b) % cap,
{
    if (base + a) % cap == (base + b) % cap {
        vstd::arithmetic::div_mod::lemma_mod_equivalence(base + b, base + a, cap);
        assert((b - a) % cap == 0);
        vstd::arithmetic::div_mod::lemma_small_mod((b - a) as nat, cap as nat);
    }
}

/// How many of `more` samples a ring with `len` of `size` places taken accepts.
pub open spec fn accepted(len: nat, size: nat, more: nat) -> int {
    if more <= size - len {
        more as int
    } else {
        size - len
    }
}

/// The contents of a ring after a push.
pub open spec fn pushed<T>(contents: Seq<T>, size: nat, samples: Seq<T>) -> Seq<T> {
    contents + samples.take(accepted(contents.len(), size, samples.len()))
}

/// How many of `len` samples fit a destination for `room`.
pub open spec fn handed_out(len: nat, room: nat) -> nat {
    if room <= len {
        room
    } else {
        len
    }
}

/// First in, first out: what fits is popped in the order in which it was
/// pushed, after what was there before, and then nothing is left.
pub proof fn law_first_in_first_out<T>(contents: Seq<T>, size: nat, samples: Seq<T>)
    requires
        contents.len() + samples.len() <= size,
    ensures
        pushed(contents, size, samples).take(
            handed_out(
                pushed(contents, size, samples).len(),
                contents.len() + samples.len(),
            ) as int,
        ) == contents + samples,
        pushed(contents, size, samples).skip(
            handed_out(
                pushed(contents, size, samples).len(),
                contents.len() + samples.len(),
            ) as int,
        ) == Seq::<T>::empty(),
{
    assert(samples.take(samples.len() as int) =~= samples);
    assert((contents + samples).take((contents + samples).len() as int) =~= contents + samples);
}

/// Pushing in two portions is the same as pushing both at once.
pub proof fn law_pushes_add_up<T>(contents: Seq<T>, size: nat, a: Seq<T>, b: Seq<T>)
    requires
        contents.len() <= size,
    ensures
        pushed(pushed(contents, size, a), size, b) == (if a.len() <= size - contents.len() {
            pushed(contents, size, a + b)
        } else {
            pushed(contents, size, a)
        }),
        pushed(contents, size, a).len() <= size,
{
    let left = pushed(pushed(contents, size, a), size, b);
    if a.len() <= size - contents.len() {
        assert(left =~= pushed(contents, size, a + b));
    } else {
        assert(left =~= pushed(contents, size, a));
    }
}

/// Ring buffer for audio samples. Its capacity is a power of two, and the two
/// counters run freely and wrap around.
pub struct RingBuffer<T> {
    buffer: Vec<T>,
    mask: usize,
    write: usize,
    read: usize,
}

/// What a ring holds: the samples that were pushed and not yet popped, oldest
/// first, and how many fit in.
pub struct RingView<T> {
    pub samples: Seq<T>,
    pub size: nat,
}

impl<T> View for RingBuffer<T> {
    type V = RingView<T>;

    closed spec fn view(&self) -> RingView<T> {
        RingView {
            samples: Seq::new(self.occupied(), |k: int| self.buffer@[self.slot(k)]),
            size: self.buffer@.len(),
        }
    }
}

impl<T> RingBuffer<T> {
    spec fn occupied(&self) -> nat {
        vstd::wrapping::usize_specs::wrapping_sub(self.write, self.read) as nat
    }

    /// Where the sample that is `k`th in line lies.
    spec fn slot(&self, k: int) -> int {
        (self.read + k) % self.buffer@.len() as int
    }

    pub closed spec fn wf(&self) -> bool {
        &&& is_capacity(self.buffer@.len() as int)
        &&& self.mask + 1 == self.buffer@.len()
        &&& self.occupied() <= self.buffer@.len()
    }

    /// There is never more in the ring than fits.
    pub proof fn law_len_within_capacity(self)
        requires
            self.wf(),
        ensures
            self@.samples.len() <= self@.size,
            is_capacity(self@.size as int),
    {
    }
}

impl<T: Copy> RingBuffer<T> {
    /// An empty ring for at least `capacity` samples: the capacity is rounded up
    /// to a power of two.
    pub fn new(capacity: usize) -> (r: RingBuffer<T>) where T: Default
        requires
            capacity <= usize::MAX / 2 + 1,
        ensures
            r.wf(),
            r@.samples == Seq::<T>::empty(),
            is_least_capacity(r@.size as int, capacity as int),
    {
        let cap = next_capacity(capacity);
        let mut buffer: Vec<T> = Vec::new();
        let mut i: usize = 0;
        while i < cap
            invariant
                i <= cap,
                buffer@.len() == i,
            decreases cap - i,
        {
            buffer.push(T::default());
            i = i + 1;
        }
        let r = RingBuffer { buffer, mask: cap - 1, write: 0, read: 0 };
        assert(r@.samples =~= Seq::<T>::empty());
        r
    }

    /// Appends as many of the samples as fit and returns how many did.
    pub fn push(&mut self, samples: &[T]) -> (n: usize)
        requires
            old(self).wf(),
        ensures
            final(self).wf(),
            final(self)@.size == old(self)@.size,
            n == accepted(old(self)@.samples.len(), old(self)@.size, samples@.len()),
            final(self)@.samples == pushed(old(self)@.samples, old(self)@.size, samples@),
    {
        let w = self.write;
        let occupied = w.wrapping_sub(self.read);
        let cap = self.buffer.len();
        let available = cap - occupied;
        let to_write = if samples.len() < available {
            samples.len()
        } else {
            available
        };
        let ghost start = *self;
        let ghost base = start.read as int;
        proof {
            lemma_capacity_divides_range(cap as int);
        }
        let mut i: usize = 0;
        while i < to_write
            invariant
                i <= to_write <= available,
                to_write <= samples@.len(),
                cap == start.buffer@.len(),
                occupied as nat == start.occupied(),
                available == cap - occupied,
                start.wf(),
                w == start.write,
                base == start.read,
                self.read == start.read,
                self.write == start.write,
                self.mask == start.mask,
                self.buffer@.len() == cap,
                forall|k: int|
                    0 <= k < occupied ==> self.buffer@[#[trigger] start.slot(k)]
                        == start.buffer@[start.slot(k)],
                forall|k: int|
                    occupied <= k < occupied + i ==> self.buffer@[#[trigger] start.slot(k)]
                        == samples@[k - occupied],
            decreases to_write - i,
        {
            let at = w.wrapping_add(i);
            proof {
                lemma_mask_is_remainder(at, self.mask);
                lemma_wrapped_slot(w, i, cap as int);
                lemma_write_slot(start.read, w, occupied as int, i as int, cap as int);
            }
            let idx = at & self.mask;
            let ghost before = self.buffer@;
            self.buffer.set(idx, samples[i]);
            proof {
                assert(idx as int == start.slot(occupied + i));
                assert forall|k: int| 0 <= k < occupied + i implies #[trigger] start.slot(k)
                    != start.slot(occupied + i) by {
                    lemma_slots_differ(base, k, occupied + i, cap as int);
                }
                assert forall|k: int| 0 <= k < occupied implies self.buffer@[#[trigger] start.slot(k)]
                    == start.buffer@[start.slot(k)] by {
                    assert(before[start.slot(k)] == start.buffer@[start.slot(k)]);
                }
                assert forall|k: int|
                    occupied <= k < occupied + i + 1 implies self.buffer@[#[trigger] start.slot(k)]
                    == samples@[k - occupied] by {
                    if k < occupied + i {
                        assert(before[start.slot(k)] == samples@[k - occupied]);
                    }
                }
            }
            i = i + 1;
        }
        self.write = w.wrapping_add(to_write);
        proof {
            assert(self.occupied() == occupied + to_write);
            assert forall|k: int| 0 <= k < occupied + to_write implies #[trigger] self@.samples[k] == (
            start@.samples + samples@.take(to_write as int))[k] by {
                assert(self.slot(k) == start.slot(k));
            }
            assert(self@.samples =~= start@.samples + samples@.take(to_write as int));
        }
        to_write
    }

    /// Moves as many samples as there are and as `dest` takes into its front,
    /// oldest first, and returns how many.
    pub fn pop(&mut self, dest: &mut [T]) -> (n: usize)
        requires
            old(self).wf(),
        ensures
            final(self).wf(),
            final(self)@.size == old(self)@.size,
            n == handed_out(old(self)@.samples.len(), old(dest)@.len()),
            final(self)@.samples == old(self)@.samples.skip(n as int),
            final(dest)@ == old(self)@.samples.take(n as int) + old(dest)@.skip(n as int),
    {
        let r = self.read;
        let available = self.write.wrapping_sub(r);
        let to_read = if dest.len() < available {
            dest.len()
        } else {
            available
        };
        let ghost start = *self;
        let ghost first = dest@;
        let cap = self.buffer.len();
        proof {
            lemma_capacity_divides_range(cap as int);
        }
        let mut i: usize = 0;
        while i < to_read
            invariant
                i <= to_read <= available,
                to_read <= first.len(),
                dest@.len() == first.len(),
                start.wf(),
                *self == start,
                r == start.read,
                available as nat == start.occupied(),
                cap == start.buffer@.len(),
                forall|k: int| 0 <= k < i ==> #[trigger] dest@[k] == start@.samples[k],
                forall|k: int| i <= k < first.len() ==> #[trigger] dest@[k] == first[k],
            decreases to_read - i,
        {
            let at = r.wrapping_add(i);
            proof {
                lemma_mask_is_remainder(at, self.mask);
                lemma_wrapped_slot(r, i, cap as int);
                lemma_capacity_divides_range(cap as int);
            }
            let idx = at & self.mask;
            assert(idx as int == start.slot(i as int));
            dest[i] = self.buffer[idx];
            i = i + 1;
        }
        self.read = r.wrapping_add(to_read);
        proof {
            assert(self.occupied() == available - to_read);
            assert forall|k: int| 0 <= k < available - to_read implies #[trigger] self@.samples[k]
                == start@.samples.skip(to_read as int)[k] by {
                lemma_read_slot(r, to_read, k, cap as int);
                assert(self.slot(k) == start.slot(to_read + k));
            }
            assert(self@.samples =~= start@.samples.skip(to_read as int));
            assert(dest@ =~= start@.samples.take(to_read as int) + first.skip(to_read as int));
        }
        to_read
    }

    pub fn len(&self) -> (n: usize)
        requires
            self.wf(),
        ensures
            n == self@.samples.len(),
    {
        self.write.wrapping_sub(self.read)
    }

    pub fn is_empty(&self) -> (b: bool)
        requires
            self.wf(),
        ensures
            b == (self@.samples.len() == 0),
    {
        self.len() == 0
    }

    /// Forgets all samples.
    pub fn clear(&mut self)
        requires
            old(self).wf(),
        ensures
            final(self).wf(),
            final(self)@.size == old(self)@.size,
            final(self)@.samples == Seq::<T>::empty(),
    {
        self.read = self.write;
        assert(self@.samples =~= Seq::<T>::empty());
    }

    pub fn capacity(&self) -> (n: usize)
        requires
            self.wf(),
        ensures
            n == self@.size,
    {
        self.buffer.len()
    }
}

/// The largest power of two that a `usize` holds.
proof fn lemma_top_capacity()
    ensures
        is_capacity(usize::MAX / 2 + 1),
{
    let e = (usize::BITS - 1) as nat;
    assert(usize::MAX / 2 + 1 == vstd::arithmetic::power2::pow2(e)) by {
        vstd::arithmetic::power2::lemma2_to64();
        vstd::arithmetic::power2::lemma2_to64_rest();
    }
}

proof fn lemma_write_slot(read: usize, write: usize, occupied: int, i: int, cap: int)
    requires
        is_capacity(cap),
        occupied == vstd::wrapping::usize_specs::wrapping_sub(write, read),
    ensures
        (write + i) % cap == (read + (occupied + i)) % cap,
{
    lemma_capacity_divides_range(cap);
    if write < read {
        let r = counter_range();
        assert(read + (occupied + i) - (write + i) == r);
        vstd::arithmetic::div_mod::lemma_mod_equivalence(
            read + (occupied + i),
            write + i,
            cap,
        );
    }
}

proof fn lemma_read_slot(read: usize, n: usize, k: int, cap: int)
    requires
        is_capacity(cap),
    ensures
        (vstd::wrapping::usize_specs::wrapping_add(read, n) + k) % cap == (read + (n + k)) % cap,
{
    lemma_capacity_divides_range(cap);
    if read + n > usize::MAX {
        vstd::arithmetic::div_mod::lemma_mod_equivalence(
            read + (n + k),
            read + n - counter_range() + k,
            cap,
        );
    }
}

/// The least power of two that is no less than `n`.
fn next_capacity(n: usize) -> (cap: usize)
    requires
        n <= usize::MAX / 2 + 1,
    ensures
        cap > 0,
        is_least_capacity(cap as int, n as int),
{
    broadcast use vstd::arithmetic::power2::lemma_pow2_pos;

    let ghost mut e: nat = 0;
    let mut cap: usize = 1;
    assert(vstd::arithmetic::power2::pow2(0) == 1) by {
        vstd::arithmetic::power2::lemma2_to64();
    }
    let ghost top = usize::MAX / 2 + 1;
    proof {
        lemma_top_capacity();
    }
    while cap < n
        invariant
            n <= top,
            is_capacity(top),
            e < usize::BITS,
            cap == vstd::arithmetic::power2::pow2(e),
            cap > 0,
            forall|c: int| #[trigger] is_capacity(c) && c >= n ==> cap <= c,
        decreases usize::MAX - cap,
    {
        proof {
            let c = top;
            assert forall|d: int| #[trigger] is_capacity(d) && d >= n implies 2 * cap <= d by {
                let f = choose|f: nat|
                    f < usize::BITS && d == #[trigger] vstd::arithmetic::power2::pow2(f);
                if f <= e {
                    if f < e {
                        vstd::arithmetic::power2::lemma_pow2_strictly_increases(f, e);
                    }
                } else {
                    if e + 1 < f {
                        vstd::arithmetic::power2::lemma_pow2_strictly_increases(e + 1, f);
                    }
                    vstd::arithmetic::power2::lemma_pow2_unfold(e + 1);
                }
            }
            let f = choose|f: nat|
                f < usize::BITS && c == #[trigger] vstd::arithmetic::power2::pow2(f);
            if f <= e && f < e {
                vstd::arithmetic::power2::lemma_pow2_strictly_increases(f, e);
            }
            assert(e + 1 <= f);
            lemma_capacity_divides_range(c);
            vstd::arithmetic::power2::lemma_pow2_unfold(e + 1);
            e = e + 1;
        }
        cap = cap * 2;
    }
    assert(is_capacity(cap as int));
    cap
}

/// Why audio could not be captured.
#[derive(Debug, Clone)]
pub enum AudioError {
    NoDevice,
    DeviceNotFound(String),
    StreamError(String),
    UnsupportedRate(u32),
    Platform(String),
}

impl AudioError {
    /// The text of the error.
    pub open spec fn text(self) -> Seq<char> {
        match self {
            AudioError::NoDevice => "No input device available"@,
            AudioError::DeviceNotFound(name) => "Device not found: "@ + name@,
            AudioError::StreamError(e) => "Stream error: "@ + e@,
            AudioError::UnsupportedRate(rate) => "Unsupported sample rate: "@
                + crate::text::decimal(rate as nat),
            AudioError::Platform(e) => "Platform error: "@ + e@,
        }
    }

    pub fn message(&self) -> (s: String)
        ensures
            s@ == self.text(),
    {
        match self {
            AudioError::NoDevice => "No input device available".to_owned(),
            AudioError::DeviceNotFound(name) => joined("Device not found: ", name.as_str()),
            AudioError::StreamError(e) => joined("Stream error: ", e.as_str()),
            AudioError::UnsupportedRate(rate) => joined(
                "Unsupported sample rate: ",
                to_decimal(*rate as u64).as_str(),
            ),
            AudioError::Platform(e) => joined("Platform error: ", e.as_str()),
        }
    }
}

/// Audio capture as a platform offers it, apart from the stream itself.
pub trait AudioCapture {
    /// Stops capturing.
    fn stop(&mut self) -> Result<(), AudioError>;

    /// The rate of the samples that are delivered.
    fn sample_rate(&self) -> u32;
}

/// What does not fit is not taken in: the samples that were there stay, and as many
/// of the new ones follow as there is room for.
pub proof fn law_full_ring_takes_what_fits<T>(contents: Seq<T>, size: nat, samples: Seq<T>)
    requires
        contents.len() <= size,
    ensures
        pushed(contents, size, samples).len() == (if contents.len() + samples.len() <= size {
            contents.len() + samples.len()
        } else {
            size
        }),
        pushed(contents, size, samples).take(contents.len() as int) == contents,
        forall|i: int|
            contents.len() <= i < pushed(contents, size, samples).len() ==> #[trigger] pushed(
                contents,
                size,
                samples,
            )[i] == samples[i - contents.len()],
        accepted(contents.len(), size, samples.len()) == pushed(contents, size, samples).len()
            - contents.len(),
{
    assert(pushed(contents, size, samples).take(contents.len() as int) =~= contents);
}

/// As many samples are handed out as there are and as there is room for.
pub proof fn law_handed_out(len: nat, room: nat)
    ensures
        handed_out(len, room) <= len,
        handed_out(len, room) <= room,
        handed_out(len, room) == len || handed_out(len, room) == room,
{
}

/// The texts of the errors.
pub proof fn law_audio_error_texts(e: String, rate: u32)
    ensures
        AudioError::NoDevice.text() == "No input device available"@,
        AudioError::DeviceNotFound(e).text() == "Device not found: "@ + e@,
        AudioError::StreamError(e).text() == "Stream error: "@ + e@,
        AudioError::UnsupportedRate(rate).text() == "Unsupported sample rate: "@
            + crate::text::decimal(rate as nat),
        AudioError::Platform(e).text() == "Platform error: "@ + e@,
{
}

} // verus!
