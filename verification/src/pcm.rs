//! Samples: channels, frames, the buffers of the resamplers, and the mix.
use crate::settings::FRAME_SIZE;
use vstd::prelude::*;

verus! {

/// The sum of the samples.
pub open spec fn sum(s: Seq<i16>) -> int
    decreases s.len(),
{
    if s.len() == 0 {
        0
    } else {
        sum(s.drop_last()) + s.last()
    }
}

/// `a / b`, rounded towards zero, for a positive `b`.
pub open spec fn trunc_div(a: int, b: int) -> int {
    if a >= 0 {
        a / b
    } else {
        -((-a) / b)
    }
}

/// How many samples the first frame of `data` has: one for each channel, or
/// fewer where `data` ends.
pub open spec fn first_frame_len(data: Seq<i16>, channels: nat) -> nat {
    if data.len() < channels {
        data.len()
    } else {
        channels
    }
}

/// One sample for each frame of interleaved sound: the sum of the frame's
/// samples over the number of channels, rounded towards zero. A last frame that
/// is cut short is divided by the number of channels all the same.
pub open spec fn frame_means(data: Seq<i16>, channels: nat) -> Seq<i16>
    decreases data.len(),
{
    if data.len() == 0 || channels == 0 {
        seq![]
    } else {
        let n = first_frame_len(data, channels) as int;
        seq![trunc_div(sum(data.take(n)), channels as int) as i16] + frame_means(
            data.skip(n),
            channels,
        )
    }
}

/// Interleaved sound brought down to one channel.
pub open spec fn downmixed(data: Seq<i16>, channels: nat) -> Seq<i16> {
    if channels <= 1 {
        data
    } else {
        frame_means(data, channels)
    }
}

/// Whether the running sum of `frame` stays within 32 bits.
pub open spec fn sum_fits(frame: Seq<i16>) -> bool {
    forall|j: int| 0 <= j <= frame.len() ==> i32::MIN <= #[trigger] sum(frame.take(j)) <= i32::MAX
}

/// Whether the running sum of every frame stays within 32 bits.
pub open spec fn sums_fit(data: Seq<i16>, channels: nat) -> bool
    decreases data.len(),
{
    data.len() == 0 || channels == 0 || {
        let n = first_frame_len(data, channels) as int;
        sum_fits(data.take(n)) && sums_fit(data.skip(n), channels)
    }
}

proof fn lemma_sum_bounds(s: Seq<i16>)
    ensures
        -32768 * s.len() <= sum(s) <= 32767 * s.len(),
    decreases s.len(),
{
    if s.len() > 0 {
        lemma_sum_bounds(s.drop_last());
    }
}

/// The sums fit wherever the channels number at most 65535, as on every sound
/// device.
pub proof fn device_sums_fit(data: Seq<i16>, channels: nat)
    requires
        channels <= 65535,
    ensures
        sums_fit(data, channels),
    decreases data.len(),
{
    if data.len() > 0 && channels > 0 {
        let n = first_frame_len(data, channels) as int;
        assert forall|j: int| 0 <= j <= data.take(n).len() implies i32::MIN <= #[trigger] sum(
            data.take(n).take(j),
        ) <= i32::MAX by {
            lemma_sum_bounds(data.take(n).take(j));
        }
        device_sums_fit(data.skip(n), channels);
    }
}

proof fn lemma_mean_fits(a: int, n: int, channels: int)
    requires
        0 < n <= channels,
        -32768 * n <= a <= 32767 * n,
    ensures
        -32768 <= trunc_div(a, channels) <= 32767,
{
    if a >= 0 {
        assert(a / channels <= 32767) by (nonlinear_arith)
            requires
                0 <= a <= 32767 * n,
                0 < n <= channels,
        ;
        assert(a / channels >= 0) by (nonlinear_arith)
            requires
                0 <= a,
                0 < channels,
        ;
    } else {
        let b = -a;
        assert(b / channels <= 32768) by (nonlinear_arith)
            requires
                0 <= b <= 32768 * n,
                0 < n <= channels,
        ;
        assert(b / channels >= 0) by (nonlinear_arith)
            requires
                0 <= b,
                0 < channels,
        ;
    }
}

/// Sums the samples of `data` from `start` to `end`.
fn sum_range(data: &[i16], start: usize, end: usize) -> (r: i32)
    requires
        start <= end <= data@.len(),
        sum_fits(data@.subrange(start as int, end as int)),
    ensures
        r == sum(data@.subrange(start as int, end as int)),
{
    let ghost frame = data@.subrange(start as int, end as int);
    let mut total: i32 = 0;
    let mut i: usize = start;
    while i < end
        invariant
            start <= i <= end <= data@.len(),
            frame == data@.subrange(start as int, end as int),
            sum_fits(frame),
            total == sum(frame.take(i - start)),
        decreases end - i,
    {
        proof {
            let next = frame.take(i - start + 1);
            assert(next.drop_last() =~= frame.take(i - start));
            assert(next.last() == data@[i as int]);
            assert(i32::MIN <= sum(next) <= i32::MAX);
        }
        total = total + data[i] as i32;
        i = i + 1;
    }
    assert(frame.take(end - start) =~= frame);
    total
}

/// Brings interleaved sound down to one channel.
pub fn downmix_i16(data: &[i16], channels: usize) -> (r: Vec<i16>)
    requires
        channels <= i32::MAX,
        channels > 1 ==> sums_fit(data@, channels as nat),
    ensures
        r@ == downmixed(data@, channels as nat),
{
    if channels <= 1 {
        return vstd::slice::slice_to_vec(data);
    }
    let mut out: Vec<i16> = Vec::new();
    let mut pos: usize = 0;
    assert(data@.skip(0) =~= data@);
    while pos < data.len()
        invariant
            1 < channels <= i32::MAX,
            pos <= data@.len(),
            sums_fit(data@.skip(pos as int), channels as nat),
            out@ + frame_means(data@.skip(pos as int), channels as nat) == frame_means(
                data@,
                channels as nat,
            ),
        decreases data@.len() - pos,
    {
        let left: usize = data.len() - pos;
        let n: usize = if left < channels {
            left
        } else {
            channels
        };
        let ghost tail = data@.skip(pos as int);
        let ghost frame = tail.take(n as int);
        assert(data@.subrange(pos as int, pos + n) =~= frame);
        let total: i32 = sum_range(data, pos, pos + n);
        proof {
            lemma_sum_bounds(frame);
            lemma_mean_fits(sum(frame), n as int, channels as int);
        }
        let mean: i32 = total / channels as i32;
        let ghost before = out@;
        out.push(mean as i16);
        pos = pos + n;
        proof {
            assert(tail.skip(n as int) =~= data@.skip(pos as int));
            assert(out@ + frame_means(data@.skip(pos as int), channels as nat) =~= before
                + frame_means(tail, channels as nat));
        }
    }
    assert(out@ =~= out@ + frame_means(data@.skip(pos as int), channels as nat));
    out
}

/// The least number of frames of `channels` samples that hold `len` samples.
pub open spec fn frame_count(len: nat, channels: nat) -> nat
    recommends
        channels > 0,
{
    if len % channels == 0 {
        len / channels
    } else {
        len / channels + 1
    }
}

/// How many frames of `channels` samples a buffer of `len` samples begins.
pub fn frames_needed(len: usize, channels: usize) -> (r: usize)
    requires
        channels > 0,
    ensures
        r == frame_count(len as nat, channels as nat),
{
    let whole: usize = len / channels;
    if len % channels == 0 {
        whole
    } else {
        proof {
            assert(whole < usize::MAX) by {
                if channels == 1 {
                    assert(len % channels == 0);
                }
                assert(channels >= 2 ==> whole * 2 <= len) by (nonlinear_arith)
                    requires
                        whole == len / channels,
                        channels > 0,
                ;
            }
        }
        whole + 1
    }
}

proof fn lemma_frame_index(i: nat, len: nat, channels: nat)
    requires
        i < len,
        channels > 0,
    ensures
        i / channels < frame_count(len, channels),
{
    let q = len / channels;
    let r = len % channels;
    vstd::arithmetic::div_mod::lemma_fundamental_div_mod(len as int, channels as int);
    if r == 0 {
        assert(i / channels < q) by (nonlinear_arith)
            requires
                i < channels * q,
                channels > 0,
        ;
    } else {
        assert(i / channels < q + 1) by (nonlinear_arith)
            requires
                i < channels * q + r,
                r < channels,
                channels > 0,
        ;
    }
}

/// Fills interleaved sound of `channels` channels: each frame repeats one sample
/// on every channel.
pub fn fill_frames<T: Copy>(data: &mut [T], channels: usize, samples: &[T])
    requires
        channels > 0,
        samples@.len() == frame_count(old(data)@.len(), channels as nat),
    ensures
        final(data)@ == Seq::new(old(data)@.len(), |i: int| samples@[i / channels as int]),
{
    let ghost len = data@.len();
    let mut i: usize = 0;
    while i < data.len()
        invariant
            channels > 0,
            data@.len() == len,
            i <= len,
            samples@.len() == frame_count(len, channels as nat),
            forall|k: int| 0 <= k < i ==> data@[k] == samples@[k / channels as int],
        decreases len - i,
    {
        proof {
            lemma_frame_index(i as nat, len, channels as nat);
        }
        data[i] = samples[i / channels];
        i = i + 1;
    }
    assert(data@ =~= Seq::new(len, |i: int| samples@[i / channels as int]));
}

proof fn lemma_sum_of_equal(s: Seq<i16>, v: i16)
    requires
        forall|i: int| 0 <= i < s.len() ==> s[i] == v,
    ensures
        sum(s) == s.len() * v,
    decreases s.len(),
{
    if s.len() > 0 {
        lemma_sum_of_equal(s.drop_last(), v);
        assert((s.len() - 1) * v + v == s.len() * v) by (nonlinear_arith);
    }
}

proof fn lemma_mean_of_equal(v: i16, channels: nat)
    requires
        channels > 0,
    ensures
        trunc_div(channels * v, channels as int) == v,
{
    if v >= 0 {
        assert(channels * v >= 0 && (channels * v) / channels as int == v) by (nonlinear_arith)
            requires
                channels > 0,
                v >= 0,
        ;
    } else {
        let w = -v;
        assert(-(channels * v) == channels * w) by (nonlinear_arith)
            requires
                w == -v,
        ;
        assert(channels * v < 0) by (nonlinear_arith)
            requires
                channels > 0,
                v < 0,
        ;
        assert((channels * w) / channels as int == w) by (nonlinear_arith)
            requires
                channels > 0,
                w > 0,
        ;
    }
}

/// Sound that repeats one sample on every channel is brought down to exactly
/// those samples.
pub proof fn downmix_undoes_fill(data: Seq<i16>, channels: nat, samples: Seq<i16>)
    requires
        channels > 0,
        data.len() == samples.len() * channels,
        forall|i: int| 0 <= i < data.len() ==> #[trigger] data[i] == samples[i / channels as int],
    ensures
        downmixed(data, channels) == samples,
{
    if channels == 1 {
        assert forall|i: int| 0 <= i < data.len() implies data[i] == samples[i] by {
            assert(data[i] == samples[i / channels as int]);
        }
        assert(samples.len() * channels == samples.len());
        assert(data =~= samples);
    } else {
        lemma_means_of_equal(data, channels, samples);
    }
}

proof fn lemma_means_of_equal(data: Seq<i16>, channels: nat, samples: Seq<i16>)
    requires
        channels > 0,
        data.len() == samples.len() * channels,
        forall|i: int| 0 <= i < data.len() ==> #[trigger] data[i] == samples[i / channels as int],
    ensures
        frame_means(data, channels) == samples,
    decreases samples.len(),
{
    let c = channels as int;
    if samples.len() == 0 {
        assert(data.len() == 0) by (nonlinear_arith)
            requires
                data.len() == samples.len() * channels,
                samples.len() == 0,
        ;
        assert(frame_means(data, channels) =~= samples);
    } else {
        assert(data.len() >= channels && data.len() - channels == (samples.len() - 1) * channels)
            by (nonlinear_arith)
            requires
                data.len() == samples.len() * channels,
                samples.len() >= 1,
        ;
        let frame = data.take(c);
        let rest = data.skip(c);
        let later = samples.drop_first();
        assert forall|i: int| 0 <= i < frame.len() implies frame[i] == samples[0] by {
            assert(i / c == 0) by (nonlinear_arith)
                requires
                    0 <= i < c,
            ;
            assert(data[i] == samples[i / c]);
        }
        lemma_sum_of_equal(frame, samples[0]);
        lemma_mean_of_equal(samples[0], channels);
        assert forall|i: int| 0 <= i < rest.len() implies #[trigger] rest[i] == later[i / c] by {
            assert((i + c) / c == i / c + 1) by (nonlinear_arith)
                requires
                    0 <= i,
                    0 < c,
            ;
            assert(i / c >= 0) by (nonlinear_arith)
                requires
                    0 <= i,
                    0 < c,
            ;
            assert(i / c < later.len()) by (nonlinear_arith)
                requires
                    0 <= i < later.len() * c,
                    0 < c,
            ;
            assert(data[i + c] == samples[(i + c) / c]);
        }
        lemma_means_of_equal(rest, channels, later);
        assert(frame_means(data, channels) =~= seq![samples[0]] + later);
        assert(seq![samples[0]] + later =~= samples);
    }
}

/// The whole voice frames at the beginning of `s`, in order.
pub open spec fn frames_of(s: Seq<i16>) -> Seq<Seq<i16>>
    decreases s.len(),
{
    if s.len() < FRAME_SIZE {
        seq![]
    } else {
        seq![s.take(FRAME_SIZE as int)] + frames_of(s.skip(FRAME_SIZE as int))
    }
}

/// What follows the whole voice frames of `s`.
pub open spec fn rest_of(s: Seq<i16>) -> Seq<i16>
    decreases s.len(),
{
    if s.len() < FRAME_SIZE {
        s
    } else {
        rest_of(s.skip(FRAME_SIZE as int))
    }
}

/// The samples of a captured buffer.
pub open spec fn sound_of(sound: Option<Vec<i16>>) -> Option<Seq<i16>> {
    match sound {
        Some(samples) => Some(samples@),
        None => None,
    }
}

/// The frames to send when a store of `held` takes in `sound`.
pub open spec fn captured_frames(held: Seq<i16>, sound: Option<Seq<i16>>) -> Seq<Seq<i16>> {
    match sound {
        Some(samples) => frames_of(held + samples),
        None => seq![],
    }
}

/// What a store of `held` keeps when it takes in `sound`.
pub open spec fn captured_rest(held: Seq<i16>, sound: Option<Seq<i16>>) -> Seq<i16> {
    match sound {
        Some(samples) => rest_of(held + samples),
        None => held,
    }
}

/// Gathers captured samples into voice frames.
pub struct FrameAccum {
    samples: Vec<i16>,
}

impl View for FrameAccum {
    type V = Seq<i16>;

    closed spec fn view(&self) -> Seq<i16> {
        self.samples@
    }
}

impl FrameAccum {
    /// Makes an empty store.
    pub fn new() -> (r: FrameAccum)
        ensures
            r@ == Seq::<i16>::empty(),
    {
        FrameAccum { samples: Vec::with_capacity(FRAME_SIZE * 2) }
    }

    /// Takes in what one buffer of the microphone came to, and hands out the
    /// frames to send. `None` is a buffer that was not let in.
    pub fn on_captured(&mut self, sound: &Option<Vec<i16>>) -> (r: Vec<Vec<i16>>)
        ensures
            r@.map_values(|f: Vec<i16>| f@) == captured_frames(old(self)@, sound_of(*sound)),
            final(self)@ == captured_rest(old(self)@, sound_of(*sound)),
    {
        match sound {
            Some(samples) => self.take_frames(samples.as_slice()),
            None => {
                let none: Vec<Vec<i16>> = Vec::new();
                assert(none@.map_values(|f: Vec<i16>| f@) =~= Seq::<Seq<i16>>::empty());
                none
            },
        }
    }

    /// Adds samples and hands out every frame that is now whole.
    pub fn take_frames(&mut self, input: &[i16]) -> (r: Vec<Vec<i16>>)
        ensures
            r@.map_values(|f: Vec<i16>| f@) == frames_of(old(self)@ + input@),
            final(self)@ == rest_of(old(self)@ + input@),
    {
        let ghost all = self.samples@ + input@;
        self.samples.extend_from_slice(input);
        assert(self.samples@ =~= all);
        let mut frames: Vec<Vec<i16>> = Vec::new();
        assert(frames@.map_values(|f: Vec<i16>| f@) + frames_of(all) =~= frames_of(all));
        while self.samples.len() >= FRAME_SIZE
            invariant
                frames@.map_values(|f: Vec<i16>| f@) + frames_of(self.samples@) == frames_of(all),
                rest_of(self.samples@) == rest_of(all),
            decreases self.samples@.len(),
        {
            let ghost before = self.samples@;
            let ghost done = frames@.map_values(|f: Vec<i16>| f@);
            let mut frame: Vec<i16> = self.samples.split_off(FRAME_SIZE);
            std::mem::swap(&mut self.samples, &mut frame);
            proof {
                assert(frame@ =~= before.take(FRAME_SIZE as int));
                assert(self.samples@ =~= before.skip(FRAME_SIZE as int));
            }
            let ghost taken = frame@;
            frames.push(frame);
            proof {
                assert(frames@.map_values(|f: Vec<i16>| f@) =~= done.push(taken));
                assert(done.push(taken) + frames_of(self.samples@) =~= done + frames_of(before));
            }
        }
        assert(frames@.map_values(|f: Vec<i16>| f@) =~= frames_of(all));
        frames
    }
}

/// Framing loses and reorders nothing: the frames, one after the other, and what
/// is left over are the samples. Every frame has the full size, and less than a
/// frame is left over.
pub proof fn framing_is_lossless(s: Seq<i16>)
    ensures
        frames_of(s).flatten() + rest_of(s) == s,
        rest_of(s).len() < FRAME_SIZE,
        forall|i: int| 0 <= i < frames_of(s).len() ==> (#[trigger] frames_of(s)[i]).len() == FRAME_SIZE,
    decreases s.len(),
{
    if s.len() >= FRAME_SIZE {
        let first = s.take(FRAME_SIZE as int);
        let later = s.skip(FRAME_SIZE as int);
        framing_is_lossless(later);
        assert(frames_of(s).drop_first() =~= frames_of(later));
        assert(frames_of(s).first() == first);
        assert(frames_of(s).flatten() == first + frames_of(later).flatten());
        assert(first + frames_of(later).flatten() + rest_of(later) =~= first + (frames_of(
            later,
        ).flatten() + rest_of(later)));
        assert(first + later =~= s);
    } else {
        assert(frames_of(s).flatten() =~= Seq::<i16>::empty());
        assert(frames_of(s).flatten() + rest_of(s) =~= s);
    }
}

/// How captured sound is cut into pieces on its way does not matter: samples
/// that come in two pieces give the same frames and the same rest as in one.
pub proof fn framing_ignores_pieces(held: Seq<i16>, a: Seq<i16>, b: Seq<i16>)
    ensures
        frames_of(held + a) + frames_of(rest_of(held + a) + b) == frames_of(held + (a + b)),
        rest_of(rest_of(held + a) + b) == rest_of(held + (a + b)),
{
    assert(held + (a + b) =~= (held + a) + b);
    lemma_framing_continues(held + a, b);
}

proof fn lemma_framing_continues(s: Seq<i16>, b: Seq<i16>)
    ensures
        frames_of(s) + frames_of(rest_of(s) + b) == frames_of(s + b),
        rest_of(rest_of(s) + b) == rest_of(s + b),
    decreases s.len(),
{
    if s.len() >= FRAME_SIZE {
        let later = s.skip(FRAME_SIZE as int);
        lemma_framing_continues(later, b);
        assert((s + b).skip(FRAME_SIZE as int) =~= later + b);
        assert((s + b).take(FRAME_SIZE as int) =~= s.take(FRAME_SIZE as int));
        assert(frames_of(s) + frames_of(rest_of(s) + b) =~= frames_of(s + b));
    } else {
        assert(frames_of(s) + frames_of(s + b) =~= frames_of(s + b));
    }
}

/// The samples that a resampler has taken in and may still need.
pub struct CarryBuffer {
    samples: Vec<i16>,
}

impl View for CarryBuffer {
    type V = Seq<i16>;

    closed spec fn view(&self) -> Seq<i16> {
        self.samples@
    }
}

impl CarryBuffer {
    /// Makes an empty buffer.
    pub fn new() -> (r: CarryBuffer)
        ensures
            r@ == Seq::<i16>::empty(),
    {
        CarryBuffer { samples: Vec::new() }
    }

    /// Takes samples in.
    pub fn push(&mut self, input: &[i16])
        ensures
            final(self)@ == old(self)@ + input@,
    {
        let ghost before = self.samples@;
        self.samples.extend_from_slice(input);
        assert(self.samples@ =~= before + input@);
    }

    /// The samples on either side of a position between `idx` and `idx + 1`, or
    /// `None` where the second has not come yet.
    pub fn pair(&self, idx: usize) -> (r: Option<(i16, i16)>)
        ensures
            r == (if idx + 1 < self@.len() {
                Some((self@[idx as int], self@[idx + 1]))
            } else {
                None
            }),
    {
        if idx < self.samples.len() && idx + 1 < self.samples.len() {
            Some((self.samples[idx], self.samples[idx + 1]))
        } else {
            None
        }
    }

    /// Lets go of the first `count` samples, where there are that many, and says
    /// whether any went.
    pub fn discard(&mut self, count: usize) -> (r: bool)
        ensures
            r == (0 < count <= old(self)@.len()),
            final(self)@ == (if r {
                old(self)@.skip(count as int)
            } else {
                old(self)@
            }),
    {
        if count > 0 && count <= self.samples.len() {
            let ghost before = self.samples@;
            let mut rest: Vec<i16> = self.samples.split_off(count);
            std::mem::swap(&mut self.samples, &mut rest);
            assert(self.samples@ =~= before.skip(count as int));
            true
        } else {
            false
        }
    }
}

/// The two samples between which a resampler that asks for sound stands.
pub struct PullWindow {
    pub prev: i16,
    pub curr: i16,
}

impl PullWindow {
    /// Starts between the first two samples.
    pub fn new(prev: i16, curr: i16) -> (r: PullWindow)
        ensures
            r.prev == prev,
            r.curr == curr,
    {
        PullWindow { prev, curr }
    }

    /// Moves on by one sample.
    pub fn advance(&mut self, next: i16)
        ensures
            final(self).prev == old(self).curr,
            final(self).curr == next,
    {
        self.prev = self.curr;
        self.curr = next;
    }
}

/// The sum of the numbers.
pub open spec fn total(s: Seq<i32>) -> int
    decreases s.len(),
{
    if s.len() == 0 {
        0
    } else {
        total(s.drop_last()) + s.last()
    }
}

/// Whether the running sum of `s` stays within 32 bits.
pub open spec fn total_fits(s: Seq<i32>) -> bool {
    forall|j: int| 0 <= j <= s.len() ==> i32::MIN <= #[trigger] total(s.take(j)) <= i32::MAX
}

/// `x`, or the nearest number that is a sample.
pub open spec fn clamped(x: int) -> i16 {
    if x < i16::MIN {
        i16::MIN
    } else if x > i16::MAX {
        i16::MAX
    } else {
        x as i16
    }
}

/// Decides [`total_fits`].
pub fn mix_fits(scaled: &[i32]) -> (r: bool)
    ensures
        r == total_fits(scaled@),
{
    let mut sum: i32 = 0;
    let mut i: usize = 0;
    while i < scaled.len()
        invariant
            i <= scaled@.len(),
            sum == total(scaled@.take(i as int)),
            forall|j: int|
                0 <= j <= i ==> i32::MIN <= #[trigger] total(scaled@.take(j)) <= i32::MAX,
        decreases scaled@.len() - i,
    {
        let ghost next = scaled@.take(i + 1);
        proof {
            assert(next.drop_last() =~= scaled@.take(i as int));
            assert(total(next) == sum + scaled@[i as int]);
        }
        match sum.checked_add(scaled[i]) {
            Some(s) => {
                sum = s;
            },
            None => {
                assert(!(i32::MIN <= total(scaled@.take(i + 1)) <= i32::MAX));
                return false;
            },
        }
        i = i + 1;
    }
    true
}

/// Mixes the samples of those who speak: their sum, kept within the range of a
/// sample.
pub fn mix(scaled: &[i32]) -> (r: i16)
    requires
        total_fits(scaled@),
    ensures
        r == clamped(total(scaled@)),
{
    let mut sum: i32 = 0;
    let mut i: usize = 0;
    while i < scaled.len()
        invariant
            i <= scaled@.len(),
            total_fits(scaled@),
            sum == total(scaled@.take(i as int)),
        decreases scaled@.len() - i,
    {
        proof {
            let next = scaled@.take(i + 1);
            assert(next.drop_last() =~= scaled@.take(i as int));
            assert(i32::MIN <= total(next) <= i32::MAX);
        }
        sum = sum + scaled[i];
        i = i + 1;
    }
    assert(scaled@.take(i as int) =~= scaled@);
    if sum < i16::MIN as i32 {
        i16::MIN
    } else if sum > i16::MAX as i32 {
        i16::MAX
    } else {
        sum as i16
    }
}

/// Nobody speaks: silence. One speaks: that sample. Two speak: the sum of both,
/// whichever comes first.
pub proof fn mix_of_few(a: i16, b: i16)
    ensures
        clamped(total(seq![])) == 0,
        clamped(total(seq![a as i32])) == a,
        clamped(total(seq![a as i32, b as i32])) == clamped(a + b),
        clamped(total(seq![b as i32, a as i32])) == clamped(a + b),
{
    reveal_with_fuel(total, 3);
    assert(seq![a as i32].drop_last() =~= Seq::<i32>::empty());
    assert(seq![a as i32, b as i32].drop_last() =~= seq![a as i32]);
    assert(seq![b as i32, a as i32].drop_last() =~= seq![b as i32]);
    assert(seq![b as i32].drop_last() =~= Seq::<i32>::empty());
}

proof fn lemma_total_concat(s: Seq<i32>, t: Seq<i32>)
    ensures
        total(s + t) == total(s) + total(t),
    decreases t.len(),
{
    if t.len() == 0 {
        assert(s + t =~= s);
    } else {
        assert((s + t).drop_last() =~= s + t.drop_last());
        lemma_total_concat(s, t.drop_last());
    }
}

/// The order in which the speakers are taken does not change the mix.
pub proof fn mix_ignores_order(s: Seq<i32>, t: Seq<i32>)
    requires
        s.to_multiset() == t.to_multiset(),
    ensures
        clamped(total(s)) == clamped(total(t)),
{
    lemma_total_of_multiset(s, t);
}

proof fn lemma_total_of_multiset(s: Seq<i32>, t: Seq<i32>)
    requires
        s.to_multiset() == t.to_multiset(),
    ensures
        total(s) == total(t),
    decreases s.len(),
{
    broadcast use vstd::seq_lib::group_to_multiset_ensures;

    assert(s.len() == s.to_multiset().len() && t.len() == t.to_multiset().len());
    if s.len() > 0 {
        let x = s.last();
        assert(s.contains(x));
        assert(t.to_multiset().count(x) > 0);
        assert(t.contains(x));
        let k = choose|k: int| 0 <= k < t.len() && t[k] == x;
        let front = t.take(k);
        let back = t.skip(k + 1);
        assert(t =~= (front + seq![x]) + back);
        lemma_total_concat(front + seq![x], back);
        lemma_total_concat(front, seq![x]);
        lemma_total_concat(front, back);
        assert(seq![x].drop_last() =~= Seq::<i32>::empty());
        reveal_with_fuel(total, 2);
        assert(t.remove(k) =~= front + back);
        assert(s.remove(s.len() - 1) =~= s.drop_last());
        assert(s.drop_last().to_multiset() =~= t.remove(k).to_multiset());
        lemma_total_of_multiset(s.drop_last(), t.remove(k));
    }
}

/// The sum of some samples, and that of some numbers, is what comes of adding one
/// after the other to nothing.
pub proof fn sums_add_up(s: Seq<i16>, t: Seq<i32>)
    ensures
        sum(s) == s.fold_left(0int, |acc: int, x: i16| acc + x),
        total(t) == t.fold_left(0int, |acc: int, x: i32| acc + x),
    decreases s.len(), t.len(),
{
    if s.len() > 0 {
        sums_add_up(s.drop_last(), t);
    } else if t.len() > 0 {
        sums_add_up(s, t.drop_last());
    }
}

/// Sound of one channel, or of none, is left as it is.
pub proof fn one_channel_is_left_alone(data: Seq<i16>, channels: nat)
    requires
        channels <= 1,
    ensures
        downmixed(data, channels) == data,
{
}

/// A sample of the sound that was brought down to one channel is the mean of its
/// frame, which may be cut short at the end: times the channels, it misses the sum
/// of the frame by less than the channels, and always on the side of zero.
pub proof fn each_frame_gives_its_mean(data: Seq<i16>, channels: nat, k: nat)
    requires
        channels > 1,
        k * channels < data.len(),
    ensures
        k < downmixed(data, channels).len(),
        ({
            let end = if (k + 1) * channels < data.len() {
                (k + 1) * channels
            } else {
                data.len()
            };
            let frame = data.subrange((k * channels) as int, end as int);
            let added = frame.fold_left(0int, |acc: int, x: i16| acc + x);
            let mean = downmixed(data, channels)[k as int];
            &&& added >= 0 ==> mean * channels <= added < mean * channels + channels
            &&& added < 0 ==> mean * channels - channels < added <= mean * channels
        }),
    decreases k,
{
    let c = channels as int;
    let n = first_frame_len(data, channels) as int;
    let later = frame_means(data.skip(n), channels);
    let end = if (k + 1) * channels < data.len() {
        (k + 1) * channels
    } else {
        data.len()
    };
    let frame = data.subrange((k * channels) as int, end as int);
    if k == 0 {
        assert(0 * channels == 0 && 1 * channels == channels) by (nonlinear_arith);
        assert(frame =~= data.take(n));
        sums_add_up(frame, Seq::<i32>::empty());
        lemma_sum_bounds(frame);
        lemma_mean_fits(sum(frame), n, c);
        lemma_trunc_div_is_near(sum(frame), c);
        assert(downmixed(data, channels)[0] == trunc_div(sum(frame), c));
    } else {
        let before = (k - 1) as nat;
        assert(k * channels == before * channels + channels && (k + 1) * channels == (before + 1)
            * channels + channels && before * channels >= 0) by (nonlinear_arith)
            requires
                before == k - 1,
        ;
        let tail = data.skip(n);
        each_frame_gives_its_mean(tail, channels, before);
        let tail_end = if (before + 1) * channels < tail.len() {
            (before + 1) * channels
        } else {
            tail.len()
        };
        assert(tail.subrange((before * channels) as int, tail_end as int) =~= frame);
        assert(downmixed(data, channels)[k as int] == later[before as int]);
    }
}

proof fn lemma_trunc_div_is_near(a: int, b: int)
    requires
        b > 0,
    ensures
        a >= 0 ==> trunc_div(a, b) * b <= a < trunc_div(a, b) * b + b,
        a < 0 ==> trunc_div(a, b) * b - b < a <= trunc_div(a, b) * b,
{
    if a >= 0 {
        let q = a / b;
        assert(q * b <= a < q * b + b) by (nonlinear_arith)
            requires
                q == a / b,
                b > 0,
        ;
    } else {
        let m = -a;
        let q = m / b;
        assert(q * b <= m < q * b + b) by (nonlinear_arith)
            requires
                q == m / b,
                b > 0,
        ;
        assert((-q) * b == -(q * b)) by (nonlinear_arith);
    }
}

/// The frames that hold some samples are as many as are needed and no more, and
/// bringing the samples down to one channel gives one sample for each.
pub proof fn no_frame_too_many(data: Seq<i16>, channels: nat)
    requires
        channels > 0,
    ensures
        data.len() <= frame_count(data.len(), channels) * channels,
        data.len() > 0 ==> (frame_count(data.len(), channels) - 1) * channels < data.len(),
        data.len() == 0 ==> frame_count(data.len(), channels) == 0,
        downmixed(data, channels).len() == frame_count(data.len(), channels),
{
    lemma_frame_count(data.len(), channels);
    if channels > 1 {
        lemma_means_len(data, channels);
    } else {
        assert(frame_count(data.len(), 1) == data.len());
    }
}

proof fn lemma_frame_count(len: nat, channels: nat)
    requires
        channels > 0,
    ensures
        len <= frame_count(len, channels) * channels,
        len > 0 ==> (frame_count(len, channels) - 1) * channels < len,
        len == 0 ==> frame_count(len, channels) == 0,
{
    let q = len / channels;
    let r = len % channels;
    vstd::arithmetic::div_mod::lemma_fundamental_div_mod(len as int, channels as int);
    assert(q * channels == channels * q && (q + 1) * channels == channels * q + channels && (q - 1)
        * channels == channels * q - channels) by (nonlinear_arith);
    if len == 0 {
        assert(0nat / channels == 0 && 0nat % channels == 0) by (nonlinear_arith)
            requires
                channels > 0,
        ;
    }
}

proof fn lemma_frame_count_is_unique(len: nat, channels: nat, m: int)
    requires
        channels > 0,
        len <= m * channels,
        len > 0 ==> (m - 1) * channels < len,
        len == 0 ==> m == 0,
    ensures
        m == frame_count(len, channels),
{
    lemma_frame_count(len, channels);
    let f = frame_count(len, channels);
    if len > 0 {
        assert(m == f) by (nonlinear_arith)
            requires
                channels > 0,
                len <= m * channels,
                (m - 1) * channels < len,
                len <= f * channels,
                (f - 1) * channels < len,
        ;
    }
}

proof fn lemma_means_len(data: Seq<i16>, channels: nat)
    requires
        channels > 0,
    ensures
        frame_means(data, channels).len() == frame_count(data.len(), channels),
    decreases data.len(),
{
    lemma_frame_count(data.len(), channels);
    if data.len() > 0 {
        let n = first_frame_len(data, channels) as int;
        let rest = data.skip(n);
        lemma_means_len(rest, channels);
        lemma_frame_count(rest.len(), channels);
        let f = frame_count(rest.len(), channels) as int;
        assert((f + 1) * channels == f * channels + channels && ((f + 1) - 1) * channels == (f - 1)
            * channels + channels) by (nonlinear_arith);
        if rest.len() == 0 {
            assert(f * channels == 0) by (nonlinear_arith)
                requires
                    f == 0,
            ;
        }
        lemma_frame_count_is_unique(data.len(), channels, f + 1);
    }
}

/// Capturing loses, repeats and reorders nothing: the frames that are handed out,
/// one after the other, and what is kept are what was held and what came in.
/// Every frame has the full size, and less than a frame is kept.
pub proof fn capturing_is_lossless(held: Seq<i16>, samples: Seq<i16>)
    ensures
        captured_frames(held, Some(samples)).flatten() + captured_rest(held, Some(samples)) == held
            + samples,
        forall|i: int|
            0 <= i < captured_frames(held, Some(samples)).len() ==> (#[trigger] captured_frames(
                held,
                Some(samples),
            )[i]).len() == 480,
        captured_rest(held, Some(samples)).len() < 480,
{
    framing_is_lossless(held + samples);
}

/// A buffer that was let in counts with its samples; one that was not brings no
/// frame and leaves what is held.
pub proof fn what_is_not_let_in_changes_nothing(held: Seq<i16>, samples: Vec<i16>)
    ensures
        sound_of(Some(samples)) == Some(samples@),
        sound_of(None) is None,
        captured_frames(held, None).len() == 0,
        captured_rest(held, None) == held,
{
}

/// Sound that is captured in two buffers gives the frames of the one buffer that
/// holds both, whether or not a buffer that is not let in comes between them.
pub proof fn capturing_ignores_buffers(held: Seq<i16>, a: Seq<i16>, b: Seq<i16>)
    ensures
        ({
            let kept = captured_rest(held, Some(a));
            let kept2 = captured_rest(kept, None);
            &&& captured_frames(held, Some(a)) + captured_frames(kept, None) + captured_frames(
                kept2,
                Some(b),
            ) == captured_frames(held, Some(a + b))
            &&& captured_rest(kept2, Some(b)) == captured_rest(held, Some(a + b))
        }),
{
    framing_ignores_pieces(held, a, b);
    assert(frames_of(held + a) + Seq::<Seq<i16>>::empty() =~= frames_of(held + a));
}

/// A number that is a sample stays; one above or below the samples gives way to
/// the highest or lowest. So the larger of two numbers never gives the smaller
/// sample.
pub proof fn clamping_takes_the_nearest(x: int, y: int)
    ensures
        -32768 <= x <= 32767 ==> clamped(x) == x,
        x > 32767 ==> clamped(x) == 32767,
        x < -32768 ==> clamped(x) == -32768,
        x <= y ==> clamped(x) <= clamped(y),
{
}

/// The running sum of numbers fits exactly where every beginning of them adds up
/// to a number of 32 bits.
pub proof fn running_sums_that_fit(t: Seq<i32>)
    ensures
        total_fits(t) <==> forall|j: int|
            0 <= j <= t.len() ==> -0x8000_0000 <= (#[trigger] t.take(j)).fold_left(
                0int,
                |acc: int, x: i32| acc + x,
            ) <= 0x7fff_ffff,
{
    let f = |acc: int, x: i32| acc + x;
    assert forall|j: int| 0 <= j <= t.len() implies total(#[trigger] t.take(j)) == t.take(
        j,
    ).fold_left(0int, f) by {
        sums_add_up(Seq::<i16>::empty(), t.take(j));
    }
    if forall|j: int| 0 <= j <= t.len() ==> -0x8000_0000 <= (#[trigger] t.take(j)).fold_left(0int, f)
        <= 0x7fff_ffff {
        assert forall|j: int| 0 <= j <= t.len() implies i32::MIN <= #[trigger] total(t.take(j))
            <= i32::MAX by {
            assert(total(t.take(j)) == t.take(j).fold_left(0int, f));
        }
    }
    if total_fits(t) {
        assert forall|j: int| 0 <= j <= t.len() implies -0x8000_0000 <= (#[trigger] t.take(
            j,
        )).fold_left(0int, f) <= 0x7fff_ffff by {
            assert(i32::MIN <= total(t.take(j)) <= i32::MAX);
        }
    }
}

/// At gains up to two, the samples of as many as 32767 speakers can be added.
pub proof fn many_speakers_fit(t: Seq<i32>)
    requires
        t.len() <= 32767,
        forall|i: int| 0 <= i < t.len() ==> -65536 <= #[trigger] t[i] <= 65536,
    ensures
        total_fits(t),
{
    assert forall|j: int| 0 <= j <= t.len() implies i32::MIN <= #[trigger] total(t.take(j))
        <= i32::MAX by {
        lemma_total_bounds(t.take(j));
    }
}

proof fn lemma_total_bounds(t: Seq<i32>)
    requires
        forall|i: int| 0 <= i < t.len() ==> -65536 <= #[trigger] t[i] <= 65536,
    ensures
        -65536 * t.len() <= total(t) <= 65536 * t.len(),
    decreases t.len(),
{
    if t.len() > 0 {
        assert(-65536 <= t[t.len() - 1] <= 65536);
        lemma_total_bounds(t.drop_last());
    }
}

} // verus!
