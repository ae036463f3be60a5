//! Voice: packets, the queues of those who speak, devices, and how a voice
//! session is started.
//!
//! A voice packet is the mark [`VOICE_MAGIC`] and one Opus frame.
use crate::addr::{AddrMap, SocketAddr, Stamped};
use crate::pcm::{mix, mix_fits};
use crate::settings::{NANOS_PER_SEC, PEER_TIMEOUT_SECS, SAMPLE_RATE, VOICE_PORT};
use crate::state::{SharedState, StateInfo};
use crate::text::push_decimal;
use std::collections::VecDeque;
use vstd::prelude::*;

verus! {

/// The mark that a voice packet begins with: `VLV2`.
pub const VOICE_MAGIC: [u8; 4] = [0x56, 0x4c, 0x56, 0x32];

/// The packet that carries `frame`.
pub open spec fn voice_bytes(frame: Seq<u8>) -> Seq<u8> {
    VOICE_MAGIC@ + frame
}

/// The frame in a voice packet; `None` for bytes that are none.
pub open spec fn voice_frame(data: Seq<u8>) -> Option<Seq<u8>> {
    if data.len() < 4 || data.take(4) != VOICE_MAGIC@ {
        None
    } else {
        Some(data.skip(4))
    }
}

/// Makes the packet that carries `frame`.
pub fn voice_packet(frame: &[u8]) -> (r: Vec<u8>)
    ensures
        r@ == voice_bytes(frame@),
{
    let mark: [u8; 4] = VOICE_MAGIC;
    let mut packet: Vec<u8> = Vec::new();
    packet.extend_from_slice(mark.as_slice());
    packet.extend_from_slice(frame);
    assert(packet@ =~= voice_bytes(frame@));
    packet
}

/// Takes the frame out of a voice packet.
pub fn voice_payload(data: &[u8]) -> (r: Option<Vec<u8>>)
    ensures
        match r {
            Some(frame) => voice_frame(data@) == Some(frame@),
            None => voice_frame(data@) is None,
        },
{
    if data.len() < 4 {
        return None;
    }
    let mark: [u8; 4] = VOICE_MAGIC;
    let mut i: usize = 0;
    while i < 4
        invariant
            i <= 4,
            data@.len() >= 4,
            mark@ == VOICE_MAGIC@,
            forall|k: int| 0 <= k < i ==> data@[k] == VOICE_MAGIC@[k],
        decreases 4 - i,
    {
        if data[i] != mark[i] {
            assert(data@.take(4)[i as int] != VOICE_MAGIC@[i as int]);
            return None;
        }
        i = i + 1;
    }
    assert(data@.take(4) =~= VOICE_MAGIC@);
    let frame = vstd::slice::slice_to_vec(vstd::slice::slice_subrange(data, 4, data.len()));
    assert(frame@ =~= data@.skip(4));
    Some(frame)
}

/// The frame that a packet was made for is the frame that is taken out of it.
pub proof fn frame_is_read_back(frame: Seq<u8>)
    ensures
        voice_frame(voice_bytes(frame)) == Some(frame),
{
    assert(voice_bytes(frame).take(4) =~= VOICE_MAGIC@);
    assert(voice_bytes(frame).skip(4) =~= frame);
}

/// No bytes are both a voice packet and an announcement.
pub proof fn packets_are_told_apart(data: Seq<u8>)
    ensures
        voice_frame(data) is None || crate::network::read_announce(data) is None,
{
    if voice_frame(data) is Some && crate::network::read_announce(data) is Some {
        assert(data.take(4)[1] == VOICE_MAGIC@[1]);
        assert(data.take(8)[1] == crate::network::MAGIC@[1]);
    }
}

/// The sound that one participant has sent and that was not played yet, and the
/// moment of the last packet, in nanoseconds of a monotonic clock.
pub struct PeerVoice {
    pub pcm: VecDeque<i16>,
    pub last_packet: u128,
}

/// What a [`PeerVoice`] says.
pub struct VoiceInfo {
    pub pcm: Seq<i16>,
    pub last_packet: u128,
}

impl View for PeerVoice {
    type V = VoiceInfo;

    open spec fn view(&self) -> VoiceInfo {
        VoiceInfo { pcm: self.pcm@, last_packet: self.last_packet }
    }
}

impl Stamped for PeerVoice {
    open spec fn spec_stamp(&self) -> u128 {
        self.last_packet
    }

    fn stamp(&self) -> (r: u128) {
        self.last_packet
    }
}

impl VoiceInfo {
    /// The queue without its first sample.
    pub open spec fn popped(self) -> VoiceInfo {
        if self.pcm.len() == 0 {
            self
        } else {
            VoiceInfo { pcm: self.pcm.drop_first(), ..self }
        }
    }

    /// The queue with `samples` behind it, heard at `now`, and without the
    /// oldest samples beyond one second of sound.
    pub open spec fn extended(self, samples: Seq<i16>, now: u128) -> VoiceInfo {
        VoiceInfo {
            pcm: crate::state::newest(self.pcm + samples, SAMPLE_RATE as nat),
            last_packet: now,
        }
    }
}

/// The queue of someone who was first heard at `now`.
pub open spec fn fresh_voice(now: u128) -> VoiceInfo {
    VoiceInfo { pcm: seq![], last_packet: now }
}

/// The queues of all who speak, by the address that their packets come from.
pub struct PeerAudio {
    voices: AddrMap<PeerVoice>,
}

impl View for PeerAudio {
    type V = Map<SocketAddr, VoiceInfo>;

    closed spec fn view(&self) -> Map<SocketAddr, VoiceInfo> {
        self.voices@.map_values(|v: PeerVoice| v@)
    }
}

/// The first sample of each queue that has one, with the gain of its owner, for
/// the owners `keys`.
pub open spec fn spoken(
    keys: Seq<SocketAddr>,
    voices: Map<SocketAddr, VoiceInfo>,
    state: StateInfo,
) -> Seq<(i16, u32)>
    decreases keys.len(),
{
    if keys.len() == 0 {
        seq![]
    } else {
        let before = spoken(keys.drop_last(), voices, state);
        let a = keys.last();
        if voices[a].pcm.len() == 0 {
            before
        } else {
            before.push((voices[a].pcm[0], state.gain(a)))
        }
    }
}

/// Those whose last packet came less than [`PEER_TIMEOUT_SECS`] before `now`.
pub open spec fn recent_voices(
    voices: Map<SocketAddr, VoiceInfo>,
    now: u128,
) -> Map<SocketAddr, VoiceInfo> {
    Map::new(
        |a: SocketAddr|
            voices.dom().contains(a) && crate::addr::is_recent(
                voices[a].last_packet,
                now,
                voice_timeout(),
            ),
        |a: SocketAddr| voices[a],
    )
}

/// [`PEER_TIMEOUT_SECS`] in nanoseconds.
pub open spec fn voice_timeout() -> u128 {
    (PEER_TIMEOUT_SECS * NANOS_PER_SEC) as u128
}

/// What came of waiting for a datagram on the voice port.
pub enum VoiceReceived {
    Datagram { data: Vec<u8>, src: SocketAddr },
    /// Nothing was there.
    WouldBlock,
    /// Nothing came in time.
    TimedOut,
    /// The socket failed, for the reason given.
    Failed(String),
}

/// A frame to be decoded by the decoder of `src`. `fresh` tells that `src` is
/// newly heard and has to be given a new decoder first.
pub struct DecodeJob {
    pub src: SocketAddr,
    pub frame: Vec<u8>,
    pub fresh: bool,
}

/// The queues after `event` at `now`: a sender of voice packets that is not
/// known is entered.
pub open spec fn voices_after(
    voices: Map<SocketAddr, VoiceInfo>,
    event: VoiceReceived,
    now: u128,
) -> Map<SocketAddr, VoiceInfo> {
    match event {
        VoiceReceived::Datagram { data, src } => if voice_frame(data@) is Some
            && !voices.dom().contains(src) {
            voices.insert(src, fresh_voice(now))
        } else {
            voices
        },
        _ => voices,
    }
}

impl PeerAudio {
    /// No queue holds more than one second of sound.
    pub closed spec fn wf(&self) -> bool {
        &&& self.voices.wf()
        &&& forall|a: SocketAddr| #[trigger]
            self@.dom().contains(a) ==> self@[a].pcm.len() <= SAMPLE_RATE
    }

    /// What [`PeerAudio::wf`] says of the queues.
    pub proof fn queues_are_bounded(&self, a: SocketAddr)
        requires
            self.wf(),
            self@.dom().contains(a),
        ensures
            self@[a].pcm.len() <= SAMPLE_RATE,
    {
    }

    /// The addresses in the order in which the mixer asks them.
    pub closed spec fn keys(&self) -> Seq<SocketAddr> {
        self.voices.keys()
    }

    /// The mixer asks everyone exactly once.
    pub proof fn everyone_is_asked_once(&self)
        requires
            self.wf(),
        ensures
            self.keys().no_duplicates(),
            self.keys().to_set() == self@.dom(),
    {
        self.voices.lemma_keys();
        assert(self@.dom() =~= self.voices@.dom());
    }

    /// While the sound is not muted, whatever else the state holds, the mixer is
    /// given one sample of everyone whose queue is not empty, and none else: any
    /// pair of a sample and a gain as often as there are queues that begin with
    /// the one and belong to an owner of the other.
    pub proof fn the_mixer_gets_every_queue_once(&self, state: StateInfo, pair: (i16, u32))
        requires
            self.wf(),
            !state.sound_muted,
        ensures
            audible(self.keys(), self@, state).to_multiset().count(pair) == self@.dom().filter(
                |a: SocketAddr|
                    self@[a].pcm.len() > 0 && self@[a].pcm[0] == pair.0 && pair.1 == (
                    if state.peer_gains.dom().contains(a) {
                        state.peer_gains[a]
                    } else {
                        0x3f80_0000u32
                    }),
            ).len(),
            audible(self.keys(), self@, state).len() == self@.dom().filter(
                |a: SocketAddr| self@[a].pcm.len() > 0,
            ).len(),
    {
        self.everyone_is_asked_once();
        lemma_spoken_counts(
            self.keys(),
            self@,
            state,
            pair,
            |a: SocketAddr|
                self@[a].pcm.len() > 0 && self@[a].pcm[0] == pair.0 && pair.1 == (
                if state.peer_gains.dom().contains(a) {
                    state.peer_gains[a]
                } else {
                    0x3f80_0000u32
                }),
            |a: SocketAddr| self@[a].pcm.len() > 0,
        );
    }

    /// Nobody speaks yet.
    pub fn new() -> (r: PeerAudio)
        ensures
            r.wf(),
            r@ == Map::<SocketAddr, VoiceInfo>::empty(),
    {
        let r = PeerAudio { voices: AddrMap::new() };
        assert(r@ =~= Map::<SocketAddr, VoiceInfo>::empty());
        r
    }

    /// Whether `a` has a queue.
    pub fn contains(&self, a: SocketAddr) -> (r: bool)
        requires
            self.wf(),
        ensures
            r == self@.dom().contains(a),
    {
        self.voices.contains_key(a)
    }

    /// One round of the receiving thread: hands out the frame of a voice packet
    /// to be decoded, and enters its sender. A failure of the socket is logged.
    pub fn on_received(&mut self, state: &mut SharedState, event: VoiceReceived, now: u128) -> (r:
        Option<DecodeJob>)
        requires
            old(self).wf(),
        ensures
            final(self).wf(),
            final(self)@ == voices_after(old(self)@, event, now),
            final(state).peers == old(state).peers,
            final(state).peer_gains == old(state).peer_gains,
            old(state).wf() ==> final(state).wf(),
            final(state)@ == (match event {
                VoiceReceived::Failed(e) => old(state)@.with_line(
                    "Ошибка приёма голосового пакета: "@ + e@,
                ),
                _ => old(state)@,
            }),
            match r {
                Some(job) => {
                    &&& event matches VoiceReceived::Datagram { data, src }
                    &&& job.src == src
                    &&& voice_frame(data@) == Some(job.frame@)
                    &&& job.fresh == !old(self)@.dom().contains(src)
                },
                None => event matches VoiceReceived::Datagram { data, src } ==> voice_frame(data@)
                    is None,
            },
    {
        match event {
            VoiceReceived::Datagram { data, src } => {
                match voice_payload(data.as_slice()) {
                    Some(frame) => {
                        let fresh: bool = !self.voices.contains_key(src);
                        if fresh {
                            let voice = PeerVoice { pcm: VecDeque::new(), last_packet: now };
                            self.voices.insert(src, voice);
                            assert(voice@.pcm =~= fresh_voice(now).pcm);
                            assert(self@ =~= old(self)@.insert(src, fresh_voice(now)));
                        }
                        Some(DecodeJob { src, frame, fresh })
                    },
                    None => None,
                }
            },
            VoiceReceived::WouldBlock => None,
            VoiceReceived::TimedOut => None,
            VoiceReceived::Failed(e) => {
                let mut line = String::from_str("Ошибка приёма голосового пакета: ");
                line.append(e.as_str());
                state.log(line);
                None
            },
        }
    }

    /// Takes in what the decoder made of a frame from `src` at `now`: samples for
    /// the queue, or a failure for the log. `src_text` is how `src` reads.
    pub fn on_decoded(
        &mut self,
        state: &mut SharedState,
        src: SocketAddr,
        src_text: &str,
        outcome: Result<Vec<i16>, String>,
        now: u128,
    )
        requires
            old(self).wf(),
            old(self)@.dom().contains(src),
        ensures
            final(self).wf(),
            final(state).peers == old(state).peers,
            final(state).peer_gains == old(state).peer_gains,
            old(state).wf() ==> final(state).wf(),
            match outcome {
                Ok(samples) => {
                    &&& final(self)@ == old(self)@.insert(
                        src,
                        old(self)@[src].extended(samples@, now),
                    )
                    &&& final(state)@ == old(state)@
                },
                Err(e) => {
                    &&& final(self)@ == old(self)@
                    &&& final(state)@ == old(state)@.with_line(
                        "Ошибка декодирования Opus-пакета от "@ + src_text@ + ": "@ + e@,
                    )
                },
            },
    {
        match outcome {
            Ok(samples) => {
                if let Some(i) = self.voices.position(src) {
                    let ghost before = self@[src];
                    let voice = self.voices.value_at_mut(i);
                    extend_voice(voice, samples.as_slice(), now);
                    proof {
                        assert(self@ =~= old(self)@.insert(src, before.extended(samples@, now)));
                    }
                }
            },
            Err(e) => {
                let mut line = String::from_str("Ошибка декодирования Opus-пакета от ");
                line.append(src_text);
                line.append(": ");
                line.append(e.as_str());
                state.log(line);
            },
        }
    }

    /// Takes the next sample of everyone who speaks, with the gain of each. While
    /// the sound is muted the samples are taken all the same, so that no delay
    /// gathers, but none is handed out.
    pub fn pull_samples(&mut self, state: &SharedState) -> (r: Vec<(i16, u32)>)
        requires
            old(self).wf(),
            state.peer_gains.wf(),
        ensures
            final(self).wf(),
            final(self)@ == old(self)@.map_values(|v: VoiceInfo| v.popped()),
            final(self).keys() == old(self).keys(),
            r@ == audible(old(self).keys(), old(self)@, state@),
    {
        let ghost before = self@;
        let ghost keys = self.keys();
        let mut out: Vec<(i16, u32)> = Vec::new();
        let count: usize = self.voices.len();
        let mut i: usize = 0;
        proof {
            self.everyone_is_asked_once();
            assert(keys.take(0) =~= Seq::<SocketAddr>::empty());
        }
        while i < count
            invariant
                old(self).wf(),
                state.peer_gains.wf(),
                before == old(self)@,
                keys == old(self).keys(),
                keys.no_duplicates(),
                keys.to_set() == before.dom(),
                self.voices.wf(),
                self.voices.keys() == keys,
                count == keys.len(),
                i <= count,
                self@.dom() == before.dom(),
                forall|k: int| 0 <= k < i ==> self@[#[trigger] keys[k]] == before[keys[k]].popped(),
                forall|k: int| i <= k < count ==> self@[#[trigger] keys[k]] == before[keys[k]],
                out@ == (if state@.sound_muted {
                    Seq::<(i16, u32)>::empty()
                } else {
                    spoken(keys.take(i as int), before, state@)
                }),
            decreases count - i,
        {
            let ghost prev = self@;
            let a: SocketAddr = self.voices.key_at(i);
            let voice = self.voices.value_at_mut(i);
            let head: Option<i16> = voice.pcm.pop_front();
            proof {
                assert(prev[a] == before[a]);
                assert(self@[a].pcm =~= before[a].popped().pcm);
                assert(self@ =~= prev.insert(a, before[a].popped()));
                assert(before.dom().contains(a)) by {
                    assert(keys.to_set().contains(keys[i as int]));
                }
                let next = keys.take(i + 1);
                assert(next.drop_last() =~= keys.take(i as int));
                assert(next.last() == a);
            }
            if let Some(s) = head {
                if !state.sound_muted {
                    out.push((s, state.peer_gain(&a)));
                }
            }
            i = i + 1;
        }
        proof {
            assert(keys.take(i as int) =~= keys);
            let after = before.map_values(|v: VoiceInfo| v.popped());
            assert forall|a: SocketAddr| self@.dom().contains(a) implies self@[a] == after[a] by {
                assert(keys.to_set().contains(a));
                let k = choose|k: int| 0 <= k < keys.len() && keys[k] == a;
                assert(self@[keys[k]] == before[keys[k]].popped());
            }
            assert(self@ =~= after);
        }
        out
    }

    /// Drops those from whom no packet came for [`PEER_TIMEOUT_SECS`].
    pub fn drop_silent(&mut self, now: u128)
        requires
            old(self).wf(),
        ensures
            final(self).wf(),
            final(self)@ == recent_voices(old(self)@, now),
    {
        let timeout: u128 = PEER_TIMEOUT_SECS as u128 * NANOS_PER_SEC;
        let _ = self.voices.drop_stale(now, timeout);
        assert(self@ =~= recent_voices(old(self)@, now));
    }
}

/// Whether `scaled` holds, for each of the samples `taken` with its gain, what
/// `scale` makes of the two.
pub open spec fn scaled_by<F: Fn(i16, u32) -> i32>(
    scale: F,
    taken: Seq<(i16, u32)>,
    scaled: Seq<i32>,
) -> bool {
    &&& scaled.len() == taken.len()
    &&& forall|i: int|
        0 <= i < taken.len() ==> call_ensures(scale, (taken[i].0, taken[i].1), #[trigger] scaled[i])
}

/// What the mixer is given at its next sample: one sample of everyone who
/// speaks, or nothing while the sound is muted.
pub open spec fn audible(
    keys: Seq<SocketAddr>,
    voices: Map<SocketAddr, VoiceInfo>,
    state: StateInfo,
) -> Seq<(i16, u32)> {
    if state.sound_muted {
        seq![]
    } else {
        spoken(keys, voices, state)
    }
}

/// Mixes one sample: takes the next sample of everyone who speaks, applies the
/// gain of each by `scale`, and adds them up within the range of a sample. `None`
/// tells that the running sum went beyond 32 bits.
pub fn pull_mixed_sample<F: Fn(i16, u32) -> i32>(
    peers_audio: &mut PeerAudio,
    state: &SharedState,
    scale: F,
) -> (r: Option<i16>)
    requires
        old(peers_audio).wf(),
        state.peer_gains.wf(),
        forall|s: i16, gain: u32| #[trigger] call_requires(scale, (s, gain)),
    ensures
        final(peers_audio).wf(),
        final(peers_audio)@ == old(peers_audio)@.map_values(|v: VoiceInfo| v.popped()),
        final(peers_audio).keys() == old(peers_audio).keys(),
        exists|scaled: Seq<i32>|
            {
                &&& #[trigger] scaled_by(
                    scale,
                    audible(old(peers_audio).keys(), old(peers_audio)@, state@),
                    scaled,
                )
                &&& r == (if crate::pcm::total_fits(scaled) {
                    Some(crate::pcm::clamped(crate::pcm::total(scaled)))
                } else {
                    None
                })
            },
{
    let taken: Vec<(i16, u32)> = peers_audio.pull_samples(state);
    let mut scaled: Vec<i32> = Vec::new();
    let mut i: usize = 0;
    while i < taken.len()
        invariant
            i <= taken@.len(),
            scaled@.len() == i,
            forall|s: i16, gain: u32| #[trigger] call_requires(scale, (s, gain)),
            forall|k: int|
                0 <= k < i ==> call_ensures(
                    scale,
                    (taken@[k].0, taken@[k].1),
                    #[trigger] scaled@[k],
                ),
        decreases taken@.len() - i,
    {
        let s: i16 = taken[i].0;
        let gain: u32 = taken[i].1;
        let x: i32 = scale(s, gain);
        scaled.push(x);
        i = i + 1;
    }
    proof {
        assert(taken@ == audible(old(peers_audio).keys(), old(peers_audio)@, state@));
        assert(scaled_by(scale, taken@, scaled@));
    }
    if mix_fits(scaled.as_slice()) {
        Some(mix(scaled.as_slice()))
    } else {
        None
    }
}

/// While the sound is muted the mixer plays silence, whatever `scale` does.
pub proof fn mute_is_silent<F: Fn(i16, u32) -> i32>(
    scale: F,
    keys: Seq<SocketAddr>,
    voices: Map<SocketAddr, VoiceInfo>,
    state: StateInfo,
    scaled: Seq<i32>,
)
    requires
        state.sound_muted,
        scaled_by(scale, audible(keys, voices, state), scaled),
    ensures
        crate::pcm::total_fits(scaled),
        crate::pcm::clamped(crate::pcm::total(scaled)) == 0,
{
    assert(scaled =~= Seq::<i32>::empty());
}

/// A queue shows its samples and the moment of its last packet, and is as old as
/// that.
pub proof fn the_queue_tells_the_moment(voice: &PeerVoice)
    ensures
        voice@.pcm == voice.pcm@,
        voice@.last_packet == voice.last_packet,
        voice.spec_stamp() == voice.last_packet,
{
}

/// Puts `samples` behind a queue and drops its oldest samples over the limit.
fn extend_voice(voice: &mut PeerVoice, samples: &[i16], now: u128)
    ensures
        final(voice)@ == old(voice)@.extended(samples@, now),
{
    let ghost queued = voice.pcm@;
    let mut i: usize = 0;
    while i < samples.len()
        invariant
            i <= samples@.len(),
            voice.pcm@ == queued + samples@.take(i as int),
        decreases samples@.len() - i,
    {
        voice.pcm.push_back(samples[i]);
        i = i + 1;
        assert(voice.pcm@ =~= queued + samples@.take(i as int));
    }
    voice.last_packet = now;
    let ghost full = queued + samples@;
    assert(samples@.take(i as int) =~= samples@);
    assert(voice.pcm@ =~= full.skip(0));
    while voice.pcm.len() > SAMPLE_RATE as usize
        invariant
            voice.last_packet == now,
            voice.pcm@.len() <= full.len(),
            voice.pcm@ == full.skip(full.len() - voice.pcm@.len()),
            full.len() > SAMPLE_RATE ==> voice.pcm@.len() >= SAMPLE_RATE,
            full.len() <= SAMPLE_RATE ==> voice.pcm@.len() == full.len(),
        decreases voice.pcm@.len(),
    {
        let _ = voice.pcm.pop_front();
        assert(voice.pcm@ =~= full.skip(full.len() - voice.pcm@.len()));
    }
    assert(voice.pcm@ =~= crate::state::newest(full, SAMPLE_RATE as nat));
}

/// A queue plays its samples in the order in which they came: what is taken from
/// the front is not disturbed by what is put behind it, as long as the queue
/// stays within one second of sound.
pub proof fn queue_is_first_in_first_out(voice: VoiceInfo, samples: Seq<i16>, now: u128)
    requires
        0 < voice.pcm.len(),
        voice.pcm.len() + samples.len() <= SAMPLE_RATE,
    ensures
        voice.extended(samples, now).pcm[0] == voice.pcm[0],
        voice.extended(samples, now).popped() == voice.popped().extended(samples, now),
{
    assert((voice.pcm + samples).drop_first() =~= voice.pcm.drop_first() + samples);
}

/// Everyone who speaks goes into the mix with exactly one sample, whatever the
/// order in which they are asked: the samples taken are those of the queues that
/// are not empty.
pub proof fn everyone_who_speaks_is_mixed(
    keys: Seq<SocketAddr>,
    voices: Map<SocketAddr, VoiceInfo>,
    state: StateInfo,
)
    ensures
        spoken(keys, voices, state).len() <= keys.len(),
        forall|i: int|
            0 <= i < keys.len() && (#[trigger] voices[keys[i]]).pcm.len() > 0 ==> spoken(
                keys,
                voices,
                state,
            ).contains((voices[keys[i]].pcm[0], state.gain(keys[i]))),
        (forall|i: int| 0 <= i < keys.len() ==> (#[trigger] voices[keys[i]]).pcm.len() > 0)
            ==> spoken(keys, voices, state).len() == keys.len(),
    decreases keys.len(),
{
    if keys.len() > 0 {
        let shorter = keys.drop_last();
        let before = spoken(shorter, voices, state);
        let all = spoken(keys, voices, state);
        everyone_who_speaks_is_mixed(shorter, voices, state);
        assert forall|i: int|
            0 <= i < keys.len() && (#[trigger] voices[keys[i]]).pcm.len() > 0 implies all.contains(
            (voices[keys[i]].pcm[0], state.gain(keys[i])),
        ) by {
            let item = (voices[keys[i]].pcm[0], state.gain(keys[i]));
            if i == keys.len() - 1 {
                assert(all.last() == item);
            } else {
                assert(shorter[i] == keys[i]);
                assert(voices[shorter[i]].pcm.len() > 0);
                assert(before.contains(item));
                let k = choose|k: int| 0 <= k < before.len() && before[k] == item;
                assert(all[k] == item);
            }
        }
        if forall|i: int| 0 <= i < keys.len() ==> (#[trigger] voices[keys[i]]).pcm.len() > 0 {
            assert forall|i: int| 0 <= i < shorter.len() implies (
            #[trigger] voices[shorter[i]]).pcm.len() > 0 by {
                assert(voices[keys[i]].pcm.len() > 0);
            }
            assert(voices[keys[keys.len() - 1]].pcm.len() > 0);
        }
    }
}

/// What the sending thread was handed.
pub enum Outgoing {
    /// An encoded frame.
    Frame(Vec<u8>),
    /// Nothing came in time.
    Timeout,
    /// Nothing will come any more.
    Disconnected,
}

/// What the sending thread does next.
pub enum SendStep {
    /// Send the packet to each of the addresses.
    Send { packet: Vec<u8>, targets: Vec<SocketAddr> },
    /// Wait for the next frame.
    Wait,
    /// End.
    Stop,
}

impl SharedState {
    /// The voice addresses of the participants, in the order of the table.
    pub open spec fn voice_addrs(&self) -> Seq<SocketAddr> {
        self.peers.keys().map_values(|a: SocketAddr| self@.peers[a].voice_addr)
    }
}

/// Every participant is sent to exactly once, at the address that it stands
/// under.
pub proof fn everyone_is_sent_to_once(state: &SharedState)
    requires
        state.wf(),
    ensures
        state.voice_addrs().no_duplicates(),
        state.voice_addrs().to_set() == state@.peers.dom(),
{
    state.peers.lemma_keys();
    assert(state@.peers.dom() =~= state.peers@.dom());
    let keys = state.peers.keys();
    assert forall|i: int| 0 <= i < keys.len() implies keys[i] == state.voice_addrs()[i] by {
        assert(keys.to_set().contains(keys[i]));
        assert(state@.peers.dom().contains(keys[i]));
    }
    assert(keys =~= state.voice_addrs());
}

/// A frame goes to as many addresses as there are participants: to that of each,
/// in the order of the table.
pub proof fn everyone_is_sent_to_at_their_address(state: &SharedState, i: int)
    requires
        state.peers.wf(),
    ensures
        state.voice_addrs().len() == state.peers@.dom().len(),
        0 <= i < state.voice_addrs().len() ==> state.peers@.dom().contains(state.peers.keys()[i])
            && state.voice_addrs()[i] == state.peers@[state.peers.keys()[i]].voice_addr,
{
    state.peers.lemma_keys();
    if 0 <= i < state.voice_addrs().len() {
        assert(state.peers.keys().to_set().contains(state.peers.keys()[i]));
    }
}

/// The voice addresses of all participants.
pub fn voice_targets(state: &SharedState) -> (r: Vec<SocketAddr>)
    requires
        state.peers.wf(),
    ensures
        r@ == state.voice_addrs(),
{
    let mut out: Vec<SocketAddr> = Vec::new();
    let count: usize = state.peers.len();
    let mut i: usize = 0;
    assert(state.voice_addrs().take(0) =~= Seq::<SocketAddr>::empty());
    while i < count
        invariant
            state.peers.wf(),
            count == state.peers.keys().len(),
            state.voice_addrs().len() == count,
            i <= count,
            out@ == state.voice_addrs().take(i as int),
        decreases count - i,
    {
        out.push(state.peers.value_at(i).voice_addr);
        i = i + 1;
        assert(out@ =~= state.voice_addrs().take(i as int));
    }
    assert(out@ =~= state.voice_addrs());
    out
}

/// One round of the sending thread: a frame goes, as a packet, to every
/// participant.
pub fn on_outgoing(state: &SharedState, event: Outgoing) -> (r: SendStep)
    requires
        state.peers.wf(),
    ensures
        match event {
            Outgoing::Frame(frame) => {
                &&& r matches SendStep::Send { packet, targets }
                &&& packet@ == voice_bytes(frame@)
                &&& targets@ == state.voice_addrs()
            },
            Outgoing::Timeout => r is Wait,
            Outgoing::Disconnected => r is Stop,
        },
{
    match event {
        Outgoing::Frame(frame) => SendStep::Send {
            packet: voice_packet(frame.as_slice()),
            targets: voice_targets(state),
        },
        Outgoing::Timeout => SendStep::Wait,
        Outgoing::Disconnected => SendStep::Stop,
    }
}

/// How long a thread of a voice session waits or sleeps at a time, in
/// milliseconds, before it looks again whether it is to go on.
pub const VOICE_WAIT_MS: u64 = 500;

/// What a thread of a voice session does when it looks at its flag.
#[derive(Clone, Copy, Debug, PartialEq, Eq, Structural)]
pub enum VoiceThreadAction {
    /// One more round: the sender waits for a frame, the receiver for a datagram,
    /// and the cleaner sleeps, each for [`VOICE_WAIT_MS`] at most.
    Run,
    /// End.
    Stop,
}

/// What a thread of a voice session does, given whether the session is to run.
pub open spec fn voice_thread_next(running: bool) -> VoiceThreadAction {
    if running {
        VoiceThreadAction::Run
    } else {
        VoiceThreadAction::Stop
    }
}

/// Decides what a thread of a voice session does next.
pub fn voice_step(running: bool) -> (r: VoiceThreadAction)
    ensures
        r == voice_thread_next(running),
{
    if running {
        VoiceThreadAction::Run
    } else {
        VoiceThreadAction::Stop
    }
}

/// How many rounds the receiver or the cleaner makes that finds the flag to be
/// `flags[0]`, `flags[1]` and so on each time it looks.
pub open spec fn voice_rounds(flags: Seq<bool>) -> nat
    decreases flags.len(),
{
    if flags.len() == 0 || voice_thread_next(flags[0]) == VoiceThreadAction::Stop {
        0
    } else {
        1 + voice_rounds(flags.drop_first())
    }
}

/// How many rounds the sender makes that finds the flag to be `flags[0]`,
/// `flags[1]` and so on, where `gone[0]`, `gone[1]` and so on tell in which of its
/// rounds it learns that no frame will come any more.
pub open spec fn sender_rounds(flags: Seq<bool>, gone: Seq<bool>) -> nat
    decreases flags.len(),
{
    if flags.len() == 0 || voice_thread_next(flags[0]) == VoiceThreadAction::Stop {
        0
    } else if gone.len() > 0 && gone[0] {
        1
    } else {
        1 + sender_rounds(flags.drop_first(), gone.drop_first())
    }
}

/// All threads of a voice session end once its flag is down, so that they can be
/// waited for: whichever finds it down when it looks for the `k`-th time has made
/// `k` rounds at most, and makes none after that.
pub proof fn voice_threads_end(flags: Seq<bool>, gone: Seq<bool>, k: int)
    requires
        0 <= k < flags.len(),
        !flags[k],
    ensures
        voice_rounds(flags) <= k,
        sender_rounds(flags, gone) <= k,
    decreases flags.len(),
{
    if k > 0 {
        let rest = flags.drop_first();
        assert(rest[k - 1] == flags[k]);
        voice_threads_end(rest, gone.drop_first(), k - 1);
    }
}

/// The sender ends with the microphone, even while the flag is up: the round in
/// which it learns that no frame will come any more is its last.
pub proof fn sender_ends_with_the_microphone(flags: Seq<bool>, gone: Seq<bool>, k: int)
    requires
        0 <= k < gone.len(),
        gone[k],
    ensures
        sender_rounds(flags, gone) <= k + 1,
    decreases flags.len(),
{
    if k > 0 && flags.len() > 0 {
        let rest = gone.drop_first();
        assert(rest[k - 1] == gone[k]);
        sender_ends_with_the_microphone(flags.drop_first(), rest, k - 1);
    }
}

/// The gain at which the microphone is let in; `None` while it is muted.
pub open spec fn microphone_gain(state: StateInfo) -> Option<u32> {
    if state.mic_muted {
        None
    } else {
        Some(state.mic_gain)
    }
}

/// Decides whether a buffer of the microphone is let in, and at which gain.
pub fn capture_gain(state: &SharedState) -> (r: Option<u32>)
    ensures
        r == microphone_gain(state@),
{
    if state.mic_muted {
        None
    } else {
        Some(state.mic_gain)
    }
}

/// While the microphone is muted nothing is sent: of a buffer that is let in only
/// where there is a gain for it, no frame comes, and the samples that wait for
/// their frame stay as they were.
pub proof fn muted_microphone_sends_nothing(
    state: StateInfo,
    held: Seq<i16>,
    sound: Option<Seq<i16>>,
)
    requires
        state.mic_muted,
        sound is Some ==> microphone_gain(state) is Some,
    ensures
        crate::pcm::captured_frames(held, sound) == Seq::<Seq<i16>>::empty(),
        crate::pcm::captured_rest(held, sound) == held,
{
}

/// The names among `found`, in order, without the devices that did not tell
/// theirs.
pub open spec fn told_names(found: Seq<Option<String>>) -> Seq<Seq<char>>
    decreases found.len(),
{
    if found.len() == 0 {
        seq![]
    } else {
        match found.last() {
            Some(name) => told_names(found.drop_last()).push(name@),
            None => told_names(found.drop_last()),
        }
    }
}

/// The names of the devices that were found. `None` stands for a failed search.
pub fn device_names(found: &Option<Vec<Option<String>>>) -> (r: Vec<String>)
    ensures
        r@.map_values(|s: String| s@) == (match found {
            Some(devices) => told_names(devices@),
            None => Seq::<Seq<char>>::empty(),
        }),
{
    let mut out: Vec<String> = Vec::new();
    assert(out@.map_values(|s: String| s@) =~= Seq::<Seq<char>>::empty());
    if let Some(devices) = found {
        let mut i: usize = 0;
        assert(devices@.take(0) =~= Seq::<Option<String>>::empty());
        while i < devices.len()
            invariant
                i <= devices@.len(),
                out@.map_values(|s: String| s@) == told_names(devices@.take(i as int)),
            decreases devices@.len() - i,
        {
            let ghost before = out@.map_values(|s: String| s@);
            proof {
                let next = devices@.take(i + 1);
                assert(next.drop_last() =~= devices@.take(i as int));
                assert(next.last() == devices@[i as int]);
            }
            if let Some(name) = &devices[i] {
                out.push(name.clone());
                assert(out@.map_values(|s: String| s@) =~= before.push(name@));
            }
            i = i + 1;
        }
        assert(devices@.take(i as int) =~= devices@);
    }
    out
}

/// Whether the device at `i` tells the name `wanted`.
pub open spec fn bears(found: Seq<Option<String>>, wanted: Seq<char>, i: int) -> bool {
    0 <= i < found.len() && found[i] is Some && found[i]->0@ == wanted
}

/// The first device of that name.
pub fn find_device(found: &Vec<Option<String>>, wanted: &String) -> (r: Option<usize>)
    ensures
        match r {
            Some(i) => {
                &&& bears(found@, wanted@, i as int)
                &&& forall|k: int| 0 <= k < i ==> !#[trigger] bears(found@, wanted@, k)
            },
            None => forall|k: int| !#[trigger] bears(found@, wanted@, k),
        },
{
    let mut i: usize = 0;
    while i < found.len()
        invariant
            i <= found@.len(),
            forall|k: int| 0 <= k < i ==> !#[trigger] bears(found@, wanted@, k),
        decreases found@.len() - i,
    {
        if let Some(name) = &found[i] {
            if *name == *wanted {
                return Some(i);
            }
        }
        i = i + 1;
    }
    None
}

/// The device to begin with: the system's, else the first, else none, which is
/// an empty name.
pub fn initial_device(default: Option<String>, devices: &Vec<String>) -> (r: String)
    ensures
        r@ == (match default {
            Some(name) => name@,
            None => if devices@.len() > 0 {
                devices@[0]@
            } else {
                Seq::<char>::empty()
            },
        }),
{
    match default {
        Some(name) => name,
        None => if devices.len() > 0 {
            devices[0].clone()
        } else {
            String::new()
        },
    }
}

/// How a device holds its samples.
pub enum SampleFormat {
    I16,
    F32,
    /// Another way, as the device names it.
    Other(String),
}

/// The ways of holding samples that are understood.
#[derive(Clone, Copy, Debug, PartialEq, Eq, Structural)]
pub enum PcmKind {
    I16,
    F32,
}

/// The kind of a format; a format that is not understood is reported with
/// `complaint`.
fn understood(format: SampleFormat, complaint: &str) -> (r: Result<PcmKind, String>)
    ensures
        match format {
            SampleFormat::I16 => r == Ok::<PcmKind, String>(PcmKind::I16),
            SampleFormat::F32 => r == Ok::<PcmKind, String>(PcmKind::F32),
            SampleFormat::Other(name) => r is Err && r->Err_0@ == complaint@ + name@,
        },
{
    match format {
        SampleFormat::I16 => Ok(PcmKind::I16),
        SampleFormat::F32 => Ok(PcmKind::F32),
        SampleFormat::Other(name) => {
            let mut message = String::from_str(complaint);
            message.append(name.as_str());
            Err(message)
        },
    }
}

/// Decides how to read a microphone.
pub fn input_format(format: SampleFormat) -> (r: Result<PcmKind, String>)
    ensures
        match format {
            SampleFormat::I16 => r == Ok::<PcmKind, String>(PcmKind::I16),
            SampleFormat::F32 => r == Ok::<PcmKind, String>(PcmKind::F32),
            SampleFormat::Other(name) => r is Err && r->Err_0@
                == "Неподдерживаемый формат сэмплов микрофона: "@ + name@,
        },
{
    understood(format, "Неподдерживаемый формат сэмплов микрофона: ")
}

/// Decides how to feed a speaker.
pub fn output_format(format: SampleFormat) -> (r: Result<PcmKind, String>)
    ensures
        match format {
            SampleFormat::I16 => r == Ok::<PcmKind, String>(PcmKind::I16),
            SampleFormat::F32 => r == Ok::<PcmKind, String>(PcmKind::F32),
            SampleFormat::Other(name) => r is Err && r->Err_0@
                == "Неподдерживаемый формат сэмплов динамиков: "@ + name@,
        },
{
    understood(format, "Неподдерживаемый формат сэмплов динамиков: ")
}

/// What can go wrong with a stream of sound.
#[derive(Clone, Copy, Debug, PartialEq, Eq, Structural)]
pub enum StreamFault {
    /// The microphone offers no configuration.
    NoInputConfig,
    /// There is no encoder.
    NoEncoder,
    /// Capturing could not be set up.
    InputNotBuilt,
    /// Capturing could not be begun.
    InputNotPlayed,
    /// A frame could not be encoded.
    NotEncoded,
    /// Capturing broke off.
    InputBroken,
    /// The speaker offers no configuration.
    NoOutputConfig,
    /// Playing could not be set up.
    OutputNotBuilt,
    /// Playing could not be begun.
    OutputNotPlayed,
    /// Playing broke off.
    OutputBroken,
}

/// What the report of a fault begins with.
pub open spec fn fault_lead(fault: StreamFault) -> Seq<char> {
    match fault {
        StreamFault::NoInputConfig => "Нет доступной конфигурации микрофона: "@,
        StreamFault::NoEncoder => "Не удалось создать Opus-энкодер: "@,
        StreamFault::InputNotBuilt => "Не удалось создать поток захвата: "@,
        StreamFault::InputNotPlayed => "Не удалось запустить захват звука: "@,
        StreamFault::NotEncoded => "Ошибка кодирования Opus: "@,
        StreamFault::InputBroken => "Ошибка потока захвата звука: "@,
        StreamFault::NoOutputConfig => "Нет доступной конфигурации динамиков: "@,
        StreamFault::OutputNotBuilt => "Не удалось создать поток воспроизведения: "@,
        StreamFault::OutputNotPlayed => "Не удалось запустить воспроизведение: "@,
        StreamFault::OutputBroken => "Ошибка потока воспроизведения: "@,
    }
}

/// Words the report of a fault with the reason `e`.
pub fn fault_report(fault: StreamFault, e: &str) -> (r: String)
    ensures
        r@ == fault_lead(fault) + e@,
{
    let lead: &str = match fault {
        StreamFault::NoInputConfig => "Нет доступной конфигурации микрофона: ",
        StreamFault::NoEncoder => "Не удалось создать Opus-энкодер: ",
        StreamFault::InputNotBuilt => "Не удалось создать поток захвата: ",
        StreamFault::InputNotPlayed => "Не удалось запустить захват звука: ",
        StreamFault::NotEncoded => "Ошибка кодирования Opus: ",
        StreamFault::InputBroken => "Ошибка потока захвата звука: ",
        StreamFault::NoOutputConfig => "Нет доступной конфигурации динамиков: ",
        StreamFault::OutputNotBuilt => "Не удалось создать поток воспроизведения: ",
        StreamFault::OutputNotPlayed => "Не удалось запустить воспроизведение: ",
        StreamFault::OutputBroken => "Ошибка потока воспроизведения: ",
    };
    let mut message = String::from_str(lead);
    message.append(e);
    message
}

/// The steps in which a voice session is started.
#[derive(Clone, Copy, Debug, PartialEq, Eq, Structural)]
pub enum VoiceStep {
    /// Open the voice port.
    Bind,
    /// Limit how long a read waits.
    SetTimeout,
    /// Make a second handle of the socket, to send by.
    CloneSocket,
    /// Start the sending thread.
    SpawnSender,
    /// Start to capture.
    OpenInput,
    /// Start the receiving thread.
    SpawnReceiver,
    /// Start the thread that drops those who fell silent.
    SpawnCleaner,
    /// Start to play.
    OpenOutput,
    /// Everything runs.
    Done,
}

/// The step after `step`. Without a microphone nothing is captured or sent.
pub open spec fn step_after(step: VoiceStep, mic: bool) -> VoiceStep {
    match step {
        VoiceStep::Bind => VoiceStep::SetTimeout,
        VoiceStep::SetTimeout => if mic {
            VoiceStep::CloneSocket
        } else {
            VoiceStep::SpawnReceiver
        },
        VoiceStep::CloneSocket => VoiceStep::SpawnSender,
        VoiceStep::SpawnSender => VoiceStep::OpenInput,
        VoiceStep::OpenInput => VoiceStep::SpawnReceiver,
        VoiceStep::SpawnReceiver => VoiceStep::SpawnCleaner,
        VoiceStep::SpawnCleaner => VoiceStep::OpenOutput,
        VoiceStep::OpenOutput => VoiceStep::Done,
        VoiceStep::Done => VoiceStep::Done,
    }
}

/// What is reported where `step` fails with `e`.
pub open spec fn step_error(step: VoiceStep, e: Seq<char>) -> Seq<char> {
    if step == VoiceStep::Bind {
        "Не удалось открыть voice-порт "@ + crate::text::decimal(VOICE_PORT as nat) + ": "@ + e
    } else {
        e
    }
}

/// A voice session that is being started, with the devices `input` (none without
/// a microphone) and `output`, at the step `step`.
pub struct VoiceStart {
    pub input: Option<usize>,
    pub output: usize,
    pub step: VoiceStep,
}

/// Chooses the devices of a voice session by name. An empty input name asks for
/// a session without a microphone.
pub fn start_voice(
    inputs: &Vec<Option<String>>,
    outputs: &Vec<Option<String>>,
    input_device_name: &String,
    output_device_name: &String,
) -> (r: Result<VoiceStart, String>)
    ensures
        match r {
            Ok(start) => {
                &&& start.step == VoiceStep::Bind
                &&& start.input is Some <==> input_device_name@.len() > 0
                &&& start.input matches Some(i) ==> bears(inputs@, input_device_name@, i as int)
                    && forall|k: int| 0 <= k < i ==> !#[trigger] bears(inputs@, input_device_name@, k)
                &&& bears(outputs@, output_device_name@, start.output as int)
                &&& forall|k: int|
                    0 <= k < start.output ==> !#[trigger] bears(outputs@, output_device_name@, k)
            },
            Err(e) => {
                let no_input = input_device_name@.len() > 0 && forall|k: int|
                    !#[trigger] bears(inputs@, input_device_name@, k);
                let no_output = forall|k: int| !#[trigger] bears(outputs@, output_device_name@, k);
                if no_input {
                    e@ == "Устройство ввода не найдено: "@ + input_device_name@
                } else {
                    &&& no_output
                    &&& e@ == "Устройство вывода не найдено: "@ + output_device_name@
                }
            },
        },
{
    let input: Option<usize> = if input_device_name.as_str().is_empty() {
        None
    } else {
        match find_device(inputs, input_device_name) {
            Some(i) => Some(i),
            None => {
                let mut message = String::from_str("Устройство ввода не найдено: ");
                message.append(input_device_name.as_str());
                return Err(message);
            },
        }
    };
    match find_device(outputs, output_device_name) {
        Some(output) => Ok(VoiceStart { input, output, step: VoiceStep::Bind }),
        None => {
            let mut message = String::from_str("Устройство вывода не найдено: ");
            message.append(output_device_name.as_str());
            Err(message)
        },
    }
}

impl VoiceStart {
    /// Goes on after the current step came out as `outcome`: to the next step,
    /// or to the report of the failure. That the session goes without a
    /// microphone is logged where capturing would have begun.
    pub fn advance(&mut self, state: &mut SharedState, outcome: Result<(), String>) -> (r: Result<
        VoiceStep,
        String,
    >)
        ensures
            final(state).peers == old(state).peers,
            final(state).peer_gains == old(state).peer_gains,
            old(state).wf() ==> final(state).wf(),
            final(self).input == old(self).input,
            final(self).output == old(self).output,
            match outcome {
                Ok(_) => {
                    &&& final(self).step == step_after(old(self).step, old(self).input is Some)
                    &&& r == Ok::<VoiceStep, String>(final(self).step)
                    &&& final(state)@ == (if old(self).step == VoiceStep::SetTimeout
                        && old(self).input is None {
                        old(state)@.with_line("Подключение без микрофона — только приём звука"@)
                    } else {
                        old(state)@
                    })
                },
                Err(e) => {
                    &&& final(self).step == old(self).step
                    &&& r is Err
                    &&& r->Err_0@ == step_error(old(self).step, e@)
                    &&& final(state)@ == old(state)@
                },
            },
    {
        if let Err(e) = outcome {
            return match self.step {
                VoiceStep::Bind => {
                    let mut message = String::from_str("Не удалось открыть voice-порт ");
                    push_decimal(&mut message, VOICE_PORT as u64);
                    message.append(": ");
                    message.append(e.as_str());
                    Err(message)
                },
                _ => Err(e),
            };
        }
        let mic: bool = self.input.is_some();
        if self.step == VoiceStep::SetTimeout && !mic {
            state.log(String::from_str("Подключение без микрофона — только приём звука"));
        }
        self.step = match self.step {
            VoiceStep::Bind => VoiceStep::SetTimeout,
            VoiceStep::SetTimeout => if mic {
                VoiceStep::CloneSocket
            } else {
                VoiceStep::SpawnReceiver
            },
            VoiceStep::CloneSocket => VoiceStep::SpawnSender,
            VoiceStep::SpawnSender => VoiceStep::OpenInput,
            VoiceStep::OpenInput => VoiceStep::SpawnReceiver,
            VoiceStep::SpawnReceiver => VoiceStep::SpawnCleaner,
            VoiceStep::SpawnCleaner => VoiceStep::OpenOutput,
            VoiceStep::OpenOutput => VoiceStep::Done,
            VoiceStep::Done => VoiceStep::Done,
        };
        Ok(self.step)
    }
}

/// The step that a session is at after `n` steps that came out well.
pub open spec fn nth_step(mic: bool, n: nat) -> VoiceStep
    decreases n,
{
    if n == 0 {
        VoiceStep::Bind
    } else {
        step_after(nth_step(mic, (n - 1) as nat), mic)
    }
}

proof fn lemma_steps_without_mic(n: nat)
    ensures
        nth_step(false, n) != VoiceStep::CloneSocket,
        nth_step(false, n) != VoiceStep::SpawnSender,
        nth_step(false, n) != VoiceStep::OpenInput,
    decreases n,
{
    if n > 0 {
        lemma_steps_without_mic((n - 1) as nat);
    }
}

/// A session without a microphone captures and sends nothing at any step; it
/// receives and plays like any other.
pub proof fn no_microphone_means_no_capture(n: nat)
    ensures
        nth_step(false, n) != VoiceStep::CloneSocket,
        nth_step(false, n) != VoiceStep::SpawnSender,
        nth_step(false, n) != VoiceStep::OpenInput,
        nth_step(false, 2) == VoiceStep::SpawnReceiver,
        nth_step(false, 3) == VoiceStep::SpawnCleaner,
        nth_step(false, 4) == VoiceStep::OpenOutput,
        nth_step(false, 5) == VoiceStep::Done,
{
    lemma_steps_without_mic(n);
    reveal_with_fuel(nth_step, 6);
}

/// A session with a microphone has its sending thread before it captures, and
/// plays last.
pub proof fn microphone_steps_in_order()
    ensures
        nth_step(true, 2) == VoiceStep::CloneSocket,
        nth_step(true, 3) == VoiceStep::SpawnSender,
        nth_step(true, 4) == VoiceStep::OpenInput,
        nth_step(true, 5) == VoiceStep::SpawnReceiver,
        nth_step(true, 6) == VoiceStep::SpawnCleaner,
        nth_step(true, 7) == VoiceStep::OpenOutput,
        nth_step(true, 8) == VoiceStep::Done,
{
    reveal_with_fuel(nth_step, 9);
}

proof fn lemma_spoken_counts(
    keys: Seq<SocketAddr>,
    voices: Map<SocketAddr, VoiceInfo>,
    state: StateInfo,
    pair: (i16, u32),
    gives: spec_fn(SocketAddr) -> bool,
    speaks: spec_fn(SocketAddr) -> bool,
)
    requires
        keys.no_duplicates(),
        forall|a: SocketAddr| #[trigger]
            gives(a) == (voices[a].pcm.len() > 0 && pair == (voices[a].pcm[0], state.gain(a))),
        forall|a: SocketAddr| #[trigger] speaks(a) == (voices[a].pcm.len() > 0),
    ensures
        spoken(keys, voices, state).to_multiset().count(pair) == keys.to_set().filter(gives).len(),
        spoken(keys, voices, state).len() == keys.to_set().filter(speaks).len(),
    decreases keys.len(),
{
    broadcast use vstd::seq_lib::group_to_multiset_ensures;
    broadcast use vstd::seq_lib::seq_to_set_is_finite;

    if keys.len() == 0 {
        assert(keys.to_set().filter(gives) =~= Set::<SocketAddr>::empty());
        assert(keys.to_set().filter(speaks) =~= Set::<SocketAddr>::empty());
        assert(spoken(keys, voices, state) =~= Seq::<(i16, u32)>::empty());
        assert(!spoken(keys, voices, state).contains(pair));
    } else {
        let shorter = keys.drop_last();
        let a = keys.last();
        lemma_spoken_counts(shorter, voices, state, pair, gives, speaks);
        assert forall|b: SocketAddr| keys.to_set().contains(b) == shorter.to_set().insert(
            a,
        ).contains(b) by {
            if keys.contains(b) {
                let k = choose|k: int| 0 <= k < keys.len() && keys[k] == b;
                if k < keys.len() - 1 {
                    assert(shorter[k] == b);
                }
            }
            if shorter.contains(b) {
                let k = choose|k: int| 0 <= k < shorter.len() && shorter[k] == b;
                assert(keys[k] == b);
            }
            assert(keys[keys.len() - 1] == a);
        }
        assert(keys.to_set() =~= shorter.to_set().insert(a));
        assert(!shorter.to_set().contains(a)) by {
            if shorter.contains(a) {
                let k = choose|k: int| 0 <= k < shorter.len() && shorter[k] == a;
                assert(keys[k] == keys[keys.len() - 1]);
            }
        }
        if gives(a) {
            assert(keys.to_set().filter(gives) =~= shorter.to_set().filter(gives).insert(a));
        } else {
            assert(keys.to_set().filter(gives) =~= shorter.to_set().filter(gives));
        }
        if speaks(a) {
            assert(keys.to_set().filter(speaks) =~= shorter.to_set().filter(speaks).insert(a));
        } else {
            assert(keys.to_set().filter(speaks) =~= shorter.to_set().filter(speaks));
        }
    }
}

/// Of a state the mixer reads the sound mute and the gains of the participants,
/// and nothing else.
pub proof fn the_mixer_reads_only_mute_and_gains(
    keys: Seq<SocketAddr>,
    voices: Map<SocketAddr, VoiceInfo>,
    state: StateInfo,
    other: StateInfo,
)
    requires
        state.sound_muted == other.sound_muted,
        state.peer_gains == other.peer_gains,
    ensures
        audible(keys, voices, state) == audible(keys, voices, other),
    decreases keys.len(),
{
    if keys.len() > 0 {
        the_mixer_reads_only_mute_and_gains(keys.drop_last(), voices, state, other);
    }
}

/// The mixer plays nothing of those who have nothing queued, and where one alone
/// has, whose gain is not set, it is given that one's first sample at unity.
pub proof fn a_lone_speaker_is_heard(
    a: SocketAddr,
    voices: Map<SocketAddr, VoiceInfo>,
    state: StateInfo,
)
    requires
        !state.sound_muted,
    ensures
        voices[a].pcm.len() == 0 ==> audible(seq![a], voices, state).len() == 0,
        voices[a].pcm.len() > 0 && !state.peer_gains.dom().contains(a) ==> audible(
            seq![a],
            voices,
            state,
        ) == seq![(voices[a].pcm[0], 0x3f80_0000u32)],
{
    assert(seq![a].drop_last() =~= Seq::<SocketAddr>::empty());
    reveal_with_fuel(spoken, 2);
}

/// Where `scale` gives one result, `f`, for a sample and a gain, the numbers that
/// are added are what it gives for each sample taken, in order.
pub proof fn every_sample_is_scaled_by_its_gain<F: Fn(i16, u32) -> i32>(
    scale: F,
    f: spec_fn(i16, u32) -> i32,
    taken: Seq<(i16, u32)>,
    scaled: Seq<i32>,
)
    requires
        scaled_by(scale, taken, scaled),
        forall|s: i16, gain: u32, r: i32| #[trigger]
            call_ensures(scale, (s, gain), r) ==> r == f(s, gain),
    ensures
        scaled == taken.map_values(|pair: (i16, u32)| f(pair.0, pair.1)),
{
    assert forall|i: int| 0 <= i < taken.len() implies scaled[i] == f(taken[i].0, taken[i].1) by {
        assert(call_ensures(scale, (taken[i].0, taken[i].1), scaled[i]));
    }
    assert(scaled =~= taken.map_values(|pair: (i16, u32)| f(pair.0, pair.1)));
}

/// A voice packet, byte by byte: the letters `VLV2`, then the frame.
pub proof fn voice_packet_layout(frame: Seq<u8>, i: int)
    ensures
        voice_bytes(frame).len() == 4 + frame.len(),
        voice_bytes(frame)[0] == 0x56,
        voice_bytes(frame)[1] == 0x4c,
        voice_bytes(frame)[2] == 0x56,
        voice_bytes(frame)[3] == 0x32,
        0 <= i < frame.len() ==> voice_bytes(frame)[4 + i] == frame[i],
{
}

/// What counts as a voice packet, and what it carries, byte by byte.
pub proof fn voice_packet_reading(data: Seq<u8>, i: int)
    ensures
        voice_frame(data) is Some <==> data.len() >= 4 && data[0] == 0x56 && data[1] == 0x4c
            && data[2] == 0x56 && data[3] == 0x32,
        voice_frame(data) matches Some(frame) ==> frame.len() + 4 == data.len() && (0 <= i
            < frame.len() ==> frame[i] == data[4 + i]),
{
    if data.len() >= 4 {
        let mark = data.take(4);
        assert(mark[0] == data[0] && mark[1] == data[1] && mark[2] == data[2] && mark[3] == data[3]);
        if data[0] == 0x56 && data[1] == 0x4c && data[2] == 0x56 && data[3] == 0x32 {
            assert(mark =~= VOICE_MAGIC@);
        }
    }
}

/// A sender of voice packets has a queue from the first packet on: an empty one,
/// of that moment, where there was none, and the one it had where there was. No
/// other queue changes, and what is no voice packet enters nobody.
pub proof fn a_voice_packet_enters_its_sender(
    voices: Map<SocketAddr, VoiceInfo>,
    data: Vec<u8>,
    src: SocketAddr,
    now: u128,
    b: SocketAddr,
)
    ensures
        ({
            let d = data@;
            let after = voices_after(voices, VoiceReceived::Datagram { data, src }, now);
            let is_voice = d.len() >= 4 && d[0] == 0x56 && d[1] == 0x4c && d[2] == 0x56 && d[3]
                == 0x32;
            &&& !is_voice ==> after == voices
            &&& is_voice ==> after.dom() == voices.dom().insert(src)
            &&& voices.dom().contains(b) ==> after.dom().contains(b) && after[b] == voices[b]
            &&& is_voice && !voices.dom().contains(src) ==> after[src].pcm.len() == 0
                && after[src].last_packet == now
        }),
{
    voice_packet_reading(data@, 0);
    let after = voices_after(voices, VoiceReceived::Datagram { data, src }, now);
    if voice_frame(data@) is Some {
        assert(after.dom() =~= voices.dom().insert(src));
    }
}

/// A round without a datagram leaves the queues as they are.
pub proof fn no_datagram_changes_no_queue(
    voices: Map<SocketAddr, VoiceInfo>,
    e: String,
    now: u128,
)
    ensures
        voices_after(voices, VoiceReceived::WouldBlock, now) == voices,
        voices_after(voices, VoiceReceived::TimedOut, now) == voices,
        voices_after(voices, VoiceReceived::Failed(e), now) == voices,
{
}

/// Decoded samples go behind those that wait, which keep their order; beyond one
/// second of sound the oldest give way. The queue was heard of at that moment.
pub proof fn decoded_sound_goes_behind(voice: VoiceInfo, samples: Seq<i16>, now: u128, i: int)
    ensures
        ({
            let all = voice.pcm + samples;
            let after = voice.extended(samples, now);
            &&& after.last_packet == now
            &&& after.pcm.len() == (if all.len() < 48000 {
                all.len()
            } else {
                48000
            })
            &&& 0 <= i < after.pcm.len() ==> after.pcm[i] == all[all.len() - after.pcm.len() + i]
        }),
{
}

/// To take a sample takes the first of a queue and leaves the others in order; it
/// does not count as being heard.
pub proof fn the_first_sample_is_taken(voice: VoiceInfo, i: int)
    ensures
        voice.popped().last_packet == voice.last_packet,
        voice.pcm.len() == 0 ==> voice.popped().pcm.len() == 0,
        voice.pcm.len() > 0 ==> voice.popped().pcm.len() == voice.pcm.len() - 1,
        0 <= i < voice.popped().pcm.len() ==> voice.popped().pcm[i] == voice.pcm[i + 1],
{
}

/// Those whose last packet came less than ten seconds ago stay, with their
/// samples, and all others go.
pub proof fn the_silent_go_after_ten_seconds(
    voices: Map<SocketAddr, VoiceInfo>,
    now: u128,
    a: SocketAddr,
)
    ensures
        recent_voices(voices, now).dom().contains(a) ==> voices.dom().contains(a) && recent_voices(
            voices,
            now,
        )[a] == voices[a],
        voices.dom().contains(a) ==> (recent_voices(voices, now).dom().contains(a) <==> now
            < voices[a].last_packet + 10_000_000_000),
{
}

/// Whoever was decoded at `t` is still there at any moment within ten seconds
/// from then, with the samples that wait, however long the silence before was.
pub proof fn speaking_keeps_a_voice(
    voices: Map<SocketAddr, VoiceInfo>,
    a: SocketAddr,
    samples: Seq<i16>,
    t: u128,
    now: u128,
)
    requires
        t <= now < t + 10_000_000_000,
    ensures
        ({
            let heard = voices.insert(a, voices[a].extended(samples, t));
            &&& recent_voices(heard, now).dom().contains(a)
            &&& recent_voices(heard, now)[a].pcm == heard[a].pcm
        }),
{
}

/// Whoever was last decoded at `t` is gone ten seconds later, however many
/// samples still wait and however often one was taken.
pub proof fn silence_drops_a_voice(
    voices: Map<SocketAddr, VoiceInfo>,
    a: SocketAddr,
    samples: Seq<i16>,
    t: u128,
    now: u128,
)
    requires
        t + 10_000_000_000 <= now,
    ensures
        ({
            let heard = voices.insert(a, voices[a].extended(samples, t));
            &&& !recent_voices(heard, now).dom().contains(a)
            &&& !recent_voices(
                heard.map_values(|v: VoiceInfo| v.popped()),
                now,
            ).dom().contains(a)
        }),
{
}

/// Someone whose first packet came at `t` is there for ten seconds, even where no
/// frame of theirs could be decoded, and no longer.
pub proof fn a_first_packet_counts_as_heard(
    voices: Map<SocketAddr, VoiceInfo>,
    frame: Seq<u8>,
    data: Vec<u8>,
    src: SocketAddr,
    t: u128,
    now: u128,
)
    requires
        data@ == voice_bytes(frame),
        !voices.dom().contains(src),
        t <= now,
    ensures
        recent_voices(
            voices_after(voices, VoiceReceived::Datagram { data, src }, t),
            now,
        ).dom().contains(src) <==> now < t + 10_000_000_000,
{
    frame_is_read_back(frame);
}

/// While a voice session runs none of its threads ends: the receiver and the
/// cleaner make as many rounds as they look at the flag, and so does the sender as
/// long as frames may come.
pub proof fn voice_threads_run_on(flags: Seq<bool>, gone: Seq<bool>)
    requires
        forall|k: int| 0 <= k < flags.len() ==> flags[k],
    ensures
        voice_rounds(flags) == flags.len(),
        (forall|k: int| 0 <= k < gone.len() ==> !gone[k]) && flags.len() <= gone.len()
            ==> sender_rounds(flags, gone) == flags.len(),
    decreases flags.len(),
{
    if flags.len() > 0 {
        let rest = flags.drop_first();
        let later = gone.drop_first();
        assert forall|k: int| 0 <= k < rest.len() implies rest[k] by {
            assert(flags[k + 1]);
        }
        assert(flags[0]);
        voice_threads_run_on(rest, later);
        if (forall|k: int| 0 <= k < gone.len() ==> !gone[k]) && flags.len() <= gone.len() {
            assert forall|k: int| 0 <= k < later.len() implies !later[k] by {
                assert(!gone[k + 1]);
            }
            assert(!gone[0]);
        }
    }
}

/// The microphone is let in exactly while it is not muted, at its own gain,
/// whatever else the state holds; opened again, it has the gain it had.
pub proof fn the_microphone_has_its_own_gain(state: StateInfo)
    ensures
        microphone_gain(state) is None <==> state.mic_muted,
        !state.mic_muted ==> microphone_gain(state) == Some(state.mic_gain),
        state.mic_muted ==> microphone_gain(StateInfo { mic_muted: false, ..state }) == Some(
            state.mic_gain,
        ),
{
}

/// The names that devices tell come one after the other, each once, and a device
/// that tells none leaves no gap.
pub proof fn devices_are_listed_in_order(
    found: Seq<Option<String>>,
    more: Seq<Option<String>>,
    name: String,
)
    ensures
        told_names(Seq::<Option<String>>::empty()).len() == 0,
        told_names(seq![Some(name)]) == seq![name@],
        told_names(seq![None]).len() == 0,
        told_names(found + more) == told_names(found) + told_names(more),
    decreases more.len(),
{
    reveal_with_fuel(told_names, 2);
    assert(seq![Some(name)].drop_last() =~= Seq::<Option<String>>::empty());
    assert(seq![None::<String>].drop_last() =~= Seq::<Option<String>>::empty());
    if more.len() == 0 {
        assert(found + more =~= found);
        assert(told_names(found) + told_names(more) =~= told_names(found));
    } else {
        let front = more.drop_last();
        devices_are_listed_in_order(found, front, name);
        assert((found + more).drop_last() =~= found + front);
        assert((found + more).last() == more.last());
        assert(told_names(found + more) =~= told_names(found) + told_names(more));
    }
}

/// A device bears the name that it tells, no other, and none where it tells none.
pub proof fn a_device_bears_its_own_name(
    found: Seq<Option<String>>,
    wanted: Seq<char>,
    i: int,
)
    requires
        0 <= i < found.len(),
    ensures
        found[i] is None ==> !bears(found, wanted, i),
        found[i] matches Some(name) ==> (bears(found, wanted, i) <==> wanted == name@),
{
}

/// What a failed start reports is the reason that was given; a voice port that
/// cannot be opened is named before it.
pub proof fn failed_starts_are_explained(step: VoiceStep, e: Seq<char>)
    ensures
        step != VoiceStep::Bind ==> step_error(step, e) == e,
        step == VoiceStep::Bind ==> step_error(step, e) == "Не удалось открыть voice-порт 47531: "@
            + e,
{
    reveal_strlit("Не удалось открыть voice-порт ");
    reveal_strlit("Не удалось открыть voice-порт 47531: ");
    reveal_strlit(": ");
    crate::text::decimals_denote_their_number(47531);
    reveal_with_fuel(crate::text::decimal, 6);
    if step == VoiceStep::Bind {
        assert(crate::text::decimal(47531) =~= seq!['4', '7', '5', '3', '1']);
        assert(step_error(step, e) =~= "Не удалось открыть voice-порт 47531: "@ + e);
    }
}

/// The microphone makes a difference after the second step, and at no other.
pub proof fn the_microphone_decides_one_step(step: VoiceStep)
    ensures
        step != VoiceStep::SetTimeout ==> step_after(step, true) == step_after(step, false),
        step_after(VoiceStep::SetTimeout, true) != step_after(VoiceStep::SetTimeout, false),
{
}

/// A session that is started goes through all its steps and then stays where it
/// is: nothing is done twice.
pub proof fn a_start_comes_to_its_end(mic: bool, n: nat)
    ensures
        nth_step(mic, 0) == VoiceStep::Bind,
        nth_step(mic, 1) == VoiceStep::SetTimeout,
        nth_step(mic, 2) == (if mic {
            VoiceStep::CloneSocket
        } else {
            VoiceStep::SpawnReceiver
        }),
        n >= 8 ==> nth_step(mic, n) == VoiceStep::Done,
        !mic && n >= 5 ==> nth_step(mic, n) == VoiceStep::Done,
    decreases n,
{
    reveal_with_fuel(nth_step, 9);
    if n > 8 {
        a_start_comes_to_its_end(mic, (n - 1) as nat);
    }
}

} // verus!
