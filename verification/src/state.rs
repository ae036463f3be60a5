//! What the window, the network threads and the sound threads share.
use crate::addr::{AddrMap, SocketAddr, Stamped};
use std::collections::VecDeque;
use vstd::prelude::*;

verus! {

/// How many lines the log keeps.
pub const MAX_LOG_LINES: usize = 500;

/// The bit pattern of 1.0 in single precision: sound passes as it is. Gains are
/// carried as such patterns; 0.0 is silence.
pub const UNITY_GAIN: u32 = 0x3f80_0000;

/// A participant that was heard on the network. `last_seen` is in nanoseconds
/// of a monotonic clock.
#[derive(Debug, Clone)]
pub struct Peer {
    pub username: String,
    pub voice_addr: SocketAddr,
    pub last_seen: u128,
}

/// What a [`Peer`] says.
pub struct PeerInfo {
    pub username: Seq<char>,
    pub voice_addr: SocketAddr,
    pub last_seen: u128,
}

impl View for Peer {
    type V = PeerInfo;

    open spec fn view(&self) -> PeerInfo {
        PeerInfo {
            username: self.username@,
            voice_addr: self.voice_addr,
            last_seen: self.last_seen,
        }
    }
}

impl Stamped for Peer {
    open spec fn spec_stamp(&self) -> u128 {
        self.last_seen
    }

    fn stamp(&self) -> (r: u128) {
        self.last_seen
    }
}

/// The last `n` items of `s`, or all of them where there are fewer.
pub open spec fn newest<T>(s: Seq<T>, n: nat) -> Seq<T> {
    if s.len() <= n {
        s
    } else {
        s.skip(s.len() - n)
    }
}

/// The state that the parts of the program share.
pub struct SharedState {
    /// The participants that discovery has heard, by their voice address.
    pub peers: AddrMap<Peer>,
    /// The gain of each participant whose gain was ever set.
    pub peer_gains: AddrMap<u32>,
    /// The gain of the own microphone.
    pub mic_gain: u32,
    /// Whether the microphone is muted: nothing is sent.
    pub mic_muted: bool,
    /// Whether all incoming sound is muted.
    pub sound_muted: bool,
    /// The newest lines of the log, oldest first.
    pub logs: VecDeque<String>,
    /// Whether the network threads are to go on.
    pub running: bool,
}

/// What a [`SharedState`] says.
#[verifier::ext_equal]
pub struct StateInfo {
    pub peers: Map<SocketAddr, PeerInfo>,
    pub peer_gains: Map<SocketAddr, u32>,
    pub mic_gain: u32,
    pub mic_muted: bool,
    pub sound_muted: bool,
    pub logs: Seq<Seq<char>>,
    pub running: bool,
}

impl StateInfo {
    /// The state with one more line in the log, and the oldest line gone where
    /// the log was full.
    pub open spec fn with_line(self, line: Seq<char>) -> StateInfo {
        StateInfo { logs: newest(self.logs.push(line), MAX_LOG_LINES as nat), ..self }
    }

    /// The gain of `a`: the one that was set, else unity.
    pub open spec fn gain(self, a: SocketAddr) -> u32 {
        if self.peer_gains.dom().contains(a) {
            self.peer_gains[a]
        } else {
            UNITY_GAIN
        }
    }

    /// The state in which the gain of `a` is `gain`.
    pub open spec fn with_gain(self, a: SocketAddr, gain: u32) -> StateInfo {
        StateInfo { peer_gains: self.peer_gains.insert(a, gain), ..self }
    }

    /// The log is not over its limit, and every participant stands under its
    /// own voice address, on the voice port.
    pub open spec fn wf(self) -> bool {
        &&& self.logs.len() <= MAX_LOG_LINES
        &&& forall|a: SocketAddr| #[trigger]
            self.peers.dom().contains(a) ==> self.peers[a].voice_addr == a && a
                == crate::addr::endpoint(a.ip, crate::settings::VOICE_PORT)
    }
}

impl View for SharedState {
    type V = StateInfo;

    open spec fn view(&self) -> StateInfo {
        StateInfo {
            peers: self.peers@.map_values(|p: Peer| p@),
            peer_gains: self.peer_gains@,
            mic_gain: self.mic_gain,
            mic_muted: self.mic_muted,
            sound_muted: self.sound_muted,
            logs: self.logs@.map_values(|s: String| s@),
            running: self.running,
        }
    }
}

/// The state that a program starts with.
pub open spec fn initial_state() -> StateInfo {
    StateInfo {
        peers: Map::empty(),
        peer_gains: Map::empty(),
        mic_gain: UNITY_GAIN,
        mic_muted: false,
        sound_muted: false,
        logs: Seq::empty(),
        running: false,
    }
}

impl SharedState {
    pub open spec fn wf(&self) -> bool {
        &&& self.peers.wf()
        &&& self.peer_gains.wf()
        &&& self@.wf()
    }

    /// Makes the state that a program starts with: nobody heard, no gain set,
    /// nothing muted, an empty log.
    pub fn new() -> (r: SharedState)
        ensures
            r.wf(),
            r@ == initial_state(),
    {
        let r = SharedState {
            peers: AddrMap::new(),
            peer_gains: AddrMap::new(),
            mic_gain: UNITY_GAIN,
            mic_muted: false,
            sound_muted: false,
            logs: VecDeque::new(),
            running: false,
        };
        assert(r@ =~= initial_state());
        r
    }

    /// Adds a line to the log and drops the oldest lines over the limit.
    pub fn log(&mut self, msg: String)
        ensures
            final(self)@ == old(self)@.with_line(msg@),
            final(self).peers == old(self).peers,
            final(self).peer_gains == old(self).peer_gains,
            old(self).wf() ==> final(self).wf(),
    {
        let ghost full = self.logs@.push(msg);
        self.logs.push_back(msg);
        while self.logs.len() > MAX_LOG_LINES
            invariant
                self.logs@.len() <= full.len(),
                self.logs@ == full.skip(full.len() - self.logs@.len()),
                full.len() > MAX_LOG_LINES ==> self.logs@.len() >= MAX_LOG_LINES,
                full.len() <= MAX_LOG_LINES ==> self.logs@.len() == full.len(),
                self.peers == old(self).peers,
                self.peer_gains == old(self).peer_gains,
                self.mic_gain == old(self).mic_gain,
                self.mic_muted == old(self).mic_muted,
                self.sound_muted == old(self).sound_muted,
                self.running == old(self).running,
            decreases self.logs@.len(),
        {
            let _ = self.logs.pop_front();
            assert(self.logs@ =~= full.skip(full.len() - self.logs@.len()));
        }
        proof {
            assert(self@.logs =~= newest(old(self)@.logs.push(msg@), MAX_LOG_LINES as nat));
            assert(self@ =~= old(self)@.with_line(msg@));
        }
    }

    /// The gain of a participant: unity, unless it was set.
    pub fn peer_gain(&self, addr: &SocketAddr) -> (r: u32)
        requires
            self.peer_gains.wf(),
        ensures
            r == self@.gain(*addr),
    {
        match self.peer_gains.get(*addr) {
            Some(gain) => *gain,
            None => UNITY_GAIN,
        }
    }

    /// Sets the gain of a participant.
    pub fn set_peer_gain(&mut self, addr: SocketAddr, gain: u32)
        requires
            old(self).peer_gains.wf(),
        ensures
            final(self)@ == old(self)@.with_gain(addr, gain),
            final(self).peers == old(self).peers,
            final(self).peer_gains.wf(),
            old(self).wf() ==> final(self).wf(),
    {
        self.peer_gains.insert(addr, gain);
    }

    /// Sets the gain of the own microphone.
    pub fn set_mic_gain(&mut self, gain: u32)
        ensures
            final(self)@ == (StateInfo { mic_gain: gain, ..old(self)@ }),
            final(self).mic_gain == gain,
            final(self).peers == old(self).peers,
            final(self).peer_gains == old(self).peer_gains,
            old(self).wf() ==> final(self).wf(),
    {
        self.mic_gain = gain;
    }

    /// Mutes the microphone, or opens it again.
    pub fn toggle_mic(&mut self)
        ensures
            final(self)@ == (StateInfo { mic_muted: !old(self)@.mic_muted, ..old(self)@ }),
            final(self).mic_muted == !old(self).mic_muted,
            final(self).sound_muted == old(self).sound_muted,
            final(self).peers == old(self).peers,
            final(self).peer_gains == old(self).peer_gains,
            old(self).wf() ==> final(self).wf(),
    {
        self.mic_muted = !self.mic_muted;
    }

    /// Mutes the incoming sound, or opens it again.
    pub fn toggle_sound(&mut self)
        ensures
            final(self)@ == (StateInfo { sound_muted: !old(self)@.sound_muted, ..old(self)@ }),
            final(self).sound_muted == !old(self).sound_muted,
            final(self).mic_muted == old(self).mic_muted,
            final(self).peers == old(self).peers,
            final(self).peer_gains == old(self).peer_gains,
            old(self).wf() ==> final(self).wf(),
    {
        self.sound_muted = !self.sound_muted;
    }
}

/// The log always shows the newest lines of all that was ever logged: where it
/// shows those of `history`, it shows those of `history` and one more line after
/// that line is logged.
pub proof fn log_shows_the_newest_lines(state: StateInfo, history: Seq<Seq<char>>, line: Seq<char>)
    requires
        state.logs == newest(history, MAX_LOG_LINES as nat),
    ensures
        state.with_line(line).logs == newest(history.push(line), MAX_LOG_LINES as nat),
        state.with_line(line).logs.len() <= MAX_LOG_LINES,
        state.with_line(line).logs.last() == line,
{
    assert(state.with_line(line).logs =~= newest(history.push(line), MAX_LOG_LINES as nat));
}

/// A gain that was set is the gain from then on, and nobody else's changes.
/// Until it is set it is unity, whatever else the state holds.
pub proof fn gains_are_kept(state: StateInfo, a: SocketAddr, gain: u32, b: SocketAddr)
    ensures
        state.with_gain(a, gain).gain(a) == gain,
        b != a ==> state.with_gain(a, gain).gain(b) == state.gain(b),
        !state.peer_gains.dom().contains(b) ==> state.gain(b) == 0x3f80_0000,
        state.peer_gains.dom().contains(b) ==> state.gain(b) == state.peer_gains[b],
        initial_state().gain(b) == UNITY_GAIN,
{
}

/// The newest items of a sequence are its last ones, in their order: as many as
/// were asked for, or all there are.
pub proof fn newest_are_the_last<T>(s: Seq<T>, n: nat)
    ensures
        newest(s, n).len() == (if s.len() < n {
            s.len()
        } else {
            n
        }),
        forall|i: int|
            0 <= i < newest(s, n).len() ==> #[trigger] newest(s, n)[i] == s[s.len() - newest(
                s,
                n,
            ).len() + i],
{
}

/// A line goes to the end of the log, and where the log was full its oldest line
/// goes; nothing else changes.
pub proof fn logging_changes_only_the_log(state: StateInfo, line: Seq<char>)
    ensures
        state.logs.len() < 500 ==> state.with_line(line).logs == state.logs.push(line),
        state.logs.len() == 500 ==> state.with_line(line).logs == state.logs.drop_first().push(line),
        state.with_line(line).logs.len() == (if state.logs.len() < 500 {
            state.logs.len() + 1
        } else {
            500
        }),
        state.with_line(line).logs.last() == line,
        forall|i: int|
            0 <= i < state.with_line(line).logs.len() ==> #[trigger] state.with_line(line).logs[i]
                == state.logs.push(line)[state.logs.len() + 1 - state.with_line(line).logs.len()
                + i],
        state.with_line(line).peers == state.peers,
        state.with_line(line).peer_gains == state.peer_gains,
        state.with_line(line).mic_gain == state.mic_gain,
        state.with_line(line).mic_muted == state.mic_muted,
        state.with_line(line).sound_muted == state.sound_muted,
        state.with_line(line).running == state.running,
{
    assert(state.logs.len() == 500 ==> state.with_line(line).logs
        =~= state.logs.drop_first().push(line));
}

/// To set a gain changes nothing but the gains.
pub proof fn setting_a_gain_changes_only_gains(state: StateInfo, a: SocketAddr, gain: u32)
    ensures
        state.with_gain(a, gain).peers == state.peers,
        state.with_gain(a, gain).mic_gain == state.mic_gain,
        state.with_gain(a, gain).mic_muted == state.mic_muted,
        state.with_gain(a, gain).sound_muted == state.sound_muted,
        state.with_gain(a, gain).logs == state.logs,
        state.with_gain(a, gain).running == state.running,
        state.with_gain(a, gain).peer_gains.dom() == state.peer_gains.dom().insert(a),
{
}

/// The program starts with nobody known, nothing set or muted, nothing logged and
/// nothing running.
pub proof fn the_start_is_empty(a: SocketAddr)
    ensures
        !initial_state().peers.dom().contains(a),
        !initial_state().peer_gains.dom().contains(a),
        initial_state().mic_gain == 0x3f80_0000,
        !initial_state().mic_muted,
        !initial_state().sound_muted,
        initial_state().logs.len() == 0,
        !initial_state().running,
{
}

/// The view of the state leaves nothing out.
pub proof fn the_view_shows_everything(state: &SharedState, a: SocketAddr, i: int)
    ensures
        state@.peers.dom() == state.peers@.dom(),
        state.peers@.dom().contains(a) ==> {
            &&& state@.peers[a].username == state.peers@[a].username@
            &&& state@.peers[a].voice_addr == state.peers@[a].voice_addr
            &&& state@.peers[a].last_seen == state.peers@[a].last_seen
        },
        state@.peer_gains == state.peer_gains@,
        state@.mic_gain == state.mic_gain,
        state@.mic_muted == state.mic_muted,
        state@.sound_muted == state.sound_muted,
        state@.logs.len() == state.logs@.len(),
        0 <= i < state.logs@.len() ==> state@.logs[i] == state.logs@[i]@,
        state@.running == state.running,
{
    assert(state@.peers.dom() =~= state.peers@.dom());
}

/// In a well-formed state the log holds at most 500 lines, and whoever is in the
/// table stands under the address that their voice goes to, on the voice port.
pub proof fn well_formed_states(state: StateInfo, a: SocketAddr)
    requires
        state.wf(),
    ensures
        state.logs.len() <= 500,
        state.peers.dom().contains(a) ==> {
            &&& state.peers[a].voice_addr == a
            &&& a.port == 47531
            &&& a.flowinfo == 0
            &&& a.scope_id == 0
        },
{
}

/// A participant was last heard at the moment that its row holds.
pub proof fn the_row_tells_the_moment(peer: &Peer)
    ensures
        peer.spec_stamp() == peer.last_seen,
        peer@.username == peer.username@,
        peer@.voice_addr == peer.voice_addr,
        peer@.last_seen == peer.last_seen,
{
}

} // verus!
