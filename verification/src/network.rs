//! Discovery: who is on the network.
//!
//! An announcement is the mark [`MAGIC`], the sender's session number in eight
//! bytes, little end first, the length of the name in one byte, and the name in
//! UTF-8.
use crate::addr::SocketAddr;
use crate::clock::epoch_nanos;
use crate::settings::{DISCOVERY_INTERVAL_SECS, DISCOVERY_PORT, VOICE_PORT};
use crate::state::{Peer, PeerInfo, SharedState, StateInfo};
use crate::text::push_decimal;
use vstd::prelude::*;

verus! {

/// The mark that an announcement begins with: `VOIPLAN1`.
pub const MAGIC: [u8; 8] = [0x56, 0x4f, 0x49, 0x50, 0x4c, 0x41, 0x4e, 0x31];

/// The bytes before the name: the mark, the session number, the length.
pub const HEADER_LEN: usize = 17;

/// The most bytes of a name that an announcement carries.
pub const MAX_NAME_LEN: usize = 255;

/// The `n` low bytes of `x`, lowest first.
pub open spec fn le_bytes(x: nat, n: nat) -> Seq<u8>
    decreases n,
{
    if n == 0 {
        seq![]
    } else {
        seq![(x % 256) as u8] + le_bytes(x / 256, (n - 1) as nat)
    }
}

/// The number whose bytes, lowest first, are `s`.
pub open spec fn from_le_bytes(s: Seq<u8>) -> nat
    decreases s.len(),
{
    if s.len() == 0 {
        0
    } else {
        s[0] as nat + 256 * from_le_bytes(s.drop_first())
    }
}

/// 256 to the power `n`.
spec fn byte_range(n: nat) -> nat
    decreases n,
{
    if n == 0 {
        1
    } else {
        256 * byte_range((n - 1) as nat)
    }
}

proof fn lemma_le_bytes(x: nat, n: nat)
    requires
        x < byte_range(n),
    ensures
        le_bytes(x, n).len() == n,
        from_le_bytes(le_bytes(x, n)) == x,
    decreases n,
{
    if n > 0 {
        lemma_le_bytes(x / 256, (n - 1) as nat);
        assert(le_bytes(x, n).drop_first() =~= le_bytes(x / 256, (n - 1) as nat));
    }
}

proof fn lemma_from_le_bytes(s: Seq<u8>)
    ensures
        from_le_bytes(s) < byte_range(s.len()),
    decreases s.len(),
{
    if s.len() > 0 {
        lemma_from_le_bytes(s.drop_first());
    }
}

proof fn lemma_u64_range()
    ensures
        byte_range(8) == 0x1_0000_0000_0000_0000,
{
    reveal_with_fuel(byte_range, 9);
}

/// The session number made at `nanos` nanoseconds by the process `pid`.
pub open spec fn session_number(nanos: u128, pid: u32) -> u64 {
    (nanos as u64) ^ ((pid as u64) << 32u64)
}

/// Makes the session number for a moment and a process.
pub fn session_id(nanos: u128, pid: u32) -> (r: u64)
    ensures
        r == session_number(nanos, pid),
{
    #[verifier::truncate]
    let low: u64 = nanos as u64;
    low ^ ((pid as u64) << 32u64)
}

/// Makes the session number of this moment for the process `pid`. It marks the
/// announcements of one connection, so that a participant knows its own.
pub fn new_session_id(pid: u32) -> (r: u64)
    ensures
        exists|nanos: u128| r == #[trigger] session_number(nanos, pid),
{
    let nanos: u128 = epoch_nanos();
    session_id(nanos, pid)
}

/// Two processes never make the same session number at the same moment, and one
/// process makes the same number twice only at moments that agree in their low
/// 64 bits.
pub proof fn session_numbers_differ(nanos1: u128, nanos2: u128, pid1: u32, pid2: u32)
    ensures
        pid1 != pid2 ==> session_number(nanos1, pid1) != session_number(nanos1, pid2),
        (nanos1 as u64) != (nanos2 as u64) ==> session_number(nanos1, pid1) != session_number(
            nanos2,
            pid1,
        ),
{
    let a = nanos1 as u64;
    let b = nanos2 as u64;
    assert(pid1 != pid2 ==> a ^ ((pid1 as u64) << 32u64) != a ^ ((pid2 as u64) << 32u64))
        by (bit_vector);
    assert(a != b ==> a ^ ((pid1 as u64) << 32u64) != b ^ ((pid1 as u64) << 32u64)) by (bit_vector);
}

/// The part of a name that an announcement carries.
pub open spec fn carried_name(name: Seq<u8>) -> Seq<u8> {
    if name.len() <= MAX_NAME_LEN {
        name
    } else {
        name.take(MAX_NAME_LEN as int)
    }
}

/// The announcement of `name` in the session `session`.
pub open spec fn announce_bytes(name: Seq<u8>, session: u64) -> Seq<u8> {
    MAGIC@ + le_bytes(session as nat, 8) + seq![carried_name(name).len() as u8] + carried_name(name)
}

/// The session number and the name in an announcement; `None` for bytes that are
/// none. What follows the name does not matter.
pub open spec fn read_announce(data: Seq<u8>) -> Option<(u64, Seq<u8>)> {
    if data.len() < HEADER_LEN || data.take(8) != MAGIC@ || data.len() < HEADER_LEN + data[16] {
        None
    } else {
        Some(
            (
                from_le_bytes(data.subrange(8, 16)) as u64,
                data.subrange(HEADER_LEN as int, HEADER_LEN + data[16]),
            ),
        )
    }
}

/// Makes the announcement of `username` in the session `session`.
pub fn build_announce(username: &str, session: u64) -> (r: Vec<u8>)
    ensures
        r@ == announce_bytes(vstd::utf8::encode_utf8(username@), session),
{
    let name_bytes: &[u8] = username.as_bytes();
    let shown: usize = if name_bytes.len() < MAX_NAME_LEN {
        name_bytes.len()
    } else {
        MAX_NAME_LEN
    };
    let mut packet: Vec<u8> = Vec::with_capacity(HEADER_LEN + shown);
    let mark: [u8; 8] = MAGIC;
    packet.extend_from_slice(mark.as_slice());
    assert(packet@ =~= MAGIC@);
    push_le_bytes(&mut packet, session);
    packet.push(shown as u8);
    packet.extend_from_slice(vstd::slice::slice_subrange(name_bytes, 0, shown));
    assert(packet@ =~= announce_bytes(vstd::utf8::encode_utf8(username@), session));
    packet
}

/// Appends the bytes of `x`, lowest first.
fn push_le_bytes(out: &mut Vec<u8>, x: u64)
    ensures
        final(out)@ == old(out)@ + le_bytes(x as nat, 8),
{
    let ghost before = out@;
    let mut rest: u64 = x;
    let mut i: u64 = 0;
    assert(out@ + le_bytes(x as nat, 8) =~= before + le_bytes(x as nat, 8));
    while i < 8
        invariant
            i <= 8,
            out@ + le_bytes(rest as nat, (8 - i) as nat) == before + le_bytes(x as nat, 8),
        decreases 8 - i,
    {
        let ghost shown = out@;
        let ghost tail = le_bytes((rest / 256) as nat, (7 - i) as nat);
        out.push((rest % 256) as u8);
        assert(out@ + tail =~= shown + le_bytes(rest as nat, (8 - i) as nat));
        rest = rest / 256;
        i = i + 1;
    }
    assert(out@ =~= out@ + le_bytes(rest as nat, 0));
}

/// The number whose eight bytes, lowest first, stand in `data` from `at` on.
fn read_le_bytes(data: &[u8], at: usize) -> (r: u64)
    requires
        at + 8 <= data@.len(),
    ensures
        r == from_le_bytes(data@.subrange(at as int, at + 8)),
{
    let mut value: u64 = 0;
    let mut i: usize = 8;
    proof {
        lemma_u64_range();
        lemma_from_le_bytes(data@.subrange(at as int, at + 8));
    }
    while i > 0
        invariant
            i <= 8,
            at + 8 <= data.len(),
            value == from_le_bytes(data@.subrange(at + i, at + 8)),
        decreases i,
    {
        i = i - 1;
        let ghost s = data@.subrange(at + i, at + 8);
        proof {
            assert(s.drop_first() =~= data@.subrange(at + i + 1, at + 8));
            lemma_from_le_bytes(s);
            lemma_byte_range_monotone(s.len(), 8);
            lemma_u64_range();
        }
        value = value * 256 + data[at + i] as u64;
    }
    value
}

proof fn lemma_byte_range_monotone(m: nat, n: nat)
    requires
        m <= n,
    ensures
        byte_range(m) <= byte_range(n),
    decreases n,
{
    if m < n {
        lemma_byte_range_monotone(m, (n - 1) as nat);
    }
}

/// Whether `data` begins with the mark of an announcement.
fn has_magic(data: &[u8]) -> (r: bool)
    requires
        data@.len() >= 8,
    ensures
        r == (data@.take(8) == MAGIC@),
{
    let mark: [u8; 8] = MAGIC;
    let mut i: usize = 0;
    while i < 8
        invariant
            i <= 8,
            data@.len() >= 8,
            mark@ == MAGIC@,
            forall|k: int| 0 <= k < i ==> data@[k] == MAGIC@[k],
        decreases 8 - i,
    {
        if data[i] != mark[i] {
            assert(data@.take(8)[i as int] != MAGIC@[i as int]);
            return false;
        }
        i = i + 1;
    }
    assert(data@.take(8) =~= MAGIC@);
    true
}

/// Takes an announcement apart into the session number and the bytes of the
/// name.
pub fn split_announce(data: &[u8]) -> (r: Option<(u64, Vec<u8>)>)
    ensures
        match r {
            Some((session, name)) => read_announce(data@) == Some((session, name@)),
            None => read_announce(data@) is None,
        },
{
    if data.len() < HEADER_LEN || !has_magic(data) {
        return None;
    }
    let session: u64 = read_le_bytes(data, 8);
    let name_end: usize = HEADER_LEN + data[16] as usize;
    if data.len() < name_end {
        return None;
    }
    let name = vstd::slice::slice_to_vec(
        vstd::slice::slice_subrange(data, HEADER_LEN, name_end),
    );
    Some((session, name))
}

/// The text that `String::from_utf8_lossy` makes of bytes that are not UTF-8.
pub uninterp spec fn utf8_lossy(bytes: Seq<u8>) -> Seq<char>;

/// `String::from_utf8_lossy` returns the text of valid UTF-8 unchanged. Of other
/// bytes it makes a text that depends on them alone, in which replacement
/// characters stand for what is invalid; where those stand is not stated.
#[verifier::external_body]
fn lossy_text(bytes: &[u8]) -> (r: String)
    ensures
        vstd::utf8::valid_utf8(bytes@) ==> r@ == vstd::utf8::decode_utf8(bytes@),
        !vstd::utf8::valid_utf8(bytes@) ==> r@ == utf8_lossy(bytes@),
{
    String::from_utf8_lossy(bytes).into_owned()
}

/// The name that is shown for the bytes of a name.
pub open spec fn shown_name(bytes: Seq<u8>) -> Seq<char> {
    if vstd::utf8::valid_utf8(bytes) {
        vstd::utf8::decode_utf8(bytes)
    } else {
        utf8_lossy(bytes)
    }
}

/// Where the voice of the participant that sent from `src` is expected: the same
/// host, on the voice port.
pub open spec fn voice_endpoint(src: SocketAddr) -> SocketAddr {
    crate::addr::endpoint(src.ip, VOICE_PORT)
}

/// The voice address of the participant that sent from `src`.
pub fn voice_addr(src: SocketAddr) -> (r: SocketAddr)
    ensures
        r == voice_endpoint(src),
{
    SocketAddr::new(src.ip, VOICE_PORT)
}

/// The participant of that name, heard from `src` at `now`.
pub open spec fn heard_peer(name: Seq<u8>, src: SocketAddr, now: u128) -> PeerInfo {
    PeerInfo { username: shown_name(name), voice_addr: voice_endpoint(src), last_seen: now }
}

/// Reads an announcement that came from `src` at `now`: the participant and its
/// session number, or `None` where the bytes are no announcement.
pub fn parse_announce(data: &[u8], src: SocketAddr, now: u128) -> (r: Option<(Peer, u64)>)
    ensures
        match r {
            Some((peer, session)) => {
                &&& read_announce(data@) is Some
                &&& session == (read_announce(data@)->0).0
                &&& peer@ == heard_peer((read_announce(data@)->0).1, src, now)
            },
            None => read_announce(data@) is None,
        },
{
    match split_announce(data) {
        Some((session, name)) => {
            let peer = Peer {
                username: lossy_text(name.as_slice()),
                voice_addr: voice_addr(src),
                last_seen: now,
            };
            Some((peer, session))
        },
        None => None,
    }
}

/// An announcement is read back as it was made: its session number and the part
/// of the name that it carries.
pub proof fn announce_is_read_back(name: Seq<u8>, session: u64)
    ensures
        read_announce(announce_bytes(name, session)) == Some((session, carried_name(name))),
{
    let data = announce_bytes(name, session);
    let shown = carried_name(name);
    lemma_u64_range();
    lemma_le_bytes(session as nat, 8);
    assert(data.take(8) =~= MAGIC@);
    assert(data.subrange(8, 16) =~= le_bytes(session as nat, 8));
    assert(data[16] == shown.len() as u8);
    assert(data.subrange(HEADER_LEN as int, HEADER_LEN + data[16]) =~= shown);
}

/// A participant whose name takes at most [`MAX_NAME_LEN`] bytes is heard under
/// that very name.
pub proof fn name_is_heard(username: Seq<char>, src: SocketAddr, now: u128)
    requires
        vstd::utf8::encode_utf8(username).len() <= MAX_NAME_LEN,
    ensures
        heard_peer(carried_name(vstd::utf8::encode_utf8(username)), src, now).username == username,
{
    vstd::utf8::encode_utf8_valid_utf8(username);
    vstd::utf8::encode_utf8_decode_utf8(username);
}

/// The state after the bytes `data` came from `src` at `now`, for a participant
/// in the session `own`. `addr_text` is how the voice address reads.
pub open spec fn after_announce(
    state: StateInfo,
    own: u64,
    data: Seq<u8>,
    src: SocketAddr,
    addr_text: Seq<char>,
    now: u128,
) -> StateInfo {
    match read_announce(data) {
        None => state,
        Some((session, name)) => if session == own {
            state
        } else {
            let peer = heard_peer(name, src, now);
            let noted = if state.peers.dom().contains(peer.voice_addr) {
                state
            } else {
                state.with_line(new_peer_line(peer.username, addr_text))
            };
            StateInfo { peers: noted.peers.insert(peer.voice_addr, peer), ..noted }
        },
    }
}

/// The line that reports a new participant.
pub open spec fn new_peer_line(username: Seq<char>, addr_text: Seq<char>) -> Seq<char> {
    "Новый участник в сети: "@ + username + " ("@ + addr_text + ")"@
}

/// Takes in the bytes of a datagram on the discovery port: a participant that
/// announces itself is entered or renewed, and reported where it is new. Own
/// announcements, known by their session number, and foreign bytes change
/// nothing.
pub fn on_announce(
    state: &mut SharedState,
    own: u64,
    data: &[u8],
    src: SocketAddr,
    addr_text: &str,
    now: u128,
)
    requires
        old(state).peers.wf(),
    ensures
        final(state).peers.wf(),
        final(state).peer_gains == old(state).peer_gains,
        old(state).wf() ==> final(state).wf(),
        final(state)@ == after_announce(old(state)@, own, data@, src, addr_text@, now),
{
    if let Some((peer, session)) = parse_announce(data, src, now) {
        if session != own {
            let at: SocketAddr = peer.voice_addr;
            if !state.peers.contains_key(at) {
                let mut line = String::from_str("Новый участник в сети: ");
                line.append(peer.username.as_str());
                line.append(" (");
                line.append(addr_text);
                line.append(")");
                state.log(line);
            }
            let ghost noted = state@;
            let ghost info = peer@;
            state.peers.insert(at, peer);
            proof {
                assert(state@.peers =~= noted.peers.insert(at, info));
                assert(state@ =~= after_announce(old(state)@, own, data@, src, addr_text@, now));
            }
        }
    }
}

/// A participant is never its own peer: whatever its name, its announcements
/// leave it as it is.
pub proof fn own_announcement_is_ignored(
    state: StateInfo,
    own: u64,
    name: Seq<u8>,
    src: SocketAddr,
    addr_text: Seq<char>,
    now: u128,
)
    ensures
        after_announce(state, own, announce_bytes(name, own), src, addr_text, now) == state,
{
    announce_is_read_back(name, own);
}

/// Bytes without the mark, or too short for what they claim, change nothing.
pub proof fn foreign_bytes_are_ignored(
    state: StateInfo,
    own: u64,
    data: Seq<u8>,
    src: SocketAddr,
    addr_text: Seq<char>,
    now: u128,
)
    requires
        data.len() < HEADER_LEN || data.take(8) != MAGIC@ || data.len() < HEADER_LEN + data[16],
    ensures
        after_announce(state, own, data, src, addr_text, now) == state,
{
}

/// The announcement of another session enters its sender under the voice
/// address of its host, with the name it carries and the moment it came, even
/// where both sides bear the same name; all other participants stay as they are.
pub proof fn other_announcement_is_entered(
    state: StateInfo,
    own: u64,
    session: u64,
    name: Seq<u8>,
    src: SocketAddr,
    addr_text: Seq<char>,
    now: u128,
)
    requires
        session != own,
    ensures
        after_announce(state, own, announce_bytes(name, session), src, addr_text, now).peers
            == state.peers.insert(voice_endpoint(src), heard_peer(carried_name(name), src, now)),
{
    announce_is_read_back(name, session);
}

/// How long the listening thread waits for a datagram, in milliseconds, before
/// it looks again whether it is to go on.
pub const READ_TIMEOUT_MS: u64 = 500;

/// The threads that discovery runs by.
#[derive(Clone, Copy, Debug, PartialEq, Eq, Structural)]
pub enum DiscoveryThread {
    /// Takes in the announcements of others.
    Listener,
    /// Sends the own announcement.
    Announcer,
}

/// How many threads discovery runs by.
pub const DISCOVERY_THREADS: usize = 2;

/// What the listening thread does next.
#[derive(Clone, Copy, Debug, PartialEq, Eq, Structural)]
pub enum ListenerAction {
    /// Wait for a datagram, for [`READ_TIMEOUT_MS`] at most.
    Receive,
    /// End.
    Stop,
}

/// What the listening thread does next, given whether discovery is to run.
pub open spec fn listener_next(running: bool) -> ListenerAction {
    if running {
        ListenerAction::Receive
    } else {
        ListenerAction::Stop
    }
}

/// Decides what the listening thread does next.
pub fn listener_step(state: &SharedState) -> (r: ListenerAction)
    ensures
        r == listener_next(state@.running),
{
    if state.running {
        ListenerAction::Receive
    } else {
        ListenerAction::Stop
    }
}

/// What came of waiting for a datagram on the discovery port.
pub enum Received {
    /// Bytes from `src`; `addr_text` is how the voice address of `src` reads.
    Datagram { data: Vec<u8>, src: SocketAddr, addr_text: String },
    /// Nothing was there.
    WouldBlock,
    /// Nothing came in time.
    TimedOut,
    /// The socket failed, for the reason given.
    Failed(String),
}

/// One side's part in discovery: its session, where its announcements go, and
/// the announcement.
pub struct Discovery {
    pub session: u64,
    pub dest: String,
    pub payload: Vec<u8>,
}

/// Prepares discovery: the announcement of `username` in the session `session`,
/// bound for the discovery port of `broadcast_addr`.
pub fn start_discovery(username: &str, broadcast_addr: &str, session: u64) -> (r: Discovery)
    ensures
        r.session == session,
        r.dest@ == broadcast_addr@ + ":"@ + crate::text::decimal(DISCOVERY_PORT as nat),
        r.payload@ == announce_bytes(vstd::utf8::encode_utf8(username@), session),
{
    let mut dest = String::from_str(broadcast_addr);
    dest.append(":");
    push_decimal(&mut dest, DISCOVERY_PORT as u64);
    Discovery { session, dest, payload: build_announce(username, session) }
}

/// The state after a round of the listening thread of the session `own`, in
/// which `event` came at `now`.
pub open spec fn after_received(
    state: StateInfo,
    own: u64,
    event: Received,
    now: u128,
) -> StateInfo {
    match event {
        Received::Datagram { data, src, addr_text } => after_announce(
            state,
            own,
            data@,
            src,
            addr_text@,
            now,
        ),
        Received::WouldBlock => state,
        Received::TimedOut => state,
        Received::Failed(e) => state.with_line("Ошибка приёма discovery-пакета: "@ + e@),
    }
}

impl Discovery {
    /// The threads to start: one that listens and one that announces.
    pub fn threads(&self) -> (r: Vec<DiscoveryThread>)
        ensures
            r@ == seq![DiscoveryThread::Listener, DiscoveryThread::Announcer],
            r@.len() == DISCOVERY_THREADS,
    {
        let mut out: Vec<DiscoveryThread> = Vec::new();
        out.push(DiscoveryThread::Listener);
        out.push(DiscoveryThread::Announcer);
        assert(out@ =~= seq![DiscoveryThread::Listener, DiscoveryThread::Announcer]);
        out
    }

    /// One round of the listening thread.
    pub fn on_received(&self, state: &mut SharedState, event: Received, now: u128)
        requires
            old(state).peers.wf(),
        ensures
            final(state).peers.wf(),
            final(state).peer_gains == old(state).peer_gains,
            old(state).wf() ==> final(state).wf(),
            final(state)@ == after_received(old(state)@, self.session, event, now),
    {
        match event {
            Received::Datagram { data, src, addr_text } => {
                on_announce(state, self.session, data.as_slice(), src, addr_text.as_str(), now);
            },
            Received::WouldBlock => {},
            Received::TimedOut => {},
            Received::Failed(e) => {
                let mut line = String::from_str("Ошибка приёма discovery-пакета: ");
                line.append(e.as_str());
                state.log(line);
            },
        }
    }

    /// Reports that the discovery port could not be opened, for the reason given.
    pub fn on_listen_failed(&self, state: &mut SharedState, e: &str)
        ensures
            final(state).peers == old(state).peers,
            final(state).peer_gains == old(state).peer_gains,
            old(state).wf() ==> final(state).wf(),
            final(state)@ == old(state)@.with_line(
                "Не удалось открыть discovery-порт "@ + crate::text::decimal(DISCOVERY_PORT as nat)
                    + ": "@ + e@,
            ),
    {
        let mut line = String::from_str("Не удалось открыть discovery-порт ");
        push_decimal(&mut line, DISCOVERY_PORT as u64);
        line.append(": ");
        line.append(e);
        state.log(line);
    }

    /// Reports that there is no socket to announce by, for the reason given.
    pub fn on_no_socket(&self, state: &mut SharedState, e: &str)
        ensures
            final(state).peers == old(state).peers,
            final(state).peer_gains == old(state).peer_gains,
            old(state).wf() ==> final(state).wf(),
            final(state)@ == old(state)@.with_line(
                "Не удалось создать сокет для announce: "@ + e@,
            ),
    {
        let mut line = String::from_str("Не удалось создать сокет для announce: ");
        line.append(e);
        state.log(line);
    }

    /// Reports that an announcement could not be sent, for the reason given.
    pub fn on_send_failed(&self, state: &mut SharedState, e: &str)
        ensures
            final(state).peers == old(state).peers,
            final(state).peer_gains == old(state).peer_gains,
            old(state).wf() ==> final(state).wf(),
            final(state)@ == old(state)@.with_line(
                "Не удалось отправить announce на "@ + self.dest@ + ": "@ + e@,
            ),
    {
        let mut line = String::from_str("Не удалось отправить announce на ");
        line.append(self.dest.as_str());
        line.append(": ");
        line.append(e);
        state.log(line);
    }
}

/// How long the announcing thread sleeps at a time, in milliseconds: short, so
/// that it soon sees that it is to stop.
pub const ANNOUNCE_STEP_MS: u64 = 200;

/// What the announcing thread does next.
#[derive(Clone, Copy, Debug, PartialEq, Eq, Structural)]
pub enum AnnouncerAction {
    /// Send the announcement.
    Send,
    /// Sleep for that many milliseconds.
    Sleep(u64),
    /// End.
    Stop,
}

/// The announcing thread: it has slept for `waited_ms` since its last
/// announcement.
pub struct Announcer {
    pub waited_ms: u64,
}

/// The milliseconds between two announcements.
pub open spec fn announce_interval_ms() -> u64 {
    (DISCOVERY_INTERVAL_SECS * 1000) as u64
}

/// What a thread does that has slept for `waited_ms`, and how long it will have
/// slept then.
pub open spec fn announcer_next(waited_ms: u64, running: bool) -> (u64, AnnouncerAction) {
    if !running {
        (waited_ms, AnnouncerAction::Stop)
    } else if waited_ms < announce_interval_ms() {
        ((waited_ms + ANNOUNCE_STEP_MS) as u64, AnnouncerAction::Sleep(ANNOUNCE_STEP_MS))
    } else {
        (0, AnnouncerAction::Send)
    }
}

impl Announcer {
    /// Makes the thread's state before its first announcement, which is due at
    /// once.
    pub fn new() -> (r: Announcer)
        ensures
            r.waited_ms == announce_interval_ms(),
    {
        Announcer { waited_ms: DISCOVERY_INTERVAL_SECS * 1000 }
    }

    /// Decides what to do next, given whether discovery is still to run.
    pub fn next(&mut self, running: bool) -> (r: AnnouncerAction)
        ensures
            (final(self).waited_ms, r) == announcer_next(old(self).waited_ms, running),
    {
        if !running {
            AnnouncerAction::Stop
        } else if self.waited_ms < DISCOVERY_INTERVAL_SECS * 1000 {
            self.waited_ms = self.waited_ms + ANNOUNCE_STEP_MS;
            AnnouncerAction::Sleep(ANNOUNCE_STEP_MS)
        } else {
            self.waited_ms = 0;
            AnnouncerAction::Send
        }
    }
}

/// How long a thread has slept that had slept for `waited_ms`, after `n` more
/// decisions to go on.
pub open spec fn waited_after(waited_ms: u64, n: nat) -> u64
    decreases n,
{
    if n == 0 {
        waited_ms
    } else {
        announcer_next(waited_after(waited_ms, (n - 1) as nat), true).0
    }
}

proof fn lemma_waited(n: nat)
    requires
        n <= 15,
    ensures
        waited_after(0, n) == 200 * n,
    decreases n,
{
    if n > 0 {
        lemma_waited((n - 1) as nat);
    }
}

/// While discovery runs, an announcement is followed by fifteen sleeps of 200
/// milliseconds, three seconds in all, and then by the next announcement.
pub proof fn announcements_come_every_interval(n: nat)
    requires
        n <= 15,
    ensures
        announcer_next(waited_after(0, n), true).1 == (if n < 15 {
            AnnouncerAction::Sleep(ANNOUNCE_STEP_MS)
        } else {
            AnnouncerAction::Send
        }),
        15 * ANNOUNCE_STEP_MS == DISCOVERY_INTERVAL_SECS * 1000,
{
    lemma_waited(n);
}

/// A thread that is told to stop does so at its next decision.
pub proof fn announcer_stops_at_once(waited_ms: u64)
    ensures
        announcer_next(waited_ms, false).1 == AnnouncerAction::Stop,
        announcer_next(waited_ms, false).0 == waited_ms,
{
}

/// How many datagrams the listening thread waits for that finds the flag to be
/// `flags[0]`, `flags[1]` and so on each time it looks.
pub open spec fn listener_rounds(flags: Seq<bool>) -> nat
    decreases flags.len(),
{
    if flags.len() == 0 || listener_next(flags[0]) == ListenerAction::Stop {
        0
    } else {
        1 + listener_rounds(flags.drop_first())
    }
}

/// How often the announcing thread sends or sleeps that has slept for
/// `waited_ms` and finds the flag to be `flags[0]`, `flags[1]` and so on each
/// time it looks.
pub open spec fn announcer_rounds(waited_ms: u64, flags: Seq<bool>) -> nat
    decreases flags.len(),
{
    if flags.len() == 0 || announcer_next(waited_ms, flags[0]).1 == AnnouncerAction::Stop {
        0
    } else {
        1 + announcer_rounds(announcer_next(waited_ms, flags[0]).0, flags.drop_first())
    }
}

/// Both threads of discovery end once the flag is down: whichever finds it down
/// when it looks for the `k`-th time has done `k` rounds at most, and none after
/// that. A round takes no longer than one wait of [`READ_TIMEOUT_MS`], or one
/// sleep of [`ANNOUNCE_STEP_MS`].
pub proof fn discovery_threads_end(waited_ms: u64, flags: Seq<bool>, k: int)
    requires
        0 <= k < flags.len(),
        !flags[k],
    ensures
        listener_rounds(flags) <= k,
        announcer_rounds(waited_ms, flags) <= k,
        announcer_next(waited_ms, true).1 matches AnnouncerAction::Sleep(ms) ==> ms
            == ANNOUNCE_STEP_MS,
    decreases flags.len(),
{
    if k > 0 {
        let rest = flags.drop_first();
        assert(rest[k - 1] == flags[k]);
        discovery_threads_end(announcer_next(waited_ms, flags[0]).0, rest, k - 1);
    }
}

/// Discovery never sets the flag that it runs by: no round of a thread, no report
/// and no cleanup changes it.
pub proof fn discovery_keeps_the_flag(
    state: StateInfo,
    own: u64,
    event: Received,
    now: u128,
    timeout: u128,
    line: Seq<char>,
)
    ensures
        after_received(state, own, event, now).running == state.running,
        after_cleanup(state, now, timeout).running == state.running,
        state.with_line(line).running == state.running,
{
}

/// The participants that were heard less than `timeout` before `now`.
pub open spec fn recent_peers(
    peers: Map<SocketAddr, PeerInfo>,
    now: u128,
    timeout: u128,
) -> Map<SocketAddr, PeerInfo> {
    Map::new(
        |a: SocketAddr|
            peers.dom().contains(a) && crate::addr::is_recent(peers[a].last_seen, now, timeout),
        |a: SocketAddr| peers[a],
    )
}

/// The line that reports how many participants were dropped.
pub open spec fn removed_line(removed: nat) -> Seq<char> {
    "Убрано неактивных участников: "@ + crate::text::decimal(removed)
}

/// The state after the participants that were not heard within `timeout` are
/// dropped at `now`.
pub open spec fn after_cleanup(state: StateInfo, now: u128, timeout: u128) -> StateInfo {
    let kept = StateInfo { peers: recent_peers(state.peers, now, timeout), ..state };
    let removed = state.peers.dom().len() - kept.peers.dom().len();
    if removed > 0 {
        kept.with_line(removed_line(removed as nat))
    } else {
        kept
    }
}

/// Drops the participants that were not heard within `timeout`, and reports how
/// many those were, if any.
pub fn cleanup_stale_peers(state: &mut SharedState, now: u128, timeout: u128)
    requires
        old(state).peers.wf(),
    ensures
        final(state).peers.wf(),
        final(state).peer_gains == old(state).peer_gains,
        old(state).wf() ==> final(state).wf(),
        final(state)@ == after_cleanup(old(state)@, now, timeout),
{
    let removed: usize = state.peers.drop_stale(now, timeout);
    proof {
        assert(state@.peers =~= recent_peers(old(state)@.peers, now, timeout));
        assert(state@.peers.dom() =~= state.peers@.dom());
        assert(old(state)@.peers.dom() =~= old(state).peers@.dom());
    }
    if removed > 0 {
        let mut line = String::from_str("Убрано неактивных участников: ");
        push_decimal(&mut line, removed as u64);
        state.log(line);
    }
    proof {
        assert(state@ =~= after_cleanup(old(state)@, now, timeout));
    }
}

/// Whoever was heard within `timeout` stays, as they were; everyone else goes;
/// and nobody comes.
pub proof fn cleanup_keeps_the_recent(state: StateInfo, now: u128, timeout: u128, a: SocketAddr)
    ensures
        after_cleanup(state, now, timeout).peers.dom().contains(a) <==> {
            &&& state.peers.dom().contains(a)
            &&& crate::addr::is_recent(state.peers[a].last_seen, now, timeout)
        },
        after_cleanup(state, now, timeout).peers.dom().contains(a) ==> after_cleanup(
            state,
            now,
            timeout,
        ).peers[a] == state.peers[a],
{
}

/// A second cleanup at the same moment finds nothing to do and says nothing.
pub proof fn cleanup_twice(state: StateInfo, now: u128, timeout: u128)
    ensures
        after_cleanup(after_cleanup(state, now, timeout), now, timeout) == after_cleanup(
            state,
            now,
            timeout,
        ),
{
    let once = after_cleanup(state, now, timeout);
    assert(recent_peers(once.peers, now, timeout) =~= once.peers);
}

/// A participant whose announcement came `age` ago is still known where `age` is
/// at most three intervals between announcements: two in a row may be lost.
pub proof fn announcing_peers_stay(
    state: StateInfo,
    own: u64,
    session: u64,
    name: Seq<u8>,
    src: SocketAddr,
    addr_text: Seq<char>,
    heard: u128,
    now: u128,
)
    requires
        session != own,
        heard <= now,
        now - heard <= 3 * DISCOVERY_INTERVAL_SECS * crate::settings::NANOS_PER_SEC,
    ensures
        ({
            let known = after_announce(
                state,
                own,
                announce_bytes(name, session),
                src,
                addr_text,
                heard,
            );
            let timeout = (crate::settings::PEER_TIMEOUT_SECS * crate::settings::NANOS_PER_SEC) as u128;
            after_cleanup(known, now, timeout).peers.dom().contains(voice_endpoint(src))
        }),
{
    other_announcement_is_entered(state, own, session, name, src, addr_text, heard);
}

/// An announcement, byte by byte: the eight letters `VOIPLAN1`, the session number
/// lowest byte first, the length of what follows, and the beginning of the name.
pub proof fn announcement_layout(name: Seq<u8>, session: u64, i: int)
    ensures
        ({
            let data = announce_bytes(name, session);
            let n: nat = if name.len() < 255 {
                name.len()
            } else {
                255
            };
            let s = session as nat;
            &&& data.len() == 17 + n
            &&& data.take(8) == seq![0x56u8, 0x4fu8, 0x49u8, 0x50u8, 0x4cu8, 0x41u8, 0x4eu8, 0x31u8]
            &&& data[8] == s % 0x100
            &&& data[9] == s / 0x100 % 0x100
            &&& data[10] == s / 0x1_0000 % 0x100
            &&& data[11] == s / 0x100_0000 % 0x100
            &&& data[12] == s / 0x1_0000_0000 % 0x100
            &&& data[13] == s / 0x100_0000_0000 % 0x100
            &&& data[14] == s / 0x1_0000_0000_0000 % 0x100
            &&& data[15] == s / 0x100_0000_0000_0000 % 0x100
            &&& data[16] == n
            &&& 0 <= i < n ==> data[17 + i] == name[i]
        }),
{
    let data = announce_bytes(name, session);
    let s = session as nat;
    lemma_u64_range();
    lemma_le_bytes(s, 8);
    reveal_with_fuel(le_bytes, 9);
    let bytes = le_bytes(s, 8);
    let x1 = s / 256;
    let x2 = x1 / 256;
    let x3 = x2 / 256;
    let x4 = x3 / 256;
    let x5 = x4 / 256;
    let x6 = x5 / 256;
    let x7 = x6 / 256;
    assert(bytes[0] == s % 256);
    assert(bytes[1] == x1 % 256);
    assert(bytes[2] == x2 % 256);
    assert(bytes[3] == x3 % 256);
    assert(bytes[4] == x4 % 256);
    assert(bytes[5] == x5 % 256);
    assert(bytes[6] == x6 % 256);
    assert(bytes[7] == x7 % 256);
    assert(data.subrange(8, 16) =~= bytes);
    assert(forall|k: int| 0 <= k < 8 ==> data[8 + k] == #[trigger] bytes[k]);
    assert(data[8] == bytes[0] && data[9] == bytes[1] && data[10] == bytes[2] && data[11]
        == bytes[3] && data[12] == bytes[4] && data[13] == bytes[5] && data[14] == bytes[6]
        && data[15] == bytes[7]);
    assert(data.take(8) =~= seq![0x56u8, 0x4fu8, 0x49u8, 0x50u8, 0x4cu8, 0x41u8, 0x4eu8, 0x31u8]);
}

/// What counts as an announcement, and what it says, byte by byte.
pub proof fn announcement_reading(data: Seq<u8>, i: int)
    ensures
        read_announce(data) is Some <==> {
            &&& data.len() >= 17
            &&& data.take(8) == seq![0x56u8, 0x4fu8, 0x49u8, 0x50u8, 0x4cu8, 0x41u8, 0x4eu8, 0x31u8]
            &&& data.len() >= 17 + data[16]
        },
        read_announce(data) matches Some((session, name)) ==> {
            &&& name.len() == data[16]
            &&& 0 <= i < name.len() ==> name[i] == data[17 + i]
            &&& session == data[8] + 0x100 * data[9] + 0x1_0000 * data[10] + 0x100_0000 * data[11]
                + 0x1_0000_0000 * data[12] + 0x100_0000_0000 * data[13] + 0x1_0000_0000_0000
                * data[14] + 0x100_0000_0000_0000 * data[15]
        },
{
    assert(MAGIC@ =~= seq![0x56u8, 0x4fu8, 0x49u8, 0x50u8, 0x4cu8, 0x41u8, 0x4eu8, 0x31u8]);
    if data.len() >= 17 {
        let s0 = data.subrange(8, 16);
        lemma_from_le_bytes(s0);
        lemma_u64_range();
        let s1 = s0.drop_first();
        let s2 = s1.drop_first();
        let s3 = s2.drop_first();
        let s4 = s3.drop_first();
        let s5 = s4.drop_first();
        let s6 = s5.drop_first();
        let s7 = s6.drop_first();
        let s8 = s7.drop_first();
        assert(from_le_bytes(s8) == 0);
        assert(from_le_bytes(s7) == s7[0] + 256 * from_le_bytes(s8));
        assert(from_le_bytes(s6) == s6[0] + 256 * from_le_bytes(s7));
        assert(from_le_bytes(s5) == s5[0] + 256 * from_le_bytes(s6));
        assert(from_le_bytes(s4) == s4[0] + 256 * from_le_bytes(s5));
        assert(from_le_bytes(s3) == s3[0] + 256 * from_le_bytes(s4));
        assert(from_le_bytes(s2) == s2[0] + 256 * from_le_bytes(s3));
        assert(from_le_bytes(s1) == s1[0] + 256 * from_le_bytes(s2));
        assert(from_le_bytes(s0) == s0[0] + 256 * from_le_bytes(s1));
        assert(s0[0] == data[8] && s1[0] == data[9] && s2[0] == data[10] && s3[0] == data[11]
            && s4[0] == data[12] && s5[0] == data[13] && s6[0] == data[14] && s7[0] == data[15]);
    }
}

/// The low half of a session number is that of the moment; the high half is that
/// of the moment's low 64 bits, changed where the process number has a bit.
pub proof fn session_numbers_by_halves(nanos: u128, pid: u32)
    ensures
        session_number(nanos, pid) & 0xffff_ffff == (nanos as u64) & 0xffff_ffff,
        session_number(nanos, pid) >> 32u64 == ((nanos as u64) >> 32u64) ^ (pid as u64),
        session_number(nanos, 0) == nanos as u64,
{
    let a = nanos as u64;
    let p = pid as u64;
    assert((a ^ (p << 32u64)) & 0xffff_ffff == a & 0xffff_ffff) by (bit_vector);
    assert((a ^ (p << 32u64)) >> 32u64 == (a >> 32u64) ^ p) by (bit_vector)
        requires
            p <= 0xffff_ffff,
    ;
    assert(a ^ (0u64 << 32u64) == a) by (bit_vector);
}

/// Of a name, an announcement carries the first 255 bytes, or all there are.
pub proof fn names_are_cut_at_the_end_only(name: Seq<u8>)
    ensures
        carried_name(name).len() == (if name.len() < 255 {
            name.len()
        } else {
            255
        }),
        forall|i: int|
            0 <= i < carried_name(name).len() ==> #[trigger] carried_name(name)[i] == name[i],
{
}

/// A name that is UTF-8 is shown as the text whose UTF-8 it is; any other as what
/// `String::from_utf8_lossy` makes of it.
pub proof fn names_are_shown_as_text(name: Seq<u8>)
    ensures
        vstd::utf8::valid_utf8(name) ==> vstd::utf8::encode_utf8(shown_name(name)) == name,
        !vstd::utf8::valid_utf8(name) ==> shown_name(name) == utf8_lossy(name),
{
    if vstd::utf8::valid_utf8(name) {
        vstd::utf8::decode_utf8_encode_utf8(name);
    }
}

/// The voice of a participant goes to the very host that its announcement came
/// from, on the voice port, whatever port it was sent from. So two senders share
/// an address exactly where they are one host.
pub proof fn voice_goes_to_the_same_host(src: SocketAddr, other: SocketAddr)
    ensures
        voice_endpoint(src).ip == src.ip,
        voice_endpoint(src).port == 47531,
        voice_endpoint(src).flowinfo == 0,
        voice_endpoint(src).scope_id == 0,
        voice_endpoint(src) == voice_endpoint(other) <==> src.ip == other.ip,
{
}

/// An announcement of another session changes one row, that of its host: the row
/// holds the moment and, where it is UTF-8, the name. Every other row stays, and
/// so does all else; a host that was not known is reported by one line.
pub proof fn an_announcement_changes_one_row(
    state: StateInfo,
    own: u64,
    session: u64,
    name: Seq<u8>,
    src: SocketAddr,
    addr_text: Seq<char>,
    now: u128,
    b: SocketAddr,
)
    requires
        session != own,
    ensures
        ({
            let a = SocketAddr { ip: src.ip, port: 47531, flowinfo: 0, scope_id: 0 };
            let after = after_announce(
                state,
                own,
                announce_bytes(name, session),
                src,
                addr_text,
                now,
            );
            &&& after.peers.dom() == state.peers.dom().insert(a)
            &&& after.peers[a].voice_addr == a
            &&& after.peers[a].last_seen == now
            &&& name.len() <= 255 && vstd::utf8::valid_utf8(name) ==> vstd::utf8::encode_utf8(
                after.peers[a].username,
            ) == name
            &&& name.len() <= 255 && !vstd::utf8::valid_utf8(name) ==> after.peers[a].username
                == utf8_lossy(name)
            &&& b != a && state.peers.dom().contains(b) ==> after.peers[b] == state.peers[b]
            &&& state.peers.dom().contains(a) ==> after.logs == state.logs
            &&& !state.peers.dom().contains(a) ==> after.logs == state.with_line(
                "Новый участник в сети: "@ + after.peers[a].username + " ("@ + addr_text + ")"@,
            ).logs
            &&& after.peer_gains == state.peer_gains
            &&& after.mic_gain == state.mic_gain
            &&& after.mic_muted == state.mic_muted
            &&& after.sound_muted == state.sound_muted
            &&& after.running == state.running
        }),
{
    announce_is_read_back(name, session);
    names_are_cut_at_the_end_only(name);
    if name.len() <= 255 {
        assert(carried_name(name) =~= name);
        names_are_shown_as_text(name);
    }
    let a = SocketAddr { ip: src.ip, port: 47531, flowinfo: 0, scope_id: 0 };
    let after = after_announce(state, own, announce_bytes(name, session), src, addr_text, now);
    assert(after.peers.dom() =~= state.peers.dom().insert(a));
}

/// Two hosts that announce themselves stand in two rows, each with its own moment
/// and name, even where they bear one name.
pub proof fn two_hosts_stand_in_two_rows(
    state: StateInfo,
    own: u64,
    session1: u64,
    session2: u64,
    name1: Seq<u8>,
    name2: Seq<u8>,
    src1: SocketAddr,
    src2: SocketAddr,
    text1: Seq<char>,
    text2: Seq<char>,
    now1: u128,
    now2: u128,
)
    requires
        session1 != own,
        session2 != own,
        src1.ip != src2.ip,
    ensures
        ({
            let a1 = SocketAddr { ip: src1.ip, port: 47531, flowinfo: 0, scope_id: 0 };
            let a2 = SocketAddr { ip: src2.ip, port: 47531, flowinfo: 0, scope_id: 0 };
            let once = after_announce(
                state,
                own,
                announce_bytes(name1, session1),
                src1,
                text1,
                now1,
            );
            let both = after_announce(once, own, announce_bytes(name2, session2), src2, text2, now2);
            &&& both.peers.dom().contains(a1) && both.peers.dom().contains(a2)
            &&& both.peers[a1].last_seen == now1 && both.peers[a2].last_seen == now2
            &&& both.peers[a1].username == shown_name(carried_name(name1))
            &&& both.peers[a2].username == shown_name(carried_name(name2))
        }),
{
    let a1 = SocketAddr { ip: src1.ip, port: 47531, flowinfo: 0, scope_id: 0 };
    let once = after_announce(state, own, announce_bytes(name1, session1), src1, text1, now1);
    announce_is_read_back(name1, session1);
    announce_is_read_back(name2, session2);
    an_announcement_changes_one_row(state, own, session1, name1, src1, text1, now1, a1);
    an_announcement_changes_one_row(once, own, session2, name2, src2, text2, now2, a1);
}

/// A round of the listening thread without a datagram changes nothing, but that a
/// failure of the socket is logged with its reason.
pub proof fn rounds_without_a_datagram(state: StateInfo, own: u64, e: String, now: u128)
    ensures
        after_received(state, own, Received::WouldBlock, now) == state,
        after_received(state, own, Received::TimedOut, now) == state,
        after_received(state, own, Received::Failed(e), now) == state.with_line(
            "Ошибка приёма discovery-пакета: "@ + e@,
        ),
{
}

/// A datagram counts as what it reads as: as the announcement of that name in that
/// session, whatever follows it, and as nothing where it is none. Where it is the
/// own, it changes nothing.
pub proof fn a_datagram_counts_as_what_it_reads_as(
    state: StateInfo,
    own: u64,
    data: Vec<u8>,
    src: SocketAddr,
    addr_text: String,
    now: u128,
)
    ensures
        ({
            let after = after_received(state, own, Received::Datagram { data, src, addr_text }, now);
            match read_announce(data@) {
                None => after == state,
                Some((session, name)) => {
                    &&& session == own ==> after == state
                    &&& after == after_announce(
                        state,
                        own,
                        announce_bytes(name, session),
                        src,
                        addr_text@,
                        now,
                    )
                },
            }
        }),
{
    if let Some((session, name)) = read_announce(data@) {
        announce_is_read_back(name, session);
        assert(carried_name(name) =~= name);
    }
}

/// While discovery runs no thread of it ends: each makes as many rounds as it
/// looks at the flag. The announcing thread begins with an announcement.
pub proof fn discovery_threads_run_on(waited_ms: u64, flags: Seq<bool>)
    requires
        forall|k: int| 0 <= k < flags.len() ==> flags[k],
    ensures
        listener_rounds(flags) == flags.len(),
        announcer_rounds(waited_ms, flags) == flags.len(),
        announcer_next(announce_interval_ms(), true).1 == AnnouncerAction::Send,
        announce_interval_ms() == 3000,
    decreases flags.len(),
{
    if flags.len() > 0 {
        let rest = flags.drop_first();
        assert forall|k: int| 0 <= k < rest.len() implies rest[k] by {
            assert(flags[k + 1]);
        }
        assert(flags[0]);
        discovery_threads_run_on(announcer_next(waited_ms, flags[0]).0, rest);
    }
}

/// The announcing thread sends once it has slept for three seconds, and counts
/// anew from there; before that it sleeps on, for 200 milliseconds at a time.
pub proof fn the_announcer_counts_its_sleep(waited_ms: u64)
    ensures
        waited_ms >= 3000 ==> announcer_next(waited_ms, true) == (0u64, AnnouncerAction::Send),
        waited_ms < 3000 ==> {
            &&& announcer_next(waited_ms, true).0 == waited_ms + 200
            &&& announcer_next(waited_ms, true).1 == AnnouncerAction::Sleep(200)
        },
{
}

/// A cleanup keeps exactly those whose last announcement lies less than `timeout`
/// back, reports how many went, if any, by one line, and changes nothing else.
pub proof fn cleanup_by_the_clock(state: StateInfo, now: u128, timeout: u128, a: SocketAddr)
    requires
        state.peers.dom().finite(),
    ensures
        ({
            let after = after_cleanup(state, now, timeout);
            let gone = state.peers.dom().difference(after.peers.dom());
            &&& after.peers.dom().contains(a) <==> state.peers.dom().contains(a) && timeout > 0
                && now < state.peers[a].last_seen + timeout
            &&& after.peers.dom().contains(a) ==> after.peers[a] == state.peers[a]
            &&& gone.len() == 0 ==> after.logs == state.logs
            &&& gone.len() > 0 ==> after.logs == state.with_line(
                "Убрано неактивных участников: "@ + crate::text::decimal(gone.len()),
            ).logs
            &&& after.peer_gains == state.peer_gains
            &&& after.mic_gain == state.mic_gain
            &&& after.mic_muted == state.mic_muted
            &&& after.sound_muted == state.sound_muted
            &&& after.running == state.running
        }),
{
    let after = after_cleanup(state, now, timeout);
    let all = state.peers.dom();
    let kept = after.peers.dom();
    let gone = all.difference(kept);
    assert(kept.subset_of(all));
    vstd::set_lib::lemma_len_subset(kept, all);
    vstd::set_lib::lemma_len_difference(all, kept);
    vstd::set_lib::lemma_set_disjoint_lens(kept, gone);
    assert(kept + gone =~= all);
}

} // verus!
