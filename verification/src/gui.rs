//! The main window: what it remembers, and what it decides.
use crate::addr::SocketAddr;
use crate::audio::initial_device;
use crate::network::{cleanup_stale_peers, DISCOVERY_THREADS};
use crate::settings::{generate_random_username, NANOS_PER_SEC, PEER_TIMEOUT_SECS};
use crate::state::{SharedState, StateInfo};
use vstd::prelude::*;

verus! {

/// What the window remembers.
pub struct VoipApp {
    pub username: String,
    pub input_devices: Vec<String>,
    pub output_devices: Vec<String>,
    /// The microphone in use; empty for none.
    pub selected_input: String,
    pub selected_output: String,
    pub connected: bool,
    /// Whether a voice session runs.
    pub voice: bool,
    /// How many threads of discovery are to be joined when the connection ends.
    pub discovery_threads: usize,
    /// When silent participants were last dropped, in nanoseconds of a monotonic
    /// clock.
    pub last_cleanup: u128,
}

/// What a [`VoipApp`] says.
#[verifier::ext_equal]
pub struct AppInfo {
    pub username: Seq<char>,
    pub input_devices: Seq<Seq<char>>,
    pub output_devices: Seq<Seq<char>>,
    pub selected_input: Seq<char>,
    pub selected_output: Seq<char>,
    pub connected: bool,
    pub voice: bool,
    pub discovery_threads: nat,
    pub last_cleanup: u128,
}

impl View for VoipApp {
    type V = AppInfo;

    open spec fn view(&self) -> AppInfo {
        AppInfo {
            username: self.username@,
            input_devices: self.input_devices@.map_values(|s: String| s@),
            output_devices: self.output_devices@.map_values(|s: String| s@),
            selected_input: self.selected_input@,
            selected_output: self.selected_output@,
            connected: self.connected,
            voice: self.voice,
            discovery_threads: self.discovery_threads as nat,
            last_cleanup: self.last_cleanup,
        }
    }
}

/// The device to begin with.
pub open spec fn first_choice(default: Option<Seq<char>>, devices: Seq<Seq<char>>) -> Seq<char> {
    match default {
        Some(name) => name,
        None => if devices.len() > 0 {
            devices[0]
        } else {
            Seq::empty()
        },
    }
}

/// The window as it opens at `now`.
pub open spec fn opened(
    input_devices: Seq<Seq<char>>,
    output_devices: Seq<Seq<char>>,
    default_input: Option<Seq<char>>,
    default_output: Option<Seq<char>>,
    username: Seq<char>,
    now: u128,
) -> AppInfo {
    AppInfo {
        username,
        input_devices,
        output_devices,
        selected_input: first_choice(default_input, input_devices),
        selected_output: first_choice(default_output, output_devices),
        connected: false,
        voice: false,
        discovery_threads: 0,
        last_cleanup: now,
    }
}

/// The name to connect under: the one in the window without the white space
/// around it, or `fallback` where nothing is left of that.
pub open spec fn connect_name(username: Seq<char>, fallback: Seq<char>) -> Seq<char> {
    if crate::text::trimmed(username).len() == 0 {
        fallback
    } else {
        crate::text::trimmed(username)
    }
}

/// The window and the shared state when a connection is begun.
pub open spec fn connecting(app: AppInfo, state: StateInfo, fallback: Seq<char>) -> (
    AppInfo,
    StateInfo,
) {
    if app.connected {
        (app, state)
    } else {
        (
            AppInfo { username: connect_name(app.username, fallback), ..app },
            StateInfo { running: true, ..state },
        )
    }
}

/// The window and the shared state when the voice session of a new connection
/// has started, or failed to with the reason in `failure`.
pub open spec fn voice_started(app: AppInfo, state: StateInfo, failure: Option<Seq<char>>) -> (
    AppInfo,
    StateInfo,
) {
    match failure {
        None => (
            AppInfo {
                connected: true,
                voice: true,
                discovery_threads: DISCOVERY_THREADS as nat,
                ..app
            },
            state.with_line("Подключено"@),
        ),
        Some(e) => (
            app,
            StateInfo { running: false, ..state.with_line("Не удалось запустить звук: "@ + e) },
        ),
    }
}

/// The window and the shared state when a connection is being given up.
pub open spec fn disconnecting(app: AppInfo, state: StateInfo) -> (AppInfo, StateInfo) {
    if app.connected {
        (
            AppInfo { voice: false, discovery_threads: 0, ..app },
            StateInfo { running: false, ..state },
        )
    } else {
        (app, state)
    }
}

/// The window and the shared state when the threads of a connection have ended.
pub open spec fn disconnected(app: AppInfo, state: StateInfo) -> (AppInfo, StateInfo) {
    (
        AppInfo { connected: false, ..app },
        StateInfo { peers: Map::empty(), ..state }.with_line("Отключено"@),
    )
}

/// The window when the voice session is about to be started anew.
pub open spec fn restarting(app: AppInfo) -> AppInfo {
    if app.connected {
        AppInfo { voice: false, ..app }
    } else {
        app
    }
}

/// The window and the shared state when the voice session was started anew, or
/// failed to with the reason in `failure`.
pub open spec fn voice_restarted(app: AppInfo, state: StateInfo, failure: Option<Seq<char>>) -> (
    AppInfo,
    StateInfo,
) {
    match failure {
        None => (
            AppInfo { voice: true, ..app },
            state.with_line("Аудио-устройство переключено"@),
        ),
        Some(e) => (app, state.with_line("Не удалось переключить устройство: "@ + e)),
    }
}

/// [`PEER_TIMEOUT_SECS`] in nanoseconds.
pub open spec fn peer_timeout() -> u128 {
    (PEER_TIMEOUT_SECS * NANOS_PER_SEC) as u128
}

/// Whether more than a second has passed between `last` and `now`.
pub open spec fn cleanup_due(last: u128, now: u128) -> bool {
    now - last > NANOS_PER_SEC
}

/// The window and the shared state after a repaint at `now`.
pub open spec fn ticked(app: AppInfo, state: StateInfo, now: u128) -> (AppInfo, StateInfo) {
    if app.connected && cleanup_due(app.last_cleanup, now) {
        (
            AppInfo { last_cleanup: now, ..app },
            crate::network::after_cleanup(state, now, peer_timeout()),
        )
    } else {
        (app, state)
    }
}

/// What the user does with the window.
#[derive(Clone, Copy, Debug, PartialEq, Eq, Structural)]
pub enum WindowEvent {
    /// Clicks the connect button.
    ConnectButton,
    /// Chooses another device.
    DeviceChosen,
    /// Closes the window.
    Closed,
}

/// What is to be done about it.
#[derive(Clone, Copy, Debug, PartialEq, Eq, Structural)]
pub enum WindowAction {
    Connect,
    Disconnect,
    RestartVoice,
    Nothing,
}

/// What is to be done about `event`.
pub open spec fn action_for(connected: bool, event: WindowEvent) -> WindowAction {
    match (connected, event) {
        (true, WindowEvent::ConnectButton) => WindowAction::Disconnect,
        (false, WindowEvent::ConnectButton) => WindowAction::Connect,
        (true, WindowEvent::DeviceChosen) => WindowAction::RestartVoice,
        (true, WindowEvent::Closed) => WindowAction::Disconnect,
        (false, _) => WindowAction::Nothing,
    }
}

/// The reason in a failed outcome.
pub open spec fn failure_of(outcome: Result<(), String>) -> Option<Seq<char>> {
    match outcome {
        Ok(_) => None,
        Err(e) => Some(e@),
    }
}

impl VoipApp {
    /// Opens the window under a given name.
    pub fn with_username(
        input_devices: Vec<String>,
        output_devices: Vec<String>,
        default_input: Option<String>,
        default_output: Option<String>,
        username: String,
        now: u128,
    ) -> (r: VoipApp)
        ensures
            r@ == opened(
                input_devices@.map_values(|s: String| s@),
                output_devices@.map_values(|s: String| s@),
                crate::settings::text_of(default_input),
                crate::settings::text_of(default_output),
                username@,
                now,
            ),
    {
        let selected_input = initial_device(default_input, &input_devices);
        let selected_output = initial_device(default_output, &output_devices);
        VoipApp {
            username,
            input_devices,
            output_devices,
            selected_input,
            selected_output,
            connected: false,
            voice: false,
            discovery_threads: 0,
            last_cleanup: now,
        }
    }

    /// Opens the window, not connected, with the system's devices chosen and a
    /// made-up name.
    pub fn new(
        input_devices: Vec<String>,
        output_devices: Vec<String>,
        default_input: Option<String>,
        default_output: Option<String>,
        now: u128,
    ) -> (r: VoipApp)
        ensures
            exists|n: nat|
                n < 10000 && r@ == opened(
                    input_devices@.map_values(|s: String| s@),
                    output_devices@.map_values(|s: String| s@),
                    crate::settings::text_of(default_input),
                    crate::settings::text_of(default_output),
                    #[trigger] crate::settings::numbered_name(n),
                    now,
                ),
    {
        let username = generate_random_username();
        VoipApp::with_username(
            input_devices,
            output_devices,
            default_input,
            default_output,
            username,
            now,
        )
    }

    /// Begins to connect, and returns the name to announce; `None` where the
    /// window is connected already. A blank name gives way to `fallback`.
    pub fn begin_connect_as(&mut self, state: &mut SharedState, fallback: String) -> (r: Option<
        String,
    >)
        ensures
            final(state).peers == old(state).peers,
            final(state).peer_gains == old(state).peer_gains,
            old(state).wf() ==> final(state).wf(),
            (final(self)@, final(state)@) == connecting(old(self)@, old(state)@, fallback@),
            match r {
                Some(name) => !old(self)@.connected && name@ == final(self)@.username,
                None => old(self)@.connected,
            },
    {
        if self.connected {
            return None;
        }
        let name: &str = self.username.as_str().trim();
        let name = if name.is_empty() {
            fallback
        } else {
            name.to_owned()
        };
        self.username = name.clone();
        state.running = true;
        Some(name)
    }

    /// Begins to connect, with a made-up name in place of a blank one.
    pub fn begin_connect(&mut self, state: &mut SharedState) -> (r: Option<String>)
        ensures
            final(state).peers == old(state).peers,
            final(state).peer_gains == old(state).peer_gains,
            old(state).wf() ==> final(state).wf(),
            exists|n: nat|
                n < 10000 && (final(self)@, final(state)@) == connecting(
                    old(self)@,
                    old(state)@,
                    #[trigger] crate::settings::numbered_name(n),
                ),
            match r {
                Some(name) => !old(self)@.connected && name@ == final(self)@.username,
                None => old(self)@.connected,
            },
    {
        let fallback = generate_random_username();
        self.begin_connect_as(state, fallback)
    }

    /// Completes a connection whose voice session came out as `outcome`, and says
    /// whether it stands. Where it does not, discovery has to be ended.
    pub fn on_voice_started(&mut self, state: &mut SharedState, outcome: Result<(), String>) -> (r:
        bool)
        ensures
            final(state).peers == old(state).peers,
            final(state).peer_gains == old(state).peer_gains,
            old(state).wf() ==> final(state).wf(),
            (final(self)@, final(state)@) == voice_started(
                old(self)@,
                old(state)@,
                failure_of(outcome),
            ),
            r == outcome is Ok,
    {
        match outcome {
            Ok(_) => {
                self.discovery_threads = DISCOVERY_THREADS;
                self.voice = true;
                self.connected = true;
                state.log(String::from_str("Подключено"));
                true
            },
            Err(e) => {
                let mut line = String::from_str("Не удалось запустить звук: ");
                line.append(e.as_str());
                state.log(line);
                state.running = false;
                false
            },
        }
    }

    /// Begins to give the connection up, and says whether there is a voice
    /// session to stop and how many threads of discovery are to be joined; `None`
    /// where the window is not connected.
    pub fn begin_disconnect(&mut self, state: &mut SharedState) -> (r: Option<(bool, usize)>)
        ensures
            final(state).peers == old(state).peers,
            final(state).peer_gains == old(state).peer_gains,
            old(state).wf() ==> final(state).wf(),
            (final(self)@, final(state)@) == disconnecting(old(self)@, old(state)@),
            r == (if old(self).connected {
                Some((old(self).voice, old(self).discovery_threads))
            } else {
                None
            }),
    {
        if !self.connected {
            return None;
        }
        state.running = false;
        let had_voice: bool = self.voice;
        self.voice = false;
        let threads: usize = self.discovery_threads;
        self.discovery_threads = 0;
        Some((had_voice, threads))
    }

    /// Completes the end of a connection: everyone is forgotten.
    pub fn finish_disconnect(&mut self, state: &mut SharedState)
        ensures
            final(state).peers.wf(),
            final(state).peer_gains == old(state).peer_gains,
            old(state).wf() ==> final(state).wf(),
            (final(self)@, final(state)@) == disconnected(old(self)@, old(state)@),
    {
        state.peers.clear();
        assert(state@.peers =~= Map::<SocketAddr, crate::state::PeerInfo>::empty());
        self.connected = false;
        state.log(String::from_str("Отключено"));
    }

    /// Begins to start the voice session anew, and says whether there is one to
    /// stop; `None` where the window is not connected.
    pub fn begin_restart_voice(&mut self) -> (r: Option<bool>)
        ensures
            final(self)@ == restarting(old(self)@),
            r == (if old(self)@.connected {
                Some(old(self)@.voice)
            } else {
                None
            }),
    {
        if !self.connected {
            return None;
        }
        let had_voice: bool = self.voice;
        self.voice = false;
        Some(had_voice)
    }

    /// Completes a new start of the voice session that came out as `outcome`.
    pub fn on_voice_restarted(&mut self, state: &mut SharedState, outcome: Result<(), String>)
        ensures
            final(state).peers == old(state).peers,
            final(state).peer_gains == old(state).peer_gains,
            old(state).wf() ==> final(state).wf(),
            (final(self)@, final(state)@) == voice_restarted(
                old(self)@,
                old(state)@,
                failure_of(outcome),
            ),
    {
        match outcome {
            Ok(_) => {
                self.voice = true;
                state.log(String::from_str("Аудио-устройство переключено"));
            },
            Err(e) => {
                let mut line = String::from_str("Не удалось переключить устройство: ");
                line.append(e.as_str());
                state.log(line);
            },
        }
    }

    /// Decides what to do about `event`.
    pub fn on_event(&self, event: WindowEvent) -> (r: WindowAction)
        ensures
            r == action_for(self@.connected, event),
    {
        match event {
            WindowEvent::ConnectButton => if self.connected {
                WindowAction::Disconnect
            } else {
                WindowAction::Connect
            },
            WindowEvent::DeviceChosen => if self.connected {
                WindowAction::RestartVoice
            } else {
                WindowAction::Nothing
            },
            WindowEvent::Closed => if self.connected {
                WindowAction::Disconnect
            } else {
                WindowAction::Nothing
            },
        }
    }

    /// Drops silent participants, about once a second while connected.
    pub fn tick(&mut self, state: &mut SharedState, now: u128)
        requires
            old(state).peers.wf(),
        ensures
            final(state).peers.wf(),
            final(state).peer_gains == old(state).peer_gains,
            old(state).wf() ==> final(state).wf(),
            (final(self)@, final(state)@) == ticked(old(self)@, old(state)@, now),
    {
        if self.connected && now > self.last_cleanup && now - self.last_cleanup > NANOS_PER_SEC {
            cleanup_stale_peers(state, now, PEER_TIMEOUT_SECS as u128 * NANOS_PER_SEC);
            self.last_cleanup = now;
        }
    }
}

/// Between the operations of the window, a voice session runs only while
/// connected, the network threads are to run exactly while connected, and the two
/// threads of discovery are there exactly then.
pub open spec fn consistent(app: AppInfo, state: StateInfo) -> bool {
    &&& app.voice ==> app.connected
    &&& app.connected == state.running
    &&& app.discovery_threads == (if app.connected {
        2nat
    } else {
        0nat
    })
}

/// The window opens consistent with a fresh state.
pub proof fn opening_is_consistent(
    input_devices: Seq<Seq<char>>,
    output_devices: Seq<Seq<char>>,
    default_input: Option<Seq<char>>,
    default_output: Option<Seq<char>>,
    username: Seq<char>,
    now: u128,
)
    ensures
        consistent(
            opened(input_devices, output_devices, default_input, default_output, username, now),
            crate::state::initial_state(),
        ),
{
}

/// To connect makes a connection with voice where the voice session starts, and
/// leaves no connection and no running discovery where it does not. `mid` is the
/// shared state when the outcome is known: the threads of discovery may have
/// written to it, but they never set the flag that they run by.
pub proof fn connecting_stays_consistent(
    app: AppInfo,
    state: StateInfo,
    fallback: Seq<char>,
    mid: StateInfo,
    failure: Option<Seq<char>>,
)
    requires
        consistent(app, state),
        !app.connected,
        mid.running == connecting(app, state, fallback).1.running,
    ensures
        consistent(
            voice_started(connecting(app, state, fallback).0, mid, failure).0,
            voice_started(connecting(app, state, fallback).0, mid, failure).1,
        ),
        voice_started(connecting(app, state, fallback).0, mid, failure).0.connected == (failure
            is None),
        voice_started(connecting(app, state, fallback).0, mid, failure).0.voice == (failure is None),
        voice_started(connecting(app, state, fallback).0, mid, failure).1.running == (failure
            is None),
{
}

/// To connect while connected changes nothing, and neither does to disconnect
/// while not connected.
pub proof fn repeated_clicks_change_nothing(app: AppInfo, state: StateInfo, fallback: Seq<char>)
    ensures
        app.connected ==> connecting(app, state, fallback) == (app, state),
        !app.connected ==> disconnecting(app, state) == (app, state) && restarting(app) == app,
{
}

/// To disconnect stops everything: no connection, no voice session, the network
/// threads are told to end, and nobody is remembered. `mid` is the shared state
/// when the threads have ended.
pub proof fn disconnecting_stops_everything(app: AppInfo, state: StateInfo, mid: StateInfo)
    requires
        consistent(app, state),
        app.connected,
        mid.running == disconnecting(app, state).1.running,
    ensures
        ({
            let (app2, state2) = disconnected(disconnecting(app, state).0, mid);
            &&& consistent(app2, state2)
            &&& !app2.connected
            &&& !app2.voice
            &&& !state2.running
            &&& state2.peers == Map::<SocketAddr, crate::state::PeerInfo>::empty()
            &&& app2.username == app.username
            &&& app2.selected_input == app.selected_input
            &&& app2.selected_output == app.selected_output
        }),
{
}

/// To change a device does not touch discovery: whatever comes of the new voice
/// session, the window stays connected, the network threads run on and everyone
/// stays known.
pub proof fn restarting_keeps_discovery(
    app: AppInfo,
    state: StateInfo,
    failure: Option<Seq<char>>,
)
    requires
        consistent(app, state),
        app.connected,
    ensures
        ({
            let (app2, state2) = voice_restarted(restarting(app), state, failure);
            &&& consistent(app2, state2)
            &&& app2.connected
            &&& app2.voice == (failure is None)
            &&& state2.running
            &&& state2.peers == state.peers
        }),
{
}

/// A repaint keeps the window consistent and changes nothing but the
/// participants, the log and the moment of the last cleanup.
pub proof fn ticking_stays_consistent(app: AppInfo, state: StateInfo, now: u128)
    requires
        consistent(app, state),
    ensures
        consistent(ticked(app, state, now).0, ticked(app, state, now).1),
        ticked(app, state, now).0 == (AppInfo {
            last_cleanup: ticked(app, state, now).0.last_cleanup,
            ..app
        }),
        ticked(app, state, now).1.peer_gains == state.peer_gains,
{
}

/// One whole operation of the window. `mid` is the shared state as the threads
/// have left it halfway, but for the flag that they run by, which they do not
/// set; `failure` is what came of starting the voice session.
pub enum WindowOp {
    Connect { fallback: Seq<char>, mid: StateInfo, failure: Option<Seq<char>> },
    Disconnect { mid: StateInfo },
    RestartVoice { mid: StateInfo, failure: Option<Seq<char>> },
    Repaint { now: u128 },
}

/// `mid` with the flag of `state`.
pub open spec fn with_flag_of(mid: StateInfo, state: StateInfo) -> StateInfo {
    StateInfo { running: state.running, ..mid }
}

/// The window and the shared state after `op`.
pub open spec fn performed(app: AppInfo, state: StateInfo, op: WindowOp) -> (AppInfo, StateInfo) {
    match op {
        WindowOp::Connect { fallback, mid, failure } => if app.connected {
            (app, state)
        } else {
            let begun = connecting(app, state, fallback);
            voice_started(begun.0, with_flag_of(mid, begun.1), failure)
        },
        WindowOp::Disconnect { mid } => if app.connected {
            let begun = disconnecting(app, state);
            disconnected(begun.0, with_flag_of(mid, begun.1))
        } else {
            (app, state)
        },
        WindowOp::RestartVoice { mid, failure } => if app.connected {
            voice_restarted(restarting(app), with_flag_of(mid, state), failure)
        } else {
            (app, state)
        },
        WindowOp::Repaint { now } => ticked(app, state, now),
    }
}

/// The window and the shared state after all of `ops`, in order.
pub open spec fn after_all(app: AppInfo, state: StateInfo, ops: Seq<WindowOp>) -> (
    AppInfo,
    StateInfo,
)
    decreases ops.len(),
{
    if ops.len() == 0 {
        (app, state)
    } else {
        let before = after_all(app, state, ops.drop_last());
        performed(before.0, before.1, ops.last())
    }
}

/// The window stays consistent through any sequence of operations, whatever comes
/// of each start of a voice session.
pub proof fn every_history_is_consistent(app: AppInfo, state: StateInfo, ops: Seq<WindowOp>)
    requires
        consistent(app, state),
    ensures
        consistent(after_all(app, state, ops).0, after_all(app, state, ops).1),
    decreases ops.len(),
{
    if ops.len() > 0 {
        every_history_is_consistent(app, state, ops.drop_last());
    }
}

/// An event never asks for what would be refused: to connect while connected, or
/// to disconnect or restart while not.
pub proof fn actions_fit_the_connection(connected: bool, event: WindowEvent)
    ensures
        action_for(connected, event) == WindowAction::Connect ==> !connected,
        action_for(connected, event) == WindowAction::Disconnect ==> connected,
        action_for(connected, event) == WindowAction::RestartVoice ==> connected,
{
}

/// Whether `a` comes before `b`, or is equal to it, byte by byte.
pub open spec fn bytes_le(a: Seq<u8>, b: Seq<u8>) -> bool
    decreases a.len(),
{
    if a.len() == 0 {
        true
    } else if b.len() == 0 {
        false
    } else if a[0] == b[0] {
        bytes_le(a.drop_first(), b.drop_first())
    } else {
        a[0] < b[0]
    }
}

/// Whether the text `a` comes before `b`, or is equal to it: texts are ordered
/// by the bytes of their UTF-8.
pub open spec fn name_le(a: Seq<char>, b: Seq<char>) -> bool {
    bytes_le(vstd::utf8::encode_utf8(a), vstd::utf8::encode_utf8(b))
}

proof fn lemma_bytes_le_total(a: Seq<u8>, b: Seq<u8>)
    ensures
        bytes_le(a, b) || bytes_le(b, a),
    decreases a.len(),
{
    if a.len() > 0 && b.len() > 0 && a[0] == b[0] {
        lemma_bytes_le_total(a.drop_first(), b.drop_first());
    }
}

proof fn lemma_bytes_le_transitive(a: Seq<u8>, b: Seq<u8>, c: Seq<u8>)
    requires
        bytes_le(a, b),
        bytes_le(b, c),
    ensures
        bytes_le(a, c),
    decreases a.len(),
{
    if a.len() > 0 && b.len() > 0 && c.len() > 0 && a[0] == b[0] && b[0] == c[0] {
        lemma_bytes_le_transitive(a.drop_first(), b.drop_first(), c.drop_first());
    }
}

/// Decides [`name_le`].
pub fn name_before(a: &str, b: &str) -> (r: bool)
    ensures
        r == name_le(a@, b@),
{
    let x: &[u8] = a.as_bytes();
    let y: &[u8] = b.as_bytes();
    let mut i: usize = 0;
    proof {
        assert(x@.skip(0) =~= x@);
        assert(y@.skip(0) =~= y@);
    }
    while i < x.len() && i < y.len()
        invariant
            i <= x@.len(),
            i <= y@.len(),
            x@ == vstd::utf8::encode_utf8(a@),
            y@ == vstd::utf8::encode_utf8(b@),
            bytes_le(x@, y@) == bytes_le(x@.skip(i as int), y@.skip(i as int)),
        decreases x@.len() - i,
    {
        if x[i] != y[i] {
            return x[i] < y[i];
        }
        proof {
            assert(x@.skip(i as int).drop_first() =~= x@.skip(i + 1));
            assert(y@.skip(i as int).drop_first() =~= y@.skip(i + 1));
        }
        i = i + 1;
    }
    i == x.len()
}

/// Whether `rows` are in the order of their names.
pub open spec fn sorted_rows(rows: Seq<(SocketAddr, String)>) -> bool {
    forall|i: int, j: int|
        0 <= i <= j < rows.len() ==> name_le((#[trigger] rows[i]).1@, (#[trigger] rows[j]).1@)
}

/// Where `name` goes into `rows`: behind every row that does not come after it.
fn row_place(rows: &Vec<(SocketAddr, String)>, name: &String) -> (r: usize)
    requires
        sorted_rows(rows@),
    ensures
        r <= rows@.len(),
        forall|k: int| 0 <= k < r ==> name_le((#[trigger] rows@[k]).1@, name@),
        forall|k: int| r <= k < rows@.len() ==> name_le(name@, (#[trigger] rows@[k]).1@),
{
    let mut i: usize = 0;
    while i < rows.len() && name_before(rows[i].1.as_str(), name.as_str())
        invariant
            i <= rows@.len(),
            sorted_rows(rows@),
            forall|k: int| 0 <= k < i ==> name_le((#[trigger] rows@[k]).1@, name@),
        decreases rows@.len() - i,
    {
        i = i + 1;
    }
    proof {
        if i < rows@.len() {
            lemma_bytes_le_total(
                vstd::utf8::encode_utf8(rows@[i as int].1@),
                vstd::utf8::encode_utf8(name@),
            );
            assert forall|k: int| i <= k < rows@.len() implies name_le(
                name@,
                (#[trigger] rows@[k]).1@,
            ) by {
                assert(name_le(rows@[i as int].1@, rows@[k].1@));
                lemma_bytes_le_transitive(
                    vstd::utf8::encode_utf8(name@),
                    vstd::utf8::encode_utf8(rows@[i as int].1@),
                    vstd::utf8::encode_utf8(rows@[k].1@),
                );
            }
        }
    }
    i
}

/// The addresses of the rows.
pub open spec fn row_addrs(rows: Seq<(SocketAddr, String)>) -> Seq<SocketAddr> {
    rows.map_values(|row: (SocketAddr, String)| row.0)
}

/// The participants as the window lists them: each once, with its name, in the
/// order of the names.
pub fn peer_rows(state: &SharedState) -> (r: Vec<(SocketAddr, String)>)
    requires
        state.peers.wf(),
    ensures
        sorted_rows(r@),
        row_addrs(r@).no_duplicates(),
        row_addrs(r@).to_set() == state@.peers.dom(),
        forall|i: int|
            0 <= i < r@.len() ==> (#[trigger] r@[i]).1@ == state@.peers[r@[i].0].username,
{
    let ghost keys = state.peers.keys();
    let mut rows: Vec<(SocketAddr, String)> = Vec::new();
    let count: usize = state.peers.len();
    let mut i: usize = 0;
    proof {
        state.peers.lemma_keys();
        assert(state@.peers.dom() =~= state.peers@.dom());
    }
    while i < count
        invariant
            state.peers.wf(),
            keys == state.peers.keys(),
            keys.no_duplicates(),
            keys.to_set() == state@.peers.dom(),
            count == keys.len(),
            i <= count,
            rows@.len() == i,
            sorted_rows(rows@),
            forall|p: int, q: int|
                0 <= p < q < rows@.len() ==> (#[trigger] rows@[p]).0 != (#[trigger] rows@[q]).0,
            forall|p: int|
                0 <= p < rows@.len() ==> keys.take(i as int).contains((#[trigger] rows@[p]).0),
            forall|p: int|
                0 <= p < rows@.len() ==> (#[trigger] rows@[p]).1@
                    == state@.peers[rows@[p].0].username,
            forall|k: int| 0 <= k < i ==> row_addrs(rows@).contains(#[trigger] keys[k]),
        decreases count - i,
    {
        let a: SocketAddr = state.peers.key_at(i);
        let name: String = state.peers.value_at(i).username.clone();
        let place: usize = row_place(&rows, &name);
        let ghost before = rows@;
        let ghost row = (a, name);
        rows.insert(place, (a, name));
        proof {
            assert(state@.peers.dom().contains(a));
            assert(name@ == state@.peers[a].username);
            lemma_row_inserted(before, place as int, row);
            let shown = keys.take(i as int);
            let next = keys.take(i + 1);
            assert(next[i as int] == a);
            assert forall|p: int| 0 <= p < before.len() implies (#[trigger] before[p]).0 != a by {
                assert(shown.contains(before[p].0));
                let k = choose|k: int| 0 <= k < shown.len() && shown[k] == before[p].0;
                assert(keys[k] != keys[i as int]);
            }
            assert forall|p: int, q: int| 0 <= p < q < rows@.len() implies (
            #[trigger] rows@[p]).0 != (#[trigger] rows@[q]).0 by {
                let bp = if p < place { p } else { p - 1 };
                let bq = if q < place { q } else { q - 1 };
                if p == place {
                    assert(before[bq].0 != a);
                } else if q == place {
                    assert(before[bp].0 != a);
                } else {
                    assert(before[bp].0 != before[bq].0);
                }
            }
            assert forall|p: int| 0 <= p < rows@.len() implies next.contains(
                (#[trigger] rows@[p]).0,
            ) by {
                if p != place {
                    let bp = if p < place { p } else { p - 1 };
                    assert(shown.contains(before[bp].0));
                    let k = choose|k: int| 0 <= k < shown.len() && shown[k] == before[bp].0;
                    assert(next[k] == before[bp].0);
                }
            }
            assert forall|p: int| 0 <= p < rows@.len() implies (#[trigger] rows@[p]).1@
                == state@.peers[rows@[p].0].username by {
                if p != place {
                    let bp = if p < place { p } else { p - 1 };
                    assert(before[bp].1@ == state@.peers[before[bp].0].username);
                }
            }
            assert forall|k: int| 0 <= k < i + 1 implies row_addrs(rows@).contains(
                #[trigger] keys[k],
            ) by {
                if k == i {
                    assert(row_addrs(rows@)[place as int] == a);
                } else {
                    assert(row_addrs(before).contains(keys[k]));
                    let p = choose|p: int|
                        0 <= p < row_addrs(before).len() && row_addrs(before)[p] == keys[k];
                    let np = if p < place { p } else { p + 1 };
                    assert(rows@[np] == before[p]);
                    assert(row_addrs(rows@)[np] == keys[k]);
                }
            }
        }
        i = i + 1;
    }
    proof {
        let addrs = row_addrs(rows@);
        assert forall|p: int, q: int|
            0 <= p < addrs.len() && 0 <= q < addrs.len() && p != q implies addrs[p] != addrs[q] by {
            if p < q {
                assert(rows@[p].0 != rows@[q].0);
            } else {
                assert(rows@[q].0 != rows@[p].0);
            }
        }
        assert(keys.take(i as int) =~= keys);
        assert forall|a: SocketAddr| addrs.to_set().contains(a) <==> keys.to_set().contains(a) by {
            if addrs.contains(a) {
                let p = choose|p: int| 0 <= p < addrs.len() && addrs[p] == a;
                assert(keys.take(i as int).contains(rows@[p].0));
            }
            if keys.contains(a) {
                let k = choose|k: int| 0 <= k < keys.len() && keys[k] == a;
                assert(addrs.contains(keys[k]));
            }
        }
        assert(addrs.to_set() =~= keys.to_set());
    }
    rows
}

proof fn lemma_row_inserted(
    before: Seq<(SocketAddr, String)>,
    place: int,
    row: (SocketAddr, String),
)
    requires
        sorted_rows(before),
        0 <= place <= before.len(),
        forall|k: int| 0 <= k < place ==> name_le((#[trigger] before[k]).1@, row.1@),
        forall|k: int| place <= k < before.len() ==> name_le(row.1@, (#[trigger] before[k]).1@),
    ensures
        sorted_rows(before.insert(place, row)),
{
    let rows = before.insert(place, row);
    lemma_bytes_le_total(vstd::utf8::encode_utf8(row.1@), vstd::utf8::encode_utf8(row.1@));
    assert forall|i: int, j: int| 0 <= i <= j < rows.len() implies name_le(
        (#[trigger] rows[i]).1@,
        (#[trigger] rows[j]).1@,
    ) by {
        let bi = if i < place { i } else { i - 1 };
        let bj = if j < place { j } else { j - 1 };
        if i == place && j == place {
        } else if i == place {
            assert(name_le(row.1@, before[bj].1@));
        } else if j == place {
            assert(name_le(before[bi].1@, row.1@));
        } else {
            assert(name_le(before[bi].1@, before[bj].1@));
        }
    }
}

/// The red, green and blue parts of a colour.
#[derive(Clone, Copy, Debug, PartialEq, Eq, Structural)]
pub struct Rgb {
    pub r: u8,
    pub g: u8,
    pub b: u8,
}

/// The colour of a mute button: red while muted, else green.
pub fn mute_color(muted: bool) -> (c: Rgb)
    ensures
        c == (if muted {
            Rgb { r: 150, g: 40, b: 40 }
        } else {
            Rgb { r: 76, g: 175, b: 80 }
        }),
{
    if muted {
        Rgb { r: 150, g: 40, b: 40 }
    } else {
        Rgb { r: 76, g: 175, b: 80 }
    }
}

/// The text and the colour of the connect button.
pub fn connect_button(connected: bool) -> (r: (String, Rgb))
    ensures
        r.0@ == (if connected {
            "Отключиться"@
        } else {
            "Подключиться"@
        }),
        r.1 == (if connected {
            Rgb { r: 220, g: 53, b: 53 }
        } else {
            Rgb { r: 76, g: 175, b: 80 }
        }),
{
    if connected {
        (String::from_str("Отключиться"), Rgb { r: 220, g: 53, b: 53 })
    } else {
        (String::from_str("Подключиться"), Rgb { r: 76, g: 175, b: 80 })
    }
}

/// The view of the window leaves nothing out.
pub proof fn the_view_shows_the_window(app: &VoipApp, i: int)
    ensures
        app@.username == app.username@,
        app@.input_devices.len() == app.input_devices@.len(),
        0 <= i < app.input_devices@.len() ==> app@.input_devices[i] == app.input_devices@[i]@,
        app@.output_devices.len() == app.output_devices@.len(),
        0 <= i < app.output_devices@.len() ==> app@.output_devices[i] == app.output_devices@[i]@,
        app@.selected_input == app.selected_input@,
        app@.selected_output == app.selected_output@,
        app@.connected == app.connected,
        app@.voice == app.voice,
        app@.discovery_threads == app.discovery_threads,
        app@.last_cleanup == app.last_cleanup,
{
}

/// The window opens with the lists and the name that it was given, and with the
/// system's devices; where the system names none, with the first of the list.
pub proof fn the_window_opens_with_the_system_devices(
    input_devices: Seq<Seq<char>>,
    output_devices: Seq<Seq<char>>,
    default_input: Option<Seq<char>>,
    default_output: Option<Seq<char>>,
    username: Seq<char>,
    now: u128,
)
    ensures
        ({
            let app = opened(
                input_devices,
                output_devices,
                default_input,
                default_output,
                username,
                now,
            );
            &&& default_input matches Some(name) ==> app.selected_input == name
            &&& default_output matches Some(name) ==> app.selected_output == name
            &&& default_input is None && input_devices.len() > 0 ==> app.selected_input
                == input_devices[0]
            &&& default_output is None && output_devices.len() > 0 ==> app.selected_output
                == output_devices[0]
            &&& default_input is None && input_devices.len() == 0 ==> app.selected_input.len() == 0
            &&& default_output is None && output_devices.len() == 0 ==> app.selected_output.len()
                == 0
            &&& app.username == username
            &&& app.input_devices == input_devices
            &&& app.output_devices == output_devices
            &&& !app.connected
            &&& !app.voice
            &&& app.discovery_threads == 0
            &&& app.last_cleanup == now
        }),
{
}

/// To begin a connection settles the name, sets the flag of the threads, and
/// changes nothing else. The name is the one in the window, trimmed, where any of
/// its characters is not white space.
pub proof fn connecting_settles_the_name(
    app: AppInfo,
    state: StateInfo,
    fallback: Seq<char>,
    i: int,
)
    requires
        !app.connected,
    ensures
        ({
            let (app2, state2) = connecting(app, state, fallback);
            &&& 0 <= i < app.username.len() && !crate::text::white_space(app.username[i])
                ==> app2.username == crate::text::trimmed(app.username)
            &&& (forall|k: int|
                0 <= k < app.username.len() ==> crate::text::white_space(
                    #[trigger] app.username[k],
                )) ==> app2.username == fallback
            &&& app2.input_devices == app.input_devices
            &&& app2.output_devices == app.output_devices
            &&& app2.selected_input == app.selected_input
            &&& app2.selected_output == app.selected_output
            &&& app2.connected == app.connected
            &&& app2.voice == app.voice
            &&& app2.discovery_threads == app.discovery_threads
            &&& app2.last_cleanup == app.last_cleanup
            &&& state2.running
            &&& state2.peers == state.peers
            &&& state2.peer_gains == state.peer_gains
            &&& state2.mic_gain == state.mic_gain
            &&& state2.mic_muted == state.mic_muted
            &&& state2.sound_muted == state.sound_muted
            &&& state2.logs == state.logs
        }),
{
    crate::text::trimmed_is_empty_iff_blank(app.username);
}

/// A voice session that has started completes the connection, with voice and the
/// two threads of discovery; one that has not leaves the window as it was and
/// takes the flag of the threads down. Either is told by one line, and nothing
/// else changes.
pub proof fn starting_voice_settles_the_connection(app: AppInfo, state: StateInfo, e: Seq<char>)
    ensures
        ({
            let (up, up_state) = voice_started(app, state, None);
            let (down, down_state) = voice_started(app, state, Some(e));
            &&& up.connected && up.voice && up.discovery_threads == 2
            &&& up.username == app.username
            &&& up.input_devices == app.input_devices
            &&& up.output_devices == app.output_devices
            &&& up.selected_input == app.selected_input
            &&& up.selected_output == app.selected_output
            &&& up.last_cleanup == app.last_cleanup
            &&& up_state == state.with_line("Подключено"@)
            &&& down == app
            &&& !down_state.running
            &&& down_state.logs == state.with_line("Не удалось запустить звук: "@ + e).logs
            &&& down_state.peers == state.peers
            &&& down_state.peer_gains == state.peer_gains
            &&& down_state.mic_gain == state.mic_gain
            &&& down_state.mic_muted == state.mic_muted
            &&& down_state.sound_muted == state.sound_muted
        }),
{
}

/// To give a connection up takes the flag of the threads down before they are
/// waited for, while the window still counts as connected and everyone is still
/// known. Then everyone is forgotten, but not the gains, the mutes and the log.
pub proof fn disconnecting_keeps_the_settings(app: AppInfo, state: StateInfo, mid: StateInfo)
    requires
        app.connected,
    ensures
        ({
            let (app1, state1) = disconnecting(app, state);
            let (app2, state2) = disconnected(app1, mid);
            &&& app1.connected && !app1.voice && app1.discovery_threads == 0
            &&& !state1.running
            &&& state1.peers == state.peers
            &&& state1.peer_gains == state.peer_gains
            &&& state1.mic_gain == state.mic_gain
            &&& state1.mic_muted == state.mic_muted
            &&& state1.sound_muted == state.sound_muted
            &&& state1.logs == state.logs
            &&& !app2.connected && !app2.voice && app2.discovery_threads == 0
            &&& app2.username == app.username
            &&& app2.input_devices == app.input_devices
            &&& app2.output_devices == app.output_devices
            &&& app2.selected_input == app.selected_input
            &&& app2.selected_output == app.selected_output
            &&& app2.last_cleanup == app.last_cleanup
            &&& state2.peers.dom().len() == 0
            &&& state2.peers.dom() == Set::<SocketAddr>::empty()
            &&& state2.peer_gains == mid.peer_gains
            &&& state2.mic_gain == mid.mic_gain
            &&& state2.mic_muted == mid.mic_muted
            &&& state2.sound_muted == mid.sound_muted
            &&& state2.running == mid.running
            &&& state2.logs == mid.with_line("Отключено"@).logs
        }),
{
    let state2 = disconnected(disconnecting(app, state).0, mid).1;
    assert(state2.peers.dom() =~= Set::<SocketAddr>::empty());
}

/// To start voice anew concerns the voice session alone: all else in the window
/// stays, and so does the shared state, but for one line that tells the outcome.
pub proof fn restarting_concerns_voice_alone(
    app: AppInfo,
    state: StateInfo,
    failure: Option<Seq<char>>,
)
    requires
        app.connected,
    ensures
        ({
            let app1 = restarting(app);
            let (app2, state2) = voice_restarted(app1, state, failure);
            &&& app1.connected && !app1.voice
            &&& app2.connected
            &&& app2.voice == (failure is None)
            &&& app2.username == app.username
            &&& app2.input_devices == app.input_devices
            &&& app2.output_devices == app.output_devices
            &&& app2.selected_input == app.selected_input
            &&& app2.selected_output == app.selected_output
            &&& app2.discovery_threads == app.discovery_threads
            &&& app2.last_cleanup == app.last_cleanup
            &&& state2 == state.with_line(
                match failure {
                    None => "Аудио-устройство переключено"@,
                    Some(e) => "Не удалось переключить устройство: "@ + e,
                },
            )
        }),
{
}

/// While connected, a repaint more than a second after the last cleanup drops
/// those who were silent for ten seconds, and only those; any other repaint
/// changes nothing.
pub proof fn a_repaint_cleans_up_once_a_second(
    app: AppInfo,
    state: StateInfo,
    now: u128,
    a: SocketAddr,
)
    ensures
        ({
            let (app2, state2) = ticked(app, state, now);
            let due = app.connected && now > app.last_cleanup + 1_000_000_000;
            &&& !due ==> app2 == app && state2 == state
            &&& due ==> app2.last_cleanup == now
            &&& due ==> ticked(app2, state2, now) == (app2, state2)
            &&& due && state.peers.dom().contains(a) ==> (state2.peers.dom().contains(a) <==> now
                < state.peers[a].last_seen + 10_000_000_000)
            &&& state2.peers.dom().contains(a) ==> state.peers.dom().contains(a)
                && state2.peers[a] == state.peers[a]
            &&& state2.running == state.running
            &&& state2.peer_gains == state.peer_gains
            &&& state2.mic_gain == state.mic_gain
            &&& state2.mic_muted == state.mic_muted
            &&& state2.sound_muted == state.sound_muted
        }),
{
}

/// The connect button turns the connection over; to choose a device restarts the
/// voice of a connection, and to close the window ends it. Nothing else is asked
/// for.
pub proof fn events_ask_for_what_they_mean(connected: bool)
    ensures
        action_for(true, WindowEvent::ConnectButton) == WindowAction::Disconnect,
        action_for(false, WindowEvent::ConnectButton) == WindowAction::Connect,
        action_for(connected, WindowEvent::DeviceChosen) == WindowAction::RestartVoice
            <==> connected,
        action_for(connected, WindowEvent::Closed) == WindowAction::Disconnect <==> connected,
        !connected ==> action_for(connected, WindowEvent::DeviceChosen) == WindowAction::Nothing
            && action_for(connected, WindowEvent::Closed) == WindowAction::Nothing,
{
}

/// Names are ordered as words in a list are: where they first differ the lower
/// byte comes first, and a name comes before any that it begins.
pub proof fn names_are_ordered_like_words(a: Seq<u8>, b: Seq<u8>, i: int)
    requires
        0 <= i <= a.len(),
        i <= b.len(),
        a.take(i) == b.take(i),
    ensures
        i == a.len() ==> bytes_le(a, b),
        i == b.len() && i < a.len() ==> !bytes_le(a, b),
        i < a.len() && i < b.len() && a[i] < b[i] ==> bytes_le(a, b) && !bytes_le(b, a),
    decreases i,
{
    if i > 0 {
        let x = a.drop_first();
        let y = b.drop_first();
        assert(a.take(i)[0] == a[0] && b.take(i)[0] == b[0]);
        assert(x.take(i - 1) =~= a.take(i).drop_first());
        assert(y.take(i - 1) =~= b.take(i).drop_first());
        names_are_ordered_like_words(x, y, i - 1);
    }
}

/// Any two names can be ordered, the order carries on from one name to the next,
/// and only equal names stand level.
pub proof fn names_are_in_a_total_order(a: Seq<char>, b: Seq<char>, c: Seq<char>)
    ensures
        name_le(a, a),
        name_le(a, b) || name_le(b, a),
        name_le(a, b) && name_le(b, c) ==> name_le(a, c),
        name_le(a, b) && name_le(b, a) ==> a == b,
{
    let x = vstd::utf8::encode_utf8(a);
    let y = vstd::utf8::encode_utf8(b);
    let z = vstd::utf8::encode_utf8(c);
    lemma_bytes_le_total(x, x);
    lemma_bytes_le_total(x, y);
    if bytes_le(x, y) && bytes_le(y, z) {
        lemma_bytes_le_transitive(x, y, z);
    }
    if bytes_le(x, y) && bytes_le(y, x) {
        lemma_bytes_le_antisymmetric(x, y);
        vstd::utf8::encode_utf8_decode_utf8(a);
        vstd::utf8::encode_utf8_decode_utf8(b);
    }
}

proof fn lemma_bytes_le_antisymmetric(a: Seq<u8>, b: Seq<u8>)
    requires
        bytes_le(a, b),
        bytes_le(b, a),
    ensures
        a == b,
    decreases a.len(),
{
    if a.len() > 0 && b.len() > 0 {
        lemma_bytes_le_antisymmetric(a.drop_first(), b.drop_first());
        assert(a =~= seq![a[0]] + a.drop_first());
        assert(b =~= seq![b[0]] + b.drop_first());
    }
    assert(a =~= b);
}

/// Names are ordered by the bytes of their UTF-8, like words in a list.
pub proof fn names_are_ordered_by_their_bytes(a: Seq<char>, b: Seq<char>, i: int)
    requires
        0 <= i <= vstd::utf8::encode_utf8(a).len(),
        i <= vstd::utf8::encode_utf8(b).len(),
        vstd::utf8::encode_utf8(a).take(i) == vstd::utf8::encode_utf8(b).take(i),
    ensures
        i == vstd::utf8::encode_utf8(a).len() ==> name_le(a, b),
        i == vstd::utf8::encode_utf8(b).len() && i < vstd::utf8::encode_utf8(a).len() ==> !name_le(
            a,
            b,
        ),
        i < vstd::utf8::encode_utf8(a).len() && i < vstd::utf8::encode_utf8(b).len()
            && vstd::utf8::encode_utf8(a)[i] < vstd::utf8::encode_utf8(b)[i] ==> name_le(a, b)
            && !name_le(b, a),
{
    names_are_ordered_like_words(vstd::utf8::encode_utf8(a), vstd::utf8::encode_utf8(b), i);
    if vstd::utf8::encode_utf8(b).take(i) == vstd::utf8::encode_utf8(a).take(i) {
        names_are_ordered_like_words(vstd::utf8::encode_utf8(b), vstd::utf8::encode_utf8(a), i);
    }
}

/// Of two rows of a sorted list the upper has the name that comes first, and each
/// row counts with its own address.
pub proof fn sorted_rows_follow_their_names(
    rows: Seq<(SocketAddr, String)>,
    i: int,
    j: int,
)
    requires
        0 <= i <= j < rows.len(),
    ensures
        sorted_rows(rows) ==> name_le(rows[i].1@, rows[j].1@),
        row_addrs(rows).len() == rows.len(),
        row_addrs(rows)[i] == rows[i].0,
{
}

/// An outcome holds the reason of a failure, and none where all went well.
pub proof fn failures_have_their_reason(e: String)
    ensures
        failure_of(Ok(())) is None,
        failure_of(Err(e)) == Some(e@),
{
}

} // verus!
