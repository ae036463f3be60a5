use voip_lan::addr::{IpAddr, SocketAddr};
use voip_lan::gui::{
    connect_button, mute_color, name_before, peer_rows, Rgb, VoipApp, WindowAction, WindowEvent,
};
use voip_lan::network::{build_announce, on_announce};
use voip_lan::state::SharedState;

const SECOND: u128 = 1_000_000_000;

fn host(n: u32) -> SocketAddr {
    SocketAddr::new(IpAddr::V4(n), 47531)
}

fn hear(state: &mut SharedState, name: &str, from: u32, now: u128) {
    on_announce(state, 0, &build_announce(name, from as u64), host(from), "x", now);
}

fn window(username: &str) -> VoipApp {
    VoipApp::with_username(
        vec!["mic".to_string()],
        vec!["out".to_string(), "head".to_string()],
        None,
        Some("head".to_string()),
        username.to_string(),
        0,
    )
}

fn last_line(state: &SharedState) -> String {
    state.logs.back().unwrap().clone()
}

#[test]
fn the_window_opens_disconnected() {
    let app = window("Bob");
    assert_eq!(app.username, "Bob");
    assert_eq!(app.selected_input, "mic");
    assert_eq!(app.selected_output, "head");
    assert!(!app.connected && !app.voice);
    let app = VoipApp::new(vec![], vec![], None, None, 7);
    assert!(app.username.starts_with("User"));
    assert_eq!(app.selected_input, "");
    assert_eq!(app.last_cleanup, 7);
}

#[test]
fn connect_and_disconnect() {
    let mut state = SharedState::new();
    let mut app = window("  Bob ");
    assert_eq!(app.begin_connect(&mut state), Some("Bob".to_string()));
    assert_eq!(app.username, "Bob");
    assert!(state.running && !app.connected);
    assert!(app.on_voice_started(&mut state, Ok(())));
    assert!(app.connected && app.voice && state.running);
    assert_eq!(last_line(&state), "Подключено");
    assert_eq!(app.begin_connect(&mut state), None);
    hear(&mut state, "Eve", 3, 1);
    assert_eq!(app.discovery_threads, 2);
    assert_eq!(app.begin_disconnect(&mut state), Some((true, 2)));
    assert_eq!(app.discovery_threads, 0);
    assert!(!state.running && !app.voice && app.connected);
    app.finish_disconnect(&mut state);
    assert!(!app.connected);
    assert_eq!(state.peers.len(), 0);
    assert_eq!(last_line(&state), "Отключено");
    assert_eq!(app.begin_disconnect(&mut state), None);
}

#[test]
fn a_connection_without_sound_is_undone() {
    let mut state = SharedState::new();
    let mut app = window("   ");
    assert_eq!(app.begin_connect_as(&mut state, "User5".to_string()), Some("User5".to_string()));
    assert!(!app.on_voice_started(&mut state, Err("no device".to_string())));
    assert!(!app.connected && !app.voice && !state.running);
    assert_eq!(app.discovery_threads, 0);
    assert_eq!(app.username, "User5");
    assert_eq!(last_line(&state), "Не удалось запустить звук: no device");
}

#[test]
fn a_device_change_keeps_the_connection() {
    let mut state = SharedState::new();
    let mut app = window("Bob");
    assert_eq!(app.begin_restart_voice(), None);
    app.begin_connect(&mut state);
    app.on_voice_started(&mut state, Ok(()));
    hear(&mut state, "Eve", 3, 1);
    assert_eq!(app.begin_restart_voice(), Some(true));
    app.on_voice_restarted(&mut state, Err("gone".to_string()));
    assert!(app.connected && !app.voice && state.running);
    assert_eq!(last_line(&state), "Не удалось переключить устройство: gone");
    assert_eq!(app.begin_restart_voice(), Some(false));
    app.on_voice_restarted(&mut state, Ok(()));
    assert!(app.connected && app.voice && state.running);
    assert_eq!(last_line(&state), "Аудио-устройство переключено");
    assert_eq!(state.peers.len(), 1);
    app.begin_restart_voice();
    assert_eq!(app.begin_disconnect(&mut state), Some((false, 2)));
}

#[test]
fn silent_peers_leave_the_window() {
    let mut state = SharedState::new();
    let mut app = window("Bob");
    hear(&mut state, "Eve", 3, 0);
    app.tick(&mut state, 20 * SECOND);
    assert_eq!(state.peers.len(), 1);
    app.begin_connect(&mut state);
    app.on_voice_started(&mut state, Ok(()));
    app.last_cleanup = 19 * SECOND;
    app.tick(&mut state, 20 * SECOND);
    assert_eq!(state.peers.len(), 1);
    app.tick(&mut state, 20 * SECOND + 1);
    assert_eq!(state.peers.len(), 0);
    assert_eq!(app.last_cleanup, 20 * SECOND + 1);
    app.tick(&mut state, 5);
    assert_eq!(app.last_cleanup, 20 * SECOND + 1);
}

#[test]
fn peers_are_listed_by_name() {
    let mut state = SharedState::new();
    for (name, from) in [("carol", 1), ("Zed", 2), ("anna", 3), ("Ян", 4), ("carol", 5), ("", 6)] {
        hear(&mut state, name, from, 0);
    }
    let names: Vec<String> = peer_rows(&state).into_iter().map(|row| row.1).collect();
    assert_eq!(names, vec!["", "Zed", "anna", "carol", "carol", "Ян"]);
    let rows = peer_rows(&state);
    assert_eq!(rows[1].0, host(2));
    assert!(name_before("a", "ab") && !name_before("ab", "a") && name_before("", ""));
    for (a, b) in [("", "a"), ("é", "z"), ("z", "é"), ("Б", "А"), ("same", "same")] {
        assert_eq!(name_before(a, b), a <= b);
    }
}

#[test]
fn clicks_depend_on_the_connection() {
    let mut state = SharedState::new();
    let mut app = window("Bob");
    assert_eq!(app.on_event(WindowEvent::ConnectButton), WindowAction::Connect);
    assert_eq!(app.on_event(WindowEvent::DeviceChosen), WindowAction::Nothing);
    assert_eq!(app.on_event(WindowEvent::Closed), WindowAction::Nothing);
    app.begin_connect(&mut state);
    app.on_voice_started(&mut state, Ok(()));
    assert_eq!(app.on_event(WindowEvent::ConnectButton), WindowAction::Disconnect);
    assert_eq!(app.on_event(WindowEvent::DeviceChosen), WindowAction::RestartVoice);
    assert_eq!(app.on_event(WindowEvent::Closed), WindowAction::Disconnect);
}

#[test]
fn any_history_keeps_the_window_consistent() {
    for history in 0..81u32 {
        let mut state = SharedState::new();
        let mut app = window("Bob");
        let mut rest = history;
        for step in 0..4 {
            let outcome = if step % 2 == 0 { Ok(()) } else { Err("no".to_string()) };
            match rest % 3 {
                0 => {
                    if app.begin_connect(&mut state).is_some() {
                        app.on_voice_started(&mut state, outcome);
                    }
                }
                1 => {
                    if app.begin_disconnect(&mut state).is_some() {
                        app.finish_disconnect(&mut state);
                    }
                }
                _ => {
                    if app.begin_restart_voice().is_some() {
                        app.on_voice_restarted(&mut state, outcome);
                    }
                }
            }
            rest /= 3;
            assert_eq!(app.connected, state.running);
            assert!(app.connected || !app.voice);
            assert_eq!(app.discovery_threads, if app.connected { 2 } else { 0 });
        }
    }
}

#[test]
fn buttons() {
    assert_eq!(mute_color(true), Rgb { r: 150, g: 40, b: 40 });
    assert_eq!(mute_color(false), Rgb { r: 76, g: 175, b: 80 });
    assert_eq!(connect_button(true), ("Отключиться".to_string(), Rgb { r: 220, g: 53, b: 53 }));
    assert_eq!(connect_button(false), ("Подключиться".to_string(), Rgb { r: 76, g: 175, b: 80 }));
}

#[test]
fn the_console_tells_who_is_there() {
    let mut state = SharedState::new();
    let spaces = " ".repeat(30);
    assert_eq!(state.presence_line(), format!("Участников не обнаружено...{spaces}"));
    hear(&mut state, "Eve", 3, 0);
    assert_eq!(state.presence_line(), format!("В сети: Eve{spaces}"));
    hear(&mut state, "Bob", 4, 0);
    hear(&mut state, "Ann", 5, 0);
    assert_eq!(state.presence_line(), format!("В сети: Eve, Bob, Ann{spaces}"));
}
