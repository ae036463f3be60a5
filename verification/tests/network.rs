use voip_lan::addr::{recent, AddrMap, IpAddr, SocketAddr};
use voip_lan::network::{
    build_announce, cleanup_stale_peers, new_session_id, on_announce, parse_announce, session_id,
    listener_step, split_announce, start_discovery, voice_addr, Announcer, AnnouncerAction,
    DiscoveryThread, ListenerAction, Received, ANNOUNCE_STEP_MS, READ_TIMEOUT_MS,
};
use voip_lan::state::{SharedState, MAX_LOG_LINES, UNITY_GAIN};

const SECOND: u128 = 1_000_000_000;

fn host(n: u32, port: u16) -> SocketAddr {
    SocketAddr::new(IpAddr::V4(n), port)
}

fn log_lines(state: &SharedState) -> Vec<String> {
    state.logs.iter().cloned().collect()
}

#[test]
fn table_of_addresses() {
    let mut map: AddrMap<u32> = AddrMap::new();
    assert_eq!(map.len(), 0);
    map.insert(host(1, 1), 10);
    map.insert(host(2, 1), 20);
    map.insert(host(1, 2), 30);
    map.insert(host(1, 1), 11);
    assert_eq!(map.len(), 3);
    assert_eq!(map.get(host(1, 1)), Some(&11));
    assert_eq!(map.get(host(1, 2)), Some(&30));
    assert_eq!(map.get(host(9, 9)), None);
    assert!(map.contains_key(host(2, 1)));
    assert_eq!(map.position(host(2, 1)), Some(1));
    assert_eq!(map.key_at(2), host(1, 2));
    *map.value_at_mut(1) += 5;
    assert_eq!(map.value_at(1), &25);
    map.clear();
    assert!(!map.contains_key(host(1, 1)));
    let scoped = SocketAddr { ip: IpAddr::V6(1), port: 1, flowinfo: 0, scope_id: 3 };
    map.insert(scoped, 1);
    assert!(!map.contains_key(SocketAddr::new(IpAddr::V6(1), 1)));
}

#[test]
fn recent_is_strictly_within_the_timeout() {
    assert!(recent(0, 9, 10));
    assert!(!recent(0, 10, 10));
    assert!(recent(20, 10, 10));
    assert!(!recent(20, 10, 0));
}

#[test]
fn announcement_layout() {
    let packet = build_announce("Bob", 0x0102_0304_0506_0708);
    assert_eq!(packet, b"VOIPLAN1\x08\x07\x06\x05\x04\x03\x02\x01\x03Bob".to_vec());
    assert_eq!(build_announce("", u64::MAX), b"VOIPLAN1\xff\xff\xff\xff\xff\xff\xff\xff\x00".to_vec());
    let long = "a".repeat(300);
    let packet = build_announce(&long, 1);
    assert_eq!(packet.len(), 17 + 255);
    assert_eq!(packet[16], 255);
}

#[test]
fn announcement_is_read_back() {
    for name in ["", "Bob", "Мария", "日本語"] {
        let packet = build_announce(name, 0xdead_beef_0000_0001);
        let (session, bytes) = split_announce(&packet).unwrap();
        assert_eq!(session, 0xdead_beef_0000_0001);
        assert_eq!(bytes, name.as_bytes());
        let (peer, session) = parse_announce(&packet, host(7, 5555), 42).unwrap();
        assert_eq!(session, 0xdead_beef_0000_0001);
        assert_eq!(peer.username, name);
        assert_eq!(peer.voice_addr, host(7, 47531));
        assert_eq!(peer.last_seen, 42);
    }
}

#[test]
fn names_are_cut_and_shown_lossily() {
    let name = format!("{}é", "a".repeat(254));
    let packet = build_announce(&name, 1);
    let (peer, _) = parse_announce(&packet, host(1, 1), 0).unwrap();
    assert_eq!(peer.username, format!("{}\u{fffd}", "a".repeat(254)));
    let (peer, _) = parse_announce(b"VOIPLAN1\0\0\0\0\0\0\0\0\x03a\xffb", host(1, 1), 0).unwrap();
    assert_eq!(peer.username, "a\u{fffd}b");
}

#[test]
fn foreign_bytes_are_no_announcement() {
    let packet = build_announce("Bob", 5);
    assert!(split_announce(&[]).is_none());
    assert!(split_announce(&packet[..16]).is_none());
    assert!(split_announce(&packet[..19]).is_none());
    let mut wrong = packet.clone();
    wrong[7] = b'2';
    assert!(split_announce(&wrong).is_none());
    let mut longer = packet.clone();
    longer.push(9);
    assert_eq!(split_announce(&longer).unwrap(), (5, b"Bob".to_vec()));
}

#[test]
fn voice_is_expected_on_the_voice_port() {
    let src = SocketAddr { ip: IpAddr::V6(0xfe80), port: 9, flowinfo: 4, scope_id: 2 };
    assert_eq!(voice_addr(src), SocketAddr::new(IpAddr::V6(0xfe80), 47531));
}

#[test]
fn session_numbers() {
    assert_eq!(session_id(5, 0), 5);
    assert_eq!(session_id(5, 1), 0x1_0000_0005);
    assert_eq!(session_id(0x1_0000_0005, 1), 5);
    assert_eq!(session_id((7u128 << 64) + 3, 0), 3);
    assert_ne!(session_id(5, 1), session_id(5, 2));
    assert_ne!(new_session_id(1), 0);
}

#[test]
fn a_new_peer_is_entered_and_reported_once() {
    let mut state = SharedState::new();
    let packet = build_announce("Bob", 2);
    on_announce(&mut state, 1, &packet, host(7, 50), "0.0.0.7:47531", 10);
    on_announce(&mut state, 1, &packet, host(7, 51), "0.0.0.7:47531", 20);
    assert_eq!(state.peers.len(), 1);
    let peer = state.peers.get(host(7, 47531)).unwrap();
    assert_eq!(peer.username, "Bob");
    assert_eq!(peer.last_seen, 20);
    assert_eq!(log_lines(&state), vec!["Новый участник в сети: Bob (0.0.0.7:47531)"]);
    on_announce(&mut state, 1, &build_announce("Rob", 2), host(7, 50), "0.0.0.7:47531", 30);
    assert_eq!(state.peers.get(host(7, 47531)).unwrap().username, "Rob");
    assert_eq!(state.logs.len(), 1);
}

#[test]
fn own_announcements_are_ignored() {
    let mut state = SharedState::new();
    on_announce(&mut state, 1, &build_announce("Bob", 1), host(7, 50), "x", 10);
    assert_eq!(state.peers.len(), 0);
    on_announce(&mut state, 1, &build_announce("Bob", 2), host(7, 50), "x", 10);
    assert_eq!(state.peers.len(), 1);
}

#[test]
fn rounds_of_the_listener() {
    let mut state = SharedState::new();
    let discovery = start_discovery("Bob", "26.155.20.255", 1);
    assert_eq!(discovery.dest, "26.155.20.255:47532");
    assert_eq!(discovery.payload, build_announce("Bob", 1));
    discovery.on_received(&mut state, Received::WouldBlock, 1);
    discovery.on_received(&mut state, Received::TimedOut, 1);
    assert_eq!(state.logs.len(), 0);
    discovery.on_received(&mut state, Received::Failed("boom".to_string()), 1);
    discovery.on_received(
        &mut state,
        Received::Datagram {
            data: build_announce("Eve", 2),
            src: host(3, 1),
            addr_text: "0.0.0.3:47531".to_string(),
        },
        5,
    );
    discovery.on_send_failed(&mut state, "down");
    discovery.on_listen_failed(&mut state, "busy");
    discovery.on_no_socket(&mut state, "none");
    assert_eq!(
        log_lines(&state),
        vec![
            "Ошибка приёма discovery-пакета: boom",
            "Новый участник в сети: Eve (0.0.0.3:47531)",
            "Не удалось отправить announce на 26.155.20.255:47532: down",
            "Не удалось открыть discovery-порт 47532: busy",
            "Не удалось создать сокет для announce: none",
        ]
    );
    assert!(state.peers.contains_key(host(3, 47531)));
}

#[test]
fn announcements_come_every_three_seconds() {
    let mut announcer = Announcer::new();
    assert_eq!(announcer.next(true), AnnouncerAction::Send);
    let mut slept = 0;
    loop {
        match announcer.next(true) {
            AnnouncerAction::Sleep(ms) => slept += ms,
            AnnouncerAction::Send => break,
            AnnouncerAction::Stop => panic!("stopped"),
        }
    }
    assert_eq!(slept, 3000);
    assert_eq!(announcer.next(true), AnnouncerAction::Sleep(200));
    assert_eq!(announcer.next(false), AnnouncerAction::Stop);
}

#[test]
fn both_threads_end_when_the_flag_is_down() {
    let mut state = SharedState::new();
    assert_eq!(listener_step(&state), ListenerAction::Stop);
    state.running = true;
    assert_eq!(listener_step(&state), ListenerAction::Receive);
    let discovery = start_discovery("Bob", "b", 1);
    assert_eq!(discovery.threads(), vec![DiscoveryThread::Listener, DiscoveryThread::Announcer]);
    discovery.on_received(&mut state, Received::Failed("x".to_string()), 0);
    assert!(state.running);
    for slept in 0..40 {
        let mut announcer = Announcer::new();
        for _ in 0..slept {
            assert_ne!(announcer.next(true), AnnouncerAction::Stop);
        }
        assert_eq!(announcer.next(false), AnnouncerAction::Stop);
    }
    assert_eq!((READ_TIMEOUT_MS, ANNOUNCE_STEP_MS), (500, 200));
}

#[test]
fn silent_peers_are_dropped_and_counted() {
    let mut state = SharedState::new();
    on_announce(&mut state, 1, &build_announce("a", 2), host(1, 1), "x", 0);
    on_announce(&mut state, 1, &build_announce("b", 3), host(2, 1), "x", 5 * SECOND);
    on_announce(&mut state, 1, &build_announce("c", 4), host(3, 1), "x", 0);
    cleanup_stale_peers(&mut state, 10 * SECOND - 1, 10 * SECOND);
    assert_eq!(state.peers.len(), 3);
    assert_eq!(state.logs.len(), 3);
    cleanup_stale_peers(&mut state, 10 * SECOND, 10 * SECOND);
    assert_eq!(state.peers.len(), 1);
    assert!(state.peers.contains_key(host(2, 47531)));
    assert_eq!(state.logs.back().unwrap(), "Убрано неактивных участников: 2");
    cleanup_stale_peers(&mut state, 10 * SECOND, 10 * SECOND);
    assert_eq!(state.logs.len(), 4);
}

#[test]
fn a_peer_that_misses_two_announcements_stays() {
    let mut state = SharedState::new();
    on_announce(&mut state, 1, &build_announce("a", 2), host(1, 1), "x", 0);
    cleanup_stale_peers(&mut state, 9 * SECOND, 10 * SECOND);
    assert_eq!(state.peers.len(), 1);
}

#[test]
fn the_log_keeps_its_newest_lines() {
    let mut state = SharedState::new();
    for i in 0..(MAX_LOG_LINES + 3) {
        state.log(format!("line {i}"));
    }
    assert_eq!(state.logs.len(), 500);
    assert_eq!(state.logs.front().unwrap(), "line 3");
    assert_eq!(state.logs.back().unwrap(), "line 502");
}

#[test]
fn gains_and_mutes() {
    let mut state = SharedState::new();
    assert_eq!(state.peer_gain(&host(1, 1)), UNITY_GAIN);
    assert_eq!(f32::from_bits(UNITY_GAIN), 1.0);
    state.set_peer_gain(host(1, 1), 0.5f32.to_bits());
    state.set_peer_gain(host(1, 1), 0.25f32.to_bits());
    assert_eq!(f32::from_bits(state.peer_gain(&host(1, 1))), 0.25);
    assert_eq!(state.peer_gain(&host(2, 1)), UNITY_GAIN);
    state.set_mic_gain(2.0f32.to_bits());
    assert_eq!(f32::from_bits(state.mic_gain), 2.0);
    assert!(!state.mic_muted && !state.sound_muted && !state.running);
    state.toggle_mic();
    assert!(state.mic_muted && !state.sound_muted);
    state.toggle_sound();
    state.toggle_mic();
    assert!(!state.mic_muted && state.sound_muted);
}
