use voip_lan::addr::{IpAddr, SocketAddr};
use voip_lan::audio::{
    capture_gain, device_names, fault_report, find_device, initial_device, input_format, on_outgoing, output_format,
    pull_mixed_sample, start_voice, voice_packet, voice_payload, voice_step, Outgoing, PcmKind, PeerAudio,
    SampleFormat, SendStep, StreamFault, VoiceReceived, VoiceStep, VoiceThreadAction,
    VOICE_WAIT_MS,
};
use voip_lan::network::{build_announce, on_announce, split_announce};
use voip_lan::pcm::{
    downmix_i16, fill_frames, frames_needed, mix, mix_fits, CarryBuffer, FrameAccum, PullWindow,
};
use voip_lan::state::SharedState;

const SECOND: u128 = 1_000_000_000;

fn host(n: u32) -> SocketAddr {
    SocketAddr::new(IpAddr::V4(n), 47531)
}

fn scale(s: i16, gain: u32) -> i32 {
    (s as f32 * f32::from_bits(gain)) as i32
}

fn speak(audio: &mut PeerAudio, state: &mut SharedState, from: SocketAddr, pcm: Vec<i16>, now: u128) {
    let event = VoiceReceived::Datagram { data: voice_packet(&[1]), src: from };
    assert!(audio.on_received(state, event, now).is_some());
    audio.on_decoded(state, from, "x", Ok(pcm), now);
}

#[test]
fn downmix_of_channels() {
    assert_eq!(downmix_i16(&[1, 2, 3], 0), vec![1, 2, 3]);
    assert_eq!(downmix_i16(&[1, 2, 3], 1), vec![1, 2, 3]);
    assert_eq!(downmix_i16(&[], 2), Vec::<i16>::new());
    assert_eq!(downmix_i16(&[10, 20, -3, -4, 7, 8], 2), vec![15, -3, 7]);
    assert_eq!(downmix_i16(&[10, 20, 9], 2), vec![15, 4]);
    assert_eq!(downmix_i16(&[i16::MIN, i16::MIN, i16::MAX, i16::MAX], 2), vec![i16::MIN, i16::MAX]);
    assert_eq!(downmix_i16(&[-1, 0, 0], 3), vec![0]);
    assert_eq!(downmix_i16(&[100, 200], 65535), vec![0]);
}

#[test]
fn fill_repeats_each_sample() {
    assert_eq!(frames_needed(6, 2), 3);
    assert_eq!(frames_needed(7, 2), 4);
    assert_eq!(frames_needed(0, 2), 0);
    assert_eq!(frames_needed(usize::MAX, 2), usize::MAX / 2 + 1);
    let mut data = [0i16; 7];
    fill_frames(&mut data, 2, &[1, 2, 3, 4]);
    assert_eq!(data, [1, 1, 2, 2, 3, 3, 4]);
    let mut data = [0.0f32; 4];
    fill_frames(&mut data, 4, &[0.5]);
    assert_eq!(data, [0.5; 4]);
}

#[test]
fn downmix_of_filled_sound_gives_it_back() {
    let samples = [5, -7, i16::MIN, i16::MAX, 0];
    let mut data = [0i16; 15];
    fill_frames(&mut data, 3, &samples);
    assert_eq!(downmix_i16(&data, 3), samples.to_vec());
}

#[test]
fn frames_are_whole_and_nothing_is_lost() {
    let sound: Vec<i16> = (0..1500).map(|i| i as i16).collect();
    let mut accum = FrameAccum::new();
    assert!(accum.take_frames(&sound[..479]).is_empty());
    let mut frames = accum.take_frames(&sound[479..1000]);
    assert_eq!(frames.len(), 2);
    frames.extend(accum.take_frames(&sound[1000..]));
    assert_eq!(frames.len(), 3);
    assert!(frames.iter().all(|f| f.len() == 480));
    let joined: Vec<i16> = frames.concat();
    assert_eq!(joined, sound[..1440].to_vec());
    let mut whole = FrameAccum::new();
    assert_eq!(whole.take_frames(&sound), frames);
    assert_eq!(whole.take_frames(&[9; 420])[0][..60], sound[1440..]);
}

#[test]
fn a_muted_microphone_sends_nothing() {
    let mut state = SharedState::new();
    let mut accum = FrameAccum::new();
    state.set_mic_gain(7);
    assert_eq!(capture_gain(&state), Some(7));
    assert!(accum.on_captured(&Some(vec![1; 479])).is_empty());
    state.toggle_mic();
    assert_eq!(capture_gain(&state), None);
    assert!(accum.on_captured(&None).is_empty());
    state.toggle_mic();
    let mut frame = vec![1; 479];
    frame.push(2);
    assert_eq!(accum.on_captured(&Some(vec![2])), vec![frame]);
}

#[test]
fn faults_of_streams() {
    for (fault, text) in [
        (StreamFault::NoInputConfig, "Нет доступной конфигурации микрофона: e"),
        (StreamFault::NoEncoder, "Не удалось создать Opus-энкодер: e"),
        (StreamFault::InputNotBuilt, "Не удалось создать поток захвата: e"),
        (StreamFault::InputNotPlayed, "Не удалось запустить захват звука: e"),
        (StreamFault::NotEncoded, "Ошибка кодирования Opus: e"),
        (StreamFault::InputBroken, "Ошибка потока захвата звука: e"),
        (StreamFault::NoOutputConfig, "Нет доступной конфигурации динамиков: e"),
        (StreamFault::OutputNotBuilt, "Не удалось создать поток воспроизведения: e"),
        (StreamFault::OutputNotPlayed, "Не удалось запустить воспроизведение: e"),
        (StreamFault::OutputBroken, "Ошибка потока воспроизведения: e"),
    ] {
        assert_eq!(fault_report(fault, "e"), text);
    }
}

#[test]
fn buffers_of_the_resamplers() {
    let mut carry = CarryBuffer::new();
    assert_eq!(carry.pair(0), None);
    carry.push(&[1, 2]);
    carry.push(&[3]);
    assert_eq!(carry.pair(0), Some((1, 2)));
    assert_eq!(carry.pair(1), Some((2, 3)));
    assert_eq!(carry.pair(2), None);
    assert_eq!(carry.pair(usize::MAX), None);
    assert!(!carry.discard(0));
    assert!(!carry.discard(4));
    assert!(carry.discard(1));
    assert_eq!(carry.pair(0), Some((2, 3)));
    assert!(carry.discard(2));
    assert_eq!(carry.pair(0), None);
    let mut window = PullWindow::new(1, 2);
    window.advance(3);
    assert_eq!((window.prev, window.curr), (2, 3));
}

#[test]
fn the_mix_is_a_clamped_sum() {
    assert_eq!(mix(&[]), 0);
    assert_eq!(mix(&[5]), 5);
    assert_eq!(mix(&[30000, 30000]), i16::MAX);
    assert_eq!(mix(&[-30000, -30000]), i16::MIN);
    assert_eq!(mix(&[30000, 30000, -40000]), 20000);
    assert_eq!(mix(&[-40000, 30000, 30000]), 20000);
    assert!(mix_fits(&[i32::MAX, i32::MIN]));
    assert!(!mix_fits(&[i32::MAX, 1, -1]));
}

#[test]
fn voice_packets() {
    assert_eq!(voice_packet(&[1, 2]), b"VLV2\x01\x02".to_vec());
    assert_eq!(voice_payload(&voice_packet(&[])), Some(vec![]));
    assert_eq!(voice_payload(&voice_packet(&[9, 8, 7])), Some(vec![9, 8, 7]));
    assert_eq!(voice_payload(b"VLV"), None);
    assert_eq!(voice_payload(b"VLV1abc"), None);
    assert_eq!(voice_payload(&build_announce("Bob", 1)), None);
    assert!(split_announce(&voice_packet(&[0; 40])).is_none());
}

#[test]
fn rounds_of_the_receiver() {
    let mut state = SharedState::new();
    let mut audio = PeerAudio::new();
    let packet = || VoiceReceived::Datagram { data: voice_packet(&[4, 5]), src: host(1) };
    let job = audio.on_received(&mut state, packet(), 3).unwrap();
    assert_eq!(job.src, host(1));
    assert_eq!(job.frame, vec![4, 5]);
    assert!(job.fresh);
    assert!(audio.contains(host(1)));
    assert!(!audio.on_received(&mut state, packet(), 4).unwrap().fresh);
    let noise = VoiceReceived::Datagram { data: vec![1, 2, 3, 4, 5], src: host(2) };
    assert!(audio.on_received(&mut state, noise, 4).is_none());
    assert!(!audio.contains(host(2)));
    assert!(audio.on_received(&mut state, VoiceReceived::WouldBlock, 4).is_none());
    assert!(audio.on_received(&mut state, VoiceReceived::TimedOut, 4).is_none());
    assert!(audio.on_received(&mut state, VoiceReceived::Failed("gone".to_string()), 4).is_none());
    audio.on_decoded(&mut state, host(1), "0.0.0.1:47531", Err("corrupt".to_string()), 5);
    let lines: Vec<String> = state.logs.iter().cloned().collect();
    assert_eq!(
        lines,
        vec![
            "Ошибка приёма голосового пакета: gone",
            "Ошибка декодирования Opus-пакета от 0.0.0.1:47531: corrupt",
        ]
    );
}

#[test]
fn everyone_is_mixed_with_their_gain() {
    let mut state = SharedState::new();
    let mut audio = PeerAudio::new();
    speak(&mut audio, &mut state, host(1), vec![100, 200, 300], 0);
    speak(&mut audio, &mut state, host(2), vec![1000], 0);
    state.set_peer_gain(host(2), 0.5f32.to_bits());
    assert_eq!(pull_mixed_sample(&mut audio, &state, scale), Some(600));
    assert_eq!(pull_mixed_sample(&mut audio, &state, scale), Some(200));
    state.set_peer_gain(host(1), 0.0f32.to_bits());
    assert_eq!(pull_mixed_sample(&mut audio, &state, scale), Some(0));
    assert_eq!(pull_mixed_sample(&mut audio, &state, scale), Some(0));
    speak(&mut audio, &mut state, host(3), vec![30000], 0);
    speak(&mut audio, &mut state, host(4), vec![30000], 0);
    assert_eq!(pull_mixed_sample(&mut audio, &state, scale), Some(i16::MAX));
    speak(&mut audio, &mut state, host(3), vec![1], 0);
    speak(&mut audio, &mut state, host(4), vec![1], 0);
    assert_eq!(pull_mixed_sample(&mut audio, &state, |_, _| i32::MAX), None);
}

#[test]
fn muted_sound_is_drained() {
    let mut state = SharedState::new();
    let mut audio = PeerAudio::new();
    speak(&mut audio, &mut state, host(1), vec![1, 2, 3], 0);
    state.toggle_sound();
    assert!(audio.pull_samples(&state).is_empty());
    assert_eq!(pull_mixed_sample(&mut audio, &state, scale), Some(0));
    state.toggle_sound();
    assert_eq!(pull_mixed_sample(&mut audio, &state, scale), Some(3));
}

#[test]
fn queues_hold_one_second() {
    let mut state = SharedState::new();
    let mut audio = PeerAudio::new();
    speak(&mut audio, &mut state, host(1), vec![1; 10], 0);
    speak(&mut audio, &mut state, host(1), vec![2; 47_999], 0);
    assert_eq!(pull_mixed_sample(&mut audio, &state, scale), Some(1));
    for _ in 0..47_999 {
        assert_eq!(pull_mixed_sample(&mut audio, &state, scale), Some(2));
    }
    assert!(audio.pull_samples(&state).is_empty());
}

#[test]
fn silent_voices_are_dropped() {
    let mut state = SharedState::new();
    let mut audio = PeerAudio::new();
    speak(&mut audio, &mut state, host(1), vec![1], 0);
    speak(&mut audio, &mut state, host(2), vec![1], SECOND);
    audio.drop_silent(10 * SECOND - 1);
    assert!(audio.contains(host(1)));
    audio.drop_silent(10 * SECOND);
    assert!(!audio.contains(host(1)));
    assert!(audio.contains(host(2)));
}

#[test]
fn frames_go_to_everyone() {
    let mut state = SharedState::new();
    on_announce(&mut state, 1, &build_announce("a", 2), SocketAddr::new(IpAddr::V4(1), 9), "x", 0);
    on_announce(&mut state, 1, &build_announce("b", 3), SocketAddr::new(IpAddr::V4(2), 9), "x", 0);
    match on_outgoing(&state, Outgoing::Frame(vec![7])) {
        SendStep::Send { packet, targets } => {
            assert_eq!(packet, b"VLV2\x07".to_vec());
            assert_eq!(targets, vec![host(1), host(2)]);
        }
        _ => panic!("a frame is sent"),
    }
    assert!(matches!(on_outgoing(&state, Outgoing::Timeout), SendStep::Wait));
    assert!(matches!(on_outgoing(&state, Outgoing::Disconnected), SendStep::Stop));
}

#[test]
fn voice_threads_end_with_their_flag() {
    let flags = [true, true, false, true];
    let rounds =
        flags.iter().take_while(|f| voice_step(**f) == VoiceThreadAction::Run).count();
    assert_eq!(rounds, 2);
    assert_eq!(voice_step(false), VoiceThreadAction::Stop);
    assert_eq!(VOICE_WAIT_MS, 500);
}

fn some(names: &[&str]) -> Vec<Option<String>> {
    names.iter().map(|n| if n.is_empty() { None } else { Some(n.to_string()) }).collect()
}

#[test]
fn devices_by_name() {
    let found = some(&["mic", "", "line", "mic"]);
    assert_eq!(device_names(&Some(found.clone())), vec!["mic", "line", "mic"]);
    assert!(device_names(&None).is_empty());
    assert_eq!(find_device(&found, &"mic".to_string()), Some(0));
    assert_eq!(find_device(&found, &"line".to_string()), Some(2));
    assert_eq!(find_device(&found, &"".to_string()), None);
    let names = vec!["a".to_string(), "b".to_string()];
    assert_eq!(initial_device(Some("b".to_string()), &names), "b");
    assert_eq!(initial_device(None, &names), "a");
    assert_eq!(initial_device(None, &vec![]), "");
}

#[test]
fn formats() {
    assert_eq!(input_format(SampleFormat::I16), Ok(PcmKind::I16));
    assert_eq!(output_format(SampleFormat::F32), Ok(PcmKind::F32));
    assert_eq!(
        input_format(SampleFormat::Other("U8".to_string())),
        Err("Неподдерживаемый формат сэмплов микрофона: U8".to_string())
    );
    assert_eq!(
        output_format(SampleFormat::Other("U8".to_string())),
        Err("Неподдерживаемый формат сэмплов динамиков: U8".to_string())
    );
}

#[test]
fn a_voice_session_with_a_microphone() {
    let mut state = SharedState::new();
    let (inputs, outputs) = (some(&["mic"]), some(&["x", "out"]));
    let mut start =
        start_voice(&inputs, &outputs, &"mic".to_string(), &"out".to_string()).ok().unwrap();
    assert_eq!((start.input, start.output, start.step), (Some(0), 1, VoiceStep::Bind));
    let mut steps = Vec::new();
    while start.step != VoiceStep::Done {
        steps.push(start.advance(&mut state, Ok(())).unwrap());
    }
    assert_eq!(
        steps,
        vec![
            VoiceStep::SetTimeout,
            VoiceStep::CloneSocket,
            VoiceStep::SpawnSender,
            VoiceStep::OpenInput,
            VoiceStep::SpawnReceiver,
            VoiceStep::SpawnCleaner,
            VoiceStep::OpenOutput,
            VoiceStep::Done,
        ]
    );
    assert_eq!(state.logs.len(), 0);
}

#[test]
fn a_voice_session_without_a_microphone() {
    let mut state = SharedState::new();
    let mut start = start_voice(&vec![], &some(&["out"]), &String::new(), &"out".to_string()).ok().unwrap();
    assert_eq!(start.input, None);
    assert_eq!(start.advance(&mut state, Ok(())), Ok(VoiceStep::SetTimeout));
    assert_eq!(start.advance(&mut state, Ok(())), Ok(VoiceStep::SpawnReceiver));
    assert_eq!(state.logs.back().unwrap(), "Подключение без микрофона — только приём звука");
    assert_eq!(start.advance(&mut state, Ok(())), Ok(VoiceStep::SpawnCleaner));
    assert_eq!(start.advance(&mut state, Ok(())), Ok(VoiceStep::OpenOutput));
    assert_eq!(start.advance(&mut state, Err("no sound".to_string())), Err("no sound".to_string()));
    assert_eq!(start.step, VoiceStep::OpenOutput);
}

#[test]
fn a_voice_session_that_fails() {
    let mut state = SharedState::new();
    let (inputs, outputs) = (some(&["mic"]), some(&["out"]));
    let error = |i: &str, o: &str| start_voice(&inputs, &outputs, &i.to_string(), &o.to_string()).err();
    assert_eq!(error("nope", "nope"), Some("Устройство ввода не найдено: nope".to_string()));
    assert_eq!(error("mic", "nope"), Some("Устройство вывода не найдено: nope".to_string()));
    assert_eq!(error("", ""), Some("Устройство вывода не найдено: ".to_string()));
    let mut start =
        start_voice(&inputs, &outputs, &"mic".to_string(), &"out".to_string()).ok().unwrap();
    assert_eq!(
        start.advance(&mut state, Err("in use".to_string())),
        Err("Не удалось открыть voice-порт 47531: in use".to_string())
    );
    assert_eq!(start.step, VoiceStep::Bind);
}
