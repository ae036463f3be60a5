use voip_lan::clock::nanos_or_zero;
use voip_lan::settings::{
    broadcast_address, choose_username, generate_random_username, given_username,
    numbered_username, resolve_username, DEFAULT_BROADCAST_ADDR, DISCOVERY_INTERVAL_SECS,
    DISCOVERY_PORT, FRAME_SIZE, OPUS_BITRATE, PEER_TIMEOUT_SECS, SAMPLE_RATE, VOICE_PORT,
};
use voip_lan::text::push_decimal;

fn s(text: &str) -> Option<String> {
    Some(text.to_string())
}

#[test]
fn constants_of_the_protocol() {
    assert_eq!(VOICE_PORT, 47531);
    assert_eq!(DISCOVERY_PORT, 47532);
    assert_eq!(DISCOVERY_INTERVAL_SECS, 3);
    assert_eq!(PEER_TIMEOUT_SECS, 10);
    assert_eq!(SAMPLE_RATE, 48000);
    assert_eq!(FRAME_SIZE, 480);
    assert_eq!(FRAME_SIZE * 100, SAMPLE_RATE as usize);
    assert_eq!(OPUS_BITRATE, 40_000);
    assert_eq!(DEFAULT_BROADCAST_ADDR, "255.255.255.255");
}

#[test]
fn decimals_have_no_leading_zeros() {
    for n in [0u64, 7, 10, 99, 100, 9999, 47532, u64::MAX] {
        let mut out = String::from("x");
        push_decimal(&mut out, n);
        assert_eq!(out, format!("x{n}"));
    }
}

#[test]
fn numbered_names_use_the_last_four_digits() {
    assert_eq!(numbered_username(0), "User0000");
    assert_eq!(numbered_username(7), "User0007");
    assert_eq!(numbered_username(9_999), "User9999");
    assert_eq!(numbered_username(10_000), "User0000");
    assert_eq!(numbered_username(123_456_789), "User6789");
    assert_eq!(numbered_username(999_990_042), "User0042");
}

#[test]
fn made_up_names_are_numbered() {
    let name = generate_random_username();
    let number: u32 = name.strip_prefix("User").unwrap().parse().unwrap();
    assert!(number < 10_000);
    assert_eq!(name, format!("User{number:04}"));
}

#[test]
fn a_clock_before_the_epoch_reads_zero() {
    assert_eq!(nanos_or_zero(None), 0);
    assert_eq!(nanos_or_zero(Some(12)), 12);
}

#[test]
fn blank_names_count_as_none() {
    assert_eq!(given_username(&None), None);
    assert_eq!(given_username(&s("")), None);
    assert_eq!(given_username(&s(" \t\r\n\u{a0}\u{2003}\u{3000}")), None);
    assert_eq!(given_username(&s("  Анна Б \n")), s("Анна Б"));
    assert_eq!(given_username(&given_username(&s(" a b "))), s("a b"));
    assert_eq!(given_username(&s("\u{200b}x")), s("\u{200b}x"));
}

#[test]
fn the_command_line_comes_before_the_prompt() {
    let fallback = || "User1".to_string();
    assert_eq!(choose_username(&s(" a "), &s("b"), fallback()), "a");
    assert_eq!(choose_username(&s("  "), &s("b\n"), fallback()), "b");
    assert_eq!(choose_username(&None, &s("b"), fallback()), "b");
    assert_eq!(choose_username(&s(""), &s("\n"), fallback()), "User1");
    assert_eq!(choose_username(&None, &None, fallback()), "User1");
    assert_eq!(resolve_username(&s(" a "), &None), "a");
    assert!(resolve_username(&None, &s("\n")).starts_with("User"));
}

#[test]
fn the_broadcast_address_has_a_default() {
    assert_eq!(broadcast_address(None), "255.255.255.255");
    assert_eq!(broadcast_address(s("26.155.20.255")), "26.155.20.255");
}
