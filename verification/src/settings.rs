//! The constants of the protocol, and the choice of a user's name.
use crate::clock::epoch_nanos;
use crate::text::push_digit;
use vstd::prelude::*;

verus! {

/// The port of the voice packets.
pub const VOICE_PORT: u16 = 47531;

/// The port of the announcements.
pub const DISCOVERY_PORT: u16 = 47532;

/// The seconds between two announcements.
pub const DISCOVERY_INTERVAL_SECS: u64 = 3;

/// The seconds of silence after which a participant counts as gone.
pub const PEER_TIMEOUT_SECS: u64 = 10;

/// The sample rate of the voice channel, in hertz. Opus takes 8000, 12000,
/// 16000, 24000 and 48000 only.
pub const SAMPLE_RATE: u32 = 48000;

/// The samples of one voice frame: ten milliseconds.
pub const FRAME_SIZE: usize = 480;

/// The bit rate of the encoded voice, in bits per second.
pub const OPUS_BITRATE: i32 = 40_000;

/// Where announcements go unless the user names another broadcast address.
pub const DEFAULT_BROADCAST_ADDR: &'static str = "255.255.255.255";

/// The nanoseconds in one second.
pub const NANOS_PER_SEC: u128 = 1_000_000_000;

/// The name `UserNNNN`, in which `NNNN` are the last four decimal digits of `n`.
pub open spec fn numbered_name(n: nat) -> Seq<char> {
    "User"@ + seq![
        crate::text::digit(n / 1000 % 10),
        crate::text::digit(n / 100 % 10),
        crate::text::digit(n / 10 % 10),
        crate::text::digit(n % 10),
    ]
}

/// The name made at a moment whose fraction of a second is `subsec_nanos`.
pub fn numbered_username(subsec_nanos: u32) -> (r: String)
    ensures
        r@ == numbered_name(subsec_nanos as nat % 10000),
{
    let n: u64 = (subsec_nanos % 10000) as u64;
    let mut name = String::from_str("User");
    push_digit(&mut name, n / 1000 % 10);
    push_digit(&mut name, n / 100 % 10);
    push_digit(&mut name, n / 10 % 10);
    push_digit(&mut name, n % 10);
    assert(name@ =~= numbered_name(n as nat));
    name
}

proof fn lemma_four_digits(a: nat, b: nat, c: nat, d: nat)
    requires
        a < 10 && b < 10 && c < 10 && d < 10,
    ensures
        crate::text::digits_value(
            seq![
                crate::text::digit(a),
                crate::text::digit(b),
                crate::text::digit(c),
                crate::text::digit(d),
            ],
        ) == 1000 * a + 100 * b + 10 * c + d,
{
    let s0 = Seq::<char>::empty();
    let s1 = s0.push(crate::text::digit(a));
    let s2 = s1.push(crate::text::digit(b));
    let s3 = s2.push(crate::text::digit(c));
    let s4 = s3.push(crate::text::digit(d));
    assert(s1.drop_last() =~= s0 && s2.drop_last() =~= s1 && s3.drop_last() =~= s2
        && s4.drop_last() =~= s3);
    assert(crate::text::digits_value(s0) == 0);
    assert(crate::text::digits_value(s1) == a);
    assert(crate::text::digits_value(s2) == 10 * a + b);
    assert(crate::text::digits_value(s3) == 100 * a + 10 * b + c);
    assert(s4 =~= seq![
        crate::text::digit(a),
        crate::text::digit(b),
        crate::text::digit(c),
        crate::text::digit(d),
    ]);
}

/// A made-up name is `User` and exactly four decimal digits, which denote the
/// number's last four, and different numbers below ten thousand give different
/// names.
pub proof fn numbered_names_have_four_digits(m: nat, n: nat)
    ensures
        numbered_name(n).len() == 8,
        numbered_name(n).take(4) == "User"@,
        forall|i: int| 4 <= i < 8 ==> '0' <= #[trigger] numbered_name(n)[i] <= '9',
        crate::text::digits_value(numbered_name(n).skip(4)) == n % 10000,
        m < 10000 && n < 10000 && m != n ==> numbered_name(m) != numbered_name(n),
{
    reveal_strlit("User");
    assert(numbered_name(n).take(4) =~= "User"@);
    lemma_number_in_name(m);
    lemma_number_in_name(n);
}

proof fn lemma_number_in_name(n: nat)
    ensures
        crate::text::digits_value(numbered_name(n).skip(4)) == n % 10000,
{
    reveal_strlit("User");
    let (a, b, c, d) = (n / 1000 % 10, n / 100 % 10, n / 10 % 10, n % 10);
    lemma_four_digits(a, b, c, d);
    assert(numbered_name(n).skip(4) =~= seq![
        crate::text::digit(a),
        crate::text::digit(b),
        crate::text::digit(c),
        crate::text::digit(d),
    ]);
    lemma_last_four(n);
}

proof fn lemma_last_four(n: nat)
    ensures
        n % 10000 == 1000 * (n / 1000 % 10) + 100 * (n / 100 % 10) + 10 * (n / 10 % 10) + n % 10,
{
    let q = n / 10000;
    let r = n % 10000;
    assert(n == 10000 * q + r);
    assert(n / 1000 == 10 * q + r / 1000);
    assert(n / 100 == 100 * q + r / 100);
    assert(n / 10 == 1000 * q + r / 10);
    assert(n / 1000 % 10 == r / 1000);
    assert(n / 100 % 10 == r / 100 - 10 * (r / 1000));
    assert(n / 10 % 10 == r / 10 - 10 * (r / 100));
    assert(n % 10 == r - 10 * (r / 10));
}

/// Makes a name out of the fraction of the current second.
pub fn generate_random_username() -> (r: String)
    ensures
        exists|n: nat| n < 10000 && r@ == #[trigger] numbered_name(n),
{
    let nanos: u128 = epoch_nanos() % NANOS_PER_SEC;
    let name = numbered_username(nanos as u32);
    assert(name@ == numbered_name(nanos as nat % 10000));
    name
}

/// The name that `given` asks for: its text without the white space around it,
/// if any remains.
pub fn given_username(given: &Option<String>) -> (r: Option<String>)
    ensures
        match r {
            Some(name) => {
                &&& given is Some
                &&& name@ == crate::text::trimmed(given->0@)
                &&& name@.len() > 0
            },
            None => given is Some ==> crate::text::trimmed(given->0@).len() == 0,
        },
{
    match given {
        Some(name) => {
            let name = name.as_str().trim();
            if name.is_empty() {
                None
            } else {
                Some(name.to_owned())
            }
        },
        None => None,
    }
}

/// What [`choose_username`] settles on.
pub open spec fn chosen_username(
    cli_arg: Option<Seq<char>>,
    typed: Option<Seq<char>>,
    fallback: Seq<char>,
) -> Seq<char> {
    if cli_arg is Some && crate::text::trimmed(cli_arg->0).len() > 0 {
        crate::text::trimmed(cli_arg->0)
    } else if typed is Some && crate::text::trimmed(typed->0).len() > 0 {
        crate::text::trimmed(typed->0)
    } else {
        fallback
    }
}

/// The text in an optional string.
pub open spec fn text_of(s: Option<String>) -> Option<Seq<char>> {
    match s {
        Some(s) => Some(s@),
        None => None,
    }
}

/// Settles the user's name: the command line's, else the typed one, else
/// `fallback`. A blank name counts as none.
pub fn choose_username(
    cli_arg: &Option<String>,
    typed: &Option<String>,
    fallback: String,
) -> (r: String)
    ensures
        r@ == chosen_username(text_of(*cli_arg), text_of(*typed), fallback@),
{
    match given_username(cli_arg) {
        Some(name) => name,
        None => match given_username(typed) {
            Some(name) => name,
            None => fallback,
        },
    }
}

/// Settles the user's name: the command line's, else the one typed at the
/// prompt, else a made-up one.
pub fn resolve_username(cli_arg: &Option<String>, typed: &Option<String>) -> (r: String)
    ensures
        exists|n: nat|
            n < 10000 && r@ == chosen_username(
                text_of(*cli_arg),
                text_of(*typed),
                #[trigger] numbered_name(n),
            ),
{
    let fallback = generate_random_username();
    choose_username(cli_arg, typed, fallback)
}

/// The broadcast address: the one that the user named, else the default.
pub fn broadcast_address(arg: Option<String>) -> (r: String)
    ensures
        r@ == (match arg {
            Some(addr) => addr@,
            None => DEFAULT_BROADCAST_ADDR@,
        }),
{
    match arg {
        Some(addr) => addr,
        None => String::from_str(DEFAULT_BROADCAST_ADDR),
    }
}

/// A made-up name has no white space to trim.
proof fn lemma_numbered_name_is_clean(n: nat)
    ensures
        numbered_name(n).len() > 0,
        crate::text::trimmed(numbered_name(n)) == numbered_name(n),
{
    reveal_strlit("User");
    let name = numbered_name(n);
    let last = (48 + n % 10) as char;
    assert(name[0] == 'U');
    assert(name.last() == last);
    assert(48 <= last as u32 <= 57);
}

/// Whatever the command line and the prompt give, the user's name is not blank,
/// and has no white space around it.
pub proof fn chosen_names_are_never_blank(
    cli_arg: Option<Seq<char>>,
    typed: Option<Seq<char>>,
    n: nat,
)
    ensures
        chosen_username(cli_arg, typed, numbered_name(n)).len() > 0,
        crate::text::trimmed(chosen_username(cli_arg, typed, numbered_name(n)))
            == chosen_username(cli_arg, typed, numbered_name(n)),
{
    lemma_numbered_name_is_clean(n);
    if cli_arg is Some {
        crate::text::trimmed_twice(cli_arg->0);
    }
    if typed is Some {
        crate::text::trimmed_twice(typed->0);
    }
}

/// The command line's name goes before the typed one, and that before the made-up
/// one; a name counts where any of its characters is not white space.
pub proof fn names_are_taken_in_order(
    cli_arg: Option<Seq<char>>,
    typed: Option<Seq<char>>,
    fallback: Seq<char>,
    i: int,
)
    ensures
        cli_arg is Some && 0 <= i < cli_arg->0.len() && !crate::text::white_space(cli_arg->0[i])
            ==> chosen_username(cli_arg, typed, fallback) == crate::text::trimmed(cli_arg->0),
        (cli_arg is None || forall|k: int|
            0 <= k < cli_arg->0.len() ==> crate::text::white_space(#[trigger] cli_arg->0[k]))
            && typed is Some && 0 <= i < typed->0.len() && !crate::text::white_space(typed->0[i])
            ==> chosen_username(cli_arg, typed, fallback) == crate::text::trimmed(typed->0),
        (cli_arg is None || forall|k: int|
            0 <= k < cli_arg->0.len() ==> crate::text::white_space(#[trigger] cli_arg->0[k])) && (
        typed is None || forall|k: int|
            0 <= k < typed->0.len() ==> crate::text::white_space(#[trigger] typed->0[k]))
            ==> chosen_username(cli_arg, typed, fallback) == fallback,
{
    if cli_arg is Some {
        crate::text::trimmed_is_empty_iff_blank(cli_arg->0);
    }
    if typed is Some {
        crate::text::trimmed_is_empty_iff_blank(typed->0);
    }
}

/// An optional string holds its text, and no text where there is no string.
pub proof fn optional_texts(s: String)
    ensures
        text_of(Some(s)) == Some(s@),
        text_of(None) is None,
{
}

} // verus!
