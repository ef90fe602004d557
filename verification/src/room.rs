//! Rooms: who sits where, how a stored match moves on, and when a room expires.
use sha2::{Digest, Sha256};
use std::time::{SystemTime, SystemTimeError, UNIX_EPOCH};
use vstd::prelude::*;
use vstd::string::StringSliceAdditionalSpecFns;

use crate::cards::Seat;
use crate::game::{Action, MatchState, RuleError};
use crate::text::{push_char, same_text};

verus! {

/// How long an active or finished room is kept after its last change.
pub const ACTIVE_ROOM_TTL_SECONDS: i64 = 7 * 24 * 60 * 60;

/// How long a friend room waits for the second player.
pub const WAITING_ROOM_TTL_SECONDS: i64 = 24 * 60 * 60;

#[derive(Debug, Clone, Copy, PartialEq, Eq, Structural)]
pub enum RoomMode {
    Computer,
    Friend,
}

impl RoomMode {
    pub open spec fn text(self) -> Seq<char> {
        match self {
            RoomMode::Computer => "computer"@,
            RoomMode::Friend => "friend"@,
        }
    }

    pub fn as_str(self) -> (r: &'static str)
        ensures
            r@ == self.text(),
    {
        match self {
            RoomMode::Computer => "computer",
            RoomMode::Friend => "friend",
        }
    }

    /// Reads the mode as it is stored; anything else is not a room this version knows.
    pub fn from_stored(text: &str) -> (r: Option<RoomMode>)
        ensures
            r == (if text@ == RoomMode::Computer.text() {
                Some(RoomMode::Computer)
            } else if text@ == RoomMode::Friend.text() {
                Some(RoomMode::Friend)
            } else {
                None
            }),
    {
        if same_text(text, "computer") {
            Some(RoomMode::Computer)
        } else if same_text(text, "friend") {
            Some(RoomMode::Friend)
        } else {
            None
        }
    }
}

/// A room about to be stored for the first time.
#[derive(Debug, Clone)]
pub struct NewRoom<'a> {
    pub id: &'a str,
    pub mode: RoomMode,
    pub state: &'a MatchState,
    pub player_one_name: &'a str,
    pub player_one_token: &'a str,
    pub player_two_name: Option<&'a str>,
    pub player_two_token: Option<&'a str>,
}

#[derive(Debug, Clone)]
pub struct Room {
    pub id: String,
    pub mode: RoomMode,
    pub status: String,
    pub revision: i64,
    pub state: MatchState,
    pub player_names: [Option<String>; 2],
    pub player_token_hashes: [Option<String>; 2],
    pub last_seen_at: [Option<i64>; 2],
    pub updated_at: i64,
}

/// The SHA-256 digest of `data`.
pub uninterp spec fn sha256_digest(data: Seq<u8>) -> Seq<u8>;

/// `sha2::Sha256::digest`. Trusted: the result is the 32-byte digest named
/// `sha256_digest(data)`, a function of the data alone.
#[verifier::external_body]
fn sha256(data: &[u8]) -> (r: Vec<u8>)
    ensures
        r@ == sha256_digest(data@),
        r@.len() == 32,
{
    Sha256::digest(data).to_vec()
}

/// The lower-case hexadecimal digit of a value below 16.
pub open spec fn hex_digit(n: u8) -> char {
    if n < 10 {
        (48 + n) as char
    } else {
        (87 + n) as char
    }
}

/// Two lower-case hexadecimal digits per byte, high half first.
pub open spec fn lower_hex(bytes: Seq<u8>) -> Seq<char>
    decreases bytes.len(),
{
    if bytes.len() == 0 {
        Seq::empty()
    } else {
        lower_hex(bytes.drop_last()) + seq![hex_digit(bytes.last() / 16), hex_digit(bytes.last() % 16)]
    }
}

pub fn hex_digit_of(n: u8) -> (r: char)
    requires
        n < 16,
    ensures
        r == hex_digit(n),
{
    if n < 10 {
        (48 + n) as char
    } else {
        (87 + n) as char
    }
}

/// Appends two hexadecimal digits per byte.
pub fn append_hex(text: &mut String, bytes: &Vec<u8>)
    ensures
        final(text)@ == old(text)@ + lower_hex(bytes@),
{
    let mut i: usize = 0;
    while i < bytes.len()
        invariant
            i <= bytes@.len(),
            text@ == old(text)@ + lower_hex(bytes@.take(i as int)),
        decreases bytes@.len() - i,
    {
        let b = bytes[i];
        push_char(text, hex_digit_of(b / 16));
        push_char(text, hex_digit_of(b % 16));
        proof {
            let t = bytes@.take(i + 1);
            assert(t.drop_last() =~= bytes@.take(i as int));
            assert(t.last() == b);
            assert(text@ =~= old(text)@ + lower_hex(t));
        }
        i = i + 1;
    }
    assert(bytes@.take(bytes@.len() as int) =~= bytes@);
}

pub open spec fn is_lower_hex_digit(c: char) -> bool {
    ('0' <= c <= '9') || ('a' <= c <= 'f')
}

/// Hex text has two digits per byte, each a lower-case hexadecimal digit.
pub proof fn lemma_lower_hex_digits(bytes: Seq<u8>)
    ensures
        lower_hex(bytes).len() == 2 * bytes.len(),
        forall|i: int| 0 <= i < lower_hex(bytes).len() ==> is_lower_hex_digit(#[trigger] lower_hex(bytes)[i]),
    decreases bytes.len(),
{
    if bytes.len() > 0 {
        lemma_lower_hex_digits(bytes.drop_last());
        let b = bytes.last();
        assert(is_lower_hex_digit(hex_digit(b / 16)));
        assert(is_lower_hex_digit(hex_digit(b % 16)));
    }
}

/// The stored form of a seat token: its SHA-256 digest in lower-case hexadecimal.
pub open spec fn token_hash(token: Seq<char>) -> Seq<char> {
    lower_hex(sha256_digest(vstd::utf8::encode_utf8(token)))
}

/// Hashes a seat token for storage (SHA-256 of its UTF-8 bytes, as 64 hex digits).
pub fn hash_token(token: &str) -> (r: String)
    ensures
        r@ == token_hash(token@),
        r@.len() == 64,
{
    let digest = sha256(token.as_bytes());
    let mut text = String::new();
    append_hex(&mut text, &digest);
    proof {
        lemma_lower_hex_digits(digest@);
    }
    text
}

/// Whether a stored token hash is present and equal to `hash`.
pub open spec fn hash_matches(stored: Option<String>, hash: Seq<char>) -> bool {
    stored matches Some(s) && s@ == hash
}

fn stored_hash_equals(stored: &Option<String>, hash: &String) -> (r: bool)
    ensures
        r == hash_matches(*stored, hash@),
{
    match stored {
        Some(s) => same_text(s.as_str(), hash.as_str()),
        None => false,
    }
}

impl Room {
    /// The seat whose stored token hash matches the token, seat one first.
    pub fn seat_for_token(&self, token: &str) -> (r: Option<Seat>)
        ensures
            r == (if hash_matches(self.player_token_hashes[0], token_hash(token@)) {
                Some(Seat::One)
            } else if hash_matches(self.player_token_hashes[1], token_hash(token@)) {
                Some(Seat::Two)
            } else {
                None
            }),
    {
        let hash = hash_token(token);
        if stored_hash_equals(&self.player_token_hashes[0], &hash) {
            Some(Seat::One)
        } else if stored_hash_equals(&self.player_token_hashes[1], &hash) {
            Some(Seat::Two)
        } else {
            None
        }
    }

    pub fn has_second_player(&self) -> (r: bool)
        ensures
            r == self.player_names[1] is Some,
    {
        self.player_names[1].is_some()
    }

    /// Why claiming the second seat failed: someone holds it already, or the room
    /// changed under the request.
    pub fn join_refusal(&self) -> (r: RoomRefusal)
        ensures
            r == (if self.player_names[1] is Some {
                RoomRefusal::RoomFull
            } else {
                RoomRefusal::Conflict
            }),
    {
        if self.has_second_player() {
            RoomRefusal::RoomFull
        } else {
            RoomRefusal::Conflict
        }
    }
}

/// Why a room operation was refused.
#[derive(Debug, Clone, Copy, PartialEq, Eq, Structural)]
pub enum RoomRefusal {
    NotFound,
    RoomFull,
    Conflict,
    Rule(RuleError),
}

/// The status a new room is stored with: a friend room without its second player
/// waits, every other room is active.
pub open spec fn new_status_text(mode: RoomMode, has_player_two: bool) -> Seq<char> {
    if mode == RoomMode::Friend && !has_player_two {
        "waiting"@
    } else {
        "active"@
    }
}

pub fn new_room_status(mode: RoomMode, has_player_two: bool) -> (r: &'static str)
    ensures
        r@ == new_status_text(mode, has_player_two),
{
    if mode == RoomMode::Friend && !has_player_two {
        "waiting"
    } else {
        "active"
    }
}

/// When a room stored at `now` expires.
pub fn room_expiry(now: i64, waiting: bool) -> (r: i64)
    requires
        now <= i64::MAX - ACTIVE_ROOM_TTL_SECONDS,
    ensures
        r == now + if waiting {
            WAITING_ROOM_TTL_SECONDS
        } else {
            ACTIVE_ROOM_TTL_SECONDS
        },
{
    now + if waiting {
        WAITING_ROOM_TTL_SECONDS
    } else {
        ACTIVE_ROOM_TTL_SECONDS
    }
}

/// Presence is refreshed only when the last one is older than five seconds.
pub fn presence_cutoff(now: i64) -> (r: i64)
    requires
        now >= i64::MIN + 5,
    ensures
        r == now - 5,
{
    now - 5
}

/// The stored column that holds a seat's last presence.
pub fn seen_column(seat: Seat) -> (r: &'static str)
    ensures
        r@ == (match seat {
            Seat::One => "player_one_seen_at"@,
            Seat::Two => "player_two_seen_at"@,
        }),
{
    match seat {
        Seat::One => "player_one_seen_at",
        Seat::Two => "player_two_seen_at",
    }
}

/// What an accepted action changes in the stored room.
#[derive(Debug, Clone, Copy, PartialEq, Eq)]
pub struct RoomUpdate {
    pub revision: i64,
    pub finished: bool,
}

impl RoomUpdate {
    pub fn status(self) -> (r: &'static str)
        ensures
            r@ == (if self.finished {
                "finished"@
            } else {
                "active"@
            }),
    {
        if self.finished {
            "finished"
        } else {
            "active"
        }
    }
}

/// Applies an action to a stored match under optimistic concurrency: the action is
/// only considered when the caller saw the stored revision, and an accepted action
/// moves the revision on by one.
pub fn apply_to_room(
    state: &mut MatchState,
    stored_revision: i64,
    expected_revision: i64,
    actor: Seat,
    action: Action,
) -> (r: Result<RoomUpdate, RoomRefusal>)
    requires
        stored_revision == expected_revision ==> old(state)@.room_for(actor, action),
        stored_revision == expected_revision && old(state)@.applied(actor, action).1 is Ok ==> stored_revision
            < i64::MAX,
    ensures
        stored_revision != expected_revision ==> r == Err::<RoomUpdate, RoomRefusal>(RoomRefusal::Conflict)
            && final(state)@ == old(state)@,
        stored_revision == expected_revision ==> final(state)@ == old(state)@.applied(actor, action).0 && r == (
        match old(state)@.applied(actor, action).1 {
            Ok(_) => Ok(
                RoomUpdate {
                    revision: (stored_revision + 1) as i64,
                    finished: old(state)@.applied(actor, action).0.winner is Some,
                },
            ),
            Err(e) => Err(RoomRefusal::Rule(e)),
        }),
        r is Err ==> final(state)@ == old(state)@,
{
    if stored_revision != expected_revision {
        return Err(RoomRefusal::Conflict);
    }
    match state.apply(actor, action) {
        Ok(_) => Ok(RoomUpdate { revision: stored_revision + 1, finished: state.winner.is_some() }),
        Err(e) => Err(RoomRefusal::Rule(e)),
    }
}

#[verifier::external_type_specification]
#[verifier::external_body]
pub struct ExSystemTime(SystemTime);

#[verifier::external_type_specification]
#[verifier::external_body]
pub struct ExSystemTimeError(SystemTimeError);

/// `SystemTime::now`: the clock; nothing is stated of it.
#[verifier::external_body]
fn clock_now() -> SystemTime {
    SystemTime::now()
}

/// `SystemTime::duration_since(UNIX_EPOCH)`: fails for a clock set before 1970.
#[verifier::external_body]
fn since_unix_epoch(time: SystemTime) -> Result<std::time::Duration, SystemTimeError> {
    time.duration_since(UNIX_EPOCH)
}

/// `Duration::as_secs`: whole seconds; nothing is stated of the value.
#[verifier::external_body]
fn whole_seconds(duration: std::time::Duration) -> u64 {
    duration.as_secs()
}

/// Seconds since the Unix epoch: zero for a clock before 1970, capped at `i64::MAX`.
/// The value comes from the machine's clock, so the contract states only what holds of
/// every reading; `clamp_seconds` states the conversion exactly.
pub fn now_epoch() -> (r: i64)
    ensures
        r >= 0,
{
    let secs: u64 = match since_unix_epoch(clock_now()) {
        Ok(duration) => whole_seconds(duration),
        Err(_) => 0,
    };
    clamp_seconds(secs)
}

/// Seconds as a signed count, capped at `i64::MAX`.
pub fn clamp_seconds(secs: u64) -> (r: i64)
    ensures
        r == if secs > i64::MAX as u64 {
            i64::MAX as int
        } else {
            secs as int
        },
{
    if secs > i64::MAX as u64 {
        i64::MAX
    } else {
        secs as i64
    }
}

} // verus!
