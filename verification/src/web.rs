//! What the web front end decides about its input and its labels.
use rand::rngs::ThreadRng;
use rand::Rng;
use vstd::prelude::*;

use crate::cards::{Card, Seat};
use crate::deal::DealEndReason;
use crate::deal::same_public_part;
use crate::game::{Action, MatchModel, ScoreVisibility};
use crate::room::{is_lower_hex_digit, Room, RoomMode};
use crate::text::{chars_of, is_control, is_control_char, run_before, same_text, string_of, trim_bounds, trimmed};

verus! {

/// Longest player name kept.
pub const NAME_LIMIT: usize = 20;

/// Longest room code kept.
pub const CODE_LIMIT: usize = 8;

/// At most the first `n` characters of `s`.
pub open spec fn at_most(s: Seq<char>, n: int) -> Seq<char> {
    if s.len() <= n {
        s
    } else {
        s.take(n)
    }
}

pub open spec fn not_control() -> spec_fn(char) -> bool {
    |c: char| !is_control(c)
}

/// A player name as it is shown: trimmed, without control characters, at most
/// twenty characters, and "Player" when nothing is left.
pub open spec fn clean_name_view(input: Seq<char>) -> Seq<char> {
    let kept = at_most(trimmed(input).filter(not_control()), NAME_LIMIT as int);
    if kept.len() == 0 {
        "Player"@
    } else {
        kept
    }
}

/// A copy of `chars[from..to]`.
fn slice_chars(chars: &Vec<char>, from: usize, to: usize) -> (r: Vec<char>)
    requires
        from <= to <= chars@.len(),
    ensures
        r@ == chars@.subrange(from as int, to as int),
{
    let mut out: Vec<char> = Vec::new();
    let mut i = from;
    while i < to
        invariant
            from <= i <= to <= chars@.len(),
            out@ == chars@.subrange(from as int, i as int),
        decreases to - i,
    {
        out.push(chars[i]);
        assert(chars@.subrange(from as int, i + 1) =~= chars@.subrange(from as int, i as int).push(chars@[i as int]));
        i = i + 1;
    }
    out
}

/// The trimmed characters of `input`.
fn trimmed_chars(input: &str) -> (r: Vec<char>)
    ensures
        r@ == trimmed(input@),
{
    let chars = chars_of(input);
    let (a, b) = trim_bounds(&chars);
    slice_chars(&chars, a, b)
}

pub fn clean_name(input: &str) -> (r: String)
    ensures
        r@ == clean_name_view(input@),
{
    let t = trimmed_chars(input);
    let mut kept: Vec<char> = Vec::new();
    let mut i: usize = 0;
    while i < t.len()
        invariant
            i <= t@.len(),
            kept@ == at_most(t@.take(i as int).filter(not_control()), NAME_LIMIT as int),
        decreases t@.len() - i,
    {
        proof {
            reveal_with_fuel(Seq::filter, 1);
            assert(t@.take(i + 1).drop_last() =~= t@.take(i as int));
        }
        let c = t[i];
        if !is_control_char(c) && kept.len() < NAME_LIMIT {
            kept.push(c);
        }
        proof {
            let before = t@.take(i as int).filter(not_control());
            if !is_control(c) {
                assert(t@.take(i + 1).filter(not_control()) == before.push(c));
                if before.len() >= NAME_LIMIT {
                    assert(before.push(c).take(NAME_LIMIT as int) =~= before.take(NAME_LIMIT as int));
                }
            }
        }
        i = i + 1;
    }
    assert(t@.take(t@.len() as int) =~= t@);
    if kept.len() == 0 {
        String::from_str("Player")
    } else {
        string_of(&kept)
    }
}

pub open spec fn is_alnum(c: char) -> bool {
    ('0' <= c <= '9') || ('A' <= c <= 'Z') || ('a' <= c <= 'z')
}

pub open spec fn upper(c: char) -> char {
    if 'a' <= c <= 'z' {
        ((c as int) - 32) as char
    } else {
        c
    }
}

pub open spec fn alnum() -> spec_fn(char) -> bool {
    |c: char| is_alnum(c)
}

pub open spec fn slash() -> spec_fn(char) -> bool {
    |c: char| c == '/'
}

pub open spec fn not_slash() -> spec_fn(char) -> bool {
    |c: char| c != '/'
}

/// The characters after the last '/' of `s`, once trailing '/' are dropped.
pub open spec fn last_segment(s: Seq<char>) -> Seq<char> {
    let u = s.subrange(0, s.len() - run_before(s, s.len() as int, slash()));
    u.subrange(u.len() - run_before(u, u.len() as int, not_slash()), u.len() as int)
}

/// A room code read from a code or a link: the last path segment, letters and digits
/// only, upper-cased, at most eight characters.
pub open spec fn room_code_view(input: Seq<char>) -> Seq<char> {
    at_most(last_segment(trimmed(input)).filter(alnum()).map_values(|c: char| upper(c)), CODE_LIMIT as int)
}

fn upper_char(c: char) -> (r: char)
    ensures
        r == upper(c),
{
    if 'a' <= c && c <= 'z' {
        ((c as u8) - 32) as char
    } else {
        c
    }
}

/// Position just after the last character of `chars[..end]` that is not `stop`-like:
/// the start of the run of characters before `end` for which `is_stop == (c == '/')`.
fn run_start(chars: &Vec<char>, end: usize, slashes: bool) -> (r: usize)
    requires
        end <= chars@.len(),
    ensures
        r <= end,
        end - r == run_before(chars@, end as int, if slashes {
            slash()
        } else {
            not_slash()
        }),
{
    let ghost p = if slashes {
        slash()
    } else {
        not_slash()
    };
    let mut b = end;
    while b > 0 && ((chars[b - 1] == '/') == slashes)
        invariant
            b <= end <= chars@.len(),
            run_before(chars@, end as int, p) == (end - b) + run_before(chars@, b as int, p),
            p == if slashes {
                slash()
            } else {
                not_slash()
            },
        decreases b,
    {
        assert(p(chars@[b - 1]));
        b = b - 1;
    }
    assert(run_before(chars@, b as int, p) == 0) by {
        if b > 0 {
            assert(!p(chars@[b - 1]));
        }
    }
    b
}

pub fn room_code_from_input(input: &str) -> (r: String)
    ensures
        r@ == room_code_view(input@),
{
    let t = trimmed_chars(input);
    let e = run_start(&t, t.len(), true);
    let u = slice_chars(&t, 0, e);
    let s = run_start(&u, u.len(), false);
    let seg = slice_chars(&u, s, u.len());
    assert(seg@ == last_segment(t@));
    let ghost f = |c: char| upper(c);
    let mut code: Vec<char> = Vec::new();
    let mut i: usize = 0;
    while i < seg.len()
        invariant
            i <= seg@.len(),
            code@ == at_most(seg@.take(i as int).filter(alnum()).map_values(f), CODE_LIMIT as int),
            f == (|c: char| upper(c)),
        decreases seg@.len() - i,
    {
        proof {
            reveal_with_fuel(Seq::filter, 1);
            assert(seg@.take(i + 1).drop_last() =~= seg@.take(i as int));
        }
        let c = seg[i];
        let keep = ('0' <= c && c <= '9') || ('A' <= c && c <= 'Z') || ('a' <= c && c <= 'z');
        if keep && code.len() < CODE_LIMIT {
            code.push(upper_char(c));
        }
        proof {
            let before = seg@.take(i as int).filter(alnum());
            if is_alnum(c) {
                assert(seg@.take(i + 1).filter(alnum()) == before.push(c));
                assert(before.push(c).map_values(f) =~= before.map_values(f).push(upper(c)));
                if before.len() >= CODE_LIMIT {
                    assert(before.map_values(f).push(upper(c)).take(CODE_LIMIT as int) =~= before.map_values(f).take(
                        CODE_LIMIT as int,
                    ));
                }
            }
        }
        i = i + 1;
    }
    assert(seg@.take(seg@.len() as int) =~= seg@);
    string_of(&code)
}

/// The card-play intent a form names.
pub open spec fn intent_announces(intent: Seq<char>) -> bool {
    intent == "marriage"@ || intent == "marriage_declare"@
}

/// The action a submitted form asks for, or `None` for a form that names no action
/// or an unknown card.
pub open spec fn form_action(action: Seq<char>, card: Option<Seq<char>>, intent: Option<Seq<char>>) -> Option<Action> {
    if action == "play"@ {
        match card {
            Some(code) => match crate::cards::parse_view(code) {
                Some(c) => {
                    let i = match intent {
                        Some(x) => x,
                        None => "play"@,
                    };
                    Some(
                        Action::Play {
                            card: c,
                            announce_marriage: intent_announces(i),
                            declare: i == "marriage_declare"@,
                        },
                    )
                },
                None => None,
            },
            None => None,
        }
    } else if action == "exchange"@ {
        Some(Action::ExchangeTrump)
    } else if action == "close"@ {
        Some(Action::CloseStock)
    } else if action == "declare"@ {
        Some(Action::Declare)
    } else if action == "next"@ {
        Some(Action::NextDeal)
    } else {
        None
    }
}

pub open spec fn opt_view(text: Option<&str>) -> Option<Seq<char>> {
    match text {
        Some(t) => Some(t@),
        None => None,
    }
}

pub fn parse_action(action: &str, card: Option<&str>, intent: Option<&str>) -> (r: Option<Action>)
    ensures
        r == form_action(action@, opt_view(card), opt_view(intent)),
{
    if same_text(action, "play") {
        let code = match card {
            Some(code) => code,
            None => return None,
        };
        let card = match Card::parse(code) {
            Some(card) => card,
            None => return None,
        };
        let intent = match intent {
            Some(intent) => intent,
            None => "play",
        };
        let announce_marriage = same_text(intent, "marriage") || same_text(intent, "marriage_declare");
        let declare = same_text(intent, "marriage_declare");
        Some(Action::Play { card, announce_marriage, declare })
    } else if same_text(action, "exchange") {
        Some(Action::ExchangeTrump)
    } else if same_text(action, "close") {
        Some(Action::CloseStock)
    } else if same_text(action, "declare") {
        Some(Action::Declare)
    } else if same_text(action, "next") {
        Some(Action::NextDeal)
    } else {
        None
    }
}

/// The score display a form chooses: traditional only when asked for by name.
pub fn score_visibility_from_form(choice: &str) -> (r: ScoreVisibility)
    ensures
        r == (if choice@ == "traditional"@ {
            ScoreVisibility::Traditional
        } else {
            ScoreVisibility::Visible
        }),
{
    if same_text(choice, "traditional") {
        ScoreVisibility::Traditional
    } else {
        ScoreVisibility::Visible
    }
}

pub open spec fn end_reason_view(reason: DealEndReason) -> Seq<char> {
    match reason {
        DealEndReason::Declared => "declared 66"@,
        DealEndReason::IncorrectDeclaration => "incorrect declaration"@,
        DealEndReason::ClosedStockFailed => "failed closure"@,
        DealEndReason::LastTrick => "last trick"@,
    }
}

pub fn end_reason(reason: DealEndReason) -> (r: &'static str)
    ensures
        r@ == end_reason_view(reason),
{
    match reason {
        DealEndReason::Declared => "declared 66",
        DealEndReason::IncorrectDeclaration => "incorrect declaration",
        DealEndReason::ClosedStockFailed => "failed closure",
        DealEndReason::LastTrick => "last trick",
    }
}

pub fn score_mode_label(visibility: ScoreVisibility) -> (r: &'static str)
    ensures
        r@ == (match visibility {
            ScoreVisibility::Visible => "Visible"@,
            ScoreVisibility::Traditional => "Traditional"@,
        }),
{
    match visibility {
        ScoreVisibility::Visible => "Visible",
        ScoreVisibility::Traditional => "Traditional",
    }
}

/// What the board says of the opponent: "computer" in a game against the computer,
/// "online" for a friend seen less than 8 seconds before `now`, else "away".
pub fn presence_label(mode: RoomMode, last_seen: Option<i64>, now: i64) -> (r: &'static str)
    ensures
        r@ == (if mode == RoomMode::Computer {
            "computer"@
        } else if last_seen matches Some(seen) && now - seen < 8 {
            "online"@
        } else {
            "away"@
        }),
{
    match mode {
        RoomMode::Computer => "computer",
        RoomMode::Friend => match last_seen {
            Some(seen) => if (now as i128) - (seen as i128) < 8 {
                "online"
            } else {
                "away"
            },
            None => "away",
        },
    }
}

/// The status line of the board as `viewer` sees it.
pub open spec fn board_status_view(room: Room, viewer: Seat) -> Seq<char> {
    let state = room.state@;
    if state.winner is Some {
        if state.winner->0 == viewer {
            "Match won"@
        } else {
            "Match complete"@
        }
    } else if state.deal.result is Some {
        "Deal complete"@
    } else if state.deal.active() == viewer {
        "Your turn"@
    } else if room.mode == RoomMode::Computer {
        "Computer is thinking…"@
    } else {
        "Waiting for "@ + match room.player_names[state.deal.active().idx()] {
            Some(name) => name@,
            None => "opponent"@,
        }
    }
}

pub fn board_status(room: &Room, viewer: Seat) -> (r: String)
    ensures
        r@ == board_status_view(*room, viewer),
{
    let state = &room.state;
    if let Some(winner) = state.winner {
        return if winner == viewer {
            String::from_str("Match won")
        } else {
            String::from_str("Match complete")
        };
    }
    if state.deal.result.is_some() {
        return String::from_str("Deal complete");
    }
    let active = state.deal.active_player();
    if active == viewer {
        String::from_str("Your turn")
    } else if room.mode == RoomMode::Computer {
        String::from_str("Computer is thinking…")
    } else {
        let mut text = String::from_str("Waiting for ");
        match &room.player_names[active.index()] {
            Some(name) => text.append(name.as_str()),
            None => text.append("opponent"),
        }
        text
    }
}

#[verifier::external_type_specification]
#[verifier::external_body]
pub struct ExThreadRng(ThreadRng);

/// `rand::rng()`: the thread's random generator; nothing is stated of it.
#[verifier::external_body]
fn thread_rng() -> ThreadRng {
    rand::rng()
}

/// `Rng::random_range(0..bound)`. Trusted: the result lies in the range; which value
/// comes is chance.
#[verifier::external_body]
fn random_below(rng: &mut ThreadRng, bound: usize) -> (r: usize)
    requires
        bound > 0,
    ensures
        r < bound,
{
    rng.random_range(0..bound)
}

/// `Rng::random::<u8>()`: any byte; nothing is stated of it.
#[verifier::external_body]
fn random_byte(rng: &mut ThreadRng) -> u8 {
    rng.random::<u8>()
}

/// The characters room codes are made of: no 0, 1, I, L or O to misread.
pub open spec fn room_alphabet() -> Seq<char> {
    "23456789ABCDEFGHJKMNPQRSTUVWXYZ"@
}

/// The room code spelled by eight draws: each draw picks the character at that
/// position of the room alphabet.
pub fn room_id_from_draws(draws: &Vec<usize>) -> (r: String)
    requires
        draws@.len() == 8,
        forall|i: int| 0 <= i < 8 ==> draws@[i] < 31,
    ensures
        r@.len() == 8,
        forall|i: int| 0 <= i < 8 ==> #[trigger] r@[i] == room_alphabet()[draws@[i] as int],
{
    let alphabet = "23456789ABCDEFGHJKMNPQRSTUVWXYZ";
    proof {
        reveal_strlit("23456789ABCDEFGHJKMNPQRSTUVWXYZ");
    }
    let letters = chars_of(alphabet);
    let mut id: Vec<char> = Vec::new();
    let mut i: usize = 0;
    while i < 8
        invariant
            i <= 8,
            id@.len() == i,
            draws@.len() == 8,
            forall|j: int| 0 <= j < 8 ==> draws@[j] < 31,
            letters@ == room_alphabet(),
            letters@.len() == 31,
            forall|j: int| 0 <= j < i ==> #[trigger] id@[j] == room_alphabet()[draws@[j] as int],
        decreases 8 - i,
    {
        id.push(letters[draws[i]]);
        i = i + 1;
    }
    string_of(&id)
}

/// A fresh random room code: eight characters of the room alphabet, each drawn
/// uniformly by the thread's generator and spelled by `room_id_from_draws`.
pub fn random_room_id() -> (r: String)
    ensures
        r@.len() == 8,
        forall|i: int| 0 <= i < 8 ==> room_alphabet().contains(#[trigger] r@[i]),
{
    let mut rng = thread_rng();
    let mut draws: Vec<usize> = Vec::new();
    let mut i: usize = 0;
    while i < 8
        invariant
            i <= 8,
            draws@.len() == i,
            forall|j: int| 0 <= j < i ==> draws@[j] < 31,
        decreases 8 - i,
    {
        draws.push(random_below(&mut rng, 31));
        i = i + 1;
    }
    let id = room_id_from_draws(&draws);
    proof {
        reveal_strlit("23456789ABCDEFGHJKMNPQRSTUVWXYZ");
        assert forall|i: int| 0 <= i < 8 implies room_alphabet().contains(#[trigger] id@[i]) by {
            assert(id@[i] == room_alphabet()[draws@[i] as int]);
        }
    }
    id
}

/// A fresh random seat token: 32 random bytes as 64 lower-case hexadecimal digits.
pub fn random_token() -> (r: String)
    ensures
        r@.len() == 64,
        forall|i: int| 0 <= i < 64 ==> is_lower_hex_digit(#[trigger] r@[i]),
{
    let mut rng = thread_rng();
    let mut bytes: Vec<u8> = Vec::new();
    let mut i: usize = 0;
    while i < 32
        invariant
            i <= 32,
            bytes@.len() == i,
        decreases 32 - i,
    {
        bytes.push(random_byte(&mut rng));
        i = i + 1;
    }
    let mut token = String::new();
    crate::room::append_hex(&mut token, &bytes);
    proof {
        crate::room::lemma_lower_hex_digits(bytes@);
    }
    token
}

/// Where a redirect after the join form goes: the room's page, or home for no code.
pub fn join_redirect(input: &str) -> (r: String)
    ensures
        r@ == (if room_code_view(input@).len() == 0 {
            "/"@
        } else {
            "/games/"@ + room_code_view(input@)
        }),
{
    let code = room_code_from_input(input);
    if code.as_str().unicode_len() == 0 {
        String::from_str("/")
    } else {
        let mut target = String::from_str("/games/");
        target.append(code.as_str());
        target
    }
}

/// What a visitor of a room's page is shown.
#[derive(Debug, Clone, Copy, PartialEq, Eq, Structural)]
pub enum RoomPage {
    /// The board, seen from the visitor's seat.
    Board(Seat),
    /// The form that claims the free seat of a friend room.
    Join,
    /// A notice that the table is full.
    Unavailable,
}

pub fn room_page(room: &Room, seat: Option<Seat>) -> (r: RoomPage)
    ensures
        r == (match seat {
            Some(s) => RoomPage::Board(s),
            None => if room.mode == RoomMode::Friend && room.player_names[1] is None {
                RoomPage::Join
            } else {
                RoomPage::Unavailable
            },
        }),
{
    match seat {
        Some(s) => RoomPage::Board(s),
        None => if room.mode == RoomMode::Friend && !room.has_second_player() {
            RoomPage::Join
        } else {
            RoomPage::Unavailable
        },
    }
}

/// Whether the computer should move now, on a request by `visitor`: only in a
/// computer room, only for the human in seat one, and only on the computer's turn in
/// a running deal.
pub fn bot_should_move(room: &Room, visitor: Option<Seat>) -> (r: bool)
    ensures
        r == (room.mode == RoomMode::Computer && visitor == Some(Seat::One) && room.state@.deal.result is None
            && room.state@.deal.active() == Seat::Two),
{
    room.mode == RoomMode::Computer && visitor == Some(Seat::One) && room.state.deal.result.is_none()
        && room.state.deal.active_player() == Seat::Two
}

/// What the board offers its viewer.
#[derive(Debug, Clone, Copy, PartialEq, Eq, Structural)]
pub struct BoardFlags {
    /// It is the viewer's turn in a running deal.
    pub viewer_turn: bool,
    /// A friend room still waits for its second player.
    pub waiting_for_friend: bool,
    /// The computer is to move.
    pub bot_turn: bool,
    /// The page should poll for the other player's moves.
    pub poll: bool,
    /// Card points are shown.
    pub show_scores: bool,
    /// The viewer may declare 66 now.
    pub can_declare: bool,
}

impl BoardFlags {
    pub open spec fn of(room: Room, viewer: Seat) -> BoardFlags {
        let deal = room.state@.deal;
        let traditional = room.state.settings.score_visibility == ScoreVisibility::Traditional;
        let viewer_turn = deal.result is None && deal.active() == viewer;
        let waiting = room.mode == RoomMode::Friend && room.player_names[1] is None;
        BoardFlags {
            viewer_turn,
            waiting_for_friend: waiting,
            bot_turn: room.mode == RoomMode::Computer && deal.result is None && deal.active() == Seat::Two,
            poll: waiting || (room.mode == RoomMode::Friend && !viewer_turn),
            show_scores: !traditional || deal.result is Some,
            can_declare: viewer_turn && deal.trick.len() == 0 && (traditional || deal.card_points[viewer.idx()]
                >= 66),
        }
    }
}

pub fn board_flags(room: &Room, viewer: Seat) -> (r: BoardFlags)
    ensures
        r == BoardFlags::of(*room, viewer),
{
    let deal = &room.state.deal;
    let traditional = room.state.settings.score_visibility == ScoreVisibility::Traditional;
    let viewer_turn = deal.result.is_none() && deal.active_player() == viewer;
    let waiting = room.mode == RoomMode::Friend && !room.has_second_player();
    BoardFlags {
        viewer_turn,
        waiting_for_friend: waiting,
        bot_turn: room.mode == RoomMode::Computer && deal.result.is_none() && deal.active_player() == Seat::Two,
        poll: waiting || (room.mode == RoomMode::Friend && !viewer_turn),
        show_scores: !traditional || deal.result.is_some(),
        can_declare: viewer_turn && deal.trick.len() == 0 && (traditional || deal.card_points[viewer.index()] >= 66),
    }
}

/// What the board offers for one card of the viewer's hand.
#[derive(Debug, Clone, Copy, PartialEq, Eq, Structural)]
pub struct CardOffer {
    /// The card may be played now.
    pub playable: bool,
    /// A marriage may be announced with it.
    pub marriage: bool,
    /// The marriage, with a declaration of 66, is offered in one move.
    pub marriage_declare: bool,
    /// The marriage's value, or 0.
    pub marriage_value: u16,
}

impl CardOffer {
    pub open spec fn of(room: Room, viewer: Seat, card: Card) -> CardOffer {
        let deal = room.state@.deal;
        let traditional = room.state.settings.score_visibility == ScoreVisibility::Traditional;
        let marriage = deal.may_announce(viewer, card);
        let value = match deal.marriage_of(card) {
            Some(v) => v,
            None => 0u16,
        };
        CardOffer {
            playable: deal.result is None && deal.active() == viewer && deal.legal(viewer).contains(card),
            marriage,
            marriage_declare: marriage && (traditional || (deal.tricks_won[viewer.idx()] > 0
                && deal.card_points[viewer.idx()] + value >= 66)),
            marriage_value: value,
        }
    }
}

pub fn card_offer(room: &Room, viewer: Seat, card: Card) -> (r: CardOffer)
    ensures
        r == CardOffer::of(*room, viewer, card),
{
    let deal = &room.state.deal;
    let traditional = room.state.settings.score_visibility == ScoreVisibility::Traditional;
    let viewer_turn = deal.result.is_none() && deal.active_player() == viewer;
    let playable = viewer_turn && crate::deal::holds(&deal.legal_cards(viewer), card);
    let marriage = deal.can_announce_marriage(viewer, card);
    let value: u16 = match deal.marriage_value(card) {
        Some(v) => v,
        None => 0,
    };
    let points = deal.card_points[viewer.index()] as u32 + value as u32;
    CardOffer {
        playable,
        marriage,
        marriage_declare: marriage && (traditional || (deal.tricks_won[viewer.index()] > 0 && points >= 66)),
        marriage_value: value,
    }
}

/// The board shows its viewer nothing of the opponent's hand or of the talon's cards
/// and order: for two rooms that differ only there, the status line, the board's flags
/// and what it offers for every card are the same.
pub proof fn lemma_board_hides_secrets(r1: Room, r2: Room, viewer: Seat)
    requires
        r1.mode == r2.mode,
        r1.player_names == r2.player_names,
        r2.state@ == (MatchModel { deal: r2.state@.deal, ..r1.state@ }),
        same_public_part(r1.state@.deal, r2.state@.deal, viewer),
    ensures
        board_status_view(r1, viewer) == board_status_view(r2, viewer),
        BoardFlags::of(r1, viewer) == BoardFlags::of(r2, viewer),
        forall|card: Card| CardOffer::of(r1, viewer, card) == #[trigger] CardOffer::of(r2, viewer, card),
{
    let d1 = r1.state@.deal;
    let d2 = r2.state@.deal;
    assert(d1.active() == d2.active());
    assert(d1.legal(viewer) == d2.legal(viewer));
    assert forall|card: Card| CardOffer::of(r1, viewer, card) == #[trigger] CardOffer::of(r2, viewer, card) by {
        assert(d1.may_announce(viewer, card) == d2.may_announce(viewer, card));
    }
}

/// Position of a card in the order a hand is shown: by suit, then by strength.
pub open spec fn display_rank(card: Card) -> int {
    card.suit.ord() * 6 + card.rank.ord()
}

/// The cards in the order the hand is shown: by suit, then by strength.
pub fn display_order(hand: &Vec<Card>) -> (r: Vec<Card>)
    ensures
        r@.to_multiset() == hand@.to_multiset(),
        forall|i: int, j: int| 0 <= i < j < r@.len() ==> display_rank(r@[i]) <= display_rank(r@[j]),
{
    let mut sorted: Vec<Card> = Vec::new();
    let mut k: usize = 0;
    assert(hand@.take(0) =~= sorted@);
    while k < hand.len()
        invariant
            k <= hand@.len(),
            sorted@.to_multiset() == hand@.take(k as int).to_multiset(),
            forall|i: int, j: int| 0 <= i < j < sorted@.len() ==> display_rank(sorted@[i]) <= display_rank(sorted@[j]),
        decreases hand@.len() - k,
    {
        let card = hand[k];
        let mut pos: usize = sorted.len();
        while pos > 0 && display_key(sorted[pos - 1]) > display_key(card)
            invariant
                pos <= sorted@.len(),
                forall|j: int| pos <= j < sorted@.len() ==> display_rank(sorted@[j]) > display_rank(card),
            decreases pos,
        {
            pos = pos - 1;
        }
        proof {
            vstd::seq_lib::to_multiset_insert(sorted@, pos as int, card);
            vstd::seq_lib::to_multiset_build(hand@.take(k as int), card);
            assert(hand@.take(k + 1) =~= hand@.take(k as int).push(card));
        }
        let ghost before = sorted@;
        sorted.insert(pos, card);
        assert(sorted@ == before.insert(pos as int, card));
        assert forall|i: int, j: int| 0 <= i < j < sorted@.len() implies display_rank(sorted@[i]) <= display_rank(
            sorted@[j],
        ) by {
            if pos > 0 && i < pos as int && j == pos as int {
                assert(display_rank(before[pos - 1]) <= display_rank(card)) by {
                    assert(!(display_rank(before[pos - 1]) > display_rank(card)));
                }
                assert(display_rank(before[i]) <= display_rank(before[pos - 1]));
            }
        }
        k = k + 1;
    }
    assert(hand@.take(hand@.len() as int) =~= hand@);
    sorted
}

fn display_key(card: Card) -> (r: u8)
    ensures
        r == display_rank(card),
{
    let suit: u8 = match card.suit {
        crate::cards::Suit::Clubs => 0,
        crate::cards::Suit::Diamonds => 1,
        crate::cards::Suit::Hearts => 2,
        crate::cards::Suit::Spades => 3,
    };
    suit * 6 + card.rank.strength()
}

} // verus!
