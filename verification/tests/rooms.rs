use sixty_six::cards::{Card, Rank, Seat, Suit};
use sixty_six::deal::DealEndReason;
use sixty_six::game::{Action, MatchState, RuleError, ScoreVisibility};
use sixty_six::room::{
    apply_to_room, clamp_seconds, hash_token, new_room_status, now_epoch, presence_cutoff, room_expiry,
    seen_column, Room, RoomMode, RoomRefusal, ACTIVE_ROOM_TTL_SECONDS, WAITING_ROOM_TTL_SECONDS,
};
use sixty_six::web::{
    board_flags, board_status, bot_should_move, card_offer, clean_name, display_order, end_reason,
    join_redirect, parse_action, presence_label, random_room_id, random_token, room_code_from_input,
    room_id_from_draws, room_page,
    score_mode_label, score_visibility_from_form, RoomPage,
};

#[test]
fn cleans_names_and_defaults_empty_values() {
    assert_eq!(clean_name("  Ada\n"), "Ada");
    assert_eq!(clean_name(" \t "), "Player");
    assert_eq!(clean_name(&"x".repeat(30)).chars().count(), 20);
}

#[test]
fn extracts_room_codes_from_links() {
    assert_eq!(
        room_code_from_input("https://sixty-six.example/games/a2bc-99z/"),
        "A2BC99Z"
    );
    assert_eq!(room_code_from_input(" abc123 "), "ABC123");
}

#[test]
fn random_identifiers_have_expected_shape() {
    let room = random_room_id();
    let token = random_token();
    assert_eq!(room.len(), 8);
    assert_eq!(token.len(), 64);
    assert!(
        room.chars()
            .all(|character| character.is_ascii_alphanumeric())
    );
    assert!(token.chars().all(|character| character.is_ascii_hexdigit()));
}

#[test]
fn names_lose_control_characters_and_unicode_space() {
    assert_eq!(clean_name("\u{3000}Zo\u{7}ë\u{2003}"), "Zoë");
    assert_eq!(clean_name("\u{1}\u{2}"), "Player");
    assert_eq!(room_code_from_input("///"), "");
    assert_eq!(room_code_from_input("xyz/abcdefghijkl"), "ABCDEFGH");
}

#[test]
fn token_hash_is_lower_hex_sha256() {
    assert_eq!(
        hash_token("abc"),
        "ba7816bf8f01cfea414140de5dae2223b00361a396177a9cb410ff61f20015ad"
    );
}

fn room(mode: RoomMode) -> Room {
    Room {
        id: "ABC123".to_owned(),
        mode,
        status: "active".to_owned(),
        revision: 0,
        state: MatchState::new(7, ScoreVisibility::Visible),
        player_names: [Some("Ada".to_owned()), None],
        player_token_hashes: [Some(hash_token("secret")), None],
        last_seen_at: [Some(0), None],
        updated_at: 0,
    }
}

#[test]
fn seats_are_found_by_token_hash() {
    let mut room = room(RoomMode::Friend);
    assert_eq!(room.seat_for_token("secret"), Some(Seat::One));
    assert_eq!(room.seat_for_token("other"), None);
    assert!(!room.has_second_player());
    assert_eq!(room.join_refusal(), RoomRefusal::Conflict);
    room.player_names[1] = Some("Bo".to_owned());
    room.player_token_hashes[1] = Some(hash_token("other"));
    assert_eq!(room.seat_for_token("other"), Some(Seat::Two));
    assert!(room.has_second_player());
    assert_eq!(room.join_refusal(), RoomRefusal::RoomFull);
}

#[test]
fn stale_revisions_are_refused_and_fresh_ones_advance() {
    let mut state = MatchState::new(7, ScoreVisibility::Visible);
    let before = state.clone();
    let actor = state.deal.active_player();
    let card = state.deal.hands[actor.index()][0];
    let play = Action::Play {
        card,
        announce_marriage: false,
        declare: false,
    };
    assert_eq!(apply_to_room(&mut state, 1, 0, actor, play), Err(RoomRefusal::Conflict));
    assert_eq!(state, before);
    let update = apply_to_room(&mut state, 0, 0, actor, play).unwrap();
    assert_eq!(update.revision, 1);
    assert!(!update.finished);
    assert_eq!(update.status(), "active");
    assert_eq!(state.deal.played_cards, vec![card]);
    assert_eq!(
        apply_to_room(&mut state, 1, 1, actor, Action::Declare),
        Err(RoomRefusal::Rule(RuleError::ActionUnavailable))
    );
}

#[test]
fn new_rooms_wait_only_for_a_missing_friend() {
    assert_eq!(new_room_status(RoomMode::Friend, false), "waiting");
    assert_eq!(new_room_status(RoomMode::Friend, true), "active");
    assert_eq!(new_room_status(RoomMode::Computer, true), "active");
    assert_eq!(room_expiry(100, true), 100 + WAITING_ROOM_TTL_SECONDS);
    assert_eq!(room_expiry(100, false), 100 + 604_800);
    assert_eq!(ACTIVE_ROOM_TTL_SECONDS, 604_800);
    assert_eq!(seen_column(Seat::Two), "player_two_seen_at");
    assert_eq!(RoomMode::from_stored("friend"), Some(RoomMode::Friend));
    assert_eq!(RoomMode::from_stored("computer"), Some(RoomMode::Computer));
    assert_eq!(RoomMode::from_stored("other"), None);
    assert_eq!(RoomMode::Computer.as_str(), "computer");
    assert!(now_epoch() > 1_600_000_000);
}

#[test]
fn forms_name_actions() {
    let ace = Card::new(Suit::Spades, Rank::Ace);
    assert_eq!(
        parse_action("play", Some("AS"), None),
        Some(Action::Play {
            card: ace,
            announce_marriage: false,
            declare: false,
        })
    );
    assert_eq!(
        parse_action("play", Some("AS"), Some("marriage_declare")),
        Some(Action::Play {
            card: ace,
            announce_marriage: true,
            declare: true,
        })
    );
    assert_eq!(
        parse_action("play", Some("AS"), Some("marriage")),
        Some(Action::Play {
            card: ace,
            announce_marriage: true,
            declare: false,
        })
    );
    assert_eq!(parse_action("play", Some("XS"), None), None);
    assert_eq!(parse_action("play", None, None), None);
    assert_eq!(parse_action("exchange", None, None), Some(Action::ExchangeTrump));
    assert_eq!(parse_action("close", None, None), Some(Action::CloseStock));
    assert_eq!(parse_action("declare", None, None), Some(Action::Declare));
    assert_eq!(parse_action("next", None, None), Some(Action::NextDeal));
    assert_eq!(parse_action("dance", None, None), None);
    assert_eq!(score_visibility_from_form("traditional"), ScoreVisibility::Traditional);
    assert_eq!(score_visibility_from_form("visible"), ScoreVisibility::Visible);
}

#[test]
fn labels_read_as_shown() {
    assert_eq!(end_reason(DealEndReason::ClosedStockFailed), "failed closure");
    assert_eq!(end_reason(DealEndReason::Declared), "declared 66");
    assert_eq!(score_mode_label(ScoreVisibility::Traditional), "Traditional");
    let friend = room(RoomMode::Friend);
    let active = friend.state.deal.active_player();
    assert_eq!(board_status(&friend, active), "Your turn");
    assert_eq!(board_status(&friend, active.other()), if active == Seat::One {
        "Waiting for Ada".to_owned()
    } else {
        "Waiting for opponent".to_owned()
    });
    let computer = room(RoomMode::Computer);
    assert_eq!(board_status(&computer, active.other()), "Computer is thinking…");
}

#[test]
fn cards_have_codes_and_names() {
    let ten = Card::new(Suit::Hearts, Rank::Ten);
    assert_eq!(ten.code(), "10♥");
    assert_eq!(ten.accessible_name(), "ten of hearts");
    assert_eq!(ten.ascii_code(), "TH");
    assert_eq!(Card::parse(ten.ascii_code()), Some(ten));
    assert_eq!(Card::parse("10H"), None);
    assert!(Suit::Hearts.is_red());
    assert!(!Suit::Clubs.is_red());
    assert_eq!(Suit::Spades.symbol(), '♠');
    assert_eq!(Rank::King.marriage_partner(), Some(Rank::Queen));
    assert_eq!(Rank::Ace.marriage_partner(), None);
    assert_eq!(Rank::Ten.strength(), 4);
    assert_eq!(Seat::Two.as_str(), "two");
    assert_eq!(RuleError::IllegalCard.message(), "that card is not legal now");
}

#[test]
fn pages_and_board_offers_follow_the_room() {
    let friend = room(RoomMode::Friend);
    assert_eq!(room_page(&friend, Some(Seat::One)), RoomPage::Board(Seat::One));
    assert_eq!(room_page(&friend, None), RoomPage::Join);
    let computer = room(RoomMode::Computer);
    assert_eq!(room_page(&computer, None), RoomPage::Unavailable);
    assert_eq!(join_redirect(" https://x.example/games/ab1/ "), "/games/AB1");
    assert_eq!(join_redirect("  "), "/");

    let active = computer.state.deal.active_player();
    assert_eq!(bot_should_move(&computer, Some(Seat::One)), active == Seat::Two);
    assert!(!bot_should_move(&computer, Some(Seat::Two)));
    assert!(!bot_should_move(&friend, Some(Seat::One)));

    let flags = board_flags(&friend, active);
    assert!(flags.viewer_turn);
    assert!(flags.waiting_for_friend);
    assert!(flags.poll);
    assert!(flags.show_scores);
    assert!(!flags.can_declare);
    assert!(!flags.bot_turn);

    let hand = friend.state.deal.hands[active.index()].clone();
    let offer = card_offer(&friend, active, hand[0]);
    assert!(offer.playable);
    let other = friend.state.deal.hands[active.other().index()][0];
    assert!(!card_offer(&friend, active.other(), other).playable);

    let shown = display_order(&vec![
        Card::new(Suit::Spades, Rank::Nine),
        Card::new(Suit::Clubs, Rank::Ace),
        Card::new(Suit::Clubs, Rank::Ten),
        Card::new(Suit::Hearts, Rank::King),
    ]);
    assert_eq!(
        shown,
        vec![
            Card::new(Suit::Clubs, Rank::Ten),
            Card::new(Suit::Clubs, Rank::Ace),
            Card::new(Suit::Hearts, Rank::King),
            Card::new(Suit::Spades, Rank::Nine),
        ]
    );
}

#[test]
fn clock_values_are_clamped_and_presence_lags_five_seconds() {
    assert_eq!(clamp_seconds(5), 5);
    assert_eq!(clamp_seconds(u64::MAX), i64::MAX);
    assert_eq!(presence_cutoff(100), 95);
}

#[test]
fn room_codes_spell_their_draws() {
    assert_eq!(room_id_from_draws(&vec![0, 1, 2, 3, 4, 5, 6, 30]), "2345678Z");
    assert_eq!(room_id_from_draws(&vec![7, 8, 15, 16, 20, 21, 22, 29]), "9AHJPQRY");
}

#[test]
fn presence_label_tells_computer_online_and_away() {
    assert_eq!(presence_label(RoomMode::Computer, None, 100), "computer");
    assert_eq!(presence_label(RoomMode::Friend, Some(95), 100), "online");
    assert_eq!(presence_label(RoomMode::Friend, Some(92), 100), "away");
    assert_eq!(presence_label(RoomMode::Friend, None, 100), "away");
    assert_eq!(presence_label(RoomMode::Friend, Some(i64::MIN), i64::MAX), "away");
}
