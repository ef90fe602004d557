use sixty_six::bot::{choose_action, has_choice, Observation};
use sixty_six::cards::{Card, Seat, Suit};
use sixty_six::deal::PlayedCard;
use sixty_six::game::{Action, MatchState, ScoreVisibility};

fn card(code: &str) -> Card {
    Card::parse(code).expect("valid test card")
}

#[test]
fn observation_does_not_contain_hidden_cards() {
    let state = MatchState::new(123, ScoreVisibility::Visible);
    let observation = Observation::for_player(&state, Seat::Two);
    assert_eq!(observation.hand, state.deal.hands[1]);
    assert!(
        !observation
            .hand
            .iter()
            .any(|card| state.deal.hands[0].contains(card))
    );
    assert!(observation.played_cards.is_empty());
    assert!(observation.public_known_opponent_cards.is_empty());
}

#[test]
fn bot_always_chooses_a_legal_initial_play() {
    for seed in 0..100 {
        let state = MatchState::new(seed, ScoreVisibility::Visible);
        let seat = state.deal.leader;
        let observation = Observation::for_player(&state, seat);
        let action = choose_action(&observation, seed);
        match action {
            Action::Play { card, .. } => assert!(state.deal.legal_cards(seat).contains(&card)),
            Action::ExchangeTrump | Action::CloseStock | Action::Declare | Action::NextDeal => {
                panic!("unexpected initial bot action: {action:?}")
            }
        }
    }
}

fn observation(hand: &[&str]) -> Observation {
    let state = MatchState::new(1, ScoreVisibility::Visible);
    let mut observation = Observation::for_player(&state, Seat::Two);
    observation.hand = hand.iter().map(|code| card(code)).collect();
    observation.trump = Suit::Hearts;
    observation.face_up_trump = Some(card("9H"));
    observation.stock_count = 6;
    observation.closed_by = None;
    observation.leader = Seat::Two;
    observation.trick = Vec::new();
    observation.card_points = [0, 0];
    observation.tricks_won = [0, 0];
    observation
}

#[test]
fn computer_declares_with_sixty_six() {
    let mut observation = observation(&["9C"]);
    observation.card_points = [0, 66];
    assert_eq!(choose_action(&observation, 7), Action::Declare);
}

#[test]
fn computer_exchanges_and_closes_when_it_pays() {
    let mut observation = observation(&["9H", "JC"]);
    observation.tricks_won = [0, 1];
    assert_eq!(choose_action(&observation, 7), Action::ExchangeTrump);

    let mut observation = observation_for_close();
    observation.card_points = [0, 60];
    assert_eq!(choose_action(&observation, 7), Action::CloseStock);
}

fn observation_for_close() -> Observation {
    observation(&["JC", "QC"])
}

#[test]
fn computer_leads_its_best_marriage_with_the_queen() {
    let observation = observation(&["KH", "QH", "KS", "QS", "AC"]);
    for entropy in 0..20 {
        assert_eq!(
            choose_action(&observation, entropy),
            Action::Play {
                card: card("QH"),
                announce_marriage: true,
                declare: false,
            }
        );
    }
}

#[test]
fn computer_leads_its_cheapest_card_in_open_play() {
    let observation = observation(&["AC", "9H", "JD", "TS"]);
    for entropy in 0..20 {
        assert_eq!(
            choose_action(&observation, entropy),
            Action::Play {
                card: card("JD"),
                announce_marriage: false,
                declare: false,
            }
        );
    }
}

#[test]
fn computer_takes_a_valuable_lead_cheaply_and_discards_otherwise() {
    let mut observation = observation(&["AS", "TS", "9C", "JH"]);
    observation.leader = Seat::One;
    observation.trick = vec![(Seat::One, card("KS"))];
    for entropy in 0..20 {
        assert_eq!(
            choose_action(&observation, entropy),
            Action::Play {
                card: card("TS"),
                announce_marriage: false,
                declare: false,
            }
        );
    }
    observation.trick = vec![(Seat::One, card("9S"))];
    for entropy in 0..20 {
        assert_eq!(
            choose_action(&observation, entropy),
            Action::Play {
                card: card("9C"),
                announce_marriage: false,
                declare: false,
            }
        );
    }
}

#[test]
fn computer_legal_cards_follow_the_rules() {
    let mut observation = observation(&["9C", "AC", "AH"]);
    observation.closed_by = Some(Seat::One);
    observation.leader = Seat::One;
    observation.trick = vec![(Seat::One, card("QC"))];
    assert!(observation.is_strict());
    assert!(!observation.is_leading());
    assert_eq!(observation.legal_cards(), vec![card("AC")]);
    assert!(!observation.can_announce(card("QC")));

    let state = MatchState::new(3, ScoreVisibility::Visible);
    let seat = state.deal.leader;
    let observed = Observation::for_player(&state, seat);
    assert_eq!(observed.legal_cards(), state.deal.legal_cards(seat));
    assert_eq!(observed.stock_count, 12);
    let _ = PlayedCard {
        seat,
        card: card("9C"),
        marriage: None,
    };
}

#[test]
fn computer_can_always_choose_at_the_start_of_a_deal() {
    for seed in 0..20 {
        let state = MatchState::new(seed, ScoreVisibility::Visible);
        let seat = state.deal.active_player();
        assert!(has_choice(&Observation::for_player(&state, seat)));
    }
    let mut empty = observation(&[]);
    empty.trick = vec![(Seat::One, card("9C"))];
    empty.leader = Seat::One;
    assert!(!has_choice(&empty));
}

#[test]
fn the_same_entropy_gives_the_same_action() {
    for seed in 0..50 {
        let state = MatchState::new(seed, ScoreVisibility::Visible);
        let seat = state.deal.leader;
        let observation = Observation::for_player(&state, seat);
        let first = choose_action(&observation, seed * 7 + 1);
        let second = choose_action(&observation, seed * 7 + 1);
        assert_eq!(first, second);
    }
}

#[test]
fn computer_matches_end_within_the_progress_bound() {
    for seed in 0..20u64 {
        let mut state = MatchState::new(seed, ScoreVisibility::Visible);
        let mut accepted: u64 = 0;
        while state.winner.is_none() {
            let (seat, action) = if state.deal.result.is_some() {
                (state.deal.leader, Action::NextDeal)
            } else {
                let seat = state.deal.active_player();
                let observation = Observation::for_player(&state, seat);
                assert!(has_choice(&observation));
                (seat, choose_action(&observation, seed + accepted))
            };
            state.apply(seat, action).unwrap();
            accepted += 1;
            assert!(accepted <= 419);
        }
    }
}
