use std::collections::VecDeque;

use sixty_six::cards::{card_beats, full_deck, Card, Rank, Seat, Suit, MATCH_TARGET};
use sixty_six::deal::{DealEndReason, DealResult, DealState, PlayedCard};
use sixty_six::game::{game_points_for, Action, MatchState, RuleError, ScoreVisibility, Transition};

fn card(code: &str) -> Card {
    Card::parse(code).expect("valid test card")
}

#[test]
fn deck_has_24_unique_cards_and_120_points() {
    let deck = full_deck();
    let mut unique = deck.clone();
    unique.sort_by_key(|card| (card.suit, card.rank));
    unique.dedup();
    assert_eq!(deck.len(), 24);
    assert_eq!(unique.len(), 24);
    assert_eq!(deck.iter().map(|card| card.rank.points()).sum::<u16>(), 120);
}

#[test]
fn deal_has_six_cards_per_player_and_twelve_in_stock() {
    let state = MatchState::new(42, ScoreVisibility::Visible);
    assert_eq!(state.deal.hands[0].len(), 6);
    assert_eq!(state.deal.hands[1].len(), 6);
    assert_eq!(state.deal.stock_count(), 12);
    assert_eq!(state.deal.leader, state.dealer.other());
}

#[test]
fn ten_is_second_only_to_ace() {
    assert!(card_beats(card("TC"), card("KC"), Suit::Hearts));
    assert!(card_beats(card("AC"), card("TC"), Suit::Hearts));
    assert!(!card_beats(card("KC"), card("TC"), Suit::Hearts));
}

#[test]
fn trump_beats_an_off_suit_card() {
    assert!(card_beats(card("9H"), card("AS"), Suit::Hearts));
    assert!(!card_beats(card("AS"), card("9H"), Suit::Hearts));
}

#[test]
fn open_stock_allows_any_following_card() {
    let mut state = MatchState::new(9, ScoreVisibility::Visible);
    let leader = state.deal.leader;
    let lead = state.deal.hands[leader.index()][0];
    state
        .apply(
            leader,
            Action::Play {
                card: lead,
                announce_marriage: false,
                declare: false,
            },
        )
        .unwrap();
    assert_eq!(state.deal.legal_cards(leader.other()).len(), 6);
}

#[test]
fn strict_play_requires_heading_the_led_suit_when_possible() {
    let mut state = MatchState::new(1, ScoreVisibility::Visible);
    state.deal.closed_by = Some(Seat::One);
    state.deal.leader = Seat::One;
    state.deal.hands = [vec![card("QC")], vec![card("9C"), card("AC"), card("AH")]];
    state.deal.trick = vec![PlayedCard {
        seat: Seat::One,
        card: card("QC"),
        marriage: None,
    }];
    assert_eq!(state.deal.legal_cards(Seat::Two), vec![card("AC")]);
}

#[test]
fn strict_play_requires_trump_when_void() {
    let mut state = MatchState::new(1, ScoreVisibility::Visible);
    state.deal.closed_by = Some(Seat::One);
    state.deal.trump = Suit::Hearts;
    state.deal.leader = Seat::One;
    state.deal.hands[1] = vec![card("9H"), card("AS")];
    state.deal.trick = vec![PlayedCard {
        seat: Seat::One,
        card: card("QC"),
        marriage: None,
    }];
    assert_eq!(state.deal.legal_cards(Seat::Two), vec![card("9H")]);
}

#[test]
fn marriage_waits_for_first_trick() {
    let mut state = MatchState::new(1, ScoreVisibility::Visible);
    state.deal.trump = Suit::Spades;
    state.deal.leader = Seat::One;
    state.deal.hands[0] = vec![card("KH"), card("QH")];
    state.deal.hands[1] = vec![card("9C")];
    state.deal.talon.clear();
    state.deal.trump_card = None;
    state.deal.closed_by = None;
    // Temporarily open the stock to exercise a marriage.
    state.deal.trump_card = Some(card("9S"));
    state.deal.talon.push_back(card("JS"));

    state
        .apply(
            Seat::One,
            Action::Play {
                card: card("KH"),
                announce_marriage: true,
                declare: false,
            },
        )
        .unwrap();
    assert_eq!(state.deal.card_points[0], 0);
    assert_eq!(state.deal.pending_marriages[0], 20);
}

#[test]
fn losing_the_marriage_trick_keeps_the_bonus_pending_and_passes_the_lead() {
    let mut state = MatchState::new(21, ScoreVisibility::Visible);
    state.deal.trump = Suit::Diamonds;
    state.deal.leader = Seat::One;
    state.deal.hands[0] = vec![card("KD"), card("QD")];
    state.deal.hands[1] = vec![card("AD")];
    state.deal.talon = VecDeque::from([card("9C"), card("JC")]);
    state.deal.trump_card = Some(card("9D"));

    state
        .apply(
            Seat::One,
            Action::Play {
                card: card("KD"),
                announce_marriage: true,
                declare: false,
            },
        )
        .unwrap();
    state
        .apply(
            Seat::Two,
            Action::Play {
                card: card("AD"),
                announce_marriage: false,
                declare: false,
            },
        )
        .unwrap();

    assert_eq!(state.deal.card_points, [0, 15]);
    assert_eq!(state.deal.pending_marriages, [40, 0]);
    assert_eq!(state.deal.leader, Seat::Two);
    assert_eq!(state.deal.active_player(), Seat::Two);
    assert_eq!(
        state.deal.last_trick.as_ref().map(|trick| trick.winner),
        Some(Seat::Two)
    );
}

#[test]
fn an_incorrect_declaration_awards_the_opponent() {
    let mut state = MatchState::new(3, ScoreVisibility::Traditional);
    state.deal.tricks_won[1] = 1;
    state.deal.leader = Seat::One;
    state.apply(Seat::One, Action::Declare).unwrap();
    assert_eq!(
        state.deal.result,
        Some(DealResult {
            winner: Seat::Two,
            game_points: 2,
            reason: DealEndReason::IncorrectDeclaration,
        })
    );
}

#[test]
fn declaration_is_only_available_to_the_player_on_lead() {
    let mut state = MatchState::new(8, ScoreVisibility::Visible);
    let leader = state.deal.leader;
    assert_eq!(
        state.apply(leader.other(), Action::Declare),
        Err(RuleError::ActionUnavailable)
    );

    let card = state.deal.hands[leader.index()][0];
    state
        .apply(
            leader,
            Action::Play {
                card,
                announce_marriage: false,
                declare: false,
            },
        )
        .unwrap();
    assert_eq!(
        state.apply(leader.other(), Action::Declare),
        Err(RuleError::ActionUnavailable)
    );
}

#[test]
fn exchange_swaps_the_trump_nine_and_reveals_the_gained_card() {
    let mut state = MatchState::new(2, ScoreVisibility::Visible);
    let seat = Seat::One;
    state.deal.leader = seat;
    state.deal.tricks_won[seat.index()] = 1;
    state.deal.trump = Suit::Hearts;
    state.deal.trump_card = Some(card("AH"));
    state.deal.talon = VecDeque::from([card("9C")]);
    state.deal.hands[seat.index()] = vec![card("9H"), card("QS")];

    state.apply(seat, Action::ExchangeTrump).unwrap();
    assert_eq!(state.deal.trump_card, Some(card("9H")));
    assert!(state.deal.hands[seat.index()].contains(&card("AH")));
    assert!(state.deal.public_known_hands[seat.index()].contains(&card("AH")));
}

#[test]
fn closed_stock_stops_drawing_and_enables_strict_play() {
    let mut state = MatchState::new(12, ScoreVisibility::Visible);
    let leader = state.deal.leader;
    let stock_before = state.deal.stock_count();
    state.apply(leader, Action::CloseStock).unwrap();
    assert!(state.deal.is_strict());

    let lead = state.deal.legal_cards(leader)[0];
    state
        .apply(
            leader,
            Action::Play {
                card: lead,
                announce_marriage: false,
                declare: false,
            },
        )
        .unwrap();
    let follower = leader.other();
    let follow = state.deal.legal_cards(follower)[0];
    state
        .apply(
            follower,
            Action::Play {
                card: follow,
                announce_marriage: false,
                declare: false,
            },
        )
        .unwrap();
    assert_eq!(state.deal.stock_count(), stock_before);
    assert_eq!(state.deal.hands[0].len(), 5);
    assert_eq!(state.deal.hands[1].len(), 5);
}

#[test]
fn hundreds_of_seeded_matches_finish_without_losing_cards_or_deadlocking() {
    for seed in 0..200_u64 {
        let mut state = MatchState::new(seed, ScoreVisibility::Visible);
        let mut actions = 0_u32;
        while state.winner.is_none() {
            assert!(actions < 1_000, "match {seed} deadlocked");
            assert_card_conservation(&state.deal);
            if state.deal.result.is_some() {
                state
                    .apply(Seat::One, Action::NextDeal)
                    .expect("start next seeded deal");
                actions += 1;
                continue;
            }

            let seat = state.deal.active_player();
            if state.deal.trick.is_empty()
                && state.deal.leader == seat
                && state.deal.card_points[seat.index()] >= 66
            {
                state.apply(seat, Action::Declare).unwrap();
                actions += 1;
                continue;
            }
            if actions.is_multiple_of(29) && state.deal.can_exchange_trump(seat) {
                state.apply(seat, Action::ExchangeTrump).unwrap();
                actions += 1;
                continue;
            }
            if actions.is_multiple_of(37) && state.deal.can_close_stock(seat) {
                state.apply(seat, Action::CloseStock).unwrap();
                actions += 1;
                continue;
            }
            let legal = state.deal.legal_cards(seat);
            assert!(!legal.is_empty(), "active deal {seed} has no legal play");
            let card = legal[usize::try_from(actions).unwrap_or_default() % legal.len()];
            let announce = state.deal.can_announce_marriage(seat, card);
            let marriage_value = state.deal.marriage_value(card).unwrap_or_default();
            let declare = announce
                && state.deal.tricks_won[seat.index()] > 0
                && state.deal.card_points[seat.index()] + marriage_value >= 66;
            state
                .apply(
                    seat,
                    Action::Play {
                        card,
                        announce_marriage: announce,
                        declare,
                    },
                )
                .unwrap();
            actions += 1;
        }
        assert!(state.match_points[state.winner.unwrap().index()] >= MATCH_TARGET);
    }
}

fn assert_card_conservation(deal: &DealState) {
    let mut cards = Vec::new();
    cards.extend(deal.hands[0].iter().copied());
    cards.extend(deal.hands[1].iter().copied());
    cards.extend(deal.talon.iter().copied());
    cards.extend(deal.trump_card);
    cards.extend(deal.played_cards.iter().copied());
    assert_eq!(cards.len(), 24);
    cards.sort_by_key(|card| (card.suit, card.rank));
    cards.dedup();
    assert_eq!(cards.len(), 24);
    for seat in [Seat::One, Seat::Two] {
        assert!(
            deal.public_known_hands[seat.index()]
                .iter()
                .all(|card| deal.hands[seat.index()].contains(card))
        );
    }
}

#[test]
fn refused_action_leaves_the_match_unchanged() {
    let mut state = MatchState::new(5, ScoreVisibility::Visible);
    let before = state.clone();
    let follower = state.deal.leader.other();
    let card = state.deal.hands[follower.index()][0];
    assert_eq!(
        state.apply(
            follower,
            Action::Play {
                card,
                announce_marriage: false,
                declare: false,
            },
        ),
        Err(RuleError::NotYourTurn)
    );
    assert_eq!(state, before);
}

#[test]
fn every_refusal_reason_is_reachable() {
    let mut state = MatchState::new(5, ScoreVisibility::Visible);
    let leader = state.deal.leader;
    let foreign = state.deal.hands[leader.other().index()][0];
    assert_eq!(
        state.apply(
            leader,
            Action::Play {
                card: foreign,
                announce_marriage: false,
                declare: false,
            },
        ),
        Err(RuleError::CardNotHeld)
    );
    let own = state.deal.hands[leader.index()][0];
    assert_eq!(
        state.apply(
            leader,
            Action::Play {
                card: own,
                announce_marriage: false,
                declare: true,
            },
        ),
        Err(RuleError::ActionUnavailable)
    );
    assert_eq!(state.apply(leader, Action::NextDeal), Err(RuleError::ActionUnavailable));
    state.deal.hands[leader.index()] = vec![card("9C"), card("JD")];
    assert_eq!(
        state.apply(
            leader,
            Action::Play {
                card: card("9C"),
                announce_marriage: true,
                declare: false,
            },
        ),
        Err(RuleError::InvalidMarriage)
    );

    let mut strict = MatchState::new(1, ScoreVisibility::Visible);
    strict.deal.closed_by = Some(Seat::One);
    strict.deal.leader = Seat::One;
    strict.deal.trump = Suit::Hearts;
    strict.deal.hands = [vec![card("QC")], vec![card("9C"), card("AH")]];
    strict.deal.trick = vec![PlayedCard {
        seat: Seat::One,
        card: card("KC"),
        marriage: None,
    }];
    assert_eq!(
        strict.apply(
            Seat::Two,
            Action::Play {
                card: card("AH"),
                announce_marriage: false,
                declare: false,
            },
        ),
        Err(RuleError::IllegalCard)
    );

    state.deal.result = Some(DealResult {
        winner: Seat::One,
        game_points: 1,
        reason: DealEndReason::Declared,
    });
    assert_eq!(state.apply(leader, Action::Declare), Err(RuleError::DealOver));
    state.winner = Some(Seat::One);
    assert_eq!(state.apply(leader, Action::NextDeal), Err(RuleError::MatchOver));
}

#[test]
fn correct_declaration_scores_by_the_losers_tricks_and_points() {
    let mut state = MatchState::new(4, ScoreVisibility::Visible);
    let leader = state.deal.leader;
    state.deal.card_points[leader.index()] = 70;
    state.deal.tricks_won[leader.index()] = 3;
    let result = state.apply(leader, Action::Declare).unwrap();
    assert_eq!(
        result,
        Transition {
            deal_ended: true,
            match_ended: false,
        }
    );
    assert_eq!(
        state.deal.result,
        Some(DealResult {
            winner: leader,
            game_points: 3,
            reason: DealEndReason::Declared,
        })
    );
    assert_eq!(state.match_points[leader.index()], 3);

    let mut deal = MatchState::new(4, ScoreVisibility::Visible).deal;
    deal.tricks_won = [2, 1];
    deal.card_points = [70, 32];
    assert_eq!(game_points_for(&deal, Seat::One), 2);
    deal.card_points = [70, 33];
    assert_eq!(game_points_for(&deal, Seat::One), 1);
}

#[test]
fn reaching_seven_game_points_wins_the_match() {
    let mut state = MatchState::new(6, ScoreVisibility::Visible);
    let leader = state.deal.leader;
    state.match_points[leader.index()] = 5;
    state.deal.card_points[leader.index()] = 66;
    state.deal.tricks_won = [1, 1];
    state.deal.card_points[leader.other().index()] = 10;
    let result = state.apply(leader, Action::Declare).unwrap();
    assert!(result.match_ended);
    assert_eq!(state.winner, Some(leader));
    assert_eq!(state.match_points[leader.index()], 7);
    assert_eq!(state.apply(leader, Action::NextDeal), Err(RuleError::MatchOver));
}

#[test]
fn next_deal_switches_dealer_and_seed() {
    let mut state = MatchState::new(10, ScoreVisibility::Visible);
    assert_eq!(state.dealer, Seat::One);
    assert_eq!(state.next_seed, 10_u64.wrapping_add(0x9E37_79B9_7F4A_7C15));
    let leader = state.deal.leader;
    state.apply(leader, Action::Declare).unwrap();
    state.apply(Seat::Two, Action::NextDeal).unwrap();
    assert_eq!(state.dealer, Seat::Two);
    assert_eq!(state.deal_number, 2);
    assert_eq!(state.deal.leader, Seat::One);
    assert_eq!(state.deal.hands[0].len(), 6);
    assert_eq!(state.deal.stock_count(), 12);
    assert_eq!(MatchState::new(11, ScoreVisibility::Visible).dealer, Seat::Two);
}

#[test]
fn last_trick_earns_ten_points() {
    let mut state = MatchState::new(1, ScoreVisibility::Visible);
    state.deal.trump = Suit::Spades;
    state.deal.trump_card = None;
    state.deal.talon.clear();
    state.deal.leader = Seat::One;
    state.deal.hands = [vec![card("AC")], vec![card("9C")]];
    state.deal.card_points = [50, 40];
    state.deal.tricks_won = [3, 3];
    state
        .apply(
            Seat::One,
            Action::Play {
                card: card("AC"),
                announce_marriage: false,
                declare: false,
            },
        )
        .unwrap();
    state
        .apply(
            Seat::Two,
            Action::Play {
                card: card("9C"),
                announce_marriage: false,
                declare: false,
            },
        )
        .unwrap();
    assert_eq!(state.deal.card_points[0], 71);
    assert_eq!(
        state.deal.result,
        Some(DealResult {
            winner: Seat::One,
            game_points: 1,
            reason: DealEndReason::LastTrick,
        })
    );
}

#[test]
fn failed_closure_pays_the_opponent() {
    let mut state = MatchState::new(1, ScoreVisibility::Visible);
    state.deal.trump = Suit::Spades;
    state.deal.closed_by = Some(Seat::One);
    state.deal.leader = Seat::One;
    state.deal.hands = [vec![card("9C")], vec![card("AC")]];
    state.deal.card_points = [40, 20];
    state.deal.tricks_won = [2, 0];
    state
        .apply(
            Seat::One,
            Action::Play {
                card: card("9C"),
                announce_marriage: false,
                declare: false,
            },
        )
        .unwrap();
    state
        .apply(
            Seat::Two,
            Action::Play {
                card: card("AC"),
                announce_marriage: false,
                declare: false,
            },
        )
        .unwrap();
    assert_eq!(
        state.deal.result,
        Some(DealResult {
            winner: Seat::Two,
            game_points: 2,
            reason: DealEndReason::ClosedStockFailed,
        })
    );
}

#[test]
fn marriage_after_a_trick_counts_at_once_and_trumps_are_worth_forty() {
    let mut state = MatchState::new(1, ScoreVisibility::Visible);
    state.deal.trump = Suit::Hearts;
    state.deal.trump_card = Some(card("9H"));
    state.deal.talon = VecDeque::from([card("JS"), card("QS")]);
    state.deal.closed_by = None;
    state.deal.leader = Seat::Two;
    state.deal.tricks_won = [0, 1];
    state.deal.card_points = [0, 30];
    state.deal.hands[1] = vec![card("QH"), card("KH")];
    assert_eq!(state.deal.marriage_value(card("QH")), Some(40));
    assert_eq!(state.deal.marriage_value(card("QS")), Some(20));
    assert_eq!(state.deal.marriage_value(card("AS")), None);
    assert!(state.deal.can_announce_marriage(Seat::Two, card("QH")));
    state
        .apply(
            Seat::Two,
            Action::Play {
                card: card("QH"),
                announce_marriage: true,
                declare: true,
            },
        )
        .unwrap();
    assert_eq!(state.deal.card_points[1], 70);
    assert_eq!(
        state.deal.result,
        Some(DealResult {
            winner: Seat::Two,
            game_points: 3,
            reason: DealEndReason::Declared,
        })
    );
    assert!(state.deal.public_known_hands[1].contains(&card("KH")));
}

#[test]
fn two_cards_never_beat_each_other() {
    let deck = full_deck();
    for trump in [Suit::Clubs, Suit::Hearts] {
        for a in &deck {
            for b in &deck {
                assert!(!(card_beats(*a, *b, trump) && card_beats(*b, *a, trump)));
                if a.suit == b.suit && a != b {
                    assert_ne!(card_beats(*a, *b, trump), card_beats(*b, *a, trump));
                }
            }
        }
    }
}

#[test]
fn game_points_never_go_down_over_a_match() {
    let mut state = MatchState::new(77, ScoreVisibility::Visible);
    let mut previous = state.match_points;
    for step in 0..400_u32 {
        if state.winner.is_some() {
            break;
        }
        let action = if state.deal.result.is_some() {
            Action::NextDeal
        } else {
            let seat = state.deal.active_player();
            let legal = state.deal.legal_cards(seat);
            Action::Play {
                card: legal[step as usize % legal.len()],
                announce_marriage: false,
                declare: false,
            }
        };
        let seat = state.deal.active_player();
        let _ = state.apply(seat, action);
        assert!(state.match_points[0] >= previous[0]);
        assert!(state.match_points[1] >= previous[1]);
        previous = state.match_points;
    }
    assert!(state.winner.is_some());
}

#[test]
fn declaring_against_a_failed_closer_scores_at_least_two() {
    let mut state = MatchState::new(1, ScoreVisibility::Visible);
    state.deal.closed_by = Some(Seat::One);
    state.deal.leader = Seat::Two;
    state.deal.trick.clear();
    state.deal.card_points = [40, 66];
    state.deal.tricks_won = [2, 3];
    let transition = state.apply(Seat::Two, Action::Declare).unwrap();
    assert!(transition.deal_ended);
    let result = state.deal.result.unwrap();
    assert_eq!(result.winner, Seat::Two);
    assert_eq!(result.game_points, 2);
    assert!(matches!(result.reason, DealEndReason::Declared));
    assert_eq!(state.match_points, [0, 2]);
}

#[test]
fn declaring_without_a_closer_keeps_the_usual_points() {
    let mut state = MatchState::new(1, ScoreVisibility::Visible);
    state.deal.closed_by = None;
    state.deal.leader = Seat::Two;
    state.deal.trick.clear();
    state.deal.card_points = [40, 66];
    state.deal.tricks_won = [2, 3];
    state.apply(Seat::Two, Action::Declare).unwrap();
    assert_eq!(state.deal.result.unwrap().game_points, 1);
}

#[test]
fn a_closer_who_declares_keeps_the_usual_points() {
    let mut state = MatchState::new(1, ScoreVisibility::Visible);
    state.deal.closed_by = Some(Seat::Two);
    state.deal.leader = Seat::Two;
    state.deal.trick.clear();
    state.deal.card_points = [40, 66];
    state.deal.tricks_won = [2, 3];
    state.apply(Seat::Two, Action::Declare).unwrap();
    assert_eq!(state.deal.result.unwrap().game_points, 1);
}

#[test]
fn refused_actions_need_no_counter_room() {
    let mut state = MatchState::new(4, ScoreVisibility::Visible);
    state.deal_number = u32::MAX;
    state.winner = Some(Seat::One);
    assert!(state.has_room_for(Seat::One, Action::NextDeal));
    assert_eq!(state.apply(Seat::One, Action::NextDeal), Err(RuleError::MatchOver));

    let mut running = MatchState::new(4, ScoreVisibility::Visible);
    running.deal.tricks_won = [255, 0];
    let leader = running.deal.leader;
    let follower = leader.other();
    let card = running.deal.hands[follower.index()][0];
    let play = Action::Play {
        card,
        announce_marriage: false,
        declare: false,
    };
    assert!(running.has_room_for(follower, play));
    assert!(!running.has_room_for(leader, Action::Play {
        card: running.deal.hands[leader.index()][0],
        announce_marriage: false,
        declare: false,
    }));
    assert_eq!(running.apply(follower, play), Err(RuleError::NotYourTurn));
}
