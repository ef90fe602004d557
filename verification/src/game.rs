//! The match: a series of deals played to seven game points, driven by player actions.
use vstd::prelude::*;

use crate::cards::{Card, Rank, Seat, MATCH_TARGET};
use crate::deal::{dealt, differs_from, first_pos, position_of, with_card, DealEndReason, DealModel, DealResult, DealState};

verus! {

#[derive(Debug, Clone, Copy, PartialEq, Eq, Structural)]
pub enum ScoreVisibility {
    Visible,
    Traditional,
}

#[derive(Debug, Clone, Copy, PartialEq, Eq, Structural)]
pub struct MatchSettings {
    pub score_visibility: ScoreVisibility,
}

#[derive(Debug, Clone, PartialEq, Eq)]
pub struct MatchState {
    pub schema_version: u8,
    pub settings: MatchSettings,
    pub match_points: [u8; 2],
    pub dealer: Seat,
    pub deal_number: u32,
    pub next_seed: u64,
    pub deal: DealState,
    pub winner: Option<Seat>,
}

#[derive(Debug, Clone, Copy, PartialEq, Eq, Structural)]
pub enum Action {
    Play { card: Card, announce_marriage: bool, declare: bool },
    ExchangeTrump,
    CloseStock,
    Declare,
    NextDeal,
}

#[derive(Debug, Clone, Copy, PartialEq, Eq, Structural)]
pub struct Transition {
    pub deal_ended: bool,
    pub match_ended: bool,
}

#[derive(Debug, Clone, Copy, PartialEq, Eq, Structural)]
pub enum RuleError {
    MatchOver,
    DealOver,
    ActionUnavailable,
    NotYourTurn,
    CardNotHeld,
    IllegalCard,
    InvalidMarriage,
}

impl RuleError {
    pub open spec fn message_view(self) -> Seq<char> {
        match self {
            RuleError::MatchOver => "the match is already over"@,
            RuleError::DealOver => "the deal is already over"@,
            RuleError::ActionUnavailable => "that action is not available now"@,
            RuleError::NotYourTurn => "it is not your turn"@,
            RuleError::CardNotHeld => "that card is not in your hand"@,
            RuleError::IllegalCard => "that card is not legal now"@,
            RuleError::InvalidMarriage => "that marriage cannot be announced now"@,
        }
    }

    /// The sentence shown to the player whose action was refused.
    pub fn message(self) -> (r: &'static str)
        ensures
            r@ == self.message_view(),
    {
        match self {
            RuleError::MatchOver => "the match is already over",
            RuleError::DealOver => "the deal is already over",
            RuleError::ActionUnavailable => "that action is not available now",
            RuleError::NotYourTurn => "it is not your turn",
            RuleError::CardNotHeld => "that card is not in your hand",
            RuleError::IllegalCard => "that card is not legal now",
            RuleError::InvalidMarriage => "that marriage cannot be announced now",
        }
    }
}

/// The mathematical picture of a match.
#[verifier::ext_equal]
pub struct MatchModel {
    pub schema_version: u8,
    pub settings: MatchSettings,
    pub match_points: Seq<u8>,
    pub dealer: Seat,
    pub deal_number: u32,
    pub next_seed: u64,
    pub deal: DealModel,
    pub winner: Option<Seat>,
}

impl View for MatchState {
    type V = MatchModel;

    open spec fn view(&self) -> MatchModel {
        MatchModel {
            schema_version: self.schema_version,
            settings: self.settings,
            match_points: self.match_points@,
            dealer: self.dealer,
            deal_number: self.deal_number,
            next_seed: self.next_seed,
            deal: self.deal@,
            winner: self.winner,
        }
    }
}

/// Added to the seed after every deal (wrapping), so that each deal has its own shuffle.
pub open spec fn seed_step(seed: u64) -> u64 {
    if seed + 0x9E37_79B9_7F4A_7C15u64 > u64::MAX {
        (seed + 0x9E37_79B9_7F4A_7C15u64 - 0x1_0000_0000_0000_0000) as u64
    } else {
        (seed + 0x9E37_79B9_7F4A_7C15u64) as u64
    }
}

/// The first dealer: seat one for an even seed, seat two for an odd one.
pub open spec fn first_dealer(seed: u64) -> Seat {
    if seed % 2 == 0 {
        Seat::One
    } else {
        Seat::Two
    }
}

/// A new match: no game points yet, first deal dealt from `seed`.
pub open spec fn initial_match(seed: u64, score_visibility: ScoreVisibility) -> MatchModel {
    MatchModel {
        schema_version: 1,
        settings: MatchSettings { score_visibility },
        match_points: seq![0u8, 0u8],
        dealer: first_dealer(seed),
        deal_number: 1,
        next_seed: seed_step(seed),
        deal: dealt(seed, first_dealer(seed)),
        winner: None,
    }
}

/// Game points for winning a deal: 3 if the loser took no trick, 2 if the loser has
/// at most 32 card points, else 1.
pub open spec fn game_points_of(deal: DealModel, winner: Seat) -> u8 {
    let loser = winner.opp().idx();
    if deal.tricks_won[loser] == 0 {
        3
    } else if deal.card_points[loser] <= 32 {
        2
    } else {
        1
    }
}

/// Game points awarded to the opponent of a player who declared wrongly or whose
/// closing failed: 3 if the opponent took no trick, else 2.
pub open spec fn penalty_points(deal: DealModel, beneficiary: Seat) -> u8 {
    if deal.tricks_won[beneficiary.idx()] == 0 {
        3
    } else {
        2
    }
}

/// Game points for a correct declaration: as for any won deal, but at least 2 when the
/// opponent closed the stock, since closing is a promise to reach 66.
pub open spec fn declared_points(deal: DealModel, seat: Seat) -> u8 {
    if deal.closed_by == Some(seat.opp()) && game_points_of(deal, seat) < 2 {
        2
    } else {
        game_points_of(deal, seat)
    }
}

pub open spec fn saturating_add_u8(a: u8, b: u8) -> u8 {
    if a + b > u8::MAX {
        u8::MAX
    } else {
        (a + b) as u8
    }
}

pub open spec fn transition_of(m: MatchModel) -> Transition {
    Transition { deal_ended: m.deal.result is Some, match_ended: m.winner is Some }
}

impl MatchModel {
    pub open spec fn with_deal(self, deal: DealModel) -> MatchModel {
        MatchModel { deal, ..self }
    }

    /// The deal ends with the given result; the winner's game points grow (saturating)
    /// and reaching the target wins the match.
    pub open spec fn awarded(self, winner: Seat, game_points: u8, reason: DealEndReason) -> MatchModel {
        let i = winner.idx();
        let total = saturating_add_u8(self.match_points[i], game_points);
        MatchModel {
            deal: DealModel { result: Some(DealResult { winner, game_points, reason }), ..self.deal },
            match_points: self.match_points.update(i, total),
            winner: if total >= MATCH_TARGET {
                Some(winner)
            } else {
                self.winner
            },
            ..self
        }
    }

    /// A declaration of 66: correct with at least 66 card points, else the deal goes
    /// to the opponent.
    pub open spec fn declared(self, seat: Seat) -> MatchModel {
        if self.deal.card_points[seat.idx()] >= 66 {
            self.awarded(seat, declared_points(self.deal, seat), DealEndReason::Declared)
        } else {
            self.awarded(seat.opp(), penalty_points(self.deal, seat.opp()), DealEndReason::IncorrectDeclaration)
        }
    }

    /// The end of a deal whose last trick has been played.
    pub open spec fn exhausted(self, last_winner: Seat) -> MatchModel {
        match self.deal.closed_by {
            Some(closer) => if self.deal.card_points[closer.idx()] >= 66 {
                self.awarded(closer, game_points_of(self.deal, closer), DealEndReason::Declared)
            } else {
                self.awarded(closer.opp(), penalty_points(self.deal, closer.opp()), DealEndReason::ClosedStockFailed)
            },
            None => {
                let i = last_winner.idx();
                let d = DealModel {
                    card_points: self.deal.card_points.update(i, (self.deal.card_points[i] + 10) as u16),
                    ..self.deal
                };
                let w = if d.card_points[i] >= 66 {
                    last_winner
                } else {
                    last_winner.opp()
                };
                self.with_deal(d).awarded(w, game_points_of(d, w), DealEndReason::LastTrick)
            },
        }
    }

    /// Why a card play is refused, if it is.
    pub open spec fn play_refusal(self, seat: Seat, card: Card, announce: bool, declare: bool) -> Option<RuleError> {
        if self.deal.active() != seat {
            Some(RuleError::NotYourTurn)
        } else if !self.deal.hands[seat.idx()].contains(card) {
            Some(RuleError::CardNotHeld)
        } else if !self.deal.legal(seat).contains(card) {
            Some(RuleError::IllegalCard)
        } else if announce && !self.deal.may_announce(seat, card) {
            Some(RuleError::InvalidMarriage)
        } else if declare && !announce {
            Some(RuleError::ActionUnavailable)
        } else {
            None
        }
    }

    /// An accepted card play: the card is placed; with a declaration the deal ends at
    /// once, else a complete trick is settled and the last trick ends the deal.
    pub open spec fn after_play(self, seat: Seat, card: Card, announce: bool, declare: bool) -> MatchModel {
        let d1 = self.deal.placed(seat, card, announce);
        if declare {
            self.with_deal(d1).declared(seat)
        } else if d1.trick.len() == 2 {
            let d2 = d1.resolved();
            if d2.hands[0].len() == 0 && d2.hands[1].len() == 0 {
                self.with_deal(d2).exhausted(d1.trick_winner())
            } else {
                self.with_deal(d2)
            }
        } else {
            self.with_deal(d1)
        }
    }

    /// The trump nine in the seat's hand changes places with the face-up trump card,
    /// which becomes publicly known to be in that hand.
    pub open spec fn exchanged(self, seat: Seat) -> MatchModel {
        let i = seat.idx();
        let nine = Card { suit: self.deal.trump, rank: Rank::Nine };
        let gained = self.deal.trump_card->0;
        let hand = self.deal.hands[i];
        self.with_deal(
            DealModel {
                trump_card: Some(nine),
                hands: self.deal.hands.update(i, hand.update(first_pos(hand, nine), gained)),
                known: self.deal.known.update(i, with_card(self.deal.known[i].filter(differs_from(nine)), gained)),
                ..self.deal
            },
        )
    }

    pub open spec fn closed(self, seat: Seat) -> MatchModel {
        self.with_deal(DealModel { closed_by: Some(seat), ..self.deal })
    }

    /// The next deal: the other seat deals, from the stored seed.
    pub open spec fn next_dealt(self) -> MatchModel {
        MatchModel {
            dealer: self.dealer.opp(),
            deal_number: (self.deal_number + 1) as u32,
            deal: dealt(self.next_seed, self.dealer.opp()),
            next_seed: seed_step(self.next_seed),
            ..self
        }
    }

    /// The match after `seat` attempts `action`, and the answer it gets.
    /// A refused action leaves the match as it was.
    pub open spec fn applied(self, seat: Seat, action: Action) -> (MatchModel, Result<Transition, RuleError>) {
        if self.winner is Some {
            (self, Err(RuleError::MatchOver))
        } else if action is NextDeal {
            if self.deal.result is None {
                (self, Err(RuleError::ActionUnavailable))
            } else {
                (self.next_dealt(), Ok(Transition { deal_ended: false, match_ended: false }))
            }
        } else if self.deal.result is Some {
            (self, Err(RuleError::DealOver))
        } else {
            match action {
                Action::Play { card, announce_marriage, declare } => match self.play_refusal(
                    seat,
                    card,
                    announce_marriage,
                    declare,
                ) {
                    Some(e) => (self, Err(e)),
                    None => {
                        let m = self.after_play(seat, card, announce_marriage, declare);
                        (m, Ok(transition_of(m)))
                    },
                },
                Action::ExchangeTrump => if !self.deal.may_exchange(seat) {
                    (self, Err(RuleError::ActionUnavailable))
                } else {
                    let m = self.exchanged(seat);
                    (m, Ok(transition_of(m)))
                },
                Action::CloseStock => if !self.deal.may_close(seat) {
                    (self, Err(RuleError::ActionUnavailable))
                } else {
                    let m = self.closed(seat);
                    (m, Ok(transition_of(m)))
                },
                Action::Declare => if self.deal.trick.len() != 0 || self.deal.leader != seat {
                    (self, Err(RuleError::ActionUnavailable))
                } else {
                    let m = self.declared(seat);
                    (m, Ok(transition_of(m)))
                },
                Action::NextDeal => (self, Err(RuleError::ActionUnavailable)),
            }
        }
    }

    /// The invariant of every match that play can reach: a well-formed deal; no
    /// winner while both seats are short of the target; a winner has reached it and
    /// the deal is over; and the deal count grows no faster than the game points.
    pub open spec fn wf(self) -> bool {
        &&& self.deal.wf()
        &&& self.match_points.len() == 2
        &&& self.winner is None ==> self.match_points[0] < MATCH_TARGET && self.match_points[1] < MATCH_TARGET
        &&& self.winner matches Some(w) ==> self.match_points[w.idx()] >= MATCH_TARGET && self.deal.result is Some
        &&& 1 <= self.deal_number
        &&& self.deal_number <= self.match_points[0] + self.match_points[1] + if self.deal.result is None {
            1int
        } else {
            0int
        }
    }

    /// What `apply` needs to run without overflow (machine limits; reachable matches
    /// stay far below them): room in the score counters for a card play that will be
    /// accepted, and room in the deal count for a next deal that will start. Refused
    /// actions need no room.
    pub open spec fn room_for(self, seat: Seat, action: Action) -> bool {
        &&& (action matches Action::Play { card, announce_marriage, declare } && self.winner is None
            && self.deal.result is None && self.play_refusal(seat, card, announce_marriage, declare) is None)
            ==> self.deal.counters_fit()
        &&& (action is NextDeal && self.winner is None && self.deal.result is Some) ==> self.deal_number
            < u32::MAX
    }
}

impl MatchState {
    pub fn new(seed: u64, score_visibility: ScoreVisibility) -> (r: MatchState)
        ensures
            r@ == initial_match(seed, score_visibility),
            r@.wf(),
    {
        let dealer = if seed & 1 == 0 {
            Seat::One
        } else {
            Seat::Two
        };
        assert((seed & 1 == 0) == (seed % 2 == 0)) by (bit_vector);
        let r = MatchState {
            schema_version: 1,
            settings: MatchSettings { score_visibility },
            match_points: [0, 0],
            dealer,
            deal_number: 1,
            next_seed: seed.wrapping_add(0x9E37_79B9_7F4A_7C15),
            deal: DealState::deal(seed, dealer),
            winner: None,
        };
        assert(r@.match_points =~= seq![0u8, 0u8]);
        assert(r@ =~= initial_match(seed, score_visibility));
        r
    }

    /// Whether `apply` has room for the action of `seat` in the match's counters.
    pub fn has_room_for(&self, seat: Seat, action: Action) -> (r: bool)
        ensures
            r == self@.room_for(seat, action),
    {
        let counters_fit = self.deal.card_points[0] as u32 + self.deal.pending_marriages[0] as u32 + 72 <= 65535
            && self.deal.card_points[1] as u32 + self.deal.pending_marriages[1] as u32 + 72 <= 65535
            && self.deal.tricks_won[0] < 255 && self.deal.tricks_won[1] < 255;
        let running = self.winner.is_none() && self.deal.result.is_none();
        match action {
            Action::Play { card, announce_marriage, declare } => !running || self.play_refusal_of(
                seat,
                card,
                announce_marriage,
                declare,
            ).is_some() || counters_fit,
            Action::NextDeal => self.winner.is_some() || self.deal.result.is_none() || self.deal_number
                < u32::MAX,
            _ => true,
        }
    }

    /// Why a card play of `seat` is refused, if it is.
    fn play_refusal_of(&self, seat: Seat, card: Card, announce_marriage: bool, declare: bool) -> (r: Option<
        RuleError,
    >)
        ensures
            r == self@.play_refusal(seat, card, announce_marriage, declare),
    {
        if self.deal.active_player() != seat {
            return Some(RuleError::NotYourTurn);
        }
        if !crate::deal::holds(&self.deal.hands[seat.index()], card) {
            return Some(RuleError::CardNotHeld);
        }
        let legal = self.deal.legal_cards(seat);
        if !crate::deal::holds(&legal, card) {
            return Some(RuleError::IllegalCard);
        }
        if announce_marriage && !self.deal.can_announce_marriage(seat, card) {
            return Some(RuleError::InvalidMarriage);
        }
        if declare && !announce_marriage {
            return Some(RuleError::ActionUnavailable);
        }
        None
    }

    /// Applies one player action to the authoritative match state.
    ///
    /// A refused action returns the reason and changes nothing.
    pub fn apply(&mut self, seat: Seat, action: Action) -> (r: Result<Transition, RuleError>)
        requires
            old(self)@.room_for(seat, action),
        ensures
            final(self)@ == old(self)@.applied(seat, action).0,
            r == old(self)@.applied(seat, action).1,
            r is Err ==> final(self)@ == old(self)@,
            old(self)@.wf() ==> final(self)@.wf(),
    {
        proof {
            if old(self)@.wf() && !(action is NextDeal) {
                crate::laws::lemma_applied_wf(old(self)@, seat, action);
            }
        }
        if self.winner.is_some() {
            return Err(RuleError::MatchOver);
        }
        if let Action::NextDeal = action {
            return self.next_deal();
        }
        if self.deal.result.is_some() {
            return Err(RuleError::DealOver);
        }
        match action {
            Action::Play { card, announce_marriage, declare } => {
                match self.play_card(seat, card, announce_marriage, declare) {
                    Ok(()) => {},
                    Err(e) => return Err(e),
                }
            },
            Action::ExchangeTrump => {
                match self.exchange_trump(seat) {
                    Ok(()) => {},
                    Err(e) => return Err(e),
                }
            },
            Action::CloseStock => {
                match self.close_stock(seat) {
                    Ok(()) => {},
                    Err(e) => return Err(e),
                }
            },
            Action::Declare => {
                if self.deal.trick.len() != 0 || self.deal.leader != seat {
                    return Err(RuleError::ActionUnavailable);
                }
                self.declare(seat);
            },
            Action::NextDeal => {
                return Err(RuleError::ActionUnavailable);
            },
        }
        Ok(Transition { deal_ended: self.deal.result.is_some(), match_ended: self.winner.is_some() })
    }

    fn play_card(&mut self, seat: Seat, card: Card, announce_marriage: bool, declare: bool) -> (r: Result<(), RuleError>)
        requires
            old(self)@.play_refusal(seat, card, announce_marriage, declare) is None ==> old(
                self,
            )@.deal.counters_fit(),
            old(self)@.winner is None,
            old(self)@.deal.result is None,
        ensures
            r == (match old(self)@.play_refusal(seat, card, announce_marriage, declare) {
                Some(e) => Err(e),
                None => Ok(()),
            }),
            r is Ok ==> final(self)@ == old(self)@.after_play(seat, card, announce_marriage, declare),
            r is Err ==> final(self)@ == old(self)@,
    {
        if self.deal.active_player() != seat {
            return Err(RuleError::NotYourTurn);
        }
        let hand_index = match position_of(&self.deal.hands[seat.index()], card) {
            Some(i) => i,
            None => return Err(RuleError::CardNotHeld),
        };
        let legal = self.deal.legal_cards(seat);
        if !crate::deal::holds(&legal, card) {
            return Err(RuleError::IllegalCard);
        }
        if announce_marriage && !self.deal.can_announce_marriage(seat, card) {
            return Err(RuleError::InvalidMarriage);
        }
        if declare && !announce_marriage {
            return Err(RuleError::ActionUnavailable);
        }
        self.commit_play(seat, card, hand_index, announce_marriage, declare);
        Ok(())
    }

    /// Carries out a card play that passed every check.
    fn commit_play(&mut self, seat: Seat, card: Card, hand_index: usize, announce: bool, declare: bool)
        requires
            old(self)@.deal.counters_fit(),
            hand_index < old(self)@.deal.hands[seat.idx()].len(),
            hand_index == first_pos(old(self)@.deal.hands[seat.idx()], card),
            announce ==> old(self)@.deal.may_announce(seat, card),
        ensures
            final(self)@ == old(self)@.after_play(seat, card, announce, declare),
    {
        let ghost m0 = self@;
        proof {
            lemma_placed_counters(m0.deal, seat, card, announce);
        }
        self.deal.place_card(seat, card, hand_index, announce);
        assert(self@ =~= m0.with_deal(m0.deal.placed(seat, card, announce)));
        if declare {
            self.declare(seat);
            return;
        }
        if self.deal.trick.len() == 2 {
            let ghost m1 = self@;
            let winner = self.deal.resolve_trick();
            proof {
                lemma_resolved_room(m1.deal);
            }
            assert(self@ =~= m0.with_deal(m1.deal.resolved()));
            if self.deal.hands[0].len() == 0 && self.deal.hands[1].len() == 0 {
                self.finish_exhausted_deal(winner);
            }
        }
    }

    fn exchange_trump(&mut self, seat: Seat) -> (r: Result<(), RuleError>)
        ensures
            r is Ok <==> old(self)@.deal.may_exchange(seat),
            r is Err ==> r == Err::<(), RuleError>(RuleError::ActionUnavailable) && final(self)@ == old(self)@,
            r is Ok ==> final(self)@ == old(self)@.exchanged(seat),
    {
        if !self.deal.can_exchange_trump(seat) {
            return Err(RuleError::ActionUnavailable);
        }
        let ghost m0 = self@;
        let i = seat.index();
        let nine = Card::new(self.deal.trump, Rank::Nine);
        let position = position_of(&self.deal.hands[i], nine).unwrap();
        let gained = self.deal.trump_card.unwrap();
        self.deal.trump_card = Some(nine);
        self.deal.hands[i].set(position, gained);
        self.deal.remove_known_card(seat, nine);
        if !crate::deal::holds(&self.deal.public_known_hands[i], gained) {
            self.deal.public_known_hands[i].push(gained);
        }
        assert(self@.deal.hands =~= m0.exchanged(seat).deal.hands);
        assert(self@.deal.known =~= m0.exchanged(seat).deal.known);
        assert(self@ =~= m0.exchanged(seat));
        Ok(())
    }

    fn close_stock(&mut self, seat: Seat) -> (r: Result<(), RuleError>)
        ensures
            r is Ok <==> old(self)@.deal.may_close(seat),
            r is Err ==> r == Err::<(), RuleError>(RuleError::ActionUnavailable) && final(self)@ == old(self)@,
            r is Ok ==> final(self)@ == old(self)@.closed(seat),
    {
        if !self.deal.can_close_stock(seat) {
            return Err(RuleError::ActionUnavailable);
        }
        self.deal.closed_by = Some(seat);
        assert(self@ =~= old(self)@.closed(seat));
        Ok(())
    }

    fn declare(&mut self, seat: Seat)
        ensures
            final(self)@ == old(self)@.declared(seat),
    {
        let index = seat.index();
        if self.deal.card_points[index] >= 66 {
            let usual = game_points_for(&self.deal, seat);
            let opponent_closed = match self.deal.closed_by {
                Some(closer) => closer == seat.other(),
                None => false,
            };
            let points = if opponent_closed && usual < 2 {
                2
            } else {
                usual
            };
            self.award_deal(seat, points, DealEndReason::Declared);
        } else {
            let winner = seat.other();
            let points = if self.deal.tricks_won[winner.index()] == 0 {
                3
            } else {
                2
            };
            self.award_deal(winner, points, DealEndReason::IncorrectDeclaration);
        }
    }

    fn finish_exhausted_deal(&mut self, last_winner: Seat)
        requires
            old(self)@.deal.card_points[last_winner.idx()] + 10 <= u16::MAX,
        ensures
            final(self)@ == old(self)@.exhausted(last_winner),
    {
        if let Some(closer) = self.deal.closed_by {
            if self.deal.card_points[closer.index()] >= 66 {
                let points = game_points_for(&self.deal, closer);
                self.award_deal(closer, points, DealEndReason::Declared);
            } else {
                let winner = closer.other();
                let points = if self.deal.tricks_won[winner.index()] == 0 {
                    3
                } else {
                    2
                };
                self.award_deal(winner, points, DealEndReason::ClosedStockFailed);
            }
            return;
        }
        let ghost m0 = self@;
        let i = last_winner.index();
        self.deal.card_points[i] = self.deal.card_points[i] + 10;
        let ghost d = DealModel {
            card_points: m0.deal.card_points.update(i as int, (m0.deal.card_points[i as int] + 10) as u16),
            ..m0.deal
        };
        assert(self@ =~= m0.with_deal(d));
        let winner = if self.deal.card_points[i] >= 66 {
            last_winner
        } else {
            last_winner.other()
        };
        let points = game_points_for(&self.deal, winner);
        self.award_deal(winner, points, DealEndReason::LastTrick);
    }

    fn award_deal(&mut self, winner: Seat, game_points: u8, reason: DealEndReason)
        ensures
            final(self)@ == old(self)@.awarded(winner, game_points, reason),
    {
        let ghost m0 = self@;
        self.deal.result = Some(DealResult { winner, game_points, reason });
        let i = winner.index();
        self.match_points[i] = self.match_points[i].saturating_add(game_points);
        if self.match_points[i] >= MATCH_TARGET {
            self.winner = Some(winner);
        }
        assert(self@.match_points =~= m0.awarded(winner, game_points, reason).match_points);
        assert(self@ =~= m0.awarded(winner, game_points, reason));
    }

    fn next_deal(&mut self) -> (r: Result<Transition, RuleError>)
        requires
            old(self)@.deal.result is Some ==> old(self)@.deal_number < u32::MAX,
        ensures
            old(self)@.deal.result is None ==> r == Err::<Transition, RuleError>(RuleError::ActionUnavailable)
                && final(self)@ == old(self)@,
            old(self)@.deal.result is Some ==> r == Ok::<Transition, RuleError>(
                Transition { deal_ended: false, match_ended: false },
            ) && final(self)@ == old(self)@.next_dealt(),
            old(self)@.wf() && old(self)@.winner is None ==> final(self)@.wf(),
    {
        if self.deal.result.is_none() {
            return Err(RuleError::ActionUnavailable);
        }
        let ghost m0 = self@;
        self.dealer = self.dealer.other();
        self.deal_number = self.deal_number + 1;
        self.deal = DealState::deal(self.next_seed, self.dealer);
        self.next_seed = self.next_seed.wrapping_add(0x9E37_79B9_7F4A_7C15);
        assert(self@ =~= m0.next_dealt());
        Ok(Transition { deal_ended: false, match_ended: false })
    }
}

/// Placing a card keeps the counters' room unless a marriage is announced, and an
/// announcing card always opens a trick.
pub proof fn lemma_placed_counters(d: DealModel, seat: Seat, card: Card, announce: bool)
    requires
        d.counters_fit(),
        announce ==> d.may_announce(seat, card),
    ensures
        d.placed(seat, card, announce).trick.len() == d.trick.len() + 1,
        !announce ==> d.placed(seat, card, announce).card_points == d.card_points
            && d.placed(seat, card, announce).pending == d.pending
            && d.placed(seat, card, announce).tricks_won == d.tricks_won,
        announce ==> d.trick.len() == 0,
{
}

/// After a trick is settled the winner still has room for the last-trick bonus.
pub proof fn lemma_resolved_room(d: DealModel)
    requires
        d.counters_fit(),
        d.trick.len() == 2,
    ensures
        d.resolved().card_points[d.trick_winner().idx()] + 10 <= u16::MAX,
{
    let w = d.trick_winner();
    let i = w.idx();
    let scored_points = (d.card_points[i] + d.trick_points() + d.pending[i]) as u16;
    assert(d.trick[0].card.rank.pts() <= 11 && d.trick[1].card.rank.pts() <= 11);
}

/// Game points for `winner` at the end of `deal`.
pub fn game_points_for(deal: &DealState, winner: Seat) -> (r: u8)
    ensures
        r == game_points_of(deal@, winner),
        1 <= r <= 3,
{
    let loser = winner.other();
    if deal.tricks_won[loser.index()] == 0 {
        3
    } else if deal.card_points[loser.index()] <= 32 {
        2
    } else {
        1
    }
}

} // verus!
