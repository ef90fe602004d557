//! The state of one deal: hands, stock, current trick and card points.
use std::collections::VecDeque;
use vstd::prelude::*;

use vstd::multiset::Multiset;

use crate::cards::{beats, card_beats, deck_view, full_deck, Card, Rank, Seat, Suit};
use crate::rng::{seeded_shuffle, shuffle_with_seed};

verus! {

#[derive(Debug, Clone, Copy, PartialEq, Eq, Structural)]
pub struct PlayedCard {
    pub seat: Seat,
    pub card: Card,
    pub marriage: Option<u16>,
}

#[derive(Debug, Clone, Copy, PartialEq, Eq)]
pub struct TrickSummary {
    pub cards: [PlayedCard; 2],
    pub winner: Seat,
    pub points: u16,
}

#[derive(Debug, Clone, Copy, PartialEq, Eq, Structural)]
pub enum DealEndReason {
    Declared,
    IncorrectDeclaration,
    ClosedStockFailed,
    LastTrick,
}

#[derive(Debug, Clone, Copy, PartialEq, Eq, Structural)]
pub struct DealResult {
    pub winner: Seat,
    pub game_points: u8,
    pub reason: DealEndReason,
}

#[derive(Debug, Clone, PartialEq, Eq)]
pub struct DealState {
    pub hands: [Vec<Card>; 2],
    pub talon: VecDeque<Card>,
    pub trump_card: Option<Card>,
    pub trump: Suit,
    pub leader: Seat,
    pub trick: Vec<PlayedCard>,
    pub card_points: [u16; 2],
    pub tricks_won: [u8; 2],
    pub pending_marriages: [u16; 2],
    pub closed_by: Option<Seat>,
    pub public_known_hands: [Vec<Card>; 2],
    pub played_cards: Vec<Card>,
    pub last_trick: Option<TrickSummary>,
    pub result: Option<DealResult>,
}

/// The mathematical picture of a deal: every collection as a sequence, and the
/// per-seat arrays as sequences of length two indexed by `Seat::idx`.
#[verifier::ext_equal]
pub struct DealModel {
    pub hands: Seq<Seq<Card>>,
    pub talon: Seq<Card>,
    pub trump_card: Option<Card>,
    pub trump: Suit,
    pub leader: Seat,
    pub trick: Seq<PlayedCard>,
    pub card_points: Seq<u16>,
    pub tricks_won: Seq<u8>,
    pub pending: Seq<u16>,
    pub closed_by: Option<Seat>,
    pub known: Seq<Seq<Card>>,
    pub played: Seq<Card>,
    pub last_trick: Option<TrickSummary>,
    pub result: Option<DealResult>,
}

/// `d1` and `d2` differ at most in what `seat` cannot see: the opponent's hand (any
/// cards) and the talon (any cards, any order, but the same length).
pub open spec fn same_public_part(d1: DealModel, d2: DealModel, seat: Seat) -> bool {
    &&& d1.hands.len() == 2
    &&& d2.hands.len() == 2
    &&& d1.hands[seat.idx()] == d2.hands[seat.idx()]
    &&& d1.talon.len() == d2.talon.len()
    &&& d2 == DealModel { hands: d2.hands, talon: d2.talon, ..d1 }
}

impl View for DealState {
    type V = DealModel;

    open spec fn view(&self) -> DealModel {
        DealModel {
            hands: seq![self.hands[0]@, self.hands[1]@],
            talon: self.talon@,
            trump_card: self.trump_card,
            trump: self.trump,
            leader: self.leader,
            trick: self.trick@,
            card_points: self.card_points@,
            tricks_won: self.tricks_won@,
            pending: self.pending_marriages@,
            closed_by: self.closed_by,
            known: seq![self.public_known_hands[0]@, self.public_known_hands[1]@],
            played: self.played_cards@,
            last_trick: self.last_trick,
            result: self.result,
        }
    }
}

pub open spec fn of_suit(suit: Suit) -> spec_fn(Card) -> bool {
    |c: Card| c.suit == suit
}

pub open spec fn stronger_than(strength: int) -> spec_fn(Card) -> bool {
    |c: Card| c.rank.ord() > strength
}

pub open spec fn differs_from(card: Card) -> spec_fn(Card) -> bool {
    |c: Card| c != card
}

/// The cards of `hand` that may follow `lead`.
///
/// With no lead, or while play is not strict, every card may be played. In strict
/// play the follower must head the led suit if possible, else follow it, else trump,
/// else play anything.
pub open spec fn legal_in_hand(hand: Seq<Card>, lead: Option<Card>, strict: bool, trump: Suit) -> Seq<Card> {
    match lead {
        None => hand,
        Some(l) => if !strict {
            hand
        } else {
            let same = hand.filter(of_suit(l.suit));
            if same.len() > 0 {
                let higher = same.filter(stronger_than(l.rank.ord()));
                if higher.len() > 0 {
                    higher
                } else {
                    same
                }
            } else {
                let trumps = hand.filter(of_suit(trump));
                if trumps.len() > 0 {
                    trumps
                } else {
                    hand
                }
            }
        },
    }
}

/// The marriage partner of a King or Queen.
pub open spec fn partner_card(card: Card) -> Card {
    Card { suit: card.suit, rank: card.rank.partner()->0 }
}

/// First position of `card` in `cards` (meaningful when `cards` contains it).
pub open spec fn first_pos(cards: Seq<Card>, card: Card) -> int {
    choose|i: int| 0 <= i < cards.len() && cards[i] == card && forall|j: int| 0 <= j < i ==> cards[j] != card
}

/// `cards` with `card` added at the end unless it is already there.
pub open spec fn with_card(cards: Seq<Card>, card: Card) -> Seq<Card> {
    if cards.contains(card) {
        cards
    } else {
        cards.push(card)
    }
}

/// The face-up trump card as a sequence of zero or one cards.
pub open spec fn opt_cards(card: Option<Card>) -> Seq<Card> {
    match card {
        Some(c) => seq![c],
        None => Seq::empty(),
    }
}

impl DealModel {
    /// Every card of the deal, wherever it lies: hands, talon, face-up trump, played.
    pub open spec fn pool(self) -> Multiset<Card> {
        self.hands[0].to_multiset().add(self.hands[1].to_multiset()).add(self.talon.to_multiset()).add(
            opt_cards(self.trump_card).to_multiset(),
        ).add(self.played.to_multiset())
    }

    pub open spec fn shaped(self) -> bool {
        &&& self.hands.len() == 2
        &&& self.known.len() == 2
        &&& self.card_points.len() == 2
        &&& self.tricks_won.len() == 2
        &&& self.pending.len() == 2
    }

    /// Every card publicly known to be in a hand is in that hand.
    pub open spec fn known_held(self) -> bool {
        forall|i: int, c: Card| 0 <= i < 2 && #[trigger] self.known[i].contains(c) ==> self.hands[i].contains(c)
    }

    /// Sum of both seats' card points and pending marriages.
    pub open spec fn score_total(self) -> int {
        self.card_points[0] + self.card_points[1] + self.pending[0] + self.pending[1]
    }

    /// The invariant of every deal that play can reach, apart from the deal still
    /// having cards in hand while it runs.
    ///
    /// The 24 cards are all there, each once, spread over hands, talon, face-up trump
    /// and played cards; publicly known cards are really held; at most the lead card
    /// lies on the table, played by the leader; both hands are equal but for that lead
    /// card; the stock holds an even number of cards and the trump is turned down last;
    /// and the tricks and points agree with the cards played.
    pub open spec fn settled(self) -> bool {
        &&& self.shaped()
        &&& self.pool() == deck_view().to_multiset()
        &&& self.known_held()
        &&& self.trick.len() <= 1
        &&& self.trick.len() == 1 ==> self.trick[0].seat == self.leader
        &&& self.played.len() == 2 * (self.tricks_won[0] + self.tricks_won[1]) + self.trick.len()
        &&& self.score_total() <= 52 * self.played.len()
        &&& self.hands[self.leader.opp().idx()].len() == self.hands[self.leader.idx()].len() + self.trick.len()
        &&& self.stock() % 2 == 0
        &&& self.trump_card is None ==> self.talon.len() == 0
    }

    /// The invariant of every deal that play can reach: `settled`, and a deal still
    /// running has cards in hand.
    pub open spec fn wf(self) -> bool {
        &&& self.settled()
        &&& self.result is None ==> self.hands[0].len() + self.hands[1].len() > 0
    }

    pub open spec fn active(self) -> Seat {
        if self.trick.len() == 0 {
            self.leader
        } else {
            self.trick[0].seat.opp()
        }
    }

    pub open spec fn strict(self) -> bool {
        self.closed_by is Some || self.trump_card is None
    }

    pub open spec fn stock(self) -> int {
        self.talon.len() + if self.trump_card is Some {
            1int
        } else {
            0int
        }
    }

    pub open spec fn lead_card(self) -> Option<Card> {
        if self.trick.len() == 0 {
            None
        } else {
            Some(self.trick[0].card)
        }
    }

    pub open spec fn marriage_of(self, card: Card) -> Option<u16> {
        if card.rank.partner() is Some {
            Some(
                if card.suit == self.trump {
                    40u16
                } else {
                    20u16
                },
            )
        } else {
            None
        }
    }

    pub open spec fn may_announce(self, seat: Seat, card: Card) -> bool {
        &&& !self.strict()
        &&& self.trick.len() == 0
        &&& self.leader == seat
        &&& card.rank.partner() is Some
        &&& self.hands[seat.idx()].contains(partner_card(card))
    }

    pub open spec fn may_exchange(self, seat: Seat) -> bool {
        &&& self.result is None
        &&& self.closed_by is None
        &&& self.talon.len() > 0
        &&& self.trump_card is Some
        &&& self.trick.len() == 0
        &&& self.leader == seat
        &&& self.tricks_won[seat.idx()] > 0
        &&& self.hands[seat.idx()].contains(Card { suit: self.trump, rank: Rank::Nine })
    }

    pub open spec fn may_close(self, seat: Seat) -> bool {
        &&& self.result is None
        &&& self.closed_by is None
        &&& self.trump_card is Some
        &&& self.talon.len() > 0
        &&& self.trick.len() == 0
        &&& self.leader == seat
    }

    pub open spec fn legal(self, seat: Seat) -> Seq<Card> {
        if self.result is Some || self.active() != seat {
            Seq::empty()
        } else {
            legal_in_hand(self.hands[seat.idx()], self.lead_card(), self.strict(), self.trump)
        }
    }

    /// The seat's hand loses its first copy of `card`, and the card is no longer
    /// publicly known to be there.
    pub open spec fn without_card(self, seat: Seat, card: Card) -> DealModel {
        let i = seat.idx();
        DealModel {
            hands: self.hands.update(i, self.hands[i].remove(first_pos(self.hands[i], card))),
            known: self.known.update(i, self.known[i].filter(differs_from(card))),
            ..self
        }
    }

    /// The seat scores an announced marriage: pending until its first trick, then
    /// counted at once; the partner card becomes publicly known.
    pub open spec fn with_marriage(self, seat: Seat, card: Card) -> DealModel {
        let i = seat.idx();
        let value = self.marriage_of(card)->0;
        DealModel {
            pending: if self.tricks_won[i] == 0 {
                self.pending.update(i, (self.pending[i] + value) as u16)
            } else {
                self.pending
            },
            card_points: if self.tricks_won[i] == 0 {
                self.card_points
            } else {
                self.card_points.update(i, (self.card_points[i] + value) as u16)
            },
            known: self.known.update(i, with_card(self.known[i], partner_card(card))),
            ..self
        }
    }

    /// The card goes onto the table and into the record of played cards.
    pub open spec fn with_play(self, seat: Seat, card: Card, marriage: Option<u16>) -> DealModel {
        DealModel {
            trick: self.trick.push(PlayedCard { seat, card, marriage }),
            played: self.played.push(card),
            ..self
        }
    }

    /// The whole effect of the seat putting `card` on the table, announcing a
    /// marriage with it or not.
    pub open spec fn placed(self, seat: Seat, card: Card, announce: bool) -> DealModel {
        let m1 = self.without_card(seat, card);
        let m2 = if announce {
            m1.with_marriage(seat, card)
        } else {
            m1
        };
        m2.with_play(
            seat,
            card,
            if announce {
                self.marriage_of(card)
            } else {
                None
            },
        )
    }

    /// The seat draws the top of the talon, or the face-up trump once the talon is empty.
    pub open spec fn draw(self, seat: Seat) -> DealModel {
        let i = seat.idx();
        if self.talon.len() > 0 {
            DealModel {
                hands: self.hands.update(i, self.hands[i].push(self.talon[0])),
                talon: self.talon.drop_first(),
                ..self
            }
        } else if self.trump_card is Some {
            DealModel {
                hands: self.hands.update(i, self.hands[i].push(self.trump_card->0)),
                trump_card: None,
                ..self
            }
        } else {
            self
        }
    }

    pub open spec fn trick_winner(self) -> Seat {
        if beats(self.trick[1].card, self.trick[0].card, self.trump) {
            self.trick[1].seat
        } else {
            self.trick[0].seat
        }
    }

    pub open spec fn trick_points(self) -> u16 {
        (self.trick[0].card.rank.pts() + self.trick[1].card.rank.pts()) as u16
    }

    /// The two-card trick goes to its winner with its points and any pending marriages;
    /// the winner leads next, and while the stock is open both draw, winner first.
    pub open spec fn resolved(self) -> DealModel {
        let w = self.trick_winner();
        let i = w.idx();
        let scored = DealModel {
            card_points: self.card_points.update(
                i,
                (self.card_points[i] + self.trick_points() + self.pending[i]) as u16,
            ),
            tricks_won: self.tricks_won.update(i, (self.tricks_won[i] + 1) as u8),
            pending: self.pending.update(i, 0u16),
            last_trick: Some(
                TrickSummary {
                    cards: [self.trick[0], self.trick[1]],
                    winner: w,
                    points: self.trick_points(),
                },
            ),
            trick: Seq::empty(),
            leader: w,
            ..self
        };
        if self.closed_by is None && self.trump_card is Some {
            scored.draw(w).draw(w.opp())
        } else {
            scored
        }
    }

    /// Room left in the per-seat counters for one more action (a machine limit:
    /// reachable deals stay far below it).
    pub open spec fn counters_fit(self) -> bool {
        &&& self.card_points.len() == 2
        &&& self.tricks_won.len() == 2
        &&& self.pending.len() == 2
        &&& self.card_points[0] + self.pending[0] + 72 <= u16::MAX
        &&& self.card_points[1] + self.pending[1] + 72 <= u16::MAX
        &&& self.tricks_won[0] < u8::MAX
        &&& self.tricks_won[1] < u8::MAX
    }
}

/// Whether `cards` holds `card`.
pub fn holds(cards: &Vec<Card>, card: Card) -> (r: bool)
    ensures
        r == cards@.contains(card),
{
    let mut i: usize = 0;
    while i < cards.len()
        invariant
            i <= cards.len(),
            forall|j: int| 0 <= j < i ==> cards@[j] != card,
        decreases cards.len() - i,
    {
        if cards[i] == card {
            return true;
        }
        i = i + 1;
    }
    false
}

/// A copy of `cards`.
pub fn copy_cards(cards: &Vec<Card>) -> (r: Vec<Card>)
    ensures
        r@ == cards@,
{
    let mut out: Vec<Card> = Vec::new();
    let mut i: usize = 0;
    while i < cards.len()
        invariant
            i <= cards.len(),
            out@ == cards@.take(i as int),
        decreases cards.len() - i,
    {
        out.push(cards[i]);
        assert(cards@.take(i + 1) =~= cards@.take(i as int).push(cards@[i as int]));
        i = i + 1;
    }
    assert(cards@.take(cards.len() as int) =~= cards@);
    out
}

/// The cards of `cards` of the given suit, in order.
pub fn cards_of_suit(cards: &Vec<Card>, suit: Suit) -> (r: Vec<Card>)
    ensures
        r@ == cards@.filter(of_suit(suit)),
{
    let mut out: Vec<Card> = Vec::new();
    let mut i: usize = 0;
    while i < cards.len()
        invariant
            i <= cards.len(),
            out@ == cards@.take(i as int).filter(of_suit(suit)),
        decreases cards.len() - i,
    {
        proof {
            reveal_with_fuel(Seq::filter, 1);
            assert(cards@.take(i + 1).drop_last() =~= cards@.take(i as int));
        }
        if cards[i].suit == suit {
            out.push(cards[i]);
        }
        i = i + 1;
    }
    assert(cards@.take(cards.len() as int) =~= cards@);
    out
}

/// The cards of `cards` stronger than the given strength, in order.
pub fn cards_stronger(cards: &Vec<Card>, strength: u8) -> (r: Vec<Card>)
    ensures
        r@ == cards@.filter(stronger_than(strength as int)),
{
    let mut out: Vec<Card> = Vec::new();
    let mut i: usize = 0;
    while i < cards.len()
        invariant
            i <= cards.len(),
            out@ == cards@.take(i as int).filter(stronger_than(strength as int)),
        decreases cards.len() - i,
    {
        proof {
            reveal_with_fuel(Seq::filter, 1);
            assert(cards@.take(i + 1).drop_last() =~= cards@.take(i as int));
        }
        if cards[i].rank.strength() > strength {
            out.push(cards[i]);
        }
        i = i + 1;
    }
    assert(cards@.take(cards.len() as int) =~= cards@);
    out
}

/// `cards` without any copy of `card`.
pub fn cards_without(cards: &Vec<Card>, card: Card) -> (r: Vec<Card>)
    ensures
        r@ == cards@.filter(differs_from(card)),
{
    let mut out: Vec<Card> = Vec::new();
    let mut i: usize = 0;
    while i < cards.len()
        invariant
            i <= cards.len(),
            out@ == cards@.take(i as int).filter(differs_from(card)),
        decreases cards.len() - i,
    {
        proof {
            reveal_with_fuel(Seq::filter, 1);
            assert(cards@.take(i + 1).drop_last() =~= cards@.take(i as int));
        }
        if cards[i] != card {
            out.push(cards[i]);
        }
        i = i + 1;
    }
    assert(cards@.take(cards.len() as int) =~= cards@);
    out
}

/// Position of the first copy of `card` in `cards`, if any.
pub fn position_of(cards: &Vec<Card>, card: Card) -> (r: Option<usize>)
    ensures
        r is None <==> !cards@.contains(card),
        r matches Some(i) ==> i < cards@.len() && i == first_pos(cards@, card),
{
    let mut i: usize = 0;
    while i < cards.len()
        invariant
            i <= cards.len(),
            forall|j: int| 0 <= j < i ==> cards@[j] != card,
        decreases cards.len() - i,
    {
        if cards[i] == card {
            proof {
                lemma_first_pos(cards@, card, i as int);
            }
            return Some(i);
        }
        i = i + 1;
    }
    None
}

/// The first position of a card is the index where it first occurs.
pub proof fn lemma_first_pos(cards: Seq<Card>, card: Card, i: int)
    requires
        0 <= i < cards.len(),
        cards[i] == card,
        forall|j: int| 0 <= j < i ==> cards[j] != card,
    ensures
        first_pos(cards, card) == i,
{
    let k = first_pos(cards, card);
    assert(0 <= k < cards.len() && cards[k] == card && forall|j: int| 0 <= j < k ==> cards[j] != card);
    if k < i {
        assert(cards[k] != card);
    } else if k > i {
        assert(cards[i] != card);
    }
}

impl DealState {
    pub fn active_player(&self) -> (r: Seat)
        ensures
            r == self@.active(),
    {
        if self.trick.len() == 0 {
            self.leader
        } else {
            self.trick[0].seat.other()
        }
    }

    pub fn is_strict(&self) -> (r: bool)
        ensures
            r == self@.strict(),
    {
        self.closed_by.is_some() || self.trump_card.is_none()
    }

    pub fn stock_count(&self) -> (r: usize)
        requires
            self.talon@.len() < usize::MAX,
        ensures
            r == self@.stock(),
    {
        self.talon.len() + if self.trump_card.is_some() {
            1
        } else {
            0
        }
    }

    pub fn marriage_value(&self, card: Card) -> (r: Option<u16>)
        ensures
            r == self@.marriage_of(card),
    {
        match card.rank.marriage_partner() {
            Some(_) => Some(
                if card.suit == self.trump {
                    40
                } else {
                    20
                },
            ),
            None => None,
        }
    }

    pub fn can_announce_marriage(&self, seat: Seat, card: Card) -> (r: bool)
        ensures
            r == self@.may_announce(seat, card),
    {
        if self.is_strict() || self.trick.len() != 0 || self.leader != seat {
            return false;
        }
        match card.rank.marriage_partner() {
            Some(partner) => holds(&self.hands[seat.index()], Card::new(card.suit, partner)),
            None => false,
        }
    }

    pub fn can_exchange_trump(&self, seat: Seat) -> (r: bool)
        ensures
            r == self@.may_exchange(seat),
    {
        self.result.is_none() && self.closed_by.is_none() && self.talon.len() != 0
            && self.trump_card.is_some() && self.trick.len() == 0 && self.leader == seat
            && self.tricks_won[seat.index()] > 0 && holds(
            &self.hands[seat.index()],
            Card::new(self.trump, Rank::Nine),
        )
    }

    pub fn can_close_stock(&self, seat: Seat) -> (r: bool)
        ensures
            r == self@.may_close(seat),
    {
        self.result.is_none() && self.closed_by.is_none() && self.trump_card.is_some()
            && self.talon.len() != 0 && self.trick.len() == 0 && self.leader == seat
    }

    pub fn legal_cards(&self, seat: Seat) -> (r: Vec<Card>)
        ensures
            r@ == self@.legal(seat),
    {
        if self.result.is_some() || self.active_player() != seat {
            return Vec::new();
        }
        let hand = &self.hands[seat.index()];
        if self.trick.len() == 0 {
            return copy_cards(hand);
        }
        legal_from_hand(hand, self.trick[0].card, self.is_strict(), self.trump)
    }
}

/// The cards of `hand` that may follow `lead`, as `legal_in_hand` describes.
pub fn legal_from_hand(hand: &Vec<Card>, lead: Card, strict: bool, trump: Suit) -> (r: Vec<Card>)
    ensures
        r@ == legal_in_hand(hand@, Some(lead), strict, trump),
{
    if !strict {
        return copy_cards(hand);
    }
    let same_suit = cards_of_suit(hand, lead.suit);
    if same_suit.len() != 0 {
        let higher = cards_stronger(&same_suit, lead.rank.strength());
        return if higher.len() == 0 {
            same_suit
        } else {
            higher
        };
    }
    let trumps = cards_of_suit(hand, trump);
    if trumps.len() == 0 {
        copy_cards(hand)
    } else {
        trumps
    }
}

/// The deal that the given seed and dealer produce: the deck shuffled by the seed,
/// three cards each (non-dealer first), three more each, the next card turned up as
/// trump, the rest face down in the talon; the non-dealer leads.
pub open spec fn dealt(seed: u64, dealer: Seat) -> DealModel {
    let order = seeded_shuffle(deck_view(), seed);
    let first = order.subrange(0, 3) + order.subrange(6, 9);
    let second = order.subrange(3, 6) + order.subrange(9, 12);
    DealModel {
        hands: if dealer == Seat::One {
            seq![second, first]
        } else {
            seq![first, second]
        },
        talon: order.subrange(13, 24),
        trump_card: Some(order[12]),
        trump: order[12].suit,
        leader: dealer.opp(),
        trick: Seq::empty(),
        card_points: seq![0u16, 0u16],
        tricks_won: seq![0u8, 0u8],
        pending: seq![0u16, 0u16],
        closed_by: None,
        known: seq![Seq::empty(), Seq::empty()],
        played: Seq::empty(),
        last_trick: None,
        result: None,
    }
}

/// Appends `deck[from..to]` to `cards`.
fn append_range(cards: &mut Vec<Card>, deck: &Vec<Card>, from: usize, to: usize)
    requires
        from <= to <= deck@.len(),
    ensures
        final(cards)@ == old(cards)@ + deck@.subrange(from as int, to as int),
{
    let mut k = from;
    while k < to
        invariant
            from <= k <= to <= deck@.len(),
            cards@ == old(cards)@ + deck@.subrange(from as int, k as int),
        decreases to - k,
    {
        cards.push(deck[k]);
        assert(deck@.subrange(from as int, k + 1) =~= deck@.subrange(from as int, k as int).push(deck@[k as int]));
        k = k + 1;
    }
}

impl DealState {
    /// Shuffles the deck with `seed` and deals it, as `dealt` describes.
    pub(crate) fn deal(seed: u64, dealer: Seat) -> (r: DealState)
        ensures
            r@ == dealt(seed, dealer),
            r@.wf(),
    {
        let deck = shuffle_with_seed(full_deck(), seed);
        proof {
            crate::laws::lemma_dealt_wf(seed, dealer);
        }
        proof {
            deck@.to_multiset_ensures();
            deck_view().to_multiset_ensures();
        }
        let ghost order = seeded_shuffle(deck_view(), seed);
        assert(deck@ == order);
        let non_dealer = dealer.other();
        let mut first: Vec<Card> = Vec::new();
        let mut second: Vec<Card> = Vec::new();
        append_range(&mut first, &deck, 0, 3);
        append_range(&mut second, &deck, 3, 6);
        append_range(&mut first, &deck, 6, 9);
        append_range(&mut second, &deck, 9, 12);
        let trump_card = deck[12];
        let mut talon: VecDeque<Card> = VecDeque::new();
        let mut k: usize = 13;
        while k < 24
            invariant
                13 <= k <= 24,
                deck@.len() == 24,
                talon@ == deck@.subrange(13, k as int),
            decreases 24 - k,
        {
            talon.push_back(deck[k]);
            assert(deck@.subrange(13, k + 1) =~= deck@.subrange(13, k as int).push(deck@[k as int]));
            k = k + 1;
        }
        let hands = if dealer == Seat::One {
            [second, first]
        } else {
            [first, second]
        };
        let r = DealState {
            hands,
            talon,
            trump_card: Some(trump_card),
            trump: trump_card.suit,
            leader: non_dealer,
            trick: Vec::new(),
            card_points: [0, 0],
            tricks_won: [0, 0],
            pending_marriages: [0, 0],
            closed_by: None,
            public_known_hands: [Vec::new(), Vec::new()],
            played_cards: Vec::new(),
            last_trick: None,
            result: None,
        };
        proof {
            let d = dealt(seed, dealer);
            assert(first@ =~= order.subrange(0, 3) + order.subrange(6, 9));
            assert(second@ =~= order.subrange(3, 6) + order.subrange(9, 12));
            assert(r@.hands =~= d.hands);
            assert(r@.card_points =~= d.card_points);
            assert(r@.tricks_won =~= d.tricks_won);
            assert(r@.pending =~= d.pending);
            assert(r@.known =~= d.known);
            assert(r@.trick =~= d.trick);
            assert(r@.played =~= d.played);
            assert(r@ =~= d);
        }
        r
    }

    /// Puts a held card on the table: it leaves the hand and the public record of
    /// the hand, scores the marriage if one is announced, and is recorded as played.
    pub(crate) fn place_card(&mut self, seat: Seat, card: Card, hand_index: usize, announce: bool)
        requires
            hand_index < old(self)@.hands[seat.idx()].len(),
            hand_index == first_pos(old(self)@.hands[seat.idx()], card),
            announce ==> old(self)@.marriage_of(card) is Some,
            old(self)@.counters_fit(),
        ensures
            final(self)@ == old(self)@.placed(seat, card, announce),
    {
        let i = seat.index();
        let ghost m0 = self@;
        self.hands[i].remove(hand_index);
        self.public_known_hands[i] = cards_without(&self.public_known_hands[i], card);
        let ghost m1 = self@;
        assert(m1 =~= m0.without_card(seat, card)) by {
            assert(m1.hands =~= m0.without_card(seat, card).hands);
            assert(m1.known =~= m0.without_card(seat, card).known);
        }
        assert(m1.card_points == m0.card_points && m1.tricks_won == m0.tricks_won && m1.pending == m0.pending);
        let marriage = if announce {
            Some(self.add_marriage(seat, card))
        } else {
            None
        };
        let ghost m2 = self@;
        self.trick.push(PlayedCard { seat, card, marriage });
        self.played_cards.push(card);
        assert(self@ =~= m2.with_play(seat, card, marriage));
    }

    fn add_marriage(&mut self, seat: Seat, card: Card) -> (value: u16)
        requires
            old(self)@.marriage_of(card) is Some,
            old(self)@.counters_fit(),
        ensures
            value == old(self)@.marriage_of(card)->0,
            final(self)@ == old(self)@.with_marriage(seat, card),
    {
        let ghost m0 = self@;
        let i = seat.index();
        let value = if card.suit == self.trump {
            40
        } else {
            20
        };
        if self.tricks_won[i] == 0 {
            self.pending_marriages[i] = self.pending_marriages[i] + value;
        } else {
            self.card_points[i] = self.card_points[i] + value;
        }
        let partner = Card::new(card.suit, card.rank.marriage_partner().unwrap());
        if !holds(&self.public_known_hands[i], partner) {
            self.public_known_hands[i].push(partner);
        }
        assert(self@.known =~= m0.with_marriage(seat, card).known);
        assert(self@.pending =~= m0.with_marriage(seat, card).pending);
        assert(self@.card_points =~= m0.with_marriage(seat, card).card_points);
        assert(self@ =~= m0.with_marriage(seat, card));
        value
    }

    pub(crate) fn remove_known_card(&mut self, seat: Seat, card: Card)
        ensures
            final(self)@ == (DealModel {
                known: old(self)@.known.update(
                    seat.idx(),
                    old(self)@.known[seat.idx()].filter(differs_from(card)),
                ),
                ..old(self)@
            }),
    {
        let i = seat.index();
        let ghost m0 = self@;
        self.public_known_hands[i] = cards_without(&self.public_known_hands[i], card);
        assert(self@.known =~= m0.known.update(seat.idx(), m0.known[seat.idx()].filter(differs_from(card))));
    }

    fn draw_for(&mut self, seat: Seat)
        ensures
            final(self)@ == old(self)@.draw(seat),
    {
        let ghost m0 = self@;
        let i = seat.index();
        match self.talon.pop_front() {
            Some(card) => {
                self.hands[i].push(card);
                assert(self@.hands =~= m0.draw(seat).hands);
                assert(self@ =~= m0.draw(seat));
            },
            None => {
                match self.trump_card.take() {
                    Some(card) => {
                        self.hands[i].push(card);
                        assert(self@.hands =~= m0.draw(seat).hands);
                        assert(self@ =~= m0.draw(seat));
                    },
                    None => {
                        assert(self@ =~= m0.draw(seat));
                    },
                }
            },
        }
    }

    /// Settles a complete two-card trick and returns its winner.
    pub(crate) fn resolve_trick(&mut self) -> (winner: Seat)
        requires
            old(self)@.trick.len() == 2,
            old(self)@.counters_fit(),
        ensures
            winner == old(self)@.trick_winner(),
            final(self)@ == old(self)@.resolved(),
    {
        let ghost m0 = self@;
        let first = self.trick[0];
        let second = self.trick[1];
        let winner = if card_beats(second.card, first.card, self.trump) {
            second.seat
        } else {
            first.seat
        };
        let trick_points = first.card.rank.points() + second.card.rank.points();
        let w = winner.index();
        self.card_points[w] = self.card_points[w] + trick_points;
        self.tricks_won[w] = self.tricks_won[w] + 1;
        self.card_points[w] = self.card_points[w] + self.pending_marriages[w];
        self.pending_marriages[w] = 0;
        self.last_trick = Some(TrickSummary { cards: [first, second], winner, points: trick_points });
        self.trick.clear();
        self.leader = winner;
        let ghost scored = self@;
        assert(scored.card_points =~= m0.card_points.update(
            w as int,
            (m0.card_points[w as int] + m0.trick_points() + m0.pending[w as int]) as u16,
        ));
        assert(scored.tricks_won =~= m0.tricks_won.update(w as int, (m0.tricks_won[w as int] + 1) as u8));
        assert(scored.pending =~= m0.pending.update(w as int, 0u16));
        assert(scored.trick =~= Seq::<PlayedCard>::empty());
        if self.closed_by.is_none() && self.trump_card.is_some() {
            self.draw_for(winner);
            self.draw_for(winner.other());
        }
        winner
    }
}

} // verus!
