//! The computer player: what it may see, and how it picks an action from that.
use vstd::prelude::*;

use crate::cards::{beats, card_beats, points_sum, Card, Rank, Seat, Suit};
use crate::deal::{copy_cards, holds, legal_from_hand, legal_in_hand, partner_card, same_public_part, DealModel};
use crate::game::{Action, MatchState};
use crate::rng::{seeded_second_shuffle, seeded_shuffle, shuffle_pair_with_seed, shuffle_with_seed};

verus! {

/// Everything the computer is allowed to know.
///
/// Public fields are copied into this type so that a strategy cannot look at the real
/// opponent hand or the order of the talon.
#[derive(Debug, Clone)]
pub struct Observation {
    pub seat: Seat,
    pub hand: Vec<Card>,
    pub trump: Suit,
    pub face_up_trump: Option<Card>,
    pub stock_count: usize,
    pub closed_by: Option<Seat>,
    pub leader: Seat,
    pub trick: Vec<(Seat, Card)>,
    pub card_points: [u16; 2],
    pub tricks_won: [u8; 2],
    pub pending_marriages: [u16; 2],
    pub public_known_opponent_cards: Vec<Card>,
    pub played_cards: Vec<Card>,
}

/// Whether some card of `cards` is of the given suit.
pub open spec fn has_suit(cards: Seq<Card>, suit: Suit) -> bool {
    exists|i: int| 0 <= i < cards.len() && cards[i].suit == suit
}

/// `c` is in `cards` and no card of `cards` has a smaller key.
pub open spec fn is_min_by(cards: Seq<Card>, key: spec_fn(Card) -> int, c: Card) -> bool {
    &&& cards.contains(c)
    &&& forall|x: Card| cards.contains(x) ==> key(c) <= #[trigger] key(x)
}

/// Position `i` holds the first card of `cards` with the smallest key: no card has a
/// smaller key, and every card before it has a larger one.
pub open spec fn is_first_min(cards: Seq<Card>, key: spec_fn(Card) -> int, i: int) -> bool {
    &&& 0 <= i < cards.len()
    &&& forall|j: int| 0 <= j < cards.len() ==> key(cards[i]) <= #[trigger] key(cards[j])
    &&& forall|j: int| 0 <= j < i ==> key(cards[i]) < #[trigger] key(cards[j])
}

/// The first card of `cards` with the smallest key: what a stable sort by that key puts
/// first.
pub open spec fn first_min_of(cards: Seq<Card>, key: spec_fn(Card) -> int) -> Card {
    cards[choose|i: int| is_first_min(cards, key, i)]
}

/// Only one position is first with the smallest key, so `first_min_of` names its card.
pub proof fn lemma_first_min_unique(cards: Seq<Card>, key: spec_fn(Card) -> int, i: int)
    requires
        is_first_min(cards, key, i),
    ensures
        first_min_of(cards, key) == cards[i],
{
    let k = choose|k: int| is_first_min(cards, key, k);
    assert(is_first_min(cards, key, k));
    if k < i {
        assert(key(cards[i]) < key(cards[k]));
    } else if i < k {
        assert(key(cards[k]) < key(cards[i]));
    }
}

/// Order among announceable marriage cards: trumps first, then the Queen, then by suit.
pub open spec fn marriage_key(trump: Suit) -> spec_fn(Card) -> int {
    |c: Card|
        (if c.suit != trump {
            8int
        } else {
            0int
        }) + (if c.rank != Rank::Queen {
            4int
        } else {
            0int
        }) + c.suit.ord()
}

/// Order of leads in strict play: suits the opponent is known to hold first, then
/// trumps, then the strongest card.
pub open spec fn strict_lead_key(trump: Suit, known: Seq<Card>) -> spec_fn(Card) -> int {
    |c: Card|
        (if !has_suit(known, c.suit) {
            16int
        } else {
            0int
        }) + (if c.suit != trump {
            8int
        } else {
            0int
        }) + (5 - c.rank.ord())
}

/// Order of cheap cards: non-trumps first, then fewest points, then weakest.
pub open spec fn low_key(trump: Suit) -> spec_fn(Card) -> int {
    |c: Card|
        (if c.suit == trump {
            100int
        } else {
            0int
        }) + c.rank.pts() * 6 + c.rank.ord()
}

/// Order of winning follows: no needless trump, then weakest, then fewest points.
pub open spec fn win_key(trump: Suit, lead: Card) -> spec_fn(Card) -> int {
    |c: Card|
        (if c.suit == trump && lead.suit != trump {
            100int
        } else {
            0int
        }) + c.rank.ord() * 12 + c.rank.pts()
}

pub open spec fn strong_trump(trump: Suit) -> spec_fn(Card) -> bool {
    |c: Card| c.suit == trump && (c.rank == Rank::Ace || c.rank == Rank::Ten || c.rank == Rank::King)
}

pub open spec fn is_ace() -> spec_fn(Card) -> bool {
    |c: Card| c.rank == Rank::Ace
}

pub open spec fn beating(lead: Card, trump: Suit) -> spec_fn(Card) -> bool {
    |c: Card| beats(c, lead, trump)
}

/// Whether the cheapest winning follow is worth spending on a lead of `lead_points`.
pub open spec fn worth_winning(strict: bool, lead_points: int, winner_points: int) -> bool {
    strict || lead_points >= 4 || winner_points <= lead_points + 2
}

impl Observation {
    pub open spec fn lead_view(&self) -> Option<Card> {
        if self.trick@.len() == 0 {
            None
        } else {
            Some(self.trick@[0].1)
        }
    }

    pub open spec fn strict_view(&self) -> bool {
        self.closed_by is Some || self.face_up_trump is None
    }

    pub open spec fn leading_view(&self) -> bool {
        self.trick@.len() == 0 && self.leader == self.seat
    }

    pub open spec fn legal_view(&self) -> Seq<Card> {
        legal_in_hand(self.hand@, self.lead_view(), self.strict_view(), self.trump)
    }

    pub open spec fn announce_view(&self, card: Card) -> bool {
        &&& self.leading_view()
        &&& !self.strict_view()
        &&& card.rank.partner() is Some
        &&& self.hand@.contains(partner_card(card))
    }

    pub open spec fn exchange_wanted(&self) -> bool {
        &&& self.leading_view()
        &&& self.closed_by is None
        &&& self.stock_count > 1
        &&& self.tricks_won@[self.seat.idx()] > 0
        &&& self.face_up_trump is Some
        &&& self.hand@.contains(Card { suit: self.trump, rank: Rank::Nine })
    }

    pub open spec fn strong_trumps(&self) -> int {
        self.hand@.filter(strong_trump(self.trump)).len() as int
    }

    pub open spec fn aces(&self) -> int {
        self.hand@.filter(is_ace()).len() as int
    }

    pub open spec fn announceable(&self) -> spec_fn(Card) -> bool {
        |c: Card| self.announce_view(c)
    }

    /// Closing the stock looks promising: enough points already, or a strong hand.
    pub open spec fn close_wanted(&self) -> bool {
        let points = self.card_points@[self.seat.idx()] as int;
        &&& self.leading_view()
        &&& self.closed_by is None
        &&& self.stock_count > 1
        &&& (points >= 60 || (points >= 50 && points + points_sum(self.hand@) >= 72 && self.strong_trumps() >= 2)
            || (points >= 54 && self.aces() >= 2))
    }

    /// The lead the computer may pick: the best marriage if one can be announced, else
    /// a legal card that is first in the order for the kind of play.
    pub open spec fn lead_pick(&self, card: Card) -> bool {
        let legal = self.legal_view();
        let marriages = legal.filter(self.announceable());
        if marriages.len() > 0 {
            is_min_by(marriages, marriage_key(self.trump), card)
        } else if self.strict_view() {
            is_min_by(legal, strict_lead_key(self.trump, self.public_known_opponent_cards@), card)
        } else {
            is_min_by(legal, low_key(self.trump), card)
        }
    }

    /// The follow the computer may pick: the cheapest winning card when winning is
    /// worth it, else the cheapest legal card.
    pub open spec fn follow_pick(&self, card: Card) -> bool {
        let lead = self.trick@[0].1;
        let legal = self.legal_view();
        let winning = legal.filter(beating(lead, self.trump));
        if exists|w: Card|
            is_min_by(winning, win_key(self.trump, lead), w) && worth_winning(
                self.strict_view(),
                lead.rank.pts() as int,
                w.rank.pts() as int,
            ) {
            is_min_by(winning, win_key(self.trump, lead), card)
        } else {
            is_min_by(legal, low_key(self.trump), card)
        }
    }

    /// The lead the computer plays with tie-breaking seed `entropy`: the first best
    /// marriage in hand order, else the first best card of the legal cards in the order
    /// `seeded_shuffle` gives them.
    pub open spec fn lead_choice(&self, entropy: u64) -> Card {
        let legal = self.legal_view();
        let marriages = legal.filter(self.announceable());
        if marriages.len() > 0 {
            first_min_of(marriages, marriage_key(self.trump))
        } else if self.strict_view() {
            first_min_of(
                seeded_shuffle(legal, entropy),
                strict_lead_key(self.trump, self.public_known_opponent_cards@),
            )
        } else {
            first_min_of(seeded_shuffle(legal, entropy), low_key(self.trump))
        }
    }

    /// The follow the computer plays with tie-breaking seed `entropy`: the winning cards
    /// are shuffled first and the first cheapest of them is played when worth it; else
    /// the legal cards are shuffled next with the same generator (or first, when no card
    /// wins) and the first cheapest of them is played.
    pub open spec fn follow_choice(&self, entropy: u64) -> Card {
        let lead = self.trick@[0].1;
        let legal = self.legal_view();
        let winning = legal.filter(beating(lead, self.trump));
        let best = first_min_of(seeded_shuffle(winning, entropy), win_key(self.trump, lead));
        if winning.len() > 0 && worth_winning(self.strict_view(), lead.rank.pts() as int, best.rank.pts() as int) {
            best
        } else if winning.len() > 0 {
            first_min_of(seeded_second_shuffle(winning.len(), legal, entropy), low_key(self.trump))
        } else {
            first_min_of(seeded_shuffle(legal, entropy), low_key(self.trump))
        }
    }

    /// The card the computer plays with tie-breaking seed `entropy`.
    pub open spec fn card_choice(&self, entropy: u64) -> Card {
        if self.trick@.len() == 0 {
            self.lead_choice(entropy)
        } else {
            self.follow_choice(entropy)
        }
    }

    /// What the computer may answer, given that it has to play a card.
    pub open spec fn play_pick(&self, action: Action) -> bool {
        match action {
            Action::Play { card, announce_marriage, declare } => {
                &&& if self.trick@.len() == 0 {
                    self.lead_pick(card)
                } else {
                    self.follow_pick(card)
                }
                &&& announce_marriage == self.announce_view(card)
                &&& declare == (announce_marriage && self.tricks_won@[self.seat.idx()] > 0
                    && self.card_points@[self.seat.idx()] + (if card.suit == self.trump {
                    40int
                } else {
                    20int
                }) >= 66)
            },
            _ => false,
        }
    }

    /// The observation shows `seat` exactly the public part of `deal`.
    pub open spec fn shows(&self, deal: DealModel, seat: Seat) -> bool {
        &&& self.seat == seat
        &&& self.hand@ == deal.hands[seat.idx()]
        &&& self.trump == deal.trump
        &&& self.face_up_trump == deal.trump_card
        &&& self.stock_count == deal.stock()
        &&& self.closed_by == deal.closed_by
        &&& self.leader == deal.leader
        &&& self.trick@ == deal.trick.map_values(|p: crate::deal::PlayedCard| (p.seat, p.card))
        &&& self.card_points@ == deal.card_points
        &&& self.tricks_won@ == deal.tricks_won
        &&& self.pending_marriages@ == deal.pending
        &&& self.public_known_opponent_cards@ == deal.known[seat.opp().idx()]
        &&& self.played_cards@ == deal.played
    }

    pub fn for_player(state: &MatchState, seat: Seat) -> (r: Observation)
        requires
            state.deal.talon@.len() < usize::MAX,
        ensures
            r.shows(state@.deal, seat),
    {
        let deal = &state.deal;
        let mut trick: Vec<(Seat, Card)> = Vec::new();
        let mut i: usize = 0;
        while i < deal.trick.len()
            invariant
                i <= deal.trick@.len(),
                trick@ == deal.trick@.take(i as int).map_values(|p: crate::deal::PlayedCard| (p.seat, p.card)),
            decreases deal.trick@.len() - i,
        {
            let play = deal.trick[i];
            trick.push((play.seat, play.card));
            assert(deal.trick@.take(i + 1).map_values(|p: crate::deal::PlayedCard| (p.seat, p.card))
                =~= deal.trick@.take(i as int).map_values(|p: crate::deal::PlayedCard| (p.seat, p.card)).push(
                (play.seat, play.card),
            ));
            i = i + 1;
        }
        assert(deal.trick@.take(deal.trick@.len() as int) =~= deal.trick@);
        Observation {
            seat,
            hand: copy_cards(&deal.hands[seat.index()]),
            trump: deal.trump,
            face_up_trump: deal.trump_card,
            stock_count: deal.stock_count(),
            closed_by: deal.closed_by,
            leader: deal.leader,
            trick,
            card_points: deal.card_points,
            tricks_won: deal.tricks_won,
            pending_marriages: deal.pending_marriages,
            public_known_opponent_cards: copy_cards(&deal.public_known_hands[seat.other().index()]),
            played_cards: copy_cards(&deal.played_cards),
        }
    }

    pub fn is_strict(&self) -> (r: bool)
        ensures
            r == self.strict_view(),
    {
        self.closed_by.is_some() || self.face_up_trump.is_none()
    }

    pub fn is_leading(&self) -> (r: bool)
        ensures
            r == self.leading_view(),
    {
        self.trick.len() == 0 && self.leader == self.seat
    }

    pub fn legal_cards(&self) -> (r: Vec<Card>)
        ensures
            r@ == self.legal_view(),
    {
        if self.trick.len() == 0 {
            return copy_cards(&self.hand);
        }
        let lead = self.trick[0].1;
        legal_from_hand(&self.hand, lead, self.is_strict(), self.trump)
    }

    pub fn can_announce(&self, card: Card) -> (r: bool)
        ensures
            r == self.announce_view(card),
    {
        if !self.is_leading() || self.is_strict() {
            return false;
        }
        match card.rank.marriage_partner() {
            Some(partner) => holds(&self.hand, Card::new(card.suit, partner)),
            None => false,
        }
    }
}

/// The orders in which the computer ranks candidate cards.
#[derive(Clone, Copy, PartialEq, Eq, Structural)]
enum Order {
    Marriage,
    StrictLead,
    Low,
    Win,
}

spec fn order_key(order: Order, trump: Suit, lead: Card, known: Seq<Card>) -> spec_fn(Card) -> int {
    match order {
        Order::Marriage => marriage_key(trump),
        Order::StrictLead => strict_lead_key(trump, known),
        Order::Low => low_key(trump),
        Order::Win => win_key(trump, lead),
    }
}

/// Whether some card of `cards` is of the given suit.
fn holds_suit(cards: &Vec<Card>, suit: Suit) -> (r: bool)
    ensures
        r == has_suit(cards@, suit),
{
    let mut i: usize = 0;
    while i < cards.len()
        invariant
            i <= cards.len(),
            forall|j: int| 0 <= j < i ==> cards@[j].suit != suit,
        decreases cards.len() - i,
    {
        if cards[i].suit == suit {
            return true;
        }
        i = i + 1;
    }
    false
}

fn suit_order(suit: Suit) -> (r: u32)
    ensures
        r == suit.ord(),
{
    match suit {
        Suit::Clubs => 0,
        Suit::Diamonds => 1,
        Suit::Hearts => 2,
        Suit::Spades => 3,
    }
}

fn rank_of(order: Order, trump: Suit, lead: Card, known: &Vec<Card>, c: Card) -> (r: u32)
    ensures
        r == order_key(order, trump, lead, known@)(c),
{
    let strength = c.rank.strength() as u32;
    let points = c.rank.points() as u32;
    match order {
        Order::Marriage => (if c.suit != trump {
            8
        } else {
            0
        }) + (if c.rank != Rank::Queen {
            4
        } else {
            0
        }) + suit_order(c.suit),
        Order::StrictLead => (if !holds_suit(known, c.suit) {
            16
        } else {
            0
        }) + (if c.suit != trump {
            8
        } else {
            0
        }) + (5 - strength),
        Order::Low => (if c.suit == trump {
            100
        } else {
            0
        }) + points * 6 + strength,
        Order::Win => (if c.suit == trump && lead.suit != trump {
            100
        } else {
            0
        }) + strength * 12 + points,
    }
}

/// Position of the first card of `cards` that is smallest in the given order.
fn first_smallest(cards: &Vec<Card>, order: Order, trump: Suit, lead: Card, known: &Vec<Card>) -> (r: usize)
    requires
        cards@.len() > 0,
    ensures
        r < cards@.len(),
        is_min_by(cards@, order_key(order, trump, lead, known@), cards@[r as int]),
        is_first_min(cards@, order_key(order, trump, lead, known@), r as int),
{
    let ghost key = order_key(order, trump, lead, known@);
    let mut best: usize = 0;
    let mut best_key = rank_of(order, trump, lead, known, cards[0]);
    let mut i: usize = 1;
    while i < cards.len()
        invariant
            1 <= i <= cards@.len(),
            best < i,
            best_key == key(cards@[best as int]),
            forall|j: int| 0 <= j < i ==> key(cards@[best as int]) <= key(cards@[j]),
            forall|j: int| 0 <= j < best ==> key(cards@[best as int]) < key(cards@[j]),
            key == order_key(order, trump, lead, known@),
        decreases cards@.len() - i,
    {
        let k = rank_of(order, trump, lead, known, cards[i]);
        if k < best_key {
            best = i;
            best_key = k;
        }
        i = i + 1;
    }
    assert forall|x: Card| cards@.contains(x) implies key(cards@[best as int]) <= #[trigger] key(x) by {
        let j = choose|j: int| 0 <= j < cards@.len() && cards@[j] == x;
    }
    best
}

/// Being smallest among a permutation is being smallest among the cards before the permutation.
proof fn lemma_min_by_permutation(a: Seq<Card>, b: Seq<Card>, key: spec_fn(Card) -> int, c: Card)
    requires
        a.to_multiset() == b.to_multiset(),
        is_min_by(a, key, c),
    ensures
        is_min_by(b, key, c),
{
    a.to_multiset_ensures();
    b.to_multiset_ensures();
    assert(a.to_multiset().count(c) > 0);
    assert(b.to_multiset().count(c) > 0);
    assert(b.contains(c));
    assert forall|x: Card| b.contains(x) implies key(c) <= #[trigger] key(x) by {
        assert(b.to_multiset().count(x) > 0);
        assert(a.to_multiset().count(x) > 0);
        assert(a.contains(x));
    }
}

/// The cards of `cards` that may be announced as a marriage, in order.
fn announceable_cards(obs: &Observation, cards: &Vec<Card>) -> (r: Vec<Card>)
    ensures
        r@ == cards@.filter(obs.announceable()),
{
    let mut out: Vec<Card> = Vec::new();
    let mut i: usize = 0;
    while i < cards.len()
        invariant
            i <= cards.len(),
            out@ == cards@.take(i as int).filter(obs.announceable()),
        decreases cards.len() - i,
    {
        proof {
            reveal_with_fuel(Seq::filter, 1);
            assert(cards@.take(i + 1).drop_last() =~= cards@.take(i as int));
        }
        if obs.can_announce(cards[i]) {
            out.push(cards[i]);
        }
        i = i + 1;
    }
    assert(cards@.take(cards.len() as int) =~= cards@);
    out
}

/// The cards of `cards` that take the trick from `lead`, in order.
fn beating_cards(cards: &Vec<Card>, lead: Card, trump: Suit) -> (r: Vec<Card>)
    ensures
        r@ == cards@.filter(beating(lead, trump)),
{
    let mut out: Vec<Card> = Vec::new();
    let mut i: usize = 0;
    while i < cards.len()
        invariant
            i <= cards.len(),
            out@ == cards@.take(i as int).filter(beating(lead, trump)),
        decreases cards.len() - i,
    {
        proof {
            reveal_with_fuel(Seq::filter, 1);
            assert(cards@.take(i + 1).drop_last() =~= cards@.take(i as int));
        }
        if card_beats(cards[i], lead, trump) {
            out.push(cards[i]);
        }
        i = i + 1;
    }
    assert(cards@.take(cards.len() as int) =~= cards@);
    out
}

fn choose_lead(obs: &Observation, legal: &Vec<Card>, entropy: u64) -> (r: Card)
    requires
        legal@ == obs.legal_view(),
        legal@.len() > 0,
        obs.trick@.len() == 0,
    ensures
        obs.lead_pick(r),
        r == obs.lead_choice(entropy),
{
    let marriages = announceable_cards(obs, legal);
    let lead = legal[0];
    if marriages.len() != 0 {
        let i = first_smallest(&marriages, Order::Marriage, obs.trump, lead, &obs.public_known_opponent_cards);
        proof {
            lemma_first_min_unique(marriages@, marriage_key(obs.trump), i as int);
        }
        return marriages[i];
    }
    let cards = shuffle_with_seed(copy_cards(legal), entropy);
    if obs.is_strict() {
        let i = first_smallest(&cards, Order::StrictLead, obs.trump, lead, &obs.public_known_opponent_cards);
        proof {
            let key = strict_lead_key(obs.trump, obs.public_known_opponent_cards@);
            lemma_min_by_permutation(cards@, legal@, key, cards@[i as int]);
            lemma_first_min_unique(cards@, key, i as int);
        }
        cards[i]
    } else {
        let i = first_smallest(&cards, Order::Low, obs.trump, lead, &obs.public_known_opponent_cards);
        proof {
            lemma_min_by_permutation(cards@, legal@, low_key(obs.trump), cards@[i as int]);
            lemma_first_min_unique(cards@, low_key(obs.trump), i as int);
        }
        cards[i]
    }
}

/// All cheapest winning cards have the same points.
proof fn lemma_win_key_points(trump: Suit, lead: Card, a: Card, b: Card)
    requires
        win_key(trump, lead)(a) == win_key(trump, lead)(b),
    ensures
        a.rank.pts() == b.rank.pts(),
{
}

fn choose_follow(obs: &Observation, legal: &Vec<Card>, entropy: u64) -> (r: Card)
    requires
        legal@ == obs.legal_view(),
        legal@.len() > 0,
        obs.trick@.len() > 0,
    ensures
        obs.follow_pick(r),
        r == obs.follow_choice(entropy),
{
    let lead = obs.trick[0].1;
    let winning = beating_cards(legal, lead, obs.trump);
    let ghost best_choice = first_min_of(seeded_shuffle(winning@, entropy), win_key(obs.trump, lead));
    let discards = if winning.len() != 0 {
        let (shuffled, discards) = shuffle_pair_with_seed(copy_cards(&winning), copy_cards(legal), entropy);
        let i = first_smallest(&shuffled, Order::Win, obs.trump, lead, &obs.public_known_opponent_cards);
        let best = shuffled[i];
        proof {
            lemma_min_by_permutation(shuffled@, winning@, win_key(obs.trump, lead), best);
            lemma_first_min_unique(shuffled@, win_key(obs.trump, lead), i as int);
        }
        let trick_value = lead.rank.points();
        if obs.is_strict() || trick_value >= 4 || best.rank.points() <= trick_value.saturating_add(2) {
            return best;
        }
        proof {
            assert forall|w: Card|
                is_min_by(winning@, win_key(obs.trump, lead), w) implies !worth_winning(
                obs.strict_view(),
                lead.rank.pts() as int,
                w.rank.pts() as int,
            ) by {
                assert(win_key(obs.trump, lead)(w) <= win_key(obs.trump, lead)(best));
                assert(win_key(obs.trump, lead)(best) <= win_key(obs.trump, lead)(w));
                lemma_win_key_points(obs.trump, lead, w, best);
            }
        }
        discards
    } else {
        shuffle_with_seed(copy_cards(legal), entropy)
    };
    let i = first_smallest(&discards, Order::Low, obs.trump, lead, &obs.public_known_opponent_cards);
    proof {
        lemma_min_by_permutation(discards@, legal@, low_key(obs.trump), discards@[i as int]);
        lemma_first_min_unique(discards@, low_key(obs.trump), i as int);
    }
    discards[i]
}

fn should_exchange(obs: &Observation) -> (r: bool)
    ensures
        r == obs.exchange_wanted(),
{
    obs.is_leading() && obs.closed_by.is_none() && obs.stock_count > 1 && obs.tricks_won[obs.seat.index()] > 0
        && obs.face_up_trump.is_some() && holds(&obs.hand, Card::new(obs.trump, Rank::Nine))
}

fn should_close(obs: &Observation) -> (r: bool)
    requires
        points_sum(obs.hand@) + obs.card_points@[obs.seat.idx()] <= u16::MAX,
    ensures
        r == obs.close_wanted(),
{
    if !obs.is_leading() || obs.closed_by.is_some() || obs.stock_count <= 1 {
        return false;
    }
    let points = obs.card_points[obs.seat.index()];
    let mut hand_points: u16 = 0;
    let mut strong_trumps: usize = 0;
    let mut aces: usize = 0;
    let mut i: usize = 0;
    proof {
        lemma_points_sum_prefix_bounded(obs.hand@, 0);
    }
    while i < obs.hand.len()
        invariant
            i <= obs.hand@.len(),
            hand_points == points_sum(obs.hand@.take(i as int)),
            points_sum(obs.hand@) + points <= u16::MAX,
            points == obs.card_points@[obs.seat.idx()],
            strong_trumps == obs.hand@.take(i as int).filter(strong_trump(obs.trump)).len(),
            aces == obs.hand@.take(i as int).filter(is_ace()).len(),
        decreases obs.hand@.len() - i,
    {
        let card = obs.hand[i];
        proof {
            reveal_with_fuel(Seq::filter, 1);
            assert(obs.hand@.take(i + 1).drop_last() =~= obs.hand@.take(i as int));
            lemma_points_sum_prefix_bounded(obs.hand@, i + 1);
            obs.hand@.take(i as int).lemma_filter_len(strong_trump(obs.trump));
            obs.hand@.take(i as int).lemma_filter_len(is_ace());
        }
        hand_points = hand_points + card.rank.points();
        if card.suit == obs.trump && (card.rank == Rank::Ace || card.rank == Rank::Ten || card.rank == Rank::King) {
            strong_trumps = strong_trumps + 1;
        }
        if card.rank == Rank::Ace {
            aces = aces + 1;
        }
        i = i + 1;
    }
    assert(obs.hand@.take(obs.hand@.len() as int) =~= obs.hand@);
    points >= 60 || (points >= 50 && points + hand_points >= 72 && strong_trumps >= 2) || (points >= 54 && aces
        >= 2)
}

/// The points of a prefix never exceed the points of the whole.
proof fn lemma_points_sum_prefix_bounded(cards: Seq<Card>, k: int)
    requires
        0 <= k <= cards.len(),
    ensures
        points_sum(cards.take(k)) <= points_sum(cards),
        points_sum(cards.take(k)) >= 0,
    decreases cards.len() - k,
{
    lemma_points_sum_nonneg(cards.take(k));
    if k < cards.len() {
        lemma_points_sum_prefix_bounded(cards, k + 1);
        assert(cards.take(k + 1).drop_last() =~= cards.take(k));
    } else {
        assert(cards.take(k) =~= cards);
        lemma_points_sum_nonneg(cards);
    }
}

proof fn lemma_points_sum_nonneg(cards: Seq<Card>)
    ensures
        points_sum(cards) >= 0,
    decreases cards.len(),
{
    if cards.len() > 0 {
        lemma_points_sum_nonneg(cards.drop_last());
    }
}

/// Whether `choose_action` can be asked about this observation: the hand's points fit
/// the score counter, and a card can be played whenever one has to be.
pub fn has_choice(observation: &Observation) -> (r: bool)
    ensures
        r == (points_sum(observation.hand@) + observation.card_points@[observation.seat.idx()] <= u16::MAX && (
        observation.card_points@[observation.seat.idx()] < 66 && !observation.exchange_wanted()
            && !observation.close_wanted() ==> observation.legal_view().len() > 0)),
{
    let points = observation.card_points[observation.seat.index()] as u64;
    let mut total: u64 = points;
    let mut i: usize = 0;
    proof {
        lemma_points_sum_prefix_bounded(observation.hand@, 0);
        assert(observation.hand@.take(0) =~= Seq::<Card>::empty());
    }
    while i < observation.hand.len()
        invariant
            i <= observation.hand@.len(),
            total == points + points_sum(observation.hand@.take(i as int)),
            total <= u16::MAX,
            points == observation.card_points@[observation.seat.idx()],
        decreases observation.hand@.len() - i,
    {
        proof {
            assert(observation.hand@.take(i + 1).drop_last() =~= observation.hand@.take(i as int));
        }
        total = total + observation.hand[i].rank.points() as u64;
        if total > 65535 {
            proof {
                lemma_points_sum_prefix_bounded(observation.hand@, i + 1);
            }
            return false;
        }
        i = i + 1;
    }
    assert(observation.hand@.take(observation.hand@.len() as int) =~= observation.hand@);
    if observation.card_points[observation.seat.index()] >= 66 || should_exchange(observation) || should_close(
        observation,
    ) {
        return true;
    }
    observation.legal_cards().len() > 0
}

/// Picks the computer's action from what it may see; `entropy` seeds the tie-breaking
/// shuffles.
///
/// With 66 card points it declares; otherwise it exchanges the trump nine or closes
/// the stock when those look right; otherwise it plays `card_choice(entropy)`, a card
/// that `play_pick` allows,
/// announcing every marriage it can and declaring with one when that reaches 66.
pub fn choose_action(observation: &Observation, entropy: u64) -> (r: Action)
    requires
        points_sum(observation.hand@) + observation.card_points@[observation.seat.idx()] <= u16::MAX,
        observation.card_points@[observation.seat.idx()] < 66 && !observation.exchange_wanted()
            && !observation.close_wanted() ==> observation.legal_view().len() > 0,
    ensures
        observation.card_points@[observation.seat.idx()] >= 66 ==> r == Action::Declare,
        observation.card_points@[observation.seat.idx()] < 66 && observation.exchange_wanted() ==> r
            == Action::ExchangeTrump,
        observation.card_points@[observation.seat.idx()] < 66 && !observation.exchange_wanted()
            && observation.close_wanted() ==> r == Action::CloseStock,
        observation.card_points@[observation.seat.idx()] < 66 && !observation.exchange_wanted()
            && !observation.close_wanted() ==> observation.play_pick(r),
        observation.card_points@[observation.seat.idx()] < 66 && !observation.exchange_wanted()
            && !observation.close_wanted() ==> (r matches Action::Play { card, .. } && card
            == observation.card_choice(entropy)),
        r matches Action::Play { card, .. } ==> observation.legal_view().contains(card),
{
    let seat = observation.seat;
    if observation.card_points[seat.index()] >= 66 {
        return Action::Declare;
    }
    if should_exchange(observation) {
        return Action::ExchangeTrump;
    }
    if should_close(observation) {
        return Action::CloseStock;
    }
    let legal = observation.legal_cards();
    let card = if observation.trick.len() == 0 {
        choose_lead(observation, &legal, entropy)
    } else {
        choose_follow(observation, &legal, entropy)
    };
    proof {
        lemma_pick_is_legal(observation, card);
    }
    let announce_marriage = observation.can_announce(card);
    let marriage_points: u16 = if announce_marriage {
        if card.suit == observation.trump {
            40
        } else {
            20
        }
    } else {
        0
    };
    let marriage_is_live = observation.tricks_won[seat.index()] > 0;
    let declare = announce_marriage && marriage_is_live && observation.card_points[seat.index()] + marriage_points
        >= 66;
    Action::Play { card, announce_marriage, declare }
}

/// Whatever the computer picks is a legal card.
pub proof fn lemma_pick_is_legal(obs: &Observation, card: Card)
    requires
        if obs.trick@.len() == 0 {
            obs.lead_pick(card)
        } else {
            obs.follow_pick(card)
        },
    ensures
        obs.legal_view().contains(card),
{
    let legal = obs.legal_view();
    if obs.trick@.len() == 0 {
        let marriages = legal.filter(obs.announceable());
        if marriages.len() > 0 {
            legal.lemma_filter_contains_rev(obs.announceable(), card);
        }
    } else {
        let lead = obs.trick@[0].1;
        let winning = legal.filter(beating(lead, obs.trump));
        if exists|w: Card|
            is_min_by(winning, win_key(obs.trump, lead), w) && worth_winning(
                obs.strict_view(),
                lead.rank.pts() as int,
                w.rank.pts() as int,
            ) {
            legal.lemma_filter_contains_rev(beating(lead, obs.trump), card);
        }
    }
}

/// What the computer sees of a running deal on its turn gives it exactly the legal
/// cards and marriages that the rules give it: its information does not change its
/// options.
pub proof fn lemma_observation_matches_rules(obs: &Observation, deal: DealModel, seat: Seat, card: Card)
    requires
        obs.shows(deal, seat),
        deal.result is None,
        deal.active() == seat,
    ensures
        obs.legal_view() == deal.legal(seat),
        obs.announce_view(card) == deal.may_announce(seat, card),
{
    if deal.trick.len() > 0 {
        assert(obs.trick@[0] == (deal.trick[0].seat, deal.trick[0].card));
    }
    assert(obs.lead_view() == deal.lead_card());
}

/// The computer's observation never depends on the opponent's hidden hand or on the
/// talon's cards and order: two deals that differ only there show `seat` the same
/// observation, field by field.
pub proof fn lemma_observation_hides_secrets(o1: &Observation, o2: &Observation, d1: DealModel, d2: DealModel, seat: Seat)
    requires
        o1.shows(d1, seat),
        o2.shows(d2, seat),
        same_public_part(d1, d2, seat),
    ensures
        o1.seat == o2.seat,
        o1.hand@ == o2.hand@,
        o1.trump == o2.trump,
        o1.face_up_trump == o2.face_up_trump,
        o1.stock_count == o2.stock_count,
        o1.closed_by == o2.closed_by,
        o1.leader == o2.leader,
        o1.trick@ == o2.trick@,
        o1.card_points@ == o2.card_points@,
        o1.tricks_won@ == o2.tricks_won@,
        o1.pending_marriages@ == o2.pending_marriages@,
        o1.public_known_opponent_cards@ == o2.public_known_opponent_cards@,
        o1.played_cards@ == o2.played_cards@,
{
}

} // verus!
