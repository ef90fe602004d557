//! Seats, suits, ranks and cards of the 24-card Sixty-Six deck.
use vstd::prelude::*;

verus! {

/// Number of game points that wins a match.
pub const MATCH_TARGET: u8 = 7;

/// One of the two places at the table.
#[derive(Debug, Clone, Copy, PartialEq, Eq, Hash, Structural)]
pub enum Seat {
    One,
    Two,
}

impl Seat {
    /// Position of the seat in the per-player arrays.
    pub open spec fn idx(self) -> int {
        match self {
            Seat::One => 0,
            Seat::Two => 1,
        }
    }

    /// The seat across the table.
    pub open spec fn opp(self) -> Seat {
        match self {
            Seat::One => Seat::Two,
            Seat::Two => Seat::One,
        }
    }

    pub fn index(self) -> (r: usize)
        ensures
            r == self.idx(),
            r < 2,
    {
        match self {
            Seat::One => 0,
            Seat::Two => 1,
        }
    }

    pub fn other(self) -> (r: Seat)
        ensures
            r == self.opp(),
            r != self,
    {
        match self {
            Seat::One => Seat::Two,
            Seat::Two => Seat::One,
        }
    }

    /// The seat's name as it is written in the action log.
    pub fn as_str(self) -> (r: &'static str)
        ensures
            r@ == (match self {
                Seat::One => "one"@,
                Seat::Two => "two"@,
            }),
    {
        match self {
            Seat::One => "one",
            Seat::Two => "two",
        }
    }
}

/// The seat with the given array position.
pub open spec fn seat_at(i: int) -> Seat {
    if i == 0 {
        Seat::One
    } else {
        Seat::Two
    }
}

#[derive(Debug, Clone, Copy, PartialEq, Eq, Hash, PartialOrd, Ord, Structural)]
pub enum Suit {
    Clubs,
    Diamonds,
    Hearts,
    Spades,
}

impl Suit {
    /// Position of the suit in deck order.
    pub open spec fn ord(self) -> int {
        match self {
            Suit::Clubs => 0,
            Suit::Diamonds => 1,
            Suit::Hearts => 2,
            Suit::Spades => 3,
        }
    }

    pub open spec fn sym(self) -> char {
        match self {
            Suit::Clubs => '♣',
            Suit::Diamonds => '♦',
            Suit::Hearts => '♥',
            Suit::Spades => '♠',
        }
    }

    /// The letter of the suit in a card's ASCII code.
    pub open spec fn letter(self) -> char {
        match self {
            Suit::Clubs => 'C',
            Suit::Diamonds => 'D',
            Suit::Hearts => 'H',
            Suit::Spades => 'S',
        }
    }

    pub open spec fn name_view(self) -> Seq<char> {
        match self {
            Suit::Clubs => "clubs"@,
            Suit::Diamonds => "diamonds"@,
            Suit::Hearts => "hearts"@,
            Suit::Spades => "spades"@,
        }
    }

    pub fn symbol(self) -> (r: char)
        ensures
            r == self.sym(),
    {
        match self {
            Suit::Clubs => '♣',
            Suit::Diamonds => '♦',
            Suit::Hearts => '♥',
            Suit::Spades => '♠',
        }
    }

    /// The symbol as a one-character string.
    fn symbol_text(self) -> (r: &'static str)
        ensures
            r@ == seq![self.sym()],
    {
        match self {
            Suit::Clubs => {
                proof {
                    reveal_strlit("♣");
                }
                "♣"
            },
            Suit::Diamonds => {
                proof {
                    reveal_strlit("♦");
                }
                "♦"
            },
            Suit::Hearts => {
                proof {
                    reveal_strlit("♥");
                }
                "♥"
            },
            Suit::Spades => {
                proof {
                    reveal_strlit("♠");
                }
                "♠"
            },
        }
    }

    pub fn name(self) -> (r: &'static str)
        ensures
            r@ == self.name_view(),
    {
        match self {
            Suit::Clubs => "clubs",
            Suit::Diamonds => "diamonds",
            Suit::Hearts => "hearts",
            Suit::Spades => "spades",
        }
    }

    pub fn is_red(self) -> (r: bool)
        ensures
            r == (self == Suit::Diamonds || self == Suit::Hearts),
    {
        match self {
            Suit::Diamonds | Suit::Hearts => true,
            _ => false,
        }
    }
}

/// The suit with the given position in deck order.
pub open spec fn suit_at(i: int) -> Suit {
    if i == 0 {
        Suit::Clubs
    } else if i == 1 {
        Suit::Diamonds
    } else if i == 2 {
        Suit::Hearts
    } else {
        Suit::Spades
    }
}

/// Ranks in ascending order of strength: the Ten beats the King.
#[derive(Debug, Clone, Copy, PartialEq, Eq, Hash, PartialOrd, Ord, Structural)]
pub enum Rank {
    Nine,
    Jack,
    Queen,
    King,
    Ten,
    Ace,
}

impl Rank {
    /// Position of the rank in deck order, which is also its strength.
    pub open spec fn ord(self) -> int {
        match self {
            Rank::Nine => 0,
            Rank::Jack => 1,
            Rank::Queen => 2,
            Rank::King => 3,
            Rank::Ten => 4,
            Rank::Ace => 5,
        }
    }

    /// Card points the rank is worth.
    pub open spec fn pts(self) -> u16 {
        match self {
            Rank::Nine => 0,
            Rank::Jack => 2,
            Rank::Queen => 3,
            Rank::King => 4,
            Rank::Ten => 10,
            Rank::Ace => 11,
        }
    }

    pub open spec fn power(self) -> u8 {
        self.ord() as u8
    }

    /// The other half of a marriage: King and Queen pair up.
    pub open spec fn partner(self) -> Option<Rank> {
        match self {
            Rank::King => Some(Rank::Queen),
            Rank::Queen => Some(Rank::King),
            _ => None,
        }
    }

    /// The letter of the rank in a card's ASCII code.
    pub open spec fn letter(self) -> char {
        match self {
            Rank::Nine => '9',
            Rank::Jack => 'J',
            Rank::Queen => 'Q',
            Rank::King => 'K',
            Rank::Ten => 'T',
            Rank::Ace => 'A',
        }
    }

    pub open spec fn symbol_view(self) -> Seq<char> {
        match self {
            Rank::Nine => "9"@,
            Rank::Jack => "J"@,
            Rank::Queen => "Q"@,
            Rank::King => "K"@,
            Rank::Ten => "10"@,
            Rank::Ace => "A"@,
        }
    }

    pub open spec fn name_view(self) -> Seq<char> {
        match self {
            Rank::Nine => "nine"@,
            Rank::Jack => "jack"@,
            Rank::Queen => "queen"@,
            Rank::King => "king"@,
            Rank::Ten => "ten"@,
            Rank::Ace => "ace"@,
        }
    }

    pub fn points(self) -> (r: u16)
        ensures
            r == self.pts(),
            r <= 11,
    {
        match self {
            Rank::Nine => 0,
            Rank::Jack => 2,
            Rank::Queen => 3,
            Rank::King => 4,
            Rank::Ten => 10,
            Rank::Ace => 11,
        }
    }

    pub fn strength(self) -> (r: u8)
        ensures
            r == self.power(),
            r as int == self.ord(),
    {
        match self {
            Rank::Nine => 0,
            Rank::Jack => 1,
            Rank::Queen => 2,
            Rank::King => 3,
            Rank::Ten => 4,
            Rank::Ace => 5,
        }
    }

    pub fn symbol(self) -> (r: &'static str)
        ensures
            r@ == self.symbol_view(),
    {
        match self {
            Rank::Nine => "9",
            Rank::Jack => "J",
            Rank::Queen => "Q",
            Rank::King => "K",
            Rank::Ten => "10",
            Rank::Ace => "A",
        }
    }

    pub fn name(self) -> (r: &'static str)
        ensures
            r@ == self.name_view(),
    {
        match self {
            Rank::Nine => "nine",
            Rank::Jack => "jack",
            Rank::Queen => "queen",
            Rank::King => "king",
            Rank::Ten => "ten",
            Rank::Ace => "ace",
        }
    }

    pub fn marriage_partner(self) -> (r: Option<Rank>)
        ensures
            r == self.partner(),
    {
        match self {
            Rank::King => Some(Rank::Queen),
            Rank::Queen => Some(Rank::King),
            _ => None,
        }
    }
}

/// The rank with the given position in deck order.
pub open spec fn rank_at(i: int) -> Rank {
    if i == 0 {
        Rank::Nine
    } else if i == 1 {
        Rank::Jack
    } else if i == 2 {
        Rank::Queen
    } else if i == 3 {
        Rank::King
    } else if i == 4 {
        Rank::Ten
    } else {
        Rank::Ace
    }
}

#[derive(Debug, Clone, Copy, PartialEq, Eq, Hash, Structural)]
pub struct Card {
    pub suit: Suit,
    pub rank: Rank,
}

/// The ASCII code of a card: rank letter, then suit letter ("TC" is the Ten of clubs).
pub open spec fn ascii_view(card: Card) -> Seq<char> {
    seq![card.rank.letter(), card.suit.letter()]
}

/// The rank whose ASCII letter is `c`.
pub open spec fn rank_of_letter(c: char) -> Option<Rank> {
    if c == '9' {
        Some(Rank::Nine)
    } else if c == 'J' {
        Some(Rank::Jack)
    } else if c == 'Q' {
        Some(Rank::Queen)
    } else if c == 'K' {
        Some(Rank::King)
    } else if c == 'T' {
        Some(Rank::Ten)
    } else if c == 'A' {
        Some(Rank::Ace)
    } else {
        None
    }
}

/// The suit whose ASCII letter is `c`.
pub open spec fn suit_of_letter(c: char) -> Option<Suit> {
    if c == 'C' {
        Some(Suit::Clubs)
    } else if c == 'D' {
        Some(Suit::Diamonds)
    } else if c == 'H' {
        Some(Suit::Hearts)
    } else if c == 'S' {
        Some(Suit::Spades)
    } else {
        None
    }
}

/// The card that a two-letter ASCII code names, if any.
pub open spec fn parse_view(s: Seq<char>) -> Option<Card> {
    if s.len() == 2 && rank_of_letter(s[0]) is Some && suit_of_letter(s[1]) is Some {
        Some(Card { suit: suit_of_letter(s[1])->0, rank: rank_of_letter(s[0])->0 })
    } else {
        None
    }
}

/// The card at position `i` of the unshuffled deck (suit-major, then rank).
pub open spec fn card_at(i: int) -> Card {
    Card { suit: suit_at(i / 6), rank: rank_at(i % 6) }
}

/// The unshuffled 24-card deck.
pub open spec fn deck_view() -> Seq<Card> {
    Seq::new(24, |i: int| card_at(i))
}

/// Position of a card in the unshuffled deck.
pub open spec fn deck_pos(card: Card) -> int {
    card.suit.ord() * 6 + card.rank.ord()
}

/// Sum of the card points of a sequence of cards.
pub open spec fn points_sum(cards: Seq<Card>) -> int
    decreases cards.len(),
{
    if cards.len() == 0 {
        0
    } else {
        points_sum(cards.drop_last()) + cards.last().rank.pts()
    }
}

/// Whether `challenger`, played second, takes the trick from `current`.
pub open spec fn beats(challenger: Card, current: Card, trump: Suit) -> bool {
    if challenger.suit == current.suit {
        challenger.rank.ord() > current.rank.ord()
    } else {
        challenger.suit == trump && current.suit != trump
    }
}

impl Card {
    pub fn new(suit: Suit, rank: Rank) -> (r: Card)
        ensures
            r == (Card { suit, rank }),
    {
        Card { suit, rank }
    }

    /// Display code such as "10♥".
    pub fn code(self) -> (r: String)
        ensures
            r@ == self.rank.symbol_view() + seq![self.suit.sym()],
    {
        let mut text = String::from_str(self.rank.symbol());
        text.append(self.suit.symbol_text());
        text
    }

    /// Screen-reader name such as "ten of hearts".
    pub fn accessible_name(self) -> (r: String)
        ensures
            r@ == self.rank.name_view() + " of "@ + self.suit.name_view(),
    {
        let mut text = String::from_str(self.rank.name());
        text.append(" of ");
        text.append(self.suit.name());
        text
    }

    /// Reads a two-letter ASCII code such as "TC"; anything else is `None`.
    pub fn parse(input: &str) -> (r: Option<Card>)
        ensures
            r == parse_view(input@),
    {
        if input.unicode_len() != 2 {
            return None;
        }
        let first = input.get_char(0);
        let second = input.get_char(1);
        let rank = if first == '9' {
            Rank::Nine
        } else if first == 'J' {
            Rank::Jack
        } else if first == 'Q' {
            Rank::Queen
        } else if first == 'K' {
            Rank::King
        } else if first == 'T' {
            Rank::Ten
        } else if first == 'A' {
            Rank::Ace
        } else {
            return None;
        };
        let suit = if second == 'C' {
            Suit::Clubs
        } else if second == 'D' {
            Suit::Diamonds
        } else if second == 'H' {
            Suit::Hearts
        } else if second == 'S' {
            Suit::Spades
        } else {
            return None;
        };
        Some(Card::new(suit, rank))
    }

    /// The two-letter ASCII code that `parse` reads back.
    pub fn ascii_code(self) -> (r: &'static str)
        ensures
            r@ == ascii_view(self),
    {
        match self.suit {
            Suit::Clubs => match self.rank {
                Rank::Nine => {
                    proof {
                        reveal_strlit("9C");
                    }
                    "9C"
                },
                Rank::Jack => {
                    proof {
                        reveal_strlit("JC");
                    }
                    "JC"
                },
                Rank::Queen => {
                    proof {
                        reveal_strlit("QC");
                    }
                    "QC"
                },
                Rank::King => {
                    proof {
                        reveal_strlit("KC");
                    }
                    "KC"
                },
                Rank::Ten => {
                    proof {
                        reveal_strlit("TC");
                    }
                    "TC"
                },
                Rank::Ace => {
                    proof {
                        reveal_strlit("AC");
                    }
                    "AC"
                },
            },
            Suit::Diamonds => match self.rank {
                Rank::Nine => {
                    proof {
                        reveal_strlit("9D");
                    }
                    "9D"
                },
                Rank::Jack => {
                    proof {
                        reveal_strlit("JD");
                    }
                    "JD"
                },
                Rank::Queen => {
                    proof {
                        reveal_strlit("QD");
                    }
                    "QD"
                },
                Rank::King => {
                    proof {
                        reveal_strlit("KD");
                    }
                    "KD"
                },
                Rank::Ten => {
                    proof {
                        reveal_strlit("TD");
                    }
                    "TD"
                },
                Rank::Ace => {
                    proof {
                        reveal_strlit("AD");
                    }
                    "AD"
                },
            },
            Suit::Hearts => match self.rank {
                Rank::Nine => {
                    proof {
                        reveal_strlit("9H");
                    }
                    "9H"
                },
                Rank::Jack => {
                    proof {
                        reveal_strlit("JH");
                    }
                    "JH"
                },
                Rank::Queen => {
                    proof {
                        reveal_strlit("QH");
                    }
                    "QH"
                },
                Rank::King => {
                    proof {
                        reveal_strlit("KH");
                    }
                    "KH"
                },
                Rank::Ten => {
                    proof {
                        reveal_strlit("TH");
                    }
                    "TH"
                },
                Rank::Ace => {
                    proof {
                        reveal_strlit("AH");
                    }
                    "AH"
                },
            },
            Suit::Spades => match self.rank {
                Rank::Nine => {
                    proof {
                        reveal_strlit("9S");
                    }
                    "9S"
                },
                Rank::Jack => {
                    proof {
                        reveal_strlit("JS");
                    }
                    "JS"
                },
                Rank::Queen => {
                    proof {
                        reveal_strlit("QS");
                    }
                    "QS"
                },
                Rank::King => {
                    proof {
                        reveal_strlit("KS");
                    }
                    "KS"
                },
                Rank::Ten => {
                    proof {
                        reveal_strlit("TS");
                    }
                    "TS"
                },
                Rank::Ace => {
                    proof {
                        reveal_strlit("AS");
                    }
                    "AS"
                },
            },
        }
    }
}

/// Reading back a card's ASCII code gives the card.
pub proof fn lemma_parse_ascii_roundtrip(card: Card)
    ensures
        parse_view(ascii_view(card)) == Some(card),
{
}

/// A card's position in the unshuffled deck finds it again.
pub proof fn lemma_deck_pos(card: Card)
    ensures
        0 <= deck_pos(card) < 24,
        deck_view()[deck_pos(card)] == card,
{
}

/// The deck holds 24 different cards.
pub proof fn lemma_deck_distinct()
    ensures
        deck_view().len() == 24,
        deck_view().no_duplicates(),
{
    assert forall|i: int, j: int| 0 <= i < 24 && 0 <= j < 24 && i != j implies deck_view()[i]
        != deck_view()[j] by {
        assert(deck_pos(card_at(i)) == i);
        assert(deck_pos(card_at(j)) == j);
    }
}

/// The full deck in suit-major order (clubs first, nine first).
pub fn full_deck() -> (r: Vec<Card>)
    ensures
        r@ == deck_view(),
        r@.len() == 24,
        r@.no_duplicates(),
        points_sum(r@) == 120,
{
    let mut deck: Vec<Card> = Vec::new();
    let mut i: u8 = 0;
    while i < 24
        invariant
            i <= 24,
            deck@ == deck_view().take(i as int),
        decreases 24 - i,
    {
        let suit = match i / 6 {
            0 => Suit::Clubs,
            1 => Suit::Diamonds,
            2 => Suit::Hearts,
            _ => Suit::Spades,
        };
        let rank = match i % 6 {
            0 => Rank::Nine,
            1 => Rank::Jack,
            2 => Rank::Queen,
            3 => Rank::King,
            4 => Rank::Ten,
            _ => Rank::Ace,
        };
        deck.push(Card::new(suit, rank));
        assert(deck_view().take(i + 1) =~= deck_view().take(i as int).push(card_at(i as int)));
        i = i + 1;
    }
    proof {
        assert(deck@ =~= deck_view());
        lemma_deck_distinct();
        lemma_deck_points();
    }
    deck
}

/// Card points of the first `k` cards of the unshuffled deck.
spec fn deck_prefix_points(k: int) -> int {
    let within = k % 6;
    30 * (k / 6) + if within == 0 {
        0int
    } else if within == 1 {
        0int
    } else if within == 2 {
        2
    } else if within == 3 {
        5
    } else if within == 4 {
        9
    } else {
        19
    }
}

proof fn lemma_deck_prefix_points(k: int)
    requires
        0 <= k <= 24,
    ensures
        points_sum(deck_view().take(k)) == deck_prefix_points(k),
    decreases k,
{
    let d = deck_view();
    if k == 0 {
        assert(d.take(0) =~= Seq::<Card>::empty());
    } else {
        lemma_deck_prefix_points(k - 1);
        assert(d.take(k).drop_last() =~= d.take(k - 1));
        assert(d.take(k).last() == card_at(k - 1));
    }
}

/// The 24 cards carry 120 card points in all.
pub proof fn lemma_deck_points()
    ensures
        points_sum(deck_view()) == 120,
{
    lemma_deck_prefix_points(24);
    assert(deck_view().take(24) =~= deck_view());
}

/// Whether `challenger`, played second, takes the trick from `current` under `trump`.
pub fn card_beats(challenger: Card, current: Card, trump: Suit) -> (r: bool)
    ensures
        r == beats(challenger, current, trump),
{
    if challenger.suit == current.suit {
        challenger.rank.strength() > current.rank.strength()
    } else {
        challenger.suit == trump && current.suit != trump
    }
}

/// A card of another suit than the card it is played to, and not a trump, never takes
/// the trick, however high its rank.
pub proof fn lemma_off_suit_non_trump_never_beats(challenger: Card, current: Card, trump: Suit)
    requires
        challenger.suit != current.suit,
        challenger.suit != trump,
    ensures
        !beats(challenger, current, trump),
{
}

/// Two cards never beat each other: at most one of them can take the trick from the other.
pub proof fn lemma_beats_asymmetric(a: Card, b: Card, trump: Suit)
    ensures
        !(beats(a, b, trump) && beats(b, a, trump)),
{
}

/// Between two different cards of one suit, exactly one beats the other.
pub proof fn lemma_beats_total_within_suit(a: Card, b: Card, trump: Suit)
    requires
        a.suit == b.suit,
        a != b,
    ensures
        beats(a, b, trump) != beats(b, a, trump),
{
}

/// A trump beats any card of another suit, and no card of another suit beats a trump.
pub proof fn lemma_trump_wins(t: Card, other: Card, trump: Suit)
    requires
        t.suit == trump,
        other.suit != trump,
    ensures
        beats(t, other, trump),
        !beats(other, t, trump),
{
}

} // verus!
