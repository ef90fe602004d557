//! Laws of the rules engine: what every reachable deal and match satisfies.
use vstd::multiset::Multiset;
use vstd::prelude::*;

use crate::cards::{deck_view, lemma_deck_distinct, Card, Rank, Seat, MATCH_TARGET};
use crate::deal::{dealt, differs_from, first_pos, opt_cards, partner_card, with_card, DealEndReason, DealModel};
use crate::game::{declared_points, game_points_of, penalty_points, Action, MatchModel};
use crate::rng::seeded_shuffle;

verus! {

/// A shuffled deck, dealt out, forms a well-formed deal.
pub proof fn lemma_dealt_wf(seed: u64, dealer: Seat)
    requires
        seeded_shuffle(deck_view(), seed).to_multiset() == deck_view().to_multiset(),
    ensures
        dealt(seed, dealer).wf(),
{
    let order = seeded_shuffle(deck_view(), seed);
    let d = dealt(seed, dealer);
    lemma_deck_distinct();
    assert(order.len() == 24) by {
        order.to_multiset_ensures();
        deck_view().to_multiset_ensures();
    }
    let a = order.subrange(0, 3);
    let b = order.subrange(3, 6);
    let c = order.subrange(6, 9);
    let e = order.subrange(9, 12);
    let t = order.subrange(12, 13);
    let rest = order.subrange(13, 24);
    assert(order =~= a + b + c + e + t + rest);
    assert(t =~= opt_cards(d.trump_card));
    vstd::seq_lib::lemma_multiset_commutative(a, c);
    vstd::seq_lib::lemma_multiset_commutative(b, e);
    vstd::seq_lib::lemma_multiset_commutative(a + b + c + e + t, rest);
    vstd::seq_lib::lemma_multiset_commutative(a + b + c + e, t);
    vstd::seq_lib::lemma_multiset_commutative(a + b + c, e);
    vstd::seq_lib::lemma_multiset_commutative(a + b, c);
    vstd::seq_lib::lemma_multiset_commutative(a, b);
    assert(Seq::<Card>::empty().to_multiset() =~= Multiset::empty()) by {
        broadcast use {vstd::seq_lib::group_to_multiset_ensures, vstd::multiset::group_multiset_axioms};

    }
    assert(d.pool() =~= order.to_multiset());
    assert(d.stock() == 12);
}

/// A well-formed deal leaves room in its counters for any single action.
pub proof fn lemma_wf_counters_fit(d: DealModel)
    requires
        d.wf(),
    ensures
        d.counters_fit(),
        d.played.len() <= 24,
{
    d.hands[0].to_multiset_ensures();
    d.hands[1].to_multiset_ensures();
    d.talon.to_multiset_ensures();
    d.played.to_multiset_ensures();
    opt_cards(d.trump_card).to_multiset_ensures();
    deck_view().to_multiset_ensures();
    assert(d.pool().len() == 24);
    assert(d.played.len() <= 24);
}

/// What survives a filter was there before and passes the filter.
pub proof fn lemma_in_filter(s: Seq<Card>, p: spec_fn(Card) -> bool, c: Card)
    requires
        s.filter(p).contains(c),
    ensures
        s.contains(c),
        p(c),
{
    s.lemma_filter_contains_rev(p, c);
    let i = choose|i: int| 0 <= i < s.filter(p).len() && s.filter(p)[i] == c;
    s.lemma_filter_pred(p, i);
}

/// Removing one position keeps every card that was not at that position.
pub proof fn lemma_remove_keeps(s: Seq<Card>, p: int, c: Card)
    requires
        0 <= p < s.len(),
        s.contains(c),
        s[p] != c,
    ensures
        s.remove(p).contains(c),
{
    let q = choose|q: int| 0 <= q < s.len() && s[q] == c;
    if q < p {
        assert(s.remove(p)[q] == c);
    } else {
        assert(s.remove(p)[q - 1] == c);
    }
}

/// Replacing one position keeps every card that was not at that position.
pub proof fn lemma_update_keeps(s: Seq<Card>, p: int, x: Card, c: Card)
    requires
        0 <= p < s.len(),
        s.contains(c),
        s[p] != c,
    ensures
        s.update(p, x).contains(c),
{
    let q = choose|q: int| 0 <= q < s.len() && s[q] == c;
    assert(s.update(p, x)[q] == c);
}

/// The first position of a held card holds that card.
pub proof fn lemma_first_pos_held(s: Seq<Card>, c: Card)
    requires
        s.contains(c),
    ensures
        0 <= first_pos(s, c) < s.len(),
        s[first_pos(s, c)] == c,
{
    let q = choose|q: int| 0 <= q < s.len() && s[q] == c;
    lemma_least_index(s, c, q);
}

proof fn lemma_least_index(s: Seq<Card>, c: Card, q: int)
    requires
        0 <= q < s.len(),
        s[q] == c,
    ensures
        exists|i: int| 0 <= i < s.len() && s[i] == c && forall|j: int| 0 <= j < i ==> s[j] != c,
    decreases q,
{
    if exists|j: int| 0 <= j < q && s[j] == c {
        let j = choose|j: int| 0 <= j < q && s[j] == c;
        lemma_least_index(s, c, j);
    } else {
        assert(forall|j: int| 0 <= j < q ==> s[j] != c);
    }
}

/// Drawing moves one card from the stock into a hand and touches nothing else.
pub proof fn lemma_draw(d: DealModel, s: Seat)
    requires
        d.shaped(),
        d.trump_card is None ==> d.talon.len() == 0,
    ensures
        d.draw(s).shaped(),
        d.draw(s).pool() == d.pool(),
        d.draw(s).known == d.known,
        d.draw(s).trick == d.trick,
        d.draw(s).played == d.played,
        d.draw(s).card_points == d.card_points,
        d.draw(s).tricks_won == d.tricks_won,
        d.draw(s).pending == d.pending,
        d.draw(s).leader == d.leader,
        d.draw(s).closed_by == d.closed_by,
        d.draw(s).result == d.result,
        d.draw(s).trump == d.trump,
        d.draw(s).last_trick == d.last_trick,
        d.draw(s).hands[s.opp().idx()] == d.hands[s.opp().idx()],
        forall|c: Card| d.hands[s.idx()].contains(c) ==> #[trigger] d.draw(s).hands[s.idx()].contains(c),
        d.stock() > 0 ==> d.draw(s).hands[s.idx()].len() == d.hands[s.idx()].len() + 1
            && d.draw(s).stock() == d.stock() - 1,
        d.stock() == 0 ==> d.draw(s) == d,
        d.draw(s).trump_card is None ==> d.draw(s).talon.len() == 0,
{
    broadcast use {vstd::seq_lib::group_to_multiset_ensures, vstd::multiset::group_multiset_axioms};

    let i = s.idx();
    let d2 = d.draw(s);
    if d.talon.len() > 0 {
        let t0 = d.talon[0];
        assert(d.talon.drop_first() =~= d.talon.remove(0));
        assert(d2.hands[i] == d.hands[i].push(t0));
        assert(d2.talon.to_multiset() == d.talon.to_multiset().remove(t0));
        assert(d.talon.to_multiset().count(t0) > 0);
        assert(d2.pool() =~= d.pool());
        assert forall|c: Card| d.hands[i].contains(c) implies #[trigger] d2.hands[i].contains(c) by {
            let q = choose|q: int| 0 <= q < d.hands[i].len() && d.hands[i][q] == c;
            assert(d2.hands[i][q] == c);
        }
    } else if d.trump_card is Some {
        let tc = d.trump_card->0;
        assert(d2.hands[i] == d.hands[i].push(tc));
        assert(opt_cards(d.trump_card) =~= seq![tc]);
        assert(opt_cards(d2.trump_card) =~= Seq::<Card>::empty());
        assert(seq![tc].to_multiset() =~= Multiset::<Card>::empty().insert(tc)) by {
            assert(seq![tc] =~= Seq::<Card>::empty().push(tc));
        }
        assert(d2.pool() =~= d.pool());
        assert forall|c: Card| d.hands[i].contains(c) implies #[trigger] d2.hands[i].contains(c) by {
            let q = choose|q: int| 0 <= q < d.hands[i].len() && d.hands[i][q] == c;
            assert(d2.hands[i][q] == c);
        }
    } else {
        assert(d2 == d);
    }
}

/// A card in `with_card(s, x)` is `x` or was in `s`.
pub proof fn lemma_with_card(s: Seq<Card>, x: Card, c: Card)
    requires
        with_card(s, x).contains(c),
    ensures
        s.contains(c) || c == x,
{
    if !s.contains(x) && c != x {
        let q = choose|q: int| 0 <= q < s.push(x).len() && s.push(x)[q] == c;
        assert(s[q] == c);
    }
}

/// Placing a card moves it from the hand to the played cards.
pub proof fn lemma_placed_pool(d: DealModel, seat: Seat, card: Card, announce: bool)
    requires
        d.shaped(),
        d.hands[seat.idx()].contains(card),
    ensures
        d.placed(seat, card, announce).pool() == d.pool(),
        d.placed(seat, card, announce).hands[seat.idx()].len() + 1 == d.hands[seat.idx()].len(),
{
    broadcast use {vstd::seq_lib::group_to_multiset_ensures, vstd::multiset::group_multiset_axioms};

    let i = seat.idx();
    let hand = d.hands[i];
    let pos = first_pos(hand, card);
    lemma_first_pos_held(hand, card);
    let d1 = d.placed(seat, card, announce);
    assert(d1.hands[i] == hand.remove(pos));
    assert(d1.hands[i].to_multiset() == hand.to_multiset().remove(card));
    assert(hand.to_multiset().count(card) > 0);
    assert(d1.played == d.played.push(card));
    assert(d1.pool() =~= d.pool());
}

/// Placing a card keeps public knowledge of the hands true.
pub proof fn lemma_placed_known(d: DealModel, seat: Seat, card: Card, announce: bool)
    requires
        d.shaped(),
        d.known_held(),
        d.hands[seat.idx()].contains(card),
        announce ==> d.may_announce(seat, card),
    ensures
        d.placed(seat, card, announce).known_held(),
{
    let i = seat.idx();
    let hand = d.hands[i];
    let pos = first_pos(hand, card);
    lemma_first_pos_held(hand, card);
    let d1 = d.placed(seat, card, announce);
    let filtered = d.known[i].filter(differs_from(card));
    assert forall|k: int, c: Card| 0 <= k < 2 && #[trigger] d1.known[k].contains(c) implies d1.hands[k].contains(c) by {
        if k == i {
            if announce {
                lemma_with_card(filtered, partner_card(card), c);
            }
            if announce && c == partner_card(card) {
                assert(hand[pos] != c);
                lemma_remove_keeps(hand, pos, c);
            } else {
                assert(filtered.contains(c));
                lemma_in_filter(d.known[i], differs_from(card), c);
                lemma_remove_keeps(hand, pos, c);
            }
        } else {
            assert(d1.known[k] == d.known[k]);
            assert(d1.hands[k] == d.hands[k]);
        }
    }
}

/// Placing a held card by the player to move: the card moves from the hand to the
/// played cards, public knowledge stays true, and the trick grows by one.
pub proof fn lemma_placed(d: DealModel, seat: Seat, card: Card, announce: bool)
    requires
        d.wf(),
        d.result is None,
        seat == d.active(),
        d.hands[seat.idx()].contains(card),
        announce ==> d.may_announce(seat, card),
    ensures
        d.placed(seat, card, announce).shaped(),
        d.placed(seat, card, announce).pool() == d.pool(),
        d.placed(seat, card, announce).known_held(),
        d.placed(seat, card, announce).trick.len() == d.trick.len() + 1,
        d.placed(seat, card, announce).trick[0].seat == d.leader,
        d.placed(seat, card, announce).played.len() == d.played.len() + 1,
        d.placed(seat, card, announce).hands[seat.idx()].len() + 1 == d.hands[seat.idx()].len(),
        d.placed(seat, card, announce).hands[seat.opp().idx()] == d.hands[seat.opp().idx()],
        d.placed(seat, card, announce).score_total() <= d.score_total() + 40,
        !announce ==> d.placed(seat, card, announce).card_points == d.card_points
            && d.placed(seat, card, announce).pending == d.pending,
        announce ==> d.trick.len() == 0,
        (seat == d.leader) == (d.trick.len() == 0),
        d.placed(seat, card, announce).tricks_won == d.tricks_won,
        d.placed(seat, card, announce).leader == d.leader,
        d.placed(seat, card, announce).talon == d.talon,
        d.placed(seat, card, announce).trump_card == d.trump_card,
        d.placed(seat, card, announce).closed_by == d.closed_by,
        d.placed(seat, card, announce).result == d.result,
        d.placed(seat, card, announce).trump == d.trump,
{
    lemma_placed_pool(d, seat, card, announce);
    lemma_placed_known(d, seat, card, announce);
    let d1 = d.placed(seat, card, announce);
    if d.trick.len() == 0 {
        assert(d1.trick[0].seat == seat);
    } else {
        assert(d1.trick[0] == d.trick[0]);
    }
}

/// Settling a trick keeps every card and all public knowledge, gives the winner one
/// trick and the trick's points, and leaves the hands equal with an even stock.
pub proof fn lemma_resolved(d: DealModel)
    requires
        d.shaped(),
        d.counters_fit(),
        d.known_held(),
        d.trick.len() == 2,
        d.hands[0].len() == d.hands[1].len(),
        d.stock() % 2 == 0,
        d.trump_card is None ==> d.talon.len() == 0,
    ensures
        d.resolved().shaped(),
        d.resolved().pool() == d.pool(),
        d.resolved().known_held(),
        d.resolved().trick.len() == 0,
        d.resolved().played == d.played,
        d.resolved().tricks_won[0] + d.resolved().tricks_won[1] == d.tricks_won[0] + d.tricks_won[1] + 1,
        d.resolved().score_total() <= d.score_total() + 22,
        d.resolved().hands[0].len() == d.resolved().hands[1].len(),
        d.resolved().hands[0].len() >= d.hands[0].len(),
        d.resolved().stock() % 2 == 0,
        d.resolved().trump_card is None ==> d.resolved().talon.len() == 0,
        d.resolved().leader == d.trick_winner(),
        d.resolved().result == d.result,
        d.resolved().closed_by == d.closed_by,
        d.resolved().known == d.known,
        d.resolved().card_points[d.trick_winner().idx()] + 10 <= u16::MAX,
{
    let w = d.trick_winner();
    let i = w.idx();
    assert(d.trick[0].card.rank.pts() <= 11 && d.trick[1].card.rank.pts() <= 11);
    let scored = DealModel {
        card_points: d.card_points.update(i, (d.card_points[i] + d.trick_points() + d.pending[i]) as u16),
        tricks_won: d.tricks_won.update(i, (d.tricks_won[i] + 1) as u8),
        pending: d.pending.update(i, 0u16),
        last_trick: d.resolved().last_trick,
        trick: Seq::empty(),
        leader: w,
        ..d
    };
    assert(scored.score_total() == d.score_total() + d.trick_points());
    assert(scored.pool() == d.pool());
    if d.closed_by is None && d.trump_card is Some {
        assert(d.resolved() == scored.draw(w).draw(w.opp()));
        lemma_draw(scored, w);
        let s1 = scored.draw(w);
        lemma_draw(s1, w.opp());
        assert(scored.stock() >= 2);
        assert(s1.hands[w.idx()].len() == d.hands[w.idx()].len() + 1);
        assert(s1.hands[w.opp().idx()].len() == d.hands[w.opp().idx()].len());
        let s2 = s1.draw(w.opp());
        assert(s2.hands[w.opp().idx()].len() == d.hands[w.opp().idx()].len() + 1);
        assert(s2.hands[w.idx()] == s1.hands[w.idx()]);
        assert forall|k: int, c: Card| 0 <= k < 2 && #[trigger] s2.known[k].contains(c) implies s2.hands[k].contains(c) by {
            assert(d.hands[k].contains(c));
            if k == w.idx() {
                assert(s1.hands[k].contains(c));
            } else {
                assert(s1.hands[k] == d.hands[k]);
                assert(s2.hands[k].contains(c));
            }
        }
    } else {
        assert(d.resolved() == scored);
    }
}

/// Ending a running deal with between one and three game points keeps the match
/// well-formed.
pub proof fn lemma_awarded(m: MatchModel, w: Seat, game_points: u8, reason: DealEndReason)
    requires
        m.deal.settled(),
        m.deal.result is None,
        m.match_points.len() == 2,
        m.winner is None,
        m.match_points[0] < MATCH_TARGET,
        m.match_points[1] < MATCH_TARGET,
        1 <= m.deal_number <= m.match_points[0] + m.match_points[1] + 1,
        1 <= game_points <= 3,
    ensures
        m.awarded(w, game_points, reason).wf(),
{
    let a = m.awarded(w, game_points, reason);
    assert(a.deal.settled());
}

/// A declaration during a running deal keeps the match well-formed.
pub proof fn lemma_declared(m: MatchModel, seat: Seat)
    requires
        m.deal.settled(),
        m.deal.result is None,
        m.match_points.len() == 2,
        m.winner is None,
        m.match_points[0] < MATCH_TARGET,
        m.match_points[1] < MATCH_TARGET,
        1 <= m.deal_number <= m.match_points[0] + m.match_points[1] + 1,
    ensures
        m.declared(seat).wf(),
{
    if m.deal.card_points[seat.idx()] >= 66 {
        lemma_awarded(m, seat, crate::game::game_points_of(m.deal, seat), DealEndReason::Declared);
    } else {
        lemma_awarded(
            m,
            seat.opp(),
            crate::game::penalty_points(m.deal, seat.opp()),
            DealEndReason::IncorrectDeclaration,
        );
    }
}

/// Ending a deal whose last trick is played keeps the match well-formed, provided the
/// last-trick bonus still fits the points bound.
pub proof fn lemma_exhausted(m: MatchModel, last_winner: Seat)
    requires
        m.deal.settled(),
        m.deal.score_total() + 10 <= 52 * m.deal.played.len(),
        m.deal.card_points[last_winner.idx()] + 10 <= u16::MAX,
        m.deal.result is None,
        m.match_points.len() == 2,
        m.winner is None,
        m.match_points[0] < MATCH_TARGET,
        m.match_points[1] < MATCH_TARGET,
        1 <= m.deal_number <= m.match_points[0] + m.match_points[1] + 1,
    ensures
        m.exhausted(last_winner).wf(),
{
    match m.deal.closed_by {
        Some(closer) => {
            if m.deal.card_points[closer.idx()] >= 66 {
                lemma_awarded(m, closer, crate::game::game_points_of(m.deal, closer), DealEndReason::Declared);
            } else {
                lemma_awarded(
                    m,
                    closer.opp(),
                    crate::game::penalty_points(m.deal, closer.opp()),
                    DealEndReason::ClosedStockFailed,
                );
            }
        },
        None => {
            let i = last_winner.idx();
            let d = DealModel {
                card_points: m.deal.card_points.update(i, (m.deal.card_points[i] + 10) as u16),
                ..m.deal
            };
            assert(d.score_total() == m.deal.score_total() + 10);
            assert(d.pool() == m.deal.pool());
            assert(d.settled());
            let w = if d.card_points[i] >= 66 {
                last_winner
            } else {
                last_winner.opp()
            };
            lemma_awarded(m.with_deal(d), w, crate::game::game_points_of(d, w), DealEndReason::LastTrick);
        },
    }
}

/// Placing a lead card keeps the deal settled.
proof fn lemma_lead_settled(d: DealModel, seat: Seat, card: Card, announce: bool)
    requires
        d.wf(),
        d.result is None,
        seat == d.active(),
        d.trick.len() == 0,
        d.hands[seat.idx()].contains(card),
        announce ==> d.may_announce(seat, card),
    ensures
        d.placed(seat, card, announce).settled(),
        d.placed(seat, card, announce).hands[0].len() + d.placed(seat, card, announce).hands[1].len() > 0,
{
    lemma_placed(d, seat, card, announce);
}

/// Placing the follow card and settling the trick keeps the deal settled, with room
/// for the last-trick bonus.
proof fn lemma_follow_settled(d: DealModel, seat: Seat, card: Card)
    requires
        d.wf(),
        d.result is None,
        seat == d.active(),
        d.trick.len() == 1,
        d.hands[seat.idx()].contains(card),
    ensures
        d.placed(seat, card, false).trick.len() == 2,
        d.placed(seat, card, false).resolved().settled(),
        d.placed(seat, card, false).resolved().score_total() + 10 <= 52 * d.placed(seat, card, false).resolved().played.len(),
        d.placed(seat, card, false).resolved().card_points[d.placed(seat, card, false).trick_winner().idx()] + 10 <= u16::MAX,
        d.placed(seat, card, false).resolved().result is None,
{
    lemma_wf_counters_fit(d);
    lemma_placed(d, seat, card, false);
    let d1 = d.placed(seat, card, false);
    assert(d1.hands[0].len() == d1.hands[1].len());
    lemma_resolved(d1);
}

/// A lead card, accepted, keeps the match well-formed.
proof fn lemma_lead_played(m: MatchModel, seat: Seat, card: Card, announce: bool, declare: bool)
    requires
        m.wf(),
        m.winner is None,
        m.deal.result is None,
        m.deal.trick.len() == 0,
        m.play_refusal(seat, card, announce, declare) is None,
    ensures
        m.after_play(seat, card, announce, declare).wf(),
{
    let d = m.deal;
    lemma_lead_settled(d, seat, card, announce);
    let d1 = d.placed(seat, card, announce);
    assert(d1.trick.len() == 1) by {
        lemma_placed(d, seat, card, announce);
    }
    if declare {
        lemma_declared(m.with_deal(d1), seat);
    } else {
        assert(m.after_play(seat, card, announce, declare) == m.with_deal(d1));
    }
}

/// A follow card, accepted, keeps the match well-formed.
proof fn lemma_follow_played(m: MatchModel, seat: Seat, card: Card)
    requires
        m.wf(),
        m.winner is None,
        m.deal.result is None,
        m.deal.trick.len() == 1,
        m.play_refusal(seat, card, false, false) is None,
    ensures
        m.after_play(seat, card, false, false).wf(),
{
    let d = m.deal;
    lemma_follow_settled(d, seat, card);
    let d1 = d.placed(seat, card, false);
    let d2 = d1.resolved();
    if d2.hands[0].len() == 0 && d2.hands[1].len() == 0 {
        lemma_exhausted(m.with_deal(d2), d1.trick_winner());
    } else {
        assert(m.after_play(seat, card, false, false) == m.with_deal(d2));
    }
}

/// An accepted card play keeps the match well-formed.
pub proof fn lemma_after_play(m: MatchModel, seat: Seat, card: Card, announce: bool, declare: bool)
    requires
        m.wf(),
        m.winner is None,
        m.deal.result is None,
        m.play_refusal(seat, card, announce, declare) is None,
    ensures
        m.after_play(seat, card, announce, declare).wf(),
{
    if m.deal.trick.len() == 0 {
        lemma_lead_played(m, seat, card, announce, declare);
    } else {
        assert(!announce && !declare);
        lemma_follow_played(m, seat, card);
    }
}

/// Replacing a position changes the multiset by exactly the two cards involved.
proof fn lemma_update_multiset(s: Seq<Card>, p: int, x: Card)
    requires
        0 <= p < s.len(),
    ensures
        s.update(p, x).to_multiset() == s.to_multiset().remove(s[p]).insert(x),
        s.to_multiset().count(s[p]) > 0,
{
    broadcast use vstd::seq_lib::group_to_multiset_ensures;

    assert(s.update(p, x) =~= s.remove(p).insert(p, x));
}

/// Swapping card `n` of one part for card `g` of another leaves a sum of parts unchanged.
proof fn lemma_swap_sum(
    h: Multiset<Card>,
    o: Multiset<Card>,
    t: Multiset<Card>,
    p: Multiset<Card>,
    n: Card,
    g: Card,
)
    requires
        h.count(n) > 0,
    ensures
        h.remove(n).insert(g).add(o).add(t).add(Multiset::empty().insert(n)).add(p) == h.add(o).add(t).add(
            Multiset::empty().insert(g),
        ).add(p),
        o.add(h.remove(n).insert(g)).add(t).add(Multiset::empty().insert(n)).add(p) == o.add(h).add(t).add(
            Multiset::empty().insert(g),
        ).add(p),
{
    broadcast use vstd::multiset::group_multiset_axioms;

    assert(h.remove(n).insert(g).add(o).add(t).add(Multiset::empty().insert(n)).add(p) =~= h.add(o).add(t).add(
        Multiset::empty().insert(g),
    ).add(p));
    assert(o.add(h.remove(n).insert(g)).add(t).add(Multiset::empty().insert(n)).add(p) =~= o.add(h).add(t).add(
        Multiset::empty().insert(g),
    ).add(p));
}

/// Exchanging the trump nine swaps two cards between a hand and the face-up trump.
proof fn lemma_exchanged_pool(m: MatchModel, seat: Seat)
    requires
        m.deal.shaped(),
        m.deal.may_exchange(seat),
    ensures
        m.exchanged(seat).deal.pool() == m.deal.pool(),
        m.exchanged(seat).deal.hands[seat.idx()].len() == m.deal.hands[seat.idx()].len(),
{
    let i = seat.idx();
    let d = m.deal;
    let nine = Card { suit: d.trump, rank: Rank::Nine };
    let gained = d.trump_card->0;
    let hand = d.hands[i];
    let pos = first_pos(hand, nine);
    lemma_first_pos_held(hand, nine);
    let e = m.exchanged(seat).deal;
    lemma_update_multiset(hand, pos, gained);
    assert(e.hands[i] == hand.update(pos, gained));
    assert(opt_cards(d.trump_card) =~= Seq::<Card>::empty().push(gained));
    assert(opt_cards(e.trump_card) =~= Seq::<Card>::empty().push(nine));
    assert(Seq::<Card>::empty().push(gained).to_multiset() =~= Multiset::<Card>::empty().insert(gained)) by {
        broadcast use {vstd::seq_lib::group_to_multiset_ensures, vstd::multiset::group_multiset_axioms};

    }
    assert(Seq::<Card>::empty().push(nine).to_multiset() =~= Multiset::<Card>::empty().insert(nine)) by {
        broadcast use {vstd::seq_lib::group_to_multiset_ensures, vstd::multiset::group_multiset_axioms};

    }
    lemma_swap_sum(
        hand.to_multiset(),
        d.hands[1 - i].to_multiset(),
        d.talon.to_multiset(),
        d.played.to_multiset(),
        nine,
        gained,
    );
    if i == 0 {
        assert(e.hands[1] == d.hands[1]);
    } else {
        assert(e.hands[0] == d.hands[0]);
    }
}

/// Exchanging the trump nine keeps public knowledge of the hands true.
proof fn lemma_exchanged_known(m: MatchModel, seat: Seat)
    requires
        m.deal.shaped(),
        m.deal.known_held(),
        m.deal.may_exchange(seat),
    ensures
        m.exchanged(seat).deal.known_held(),
{
    let i = seat.idx();
    let d = m.deal;
    let nine = Card { suit: d.trump, rank: Rank::Nine };
    let gained = d.trump_card->0;
    let hand = d.hands[i];
    let pos = first_pos(hand, nine);
    lemma_first_pos_held(hand, nine);
    let e = m.exchanged(seat).deal;
    let filtered = d.known[i].filter(differs_from(nine));
    assert forall|k: int, c: Card| 0 <= k < 2 && #[trigger] e.known[k].contains(c) implies e.hands[k].contains(c) by {
        if k == i {
            lemma_with_card(filtered, gained, c);
            if c == gained {
                assert(e.hands[i][pos] == gained);
            } else {
                lemma_in_filter(d.known[i], differs_from(nine), c);
                lemma_update_keeps(hand, pos, gained, c);
            }
        } else {
            assert(e.known[k] == d.known[k]);
            assert(e.hands[k] == d.hands[k]);
        }
    }
}

/// Exchanging the trump nine keeps the match well-formed.
pub proof fn lemma_exchanged(m: MatchModel, seat: Seat)
    requires
        m.wf(),
        m.deal.may_exchange(seat),
    ensures
        m.exchanged(seat).wf(),
{
    lemma_exchanged_pool(m, seat);
    lemma_exchanged_known(m, seat);
}

/// A well-formed match has room in its counters for any action.
pub proof fn lemma_wf_room(m: MatchModel, seat: Seat, action: Action)
    requires
        m.wf(),
    ensures
        m.room_for(seat, action),
{
    lemma_wf_counters_fit(m.deal);
}

/// Closing the stock keeps the match well-formed.
pub proof fn lemma_closed(m: MatchModel, seat: Seat)
    requires
        m.wf(),
    ensures
        m.closed(seat).wf(),
{
    assert(m.closed(seat).deal.pool() == m.deal.pool());
}

/// Every action other than starting the next deal keeps a well-formed match
/// well-formed, whether it is accepted or refused. (Starting the next deal deals a
/// fresh shuffle; `MatchState::apply` states that case.)
#[verifier::rlimit(40)]
pub proof fn lemma_applied_wf(m: MatchModel, seat: Seat, action: Action)
    requires
        m.wf(),
        !(action is NextDeal),
    ensures
        m.applied(seat, action).0.wf(),
{
    if m.winner is Some || m.deal.result is Some {
    } else {
        match action {
            Action::Play { card, announce_marriage, declare } => {
                if m.play_refusal(seat, card, announce_marriage, declare) is None {
                    lemma_after_play(m, seat, card, announce_marriage, declare);
                }
            },
            Action::ExchangeTrump => {
                if m.deal.may_exchange(seat) {
                    lemma_exchanged(m, seat);
                }
            },
            Action::CloseStock => {
                if m.deal.may_close(seat) {
                    lemma_closed(m, seat);
                }
            },
            Action::Declare => {
                if m.deal.trick.len() == 0 && m.deal.leader == seat {
                    lemma_declared(m, seat);
                }
            },
            Action::NextDeal => {},
        }
    }
}

/// In a running deal of a well-formed match the player to move always has a legal
/// card: play never deadlocks.
pub proof fn lemma_live_deal_has_legal_play(d: DealModel)
    requires
        d.wf(),
        d.result is None,
    ensures
        d.legal(d.active()).len() > 0,
{
    let s = d.active();
    let hand = d.hands[s.idx()];
    assert(hand.len() > 0) by {
        if d.trick.len() == 1 {
            assert(s == d.leader.opp());
        }
    }
    match d.lead_card() {
        None => {},
        Some(l) => {
            if d.strict() {
                let same = hand.filter(crate::deal::of_suit(l.suit));
                if same.len() == 0 {
                    let trumps = hand.filter(crate::deal::of_suit(d.trump));
                }
            }
        },
    }
}

/// Ending a deal never takes game points away from either seat.
proof fn lemma_awarded_monotone(m: MatchModel, w: Seat, game_points: u8, reason: DealEndReason)
    requires
        m.match_points.len() == 2,
    ensures
        m.awarded(w, game_points, reason).match_points.len() == 2,
        forall|i: int| 0 <= i < 2 ==> m.match_points[i] <= #[trigger] m.awarded(w, game_points, reason).match_points[i],
{
}

/// Game points only grow: no action, accepted or refused, takes game points away
/// from either seat.
pub proof fn lemma_match_points_monotone(m: MatchModel, seat: Seat, action: Action)
    requires
        m.match_points.len() == 2,
    ensures
        m.applied(seat, action).0.match_points.len() == 2,
        forall|i: int| 0 <= i < 2 ==> m.match_points[i] <= #[trigger] m.applied(seat, action).0.match_points[i],
{
    if m.winner is None && !(action is NextDeal) && m.deal.result is None {
        match action {
            Action::Play { card, announce_marriage, declare } => {
                let d1 = m.deal.placed(seat, card, announce_marriage);
                let m1 = m.with_deal(d1);
                if declare {
                    lemma_declared_monotone(m1, seat);
                } else if d1.trick.len() == 2 {
                    let d2 = d1.resolved();
                    lemma_exhausted_monotone(m.with_deal(d2), d1.trick_winner());
                }
            },
            Action::Declare => {
                lemma_declared_monotone(m, seat);
            },
            _ => {},
        }
    }
}

proof fn lemma_declared_monotone(m: MatchModel, seat: Seat)
    requires
        m.match_points.len() == 2,
    ensures
        forall|i: int| 0 <= i < 2 ==> m.match_points[i] <= #[trigger] m.declared(seat).match_points[i],
        m.declared(seat).match_points.len() == 2,
{
    lemma_awarded_monotone(m, seat, crate::game::game_points_of(m.deal, seat), DealEndReason::Declared);
    lemma_awarded_monotone(
        m,
        seat.opp(),
        crate::game::penalty_points(m.deal, seat.opp()),
        DealEndReason::IncorrectDeclaration,
    );
}

proof fn lemma_exhausted_monotone(m: MatchModel, last_winner: Seat)
    requires
        m.match_points.len() == 2,
    ensures
        forall|i: int| 0 <= i < 2 ==> m.match_points[i] <= #[trigger] m.exhausted(last_winner).match_points[i],
        m.exhausted(last_winner).match_points.len() == 2,
{
    match m.deal.closed_by {
        Some(closer) => {
            lemma_awarded_monotone(m, closer, crate::game::game_points_of(m.deal, closer), DealEndReason::Declared);
            lemma_awarded_monotone(
                m,
                closer.opp(),
                crate::game::penalty_points(m.deal, closer.opp()),
                DealEndReason::ClosedStockFailed,
            );
        },
        None => {
            let i = last_winner.idx();
            let d = DealModel {
                card_points: m.deal.card_points.update(i, (m.deal.card_points[i] + 10) as u16),
                ..m.deal
            };
            let w = if d.card_points[i] >= 66 {
                last_winner
            } else {
                last_winner.opp()
            };
            lemma_awarded_monotone(m.with_deal(d), w, crate::game::game_points_of(d, w), DealEndReason::LastTrick);
        },
    }
}

/// The face-up trump can still be exchanged for the trump nine: it is there and is not
/// that nine.
pub open spec fn exchange_open(d: DealModel) -> bool {
    d.trump_card matches Some(c) && c != (Card { suit: d.trump, rank: Rank::Nine })
}

/// What is left of a running deal: one step for each card not yet played, one while
/// the stock can still be closed, one while the trump can still be exchanged.
pub open spec fn deal_progress(d: DealModel) -> int {
    (24 - d.played.len()) + (if d.closed_by is None {
        1int
    } else {
        0int
    }) + (if exchange_open(d) {
        1int
    } else {
        0int
    })
}

/// Game points that still count toward the target: each seat's, capped at the target.
pub open spec fn counted_points(m: MatchModel) -> int {
    (if m.match_points[0] < MATCH_TARGET {
        m.match_points[0] as int
    } else {
        MATCH_TARGET as int
    }) + (if m.match_points[1] < MATCH_TARGET {
        m.match_points[1] as int
    } else {
        MATCH_TARGET as int
    })
}

/// What is left of a match: every game point still missing weighs more than a whole
/// deal, and a finished deal weighs more than any running one.
pub open spec fn match_progress(m: MatchModel) -> int {
    (2 * MATCH_TARGET - counted_points(m)) * 28 + if m.deal.result is Some {
        27int
    } else {
        deal_progress(m.deal)
    }
}

/// No more than 24 cards are ever played in a well-formed deal.
proof fn lemma_played_bounded(d: DealModel)
    requires
        d.settled(),
    ensures
        d.played.len() <= 24,
{
    broadcast use vstd::multiset::group_multiset_axioms;

    lemma_deck_distinct();
    deck_view().to_multiset_ensures();
    d.hands[0].to_multiset_ensures();
    d.hands[1].to_multiset_ensures();
    d.talon.to_multiset_ensures();
    opt_cards(d.trump_card).to_multiset_ensures();
    d.played.to_multiset_ensures();
}

/// A card held in a hand of a well-formed deal is not also the face-up trump.
proof fn lemma_held_not_face_up(d: DealModel, i: int, c: Card)
    requires
        d.settled(),
        0 <= i < 2,
        d.hands[i].contains(c),
    ensures
        d.trump_card != Some(c),
{
    broadcast use vstd::multiset::group_multiset_axioms;

    lemma_deck_distinct();
    deck_view().lemma_multiset_has_no_duplicates();
    deck_view().to_multiset_ensures();
    d.hands[0].to_multiset_ensures();
    d.hands[1].to_multiset_ensures();
    if d.trump_card == Some(c) {
        assert(opt_cards(d.trump_card) =~= seq![c]);
        seq![c].to_multiset_ensures();
        assert(seq![c][0] == c);
        assert(d.pool().count(c) >= 2);
        assert(deck_view().to_multiset().contains(c));
    }
}

/// Drawing a card keeps the record of play and the closing, and at most turns the
/// face-up trump down.
proof fn lemma_draw_progress(d: DealModel, s: Seat)
    ensures
        d.draw(s).played == d.played,
        d.draw(s).closed_by == d.closed_by,
        d.draw(s).trump == d.trump,
        d.draw(s).result == d.result,
        d.draw(s).trump_card == d.trump_card || d.draw(s).trump_card is None,
{
}

/// Playing a card that does not end the deal brings it closer to its end.
proof fn lemma_play_progress(d: DealModel, seat: Seat, card: Card, announce: bool)
    ensures
        d.placed(seat, card, announce).played.len() == d.played.len() + 1,
        d.placed(seat, card, announce).trick.len() == 2 ==> {
            let r = d.placed(seat, card, announce).resolved();
            &&& r.played.len() == d.played.len() + 1
            &&& r.closed_by == d.closed_by
            &&& r.result == d.result
            &&& deal_progress(r) < deal_progress(d)
        },
        deal_progress(d.placed(seat, card, announce)) < deal_progress(d),
        d.placed(seat, card, announce).result == d.result,
{
    let d1 = d.placed(seat, card, announce);
    if d1.trick.len() == 2 {
        let w = d1.trick_winner();
        let scored = DealModel {
            card_points: d1.card_points.update(
                w.idx(),
                (d1.card_points[w.idx()] + d1.trick_points() + d1.pending[w.idx()]) as u16,
            ),
            tricks_won: d1.tricks_won.update(w.idx(), (d1.tricks_won[w.idx()] + 1) as u8),
            pending: d1.pending.update(w.idx(), 0u16),
            last_trick: Some(
                crate::deal::TrickSummary {
                    cards: [d1.trick[0], d1.trick[1]],
                    winner: w,
                    points: d1.trick_points(),
                },
            ),
            trick: Seq::empty(),
            leader: w,
            ..d1
        };
        lemma_draw_progress(scored, w);
        lemma_draw_progress(scored.draw(w), w.opp());
    }
}

/// Awarding a deal while both seats are short of the target counts at least one more
/// game point and ends the deal.
proof fn lemma_award_progress(m: MatchModel, winner: Seat, game_points: u8, reason: DealEndReason)
    requires
        m.match_points.len() == 2,
        m.match_points[0] < MATCH_TARGET,
        m.match_points[1] < MATCH_TARGET,
        game_points >= 1,
    ensures
        counted_points(m.awarded(winner, game_points, reason)) >= counted_points(m) + 1,
        m.awarded(winner, game_points, reason).deal.result is Some,
{
}

/// A declaration, right or wrong, ends the deal and counts at least one more game point.
proof fn lemma_declared_progress(m: MatchModel, seat: Seat)
    requires
        m.match_points.len() == 2,
        m.match_points[0] < MATCH_TARGET,
        m.match_points[1] < MATCH_TARGET,
    ensures
        counted_points(m.declared(seat)) >= counted_points(m) + 1,
        m.declared(seat).deal.result is Some,
{
    if m.deal.card_points[seat.idx()] >= 66 {
        lemma_award_progress(m, seat, declared_points(m.deal, seat), DealEndReason::Declared);
    } else {
        lemma_award_progress(
            m,
            seat.opp(),
            penalty_points(m.deal, seat.opp()),
            DealEndReason::IncorrectDeclaration,
        );
    }
}

/// The end of an exhausted deal counts at least one more game point.
proof fn lemma_exhausted_progress(m: MatchModel, last_winner: Seat)
    requires
        m.match_points.len() == 2,
        m.match_points[0] < MATCH_TARGET,
        m.match_points[1] < MATCH_TARGET,
    ensures
        counted_points(m.exhausted(last_winner)) >= counted_points(m) + 1,
        m.exhausted(last_winner).deal.result is Some,
{
    match m.deal.closed_by {
        Some(closer) => if m.deal.card_points[closer.idx()] >= 66 {
            lemma_award_progress(m, closer, game_points_of(m.deal, closer), DealEndReason::Declared);
        } else {
            lemma_award_progress(
                m,
                closer.opp(),
                penalty_points(m.deal, closer.opp()),
                DealEndReason::ClosedStockFailed,
            );
        },
        None => {
            let i = last_winner.idx();
            let d = DealModel {
                card_points: m.deal.card_points.update(i, (m.deal.card_points[i] + 10) as u16),
                ..m.deal
            };
            let w = if d.card_points[i] >= 66 {
                last_winner
            } else {
                last_winner.opp()
            };
            lemma_award_progress(m.with_deal(d), w, game_points_of(d, w), DealEndReason::LastTrick);
        },
    }
}

/// A match's remaining progress is never negative and never above
/// `2 * 7 * 28 + 27 = 419`.
pub proof fn lemma_match_progress_bounded(m: MatchModel)
    requires
        m.wf(),
    ensures
        0 <= match_progress(m) <= 2 * MATCH_TARGET * 28 + 27,
{
    lemma_played_bounded(m.deal);
}

/// Every accepted action of a well-formed match lowers its remaining progress, which
/// is never negative: a match cannot run forever, and ends after at most 419 accepted
/// actions (fewer than the thousand a test run allows).
pub proof fn lemma_accepted_action_progresses(m: MatchModel, seat: Seat, action: Action)
    requires
        m.wf(),
        m.applied(seat, action).1 is Ok,
    ensures
        match_progress(m.applied(seat, action).0) < match_progress(m),
{
    lemma_played_bounded(m.deal);
    if action is NextDeal {
        return;
    }
    match action {
        Action::Play { card, announce_marriage, declare } => {
            let d1 = m.deal.placed(seat, card, announce_marriage);
            lemma_play_progress(m.deal, seat, card, announce_marriage);
            if declare {
                lemma_declared_progress(m.with_deal(d1), seat);
            } else if d1.trick.len() == 2 {
                let d2 = d1.resolved();
                if d2.hands[0].len() == 0 && d2.hands[1].len() == 0 {
                    lemma_exhausted_progress(m.with_deal(d2), d1.trick_winner());
                }
            }
        },
        Action::ExchangeTrump => {
            lemma_held_not_face_up(m.deal, seat.idx(), Card { suit: m.deal.trump, rank: Rank::Nine });
        },
        Action::CloseStock => {},
        Action::Declare => {
            lemma_declared_progress(m, seat);
        },
        Action::NextDeal => {},
    }
}

/// A match without a winner always accepts some action: the next deal once a deal is
/// over, else the first legal card of the player to move. With
/// `lemma_accepted_action_progresses`, play always goes on and always ends.
pub proof fn lemma_live_match_accepts_an_action(m: MatchModel)
    requires
        m.wf(),
        m.winner is None,
    ensures
        m.deal.result is Some ==> m.applied(m.deal.leader, Action::NextDeal).1 is Ok,
        m.deal.result is None ==> m.deal.legal(m.deal.active()).len() > 0 && m.applied(
            m.deal.active(),
            Action::Play { card: m.deal.legal(m.deal.active())[0], announce_marriage: false, declare: false },
        ).1 is Ok,
{
    if m.deal.result is None {
        lemma_live_deal_has_legal_play(m.deal);
        let d = m.deal;
        let s = d.active();
        let hand = d.hands[s.idx()];
        let c = d.legal(s)[0];
        assert(d.legal(s).contains(c));
        assert(hand.contains(c)) by {
            match d.lead_card() {
                None => {},
                Some(l) => {
                    if d.strict() {
                        let same = hand.filter(crate::deal::of_suit(l.suit));
                        if same.len() > 0 {
                            let higher = same.filter(crate::deal::stronger_than(l.rank.ord()));
                            if higher.len() > 0 {
                                same.lemma_filter_contains_rev(crate::deal::stronger_than(l.rank.ord()), c);
                            }
                            hand.lemma_filter_contains_rev(crate::deal::of_suit(l.suit), c);
                        } else {
                            let trumps = hand.filter(crate::deal::of_suit(d.trump));
                            if trumps.len() > 0 {
                                hand.lemma_filter_contains_rev(crate::deal::of_suit(d.trump), c);
                            }
                        }
                    }
                },
            }
        }
    }
}

/// In strict play a follower who holds a card of the led suit stronger than the lead
/// card must head the trick: every legal card is of the led suit, stronger than the
/// lead, and held; this holds whatever suit was led, trumps included.
pub proof fn lemma_strict_follower_must_head(d: DealModel, seat: Seat, lead: Card, higher: Card)
    requires
        d.result is None,
        d.active() == seat,
        d.strict(),
        d.lead_card() == Some(lead),
        d.hands[seat.idx()].contains(higher),
        higher.suit == lead.suit,
        higher.rank.ord() > lead.rank.ord(),
    ensures
        d.legal(seat).contains(higher),
        forall|x: Card|
            #[trigger] d.legal(seat).contains(x) ==> x.suit == lead.suit && x.rank.ord() > lead.rank.ord()
                && d.hands[seat.idx()].contains(x),
{
    let hand = d.hands[seat.idx()];
    let suit = crate::deal::of_suit(lead.suit);
    let stronger = crate::deal::stronger_than(lead.rank.ord());
    let same = hand.filter(suit);
    let i = hand.index_of(higher);
    hand.lemma_filter_contains(suit, i);
    let j = same.index_of(higher);
    same.lemma_filter_contains(stronger, j);
    assert forall|x: Card| #[trigger] d.legal(seat).contains(x) implies x.suit == lead.suit && x.rank.ord()
        > lead.rank.ord() && hand.contains(x) by {
        same.lemma_filter_contains_rev(stronger, x);
        hand.lemma_filter_contains_rev(suit, x);
        #[allow(deprecated)]
        same.filter_lemma(stronger);
        #[allow(deprecated)]
        hand.filter_lemma(suit);
        let k = same.filter(stronger).index_of(x);
        let k2 = same.index_of(x);
    }
}

/// A wrong declaration (fewer than 66 card points) ends the deal for the opponent with
/// 3 game points when the opponent has taken no trick, else 2, added to the opponent's
/// match points.
pub proof fn lemma_wrong_declaration_scores(m: MatchModel, seat: Seat)
    requires
        m.wf(),
        m.winner is None,
        m.deal.result is None,
        m.deal.trick.len() == 0,
        m.deal.leader == seat,
        m.deal.card_points[seat.idx()] < 66,
    ensures
        ({
            let (after, answer) = m.applied(seat, Action::Declare);
            let opp = seat.opp();
            let points: u8 = if m.deal.tricks_won[opp.idx()] == 0 {
                3
            } else {
                2
            };
            &&& answer is Ok
            &&& after.deal.result == Some(
                crate::deal::DealResult { winner: opp, game_points: points, reason: DealEndReason::IncorrectDeclaration },
            )
            &&& after.match_points[opp.idx()] == m.match_points[opp.idx()] + points
            &&& after.match_points[seat.idx()] == m.match_points[seat.idx()]
        }),
{
}

/// A closer who ends the deal short of 66 loses it: the opponent gets 3 game points
/// when it has taken no trick, else 2.
pub proof fn lemma_failed_closure_scores(m: MatchModel, last_winner: Seat, closer: Seat)
    requires
        m.match_points.len() == 2,
        m.match_points[0] < MATCH_TARGET,
        m.match_points[1] < MATCH_TARGET,
        m.deal.closed_by == Some(closer),
        m.deal.card_points[closer.idx()] < 66,
    ensures
        ({
            let opp = closer.opp();
            let points: u8 = if m.deal.tricks_won[opp.idx()] == 0 {
                3
            } else {
                2
            };
            &&& m.exhausted(last_winner).deal.result == Some(
                crate::deal::DealResult { winner: opp, game_points: points, reason: DealEndReason::ClosedStockFailed },
            )
            &&& m.exhausted(last_winner).match_points[opp.idx()] == m.match_points[opp.idx()] + points
        }),
{
}

/// Every deal turns up a trump card, and the trump suit is that card's suit.
pub proof fn lemma_dealt_trump_is_face_up_suit(seed: u64, dealer: Seat)
    ensures
        dealt(seed, dealer).trump_card is Some,
        dealt(seed, dealer).trump == dealt(seed, dealer).trump_card->0.suit,
{
}

/// A seat that has won no trick in the deal cannot exchange the trump nine: the
/// exchange is refused as unavailable and the match is unchanged.
pub proof fn lemma_no_exchange_before_a_trick(m: MatchModel, seat: Seat)
    requires
        m.winner is None,
        m.deal.result is None,
        m.deal.tricks_won[seat.idx()] == 0,
    ensures
        m.applied(seat, Action::ExchangeTrump) == (m, Err::<crate::game::Transition, crate::game::RuleError>(
            crate::game::RuleError::ActionUnavailable,
        )),
{
}

/// A deal gives each player six cards, leaves eleven in the talon under one face-up
/// trump, and lets the non-dealer lead a fresh deal with no card played and no score.
pub proof fn lemma_dealt_shape(seed: u64, dealer: Seat)
    requires
        seeded_shuffle(deck_view(), seed).to_multiset() == deck_view().to_multiset(),
    ensures
        dealt(seed, dealer).hands.len() == 2,
        dealt(seed, dealer).hands[0].len() == 6,
        dealt(seed, dealer).hands[1].len() == 6,
        dealt(seed, dealer).talon.len() == 11,
        dealt(seed, dealer).trump_card is Some,
        dealt(seed, dealer).leader == dealer.opp(),
        dealt(seed, dealer).trick.len() == 0,
        dealt(seed, dealer).played.len() == 0,
        dealt(seed, dealer).closed_by is None,
        dealt(seed, dealer).result is None,
        dealt(seed, dealer).card_points =~= seq![0u16, 0u16],
        dealt(seed, dealer).tricks_won =~= seq![0u8, 0u8],
{
    lemma_deck_distinct();
    let order = seeded_shuffle(deck_view(), seed);
    assert(order.len() == 24) by {
        order.to_multiset_ensures();
        deck_view().to_multiset_ensures();
    }
}

/// A correct declaration (at least 66 card points) wins the deal for the declarer:
/// 3 game points if the opponent took no trick, else 2 if the opponent has at most 32
/// card points, else 1; at least 2 when the opponent closed the stock.
pub proof fn lemma_correct_declaration_scores(m: MatchModel, seat: Seat)
    requires
        m.wf(),
        m.winner is None,
        m.deal.result is None,
        m.deal.trick.len() == 0,
        m.deal.leader == seat,
        m.deal.card_points[seat.idx()] >= 66,
    ensures
        ({
            let (after, answer) = m.applied(seat, Action::Declare);
            let opp = seat.opp().idx();
            let usual: u8 = if m.deal.tricks_won[opp] == 0 {
                3
            } else if m.deal.card_points[opp] <= 32 {
                2
            } else {
                1
            };
            let points: u8 = if m.deal.closed_by == Some(seat.opp()) && usual == 1 {
                2
            } else {
                usual
            };
            &&& answer is Ok
            &&& after.deal.result == Some(
                crate::deal::DealResult { winner: seat, game_points: points, reason: DealEndReason::Declared },
            )
            &&& after.match_points[seat.idx()] == m.match_points[seat.idx()] + points
            &&& after.match_points[opp] == m.match_points[opp]
        }),
{
}

/// When the last trick of an open deal has been played, its taker scores 10 more card
/// points and wins the deal with 66 or more, else the opponent wins it.
pub proof fn lemma_last_trick_scores(m: MatchModel, last_winner: Seat)
    requires
        m.deal.closed_by is None,
        m.deal.card_points.len() == 2,
        m.deal.card_points[last_winner.idx()] + 10 <= u16::MAX,
    ensures
        ({
            let points = m.deal.card_points[last_winner.idx()] + 10;
            let after = m.exhausted(last_winner);
            &&& after.deal.card_points[last_winner.idx()] == points
            &&& after.deal.result matches Some(r) && r.reason == DealEndReason::LastTrick && r.winner == (if points
                >= 66 {
                last_winner
            } else {
                last_winner.opp()
            })
        }),
{
}

/// Game points that bring a seat to 7 win it the match; below 7 the match goes on.
pub proof fn lemma_target_wins_the_match(m: MatchModel, w: Seat, game_points: u8, reason: DealEndReason)
    requires
        m.match_points.len() == 2,
        m.winner is None,
        m.match_points[w.idx()] < MATCH_TARGET,
        game_points <= 3,
    ensures
        m.awarded(w, game_points, reason).match_points[w.idx()] == m.match_points[w.idx()] + game_points,
        m.awarded(w, game_points, reason).winner == (if m.match_points[w.idx()] + game_points >= 7 {
            Some(w)
        } else {
            None
        }),
{
}

} // verus!
