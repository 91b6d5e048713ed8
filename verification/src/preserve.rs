use vstd::prelude::*;
use crate::card::{lemma_counts_partition, lemma_counts_push, lemma_skulls_positive, Card};
use crate::counting::{
    ahead, count_true, gap, lemma_count_other, lemma_count_pair, lemma_count_positive,
    lemma_count_single, lemma_count_split, lemma_count_update, lemma_next_open, lemma_span_fits,
    lemma_total_bounded, lemma_total_update, lemma_total_zero, marks_fit,
};
use crate::event::{Event, Response};
use crate::hand::HandView;
use crate::model::{bare, GameView};
use crate::state::Phase;

verus! {

/// In a valid game no pile holds more than four cards, and so no more than four cards per
/// seat lie on the table.
pub proof fn lemma_piles_bounded(g: GameView)
    requires
        g.valid(),
    ensures
        forall|i: int| 0 <= i < g.seats() ==> (#[trigger] g.piles[i]).len() <= 4,
        g.committed() <= 4 * g.seats(),
{
    assert forall|i: int| 0 <= i < g.seats() implies (#[trigger] g.piles[i]).len() <= 4 by {
        assert(g.seat_ok(i));
        lemma_counts_partition(g.piles[i]);
    }
    lemma_total_bounded(g.piles);
}

/// A player whose pile holds the skull, and whose hand covers the pile, has a card left.
pub proof fn lemma_skull_holder_alive(g: GameView, i: int)
    requires
        g.valid(),
        0 <= i < g.seats(),
        !g.just_lost(i),
        g.piles[i].contains(Card::Skull),
    ensures
        !g.out(i),
{
    assert(g.seat_ok(i));
    lemma_skulls_positive(g.piles[i]);
}

/// Games with the same hands have the same players left.
pub proof fn lemma_same_hands(g: GameView, next: GameView)
    requires
        next.hands == g.hands,
        next.scores.len() == g.scores.len(),
    ensures
        next.alive() == g.alive(),
        next.remaining() == g.remaining(),
        forall|passed: Seq<bool>| #[trigger] next.bidders(passed) == g.bidders(passed),
{
    assert(next.alive() =~= g.alive());
    assert forall|passed: Seq<bool>| #[trigger] next.bidders(passed) == g.bidders(passed) by {
        assert(next.bidders(passed) =~= g.bidders(passed));
    }
}

/// When one hand loses a card, at most that player drops out.
pub proof fn lemma_one_hand_less(g: GameView, next: GameView, c: int)
    requires
        0 <= c < g.seats(),
        g.hands.len() == g.seats(),
        next.scores.len() == g.scores.len(),
        !g.out(c),
        g.costs_card(c, next),
    ensures
        g.hands[c]@.lost_one(next.hands[c]@),
        next.alive() == g.alive().update(c, !next.out(c)),
        next.remaining() + (if next.out(c) { 1nat } else { 0nat }) == g.remaining(),
        forall|i: int| 0 <= i < g.seats() && !next.out(i) ==> !g.out(i),
{
    assert(next.alive() =~= g.alive().update(c, !next.out(c)));
    lemma_count_update(g.alive(), c, !next.out(c));
}

/// Playing a card that the player has left keeps the game valid.
proof fn lemma_play_card(g: GameView, card: Card, next: GameView)
    requires
        g.valid(),
        g.pending is None,
        g.phase is Playing,
        g.verdict(Response::PlayCard(card)) is Ok,
        g.taken(Response::PlayCard(card), next),
    ensures
        next.valid(),
{
    let n = g.seats();
    let c = g.phase->current_player as int;
    let to = next.phase->current_player as int;
    lemma_same_hands(g, next);
    lemma_next_open(g.alive(), c);
    assert(g.alive()[c]);
    assert(next.alive()[to]);
    assert forall|i: int| 0 <= i < n implies #[trigger] next.seat_ok(i) by {
        assert(g.seat_ok(i));
        if i == c {
            lemma_counts_push(g.piles[c], card);
        }
    }
    assert forall|i: int| 0 <= i < n && i != c && !g.out(i) implies g.piles[c].len() <= (#[trigger] g.piles[i]).len() by {
        assert(ahead(c, c, n) < ahead(c, i, n));
    }
    assert forall|i: int| 0 <= i < n && i != c && !g.out(i) implies gap(c, to, n) <= #[trigger] gap(c, i, n) by {
        assert(g.alive()[i]);
    }
    assert(next.evenly_played()) by {
        assert forall|i: int, j: int|
            #![trigger next.piles[i], next.piles[j]]
            0 <= i < n && 0 <= j < n && !next.out(i) && !next.out(j) implies next.piles[i].len() <= next.piles[j].len() + 1 by {
            assert(g.piles[i].len() <= g.piles[j].len() + 1);
            if i == c && j != c {
                assert(g.piles[c].len() <= g.piles[j].len());
            }
        }
    }
    assert(next.in_turn_order(to)) by {
        assert forall|i: int, j: int|
            #![trigger next.piles[i], next.piles[j]]
            0 <= i < n && 0 <= j < n && !next.out(i) && !next.out(j) && ahead(to, i, n) < ahead(to, j, n)
            implies next.piles[i].len() <= next.piles[j].len() by {
            assert(g.piles[i].len() <= g.piles[j].len() + 1);
            if j == c {
            } else if i == c {
                assert(gap(c, to, n) <= gap(c, j, n));
            } else {
                assert(gap(c, to, n) <= gap(c, j, n));
                assert(gap(c, to, n) <= gap(c, i, n));
                assert(ahead(c, i, n) < ahead(c, j, n));
            }
        }
    }
}

/// A challenge that begins in a valid game, for no more flowers than cards lie on the table
/// and by a player who has a card left, leaves the game valid.
proof fn lemma_challenged(g: GameView, challenger: usize, target: usize)
    requires
        g.valid(),
        g.pending is None,
        !(g.phase is Challenging),
        challenger < g.seats(),
        !g.out(challenger as int),
        g.remaining() >= 2,
        target <= g.committed(),
    ensures
        g.challenged(challenger, target).valid(),
{
    let n = g.seats();
    let next = g.challenged(challenger, target);
    lemma_same_hands(g, next);
    lemma_total_zero(bare::<usize>(n));
    assert forall|i: int| 0 <= i < n implies #[trigger] next.seat_ok(i) by {
        assert(g.seat_ok(i));
    }
    assert(next.evenly_played()) by {
        assert forall|i: int, j: int|
            #![trigger next.piles[i], next.piles[j]]
            0 <= i < n && 0 <= j < n && !next.out(i) && !next.out(j) implies next.piles[i].len() <= next.piles[j].len() + 1 by {
            assert(g.piles[i].len() <= g.piles[j].len() + 1);
        }
    }
}

/// Opening the bidding keeps the game valid.
proof fn lemma_start_bid(g: GameView, bid: usize, next: GameView)
    requires
        g.valid(),
        g.pending is None,
        g.phase is Playing,
        g.verdict(Response::Bid(bid)) is Ok,
        g.taken(Response::Bid(bid), next),
    ensures
        next.valid(),
{
    let n = g.seats();
    let c = g.phase->current_player;
    if bid < g.committed() {
        let to = next.phase->current_bidder as int;
        lemma_same_hands(g, next);
        lemma_piles_bounded(g);
        lemma_next_open(g.alive(), c as int);
        lemma_count_other(g.alive(), c as int);
        assert(g.alive()[c as int]);
        assert(next.alive()[to]);
        assert forall|i: int| 0 <= i < n implies #[trigger] next.seat_ok(i) by {
            assert(g.seat_ok(i));
        }
        assert(next.evenly_played()) by {
            assert forall|i: int, j: int|
                #![trigger next.piles[i], next.piles[j]]
                0 <= i < n && 0 <= j < n && !next.out(i) && !next.out(j) implies next.piles[i].len() <= next.piles[j].len() + 1 by {
                assert(g.piles[i].len() <= g.piles[j].len() + 1);
            }
        }
        assert forall|j: int|
            0 <= j < n && 0 < #[trigger] ahead(c as int, j, n) < ahead(c as int, to, n) implies next.out(j) by {
            assert(gap(c as int, j, n) < gap(c as int, to, n));
            assert(!g.alive()[j]);
        }
    } else {
        lemma_challenged(g, c, bid);
    }
}

/// Raising the bid keeps the game valid.
proof fn lemma_raise_bid(g: GameView, bid: usize, next: GameView)
    requires
        g.valid(),
        g.pending is None,
        g.phase is Bidding,
        g.verdict(Response::Bid(bid)) is Ok,
        g.taken(Response::Bid(bid), next),
    ensures
        next.valid(),
{
    let n = g.seats();
    let c = g.phase->current_bidder;
    let h = g.phase->highest_bidder;
    let passed = g.phase->passed;
    assert(g.alive()[c as int] && g.alive()[h as int]);
    lemma_count_pair(g.alive(), c as int, h as int);
    if bid == g.phase->max_bid {
        lemma_challenged(g, c, bid);
    } else {
        let to = next.phase->current_bidder as int;
        let open = g.bidders(passed);
        lemma_same_hands(g, next);
        lemma_next_open(open, c as int);
        assert(open[h as int]);
        assert(open[to]);
        assert forall|i: int| 0 <= i < n implies #[trigger] next.seat_ok(i) by {
            assert(g.seat_ok(i));
        }
        assert(next.evenly_played()) by {
            assert forall|i: int, j: int|
                #![trigger next.piles[i], next.piles[j]]
                0 <= i < n && 0 <= j < n && !next.out(i) && !next.out(j) implies next.piles[i].len() <= next.piles[j].len() + 1 by {
                assert(g.piles[i].len() <= g.piles[j].len() + 1);
            }
        }
        assert forall|j: int|
            0 <= j < n && 0 < #[trigger] ahead(c as int, j, n) < ahead(c as int, to, n) implies next.out(j) || passed[j] by {
            assert(gap(c as int, j, n) < gap(c as int, to, n));
            assert(!open[j]);
        }
    }
}

/// Passing keeps the game valid: either somebody else can still bid and the turn goes to the
/// first such player, who is not the highest bidder, or the challenge begins.
proof fn lemma_pass(g: GameView, next: GameView)
    requires
        g.valid(),
        g.pending is None,
        g.phase is Bidding,
        g.taken(Response::Pass, next),
    ensures
        next.valid(),
{
    let n = g.seats();
    let c = g.phase->current_bidder;
    let h = g.phase->highest_bidder;
    let passed = g.phase->passed.update(c as int, true);
    assert(g.alive()[c as int] && g.alive()[h as int]);
    lemma_count_pair(g.alive(), c as int, h as int);
    if count_true(passed) + 1 == g.remaining() {
        lemma_piles_bounded(g);
        lemma_challenged(g, h, g.phase->highest_bid);
    } else {
        let to = next.phase->current_bidder as int;
        let open = g.bidders(passed);
        lemma_same_hands(g, next);
        lemma_next_open(open, c as int);
        assert(open[h as int]);
        lemma_count_split(g.alive(), passed, open);
        lemma_count_single(open, h as int);
        lemma_count_other(open, h as int);
        let other = choose|j: int| 0 <= j < open.len() && j != h && open[j];
        assert(!(0 < ahead(h as int, other, n) < ahead(h as int, c as int, n))) by {
            assert(g.phase->passed[other] == passed[other]);
        }
        assert(gap(c as int, to, n) <= gap(c as int, other, n));
        assert(open[to]);
        assert forall|i: int| 0 <= i < n implies #[trigger] next.seat_ok(i) by {
            assert(g.seat_ok(i));
        }
        assert(next.evenly_played()) by {
            assert forall|i: int, j: int|
                #![trigger next.piles[i], next.piles[j]]
                0 <= i < n && 0 <= j < n && !next.out(i) && !next.out(j) implies next.piles[i].len() <= next.piles[j].len() + 1 by {
                assert(g.piles[i].len() <= g.piles[j].len() + 1);
            }
        }
        assert forall|j: int|
            0 <= j < n && 0 < #[trigger] ahead(h as int, j, n) < ahead(h as int, to, n) implies next.out(j) || passed[j] by {
            if ahead(h as int, j, n) < ahead(h as int, c as int, n) {
                assert(g.out(j) || g.phase->passed[j]);
            } else if j != c {
                assert(gap(c as int, j, n) < gap(c as int, to, n));
                assert(!open[j]);
            }
        }
    }
}

/// A position that is not yet among the marks of a pile can be added to them.
pub proof fn lemma_marks_push(marks: Seq<usize>, position: usize, len: nat)
    requires
        marks_fit(marks, len),
        position < len,
        !marks.contains(position),
    ensures
        marks_fit(marks.push(position), len),
{
    let more = marks.push(position);
    assert forall|i: int, j: int| 0 <= i < more.len() && 0 <= j < more.len() && i != j implies more[i] != more[j] by {
        if i < marks.len() && j < marks.len() {
            assert(marks[i] != marks[j]);
        } else if i < marks.len() {
            assert(marks.contains(marks[i]));
        } else {
            assert(marks.contains(marks[j]));
        }
    }
}

/// Flipping another player's card keeps the game valid: a skull costs the challenger a card
/// and ends the challenge, a flower is marked and may win it.
proof fn lemma_flip(g: GameView, player: usize, position: usize, next: GameView)
    requires
        g.valid(),
        g.pending is None,
        g.phase is Challenging,
        g.verdict(Response::Flip(player, position)) is Ok,
        g.taken(Response::Flip(player, position), next),
    ensures
        next.valid(),
{
    let n = g.seats();
    let c = g.phase->challenger as int;
    let p = player as int;
    let target = g.phase->target;
    let flipped = g.phase->flipped;
    assert(g.seat_ok(c));
    match g.piles[p][position as int] {
        Card::Skull => {
            lemma_one_hand_less(g, next, c);
            assert(g.piles[p].contains(Card::Skull));
            lemma_skull_holder_alive(g, p);
            assert(next.alive()[p]);
            lemma_count_single(next.alive(), p);
            assert forall|i: int| 0 <= i < n implies #[trigger] next.seat_ok(i) by {
                assert(g.seat_ok(i));
            }
            assert(next.evenly_played()) by {
                assert forall|i: int, j: int|
                    #![trigger next.piles[i], next.piles[j]]
                    0 <= i < n && 0 <= j < n && !next.out(i) && !next.out(j) implies next.piles[i].len() <= next.piles[j].len() + 1 by {
                    assert(g.piles[i].len() <= g.piles[j].len() + 1);
                }
            }
            assert(next.own_skull_shown(g.phase->challenger, target) == g.own_skull_shown(g.phase->challenger, target));
            assert(next.others_show_flowers(g.phase->challenger, flipped));
            assert forall|i: int| 0 <= i < n implies marks_fit(#[trigger] next.phase->flipped[i], next.piles[i].len()) by {
                assert(marks_fit(flipped[i], g.piles[i].len()));
            }
        },
        Card::Flower => {
            let more = flipped.update(p, flipped[p].push(position));
            lemma_same_hands(g, next);
            lemma_total_update(flipped, p, flipped[p].push(position));
            assert(marks_fit(flipped[p], g.piles[p].len()));
            lemma_marks_push(flipped[p], position, g.piles[p].len());
            assert forall|i: int| 0 <= i < n implies #[trigger] next.seat_ok(i) by {
                assert(g.seat_ok(i));
            }
            assert(next.evenly_played()) by {
                assert forall|i: int, j: int|
                    #![trigger next.piles[i], next.piles[j]]
                    0 <= i < n && 0 <= j < n && !next.out(i) && !next.out(j) implies next.piles[i].len() <= next.piles[j].len() + 1 by {
                    assert(g.piles[i].len() <= g.piles[j].len() + 1);
                }
            }
            assert(next.own_skull_shown(g.phase->challenger, target) == g.own_skull_shown(g.phase->challenger, target));
            assert(next.own_marks(g.phase->challenger, target) == g.own_marks(g.phase->challenger, target));
            assert forall|i: int| 0 <= i < n implies marks_fit(#[trigger] more[i], next.piles[i].len()) by {
                assert(marks_fit(flipped[i], g.piles[i].len()));
            }
            assert(next.others_show_flowers(g.phase->challenger, more)) by {
                assert forall|i: int, k: int|
                    0 <= i < n && i != c && 0 <= k < more[i].len() implies next.piles[i][(#[trigger] more[i][k]) as int] == Card::Flower by {
                    if i == p && k == flipped[p].len() {
                    } else {
                        assert(g.piles[i][flipped[i][k] as int] == Card::Flower);
                    }
                }
            }
        },
    }
}

/// An answer given to a valid game leaves a valid game, whether it was taken or refused.
pub proof fn lemma_answered_valid(g: GameView, response: Response, next: GameView)
    requires
        g.valid(),
        g.answered(response, next),
    ensures
        next.valid(),
{
    if g.verdict(response) is Ok {
        match (g.phase, response) {
            (Phase::Playing { .. }, Response::PlayCard(card)) => lemma_play_card(g, card, next),
            (Phase::Playing { .. }, Response::Bid(bid)) => lemma_start_bid(g, bid, next),
            (Phase::Bidding { .. }, Response::Bid(bid)) => lemma_raise_bid(g, bid, next),
            (Phase::Bidding { .. }, Response::Pass) => lemma_pass(g, next),
            (Phase::Challenging { .. }, Response::Flip(player, position)) => lemma_flip(
                g,
                player,
                position,
                next,
            ),
            _ => {},
        }
    }
}

/// Whether a game is valid does not depend on the draws that are fixed in advance.
pub proof fn lemma_draws_aside(g: GameView, other: GameView)
    requires
        other == (GameView { draws: other.draws, ..g }),
    ensures
        other.valid() == g.valid(),
{
    let n = g.seats();
    lemma_same_hands(g, other);
    lemma_same_hands(other, g);
    assert forall|i: int| 0 <= i < n implies #[trigger] other.seat_ok(i) == g.seat_ok(i) by {
    }
    if g.valid() {
        assert forall|i: int| 0 <= i < n implies #[trigger] other.seat_ok(i) by {
            assert(g.seat_ok(i));
        }
        lemma_draws_aside_one_way(g, other);
    }
    if other.valid() {
        assert forall|i: int| 0 <= i < n implies #[trigger] g.seat_ok(i) by {
            assert(other.seat_ok(i));
        }
        lemma_draws_aside_one_way(other, g);
    }
}

proof fn lemma_draws_aside_one_way(g: GameView, other: GameView)
    requires
        other == (GameView { draws: other.draws, ..g }),
        g.valid(),
        forall|i: int| 0 <= i < g.seats() ==> #[trigger] other.seat_ok(i),
    ensures
        other.valid(),
{
    let n = g.seats();
    lemma_same_hands(g, other);
    assert(other.evenly_played()) by {
        assert forall|i: int, j: int|
            #![trigger other.piles[i], other.piles[j]]
            0 <= i < n && 0 <= j < n && !other.out(i) && !other.out(j) implies other.piles[i].len() <= other.piles[j].len() + 1 by {
            assert(g.piles[i].len() <= g.piles[j].len() + 1);
        }
    }
    match g.phase {
        Phase::Playing { current_player } => {
            assert(other.in_turn_order(current_player as int)) by {
                assert forall|i: int, j: int|
                    #![trigger other.piles[i], other.piles[j]]
                    0 <= i < n && 0 <= j < n && !other.out(i) && !other.out(j) && ahead(
                        current_player as int,
                        i,
                        n,
                    ) < ahead(current_player as int, j, n) implies other.piles[i].len() <= other.piles[j].len() by {
                    assert(g.piles[i].len() <= g.piles[j].len() + 1);
                }
            }
        },
        Phase::Bidding { .. } => {},
        Phase::Challenging { challenger, target, flipped } => {
            assert(other.own_skull_shown(challenger, target) == g.own_skull_shown(challenger, target));
            assert(other.others_show_flowers(challenger, flipped));
        },
    }
}

/// A new game for 3 to 6 players is valid.
pub proof fn lemma_fresh_valid(n: int)
    requires
        3 <= n <= 6,
    ensures
        GameView::fresh(n).valid(),
{
    let g = GameView::fresh(n);
    let full = HandView { skull: true, flowers: 3 };
    crate::hand::Hand::lemma_from_view(full);
    assert forall|i: int| 0 <= i < n implies #[trigger] g.seat_ok(i) by {
        assert(g.piles[i] =~= Seq::<Card>::empty());
    }
    assert(g.alive()[0] && g.alive()[1]);
    lemma_count_pair(g.alive(), 0, 1);
}

/// When the piles are cleared and play resumes in a valid game with a player who has a
/// card left, the game is valid if two players or more are left and nobody has two points.
proof fn lemma_resumed(g: GameView, at: usize, pending: Option<Event>)
    requires
        g.valid(),
        g.phase is Challenging,
        g.pending matches Some(e) && (e is ChallengeWon || e is ChallengerChoseSkull),
        at < g.seats(),
        !g.out(at as int),
        g.remaining() >= 2,
        pending matches Some(e) ==> e matches Event::PlayerOut(player) && player < g.seats() && g.out(player as int),
    ensures
        g.resumed(at, pending).valid(),
{
    let n = g.seats();
    let next = g.resumed(at, pending);
    lemma_same_hands(g, next);
    assert forall|i: int| 0 <= i < n implies #[trigger] next.seat_ok(i) by {
        assert(g.seat_ok(i));
        assert(next.piles[i] =~= Seq::<Card>::empty());
    }
}

/// Reading the notice of a begun challenge leaves a valid game.
proof fn lemma_opened(g: GameView, next: GameView)
    requires
        g.valid(),
        g.pending == Some(Event::ChallengeStarted),
        g.opened(next),
    ensures
        next.valid(),
{
    let n = g.seats();
    let challenger = g.phase->challenger;
    let c = challenger as int;
    let target = g.phase->target;
    let own = g.own_marks(challenger, target);
    let marked = g.phase->flipped.update(c, own);
    let len = g.piles[c].len();
    lemma_piles_bounded(g);
    assert(g.piles[c].len() <= 4);
    lemma_span_fits(crate::model::own_start(len as int, target as int), len as int, len);
    lemma_total_zero(bare::<usize>(n));
    lemma_total_update(g.phase->flipped, c, own);
    assert(g.seat_ok(c));
    assert(next.own_skull_shown(challenger, target) == g.own_skull_shown(challenger, target));
    assert(next.own_marks(challenger, target) == own);
    assert forall|i: int| 0 <= i < n implies marks_fit(#[trigger] marked[i], next.piles[i].len()) by {
    }
    assert(next.others_show_flowers(challenger, marked));
    if g.own_skull_shown(challenger, target) {
        lemma_one_hand_less(g, next, c);
        lemma_count_other(g.alive(), c);
        assert forall|i: int| 0 <= i < n implies #[trigger] next.seat_ok(i) by {
            assert(g.seat_ok(i));
        }
        assert(next.evenly_played()) by {
            assert forall|i: int, j: int|
                #![trigger next.piles[i], next.piles[j]]
                0 <= i < n && 0 <= j < n && !next.out(i) && !next.out(j) implies next.piles[i].len() <= next.piles[j].len() + 1 by {
                assert(g.piles[i].len() <= g.piles[j].len() + 1);
            }
        }
    } else {
        lemma_same_hands(g, next);
        assert forall|i: int| 0 <= i < n implies #[trigger] next.seat_ok(i) by {
            assert(g.seat_ok(i));
        }
        assert(next.evenly_played()) by {
            assert forall|i: int, j: int|
                #![trigger next.piles[i], next.piles[j]]
                0 <= i < n && 0 <= j < n && !next.out(i) && !next.out(j) implies next.piles[i].len() <= next.piles[j].len() + 1 by {
                assert(g.piles[i].len() <= g.piles[j].len() + 1);
            }
        }
    }
}

/// Reading the notice of a lost challenge leaves a valid game, unless fewer than two players
/// are left.
proof fn lemma_settled(g: GameView, challenger: usize, skull_player: usize)
    requires
        g.valid(),
        g.pending == Some(Event::ChallengerChoseSkull { challenger, skull_player }),
    ensures
        g.settled(challenger, skull_player).valid() || g.settled(challenger, skull_player).remaining() < 2,
        g.settled(challenger, skull_player).remaining() == g.remaining(),
{
    let n = g.seats();
    let c = challenger as int;
    let s = skull_player as int;
    let next = g.settled(challenger, skull_player);
    lemma_same_hands(g, next);
    if challenger != skull_player {
        lemma_skull_holder_alive(g, s);
    }
    if !g.out(c) {
        lemma_resumed(g, skull_player, None);
    } else if g.remaining() >= 2 {
        if challenger == skull_player {
            lemma_next_open(g.alive(), s);
            lemma_count_positive(g.alive());
            assert(g.alive()[g.next_seat(skull_player) as int]);
            lemma_resumed(g, g.next_seat(skull_player), Some(Event::PlayerOut(challenger)));
        } else {
            lemma_resumed(g, skull_player, Some(Event::PlayerOut(challenger)));
        }
    }
}

/// Reading the next notice of a valid game leaves a valid game, unless the match has ended
/// with it: the notice said that the game was won, or fewer than two players are left.
pub proof fn lemma_noticed_valid(g: GameView, next: GameView)
    requires
        g.valid(),
        g.noticed(next),
    ensures
        next.valid() || next.over(),
        next.valid() <==> !g.ends_with_notice(next),
{
    let n = g.seats();
    if next.valid() {
        match next.phase {
            Phase::Playing { current_player } => {
                assert(next.seat_ok(current_player as int));
            },
            _ => {},
        }
        match g.pending {
            Some(Event::ChallengeWonGameWon(player)) => {
                assert(next.seat_ok(player as int));
            },
            _ => {},
        }
    }
    match g.pending {
        None => {},
        Some(Event::ChallengeStarted) => lemma_opened(g, next),
        Some(Event::ChallengerChoseSkull { challenger, skull_player }) => lemma_settled(
            g,
            challenger,
            skull_player,
        ),
        Some(Event::ChallengeWon(player)) => lemma_resumed(g, player, None),
        Some(Event::ChallengeWonGameWon(player)) => {
            assert(next.scores[player as int] >= 2);
        },
        Some(_) => {
            lemma_same_hands(g, next);
            assert forall|i: int| 0 <= i < n implies #[trigger] next.seat_ok(i) by {
                assert(g.seat_ok(i));
            }
            assert(next.evenly_played()) by {
                assert forall|i: int, j: int|
                    #![trigger next.piles[i], next.piles[j]]
                    0 <= i < n && 0 <= j < n && !next.out(i) && !next.out(j) implies next.piles[i].len() <= next.piles[j].len() + 1 by {
                    assert(g.piles[i].len() <= g.piles[j].len() + 1);
                }
            }
            match g.phase {
                Phase::Playing { current_player } => {
                    assert(next.in_turn_order(current_player as int)) by {
                        assert forall|i: int, j: int|
                            #![trigger next.piles[i], next.piles[j]]
                            0 <= i < n && 0 <= j < n && !next.out(i) && !next.out(j) && ahead(
                                current_player as int,
                                i,
                                n,
                            ) < ahead(current_player as int, j, n) implies next.piles[i].len() <= next.piles[j].len() by {
                            assert(g.piles[i].len() <= g.piles[j].len() + 1);
                        }
                    }
                },
                _ => {},
            }
        },
    }
}

} // verus!
