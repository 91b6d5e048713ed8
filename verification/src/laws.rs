use vstd::prelude::*;
use crate::card::{flowers, lemma_counts_partition, skulls, Card};
use crate::counting::{
    count_true, lemma_count_positive, lemma_count_split, lemma_count_update, lemma_next_open,
    lemma_total_update, lemma_total_zero, total_len,
};
use crate::event::{Event, Response};
use crate::hand::Hand;
use crate::model::{bare, GameView};
use crate::preserve::{
    lemma_answered_valid, lemma_draws_aside, lemma_noticed_valid, lemma_same_hands,
    lemma_skull_holder_alive,
};
use crate::state::Phase;

verus! {

/// An answer never takes a card off the table: after it at least as many cards lie there as
/// before.
pub proof fn law_answer_keeps_cards(g: GameView, response: Response, next: GameView)
    requires
        g.valid(),
        g.answered(response, next),
    ensures
        next.committed() >= g.committed(),
{
    if g.verdict(response) is Ok {
        match (g.phase, response) {
            (Phase::Playing { current_player }, Response::PlayCard(card)) => {
                lemma_total_update(
                    g.piles,
                    current_player as int,
                    g.piles[current_player as int].push(card),
                );
            },
            _ => {},
        }
    }
}

/// Reading a notice leaves the cards on the table as they are, or clears the table
/// altogether.
pub proof fn law_notice_keeps_or_clears_cards(g: GameView, next: GameView)
    requires
        g.valid(),
        g.noticed(next),
    ensures
        next.piles == g.piles || next.piles == bare::<Card>(g.seats()),
        next.committed() >= g.committed() || next.committed() == 0,
{
    lemma_total_zero(bare::<Card>(g.seats()));
}

/// In a valid game every pile could come from one hand: it holds at most one skull and at
/// most three flowers. The cards that a player has played and those not yet played are
/// together the player's hand, of at most one skull and three flowers; the one exception is
/// the hand of a challenger who has just lost a card, until the table is cleared.
pub proof fn law_cards_in_circulation(g: GameView, i: int)
    requires
        g.valid(),
        0 <= i < g.seats(),
    ensures
        skulls(g.piles[i]) <= 1,
        flowers(g.piles[i]) <= 3,
        g.piles[i].len() <= 4,
        g.hands[i]@.flowers <= 3,
        !g.just_lost(i) ==> g.unplayed(i).flowers + flowers(g.piles[i]) == g.hands[i]@.flowers,
        !g.just_lost(i) ==> (if g.unplayed(i).skull { 1nat } else { 0nat }) + skulls(g.piles[i])
            == (if g.hands[i]@.skull { 1nat } else { 0nat }),
{
    assert(g.seat_ok(i));
    lemma_counts_partition(g.piles[i]);
}

/// In a valid game the player whose turn it is has a card left and, while bids are made,
/// has not passed.
pub proof fn law_turn_is_open(g: GameView)
    requires
        g.valid(),
    ensures
        g.actor() < g.seats(),
        !(g.pending matches Some(Event::ChallengerChoseSkull { .. })) ==> !g.out(g.actor() as int),
        g.phase matches Phase::Bidding { current_bidder, passed, .. } ==> !passed[current_bidder as int],
{
}

/// After an answer the turn is with a player who has a card left and, while bids are made,
/// has not passed.
pub proof fn law_answer_hands_turn_on(g: GameView, response: Response, next: GameView)
    requires
        g.valid(),
        g.answered(response, next),
    ensures
        next.phase matches Phase::Playing { current_player } ==> current_player < next.seats() && !next.out(
            current_player as int,
        ),
        next.phase matches Phase::Bidding { current_bidder, passed, .. } ==> current_bidder < next.seats()
            && !next.out(current_bidder as int) && !passed[current_bidder as int],
{
    lemma_answered_valid(g, response, next);
}

/// After a notice was read, play resumes with a player who has a card left, even where the
/// match has ended with that notice.
pub proof fn law_notice_hands_turn_on(g: GameView, next: GameView)
    requires
        g.valid(),
        g.noticed(next),
    ensures
        next.phase matches Phase::Playing { current_player } ==> current_player < next.seats() && !next.out(
            current_player as int,
        ),
        next.phase matches Phase::Bidding { current_bidder, passed, .. } ==> current_bidder < next.seats()
            && !next.out(current_bidder as int) && !passed[current_bidder as int],
{
    match g.pending {
        Some(Event::ChallengerChoseSkull { challenger, skull_player }) => {
            lemma_same_hands(g, next);
            if challenger != skull_player {
                lemma_skull_holder_alive(g, skull_player as int);
            } else if g.out(challenger as int) {
                lemma_next_open(g.alive(), skull_player as int);
                lemma_count_positive(g.alive());
                assert(g.alive()[g.next_seat(skull_player) as int]);
            }
        },
        _ => {
            lemma_noticed_valid(g, next);
        },
    }
}

/// When a bidder passes and with that every player who has a card left, but the highest
/// bidder, has passed, the challenge begins: the turn is not handed on.
pub proof fn law_last_pass_starts_challenge(g: GameView, next: GameView)
    requires
        g.valid(),
        g.pending is None,
        g.phase is Bidding,
        g.answered(Response::Pass, next),
        forall|j: int|
            0 <= j < g.seats() && j != g.phase->highest_bidder && j != g.phase->current_bidder && !g.out(j)
                ==> g.phase->passed[j],
    ensures
        next.phase == (Phase::Challenging {
            challenger: g.phase->highest_bidder,
            target: g.phase->highest_bid,
            flipped: bare::<usize>(g.seats()),
        }),
        next.pending == Some(Event::ChallengeStarted),
{
    let c = g.phase->current_bidder as int;
    let h = g.phase->highest_bidder as int;
    let passed = g.phase->passed.update(c, true);
    let open = g.bidders(passed);
    lemma_count_split(g.alive(), passed, open);
    lemma_count_update(open, h, false);
    let rest = open.update(h, false);
    lemma_count_positive(rest);
    if count_true(rest) > 0 {
        let j = choose|j: int| 0 <= j < rest.len() && rest[j];
        assert(open[j]);
        assert(g.phase->passed[j]);
    }
}

/// In a valid game a challenge is for no more flowers than cards lie on the table, and no
/// more cards have been flipped than the challenge is for.
pub proof fn law_target_within_table(g: GameView)
    requires
        g.valid(),
        g.phase is Challenging,
    ensures
        g.phase->target <= g.committed(),
        total_len(g.phase->flipped) <= g.phase->target,
{
}

/// While a challenge runs, an answer never turns a flipped card back.
pub proof fn law_answer_keeps_flips(g: GameView, response: Response, next: GameView)
    requires
        g.valid(),
        g.phase is Challenging,
        g.answered(response, next),
    ensures
        next.phase is Challenging,
        total_len(next.phase->flipped) >= total_len(g.phase->flipped),
{
    if g.verdict(response) is Ok {
        match response {
            Response::Flip(player, position) => {
                lemma_total_update(
                    g.phase->flipped,
                    player as int,
                    g.phase->flipped[player as int].push(position),
                );
            },
            _ => {},
        }
    }
}

/// While a challenge runs, reading a notice never turns a flipped card back; where the
/// challenge ends with the notice, the table is cleared.
pub proof fn law_notice_keeps_flips(g: GameView, next: GameView)
    requires
        g.valid(),
        g.phase is Challenging,
        g.noticed(next),
    ensures
        next.phase matches Phase::Challenging { flipped, .. } ==> total_len(flipped) >= total_len(
            g.phase->flipped,
        ),
        !(next.phase is Challenging) ==> next.committed() == 0,
{
    lemma_total_zero(bare::<Card>(g.seats()));
    match g.pending {
        Some(Event::ChallengeStarted) => {
            lemma_total_zero(bare::<usize>(g.seats()));
        },
        _ => {},
    }
}

/// An answer given to a valid game leaves a valid game: what a sequence of answers leads
/// to, a game can be made from.
pub proof fn law_answer_keeps_valid(g: GameView, response: Response, next: GameView)
    requires
        g.valid(),
        g.answered(response, next),
    ensures
        next.valid(),
{
    lemma_answered_valid(g, response, next);
}

/// What play has led to, a game can be made from again: the parts of a valid game, taken
/// without the draws that were fixed, make a valid game.
pub proof fn law_valid_parts_make_a_game(g: GameView)
    requires
        g.valid(),
    ensures
        (GameView { draws: Seq::empty(), ..g }).valid(),
{
    lemma_draws_aside(g, GameView { draws: Seq::empty(), ..g });
}

/// Reading a notice of a valid game leaves a valid game, as long as the match goes on: the
/// notice does not say that the game was won, and it does not settle a lost challenge that
/// leaves fewer than two players.
pub proof fn law_notice_keeps_valid(g: GameView, next: GameView)
    requires
        g.valid(),
        g.noticed(next),
        !g.ends_with_notice(next),
    ensures
        next.valid(),
{
    lemma_noticed_valid(g, next);
}

/// With no notice waiting, reading twice in a row hands out the same request for an answer
/// both times and leaves the game as it is.
pub proof fn law_request_repeats(g: GameView, first: GameView, second: GameView)
    requires
        g.pending is None,
        g.noticed(first),
        first.noticed(second),
    ensures
        g.notice() is Input,
        first.notice() == g.notice(),
        first == g,
        second == g,
{
}

/// With a draw fixed in advance nothing is left to chance: an answer leads to one game only.
pub proof fn law_fixed_draw_decides_answer(
    g: GameView,
    response: Response,
    one: GameView,
    other: GameView,
)
    requires
        g.valid(),
        g.draws.len() > 0,
        g.answered(response, one),
        g.answered(response, other),
    ensures
        one == other,
{
    if g.verdict(response) is Ok {
        match (g.phase, response) {
            (Phase::Challenging { challenger, .. }, Response::Flip(player, position)) => {
                if g.piles[player as int][position as int] == Card::Skull {
                    lemma_one_loss(g, challenger as int, one, other);
                }
            },
            _ => {},
        }
    }
}

/// With a draw fixed in advance nothing is left to chance: reading a notice leads to one
/// game only.
pub proof fn law_fixed_draw_decides_notice(g: GameView, one: GameView, other: GameView)
    requires
        g.valid(),
        g.draws.len() > 0,
        g.noticed(one),
        g.noticed(other),
    ensures
        one == other,
{
    match (g.pending, g.phase) {
        (Some(Event::ChallengeStarted), Phase::Challenging { challenger, target, .. }) => {
            if g.own_skull_shown(challenger, target) {
                lemma_one_loss(g, challenger as int, one, other);
            }
        },
        _ => {},
    }
}

proof fn lemma_one_loss(g: GameView, c: int, one: GameView, other: GameView)
    requires
        0 <= c < g.hands.len(),
        g.draws.len() > 0,
        g.hands[c]@.count() > 0,
        g.costs_card(c, one),
        g.costs_card(c, other),
    ensures
        one.hands == other.hands,
        one.draws == other.draws,
{
    Hand::lemma_view_decides(one.hands[c], other.hands[c]);
    assert(one.hands =~= other.hands);
}

} // verus!
