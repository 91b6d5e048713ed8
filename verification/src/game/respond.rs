use vstd::prelude::*;
use crate::card::{lemma_counts_partition, lemma_counts_push, Card};
use crate::counting::{count_true, lemma_count_take, lemma_marks_fit_len, marks_fit, total_len};
use crate::event::{Event, Response, ResponseError};
use crate::game::{len_2d, Game};
use crate::hand::{lemma_tally_counts, Hand};
use crate::model::{bare, unset, GameView};
use crate::preserve::{lemma_answered_valid, lemma_marks_push};
use crate::pile::{marks_array_new, marks_as_slice, marks_push, pile_as_slice, pile_push};
use crate::state::{Phase, State};

verus! {

/// Whether `position` is among `marks`.
pub(crate) fn holds(marks: &[usize], position: usize) -> (found: bool)
    ensures
        found == marks@.contains(position),
{
    let mut k: usize = 0;
    while k < marks.len()
        invariant
            k <= marks@.len(),
            forall|j: int| 0 <= j < k ==> marks@[j] != position,
        decreases marks@.len() - k,
    {
        if marks[k] == position {
            return true;
        }
        k = k + 1;
    }
    false
}

/// How many of `flags` are set.
pub(crate) fn count_set<const N: usize>(flags: &[bool; N]) -> (n: usize)
    ensures
        n == count_true(flags@),
        n <= N,
{
    let mut n: usize = 0;
    let mut i: usize = 0;
    while i < N
        invariant
            i <= N,
            n <= i,
            n == count_true(flags@.take(i as int)),
        decreases N - i,
    {
        proof {
            lemma_count_take(flags@, i as int);
        }
        if flags[i] {
            n = n + 1;
        }
        i = i + 1;
    }
    proof {
        assert(flags@.take(N as int) =~= flags@);
    }
    n
}

impl<const N: usize> Game<N> {
    /// Begins a challenge by `challenger` for `target` flowers, with nothing flipped yet.
    fn start_challenge(&mut self, challenger: usize, target: usize)
        ensures
            final(self)@ == old(self)@.challenged(challenger, target),
    {
        self.state = State::Challenging { challenger, target, flipped: marks_array_new() };
        self.pending_event = Some(Event::ChallengeStarted);
        proof {
            assert(self@.phase->flipped =~= bare::<usize>(N as int));
        }
    }

    /// The current player puts a card on the own pile.
    fn play_card(&mut self, current_player: usize, card: Card) -> (r: Result<(), ResponseError>)
        requires
            old(self)@.valid(),
            old(self)@.pending is None,
            old(self)@.phase == (Phase::Playing { current_player }),
        ensures
            r == old(self)@.verdict(Response::PlayCard(card)),
            old(self)@.answered(Response::PlayCard(card), final(self)@),
    {
        proof {
            let pile = self@.piles[current_player as int];
            assert(self@.seat_ok(current_player as int));
            lemma_tally_counts(pile);
            lemma_counts_partition(pile);
            lemma_counts_push(pile, card);
            Hand::lemma_from_view(self@.unplayed(current_player as int));
        }
        let played = Hand::try_from(pile_as_slice(&self.cards_played[current_player])).unwrap();
        let cards_remaining = (self.player_hands[current_player] - played).unwrap();
        if !cards_remaining.has(card) {
            return Err(ResponseError::CardNotInHand);
        }
        pile_push(&mut self.cards_played[current_player], card).unwrap();
        proof {
            assert(self@.piles =~= old(self)@.piles.update(
                current_player as int,
                old(self)@.piles[current_player as int].push(card),
            ));
            assert(self@.alive() =~= old(self)@.alive());
        }
        self.increment_player();
        Ok(())
    }

    /// The current player opens the bidding with a bid of `n`.
    fn start_bid(&mut self, current_player: usize, n: usize) -> (r: Result<(), ResponseError>)
        requires
            old(self)@.valid(),
            old(self)@.pending is None,
            old(self)@.phase == (Phase::Playing { current_player }),
        ensures
            r == old(self)@.verdict(Response::Bid(n)),
            old(self)@.answered(Response::Bid(n), final(self)@),
    {
        let played_count = self.cards_played_count();
        if n > played_count {
            return Err(ResponseError::BidTooHigh(played_count));
        }
        if n < played_count {
            self.state = State::Bidding {
                current_bidder: self.next_seat_after(current_player),
                highest_bid: n,
                highest_bidder: current_player,
                max_bid: played_count,
                passed: [false; N],
            };
            self.pending_event = Some(Event::BidStarted);
            proof {
                assert(self@.phase->passed =~= unset(N as int));
            }
        } else {
            self.start_challenge(current_player, played_count);
        }
        Ok(())
    }

    /// The current bidder raises the bid to `n`.
    fn raise_bid(
        &mut self,
        current_bidder: usize,
        highest_bid: usize,
        max_bid: usize,
        passed: [bool; N],
        n: usize,
    ) -> (r: Result<(), ResponseError>)
        requires
            old(self)@.valid(),
            old(self)@.pending is None,
            old(self)@.phase is Bidding,
            old(self)@.phase->current_bidder == current_bidder,
            old(self)@.phase->highest_bid == highest_bid,
            old(self)@.phase->max_bid == max_bid,
            old(self)@.phase->passed == passed@,
        ensures
            r == old(self)@.verdict(Response::Bid(n)),
            old(self)@.answered(Response::Bid(n), final(self)@),
    {
        if n > max_bid {
            return Err(ResponseError::BidTooHigh(max_bid));
        } else if n <= highest_bid {
            return Err(ResponseError::BidTooLow(highest_bid + 1));
        }
        if n == max_bid {
            self.start_challenge(current_bidder, n);
        } else {
            self.state = State::Bidding {
                current_bidder,
                highest_bid: n,
                highest_bidder: current_bidder,
                max_bid,
                passed,
            };
            proof {
                assert(self@.bidders(passed@) =~= old(self)@.bidders(passed@));
            }
            self.increment_player();
        }
        Ok(())
    }

    /// The current bidder passes.
    fn pass_bid(
        &mut self,
        current_bidder: usize,
        highest_bid: usize,
        highest_bidder: usize,
        max_bid: usize,
        passed: [bool; N],
    ) -> (r: Result<(), ResponseError>)
        requires
            old(self)@.valid(),
            old(self)@.pending is None,
            old(self)@.phase == (Phase::Bidding {
                current_bidder,
                highest_bid,
                highest_bidder,
                max_bid,
                passed: passed@,
            }),
        ensures
            r == old(self)@.verdict(Response::Pass),
            old(self)@.answered(Response::Pass, final(self)@),
    {
        let mut passed = passed;
        passed[current_bidder] = true;
        if count_set(&passed) + 1 == self.remaining_player_count() {
            self.start_challenge(highest_bidder, highest_bid);
        } else {
            self.state = State::Bidding {
                current_bidder,
                highest_bid,
                highest_bidder,
                max_bid,
                passed,
            };
            proof {
                assert(self@.bidders(passed@) =~= old(self)@.bidders(passed@));
            }
            self.increment_player();
        }
        Ok(())
    }

    /// Notes that the card at `position` of the pile of `player` has been flipped.
    fn mark_flipped(&mut self, player: usize, position: usize)
        requires
            player < N,
            old(self)@.phase is Challenging,
            old(self)@.phase->flipped[player as int].len() < 4,
        ensures
            final(self)@ == (GameView {
                phase: Phase::Challenging {
                    challenger: old(self)@.phase->challenger,
                    target: old(self)@.phase->target,
                    flipped: old(self)@.phase->flipped.update(
                        player as int,
                        old(self)@.phase->flipped[player as int].push(position),
                    ),
                },
                ..old(self)@
            }),
    {
        match &mut self.state {
            State::Challenging { flipped, .. } => {
                marks_push(&mut flipped[player], position).unwrap();
            },
            _ => {},
        }
        proof {
            assert(self@.phase->flipped =~= old(self)@.phase->flipped.update(
                player as int,
                old(self)@.phase->flipped[player as int].push(position),
            ));
        }
    }

    /// Whether the card at `position` of the pile of `player` has been flipped.
    fn is_flipped(&self, player: usize, position: usize) -> (found: bool)
        requires
            player < N,
            self@.phase is Challenging,
        ensures
            found == self@.phase->flipped[player as int].contains(position),
    {
        match &self.state {
            State::Challenging { flipped, .. } => holds(marks_as_slice(&flipped[player]), position),
            _ => false,
        }
    }

    /// How many cards have been flipped.
    pub(crate) fn cards_flipped_count(&self) -> (n: Option<usize>)
        requires
            N <= 6,
        ensures
            match self@.phase {
                Phase::Challenging { flipped, .. } => n == Some(total_len(flipped) as usize)
                    && total_len(flipped) <= 4 * N,
                _ => n is None,
            },
    {
        match &self.state {
            State::Challenging { flipped, .. } => Some(len_2d(flipped)),
            _ => None,
        }
    }

    /// The challenger flips the card at `card_index` of the pile of `player_index`.
    fn flip_card(
        &mut self,
        challenger: usize,
        target: usize,
        player_index: usize,
        card_index: usize,
    ) -> (r: Result<(), ResponseError>)
        requires
            old(self)@.valid(),
            old(self)@.pending is None,
            old(self)@.phase is Challenging,
            old(self)@.phase->challenger == challenger,
            old(self)@.phase->target == target,
        ensures
            r == old(self)@.verdict(Response::Flip(player_index, card_index)),
            old(self)@.answered(Response::Flip(player_index, card_index), final(self)@),
    {
        if player_index >= N || card_index >= pile_as_slice(&self.cards_played[player_index]).len() {
            return Err(ResponseError::InvalidIndex);
        } else if player_index == challenger {
            return Err(ResponseError::ManuallyFlippingOwnCards);
        } else if self.is_flipped(player_index, card_index) {
            return Err(ResponseError::CardAlreadyFlipped);
        }
        let card_flipped = pile_as_slice(&self.cards_played[player_index])[card_index];
        proof {
            assert(self@.seat_ok(challenger as int));
        }
        match card_flipped {
            Card::Skull => {
                self.lose_card(challenger);
                self.pending_event = Some(
                    Event::ChallengerChoseSkull { challenger, skull_player: player_index },
                );
            },
            Card::Flower => {
                proof {
                    let marks = self@.phase->flipped[player_index as int];
                    let len = self@.piles[player_index as int].len();
                    assert(marks_fit(marks, len));
                    lemma_marks_push(marks, card_index, len);
                    lemma_marks_fit_len(marks.push(card_index), len);
                }
                self.mark_flipped(player_index, card_index);
                if self.cards_flipped_count() == Some(target) {
                    self.scores[challenger] += 1;
                    self.pending_event = Some(
                        if self.scores[challenger] == 2 {
                            Event::ChallengeWonGameWon(challenger)
                        } else {
                            Event::ChallengeWon(challenger)
                        },
                    );
                }
            },
        }
        Ok(())
    }

    /// Takes an answer and moves the game on, or refuses the answer and leaves the game as it
    /// is.
    pub fn respond(&mut self, response: Response) -> (r: Result<(), ResponseError>)
        requires
            old(self)@.valid(),
        ensures
            r == old(self)@.verdict(response),
            old(self)@.answered(response, final(self)@),
            final(self)@.valid(),
    {
        if self.pending_event.is_some() {
            return Err(ResponseError::PendingEvent);
        }
        let r = match &self.state {
            State::Playing { current_player } => {
                let current_player = *current_player;
                match response {
                    Response::PlayCard(card) => self.play_card(current_player, card),
                    Response::Bid(n) => self.start_bid(current_player, n),
                    _ => Err(ResponseError::IncorrectInputType(self.wanted_input())),
                }
            },
            State::Bidding { current_bidder, highest_bid, highest_bidder, max_bid, passed } => {
                let current_bidder = *current_bidder;
                let highest_bid = *highest_bid;
                let highest_bidder = *highest_bidder;
                let max_bid = *max_bid;
                let passed = *passed;
                match response {
                    Response::Bid(n) => self.raise_bid(current_bidder, highest_bid, max_bid, passed, n),
                    Response::Pass => self.pass_bid(
                        current_bidder,
                        highest_bid,
                        highest_bidder,
                        max_bid,
                        passed,
                    ),
                    _ => Err(ResponseError::IncorrectInputType(self.wanted_input())),
                }
            },
            State::Challenging { challenger, target, .. } => {
                let challenger = *challenger;
                let target = *target;
                match response {
                    Response::Flip(player_index, card_index) => self.flip_card(
                        challenger,
                        target,
                        player_index,
                        card_index,
                    ),
                    _ => Err(ResponseError::IncorrectInputType(self.wanted_input())),
                }
            },
        };
        proof {
            lemma_answered_valid(old(self)@, response, self@);
        }
        r
    }
}

} // verus!
