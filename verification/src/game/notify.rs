use vstd::prelude::*;
use crate::card::Card;
use crate::counting::span;
use crate::event::{Event, InputType};
use crate::game::Game;
use crate::model::{bare, GameView};
use crate::preserve::lemma_noticed_valid;
use crate::pile::{flip_marks, marks_new, marks_push, pile_as_slice, piles_new};
use crate::state::State;

verus! {

/// The positions from `start` up to, not including, `len`, in rising order.
pub(crate) fn own_span(start: usize, len: usize) -> (marks: heapless::Vec<usize, 4>)
    requires
        start <= len <= 4,
    ensures
        flip_marks(marks) == span(start as int, len as int),
{
    let mut marks = marks_new();
    let mut k: usize = start;
    while k < len
        invariant
            start <= k <= len <= 4,
            flip_marks(marks) == span(start as int, k as int),
        decreases len - k,
    {
        marks_push(&mut marks, k).unwrap();
        proof {
            assert(span(start as int, k as int).push(k) =~= span(start as int, k + 1));
        }
        k = k + 1;
    }
    marks
}

/// Whether the skull is among the cards of `pile` from position `start` on.
pub(crate) fn shows_skull(pile: &[Card], start: usize) -> (shown: bool)
    requires
        start <= pile@.len(),
    ensures
        shown == exists|k: int| start <= k < pile@.len() && pile@[k] == Card::Skull,
{
    let mut k: usize = start;
    while k < pile.len()
        invariant
            start <= k <= pile@.len(),
            forall|j: int| start <= j < k ==> pile@[j] != Card::Skull,
        decreases pile@.len() - k,
    {
        if pile[k] == Card::Skull {
            return true;
        }
        k = k + 1;
    }
    false
}

impl<const N: usize> Game<N> {
    /// Takes every card off the table.
    pub(crate) fn reset_cards_played(&mut self)
        ensures
            final(self)@ == (GameView { piles: bare(N as int), ..old(self)@ }),
    {
        self.cards_played = piles_new();
        proof {
            assert(self@.piles =~= bare::<Card>(N as int));
        }
    }

    /// The kind of answer that the game waits for.
    pub(crate) fn wanted_input(&self) -> (input: InputType)
        requires
            N <= 6,
            self@.actor() < N,
        ensures
            input == self@.wanted(),
    {
        match &self.state {
            State::Playing { current_player } => {
                let played = pile_as_slice(&self.cards_played[*current_player]).len();
                if played < self.player_hands[*current_player].count() as usize {
                    if self.cards_played_count() >= N {
                        InputType::PlayCardOrStartBid
                    } else {
                        InputType::PlayCard
                    }
                } else {
                    InputType::StartBid
                }
            },
            State::Bidding { .. } => InputType::BidOrPass,
            State::Challenging { .. } => InputType::FlipCard,
        }
    }

    /// Begins the challenge that was announced: flips the challenger's own cards and settles
    /// the challenge at once where they decide it.
    fn open_challenge(&mut self, challenger: usize, target: usize)
        requires
            old(self)@.valid(),
            old(self)@.pending == Some(Event::ChallengeStarted),
            old(self)@.phase is Challenging,
            old(self)@.phase->challenger == challenger,
            old(self)@.phase->target == target,
        ensures
            old(self)@.opened(final(self)@),
    {
        proof {
            assert(self@.seat_ok(challenger as int));
            crate::card::lemma_counts_partition(self@.piles[challenger as int]);
        }
        let pile = pile_as_slice(&self.cards_played[challenger]);
        let len = pile.len();
        let start = if target >= len {
            0
        } else {
            len - target
        };
        let shown = shows_skull(pile, start);
        match &mut self.state {
            State::Challenging { flipped, .. } => {
                flipped[challenger] = own_span(start, len);
            },
            _ => {},
        }
        proof {
            assert(self@.phase->flipped =~= old(self)@.phase->flipped.update(
                challenger as int,
                old(self)@.own_marks(challenger, target),
            ));
        }
        if shown {
            self.lose_card(challenger);
            self.pending_event = Some(
                Event::ChallengerChoseSkull { challenger, skull_player: challenger },
            );
        } else if target <= len {
            self.scores[challenger] += 1;
            self.pending_event = if self.scores[challenger] != 2 {
                Some(Event::ChallengeWon(challenger))
            } else {
                Some(Event::ChallengeWonGameWon(challenger))
            };
        } else {
            self.pending_event = None;
        }
    }

    /// Clears the table after a lost challenge and lets play resume with the player whose
    /// skull was shown, or with the next player if that one is out.
    fn settle_loss(&mut self, challenger: usize, skull_player: usize)
        requires
            old(self)@.valid(),
            old(self)@.pending == Some(Event::ChallengerChoseSkull { challenger, skull_player }),
        ensures
            final(self)@ == old(self)@.settled(challenger, skull_player),
    {
        self.state = State::Playing { current_player: skull_player };
        self.reset_cards_played();
        proof {
            assert(self@.alive() =~= old(self)@.alive());
        }
        if !self.is_player_out(challenger) {
            self.pending_event = None;
        } else {
            if challenger == skull_player {
                self.increment_player();
            }
            self.pending_event = Some(Event::PlayerOut(challenger));
        }
    }

    /// Hands out the notice that waits, after doing what it stands for, or else the request
    /// for the answer that the game waits for.
    pub fn what_next(&mut self) -> (event: Event)
        requires
            old(self)@.valid(),
        ensures
            event == old(self)@.notice(),
            old(self)@.noticed(final(self)@),
            final(self)@.valid() <==> !old(self)@.ends_with_notice(final(self)@),
            final(self)@.valid() || final(self)@.over(),
    {
        let event = match self.pending_event {
            Some(event) => {
                match event {
                    Event::ChallengeStarted => {
                        let challenger = self.player();
                        let target = match &self.state {
                            State::Challenging { target, .. } => *target,
                            _ => 0,
                        };
                        self.open_challenge(challenger, target);
                    },
                    Event::ChallengerChoseSkull { challenger, skull_player } => {
                        self.settle_loss(challenger, skull_player);
                    },
                    Event::ChallengeWon(player) => {
                        self.state = State::Playing { current_player: player };
                        self.reset_cards_played();
                        self.pending_event = None;
                    },
                    _ => {
                        self.pending_event = None;
                    },
                }
                event
            },
            None => Event::Input { player: self.player(), input: self.wanted_input() },
        };
        proof {
            lemma_noticed_valid(old(self)@, self@);
        }
        event
    }
}

} // verus!
