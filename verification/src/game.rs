use vstd::prelude::*;
use rand::rngs::ThreadRng;
use crate::card::Card;
use crate::chance::thread_source;
use crate::counting::{count_true, lemma_count_take, lemma_total_take, total_len};
use crate::event::Event;
use crate::hand::{Hand, HandView};
use crate::model::GameView;
use crate::preserve::{lemma_draws_aside, lemma_fresh_valid};
use crate::pile::{marks_as_slice, marks_of, pile_as_slice, pile_cards, piles_new, piles_of};
use crate::state::State;

pub mod notify;
pub mod respond;
pub mod turn;
pub mod validate;

verus! {

/// A game for `N` players: scores, hands, played piles, the phase, and at most one notice
/// that waits to be read.
#[derive(Debug, Clone)]
pub struct Game<const N: usize> {
    scores: [u8; N],
    player_hands: [Hand; N],
    cards_played: [heapless::Vec<Card, 4>; N],
    state: State<N>,
    pending_event: Option<Event>,
    rng: ThreadRng,
    draws: Vec<u8>,
}

/// The game that the given parts make, with no draw fixed in advance.
pub open spec fn view_of_parts<const N: usize>(
    scores: [u8; N],
    player_hands: [Hand; N],
    cards_played: [heapless::Vec<Card, 4>; N],
    state: State<N>,
    pending_event: Option<Event>,
) -> GameView {
    GameView {
        scores: scores@,
        hands: player_hands@,
        piles: piles_of(cards_played),
        phase: state@,
        pending: pending_event,
        draws: Seq::empty(),
    }
}

impl<const N: usize> View for Game<N> {
    type V = GameView;

    closed spec fn view(&self) -> GameView {
        GameView {
            draws: self.draws@,
            ..view_of_parts(
                self.scores,
                self.player_hands,
                self.cards_played,
                self.state,
                self.pending_event,
            )
        }
    }
}

impl<const N: usize> Game<N> {
    /// A new game: full hands, nothing played, no points, player 0 to play.
    pub fn new() -> (game: Self)
        requires
            3 <= N <= 6,
        ensures
            game@ == GameView::fresh(N as int),
            game@.valid(),
    {
        let game = Game {
            scores: [0u8; N],
            player_hands: [Hand::new(); N],
            cards_played: piles_new(),
            state: State::Playing { current_player: 0 },
            pending_event: None,
            rng: thread_source(),
            draws: Vec::new(),
        };
        proof {
            let full = HandView { skull: true, flowers: 3 };
            Hand::lemma_from_view(full);
            assert forall|i: int| 0 <= i < N implies game.player_hands@[i] == Hand::from_view(full) by {
                Hand::lemma_view_decides(game.player_hands@[i], Hand::from_view(full));
            }
            assert(game@.scores =~= GameView::fresh(N as int).scores);
            assert(game@.hands =~= GameView::fresh(N as int).hands);
            assert(game@.piles =~= GameView::fresh(N as int).piles);
            lemma_fresh_valid(N as int);
        }
        game
    }

    /// Fixes the draws by which hands of both kinds of card lose a card from now on, in
    /// place of chance: each such loss uses up the first draw that is left, and chance
    /// decides again when none is. The draw `d` falls on the skull of a hand of `k` cards
    /// if `d % k` is 0, and on a flower otherwise.
    pub fn fix_draws(&mut self, draws: Vec<u8>)
        ensures
            final(self)@ == (GameView { draws: draws@, ..old(self)@ }),
            final(self)@.valid() == old(self)@.valid(),
    {
        self.draws = draws;
        proof {
            lemma_draws_aside(old(self)@, self@);
        }
    }

    /// Takes a card from the hand of the player in seat `player_index`.
    pub(crate) fn lose_card(&mut self, player_index: usize)
        requires
            player_index < N,
            !old(self)@.out(player_index as int),
        ensures
            old(self)@.costs_card(player_index as int, final(self)@),
            final(self)@ == (GameView {
                hands: final(self)@.hands,
                draws: final(self)@.draws,
                ..old(self)@
            }),
    {
        let hand = self.player_hands[player_index];
        if hand.has(Card::Skull) && hand.has(Card::Flower) && self.draws.len() > 0 {
            let pick = self.draws.remove(0) % hand.count();
            self.player_hands[player_index].discard_picked(pick);
        } else {
            self.player_hands[player_index].discard_one(&mut self.rng);
        }
        proof {
            assert(self@.hands =~= old(self)@.hands.update(
                player_index as int,
                self@.hands[player_index as int],
            ));
            assert(old(self)@.draws.drop_first() =~= old(self)@.draws.remove(0));
        }
    }

    /// The points of each player.
    pub fn scores(&self) -> (scores: &[u8])
        ensures
            scores@ == self@.scores,
    {
        self.scores.as_slice()
    }

    /// The hand of each player.
    pub fn hands(&self) -> (hands: &[Hand])
        ensures
            hands@ == self@.hands,
    {
        self.player_hands.as_slice()
    }

    /// The pile of each player, bottom card first.
    pub fn cards_played(&self) -> (piles: Vec<&[Card]>)
        ensures
            piles@.len() == N,
            forall|i: int| 0 <= i < N ==> (#[trigger] piles@[i])@ == self@.piles[i],
    {
        let mut piles: Vec<&[Card]> = Vec::new();
        let mut i: usize = 0;
        while i < N
            invariant
                i <= N,
                piles@.len() == i,
                forall|k: int| 0 <= k < i ==> (#[trigger] piles@[k])@ == pile_cards(self.cards_played[k]),
            decreases N - i,
        {
            piles.push(pile_as_slice(&self.cards_played[i]));
            i = i + 1;
        }
        piles
    }

    /// The phase of the game.
    pub fn state(&self) -> (state: &State<N>)
        ensures
            state@ == self@.phase,
    {
        &self.state
    }

    /// The number of seats.
    pub fn player_count(&self) -> (n: usize)
        ensures
            n == N,
    {
        N
    }

    /// The number of players who have a card left.
    pub fn remaining_player_count(&self) -> (n: usize)
        ensures
            n == self@.remaining(),
            n <= N,
    {
        let mut n: usize = 0;
        let mut i: usize = 0;
        while i < N
            invariant
                i <= N,
                n <= i,
                n == count_true(self@.alive().take(i as int)),
            decreases N - i,
        {
            proof {
                lemma_count_take(self@.alive(), i as int);
            }
            if !self.player_hands[i].empty() {
                n = n + 1;
            }
            i = i + 1;
        }
        proof {
            assert(self@.alive().take(N as int) =~= self@.alive());
        }
        n
    }

    /// Whether the player in seat `player_index` has no card left.
    pub(crate) fn is_player_out(&self, player_index: usize) -> (out: bool)
        requires
            player_index < N,
        ensures
            out == self@.out(player_index as int),
    {
        self.player_hands[player_index].empty()
    }

    /// The number of cards on the table.
    pub(crate) fn cards_played_count(&self) -> (n: usize)
        requires
            N <= 6,
        ensures
            n == self@.committed(),
            n <= 4 * N,
            forall|i: int| 0 <= i < N ==> (#[trigger] self@.piles[i]).len() <= 4,
    {
        let mut n: usize = 0;
        let mut i: usize = 0;
        while i < N
            invariant
                i <= N <= 6,
                n <= 4 * i,
                n == total_len(self@.piles.take(i as int)),
                forall|k: int| 0 <= k < i ==> (#[trigger] self@.piles[k]).len() <= 4,
            decreases N - i,
        {
            proof {
                lemma_total_take(self@.piles, i as int);
            }
            n = n + pile_as_slice(&self.cards_played[i]).len();
            i = i + 1;
        }
        proof {
            assert(self@.piles.take(N as int) =~= self@.piles);
        }
        n
    }
}

/// The number of flipped cards, all seats together.
pub(crate) fn len_2d<const N: usize>(flipped: &[heapless::Vec<usize, 4>; N]) -> (n: usize)
    requires
        N <= 6,
    ensures
        n == total_len(marks_of(*flipped)),
        n <= 4 * N,
        forall|i: int| 0 <= i < N ==> (#[trigger] marks_of(*flipped)[i]).len() <= 4,
{
    let mut n: usize = 0;
    let mut i: usize = 0;
    while i < N
        invariant
            i <= N <= 6,
            n <= 4 * i,
            n == total_len(marks_of(*flipped).take(i as int)),
            forall|k: int| 0 <= k < i ==> (#[trigger] marks_of(*flipped)[k]).len() <= 4,
        decreases N - i,
    {
        proof {
            lemma_total_take(marks_of(*flipped), i as int);
        }
        n = n + marks_as_slice(&flipped[i]).len();
        i = i + 1;
    }
    proof {
        assert(marks_of(*flipped).take(N as int) =~= marks_of(*flipped));
    }
    n
}

} // verus!
