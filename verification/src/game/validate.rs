use vstd::prelude::*;
use crate::card::Card;
use crate::chance::thread_source;
use crate::counting::{ahead, marks_fit, span};
use crate::event::Event;
use crate::game::notify::shows_skull;
use crate::game::{len_2d, view_of_parts, Game};
use crate::hand::{lemma_tally_counts, Hand};
use crate::model::bare;
use crate::pile::{marks_as_slice, marks_of, pile_as_slice};
use crate::state::State;

verus! {

/// How many seats lie between `from` and `i`, going round a table of `n` seats.
fn seats_ahead(from: usize, i: usize, n: usize) -> (d: usize)
    requires
        from < n,
        i < n,
    ensures
        d == ahead(from as int, i as int, n as int),
{
    if i >= from {
        i - from
    } else {
        i + (n - from)
    }
}

/// Whether no position occurs twice in `marks`.
fn has_unique_elements(marks: &[usize]) -> (ok: bool)
    ensures
        ok == marks@.no_duplicates(),
{
    let mut k: usize = 0;
    while k < marks.len()
        invariant
            k <= marks@.len(),
            forall|i: int, j: int| 0 <= i < j < k ==> marks@[i] != marks@[j],
        decreases marks@.len() - k,
    {
        let mut j: usize = 0;
        while j < k
            invariant
                j <= k < marks@.len(),
                forall|i: int| 0 <= i < j ==> marks@[i] != marks@[k as int],
            decreases k - j,
        {
            if marks[j] == marks[k] {
                return false;
            }
            j = j + 1;
        }
        k = k + 1;
    }
    true
}

/// Whether `marks` names positions of a pile of `len` cards, none of them twice.
fn marks_fit_pile(marks: &[usize], len: usize) -> (ok: bool)
    ensures
        ok == marks_fit(marks@, len as nat),
{
    let mut k: usize = 0;
    while k < marks.len()
        invariant
            k <= marks@.len(),
            forall|i: int| 0 <= i < k ==> marks@[i] < len,
        decreases marks@.len() - k,
    {
        if marks[k] >= len {
            return false;
        }
        k = k + 1;
    }
    has_unique_elements(marks)
}

/// Whether `marks` are the positions from `start` up to, not including, `len`, in rising
/// order.
fn is_span(marks: &[usize], start: usize, len: usize) -> (ok: bool)
    requires
        start <= len,
    ensures
        ok == (marks@ == span(start as int, len as int)),
{
    if marks.len() != len - start {
        return false;
    }
    let mut k: usize = 0;
    while k < marks.len()
        invariant
            k <= marks@.len(),
            marks@.len() == len - start,
            forall|i: int| 0 <= i < k ==> marks@[i] == start + i,
        decreases marks@.len() - k,
    {
        if marks[k] != start + k {
            proof {
                assert(span(start as int, len as int)[k as int] == start + k);
            }
            return false;
        }
        k = k + 1;
    }
    proof {
        assert(marks@ =~= span(start as int, len as int));
    }
    true
}

/// Whether every position in `marks` holds a flower in `pile`.
fn marks_show_flowers(marks: &[usize], pile: &[Card]) -> (ok: bool)
    requires
        marks_fit(marks@, pile@.len()),
    ensures
        ok == forall|k: int| 0 <= k < marks@.len() ==> pile@[(#[trigger] marks@[k]) as int] == Card::Flower,
{
    let mut k: usize = 0;
    while k < marks.len()
        invariant
            k <= marks@.len(),
            marks_fit(marks@, pile@.len()),
            forall|i: int| 0 <= i < k ==> pile@[(#[trigger] marks@[i]) as int] == Card::Flower,
        decreases marks@.len() - k,
    {
        if pile[marks[k]] != Card::Flower {
            return false;
        }
        k = k + 1;
    }
    true
}

impl<const N: usize> Game<N> {
    /// Whether the hand of the player in seat `i` has just lost a card to a challenge that
    /// is not yet settled.
    fn has_just_lost(&self, i: usize) -> (b: bool)
        ensures
            b == self@.just_lost(i as int),
    {
        match &self.state {
            State::Challenging { challenger, .. } => *challenger == i && match self.pending_event {
                Some(Event::ChallengerChoseSkull { .. }) => true,
                _ => false,
            },
            _ => false,
        }
    }

    /// Whether the player in seat `i` is announced as the winner of the game.
    fn is_declared_winner(&self, i: usize) -> (b: bool)
        ensures
            b == self@.declared_winner(i as int),
    {
        match &self.state {
            State::Challenging { challenger, .. } => *challenger == i && match self.pending_event {
                Some(Event::ChallengeWonGameWon(_)) => true,
                _ => false,
            },
            _ => false,
        }
    }

    /// Whether score, hand and pile of the player in seat `i` agree with each other.
    fn seat_is_ok(&self, i: usize) -> (ok: bool)
        requires
            i < N,
        ensures
            ok == self@.seat_ok(i as int),
    {
        proof {
            lemma_tally_counts(self@.piles[i as int]);
        }
        if !(self.scores[i] <= 1 || (self.is_declared_winner(i) && self.scores[i] == 2)) {
            return false;
        }
        if !self.player_hands[i].is_valid() {
            return false;
        }
        match Hand::try_from(pile_as_slice(&self.cards_played[i])) {
            Ok(played_hand) => self.has_just_lost(i) || self.player_hands[i].is_superset_of(
                played_hand,
            ),
            Err(_) => false,
        }
    }

    /// Whether score, hand and pile agree with each other in every seat.
    fn seats_are_ok(&self) -> (ok: bool)
        ensures
            ok == forall|i: int| 0 <= i < N ==> #[trigger] self@.seat_ok(i),
    {
        let mut i: usize = 0;
        while i < N
            invariant
                i <= N,
                forall|k: int| 0 <= k < i ==> #[trigger] self@.seat_ok(k),
            decreases N - i,
        {
            if !self.seat_is_ok(i) {
                return false;
            }
            i = i + 1;
        }
        true
    }

    /// Whether, among the players who have a card left, nobody has played two cards more
    /// than another.
    fn is_evenly_played(&self) -> (ok: bool)
        ensures
            ok == self@.evenly_played(),
    {
        let mut i: usize = 0;
        while i < N
            invariant
                i <= N,
                forall|a: int, b: int|
                    #![trigger self@.piles[a], self@.piles[b]]
                    0 <= a < i && 0 <= b < N && !self@.out(a) && !self@.out(b)
                        ==> self@.piles[a].len() <= self@.piles[b].len() + 1,
            decreases N - i,
        {
            let mut j: usize = 0;
            while j < N
                invariant
                    i < N,
                    j <= N,
                    forall|b: int|
                        #![trigger self@.piles[b]]
                        0 <= b < j && !self@.out(i as int) && !self@.out(b)
                            ==> self@.piles[i as int].len() <= self@.piles[b].len() + 1,
                decreases N - j,
            {
                if !self.is_player_out(i) && !self.is_player_out(j) {
                    let mine = pile_as_slice(&self.cards_played[i]).len();
                    let theirs = pile_as_slice(&self.cards_played[j]).len();
                    if mine > theirs + 1 {
                        proof {
                            assert(self@.piles[i as int].len() > self@.piles[j as int].len() + 1);
                        }
                        return false;
                    }
                }
                j = j + 1;
            }
            i = i + 1;
        }
        true
    }

    /// Whether, going round from seat `c`, no player who has a card left has played fewer
    /// cards than one who sits nearer to `c`.
    fn is_in_turn_order(&self, c: usize) -> (ok: bool)
        requires
            c < N,
        ensures
            ok == self@.in_turn_order(c as int),
    {
        let mut i: usize = 0;
        while i < N
            invariant
                i <= N,
                c < N,
                forall|a: int, b: int|
                    #![trigger self@.piles[a], self@.piles[b]]
                    0 <= a < i && 0 <= b < N && !self@.out(a) && !self@.out(b) && ahead(
                        c as int,
                        a,
                        N as int,
                    ) < ahead(c as int, b, N as int) ==> self@.piles[a].len() <= self@.piles[b].len(),
            decreases N - i,
        {
            let mut j: usize = 0;
            while j < N
                invariant
                    i < N,
                    j <= N,
                    c < N,
                    forall|b: int|
                        #![trigger self@.piles[b]]
                        0 <= b < j && !self@.out(i as int) && !self@.out(b) && ahead(
                            c as int,
                            i as int,
                            N as int,
                        ) < ahead(c as int, b, N as int) ==> self@.piles[i as int].len()
                            <= self@.piles[b].len(),
                decreases N - j,
            {
                if !self.is_player_out(i) && !self.is_player_out(j) && seats_ahead(c, i, N)
                    < seats_ahead(c, j, N) {
                    let mine = pile_as_slice(&self.cards_played[i]).len();
                    let theirs = pile_as_slice(&self.cards_played[j]).len();
                    if mine > theirs {
                        proof {
                            assert(self@.piles[i as int].len() > self@.piles[j as int].len());
                        }
                        return false;
                    }
                }
                j = j + 1;
            }
            i = i + 1;
        }
        true
    }

    /// Whether the game is one while cards are played.
    fn playing_is_ok(&self, current_player: usize) -> (ok: bool)
        ensures
            ok == self@.playing_ok(current_player),
    {
        if current_player >= N || self.is_player_out(current_player) {
            return false;
        }
        if self.remaining_player_count() < 2 || !self.is_in_turn_order(current_player) {
            return false;
        }
        match self.pending_event {
            None => true,
            Some(Event::PlayerOut(player)) => player < N && self.is_player_out(player),
            Some(_) => false,
        }
    }

    /// Whether the game is one while bids are made.
    fn bidding_is_ok(
        &self,
        current_bidder: usize,
        highest_bid: usize,
        highest_bidder: usize,
        max_bid: usize,
        passed: &[bool; N],
    ) -> (ok: bool)
        requires
            N <= 6,
        ensures
            ok == self@.bidding_ok(current_bidder, highest_bid, highest_bidder, max_bid, passed@),
    {
        if current_bidder >= N || highest_bidder >= N || current_bidder == highest_bidder {
            return false;
        }
        if self.is_player_out(current_bidder) || self.is_player_out(highest_bidder)
            || passed[current_bidder] || passed[highest_bidder] {
            return false;
        }
        if highest_bid >= max_bid || max_bid != self.cards_played_count() {
            return false;
        }
        let reach = seats_ahead(highest_bidder, current_bidder, N);
        let mut j: usize = 0;
        while j < N
            invariant
                j <= N,
                highest_bidder < N,
                current_bidder < N,
                reach == ahead(highest_bidder as int, current_bidder as int, N as int),
                forall|k: int| 0 <= k < j && #[trigger] passed@[k] ==> !self@.out(k),
                forall|k: int|
                    0 <= k < j && 0 < #[trigger] ahead(highest_bidder as int, k, N as int) < reach
                        ==> self@.out(k) || passed@[k],
            decreases N - j,
        {
            let out = self.is_player_out(j);
            if passed[j] && out {
                return false;
            }
            let d = seats_ahead(highest_bidder, j, N);
            if 0 < d && d < reach && !(out || passed[j]) {
                proof {
                    assert(0 < ahead(highest_bidder as int, j as int, N as int) < reach);
                }
                return false;
            }
            j = j + 1;
        }
        match self.pending_event {
            None => true,
            Some(Event::BidStarted) => true,
            Some(_) => false,
        }
    }

    /// Whether the flipped positions of every seat fit the pile of that seat.
    fn marks_fit_piles(&self, flipped: &[heapless::Vec<usize, 4>; N]) -> (ok: bool)
        ensures
            ok == forall|i: int|
                0 <= i < N ==> marks_fit(#[trigger] marks_of(*flipped)[i], self@.piles[i].len()),
    {
        let mut i: usize = 0;
        while i < N
            invariant
                i <= N,
                forall|k: int|
                    0 <= k < i ==> marks_fit(#[trigger] marks_of(*flipped)[k], self@.piles[k].len()),
            decreases N - i,
        {
            let len = pile_as_slice(&self.cards_played[i]).len();
            if !marks_fit_pile(marks_as_slice(&flipped[i]), len) {
                proof {
                    assert(!marks_fit(marks_of(*flipped)[i as int], self@.piles[i as int].len()));
                }
                return false;
            }
            i = i + 1;
        }
        true
    }

    /// Whether every flipped card of a player other than the challenger is a flower.
    fn others_have_shown_flowers(
        &self,
        challenger: usize,
        flipped: &[heapless::Vec<usize, 4>; N],
    ) -> (ok: bool)
        requires
            forall|i: int|
                0 <= i < N ==> marks_fit(#[trigger] marks_of(*flipped)[i], self@.piles[i].len()),
        ensures
            ok == self@.others_show_flowers(challenger, marks_of(*flipped)),
    {
        let mut i: usize = 0;
        while i < N
            invariant
                i <= N,
                forall|a: int|
                    0 <= a < N ==> marks_fit(#[trigger] marks_of(*flipped)[a], self@.piles[a].len()),
                forall|a: int, k: int|
                    0 <= a < i && a != challenger && 0 <= k < marks_of(*flipped)[a].len()
                        ==> self@.piles[a][(#[trigger] marks_of(*flipped)[a][k]) as int]
                        == Card::Flower,
            decreases N - i,
        {
            if i != challenger {
                proof {
                    assert(marks_fit(marks_of(*flipped)[i as int], self@.piles[i as int].len()));
                }
                if !marks_show_flowers(
                    marks_as_slice(&flipped[i]),
                    pile_as_slice(&self.cards_played[i]),
                ) {
                    proof {
                        let marks = marks_of(*flipped)[i as int];
                        let k = choose|k: int|
                            0 <= k < marks.len() && self@.piles[i as int][(#[trigger] marks[k]) as int]
                                != Card::Flower;
                        assert(self@.piles[i as int][marks_of(*flipped)[i as int][k] as int]
                            != Card::Flower);
                    }
                    return false;
                }
            }
            i = i + 1;
        }
        true
    }

    /// Whether nothing has been flipped.
    fn nothing_flipped(flipped: &[heapless::Vec<usize, 4>; N]) -> (ok: bool)
        ensures
            ok == (marks_of(*flipped) == bare::<usize>(N as int)),
    {
        let mut i: usize = 0;
        while i < N
            invariant
                i <= N,
                forall|k: int| 0 <= k < i ==> (#[trigger] marks_of(*flipped)[k]).len() == 0,
            decreases N - i,
        {
            if marks_as_slice(&flipped[i]).len() != 0 {
                proof {
                    assert(marks_of(*flipped)[i as int].len() != 0);
                    assert(bare::<usize>(N as int)[i as int].len() == 0);
                }
                return false;
            }
            i = i + 1;
        }
        proof {
            assert forall|k: int| 0 <= k < N implies marks_of(*flipped)[k] == bare::<usize>(N as int)[k] by {
                assert(marks_of(*flipped)[k].len() == 0);
                assert(marks_of(*flipped)[k] =~= Seq::<usize>::empty());
            }
            assert(marks_of(*flipped) =~= bare::<usize>(N as int));
        }
        true
    }

    /// Whether the game is one while a challenge runs.
    fn challenging_is_ok(
        &self,
        challenger: usize,
        target: usize,
        flipped: &[heapless::Vec<usize, 4>; N],
    ) -> (ok: bool)
        requires
            N <= 6,
        ensures
            ok == self@.challenging_ok(challenger, target, marks_of(*flipped)),
    {
        if challenger >= N || target > self.cards_played_count() {
            return false;
        }
        if !self.marks_fit_piles(flipped) {
            return false;
        }
        let flipped_count = len_2d(flipped);
        if flipped_count > target || !self.others_have_shown_flowers(challenger, flipped) {
            return false;
        }
        let pile = pile_as_slice(&self.cards_played[challenger]);
        let len = pile.len();
        let start = if target >= len {
            0
        } else {
            len - target
        };
        let own = is_span(marks_as_slice(&flipped[challenger]), start, len);
        let shown = shows_skull(pile, start);
        let out = self.is_player_out(challenger);
        let remaining = self.remaining_player_count();
        match self.pending_event {
            Some(Event::ChallengeStarted) => !out && remaining >= 2 && Self::nothing_flipped(flipped),
            None => !out && remaining >= 2 && own && !shown && target > len && flipped_count < target,
            Some(Event::ChallengeWon(player)) => player == challenger && !out && remaining >= 2 && own
                && !shown && flipped_count == target,
            Some(Event::ChallengeWonGameWon(player)) => player == challenger && !out && remaining >= 2
                && own && !shown && flipped_count == target && self.scores[challenger] == 2,
            Some(Event::ChallengerChoseSkull { challenger: loser, skull_player }) => {
                loser == challenger && skull_player < N && remaining >= (if out {
                    1
                } else {
                    2
                }) && own && if skull_player == challenger {
                    shown
                } else {
                    !shown && shows_skull(pile_as_slice(&self.cards_played[skull_player]), 0)
                }
            },
            Some(_) => false,
        }
    }

    /// Whether the phase and the notice that waits agree with the rest of the game.
    fn phase_is_ok(&self) -> (ok: bool)
        requires
            N <= 6,
        ensures
            ok == self@.phase_ok(),
    {
        match &self.state {
            State::Playing { current_player } => self.playing_is_ok(*current_player),
            State::Bidding { current_bidder, highest_bid, highest_bidder, max_bid, passed } => {
                self.bidding_is_ok(*current_bidder, *highest_bid, *highest_bidder, *max_bid, passed)
            },
            State::Challenging { challenger, target, flipped } => self.challenging_is_ok(
                *challenger,
                *target,
                flipped,
            ),
        }
    }

    /// Whether the game is a match in progress: one that play can have led to and that play
    /// can go on from.
    pub fn is_valid(&self) -> (ok: bool)
        ensures
            ok == self@.valid(),
    {
        3 <= N && N <= 6 && self.seats_are_ok() && self.is_evenly_played() && self.phase_is_ok()
    }

    /// The game that the given parts make, which must be a match in progress.
    pub fn create_from(
        scores: [u8; N],
        player_hands: [Hand; N],
        cards_played: [heapless::Vec<Card, 4>; N],
        state: State<N>,
        pending_event: Option<Event>,
    ) -> (game: Self)
        requires
            view_of_parts(scores, player_hands, cards_played, state, pending_event).valid(),
        ensures
            game@ == view_of_parts(scores, player_hands, cards_played, state, pending_event),
            game@.valid(),
    {
        Game {
            scores,
            player_hands,
            cards_played,
            state,
            pending_event,
            rng: thread_source(),
            draws: Vec::new(),
        }
    }

    /// The game that the given parts make, if that is a match in progress.
    pub fn try_create_from(
        scores: [u8; N],
        player_hands: [Hand; N],
        cards_played: [heapless::Vec<Card, 4>; N],
        state: State<N>,
        pending_event: Option<Event>,
    ) -> (game: Option<Self>)
        ensures
            game is Some <==> view_of_parts(
                scores,
                player_hands,
                cards_played,
                state,
                pending_event,
            ).valid(),
            game matches Some(g) ==> g@ == view_of_parts(
                scores,
                player_hands,
                cards_played,
                state,
                pending_event,
            ),
    {
        let game = Game {
            scores,
            player_hands,
            cards_played,
            state,
            pending_event,
            rng: thread_source(),
            draws: Vec::new(),
        };
        if game.is_valid() {
            Some(game)
        } else {
            None
        }
    }
}

} // verus!
