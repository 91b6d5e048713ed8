use vstd::prelude::*;
use crate::counting::{after, next_open, seek};
use crate::game::Game;
use crate::state::{Phase, State};

verus! {

/// The seat after `i` at a table of `n` seats.
pub(crate) fn seat_after(i: usize, n: usize) -> (next: usize)
    requires
        i < n,
    ensures
        next == after(i as int, n as int),
        next < n,
{
    if i + 1 >= n {
        0
    } else {
        i + 1
    }
}

/// The first seat after `from`, going round the table, whose flag in `open` is set; `from`
/// itself if no other is.
pub(crate) fn first_open_after<const N: usize>(open: &[bool; N], from: usize) -> (seat: usize)
    requires
        from < N,
    ensures
        seat == next_open(open@, from as int),
        seat < N,
{
    let mut at = seat_after(from, N);
    let mut tries: usize = N - 1;
    while tries > 0 && !open[at]
        invariant
            at < N,
            tries < N,
            seek(open@, at as int, tries as nat) == next_open(open@, from as int),
        decreases tries,
    {
        at = seat_after(at, N);
        tries = tries - 1;
    }
    at
}

impl<const N: usize> Game<N> {
    /// For each seat, whether its player has a card left.
    pub(crate) fn alive_flags(&self) -> (flags: [bool; N])
        ensures
            flags@ == self@.alive(),
    {
        let mut flags = [false; N];
        let mut i: usize = 0;
        while i < N
            invariant
                i <= N,
                forall|k: int| 0 <= k < i ==> flags@[k] == !self@.out(k),
            decreases N - i,
        {
            flags[i] = !self.is_player_out(i);
            i = i + 1;
        }
        proof {
            assert(flags@ =~= self@.alive());
        }
        flags
    }

    /// Whether the player in seat `player_index` has passed; nobody has unless bids are made.
    pub(crate) fn has_passed(&self, player_index: usize) -> (b: bool)
        requires
            player_index < N,
        ensures
            b == (self@.phase matches Phase::Bidding { passed, .. } && passed[player_index as int]),
    {
        match &self.state {
            State::Bidding { passed, .. } => passed[player_index],
            _ => false,
        }
    }

    /// For each seat, whether the turn may go to its player: one who has a card left and has
    /// not passed.
    pub(crate) fn open_flags(&self) -> (flags: [bool; N])
        ensures
            flags@ == match self@.phase {
                Phase::Bidding { passed, .. } => self@.bidders(passed),
                _ => self@.alive(),
            },
    {
        let mut flags = [false; N];
        let mut i: usize = 0;
        while i < N
            invariant
                i <= N,
                forall|k: int|
                    0 <= k < i ==> flags@[k] == (!self@.out(k) && !(self@.phase matches Phase::Bidding {
                        passed,
                        ..
                    } && passed[k])),
            decreases N - i,
        {
            flags[i] = !self.is_player_out(i) && !self.has_passed(i);
            i = i + 1;
        }
        proof {
            match self@.phase {
                Phase::Bidding { passed, .. } => {
                    assert(flags@ =~= self@.bidders(passed));
                },
                _ => {
                    assert(flags@ =~= self@.alive());
                },
            }
        }
        flags
    }

    /// The player that the game deals with: who plays, bids or flips next.
    pub(crate) fn player(&self) -> (seat: usize)
        ensures
            seat == self@.actor(),
    {
        match &self.state {
            State::Playing { current_player } => *current_player,
            State::Bidding { current_bidder, .. } => *current_bidder,
            State::Challenging { challenger, .. } => *challenger,
        }
    }

    /// Hands the turn to the player in seat `player_index`.
    pub(crate) fn set_player(&mut self, player_index: usize)
        ensures
            final(self)@ == old(self)@.turned_to(player_index),
    {
        match &mut self.state {
            State::Playing { current_player } => {
                *current_player = player_index;
            },
            State::Bidding { current_bidder, .. } => {
                *current_bidder = player_index;
            },
            State::Challenging { challenger, .. } => {
                *challenger = player_index;
            },
        }
    }

    /// Hands the turn on to the next player who has a card left and, while bids are made, has
    /// not passed.
    pub(crate) fn increment_player(&mut self)
        requires
            old(self)@.actor() < N,
            !(old(self)@.phase is Challenging),
        ensures
            final(self)@ == old(self)@.advanced(),
    {
        let flags = self.open_flags();
        let next = first_open_after(&flags, self.player());
        self.set_player(next);
    }

    /// The next seat after `from`, going round, whose player has a card left.
    pub(crate) fn next_seat_after(&self, from: usize) -> (seat: usize)
        requires
            from < N,
        ensures
            seat == self@.next_seat(from),
            seat < N,
    {
        let flags = self.alive_flags();
        first_open_after(&flags, from)
    }
}

} // verus!
