use vstd::prelude::*;
use crate::pile::marks_of;

verus! {

/// The phase that a game is in, with what only that phase needs.
#[derive(Debug, Clone, PartialEq, Eq)]
pub enum State<const N: usize> {
    /// Players put cards on their piles in turn.
    Playing {
        /// Whose turn it is.
        current_player: usize,
    },
    /// Players raise the bid or pass in turn.
    Bidding {
        /// Whose turn it is.
        current_bidder: usize,
        /// The standing bid.
        highest_bid: usize,
        /// Who made the standing bid.
        highest_bidder: usize,
        /// The number of cards on the table, which no bid can exceed.
        max_bid: usize,
        /// Who has passed.
        passed: [bool; N],
    },
    /// The highest bidder flips cards.
    Challenging {
        /// Who flips.
        challenger: usize,
        /// How many flowers must be shown.
        target: usize,
        /// For each player, the positions in that player's pile that have been flipped.
        flipped: [heapless::Vec<usize, 4>; N],
    },
}

/// A [`State`] as plain values.
pub ghost enum Phase {
    Playing { current_player: usize },
    Bidding {
        current_bidder: usize,
        highest_bid: usize,
        highest_bidder: usize,
        max_bid: usize,
        passed: Seq<bool>,
    },
    Challenging { challenger: usize, target: usize, flipped: Seq<Seq<usize>> },
}

impl<const N: usize> View for State<N> {
    type V = Phase;

    open spec fn view(&self) -> Phase {
        match *self {
            State::Playing { current_player } => Phase::Playing { current_player },
            State::Bidding { current_bidder, highest_bid, highest_bidder, max_bid, passed } => {
                Phase::Bidding {
                    current_bidder,
                    highest_bid,
                    highest_bidder,
                    max_bid,
                    passed: passed@,
                }
            },
            State::Challenging { challenger, target, flipped } => Phase::Challenging {
                challenger,
                target,
                flipped: marks_of(flipped),
            },
        }
    }
}

} // verus!
