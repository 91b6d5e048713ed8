use vstd::prelude::*;
use crate::card::Card;

verus! {

/// The kind of answer that the game waits for.
#[derive(Debug, Copy, Clone, PartialEq, Eq, Structural)]
pub enum InputType {
    /// The player must play a card.
    PlayCard,
    /// The player may play a card or open the bidding.
    PlayCardOrStartBid,
    /// The player has no card left to play and must open the bidding.
    StartBid,
    /// The bidder must raise the bid or pass.
    BidOrPass,
    /// The challenger must flip a card.
    FlipCard,
}

/// A notice of something that happened, or a request for an answer.
#[derive(Debug, Copy, Clone, PartialEq, Eq, Structural)]
pub enum Event {
    /// An answer of kind `input` is wanted from `player`.
    Input { player: usize, input: InputType },
    /// The bidding has begun.
    BidStarted,
    /// A challenge has begun.
    ChallengeStarted,
    /// The challenge is lost: the challenger turned over the skull of `skull_player`, who
    /// may be the challenger.
    ChallengerChoseSkull { challenger: usize, skull_player: usize },
    /// The player has lost the last card.
    PlayerOut(usize),
    /// The challenger has won the challenge.
    ChallengeWon(usize),
    /// The challenger has won the challenge, and with it the game.
    ChallengeWonGameWon(usize),
}

/// An answer given to the game.
#[derive(Debug, Copy, Clone, PartialEq, Eq, Structural)]
pub enum Response {
    /// The current player puts this card on the own pile.
    PlayCard(Card),
    /// The current player or bidder claims this many flowers.
    Bid(usize),
    /// The current bidder leaves the bidding.
    Pass,
    /// The challenger flips the card at the position (second) of the pile of a player (first).
    Flip(usize, usize),
}

/// Why an answer was refused. A refused answer changes nothing.
#[derive(Debug, Copy, Clone, PartialEq, Eq, Structural)]
pub enum ResponseError {
    /// A notice is waiting to be read first.
    PendingEvent,
    /// The answer is of the wrong kind; the kind that is wanted comes with the error.
    IncorrectInputType(InputType),
    /// The player has no such card left to play.
    CardNotInHand,
    /// The bid does not beat the standing bid; the least bid that would comes with the error.
    BidTooLow(usize),
    /// The bid claims more cards than lie on the table; that number comes with the error.
    BidTooHigh(usize),
    /// There is no such player, or no such card in that player's pile.
    InvalidIndex,
    /// The card has been flipped before.
    CardAlreadyFlipped,
    /// The challenger's own cards are flipped without asking.
    ManuallyFlippingOwnCards,
}

} // verus!
