use vstd::prelude::*;
use crate::card::Card;
use crate::counting::{ahead, count_true, marks_fit, next_open, span, total_len};
use crate::event::{Event, InputType, Response, ResponseError};
use crate::hand::{fits_one_hand, Hand, HandView};
use crate::state::Phase;

verus! {

/// A game as plain values: what each seat has scored, holds and has played, the phase, the
/// notice that waits to be read, and the draws that were fixed in advance.
pub ghost struct GameView {
    pub scores: Seq<u8>,
    pub hands: Seq<Hand>,
    pub piles: Seq<Seq<Card>>,
    pub phase: Phase,
    pub pending: Option<Event>,
    pub draws: Seq<u8>,
}

/// The position in a pile of `len` cards from which the challenger's own cards are flipped
/// when `target` flowers are to be shown: the top `target` cards, or all of them.
pub open spec fn own_start(len: int, target: int) -> int {
    if target >= len {
        0
    } else {
        len - target
    }
}

/// `n` rows with nothing in them.
pub open spec fn bare<T>(n: int) -> Seq<Seq<T>> {
    Seq::new(n as nat, |i: int| Seq::<T>::empty())
}

/// `n` flags, none of them set.
pub open spec fn unset(n: int) -> Seq<bool> {
    Seq::new(n as nat, |i: int| false)
}

impl GameView {
    /// The number of seats at the table.
    pub open spec fn seats(self) -> int {
        self.scores.len() as int
    }

    /// Every per-seat sequence has one entry for each of 3 to 6 seats.
    pub open spec fn shaped(self) -> bool {
        &&& 3 <= self.seats() <= 6
        &&& self.hands.len() == self.seats()
        &&& self.piles.len() == self.seats()
        &&& match self.phase {
            Phase::Playing { .. } => true,
            Phase::Bidding { passed, .. } => passed.len() == self.seats(),
            Phase::Challenging { flipped, .. } => flipped.len() == self.seats(),
        }
    }

    /// Whether the player in seat `i` has no card left and so takes no further part.
    pub open spec fn out(self, i: int) -> bool {
        self.hands[i]@.count() == 0
    }

    /// For each seat, whether its player still takes part.
    pub open spec fn alive(self) -> Seq<bool> {
        Seq::new(self.seats() as nat, |i: int| !self.out(i))
    }

    /// How many players still take part.
    pub open spec fn remaining(self) -> nat {
        count_true(self.alive())
    }

    /// How many cards lie on the table.
    pub open spec fn committed(self) -> nat {
        total_len(self.piles)
    }

    /// For each seat, whether its player may bid: still taking part and not in `passed`.
    pub open spec fn bidders(self, passed: Seq<bool>) -> Seq<bool> {
        Seq::new(self.seats() as nat, |i: int| !self.out(i) && !passed[i])
    }

    /// The player that the game deals with: who plays, bids or flips next.
    pub open spec fn actor(self) -> usize {
        match self.phase {
            Phase::Playing { current_player } => current_player,
            Phase::Bidding { current_bidder, .. } => current_bidder,
            Phase::Challenging { challenger, .. } => challenger,
        }
    }

    /// The kind of answer that the game waits for. While cards are played this depends on
    /// whether the player has a card left to play and whether as many cards lie on the table
    /// as there are seats.
    pub open spec fn wanted(self) -> InputType {
        match self.phase {
            Phase::Playing { current_player } => {
                if self.piles[current_player as int].len() < self.hands[current_player as int]@.count() {
                    if self.committed() >= self.seats() {
                        InputType::PlayCardOrStartBid
                    } else {
                        InputType::PlayCard
                    }
                } else {
                    InputType::StartBid
                }
            },
            Phase::Bidding { .. } => InputType::BidOrPass,
            Phase::Challenging { .. } => InputType::FlipCard,
        }
    }

    /// The next seat after `from`, going round, whose player still takes part.
    pub open spec fn next_seat(self, from: usize) -> usize {
        next_open(self.alive(), from as int) as usize
    }

    /// The next seat after `from`, going round, whose player may bid.
    pub open spec fn next_bidder(self, from: usize, passed: Seq<bool>) -> usize {
        next_open(self.bidders(passed), from as int) as usize
    }

    /// The game with the turn handed to `seat`.
    pub open spec fn turned_to(self, seat: usize) -> GameView {
        GameView {
            phase: match self.phase {
                Phase::Playing { .. } => Phase::Playing { current_player: seat },
                Phase::Bidding { highest_bid, highest_bidder, max_bid, passed, .. } => Phase::Bidding {
                    current_bidder: seat,
                    highest_bid,
                    highest_bidder,
                    max_bid,
                    passed,
                },
                Phase::Challenging { target, flipped, .. } => Phase::Challenging {
                    challenger: seat,
                    target,
                    flipped,
                },
            },
            ..self
        }
    }

    /// The game with the turn handed on: to the next player who still takes part and, while
    /// bids are made, has not passed. A challenge has no turns to hand on.
    pub open spec fn advanced(self) -> GameView {
        match self.phase {
            Phase::Playing { current_player } => self.turned_to(self.next_seat(current_player)),
            Phase::Bidding { current_bidder, passed, .. } => self.turned_to(
                self.next_bidder(current_bidder, passed),
            ),
            Phase::Challenging { .. } => self,
        }
    }

    /// The cards of the player in seat `i` that are not on the table.
    pub open spec fn unplayed(self, i: int) -> HandView {
        self.hands[i]@.minus(HandView::of_cards(self.piles[i]))
    }

    /// Whether the hands and the fixed draws of `next` are those of `self` after the player
    /// in seat `c` has lost a card. A hand of one kind of card loses one of that kind. A hand
    /// of both kinds loses the card that a draw falls on, each card being as likely as any
    /// other: the first of the fixed draws if there is one, which is then used up, and else a
    /// draw of chance, of which only this is known, that the hand held the card.
    pub open spec fn costs_card(self, c: int, next: GameView) -> bool {
        let hand = self.hands[c]@;
        &&& next.hands == self.hands.update(c, next.hands[c])
        &&& if hand.skull && hand.flowers > 0 && self.draws.len() > 0 {
            &&& next.hands[c]@ == hand.without(hand.drawn(self.draws[0] as nat % hand.count()))
            &&& next.draws == self.draws.drop_first()
        } else {
            &&& hand.lost_one(next.hands[c]@)
            &&& next.draws == self.draws
        }
    }

    /// Whether one of the challenger's own cards that are flipped for a target is the skull.
    pub open spec fn own_skull_shown(self, challenger: usize, target: usize) -> bool {
        let pile = self.piles[challenger as int];
        exists|k: int| own_start(pile.len() as int, target as int) <= k < pile.len() && pile[k] == Card::Skull
    }

    /// The positions of the challenger's own cards that are flipped for a target.
    pub open spec fn own_marks(self, challenger: usize, target: usize) -> Seq<usize> {
        let len = self.piles[challenger as int].len() as int;
        span(own_start(len, target as int), len)
    }

    /// The event that reading the next notice hands out: the notice that waits, or else the
    /// request for the answer that the game waits for.
    pub open spec fn notice(self) -> Event {
        match self.pending {
            Some(e) => e,
            None => Event::Input { player: self.actor(), input: self.wanted() },
        }
    }

    /// Play resumes with empty piles at seat `at`.
    pub open spec fn resumed(self, at: usize, pending: Option<Event>) -> GameView {
        GameView {
            piles: bare(self.seats()),
            phase: Phase::Playing { current_player: at },
            pending,
            ..self
        }
    }

    /// Whether `next` is the game after the notice of a begun challenge was read: the
    /// challenger's own cards are flipped, and the challenge is lost if the skull is among
    /// them, won if they suffice for the target, and goes on otherwise. A lost challenge costs
    /// the challenger one card.
    pub open spec fn opened(self, next: GameView) -> bool {
        match self.phase {
            Phase::Challenging { challenger, target, flipped } => {
                let c = challenger as int;
                let marked = Phase::Challenging {
                    challenger,
                    target,
                    flipped: flipped.update(c, self.own_marks(challenger, target)),
                };
                if self.own_skull_shown(challenger, target) {
                    &&& self.costs_card(c, next)
                    &&& next == (GameView {
                        hands: next.hands,
                        draws: next.draws,
                        phase: marked,
                        pending: Some(Event::ChallengerChoseSkull { challenger, skull_player: challenger }),
                        ..self
                    })
                } else if target <= self.piles[c].len() {
                    let score = (self.scores[c] + 1) as u8;
                    next == (GameView {
                        scores: self.scores.update(c, score),
                        phase: marked,
                        pending: Some(
                            if score == 2 {
                                Event::ChallengeWonGameWon(challenger)
                            } else {
                                Event::ChallengeWon(challenger)
                            },
                        ),
                        ..self
                    })
                } else {
                    next == (GameView { phase: marked, pending: None, ..self })
                }
            },
            _ => false,
        }
    }

    /// The game after the notice of a lost challenge was read: the piles are cleared and play
    /// resumes with the player whose skull was shown. A challenger who has no card left is
    /// announced as out, and play passes on from that seat if it was the challenger's skull.
    pub open spec fn settled(self, challenger: usize, skull_player: usize) -> GameView {
        if !self.out(challenger as int) {
            self.resumed(skull_player, None)
        } else if challenger == skull_player {
            self.resumed(self.next_seat(skull_player), Some(Event::PlayerOut(challenger)))
        } else {
            self.resumed(skull_player, Some(Event::PlayerOut(challenger)))
        }
    }

    /// Whether `next` is the game after the next notice was read. With no notice waiting the
    /// game stays as it is.
    pub open spec fn noticed(self, next: GameView) -> bool {
        match self.pending {
            None => next == self,
            Some(Event::ChallengeStarted) => self.opened(next),
            Some(Event::ChallengerChoseSkull { challenger, skull_player }) => next == self.settled(
                challenger,
                skull_player,
            ),
            Some(Event::ChallengeWon(player)) => next == self.resumed(player, None),
            Some(_) => next == (GameView { pending: None, ..self }),
        }
    }

    /// Whether an answer is taken, and if not, why.
    pub open spec fn verdict(self, response: Response) -> Result<(), ResponseError> {
        if self.pending is Some {
            Err(ResponseError::PendingEvent)
        } else {
            match (self.phase, response) {
                (Phase::Playing { current_player }, Response::PlayCard(card)) => {
                    if self.unplayed(current_player as int).has(card) {
                        Ok(())
                    } else {
                        Err(ResponseError::CardNotInHand)
                    }
                },
                (Phase::Playing { .. }, Response::Bid(n)) => {
                    if n > self.committed() {
                        Err(ResponseError::BidTooHigh(self.committed() as usize))
                    } else {
                        Ok(())
                    }
                },
                (Phase::Bidding { highest_bid, max_bid, .. }, Response::Bid(n)) => {
                    if n > max_bid {
                        Err(ResponseError::BidTooHigh(max_bid))
                    } else if n <= highest_bid {
                        Err(ResponseError::BidTooLow((highest_bid + 1) as usize))
                    } else {
                        Ok(())
                    }
                },
                (Phase::Bidding { .. }, Response::Pass) => Ok(()),
                (Phase::Challenging { challenger, flipped, .. }, Response::Flip(player, position)) => {
                    if player >= self.seats() || position >= self.piles[player as int].len() {
                        Err(ResponseError::InvalidIndex)
                    } else if player == challenger {
                        Err(ResponseError::ManuallyFlippingOwnCards)
                    } else if flipped[player as int].contains(position) {
                        Err(ResponseError::CardAlreadyFlipped)
                    } else {
                        Ok(())
                    }
                },
                _ => Err(ResponseError::IncorrectInputType(self.wanted())),
            }
        }
    }

    /// The game with a challenge begun, nothing flipped yet.
    pub open spec fn challenged(self, challenger: usize, target: usize) -> GameView {
        GameView {
            phase: Phase::Challenging { challenger, target, flipped: bare(self.seats()) },
            pending: Some(Event::ChallengeStarted),
            ..self
        }
    }

    /// Whether `next` is the game after an answer that was taken.
    pub open spec fn taken(self, response: Response, next: GameView) -> bool {
        match (self.phase, response) {
            (Phase::Playing { current_player }, Response::PlayCard(card)) => {
                let c = current_player as int;
                next == (GameView {
                    piles: self.piles.update(c, self.piles[c].push(card)),
                    phase: Phase::Playing { current_player: self.next_seat(current_player) },
                    ..self
                })
            },
            (Phase::Playing { current_player }, Response::Bid(n)) => {
                if n < self.committed() {
                    next == (GameView {
                        phase: Phase::Bidding {
                            current_bidder: self.next_seat(current_player),
                            highest_bid: n,
                            highest_bidder: current_player,
                            max_bid: self.committed() as usize,
                            passed: unset(self.seats()),
                        },
                        pending: Some(Event::BidStarted),
                        ..self
                    })
                } else {
                    next == self.challenged(current_player, n)
                }
            },
            (Phase::Bidding { current_bidder, max_bid, passed, .. }, Response::Bid(n)) => {
                if n == max_bid {
                    next == self.challenged(current_bidder, n)
                } else {
                    next == (GameView {
                        phase: Phase::Bidding {
                            current_bidder: self.next_bidder(current_bidder, passed),
                            highest_bid: n,
                            highest_bidder: current_bidder,
                            max_bid,
                            passed,
                        },
                        ..self
                    })
                }
            },
            (
                Phase::Bidding { current_bidder, highest_bid, highest_bidder, max_bid, passed },
                Response::Pass,
            ) => {
                let passed = passed.update(current_bidder as int, true);
                if count_true(passed) + 1 == self.remaining() {
                    next == self.challenged(highest_bidder, highest_bid)
                } else {
                    next == (GameView {
                        phase: Phase::Bidding {
                            current_bidder: self.next_bidder(current_bidder, passed),
                            highest_bid,
                            highest_bidder,
                            max_bid,
                            passed,
                        },
                        ..self
                    })
                }
            },
            (Phase::Challenging { challenger, target, flipped }, Response::Flip(player, position)) => {
                let c = challenger as int;
                let p = player as int;
                match self.piles[p][position as int] {
                    Card::Skull => {
                        &&& self.costs_card(c, next)
                        &&& next == (GameView {
                            hands: next.hands,
                            draws: next.draws,
                            pending: Some(
                                Event::ChallengerChoseSkull { challenger, skull_player: player },
                            ),
                            ..self
                        })
                    },
                    Card::Flower => {
                        let flipped = flipped.update(p, flipped[p].push(position));
                        let phase = Phase::Challenging { challenger, target, flipped };
                        if total_len(flipped) == target {
                            let score = (self.scores[c] + 1) as u8;
                            next == (GameView {
                                scores: self.scores.update(c, score),
                                phase,
                                pending: Some(
                                    if score == 2 {
                                        Event::ChallengeWonGameWon(challenger)
                                    } else {
                                        Event::ChallengeWon(challenger)
                                    },
                                ),
                                ..self
                            })
                        } else {
                            next == (GameView { phase, ..self })
                        }
                    },
                }
            },
            _ => false,
        }
    }

    /// Whether `next` is the game after an answer: as `taken` says if the answer was taken,
    /// and unchanged if it was refused.
    pub open spec fn answered(self, response: Response, next: GameView) -> bool {
        if self.verdict(response) is Ok {
            self.taken(response, next)
        } else {
            next == self
        }
    }

    /// The seat, if any, whose hand has just lost a card to a challenge that is not yet
    /// settled; the pile of that seat may hold the card that the hand has lost.
    pub open spec fn just_lost(self, i: int) -> bool {
        &&& self.phase matches Phase::Challenging { challenger, .. }
        &&& challenger == i
        &&& self.pending matches Some(Event::ChallengerChoseSkull { .. })
    }

    /// The seat, if any, whose player is announced as the winner of the game.
    pub open spec fn declared_winner(self, i: int) -> bool {
        &&& self.phase matches Phase::Challenging { challenger, .. }
        &&& challenger == i
        &&& self.pending matches Some(Event::ChallengeWonGameWon(_))
    }

    /// What holds of a single seat: nobody has two points but a declared winner; the hand is
    /// one that was dealt; and the pile could come from one hand and holds no card that is
    /// not in the player's hand.
    pub open spec fn seat_ok(self, i: int) -> bool {
        &&& self.scores[i] <= 1 || (self.declared_winner(i) && self.scores[i] == 2)
        &&& self.hands[i]@.within_deal()
        &&& fits_one_hand(self.piles[i])
        &&& self.just_lost(i) || self.hands[i]@.covers(HandView::of_cards(self.piles[i]))
    }

    /// Among the players who take part, nobody has played two cards more than another.
    pub open spec fn evenly_played(self) -> bool {
        forall|i: int, j: int|
            #![trigger self.piles[i], self.piles[j]]
            0 <= i < self.seats() && 0 <= j < self.seats() && !self.out(i) && !self.out(j)
                ==> self.piles[i].len() <= self.piles[j].len() + 1
    }

    /// Going round from seat `c`, no player who takes part has played fewer cards than one
    /// who sits nearer to `c`: those whose turn has come in this round sit behind the
    /// others.
    pub open spec fn in_turn_order(self, c: int) -> bool {
        forall|i: int, j: int|
            #![trigger self.piles[i], self.piles[j]]
            0 <= i < self.seats() && 0 <= j < self.seats() && !self.out(i) && !self.out(j)
                && ahead(c, i, self.seats()) < ahead(c, j, self.seats())
                ==> self.piles[i].len() <= self.piles[j].len()
    }

    /// What holds while cards are played.
    pub open spec fn playing_ok(self, current_player: usize) -> bool {
        &&& current_player < self.seats()
        &&& !self.out(current_player as int)
        &&& self.remaining() >= 2
        &&& self.in_turn_order(current_player as int)
        &&& match self.pending {
            None => true,
            Some(Event::PlayerOut(player)) => player < self.seats() && self.out(player as int),
            Some(_) => false,
        }
    }

    /// What holds while bids are made.
    pub open spec fn bidding_ok(
        self,
        current_bidder: usize,
        highest_bid: usize,
        highest_bidder: usize,
        max_bid: usize,
        passed: Seq<bool>,
    ) -> bool {
        let n = self.seats();
        &&& current_bidder < n
        &&& highest_bidder < n
        &&& current_bidder != highest_bidder
        &&& !self.out(current_bidder as int)
        &&& !self.out(highest_bidder as int)
        &&& !passed[current_bidder as int]
        &&& !passed[highest_bidder as int]
        &&& highest_bid < max_bid
        &&& max_bid == self.committed()
        &&& forall|j: int| 0 <= j < n && #[trigger] passed[j] ==> !self.out(j)
        &&& forall|j: int|
            0 <= j < n && 0 < #[trigger] ahead(highest_bidder as int, j, n) < ahead(
                highest_bidder as int,
                current_bidder as int,
                n,
            ) ==> self.out(j) || passed[j]
        &&& (self.pending is None || self.pending == Some(Event::BidStarted))
    }

    /// Every flipped card of a player other than the challenger is a flower.
    pub open spec fn others_show_flowers(self, challenger: usize, flipped: Seq<Seq<usize>>) -> bool {
        forall|i: int, k: int|
            0 <= i < self.seats() && i != challenger && 0 <= k < flipped[i].len()
                ==> self.piles[i][(#[trigger] flipped[i][k]) as int] == Card::Flower
    }

    /// What holds while a challenge runs.
    pub open spec fn challenging_ok(
        self,
        challenger: usize,
        target: usize,
        flipped: Seq<Seq<usize>>,
    ) -> bool {
        let n = self.seats();
        let c = challenger as int;
        let own = flipped[c] == self.own_marks(challenger, target);
        let shown = self.own_skull_shown(challenger, target);
        &&& challenger < n
        &&& target <= self.committed()
        &&& forall|i: int| 0 <= i < n ==> marks_fit(#[trigger] flipped[i], self.piles[i].len())
        &&& total_len(flipped) <= target
        &&& self.others_show_flowers(challenger, flipped)
        &&& match self.pending {
            Some(Event::ChallengeStarted) => {
                &&& !self.out(c)
                &&& self.remaining() >= 2
                &&& flipped == bare::<usize>(n)
            },
            None => {
                &&& !self.out(c)
                &&& self.remaining() >= 2
                &&& own
                &&& !shown
                &&& target > self.piles[c].len()
                &&& total_len(flipped) < target
            },
            Some(Event::ChallengeWon(player)) => {
                &&& player == challenger
                &&& !self.out(c)
                &&& self.remaining() >= 2
                &&& own
                &&& !shown
                &&& total_len(flipped) == target
            },
            Some(Event::ChallengeWonGameWon(player)) => {
                &&& player == challenger
                &&& !self.out(c)
                &&& self.remaining() >= 2
                &&& own
                &&& !shown
                &&& total_len(flipped) == target
                &&& self.scores[c] == 2
            },
            Some(Event::ChallengerChoseSkull { challenger: loser, skull_player }) => {
                &&& loser == challenger
                &&& skull_player < n
                &&& self.remaining() >= if self.out(c) { 1nat } else { 2nat }
                &&& own
                &&& if skull_player == challenger {
                    shown
                } else {
                    !shown && self.piles[skull_player as int].contains(Card::Skull)
                }
            },
            Some(_) => false,
        }
    }

    /// What holds of the phase and of the notice that waits.
    pub open spec fn phase_ok(self) -> bool {
        match self.phase {
            Phase::Playing { current_player } => self.playing_ok(current_player),
            Phase::Bidding { current_bidder, highest_bid, highest_bidder, max_bid, passed } => {
                self.bidding_ok(current_bidder, highest_bid, highest_bidder, max_bid, passed)
            },
            Phase::Challenging { challenger, target, flipped } => self.challenging_ok(
                challenger,
                target,
                flipped,
            ),
        }
    }

    /// Whether the game is one that play can have led to and that play can go on from:
    /// a match in progress.
    pub open spec fn valid(self) -> bool {
        &&& self.shaped()
        &&& forall|i: int| 0 <= i < self.seats() ==> #[trigger] self.seat_ok(i)
        &&& self.evenly_played()
        &&& self.phase_ok()
    }

    /// Whether the match has ended: somebody has two points and no notice waits, or fewer
    /// than two players are left.
    pub open spec fn over(self) -> bool {
        ||| self.remaining() < 2
        ||| self.pending is None && exists|i: int| 0 <= i < self.seats() && self.scores[i] >= 2
    }

    /// Whether the match ends when the next notice of `self` is read and `next` is what it
    /// leaves: the notice says that the game was won, or it settles a lost challenge and
    /// fewer than two players are left.
    pub open spec fn ends_with_notice(self, next: GameView) -> bool {
        ||| self.pending matches Some(Event::ChallengeWonGameWon(_))
        ||| self.pending matches Some(Event::ChallengerChoseSkull { .. }) && next.remaining() < 2
    }

    /// A new game for `n` players: full hands, nothing played, no points, seat 0 to play.
    pub open spec fn fresh(n: int) -> GameView {
        GameView {
            scores: Seq::new(n as nat, |i: int| 0u8),
            hands: Seq::new(n as nat, |i: int| Hand::from_view(HandView { skull: true, flowers: 3 })),
            piles: bare(n),
            phase: Phase::Playing { current_player: 0 },
            pending: None,
            draws: Seq::empty(),
        }
    }
}

} // verus!
