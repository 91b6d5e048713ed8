use vstd::prelude::*;
use vstd::string::StringExecFns;
use crate::card::Card;
use crate::event::{InputType, ResponseError};
use crate::hand::{Hand, HandError, HandView};

verus! {

/// A digit as text; meaningful for `d` below ten.
pub open spec fn digit_text(d: nat) -> Seq<char> {
    if d == 0 {
        "0"@
    } else if d == 1 {
        "1"@
    } else if d == 2 {
        "2"@
    } else if d == 3 {
        "3"@
    } else if d == 4 {
        "4"@
    } else if d == 5 {
        "5"@
    } else if d == 6 {
        "6"@
    } else if d == 7 {
        "7"@
    } else if d == 8 {
        "8"@
    } else {
        "9"@
    }
}

/// A number in decimal digits, without leading zeros.
pub open spec fn decimal_text(n: nat) -> Seq<char>
    decreases n,
{
    if n < 10 {
        digit_text(n)
    } else {
        decimal_text(n / 10) + digit_text(n % 10)
    }
}

fn digit(d: usize) -> (s: &'static str)
    requires
        d < 10,
    ensures
        s@ == digit_text(d as nat),
{
    if d == 0 {
        "0"
    } else if d == 1 {
        "1"
    } else if d == 2 {
        "2"
    } else if d == 3 {
        "3"
    } else if d == 4 {
        "4"
    } else if d == 5 {
        "5"
    } else if d == 6 {
        "6"
    } else if d == 7 {
        "7"
    } else if d == 8 {
        "8"
    } else {
        "9"
    }
}

/// The number `n` in decimal digits.
pub fn decimal(n: usize) -> (s: String)
    ensures
        s@ == decimal_text(n as nat),
    decreases n,
{
    if n < 10 {
        String::from_str(digit(n))
    } else {
        decimal(n / 10).concat(digit(n % 10))
    }
}

/// The texts of the cards of `cards`, with a comma and a space between each two.
pub open spec fn listed(cards: Seq<Card>) -> Seq<char>
    decreases cards.len(),
{
    if cards.len() == 0 {
        Seq::empty()
    } else if cards.len() == 1 {
        cards[0].text()
    } else {
        listed(cards.drop_last()) + ", "@ + cards.last().text()
    }
}

impl Card {
    /// The name of the card.
    pub open spec fn text(self) -> Seq<char> {
        match self {
            Card::Flower => "Flower"@,
            Card::Skull => "Skull"@,
        }
    }

    fn name(&self) -> (s: &'static str)
        ensures
            s@ == self.text(),
    {
        match self {
            Card::Flower => "Flower",
            Card::Skull => "Skull",
        }
    }

    /// The name of the card.
    pub fn to_string(&self) -> (s: String)
        ensures
            s@ == self.text(),
    {
        String::from_str(self.name())
    }
}

impl HandView {
    /// The cards of the hand between square brackets, the skull first.
    pub open spec fn text(self) -> Seq<char> {
        "["@ + listed(self.listing()) + "]"@
    }
}

impl Hand {
    /// The cards of the hand between square brackets, the skull first.
    pub fn to_string(&self) -> (s: String)
        ensures
            s@ == self@.text(),
    {
        let cards = self.as_vec();
        let mut s = String::from_str("[");
        let mut i: usize = 0;
        while i < cards.len()
            invariant
                i <= cards@.len(),
                s@ == "["@ + listed(cards@.take(i as int)),
            decreases cards@.len() - i,
        {
            proof {
                assert(cards@.take(i + 1).drop_last() =~= cards@.take(i as int));
                assert(cards@.take(i + 1).last() == cards@[i as int]);
            }
            if i > 0 {
                s.append(", ");
            }
            s.append(cards[i].name());
            proof {
                assert(s@ =~= "["@ + listed(cards@.take(i + 1)));
            }
            i = i + 1;
        }
        proof {
            assert(cards@.take(i as int) =~= cards@);
        }
        s.append("]");
        s
    }
}

impl HandError {
    /// What went wrong, in words.
    pub open spec fn text(self) -> Seq<char> {
        match self {
            HandError::MultipleSkulls => "Invalid hand, multiple skulls"@,
            HandError::TooManyFlowers => "Invalid hand, too many flowers"@,
            HandError::RhsNotSubset(left, right) => {
                "RHS of subtraction had cards the left side didn't. Left: "@ + left@.text()
                    + ". Right: "@ + right@.text()
            },
        }
    }

    /// What went wrong, in words.
    pub fn to_string(&self) -> (s: String)
        ensures
            s@ == self.text(),
    {
        match self {
            HandError::MultipleSkulls => String::from_str("Invalid hand, multiple skulls"),
            HandError::TooManyFlowers => String::from_str("Invalid hand, too many flowers"),
            HandError::RhsNotSubset(left, right) => {
                let mut s = String::from_str(
                    "RHS of subtraction had cards the left side didn't. Left: ",
                );
                s.append(left.to_string().as_str());
                s.append(". Right: ");
                s.append(right.to_string().as_str());
                s
            },
        }
    }
}

impl InputType {
    /// The answers that this kind of input allows, by name.
    pub open spec fn text(self) -> Seq<char> {
        match self {
            InputType::PlayCard => "PlayCard"@,
            InputType::PlayCardOrStartBid => "PlayCard or Bid"@,
            InputType::StartBid => "Bid"@,
            InputType::BidOrPass => "Bid or Pass"@,
            InputType::FlipCard => "Flip"@,
        }
    }

    fn name(&self) -> (s: &'static str)
        ensures
            s@ == self.text(),
    {
        match self {
            InputType::PlayCard => "PlayCard",
            InputType::PlayCardOrStartBid => "PlayCard or Bid",
            InputType::StartBid => "Bid",
            InputType::BidOrPass => "Bid or Pass",
            InputType::FlipCard => "Flip",
        }
    }
}

impl ResponseError {
    /// Why the answer was refused, in words.
    pub open spec fn text(self) -> Seq<char> {
        match self {
            ResponseError::PendingEvent => {
                "There's a pending event that needs to be processed using Game.what_next()"@
            },
            ResponseError::IncorrectInputType(input) => "Incorrect input type, expected "@
                + input.text(),
            ResponseError::CardNotInHand => "The player doesn't have that card"@,
            ResponseError::BidTooLow(min) => "Bid too low, needs to be at least "@ + decimal_text(
                min as nat,
            ),
            ResponseError::BidTooHigh(max) => "Bid too high, needs to be at most "@ + decimal_text(
                max as nat,
            ),
            ResponseError::InvalidIndex => "Invalid index, outside of allowed range"@,
            ResponseError::CardAlreadyFlipped => "The player has already flipped that card"@,
            ResponseError::ManuallyFlippingOwnCards => {
                "Challenger is trying to flip their own cards, which are already flipped"@
            },
        }
    }

    /// Why the answer was refused, in words.
    pub fn to_string(&self) -> (s: String)
        ensures
            s@ == self.text(),
    {
        match self {
            ResponseError::PendingEvent => String::from_str(
                "There's a pending event that needs to be processed using Game.what_next()",
            ),
            ResponseError::IncorrectInputType(input) => String::from_str(
                "Incorrect input type, expected ",
            ).concat(input.name()),
            ResponseError::CardNotInHand => String::from_str("The player doesn't have that card"),
            ResponseError::BidTooLow(min) => String::from_str(
                "Bid too low, needs to be at least ",
            ).concat(decimal(*min).as_str()),
            ResponseError::BidTooHigh(max) => String::from_str(
                "Bid too high, needs to be at most ",
            ).concat(decimal(*max).as_str()),
            ResponseError::InvalidIndex => String::from_str(
                "Invalid index, outside of allowed range",
            ),
            ResponseError::CardAlreadyFlipped => String::from_str(
                "The player has already flipped that card",
            ),
            ResponseError::ManuallyFlippingOwnCards => String::from_str(
                "Challenger is trying to flip their own cards, which are already flipped",
            ),
        }
    }
}

} // verus!
