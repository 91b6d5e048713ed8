use vstd::prelude::*;
use std::ops::Sub;
use vstd::std_specs::convert::TryFromSpecImpl;
use vstd::std_specs::ops::SubSpecImpl;
use crate::card::{flowers, skulls, Card};
use crate::chance::pick_below;
use rand::rngs::ThreadRng;

verus! {

/// The cards a player still owns: at most one skull and at most three flowers.
#[derive(Debug, Copy, Clone, PartialEq, Eq, Structural)]
pub struct Hand {
    skull: bool,
    flowers: u8,
}

/// What a [`Hand`] holds, as plain numbers.
pub ghost struct HandView {
    pub skull: bool,
    pub flowers: nat,
}

impl HandView {
    /// The number of cards.
    pub open spec fn count(self) -> nat {
        self.flowers + if self.skull { 1nat } else { 0nat }
    }

    /// Whether a card of the given kind is present.
    pub open spec fn has(self, card: Card) -> bool {
        match card {
            Card::Skull => self.skull,
            Card::Flower => self.flowers > 0,
        }
    }

    /// Whether every card of `other` is also in `self`.
    pub open spec fn covers(self, other: HandView) -> bool {
        (other.skull ==> self.skull) && self.flowers >= other.flowers
    }

    /// `self` with the cards of `other` taken out; meaningful when `self.covers(other)`.
    pub open spec fn minus(self, other: HandView) -> HandView {
        HandView { skull: self.skull && !other.skull, flowers: (self.flowers - other.flowers) as nat }
    }

    /// `self` with one card of the given kind taken out; meaningful when `self.has(card)`.
    pub open spec fn without(self, card: Card) -> HandView {
        match card {
            Card::Skull => HandView { skull: false, flowers: self.flowers },
            Card::Flower => HandView { skull: self.skull, flowers: (self.flowers - 1) as nat },
        }
    }

    /// The card that leaves a non-empty hand when entry `pick` of its cards is drawn,
    /// the skull (if any) being entry 0 and the flowers the entries after it.
    pub open spec fn drawn(self, pick: nat) -> Card {
        if self.skull && (pick == 0 || self.flowers == 0) {
            Card::Skull
        } else {
            Card::Flower
        }
    }

    /// At most one skull was ever dealt, and at most three flowers.
    pub open spec fn within_deal(self) -> bool {
        self.flowers <= 3
    }

    /// The hand made of exactly the cards of `s`; meaningful when `fits_one_hand(s)`.
    pub open spec fn of_cards(s: Seq<Card>) -> HandView {
        HandView { skull: skulls(s) > 0, flowers: flowers(s) }
    }

    /// The cards of the hand in display order: the skull first, then the flowers.
    pub open spec fn listing(self) -> Seq<Card> {
        (if self.skull { seq![Card::Skull] } else { Seq::<Card>::empty() })
            + Seq::new(self.flowers, |i: int| Card::Flower)
    }
}

/// Whether the cards of `s` could all come from one player: at most one skull and three flowers.
pub open spec fn fits_one_hand(s: Seq<Card>) -> bool {
    skulls(s) <= 1 && flowers(s) <= 3
}

/// Why a value could not be made into a [`Hand`], or two hands could not be subtracted.
#[derive(Debug, Copy, Clone, PartialEq, Eq, Structural)]
pub enum HandError {
    MultipleSkulls,
    TooManyFlowers,
    RhsNotSubset(Hand, Hand),
}

/// What converting the cards `s` into a hand gives. The cards are read front to back and the
/// first card that no longer fits decides the error: a second skull or a fourth flower.
pub open spec fn tally(s: Seq<Card>) -> Result<Hand, HandError>
    decreases s.len(),
{
    if s.len() == 0 {
        Ok(Hand::from_view(HandView { skull: false, flowers: 0 }))
    } else {
        match tally(s.drop_last()) {
            Err(e) => Err(e),
            Ok(h) => match s.last() {
                Card::Skull => if h@.skull {
                    Err(HandError::MultipleSkulls)
                } else {
                    Ok(Hand::from_view(HandView { skull: true, flowers: h@.flowers }))
                },
                Card::Flower => if h@.flowers >= 3 {
                    Err(HandError::TooManyFlowers)
                } else {
                    Ok(Hand::from_view(HandView { skull: h@.skull, flowers: h@.flowers + 1 }))
                },
            },
        }
    }
}

/// `tally` succeeds exactly on the sequences that fit one hand, and then gives the hand made
/// of those cards.
pub proof fn lemma_tally_counts(s: Seq<Card>)
    ensures
        tally(s) is Ok <==> fits_one_hand(s),
        tally(s) matches Ok(h) ==> h@ == HandView::of_cards(s),
        tally(s) matches Err(e) ==> e == HandError::MultipleSkulls || e == HandError::TooManyFlowers,
    decreases s.len(),
{
    if s.len() > 0 {
        lemma_tally_counts(s.drop_last());
        match tally(s.drop_last()) {
            Ok(h) => {
                Hand::lemma_from_view(HandView { skull: true, flowers: h@.flowers });
                if h@.flowers < 3 {
                    Hand::lemma_from_view(HandView { skull: h@.skull, flowers: h@.flowers + 1 });
                }
            },
            Err(_) => {},
        }
    } else {
        Hand::lemma_from_view(HandView { skull: false, flowers: 0 });
    }
}

impl View for Hand {
    type V = HandView;

    closed spec fn view(&self) -> HandView {
        HandView { skull: self.skull, flowers: self.flowers as nat }
    }
}

impl Hand {
    #[verifier::type_invariant]
    spec fn dealt(self) -> bool {
        self.flowers <= 3
    }

    /// The hand whose view is `v`; meaningful when `v.within_deal()`.
    pub closed spec fn from_view(v: HandView) -> Hand {
        Hand { skull: v.skull, flowers: v.flowers as u8 }
    }

    /// `from_view` is the inverse of the view on hands that were dealt.
    pub proof fn lemma_from_view(v: HandView)
        requires
            v.within_deal(),
        ensures
            Hand::from_view(v)@ == v,
    {
    }

    /// Two hands with the same cards are the same hand.
    pub proof fn lemma_view_decides(a: Hand, b: Hand)
        requires
            a@ == b@,
        ensures
            a == b,
    {
    }

    /// A full hand: the skull and three flowers.
    pub fn new() -> (hand: Hand)
        ensures
            hand@ == (HandView { skull: true, flowers: 3 }),
    {
        Hand { skull: true, flowers: 3 }
    }

    /// Whether the skull is in the hand.
    pub fn has_skull(&self) -> (b: bool)
        ensures
            b == self@.skull,
    {
        self.skull
    }

    /// Whether a card of the given kind is in the hand.
    pub fn has(&self, other: Card) -> (b: bool)
        ensures
            b == self@.has(other),
    {
        match other {
            Card::Skull => self.has_skull(),
            Card::Flower => self.flowers > 0,
        }
    }

    /// The number of cards in the hand.
    pub fn count(&self) -> (n: u8)
        ensures
            n == self@.count(),
            n <= 4,
    {
        proof {
            use_type_invariant(self);
        }
        if self.skull {
            self.flowers + 1
        } else {
            self.flowers
        }
    }

    /// Whether the hand holds no card.
    pub fn empty(&self) -> (b: bool)
        ensures
            b == (self@.count() == 0),
    {
        self.count() == 0
    }

    /// The cards of the hand, the skull first.
    pub fn as_vec(&self) -> (v: Vec<Card>)
        ensures
            v@ == self@.listing(),
    {
        let mut v: Vec<Card> = Vec::new();
        if self.skull {
            v.push(Card::Skull);
        }
        let ghost head = v@;
        let mut i: u8 = 0;
        while i < self.flowers
            invariant
                i <= self.flowers,
                v@ == head + Seq::new(i as nat, |k: int| Card::Flower),
            decreases self.flowers - i,
        {
            v.push(Card::Flower);
            i = i + 1;
        }
        v
    }

    /// Whether every card of `other` is also in `self`.
    pub fn is_superset_of(&self, other: Hand) -> (b: bool)
        ensures
            b == self@.covers(other@),
    {
        let skull_ok = self.skull == other.skull || (self.skull && !other.skull);
        let flowers_ok = self.flowers >= other.flowers;
        skull_ok && flowers_ok
    }

    /// Takes out of a non-empty hand the card that the draw `pick` falls on.
    pub fn discard_picked(&mut self, pick: u8)
        requires
            old(self)@.count() > 0,
        ensures
            final(self)@ == old(self)@.without(old(self)@.drawn(pick as nat)),
            old(self)@.has(old(self)@.drawn(pick as nat)),
    {
        proof {
            use_type_invariant(&*self);
        }
        if self.skull && self.flowers > 0 {
            if pick == 0 {
                self.skull = false;
            } else {
                self.flowers -= 1;
            }
        } else if self.skull {
            self.skull = false;
        } else {
            self.flowers -= 1;
        }
    }

    /// Takes one card out of a non-empty hand, each card being as likely as any other. The
    /// contract states what holds whichever card was drawn: the hand lost exactly one card
    /// that it held.
    pub fn discard_one(&mut self, rng: &mut ThreadRng)
        requires
            old(self)@.count() > 0,
        ensures
            old(self)@.lost_one(final(self)@),
    {
        if self.skull && self.flowers > 0 {
            let pick = pick_below(rng, self.count());
            self.discard_picked(pick);
        } else {
            self.discard_picked(0);
        }
    }

    /// Whether the hand is one that could have been dealt.
    pub fn is_valid(&self) -> (b: bool)
        ensures
            b == self@.within_deal(),
    {
        self.flowers < 4
    }
}

impl HandView {
    /// `after` is `self` with exactly one card, which `self` held, taken out.
    pub open spec fn lost_one(self, after: HandView) -> bool {
        ||| self.has(Card::Skull) && after == self.without(Card::Skull)
        ||| self.has(Card::Flower) && after == self.without(Card::Flower)
    }
}

impl Default for Hand {
    /// The empty hand.
    fn default() -> (hand: Hand)
        ensures
            hand@ == (HandView { skull: false, flowers: 0 }),
    {
        Hand { skull: false, flowers: 0 }
    }
}

impl<'a> TryFrom<&'a [Card]> for Hand {
    type Error = HandError;

    /// Gathers the cards of `value` into a hand, or says which card was one too many.
    fn try_from(value: &'a [Card]) -> (r: Result<Hand, HandError>)
        ensures
            r == tally(value@),
            r is Ok <==> fits_one_hand(value@),
            r matches Ok(hand) ==> hand@ == HandView::of_cards(value@),
    {
        let mut skull = false;
        let mut flowers: u8 = 0;
        let mut i: usize = 0;
        while i < value.len()
            invariant
                i <= value.len(),
                flowers <= 3,
                tally(value@.take(i as int)) == Ok::<Hand, HandError>(Hand { skull, flowers }),
            decreases value.len() - i,
        {
            proof {
                assert(value@.take(i + 1).drop_last() =~= value@.take(i as int));
            }
            match value[i] {
                Card::Skull => {
                    if !skull {
                        skull = true;
                    } else {
                        proof {
                            lemma_tally_error_stays(value@, i + 1);
                            lemma_tally_counts(value@);
                        }
                        return Err(HandError::MultipleSkulls);
                    }
                },
                Card::Flower => {
                    if flowers < 3 {
                        flowers += 1;
                    } else {
                        proof {
                            lemma_tally_error_stays(value@, i + 1);
                            lemma_tally_counts(value@);
                        }
                        return Err(HandError::TooManyFlowers);
                    }
                },
            }
            i = i + 1;
        }
        proof {
            assert(value@.take(i as int) =~= value@);
            lemma_tally_counts(value@);
        }
        Ok(Hand { skull, flowers })
    }
}

impl<'a> TryFromSpecImpl<&'a [Card]> for Hand {
    open spec fn obeys_try_from_spec() -> bool {
        true
    }

    open spec fn try_from_spec(v: &'a [Card]) -> Result<Hand, HandError> {
        tally(v@)
    }
}

impl<const N: usize> TryFrom<[Card; N]> for Hand {
    type Error = HandError;

    /// Gathers the cards of `value` into a hand, or says which card was one too many.
    fn try_from(value: [Card; N]) -> (r: Result<Hand, HandError>)
        ensures
            r == tally(value@),
            r is Ok <==> fits_one_hand(value@),
            r matches Ok(hand) ==> hand@ == HandView::of_cards(value@),
    {
        Hand::try_from(value.as_slice())
    }
}

impl<const N: usize> TryFromSpecImpl<[Card; N]> for Hand {
    open spec fn obeys_try_from_spec() -> bool {
        true
    }

    open spec fn try_from_spec(v: [Card; N]) -> Result<Hand, HandError> {
        tally(v@)
    }
}

/// What `lhs - rhs` gives: the cards of `lhs` that are not in `rhs`, or an error that
/// carries both hands when `rhs` holds a card that `lhs` lacks.
pub open spec fn difference(lhs: Hand, rhs: Hand) -> Result<Hand, HandError> {
    if lhs@.covers(rhs@) {
        Ok(Hand::from_view(lhs@.minus(rhs@)))
    } else {
        Err(HandError::RhsNotSubset(lhs, rhs))
    }
}

/// What `lhs - cards` gives: the error of the conversion if `cards` make no hand, else the
/// difference of the two hands.
pub open spec fn difference_of_cards(lhs: Hand, cards: Seq<Card>) -> Result<Hand, HandError> {
    match tally(cards) {
        Ok(rhs) => difference(lhs, rhs),
        Err(e) => Err(e),
    }
}

impl Sub<Hand> for Hand {
    type Output = Result<Hand, HandError>;

    /// Set difference of two hands.
    fn sub(self, rhs: Hand) -> (r: Result<Hand, HandError>)
        ensures
            r == difference(self, rhs),
    {
        proof {
            use_type_invariant(&self);
            use_type_invariant(&rhs);
        }
        if !self.is_superset_of(rhs) {
            Err(HandError::RhsNotSubset(self, rhs))
        } else {
            let skull = self.skull && !rhs.skull;
            let flowers = self.flowers - rhs.flowers;
            Ok(Hand { skull, flowers })
        }
    }
}

impl SubSpecImpl<Hand> for Hand {
    open spec fn obeys_sub_spec() -> bool {
        true
    }

    open spec fn sub_req(self, rhs: Hand) -> bool {
        true
    }

    open spec fn sub_spec(self, rhs: Hand) -> Result<Hand, HandError> {
        difference(self, rhs)
    }
}

impl<'a> Sub<&'a [Card]> for Hand {
    type Output = Result<Hand, HandError>;

    /// Set difference of a hand and the hand that the cards of `rhs` make.
    fn sub(self, rhs: &'a [Card]) -> (r: Result<Hand, HandError>)
        ensures
            r == difference_of_cards(self, rhs@),
    {
        match Hand::try_from(rhs) {
            Ok(rhs) => self - rhs,
            Err(e) => Err(e),
        }
    }
}

impl<'a> SubSpecImpl<&'a [Card]> for Hand {
    open spec fn obeys_sub_spec() -> bool {
        true
    }

    open spec fn sub_req(self, rhs: &'a [Card]) -> bool {
        true
    }

    open spec fn sub_spec(self, rhs: &'a [Card]) -> Result<Hand, HandError> {
        difference_of_cards(self, rhs@)
    }
}

/// Once a prefix of `s` has failed, the whole of `s` fails with the same error.
pub proof fn lemma_tally_error_stays(s: Seq<Card>, k: int)
    requires
        0 <= k <= s.len(),
        tally(s.take(k)) is Err,
    ensures
        tally(s) == tally(s.take(k)),
    decreases s.len() - k,
{
    if k < s.len() {
        assert(s.take(k + 1).drop_last() =~= s.take(k));
        lemma_tally_error_stays(s, k + 1);
    } else {
        assert(s.take(k) =~= s);
    }
}

} // verus!
