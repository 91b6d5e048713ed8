use vstd::prelude::*;
use crate::card::Card;

verus! {

/// `heapless::Vec`, a vector of fixed capacity. Nothing inside it is visible here; what it
/// holds is named by `pile_cards` and `flip_marks`.
#[verifier::external_type_specification]
#[verifier::external_body]
#[verifier::reject_recursive_types(T)]
pub struct ExFixedVec<T, const N: usize>(heapless::Vec<T, N>);

/// The cards that a played pile holds, bottom first.
pub uninterp spec fn pile_cards(pile: heapless::Vec<Card, 4>) -> Seq<Card>;

/// The positions that a list of flipped cards holds, in the order in which they were flipped.
pub uninterp spec fn flip_marks(marks: heapless::Vec<usize, 4>) -> Seq<usize>;

/// The cards of each pile of a table, seat by seat.
pub open spec fn piles_of<const N: usize>(piles: [heapless::Vec<Card, 4>; N]) -> Seq<Seq<Card>> {
    Seq::new(N as nat, |i: int| pile_cards(piles[i]))
}

/// The flipped positions of each seat of a table.
pub open spec fn marks_of<const N: usize>(marks: [heapless::Vec<usize, 4>; N]) -> Seq<Seq<usize>> {
    Seq::new(N as nat, |i: int| flip_marks(marks[i]))
}

/// `heapless::Vec::as_slice` for a pile: the initialised part of the buffer, which is the
/// contents in order. A vector of capacity 4 never holds more than 4 items.
#[verifier::external_body]
pub(crate) fn pile_as_slice(pile: &heapless::Vec<Card, 4>) -> (cards: &[Card])
    ensures
        cards@ == pile_cards(*pile),
        cards@.len() <= 4,
{
    pile.as_slice()
}

/// `heapless::Vec::push` for a pile: with room left the item goes on the end and `Ok` comes
/// back; a full vector stays as it is and hands the item back in `Err`.
#[verifier::external_body]
pub(crate) fn pile_push(pile: &mut heapless::Vec<Card, 4>, card: Card) -> (r: Result<(), Card>)
    ensures
        r is Ok <==> pile_cards(*old(pile)).len() < 4,
        r is Ok ==> pile_cards(*final(pile)) == pile_cards(*old(pile)).push(card),
        r matches Err(back) ==> back == card && pile_cards(*final(pile)) == pile_cards(*old(pile)),
{
    pile.push(card)
}

/// An array of vectors that `heapless::Vec::new` made: every pile of the table is empty.
#[verifier::external_body]
pub(crate) fn piles_new<const N: usize>() -> (piles: [heapless::Vec<Card, 4>; N])
    ensures
        forall|i: int| 0 <= i < N ==> pile_cards(#[trigger] piles[i]) == Seq::<Card>::empty(),
{
    core::array::from_fn(|_| heapless::Vec::new())
}

/// `heapless::Vec::new` for a list of flipped positions: a vector that holds nothing.
#[verifier::external_body]
pub(crate) fn marks_new() -> (marks: heapless::Vec<usize, 4>)
    ensures
        flip_marks(marks) == Seq::<usize>::empty(),
{
    heapless::Vec::new()
}

/// `heapless::Vec::as_slice` for a list of flipped positions: the initialised part of the
/// buffer, which is the contents in order. A vector of capacity 4 never holds more than 4
/// items.
#[verifier::external_body]
pub(crate) fn marks_as_slice(marks: &heapless::Vec<usize, 4>) -> (positions: &[usize])
    ensures
        positions@ == flip_marks(*marks),
        positions@.len() <= 4,
{
    marks.as_slice()
}

/// `heapless::Vec::push` for a list of flipped positions: with room left the item goes on the
/// end and `Ok` comes back; a full vector stays as it is and hands the item back in `Err`.
#[verifier::external_body]
pub(crate) fn marks_push(marks: &mut heapless::Vec<usize, 4>, position: usize) -> (r: Result<(), usize>)
    ensures
        r is Ok <==> flip_marks(*old(marks)).len() < 4,
        r is Ok ==> flip_marks(*final(marks)) == flip_marks(*old(marks)).push(position),
        r matches Err(back) ==> back == position && flip_marks(*final(marks)) == flip_marks(*old(marks)),
{
    marks.push(position)
}

/// An array of vectors that `heapless::Vec::new` made: no seat has a flipped card.
#[verifier::external_body]
pub(crate) fn marks_array_new<const N: usize>() -> (marks: [heapless::Vec<usize, 4>; N])
    ensures
        forall|i: int| 0 <= i < N ==> flip_marks(#[trigger] marks[i]) == Seq::<usize>::empty(),
{
    core::array::from_fn(|_| heapless::Vec::new())
}

} // verus!
