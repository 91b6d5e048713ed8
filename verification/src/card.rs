use vstd::prelude::*;

verus! {

/// A playing card.
#[derive(Debug, Copy, Clone, PartialEq, Eq, Structural)]
pub enum Card {
    Flower,
    Skull,
}

/// How many cards of `s` are skulls.
pub open spec fn skulls(s: Seq<Card>) -> nat
    decreases s.len(),
{
    if s.len() == 0 {
        0
    } else {
        skulls(s.drop_last()) + if s.last() == Card::Skull { 1nat } else { 0nat }
    }
}

/// How many cards of `s` are flowers.
pub open spec fn flowers(s: Seq<Card>) -> nat
    decreases s.len(),
{
    if s.len() == 0 {
        0
    } else {
        flowers(s.drop_last()) + if s.last() == Card::Flower { 1nat } else { 0nat }
    }
}

/// Every card is a skull or a flower, so the two counts add up to the length.
pub proof fn lemma_counts_partition(s: Seq<Card>)
    ensures
        skulls(s) + flowers(s) == s.len(),
    decreases s.len(),
{
    if s.len() > 0 {
        lemma_counts_partition(s.drop_last());
    }
}

/// Appending a card raises the count of its own kind by one and leaves the other alone.
pub proof fn lemma_counts_push(s: Seq<Card>, card: Card)
    ensures
        skulls(s.push(card)) == skulls(s) + if card == Card::Skull { 1nat } else { 0nat },
        flowers(s.push(card)) == flowers(s) + if card == Card::Flower { 1nat } else { 0nat },
{
    assert(s.push(card).drop_last() =~= s);
}

/// A sequence holds a skull exactly when its skull count is positive.
pub proof fn lemma_skulls_positive(s: Seq<Card>)
    ensures
        skulls(s) > 0 <==> s.contains(Card::Skull),
    decreases s.len(),
{
    if s.len() > 0 {
        lemma_skulls_positive(s.drop_last());
        if s.last() == Card::Skull {
            assert(s[s.len() - 1] == Card::Skull);
        } else if s.contains(Card::Skull) {
            let k = choose|k: int| 0 <= k < s.len() && s[k] == Card::Skull;
            assert(s.drop_last()[k] == Card::Skull);
        } else if s.drop_last().contains(Card::Skull) {
            let k = choose|k: int| 0 <= k < s.drop_last().len() && s.drop_last()[k] == Card::Skull;
            assert(s[k] == Card::Skull);
        }
    }
}

} // verus!
