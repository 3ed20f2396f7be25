//! A 52-card deck that is shuffled once per round and dealt from the top.

use rand::seq::SliceRandom;
use vstd::prelude::*;

verus! {

/// Number of cards in a deck.
pub const DECK_SIZE: usize = 52;

/// An ordered deck with a cursor pointing at the next card to deal.
#[derive(Debug, Clone)]
pub struct Deck {
    pub next_card_index: i32,
    pub cards: Vec<i32>,
}

/// Mathematical model of a deck: the card order and the cursor.
#[verifier::ext_equal]
pub struct DeckView {
    pub cards: Seq<i32>,
    pub next: int,
}

impl View for Deck {
    type V = DeckView;

    open spec fn view(&self) -> DeckView {
        DeckView { cards: self.cards@, next: self.next_card_index as int }
    }
}

/// The factory order `0, 1, ..., 51`.
pub open spec fn fresh_cards() -> Seq<i32> {
    Seq::new(52, |i: int| i as i32)
}

impl DeckView {
    /// The deck holds each of the 52 cards exactly once and the cursor is
    /// within bounds.
    pub open spec fn wf(self) -> bool {
        &&& self.cards.len() == 52
        &&& 0 <= self.next <= 52
        &&& self.cards.to_multiset() == fresh_cards().to_multiset()
    }

    /// The deck can be dealt from: it has 52 places, each holds one of the
    /// cards `0..=51`, and the cursor is within bounds.
    pub open spec fn dealable(self) -> bool {
        &&& self.cards.len() == 52
        &&& 0 <= self.next <= 52
        &&& forall|i: int| 0 <= i < 52 ==> 0 <= #[trigger] self.cards[i] <= 51
    }

    /// Number of cards that can still be dealt.
    pub open spec fn remaining(self) -> int {
        52 - self.next
    }

    /// The deck after dealing `n` cards.
    pub open spec fn advance(self, n: int) -> DeckView {
        DeckView { cards: self.cards, next: self.next + n }
    }

    /// The `k`-th card that will be dealt from now on.
    pub open spec fn upcoming(self, k: int) -> i32 {
        self.cards[self.next + k]
    }
}

/// Every card of a well-formed deck is one of `0..=51`.
pub proof fn lemma_deck_cards_in_range(d: DeckView, i: int)
    requires
        d.wf(),
        0 <= i < 52,
    ensures
        0 <= d.cards[i] <= 51,
{
    let c = d.cards[i];
    d.cards.to_multiset_ensures();
    fresh_cards().to_multiset_ensures();
    assert(d.cards.contains(c));
    assert(fresh_cards().to_multiset().count(c) > 0);
    assert(fresh_cards().contains(c));
    let j = choose|j: int| 0 <= j < fresh_cards().len() && fresh_cards()[j] == c;
    assert(fresh_cards()[j] == j as i32);
}

/// A well-formed deck can be dealt from.
pub proof fn lemma_wf_dealable(d: DeckView)
    requires
        d.wf(),
    ensures
        d.dealable(),
{
    assert forall|i: int| 0 <= i < 52 implies 0 <= #[trigger] d.cards[i] <= 51 by {
        lemma_deck_cards_in_range(d, i);
    }
}

/// Rearranging the cards of a deck that can be dealt from gives cards that
/// can be dealt from.
pub proof fn lemma_rearranged_dealable(before: Seq<i32>, after: Seq<i32>)
    requires
        before.len() == 52,
        forall|i: int| 0 <= i < 52 ==> 0 <= #[trigger] before[i] <= 51,
        after.to_multiset() == before.to_multiset(),
    ensures
        after.len() == 52,
        forall|i: int| 0 <= i < 52 ==> 0 <= #[trigger] after[i] <= 51,
{
    before.to_multiset_ensures();
    after.to_multiset_ensures();
    assert forall|i: int| 0 <= i < 52 implies 0 <= #[trigger] after[i] <= 51 by {
        assert(after.contains(after[i]));
        assert(before.to_multiset().count(after[i]) > 0);
        assert(before.contains(after[i]));
        let j = choose|j: int| 0 <= j < before.len() && before[j] == after[i];
        assert(0 <= before[j] <= 51);
    }
}

/// Calls `rand::seq::SliceRandom::shuffle` on the cards with the thread-local
/// generator `rand::rng()`. The shuffle only swaps elements of the slice, so
/// the result holds the same cards, each as often as before; which order
/// comes out is left open.
#[verifier::external_body]
fn shuffle_cards(cards: &mut Vec<i32>)
    ensures
        final(cards)@.len() == old(cards)@.len(),
        final(cards)@.to_multiset() == old(cards)@.to_multiset(),
{
    cards.shuffle(&mut rand::rng());
}

impl Deck {
    /// A fresh deck in factory order with the cursor at the top.
    pub fn new() -> (deck: Deck)
        ensures
            deck@.cards == fresh_cards(),
            deck@.next == 0,
            deck@.wf(),
            deck@.dealable(),
    {
        let mut cards: Vec<i32> = Vec::new();
        let mut c: i32 = 0;
        while c < 52
            invariant
                0 <= c <= 52,
                cards@.len() == c,
                forall|i: int| 0 <= i < c ==> cards@[i] == i as i32,
            decreases 52 - c,
        {
            cards.push(c);
            c = c + 1;
        }
        assert(cards@ =~= fresh_cards());
        let deck = Deck { next_card_index: 0, cards };
        proof {
            lemma_wf_dealable(deck@);
        }
        deck
    }

    /// Puts the cards in a random order and resets the cursor.
    pub fn shuffle(&mut self)
        ensures
            final(self)@.next == 0,
            final(self)@.cards.len() == old(self)@.cards.len(),
            final(self)@.cards.to_multiset() == old(self)@.cards.to_multiset(),
            old(self)@.cards.to_multiset() == fresh_cards().to_multiset() ==> final(self)@.wf(),
            old(self)@.dealable() ==> final(self)@.dealable(),
    {
        shuffle_cards(&mut self.cards);
        self.next_card_index = 0;
        proof {
            if old(self)@.cards.to_multiset() == fresh_cards().to_multiset() {
                old(self)@.cards.to_multiset_ensures();
                self.cards@.to_multiset_ensures();
                fresh_cards().to_multiset_ensures();
            }
            if old(self)@.dealable() {
                lemma_rearranged_dealable(old(self)@.cards, self.cards@);
            }
        }
    }

    /// Whether the deck can be dealt from: 52 places, each holding one of
    /// the cards `0..=51`, and the cursor within bounds.
    pub fn is_dealable(&self) -> (ok: bool)
        ensures
            ok == self@.dealable(),
    {
        if self.cards.len() != 52 || self.next_card_index < 0 || self.next_card_index > 52 {
            return false;
        }
        let mut i: usize = 0;
        while i < 52
            invariant
                0 <= i <= 52,
                self.cards@.len() == 52,
                forall|j: int| 0 <= j < i ==> 0 <= #[trigger] self.cards@[j] <= 51,
            decreases 52 - i,
        {
            if self.cards[i] < 0 || self.cards[i] > 51 {
                return false;
            }
            i = i + 1;
        }
        true
    }

    /// Deals the card under the cursor and moves the cursor on.
    pub fn deal(&mut self) -> (card: i32)
        requires
            0 <= old(self)@.next < old(self)@.cards.len(),
            old(self)@.next < i32::MAX,
        ensures
            card == old(self)@.cards[old(self)@.next],
            final(self)@ == old(self)@.advance(1),
    {
        let card = self.cards[self.next_card_index as usize];
        self.next_card_index += 1;
        card
    }
}


} // verus!
