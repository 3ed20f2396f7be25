//! Card encoding: a card is an integer `0..=51`, `rank = card % 13` with
//! 0 for the ace, `suit = card / 13`. A card held face down is stored with
//! an offset of 53.

use vstd::prelude::*;
use vstd::string::StringExecFns;

verus! {

/// Offset added to a card that is held face down.
pub const FACE_DOWN_OFFSET: i32 = 53;

/// Whether `card` names one of the 52 cards.
pub open spec fn is_card(card: int) -> bool {
    0 <= card <= 51
}

/// Rank of a card, 0 for the ace up to 12 for the king: `card % 13`.
/// Outside the 52 cards the remainder truncates towards zero, as the
/// machine's does.
pub open spec fn card_rank(card: int) -> int {
    if card >= 0 {
        card % 13
    } else {
        -((-card) % 13)
    }
}

/// Suit of a card: 0 hearts, 1 diamonds, 2 spades, 3 clubs: `card / 13`,
/// truncating towards zero.
pub open spec fn card_suit(card: int) -> int {
    if card >= 0 {
        card / 13
    } else {
        -((-card) / 13)
    }
}

/// The card with the given rank and suit.
pub open spec fn card_of(rank: int, suit: int) -> int {
    suit * 13 + rank
}

/// Rank used for scoring: the ace counts 13, every other rank counts as is.
pub open spec fn scoring_rank(card: i32) -> i32 {
    if card_rank(card as int) != 0 {
        card_rank(card as int) as i32
    } else {
        13
    }
}

/// Whether the value encodes a card held face down.
pub open spec fn is_face_down(card: int) -> bool {
    card > 52
}

/// The card without its face-down offset.
pub open spec fn face_up(card: i32) -> i32 {
    if card > 52 {
        (card - 53) as i32
    } else {
        card
    }
}

/// Splitting a card into rank and suit and putting it together again are
/// inverse to each other: cards `0..=51` and pairs of a rank `0..=12` and a
/// suit `0..=3` correspond one to one.
pub proof fn lemma_card_rank_suit_bijection(card: int, rank: int, suit: int)
    ensures
        is_card(card) ==> 0 <= card_rank(card) <= 12 && 0 <= card_suit(card) <= 3 && card_of(
            card_rank(card),
            card_suit(card),
        ) == card,
        0 <= rank <= 12 && 0 <= suit <= 3 ==> is_card(card_of(rank, suit)) && card_rank(
            card_of(rank, suit),
        ) == rank && card_suit(card_of(rank, suit)) == suit,
{
}

/// Rank of a card, 0 for the ace up to 12 for the king.
pub fn rank_of(card: i32) -> (rank: i32)
    ensures
        rank == card_rank(card as int),
        -12 <= rank <= 12,
        0 <= card ==> 0 <= rank,
{
    card % 13
}

/// Suit of a card: 0 hearts, 1 diamonds, 2 spades, 3 clubs.
pub fn suit_of(card: i32) -> (suit: i32)
    ensures
        suit == card_suit(card as int),
        is_card(card as int) ==> 0 <= suit <= 3,
{
    card / 13
}

/// Text shown for a rank.
pub open spec fn rank_name(rank: int) -> Seq<char> {
    if rank == 0 {
        "Ace"@
    } else if rank == 1 {
        "2"@
    } else if rank == 2 {
        "3"@
    } else if rank == 3 {
        "4"@
    } else if rank == 4 {
        "5"@
    } else if rank == 5 {
        "6"@
    } else if rank == 6 {
        "7"@
    } else if rank == 7 {
        "8"@
    } else if rank == 8 {
        "9"@
    } else if rank == 9 {
        "10"@
    } else if rank == 10 {
        "Jack"@
    } else if rank == 11 {
        "Queen"@
    } else if rank == 12 {
        "King"@
    } else {
        ""@
    }
}

/// Text shown for a suit, with its leading blank.
pub open spec fn suit_name(suit: int) -> Seq<char> {
    if suit == 0 {
        " Hearts"@
    } else if suit == 1 {
        " Diamond"@
    } else if suit == 2 {
        " Spade"@
    } else if suit == 3 {
        " Club"@
    } else {
        ""@
    }
}

/// Text shown for a card: `X` for a face-down card, else rank and suit.
pub open spec fn card_name(card: i32) -> Seq<char> {
    if card > 52 {
        "X"@
    } else {
        rank_name(card_rank(card as int)) + suit_name(card_suit(card as int))
    }
}

fn rank_label(rank: i32) -> (s: &'static str)
    ensures
        s@ == rank_name(rank as int),
{
    if rank == 0 {
        "Ace"
    } else if rank == 1 {
        "2"
    } else if rank == 2 {
        "3"
    } else if rank == 3 {
        "4"
    } else if rank == 4 {
        "5"
    } else if rank == 5 {
        "6"
    } else if rank == 6 {
        "7"
    } else if rank == 7 {
        "8"
    } else if rank == 8 {
        "9"
    } else if rank == 9 {
        "10"
    } else if rank == 10 {
        "Jack"
    } else if rank == 11 {
        "Queen"
    } else if rank == 12 {
        "King"
    } else {
        ""
    }
}

fn suit_label(suit: i32) -> (s: &'static str)
    ensures
        s@ == suit_name(suit as int),
{
    if suit == 0 {
        " Hearts"
    } else if suit == 1 {
        " Diamond"
    } else if suit == 2 {
        " Spade"
    } else if suit == 3 {
        " Club"
    } else {
        ""
    }
}

/// The text shown to a player for a card: `X` for a face-down card, else the
/// rank followed by the suit, such as `Ace Hearts` or `10 Diamond`.
pub fn translate_card(card: i32) -> (s: String)
    ensures
        s@ == card_name(card),
{
    if card > 52 {
        return "X".to_string();
    }
    let rank: i32 = rank_of(card);
    let suit: i32 = suit_of(card);
    let mut s = rank_label(rank).to_string();
    s.append(suit_label(suit));
    s
}

} // verus!

