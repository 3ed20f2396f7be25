//! The text that shows a player's hand.

use crate::cards::{card_name, translate_card};
use vstd::prelude::*;
use vstd::string::StringExecFns;

verus! {

/// The character of a decimal digit.
pub open spec fn digit_char(d: int) -> char {
    if d == 0 {
        '0'
    } else if d == 1 {
        '1'
    } else if d == 2 {
        '2'
    } else if d == 3 {
        '3'
    } else if d == 4 {
        '4'
    } else if d == 5 {
        '5'
    } else if d == 6 {
        '6'
    } else if d == 7 {
        '7'
    } else if d == 8 {
        '8'
    } else {
        '9'
    }
}

/// A number written in decimal digits.
pub open spec fn decimal_text(n: nat) -> Seq<char>
    decreases n,
{
    if n < 10 {
        seq![digit_char(n as int)]
    } else {
        decimal_text(n / 10).push(digit_char((n % 10) as int))
    }
}

/// The first `upto` lines of the text for a hand: each card on a line of
/// its own, after its number and a dot.
pub open spec fn hand_lines(hand: Seq<i32>, upto: int) -> Seq<char>
    decreases upto,
{
    if upto <= 0 {
        Seq::empty()
    } else {
        hand_lines(hand, upto - 1) + decimal_text(upto as nat) + ". "@ + card_name(hand[upto - 1])
            + "\n"@
    }
}

/// The text that shows a hand to its player.
pub open spec fn hand_message(hand: Seq<i32>) -> Seq<char> {
    "Your hand:\n"@ + hand_lines(hand, hand.len() as int)
}

fn digit_text(d: usize) -> (s: &'static str)
    requires
        d < 10,
    ensures
        s@ == seq![digit_char(d as int)],
{
    proof {
        reveal_strlit("0");
        reveal_strlit("1");
        reveal_strlit("2");
        reveal_strlit("3");
        reveal_strlit("4");
        reveal_strlit("5");
        reveal_strlit("6");
        reveal_strlit("7");
        reveal_strlit("8");
        reveal_strlit("9");
    }
    let s = if d == 0 {
        "0"
    } else if d == 1 {
        "1"
    } else if d == 2 {
        "2"
    } else if d == 3 {
        "3"
    } else if d == 4 {
        "4"
    } else if d == 5 {
        "5"
    } else if d == 6 {
        "6"
    } else if d == 7 {
        "7"
    } else if d == 8 {
        "8"
    } else {
        "9"
    };
    assert(s@ =~= seq![digit_char(d as int)]);
    s
}

/// Writes a number in decimal digits.
pub fn decimal(n: usize) -> (text: String)
    ensures
        text@ == decimal_text(n as nat),
    decreases n,
{
    if n < 10 {
        digit_text(n).to_string()
    } else {
        let mut text = decimal(n / 10);
        text.append(digit_text(n % 10));
        assert(text@ =~= decimal_text((n / 10) as nat).push(digit_char((n % 10) as int)));
        text
    }
}

/// The text that shows each of the hands to its player: `Your hand:` and
/// then the cards, numbered from one, each on a line of its own.
pub fn display_hand(players_hands: &Vec<Vec<i32>>) -> (messages: Vec<String>)
    ensures
        messages@.len() == players_hands@.len(),
        forall|i: int|
            0 <= i < messages@.len() ==> (#[trigger] messages@[i])@ == hand_message(
                players_hands@[i]@,
            ),
{
    let mut messages: Vec<String> = Vec::new();
    let mut index: usize = 0;
    while index < players_hands.len()
        invariant
            0 <= index <= players_hands@.len(),
            messages@.len() == index,
            forall|i: int|
                0 <= i < index ==> (#[trigger] messages@[i])@ == hand_message(players_hands@[i]@),
        decreases players_hands@.len() - index,
    {
        let hand = &players_hands[index];
        let mut message = "Your hand:\n".to_string();
        let mut count: usize = 0;
        while count < hand.len()
            invariant
                0 <= count <= hand@.len(),
                message@ == "Your hand:\n"@ + hand_lines(hand@, count as int),
            decreases hand@.len() - count,
        {
            let ghost before = message@;
            message.append(decimal(count + 1).as_str());
            message.append(". ");
            message.append(translate_card(hand[count]).as_str());
            message.append("\n");
            assert(message@ =~= "Your hand:\n"@ + hand_lines(hand@, count + 1));
            count = count + 1;
        }
        messages.push(message);
        index = index + 1;
    }
    messages
}

} // verus!
