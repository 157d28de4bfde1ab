//! A one-line description of a store: how many words it holds, not which.

use crate::store::{GoofyAnimals, WordLists};
use vstd::prelude::*;
use vstd::string::StringExecFns;

verus! {

/// The character that stands for a digit below ten.
pub open spec fn digit_char(digit: nat) -> char {
    if digit == 0 {
        '0'
    } else if digit == 1 {
        '1'
    } else if digit == 2 {
        '2'
    } else if digit == 3 {
        '3'
    } else if digit == 4 {
        '4'
    } else if digit == 5 {
        '5'
    } else if digit == 6 {
        '6'
    } else if digit == 7 {
        '7'
    } else if digit == 8 {
        '8'
    } else {
        '9'
    }
}

/// A number in decimal, without sign or leading zeros.
pub open spec fn decimal_of(number: nat) -> Seq<char>
    decreases number,
{
    if number < 10 {
        seq![digit_char(number)]
    } else {
        decimal_of(number / 10).push(digit_char(number % 10))
    }
}

impl WordLists {
    /// The description of lists of these sizes.
    pub open spec fn summary(self) -> Seq<char> {
        "GoofyAnimals { total_adjectives: "@ + decimal_of(self.adjectives.len())
            + ", total_animals: "@ + decimal_of(self.animals.len()) + " }"@
    }
}

fn digit_text(digit: usize) -> (text: &'static str)
    requires
        digit < 10,
    ensures
        text@ == seq![digit_char(digit as nat)],
{
    proof {
        reveal_strlit("0");
        reveal_strlit("1");
        reveal_strlit("2");
        reveal_strlit("3");
        reveal_strlit("4");
        reveal_strlit("5");
        reveal_strlit("6");
        reveal_strlit("7");
        reveal_strlit("8");
        reveal_strlit("9");
    }
    let text = if digit == 0 {
        "0"
    } else if digit == 1 {
        "1"
    } else if digit == 2 {
        "2"
    } else if digit == 3 {
        "3"
    } else if digit == 4 {
        "4"
    } else if digit == 5 {
        "5"
    } else if digit == 6 {
        "6"
    } else if digit == 7 {
        "7"
    } else if digit == 8 {
        "8"
    } else {
        "9"
    };
    assert(text@ =~= seq![digit_char(digit as nat)]);
    text
}

/// Writes a number in decimal.
pub fn decimal(number: usize) -> (text: String)
    ensures
        text@ == decimal_of(number as nat),
    decreases number,
{
    if number < 10 {
        String::from_str(digit_text(number))
    } else {
        let mut text = decimal(number / 10);
        text.append(digit_text(number % 10));
        assert(text@ =~= decimal_of(number as nat));
        text
    }
}

impl<'a> GoofyAnimals<'a> {
    /// Describes the store by the sizes of its lists:
    /// `GoofyAnimals { total_adjectives: 1300, total_animals: 355 }`.
    pub fn summary(&self) -> (text: String)
        ensures
            text@ == self@.summary(),
    {
        let adjectives = decimal(self.get_adjectives().len());
        let animals = decimal(self.get_animals().len());
        let mut text = String::from_str("GoofyAnimals { total_adjectives: ");
        text.append(adjectives.as_str());
        text.append(", total_animals: ");
        text.append(animals.as_str());
        text.append(" }");
        text
    }
}

} // verus!
