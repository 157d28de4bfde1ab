//! The word store: two lists of words, and the conditions under which names
//! can be drawn from them.

use vstd::prelude::*;

verus! {

/// The words of a list, each as its sequence of characters.
pub open spec fn words(list: Seq<&str>) -> Seq<Seq<char>> {
    Seq::new(list.len(), |i: int| list[i]@)
}

/// What a store holds: the two lists, in index order.
pub ghost struct WordLists {
    pub animals: Seq<Seq<char>>,
    pub adjectives: Seq<Seq<char>>,
}

/// Why a pair of lists was turned down.
#[derive(Clone, Copy, Debug, PartialEq, Eq, Structural)]
pub enum WordListError {
    /// There is no animal.
    EmptyAnimals,
    /// There are fewer than two adjectives, so no two distinct ones.
    TooFewAdjectives,
    /// The last animal is the empty word.
    TrailingNewlineInAnimals,
    /// The last adjective is the empty word.
    TrailingNewlineInAdjectives,
}

impl WordListError {
    /// What is wrong, in words.
    pub fn message(&self) -> (text: &'static str)
        ensures
            text@ == match *self {
                WordListError::EmptyAnimals => "empty animals"@,
                WordListError::TooFewAdjectives => "must have at least two adjectives"@,
                WordListError::TrailingNewlineInAnimals => "trailing newline in animals"@,
                WordListError::TrailingNewlineInAdjectives => "trailing newline in adjectives"@,
            },
    {
        match self {
            WordListError::EmptyAnimals => "empty animals",
            WordListError::TooFewAdjectives => "must have at least two adjectives",
            WordListError::TrailingNewlineInAnimals => "trailing newline in animals",
            WordListError::TrailingNewlineInAdjectives => "trailing newline in adjectives",
        }
    }
}

/// The first defect of a pair of lists, in the order in which they are looked
/// for, or `None` where there is none.
pub open spec fn first_defect(animals: Seq<Seq<char>>, adjectives: Seq<Seq<char>>) -> Option<
    WordListError,
> {
    if animals.len() < 1 {
        Some(WordListError::EmptyAnimals)
    } else if adjectives.len() < 2 {
        Some(WordListError::TooFewAdjectives)
    } else if animals.last().len() == 0 {
        Some(WordListError::TrailingNewlineInAnimals)
    } else if adjectives.last().len() == 0 {
        Some(WordListError::TrailingNewlineInAdjectives)
    } else {
        None
    }
}

/// A store of animals and adjectives from which names are drawn.
pub struct GoofyAnimals<'a> {
    animals: &'a [&'a str],
    adjectives: &'a [&'a str],
}

impl<'a> View for GoofyAnimals<'a> {
    type V = WordLists;

    closed spec fn view(&self) -> WordLists {
        WordLists { animals: words(self.animals@), adjectives: words(self.adjectives@) }
    }
}

impl WordLists {
    /// At least one animal, at least two adjectives, and neither list ends in
    /// the empty word.
    pub open spec fn valid(self) -> bool {
        &&& self.animals.len() >= 1
        &&& self.adjectives.len() >= 2
        &&& self.animals.last().len() > 0
        &&& self.adjectives.last().len() > 0
    }
}

impl<'a> GoofyAnimals<'a> {
    /// Builds a store from the two lists, or says what is wrong with them.
    pub fn new(animals: &'a [&'a str], adjectives: &'a [&'a str]) -> (result: Result<
        Self,
        WordListError,
    >)
        ensures
            result is Ok <==> (WordLists {
                animals: words(animals@),
                adjectives: words(adjectives@),
            }).valid(),
            match result {
                Ok(store) => store@.animals == words(animals@) && store@.adjectives == words(
                    adjectives@,
                ),
                Err(error) => first_defect(words(animals@), words(adjectives@)) == Some(error),
            },
    {
        let total_animals: usize = animals.len();
        let total_adjectives: usize = adjectives.len();
        if total_animals < 1 {
            return Err(WordListError::EmptyAnimals);
        }
        if total_adjectives < 2 {
            return Err(WordListError::TooFewAdjectives);
        }
        if animals[total_animals - 1].is_empty() {
            return Err(WordListError::TrailingNewlineInAnimals);
        }
        if adjectives[total_adjectives - 1].is_empty() {
            return Err(WordListError::TrailingNewlineInAdjectives);
        }
        Ok(Self::new_unchecked(animals, adjectives))
    }

    /// Builds a store from the two lists as they are, valid or not.
    pub fn new_unchecked(animals: &'a [&'a str], adjectives: &'a [&'a str]) -> (store: Self)
        ensures
            store@.animals == words(animals@),
            store@.adjectives == words(adjectives@),
    {
        Self { animals, adjectives }
    }

    /// The animals, in index order.
    pub fn get_animals(&self) -> (animals: &'a [&'a str])
        ensures
            words(animals@) == self@.animals,
    {
        self.animals
    }

    /// The adjectives, in index order.
    pub fn get_adjectives(&self) -> (adjectives: &'a [&'a str])
        ensures
            words(adjectives@) == self@.adjectives,
    {
        self.adjectives
    }
}

/// Lists are valid exactly where they have no defect.
pub proof fn lemma_valid_means_no_defect(lists: WordLists)
    ensures
        lists.valid() <==> first_defect(lists.animals, lists.adjectives) is None,
{
}

} // verus!
