use goofy_animals::{GoofyAnimals, WordListError};

#[test]
fn new_accepts_smallest_valid_lists() {
    let animals = ["dove"];
    let adjectives = ["healthy", "frivolous"];
    let store = GoofyAnimals::new(&animals, &adjectives);
    assert!(store.is_ok());
    let store = store.ok().unwrap();
    assert_eq!(store.get_animals(), &["dove"]);
    assert_eq!(store.get_adjectives(), &["healthy", "frivolous"]);
}

#[test]
fn new_rejects_empty_animals() {
    let animals: [&str; 0] = [];
    let adjectives = ["healthy", "frivolous"];
    assert_eq!(
        GoofyAnimals::new(&animals, &adjectives).err(),
        Some(WordListError::EmptyAnimals)
    );
}

#[test]
fn new_rejects_no_adjectives() {
    let animals = ["dove"];
    let adjectives: [&str; 0] = [];
    assert_eq!(
        GoofyAnimals::new(&animals, &adjectives).err(),
        Some(WordListError::TooFewAdjectives)
    );
}

#[test]
fn new_rejects_single_adjective() {
    let animals = ["dove"];
    let adjectives = ["healthy"];
    assert_eq!(
        GoofyAnimals::new(&animals, &adjectives).err(),
        Some(WordListError::TooFewAdjectives)
    );
}

#[test]
fn new_rejects_trailing_empty_animal() {
    let animals = ["dove", ""];
    let adjectives = ["healthy", "frivolous"];
    assert_eq!(
        GoofyAnimals::new(&animals, &adjectives).err(),
        Some(WordListError::TrailingNewlineInAnimals)
    );
}

#[test]
fn new_rejects_trailing_empty_adjective() {
    let animals = ["dove"];
    let adjectives = ["healthy", "frivolous", ""];
    assert_eq!(
        GoofyAnimals::new(&animals, &adjectives).err(),
        Some(WordListError::TrailingNewlineInAdjectives)
    );
}

#[test]
fn new_reports_the_first_defect() {
    let none: [&str; 0] = [];
    assert_eq!(
        GoofyAnimals::new(&none, &none).err(),
        Some(WordListError::EmptyAnimals)
    );
    assert_eq!(
        GoofyAnimals::new(&[""], &["healthy"]).err(),
        Some(WordListError::TooFewAdjectives)
    );
    assert_eq!(
        GoofyAnimals::new(&[""], &["healthy", ""]).err(),
        Some(WordListError::TrailingNewlineInAnimals)
    );
}

#[test]
fn new_accepts_an_empty_word_that_is_not_last() {
    let animals = ["", "dove"];
    let adjectives = ["", "healthy"];
    assert!(GoofyAnimals::new(&animals, &adjectives).is_ok());
}

#[test]
fn new_unchecked_keeps_the_lists_as_they_are() {
    let animals: [&str; 0] = [];
    let adjectives = ["healthy", ""];
    let store = GoofyAnimals::new_unchecked(&animals, &adjectives);
    assert!(store.get_animals().is_empty());
    assert_eq!(store.get_adjectives(), &["healthy", ""]);
}

#[test]
fn getters_keep_index_order() {
    let animals = ["dove", "polar bear", "clownfish"];
    let adjectives = ["healthy", "frivolous", "glorious", "meager"];
    let store = GoofyAnimals::new(&animals, &adjectives).ok().unwrap();
    assert_eq!(store.get_animals().len(), 3);
    assert_eq!(store.get_animals()[1], "polar bear");
    assert_eq!(store.get_adjectives().len(), 4);
    assert_eq!(store.get_adjectives()[3], "meager");
}
