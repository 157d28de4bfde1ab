use goofy_animals::summary::decimal;
use goofy_animals::{GoofyAnimals, WordListError};

#[test]
fn decimal_writes_single_digits() {
    let digits = ["0", "1", "2", "3", "4", "5", "6", "7", "8", "9"];
    for (number, digit) in digits.iter().enumerate() {
        assert_eq!(decimal(number), *digit);
    }
}

#[test]
fn decimal_writes_numbers_of_several_digits() {
    assert_eq!(decimal(10), "10");
    assert_eq!(decimal(355), "355");
    assert_eq!(decimal(1300), "1300");
    assert_eq!(decimal(9070), "9070");
    assert_eq!(decimal(usize::MAX), usize::MAX.to_string());
}

#[test]
fn summary_gives_the_sizes_of_the_lists() {
    let animals = ["dove", "polar bear", "clownfish"];
    let adjectives = ["healthy", "frivolous"];
    let store = GoofyAnimals::new(&animals, &adjectives).ok().unwrap();
    assert_eq!(store.summary(), "GoofyAnimals { total_adjectives: 2, total_animals: 3 }");
}

#[test]
fn summary_of_empty_lists() {
    let none: [&str; 0] = [];
    let store = GoofyAnimals::new_unchecked(&none, &none);
    assert_eq!(store.summary(), "GoofyAnimals { total_adjectives: 0, total_animals: 0 }");
}

#[test]
fn summary_of_long_lists() {
    let animals = vec!["dove"; 355];
    let adjectives: Vec<String> = (0..1300).map(|i| format!("adjective{i}")).collect();
    let adjectives: Vec<&str> = adjectives.iter().map(|word| word.as_str()).collect();
    let store = GoofyAnimals::new(&animals, &adjectives).ok().unwrap();
    assert_eq!(store.summary(), "GoofyAnimals { total_adjectives: 1300, total_animals: 355 }");
}

#[test]
fn messages_name_the_defect() {
    assert_eq!(WordListError::EmptyAnimals.message(), "empty animals");
    assert_eq!(WordListError::TooFewAdjectives.message(), "must have at least two adjectives");
    assert_eq!(WordListError::TrailingNewlineInAnimals.message(), "trailing newline in animals");
    assert_eq!(
        WordListError::TrailingNewlineInAdjectives.message(),
        "trailing newline in adjectives"
    );
}
