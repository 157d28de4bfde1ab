use goofy_animals::{split_lines, GoofyAnimals, WordListError};

#[test]
fn split_lines_gives_one_word_per_line() {
    assert_eq!(split_lines("dove\npolar bear\nclownfish"), vec!["dove", "polar bear", "clownfish"]);
}

#[test]
fn split_lines_of_a_text_without_line_feed_is_the_text() {
    assert_eq!(split_lines("dove"), vec!["dove"]);
}

#[test]
fn split_lines_of_the_empty_text_is_one_empty_line() {
    assert_eq!(split_lines(""), vec![""]);
}

#[test]
fn split_lines_keeps_a_trailing_empty_line() {
    assert_eq!(split_lines("healthy\nfrivolous\n"), vec!["healthy", "frivolous", ""]);
    assert_eq!(split_lines("\n"), vec!["", ""]);
}

#[test]
fn split_lines_keeps_empty_lines_between() {
    assert_eq!(split_lines("a\n\nb"), vec!["a", "", "b"]);
    assert_eq!(split_lines("\na"), vec!["", "a"]);
}

#[test]
fn split_lines_leaves_carriage_returns_in_place() {
    assert_eq!(split_lines("a\r\nb"), vec!["a\r", "b"]);
}

#[test]
fn split_lines_counts_characters_not_bytes() {
    assert_eq!(split_lines("zèbre\nâne\nœil vif"), vec!["zèbre", "âne", "œil vif"]);
    assert_eq!(split_lines("é\n"), vec!["é", ""]);
}

#[test]
fn split_lines_joined_again_is_the_text() {
    for text in ["", "a", "a\nb", "a\n", "\n\n", "healthy\nfrivolous\ndove", "é\nç\n"] {
        assert_eq!(split_lines(text).join("\n"), text);
    }
}

#[test]
fn a_text_that_ends_in_a_line_feed_makes_no_store() {
    let animals = split_lines("dove\npolar bear\n");
    let adjectives = split_lines("healthy\nfrivolous");
    assert_eq!(
        GoofyAnimals::new(&animals, &adjectives).err(),
        Some(WordListError::TrailingNewlineInAnimals)
    );
    let animals = split_lines("dove\npolar bear");
    let adjectives = split_lines("healthy\nfrivolous\n");
    assert_eq!(
        GoofyAnimals::new(&animals, &adjectives).err(),
        Some(WordListError::TrailingNewlineInAdjectives)
    );
}

#[test]
fn an_empty_text_makes_no_store() {
    let animals = split_lines("");
    let adjectives = split_lines("healthy\nfrivolous");
    assert_eq!(
        GoofyAnimals::new(&animals, &adjectives).err(),
        Some(WordListError::TrailingNewlineInAnimals)
    );
}

#[test]
fn texts_of_whole_lines_make_a_store() {
    let animals = split_lines("dove\npolar bear");
    let adjectives = split_lines("healthy\nfrivolous\nglorious");
    let store = GoofyAnimals::new(&animals, &adjectives).ok().unwrap();
    assert_eq!(store.get_animals(), &["dove", "polar bear"]);
    assert_eq!(store.get_adjectives(), &["healthy", "frivolous", "glorious"]);
}
