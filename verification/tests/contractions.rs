use wetext_rs::fix_contractions;

#[test]
fn contractions_are_expanded() {
    assert_eq!(fix_contractions("I don't have $100"), "I do not have $100");
    assert_eq!(fix_contractions("they're sure it's fine"), "they are sure it is fine");
}

#[test]
fn capitalized_contractions_stay_capitalized() {
    assert_eq!(fix_contractions("Can't stop. Won't stop."), "Cannot stop. Will not stop.");
    assert_eq!(fix_contractions("DON'T"), "Do not");
    assert_eq!(fix_contractions("I'm here"), "I am here");
}

#[test]
fn unknown_words_with_apostrophes_stay() {
    assert_eq!(fix_contractions("rock'n'roll and John's car"), "rock'n'roll and John's car");
}

#[test]
fn text_without_apostrophes_is_unchanged() {
    assert_eq!(fix_contractions("do not panic, 42 times"), "do not panic, 42 times");
    assert_eq!(fix_contractions(""), "");
}
