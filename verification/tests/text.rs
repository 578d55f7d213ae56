use lox::text::{chars_of, substring};

#[test]
fn chars_of_lists_every_character() {
    assert_eq!(chars_of(""), Vec::<char>::new());
    assert_eq!(chars_of("a∀é\n"), vec!['a', '∀', 'é', '\n']);
}

#[test]
fn substring_takes_the_characters_between() {
    let chars = chars_of("h∀llo");
    assert_eq!(substring(&chars, 0, 5), "h∀llo");
    assert_eq!(substring(&chars, 1, 3), "∀l");
    assert_eq!(substring(&chars, 2, 2), "");
    assert_eq!(substring(&chars, 5, 5), "");
}
