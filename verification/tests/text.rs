use minreq::text::{characters, find, same, trim, white_space};

#[test]
fn white_space_is_that_of_unicode() {
    for c in '\0'..=char::MAX {
        assert_eq!(white_space(c), c.is_whitespace(), "{:?}", c);
    }
}

#[test]
fn trim_takes_white_space_off_both_ends() {
    let texts = [
        "",
        " ",
        "\t \r\n",
        "a",
        " a",
        "a ",
        "  a b  ",
        "\u{a0}chunked\u{3000}",
        "\u{200b}a",
    ];
    for text in texts.iter() {
        assert_eq!(trim(text), text.trim());
    }
}

#[test]
fn characters_are_found_by_index() {
    let chars = characters("é: b: c");
    assert_eq!(chars.len(), 7);
    assert_eq!(find(&chars, 0, ':'), 1);
    assert_eq!(find(&chars, 2, ':'), 4);
    assert_eq!(find(&chars, 5, ':'), 7);
    assert_eq!(find(&chars, 7, ':'), 7);
}

#[test]
fn texts_are_compared() {
    assert!(same("chunked", "chunked"));
    assert!(!same("chunked", "Chunked"));
    assert!(!same("chunked", "chunke"));
    assert!(same("", ""));
}
