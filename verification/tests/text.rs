use lcas::text::{chars_of, find_char, string_of};

#[test]
fn characters_come_in_order() {
    assert_eq!(chars_of("a:b\n"), vec!['a', ':', 'b', '\n']);
    assert_eq!(chars_of("é日"), vec!['é', '日']);
    assert!(chars_of("").is_empty());
}

#[test]
fn string_of_a_range() {
    let v = chars_of("name:value");
    assert_eq!(string_of(&v, 0, 4), "name");
    assert_eq!(string_of(&v, 5, 10), "value");
    assert_eq!(string_of(&v, 4, 4), "");
    assert_eq!(string_of(&v, 0, 10), "name:value");
}

#[test]
fn first_occurrence_is_found() {
    let v = chars_of("a:b:c");
    assert_eq!(find_char(&v, 0, 5, ':'), 1);
    assert_eq!(find_char(&v, 2, 5, ':'), 3);
    assert_eq!(find_char(&v, 4, 5, ':'), 5);
    assert_eq!(find_char(&v, 0, 1, ':'), 1);
    assert_eq!(find_char(&v, 0, 5, 'x'), 5);
    assert_eq!(find_char(&v, 3, 3, ':'), 3);
}
