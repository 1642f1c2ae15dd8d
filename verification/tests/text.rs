use tictactoe::text::push_integer;
use tictactoe::text::push_spaces;

fn decimal(n: i8) -> String {
    let mut text = String::new();
    push_integer(&mut text, n);
    text
}

#[test]
fn integers_are_written_in_decimal() {
    assert_eq!(decimal(0), "0");
    assert_eq!(decimal(7), "7");
    assert_eq!(decimal(10), "10");
    assert_eq!(decimal(99), "99");
    assert_eq!(decimal(100), "100");
    assert_eq!(decimal(127), "127");
    assert_eq!(decimal(-1), "-1");
    assert_eq!(decimal(-10), "-10");
    assert_eq!(decimal(-105), "-105");
    assert_eq!(decimal(-128), "-128");
}

#[test]
fn every_integer_is_written_as_the_standard_library_writes_it() {
    for n in i8::MIN..=i8::MAX {
        assert_eq!(decimal(n), format!("{}", n));
    }
}

#[test]
fn integers_are_appended() {
    let mut text = String::from("score: ");
    push_integer(&mut text, -10);
    assert_eq!(text, "score: -10");
}

#[test]
fn spaces_are_appended() {
    let mut text = String::from("a");
    push_spaces(&mut text, 0);
    assert_eq!(text, "a");
    push_spaces(&mut text, 4);
    assert_eq!(text, "a    ");
}
