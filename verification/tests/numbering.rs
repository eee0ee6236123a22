use rat::number::{blank_lines, number, number_lines, number_nonblank, push_prefix, LineCounter};

fn owned(text: &str) -> String {
    text.to_string()
}

fn prefix_of(n: u64) -> String {
    let mut out = String::new();
    push_prefix(&mut out, n);
    out
}

#[test]
fn a_new_counter_stands_at_one() {
    let c = LineCounter::new();
    assert_eq!(c.value(), 1);
}

#[test]
fn a_counter_can_go_on_from_a_given_number() {
    let mut c = LineCounter::starting_at(41);
    assert_eq!(c.value(), 41);
    c.advance();
    assert_eq!(c.value(), 42);
}

#[test]
fn has_room_up_to_the_largest_number() {
    let c = LineCounter::starting_at(u64::MAX - 2);
    assert!(c.has_room(0));
    assert!(c.has_room(2));
    assert!(!c.has_room(3));
    let full = LineCounter::starting_at(u64::MAX);
    assert!(full.has_room(0));
    assert!(!full.has_room(1));
    assert!(LineCounter::new().has_room(usize::MAX - 1));
}

#[test]
fn prefix_is_six_columns_and_a_tab() {
    assert_eq!(prefix_of(0), "     0\t");
    assert_eq!(prefix_of(1), "     1\t");
    assert_eq!(prefix_of(9), "     9\t");
    assert_eq!(prefix_of(10), "    10\t");
    assert_eq!(prefix_of(42), "    42\t");
    assert_eq!(prefix_of(12345), " 12345\t");
    assert_eq!(prefix_of(999999), "999999\t");
}

#[test]
fn prefix_is_wider_for_a_number_of_more_than_six_digits() {
    assert_eq!(prefix_of(1000000), "1000000\t");
    assert_eq!(prefix_of(1234567890), "1234567890\t");
    assert_eq!(prefix_of(u64::MAX), "18446744073709551615\t");
}

#[test]
fn prefix_agrees_with_the_formatting_of_std() {
    for n in [0u64, 5, 10, 99, 100, 1001, 99999, 100000, 999999, 1000000, 10000001, u64::MAX] {
        assert_eq!(prefix_of(n), format!("{:6}\t", n));
    }
}

#[test]
fn prefix_is_added_behind_what_is_there() {
    let mut out = owned("x");
    push_prefix(&mut out, 7);
    assert_eq!(out, "x     7\t");
}

#[test]
fn number_numbers_every_line() {
    let mut c = LineCounter::new();
    let out = number(&owned("a\n\nb\n"), &mut c);
    assert_eq!(out, "     1\ta\n     2\t\n     3\tb\n");
    assert_eq!(c.value(), 4);
}

#[test]
fn number_counts_empty_lines() {
    let mut c = LineCounter::new();
    let out = number(&owned("\n\n\n"), &mut c);
    assert_eq!(out, "     1\t\n     2\t\n     3\t\n");
    assert_eq!(c.value(), 4);
}

#[test]
fn number_of_nothing_takes_no_number() {
    let mut c = LineCounter::new();
    assert_eq!(number(&owned(""), &mut c), "");
    assert_eq!(c.value(), 1);
}

#[test]
fn number_ends_an_unended_last_line() {
    let mut c = LineCounter::new();
    assert_eq!(number(&owned("a\nb"), &mut c), "     1\ta\n     2\tb\n");
    assert_eq!(c.value(), 3);
}

#[test]
fn number_takes_a_carriage_return_for_a_character() {
    let mut c = LineCounter::new();
    assert_eq!(number(&owned("a\r\n"), &mut c), "     1\ta\r\n");
}

#[test]
fn number_goes_on_with_the_next_text() {
    let mut c = LineCounter::new();
    let first = number(&owned("a\nb\nc\n"), &mut c);
    assert_eq!(first, "     1\ta\n     2\tb\n     3\tc\n");
    assert_eq!(c.value(), 4);
    let second = number(&owned("d\ne\n"), &mut c);
    assert_eq!(second, "     4\td\n     5\te\n");
    assert_eq!(c.value(), 6);
}

#[test]
fn number_in_two_texts_is_number_in_one() {
    let mut c = LineCounter::new();
    let mut both = number(&owned("a\n\nb\n"), &mut c);
    both.push_str(&number(&owned("\nc\n"), &mut c));
    let mut d = LineCounter::new();
    assert_eq!(both, number(&owned("a\n\nb\n\nc\n"), &mut d));
    assert_eq!(c.value(), d.value());
}

#[test]
fn number_crosses_the_column_width() {
    let mut c = LineCounter::starting_at(999999);
    let out = number(&owned("a\nb\n"), &mut c);
    assert_eq!(out, "999999\ta\n1000000\tb\n");
    assert_eq!(c.value(), 1000001);
}

#[test]
fn number_nonblank_skips_empty_lines() {
    let mut c = LineCounter::new();
    let out = number_nonblank(&owned("a\n\nb\n"), &mut c);
    assert_eq!(out, "     1\ta\n\n     2\tb\n");
    assert_eq!(c.value(), 3);
}

#[test]
fn number_nonblank_takes_no_number_for_empty_lines() {
    let mut c = LineCounter::starting_at(7);
    let out = number_nonblank(&owned("\n\n\n"), &mut c);
    assert_eq!(out, "\n\n\n");
    assert_eq!(c.value(), 7);
}

#[test]
fn number_nonblank_numbers_a_line_of_spaces() {
    let mut c = LineCounter::new();
    let out = number_nonblank(&owned(" \n\n\t\n"), &mut c);
    assert_eq!(out, "     1\t \n\n     2\t\t\n");
    assert_eq!(c.value(), 3);
}

#[test]
fn number_nonblank_goes_on_with_the_next_text() {
    let mut c = LineCounter::new();
    let first = number_nonblank(&owned("a\n\nb\n\n"), &mut c);
    assert_eq!(first, "     1\ta\n\n     2\tb\n\n");
    let second = number_nonblank(&owned("\nc\n"), &mut c);
    assert_eq!(second, "\n     3\tc\n");
    assert_eq!(c.value(), 4);
}

#[test]
fn blank_lines_marks_the_empty_lines() {
    assert_eq!(blank_lines(&owned("a\n\nb\n")), vec![false, true, false]);
    assert_eq!(blank_lines(&owned("")), Vec::<bool>::new());
    assert_eq!(blank_lines(&owned("\n")), vec![true]);
    assert_eq!(blank_lines(&owned("\n\nx")), vec![true, true, false]);
    assert_eq!(blank_lines(&owned("a\n \n")), vec![false, false]);
}

#[test]
fn number_lines_goes_by_the_marks_not_by_the_lines() {
    let mut c = LineCounter::new();
    let out = number_lines(&owned("a$\n$\nb$\n"), &vec![false, true, false], &mut c);
    assert_eq!(out, "     1\ta$\n$\n     2\tb$\n");
    assert_eq!(c.value(), 3);
}

#[test]
fn number_lines_numbers_lines_beyond_the_marks() {
    let mut c = LineCounter::new();
    let out = number_lines(&owned("\n\n\n"), &vec![true], &mut c);
    assert_eq!(out, "\n     1\t\n     2\t\n");
    assert_eq!(c.value(), 3);
}

#[test]
fn number_lines_without_marks_is_number() {
    let mut c = LineCounter::new();
    let mut d = LineCounter::new();
    let text = owned("a\n\nb");
    assert_eq!(number_lines(&text, &Vec::new(), &mut c), number(&text, &mut d));
    assert_eq!(c.value(), d.value());
}
