use rat::escape::{escape, show_ends, show_nonprinting, show_tabs, Escape};
use rat::squeeze::squeeze_blank;

fn text_of(text: &str) -> String {
    text.to_string()
}

#[test]
fn show_tabs_writes_caret_i() {
    assert_eq!(show_tabs(&text_of("a\tb\n")), "a^Ib\n");
    assert_eq!(show_tabs(&text_of("\t\t")), "^I^I");
    assert_eq!(show_tabs(&text_of("")), "");
    assert_eq!(show_tabs(&text_of("no tab\n")), "no tab\n");
}

#[test]
fn show_tabs_leaves_nul_and_newline() {
    assert_eq!(show_tabs(&text_of("a\0\n")), "a\0\n");
}

#[test]
fn show_ends_marks_every_newline() {
    assert_eq!(show_ends(&text_of("a\n")), "a$\n");
    assert_eq!(show_ends(&text_of("a\n\nb\n")), "a$\n$\nb$\n");
    assert_eq!(show_ends(&text_of("\n")), "$\n");
}

#[test]
fn show_ends_does_not_mark_an_unended_last_line() {
    assert_eq!(show_ends(&text_of("a")), "a");
    assert_eq!(show_ends(&text_of("a\nb")), "a$\nb");
    assert_eq!(show_ends(&text_of("")), "");
}

#[test]
fn show_nonprinting_writes_tab_and_nul() {
    assert_eq!(show_nonprinting(&text_of("a\tb\0c\n")), "a^Ib^@c\n");
    assert_eq!(show_nonprinting(&text_of("\0")), "^@");
}

#[test]
fn show_nonprinting_does_not_mark_line_ends() {
    assert_eq!(show_nonprinting(&text_of("a\n\n")), "a\n\n");
}

#[test]
fn escape_by_kind_is_what_the_named_functions_do() {
    let text = text_of("x\ty\0z\n");
    assert_eq!(escape(&text, Escape::Tabs), show_tabs(&text));
    assert_eq!(escape(&text, Escape::Ends), show_ends(&text));
    assert_eq!(escape(&text, Escape::Nonprinting), show_nonprinting(&text));
}

#[test]
fn markers_stand_for_the_characters_they_replace() {
    assert_eq!(Escape::Tabs.marker('\t'), Some("^I"));
    assert_eq!(Escape::Tabs.marker('\n'), None);
    assert_eq!(Escape::Tabs.marker('\0'), None);
    assert_eq!(Escape::Ends.marker('\n'), Some("$\n"));
    assert_eq!(Escape::Ends.marker('\t'), None);
    assert_eq!(Escape::Nonprinting.marker('\t'), Some("^I"));
    assert_eq!(Escape::Nonprinting.marker('\0'), Some("^@"));
    assert_eq!(Escape::Nonprinting.marker('\n'), None);
    assert_eq!(Escape::Nonprinting.marker('a'), None);
}

#[test]
fn show_tabs_twice_is_show_tabs_once() {
    for text in ["", "a\tb\n", "\t\t\t", "^I\t^I", "a\n\tb"] {
        let once = show_tabs(&text_of(text));
        assert_eq!(show_tabs(&once), once);
    }
}

#[test]
fn show_nonprinting_twice_is_show_nonprinting_once() {
    for text in ["", "a\tb\0\n", "\0\0", "^@\0^I\t"] {
        let once = show_nonprinting(&text_of(text));
        assert_eq!(show_nonprinting(&once), once);
    }
}

#[test]
fn show_ends_twice_is_show_ends_once_without_newlines() {
    for text in ["", "a", "a$", "no newline here\t"] {
        let once = show_ends(&text_of(text));
        assert_eq!(once, text);
        assert_eq!(show_ends(&once), once);
    }
}

#[test]
fn show_ends_twice_marks_twice_where_there_is_a_newline() {
    let once = show_ends(&text_of("a\n"));
    assert_eq!(once, "a$\n");
    assert_eq!(show_ends(&once), "a$$\n");
}

#[test]
fn squeeze_blank_keeps_one_of_a_run() {
    assert_eq!(squeeze_blank(&text_of("a\n\n\n\nb\n")), "a\n\nb\n");
    assert_eq!(squeeze_blank(&text_of("a\n\nb\n")), "a\n\nb\n");
    assert_eq!(squeeze_blank(&text_of("a\nb\n")), "a\nb\n");
}

#[test]
fn squeeze_blank_keeps_one_leading_and_one_trailing_empty_line() {
    assert_eq!(squeeze_blank(&text_of("\n\n\na\n")), "\na\n");
    assert_eq!(squeeze_blank(&text_of("\na\n")), "\na\n");
    assert_eq!(squeeze_blank(&text_of("a\n\n\n")), "a\n\n");
    assert_eq!(squeeze_blank(&text_of("\n\n\n")), "\n");
    assert_eq!(squeeze_blank(&text_of("\n")), "\n");
}

#[test]
fn squeeze_blank_of_nothing_is_nothing() {
    assert_eq!(squeeze_blank(&text_of("")), "");
}

#[test]
fn squeeze_blank_ends_an_unended_last_line() {
    assert_eq!(squeeze_blank(&text_of("a")), "a\n");
    assert_eq!(squeeze_blank(&text_of("a\n\n\nb")), "a\n\nb\n");
}

#[test]
fn squeeze_blank_takes_a_carriage_return_for_a_character() {
    assert_eq!(squeeze_blank(&text_of("a\r\n\r\n\r\nb\r\n")), "a\r\n\r\n\r\nb\r\n");
}

#[test]
fn squeeze_blank_keeps_lines_of_spaces() {
    assert_eq!(squeeze_blank(&text_of("a\n \n \n\n\nb\n")), "a\n \n \n\nb\n");
}

#[test]
fn squeeze_blank_twice_is_squeeze_blank_once() {
    for text in ["", "a", "\n\n\n", "a\n\n\n\nb\n", "\n\na\n\n\nb\n\n", "x\n\ny\n\n\n\nz"] {
        let once = squeeze_blank(&text_of(text));
        assert_eq!(squeeze_blank(&once), once);
    }
}
