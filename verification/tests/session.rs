use rat::options::Options;
use rat::session::{err_in_path, is_stdin, sources, Session};

fn numbering() -> Options {
    let mut o = Options::new();
    o.number = true;
    o
}

#[test]
fn the_message_names_the_path() {
    assert_eq!(err_in_path("nofile"), "rat: nofile: No such file or directory");
    assert_eq!(err_in_path(""), "rat: : No such file or directory");
    assert_eq!(err_in_path("a dir/b.txt"), "rat: a dir/b.txt: No such file or directory");
}

#[test]
fn a_dash_names_the_standard_input() {
    assert!(is_stdin("-"));
    assert!(!is_stdin(""));
    assert!(!is_stdin("--"));
    assert!(!is_stdin("a"));
    assert!(!is_stdin("-a"));
    assert!(!is_stdin("./-"));
}

#[test]
fn without_paths_the_standard_input_is_read() {
    assert_eq!(sources(Vec::new()), vec!["-".to_string()]);
}

#[test]
fn the_paths_are_read_in_the_order_given() {
    let paths = vec!["b".to_string(), "-".to_string(), "a".to_string(), "b".to_string()];
    assert_eq!(sources(paths.clone()), paths);
}

#[test]
fn a_new_session_has_not_failed() {
    let s = Session::new(&Options::new());
    assert_eq!(s.exit_code(), 0);
    assert_eq!(s.line_number(), 1);
}

#[test]
fn a_session_numbers_its_sources_in_one_run() {
    let mut s = Session::new(&numbering());
    assert_eq!(s.feed("a\nb\nc\n".to_string()), Some("     1\ta\n     2\tb\n     3\tc\n".to_string()));
    assert_eq!(s.line_number(), 4);
    assert_eq!(s.feed("d\ne\n".to_string()), Some("     4\td\n     5\te\n".to_string()));
    assert_eq!(s.line_number(), 6);
    assert_eq!(s.exit_code(), 0);
}

#[test]
fn a_missing_source_does_not_stop_the_others() {
    let mut s = Session::new(&numbering());
    let first = s.feed("a\n".to_string());
    let report = s.missing("nofile");
    let last = s.feed("b\n".to_string());
    assert_eq!(first, Some("     1\ta\n".to_string()));
    assert_eq!(report, "rat: nofile: No such file or directory");
    assert_eq!(last, Some("     2\tb\n".to_string()));
    assert_eq!(s.exit_code(), 1);
}

#[test]
fn a_failure_is_not_forgotten() {
    let mut s = Session::new(&Options::new());
    s.missing("x");
    assert_eq!(s.exit_code(), 1);
    assert_eq!(s.feed("a\n".to_string()), Some("a\n".to_string()));
    assert_eq!(s.exit_code(), 1);
    s.missing("y");
    assert_eq!(s.exit_code(), 1);
}

#[test]
fn a_session_resolves_its_switches() {
    let mut o = Options::new();
    o.show_all = true;
    o.number = true;
    o.number_nonblank = true;
    o.squeeze_blank = true;
    let mut s = Session::new(&o);
    assert_eq!(
        s.feed("a\n\n\n\tb\n".to_string()),
        Some("     1\ta$\n$\n     2\t^Ib$\n".to_string())
    );
    assert_eq!(s.line_number(), 3);
}
