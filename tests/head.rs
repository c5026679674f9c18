use headr::config::{ArgumentError, Config, DEFAULT_LINES};
use headr::report::{header, lead, open_error_line, render, source_output};
use headr::select::{count_lines, line_budget, read_limit, select, select_bytes, select_lines, LineBudget, SelectionMode};

fn names(v: &[&str]) -> Vec<String> {
    v.iter().map(|s| s.to_string()).collect()
}

fn config(files: &[&str], mode: SelectionMode, headers: bool) -> Config {
    Config { files: names(files), mode, headers }
}

#[test]
fn bytes_first_k() {
    let input = b"hello world".to_vec();
    assert_eq!(select_bytes(&input, 5), b"hello".to_vec());
    assert_eq!(select_bytes(&input, 0), Vec::<u8>::new());
    assert_eq!(select_bytes(&input, 11), input);
    assert_eq!(select_bytes(&input, 100), input);
}

#[test]
fn bytes_all_but_last_k() {
    let input = b"hello world".to_vec();
    assert_eq!(select_bytes(&input, -6), b"hello".to_vec());
    assert_eq!(select_bytes(&input, -11), Vec::<u8>::new());
    assert_eq!(select_bytes(&input, -12), Vec::<u8>::new());
    assert_eq!(select_bytes(&input, i32::MIN), Vec::<u8>::new());
}

#[test]
fn bytes_keep_invalid_utf8() {
    let input = vec![0xff, 0xfe, 0x41, 0x0a];
    assert_eq!(select_bytes(&input, 3), vec![0xff, 0xfe, 0x41]);
    assert_eq!(select_lines(&input, 1), input);
}

#[test]
fn five_bytes_of_three() {
    let input = b"abc".to_vec();
    assert_eq!(select(&input, SelectionMode::Bytes(5)), b"abc".to_vec());
}

#[test]
fn lines_first_k() {
    let input = b"one\ntwo\nthree\n".to_vec();
    assert_eq!(select_lines(&input, 0), Vec::<u8>::new());
    assert_eq!(select_lines(&input, 1), b"one\n".to_vec());
    assert_eq!(select_lines(&input, 2), b"one\ntwo\n".to_vec());
    assert_eq!(select_lines(&input, 3), input);
    assert_eq!(select_lines(&input, 10), input);
}

#[test]
fn lines_unterminated_last() {
    let input = b"a\nb\nc".to_vec();
    assert_eq!(count_lines(&input), 3);
    assert_eq!(select_lines(&input, 3), b"a\nb\nc".to_vec());
    assert_eq!(select_lines(&input, 2), b"a\nb\n".to_vec());
    assert_eq!(select_lines(&input, -1), b"a\nb\n".to_vec());
}

#[test]
fn lines_all_but_last_k() {
    let input = b"one\ntwo\nthree\n".to_vec();
    assert_eq!(select_lines(&input, -1), b"one\ntwo\n".to_vec());
    assert_eq!(select_lines(&input, -3), Vec::<u8>::new());
    assert_eq!(select_lines(&input, -4), Vec::<u8>::new());
    assert_eq!(select_lines(&input, i32::MIN), Vec::<u8>::new());
}

#[test]
fn all_but_two_of_five_lines() {
    let input = b"1\n2\n3\n4\n5\n".to_vec();
    assert_eq!(select(&input, SelectionMode::Lines(-2)), b"1\n2\n3\n".to_vec());
}

#[test]
fn empty_lines_and_empty_input() {
    let input = b"\n\n\n".to_vec();
    assert_eq!(count_lines(&input), 3);
    assert_eq!(select_lines(&input, 2), b"\n\n".to_vec());
    let empty: Vec<u8> = Vec::new();
    assert_eq!(count_lines(&empty), 0);
    assert_eq!(select_lines(&empty, 5), empty);
    assert_eq!(select_lines(&empty, -5), empty);
    assert_eq!(select_bytes(&empty, 5), empty);
    assert_eq!(select_bytes(&empty, -5), empty);
}

#[test]
fn whole_input_when_count_reaches_size() {
    let input = b"x\ny\nz".to_vec();
    assert_eq!(select(&input, SelectionMode::Bytes(5)), input);
    assert_eq!(select(&input, SelectionMode::Bytes(i32::MAX)), input);
    assert_eq!(select(&input, SelectionMode::Lines(3)), input);
    assert_eq!(select(&input, SelectionMode::Lines(i32::MAX)), input);
}

#[test]
fn limits_known_before_reading() {
    assert_eq!(read_limit(SelectionMode::Bytes(7)), Some(7));
    assert_eq!(read_limit(SelectionMode::Bytes(-7)), None);
    assert_eq!(read_limit(SelectionMode::Lines(0)), Some(0));
    assert_eq!(read_limit(SelectionMode::Lines(3)), None);
    assert_eq!(read_limit(SelectionMode::Lines(-3)), None);
}

#[test]
fn bytes_with_lines_rejected() {
    let r = Config::new(names(&["a.txt"]), Some(2), Some(3), false, false);
    assert_eq!(r.unwrap_err(), ArgumentError::BytesWithLines);
}

#[test]
fn quiet_with_verbose_rejected() {
    let r = Config::new(names(&["a.txt"]), None, None, true, true);
    assert_eq!(r.unwrap_err(), ArgumentError::QuietWithVerbose);
}

#[test]
fn config_defaults() {
    let c = Config::new(Vec::new(), None, None, false, false).unwrap();
    assert_eq!(c.files, names(&["-"]));
    assert_eq!(c.mode, SelectionMode::Lines(DEFAULT_LINES));
    assert_eq!(c.mode, SelectionMode::Lines(10));
    assert!(c.headers);
}

#[test]
fn config_from_options() {
    let c = Config::new(names(&["a", "b"]), None, Some(-4), true, false).unwrap();
    assert_eq!(c.files, names(&["a", "b"]));
    assert_eq!(c.mode, SelectionMode::Bytes(-4));
    assert!(!c.headers);
    let c = Config::new(names(&["a"]), Some(3), None, false, true).unwrap();
    assert_eq!(c.mode, SelectionMode::Lines(3));
    assert!(c.headers);
}

#[test]
fn banner_text() {
    assert_eq!(header(&"a.txt".to_string(), 0), b"==> a.txt <==\n".to_vec());
    assert_eq!(header(&"b.txt".to_string(), 1), b"\n==> b.txt <==\n".to_vec());
}

#[test]
fn two_sources_with_banners() {
    let c = config(&["A", "B"], SelectionMode::Lines(1), true);
    let contents = vec![Some(b"a1\na2\n".to_vec()), Some(b"b1\nb2\n".to_vec())];
    assert_eq!(render(&c, &contents), b"==> A <==\na1\n\n==> B <==\nb1\n".to_vec());
}

#[test]
fn two_sources_quiet() {
    let c = config(&["A", "B"], SelectionMode::Bytes(2), false);
    let contents = vec![Some(b"a1\na2\n".to_vec()), Some(b"b1\nb2\n".to_vec())];
    assert_eq!(render(&c, &contents), b"a1b1".to_vec());
}

#[test]
fn single_source_has_no_banner() {
    let c = config(&["A"], SelectionMode::Lines(1), true);
    let contents = vec![Some(b"a1\na2\n".to_vec())];
    assert_eq!(render(&c, &contents), b"a1\n".to_vec());
    assert_eq!(source_output(&c, 0, &b"a1\na2\n".to_vec()), b"a1\n".to_vec());
}

#[test]
fn missing_source_prints_nothing() {
    let c = config(&["missing", "B"], SelectionMode::Lines(10), true);
    let contents = vec![None, Some(b"b1\n".to_vec())];
    assert_eq!(render(&c, &contents), b"\n==> B <==\nb1\n".to_vec());
    let c = config(&["A", "missing", "C"], SelectionMode::Lines(10), true);
    let contents = vec![Some(b"a\n".to_vec()), None, Some(b"c\n".to_vec())];
    assert_eq!(render(&c, &contents), b"==> A <==\na\n\n==> C <==\nc\n".to_vec());
}

#[test]
fn open_error_message() {
    let line = open_error_line(&"nope.txt".to_string(), &"No such file or directory (os error 2)".to_string());
    assert_eq!(line, b"nope.txt: No such file or directory (os error 2)\n".to_vec());
}

#[test]
fn line_budget_counts_down() {
    assert!(line_budget(SelectionMode::Bytes(3)).is_none());
    assert!(line_budget(SelectionMode::Lines(-1)).is_none());
    let mut b = line_budget(SelectionMode::Lines(2)).unwrap();
    assert_eq!(b.left, 2);
    assert!(b.wants_more());
    b.took_line();
    assert!(b.wants_more());
    b.took_line();
    assert!(!b.wants_more());
    assert!(!LineBudget::new(0).wants_more());
}

#[test]
fn lead_only_with_several_sources() {
    let c = config(&["A", "B"], SelectionMode::Lines(1), true);
    assert_eq!(lead(&c, 0), b"==> A <==\n".to_vec());
    assert_eq!(lead(&c, 1), b"\n==> B <==\n".to_vec());
    let c = config(&["A", "B"], SelectionMode::Lines(1), false);
    assert_eq!(lead(&c, 1), Vec::<u8>::new());
    let c = config(&["A"], SelectionMode::Lines(1), true);
    assert_eq!(lead(&c, 0), Vec::<u8>::new());
}
