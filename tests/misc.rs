use uniscan::progress::Progress;
use uniscan::query::{load_error_text, split_outputs, undefined_error_text, LoadIssue};
use uniscan::scan::is_scanned_file;
use uniscan::value::Value;
use uniscan::settings::NumberInputState;
use uniscan::text::{decimal_text, find, format_path, text_eq, to_lower, trim};

fn s(t: &str) -> String {
    t.to_string()
}

#[test]
fn progress_unfinished() {
    assert_eq!(Progress::Done.unfinished(), None);
    assert_eq!(Progress::Text("Scanning").unfinished(), Some(Progress::Text("Scanning")));
    let p = Progress::Progress { current: 3, max: 10 };
    assert_eq!(p.unfinished(), Some(p));
}

#[test]
fn progress_labels() {
    assert_eq!(Progress::Progress { current: 3, max: 10 }.label(), "3/10");
    assert_eq!(Progress::Text("Collecting files").label(), "Collecting files");
    assert_eq!(Progress::Done.label(), "");
}

#[test]
fn number_input_shows_value() {
    let n = NumberInputState::new(500);
    assert_eq!(n.raw, "500");
    assert_eq!(n.last_valid, 500);
    assert_eq!(NumberInputState::new(0).raw, "0");
}

#[test]
fn decimal_text_spells_numbers() {
    assert_eq!(decimal_text(0), "0");
    assert_eq!(decimal_text(7), "7");
    assert_eq!(decimal_text(1204), "1204");
    assert_eq!(decimal_text(usize::MAX), usize::MAX.to_string());
}

#[test]
fn text_helpers() {
    assert!(text_eq("abc", "abc"));
    assert!(!text_eq("abc", "abd"));
    assert_eq!(to_lower("HeLLo Ünï"), "hello Ünï");
    assert_eq!(trim(" \t x y \n"), "x y");
    assert_eq!(trim("   "), "");
    assert!(find("haystack", "st"));
    assert!(find("abc", ""));
    assert!(!find("abc", "abcd"));
    assert!(!find("abc", "cb"));
}

#[test]
fn load_errors_one_line_each() {
    let issues = vec![
        LoadIssue::Lex { expected: s("term"), found: s("]") },
        LoadIssue::Parse { expected: s("identifier"), found: s("") },
        LoadIssue::Io { path: s("lib.jq"), error: s("not found") },
    ];
    assert_eq!(
        load_error_text(&issues),
        "expected term, found ]\nexpected identifier, found unexpected end of input\ncould not load file lib.jq: not found"
    );
    assert_eq!(load_error_text(&vec![]), "");
}

#[test]
fn undefined_names_one_line_each() {
    let items = vec![(s("filter"), s("foo/0")), (s("variable"), s("$x"))];
    assert_eq!(undefined_error_text(&items), "undefined filter: foo/0\nundefined variable: $x");
}

#[test]
fn paths_use_forward_slashes() {
    assert_eq!(format_path("Data\\level1"), "Data/level1");
    assert_eq!(format_path("archive:/CAB-1/CAB-1"), "archive:/CAB-1/CAB-1");
    assert_eq!(format_path(""), "");
}

#[test]
fn failed_outputs_do_not_discard_the_others() {
    let outs = vec![Ok(Value::Int(1)), Err(s("boom")), Ok(Value::Null), Err(s("again"))];
    let (values, errors) = split_outputs(outs);
    assert_eq!(values, vec![Value::Int(1), Value::Null]);
    assert_eq!(errors, vec![s("boom"), s("again")]);
    let (none, no_errors) = split_outputs(vec![]);
    assert!(none.is_empty() && no_errors.is_empty());
}

#[test]
fn scanned_file_names() {
    assert!(is_scanned_file("level0"));
    assert!(is_scanned_file("level12"));
    assert!(is_scanned_file("sharedassets3.assets"));
    assert!(is_scanned_file("resources.assets"));
    assert!(is_scanned_file("globalgamemanagers"));
    assert!(!is_scanned_file("level"));
    assert!(!is_scanned_file("level1x"));
    assert!(!is_scanned_file("sharedassets3.assets.resS"));
    assert!(!is_scanned_file("globalgamemanagers.resS"));
    assert!(!is_scanned_file(".asset"));
}
