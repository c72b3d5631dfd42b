use macro_processor::engine::{classify, substitute, Form};
use macro_processor::table::{same_text, MacroTable};
use macro_processor::text::strip_comments;

fn cs(s: &str) -> Vec<char> {
    s.chars().collect()
}

fn strip(s: &str) -> String {
    strip_comments(&cs(s)).iter().collect()
}

#[test]
fn text_without_marks_is_kept() {
    assert_eq!(strip("plain text\n\twith tabs"), "plain text\n\twith tabs");
}

#[test]
fn percent_escape_collapses() {
    assert_eq!(strip("a\\%b"), "a%b");
}

#[test]
fn other_escapes_are_kept() {
    assert_eq!(strip("a\\\\%c\nb"), "a\\\\b");
    assert_eq!(strip("\\def"), "\\def");
}

#[test]
fn comment_to_end_of_line() {
    assert_eq!(strip("a%c\n  d"), "ad");
}

#[test]
fn comment_lines_chain() {
    assert_eq!(strip("a%1\n  %2\n\t b"), "ab");
}

#[test]
fn escape_after_comment() {
    assert_eq!(strip("a%c\n \\%b"), "a%b");
}

#[test]
fn newline_after_comment_is_kept() {
    assert_eq!(strip("a%c\n\nb"), "a\nb");
}

#[test]
fn comment_at_end_without_newline() {
    assert_eq!(strip("a%c"), "a");
}

#[test]
fn trailing_backslash_is_kept_when_cleaning() {
    assert_eq!(strip("a\\"), "a\\");
}

#[test]
fn substitution_respects_escapes() {
    let r: String = substitute(&cs("<#|\\#>"), &cs("v")).iter().collect();
    assert_eq!(r, "<v|\\#>");
}

#[test]
fn classify_names() {
    assert_eq!(classify(&cs("def")), Form::Def);
    assert_eq!(classify(&cs("undef")), Form::Undef);
    assert_eq!(classify(&cs("if")), Form::If);
    assert_eq!(classify(&cs("ifdef")), Form::IfDef);
    assert_eq!(classify(&cs("expandafter")), Form::ExpandAfter);
    assert_eq!(classify(&cs("defs")), Form::Custom);
}

#[test]
fn table_insert_and_remove() {
    let mut t = MacroTable::new();
    assert!(t.insert(cs("a"), cs("1")));
    assert!(!t.insert(cs("a"), cs("2")));
    assert!(t.insert(cs("b"), cs("3")));
    assert_eq!(t.get(&cs("a")), Some(&cs("1")));
    assert!(t.remove(&cs("a")));
    assert!(!t.remove(&cs("a")));
    assert!(!t.contains(&cs("a")));
    assert!(t.contains(&cs("b")));
}

#[test]
fn same_text_compares_contents() {
    assert!(same_text(&cs("abc"), &cs("abc")));
    assert!(!same_text(&cs("abc"), &cs("abd")));
    assert!(!same_text(&cs("ab"), &cs("abc")));
}
