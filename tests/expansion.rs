use macro_processor::engine::{state_machine, Engine, Fault, Status};

fn cs(s: &str) -> Vec<char> {
    s.chars().collect()
}

fn finish(mut e: Engine) -> Result<String, Fault> {
    loop {
        match state_machine(&mut e, 100_000) {
            Status::Running => {}
            Status::Done => return Ok(e.output().unwrap().iter().collect()),
            Status::Failed(f) => return Err(f),
            Status::NeedFile => panic!("unexpected file request"),
        }
    }
}

fn run(src: &str) -> Result<String, Fault> {
    finish(Engine::new(&vec![cs(src)]))
}

fn file_form() -> String {
    String::from("incl") + "ude"
}

#[test]
fn plain_text_passes_through() {
    let s = "Hello, world!\nSecond line { with } # signs.\n";
    assert_eq!(run(s), Ok(s.to_string()));
}

#[test]
fn empty_input_gives_empty_output() {
    assert_eq!(run(""), Ok(String::new()));
}

#[test]
fn escaped_percent_is_literal() {
    assert_eq!(run("50\\% off % not this\nnext"), Ok("50% off next".to_string()));
}

#[test]
fn comment_eats_newline_and_indentation() {
    assert_eq!(run("a% comment\n    \tb"), Ok("ab".to_string()));
}

#[test]
fn def_then_use() {
    assert_eq!(run("\\def{x}{A}\\x{}"), Ok("A".to_string()));
}

#[test]
fn redefinition_is_fatal() {
    assert_eq!(run("\\def{x}{A}\\def{x}{B}"), Err(Fault::AlreadyDefined));
}

#[test]
fn redefinition_after_undef_is_allowed() {
    assert_eq!(run("\\def{x}{A}\\undef{x}\\def{x}{B}\\x{}"), Ok("B".to_string()));
}

#[test]
fn ifdef_defined_and_undefined() {
    assert_eq!(run("\\def{x}{}\\ifdef{x}{Y}{N}"), Ok("Y".to_string()));
    assert_eq!(run("\\ifdef{x}{Y}{N}"), Ok("N".to_string()));
}

#[test]
fn if_tests_emptiness() {
    assert_eq!(run("\\if{}{T}{F}"), Ok("F".to_string()));
    assert_eq!(run("\\if{x}{T}{F}"), Ok("T".to_string()));
}

#[test]
fn placeholder_substitution() {
    assert_eq!(run("\\def{greet}{Hello, #!}\\greet{World}"), Ok("Hello, World!".to_string()));
}

#[test]
fn placeholder_used_twice() {
    assert_eq!(run("\\def{d}{#-#}\\d{xy}"), Ok("xy-xy".to_string()));
}

#[test]
fn expandafter_defines_first() {
    assert_eq!(run("\\expandafter{A}{\\def{y}{B}}\\y{}"), Ok("AB".to_string()));
}

#[test]
fn expandafter_deferred_text_sees_definition() {
    assert_eq!(run("\\expandafter{\\x{}}{\\def{x}{Q}}"), Ok("Q".to_string()));
}

#[test]
fn expandafter_puts_deferred_before_result() {
    assert_eq!(run("\\expandafter{1}{2}"), Ok("12".to_string()));
}

#[test]
fn unknown_macro_is_fatal_after_valid_text() {
    let mut e = Engine::new(&vec![cs("lots of valid text \\nosuch{}")]);
    assert_eq!(state_machine(&mut e, 1000), Status::Failed(Fault::UnknownMacro));
    assert!(e.output().is_none());
}

#[test]
fn reexpanding_output_is_identity() {
    let out = run("\\def{w}{a\\{b\\}#}\\w{c}").unwrap();
    assert_eq!(out, "a{b}c");
    let again = finish(Engine::from_cleaned(&cs(&out)));
    assert_eq!(again, Ok(out));
}

#[test]
fn special_escapes_drop_backslash() {
    assert_eq!(run("\\\\\\#\\{\\}"), Ok("\\#{}".to_string()));
}

#[test]
fn unknown_escape_passes_through() {
    assert_eq!(run("a\\ b\\-c"), Ok("a\\ b\\-c".to_string()));
}

#[test]
fn trailing_backslash_is_kept() {
    assert_eq!(run("abc\\"), Ok("abc\\".to_string()));
}

#[test]
fn escaped_braces_in_body() {
    assert_eq!(run("\\def{x}{\\{#\\}}\\x{1}"), Ok("{1}".to_string()));
}

#[test]
fn nested_braces_in_branch() {
    assert_eq!(run("\\if{a}{{b}}{c}"), Ok("{b}".to_string()));
}

#[test]
fn escaped_brace_in_argument_does_not_close() {
    assert_eq!(run("\\def{p}{[#]}\\p{\\}}"), Ok("[}]".to_string()));
}

#[test]
fn name_not_followed_by_brace() {
    assert_eq!(run("\\def{x}{A}\\x y"), Err(Fault::BadName));
}

#[test]
fn bare_name_with_other_character() {
    assert_eq!(run("\\def{a_b}{c}"), Err(Fault::BadArgument));
}

#[test]
fn group_not_followed_by_brace() {
    assert_eq!(run("\\if{a}x{b}{c}"), Err(Fault::BadArgument));
}

#[test]
fn empty_names_are_fatal() {
    assert_eq!(run("\\def{}{A}"), Err(Fault::EmptyName));
    assert_eq!(run("\\undef{}"), Err(Fault::EmptyName));
}

#[test]
fn undef_of_unknown_name() {
    assert_eq!(run("\\undef{z}"), Err(Fault::NotDefined));
}

#[test]
fn unterminated_constructs() {
    assert_eq!(run("\\if{a}{b"), Err(Fault::Unterminated));
    assert_eq!(run("text \\def"), Err(Fault::Unterminated));
    assert_eq!(run("\\if{a}"), Err(Fault::Unterminated));
}

#[test]
fn unicode_letters_form_names() {
    assert_eq!(run("\\def{é}{E}\\é{}"), Ok("E".to_string()));
}

#[test]
fn builtin_names_are_not_custom() {
    assert_eq!(run("\\def{if}{X}\\if{}{T}{F}"), Ok("F".to_string()));
}

#[test]
fn self_reference_does_not_stop() {
    let mut e = Engine::new(&vec![cs("\\def{r}{\\r{}}\\r{}")]);
    assert_eq!(state_machine(&mut e, 10_000), Status::Running);
    assert!(e.output().is_none());
}

#[test]
fn file_contents_are_read_in_place() {
    let src = format!("x\\{}{{f.txt}}y", file_form());
    let mut e = Engine::new(&vec![cs(&src)]);
    assert_eq!(state_machine(&mut e, 1000), Status::NeedFile);
    assert_eq!(e.requested_file().iter().collect::<String>(), "f.txt");
    e.resume_with_file(&cs("Z% note\n  \\def{q}{W}"));
    assert_eq!(finish(e), Ok("xZy".to_string()));
}

#[test]
fn file_definitions_are_visible_after() {
    let src = format!("\\{}{{defs}}\\q{{}}", file_form());
    let mut e = Engine::new(&vec![cs(&src)]);
    assert_eq!(state_machine(&mut e, 1000), Status::NeedFile);
    e.resume_with_file(&cs("\\def{q}{W}"));
    assert_eq!(finish(e), Ok("W".to_string()));
}

#[test]
fn unreadable_file_is_fatal() {
    let src = format!("keep \\{}{{missing}}", file_form());
    let mut e = Engine::new(&vec![cs(&src)]);
    assert_eq!(state_machine(&mut e, 1000), Status::NeedFile);
    e.file_unreadable();
    assert_eq!(e.status(), Status::Failed(Fault::Unreadable));
    assert!(e.output().is_none());
}

#[test]
fn sources_are_read_in_order() {
    let e = Engine::new(&vec![cs("a% one\n"), cs("\\def{k}{K}"), cs("b\\k{}")]);
    assert_eq!(finish(e), Ok("abK".to_string()));
}

#[test]
fn step_by_step_matches_run() {
    let mut e = Engine::new(&vec![cs("ab")]);
    e.step();
    e.step();
    assert_eq!(e.status(), Status::Running);
    e.step();
    assert_eq!(e.status(), Status::Done);
    assert_eq!(e.output().unwrap().iter().collect::<String>(), "ab");
}
