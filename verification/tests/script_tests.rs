use std::collections::BTreeMap;

use shell_nostd::script::{parse_script, ScriptExecutor, ScriptRunner, Statement};

/// Answers `true` with code 0, `false` with code 1, `say X` with `X`,
/// `$VAR` lookups through `show VAR`; records lines and variables.
struct Fake {
    vars: BTreeMap<String, String>,
    lines: Vec<String>,
    sets: Vec<(String, String)>,
    ticks: u32,
}

impl Fake {
    fn new() -> Self {
        Fake { vars: BTreeMap::new(), lines: Vec::new(), sets: Vec::new(), ticks: 0 }
    }
}

impl ScriptExecutor for Fake {
    fn execute_line(&mut self, line: &str) -> (String, i32) {
        self.lines.push(line.to_string());
        if line == "true" {
            (String::new(), 0)
        } else if line == "false" {
            (String::new(), 1)
        } else if line == "tick" {
            self.ticks += 1;
            (String::new(), if self.ticks <= 3 { 0 } else { 1 })
        } else if let Some(rest) = line.strip_prefix("say ") {
            (rest.to_string(), 0)
        } else if let Some(rest) = line.strip_prefix("show ") {
            (self.vars.get(rest).cloned().unwrap_or_default(), 0)
        } else {
            (format!("{}: command not found", line), 127)
        }
    }
    fn set_var(&mut self, name: &str, value: &str) {
        self.sets.push((name.to_string(), value.to_string()));
        self.vars.insert(name.to_string(), value.to_string());
    }
    fn get_var(&self, name: &str) -> Option<String> {
        self.vars.get(name).cloned()
    }
}

#[test]
fn parse_simple_statements() {
    let s = parse_script("# header\n\nX=1\necho hi\n").unwrap();
    assert_eq!(s.statements.len(), 4);
    assert!(matches!(&s.statements[0], Statement::Comment(c) if c == "# header"));
    assert!(matches!(&s.statements[1], Statement::Empty));
    assert!(matches!(&s.statements[2], Statement::Assignment { name, value } if name == "X" && value == "1"));
    assert!(matches!(&s.statements[3], Statement::Command(c) if c == "echo hi"));
}

#[test]
fn assignment_needs_a_name() {
    let s = parse_script("1X=2\n=3\nA B=4\nA_b9=ok=yes").unwrap();
    assert!(matches!(&s.statements[0], Statement::Command(c) if c == "1X=2"));
    assert!(matches!(&s.statements[1], Statement::Command(c) if c == "=3"));
    assert!(matches!(&s.statements[2], Statement::Command(c) if c == "A B=4"));
    assert!(matches!(&s.statements[3], Statement::Assignment { name, value } if name == "A_b9" && value == "ok=yes"));
}

#[test]
fn parse_if_else() {
    let s = parse_script("if true; then\n  say yes\nelse\n  say no\nfi\nsay after").unwrap();
    assert_eq!(s.statements.len(), 2);
    match &s.statements[0] {
        Statement::If { condition, then_body, else_body } => {
            assert_eq!(condition, "true");
            assert_eq!(then_body.len(), 1);
            assert_eq!(else_body.len(), 1);
        },
        _ => panic!("expected if"),
    }
}

#[test]
fn parse_if_without_then_suffix() {
    let s = parse_script("if false\nsay a\nfi").unwrap();
    match &s.statements[0] {
        Statement::If { condition, then_body, else_body } => {
            assert_eq!(condition, "false");
            assert_eq!(then_body.len(), 1);
            assert!(else_body.is_empty());
        },
        _ => panic!("expected if"),
    }
}

#[test]
fn parse_for_loop() {
    let s = parse_script("for x in a b  c; do\nsay $x\ndone").unwrap();
    match &s.statements[0] {
        Statement::For { variable, items, body } => {
            assert_eq!(variable, "x");
            assert_eq!(items, &vec!["a".to_string(), "b".to_string(), "c".to_string()]);
            assert_eq!(body.len(), 1);
        },
        _ => panic!("expected for"),
    }
}

#[test]
fn parse_errors_name_the_line() {
    assert_eq!(parse_script("say 1\nif true; then\nsay 2").unwrap_err(), "line 2: unterminated if (missing fi)");
    assert_eq!(parse_script("if true\nelse\nsay 2").unwrap_err(), "line 2: unterminated else (missing fi)");
    assert_eq!(parse_script("if then\nfi").unwrap_err(), "line 1: if with no condition");
    assert_eq!(parse_script("for x y\ndone").unwrap_err(), "line 1: missing 'in' in for loop");
    assert_eq!(parse_script("for x in a\nsay").unwrap_err(), "line 1: unterminated for loop (missing done)");
}

#[test]
fn stray_terminators_end_the_script() {
    let s = parse_script("say 1\nfi\nsay 2").unwrap();
    assert_eq!(s.statements.len(), 3);
    let s = parse_script("done").unwrap();
    assert_eq!(s.statements.len(), 1);
}

#[test]
fn run_collects_output_and_sets_status() {
    let s = parse_script("say one\nsay two\n").unwrap();
    let mut ex = Fake::new();
    let (out, code) = ScriptRunner::run(&s, &mut ex);
    assert_eq!(out, "one\ntwo\n");
    assert_eq!(code, 0);
    assert_eq!(ex.get_var("?"), Some("0".to_string()));
}

#[test]
fn run_keeps_last_exit_code() {
    let s = parse_script("say ok\nnope").unwrap();
    let mut ex = Fake::new();
    let (out, code) = ScriptRunner::run(&s, &mut ex);
    assert_eq!(out, "ok\nnope: command not found\n");
    assert_eq!(code, 127);
    assert_eq!(ex.get_var("?"), Some("127".to_string()));
}

#[test]
fn run_if_picks_branch_by_condition_code() {
    let s = parse_script("if true; then\nsay yes\nelse\nsay no\nfi\nif false; then\nsay yes\nelse\nsay no\nfi").unwrap();
    let mut ex = Fake::new();
    let (out, code) = ScriptRunner::run(&s, &mut ex);
    assert_eq!(out, "yes\nno\n");
    assert_eq!(code, 0);
    assert_eq!(ex.lines, vec!["true", "say yes", "false", "say no"]);
}

#[test]
fn run_if_without_branch_gives_zero() {
    let s = parse_script("if false; then\nsay x\nfi").unwrap();
    let mut ex = Fake::new();
    assert_eq!(ScriptRunner::run(&s, &mut ex), (String::new(), 0));
}

#[test]
fn run_for_sets_variable_each_time() {
    let s = parse_script("for v in a b; do\nshow v\ndone").unwrap();
    let mut ex = Fake::new();
    let (out, code) = ScriptRunner::run(&s, &mut ex);
    assert_eq!(out, "a\nb\n");
    assert_eq!(code, 0);
    assert_eq!(ex.sets[0], ("v".to_string(), "a".to_string()));
    assert_eq!(ex.sets[1], ("v".to_string(), "b".to_string()));
}

#[test]
fn run_assignment_sets_variable() {
    let s = parse_script("GREETING=hi\nshow GREETING").unwrap();
    let mut ex = Fake::new();
    let (out, _) = ScriptRunner::run(&s, &mut ex);
    assert_eq!(out, "hi\n");
}

#[test]
fn quiet_script_prints_nothing() {
    let s = parse_script("# only comments\n\nA=1\n").unwrap();
    let mut ex = Fake::new();
    assert_eq!(ScriptRunner::run(&s, &mut ex), (String::new(), 0));
    assert!(ex.lines.is_empty());
}

#[test]
fn empty_script() {
    let s = parse_script("").unwrap();
    assert!(s.statements.is_empty());
    let mut ex = Fake::new();
    assert_eq!(ScriptRunner::run(&s, &mut ex), (String::new(), 0));
}

#[test]
fn assignment_name_cannot_start_with_any_digit() {
    let s = parse_script("\u{0663}X=1\nÉté=1").unwrap();
    assert!(matches!(&s.statements[0], Statement::Command(_)));
    assert!(matches!(&s.statements[1], Statement::Assignment { name, .. } if name == "Été"));
}

#[test]
fn terminator_words_followed_by_text_still_terminate() {
    let s = parse_script("if true; then\nsay a\nelse say b\nsay c\nfi").unwrap();
    assert_eq!(s.statements.len(), 3);
    match &s.statements[0] {
        Statement::If { then_body, else_body, .. } => {
            assert_eq!(then_body.len(), 1);
            assert!(else_body.is_empty());
        },
        _ => panic!("expected if"),
    }
    assert!(matches!(&s.statements[1], Statement::Command(c) if c == "say c"));
    assert!(matches!(&s.statements[2], Statement::Command(c) if c == "fi"));
    assert_eq!(
        parse_script("for i in 1 2; do\nsay $i\ndone # end\nsay after").unwrap_err(),
        "line 1: unterminated for loop (missing done)"
    );
}

#[test]
fn parse_if_with_then_on_its_own_line() {
    let s = parse_script("if test -f x\nthen\necho y\nfi").unwrap();
    assert_eq!(s.statements.len(), 1);
    match &s.statements[0] {
        Statement::If { condition, then_body, else_body } => {
            assert_eq!(condition, "test -f x");
            assert_eq!(then_body.len(), 1);
            assert!(matches!(&then_body[0], Statement::Command(c) if c == "echo y"));
            assert!(else_body.is_empty());
        },
        _ => panic!("expected if"),
    }
}

#[test]
fn parse_for_with_do_on_its_own_line() {
    let s = parse_script("for x in a b\ndo\necho $x\ndone").unwrap();
    assert_eq!(s.statements.len(), 1);
    match &s.statements[0] {
        Statement::For { variable, items, body } => {
            assert_eq!(variable, "x");
            assert_eq!(items, &vec!["a".to_string(), "b".to_string()]);
            assert_eq!(body.len(), 1);
            assert!(matches!(&body[0], Statement::Command(c) if c == "echo $x"));
        },
        _ => panic!("expected for"),
    }
}

#[test]
fn parse_while_loop() {
    let s = parse_script("while true; do\necho x\ndone").unwrap();
    assert_eq!(s.statements.len(), 1);
    match &s.statements[0] {
        Statement::While { condition, body } => {
            assert_eq!(condition, "true");
            assert_eq!(body.len(), 1);
            assert!(matches!(&body[0], Statement::Command(c) if c == "echo x"));
        },
        _ => panic!("expected while"),
    }
}

#[test]
fn parse_while_with_do_on_its_own_line() {
    let s = parse_script("while tick\ndo\nsay a\nsay b\ndone\nsay end").unwrap();
    assert_eq!(s.statements.len(), 2);
    match &s.statements[0] {
        Statement::While { condition, body } => {
            assert_eq!(condition, "tick");
            assert_eq!(body.len(), 2);
        },
        _ => panic!("expected while"),
    }
    assert!(matches!(&s.statements[1], Statement::Command(c) if c == "say end"));
}

#[test]
fn while_parse_errors_name_the_line() {
    assert_eq!(parse_script("say 1\nwhile true; do\nsay 2").unwrap_err(), "line 2: unterminated while loop (missing done)");
    assert_eq!(parse_script("while do\ndone").unwrap_err(), "line 1: while with no condition");
}

#[test]
fn run_while_until_condition_fails() {
    let s = parse_script("while tick; do\nsay round\ndone").unwrap();
    let mut ex = Fake::new();
    let (out, code) = ScriptRunner::run(&s, &mut ex);
    assert_eq!(out, "round\nround\nround\n");
    assert_eq!(code, 0);
    assert_eq!(ex.lines, vec!["tick", "say round", "tick", "say round", "tick", "say round", "tick"]);
}

#[test]
fn run_while_that_never_runs_gives_zero() {
    let s = parse_script("while false; do\nsay x\ndone").unwrap();
    let mut ex = Fake::new();
    assert_eq!(ScriptRunner::run(&s, &mut ex), (String::new(), 0));
    assert_eq!(ex.lines, vec!["false"]);
}

#[test]
fn run_while_keeps_body_exit_code() {
    let s = parse_script("while tick; do\nnope\ndone").unwrap();
    let mut ex = Fake::new();
    let (out, code) = ScriptRunner::run(&s, &mut ex);
    assert_eq!(out, "nope: command not found\n".repeat(3));
    assert_eq!(code, 127);
}

#[test]
fn run_endless_while_stops_after_its_round_limit() {
    let s = parse_script("while true; do\nsay x\ndone").unwrap();
    let mut ex = Fake::new();
    let (out, code) = ScriptRunner::run(&s, &mut ex);
    let mut expected = "x\n".repeat(10000);
    expected.push_str("while: stopped after 10000 rounds\n");
    assert_eq!(out, expected);
    assert_eq!(code, 1);
    assert_eq!(ex.lines.len(), 20000);
}

#[test]
fn parse_function_definition() {
    let s = parse_script("greet() {\nsay hi\n}\ngreet").unwrap();
    assert_eq!(s.statements.len(), 2);
    match &s.statements[0] {
        Statement::Function { name, body } => {
            assert_eq!(name, "greet");
            assert_eq!(body.len(), 1);
            assert!(matches!(&body[0], Statement::Command(c) if c == "say hi"));
        },
        _ => panic!("expected function"),
    }
    assert!(matches!(&s.statements[1], Statement::Command(c) if c == "greet"));
}

#[test]
fn function_parse_errors_name_the_line() {
    assert_eq!(parse_script("say 1\nf() {\nsay 2").unwrap_err(), "line 2: unterminated function (missing })");
    let s = parse_script("9f() {\n}").unwrap();
    assert!(matches!(&s.statements[0], Statement::Command(c) if c == "9f() {"));
}

#[test]
fn calling_a_function_runs_its_body() {
    let s = parse_script("greet() {\nsay hi\nsay there\n}\ngreet\ngreet world").unwrap();
    let mut ex = Fake::new();
    let (out, code) = ScriptRunner::run(&s, &mut ex);
    assert_eq!(out, "hi\nthere\nhi\nthere\n");
    assert_eq!(code, 0);
    assert_eq!(ex.lines, vec!["say hi", "say there", "say hi", "say there"]);
}

#[test]
fn function_defined_later_is_found_and_last_definition_wins() {
    let s = parse_script("f\nf() {\nsay a\n}\nf() {\nsay b\n}").unwrap();
    let mut ex = Fake::new();
    let (out, code) = ScriptRunner::run(&s, &mut ex);
    assert_eq!(out, "b\n");
    assert_eq!(code, 0);
}

#[test]
fn function_exit_code_is_its_last_statement() {
    let s = parse_script("check() {\nsay ok\nfalse\n}\ncheck").unwrap();
    let mut ex = Fake::new();
    let (out, code) = ScriptRunner::run(&s, &mut ex);
    assert_eq!(out, "ok\n");
    assert_eq!(code, 1);
    assert_eq!(ex.get_var("?"), Some("1".to_string()));
}

#[test]
fn endless_recursion_stops_at_the_nesting_limit() {
    let s = parse_script("down() {\ndown\n}\ndown").unwrap();
    let mut ex = Fake::new();
    let (out, code) = ScriptRunner::run(&s, &mut ex);
    assert_eq!(out, "down: maximum function nesting level exceeded\n");
    assert_eq!(code, 1);
    assert!(ex.lines.is_empty());
}

#[test]
fn script_of_definitions_prints_nothing() {
    let s = parse_script("f() {\nsay a\n}\nX=1").unwrap();
    let mut ex = Fake::new();
    assert_eq!(ScriptRunner::run(&s, &mut ex), (String::new(), 0));
    assert!(ex.lines.is_empty());
}

#[test]
fn function_call_sets_numbered_variables_to_its_arguments() {
    let s = parse_script("pair() {\nshow 1\nshow 2\n}\npair left right").unwrap();
    let mut ex = Fake::new();
    let (out, code) = ScriptRunner::run(&s, &mut ex);
    assert_eq!(out, "left\nright\n");
    assert_eq!(code, 0);
    assert_eq!(ex.sets[0], ("?".to_string(), "0".to_string()));
    assert_eq!(ex.sets[1], ("1".to_string(), "left".to_string()));
    assert_eq!(ex.sets[2], ("2".to_string(), "right".to_string()));
}
