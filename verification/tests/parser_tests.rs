use shell_nostd::parser::{expand_glob, Command, History, ParseError, Pipeline, Redirect, TabCompleter};
use shell_nostd::parser::split_command_lines;

fn names(p: &Pipeline) -> Vec<&str> {
    p.commands.iter().map(|c| c.name.as_str()).collect()
}

#[test]
fn parse_single_command_with_args() {
    let p = Pipeline::parse("  ls -la /tmp  ").unwrap();
    assert!(p.is_single());
    let c = p.first().unwrap();
    assert_eq!(c.name, "ls");
    assert_eq!(c.args, vec!["-la", "/tmp"]);
    assert!(c.stdin_redirect.is_none());
    assert!(c.stdout_redirect.is_none());
}

#[test]
fn parse_pipeline_of_three() {
    let p = Pipeline::parse("cat f.txt | grep foo|head -n 2").unwrap();
    assert!(!p.is_single());
    assert_eq!(names(&p), vec!["cat", "grep", "head"]);
    assert_eq!(p.commands[1].args, vec!["foo"]);
    assert_eq!(p.commands[2].args, vec!["-n", "2"]);
}

#[test]
fn parse_redirections() {
    let p = Pipeline::parse("sort < in.txt > out.txt").unwrap();
    let c = &p.commands[0];
    assert_eq!(c.name, "sort");
    assert!(c.args.is_empty());
    assert_eq!(c.stdin_redirect.as_deref(), Some("in.txt"));
    assert!(matches!(&c.stdout_redirect, Some(Redirect::Overwrite(t)) if t == "out.txt"));

    let p = Pipeline::parse("echo hi >> log").unwrap();
    assert!(matches!(&p.commands[0].stdout_redirect, Some(Redirect::Append(t)) if t == "log"));

    let p = Pipeline::parse("echo a>b").unwrap();
    assert_eq!(p.commands[0].args, vec!["a"]);
    assert!(matches!(&p.commands[0].stdout_redirect, Some(Redirect::Overwrite(t)) if t == "b"));
}

#[test]
fn redirect_before_words_applies_to_command() {
    let p = Pipeline::parse("> out echo hi").unwrap();
    let c = &p.commands[0];
    assert_eq!(c.name, "echo");
    assert_eq!(c.args, vec!["hi"]);
    assert!(matches!(&c.stdout_redirect, Some(Redirect::Overwrite(t)) if t == "out"));
}

#[test]
fn parse_quotes() {
    let p = Pipeline::parse("echo 'a b' \"c $d\" \"x\\\"y\" \"p\\qr\"").unwrap();
    assert_eq!(p.commands[0].args, vec!["a b", "c $d", "x\"y", "p\\qr"]);
    let p = Pipeline::parse("echo '' \"\"").unwrap();
    assert_eq!(p.commands[0].args, vec!["", ""]);
}

#[test]
fn quotes_split_words() {
    let p = Pipeline::parse("echo ab'cd'ef").unwrap();
    assert_eq!(p.commands[0].args, vec!["ab", "cd", "ef"]);
}

#[test]
fn pipe_inside_quotes_is_text() {
    let p = Pipeline::parse("echo 'a|b'").unwrap();
    assert!(p.is_single());
    assert_eq!(p.commands[0].args, vec!["a|b"]);
}

#[test]
fn parse_errors() {
    assert_eq!(Pipeline::parse("").err().unwrap(), ParseError::EmptyInput);
    assert_eq!(Pipeline::parse("   \t ").err().unwrap(), ParseError::EmptyInput);
    assert_eq!(Pipeline::parse("echo 'oops").err().unwrap(), ParseError::UnterminatedQuote);
    assert_eq!(Pipeline::parse("echo \"oops").err().unwrap(), ParseError::UnterminatedQuote);
    assert_eq!(Pipeline::parse("| ls").err().unwrap(), ParseError::UnexpectedPipe);
    assert_eq!(Pipeline::parse("ls || wc").err().unwrap(), ParseError::UnexpectedPipe);
    assert_eq!(Pipeline::parse("ls >").err().unwrap(), ParseError::MissingRedirectTarget);
    assert_eq!(Pipeline::parse("ls > | wc").err().unwrap(), ParseError::MissingRedirectTarget);
    assert_eq!(Pipeline::parse("ls <").err().unwrap(), ParseError::MissingRedirectTarget);
    assert_eq!(Pipeline::parse("> out").err().unwrap(), ParseError::EmptyInput);
}

#[test]
fn trailing_pipe_is_accepted() {
    let p = Pipeline::parse("ls |").unwrap();
    assert_eq!(names(&p), vec!["ls"]);
}

#[test]
fn parse_error_messages() {
    assert_eq!(ParseError::EmptyInput.message(), "empty input");
    assert_eq!(ParseError::UnterminatedQuote.message(), "unterminated quote");
    assert_eq!(ParseError::UnexpectedPipe.message(), "unexpected pipe '|'");
    assert_eq!(ParseError::UnexpectedRedirect.message(), "unexpected redirect");
    assert_eq!(ParseError::MissingRedirectTarget.message(), "missing redirect target");
    assert_eq!(ParseError::EmptyCommand.message(), "empty command in pipeline");
}

#[test]
fn command_new_is_bare() {
    let c = Command::new(String::from("ls"));
    assert_eq!(c.name, "ls");
    assert!(c.args.is_empty());
    assert!(c.stdin_redirect.is_none());
    assert!(c.stdout_redirect.is_none());
}

#[test]
fn glob_is_returned_unexpanded() {
    assert_eq!(expand_glob("*.txt"), vec!["*.txt"]);
    assert_eq!(expand_glob("file?"), vec!["file?"]);
    assert_eq!(expand_glob("plain"), vec!["plain"]);
}

#[test]
fn history_push_trims_and_skips_repeats() {
    let mut h = History::new(10);
    assert!(h.is_empty());
    h.push("  ls  ");
    h.push("ls");
    h.push("   ");
    h.push("pwd");
    h.push("ls");
    assert_eq!(h.entries(), &["ls".to_string(), "pwd".to_string(), "ls".to_string()]);
    assert_eq!(h.len(), 3);
}

#[test]
fn history_drops_oldest_beyond_max() {
    let mut h = History::new(2);
    h.push("a");
    h.push("b");
    h.push("c");
    assert_eq!(h.entries(), &["b".to_string(), "c".to_string()]);
}

#[test]
fn history_navigation() {
    let mut h = History::new(10);
    assert_eq!(h.prev(), None);
    h.push("one");
    h.push("two");
    assert_eq!(h.prev(), Some("two"));
    assert_eq!(h.prev(), Some("one"));
    assert_eq!(h.prev(), None);
    assert_eq!(h.next(), Some("two"));
    assert_eq!(h.next(), None);
    assert_eq!(h.next(), None);
    h.prev();
    h.prev();
    h.reset_cursor();
    assert_eq!(h.prev(), Some("two"));
}

#[test]
fn history_with_no_room_keeps_blank_lines_out() {
    let mut h = History::new(0);
    h.push("   ");
    assert!(h.is_empty());
}

#[test]
fn completion_of_command_names() {
    let t = TabCompleter::new();
    let c = t.complete("mo", true);
    assert_eq!(c.candidates, vec!["mount"]);
    assert_eq!(c.common_prefix, "mount");

    let c = t.complete("u", true);
    assert_eq!(c.candidates, vec!["umount", "uptime", "unset", "uniq"]);
    assert_eq!(c.common_prefix, "u");

    let c = t.complete("ex", true);
    assert_eq!(c.candidates, vec!["export", "exit"]);
    assert_eq!(c.common_prefix, "ex");

    let c = t.complete("zzz", true);
    assert!(c.candidates.is_empty());
    assert_eq!(c.common_prefix, "");

    let c = t.complete("c", false);
    assert!(c.candidates.is_empty());
    assert_eq!(c.common_prefix, "");
}

#[test]
fn completion_of_empty_word_lists_everything() {
    let t = TabCompleter::default();
    let c = t.complete("", true);
    assert_eq!(c.candidates.len(), 45);
    assert_eq!(c.common_prefix, "");
}

#[test]
fn completions_start_with_partial_and_share_the_longest_prefix() {
    let t = TabCompleter::new();
    for partial in ["", "s", "sh", "e", "h", "pi", "x"] {
        let c = t.complete(partial, true);
        for cand in &c.candidates {
            assert!(cand.starts_with(partial));
            assert!(cand.starts_with(c.common_prefix.as_str()));
        }
    }
    let c = t.complete("s", true);
    assert_eq!(c.candidates, vec!["shutdown", "ssh", "set", "sort"]);
    assert_eq!(c.common_prefix, "s");
    let c = t.complete("h", true);
    assert_eq!(c.candidates, vec!["head", "help", "history"]);
    assert_eq!(c.common_prefix, "h");
    let c = t.complete("he", true);
    assert_eq!(c.candidates, vec!["head", "help"]);
    assert_eq!(c.common_prefix, "he");
}

#[test]
fn every_parsed_pipeline_has_a_command() {
    for line in ["a", "a | b", "a > f", "'x' | \"y\"", "ls |", "a<b>c"] {
        let p = Pipeline::parse(line).unwrap();
        assert!(!p.commands.is_empty());
    }
}

#[test]
fn pushing_twice_stores_once_and_stays_bounded() {
    let mut h = History::new(3);
    for line in ["a", "b", "b", " b ", "c", "d", "d"] {
        h.push(line);
        assert!(h.len() <= 3);
    }
    assert_eq!(h.entries(), &["b".to_string(), "c".to_string(), "d".to_string()]);
    assert_eq!(h.max_entries(), 3);
}

#[test]
fn only_spaces_and_tabs_separate_words() {
    let p = Pipeline::parse("echo a\nb\tc").unwrap();
    assert_eq!(p.commands[0].args, vec!["a\nb", "c"]);
    let p = Pipeline::parse("\u{3000}echo\u{3000}x\u{3000}").unwrap();
    assert_eq!(p.commands[0].name, "echo\u{3000}x");
    assert!(p.commands[0].args.is_empty());
}

#[test]
fn escapes_and_stacked_redirects() {
    assert_eq!(Pipeline::parse("echo \"a\\\"").err().unwrap(), ParseError::UnterminatedQuote);
    let p = Pipeline::parse("echo \"a\\\\\"").unwrap();
    assert_eq!(p.commands[0].args, vec!["a\\"]);
    let p = Pipeline::parse("echo \"\\$HOME\"").unwrap();
    assert_eq!(p.commands[0].args, vec!["$HOME"]);
    assert_eq!(Pipeline::parse("echo a >>> f").err().unwrap(), ParseError::MissingRedirectTarget);
    assert_eq!(Pipeline::parse("cat << f").err().unwrap(), ParseError::MissingRedirectTarget);
    let p = Pipeline::parse("cmd 2>f").unwrap();
    assert_eq!(p.commands[0].args, vec!["2"]);
    assert!(matches!(&p.commands[0].stdout_redirect, Some(Redirect::Overwrite(t)) if t == "f"));
    let p = Pipeline::parse("a > x > y").unwrap();
    assert!(matches!(&p.commands[0].stdout_redirect, Some(Redirect::Overwrite(t)) if t == "y"));
}

#[test]
fn split_command_lines_respects_quotes() {
    assert_eq!(split_command_lines("a; b"), vec!["a".to_string(), " b".to_string()]);
    assert_eq!(split_command_lines("echo 'x;y' ; z"), vec!["echo 'x;y' ".to_string(), " z".to_string()]);
    assert_eq!(split_command_lines("echo \"q\\\";r\""), vec!["echo \"q\\\";r\"".to_string()]);
    assert_eq!(split_command_lines("echo 'open;"), vec!["echo 'open;".to_string()]);
    assert_eq!(split_command_lines(""), vec![String::new()]);
}

#[test]
fn line_without_semicolon_stays_whole() {
    assert_eq!(split_command_lines("cat /a | grep x > /b"), vec!["cat /a | grep x > /b".to_string()]);
}
