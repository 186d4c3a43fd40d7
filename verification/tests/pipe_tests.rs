use std::collections::BTreeMap;

use shell_nostd::parser::Pipeline;
use shell_nostd::pipe::{CommandExecutor, CommandOutput, PipelineExecutor};

/// Runs `upper` (upper-cases stdin), `emit` (prints its arguments), `fail`
/// (error code 3) and `count` (number of stdin bytes); records every call.
struct Recorder {
    files: BTreeMap<String, Vec<u8>>,
    calls: Vec<(String, Vec<String>, Option<Vec<u8>>)>,
    deny_writes: bool,
}

impl Recorder {
    fn new() -> Self {
        let mut files = BTreeMap::new();
        files.insert("in.txt".to_string(), b"from file".to_vec());
        Recorder { files, calls: Vec::new(), deny_writes: false }
    }
}

impl CommandExecutor for Recorder {
    fn execute(&mut self, name: &str, args: &[String], stdin: Option<&[u8]>) -> CommandOutput {
        self.calls.push((name.to_string(), args.to_vec(), stdin.map(|d| d.to_vec())));
        match name {
            "emit" => CommandOutput::success(args.join(" ").into_bytes()),
            "upper" => CommandOutput::success(stdin.unwrap_or(b"").to_ascii_uppercase()),
            "count" => CommandOutput::success(format!("{}", stdin.map(|d| d.len()).unwrap_or(0)).into_bytes()),
            "fail" => CommandOutput::error("fail: broken", 3),
            _ => CommandOutput::error(&format!("{}: command not found", name), 127),
        }
    }
    fn read_file(&mut self, path: &str) -> Result<Vec<u8>, String> {
        self.files.get(path).cloned().ok_or_else(|| "No such file".to_string())
    }
    fn write_file(&mut self, path: &str, data: &[u8]) -> Result<(), String> {
        if self.deny_writes {
            return Err("read-only".to_string());
        }
        self.files.insert(path.to_string(), data.to_vec());
        Ok(())
    }
    fn append_file(&mut self, path: &str, data: &[u8]) -> Result<(), String> {
        if self.deny_writes {
            return Err("read-only".to_string());
        }
        self.files.entry(path.to_string()).or_default().extend_from_slice(data);
        Ok(())
    }
}

fn run(line: &str, ex: &mut Recorder) -> CommandOutput {
    let p = Pipeline::parse(line).unwrap();
    PipelineExecutor::execute(&p, ex)
}

#[test]
fn output_constructors() {
    let ok = CommandOutput::success(b"hi".to_vec());
    assert_eq!(ok.stdout, b"hi");
    assert!(ok.stderr.is_empty());
    assert_eq!(ok.exit_code, 0);
    assert_eq!(ok.stdout_str(), "hi");
    let err = CommandOutput::error("bad thing", 2);
    assert!(err.stdout.is_empty());
    assert_eq!(err.stderr_str(), "bad thing");
    assert_eq!(err.exit_code, 2);
    let lossy = CommandOutput::success(vec![b'a', 0xff, b'b']);
    assert_eq!(lossy.stdout_str(), "a\u{fffd}b");
}

#[test]
fn single_command_answers_as_itself() {
    let mut ex = Recorder::new();
    let out = run("emit a b", &mut ex);
    assert_eq!(out.stdout_str(), "a b");
    assert_eq!(out.exit_code, 0);
    assert_eq!(ex.calls, vec![("emit".to_string(), vec!["a".to_string(), "b".to_string()], None)]);
}

#[test]
fn pipe_feeds_stdout_to_next_stdin() {
    let mut ex = Recorder::new();
    let out = run("emit hello | upper | count", &mut ex);
    assert_eq!(out.stdout_str(), "5");
    assert_eq!(ex.calls[1].2, Some(b"hello".to_vec()));
    assert_eq!(ex.calls[2].2, Some(b"HELLO".to_vec()));
}

#[test]
fn failing_middle_command_still_feeds_next() {
    let mut ex = Recorder::new();
    let out = run("fail | count", &mut ex);
    assert_eq!(out.stdout_str(), "0");
    assert_eq!(out.exit_code, 0);
    assert_eq!(ex.calls[1].2, Some(Vec::new()));
}

#[test]
fn last_command_error_is_returned() {
    let mut ex = Recorder::new();
    let out = run("emit x | fail", &mut ex);
    assert_eq!(out.exit_code, 3);
    assert_eq!(out.stderr_str(), "fail: broken");
}

#[test]
fn stdin_redirect_reads_file() {
    let mut ex = Recorder::new();
    let out = run("upper < in.txt", &mut ex);
    assert_eq!(out.stdout_str(), "FROM FILE");
    let out = run("emit a | upper < in.txt", &mut ex);
    assert_eq!(out.stdout_str(), "FROM FILE");
}

#[test]
fn stdin_redirect_failure_reports_and_stops() {
    let mut ex = Recorder::new();
    let out = run("upper < missing.txt | count", &mut ex);
    assert_eq!(out.stderr_str(), "upper: missing.txt: No such file");
    assert_eq!(out.exit_code, 1);
    assert!(out.stdout.is_empty());
    assert!(ex.calls.is_empty());
}

#[test]
fn stdout_redirect_writes_file_and_returns_nothing() {
    let mut ex = Recorder::new();
    let out = run("emit data > out.txt", &mut ex);
    assert!(out.stdout.is_empty());
    assert_eq!(out.exit_code, 0);
    assert_eq!(ex.files.get("out.txt").unwrap(), b"data");
    let out = run("emit more >> out.txt", &mut ex);
    assert!(out.stdout.is_empty());
    assert_eq!(ex.files.get("out.txt").unwrap(), b"datamore");
}

#[test]
fn redirect_in_the_middle_starves_the_next_command() {
    let mut ex = Recorder::new();
    let out = run("emit abc > mid.txt | count", &mut ex);
    assert_eq!(out.stdout_str(), "0");
    assert_eq!(ex.calls[1].2, None);
    assert_eq!(ex.files.get("mid.txt").unwrap(), b"abc");
}

#[test]
fn stdout_redirect_failure_reports() {
    let mut ex = Recorder::new();
    ex.deny_writes = true;
    let out = run("emit data > out.txt", &mut ex);
    assert_eq!(out.stderr_str(), "emit: redirect: read-only");
    assert_eq!(out.exit_code, 1);
}

#[test]
fn empty_pipeline_is_an_error() {
    let mut ex = Recorder::new();
    let p = Pipeline { commands: Vec::new() };
    let out = PipelineExecutor::execute(&p, &mut ex);
    assert_eq!(out.stderr_str(), "empty pipeline");
    assert_eq!(out.exit_code, 1);
}

#[test]
fn dyn_executor_is_accepted() {
    let mut ex = Recorder::new();
    let p = Pipeline::parse("emit x").unwrap();
    let dynex: &mut dyn CommandExecutor = &mut ex;
    let out = PipelineExecutor::execute(&p, dynex);
    assert_eq!(out.stdout_str(), "x");
}

#[test]
fn later_command_reads_its_own_redirect() {
    let mut ex = Recorder::new();
    ex.files.insert("/in".to_string(), b"file text".to_vec());
    let out = run("emit ignored | upper < /in", &mut ex);
    assert_eq!(out.stdout_str(), "FILE TEXT");
    assert_eq!(ex.calls[1].2, Some(b"file text".to_vec()));
    let out = run("emit x | upper < /missing | count", &mut ex);
    assert_eq!(out.stderr_str(), "upper: /missing: No such file");
    assert_eq!(out.exit_code, 1);
}
