use std::collections::{BTreeMap, VecDeque};
use std::sync::{Arc, Mutex};

use shell_nostd::ai::{AiContext, AiProposal, AiShellCallback};
use shell_nostd::builtin::{SystemInfo, Vfs};
use shell_nostd::shell::{LineReader, Shell};

struct Fs {
    files: BTreeMap<String, Vec<u8>>,
}

impl Fs {
    fn new() -> Self {
        Fs { files: BTreeMap::new() }
    }
}

impl Vfs for Fs {
    fn list_dir(&self, _path: &str) -> Result<Vec<String>, String> {
        Ok(self.files.keys().cloned().collect())
    }
    fn read_file(&self, path: &str) -> Result<Vec<u8>, String> {
        self.files.get(path).cloned().ok_or_else(|| "not found".to_string())
    }
    fn write_file(&mut self, path: &str, data: &[u8]) -> Result<(), String> {
        self.files.insert(path.to_string(), data.to_vec());
        Ok(())
    }
    fn append_file(&mut self, path: &str, data: &[u8]) -> Result<(), String> {
        self.files.entry(path.to_string()).or_default().extend_from_slice(data);
        Ok(())
    }
    fn copy_file(&mut self, _src: &str, _dst: &str) -> Result<(), String> {
        Err("unsupported".to_string())
    }
    fn move_file(&mut self, _src: &str, _dst: &str) -> Result<(), String> {
        Err("unsupported".to_string())
    }
    fn remove(&mut self, _path: &str) -> Result<(), String> {
        Err("unsupported".to_string())
    }
    fn mkdir(&mut self, _path: &str) -> Result<(), String> {
        Ok(())
    }
    fn touch(&mut self, path: &str) -> Result<(), String> {
        self.files.entry(path.to_string()).or_default();
        Ok(())
    }
    fn path_exists(&self, path: &str) -> bool {
        path == "/" || self.files.contains_key(path)
    }
    fn is_dir(&self, path: &str) -> bool {
        path == "/"
    }
    fn mount(&mut self, _device: &str, _path: &str, _fstype: &str) -> Result<(), String> {
        Ok(())
    }
    fn umount(&mut self, _path: &str) -> Result<(), String> {
        Ok(())
    }
}

struct Sys;

impl SystemInfo for Sys {
    fn list_agents(&self) -> Vec<(u64, String, String)> {
        Vec::new()
    }
    fn kill_agent(&mut self, _id: u64) -> Result<(), String> {
        Ok(())
    }
    fn clear_screen(&mut self) {}
    fn reboot(&mut self) {}
    fn shutdown(&mut self) {}
    fn ifconfig(&self) -> Vec<(String, String, String, String)> {
        Vec::new()
    }
    fn ping(&self, _host: &str) -> Result<String, String> {
        Ok("pong".to_string())
    }
    fn date(&self) -> String {
        "today".to_string()
    }
    fn uptime_secs(&self) -> u64 {
        0
    }
    fn memory_info(&self) -> (u64, u64, u64) {
        (0, 0, 0)
    }
    fn disk_usage(&self) -> Vec<(String, u64, u64, u64)> {
        Vec::new()
    }
}

struct Term {
    input: VecDeque<String>,
    output: String,
    interrupted: bool,
}

impl Term {
    fn new(lines: &[&str]) -> Self {
        Term { input: lines.iter().map(|s| s.to_string()).collect(), output: String::new(), interrupted: false }
    }
}

impl LineReader for Term {
    fn read_line(&mut self, _prompt: &str) -> Option<String> {
        self.input.pop_front()
    }
    fn write_output(&mut self, text: &str) {
        self.output.push_str(text);
    }
    fn check_interrupt(&self) -> bool {
        self.interrupted
    }
    fn clear_interrupt(&mut self) {
        self.interrupted = false;
    }
}

struct Agent {
    commands: Vec<String>,
    contexts: Arc<Mutex<Vec<(String, Vec<String>, usize)>>>,
}

impl AiShellCallback for Agent {
    fn interpret(&mut self, query: &str, context: &AiContext) -> Result<AiProposal, String> {
        self.contexts.lock().unwrap().push((context.pwd.clone(), context.recent_history.clone(), context.env_vars.len()));
        if query.contains("fail") {
            return Err("agent error".to_string());
        }
        Ok(AiProposal { explanation: format!("for: {}", query), commands: self.commands.clone(), confirmed: false })
    }
    fn is_available(&self) -> bool {
        true
    }
}

fn agent(cmds: &[&str]) -> Box<Agent> {
    Box::new(Agent { commands: cmds.iter().map(|s| s.to_string()).collect(), contexts: Arc::new(Mutex::new(Vec::new())) })
}

#[test]
fn new_shell_defaults() {
    let sh = Shell::new();
    assert!(sh.running);
    assert_eq!(sh.last_exit_code, 0);
    assert!(sh.history.is_empty());
    assert_eq!(sh.env.pwd(), "/");
    let sh = Shell::default();
    assert!(sh.running);
}

#[test]
fn execute_input_runs_builtins() {
    let mut sh = Shell::new();
    let (mut fs, mut sys, mut t) = (Fs::new(), Sys, Term::new(&[]));
    assert_eq!(sh.execute_input("echo hi there", &mut fs, &mut sys, &mut t), ("hi there".to_string(), 0));
    assert_eq!(sh.execute_input("pwd", &mut fs, &mut sys, &mut t), ("/".to_string(), 0));
    assert_eq!(sh.execute_input("   ", &mut fs, &mut sys, &mut t), (String::new(), 0));
    assert_eq!(sh.execute_input("ssh x", &mut fs, &mut sys, &mut t), ("ssh: not yet implemented (see crates/sshd)".to_string(), 1));
}

#[test]
fn execute_input_expands_variables_first() {
    let mut sh = Shell::new();
    let (mut fs, mut sys, mut t) = (Fs::new(), Sys, Term::new(&[]));
    sh.env.set("WHO", "world");
    assert_eq!(sh.execute_input("echo hello $WHO", &mut fs, &mut sys, &mut t), ("hello world".to_string(), 0));
    assert_eq!(sh.execute_input("echo ~", &mut fs, &mut sys, &mut t), ("/".to_string(), 0));
}

#[test]
fn unknown_commands_and_parse_errors() {
    let mut sh = Shell::new();
    let (mut fs, mut sys, mut t) = (Fs::new(), Sys, Term::new(&[]));
    assert_eq!(sh.execute_input("./prog", &mut fs, &mut sys, &mut t), ("./prog: command not found".to_string(), 127));
    assert_eq!(sh.execute_input("FOO=bar", &mut fs, &mut sys, &mut t), ("FOO=bar: command not found".to_string(), 127));
    assert_eq!(
        sh.execute_input("echo 'open", &mut fs, &mut sys, &mut t),
        ("shell-nostd: parse error: unterminated quote".to_string(), 1)
    );
    assert_eq!(
        sh.execute_input("ls | | wc", &mut fs, &mut sys, &mut t),
        ("shell-nostd: parse error: unexpected pipe '|'".to_string(), 1)
    );
}

#[test]
fn exit_command_stops_shell() {
    let mut sh = Shell::new();
    let (mut fs, mut sys, mut t) = (Fs::new(), Sys, Term::new(&[]));
    assert_eq!(sh.execute_input("exit", &mut fs, &mut sys, &mut t), (String::new(), 0));
    assert!(!sh.running);
}

#[test]
fn cd_updates_environment() {
    let mut sh = Shell::new();
    let (mut fs, mut sys, mut t) = (Fs::new(), Sys, Term::new(&[]));
    sh.env.set_pwd("/tmp");
    assert_eq!(sh.execute_input("cd /", &mut fs, &mut sys, &mut t), (String::new(), 0));
    assert_eq!(sh.env.pwd(), "/");
    assert_eq!(
        sh.execute_input("cd /missing", &mut fs, &mut sys, &mut t),
        ("cd: /missing: No such file or directory".to_string(), 1)
    );
    assert_eq!(sh.execute_input("set A=1", &mut fs, &mut sys, &mut t), (String::new(), 0));
    assert_eq!(sh.env.get("A"), Some("1"));
}

#[test]
fn pipelines_run_through_builtins() {
    let mut sh = Shell::new();
    let (mut fs, mut sys, mut t) = (Fs::new(), Sys, Term::new(&[]));
    fs.files.insert("/data".to_string(), b"apple\nbanana\ncherry\n".to_vec());
    assert_eq!(sh.execute_input("cat /data | grep an", &mut fs, &mut sys, &mut t), ("banana".to_string(), 0));
    assert_eq!(sh.execute_input("cat /data | head -n 1 | tail", &mut fs, &mut sys, &mut t), ("apple".to_string(), 0));
    assert_eq!(sh.execute_input("echo saved > /out", &mut fs, &mut sys, &mut t), (String::new(), 0));
    assert_eq!(fs.files.get("/out").unwrap(), b"saved");
    assert_eq!(sh.execute_input("echo piped | cat > /out", &mut fs, &mut sys, &mut t), (String::new(), 0));
    assert_eq!(fs.files.get("/out").unwrap(), b"piped");
}

#[test]
fn pipeline_errors_combine_streams() {
    let mut sh = Shell::new();
    let (mut fs, mut sys, mut t) = (Fs::new(), Sys, Term::new(&[]));
    assert_eq!(
        sh.execute_input("echo x | nosuch", &mut fs, &mut sys, &mut t),
        ("nosuch: command not found".to_string(), 127)
    );
    assert_eq!(sh.execute_input("echo x | cat /none", &mut fs, &mut sys, &mut t), ("not found".to_string(), 1));
    assert_eq!(
        sh.execute_input("cat < /none | cat", &mut fs, &mut sys, &mut t),
        ("cat: /none: not found".to_string(), 1)
    );
}

#[test]
fn handle_line_records_history_and_exit_code() {
    let mut sh = Shell::new();
    let (mut fs, mut sys, mut t) = (Fs::new(), Sys, Term::new(&[]));
    assert!(sh.handle_line("  echo one  ", &mut fs, &mut sys, &mut t));
    assert_eq!(t.output, "one\n");
    assert_eq!(sh.history.entries(), &["echo one".to_string()]);
    assert!(sh.handle_line("cat /missing", &mut fs, &mut sys, &mut t));
    assert_eq!(sh.last_exit_code, 1);
    assert_eq!(t.output, "one\nnot found\n");
    assert!(!sh.handle_line("   ", &mut fs, &mut sys, &mut t));
    assert_eq!(sh.history.len(), 2);
    assert!(sh.running);
}

#[test]
fn handle_line_output_ending_in_newline_is_not_doubled() {
    let mut sh = Shell::new();
    let (mut fs, mut sys, mut t) = (Fs::new(), Sys, Term::new(&[]));
    fs.files.insert("/f".to_string(), b"line\n".to_vec());
    assert!(sh.handle_line("cat /f", &mut fs, &mut sys, &mut t));
    assert_eq!(t.output, "line\n");
    assert!(sh.handle_line("cd /", &mut fs, &mut sys, &mut t));
    assert_eq!(t.output, "line\n");
}

#[test]
fn handle_line_exit_stops() {
    let mut sh = Shell::new();
    let (mut fs, mut sys, mut t) = (Fs::new(), Sys, Term::new(&[]));
    assert!(sh.handle_line("exit", &mut fs, &mut sys, &mut t));
    assert!(!sh.running);
    assert_eq!(sh.last_exit_code, 0);
}

#[test]
fn handle_line_interrupt_cancels() {
    let mut sh = Shell::new();
    let (mut fs, mut sys, mut t) = (Fs::new(), Sys, Term::new(&[]));
    t.interrupted = true;
    assert!(!sh.handle_line("exit", &mut fs, &mut sys, &mut t));
    assert!(sh.running);
    assert!(!t.interrupted);
    assert_eq!(t.output, "^C\n");
    assert_eq!(sh.history.entries(), &["exit".to_string()]);
}

#[test]
fn natural_language_without_agent_fails() {
    let mut sh = Shell::new();
    let (mut fs, mut sys, mut t) = (Fs::new(), Sys, Term::new(&[]));
    assert_eq!(
        sh.execute_input("please list files", &mut fs, &mut sys, &mut t),
        ("AI assistant not available. Is an agent session active?".to_string(), 1)
    );
}

#[test]
fn natural_language_confirmed_runs_commands() {
    let mut sh = Shell::new();
    sh.set_ai_callback(agent(&["echo first", "cd /", "echo second"]));
    let (mut fs, mut sys, mut t) = (Fs::new(), Sys, Term::new(&[" YeS "]));
    let r = sh.execute_input("do things", &mut fs, &mut sys, &mut t);
    assert_eq!(r, ("first\nsecond\n".to_string(), 0));
    assert!(t.output.starts_with("\x1b[1;36m[AI Assistant]\x1b[0m for: do things\n\n"));
    assert!(t.output.contains("Execute? [y/N] \x1b[2m$ echo first\x1b[0m\nfirst\n\x1b[2m$ cd /\x1b[0m\n\x1b[2m$ echo second\x1b[0m\nsecond\n"));
}

#[test]
fn natural_language_stops_at_first_failure() {
    let mut sh = Shell::new();
    sh.set_ai_callback(agent(&["echo a", "cat /nope", "echo never"]));
    let (mut fs, mut sys, mut t) = (Fs::new(), Sys, Term::new(&["y"]));
    let r = sh.execute_input("go", &mut fs, &mut sys, &mut t);
    assert_eq!(r, ("a\nnot found\n".to_string(), 1));
    assert!(!t.output.contains("\x1b[2m$ echo never"));
}

#[test]
fn natural_language_rejected_or_cancelled() {
    let mut sh = Shell::new();
    sh.set_ai_callback(agent(&["echo a"]));
    let (mut fs, mut sys) = (Fs::new(), Sys);
    let mut t = Term::new(&["no"]);
    assert_eq!(sh.execute_input("go", &mut fs, &mut sys, &mut t), ("Cancelled.".to_string(), 0));
    let mut t = Term::new(&["yess"]);
    assert_eq!(sh.execute_input("go", &mut fs, &mut sys, &mut t), ("Cancelled.".to_string(), 0));
    let mut t = Term::new(&[]);
    assert_eq!(sh.execute_input("go", &mut fs, &mut sys, &mut t), ("Cancelled.".to_string(), 1));
    let mut t = Term::new(&["y"]);
    assert_eq!(sh.execute_input("please fail", &mut fs, &mut sys, &mut t), ("agent error".to_string(), 1));
}

#[test]
fn agent_sees_recent_history_newest_first() {
    let mut sh = Shell::new();
    let (mut fs, mut sys, mut t) = (Fs::new(), Sys, Term::new(&[]));
    for i in 0..12 {
        sh.handle_line(&format!("echo {}", i), &mut fs, &mut sys, &mut t);
    }
    let log = Arc::new(Mutex::new(Vec::new()));
    sh.set_ai_callback(Box::new(Agent { commands: Vec::new(), contexts: log.clone() }));
    let mut t2 = Term::new(&["n"]);
    sh.execute_input("what happened", &mut fs, &mut sys, &mut t2);
    let seen = log.lock().unwrap();
    assert_eq!(seen.len(), 1);
    assert_eq!(seen[0].0, "/");
    let expected: Vec<String> = (2..12).rev().map(|i| format!("echo {}", i)).collect();
    assert_eq!(seen[0].1, expected);
    assert_eq!(seen[0].2, 8);
}

#[test]
fn set_agent_name_shows_in_prompt() {
    let mut sh = Shell::new();
    sh.prompt.set_color(false);
    sh.set_agent_name(Some("helper".to_string()));
    assert_eq!(sh.prompt.render(&sh.env), "[root@claudio ~](helper)# ");
}

#[test]
fn startup_rc_runs_script() {
    let mut sh = Shell::new();
    let (mut fs, mut sys, mut t) = (Fs::new(), Sys, Term::new(&[]));
    fs.files.insert(
        "/etc/claudio.rc".to_string(),
        b"# startup\nGREETING=hello\necho $GREETING\nif cat /missing; then\necho yes\nelse\necho no\nfi\n".to_vec(),
    );
    sh.run_startup_rc(&mut fs, &mut sys, &mut t);
    assert_eq!(t.output, "hello\nno\n");
    assert_eq!(sh.env.get("GREETING"), Some("hello"));
    assert_eq!(sh.env.get("?"), Some("0"));
}

#[test]
fn startup_rc_reports_parse_errors() {
    let mut sh = Shell::new();
    let (mut fs, mut sys, mut t) = (Fs::new(), Sys, Term::new(&[]));
    fs.files.insert("/etc/claudio.rc".to_string(), b"for x y\n".to_vec());
    sh.run_startup_rc(&mut fs, &mut sys, &mut t);
    assert_eq!(t.output, "shell-nostd: error in /etc/claudio.rc: line 1: missing 'in' in for loop\n");
}

#[test]
fn startup_rc_absent_does_nothing() {
    let mut sh = Shell::new();
    let (mut fs, mut sys, mut t) = (Fs::new(), Sys, Term::new(&[]));
    sh.run_startup_rc(&mut fs, &mut sys, &mut t);
    assert_eq!(t.output, "");
    assert_eq!(sh.env.get("?"), None);
}

#[test]
fn startup_rc_exit_stops_shell() {
    let mut sh = Shell::new();
    let (mut fs, mut sys, mut t) = (Fs::new(), Sys, Term::new(&[]));
    fs.files.insert("/etc/claudio.rc".to_string(), b"exit\n".to_vec());
    sh.run_startup_rc(&mut fs, &mut sys, &mut t);
    assert!(!sh.running);
}

#[test]
fn single_command_honours_its_redirect() {
    let mut sh = Shell::new();
    let (mut fs, mut sys, mut t) = (Fs::new(), Sys, Term::new(&[]));
    assert_eq!(sh.execute_input("echo hi > /out.txt", &mut fs, &mut sys, &mut t), (String::new(), 0));
    assert_eq!(fs.files.get("/out.txt").unwrap(), b"hi");
    assert_eq!(sh.execute_input("echo more >> /out.txt", &mut fs, &mut sys, &mut t), (String::new(), 0));
    assert_eq!(fs.files.get("/out.txt").unwrap(), b"himore");
    assert_eq!(sh.execute_input("cat < /out.txt", &mut fs, &mut sys, &mut t), ("himore".to_string(), 0));
}

#[test]
fn status_expands_to_last_exit_code() {
    let mut sh = Shell::new();
    let (mut fs, mut sys, mut t) = (Fs::new(), Sys, Term::new(&[]));
    sh.last_exit_code = 127;
    assert_eq!(sh.execute_input("echo $?", &mut fs, &mut sys, &mut t), ("127".to_string(), 0));
    sh.last_exit_code = 0;
    assert_eq!(sh.execute_input("echo code $?", &mut fs, &mut sys, &mut t), ("code 0".to_string(), 0));
}

#[test]
fn semicolons_separate_commands() {
    let mut sh = Shell::new();
    let (mut fs, mut sys, mut t) = (Fs::new(), Sys, Term::new(&[]));
    assert_eq!(sh.execute_input("echo a; echo b", &mut fs, &mut sys, &mut t), ("a\nb".to_string(), 0));
    assert_eq!(sh.execute_input("echo 'a;b'", &mut fs, &mut sys, &mut t), ("a;b".to_string(), 0));
    assert_eq!(sh.execute_input("set X=1; echo $X; nosuch", &mut fs, &mut sys, &mut t).1, 127);
    assert_eq!(sh.env.get("X"), Some("1"));
    assert_eq!(sh.execute_input("echo x;", &mut fs, &mut sys, &mut t), ("x".to_string(), 0));
}

#[test]
fn startup_lines_see_variables_and_status() {
    let mut sh = Shell::new();
    let (mut fs, mut sys, mut t) = (Fs::new(), Sys, Term::new(&[]));
    fs.files.insert("/etc/claudio.rc".to_string(), b"X=hi\necho $X\nnosuch\necho $?\n".to_vec());
    sh.run_startup_rc(&mut fs, &mut sys, &mut t);
    assert_eq!(sh.env.get("X"), Some("hi"));
    assert_eq!(t.output, "hi\nnosuch: command not found\n127\n");
}

#[test]
fn command_lines_act_on_the_file_system_in_turn() {
    let mut sh = Shell::new();
    let (mut fs, mut sys, mut t) = (Fs::new(), Sys, Term::new(&[]));
    assert_eq!(sh.execute_input("touch /a; echo x > /b; cat /b", &mut fs, &mut sys, &mut t), ("x".to_string(), 0));
    assert!(fs.files.contains_key("/a"));
    assert_eq!(fs.files.get("/b").unwrap(), b"x");
}

#[test]
fn blank_line_touches_nothing() {
    let mut sh = Shell::new();
    let (mut fs, mut sys, mut t) = (Fs::new(), Sys, Term::new(&[]));
    assert!(!sh.handle_line("   ", &mut fs, &mut sys, &mut t));
    assert!(fs.files.is_empty());
    assert_eq!(t.output, "");
}

#[test]
fn startup_rc_runs_functions_and_loops() {
    let mut sh = Shell::new();
    let (mut fs, mut sys, mut t) = (Fs::new(), Sys, Term::new(&[]));
    fs.files.insert(
        "/etc/claudio.rc".to_string(),
        b"tick() {\necho tick\n}\ntick\nwhile nosuch; do\necho never\ndone\ntick\n".to_vec(),
    );
    sh.run_startup_rc(&mut fs, &mut sys, &mut t);
    assert_eq!(t.output, "tick\ntick\n");
}

#[test]
fn startup_functions_see_their_arguments() {
    let mut sh = Shell::new();
    let (mut fs, mut sys, mut t) = (Fs::new(), Sys, Term::new(&[]));
    fs.files.insert("/etc/claudio.rc".to_string(), b"greet() {\necho hi $1\n}\ngreet bob\n".to_vec());
    sh.run_startup_rc(&mut fs, &mut sys, &mut t);
    assert_eq!(t.output, "hi bob\n");
}

#[test]
fn ask_and_agent_hand_their_request_to_the_agent() {
    let mut sh = Shell::new();
    let (mut fs, mut sys) = (Fs::new(), Sys);
    let mut t = Term::new(&[]);
    assert_eq!(
        sh.execute_input("ask list files", &mut fs, &mut sys, &mut t),
        ("AI assistant not available. Is an agent session active?".to_string(), 1)
    );
    assert_eq!(sh.execute_input("ask", &mut fs, &mut sys, &mut t), ("ask: usage: ask REQUEST".to_string(), 1));
    assert_eq!(sh.execute_input("agent   ", &mut fs, &mut sys, &mut t), ("agent: usage: agent REQUEST".to_string(), 1));
    sh.set_ai_callback(agent(&["echo done"]));
    let mut t = Term::new(&["y"]);
    let r = sh.execute_input("ask   tidy up ", &mut fs, &mut sys, &mut t);
    assert_eq!(r, ("done\n".to_string(), 0));
    assert!(t.output.starts_with("\x1b[1;36m[AI Assistant]\x1b[0m for: tidy up\n"));
    let mut t = Term::new(&["no"]);
    assert_eq!(sh.execute_input("agent please fail", &mut fs, &mut sys, &mut t), ("agent error".to_string(), 1));
}
