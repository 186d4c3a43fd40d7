use std::collections::{BTreeMap, BTreeSet};

use shell_nostd::builtin::{
    df_report, execute_builtin, format_bytes, free_report, grep_text, head_text, ifconfig_report,
    ps_report, tail_text, uptime_report, SystemInfo, Vfs,
};
use shell_nostd::env::Environment;

struct MemFs {
    files: BTreeMap<String, Vec<u8>>,
    dirs: BTreeSet<String>,
    mounts: Vec<(String, String, String)>,
}

impl MemFs {
    fn new() -> Self {
        let mut dirs = BTreeSet::new();
        dirs.insert("/".to_string());
        dirs.insert("/tmp".to_string());
        let mut files = BTreeMap::new();
        files.insert("/tmp/a.txt".to_string(), b"one\ntwo\nthree\n".to_vec());
        files.insert("/tmp/b.txt".to_string(), b"four\n".to_vec());
        files.insert("/notes".to_string(), b"alpha\nbeta\ngamma\ndelta".to_vec());
        MemFs { files, dirs, mounts: Vec::new() }
    }
}

impl Vfs for MemFs {
    fn list_dir(&self, path: &str) -> Result<Vec<String>, String> {
        if !self.dirs.contains(path) {
            return Err(format!("{}: not a directory", path));
        }
        let prefix = if path.ends_with('/') { path.to_string() } else { format!("{}/", path) };
        Ok(self
            .files
            .keys()
            .chain(self.dirs.iter())
            .filter(|p| p.starts_with(&prefix) && !p[prefix.len()..].contains('/') && p.len() > prefix.len())
            .map(|p| p[prefix.len()..].to_string())
            .collect())
    }
    fn read_file(&self, path: &str) -> Result<Vec<u8>, String> {
        self.files.get(path).cloned().ok_or_else(|| format!("{}: no such file", path))
    }
    fn write_file(&mut self, path: &str, data: &[u8]) -> Result<(), String> {
        self.files.insert(path.to_string(), data.to_vec());
        Ok(())
    }
    fn append_file(&mut self, path: &str, data: &[u8]) -> Result<(), String> {
        self.files.entry(path.to_string()).or_default().extend_from_slice(data);
        Ok(())
    }
    fn copy_file(&mut self, src: &str, dst: &str) -> Result<(), String> {
        let d = self.read_file(src)?;
        self.files.insert(dst.to_string(), d);
        Ok(())
    }
    fn move_file(&mut self, src: &str, dst: &str) -> Result<(), String> {
        let d = self.files.remove(src).ok_or_else(|| format!("{}: no such file", src))?;
        self.files.insert(dst.to_string(), d);
        Ok(())
    }
    fn remove(&mut self, path: &str) -> Result<(), String> {
        if self.files.remove(path).is_some() || self.dirs.remove(path) {
            Ok(())
        } else {
            Err(format!("{}: no such file", path))
        }
    }
    fn mkdir(&mut self, path: &str) -> Result<(), String> {
        self.dirs.insert(path.to_string());
        Ok(())
    }
    fn touch(&mut self, path: &str) -> Result<(), String> {
        self.files.entry(path.to_string()).or_default();
        Ok(())
    }
    fn path_exists(&self, path: &str) -> bool {
        self.files.contains_key(path) || self.dirs.contains(path)
    }
    fn is_dir(&self, path: &str) -> bool {
        self.dirs.contains(path)
    }
    fn mount(&mut self, device: &str, path: &str, fstype: &str) -> Result<(), String> {
        if fstype == "bogus" {
            return Err("unknown filesystem type".to_string());
        }
        self.mounts.push((device.to_string(), path.to_string(), fstype.to_string()));
        Ok(())
    }
    fn umount(&mut self, path: &str) -> Result<(), String> {
        let before = self.mounts.len();
        self.mounts.retain(|m| m.1 != path);
        if self.mounts.len() == before {
            Err(format!("{}: not mounted", path))
        } else {
            Ok(())
        }
    }
}

struct FakeSys {
    agents: Vec<(u64, String, String)>,
    cleared: bool,
    rebooted: bool,
    halted: bool,
}

impl FakeSys {
    fn new() -> Self {
        FakeSys {
            agents: vec![(1, "alpha".to_string(), "running".to_string()), (12, "beta".to_string(), "idle".to_string())],
            cleared: false,
            rebooted: false,
            halted: false,
        }
    }
}

impl SystemInfo for FakeSys {
    fn list_agents(&self) -> Vec<(u64, String, String)> {
        self.agents.clone()
    }
    fn kill_agent(&mut self, id: u64) -> Result<(), String> {
        let before = self.agents.len();
        self.agents.retain(|a| a.0 != id);
        if self.agents.len() == before {
            Err(format!("kill: no agent {}", id))
        } else {
            Ok(())
        }
    }
    fn clear_screen(&mut self) {
        self.cleared = true;
    }
    fn reboot(&mut self) {
        self.rebooted = true;
    }
    fn shutdown(&mut self) {
        self.halted = true;
    }
    fn ifconfig(&self) -> Vec<(String, String, String, String)> {
        vec![("eth0".to_string(), "10.0.0.2".to_string(), "52:54:00:12:34:56".to_string(), "up".to_string())]
    }
    fn ping(&self, host: &str) -> Result<String, String> {
        if host == "unreachable" {
            Err(format!("ping: {}: host unreachable", host))
        } else {
            Ok(format!("64 bytes from {}: time=1ms", host))
        }
    }
    fn date(&self) -> String {
        "2024-01-01 00:00:00".to_string()
    }
    fn uptime_secs(&self) -> u64 {
        3725
    }
    fn memory_info(&self) -> (u64, u64, u64) {
        (2048, 1024, 1024)
    }
    fn disk_usage(&self) -> Vec<(String, u64, u64, u64)> {
        vec![("/".to_string(), 1073741824, 536870912, 536870912)]
    }
}

fn args(list: &[&str]) -> Vec<String> {
    list.iter().map(|s| s.to_string()).collect()
}

fn run(name: &str, a: &[&str], env: &mut Environment, fs: &mut MemFs, sys: &mut FakeSys) -> Option<Result<String, String>> {
    execute_builtin(name, &args(a), None, env, fs, sys)
}

fn run_in(name: &str, a: &[&str], stdin: &[u8], env: &mut Environment, fs: &mut MemFs, sys: &mut FakeSys) -> Option<Result<String, String>> {
    execute_builtin(name, &args(a), Some(stdin), env, fs, sys)
}

fn setup() -> (Environment, MemFs, FakeSys) {
    (Environment::new(), MemFs::new(), FakeSys::new())
}

#[test]
fn unknown_command_is_none() {
    let (mut env, mut fs, mut sys) = setup();
    assert_eq!(run("frobnicate", &[], &mut env, &mut fs, &mut sys), None);
    assert_eq!(run("LS", &[], &mut env, &mut fs, &mut sys), None);
    assert_eq!(run("", &[], &mut env, &mut fs, &mut sys), None);
}

#[test]
fn pwd_echo_and_fixed_answers() {
    let (mut env, mut fs, mut sys) = setup();
    assert_eq!(run("pwd", &[], &mut env, &mut fs, &mut sys), Some(Ok("/".to_string())));
    assert_eq!(run("echo", &["hello", "world"], &mut env, &mut fs, &mut sys), Some(Ok("hello world".to_string())));
    assert_eq!(run("echo", &[], &mut env, &mut fs, &mut sys), Some(Ok(String::new())));
    assert_eq!(run("history", &[], &mut env, &mut fs, &mut sys), Some(Ok("[history shown by shell loop]".to_string())));
    assert_eq!(run("exit", &[], &mut env, &mut fs, &mut sys), Some(Ok("exit".to_string())));
    assert_eq!(run("ssh", &["me@host"], &mut env, &mut fs, &mut sys), Some(Err("ssh: not yet implemented (see crates/sshd)".to_string())));
}

#[test]
fn help_lists_commands() {
    let (mut env, mut fs, mut sys) = setup();
    let out = run("help", &[], &mut env, &mut fs, &mut sys).unwrap().unwrap();
    assert!(out.starts_with("bare-metal Shell \u{2014} Built-in Commands\n====================================\n"));
    assert!(out.contains("  ls [path]            List directory contents\n"));
    assert!(out.ends_with("  Example: \"show me large files on the NVMe drive\"\n"));
}

#[test]
fn ls_lists_directory() {
    let (mut env, mut fs, mut sys) = setup();
    assert_eq!(run("ls", &["/tmp"], &mut env, &mut fs, &mut sys), Some(Ok("a.txt\nb.txt".to_string())));
    env.set_pwd("/tmp");
    assert_eq!(run("ls", &[], &mut env, &mut fs, &mut sys), Some(Ok("a.txt\nb.txt".to_string())));
    assert_eq!(run("ls", &["missing"], &mut env, &mut fs, &mut sys), Some(Err("/tmp/missing: not a directory".to_string())));
}

#[test]
fn cd_changes_pwd_only_into_directories() {
    let (mut env, mut fs, mut sys) = setup();
    assert_eq!(run("cd", &["tmp"], &mut env, &mut fs, &mut sys), Some(Ok(String::new())));
    assert_eq!(env.pwd(), "/tmp");
    assert_eq!(run("cd", &["a.txt"], &mut env, &mut fs, &mut sys), Some(Err("cd: /tmp/a.txt: Not a directory".to_string())));
    assert_eq!(run("cd", &["/nope"], &mut env, &mut fs, &mut sys), Some(Err("cd: /nope: No such file or directory".to_string())));
    assert_eq!(env.pwd(), "/tmp");
    assert_eq!(run("cd", &[], &mut env, &mut fs, &mut sys), Some(Ok(String::new())));
    assert_eq!(env.pwd(), "/");
}

#[test]
fn cat_reads_files_and_stdin() {
    let (mut env, mut fs, mut sys) = setup();
    assert_eq!(
        run("cat", &["/tmp/a.txt", "/tmp/b.txt"], &mut env, &mut fs, &mut sys),
        Some(Ok("one\ntwo\nthree\nfour\n".to_string()))
    );
    assert_eq!(run("cat", &["/tmp/zzz"], &mut env, &mut fs, &mut sys), Some(Err("/tmp/zzz: no such file".to_string())));
    assert_eq!(run("cat", &[], &mut env, &mut fs, &mut sys), Some(Err("cat: missing file operand".to_string())));
    assert_eq!(run_in("cat", &[], b"piped\xff", &mut env, &mut fs, &mut sys), Some(Ok("piped\u{fffd}".to_string())));
}

#[test]
fn file_operations() {
    let (mut env, mut fs, mut sys) = setup();
    env.set_pwd("/tmp");
    assert_eq!(run("cp", &["a.txt", "c.txt"], &mut env, &mut fs, &mut sys), Some(Ok(String::new())));
    assert_eq!(fs.files.get("/tmp/c.txt").unwrap(), b"one\ntwo\nthree\n");
    assert_eq!(run("mv", &["c.txt", "/d.txt"], &mut env, &mut fs, &mut sys), Some(Ok(String::new())));
    assert!(fs.files.contains_key("/d.txt") && !fs.files.contains_key("/tmp/c.txt"));
    assert_eq!(run("rm", &["/d.txt", "b.txt"], &mut env, &mut fs, &mut sys), Some(Ok(String::new())));
    assert!(!fs.files.contains_key("/d.txt") && !fs.files.contains_key("/tmp/b.txt"));
    assert_eq!(run("rm", &["gone"], &mut env, &mut fs, &mut sys), Some(Err("/tmp/gone: no such file".to_string())));
    assert_eq!(run("mkdir", &["sub"], &mut env, &mut fs, &mut sys), Some(Ok(String::new())));
    assert!(fs.dirs.contains("/tmp/sub"));
    assert_eq!(run("touch", &["new"], &mut env, &mut fs, &mut sys), Some(Ok(String::new())));
    assert_eq!(fs.files.get("/tmp/new").unwrap().len(), 0);
}

#[test]
fn file_operations_need_operands() {
    let (mut env, mut fs, mut sys) = setup();
    assert_eq!(run("cp", &["x"], &mut env, &mut fs, &mut sys), Some(Err("cp: missing operand".to_string())));
    assert_eq!(run("mv", &[], &mut env, &mut fs, &mut sys), Some(Err("mv: missing operand".to_string())));
    assert_eq!(run("rm", &[], &mut env, &mut fs, &mut sys), Some(Err("rm: missing operand".to_string())));
    assert_eq!(run("mkdir", &[], &mut env, &mut fs, &mut sys), Some(Err("mkdir: missing operand".to_string())));
    assert_eq!(run("touch", &[], &mut env, &mut fs, &mut sys), Some(Err("touch: missing operand".to_string())));
    assert_eq!(run("mount", &["a", "b"], &mut env, &mut fs, &mut sys), Some(Err("mount: usage: mount <device> <path> <fstype>".to_string())));
    assert_eq!(run("umount", &[], &mut env, &mut fs, &mut sys), Some(Err("umount: missing operand".to_string())));
}

#[test]
fn head_and_tail() {
    let (mut env, mut fs, mut sys) = setup();
    assert_eq!(run("head", &["-n", "2", "/notes"], &mut env, &mut fs, &mut sys), Some(Ok("alpha\nbeta".to_string())));
    assert_eq!(run("head", &["-3", "/notes"], &mut env, &mut fs, &mut sys), Some(Ok("alpha\nbeta\ngamma".to_string())));
    assert_eq!(run("head", &["/notes"], &mut env, &mut fs, &mut sys), Some(Ok("alpha\nbeta\ngamma\ndelta".to_string())));
    assert_eq!(run("tail", &["-n", "1", "/notes"], &mut env, &mut fs, &mut sys), Some(Ok("delta".to_string())));
    assert_eq!(run("tail", &["-2", "/tmp/a.txt"], &mut env, &mut fs, &mut sys), Some(Ok("two\nthree".to_string())));
    assert_eq!(run_in("head", &["-1"], b"x\ny\n", &mut env, &mut fs, &mut sys), Some(Ok("x".to_string())));
    assert_eq!(run_in("tail", &[], b"x\r\ny\r\n", &mut env, &mut fs, &mut sys), Some(Ok("x\ny".to_string())));
    assert_eq!(run("head", &[], &mut env, &mut fs, &mut sys), Some(Err("head: missing file operand".to_string())));
    assert_eq!(run("tail", &["-n", "5"], &mut env, &mut fs, &mut sys), Some(Err("tail: missing file operand".to_string())));
    assert_eq!(run("head", &["/nope"], &mut env, &mut fs, &mut sys), Some(Err("/nope: no such file".to_string())));
}

#[test]
fn head_ignores_bad_counts() {
    let (mut env, mut fs, mut sys) = setup();
    assert_eq!(run("head", &["-n", "x", "/notes"], &mut env, &mut fs, &mut sys), Some(Ok("alpha\nbeta\ngamma\ndelta".to_string())));
    assert_eq!(run("head", &["-n", "+1", "/notes"], &mut env, &mut fs, &mut sys), Some(Ok("alpha".to_string())));
    assert_eq!(run("head", &["-0", "/notes"], &mut env, &mut fs, &mut sys), Some(Ok(String::new())));
}

#[test]
fn grep_filters_lines() {
    let (mut env, mut fs, mut sys) = setup();
    assert_eq!(run("grep", &["a", "/notes"], &mut env, &mut fs, &mut sys), Some(Ok("alpha\nbeta\ngamma\ndelta".to_string())));
    assert_eq!(run("grep", &["mm", "/notes"], &mut env, &mut fs, &mut sys), Some(Ok("gamma".to_string())));
    assert_eq!(run("grep", &["zz", "/notes"], &mut env, &mut fs, &mut sys), Some(Ok(String::new())));
    assert_eq!(run_in("grep", &["o"], b"foo\nbar\nboo", &mut env, &mut fs, &mut sys), Some(Ok("foo\nboo".to_string())));
    assert_eq!(run("grep", &[], &mut env, &mut fs, &mut sys), Some(Err("grep: missing pattern".to_string())));
    assert_eq!(run("grep", &["x"], &mut env, &mut fs, &mut sys), Some(Err("grep: missing file operand".to_string())));
}

#[test]
fn mount_and_umount() {
    let (mut env, mut fs, mut sys) = setup();
    assert_eq!(run("mount", &["/dev/nvme0", "/mnt", "ext4"], &mut env, &mut fs, &mut sys), Some(Ok(String::new())));
    assert_eq!(fs.mounts.len(), 1);
    assert_eq!(run("mount", &["/dev/x", "/m", "bogus"], &mut env, &mut fs, &mut sys), Some(Err("unknown filesystem type".to_string())));
    assert_eq!(run("umount", &["/mnt"], &mut env, &mut fs, &mut sys), Some(Ok(String::new())));
    assert_eq!(run("umount", &["/mnt"], &mut env, &mut fs, &mut sys), Some(Err("/mnt: not mounted".to_string())));
}

#[test]
fn system_commands() {
    let (mut env, mut fs, mut sys) = setup();
    assert_eq!(
        run("ps", &[], &mut env, &mut fs, &mut sys),
        Some(Ok("  ID  NAME                STATUS\n   1  alpha               running\n  12  beta                idle\n".to_string()))
    );
    assert_eq!(run("kill", &["12"], &mut env, &mut fs, &mut sys), Some(Ok("Agent 12 terminated.".to_string())));
    assert_eq!(run("kill", &["12"], &mut env, &mut fs, &mut sys), Some(Err("kill: no agent 12".to_string())));
    assert_eq!(run("kill", &["abc"], &mut env, &mut fs, &mut sys), Some(Err("kill: invalid ID: abc".to_string())));
    assert_eq!(run("kill", &[], &mut env, &mut fs, &mut sys), Some(Err("kill: missing agent ID".to_string())));
    assert_eq!(run("clear", &[], &mut env, &mut fs, &mut sys), Some(Ok("\x1b[2J\x1b[H".to_string())));
    assert!(sys.cleared);
    assert_eq!(run("date", &[], &mut env, &mut fs, &mut sys), Some(Ok("2024-01-01 00:00:00".to_string())));
    assert_eq!(run("uptime", &[], &mut env, &mut fs, &mut sys), Some(Ok("up 1 hours, 2 minutes, 5 seconds".to_string())));
    assert_eq!(run("ping", &["host"], &mut env, &mut fs, &mut sys), Some(Ok("64 bytes from host: time=1ms".to_string())));
    assert_eq!(run("ping", &["unreachable"], &mut env, &mut fs, &mut sys), Some(Err("ping: unreachable: host unreachable".to_string())));
    assert_eq!(run("ping", &[], &mut env, &mut fs, &mut sys), Some(Err("ping: missing host".to_string())));
    assert_eq!(
        run("ifconfig", &[], &mut env, &mut fs, &mut sys),
        Some(Ok("eth0: 10.0.0.2 (up)\n  HWaddr: 52:54:00:12:34:56\n\n".to_string()))
    );
    assert_eq!(
        run("free", &[], &mut env, &mut fs, &mut sys),
        Some(Ok("              total       used       free\nMem:          2.0K        1.0K        1.0K\n".to_string()))
    );
    assert_eq!(
        run("df", &[], &mut env, &mut fs, &mut sys),
        Some(Ok("Filesystem       Size      Used     Avail  Mount\n/                    1.0G    512.0M    512.0M  /\n".to_string()))
    );
}

#[test]
fn reboot_and_shutdown_reach_the_system() {
    let (mut env, mut fs, mut sys) = setup();
    assert_eq!(run("reboot", &[], &mut env, &mut fs, &mut sys), Some(Ok(String::new())));
    assert!(sys.rebooted);
    assert_eq!(run("shutdown", &[], &mut env, &mut fs, &mut sys), Some(Ok(String::new())));
    assert!(sys.halted);
}

#[test]
fn set_unset_export_change_the_environment() {
    let (mut env, mut fs, mut sys) = setup();
    assert_eq!(run("set", &["A=1", "B=x=y"], &mut env, &mut fs, &mut sys), Some(Ok(String::new())));
    assert_eq!(env.get("A"), Some("1"));
    assert_eq!(env.get("B"), Some("x=y"));
    assert_eq!(
        run("set", &["C=3", "bad", "D=4"], &mut env, &mut fs, &mut sys),
        Some(Err("set: invalid format: bad (expected KEY=VALUE)".to_string()))
    );
    assert_eq!(env.get("C"), Some("3"));
    assert_eq!(env.get("D"), None);
    assert_eq!(run("unset", &["A", "C"], &mut env, &mut fs, &mut sys), Some(Ok(String::new())));
    assert_eq!(env.get("A"), None);
    assert_eq!(run("unset", &[], &mut env, &mut fs, &mut sys), Some(Err("unset: missing variable name".to_string())));
    assert_eq!(run("export", &["E=5", "USER"], &mut env, &mut fs, &mut sys), Some(Ok(String::new())));
    assert_eq!(env.get("E"), Some("5"));
    assert!(env.is_exported("E") && env.is_exported("USER"));
    assert_eq!(run("export", &[], &mut env, &mut fs, &mut sys), Some(Ok("export E=5\nexport USER=root".to_string())));
}

#[test]
fn set_without_arguments_lists_variables() {
    let (mut env, mut fs, mut sys) = setup();
    assert_eq!(
        run("set", &[], &mut env, &mut fs, &mut sys),
        Some(Ok("HOME=/\nHOSTNAME=claudio\nLANG=en_US.UTF-8\nPATH=/bin:/usr/bin\nPWD=/\nSHELL=/bin/shell-nostd\nTERM=claudio-term\nUSER=root".to_string()))
    );
}

#[test]
fn builtins_other_than_environment_ones_keep_environment() {
    let (mut env, mut fs, mut sys) = setup();
    let before = env.all().iter().map(|(k, v)| (k.to_string(), v.to_string())).collect::<Vec<_>>();
    for name in ["ls", "pwd", "echo", "ps", "date", "free", "help"] {
        run(name, &["/tmp"], &mut env, &mut fs, &mut sys);
    }
    let after = env.all().iter().map(|(k, v)| (k.to_string(), v.to_string())).collect::<Vec<_>>();
    assert_eq!(before, after);
}

#[test]
fn format_bytes_small_values() {
    assert_eq!(format_bytes(0), "0B");
    assert_eq!(format_bytes(1023), "1023B");
    assert_eq!(format_bytes(1024), "1.0K");
    assert_eq!(format_bytes(1536), "1.5K");
    assert_eq!(format_bytes(1048576), "1.0M");
    assert_eq!(format_bytes(1073741824), "1.0G");
    assert_eq!(format_bytes(u64::MAX), "17179869184.0G");
}

fn float_format(b: u64) -> String {
    if b >= 1024 * 1024 * 1024 {
        format!("{:.1}G", b as f64 / (1024.0 * 1024.0 * 1024.0))
    } else if b >= 1024 * 1024 {
        format!("{:.1}M", b as f64 / (1024.0 * 1024.0))
    } else if b >= 1024 {
        format!("{:.1}K", b as f64 / 1024.0)
    } else {
        format!("{}B", b)
    }
}

#[test]
fn format_bytes_agrees_with_float_formatting() {
    let mut samples: Vec<u64> = (0..5000).collect();
    for k in [10u32, 20, 30, 40, 50, 53, 54, 60, 63] {
        let base = 1u64 << k;
        for d in 0..200u64 {
            samples.push(base.wrapping_add(d * 51));
            samples.push(base.wrapping_sub(d * 7 + 1));
            samples.push((base / 10).wrapping_mul(d + 1));
        }
    }
    samples.push(1280);
    samples.push(1331);
    samples.push(1382);
    samples.push(u64::MAX);
    samples.push(u64::MAX - 1);
    samples.push((1u64 << 53) + 1);
    for b in samples {
        assert_eq!(format_bytes(b), float_format(b), "bytes = {}", b);
    }
}

#[test]
fn text_helpers() {
    assert_eq!(head_text("a\nb\nc\n", 2), "a\nb");
    assert_eq!(tail_text("a\nb\nc\n", 2), "b\nc");
    assert_eq!(tail_text("a\nb", 0), "");
    assert_eq!(grep_text("cat\ndog\ncatalog", "cat"), "cat\ncatalog");
    assert_eq!(grep_text("", "x"), "");
}

#[test]
fn report_helpers() {
    assert_eq!(ps_report(&Vec::new()), "No active agent sessions.");
    assert_eq!(ifconfig_report(&Vec::new()), "No network interfaces.");
    assert_eq!(df_report(&Vec::new()), "No mounted filesystems.");
    assert_eq!(uptime_report(59), "up 0 hours, 0 minutes, 59 seconds");
    assert_eq!(
        free_report(1073741824, 1536, 0),
        "              total       used       free\nMem:          1.0G        1.5K          0B\n"
    );
    assert_eq!(
        ps_report(&vec![(123456, "a-very-long-agent-name-here".to_string(), "busy".to_string())]),
        "  ID  NAME                STATUS\n123456  a-very-long-agent-name-herebusy\n"
    );
}

#[test]
fn cp_and_mv_go_from_first_to_second_argument() {
    let (mut env, mut fs, mut sys) = setup();
    env.set_pwd("/tmp");
    assert_eq!(run("cp", &["a.txt", "c.txt"], &mut env, &mut fs, &mut sys), Some(Ok(String::new())));
    assert_eq!(fs.files.get("/tmp/c.txt").unwrap(), b"one\ntwo\nthree\n");
    assert_eq!(fs.files.get("/tmp/a.txt").unwrap(), b"one\ntwo\nthree\n");
    assert_eq!(run("mv", &["b.txt", "/moved"], &mut env, &mut fs, &mut sys), Some(Ok(String::new())));
    assert_eq!(fs.files.get("/moved").unwrap(), b"four\n");
    assert!(!fs.files.contains_key("/tmp/b.txt"));
}

#[test]
fn file_system_errors_pass_through_unchanged() {
    let (mut env, mut fs, mut sys) = setup();
    assert_eq!(
        run("cp", &["/nope", "/x"], &mut env, &mut fs, &mut sys),
        Some(Err("/nope: no such file".to_string()))
    );
    assert_eq!(
        run("cat", &["/tmp/a.txt", "/missing"], &mut env, &mut fs, &mut sys),
        Some(Err("/missing: no such file".to_string()))
    );
    assert_eq!(
        run("head", &["/missing"], &mut env, &mut fs, &mut sys),
        Some(Err("/missing: no such file".to_string()))
    );
}

#[test]
fn rm_stops_at_the_first_failure() {
    let (mut env, mut fs, mut sys) = setup();
    assert_eq!(
        run("rm", &["/tmp/a.txt", "/missing", "/tmp/b.txt"], &mut env, &mut fs, &mut sys),
        Some(Err("/missing: no such file".to_string()))
    );
    assert!(!fs.files.contains_key("/tmp/a.txt"));
    assert!(fs.files.contains_key("/tmp/b.txt"));
}

#[test]
fn kill_names_the_session_to_end() {
    let (mut env, mut fs, mut sys) = setup();
    assert_eq!(run("kill", &["12"], &mut env, &mut fs, &mut sys), Some(Ok("Agent 12 terminated.".to_string())));
    assert_eq!(sys.agents.len(), 1);
    assert_eq!(sys.agents[0].0, 1);
    assert_eq!(run("kill", &["12"], &mut env, &mut fs, &mut sys), Some(Err("kill: no agent 12".to_string())));
}

#[test]
fn rmdir_removes_directories_only() {
    let (mut env, mut fs, mut sys) = setup();
    assert_eq!(run("rmdir", &[], &mut env, &mut fs, &mut sys), Some(Err("rmdir: missing operand".to_string())));
    assert_eq!(
        run("rmdir", &["/tmp/a.txt"], &mut env, &mut fs, &mut sys),
        Some(Err("rmdir: /tmp/a.txt: Not a directory".to_string()))
    );
    assert_eq!(
        run("rmdir", &["/nope"], &mut env, &mut fs, &mut sys),
        Some(Err("rmdir: /nope: No such file or directory".to_string()))
    );
    assert_eq!(run("rmdir", &["/tmp"], &mut env, &mut fs, &mut sys), Some(Ok(String::new())));
    assert!(!fs.dirs.contains("/tmp"));
}

#[test]
fn find_lists_full_paths() {
    let (mut env, mut fs, mut sys) = setup();
    assert_eq!(run("find", &["/tmp"], &mut env, &mut fs, &mut sys), Some(Ok("/tmp/a.txt\n/tmp/b.txt".to_string())));
    assert_eq!(run("find", &["/nowhere"], &mut env, &mut fs, &mut sys), Some(Err("/nowhere: not a directory".to_string())));
}

#[test]
fn wc_sort_uniq_work_on_files_and_stdin() {
    let (mut env, mut fs, mut sys) = setup();
    assert_eq!(run("wc", &["/tmp/a.txt"], &mut env, &mut fs, &mut sys), Some(Ok("3 3 14".to_string())));
    assert_eq!(run_in("wc", &[], b"a b\nc", &mut env, &mut fs, &mut sys), Some(Ok("2 3 5".to_string())));
    assert_eq!(run("wc", &[], &mut env, &mut fs, &mut sys), Some(Err("wc: missing file operand".to_string())));
    assert_eq!(run_in("sort", &[], b"pear\napple\nfig\napple", &mut env, &mut fs, &mut sys), Some(Ok("apple\napple\nfig\npear".to_string())));
    assert_eq!(run_in("uniq", &[], b"a\na\nb\na\na", &mut env, &mut fs, &mut sys), Some(Ok("a\nb\na".to_string())));
    assert_eq!(run("sort", &["/missing"], &mut env, &mut fs, &mut sys), Some(Err("/missing: no such file".to_string())));
}

#[test]
fn du_chmod_env_alias_which_and_agent_hints() {
    let (mut env, mut fs, mut sys) = setup();
    assert_eq!(run("du", &["/tmp"], &mut env, &mut fs, &mut sys), Some(Ok("19\t/tmp".to_string())));
    assert_eq!(run("chmod", &["644", "/tmp/a.txt"], &mut env, &mut fs, &mut sys), Some(Ok(String::new())));
    assert_eq!(
        run("chmod", &["644", "/nope"], &mut env, &mut fs, &mut sys),
        Some(Err("chmod: /nope: No such file or directory".to_string()))
    );
    assert_eq!(run("chmod", &["644"], &mut env, &mut fs, &mut sys), Some(Err("chmod: missing operand".to_string())));
    let listed = run("env", &[], &mut env, &mut fs, &mut sys).unwrap().unwrap();
    assert!(listed.contains("HOME=/"));
    assert_eq!(run("alias", &[], &mut env, &mut fs, &mut sys), Some(Ok(String::new())));
    assert_eq!(run("alias", &["ll=ls"], &mut env, &mut fs, &mut sys), Some(Err("alias: aliases are not supported".to_string())));
    assert_eq!(run("which", &["ls"], &mut env, &mut fs, &mut sys), Some(Ok("ls: shell built-in command".to_string())));
    assert_eq!(run("which", &["vim"], &mut env, &mut fs, &mut sys), Some(Err("vim not found".to_string())));
    assert_eq!(run("ask", &["what"], &mut env, &mut fs, &mut sys), Some(Err("ask: usage: ask REQUEST".to_string())));
    assert_eq!(run("agent", &[], &mut env, &mut fs, &mut sys), Some(Err("agent: usage: agent REQUEST".to_string())));
}
