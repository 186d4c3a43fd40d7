//! Built-in shell commands.
//!
//! All commands operate on VFS paths. Each command parses args, validates,
//! executes, and returns an output string.

use vstd::prelude::*;
use crate::ai::{builtin_names, lemma_builtin_names};
use crate::env::{Entries, Environment, key_pwd};
use crate::parser::strings_view;
use crate::pipe::{bytes_answer, from_utf8_lossy, opt_bytes, unit_answer, utf8_lossy};
use crate::text::{
    chars_of, decimal, find_char_exec, find_char_from, find_seq_exec, find_seq_from,
    lemma_find_char_from, lines, lines_of, pad_left, pad_right, parse_unsigned,
    parse_unsigned_exec, push_chars, push_padded_left, push_padded_right, push_str, starts_with,
    str_eq, string_of_range, u64_to_string, words, words_of,
};

verus! {

/// A call that changes a file system, with what it answered.
pub enum FsCall {
    Write { path: Seq<char>, data: Seq<u8>, append: bool, answer: Result<(), Seq<char>> },
    Copy { src: Seq<char>, dst: Seq<char>, answer: Result<(), Seq<char>> },
    Move { src: Seq<char>, dst: Seq<char>, answer: Result<(), Seq<char>> },
    Remove { path: Seq<char>, answer: Result<(), Seq<char>> },
    Mkdir { path: Seq<char>, answer: Result<(), Seq<char>> },
    Touch { path: Seq<char>, answer: Result<(), Seq<char>> },
    Mount { device: Seq<char>, path: Seq<char>, fstype: Seq<char>, answer: Result<(), Seq<char>> },
    Umount { path: Seq<char>, answer: Result<(), Seq<char>> },
}

/// The names or the error text of a listing.
pub open spec fn names_answer(r: Result<Vec<String>, String>) -> Result<Seq<Seq<char>>, Seq<char>> {
    match r {
        Ok(v) => Ok(strings_view(v@)),
        Err(e) => Err(e@),
    }
}

/// Trait abstracting filesystem operations so builtins work against any VFS backend.
///
/// An implementation keeps, as `changes()`, the changing calls made on it so
/// far with their results, and answers the queries (`list_dir`, `read_file`,
/// `path_exists`, `is_dir`) from its present state.
pub trait Vfs {
    /// The changing calls made so far, oldest first, with their results.
    closed spec fn changes(&self) -> Seq<FsCall> {
        Seq::empty()
    }
    /// What listing `path` gives in the present state.
    closed spec fn listing(&self, path: Seq<char>) -> Result<Seq<Seq<char>>, Seq<char>> {
        Err(path)
    }
    /// What reading `path` gives in the present state.
    closed spec fn file(&self, path: Seq<char>) -> Result<Seq<u8>, Seq<char>> {
        Err(path)
    }
    /// Whether `path` is there in the present state.
    closed spec fn present(&self, path: Seq<char>) -> bool {
        false
    }
    /// Whether `path` is a directory in the present state.
    closed spec fn directory(&self, path: Seq<char>) -> bool {
        false
    }

    /// List directory entries at `path`. Returns names.
    fn list_dir(&self, path: &str) -> (r: Result<Vec<String>, String>)
        ensures
            names_answer(r) == self.listing(path@),
    ;
    /// Read a file's contents as bytes.
    fn read_file(&self, path: &str) -> (r: Result<Vec<u8>, String>)
        ensures
            bytes_answer(r) == self.file(path@),
    ;
    /// Write bytes to a file (create or overwrite).
    fn write_file(&mut self, path: &str, data: &[u8]) -> (r: Result<(), String>)
        ensures
            final(self).changes() == old(self).changes().push(
                FsCall::Write { path: path@, data: data@, append: false, answer: unit_answer(r) },
            ),
    ;
    /// Append bytes to a file.
    fn append_file(&mut self, path: &str, data: &[u8]) -> (r: Result<(), String>)
        ensures
            final(self).changes() == old(self).changes().push(
                FsCall::Write { path: path@, data: data@, append: true, answer: unit_answer(r) },
            ),
    ;
    /// Copy a file from src to dst.
    fn copy_file(&mut self, src: &str, dst: &str) -> (r: Result<(), String>)
        ensures
            final(self).changes() == old(self).changes().push(FsCall::Copy { src: src@, dst: dst@, answer: unit_answer(r) }),
    ;
    /// Move/rename a file from src to dst.
    fn move_file(&mut self, src: &str, dst: &str) -> (r: Result<(), String>)
        ensures
            final(self).changes() == old(self).changes().push(FsCall::Move { src: src@, dst: dst@, answer: unit_answer(r) }),
    ;
    /// Remove a file or directory.
    fn remove(&mut self, path: &str) -> (r: Result<(), String>)
        ensures
            final(self).changes() == old(self).changes().push(FsCall::Remove { path: path@, answer: unit_answer(r) }),
    ;
    /// Create a directory.
    fn mkdir(&mut self, path: &str) -> (r: Result<(), String>)
        ensures
            final(self).changes() == old(self).changes().push(FsCall::Mkdir { path: path@, answer: unit_answer(r) }),
    ;
    /// Create an empty file (or update timestamp).
    fn touch(&mut self, path: &str) -> (r: Result<(), String>)
        ensures
            final(self).changes() == old(self).changes().push(FsCall::Touch { path: path@, answer: unit_answer(r) }),
    ;
    /// Check if a path exists.
    fn path_exists(&self, path: &str) -> (r: bool)
        ensures
            r == self.present(path@),
    ;
    /// Check if a path is a directory.
    fn is_dir(&self, path: &str) -> (r: bool)
        ensures
            r == self.directory(path@),
    ;
    /// Mount a device at a path with the given fstype.
    fn mount(&mut self, device: &str, path: &str, fstype: &str) -> (r: Result<(), String>)
        ensures
            final(self).changes() == old(self).changes().push(
                FsCall::Mount { device: device@, path: path@, fstype: fstype@, answer: unit_answer(r) },
            ),
    ;
    /// Unmount a filesystem at path.
    fn umount(&mut self, path: &str) -> (r: Result<(), String>)
        ensures
            final(self).changes() == old(self).changes().push(FsCall::Umount { path: path@, answer: unit_answer(r) }),
    ;
}

/// A call that changes the system, with what it answered.
pub enum SysCall {
    Kill { id: u64, answer: Result<(), Seq<char>> },
    Clear,
    Reboot,
    Shutdown,
}

/// Trait abstracting system queries (agent sessions, memory, network, etc.).
///
/// An implementation keeps, as `actions()`, the changing calls made on it so
/// far, and answers the queries from its present state.
pub trait SystemInfo {
    /// The changing calls made so far, oldest first.
    closed spec fn actions(&self) -> Seq<SysCall> {
        Seq::empty()
    }
    /// The agent sessions: (id, name, status).
    closed spec fn agents(&self) -> Seq<(u64, Seq<char>, Seq<char>)> {
        Seq::empty()
    }
    /// The network interfaces: (name, ip, mac, status).
    closed spec fn interfaces(&self) -> Seq<(Seq<char>, Seq<char>, Seq<char>, Seq<char>)> {
        Seq::empty()
    }
    /// What pinging `host` gives.
    closed spec fn ping_answer(&self, host: Seq<char>) -> Result<Seq<char>, Seq<char>> {
        Err(host)
    }
    /// The current date and time, formatted.
    closed spec fn now(&self) -> Seq<char> {
        Seq::empty()
    }
    /// The uptime in seconds.
    closed spec fn uptime(&self) -> u64 {
        0
    }
    /// Memory: (total, used, free) bytes.
    closed spec fn memory(&self) -> (u64, u64, u64) {
        (0, 0, 0)
    }
    /// Disk usage: (mount point, total, used, available) bytes.
    closed spec fn disks(&self) -> Seq<(Seq<char>, u64, u64, u64)> {
        Seq::empty()
    }

    /// List active agent sessions: (id, name, status).
    fn list_agents(&self) -> (r: Vec<(u64, String, String)>)
        ensures
            agents_view(r@) == self.agents(),
    ;
    /// Kill an agent session by ID.
    fn kill_agent(&mut self, id: u64) -> (r: Result<(), String>)
        ensures
            final(self).actions() == old(self).actions().push(SysCall::Kill { id: id, answer: unit_answer(r) }),
    ;
    /// Clear the terminal screen.
    fn clear_screen(&mut self)
        ensures
            final(self).actions() == old(self).actions().push(SysCall::Clear),
    ;
    /// Reboot the system. Implementations are expected not to return.
    fn reboot(&mut self)
        ensures
            final(self).actions() == old(self).actions().push(SysCall::Reboot),
    ;
    /// Shutdown the system. Implementations are expected not to return.
    fn shutdown(&mut self)
        ensures
            final(self).actions() == old(self).actions().push(SysCall::Shutdown),
    ;
    /// Get network interface info: (name, ip, mac, status).
    fn ifconfig(&self) -> (r: Vec<(String, String, String, String)>)
        ensures
            ifaces_view(r@) == self.interfaces(),
    ;
    /// Ping a host, return round-trip time or error.
    fn ping(&self, host: &str) -> (r: Result<String, String>)
        ensures
            answer_view(r) == self.ping_answer(host@),
    ;
    /// Get current date/time as a formatted string.
    fn date(&self) -> (r: String)
        ensures
            r@ == self.now(),
    ;
    /// Get uptime in seconds.
    fn uptime_secs(&self) -> (r: u64)
        ensures
            r == self.uptime(),
    ;
    /// Get memory info: (total_bytes, used_bytes, free_bytes).
    fn memory_info(&self) -> (r: (u64, u64, u64))
        ensures
            r == self.memory(),
    ;
    /// Get disk usage: Vec<(mount_point, total_bytes, used_bytes, available_bytes)>.
    fn disk_usage(&self) -> (r: Vec<(String, u64, u64, u64)>)
        ensures
            disks_view(r@) == self.disks(),
    ;
}

/// The text `help` prints.
pub const HELP_TEXT: &'static str = "bare-metal Shell \u{2014} Built-in Commands\n\
         ====================================\n\
         \n\
         File Operations:\n\
         \x20 ls [path]            List directory contents\n\
         \x20 cd [path]            Change working directory\n\
         \x20 pwd                  Print working directory\n\
         \x20 cat [file...]        Print file contents\n\
         \x20 echo [text...]       Print text\n\
         \x20 cp <src> <dst>       Copy file\n\
         \x20 mv <src> <dst>       Move/rename file\n\
         \x20 rm <path>            Remove file or directory\n\
         \x20 mkdir <path>         Create directory\n\
         \x20 touch <path>         Create empty file\n\
         \x20 head [-n N] [file]   Show first N lines (default 10)\n\
         \x20 tail [-n N] [file]   Show last N lines (default 10)\n\
         \x20 grep <pattern> [file] Search for pattern in file\n\
         \x20 rmdir <dir>          Remove directory\n\
         \x20 find [path]          List paths in a directory\n\
         \x20 wc [file]            Count lines, words, characters\n\
         \x20 sort [file]          Sort lines\n\
         \x20 uniq [file]          Drop repeated lines\n\
         \x20 chmod <mode> <path>  Change mode (no permissions kept)\n\
         \x20 du [path]            Total size of files in a directory\n\
         \n\
         Filesystem:\n\
         \x20 mount <dev> <path> <type>  Mount filesystem\n\
         \x20 umount <path>              Unmount filesystem\n\
         \x20 df                         Show disk usage\n\
         \n\
         System:\n\
         \x20 ps                   List agent sessions\n\
         \x20 kill <id>            Kill agent session\n\
         \x20 clear                Clear screen\n\
         \x20 reboot               Reboot system\n\
         \x20 shutdown             Shutdown system\n\
         \x20 date                 Show current date/time\n\
         \x20 uptime               Show system uptime\n\
         \x20 free                 Show memory usage\n\
         \n\
         Network:\n\
         \x20 ifconfig             Show network interfaces\n\
         \x20 ping <host>          Ping a host\n\
         \x20 ssh <user@host>      SSH client (future)\n\
         \n\
         Environment:\n\
         \x20 set <key>=<value>    Set variable\n\
         \x20 unset <key>          Unset variable\n\
         \x20 export <key>=<value> Export variable\n\
         \n\
         Shell:\n\
         \x20 history              Show command history\n\
         \x20 env                  List variables\n\
         \x20 alias                List aliases (none are kept)\n\
         \x20 which <name>         Tell whether a command is built in\n\
         \x20 help                 Show this help\n\
         \x20 exit                 Exit shell\n\
         \n\
         AI Mode:\n\
         \x20 Type natural language and the AI will interpret it.\n\
         \x20 Example: \"show me large files on the NVMe drive\"\n";

/// A builtin's answer: output text or an error message.
pub type Answer = Result<Seq<char>, Seq<char>>;

/// The characters of a `Result<String, String>`.
pub open spec fn answer_view(r: Result<String, String>) -> Answer {
    match r {
        Ok(s) => Ok(s@),
        Err(e) => Err(e@),
    }
}

// ---------------------------------------------------------------------------
// Paths and text
// ---------------------------------------------------------------------------

/// `path` made absolute against the working directory `pwd`.
pub open spec fn resolve_spec(path: Seq<char>, pwd: Seq<char>) -> Seq<char> {
    if starts_with(path, seq!['/']) {
        path
    } else if pwd.len() > 0 && pwd.last() == '/' {
        pwd + path
    } else {
        pwd + seq!['/'] + path
    }
}

/// Resolve a path relative to PWD if it's not absolute.
fn resolve_path(path: &str, env: &Environment) -> (r: String)
    ensures
        r@ == resolve_spec(path@, env.pwd_spec()),
{
    let pc = chars_of(path);
    let slash: [char; 1] = ['/'];
    assert(slash@ =~= seq!['/']);
    if crate::text::starts_with_exec(pc.as_slice(), slash.as_slice()) {
        return String::from_str(path);
    }
    let pwd = env.pwd();
    let wc = chars_of(pwd);
    let mut out = String::from_str(pwd);
    if wc.len() > 0 && wc[wc.len() - 1] == '/' {
        push_str(&mut out, path);
    } else {
        crate::text::push_char(&mut out, '/');
        push_str(&mut out, path);
    }
    out
}

/// The pieces joined with `sep` between them (`[T]::join`).
pub open spec fn join(pieces: Seq<Seq<char>>, sep: Seq<char>) -> Seq<char>
    decreases pieces.len(),
{
    if pieces.len() == 0 {
        Seq::empty()
    } else if pieces.len() == 1 {
        pieces[0]
    } else {
        join(pieces.drop_last(), sep) + sep + pieces.last()
    }
}

/// Joins character sequences with `sep` between them.
pub fn join_chars(pieces: &Vec<Vec<char>>, sep: &str) -> (r: String)
    ensures
        r@ == join(pieces@.map_values(|p: Vec<char>| p@), sep@),
{
    let ghost pv = pieces@.map_values(|p: Vec<char>| p@);
    let mut out = String::new();
    let mut i: usize = 0;
    while i < pieces.len()
        invariant
            pv == pieces@.map_values(|p: Vec<char>| p@),
            i <= pv.len(),
            out@ == join(pv.take(i as int), sep@),
        decreases pv.len() - i,
    {
        if i > 0 {
            push_str(&mut out, sep);
        }
        push_chars(&mut out, pieces[i].as_slice());
        proof {
            assert(pv.take(i + 1).drop_last() =~= pv.take(i as int));
            if i == 0 {
                assert(out@ =~= pv[0]);
            }
        }
        i = i + 1;
    }
    assert(pv.take(i as int) =~= pv);
    out
}

/// Joins strings with `sep` between them.
pub fn join_strings(pieces: &Vec<String>, sep: &str) -> (r: String)
    ensures
        r@ == join(strings_view(pieces@), sep@),
{
    let ghost pv = strings_view(pieces@);
    let mut out = String::new();
    let mut i: usize = 0;
    while i < pieces.len()
        invariant
            pv == strings_view(pieces@),
            i <= pv.len(),
            out@ == join(pv.take(i as int), sep@),
        decreases pv.len() - i,
    {
        if i > 0 {
            push_str(&mut out, sep);
        }
        push_str(&mut out, pieces[i].as_str());
        proof {
            assert(pv.take(i + 1).drop_last() =~= pv.take(i as int));
            if i == 0 {
                assert(out@ =~= pv[0]);
            }
        }
        i = i + 1;
    }
    assert(pv.take(i as int) =~= pv);
    out
}

/// The first `n` lines of `content`, joined with newlines (`head`).
pub open spec fn head_spec(content: Seq<char>, n: nat) -> Seq<char> {
    let ls = lines(content);
    join(if n < ls.len() { ls.take(n as int) } else { ls }, seq!['\n'])
}

/// The last `n` lines of `content`, joined with newlines (`tail`).
pub open spec fn tail_spec(content: Seq<char>, n: nat) -> Seq<char> {
    let ls = lines(content);
    join(if n < ls.len() { ls.skip(ls.len() - n) } else { ls }, seq!['\n'])
}

/// Whether `line` contains `pattern`.
pub open spec fn contains_seq(line: Seq<char>, pattern: Seq<char>) -> bool {
    find_seq_from(line, 0, pattern) is Some
}

/// The lines of `content` that contain `pattern`, joined with newlines (`grep`).
pub open spec fn grep_spec(content: Seq<char>, pattern: Seq<char>) -> Seq<char> {
    join(lines(content).filter(|l: Seq<char>| contains_seq(l, pattern)), seq!['\n'])
}

/// The first `n` lines of `content`.
pub fn head_text(content: &str, n: usize) -> (r: String)
    ensures
        r@ == head_spec(content@, n as nat),
{
    let c = chars_of(content);
    let ls = lines_of(c.as_slice());
    let mut kept: Vec<Vec<char>> = Vec::new();
    let mut i: usize = 0;
    let ghost lv = ls@.map_values(|l: Vec<char>| l@);
    while i < ls.len() && i < n
        invariant
            lv == ls@.map_values(|l: Vec<char>| l@),
            i <= lv.len(),
            i <= n,
            kept@.map_values(|l: Vec<char>| l@) == lv.take(i as int),
        decreases lv.len() - i,
    {
        let ghost before = kept@.map_values(|l: Vec<char>| l@);
        let line = crate::text::chars_range(ls[i].as_slice(), 0, ls[i].len());
        assert(line@ =~= lv[i as int]);
        kept.push(line);
        assert(kept@.map_values(|l: Vec<char>| l@) =~= before.push(lv[i as int]));
        assert(lv.take(i + 1) =~= lv.take(i as int).push(lv[i as int]));
        i = i + 1;
    }
    proof {
        if !(n < lv.len()) {
            assert(lv.take(i as int) =~= lv);
        }
    }
    proof {
        reveal_strlit("\n");
        assert("\n"@ =~= seq!['\n']);
    }
    join_chars(&kept, "\n")
}

/// The last `n` lines of `content`.
pub fn tail_text(content: &str, n: usize) -> (r: String)
    ensures
        r@ == tail_spec(content@, n as nat),
{
    let c = chars_of(content);
    let ls = lines_of(c.as_slice());
    let ghost lv = ls@.map_values(|l: Vec<char>| l@);
    let start: usize = if ls.len() > n {
        ls.len() - n
    } else {
        0
    };
    let mut kept: Vec<Vec<char>> = Vec::new();
    let mut i: usize = start;
    while i < ls.len()
        invariant
            lv == ls@.map_values(|l: Vec<char>| l@),
            start <= i <= lv.len(),
            kept@.map_values(|l: Vec<char>| l@) == lv.subrange(start as int, i as int),
        decreases lv.len() - i,
    {
        let ghost before = kept@.map_values(|l: Vec<char>| l@);
        let line = crate::text::chars_range(ls[i].as_slice(), 0, ls[i].len());
        assert(line@ =~= lv[i as int]);
        kept.push(line);
        assert(kept@.map_values(|l: Vec<char>| l@) =~= before.push(lv[i as int]));
        assert(lv.subrange(start as int, i + 1) =~= lv.subrange(start as int, i as int).push(lv[i as int]));
        i = i + 1;
    }
    proof {
        if n < lv.len() {
            assert(lv.subrange(start as int, lv.len() as int) =~= lv.skip(lv.len() - n));
        } else {
            assert(lv.subrange(0, lv.len() as int) =~= lv);
        }
    }
    proof {
        reveal_strlit("\n");
        assert("\n"@ =~= seq!['\n']);
    }
    join_chars(&kept, "\n")
}

/// The lines of `content` containing `pattern`.
pub fn grep_text(content: &str, pattern: &str) -> (r: String)
    ensures
        r@ == grep_spec(content@, pattern@),
{
    let c = chars_of(content);
    let pc = chars_of(pattern);
    let ls = lines_of(c.as_slice());
    let ghost lv = ls@.map_values(|l: Vec<char>| l@);
    let ghost pred = |l: Seq<char>| contains_seq(l, pattern@);
    let mut kept: Vec<Vec<char>> = Vec::new();
    let mut i: usize = 0;
    assert(lv.take(0).filter(pred) =~= Seq::<Seq<char>>::empty()) by {
        reveal(Seq::filter);
    }
    assert(kept@.map_values(|l: Vec<char>| l@) =~= Seq::<Seq<char>>::empty());
    while i < ls.len()
        invariant
            lv == ls@.map_values(|l: Vec<char>| l@),
            pc@ == pattern@,
            pred == (|l: Seq<char>| contains_seq(l, pattern@)),
            i <= lv.len(),
            kept@.map_values(|l: Vec<char>| l@) == lv.take(i as int).filter(pred),
        decreases lv.len() - i,
    {
        let ghost before = kept@.map_values(|l: Vec<char>| l@);
        assert(lv.take(i + 1).drop_last() =~= lv.take(i as int));
        let found = find_seq_exec(ls[i].as_slice(), 0, pc.as_slice());
        if found.is_some() {
            let line = crate::text::chars_range(ls[i].as_slice(), 0, ls[i].len());
            assert(line@ =~= lv[i as int]);
            kept.push(line);
            assert(kept@.map_values(|l: Vec<char>| l@) =~= before.push(lv[i as int]));
        } else {
            assert(kept@.map_values(|l: Vec<char>| l@) =~= before);
        }
        assert(kept@.map_values(|l: Vec<char>| l@) == lv.take(i + 1).filter(pred)) by {
            reveal(Seq::filter);
        }
        i = i + 1;
    }
    assert(lv.take(i as int) =~= lv);
    proof {
        reveal_strlit("\n");
        assert("\n"@ =~= seq!['\n']);
    }
    join_chars(&kept, "\n")
}

// ---------------------------------------------------------------------------
// Pure builtins
// ---------------------------------------------------------------------------

/// The message of `pwd`.
fn cmd_pwd(env: &Environment) -> (r: Result<String, String>)
    ensures
        answer_view(r) == Ok::<Seq<char>, Seq<char>>(env.pwd_spec()),
{
    Ok(String::from_str(env.pwd()))
}

/// `echo`: the arguments joined with spaces.
fn cmd_echo(args: &[String]) -> (r: Result<String, String>)
    ensures
        answer_view(r) == Ok::<Seq<char>, Seq<char>>(join(strings_view(args@), seq![' '])),
{
    let mut v: Vec<String> = Vec::new();
    let mut i: usize = 0;
    while i < args.len()
        invariant
            i <= args@.len(),
            strings_view(v@) == strings_view(args@).take(i as int),
        decreases args@.len() - i,
    {
        let ghost before = strings_view(v@);
        let a = args[i].clone();
        assert(a@ == strings_view(args@)[i as int]);
        v.push(a);
        assert(strings_view(v@) =~= before.push(a@));
        assert(strings_view(args@).take(i + 1) =~= strings_view(args@).take(i as int).push(a@));
        i = i + 1;
    }
    assert(strings_view(args@).take(i as int) =~= strings_view(args@));
    proof {
        reveal_strlit(" ");
        assert(" "@ =~= seq![' ']);
    }
    Ok(join_strings(&v, " "))
}

/// `help`: the list of commands.
fn cmd_help() -> (r: Result<String, String>)
    ensures
        answer_view(r) == Ok::<Seq<char>, Seq<char>>(HELP_TEXT@),
{
    Ok(String::from_str(HELP_TEXT))
}

/// `ssh` is not available.
fn cmd_ssh(_args: &[String]) -> (r: Result<String, String>)
    ensures
        answer_view(r) == Err::<Seq<char>, Seq<char>>("ssh: not yet implemented (see crates/sshd)"@),
{
    Err(String::from_str("ssh: not yet implemented (see crates/sshd)"))
}


// ---------------------------------------------------------------------------
// Byte counts
// ---------------------------------------------------------------------------

/// `2^k`.
pub open spec fn pow2(k: nat) -> nat
    decreases k,
{
    if k == 0 {
        1
    } else {
        2 * pow2((k - 1) as nat)
    }
}

/// The number of binary digits of `b`.
pub open spec fn bit_len(b: nat) -> nat
    decreases b,
{
    if b == 0 {
        0
    } else {
        1 + bit_len(b / 2)
    }
}

/// `b` rounded to the nearest value with 53 significant bits, ties to even:
/// the value of `b as f64`.
pub open spec fn f64_value(b: nat) -> nat {
    if b < pow2(53) {
        b
    } else {
        let s = (bit_len(b) - 53) as nat;
        let q = b / pow2(s);
        let r = b % pow2(s);
        let h = pow2((s - 1) as nat);
        if r > h || (r == h && q % 2 == 1) {
            (q + 1) * pow2(s)
        } else {
            q * pow2(s)
        }
    }
}

/// `m / d` in tenths, rounded to nearest with ties to even (`{:.1}`).
pub open spec fn tenths(m: nat, d: nat) -> nat {
    let q = (m * 10) / d;
    let r = (m * 10) % d;
    if 2 * r > d || (2 * r == d && q % 2 == 1) {
        q + 1
    } else {
        q
    }
}

/// A count of tenths written with one decimal.
pub open spec fn one_decimal(t: nat) -> Seq<char> {
    decimal(t / 10) + seq!['.'] + decimal(t % 10)
}

/// A byte count in human-readable form: `G`, `M` and `K` with one decimal,
/// plain bytes below 1024.
pub open spec fn format_bytes_spec(b: nat) -> Seq<char> {
    if b >= 1073741824 {
        one_decimal(tenths(f64_value(b), 1073741824)) + seq!['G']
    } else if b >= 1048576 {
        one_decimal(tenths(b, 1048576)) + seq!['M']
    } else if b >= 1024 {
        one_decimal(tenths(b, 1024)) + seq!['K']
    } else {
        decimal(b) + seq!['B']
    }
}

proof fn lemma_pow2_pos(k: nat)
    ensures
        pow2(k) >= 1,
    decreases k,
{
    if k > 0 {
        lemma_pow2_pos((k - 1) as nat);
    }
}

proof fn lemma_pow2_53()
    ensures
        pow2(53) == 9007199254740992,
{
    reveal_with_fuel(pow2, 54);
}

/// Bounds on the number of binary digits.
proof fn lemma_bit_len_bounds(x: nat, k: nat)
    ensures
        x < pow2(k) ==> bit_len(x) <= k,
        x >= pow2(k) ==> bit_len(x) >= k + 1,
    decreases k,
{
    if k > 0 {
        lemma_bit_len_bounds(x / 2, (k - 1) as nat);
    }
}

/// `2^s` for small `s`.
#[verifier::rlimit(40)]
fn pow2_exec(s: u64) -> (r: u64)
    requires
        s <= 63,
    ensures
        r as nat == pow2(s as nat),
{
    let mut p: u64 = 1;
    let mut i: u64 = 0;
    proof {
        reveal_with_fuel(pow2, 64);
    }
    assert(pow2(62) == 0x4000_0000_0000_0000);
    while i < s
        invariant
            i <= s <= 63,
            p as nat == pow2(i as nat),
            pow2(62) == 0x4000_0000_0000_0000,
        decreases s - i,
    {
        proof {
            lemma_pow2_mono(i as nat, 62);
        }
        p = p * 2;
        i = i + 1;
    }
    p
}

proof fn lemma_pow2_mono(a: nat, b: nat)
    requires
        a <= b,
    ensures
        pow2(a) <= pow2(b),
    decreases b,
{
    if a < b {
        lemma_pow2_mono(a, (b - 1) as nat);
        lemma_pow2_pos((b - 1) as nat);
    }
}

/// The number of binary digits of `b`.
fn bit_len_exec(b: u64) -> (r: u64)
    ensures
        r as nat == bit_len(b as nat),
        r <= 64,
{
    proof {
        reveal_with_fuel(pow2, 65);
        lemma_bit_len_bounds(b as nat, 64);
    }
    let mut x = b;
    let mut len: u64 = 0;
    while x > 0
        invariant
            bit_len(b as nat) == len + bit_len(x as nat),
            bit_len(b as nat) <= 64,
        decreases x,
    {
        x = x / 2;
        len = len + 1;
    }
    len
}

/// `b` as `f64` would hold it, as an exact integer.
fn f64_value_exec(b: u64) -> (r: u128)
    ensures
        r as nat == f64_value(b as nat),
        r <= 0x2_0000_0000_0000_0000,
{
    proof {
        lemma_pow2_53();
    }
    if b < 9007199254740992 {
        return b as u128;
    }
    let len = bit_len_exec(b);
    proof {
        lemma_bit_len_bounds(b as nat, 53);
    }
    let s = len - 53;
    let p = pow2_exec(s);
    proof {
        lemma_pow2_mono(s as nat, 11);
        reveal_with_fuel(pow2, 12);
        lemma_pow2_pos((s - 1) as nat);
        assert(pow2(s as nat) == 2 * pow2((s - 1) as nat));
    }
    let q = b / p;
    let r = b % p;
    let h = p / 2;
    assert(h as nat == pow2((s - 1) as nat));
    assert(q * p <= b) by (nonlinear_arith)
        requires
            q == b / p,
            p > 0,
    ;
    let up = r > h || (r == h && q % 2 == 1);
    if up {
        assert((q + 1) * p <= b + p) by (nonlinear_arith)
            requires
                q * p <= b,
        ;
        ((q as u128) + 1) * (p as u128)
    } else {
        (q as u128) * (p as u128)
    }
}

/// `m / d` in tenths, rounded to nearest with ties to even.
fn tenths_exec(m: u128, d: u128) -> (t: u128)
    requires
        m <= 0x2_0000_0000_0000_0000,
        1024 <= d <= 1073741824,
    ensures
        t as nat == tenths(m as nat, d as nat),
        t <= m / 100 + 1,
{
    let q = (m * 10) / d;
    let r = (m * 10) % d;
    assert(q <= m / 100) by (nonlinear_arith)
        requires
            q as int == (m as int * 10) / (d as int),
            d >= 1024,
    ;
    assert(r < d);
    if 2 * r > d || (2 * r == d && q % 2 == 1) {
        q + 1
    } else {
        q
    }
}

/// Appends a count of tenths with one decimal.
fn push_one_decimal(out: &mut String, t: u128)
    requires
        t < 0x1_0000_0000_0000_0000,
    ensures
        final(out)@ == old(out)@ + one_decimal(t as nat),
{
    let whole = u64_to_string((t / 10) as u64);
    let frac = u64_to_string((t % 10) as u64);
    push_str(out, whole.as_str());
    crate::text::push_char(out, '.');
    push_str(out, frac.as_str());
}

/// Format a byte count as a human-readable string.
pub fn format_bytes(bytes: u64) -> (r: String)
    ensures
        r@ == format_bytes_spec(bytes as nat),
{
    let mut out = String::new();
    if bytes >= 1073741824 {
        let m = f64_value_exec(bytes);
        let t = tenths_exec(m, 1073741824);
        push_one_decimal(&mut out, t);
        crate::text::push_char(&mut out, 'G');
    } else if bytes >= 1048576 {
        let t = tenths_exec(bytes as u128, 1048576);
        push_one_decimal(&mut out, t);
        crate::text::push_char(&mut out, 'M');
    } else if bytes >= 1024 {
        let t = tenths_exec(bytes as u128, 1024);
        push_one_decimal(&mut out, t);
        crate::text::push_char(&mut out, 'K');
    } else {
        let d = u64_to_string(bytes);
        push_str(&mut out, d.as_str());
        crate::text::push_char(&mut out, 'B');
    }
    out
}


// ---------------------------------------------------------------------------
// Arguments of head and tail
// ---------------------------------------------------------------------------

/// The value a line count argument sets (the count unchanged when it does not parse).
pub open spec fn count_or(s: Seq<char>, n: nat) -> nat {
    match parse_unsigned(s, usize::MAX as nat) {
        Some(c) => c,
        None => n,
    }
}

/// Reading `head`/`tail` arguments from `args[i..]`: `-n NUM` and `-NUM` set
/// the count (an unreadable number leaves it), anything else is the file (the
/// last one wins).
pub open spec fn line_count_fold(args: Seq<Seq<char>>, i: int, file: Option<Seq<char>>, n: nat) -> (Option<Seq<char>>, nat)
    decreases args.len() - i,
{
    if i < 0 || i >= args.len() {
        (file, n)
    } else if args[i] == "-n"@ && i + 1 < args.len() {
        line_count_fold(args, i + 2, file, count_or(args[i + 1], n))
    } else if starts_with(args[i], seq!['-']) && args[i].len() > 1 {
        line_count_fold(args, i + 1, file, count_or(args[i].drop_first(), n))
    } else {
        line_count_fold(args, i + 1, Some(args[i]), n)
    }
}

/// Reads an unsigned count, keeping `n` when `s` is not a number.
fn count_or_exec(s: &[char], n: usize) -> (r: usize)
    ensures
        r as nat == count_or(s@, n as nat),
{
    match parse_unsigned_exec(s, usize::MAX as u64) {
        Some(c) => c as usize,
        None => n,
    }
}

/// Parse args for head/tail: optional -n NUM and a file path.
fn parse_line_count_args(args: &[String], default_n: usize) -> (r: (Option<&str>, usize))
    ensures
        (match r.0 {
            Some(f) => Some(f@),
            None => None,
        }, r.1 as nat) == line_count_fold(strings_view(args@), 0, None, default_n as nat),
{
    let ghost av = strings_view(args@);
    let mut n = default_n;
    let mut file: Option<&str> = None;
    let mut i: usize = 0;
    let dash_n = chars_of("-n");
    while i < args.len()
        invariant
            av == strings_view(args@),
            dash_n@ == "-n"@,
            i <= args@.len(),
            line_count_fold(av, 0, None, default_n as nat) == line_count_fold(av, i as int, match file {
                Some(f) => Some(f@),
                None => None,
            }, n as nat),
        decreases args@.len() - i,
    {
        let a = chars_of(args[i].as_str());
        assert(a@ == av[i as int]);
        if crate::text::chars_eq(a.as_slice(), dash_n.as_slice()) && i + 1 < args.len() {
            let next = chars_of(args[i + 1].as_str());
            assert(next@ == av[i + 1]);
            n = count_or_exec(next.as_slice(), n);
            i = i + 2;
        } else if a.len() > 1 && a[0] == '-' {
            let rest = crate::text::chars_range(a.as_slice(), 1, a.len());
            assert(rest@ =~= a@.drop_first());
            assert(starts_with(a@, seq!['-'])) by {
                assert(a@.take(1) =~= seq!['-']);
            }
            n = count_or_exec(rest.as_slice(), n);
            i = i + 1;
        } else {
            proof {
                if a@.len() > 1 && starts_with(a@, seq!['-']) {
                    assert(a@.take(1)[0] == a@[0]);
                }
            }
            file = Some(args[i].as_str());
            i = i + 1;
        }
    }
    (file, n)
}

// ---------------------------------------------------------------------------
// Environment builtins
// ---------------------------------------------------------------------------

/// Variables listed as `KEY=VALUE` lines (prefixed with `prefix`).
pub open spec fn listing(e: Entries, prefix: Seq<char>) -> Seq<char> {
    join(e.map_values(|p: (Seq<char>, Seq<char>)| prefix + p.0 + seq!['='] + p.1), seq!['\n'])
}

/// `KEY=VALUE` split at the first `=`, if there is one.
pub open spec fn split_assignment(arg: Seq<char>) -> Option<(Seq<char>, Seq<char>)> {
    let eq = find_char_from(arg, 0, '=');
    if eq < arg.len() {
        Some((arg.take(eq), arg.skip(eq + 1)))
    } else {
        None
    }
}

/// Applying `set KEY=VALUE...` from `args[i..]`: the variables after the
/// assignments up to the first argument without `=`, and that argument.
pub open spec fn set_fold(vars: Map<Seq<char>, Seq<char>>, args: Seq<Seq<char>>, i: int) -> (Map<Seq<char>, Seq<char>>, Option<Seq<char>>)
    decreases args.len() - i,
{
    if i < 0 || i >= args.len() {
        (vars, None)
    } else {
        match split_assignment(args[i]) {
            Some((k, v)) => set_fold(vars.insert(k, v), args, i + 1),
            None => (vars, Some(args[i])),
        }
    }
}

/// Applying `export ARG...` from `args[i..]`: `KEY=VALUE` sets and exports,
/// a bare name is exported.
pub open spec fn export_fold(vars: Map<Seq<char>, Seq<char>>, exported: Set<Seq<char>>, args: Seq<Seq<char>>, i: int) -> (Map<Seq<char>, Seq<char>>, Set<Seq<char>>)
    decreases args.len() - i,
{
    if i < 0 || i >= args.len() {
        (vars, exported)
    } else {
        match split_assignment(args[i]) {
            Some((k, v)) => export_fold(vars.insert(k, v), exported.insert(k), args, i + 1),
            None => export_fold(vars, exported.insert(args[i]), args, i + 1),
        }
    }
}

/// Splits `KEY=VALUE`.
fn split_assignment_exec(arg: &str) -> (r: Option<(String, String)>)
    ensures
        r matches Some((k, v)) ==> split_assignment(arg@) == Some((k@, v@)),
        r is None ==> split_assignment(arg@) is None,
{
    let c = chars_of(arg);
    let eq = find_char_exec(c.as_slice(), 0, '=');
    proof {
        lemma_find_char_from(c@, 0, '=');
    }
    if eq < c.len() {
        let k = string_of_range(c.as_slice(), 0, eq);
        let v = string_of_range(c.as_slice(), eq + 1, c.len());
        assert(c@.subrange(0, eq as int) =~= c@.take(eq as int));
        assert(c@.subrange(eq + 1, c@.len() as int) =~= c@.skip(eq + 1));
        Some((k, v))
    } else {
        None
    }
}

/// Lists the variables `KEY=VALUE` (with a prefix) from (name, value) pairs.
fn listing_exec(pairs: &Vec<(&str, &str)>, prefix: &str) -> (r: String)
    ensures
        r@ == listing(pairs@.map_values(|p: (&str, &str)| (p.0@, p.1@)), prefix@),
{
    let ghost e = pairs@.map_values(|p: (&str, &str)| (p.0@, p.1@));
    let ghost f = |p: (Seq<char>, Seq<char>)| prefix@ + p.0 + seq!['='] + p.1;
    let mut lines: Vec<String> = Vec::new();
    let mut i: usize = 0;
    while i < pairs.len()
        invariant
            e == pairs@.map_values(|p: (&str, &str)| (p.0@, p.1@)),
            f == (|p: (Seq<char>, Seq<char>)| prefix@ + p.0 + seq!['='] + p.1),
            i <= e.len(),
            strings_view(lines@) == e.take(i as int).map_values(f),
        decreases e.len() - i,
    {
        let ghost before = strings_view(lines@);
        let mut line = String::from_str(prefix);
        push_str(&mut line, pairs[i].0);
        crate::text::push_char(&mut line, '=');
        push_str(&mut line, pairs[i].1);
        assert(line@ == f(e[i as int]));
        lines.push(line);
        assert(strings_view(lines@) =~= before.push(f(e[i as int])));
        assert(e.take(i + 1) =~= e.take(i as int).push(e[i as int]));
        assert(e.take(i + 1).map_values(f) =~= e.take(i as int).map_values(f).push(f(e[i as int])));
        i = i + 1;
    }
    assert(e.take(i as int) =~= e);
    proof {
        reveal_strlit("\n");
        assert("\n"@ =~= seq!['\n']);
    }
    join_strings(&lines, "\n")
}

/// The message for `set` with an argument that has no `=`.
pub open spec fn set_invalid_message(arg: Seq<char>) -> Seq<char> {
    "set: invalid format: "@ + arg + " (expected KEY=VALUE)"@
}

/// `set`: without arguments, list the variables; otherwise set each `KEY=VALUE`,
/// stopping with an error at the first argument without `=`.
fn cmd_set(args: &[String], env: &mut Environment) -> (r: Result<String, String>)
    ensures
        args@.len() == 0 ==> answer_view(r) == Ok::<Seq<char>, Seq<char>>(listing(old(env).entries(), Seq::empty())) && final(env).vars() == old(env).vars(),
        args@.len() > 0 ==> final(env).vars() == set_fold(old(env).vars(), strings_view(args@), 0).0,
        args@.len() > 0 ==> answer_view(r) == match set_fold(old(env).vars(), strings_view(args@), 0).1 {
            Some(bad) => Err::<Seq<char>, Seq<char>>(set_invalid_message(bad)),
            None => Ok(Seq::empty()),
        },
        final(env).exported() == old(env).exported(),
{
    if args.len() == 0 {
        let vars = env.all();
        let out = listing_exec(&vars, "");
        proof {
            reveal_strlit("");
            assert(""@ =~= Seq::<char>::empty());
        }
        return Ok(out);
    }
    let ghost av = strings_view(args@);
    let mut i: usize = 0;
    while i < args.len()
        invariant
            av == strings_view(args@),
            i <= av.len(),
            set_fold(old(env).vars(), av, 0) == set_fold(env.vars(), av, i as int),
            env.exported() == old(env).exported(),
        decreases av.len() - i,
    {
        assert(args@[i as int]@ == av[i as int]);
        match split_assignment_exec(args[i].as_str()) {
            Some((k, v)) => {
                env.set(k.as_str(), v.as_str());
            },
            None => {
                let mut msg = String::from_str("set: invalid format: ");
                push_str(&mut msg, args[i].as_str());
                push_str(&mut msg, " (expected KEY=VALUE)");
                return Err(msg);
            },
        }
        i = i + 1;
    }
    Ok(String::new())
}

/// `unset`: remove each named variable (and its export mark).
fn cmd_unset(args: &[String], env: &mut Environment) -> (r: Result<String, String>)
    ensures
        args@.len() == 0 ==> answer_view(r) == Err::<Seq<char>, Seq<char>>("unset: missing variable name"@) && final(env).vars() == old(env).vars() && final(env).exported() == old(env).exported(),
        args@.len() > 0 ==> answer_view(r) == Ok::<Seq<char>, Seq<char>>(Seq::empty())
            && final(env).vars() == old(env).vars().remove_keys(strings_view(args@).to_set())
            && final(env).exported() == old(env).exported().difference(strings_view(args@).to_set()),
{
    if args.len() == 0 {
        return Err(String::from_str("unset: missing variable name"));
    }
    let ghost av = strings_view(args@);
    let mut i: usize = 0;
    assert(av.take(0).to_set() =~= Set::<Seq<char>>::empty());
    assert(old(env).vars().remove_keys(Set::empty()) =~= old(env).vars());
    assert(old(env).exported().difference(Set::empty()) =~= old(env).exported());
    while i < args.len()
        invariant
            av == strings_view(args@),
            i <= av.len(),
            env.vars() == old(env).vars().remove_keys(av.take(i as int).to_set()),
            env.exported() == old(env).exported().difference(av.take(i as int).to_set()),
        decreases av.len() - i,
    {
        assert(args@[i as int]@ == av[i as int]);
        env.unset(args[i].as_str());
        assert(av.take(i + 1).to_set() =~= av.take(i as int).to_set().insert(av[i as int])) by {
            assert(av.take(i + 1) =~= av.take(i as int).push(av[i as int]));
            let t1 = av.take(i + 1);
            let t0 = av.take(i as int);
            assert forall|x: Seq<char>| #[trigger] t1.contains(x) == (t0.contains(x) || x == av[i as int]) by {
                if t1.contains(x) {
                    let j = choose|j: int| 0 <= j < t1.len() && #[trigger] t1[j] == x;
                    if j < i {
                        assert(t0[j] == x);
                    }
                }
                if t0.contains(x) {
                    let j = choose|j: int| 0 <= j < t0.len() && #[trigger] t0[j] == x;
                    assert(t1[j] == x);
                }
                if x == av[i as int] {
                    assert(t1[i as int] == x);
                }
            }
        }
        assert(env.vars() =~= old(env).vars().remove_keys(av.take(i + 1).to_set()));
        assert(env.exported() =~= old(env).exported().difference(av.take(i + 1).to_set()));
        i = i + 1;
    }
    assert(av.take(i as int) =~= av);
    Ok(String::new())
}

/// `export`: without arguments, list the exported variables as `export KEY=VALUE`;
/// otherwise set and export each `KEY=VALUE` and export each bare name.
fn cmd_export(args: &[String], env: &mut Environment) -> (r: Result<String, String>)
    ensures
        args@.len() == 0 ==> answer_view(r) == Ok::<Seq<char>, Seq<char>>(listing(
            old(env).entries().filter(|p: (Seq<char>, Seq<char>)| old(env).exported().contains(p.0)),
            "export "@,
        )) && final(env).vars() == old(env).vars() && final(env).exported() == old(env).exported(),
        args@.len() > 0 ==> answer_view(r) == Ok::<Seq<char>, Seq<char>>(Seq::empty())
            && (final(env).vars(), final(env).exported()) == export_fold(old(env).vars(), old(env).exported(), strings_view(args@), 0),
{
    if args.len() == 0 {
        let vars = env.exported_vars();
        return Ok(listing_exec(&vars, "export "));
    }
    let ghost av = strings_view(args@);
    let mut i: usize = 0;
    while i < args.len()
        invariant
            av == strings_view(args@),
            i <= av.len(),
            export_fold(old(env).vars(), old(env).exported(), av, 0) == export_fold(env.vars(), env.exported(), av, i as int),
        decreases av.len() - i,
    {
        assert(args@[i as int]@ == av[i as int]);
        match split_assignment_exec(args[i].as_str()) {
            Some((k, v)) => {
                env.set_export(k.as_str(), v.as_str());
            },
            None => {
                env.export(args[i].as_str());
            },
        }
        i = i + 1;
    }
    Ok(String::new())
}


// ---------------------------------------------------------------------------
// Reports of system information
// ---------------------------------------------------------------------------

/// One line of the `ps` table.
pub open spec fn ps_row(a: (u64, Seq<char>, Seq<char>)) -> Seq<char> {
    pad_left(decimal(a.0 as nat), 4) + "  "@ + pad_right(a.1, 20) + a.2 + seq!['\n']
}

/// The lines of the `ps` table.
pub open spec fn ps_rows(agents: Seq<(u64, Seq<char>, Seq<char>)>) -> Seq<char>
    decreases agents.len(),
{
    if agents.len() == 0 {
        Seq::empty()
    } else {
        ps_rows(agents.drop_last()) + ps_row(agents.last())
    }
}

/// What `ps` prints for the agent sessions `(id, name, status)`.
pub open spec fn ps_text(agents: Seq<(u64, Seq<char>, Seq<char>)>) -> Seq<char> {
    if agents.len() == 0 {
        "No active agent sessions."@
    } else {
        "  ID  NAME                STATUS\n"@ + ps_rows(agents)
    }
}

/// The model of agent sessions.
pub open spec fn agents_view(v: Seq<(u64, String, String)>) -> Seq<(u64, Seq<char>, Seq<char>)> {
    v.map_values(|a: (u64, String, String)| (a.0, a.1@, a.2@))
}

/// Formats the `ps` table.
pub fn ps_report(agents: &Vec<(u64, String, String)>) -> (r: String)
    ensures
        r@ == ps_text(agents_view(agents@)),
{
    let ghost av = agents_view(agents@);
    if agents.len() == 0 {
        return String::from_str("No active agent sessions.");
    }
    let mut out = String::from_str("  ID  NAME                STATUS\n");
    let ghost head = out@;
    let mut i: usize = 0;
    while i < agents.len()
        invariant
            av == agents_view(agents@),
            i <= av.len(),
            out@ == head + ps_rows(av.take(i as int)),
        decreases av.len() - i,
    {
        let ghost before = out@;
        let id = crate::text::decimal_chars(agents[i].0);
        push_padded_left(&mut out, id.as_slice(), 4);
        push_str(&mut out, "  ");
        let name = chars_of(agents[i].1.as_str());
        push_padded_right(&mut out, name.as_slice(), 20);
        push_str(&mut out, agents[i].2.as_str());
        crate::text::push_char(&mut out, '\n');
        proof {
            assert(av.take(i + 1).drop_last() =~= av.take(i as int));
            assert(av.take(i + 1).last() == av[i as int]);
            assert(out@ =~= before + ps_row(av[i as int]));
        }
        i = i + 1;
    }
    assert(av.take(i as int) =~= av);
    out
}

/// One interface of the `ifconfig` report.
pub open spec fn ifconfig_row(a: (Seq<char>, Seq<char>, Seq<char>, Seq<char>)) -> Seq<char> {
    a.0 + ": "@ + a.1 + " ("@ + a.3 + ")\n  HWaddr: "@ + a.2 + "\n\n"@
}

/// The interfaces of the `ifconfig` report.
pub open spec fn ifconfig_rows(ifaces: Seq<(Seq<char>, Seq<char>, Seq<char>, Seq<char>)>) -> Seq<char>
    decreases ifaces.len(),
{
    if ifaces.len() == 0 {
        Seq::empty()
    } else {
        ifconfig_rows(ifaces.drop_last()) + ifconfig_row(ifaces.last())
    }
}

/// What `ifconfig` prints for the interfaces `(name, ip, mac, status)`.
pub open spec fn ifconfig_text(ifaces: Seq<(Seq<char>, Seq<char>, Seq<char>, Seq<char>)>) -> Seq<char> {
    if ifaces.len() == 0 {
        "No network interfaces."@
    } else {
        ifconfig_rows(ifaces)
    }
}

/// The model of network interfaces.
pub open spec fn ifaces_view(v: Seq<(String, String, String, String)>) -> Seq<(Seq<char>, Seq<char>, Seq<char>, Seq<char>)> {
    v.map_values(|a: (String, String, String, String)| (a.0@, a.1@, a.2@, a.3@))
}

/// Formats the `ifconfig` report.
pub fn ifconfig_report(ifaces: &Vec<(String, String, String, String)>) -> (r: String)
    ensures
        r@ == ifconfig_text(ifaces_view(ifaces@)),
{
    let ghost iv = ifaces_view(ifaces@);
    if ifaces.len() == 0 {
        return String::from_str("No network interfaces.");
    }
    let mut out = String::new();
    let mut i: usize = 0;
    assert(ifconfig_rows(iv.take(0)) =~= Seq::<char>::empty()) by {
        assert(iv.take(0).len() == 0);
    }
    while i < ifaces.len()
        invariant
            iv == ifaces_view(ifaces@),
            i <= iv.len(),
            out@ == ifconfig_rows(iv.take(i as int)),
        decreases iv.len() - i,
    {
        let ghost before = out@;
        push_str(&mut out, ifaces[i].0.as_str());
        push_str(&mut out, ": ");
        push_str(&mut out, ifaces[i].1.as_str());
        push_str(&mut out, " (");
        push_str(&mut out, ifaces[i].3.as_str());
        push_str(&mut out, ")\n  HWaddr: ");
        push_str(&mut out, ifaces[i].2.as_str());
        push_str(&mut out, "\n\n");
        proof {
            assert(iv.take(i + 1).drop_last() =~= iv.take(i as int));
            assert(iv.take(i + 1).last() == iv[i as int]);
            assert(out@ =~= before + ifconfig_row(iv[i as int]));
        }
        i = i + 1;
    }
    assert(iv.take(i as int) =~= iv);
    out
}

/// What `free` prints for (total, used, free) bytes.
pub open spec fn free_text(total: u64, used: u64, free: u64) -> Seq<char> {
    "              total       used       free\nMem:    "@ + pad_left(format_bytes_spec(total as nat), 10)
        + "  "@ + pad_left(format_bytes_spec(used as nat), 10) + "  "@ + pad_left(format_bytes_spec(free as nat), 10)
        + seq!['\n']
}

/// Formats the `free` report.
pub fn free_report(total: u64, used: u64, free: u64) -> (r: String)
    ensures
        r@ == free_text(total, used, free),
{
    let mut out = String::from_str("              total       used       free\nMem:    ");
    let t = chars_of(format_bytes(total).as_str());
    push_padded_left(&mut out, t.as_slice(), 10);
    push_str(&mut out, "  ");
    let u = chars_of(format_bytes(used).as_str());
    push_padded_left(&mut out, u.as_slice(), 10);
    push_str(&mut out, "  ");
    let f = chars_of(format_bytes(free).as_str());
    push_padded_left(&mut out, f.as_slice(), 10);
    crate::text::push_char(&mut out, '\n');
    assert(out@ =~= free_text(total, used, free));
    out
}

/// One filesystem of the `df` table.
pub open spec fn df_row(d: (Seq<char>, u64, u64, u64)) -> Seq<char> {
    pad_right(d.0, 16) + " "@ + pad_left(format_bytes_spec(d.1 as nat), 8) + "  "@ + pad_left(format_bytes_spec(d.2 as nat), 8)
        + "  "@ + pad_left(format_bytes_spec(d.3 as nat), 8) + "  "@ + d.0 + seq!['\n']
}

/// The filesystems of the `df` table.
pub open spec fn df_rows(disks: Seq<(Seq<char>, u64, u64, u64)>) -> Seq<char>
    decreases disks.len(),
{
    if disks.len() == 0 {
        Seq::empty()
    } else {
        df_rows(disks.drop_last()) + df_row(disks.last())
    }
}

/// What `df` prints for (mount point, total, used, available).
pub open spec fn df_text(disks: Seq<(Seq<char>, u64, u64, u64)>) -> Seq<char> {
    if disks.len() == 0 {
        "No mounted filesystems."@
    } else {
        "Filesystem       Size      Used     Avail  Mount\n"@ + df_rows(disks)
    }
}

/// The model of disk usage.
pub open spec fn disks_view(v: Seq<(String, u64, u64, u64)>) -> Seq<(Seq<char>, u64, u64, u64)> {
    v.map_values(|d: (String, u64, u64, u64)| (d.0@, d.1, d.2, d.3))
}

/// Appends one filesystem line of the `df` table.
#[verifier::rlimit(40)]
fn push_df_row(out: &mut String, mount: &str, total: u64, used: u64, avail: u64)
    ensures
        final(out)@ == old(out)@ + df_row((mount@, total, used, avail)),
{
    let m = chars_of(mount);
    push_padded_right(out, m.as_slice(), 16);
    push_str(out, " ");
    let t = chars_of(format_bytes(total).as_str());
    push_padded_left(out, t.as_slice(), 8);
    push_str(out, "  ");
    let u = chars_of(format_bytes(used).as_str());
    push_padded_left(out, u.as_slice(), 8);
    push_str(out, "  ");
    let a = chars_of(format_bytes(avail).as_str());
    push_padded_left(out, a.as_slice(), 8);
    push_str(out, "  ");
    push_str(out, mount);
    crate::text::push_char(out, '\n');
    assert(out@ =~= old(out)@ + df_row((mount@, total, used, avail)));
}

/// Formats the `df` table.
pub fn df_report(disks: &Vec<(String, u64, u64, u64)>) -> (r: String)
    ensures
        r@ == df_text(disks_view(disks@)),
{
    let ghost dv = disks_view(disks@);
    if disks.len() == 0 {
        return String::from_str("No mounted filesystems.");
    }
    let mut out = String::from_str("Filesystem       Size      Used     Avail  Mount\n");
    let ghost head = out@;
    let mut i: usize = 0;
    while i < disks.len()
        invariant
            dv == disks_view(disks@),
            i <= dv.len(),
            out@ == head + df_rows(dv.take(i as int)),
        decreases dv.len() - i,
    {
        let ghost before = out@;
        push_df_row(&mut out, disks[i].0.as_str(), disks[i].1, disks[i].2, disks[i].3);
        proof {
            assert(dv.take(i + 1).drop_last() =~= dv.take(i as int));
            assert(dv.take(i + 1).last() == dv[i as int]);
            assert(out@ =~= before + df_row(dv[i as int]));
        }
        i = i + 1;
    }
    assert(dv.take(i as int) =~= dv);
    out
}

/// What `uptime` prints for an uptime in seconds.
pub open spec fn uptime_text(secs: u64) -> Seq<char> {
    "up "@ + decimal((secs / 3600) as nat) + " hours, "@ + decimal(((secs % 3600) / 60) as nat) + " minutes, "@
        + decimal((secs % 60) as nat) + " seconds"@
}

/// The hours, minutes and seconds that `uptime` reports add up to the whole
/// uptime, with fewer than 60 minutes and 60 seconds: no day is dropped.
pub proof fn law_uptime_adds_up(secs: u64)
    ensures
        exists|h: nat, m: nat, sec: nat|
            #![trigger decimal(h), decimal(m), decimal(sec)]
            m < 60 && sec < 60 && 3600 * h + 60 * m + sec == secs
            && uptime_text(secs) == "up "@ + decimal(h) + " hours, "@ + decimal(m) + " minutes, "@ + decimal(sec) + " seconds"@,
{
    let h = (secs / 3600) as nat;
    let m = ((secs % 3600) / 60) as nat;
    let sec = (secs % 60) as nat;
    assert(3600 * h + 60 * m + sec == secs && m < 60 && sec < 60) by (nonlinear_arith)
        requires
            h == secs / 3600,
            m == (secs % 3600) / 60,
            sec == secs % 60,
    {
    }
    assert(uptime_text(secs) == "up "@ + decimal(h) + " hours, "@ + decimal(m) + " minutes, "@ + decimal(sec) + " seconds"@);
}

/// Formats the `uptime` report.
pub fn uptime_report(secs: u64) -> (r: String)
    ensures
        r@ == uptime_text(secs),
{
    let mut out = String::from_str("up ");
    push_str(&mut out, u64_to_string(secs / 3600).as_str());
    push_str(&mut out, " hours, ");
    push_str(&mut out, u64_to_string((secs % 3600) / 60).as_str());
    push_str(&mut out, " minutes, ");
    push_str(&mut out, u64_to_string(secs % 60).as_str());
    push_str(&mut out, " seconds");
    out
}


// ---------------------------------------------------------------------------
// Builtins that use the file system
// ---------------------------------------------------------------------------

/// What `ls` answers for what listing the directory gave: the names, one per line.
pub open spec fn ls_answer(res: Result<Seq<Seq<char>>, Seq<char>>) -> Answer {
    match res {
        Ok(es) => Ok(join(es, seq!['\n'])),
        Err(e) => Err(e),
    }
}


fn cmd_ls<V: Vfs + ?Sized>(args: &[String], env: &Environment, vfs: &V) -> (r: Result<String, String>)
    ensures
        exists|res: Result<Seq<Seq<char>>, Seq<char>>| #[trigger] ls_answer(res) == answer_view(r),
        answer_view(r) == ls_answer(vfs.listing(ls_target(args@.map_values(|s: String| s@), *env))),
{
    let path: String = if args.len() == 0 {
        String::from_str(env.pwd())
    } else {
        resolve_path(args[0].as_str(), env)
    };
    match vfs.list_dir(path.as_str()) {
        Ok(entries) => {
            let out = join_strings(&entries, "\n");
            proof {
                reveal_strlit("\n");
                assert("\n"@ =~= seq!['\n']);
                let res: Result<Seq<Seq<char>>, Seq<char>> = Ok(strings_view(entries@));
                assert(ls_answer(res) == answer_view(Ok::<String, String>(out)));
            }
            Ok(out)
        },
        Err(e) => {
            proof {
                let res: Result<Seq<Seq<char>>, Seq<char>> = Err(e@);
                assert(ls_answer(res) == answer_view(Err::<String, String>(e)));
            }
            Err(e)
        },
    }
}

/// The directory `ls` lists: the working directory, or its argument resolved.
pub open spec fn ls_target(args: Seq<Seq<char>>, env: Environment) -> Seq<char> {
    if args.len() == 0 {
        env.pwd_spec()
    } else {
        resolve_spec(args[0], env.pwd_spec())
    }
}

/// What `cd` to `t` answers when `t` is (`present`) there and is a
/// `directory`: nothing when it is a directory, and otherwise the error for a
/// path that is missing or is not a directory.
pub open spec fn cd_answer(t: Seq<char>, present: bool, directory: bool) -> Answer {
    if !present {
        Err("cd: "@ + t + ": No such file or directory"@)
    } else if !directory {
        Err("cd: "@ + t + ": Not a directory"@)
    } else {
        Ok(Seq::empty())
    }
}

/// The directory `cd` goes to.
pub open spec fn cd_target(args: Seq<Seq<char>>, env: Environment) -> Seq<char> {
    if args.len() == 0 {
        env.home_spec()
    } else {
        resolve_spec(args[0], env.pwd_spec())
    }
}

fn cmd_cd<V: Vfs + ?Sized>(args: &[String], env: &mut Environment, vfs: &V) -> (r: Result<String, String>)
    ensures
        ({
            let t = cd_target(strings_view(args@), *old(env));
            ||| answer_view(r) == Ok::<Seq<char>, Seq<char>>(Seq::empty()) && final(env).vars() == old(env).vars().insert(key_pwd(), t)
            ||| (answer_view(r) == Err::<Seq<char>, Seq<char>>("cd: "@ + t + ": No such file or directory"@)
                || answer_view(r) == Err::<Seq<char>, Seq<char>>("cd: "@ + t + ": Not a directory"@))
                && final(env).vars() == old(env).vars()
        }),
        final(env).exported() == old(env).exported(),
        answer_view(r) == cd_answer(cd_target(strings_view(args@), *old(env)), vfs.present(cd_target(strings_view(args@), *old(env))), vfs.directory(cd_target(strings_view(args@), *old(env)))),
{
    let target: String = if args.len() == 0 {
        String::from_str(env.home())
    } else {
        resolve_path(args[0].as_str(), env)
    };
    if !vfs.path_exists(target.as_str()) {
        let mut msg = String::from_str("cd: ");
        push_str(&mut msg, target.as_str());
        push_str(&mut msg, ": No such file or directory");
        return Err(msg);
    }
    if !vfs.is_dir(target.as_str()) {
        let mut msg = String::from_str("cd: ");
        push_str(&mut msg, target.as_str());
        push_str(&mut msg, ": Not a directory");
        return Err(msg);
    }
    env.set_pwd(target.as_str());
    Ok(String::new())
}

/// Decoded file contents, one after the other.
pub open spec fn concat_lossy(datas: Seq<Seq<u8>>) -> Seq<char>
    decreases datas.len(),
{
    if datas.len() == 0 {
        Seq::empty()
    } else {
        concat_lossy(datas.drop_last()) + utf8_lossy(datas.last())
    }
}

/// What `vfs` holds at each of `paths`.
pub open spec fn files_of<V: Vfs + ?Sized>(vfs: &V, paths: Seq<Seq<char>>) -> Seq<Result<Seq<u8>, Seq<char>>> {
    Seq::new(paths.len(), |j: int| vfs.file(paths[j]))
}

/// What `cat` answers for the files `files[i..]` after the text `acc`: the
/// first read's error, or all the texts one after the other.
pub open spec fn cat_from(files: Seq<Result<Seq<u8>, Seq<char>>>, i: int, acc: Seq<char>) -> Answer
    decreases files.len() - i,
{
    if i < 0 || i >= files.len() {
        Ok(acc)
    } else {
        match files[i] {
            Err(e) => Err(e),
            Ok(d) => cat_from(files, i + 1, acc + utf8_lossy(d)),
        }
    }
}

/// The text of a file read, or the read's error.
pub open spec fn text_answer(f: Result<Seq<u8>, Seq<char>>) -> Answer {
    match f {
        Ok(d) => Ok(utf8_lossy(d)),
        Err(e) => Err(e),
    }
}

/// What `head` answers for the file read `f`: its first `n` lines, or the
/// read's error.
pub open spec fn head_answer(f: Result<Seq<u8>, Seq<char>>, n: nat) -> Answer {
    match f {
        Ok(d) => Ok(head_spec(utf8_lossy(d), n)),
        Err(e) => Err(e),
    }
}

/// What `tail` answers for the file read `f`: its last `n` lines, or the
/// read's error.
pub open spec fn tail_answer(f: Result<Seq<u8>, Seq<char>>, n: nat) -> Answer {
    match f {
        Ok(d) => Ok(tail_spec(utf8_lossy(d), n)),
        Err(e) => Err(e),
    }
}

/// What `grep` answers for the file read `f`: its lines holding `pattern`,
/// or the read's error.
pub open spec fn grep_answer(f: Result<Seq<u8>, Seq<char>>, pattern: Seq<char>) -> Answer {
    match f {
        Ok(d) => Ok(grep_spec(utf8_lossy(d), pattern)),
        Err(e) => Err(e),
    }
}

fn cmd_cat<V: Vfs + ?Sized>(args: &[String], stdin: Option<&[u8]>, env: &Environment, vfs: &V) -> (r: Result<String, String>)
    ensures
        args@.len() == 0 && stdin is Some ==> answer_view(r) == Ok::<Seq<char>, Seq<char>>(utf8_lossy(stdin->0@)),
        args@.len() == 0 && stdin is None ==> answer_view(r) == Err::<Seq<char>, Seq<char>>("cat: missing file operand"@),
        args@.len() > 0 ==> r is Err || exists|datas: Seq<Seq<u8>>| datas.len() == args@.len() && #[trigger] concat_lossy(datas) == r->Ok_0@,
        args@.len() > 0 ==> answer_view(r) == cat_from(files_of(vfs, resolved(strings_view(args@), env.pwd_spec())), 0, Seq::empty()),
{
    if args.len() == 0 {
        match stdin {
            Some(data) => {
                return Ok(from_utf8_lossy(data));
            },
            None => {
                return Err(String::from_str("cat: missing file operand"));
            },
        }
    }
    let mut output = String::new();
    let ghost mut datas: Seq<Seq<u8>> = Seq::empty();
    let ghost files = files_of(vfs, resolved(strings_view(args@), env.pwd_spec()));
    let mut i: usize = 0;
    while i < args.len()
        invariant
            i <= args@.len(),
            datas.len() == i,
            output@ == concat_lossy(datas),
            files == files_of(vfs, resolved(strings_view(args@), env.pwd_spec())),
            cat_from(files, 0, Seq::empty()) == cat_from(files, i as int, output@),
        decreases args@.len() - i,
    {
        let path = resolve_path(args[i].as_str(), env);
        assert(files[i as int] == vfs.file(path@));
        let data = match vfs.read_file(path.as_str()) {
            Ok(d) => d,
            Err(e) => {
                let r: Result<String, String> = Err(e);
                assert(cat_from(files, i as int, output@) == answer_view(r));
                return r;
            },
        };
        let text = from_utf8_lossy(data.as_slice());
        push_str(&mut output, text.as_str());
        proof {
            assert(datas.push(data@).drop_last() =~= datas);
            datas = datas.push(data@);
        }
        i = i + 1;
    }
    assert(concat_lossy(datas) == output@);
    let r: Result<String, String> = Ok(output);
    assert(cat_from(files, i as int, output@) == answer_view(r));
    r
}

/// `Ok("")` or any error.
/// The reply of a change that answered `a`: no output, or its error.
pub open spec fn unit_reply(a: Result<(), Seq<char>>) -> Answer {
    match a {
        Ok(()) => Ok(Seq::empty()),
        Err(e) => Err(e),
    }
}

/// The paths `args` name, resolved against the working directory `pwd`.
pub open spec fn resolved(args: Seq<Seq<char>>, pwd: Seq<char>) -> Seq<Seq<char>> {
    Seq::new(args.len(), |j: int| resolve_spec(args[j], pwd))
}

pub open spec fn done_or_error(r: Result<String, String>) -> bool {
    r is Err || answer_view(r) == Ok::<Seq<char>, Seq<char>>(Seq::empty())
}

fn cmd_cp<V: Vfs + ?Sized>(args: &[String], env: &Environment, vfs: &mut V) -> (r: Result<String, String>)
    ensures
        args@.len() < 2 ==> answer_view(r) == Err::<Seq<char>, Seq<char>>("cp: missing operand"@)
            && final(vfs).changes() == old(vfs).changes(),
        args@.len() >= 2 ==> exists|a: Result<(), Seq<char>>|
            #[trigger] unit_reply(a) == answer_view(r) && final(vfs).changes() == old(vfs).changes().push(FsCall::Copy {
                src: resolve_spec(args@[0]@, env.pwd_spec()),
                dst: resolve_spec(args@[1]@, env.pwd_spec()),
                answer: a,
            }),
        done_or_error(r),
{
    if args.len() < 2 {
        return Err(String::from_str("cp: missing operand"));
    }
    let src = resolve_path(args[0].as_str(), env);
    let dst = resolve_path(args[1].as_str(), env);
    let res = vfs.copy_file(src.as_str(), dst.as_str());
    let ghost a = unit_answer(res);
    let r = match res {
        Ok(()) => Ok(String::new()),
        Err(e) => Err(e),
    };
    assert(unit_reply(a) == answer_view(r));
    r
}

fn cmd_mv<V: Vfs + ?Sized>(args: &[String], env: &Environment, vfs: &mut V) -> (r: Result<String, String>)
    ensures
        args@.len() < 2 ==> answer_view(r) == Err::<Seq<char>, Seq<char>>("mv: missing operand"@)
            && final(vfs).changes() == old(vfs).changes(),
        args@.len() >= 2 ==> exists|a: Result<(), Seq<char>>|
            #[trigger] unit_reply(a) == answer_view(r) && final(vfs).changes() == old(vfs).changes().push(FsCall::Move {
                src: resolve_spec(args@[0]@, env.pwd_spec()),
                dst: resolve_spec(args@[1]@, env.pwd_spec()),
                answer: a,
            }),
        done_or_error(r),
{
    if args.len() < 2 {
        return Err(String::from_str("mv: missing operand"));
    }
    let src = resolve_path(args[0].as_str(), env);
    let dst = resolve_path(args[1].as_str(), env);
    let res = vfs.move_file(src.as_str(), dst.as_str());
    let ghost a = unit_answer(res);
    let r = match res {
        Ok(()) => Ok(String::new()),
        Err(e) => Err(e),
    };
    assert(unit_reply(a) == answer_view(r));
    r
}

/// Which file operation `rm`, `mkdir` and `touch` make.
enum PathOp {
    Remove,
    Mkdir,
    Touch,
}

/// The command that makes the path operation `op`.
spec fn op_command(op: PathOp) -> Seq<char> {
    match op {
        PathOp::Remove => "rm"@,
        PathOp::Mkdir => "mkdir"@,
        PathOp::Touch => "touch"@,
    }
}

/// The change the command `cmd` (`rm`, `mkdir` or `touch`) makes on `path`,
/// answered `answer`.
pub open spec fn path_call(cmd: Seq<char>, path: Seq<char>, answer: Result<(), Seq<char>>) -> FsCall {
    if cmd == "rm"@ {
        FsCall::Remove { path, answer }
    } else if cmd == "mkdir"@ {
        FsCall::Mkdir { path, answer }
    } else {
        FsCall::Touch { path, answer }
    }
}

/// The changes `cmd` makes on the first paths of `paths`, answered `answers`.
pub open spec fn path_calls(cmd: Seq<char>, paths: Seq<Seq<char>>, answers: Seq<Result<(), Seq<char>>>) -> Seq<FsCall> {
    Seq::new(answers.len(), |j: int| path_call(cmd, paths[j], answers[j]))
}

/// Whether an operation on each of `paths` that answered `answers` replied
/// `r`: it went on while the changes succeeded and stopped at the first that
/// failed, replying its error; otherwise it replied nothing.
pub open spec fn paths_ran(paths: Seq<Seq<char>>, answers: Seq<Result<(), Seq<char>>>, r: Answer) -> bool {
    &&& answers.len() <= paths.len()
    &&& forall|j: int| 0 <= j < answers.len() - 1 ==> (#[trigger] answers[j]) is Ok
    &&& if answers.len() > 0 && answers.last() is Err {
        r == Err::<Seq<char>, Seq<char>>(answers.last()->Err_0)
    } else {
        answers.len() == paths.len() && r == Ok::<Seq<char>, Seq<char>>(Seq::empty())
    }
}

/// Runs a per-path file operation on each argument, stopping at the first error.
fn for_each_path<V: Vfs + ?Sized>(args: &[String], env: &Environment, vfs: &mut V, op: PathOp) -> (r: Result<String, String>)
    ensures
        done_or_error(r),
        args@.len() == 0 ==> answer_view(r) == Ok::<Seq<char>, Seq<char>>(Seq::empty()),
        exists|answers: Seq<Result<(), Seq<char>>>|
            #[trigger] paths_ran(resolved(strings_view(args@), env.pwd_spec()), answers, answer_view(r))
            && final(vfs).changes() == old(vfs).changes()
                + path_calls(op_command(op), resolved(strings_view(args@), env.pwd_spec()), answers),
{
    let ghost paths = resolved(strings_view(args@), env.pwd_spec());
    let ghost cmd = op_command(op);
    let ghost mut answers: Seq<Result<(), Seq<char>>> = Seq::empty();
    let mut i: usize = 0;
    while i < args.len()
        invariant
            i <= args@.len(),
            paths == resolved(strings_view(args@), env.pwd_spec()),
            cmd == op_command(op),
            answers.len() == i,
            forall|j: int| 0 <= j < i ==> (#[trigger] answers[j]) is Ok,
            vfs.changes() == old(vfs).changes() + path_calls(cmd, paths, answers),
        decreases args@.len() - i,
    {
        let path = resolve_path(args[i].as_str(), env);
        assert(path@ == paths[i as int]);
        let res = match op {
            PathOp::Remove => vfs.remove(path.as_str()),
            PathOp::Mkdir => vfs.mkdir(path.as_str()),
            PathOp::Touch => vfs.touch(path.as_str()),
        };
        let ghost ans = unit_answer(res);
        proof {
            let new = answers.push(ans);
            reveal_strlit("rm");
            reveal_strlit("mkdir");
            reveal_strlit("touch");
            assert("mkdir"@.len() != "rm"@.len());
            assert("touch"@.len() != "rm"@.len());
            assert("touch"@[0] != "mkdir"@[0]);
            assert("mkdir"@ != "rm"@ && "touch"@ != "rm"@ && "touch"@ != "mkdir"@);
            assert(path_call(cmd, paths[i as int], ans) == match op {
                PathOp::Remove => FsCall::Remove { path: path@, answer: ans },
                PathOp::Mkdir => FsCall::Mkdir { path: path@, answer: ans },
                PathOp::Touch => FsCall::Touch { path: path@, answer: ans },
            });
            assert(path_calls(cmd, paths, new) =~= path_calls(cmd, paths, answers).push(path_call(cmd, paths[i as int], ans)));
            answers = new;
        }
        match res {
            Ok(()) => {},
            Err(e) => {
                let r: Result<String, String> = Err(e);
                assert(paths_ran(paths, answers, answer_view(r)));
                return r;
            },
        }
        i = i + 1;
    }
    let r: Result<String, String> = Ok(String::new());
    assert(paths_ran(paths, answers, answer_view(r)));
    r
}

fn cmd_rm<V: Vfs + ?Sized>(args: &[String], env: &Environment, vfs: &mut V) -> (r: Result<String, String>)
    ensures
        args@.len() == 0 ==> answer_view(r) == Err::<Seq<char>, Seq<char>>("rm: missing operand"@)
            && final(vfs).changes() == old(vfs).changes(),
        args@.len() > 0 ==> exists|answers: Seq<Result<(), Seq<char>>>|
            #[trigger] paths_ran(resolved(strings_view(args@), env.pwd_spec()), answers, answer_view(r))
            && final(vfs).changes() == old(vfs).changes()
                + path_calls("rm"@, resolved(strings_view(args@), env.pwd_spec()), answers),
        done_or_error(r),
{
    if args.len() == 0 {
        return Err(String::from_str("rm: missing operand"));
    }
    for_each_path(args, env, vfs, PathOp::Remove)
}

fn cmd_mkdir<V: Vfs + ?Sized>(args: &[String], env: &Environment, vfs: &mut V) -> (r: Result<String, String>)
    ensures
        args@.len() == 0 ==> answer_view(r) == Err::<Seq<char>, Seq<char>>("mkdir: missing operand"@)
            && final(vfs).changes() == old(vfs).changes(),
        args@.len() > 0 ==> exists|answers: Seq<Result<(), Seq<char>>>|
            #[trigger] paths_ran(resolved(strings_view(args@), env.pwd_spec()), answers, answer_view(r))
            && final(vfs).changes() == old(vfs).changes()
                + path_calls("mkdir"@, resolved(strings_view(args@), env.pwd_spec()), answers),
        done_or_error(r),
{
    if args.len() == 0 {
        return Err(String::from_str("mkdir: missing operand"));
    }
    for_each_path(args, env, vfs, PathOp::Mkdir)
}

fn cmd_touch<V: Vfs + ?Sized>(args: &[String], env: &Environment, vfs: &mut V) -> (r: Result<String, String>)
    ensures
        args@.len() == 0 ==> answer_view(r) == Err::<Seq<char>, Seq<char>>("touch: missing operand"@)
            && final(vfs).changes() == old(vfs).changes(),
        args@.len() > 0 ==> exists|answers: Seq<Result<(), Seq<char>>>|
            #[trigger] paths_ran(resolved(strings_view(args@), env.pwd_spec()), answers, answer_view(r))
            && final(vfs).changes() == old(vfs).changes()
                + path_calls("touch"@, resolved(strings_view(args@), env.pwd_spec()), answers),
        done_or_error(r),
{
    if args.len() == 0 {
        return Err(String::from_str("touch: missing operand"));
    }
    for_each_path(args, env, vfs, PathOp::Touch)
}

/// The file and count `head`/`tail` take from their arguments.
pub open spec fn line_args(args: Seq<Seq<char>>) -> (Option<Seq<char>>, nat) {
    line_count_fold(args, 0, None, 10)
}

/// Reads the text `head`, `tail` and `grep` work on: the file when one is
/// named, else stdin.
fn input_text<V: Vfs + ?Sized>(file: Option<&str>, stdin: Option<&[u8]>, env: &Environment, vfs: &V) -> (r: Option<Result<String, String>>)
    ensures
        file is None && stdin is None ==> r is None,
        file is None && stdin is Some ==> (r matches Some(Ok(t)) && t@ == utf8_lossy(stdin->0@)),
        file is Some ==> (r matches Some(x) && (x is Err || exists|d: Seq<u8>| #[trigger] utf8_lossy(d) == x->Ok_0@)),
        file is Some ==> (r matches Some(x) && answer_view(x) == text_answer(vfs.file(resolve_spec(file->0@, env.pwd_spec())))),
{
    match file {
        Some(path) => {
            let resolved = resolve_path(path, env);
            match vfs.read_file(resolved.as_str()) {
                Ok(data) => {
                    let t = from_utf8_lossy(data.as_slice());
                    assert(utf8_lossy(data@) == t@);
                    Some(Ok(t))
                },
                Err(e) => Some(Err(e)),
            }
        },
        None => match stdin {
            Some(data) => Some(Ok(from_utf8_lossy(data))),
            None => None,
        },
    }
}

fn cmd_head<V: Vfs + ?Sized>(args: &[String], stdin: Option<&[u8]>, env: &Environment, vfs: &V) -> (r: Result<String, String>)
    ensures
        line_args(strings_view(args@)).0 is None && stdin is None ==> answer_view(r) == Err::<Seq<char>, Seq<char>>("head: missing file operand"@),
        line_args(strings_view(args@)).0 is None && stdin is Some ==> answer_view(r) == Ok::<Seq<char>, Seq<char>>(head_spec(utf8_lossy(stdin->0@), line_args(strings_view(args@)).1)),
        line_args(strings_view(args@)).0 is Some ==> r is Err || exists|d: Seq<u8>| #[trigger] head_spec(utf8_lossy(d), line_args(strings_view(args@)).1) == r->Ok_0@,
        line_args(strings_view(args@)).0 is Some ==> answer_view(r) == head_answer(
            vfs.file(resolve_spec(line_args(strings_view(args@)).0->0, env.pwd_spec())),
            line_args(strings_view(args@)).1,
        ),
{
    let (file_arg, n) = parse_line_count_args(args, 10);
    match input_text(file_arg, stdin, env, vfs) {
        None => Err(String::from_str("head: missing file operand")),
        Some(Err(e)) => Err(e),
        Some(Ok(content)) => {
            let out = head_text(content.as_str(), n);
            proof {
                if file_arg is Some {
                    let d = choose|d: Seq<u8>| #[trigger] utf8_lossy(d) == content@;
                    assert(head_spec(utf8_lossy(d), line_args(strings_view(args@)).1) == out@);
                    assert(answer_view(Ok::<String, String>(out)) == Ok::<Seq<char>, Seq<char>>(out@));
                }
            }
            Ok(out)
        },
    }
}

fn cmd_tail<V: Vfs + ?Sized>(args: &[String], stdin: Option<&[u8]>, env: &Environment, vfs: &V) -> (r: Result<String, String>)
    ensures
        line_args(strings_view(args@)).0 is None && stdin is None ==> answer_view(r) == Err::<Seq<char>, Seq<char>>("tail: missing file operand"@),
        line_args(strings_view(args@)).0 is None && stdin is Some ==> answer_view(r) == Ok::<Seq<char>, Seq<char>>(tail_spec(utf8_lossy(stdin->0@), line_args(strings_view(args@)).1)),
        line_args(strings_view(args@)).0 is Some ==> r is Err || exists|d: Seq<u8>| #[trigger] tail_spec(utf8_lossy(d), line_args(strings_view(args@)).1) == r->Ok_0@,
        line_args(strings_view(args@)).0 is Some ==> answer_view(r) == tail_answer(
            vfs.file(resolve_spec(line_args(strings_view(args@)).0->0, env.pwd_spec())),
            line_args(strings_view(args@)).1,
        ),
{
    let (file_arg, n) = parse_line_count_args(args, 10);
    match input_text(file_arg, stdin, env, vfs) {
        None => Err(String::from_str("tail: missing file operand")),
        Some(Err(e)) => Err(e),
        Some(Ok(content)) => {
            let out = tail_text(content.as_str(), n);
            proof {
                if file_arg is Some {
                    let d = choose|d: Seq<u8>| #[trigger] utf8_lossy(d) == content@;
                    assert(tail_spec(utf8_lossy(d), line_args(strings_view(args@)).1) == out@);
                    assert(answer_view(Ok::<String, String>(out)) == Ok::<Seq<char>, Seq<char>>(out@));
                }
            }
            Ok(out)
        },
    }
}

fn cmd_grep<V: Vfs + ?Sized>(args: &[String], stdin: Option<&[u8]>, env: &Environment, vfs: &V) -> (r: Result<String, String>)
    ensures
        args@.len() == 0 ==> answer_view(r) == Err::<Seq<char>, Seq<char>>("grep: missing pattern"@),
        args@.len() == 1 && stdin is None ==> answer_view(r) == Err::<Seq<char>, Seq<char>>("grep: missing file operand"@),
        args@.len() == 1 && stdin is Some ==> answer_view(r) == Ok::<Seq<char>, Seq<char>>(grep_spec(utf8_lossy(stdin->0@), args@[0]@)),
        args@.len() >= 2 ==> r is Err || exists|d: Seq<u8>| #[trigger] grep_spec(utf8_lossy(d), args@[0]@) == r->Ok_0@,
        args@.len() >= 2 ==> answer_view(r) == grep_answer(vfs.file(resolve_spec(args@[1]@, env.pwd_spec())), args@[0]@),
{
    if args.len() == 0 {
        return Err(String::from_str("grep: missing pattern"));
    }
    let file: Option<&str> = if args.len() >= 2 {
        Some(args[1].as_str())
    } else {
        None
    };
    match input_text(file, stdin, env, vfs) {
        None => Err(String::from_str("grep: missing file operand")),
        Some(Err(e)) => Err(e),
        Some(Ok(content)) => {
            let out = grep_text(content.as_str(), args[0].as_str());
            proof {
                if file is Some {
                    let d = choose|d: Seq<u8>| #[trigger] utf8_lossy(d) == content@;
                    assert(grep_spec(utf8_lossy(d), args@[0]@) == out@);
                }
            }
            Ok(out)
        },
    }
}

fn cmd_mount<V: Vfs + ?Sized>(args: &[String], vfs: &mut V) -> (r: Result<String, String>)
    ensures
        args@.len() < 3 ==> answer_view(r) == Err::<Seq<char>, Seq<char>>("mount: usage: mount <device> <path> <fstype>"@)
            && final(vfs).changes() == old(vfs).changes(),
        args@.len() >= 3 ==> exists|a: Result<(), Seq<char>>|
            #[trigger] unit_reply(a) == answer_view(r) && final(vfs).changes() == old(vfs).changes().push(FsCall::Mount {
                device: args@[0]@,
                path: args@[1]@,
                fstype: args@[2]@,
                answer: a,
            }),
        done_or_error(r),
{
    if args.len() < 3 {
        return Err(String::from_str("mount: usage: mount <device> <path> <fstype>"));
    }
    let res = vfs.mount(args[0].as_str(), args[1].as_str(), args[2].as_str());
    let ghost a = unit_answer(res);
    let r = match res {
        Ok(()) => Ok(String::new()),
        Err(e) => Err(e),
    };
    assert(unit_reply(a) == answer_view(r));
    r
}

fn cmd_umount<V: Vfs + ?Sized>(args: &[String], vfs: &mut V) -> (r: Result<String, String>)
    ensures
        args@.len() == 0 ==> answer_view(r) == Err::<Seq<char>, Seq<char>>("umount: missing operand"@)
            && final(vfs).changes() == old(vfs).changes(),
        args@.len() > 0 ==> exists|a: Result<(), Seq<char>>|
            #[trigger] unit_reply(a) == answer_view(r)
            && final(vfs).changes() == old(vfs).changes().push(FsCall::Umount { path: args@[0]@, answer: a }),
        done_or_error(r),
{
    if args.len() == 0 {
        return Err(String::from_str("umount: missing operand"));
    }
    let res = vfs.umount(args[0].as_str());
    let ghost a = unit_answer(res);
    let r = match res {
        Ok(()) => Ok(String::new()),
        Err(e) => Err(e),
    };
    assert(unit_reply(a) == answer_view(r));
    r
}


// ---------------------------------------------------------------------------
// Builtins that query the system
// ---------------------------------------------------------------------------

fn cmd_ps<S: SystemInfo + ?Sized>(sys: &S) -> (r: Result<String, String>)
    ensures
        exists|a: Seq<(u64, Seq<char>, Seq<char>)>| #[trigger] ps_text(a) == r->Ok_0@,
        r is Ok,
        r->Ok_0@ == ps_text(sys.agents()),
{
    let agents = sys.list_agents();
    Ok(ps_report(&agents))
}

/// The message for a `kill` argument that is not an ID.
pub open spec fn kill_invalid_message(arg: Seq<char>) -> Seq<char> {
    "kill: invalid ID: "@ + arg
}

/// The message after a session was killed.
pub open spec fn killed_message(id: nat) -> Seq<char> {
    "Agent "@ + decimal(id) + " terminated."@
}

fn cmd_kill<S: SystemInfo + ?Sized>(args: &[String], sys: &mut S) -> (r: Result<String, String>)
    ensures
        args@.len() == 0 ==> answer_view(r) == Err::<Seq<char>, Seq<char>>("kill: missing agent ID"@),
        args@.len() > 0 && parse_unsigned(args@[0]@, u64::MAX as nat) is None ==> answer_view(r) == Err::<Seq<char>, Seq<char>>(kill_invalid_message(args@[0]@)),
        args@.len() > 0 && parse_unsigned(args@[0]@, u64::MAX as nat) is Some ==> r is Err || answer_view(r) == Ok::<Seq<char>, Seq<char>>(killed_message(parse_unsigned(args@[0]@, u64::MAX as nat)->0)),
        args@.len() > 0 && parse_unsigned(args@[0]@, u64::MAX as nat) is Some ==> exists|id: u64, a: Result<(), Seq<char>>|
            #[trigger] kill_reply(id, a) == answer_view(r)
            && parse_unsigned(args@[0]@, u64::MAX as nat) == Some(id as nat)
            && final(sys).actions() == old(sys).actions().push(SysCall::Kill { id, answer: a }),
        !(args@.len() > 0 && parse_unsigned(args@[0]@, u64::MAX as nat) is Some) ==> final(sys).actions() == old(sys).actions(),
{
    if args.len() == 0 {
        return Err(String::from_str("kill: missing agent ID"));
    }
    let a = chars_of(args[0].as_str());
    let id = match parse_unsigned_exec(a.as_slice(), u64::MAX) {
        Some(v) => v,
        None => {
            let mut msg = String::from_str("kill: invalid ID: ");
            push_str(&mut msg, args[0].as_str());
            return Err(msg);
        },
    };
    assert(a@ == args@[0]@);
    assert(parse_unsigned(args@[0]@, u64::MAX as nat) == Some(id as nat));
    let res = sys.kill_agent(id);
    let ghost a = unit_answer(res);
    match res {
        Ok(()) => {},
        Err(e) => {
            let r: Result<String, String> = Err(e);
            assert(kill_reply(id, a) == answer_view(r));
            assert(sys.actions() == old(sys).actions().push(SysCall::Kill { id: id, answer: a }));
            return r;
        },
    }
    let mut msg = String::from_str("Agent ");
    push_str(&mut msg, u64_to_string(id).as_str());
    push_str(&mut msg, " terminated.");
    let r = Ok(msg);
    assert(answer_view(r) == Ok::<Seq<char>, Seq<char>>(killed_message(id as nat)));
    assert(kill_reply(id, a) == answer_view(r));
    r
}

/// The reply of `kill` on the session `id` when killing it answered `a`.
pub open spec fn kill_reply(id: u64, a: Result<(), Seq<char>>) -> Answer {
    match a {
        Ok(()) => Ok(killed_message(id as nat)),
        Err(e) => Err(e),
    }
}

/// The ANSI sequence that clears the screen.
pub open spec fn clear_text() -> Seq<char> {
    "\x1b[2J\x1b[H"@
}

fn cmd_clear<S: SystemInfo + ?Sized>(sys: &mut S) -> (r: Result<String, String>)
    ensures
        answer_view(r) == Ok::<Seq<char>, Seq<char>>(clear_text()),
        final(sys).actions() == old(sys).actions().push(SysCall::Clear),
{
    sys.clear_screen();
    Ok(String::from_str("\x1b[2J\x1b[H"))
}

fn cmd_reboot<S: SystemInfo + ?Sized>(sys: &mut S) -> (r: Option<Result<String, String>>)
    ensures
        r matches Some(x) && answer_view(x) == Ok::<Seq<char>, Seq<char>>(Seq::empty()),
        final(sys).actions() == old(sys).actions().push(SysCall::Reboot),
{
    sys.reboot();
    Some(Ok(String::new()))
}

fn cmd_shutdown<S: SystemInfo + ?Sized>(sys: &mut S) -> (r: Option<Result<String, String>>)
    ensures
        r matches Some(x) && answer_view(x) == Ok::<Seq<char>, Seq<char>>(Seq::empty()),
        final(sys).actions() == old(sys).actions().push(SysCall::Shutdown),
{
    sys.shutdown();
    Some(Ok(String::new()))
}

fn cmd_ifconfig<S: SystemInfo + ?Sized>(sys: &S) -> (r: Result<String, String>)
    ensures
        r is Ok,
        exists|i: Seq<(Seq<char>, Seq<char>, Seq<char>, Seq<char>)>| #[trigger] ifconfig_text(i) == r->Ok_0@,
        r->Ok_0@ == ifconfig_text(sys.interfaces()),
{
    let ifaces = sys.ifconfig();
    Ok(ifconfig_report(&ifaces))
}

fn cmd_ping<S: SystemInfo + ?Sized>(args: &[String], sys: &S) -> (r: Result<String, String>)
    ensures
        args@.len() == 0 ==> answer_view(r) == Err::<Seq<char>, Seq<char>>("ping: missing host"@),
        args@.len() > 0 ==> answer_view(r) == sys.ping_answer(args@[0]@),
{
    if args.len() == 0 {
        return Err(String::from_str("ping: missing host"));
    }
    sys.ping(args[0].as_str())
}

fn cmd_date<S: SystemInfo + ?Sized>(sys: &S) -> (r: Result<String, String>)
    ensures
        r is Ok,
        r->Ok_0@ == sys.now(),
{
    Ok(sys.date())
}

fn cmd_uptime<S: SystemInfo + ?Sized>(sys: &S) -> (r: Result<String, String>)
    ensures
        r is Ok,
        exists|secs: u64| #[trigger] uptime_text(secs) == r->Ok_0@,
        r->Ok_0@ == uptime_text(sys.uptime()),
{
    let secs = sys.uptime_secs();
    Ok(uptime_report(secs))
}

fn cmd_free<S: SystemInfo + ?Sized>(sys: &S) -> (r: Result<String, String>)
    ensures
        r is Ok,
        exists|t: u64, u: u64, f: u64| #[trigger] free_text(t, u, f) == r->Ok_0@,
        r->Ok_0@ == free_text(sys.memory().0, sys.memory().1, sys.memory().2),
{
    let (total, used, free) = sys.memory_info();
    Ok(free_report(total, used, free))
}

fn cmd_df<S: SystemInfo + ?Sized>(sys: &S) -> (r: Result<String, String>)
    ensures
        r is Ok,
        exists|d: Seq<(Seq<char>, u64, u64, u64)>| #[trigger] df_text(d) == r->Ok_0@,
        r->Ok_0@ == df_text(sys.disks()),
{
    let disks = sys.disk_usage();
    Ok(df_report(&disks))
}

// ---------------------------------------------------------------------------
// More file and text builtins
// ---------------------------------------------------------------------------

/// The message `rmdir` gives for a path that is missing or not a directory.
pub open spec fn rmdir_refusal(t: Seq<char>, present: bool) -> Seq<char> {
    if !present {
        "rmdir: "@ + t + ": No such file or directory"@
    } else {
        "rmdir: "@ + t + ": Not a directory"@
    }
}

fn cmd_rmdir<V: Vfs + ?Sized>(args: &[String], env: &Environment, vfs: &mut V) -> (r: Result<String, String>)
    ensures
        args@.len() == 0 ==> answer_view(r) == Err::<Seq<char>, Seq<char>>("rmdir: missing operand"@)
            && final(vfs).changes() == old(vfs).changes(),
        args@.len() > 0 && !(old(vfs).present(resolve_spec(args@[0]@, env.pwd_spec()))
            && old(vfs).directory(resolve_spec(args@[0]@, env.pwd_spec()))) ==> answer_view(r)
            == Err::<Seq<char>, Seq<char>>(rmdir_refusal(
                resolve_spec(args@[0]@, env.pwd_spec()),
                old(vfs).present(resolve_spec(args@[0]@, env.pwd_spec())),
            )) && final(vfs).changes() == old(vfs).changes(),
        args@.len() > 0 && old(vfs).present(resolve_spec(args@[0]@, env.pwd_spec()))
            && old(vfs).directory(resolve_spec(args@[0]@, env.pwd_spec())) ==> exists|a: Result<(), Seq<char>>|
            #[trigger] unit_reply(a) == answer_view(r) && final(vfs).changes() == old(vfs).changes().push(
                FsCall::Remove { path: resolve_spec(args@[0]@, env.pwd_spec()), answer: a },
            ),
        done_or_error(r),
{
    if args.len() == 0 {
        return Err(String::from_str("rmdir: missing operand"));
    }
    let target = resolve_path(args[0].as_str(), env);
    if !vfs.path_exists(target.as_str()) {
        let mut msg = String::from_str("rmdir: ");
        push_str(&mut msg, target.as_str());
        push_str(&mut msg, ": No such file or directory");
        return Err(msg);
    }
    if !vfs.is_dir(target.as_str()) {
        let mut msg = String::from_str("rmdir: ");
        push_str(&mut msg, target.as_str());
        push_str(&mut msg, ": Not a directory");
        return Err(msg);
    }
    let res = vfs.remove(target.as_str());
    let ghost a = unit_answer(res);
    let r = match res {
        Ok(()) => Ok(String::new()),
        Err(e) => Err(e),
    };
    assert(unit_reply(a) == answer_view(r));
    r
}

/// The path of `name` inside the directory `base`.
pub open spec fn child_path(base: Seq<char>, name: Seq<char>) -> Seq<char> {
    if base.len() > 0 && base.last() == '/' {
        base + name
    } else {
        base.push('/') + name
    }
}

/// The paths of `names` inside `base`.
pub open spec fn child_paths(base: Seq<char>, names: Seq<Seq<char>>) -> Seq<Seq<char>> {
    Seq::new(names.len(), |j: int| child_path(base, names[j]))
}

/// What `find` answers for the listing `res` of `base`: each entry's path,
/// one per line, or the listing's error.
pub open spec fn find_answer(base: Seq<char>, res: Result<Seq<Seq<char>>, Seq<char>>) -> Answer {
    match res {
        Ok(names) => Ok(join(child_paths(base, names), seq!['\n'])),
        Err(e) => Err(e),
    }
}

/// `name` inside `base`.
fn child_path_exec(base: &str, name: &str) -> (r: String)
    ensures
        r@ == child_path(base@, name@),
{
    let bc = chars_of(base);
    let mut r = String::from_str(base);
    if !(bc.len() > 0 && bc[bc.len() - 1] == '/') {
        crate::text::push_char(&mut r, '/');
    }
    push_str(&mut r, name);
    r
}

fn cmd_find<V: Vfs + ?Sized>(args: &[String], env: &Environment, vfs: &V) -> (r: Result<String, String>)
    ensures
        answer_view(r) == find_answer(ls_target(strings_view(args@), *env), vfs.listing(ls_target(strings_view(args@), *env))),
{
    let base: String = if args.len() == 0 {
        String::from_str(env.pwd())
    } else {
        resolve_path(args[0].as_str(), env)
    };
    match vfs.list_dir(base.as_str()) {
        Ok(entries) => {
            let ghost names = strings_view(entries@);
            let mut paths: Vec<String> = Vec::new();
            let mut i: usize = 0;
            while i < entries.len()
                invariant
                    names == strings_view(entries@),
                    i <= entries@.len(),
                    strings_view(paths@) == child_paths(base@, names).take(i as int),
                decreases entries@.len() - i,
            {
                let ghost before = strings_view(paths@);
                let p = child_path_exec(base.as_str(), entries[i].as_str());
                paths.push(p);
                assert(strings_view(paths@) =~= before.push(p@));
                assert(child_paths(base@, names).take(i + 1) =~= child_paths(base@, names).take(i as int).push(p@));
                i = i + 1;
            }
            assert(child_paths(base@, names).take(i as int) =~= child_paths(base@, names));
            proof {
                reveal_strlit("\n");
                assert("\n"@ =~= seq!['\n']);
            }
            Ok(join_strings(&paths, "\n"))
        },
        Err(e) => Err(e),
    }
}

/// The line, word and character counts of `t` (`wc`).
pub open spec fn wc_text(t: Seq<char>) -> Seq<char> {
    decimal(lines(t).len()) + seq![' '] + decimal(words(t).len()) + seq![' '] + decimal(t.len())
}

/// `t`'s lines in order (`sort`): each line goes before the first line it
/// is smaller than, character by character.
pub open spec fn sort_text(t: Seq<char>) -> Seq<char> {
    join(sort_lines(lines(t)), seq!['\n'])
}

/// `t`'s lines with each run of equal lines kept once (`uniq`).
pub open spec fn uniq_text(t: Seq<char>) -> Seq<char> {
    join(dedup_lines(lines(t)), seq!['\n'])
}

/// Whether `a` comes before `b`, comparing character codes and a prefix
/// before what continues it.
pub open spec fn chars_before(a: Seq<char>, b: Seq<char>) -> bool
    decreases a.len(),
{
    if a.len() == 0 {
        b.len() > 0
    } else if b.len() == 0 {
        false
    } else if a[0] != b[0] {
        a[0] < b[0]
    } else {
        chars_before(a.drop_first(), b.drop_first())
    }
}

/// Lines are ordered lexicographically: `a` comes before `b` exactly when
/// `a` is a proper prefix of `b`, or at the first position where they differ
/// `a` has the smaller character.
pub proof fn law_chars_before_is_lexicographic(a: Seq<char>, b: Seq<char>)
    ensures
        chars_before(a, b) <==> ((a.len() < b.len() && b.take(a.len() as int) == a) || exists|k: int|
            #![trigger a.take(k), b.take(k)]
            0 <= k < a.len() && k < b.len() && a.take(k) == b.take(k) && a[k] < b[k]),
    decreases a.len(),
{
    if a.len() == 0 {
        assert(b.take(0) =~= a);
    } else if b.len() == 0 {
    } else if a[0] != b[0] {
        if a[0] < b[0] {
            assert(a.take(0) =~= b.take(0));
        }
        if a.len() < b.len() && b.take(a.len() as int) == a {
            assert(b.take(a.len() as int)[0] == b[0]);
        }
        assert forall|k: int| 0 <= k < a.len() && k < b.len() && #[trigger] a.take(k) == #[trigger] b.take(k) && k > 0
            implies false by {
            assert(a.take(k)[0] == a[0] && b.take(k)[0] == b[0]);
        }
    } else {
        let a1 = a.drop_first();
        let b1 = b.drop_first();
        law_chars_before_is_lexicographic(a1, b1);
        // prefix case
        if a.len() < b.len() && b.take(a.len() as int) == a {
            assert(b1.take(a1.len() as int) =~= a1) by {
                assert forall|m: int| 0 <= m < a1.len() implies #[trigger] b1.take(a1.len() as int)[m] == a1[m] by {
                    assert(b.take(a.len() as int)[m + 1] == a[m + 1]);
                }
            }
        }
        if a1.len() < b1.len() && b1.take(a1.len() as int) == a1 {
            assert(b.take(a.len() as int) =~= a) by {
                assert forall|m: int| 0 <= m < a.len() implies #[trigger] b.take(a.len() as int)[m] == a[m] by {
                    if m > 0 {
                        assert(b1.take(a1.len() as int)[m - 1] == a1[m - 1]);
                    }
                }
            }
        }
        // differing position
        if exists|k: int| #![trigger a.take(k), b.take(k)] 0 <= k < a.len() && k < b.len() && a.take(k) == b.take(k) && a[k] < b[k] {
            let k = choose|k: int| #![trigger a.take(k), b.take(k)] 0 <= k < a.len() && k < b.len() && a.take(k) == b.take(k) && a[k] < b[k];
            assert(k > 0) by {
                if k == 0 {
                    assert(a[0] < b[0]);
                }
            }
            assert(a1.take(k - 1) =~= b1.take(k - 1)) by {
                assert forall|m: int| 0 <= m < k - 1 implies #[trigger] a1.take(k - 1)[m] == b1.take(k - 1)[m] by {
                    assert(a.take(k)[m + 1] == b.take(k)[m + 1]);
                }
            }
            assert(a1[k - 1] < b1[k - 1]);
        }
        if exists|k: int| #![trigger a1.take(k), b1.take(k)] 0 <= k < a1.len() && k < b1.len() && a1.take(k) == b1.take(k) && a1[k] < b1[k] {
            let k = choose|k: int| #![trigger a1.take(k), b1.take(k)] 0 <= k < a1.len() && k < b1.len() && a1.take(k) == b1.take(k) && a1[k] < b1[k];
            assert(a.take(k + 1) =~= b.take(k + 1)) by {
                assert forall|m: int| 0 <= m < k + 1 implies #[trigger] a.take(k + 1)[m] == b.take(k + 1)[m] by {
                    if m > 0 {
                        assert(a1.take(k)[m - 1] == b1.take(k)[m - 1]);
                    }
                }
            }
            assert(a[k + 1] < b[k + 1]);
        }
    }
}

/// The first position from `i` whose line `x` comes before, or the end.
pub open spec fn insert_position(sorted: Seq<Seq<char>>, x: Seq<char>, i: int) -> int
    decreases sorted.len() - i,
{
    if i < 0 || i >= sorted.len() {
        sorted.len() as int
    } else if chars_before(x, sorted[i]) {
        i
    } else {
        insert_position(sorted, x, i + 1)
    }
}

/// `x` put into `sorted` before the first line it comes before.
pub open spec fn insert_line(sorted: Seq<Seq<char>>, x: Seq<char>) -> Seq<Seq<char>> {
    let p = insert_position(sorted, x, 0);
    sorted.take(p).push(x) + sorted.skip(p)
}

/// The lines `ls` sorted by inserting each in turn.
pub open spec fn sort_lines(ls: Seq<Seq<char>>) -> Seq<Seq<char>>
    decreases ls.len(),
{
    if ls.len() == 0 {
        Seq::empty()
    } else {
        insert_line(sort_lines(ls.drop_last()), ls.last())
    }
}

/// Whether no line of `s` comes before a line ahead of it.
pub open spec fn lines_in_order(s: Seq<Seq<char>>) -> bool {
    forall|i: int, j: int| 0 <= i < j < s.len() ==> !chars_before(#[trigger] s[j], #[trigger] s[i])
}

/// Of two lines, exactly one comes first, unless they are equal.
proof fn lemma_before_trichotomy(a: Seq<char>, b: Seq<char>)
    ensures
        chars_before(a, b) || a == b || chars_before(b, a),
        !(chars_before(a, b) && chars_before(b, a)),
        !chars_before(a, a),
    decreases a.len(),
{
    if a.len() > 0 && b.len() > 0 {
        if a[0] == b[0] {
            lemma_before_trichotomy(a.drop_first(), b.drop_first());
            if a.drop_first() == b.drop_first() {
                assert(a =~= seq![a[0]] + a.drop_first());
                assert(b =~= seq![b[0]] + b.drop_first());
            }
        }
    } else if a.len() == 0 && b.len() == 0 {
        assert(a =~= b);
    }
    if a.len() > 0 {
        lemma_before_trichotomy(a.drop_first(), a.drop_first());
    }
}

/// Coming before is transitive.
proof fn lemma_before_transitive(a: Seq<char>, b: Seq<char>, c: Seq<char>)
    requires
        chars_before(a, b),
        chars_before(b, c),
    ensures
        chars_before(a, c),
    decreases a.len(),
{
    if a.len() > 0 && a[0] == b[0] && b[0] == c[0] {
        lemma_before_transitive(a.drop_first(), b.drop_first(), c.drop_first());
    }
}

/// Where a line is inserted: after every line it does not come before, and
/// before the first line it comes before.
proof fn lemma_insert_position_bounds(sorted: Seq<Seq<char>>, x: Seq<char>, i: int)
    requires
        0 <= i <= sorted.len(),
    ensures
        i <= insert_position(sorted, x, i) <= sorted.len(),
        forall|k: int| i <= k < insert_position(sorted, x, i) ==> !chars_before(x, #[trigger] sorted[k]),
        insert_position(sorted, x, i) < sorted.len() ==> chars_before(x, sorted[insert_position(sorted, x, i)]),
    decreases sorted.len() - i,
{
    if i < sorted.len() && !chars_before(x, sorted[i]) {
        lemma_insert_position_bounds(sorted, x, i + 1);
    }
}

/// Inserting a line into lines in order keeps them in order, and adds just
/// that line.
proof fn lemma_insert_line(sorted: Seq<Seq<char>>, x: Seq<char>)
    requires
        lines_in_order(sorted),
    ensures
        lines_in_order(insert_line(sorted, x)),
        insert_line(sorted, x).to_multiset() == sorted.to_multiset().insert(x),
{
    broadcast use vstd::seq_lib::group_to_multiset_ensures;
    let p = insert_position(sorted, x, 0);
    lemma_insert_position_bounds(sorted, x, 0);
    let t = insert_line(sorted, x);
    assert(t =~= sorted.insert(p, x));
    assert forall|i: int, j: int| 0 <= i < j < t.len() implies !chars_before(#[trigger] t[j], #[trigger] t[i]) by {
        if j < p {
            assert(t[i] == sorted[i] && t[j] == sorted[j]);
        } else if j == p {
            assert(t[i] == sorted[i] && t[j] == x);
            lemma_before_trichotomy(x, sorted[i]);
        } else if i < p {
            assert(t[i] == sorted[i] && t[j] == sorted[j - 1]);
        } else if i == p {
            assert(t[i] == x && t[j] == sorted[j - 1]);
            let f = sorted[p];
            let g = sorted[j - 1];
            assert(chars_before(x, f));
            if j - 1 > p {
                assert(!chars_before(sorted[j - 1], sorted[p]));
                lemma_before_trichotomy(f, g);
                if chars_before(f, g) {
                    lemma_before_transitive(x, f, g);
                }
            }
            lemma_before_trichotomy(x, g);
        } else {
            assert(t[i] == sorted[i - 1] && t[j] == sorted[j - 1]);
        }
    }
}

/// What `sort` prints holds the input's lines, each as often as there, with
/// no line before one that comes before it.
pub proof fn law_sorted_lines_in_order(ls: Seq<Seq<char>>)
    ensures
        lines_in_order(sort_lines(ls)),
        sort_lines(ls).to_multiset() == ls.to_multiset(),
    decreases ls.len(),
{
    broadcast use vstd::seq_lib::group_to_multiset_ensures;
    if ls.len() > 0 {
        law_sorted_lines_in_order(ls.drop_last());
        lemma_insert_line(sort_lines(ls.drop_last()), ls.last());
        assert(ls =~= ls.drop_last().push(ls.last()));
    } else {
        assert(ls.to_multiset() =~= Seq::<Seq<char>>::empty().to_multiset());
    }
}

/// The lines `ls` with each line equal to the one before it left out.
pub open spec fn dedup_lines(ls: Seq<Seq<char>>) -> Seq<Seq<char>>
    decreases ls.len(),
{
    if ls.len() == 0 {
        Seq::empty()
    } else if ls.len() > 1 && ls[ls.len() - 2] == ls.last() {
        dedup_lines(ls.drop_last())
    } else {
        dedup_lines(ls.drop_last()).push(ls.last())
    }
}

proof fn lemma_insert_position(sorted: Seq<Seq<char>>, x: Seq<char>, i: int)
    requires
        0 <= i <= sorted.len(),
    ensures
        i <= insert_position(sorted, x, i) <= sorted.len(),
    decreases sorted.len() - i,
{
    if i < sorted.len() && !chars_before(x, sorted[i]) {
        lemma_insert_position(sorted, x, i + 1);
    }
}

/// Whether `a` comes before `b`.
fn chars_before_exec(a: &[char], b: &[char]) -> (r: bool)
    ensures
        r == chars_before(a@, b@),
{
    let mut i: usize = 0;
    assert(a@.skip(0) =~= a@);
    assert(b@.skip(0) =~= b@);
    while i < a.len() && i < b.len() && a[i] == b[i]
        invariant
            i <= a@.len(),
            i <= b@.len(),
            chars_before(a@, b@) == chars_before(a@.skip(i as int), b@.skip(i as int)),
        decreases a@.len() - i,
    {
        assert(a@.skip(i as int).drop_first() =~= a@.skip(i + 1));
        assert(b@.skip(i as int).drop_first() =~= b@.skip(i + 1));
        i = i + 1;
    }
    let ghost sa = a@.skip(i as int);
    let ghost sb = b@.skip(i as int);
    if i == a.len() {
        assert(sa.len() == 0);
        assert(chars_before(sa, sb) == (sb.len() > 0));
        i < b.len()
    } else if i == b.len() {
        assert(sb.len() == 0 && sa.len() > 0);
        assert(!chars_before(sa, sb));
        false
    } else {
        assert(sa[0] == a@[i as int] && sb[0] == b@[i as int]);
        assert(sa[0] != sb[0]);
        assert(chars_before(sa, sb) == (sa[0] < sb[0]));
        a[i] < b[i]
    }
}

/// `t`'s lines sorted and joined.
fn sort_text_exec(t: &str) -> (r: String)
    ensures
        r@ == sort_text(t@),
{
    let c = chars_of(t);
    let ls = lines_of(c.as_slice());
    let ghost lv = ls@.map_values(|l: Vec<char>| l@);
    let mut sorted: Vec<Vec<char>> = Vec::new();
    let mut i: usize = 0;
    while i < ls.len()
        invariant
            lv == ls@.map_values(|l: Vec<char>| l@),
            lv == lines(t@),
            i <= ls@.len(),
            sorted@.map_values(|l: Vec<char>| l@) == sort_lines(lv.take(i as int)),
        decreases ls@.len() - i,
    {
        let ghost sv = sorted@.map_values(|l: Vec<char>| l@);
        let x = ls[i].clone();
        let mut p: usize = 0;
        proof {
            lemma_insert_position(sv, x@, 0);
        }
        while p < sorted.len() && !chars_before_exec(x.as_slice(), sorted[p].as_slice())
            invariant
                sv == sorted@.map_values(|l: Vec<char>| l@),
                p <= sorted@.len(),
                insert_position(sv, x@, 0) == insert_position(sv, x@, p as int),
            decreases sorted@.len() - p,
        {
            p = p + 1;
        }
        sorted.insert(p, x);
        proof {
            assert(lv.take(i + 1).drop_last() =~= lv.take(i as int));
            assert(lv.take(i + 1).last() == x@);
            assert(sorted@.map_values(|l: Vec<char>| l@) =~= sv.take(p as int).push(x@) + sv.skip(p as int));
        }
        i = i + 1;
    }
    assert(lv.take(i as int) =~= lv);
    let mut strs: Vec<String> = Vec::new();
    let mut k: usize = 0;
    while k < sorted.len()
        invariant
            k <= sorted@.len(),
            strings_view(strs@) == sorted@.map_values(|l: Vec<char>| l@).take(k as int),
        decreases sorted@.len() - k,
    {
        let ghost before = strings_view(strs@);
        let s1 = crate::text::string_of(sorted[k].as_slice());
        strs.push(s1);
        assert(strings_view(strs@) =~= before.push(s1@));
        assert(sorted@.map_values(|l: Vec<char>| l@).take(k + 1) =~= sorted@.map_values(|l: Vec<char>| l@).take(k as int).push(s1@));
        k = k + 1;
    }
    assert(sorted@.map_values(|l: Vec<char>| l@).take(k as int) =~= sorted@.map_values(|l: Vec<char>| l@));
    proof {
        reveal_strlit("\n");
        assert("\n"@ =~= seq!['\n']);
    }
    join_strings(&strs, "\n")
}

/// `t`'s lines, each run of equal lines once, joined.
fn uniq_text_exec(t: &str) -> (r: String)
    ensures
        r@ == uniq_text(t@),
{
    let c = chars_of(t);
    let ls = lines_of(c.as_slice());
    let ghost lv = ls@.map_values(|l: Vec<char>| l@);
    let mut strs: Vec<String> = Vec::new();
    let mut i: usize = 0;
    while i < ls.len()
        invariant
            lv == ls@.map_values(|l: Vec<char>| l@),
            lv == lines(t@),
            i <= ls@.len(),
            strings_view(strs@) == dedup_lines(lv.take(i as int)),
        decreases ls@.len() - i,
    {
        let ghost before = strings_view(strs@);
        assert(lv.take(i + 1).drop_last() =~= lv.take(i as int));
        if i > 0 && crate::text::chars_eq(ls[i - 1].as_slice(), ls[i].as_slice()) {
            assert(lv.take(i + 1)[i - 1] == lv[i - 1]);
        } else {
            let s1 = crate::text::string_of(ls[i].as_slice());
            strs.push(s1);
            assert(strings_view(strs@) =~= before.push(s1@));
        }
        i = i + 1;
    }
    assert(lv.take(i as int) =~= lv);
    proof {
        reveal_strlit("\n");
        assert("\n"@ =~= seq!['\n']);
    }
    join_strings(&strs, "\n")
}

/// `t`'s line, word and character counts.
fn wc_text_exec(t: &str) -> (r: String)
    ensures
        r@ == wc_text(t@),
{
    let c = chars_of(t);
    let ls = lines_of(c.as_slice());
    let ws = words_of(c.as_slice());
    let mut out = u64_to_string(ls.len() as u64);
    crate::text::push_char(&mut out, ' ');
    push_str(&mut out, u64_to_string(ws.len() as u64).as_str());
    crate::text::push_char(&mut out, ' ');
    push_str(&mut out, u64_to_string(c.len() as u64).as_str());
    out
}

/// The text the builtin `name` (`wc`, `sort` or else `uniq`) makes of `t`.
pub open spec fn text_make(name: Seq<char>, t: Seq<char>) -> Seq<char> {
    if name == "wc"@ {
        wc_text(t)
    } else if name == "sort"@ {
        sort_text(t)
    } else {
        uniq_text(t)
    }
}

/// What the text builtin `name` answers for the file read `f`.
pub open spec fn text_file_answer(f: Result<Seq<u8>, Seq<char>>, name: Seq<char>) -> Answer {
    match f {
        Ok(d) => Ok(text_make(name, utf8_lossy(d))),
        Err(e) => Err(e),
    }
}

/// Runs `wc`, `sort` or `uniq` (as `name` says): on the file its argument
/// names, else on stdin.
fn cmd_text<V: Vfs + ?Sized>(
    args: &[String],
    stdin: Option<&[u8]>,
    env: &Environment,
    vfs: &V,
    name: &str,
) -> (r: Result<String, String>)
    ensures
        args@.len() == 0 && stdin is None ==> answer_view(r) == Err::<Seq<char>, Seq<char>>(name@ + ": missing file operand"@),
        args@.len() == 0 && stdin is Some ==> answer_view(r) == Ok::<Seq<char>, Seq<char>>(text_make(name@, utf8_lossy(stdin->0@))),
        args@.len() > 0 ==> answer_view(r) == text_file_answer(vfs.file(resolve_spec(args@[0]@, env.pwd_spec())), name@),
{
    let file: Option<&str> = if args.len() > 0 {
        Some(args[0].as_str())
    } else {
        None
    };
    proof {
        reveal_strlit("wc");
        reveal_strlit("sort");
    }
    match input_text(file, stdin, env, vfs) {
        None => {
            let mut msg = String::from_str(name);
            push_str(&mut msg, ": missing file operand");
            Err(msg)
        },
        Some(Err(e)) => Err(e),
        Some(Ok(content)) => {
            let out = if str_eq(name, "wc") {
                wc_text_exec(content.as_str())
            } else if str_eq(name, "sort") {
                sort_text_exec(content.as_str())
            } else {
                uniq_text_exec(content.as_str())
            };
            Ok(out)
        },
    }
}

/// `env`: the variables, one `KEY=VALUE` per line.
fn cmd_env(env: &Environment) -> (r: Result<String, String>)
    ensures
        answer_view(r) == Ok::<Seq<char>, Seq<char>>(listing(env.entries(), Seq::empty())),
{
    let vars = env.all();
    let out = listing_exec(&vars, "");
    proof {
        reveal_strlit("");
        assert(""@ =~= Seq::<char>::empty());
    }
    Ok(out)
}

/// The sizes of the files `files` read as (0 for what cannot be read).
pub open spec fn total_size(files: Seq<Result<Seq<u8>, Seq<char>>>) -> nat
    decreases files.len(),
{
    if files.len() == 0 {
        0
    } else {
        total_size(files.drop_last()) + match files.last() {
            Ok(d) => d.len(),
            Err(_) => 0,
        }
    }
}

/// What `du` answers for the directory `base`: the total size of the files
/// it lists directly (capped at the largest `u64`), a tab and `base`; or the
/// listing's error.
pub open spec fn du_answer<V: Vfs + ?Sized>(vfs: &V, base: Seq<char>) -> Answer {
    match vfs.listing(base) {
        Ok(names) => {
            let t = total_size(files_of(vfs, child_paths(base, names)));
            Ok(decimal(if t > u64::MAX { u64::MAX as nat } else { t }) + seq!['\t'] + base)
        },
        Err(e) => Err(e),
    }
}

fn cmd_du<V: Vfs + ?Sized>(args: &[String], env: &Environment, vfs: &V) -> (r: Result<String, String>)
    ensures
        answer_view(r) == du_answer(vfs, ls_target(strings_view(args@), *env)),
{
    let base: String = if args.len() == 0 {
        String::from_str(env.pwd())
    } else {
        resolve_path(args[0].as_str(), env)
    };
    match vfs.list_dir(base.as_str()) {
        Ok(entries) => {
            let ghost paths = child_paths(base@, strings_view(entries@));
            let ghost files = files_of(vfs, paths);
            let mut total: u64 = 0;
            let mut i: usize = 0;
            while i < entries.len()
                invariant
                    paths == child_paths(base@, strings_view(entries@)),
                    files == files_of(vfs, paths),
                    i <= entries@.len(),
                    total as nat == (if total_size(files.take(i as int)) > u64::MAX { u64::MAX as nat } else { total_size(files.take(i as int)) }),
                decreases entries@.len() - i,
            {
                let p = child_path_exec(base.as_str(), entries[i].as_str());
                assert(p@ == paths[i as int]);
                let size: u64 = match vfs.read_file(p.as_str()) {
                    Ok(d) => d.len() as u64,
                    Err(_) => 0,
                };
                proof {
                    assert(files.take(i + 1).drop_last() =~= files.take(i as int));
                    assert(files.take(i + 1).last() == files[i as int]);
                }
                total = total.saturating_add(size);
                i = i + 1;
            }
            assert(files.take(i as int) =~= files);
            let mut out = u64_to_string(total);
            crate::text::push_char(&mut out, '\t');
            push_str(&mut out, base.as_str());
            proof {
                let names = strings_view(entries@);
                assert(vfs.listing(base@) == Ok::<Seq<Seq<char>>, Seq<char>>(names));
                let t = total_size(files_of(vfs, child_paths(base@, names)));
                assert(total as nat == (if t > u64::MAX { u64::MAX as nat } else { t }));
                assert(out@ =~= decimal(total as nat) + seq!['\t'] + base@);
            }
            Ok(out)
        },
        Err(e) => Err(e),
    }
}

fn cmd_chmod<V: Vfs + ?Sized>(args: &[String], env: &Environment, vfs: &V) -> (r: Result<String, String>)
    ensures
        args@.len() < 2 ==> answer_view(r) == Err::<Seq<char>, Seq<char>>("chmod: missing operand"@),
        args@.len() >= 2 ==> answer_view(r) == if vfs.present(resolve_spec(args@[1]@, env.pwd_spec())) {
            Ok::<Seq<char>, Seq<char>>(Seq::empty())
        } else {
            Err::<Seq<char>, Seq<char>>("chmod: "@ + resolve_spec(args@[1]@, env.pwd_spec()) + ": No such file or directory"@)
        },
{
    if args.len() < 2 {
        return Err(String::from_str("chmod: missing operand"));
    }
    let target = resolve_path(args[1].as_str(), env);
    if !vfs.path_exists(target.as_str()) {
        let mut msg = String::from_str("chmod: ");
        push_str(&mut msg, target.as_str());
        push_str(&mut msg, ": No such file or directory");
        return Err(msg);
    }
    Ok(String::new())
}

/// What `alias` answers: no aliases are defined, so listing them prints
/// nothing, and defining one is refused.
fn cmd_alias(args: &[String]) -> (r: Result<String, String>)
    ensures
        args@.len() == 0 ==> answer_view(r) == Ok::<Seq<char>, Seq<char>>(Seq::empty()),
        args@.len() > 0 ==> answer_view(r) == Err::<Seq<char>, Seq<char>>("alias: aliases are not supported"@),
{
    if args.len() == 0 {
        Ok(String::new())
    } else {
        Err(String::from_str("alias: aliases are not supported"))
    }
}

/// What `ask` and `agent` answer when run as commands, which the shell does
/// only when no request follows them: how to use them.
pub open spec fn agent_hint(name: Seq<char>) -> Seq<char> {
    name + ": usage: "@ + name + " REQUEST"@
}

fn cmd_agent_hint(name: &str) -> (r: Result<String, String>)
    ensures
        answer_view(r) == Err::<Seq<char>, Seq<char>>(agent_hint(name@)),
{
    let mut msg = String::from_str(name);
    push_str(&mut msg, ": usage: ");
    push_str(&mut msg, name);
    push_str(&mut msg, " REQUEST");
    Err(msg)
}

fn cmd_which(args: &[String]) -> (r: Result<String, String>)
    ensures
        args@.len() == 0 ==> answer_view(r) == Err::<Seq<char>, Seq<char>>("which: missing operand"@),
        args@.len() > 0 ==> answer_view(r) == if builtin_names().contains(args@[0]@) {
            Ok::<Seq<char>, Seq<char>>(args@[0]@ + ": shell built-in command"@)
        } else {
            Err::<Seq<char>, Seq<char>>(args@[0]@ + " not found"@)
        },
{
    if args.len() == 0 {
        return Err(String::from_str("which: missing operand"));
    }
    let mut msg = String::from_str(args[0].as_str());
    match known_index(args[0].as_str()) {
        Some(_) => {
            push_str(&mut msg, ": shell built-in command");
            Ok(msg)
        },
        None => {
            push_str(&mut msg, " not found");
            Err(msg)
        },
    }
}

// ---------------------------------------------------------------------------
// Dispatch
// ---------------------------------------------------------------------------

/// The answer of an optional builtin result.
pub open spec fn opt_answer(r: Option<Result<String, String>>) -> Option<Answer> {
    match r {
        Some(x) => Some(answer_view(x)),
        None => None,
    }
}

/// Position of `name` among the built-in names, if it is one.
fn known_index(name: &str) -> (r: Option<usize>)
    ensures
        r matches Some(k) ==> k < 45 && builtin_names()[k as int] == name@,
        r is None ==> !builtin_names().contains(name@),
{
    let names = crate::ai::KNOWN_COMMANDS;
    let mut i: usize = 0;
    while i < 45
        invariant
            names@ == crate::ai::KNOWN_COMMANDS@,
            i <= 45,
            forall|j: int| 0 <= j < i ==> (#[trigger] builtin_names()[j]) != name@,
        decreases 45 - i,
    {
        if str_eq(names[i], name) {
            assert(builtin_names()[i as int] == name@);
            return Some(i);
        }
        i = i + 1;
    }
    None
}

/// Runs the builtin at position `k` of the built-in names.
fn run_builtin<V: Vfs + ?Sized, S: SystemInfo + ?Sized>(
    k: usize,
    args: &[String],
    stdin: Option<&[u8]>,
    env: &mut Environment,
    vfs: &mut V,
    sys: &mut S,
) -> (r: Option<Result<String, String>>)
    requires
        k < 45,
    ensures
        r is Some,
        builtin_effect(builtin_names()[k as int], strings_view(args@), opt_bytes(stdin), *old(env), *final(env), opt_answer(r)),
        builtin_io(builtin_names()[k as int], strings_view(args@), *old(env), old(vfs), final(vfs), old(sys), final(sys), opt_answer(r)),
{
    proof {
        lemma_builtin_names();
        reveal_strlit("ls");
        reveal_strlit("cd");
        reveal_strlit("pwd");
        reveal_strlit("cat");
        reveal_strlit("echo");
        reveal_strlit("cp");
        reveal_strlit("mv");
        reveal_strlit("rm");
        reveal_strlit("mkdir");
        reveal_strlit("touch");
        reveal_strlit("head");
        reveal_strlit("tail");
        reveal_strlit("grep");
        reveal_strlit("mount");
        reveal_strlit("umount");
        reveal_strlit("ps");
        reveal_strlit("kill");
        reveal_strlit("clear");
        reveal_strlit("help");
        reveal_strlit("reboot");
        reveal_strlit("shutdown");
        reveal_strlit("ifconfig");
        reveal_strlit("ping");
        reveal_strlit("ssh");
        reveal_strlit("date");
        reveal_strlit("uptime");
        reveal_strlit("free");
        reveal_strlit("df");
        reveal_strlit("set");
        reveal_strlit("unset");
        reveal_strlit("export");
        reveal_strlit("history");
        reveal_strlit("exit");
        reveal_strlit("rmdir");
        reveal_strlit("find");
        reveal_strlit("wc");
        reveal_strlit("sort");
        reveal_strlit("uniq");
        reveal_strlit("chmod");
        reveal_strlit("du");
        reveal_strlit("env");
        reveal_strlit("alias");
        reveal_strlit("ask");
        reveal_strlit("agent");
        reveal_strlit("which");
    }
    if k == 0 {
        Some(cmd_ls(args, env, vfs))
    } else if k == 1 {
        Some(cmd_cd(args, env, vfs))
    } else if k == 2 {
        Some(cmd_pwd(env))
    } else if k == 3 {
        Some(cmd_cat(args, stdin, env, vfs))
    } else if k == 4 {
        Some(cmd_echo(args))
    } else if k == 5 {
        Some(cmd_cp(args, env, vfs))
    } else if k == 6 {
        Some(cmd_mv(args, env, vfs))
    } else if k == 7 {
        Some(cmd_rm(args, env, vfs))
    } else if k == 8 {
        Some(cmd_mkdir(args, env, vfs))
    } else if k == 9 {
        Some(cmd_touch(args, env, vfs))
    } else if k == 10 {
        Some(cmd_head(args, stdin, env, vfs))
    } else if k == 11 {
        Some(cmd_tail(args, stdin, env, vfs))
    } else if k == 12 {
        Some(cmd_grep(args, stdin, env, vfs))
    } else if k == 13 {
        Some(cmd_mount(args, vfs))
    } else if k == 14 {
        Some(cmd_umount(args, vfs))
    } else if k == 15 {
        Some(cmd_ps(sys))
    } else if k == 16 {
        Some(cmd_kill(args, sys))
    } else if k == 17 {
        Some(cmd_clear(sys))
    } else if k == 18 {
        Some(cmd_help())
    } else if k == 19 {
        cmd_reboot(sys)
    } else if k == 20 {
        cmd_shutdown(sys)
    } else if k == 21 {
        Some(cmd_ifconfig(sys))
    } else if k == 22 {
        Some(cmd_ping(args, sys))
    } else if k == 23 {
        Some(cmd_ssh(args))
    } else if k == 24 {
        Some(cmd_date(sys))
    } else if k == 25 {
        Some(cmd_uptime(sys))
    } else if k == 26 {
        Some(cmd_free(sys))
    } else if k == 27 {
        Some(cmd_df(sys))
    } else if k == 28 {
        Some(cmd_set(args, env))
    } else if k == 29 {
        Some(cmd_unset(args, env))
    } else if k == 30 {
        Some(cmd_export(args, env))
    } else if k == 31 {
        Some(Ok(String::from_str("[history shown by shell loop]")))
    } else if k == 32 {
        Some(Ok(String::from_str("exit")))
    } else if k == 33 {
        Some(cmd_rmdir(args, env, vfs))
    } else if k == 34 {
        Some(cmd_find(args, env, vfs))
    } else if k == 35 {
        Some(cmd_text(args, stdin, env, vfs, "wc"))
    } else if k == 36 {
        Some(cmd_text(args, stdin, env, vfs, "sort"))
    } else if k == 37 {
        Some(cmd_text(args, stdin, env, vfs, "uniq"))
    } else if k == 38 {
        Some(cmd_chmod(args, env, vfs))
    } else if k == 39 {
        Some(cmd_du(args, env, vfs))
    } else if k == 40 {
        Some(cmd_env(env))
    } else if k == 41 {
        Some(cmd_alias(args))
    } else if k == 42 {
        Some(cmd_agent_hint("ask"))
    } else if k == 43 {
        Some(cmd_agent_hint("agent"))
    } else if k == 44 {
        Some(cmd_which(args))
    } else {
        None
    }
}

/// Whether the answer `a` is an error or empty output.
pub open spec fn done_or_failed(a: Answer) -> bool {
    a is Err || a == Ok::<Seq<char>, Seq<char>>(Seq::empty())
}

/// What running the builtin `name` on `args` with the input `stdin` promises,
/// with the environment `before` and `after` the call and the answer `r`
/// (none when `name` is not a builtin). Where the answer rests on what the file
/// system or the system reports, the clause says how the answer is made from
/// some report.
pub open spec fn builtin_effect(
    name: Seq<char>,
    args: Seq<Seq<char>>,
    stdin: Option<Seq<u8>>,
    before: Environment,
    after: Environment,
    r: Option<Answer>,
) -> bool {
    let lc = line_args(args);
    &&& (r is None <==> !builtin_names().contains(name))
    // Only `cd`, `set`, `unset` and `export` touch the environment.
    &&& name != "cd"@ && name != "set"@ && name != "unset"@ && name != "export"@
        ==> after.vars() == before.vars() && after.exported() == before.exported()
    &&& name == "ls"@ ==> exists|res: Result<Seq<Seq<char>>, Seq<char>>| r == Some(#[trigger] ls_answer(res))
    &&& name == "cd"@ ==> {
        let t = cd_target(args, before);
        &&& after.exported() == before.exported()
        &&& {
            ||| r == Some(Ok::<Seq<char>, Seq<char>>(Seq::empty())) && after.vars() == before.vars().insert(key_pwd(), t)
            ||| (r == Some(Err::<Seq<char>, Seq<char>>("cd: "@ + t + ": No such file or directory"@))
                || r == Some(Err::<Seq<char>, Seq<char>>("cd: "@ + t + ": Not a directory"@)))
                && after.vars() == before.vars()
        }
    }
    &&& name == "pwd"@ ==> r == Some(Ok::<Seq<char>, Seq<char>>(before.pwd_spec()))
    &&& name == "cat"@ ==> (r matches Some(a) && {
        &&& args.len() == 0 && stdin is Some ==> a == Ok::<Seq<char>, Seq<char>>(utf8_lossy(stdin->0))
        &&& args.len() == 0 && stdin is None ==> a == Err::<Seq<char>, Seq<char>>("cat: missing file operand"@)
        &&& args.len() > 0 ==> a is Err || exists|datas: Seq<Seq<u8>>| datas.len() == args.len() && a == Ok::<Seq<char>, Seq<char>>(#[trigger] concat_lossy(datas))
    })
    &&& name == "echo"@ ==> r == Some(Ok::<Seq<char>, Seq<char>>(join(args, seq![' '])))
    &&& name == "cp"@ ==> (r matches Some(a) && done_or_failed(a)
        && (args.len() < 2 ==> a == Err::<Seq<char>, Seq<char>>("cp: missing operand"@)))
    &&& name == "mv"@ ==> (r matches Some(a) && done_or_failed(a)
        && (args.len() < 2 ==> a == Err::<Seq<char>, Seq<char>>("mv: missing operand"@)))
    &&& name == "rm"@ ==> (r matches Some(a) && done_or_failed(a)
        && (args.len() == 0 ==> a == Err::<Seq<char>, Seq<char>>("rm: missing operand"@)))
    &&& name == "mkdir"@ ==> (r matches Some(a) && done_or_failed(a)
        && (args.len() == 0 ==> a == Err::<Seq<char>, Seq<char>>("mkdir: missing operand"@)))
    &&& name == "touch"@ ==> (r matches Some(a) && done_or_failed(a)
        && (args.len() == 0 ==> a == Err::<Seq<char>, Seq<char>>("touch: missing operand"@)))
    &&& name == "head"@ ==> (r matches Some(a) && {
        &&& lc.0 is None && stdin is None ==> a == Err::<Seq<char>, Seq<char>>("head: missing file operand"@)
        &&& lc.0 is None && stdin is Some ==> a == Ok::<Seq<char>, Seq<char>>(head_spec(utf8_lossy(stdin->0), lc.1))
        &&& lc.0 is Some ==> a is Err || exists|d: Seq<u8>| a == Ok::<Seq<char>, Seq<char>>(#[trigger] head_spec(utf8_lossy(d), lc.1))
    })
    &&& name == "tail"@ ==> (r matches Some(a) && {
        &&& lc.0 is None && stdin is None ==> a == Err::<Seq<char>, Seq<char>>("tail: missing file operand"@)
        &&& lc.0 is None && stdin is Some ==> a == Ok::<Seq<char>, Seq<char>>(tail_spec(utf8_lossy(stdin->0), lc.1))
        &&& lc.0 is Some ==> a is Err || exists|d: Seq<u8>| a == Ok::<Seq<char>, Seq<char>>(#[trigger] tail_spec(utf8_lossy(d), lc.1))
    })
    &&& name == "grep"@ ==> (r matches Some(a) && {
        &&& args.len() == 0 ==> a == Err::<Seq<char>, Seq<char>>("grep: missing pattern"@)
        &&& args.len() == 1 && stdin is None ==> a == Err::<Seq<char>, Seq<char>>("grep: missing file operand"@)
        &&& args.len() == 1 && stdin is Some ==> a == Ok::<Seq<char>, Seq<char>>(grep_spec(utf8_lossy(stdin->0), args[0]))
        &&& args.len() >= 2 ==> a is Err || exists|d: Seq<u8>| a == Ok::<Seq<char>, Seq<char>>(#[trigger] grep_spec(utf8_lossy(d), args[0]))
    })
    &&& name == "mount"@ ==> (r matches Some(a) && done_or_failed(a)
        && (args.len() < 3 ==> a == Err::<Seq<char>, Seq<char>>("mount: usage: mount <device> <path> <fstype>"@)))
    &&& name == "umount"@ ==> (r matches Some(a) && done_or_failed(a)
        && (args.len() == 0 ==> a == Err::<Seq<char>, Seq<char>>("umount: missing operand"@)))
    &&& name == "ps"@ ==> exists|agents: Seq<(u64, Seq<char>, Seq<char>)>| r == Some(Ok::<Seq<char>, Seq<char>>(#[trigger] ps_text(agents)))
    &&& name == "kill"@ ==> (r matches Some(a) && {
        let id = if args.len() > 0 { parse_unsigned(args[0], u64::MAX as nat) } else { None };
        &&& args.len() == 0 ==> a == Err::<Seq<char>, Seq<char>>("kill: missing agent ID"@)
        &&& args.len() > 0 && id is None ==> a == Err::<Seq<char>, Seq<char>>(kill_invalid_message(args[0]))
        &&& args.len() > 0 && id is Some ==> a is Err || a == Ok::<Seq<char>, Seq<char>>(killed_message(id->0))
    })
    &&& name == "clear"@ ==> r == Some(Ok::<Seq<char>, Seq<char>>(clear_text()))
    &&& name == "help"@ ==> r == Some(Ok::<Seq<char>, Seq<char>>(HELP_TEXT@))
    &&& name == "reboot"@ ==> r == Some(Ok::<Seq<char>, Seq<char>>(Seq::empty()))
    &&& name == "shutdown"@ ==> r == Some(Ok::<Seq<char>, Seq<char>>(Seq::empty()))
    &&& name == "ifconfig"@ ==> exists|ifaces: Seq<(Seq<char>, Seq<char>, Seq<char>, Seq<char>)>| r == Some(Ok::<Seq<char>, Seq<char>>(#[trigger] ifconfig_text(ifaces)))
    &&& name == "ping"@ ==> r is Some && (args.len() == 0 ==> r == Some(Err::<Seq<char>, Seq<char>>("ping: missing host"@)))
    &&& name == "ssh"@ ==> r == Some(Err::<Seq<char>, Seq<char>>("ssh: not yet implemented (see crates/sshd)"@))
    &&& name == "date"@ ==> (r matches Some(a) && a is Ok)
    &&& name == "uptime"@ ==> exists|secs: u64| r == Some(Ok::<Seq<char>, Seq<char>>(#[trigger] uptime_text(secs)))
    &&& name == "free"@ ==> exists|t: u64, u: u64, f: u64| r == Some(Ok::<Seq<char>, Seq<char>>(#[trigger] free_text(t, u, f)))
    &&& name == "df"@ ==> exists|d: Seq<(Seq<char>, u64, u64, u64)>| r == Some(Ok::<Seq<char>, Seq<char>>(#[trigger] df_text(d)))
    &&& name == "set"@ ==> after.exported() == before.exported() && if args.len() == 0 {
        r == Some(Ok::<Seq<char>, Seq<char>>(listing(before.entries(), Seq::empty()))) && after.vars() == before.vars()
    } else {
        &&& after.vars() == set_fold(before.vars(), args, 0).0
        &&& r == Some(match set_fold(before.vars(), args, 0).1 {
            Some(bad) => Err::<Seq<char>, Seq<char>>(set_invalid_message(bad)),
            None => Ok(Seq::empty()),
        })
    }
    &&& name == "unset"@ ==> if args.len() == 0 {
        r == Some(Err::<Seq<char>, Seq<char>>("unset: missing variable name"@))
            && after.vars() == before.vars() && after.exported() == before.exported()
    } else {
        r == Some(Ok::<Seq<char>, Seq<char>>(Seq::empty()))
            && after.vars() == before.vars().remove_keys(args.to_set())
            && after.exported() == before.exported().difference(args.to_set())
    }
    &&& name == "export"@ ==> if args.len() == 0 {
        r == Some(Ok::<Seq<char>, Seq<char>>(listing(
            before.entries().filter(|p: (Seq<char>, Seq<char>)| before.exported().contains(p.0)),
            "export "@,
        ))) && after.vars() == before.vars() && after.exported() == before.exported()
    } else {
        r == Some(Ok::<Seq<char>, Seq<char>>(Seq::empty()))
            && (after.vars(), after.exported()) == export_fold(before.vars(), before.exported(), args, 0)
    }
    &&& name == "history"@ ==> r == Some(Ok::<Seq<char>, Seq<char>>("[history shown by shell loop]"@))
    &&& name == "exit"@ ==> r == Some(Ok::<Seq<char>, Seq<char>>("exit"@))
    &&& name == "rmdir"@ ==> (r matches Some(a) && done_or_failed(a)
        && (args.len() == 0 ==> a == Err::<Seq<char>, Seq<char>>("rmdir: missing operand"@)))
    &&& name == "find"@ ==> r is Some
    &&& (name == "wc"@ || name == "sort"@ || name == "uniq"@) ==> (r matches Some(a) && {
        &&& args.len() == 0 && stdin is None ==> a == Err::<Seq<char>, Seq<char>>(name + ": missing file operand"@)
        &&& args.len() == 0 && stdin is Some ==> a == Ok::<Seq<char>, Seq<char>>(text_make(name, utf8_lossy(stdin->0)))
    })
    &&& name == "chmod"@ ==> (r matches Some(a)
        && (args.len() < 2 ==> a == Err::<Seq<char>, Seq<char>>("chmod: missing operand"@)))
    &&& name == "du"@ ==> r is Some
    &&& name == "env"@ ==> r == Some(Ok::<Seq<char>, Seq<char>>(listing(before.entries(), Seq::empty())))
    &&& name == "alias"@ ==> r == Some(if args.len() == 0 {
        Ok::<Seq<char>, Seq<char>>(Seq::empty())
    } else {
        Err::<Seq<char>, Seq<char>>("alias: aliases are not supported"@)
    })
    &&& (name == "ask"@ || name == "agent"@) ==> r == Some(Err::<Seq<char>, Seq<char>>(agent_hint(name)))
    &&& name == "which"@ ==> r == Some(if args.len() == 0 {
        Err::<Seq<char>, Seq<char>>("which: missing operand"@)
    } else if builtin_names().contains(args[0]) {
        Ok::<Seq<char>, Seq<char>>(args[0] + ": shell built-in command"@)
    } else {
        Err::<Seq<char>, Seq<char>>(args[0] + " not found"@)
    })
}


/// Whether none of the builtins that change files was `name`.
pub open spec fn changes_no_files(name: Seq<char>) -> bool {
    name != "cp"@ && name != "mv"@ && name != "rm"@ && name != "mkdir"@ && name != "touch"@
        && name != "mount"@ && name != "umount"@ && name != "rmdir"@
}

/// Whether none of the builtins that act on the system was `name`.
pub open spec fn acts_on_nothing(name: Seq<char>) -> bool {
    name != "kill"@ && name != "clear"@ && name != "reboot"@ && name != "shutdown"@
}

/// What running the builtin `name` on `args` in `env` does with the file
/// system (from `vfs0` to `vfs1`) and the system (from `sys0` to `sys1`),
/// answering `r`: `cp` and `mv` copy or move their first argument to their
/// second, `rm`, `mkdir` and `touch` act on each argument until one fails,
/// `mount` and `umount` pass their arguments on, `kill` kills the session its
/// argument names, `clear`, `reboot` and `shutdown` make their call, all with
/// paths resolved against the working directory and the answer made from the
/// call's result; `ls`, `ping`, `ps`, `ifconfig`, `date`, `uptime`, `free` and
/// `df` answer from what the file system or the system reports; every other
/// builtin changes neither.
pub open spec fn builtin_io<V: Vfs + ?Sized, S: SystemInfo + ?Sized>(
    name: Seq<char>,
    args: Seq<Seq<char>>,
    env: Environment,
    vfs0: &V,
    vfs1: &V,
    sys0: &S,
    sys1: &S,
    r: Option<Answer>,
) -> bool {
    &&& changes_no_files(name) ==> vfs1.changes() == vfs0.changes()
    &&& acts_on_nothing(name) ==> sys1.actions() == sys0.actions()
    &&& name == "cp"@ && args.len() >= 2 ==> exists|a: Result<(), Seq<char>>|
        r == Some(#[trigger] unit_reply(a)) && vfs1.changes() == vfs0.changes().push(
            FsCall::Copy { src: resolve_spec(args[0], env.pwd_spec()), dst: resolve_spec(args[1], env.pwd_spec()), answer: a },
        )
    &&& name == "mv"@ && args.len() >= 2 ==> exists|a: Result<(), Seq<char>>|
        r == Some(#[trigger] unit_reply(a)) && vfs1.changes() == vfs0.changes().push(
            FsCall::Move { src: resolve_spec(args[0], env.pwd_spec()), dst: resolve_spec(args[1], env.pwd_spec()), answer: a },
        )
    &&& (name == "cp"@ || name == "mv"@) && args.len() < 2 ==> vfs1.changes() == vfs0.changes()
    &&& (name == "rm"@ || name == "mkdir"@ || name == "touch"@) ==> if args.len() == 0 {
        vfs1.changes() == vfs0.changes()
    } else {
        exists|answers: Seq<Result<(), Seq<char>>>|
            #[trigger] paths_ran(resolved(args, env.pwd_spec()), answers, r->0) && r is Some
            && vfs1.changes() == vfs0.changes() + path_calls(name, resolved(args, env.pwd_spec()), answers)
    }
    &&& name == "mount"@ ==> if args.len() < 3 {
        vfs1.changes() == vfs0.changes()
    } else {
        exists|a: Result<(), Seq<char>>|
            r == Some(#[trigger] unit_reply(a)) && vfs1.changes() == vfs0.changes().push(
                FsCall::Mount { device: args[0], path: args[1], fstype: args[2], answer: a },
            )
    }
    &&& name == "umount"@ ==> if args.len() == 0 {
        vfs1.changes() == vfs0.changes()
    } else {
        exists|a: Result<(), Seq<char>>|
            r == Some(#[trigger] unit_reply(a)) && vfs1.changes() == vfs0.changes().push(FsCall::Umount { path: args[0], answer: a })
    }
    &&& name == "kill"@ ==> if args.len() > 0 && parse_unsigned(args[0], u64::MAX as nat) is Some {
        exists|id: u64, a: Result<(), Seq<char>>|
            r == Some(#[trigger] kill_reply(id, a)) && parse_unsigned(args[0], u64::MAX as nat) == Some(id as nat)
            && sys1.actions() == sys0.actions().push(SysCall::Kill { id, answer: a })
    } else {
        sys1.actions() == sys0.actions()
    }
    &&& name == "clear"@ ==> sys1.actions() == sys0.actions().push(SysCall::Clear)
    &&& name == "reboot"@ ==> sys1.actions() == sys0.actions().push(SysCall::Reboot)
    &&& name == "shutdown"@ ==> sys1.actions() == sys0.actions().push(SysCall::Shutdown)
    &&& name == "ls"@ ==> r == Some(ls_answer(vfs0.listing(ls_target(args, env))))
    &&& name == "rmdir"@ ==> if args.len() == 0 {
        vfs1.changes() == vfs0.changes()
    } else if !(vfs0.present(resolve_spec(args[0], env.pwd_spec())) && vfs0.directory(resolve_spec(args[0], env.pwd_spec()))) {
        vfs1.changes() == vfs0.changes() && r == Some(Err::<Seq<char>, Seq<char>>(rmdir_refusal(
            resolve_spec(args[0], env.pwd_spec()),
            vfs0.present(resolve_spec(args[0], env.pwd_spec())),
        )))
    } else {
        exists|a: Result<(), Seq<char>>|
            r == Some(#[trigger] unit_reply(a)) && vfs1.changes() == vfs0.changes().push(
                FsCall::Remove { path: resolve_spec(args[0], env.pwd_spec()), answer: a },
            )
    }
    &&& name == "find"@ ==> r == Some(find_answer(ls_target(args, env), vfs0.listing(ls_target(args, env))))
    &&& (name == "wc"@ || name == "sort"@ || name == "uniq"@) && args.len() > 0 ==> r == Some(text_file_answer(
        vfs0.file(resolve_spec(args[0], env.pwd_spec())),
        name,
    ))
    &&& name == "chmod"@ && args.len() >= 2 ==> r == Some(if vfs0.present(resolve_spec(args[1], env.pwd_spec())) {
        Ok::<Seq<char>, Seq<char>>(Seq::empty())
    } else {
        Err::<Seq<char>, Seq<char>>("chmod: "@ + resolve_spec(args[1], env.pwd_spec()) + ": No such file or directory"@)
    })
    &&& name == "du"@ ==> r == Some(du_answer(vfs0, ls_target(args, env)))
    &&& name == "cd"@ ==> r == Some(cd_answer(cd_target(args, env), vfs0.present(cd_target(args, env)), vfs0.directory(cd_target(args, env))))
    &&& name == "cat"@ && args.len() > 0 ==> r == Some(cat_from(files_of(vfs0, resolved(args, env.pwd_spec())), 0, Seq::empty()))
    &&& name == "head"@ && line_args(args).0 is Some ==> r == Some(head_answer(
        vfs0.file(resolve_spec(line_args(args).0->0, env.pwd_spec())),
        line_args(args).1,
    ))
    &&& name == "tail"@ && line_args(args).0 is Some ==> r == Some(tail_answer(
        vfs0.file(resolve_spec(line_args(args).0->0, env.pwd_spec())),
        line_args(args).1,
    ))
    &&& name == "grep"@ && args.len() >= 2 ==> r == Some(grep_answer(vfs0.file(resolve_spec(args[1], env.pwd_spec())), args[0]))
    &&& name == "ping"@ && args.len() > 0 ==> r == Some(sys0.ping_answer(args[0]))
    &&& name == "ps"@ ==> r == Some(Ok::<Seq<char>, Seq<char>>(ps_text(sys0.agents())))
    &&& name == "ifconfig"@ ==> r == Some(Ok::<Seq<char>, Seq<char>>(ifconfig_text(sys0.interfaces())))
    &&& name == "date"@ ==> r == Some(Ok::<Seq<char>, Seq<char>>(sys0.now()))
    &&& name == "uptime"@ ==> r == Some(Ok::<Seq<char>, Seq<char>>(uptime_text(sys0.uptime())))
    &&& name == "free"@ ==> r == Some(Ok::<Seq<char>, Seq<char>>(free_text(sys0.memory().0, sys0.memory().1, sys0.memory().2)))
    &&& name == "df"@ ==> r == Some(Ok::<Seq<char>, Seq<char>>(df_text(sys0.disks())))
}

/// Execute a built-in command, returning the output string.
/// Returns `None` if the command name is not a recognized builtin.
pub fn execute_builtin<V: Vfs + ?Sized, S: SystemInfo + ?Sized>(
    name: &str,
    args: &[String],
    stdin: Option<&[u8]>,
    env: &mut Environment,
    vfs: &mut V,
    sys: &mut S,
) -> (r: Option<Result<String, String>>)
    ensures
        builtin_effect(name@, strings_view(args@), opt_bytes(stdin), *old(env), *final(env), opt_answer(r)),
        builtin_io(name@, strings_view(args@), *old(env), old(vfs), final(vfs), old(sys), final(sys), opt_answer(r)),
{
    proof {
        reveal_strlit("cp");
        reveal_strlit("mv");
        reveal_strlit("rm");
        reveal_strlit("mkdir");
        reveal_strlit("touch");
        reveal_strlit("mount");
        reveal_strlit("umount");
        reveal_strlit("kill");
        reveal_strlit("clear");
        reveal_strlit("reboot");
        reveal_strlit("shutdown");
    }
    match known_index(name) {
        None => {
            proof {
                lemma_builtin_names();
            }
            None
        },
        Some(k) => run_builtin(k, args, stdin, env, vfs, sys),
    }
}

/// After a `cd` that succeeds, the working directory (what `pwd` answers) is
/// the directory `cd` went to, and no export mark changed.
pub proof fn law_pwd_after_cd(
    args: Seq<Seq<char>>,
    stdin: Option<Seq<u8>>,
    before: Environment,
    after: Environment,
    r: Option<Answer>,
)
    requires
        builtin_effect("cd"@, args, stdin, before, after, r),
        r == Some(Ok::<Seq<char>, Seq<char>>(Seq::empty())),
    ensures
        after.pwd_spec() == cd_target(args, before),
        after.exported() == before.exported(),
{
    reveal_strlit("cd");
    let t = cd_target(args, before);
    if r == Some(Err::<Seq<char>, Seq<char>>("cd: "@ + t + ": No such file or directory"@))
        || r == Some(Err::<Seq<char>, Seq<char>>("cd: "@ + t + ": Not a directory"@)) {
        assert(false);
    }
    assert(after.vars() == before.vars().insert(key_pwd(), t));
    assert(after.vars().contains_key(key_pwd()));
}

} // verus!
