//! Pipes and I/O redirection for the shell.
//!
//! Implements pipe buffers (`Vec<u8>` between commands), stdout redirection
//! (`>` overwrite, `>>` append), and stdin redirection (`< file`).

use vstd::prelude::*;
use vstd::string::StrSliceExecFns;
use vstd::utf8::{decode_utf8, encode_utf8, valid_utf8};
use crate::parser::{strings_view, CommandSpec, Pipeline, Redirect, RedirectSpec};
use crate::text::push_str;

verus! {

/// What `String::from_utf8_lossy` makes of `bytes`: the decoded text, with each
/// invalid sequence replaced by U+FFFD.
pub uninterp spec fn utf8_lossy(bytes: Seq<u8>) -> Seq<char>;

/// Calls `String::from_utf8_lossy`. Claimed: the result is `utf8_lossy(bytes)`,
/// and valid UTF-8 decodes to exactly the characters it encodes.
#[verifier::external_body]
pub fn from_utf8_lossy(bytes: &[u8]) -> (r: String)
    ensures
        r@ == utf8_lossy(bytes@),
        valid_utf8(bytes@) ==> r@ == decode_utf8(bytes@),
{
    String::from_utf8_lossy(bytes).into_owned()
}

/// The model of a command's output.
pub struct OutputSpec {
    pub stdout: Seq<u8>,
    pub stderr: Seq<u8>,
    pub exit_code: i32,
}

/// Result of executing a single command in a pipeline.
pub struct CommandOutput {
    /// Stdout content.
    pub stdout: Vec<u8>,
    /// Stderr content.
    pub stderr: Vec<u8>,
    /// Exit code (0 = success).
    pub exit_code: i32,
}

impl View for CommandOutput {
    type V = OutputSpec;

    open spec fn view(&self) -> OutputSpec {
        OutputSpec { stdout: self.stdout@, stderr: self.stderr@, exit_code: self.exit_code }
    }
}

/// An error output: nothing on stdout, the message (UTF-8) on stderr.
pub open spec fn error_output(message: Seq<char>, code: i32) -> OutputSpec {
    OutputSpec { stdout: Seq::empty(), stderr: encode_utf8(message), exit_code: code }
}

impl CommandOutput {
    /// Create a successful output with the given stdout.
    pub fn success(stdout: Vec<u8>) -> (r: Self)
        ensures
            r@ == (OutputSpec { stdout: stdout@, stderr: Seq::empty(), exit_code: 0 }),
    {
        CommandOutput { stdout, stderr: Vec::new(), exit_code: 0 }
    }

    /// Create an error output.
    pub fn error(message: &str, code: i32) -> (r: Self)
        ensures
            r@ == error_output(message@, code),
    {
        CommandOutput { stdout: Vec::new(), stderr: message.as_bytes_vec(), exit_code: code }
    }

    /// Get stdout as a string (lossy).
    pub fn stdout_str(&self) -> (r: String)
        ensures
            r@ == utf8_lossy(self.stdout@),
            valid_utf8(self.stdout@) ==> r@ == decode_utf8(self.stdout@),
    {
        from_utf8_lossy(self.stdout.as_slice())
    }

    /// Get stderr as a string (lossy).
    pub fn stderr_str(&self) -> (r: String)
        ensures
            r@ == utf8_lossy(self.stderr@),
            valid_utf8(self.stderr@) ==> r@ == decode_utf8(self.stderr@),
    {
        from_utf8_lossy(self.stderr.as_slice())
    }
}

/// A call made on a command executor, with what it answered: reading a
/// redirect's file (its path and the bytes or the error), running a command
/// (its name, arguments and stdin, and its output) or writing a redirect's
/// file (its path, the bytes, whether they were appended, and the result).
pub enum ExecCall {
    Read { path: Seq<char>, result: Result<Seq<u8>, Seq<char>> },
    Run { name: Seq<char>, args: Seq<Seq<char>>, stdin: Option<Seq<u8>>, output: OutputSpec },
    Write { path: Seq<char>, data: Seq<u8>, append: bool, answer: Result<(), Seq<char>> },
}

/// The bytes or the error text of a read.
pub open spec fn bytes_answer(r: Result<Vec<u8>, String>) -> Result<Seq<u8>, Seq<char>> {
    match r {
        Ok(d) => Ok(d@),
        Err(e) => Err(e@),
    }
}

/// The error text of a write, if it failed.
pub open spec fn unit_answer(r: Result<(), String>) -> Result<(), Seq<char>> {
    match r {
        Ok(()) => Ok(()),
        Err(e) => Err(e@),
    }
}

/// The bytes of an optional input.
pub open spec fn opt_bytes(stdin: Option<&[u8]>) -> Option<Seq<u8>> {
    match stdin {
        Some(d) => Some(d@),
        None => None,
    }
}

/// Trait for executing a single command, provided by the shell.
/// The pipeline executor calls this for each command in the chain.
///
/// An implementation keeps, as `calls()`, the runs and writes made on it so
/// far, and answers a read of `path` with `file(path)` of its present state.
pub trait CommandExecutor<O = ()> {
    /// What stays fixed while the executor runs, such as the state it
    /// started from.
    closed spec fn origin(&self) -> O {
        vstd::pervasive::arbitrary()
    }

    /// An invariant of the implementation's own, which every call keeps
    /// (such as that its state is what its calls so far made of it).
    closed spec fn consistent(&self) -> bool {
        true
    }

    /// The runs and writes made so far, oldest first, with their answers.
    closed spec fn calls(&self) -> Seq<ExecCall> {
        Seq::empty()
    }

    /// What reading `path` gives in the present state.
    closed spec fn file(&self, path: Seq<char>) -> Result<Seq<u8>, Seq<char>> {
        Err(path)
    }

    /// Execute a command with the given name, args, and optional stdin.
    /// Returns the command's output.
    fn execute(&mut self, name: &str, args: &[String], stdin: Option<&[u8]>) -> (r: CommandOutput)
        ensures
            final(self).calls() == old(self).calls().push(
                ExecCall::Run { name: name@, args: strings_view(args@), stdin: opt_bytes(stdin), output: r@ },
            ),
            old(self).consistent() ==> final(self).consistent(),
            final(self).origin() == old(self).origin(),
    ;

    /// Read a file's contents (for `< file` redirection).
    fn read_file(&mut self, path: &str) -> (r: Result<Vec<u8>, String>)
        ensures
            bytes_answer(r) == old(self).file(path@),
            final(self).calls() == old(self).calls().push(ExecCall::Read { path: path@, result: bytes_answer(r) }),
            old(self).consistent() ==> final(self).consistent(),
            final(self).origin() == old(self).origin(),
    ;

    /// Write data to a file (for `> file` redirection), overwriting.
    fn write_file(&mut self, path: &str, data: &[u8]) -> (r: Result<(), String>)
        ensures
            final(self).calls() == old(self).calls().push(
                ExecCall::Write { path: path@, data: data@, append: false, answer: unit_answer(r) },
            ),
            old(self).consistent() ==> final(self).consistent(),
            final(self).origin() == old(self).origin(),
    ;

    /// Append data to a file (for `>> file` redirection).
    fn append_file(&mut self, path: &str, data: &[u8]) -> (r: Result<(), String>)
        ensures
            final(self).calls() == old(self).calls().push(
                ExecCall::Write { path: path@, data: data@, append: true, answer: unit_answer(r) },
            ),
            old(self).consistent() ==> final(self).consistent(),
            final(self).origin() == old(self).origin(),
    ;
}

/// What the executor answered while one command of a pipeline ran: the stdin
/// redirect's read (consulted only when the command has one), the command's
/// output, and the stdout redirect's write (consulted only when it has one).
pub struct StepAnswers {
    pub read: Result<Seq<u8>, Seq<char>>,
    pub output: OutputSpec,
    pub write: Result<(), Seq<char>>,
}

/// The message for a failed stdin redirect.
pub open spec fn read_error_message(name: Seq<char>, path: Seq<char>, e: Seq<char>) -> Seq<char> {
    name + ": "@ + path + ": "@ + e
}

/// The message for a failed stdout redirect.
pub open spec fn write_error_message(name: Seq<char>, e: Seq<char>) -> Seq<char> {
    name + ": redirect: "@ + e
}

/// The outcome of running `cmds[i..]` when the executor gives the answers
/// `answers` (one per command run): a failed redirect stops the pipeline with an
/// error; a command whose stdout is redirected passes nothing on, and when it is
/// the last its output keeps stderr and exit code only; otherwise the last
/// command's output is the outcome. Failures in the middle do not stop the run.
pub open spec fn run_from(cmds: Seq<CommandSpec>, i: int, answers: Seq<StepAnswers>) -> OutputSpec
    decreases cmds.len() - i,
{
    if i < 0 || i >= cmds.len() || answers.len() == 0 {
        error_output("pipeline execution error"@, 1)
    } else {
        let c = cmds[i];
        let a = answers[0];
        let last = i == cmds.len() - 1;
        if c.stdin is Some && a.read is Err {
            error_output(read_error_message(c.name, c.stdin->0, a.read->Err_0), 1)
        } else if c.stdout is Some && a.write is Err {
            error_output(write_error_message(c.name, a.write->Err_0), 1)
        } else if c.stdout is Some && last {
            OutputSpec {
                stdout: Seq::empty(),
                stderr: a.output.stderr,
                exit_code: a.output.exit_code,
            }
        } else if !last {
            run_from(cmds, i + 1, answers.drop_first())
        } else {
            a.output
        }
    }
}

/// The outcome of a pipeline: `empty pipeline` for no commands, otherwise what
/// `run_from` makes of the executor's answers.
pub open spec fn pipeline_outcome(cmds: Seq<CommandSpec>, answers: Seq<StepAnswers>) -> OutputSpec {
    if cmds.len() == 0 {
        error_output("empty pipeline"@, 1)
    } else {
        run_from(cmds, 0, answers)
    }
}

/// The file a stdout redirect names.
pub open spec fn redirect_path(r: RedirectSpec) -> Seq<char> {
    match r {
        RedirectSpec::Overwrite(p) => p,
        RedirectSpec::Append(p) => p,
    }
}

/// The read a command's stdin redirect makes, answered `read`, if it has one.
pub open spec fn read_calls(c: CommandSpec, read: Result<Seq<u8>, Seq<char>>) -> Seq<ExecCall> {
    if c.stdin is Some {
        seq![ExecCall::Read { path: c.stdin->0, result: read }]
    } else {
        Seq::empty()
    }
}

/// The calls made on the executor while `cmds[i..]` run with the answers
/// `answers`, the first command getting `pipe_in` on stdin unless it redirects
/// stdin: a command's stdin redirect is read first; each command runs with its
/// own name and arguments and with either the redirected file's bytes or the
/// previous command's output; a redirected output is written (or appended) to
/// its file. A failed read runs nothing, and a failed write ends the calls.
pub open spec fn calls_from(cmds: Seq<CommandSpec>, i: int, pipe_in: Option<Seq<u8>>, answers: Seq<StepAnswers>) -> Seq<ExecCall>
    decreases cmds.len() - i,
{
    if i < 0 || i >= cmds.len() || answers.len() == 0 {
        Seq::empty()
    } else {
        let c = cmds[i];
        let a = answers[0];
        let last = i == cmds.len() - 1;
        let rc = read_calls(c, a.read);
        if c.stdin is Some && a.read is Err {
            rc
        } else {
            let stdin = if c.stdin is Some { Some(a.read->Ok_0) } else { pipe_in };
            let run = ExecCall::Run { name: c.name, args: c.args, stdin: stdin, output: a.output };
            if c.stdout is Some {
                let w = ExecCall::Write {
                    path: redirect_path(c.stdout->0),
                    data: a.output.stdout,
                    append: c.stdout->0 is Append,
                    answer: a.write,
                };
                if a.write is Err || last {
                    rc + seq![run, w]
                } else {
                    rc + seq![run, w] + calls_from(cmds, i + 1, None, answers.drop_first())
                }
            } else if last {
                rc + seq![run]
            } else {
                rc + seq![run] + calls_from(cmds, i + 1, Some(a.output.stdout), answers.drop_first())
            }
        }
    }
}

/// Whether `answers` has an answer for every command of `cmds[i..]` that runs.
pub open spec fn answers_suffice(cmds: Seq<CommandSpec>, i: int, answers: Seq<StepAnswers>) -> bool
    decreases cmds.len() - i,
{
    if i < 0 || i >= cmds.len() {
        true
    } else if answers.len() == 0 {
        false
    } else {
        let c = cmds[i];
        let a = answers[0];
        if (c.stdin is Some && a.read is Err) || (c.stdout is Some && a.write is Err) || i == cmds.len() - 1 {
            true
        } else {
            answers_suffice(cmds, i + 1, answers.drop_first())
        }
    }
}

/// The calls a whole pipeline makes with the answers `answers`.
pub open spec fn pipeline_calls(cmds: Seq<CommandSpec>, answers: Seq<StepAnswers>) -> Seq<ExecCall> {
    calls_from(cmds, 0, None, answers)
}

/// The bytes of an optional buffer.
pub open spec fn opt_buffer(o: Option<Vec<u8>>) -> Option<Seq<u8>> {
    match o {
        Some(d) => Some(d@),
        None => None,
    }
}

/// Executes a full pipeline, wiring pipes and redirections between commands.
pub struct PipelineExecutor;

impl PipelineExecutor {
    /// Execute a pipeline using the provided command executor.
    /// Returns the final output of the last command in the chain.
    ///
    /// For some answers of the executor, one for each command that runs: the
    /// executor records exactly the calls `pipeline_calls` prescribes (each
    /// stdin redirect read, with what the read gave, before its command runs;
    /// each command with its own name and arguments, its stdin from its
    /// redirect or from the previous command's output; and each redirected
    /// output written to its file), the first command's redirect reads what
    /// the executor held at the start, and the result is `pipeline_outcome` of
    /// those answers.
    #[verifier::rlimit(100)]
    pub fn execute<O, E: CommandExecutor<O> + ?Sized>(pipeline: &Pipeline, executor: &mut E) -> (r: CommandOutput)
        ensures
            exists|answers: Seq<StepAnswers>|
                #[trigger] pipeline_outcome(pipeline@, answers) == r@
                && answers_suffice(pipeline@, 0, answers)
                && final(executor).calls() == old(executor).calls() + pipeline_calls(pipeline@, answers)
                && (pipeline@.len() > 0 && pipeline@[0].stdin is Some
                    ==> answers[0].read == old(executor).file(pipeline@[0].stdin->0)),
            old(executor).consistent() ==> final(executor).consistent(),
            final(executor).origin() == old(executor).origin(),
    {
        let n = pipeline.commands.len();
        if n == 0 {
            let r = CommandOutput::error("empty pipeline", 1);
            proof {
                let e: Seq<StepAnswers> = Seq::empty();
                assert(pipeline_outcome(pipeline@, e) == r@);
                assert(executor.calls() + pipeline_calls(pipeline@, e) =~= executor.calls());
            }
            return r;
        }
        let ghost cmds = pipeline@;
        let ghost calls0 = executor.calls();
        let ghost f0 = |p: Seq<char>| executor.file(p);
        let ghost mut trace: Seq<StepAnswers> = Seq::empty();
        let ghost mut logged: Seq<ExecCall> = Seq::empty();
        let mut pipe_input: Option<Vec<u8>> = None;
        let mut i: usize = 0;
        assert forall|rest: Seq<StepAnswers>| #[trigger] calls_from(cmds, 0, None, trace + rest)
            == logged + calls_from(cmds, i as int, opt_buffer(pipe_input), rest) by {
            assert(trace + rest =~= rest);
            assert(logged + calls_from(cmds, 0, None, rest) =~= calls_from(cmds, 0, None, rest));
        }
        assert forall|rest: Seq<StepAnswers>| #[trigger] run_from(cmds, 0, trace + rest) == run_from(cmds, i as int, rest) by {
            assert(trace + rest =~= rest);
        }
        assert forall|rest: Seq<StepAnswers>| #[trigger] answers_suffice(cmds, 0, trace + rest) == answers_suffice(cmds, i as int, rest) by {
            assert(trace + rest =~= rest);
        }
        while i < n
            invariant
                n == pipeline.commands@.len(),
                cmds == pipeline@,
                n > 0,
                i < n,
                trace.len() == i,
                calls0 == old(executor).calls(),
                f0 == (|p: Seq<char>| old(executor).file(p)),
                executor.calls() == calls0 + logged,
                old(executor).consistent() ==> executor.consistent(),
                executor.origin() == old(executor).origin(),
                i == 0 ==> forall|p: Seq<char>| #[trigger] executor.file(p) == f0(p),
                i > 0 && cmds[0].stdin is Some ==> trace[0].read == f0(cmds[0].stdin->0),
                forall|rest: Seq<StepAnswers>| #[trigger] run_from(cmds, 0, trace + rest) == run_from(cmds, i as int, rest),
                forall|rest: Seq<StepAnswers>| #[trigger] answers_suffice(cmds, 0, trace + rest) == answers_suffice(cmds, i as int, rest),
                forall|rest: Seq<StepAnswers>| #[trigger] calls_from(cmds, 0, None, trace + rest)
                    == logged + calls_from(cmds, i as int, opt_buffer(pipe_input), rest),
            decreases n - i,
        {
            let cmd = &pipeline.commands[i];
            let is_last = i == n - 1;
            let ghost c = cmds[i as int];
            let ghost in_view = opt_buffer(pipe_input);
            assert(c == cmd@);
            let stdin_data: Option<Vec<u8>> = match &cmd.stdin_redirect {
                Some(path) => {
                    match executor.read_file(path.as_str()) {
                        Ok(data) => Some(data),
                        Err(e) => {
                            let mut msg = String::new();
                            push_str(&mut msg, cmd.name.as_str());
                            push_str(&mut msg, ": ");
                            push_str(&mut msg, path.as_str());
                            push_str(&mut msg, ": ");
                            push_str(&mut msg, e.as_str());
                            let r = CommandOutput::error(msg.as_str(), 1);
                            proof {
                                assert(msg@ =~= read_error_message(c.name, c.stdin->0, e@));
                                let a = StepAnswers { read: Err(e@), output: r@, write: Ok(()) };
                                let t = trace + seq![a];
                                assert(run_from(cmds, i as int, seq![a]) == r@);
                                assert(run_from(cmds, 0, t) == r@);
                                assert(pipeline_outcome(pipeline@, t) == r@);
                                assert(answers_suffice(cmds, 0, t));
                                let rc = read_calls(c, Err(e@));
                                assert(calls_from(cmds, i as int, in_view, seq![a]) =~= rc);
                                assert(calls_from(cmds, 0, None, t) =~= logged + rc);
                                assert(executor.calls() =~= calls0 + (logged + rc));
                                if i == 0 {
                                    assert(t[0] == a);
                                } else {
                                    assert(t[0] == trace[0]);
                                }
                            }
                            return r;
                        },
                    }
                },
                None => pipe_input.take(),
            };
            let ghost read_view: Result<Seq<u8>, Seq<char>> = match &stdin_data {
                Some(d) => Ok(d@),
                None => Ok(Seq::empty()),
            };
            assert(c.stdin is Some ==> opt_buffer(stdin_data) == Some(read_view->Ok_0));
            assert(c.stdin is None ==> opt_buffer(stdin_data) == in_view);
            assert(i == 0 && c.stdin is Some ==> read_view == f0(c.stdin->0));
            let ghost rc = read_calls(c, read_view);
            let ghost logged0 = logged;
            proof {
                logged = logged + rc;
            }
            assert(executor.calls() =~= calls0 + logged);
            let output = match &stdin_data {
                Some(d) => executor.execute(cmd.name.as_str(), cmd.args.as_slice(), Some(d.as_slice())),
                None => executor.execute(cmd.name.as_str(), cmd.args.as_slice(), None),
            };
            let ghost out_view = output@;
            let ghost run = ExecCall::Run { name: c.name, args: c.args, stdin: opt_buffer(stdin_data), output: out_view };
            assert(executor.calls() == calls0 + logged.push(run));
            match &cmd.stdout_redirect {
                Some(redirect) => {
                    let result = match redirect {
                        Redirect::Overwrite(path) => executor.write_file(path.as_str(), output.stdout.as_slice()),
                        Redirect::Append(path) => executor.append_file(path.as_str(), output.stdout.as_slice()),
                    };
                    let ghost w = ExecCall::Write {
                        path: redirect_path(c.stdout->0),
                        data: out_view.stdout,
                        append: c.stdout->0 is Append,
                        answer: unit_answer(result),
                    };
                    assert(executor.calls() == calls0 + logged.push(run).push(w));
                    match result {
                        Err(e) => {
                            let mut msg = String::new();
                            push_str(&mut msg, cmd.name.as_str());
                            push_str(&mut msg, ": redirect: ");
                            push_str(&mut msg, e.as_str());
                            let r = CommandOutput::error(msg.as_str(), 1);
                            proof {
                                assert(msg@ =~= write_error_message(c.name, e@));
                                let a = StepAnswers { read: read_view, output: out_view, write: Err(e@) };
                                let t = trace + seq![a];
                                assert(run_from(cmds, i as int, seq![a]) == r@);
                                assert(run_from(cmds, 0, t) == r@);
                                assert(pipeline_outcome(pipeline@, t) == r@);
                                assert(answers_suffice(cmds, 0, t));
                                assert(calls_from(cmds, i as int, in_view, seq![a]) =~= rc + seq![run, w]);
                                assert(calls_from(cmds, 0, None, t) =~= logged + seq![run, w]);
                                assert(logged.push(run).push(w) =~= logged + seq![run, w]);
                                assert(calls0 + (logged + seq![run, w]) =~= calls0 + logged.push(run).push(w));
                                if i == 0 {
                                    assert(t[0] == a);
                                } else {
                                    assert(t[0] == trace[0]);
                                }
                            }
                            return r;
                        },
                        Ok(()) => {},
                    }
                    let ghost a = StepAnswers { read: read_view, output: out_view, write: Ok(()) };
                    if is_last {
                        let r = CommandOutput { stdout: Vec::new(), stderr: output.stderr, exit_code: output.exit_code };
                        proof {
                            let t = trace + seq![a];
                            assert(run_from(cmds, i as int, seq![a]) == r@);
                            assert(run_from(cmds, 0, t) == r@);
                            assert(pipeline_outcome(pipeline@, t) == r@);
                            assert(answers_suffice(cmds, 0, t));
                            assert(calls_from(cmds, i as int, in_view, seq![a]) =~= rc + seq![run, w]);
                            assert(calls_from(cmds, 0, None, t) =~= logged + seq![run, w]);
                            assert(calls0 + (logged + seq![run, w]) =~= calls0 + logged.push(run).push(w));
                            if i == 0 {
                                assert(t[0] == a);
                            } else {
                                assert(t[0] == trace[0]);
                            }
                        }
                        return r;
                    }
                    pipe_input = None;
                    proof {
                        assert forall|rest: Seq<StepAnswers>| #[trigger] run_from(cmds, 0, trace.push(a) + rest) == run_from(cmds, i + 1, rest) by {
                            assert(trace.push(a) + rest =~= trace + (seq![a] + rest));
                            assert((seq![a] + rest).drop_first() =~= rest);
                        }
                        assert forall|rest: Seq<StepAnswers>| #[trigger] answers_suffice(cmds, 0, trace.push(a) + rest) == answers_suffice(cmds, i + 1, rest) by {
                            assert(trace.push(a) + rest =~= trace + (seq![a] + rest));
                            assert((seq![a] + rest).drop_first() =~= rest);
                        }
                        assert forall|rest: Seq<StepAnswers>| #[trigger] calls_from(cmds, 0, None, trace.push(a) + rest)
                            == logged.push(run).push(w) + calls_from(cmds, i + 1, None, rest) by {
                            assert(trace.push(a) + rest =~= trace + (seq![a] + rest));
                            assert((seq![a] + rest).drop_first() =~= rest);
                            assert(calls_from(cmds, i as int, in_view, seq![a] + rest) == rc + seq![run, w] + calls_from(cmds, i + 1, None, rest));
                            assert(logged0 + (rc + seq![run, w] + calls_from(cmds, i + 1, None, rest)) =~= logged.push(run).push(w) + calls_from(cmds, i + 1, None, rest));
                        }
                        if i == 0 {
                            assert(trace.push(a)[0] == a);
                        } else {
                            assert(trace.push(a)[0] == trace[0]);
                        }
                        trace = trace.push(a);
                        logged = logged.push(run).push(w);
                    }
                },
                None => {
                    let ghost a = StepAnswers { read: read_view, output: out_view, write: Ok(()) };
                    if is_last {
                        proof {
                            let t = trace + seq![a];
                            assert(run_from(cmds, i as int, seq![a]) == output@);
                            assert(run_from(cmds, 0, t) == output@);
                            assert(pipeline_outcome(pipeline@, t) == output@);
                            assert(answers_suffice(cmds, 0, t));
                            assert(calls_from(cmds, i as int, in_view, seq![a]) =~= rc + seq![run]);
                            assert(calls_from(cmds, 0, None, t) =~= logged + seq![run]);
                            assert(calls0 + (logged + seq![run]) =~= calls0 + logged.push(run));
                            if i == 0 {
                                assert(t[0] == a);
                            } else {
                                assert(t[0] == trace[0]);
                            }
                        }
                        return output;
                    }
                    let ghost out_bytes = output.stdout@;
                    pipe_input = Some(output.stdout);
                    proof {
                        assert(opt_buffer(pipe_input) == Some(out_bytes));
                        assert forall|rest: Seq<StepAnswers>| #[trigger] run_from(cmds, 0, trace.push(a) + rest) == run_from(cmds, i + 1, rest) by {
                            assert(trace.push(a) + rest =~= trace + (seq![a] + rest));
                            assert((seq![a] + rest).drop_first() =~= rest);
                        }
                        assert forall|rest: Seq<StepAnswers>| #[trigger] answers_suffice(cmds, 0, trace.push(a) + rest) == answers_suffice(cmds, i + 1, rest) by {
                            assert(trace.push(a) + rest =~= trace + (seq![a] + rest));
                            assert((seq![a] + rest).drop_first() =~= rest);
                        }
                        assert forall|rest: Seq<StepAnswers>| #[trigger] calls_from(cmds, 0, None, trace.push(a) + rest)
                            == logged.push(run) + calls_from(cmds, i + 1, Some(out_bytes), rest) by {
                            assert(trace.push(a) + rest =~= trace + (seq![a] + rest));
                            assert((seq![a] + rest).drop_first() =~= rest);
                            assert(calls_from(cmds, i as int, in_view, seq![a] + rest) == rc + seq![run] + calls_from(cmds, i + 1, Some(out_bytes), rest));
                            assert(logged0 + (rc + seq![run] + calls_from(cmds, i + 1, Some(out_bytes), rest)) =~= logged.push(run) + calls_from(cmds, i + 1, Some(out_bytes), rest));
                        }
                        if i == 0 {
                            assert(trace.push(a)[0] == a);
                        } else {
                            assert(trace.push(a)[0] == trace[0]);
                        }
                        trace = trace.push(a);
                        logged = logged.push(run);
                    }
                },
            }
            i = i + 1;
        }
        CommandOutput::error("pipeline execution error", 1)
    }
}

/// A pipeline of one command without redirections answers as that command does.
pub proof fn law_single_command_pipeline(c: CommandSpec, a: StepAnswers)
    requires
        c.stdin is None,
        c.stdout is None,
    ensures
        pipeline_outcome(seq![c], seq![a]) == a.output,
{
}

/// When the last command's output goes to a file that was written, the
/// pipeline's own output stream is empty and it keeps that command's error
/// stream and exit code.
pub proof fn law_redirected_output_is_empty(cmds: Seq<CommandSpec>, answers: Seq<StepAnswers>)
    requires
        cmds.len() == 1,
        cmds[0].stdin is None,
        cmds[0].stdout is Some,
        answers.len() > 0,
        answers[0].write is Ok,
    ensures
        pipeline_outcome(cmds, answers).stdout == Seq::<u8>::empty(),
        pipeline_outcome(cmds, answers).stderr == answers[0].output.stderr,
        pipeline_outcome(cmds, answers).exit_code == answers[0].output.exit_code,
{
}

/// A command in the middle of a pipeline that fails does not stop it: the
/// pipeline goes on with the next command, whatever the exit code.
pub proof fn law_failure_does_not_stop_pipeline(cmds: Seq<CommandSpec>, answers: Seq<StepAnswers>)
    requires
        cmds.len() >= 2,
        answers.len() > 0,
        cmds[0].stdin is None,
        cmds[0].stdout is None,
    ensures
        pipeline_outcome(cmds, answers) == run_from(cmds, 1, answers.drop_first()),
{
}

} // verus!
