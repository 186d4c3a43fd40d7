//! Main shell loop — ties everything together.
//!
//! The `Shell` struct holds environment, history, prompt and AI callback.
//! `handle_line()` takes one line read from the user, executes it and prints
//! its output; the interactive loop reads lines and hands them over until the
//! shell stops running or the input ends (Ctrl+D). Handles Ctrl+C (cancel) and
//! startup rc files.

use vstd::prelude::*;
use crate::ai::{
    builtin_names, context_view, proposal_view,
    classify_input, classify_spec, format_proposal, format_proposal_spec, process_natural_language,
    unavailable_message, AiContext, AiShellCallback, ContextView, InputKind,
    ProposalView,
};
use crate::builtin::{builtin_effect, builtin_io, execute_builtin, opt_answer, Answer, SystemInfo, Vfs};
use crate::env::{default_vars, expand_from, Environment};
use crate::parser::{
    command_lines, history_after_push, parse_spec, split_command_lines, strings_view, CommandSpec, History, ParseError, Pipeline, TabCompleter,
};
use crate::pipe::{
    answers_suffice, bytes_answer, error_output, opt_bytes, pipeline_calls, pipeline_outcome, unit_answer, utf8_lossy, CommandExecutor, ExecCall, CommandOutput, OutputSpec, PipelineExecutor,
    StepAnswers,
};
use vstd::string::StrSliceExecFns;
use vstd::utf8::encode_utf8;
use crate::prompt::{opt_chars, Prompt};
use crate::pipe::from_utf8_lossy;
use crate::script::{parse_script, parse_script_spec, script_runs_as, stmts_view, Answers, StmtSpec, ScriptCall, ScriptExecutor, ScriptRunner};
use crate::text::{
    chars_of, chars_range, decimal_int, i32_to_string, push_str, starts_with, starts_with_exec, str_eq, string_of, trim, trim_chars,
    trim_str,
};

verus! {

/// How the shell reports a parse error.
pub open spec fn parse_error_text(e: ParseError) -> Seq<char> {
    "shell-nostd: parse error: "@ + e.message_spec()
}

/// The message for a command name that is not a builtin.
pub open spec fn not_found_text(name: Seq<char>) -> Seq<char> {
    name + ": command not found"@
}

/// The shell's reply to a single command `name` whose builtin answered `a`:
/// the output with code 0, the error with code 1, or "command not found"
/// with code 127 when there is no such builtin.
pub open spec fn single_reply(name: Seq<char>, a: Option<Answer>) -> (Seq<char>, i32) {
    match a {
        Some(Ok(out)) => (out, 0),
        Some(Err(e)) => (e, 1),
        None => (not_found_text(name), 127),
    }
}

/// The text shown for a pipeline's output: its error stream, followed by a
/// newline and its output stream when both are non-empty; otherwise its
/// output stream.
pub open spec fn pipeline_text(o: OutputSpec) -> Seq<char> {
    if o.stderr.len() > 0 {
        if utf8_lossy(o.stdout).len() > 0 {
            utf8_lossy(o.stderr) + seq!['\n'] + utf8_lossy(o.stdout)
        } else {
            utf8_lossy(o.stderr)
        }
    } else {
        utf8_lossy(o.stdout)
    }
}

/// What one command line `input` (no `;` in it) may reply, the environment
/// going from `before` to `after`: a parse error is reported with code 1; a
/// lone `exit` replies nothing; another lone command without redirects
/// replies as its builtin answered; a pipeline, or a command with redirects,
/// replies with the text and code of its outcome.
pub open spec fn line_reply(input: Seq<char>, before: Environment, after: Environment, r: (Seq<char>, i32)) -> bool {
    match parse_spec(input) {
        Err(e) => r == (parse_error_text(e), 1i32) && after == before,
        Ok(cmds) => if cmds.len() == 1 && cmds[0].name == "exit"@ {
            r == (Seq::<char>::empty(), 0i32) && after == before
        } else if cmds.len() == 1 && cmds[0].stdin is None && cmds[0].stdout is None {
            exists|a: Option<Answer>|
                builtin_effect(cmds[0].name, cmds[0].args, None, before, after, a)
                && #[trigger] single_reply(cmds[0].name, a) == r
        } else {
            pipeline_ran(cmds, before, after, r)
        },
    }
}

/// What the pipeline adapter hands back for the builtin `name` that answered
/// `a`: the output's UTF-8 bytes with code 0, the error with code 1, or
/// "command not found" with code 127 when there is no such builtin.
pub open spec fn executor_output(name: Seq<char>, a: Option<Answer>) -> OutputSpec {
    match a {
        Some(Ok(o)) => OutputSpec { stdout: encode_utf8(o), stderr: Seq::empty(), exit_code: 0 },
        Some(Err(e)) => error_output(e, 1),
        None => error_output(not_found_text(name), 127),
    }
}

/// Whether the executor calls `calls` took the environment through `envs`,
/// one step per call: each run was a builtin answering as the executor
/// reported, and each write left the environment as it was.
pub open spec fn exec_chain(calls: Seq<ExecCall>, envs: Seq<Environment>) -> bool {
    &&& envs.len() == calls.len() + 1
    &&& forall|k: int| #![trigger calls[k]] 0 <= k < calls.len() ==> exec_step(calls[k], envs[k], envs[k + 1])
}

/// Whether the executor call `call` took the environment from `before` to
/// `after`: a run was a builtin answering as the executor reported, and a
/// write left the environment as it was.
pub open spec fn exec_step(call: ExecCall, before: Environment, after: Environment) -> bool {
    if call is Run {
        exists|a: Option<Answer>|
            builtin_effect(call->Run_name, call->Run_args, call->Run_stdin, before, after, a)
            && #[trigger] executor_output(call->Run_name, a) == call->Run_output
    } else {
        after == before
    }
}

/// Whether the pipeline `cmds` ran through the builtins with reply `r`, the
/// environment going from `before` to `after`: for some answers, one for
/// each command that ran, the builtins made exactly the calls the pipeline
/// prescribes, and the reply is the text and code of the outcome.
pub open spec fn pipeline_ran(cmds: Seq<CommandSpec>, before: Environment, after: Environment, r: (Seq<char>, i32)) -> bool {
    exists|ans: Seq<StepAnswers>, envs: Seq<Environment>|
        #![trigger pipeline_outcome(cmds, ans), exec_chain(pipeline_calls(cmds, ans), envs)]
        answers_suffice(cmds, 0, ans) && exec_chain(pipeline_calls(cmds, ans), envs)
        && envs[0] == before && envs.last() == after
        && r == (pipeline_text(pipeline_outcome(cmds, ans)), pipeline_outcome(cmds, ans).exit_code)
}

/// Whether the command line `input` is a lone `exit` command.
pub open spec fn is_lone_exit(input: Seq<char>) -> bool {
    match parse_spec(input) {
        Ok(cmds) => cmds.len() == 1 && cmds[0].name == "exit"@,
        Err(_) => false,
    }
}

/// The output and exit code of the command lines `ls[i..]` whose replies
/// were `replies`, after `out` and `code`: blank lines reply nothing; each
/// other line's output, when there is one, follows on a line of its own, and
/// the exit code is that of the last line that is not blank.
pub open spec fn lines_output(ls: Seq<Seq<char>>, replies: Seq<(Seq<char>, i32)>, i: int, out: Seq<char>, code: i32) -> (
    Seq<char>,
    i32,
)
    decreases ls.len() - i,
{
    if i < 0 || i >= ls.len() {
        (out, code)
    } else if trim(ls[i]).len() == 0 {
        lines_output(ls, replies, i + 1, out, code)
    } else {
        let o = replies[i].0;
        let out2 = if o.len() == 0 {
            out
        } else if out.len() == 0 {
            o
        } else {
            out + seq!['\n'] + o
        };
        lines_output(ls, replies, i + 1, out2, replies[i].1)
    }
}

/// Whether the command line `l` took the environment from `before` to
/// `after` replying `reply`: a blank line does nothing, another replies as a
/// command line does.
pub open spec fn line_step(l: Seq<char>, before: Environment, after: Environment, reply: (Seq<char>, i32)) -> bool {
    if trim(l).len() == 0 {
        after == before
    } else {
        line_reply(l, before, after, reply)
    }
}

/// Whether the command lines `ls` ran one after the other with reply `r`,
/// the environment going from `before` to `after`: each line that is not
/// blank replied as a command line does, from the environment the lines
/// before it left, and the reply gathers their outputs.
pub open spec fn lines_ran(ls: Seq<Seq<char>>, before: Environment, after: Environment, r: (Seq<char>, i32)) -> bool {
    exists|replies: Seq<(Seq<char>, i32)>, envs: Seq<Environment>|
        #![trigger lines_output(ls, replies, 0, Seq::empty(), 0), envs.len()]
        replies.len() == ls.len() && envs.len() == ls.len() + 1 && envs[0] == before && envs.last() == after
        && (forall|k: int| #![trigger replies[k]] 0 <= k < ls.len() ==> line_step(ls[k], envs[k], envs[k + 1], replies[k]))
        && r == lines_output(ls, replies, 0, Seq::empty(), 0)
}

/// What running the input `input` may reply, the environment going from
/// `before` to `after`: the command lines that `;` separates in it run in
/// turn (see `lines_ran`).
pub open spec fn command_reply(input: Seq<char>, before: Environment, after: Environment, r: (Seq<char>, i32)) -> bool {
    lines_ran(command_lines(input), before, after, r)
}

/// What the command line `input` (no `;` in it), run in the environment
/// `env` with reply `r`, does to the file system (from `vfs0` to `vfs1`) and
/// the system (from `sys0` to `sys1`): a parse error or a lone `exit` calls
/// neither; a lone command without redirects calls them as its builtin does
/// (see `builtin_io`), the reply made from the builtin's answer. What a
/// pipeline, or a command with redirects, does to them is not stated here:
/// its commands run through the pipeline's executor (see `pipeline_ran`).
pub open spec fn line_io<V: Vfs + ?Sized, S: SystemInfo + ?Sized>(
    input: Seq<char>,
    env: Environment,
    vfs0: &V,
    vfs1: &V,
    sys0: &S,
    sys1: &S,
    r: (Seq<char>, i32),
) -> bool {
    match parse_spec(input) {
        Err(_) => vfs1.changes() == vfs0.changes() && sys1.actions() == sys0.actions(),
        Ok(cmds) => if cmds.len() == 1 && cmds[0].name == "exit"@ {
            vfs1.changes() == vfs0.changes() && sys1.actions() == sys0.actions()
        } else if cmds.len() == 1 && cmds[0].stdin is None && cmds[0].stdout is None {
            exists|a: Option<Answer>|
                builtin_io(cmds[0].name, cmds[0].args, env, vfs0, vfs1, sys0, sys1, a)
                && #[trigger] single_reply(cmds[0].name, a) == r
        } else {
            true
        },
    }
}

/// Whether the command lines `ls`, run from the environments `envs` with the
/// replies `replies`, took the file system through the states `vs` and the
/// system through the states `ss`, one step per line: a blank line calls
/// neither, another calls them as `line_io` says.
pub open spec fn lines_io<V: Vfs + ?Sized, S: SystemInfo + ?Sized>(
    ls: Seq<Seq<char>>,
    envs: Seq<Environment>,
    replies: Seq<(Seq<char>, i32)>,
    vs: Seq<&V>,
    ss: Seq<&S>,
) -> bool {
    &&& vs.len() == ls.len() + 1
    &&& ss.len() == ls.len() + 1
    &&& forall|k: int| #![trigger vs[k]] 0 <= k < ls.len() ==> if trim(ls[k]).len() == 0 {
        vs[k + 1].changes() == vs[k].changes() && ss[k + 1].actions() == ss[k].actions()
    } else {
        line_io(ls[k], envs[k], vs[k], vs[k + 1], ss[k], ss[k + 1], replies[k])
    }
}

/// What running the input `input` from the environment `before`, replying
/// `r`, does to the file system (from `vfs0` to `vfs1`) and the system (from
/// `sys0` to `sys1`): its command lines run in turn (as in `lines_ran`), each
/// doing what `line_io` says from the states the lines before it left.
pub open spec fn command_io<V: Vfs + ?Sized, S: SystemInfo + ?Sized>(
    input: Seq<char>,
    before: Environment,
    vfs0: &V,
    vfs1: &V,
    sys0: &S,
    sys1: &S,
    r: (Seq<char>, i32),
) -> bool {
    let ls = command_lines(input);
    exists|replies: Seq<(Seq<char>, i32)>, envs: Seq<Environment>, vs: Seq<&V>, ss: Seq<&S>|
        #![trigger lines_io(ls, envs, replies, vs, ss)]
        replies.len() == ls.len() && envs.len() == ls.len() + 1 && envs[0] == before
        && (forall|k: int| #![trigger replies[k]] 0 <= k < ls.len() ==> line_step(ls[k], envs[k], envs[k + 1], replies[k]))
        && r == lines_output(ls, replies, 0, Seq::empty(), 0)
        && lines_io(ls, envs, replies, vs, ss)
        && vs[0] == vfs0 && vs.last() == vfs1 && ss[0] == sys0 && ss.last() == sys1
}

/// Whether one of the first `n` command lines `ls` that is not blank is a
/// lone `exit`.
pub open spec fn has_exit(ls: Seq<Seq<char>>, n: int) -> bool {
    exists|k: int| 0 <= k < n && trim(ls[k]).len() > 0 && is_lone_exit(#[trigger] ls[k])
}

/// Whether one of the command lines of `input` is a lone `exit`.
pub open spec fn is_exit_command(input: Seq<char>) -> bool {
    has_exit(command_lines(input), command_lines(input).len() as int)
}

/// Whether `c` is the lower-case ASCII letter `lower` or its upper-case form.
pub open spec fn is_letter(c: char, lower: char) -> bool {
    c == lower || c as int == lower as int - 32
}

/// Whether `answer` confirms a proposal: once trimmed it reads `y` or `yes`,
/// in any mix of cases.
pub open spec fn confirms(answer: Seq<char>) -> bool {
    let t = trim(answer);
    (t.len() == 1 && is_letter(t[0], 'y'))
        || (t.len() == 3 && is_letter(t[0], 'y') && is_letter(t[1], 'e') && is_letter(t[2], 's'))
}

/// An answer confirms exactly when, trimmed, it is `y` or `yes` in any mix of
/// upper and lower case.
pub proof fn law_confirms_yes_in_any_case(answer: Seq<char>)
    ensures
        confirms(answer) <==> ({
            let t = trim(answer);
            ||| t == seq!['y']
            ||| t == seq!['Y']
            ||| (t.len() == 3 && (t[0] == 'y' || t[0] == 'Y') && (t[1] == 'e' || t[1] == 'E') && (t[2] == 's' || t[2] == 'S'))
        }),
{
    let t = trim(answer);
    if t.len() == 1 {
        if t[0] == 'y' {
            assert(t =~= seq!['y']);
        }
        if t[0] == 'Y' {
            assert(t =~= seq!['Y']);
        }
    }
}

/// The last `n` entries of `entries` (all of them when there are fewer),
/// newest first.
pub open spec fn recent(entries: Seq<Seq<char>>, n: nat) -> Seq<Seq<char>> {
    let k = if entries.len() < n { entries.len() } else { n };
    Seq::new(k, |i: int| entries[entries.len() - 1 - i])
}

/// The collected output and exit code of proposed commands whose replies were
/// `replies[i..]`: each non-empty output is added with a newline after it, and
/// the run stops at the first non-zero exit code.
pub open spec fn proposal_output(replies: Seq<(Seq<char>, i32)>, i: int, out: Seq<char>, code: i32) -> (Seq<char>, i32)
    decreases replies.len() - i,
{
    if i < 0 || i >= replies.len() {
        (out, code)
    } else {
        let (o, c) = replies[i];
        let out2 = if o.len() > 0 { out + o + seq!['\n'] } else { out };
        if c != 0 {
            (out2, c)
        } else {
            proposal_output(replies, i + 1, out2, c)
        }
    }
}

/// The reply to a natural-language query when the agent proposed the commands
/// `proposal` (or failed with an error text), the user answered `answer`
/// (nothing at end of input), and the proposed commands that ran replied
/// `replies`: the agent's error with code 1, "Cancelled." with code 1 at end
/// of input or code 0 when the answer does not confirm, and otherwise the
/// collected output of the run.
pub open spec fn ai_reply(
    proposal: Result<Seq<Seq<char>>, Seq<char>>,
    answer: Option<Seq<char>>,
    replies: Seq<(Seq<char>, i32)>,
) -> (Seq<char>, i32) {
    match proposal {
        Err(e) => (e, 1),
        Ok(cmds) => match answer {
            None => ("Cancelled."@, 1),
            Some(a) => if confirms(a) {
                proposal_output(replies, 0, Seq::empty(), 0)
            } else {
                ("Cancelled."@, 0)
            },
        },
    }
}

/// Whether the agent's proposal `proposal` was confirmed by `answer`, so that
/// its commands ran.
pub open spec fn proposal_ran(proposal: Result<Seq<Seq<char>>, Seq<char>>, answer: Option<Seq<char>>) -> bool {
    proposal is Ok && (answer matches Some(a) && confirms(a))
}

/// Whether none of the first `n` proposed commands `cmds` is a lone `exit`.
pub open spec fn no_exit(cmds: Seq<Seq<char>>, n: int) -> bool {
    forall|k: int| 0 <= k < n ==> !is_exit_command(#[trigger] cmds[k])
}

/// Whether the proposed commands `cmds` ran with the replies `replies`, the
/// environment passing through `envs`: each ran as a command line from the
/// environment before it to the one after it, and the run went on while the
/// exit codes were 0, stopping after the first that was not or at the end.
pub open spec fn proposal_run(cmds: Seq<Seq<char>>, replies: Seq<(Seq<char>, i32)>, envs: Seq<Environment>) -> bool {
    &&& replies.len() <= cmds.len()
    &&& envs.len() == replies.len() + 1
    &&& forall|k: int| #![trigger replies[k]] 0 <= k < replies.len() ==> command_reply(cmds[k], envs[k], envs[k + 1], replies[k])
    &&& forall|k: int| #![trigger replies[k]] 0 <= k < replies.len() - 1 ==> replies[k].1 == 0
    &&& (replies.len() == cmds.len() || replies.last().1 != 0)
}

/// One exchange with the terminal: a line read after showing a prompt
/// (nothing at end of input), text written, or the interrupt flag cleared.
pub enum TermEvent {
    Read { prompt: Seq<char>, line: Option<Seq<char>> },
    Write { text: Seq<char> },
    ClearInterrupt,
}

/// What showing `text` as a reply writes: nothing for no text, otherwise the
/// text, followed by a newline when it does not end with one.
pub open spec fn output_writes(text: Seq<char>) -> Seq<TermEvent> {
    if text.len() == 0 {
        Seq::empty()
    } else if text.last() == '\n' {
        seq![TermEvent::Write { text }]
    } else {
        seq![TermEvent::Write { text }, TermEvent::Write { text: seq!['\n'] }]
    }
}

/// The dimmed line that echoes a proposed command before it runs.
pub open spec fn echo_text(cmd: Seq<char>) -> Seq<char> {
    "\x1b[2m$ "@ + cmd + "\x1b[0m\n"@
}

/// What running the proposed commands `cmds` with the replies `replies`
/// writes: each command echoed, then its reply shown.
pub open spec fn proposal_events(cmds: Seq<Seq<char>>, replies: Seq<(Seq<char>, i32)>) -> Seq<TermEvent>
    decreases replies.len(),
{
    if replies.len() == 0 {
        Seq::empty()
    } else {
        let k = replies.len() - 1;
        proposal_events(cmds, replies.drop_last()) + seq![TermEvent::Write { text: echo_text(cmds[k]) }]
            + output_writes(replies[k].0)
    }
}

/// What the agent is told: the working directory, the ten newest history
/// entries (newest first) and all variables.
pub open spec fn ai_context_view(env: Environment, history: Seq<Seq<char>>) -> ContextView {
    (env.pwd_spec(), recent(history, 10), env.entries())
}


/// What the query `q` gets from an agent that is `available` and answers
/// with `reply`: its reply when an agent session is active, and the
/// unavailable message otherwise.
pub open spec fn agent_answer(
    available: bool,
    reply: spec_fn(Seq<char>) -> Result<ProposalView, Seq<char>>,
    q: Seq<char>,
) -> Result<ProposalView, Seq<char>> {
    if available {
        reply(q)
    } else {
        Err(unavailable_message())
    }
}

/// What a query replies once the agent proposed `p`: the proposal is shown,
/// one line is read as the answer, and the reply is `ai_reply`; when the
/// answer confirms, the proposed commands run one by one (echoed and their
/// replies shown) until one fails, and otherwise nothing else changes.
pub open spec fn answered_reply(
    p: ProposalView,
    before: Environment,
    after: Environment,
    was_running: bool,
    running: bool,
    events0: Seq<TermEvent>,
    events1: Seq<TermEvent>,
    r: (Seq<char>, i32),
) -> bool {
    exists|line: Option<Seq<char>>, replies: Seq<(Seq<char>, i32)>|
        #[trigger] ai_reply(Ok(p.1), line, replies) == r
        && events1 == events0 + seq![
            TermEvent::Write { text: format_proposal_spec(p.0, p.1) },
            TermEvent::Read { prompt: Seq::empty(), line },
        ] + proposal_events(p.1, replies)
        && if proposal_ran(Ok(p.1), line) {
            exists|envs: Seq<Environment>|
                #[trigger] proposal_run(p.1, replies, envs) && envs[0] == before && envs.last() == after
                && running == (was_running && no_exit(p.1, replies.len() as int))
        } else {
            replies.len() == 0 && after == before && running == was_running
        }
}

/// What a natural-language query whose agent answered `answer` replies, the
/// environment going from `before` to `after`, the running flag from
/// `was_running` to `running` and the terminal's exchanges from `events0` to
/// `events1`: the agent's error with code 1 and nothing else, or else the
/// reply to its proposal (see `answered_reply`).
pub open spec fn query_reply(
    answer: Result<ProposalView, Seq<char>>,
    before: Environment,
    after: Environment,
    was_running: bool,
    running: bool,
    events0: Seq<TermEvent>,
    events1: Seq<TermEvent>,
    r: (Seq<char>, i32),
) -> bool {
    match answer {
        Err(e) => r == (e, 1i32) && after == before && running == was_running && events1 == events0,
        Ok(p) => answered_reply(p, before, after, was_running, running, events0, events1, r),
    }
}

/// The request that `ask REQUEST` or `agent REQUEST` hands to the agent.
pub open spec fn agent_request(input: Seq<char>) -> Option<Seq<char>> {
    let t = trim(input);
    if starts_with(t, "ask "@) && trim(t.skip(4)).len() > 0 {
        Some(trim(t.skip(4)))
    } else if starts_with(t, "agent "@) && trim(t.skip(6)).len() > 0 {
        Some(trim(t.skip(6)))
    } else {
        None
    }
}

/// What the input line `input` replies once its variables are expanded
/// against `before` (with `$?` standing for the last exit code `status`), the
/// environment going from `before` to `after`, the running flag from
/// `was_running` to `running` and the terminal's exchanges from `events0` to
/// `events1`: nothing for blank input, a command's reply for a command, and
/// for natural language, or a request after `ask` or `agent`, the reply to
/// what the agent answers (see `agent_answer`).
pub open spec fn input_reply(
    input: Seq<char>,
    status: i32,
    available: bool,
    reply: spec_fn(Seq<char>) -> Result<ProposalView, Seq<char>>,
    before: Environment,
    after: Environment,
    was_running: bool,
    running: bool,
    events0: Seq<TermEvent>,
    events1: Seq<TermEvent>,
    r: (Seq<char>, i32),
) -> bool {
    let expanded = expand_from(before.vars(), before.home_spec(), input, 0, decimal_int(status as int));
    if agent_request(expanded) is Some {
        query_reply(agent_answer(available, reply, agent_request(expanded)->0), before, after, was_running, running, events0, events1, r)
    } else {
        match classify_spec(expanded) {
            InputKind::Empty => r == (Seq::<char>::empty(), 0i32) && after == before && running == was_running
                && events1 == events0,
            InputKind::Command => command_reply(expanded, before, after, r)
                && running == (was_running && !is_exit_command(expanded)) && events1 == events0,
            InputKind::NaturalLanguage => query_reply(agent_answer(available, reply, expanded), before, after, was_running, running, events0, events1, r),
        }
    }
}

/// What the input line `input`, its variables expanded against `env` (with
/// `$?` standing for `status`), does to the file system (from `vfs0` to
/// `vfs1`) and the system (from `sys0` to `sys1`), replying `r`: blank input
/// calls neither, and a command (not a request to the agent) calls them as its
/// command lines do (see `command_io`).
pub open spec fn input_io<V: Vfs + ?Sized, S: SystemInfo + ?Sized>(
    input: Seq<char>,
    status: i32,
    env: Environment,
    vfs0: &V,
    vfs1: &V,
    sys0: &S,
    sys1: &S,
    r: (Seq<char>, i32),
) -> bool {
    let expanded = expand_from(env.vars(), env.home_spec(), input, 0, decimal_int(status as int));
    &&& classify_spec(expanded) is Empty ==> vfs1.changes() == vfs0.changes() && sys1.actions() == sys0.actions()
    &&& agent_request(expanded) is None && classify_spec(expanded) is Command ==> command_io(expanded, env, vfs0, vfs1, sys0, sys1, r)
}

/// The last exit code a script's lines see as `$?`: the variable `?` that
/// the runner sets after each statement, or `0` before it is set.
pub open spec fn script_status(env: Environment) -> Seq<char> {
    if env.vars().contains_key("?"@) {
        env.vars()["?"@]
    } else {
        "0"@
    }
}

/// What a script line runs as in `env`: the line with its variables
/// expanded (and `$?` standing for `script_status`).
pub open spec fn script_line_text(line: Seq<char>, env: Environment) -> Seq<char> {
    expand_from(env.vars(), env.home_spec(), line, 0, script_status(env))
}

/// Whether the script calls `calls` took the shell through the environments
/// `envs` and running flags `runs`, one step per call: each line ran, its variables expanded, as a
/// command line (a lone `exit` clearing the flag) and each assignment set its
/// variable.
pub open spec fn script_chain(calls: Seq<ScriptCall>, envs: Seq<Environment>, runs: Seq<bool>) -> bool {
    &&& envs.len() == calls.len() + 1
    &&& runs.len() == calls.len() + 1
    &&& forall|k: int| #![trigger calls[k]] 0 <= k < calls.len() ==> match calls[k] {
        ScriptCall::Line { line, output, code } => command_reply(script_line_text(line, envs[k]), envs[k], envs[k + 1], (output, code))
            && runs[k + 1] == (runs[k] && !is_exit_command(script_line_text(line, envs[k]))),
        ScriptCall::Assign { name, value } => envs[k + 1].vars() == envs[k].vars().insert(name, value)
            && envs[k + 1].exported() == envs[k].exported() && runs[k + 1] == runs[k],
    }
}

/// The startup file.
pub open spec fn rc_path() -> Seq<char> {
    "/etc/claudio.rc"@
}

/// What a parse error `e` in the startup file shows.
pub open spec fn rc_error_text(e: Seq<char>) -> Seq<char> {
    "shell-nostd: error in /etc/claudio.rc: "@ + e + "\n"@
}

/// What showing the output `out` of the startup file writes.
pub open spec fn rc_output_writes(out: Seq<char>) -> Seq<TermEvent> {
    if out.len() > 0 {
        seq![TermEvent::Write { text: out }]
    } else {
        Seq::empty()
    }
}

/// Whether the startup script `stmts` ran on the shell, taking the
/// environment from `env0` to `env1`, the running flag from `run0` to `run1`
/// and the terminal's exchanges from `ev0` to `ev1`: the runner's calls (each
/// line run as a command line, each variable set) chain the states, and the
/// script's output is written.
pub open spec fn rc_ran(
    stmts: Seq<StmtSpec>,
    env0: Environment,
    env1: Environment,
    run0: bool,
    run1: bool,
    ev0: Seq<TermEvent>,
    ev1: Seq<TermEvent>,
) -> bool {
    exists|p: Answers, out: Seq<char>, code: i32, calls: Seq<ScriptCall>, envs: Seq<Environment>, runs: Seq<bool>|
        #![trigger script_runs_as(stmts, p, out, code, calls), script_chain(calls, envs, runs)]
        script_runs_as(stmts, p, out, code, calls) && script_chain(calls, envs, runs)
        && envs[0] == env0 && envs.last() == env1 && runs[0] == run0 && runs.last() == run1
        && ev1 == ev0 + rc_output_writes(out)
}

/// Trait for reading a line of input from the user.
/// The kernel terminal pane implements this.
///
/// An implementation keeps, as `events()`, its exchanges so far, and as
/// `interrupted()`, whether Ctrl+C was pressed and not yet cleared.
pub trait LineReader {
    /// The exchanges with the terminal so far, oldest first.
    closed spec fn events(&self) -> Seq<TermEvent> {
        Seq::empty()
    }

    /// Whether Ctrl+C was pressed and the flag not yet cleared.
    closed spec fn interrupted(&self) -> bool {
        false
    }

    /// Read a line of user input. Returns `None` on Ctrl+D (EOF).
    fn read_line(&mut self, prompt: &str) -> (r: Option<String>)
        ensures
            final(self).events() == old(self).events().push(TermEvent::Read { prompt: prompt@, line: opt_chars(r) }),
    ;

    /// Write output text to the terminal.
    fn write_output(&mut self, text: &str)
        ensures
            final(self).events() == old(self).events().push(TermEvent::Write { text: text@ }),
    ;

    /// Check if Ctrl+C was pressed (cancel current operation).
    fn check_interrupt(&self) -> (r: bool)
        ensures
            r == self.interrupted(),
    ;

    /// Clear the interrupt flag.
    fn clear_interrupt(&mut self)
        ensures
            final(self).events() == old(self).events().push(TermEvent::ClearInterrupt),
            !final(self).interrupted(),
    ;
}

/// The main shell state machine.
pub struct Shell {
    /// Environment variables.
    pub env: Environment,
    /// Command history.
    pub history: History,
    /// Prompt generator.
    pub prompt: Prompt,
    /// Tab completer.
    pub completer: TabCompleter,
    /// Last exit code.
    pub last_exit_code: i32,
    /// Whether the shell should keep running.
    pub running: bool,
    /// The agent that natural language goes to; none until one is set.
    pub ai_callback: Option<Box<dyn AiShellCallback>>,
}

impl Shell {
    /// Create a new shell with default settings.
    pub fn new() -> (r: Self)
        ensures
            r.env.vars() == default_vars(),
            r.env.exported() == Set::<Seq<char>>::empty(),
            r.history.entries_view() == Seq::<Seq<char>>::empty(),
            r.history.max() == 1000,
            r.prompt.color(),
            r.prompt.agent() is None,
            r.prompt.custom() is None,
            r.completer.names() == builtin_names(),
            r.last_exit_code == 0,
            r.running,
            r.ai_callback is None,
    {
        let env = Environment::new();
        let history = History::new(1000);
        let prompt = Prompt::new();
        let completer = TabCompleter::new();
        Shell {
            env,
            history,
            prompt,
            completer,
            last_exit_code: 0,
            running: true,
            ai_callback: None,
        }
    }

    /// Set the AI callback for natural language processing.
    pub fn set_ai_callback(&mut self, callback: Box<dyn AiShellCallback>)
        ensures
            final(self).ai_callback == Some(callback),
            final(self).completer == old(self).completer,
            final(self).env == old(self).env,
            final(self).history == old(self).history,
            final(self).prompt == old(self).prompt,
            final(self).last_exit_code == old(self).last_exit_code,
            final(self).running == old(self).running,
    {
        let mut cb = Some(callback);
        std::mem::swap(&mut self.ai_callback, &mut cb);
    }

    /// Set the agent name shown in the prompt.
    pub fn set_agent_name(&mut self, name: Option<String>)
        ensures
            final(self).prompt.agent() == opt_chars(name),
            final(self).prompt.color() == old(self).prompt.color(),
            final(self).prompt.custom() == old(self).prompt.custom(),
            final(self).env == old(self).env,
            final(self).history == old(self).history,
            final(self).last_exit_code == old(self).last_exit_code,
            final(self).running == old(self).running,
    {
        self.prompt.set_agent(name);
    }


    /// Whether `answer` confirms a proposal.
    fn is_confirmation(answer: &str) -> (r: bool)
        ensures
            r == confirms(answer@),
    {
        let t = trim_chars(chars_of(answer).as_slice());
        if t.len() == 1 {
            t[0] == 'y' || t[0] == 'Y'
        } else if t.len() == 3 {
            (t[0] == 'y' || t[0] == 'Y') && (t[1] == 'e' || t[1] == 'E') && (t[2] == 's' || t[2] == 'S')
        } else {
            false
        }
    }

    /// The last `n` history entries, newest first.
    fn recent_history(&self, n: usize) -> (r: Vec<String>)
        ensures
            strings_view(r@) == recent(self.history.entries_view(), n as nat),
    {
        let entries = self.history.entries();
        let len = entries.len();
        let k = if len < n { len } else { n };
        let mut r: Vec<String> = Vec::new();
        let mut i: usize = 0;
        while i < k
            invariant
                strings_view(entries@) == self.history.entries_view(),
                len == entries@.len(),
                k <= len,
                k == (if len < n { len } else { n }),
                i <= k,
                strings_view(r@) == recent(self.history.entries_view(), n as nat).take(i as int),
            decreases k - i,
        {
            let ghost before = strings_view(r@);
            let e = entries[len - 1 - i].clone();
            r.push(e);
            assert(strings_view(r@) =~= before.push(e@));
            assert(recent(self.history.entries_view(), n as nat).take(i + 1) =~= recent(
                self.history.entries_view(),
                n as nat,
            ).take(i as int).push(e@));
            i = i + 1;
        }
        assert(recent(self.history.entries_view(), n as nat).take(i as int) =~= recent(
            self.history.entries_view(),
            n as nat,
        ));
        r
    }

    /// The variables as owned pairs, sorted by name.
    fn owned_vars(&self) -> (r: Vec<(String, String)>)
        ensures
            r@.map_values(|p: (String, String)| (p.0@, p.1@)) == self.env.entries(),
    {
        let all = self.env.all();
        let mut r: Vec<(String, String)> = Vec::new();
        let mut i: usize = 0;
        while i < all.len()
            invariant
                all@.map_values(|p: (&str, &str)| (p.0@, p.1@)) == self.env.entries(),
                i <= all@.len(),
                r@.map_values(|p: (String, String)| (p.0@, p.1@)) == self.env.entries().take(i as int),
            decreases all@.len() - i,
        {
            let (k, v) = all[i];
            let ghost before = r@.map_values(|p: (String, String)| (p.0@, p.1@));
            r.push((String::from_str(k), String::from_str(v)));
            assert(all@.map_values(|p: (&str, &str)| (p.0@, p.1@))[i as int] == (k@, v@));
            assert(r@.map_values(|p: (String, String)| (p.0@, p.1@)) =~= before.push((k@, v@)));
            assert(self.env.entries().take(i + 1) =~= self.env.entries().take(i as int).push((k@, v@)));
            i = i + 1;
        }
        assert(self.env.entries().take(i as int) =~= self.env.entries());
        r
    }

    /// What the agent is told along with a query: the working directory, the
    /// ten newest history entries (newest first) and all variables.
    fn ai_context(&self) -> (r: AiContext)
        ensures
            r.pwd@ == self.env.pwd_spec(),
            strings_view(r.recent_history@) == recent(self.history.entries_view(), 10),
            r.env_vars@.map_values(|p: (String, String)| (p.0@, p.1@)) == self.env.entries(),
    {
        AiContext {
            pwd: String::from_str(self.env.pwd()),
            recent_history: self.recent_history(10),
            env_vars: self.owned_vars(),
        }
    }

    /// Runs confirmed proposed commands, echoing each to the terminal, until one fails.
    #[verifier::rlimit(50)]
    fn run_proposal<V: Vfs + ?Sized, S: SystemInfo + ?Sized, R: LineReader + ?Sized>(
        &mut self,
        commands: &Vec<String>,
        vfs: &mut V,
        sys: &mut S,
        reader: &mut R,
    ) -> (r: (String, i32))
        ensures
            exists|replies: Seq<(Seq<char>, i32)>, envs: Seq<Environment>|
                #[trigger] proposal_run(strings_view(commands@), replies, envs)
                && proposal_output(replies, 0, Seq::empty(), 0) == (r.0@, r.1)
                && envs[0] == old(self).env && envs.last() == final(self).env
                && final(self).running == (old(self).running && no_exit(strings_view(commands@), replies.len() as int))
                && final(reader).events() == old(reader).events() + proposal_events(strings_view(commands@), replies),
            final(self).history == old(self).history,
            final(self).prompt == old(self).prompt,
            final(self).last_exit_code == old(self).last_exit_code,
    {
        let ghost cmds = strings_view(commands@);
        let mut output = String::new();
        let mut last_code: i32 = 0;
        let ghost mut replies: Seq<(Seq<char>, i32)> = Seq::empty();
        let ghost mut envs: Seq<Environment> = seq![self.env];
        let mut i: usize = 0;
        proof {
            reveal_strlit("\n");
        }
        while i < commands.len()
            invariant
                cmds == strings_view(commands@),
                i <= commands@.len(),
                replies.len() == i,
                envs.len() == i + 1,
                envs[0] == old(self).env,
                envs.last() == self.env,
                forall|k: int| #![trigger replies[k]] 0 <= k < replies.len() ==> command_reply(cmds[k], envs[k], envs[k + 1], replies[k]),
                forall|k: int| #![trigger replies[k]] 0 <= k < replies.len() ==> replies[k].1 == 0,
                self.running == (old(self).running && no_exit(cmds, i as int)),
                reader.events() == old(reader).events() + proposal_events(cmds, replies),
                last_code == 0,
                "\n"@ == seq!['\n'],
                forall|rest: Seq<(Seq<char>, i32)>| #[trigger] proposal_output(replies + rest, 0, Seq::empty(), 0)
                    == proposal_output(replies + rest, i as int, output@, last_code),
                self.history == old(self).history,
                self.prompt == old(self).prompt,
                self.last_exit_code == old(self).last_exit_code,
            decreases commands@.len() - i,
        {
            let ghost ev0 = reader.events();
            let ghost env0 = self.env;
            let ghost run0 = self.running;
            let mut echo = String::new();
            push_str(&mut echo, "\x1b[2m$ ");
            push_str(&mut echo, commands[i].as_str());
            push_str(&mut echo, "\x1b[0m\n");
            assert(echo@ == echo_text(cmds[i as int]));
            reader.write_output(echo.as_str());
            let (out, code) = self.execute_command(commands[i].as_str(), vfs, sys);
            let ghost ev1 = reader.events();
            let ghost out0 = output@;
            if !out.as_str().is_empty() {
                reader.write_output(out.as_str());
                let oc = chars_of(out.as_str());
                if oc[oc.len() - 1] != '\n' {
                    reader.write_output("\n");
                }
                push_str(&mut output, out.as_str());
                crate::text::push_char(&mut output, '\n');
            }
            assert(reader.events() == ev1 + output_writes(out@));
            last_code = code;
            proof {
                let reply = (out@, code);
                let new = replies.push(reply);
                let new_envs = envs.push(self.env);
                assert(new.drop_last() =~= replies);
                assert(reader.events() =~= old(reader).events() + proposal_events(cmds, new));
                assert forall|k: int| #![trigger new[k]] 0 <= k < new.len() implies command_reply(cmds[k], new_envs[k], new_envs[k + 1], new[k]) by {
                    if k < replies.len() {
                        assert(new[k] == replies[k]);
                    }
                }
                assert(no_exit(cmds, i + 1) == (no_exit(cmds, i as int) && !is_exit_command(cmds[i as int]))) by {
                    if no_exit(cmds, i as int) && !is_exit_command(cmds[i as int]) {
                        assert forall|k: int| 0 <= k < i + 1 implies !is_exit_command(#[trigger] cmds[k]) by {
                            if k < i {
                                assert(!is_exit_command(cmds[k]));
                            }
                        }
                    }
                }
                if out@.len() > 0 {
                    assert(output@ =~= out0 + out@ + seq!['\n']);
                } else {
                    assert(output@ == out0);
                }
                assert forall|rest: Seq<(Seq<char>, i32)>| #[trigger] proposal_output(new + rest, 0, Seq::empty(), 0)
                    == (if code != 0 { (output@, code) } else { proposal_output(new + rest, i + 1, output@, code) }) by {
                    assert(new + rest =~= replies + (seq![reply] + rest));
                    assert((new + rest)[i as int] == reply);
                }
                replies = new;
                envs = new_envs;
            }
            if code != 0 {
                proof {
                    assert(replies + Seq::<(Seq<char>, i32)>::empty() =~= replies);
                    assert(proposal_output(replies, 0, Seq::empty(), 0) == (output@, last_code));
                    assert(proposal_run(cmds, replies, envs));
                }
                return (output, last_code);
            }
            i = i + 1;
        }
        proof {
            assert(replies + Seq::<(Seq<char>, i32)>::empty() =~= replies);
            assert(proposal_output(replies, 0, Seq::empty(), 0) == (output@, last_code));
            assert(proposal_run(cmds, replies, envs));
        }
        (output, last_code)
    }

    /// Execute a natural language query through the AI.
    fn execute_natural_language<V: Vfs + ?Sized, S: SystemInfo + ?Sized, R: LineReader + ?Sized>(
        &mut self,
        input: &str,
        vfs: &mut V,
        sys: &mut S,
        reader: &mut R,
    ) -> (r: (String, i32))
        ensures
            query_reply(
                if (old(self).ai_callback is Some && old(self).ai_callback->Some_0.available()) {
                    old(self).ai_callback->Some_0.reply(input@, ai_context_view(old(self).env, old(self).history.entries_view()))
                } else {
                    Err(unavailable_message())
                },
                old(self).env,
                final(self).env,
                old(self).running,
                final(self).running,
                old(reader).events(),
                final(reader).events(),
                (r.0@, r.1),
            ),
            final(self).history == old(self).history,
            final(self).prompt == old(self).prompt,
            final(self).last_exit_code == old(self).last_exit_code,
    {
        let ghost answer = if (self.ai_callback is Some && self.ai_callback->Some_0.available()) {
            self.ai_callback->Some_0.reply(input@, ai_context_view(self.env, self.history.entries_view()))
        } else {
            Err(unavailable_message())
        };
        let context = self.ai_context();
        assert(context_view(context) == ai_context_view(self.env, self.history.entries_view()));
        let ghost avail = (self.ai_callback is Some && self.ai_callback->Some_0.available());
        let ghost rep = self.ai_callback->Some_0.reply(input@, context_view(context));
        assert(answer == (if avail { rep } else { Err(unavailable_message()) }));
        let mut agent: Option<Box<dyn AiShellCallback>> = None;
        std::mem::swap(&mut agent, &mut self.ai_callback);
        let asked = match agent {
            Some(mut cb) => {
                let a = process_natural_language(input, &context, &mut *cb);
                self.ai_callback = Some(cb);
                a
            },
            None => {
                proof {
                    reveal_strlit("AI assistant not available. Is an agent session active?");
                }
                Err(String::from_str("AI assistant not available. Is an agent session active?"))
            },
        };
        let proposal = match asked {
            Ok(p) => p,
            Err(e) => {
                let r = (e, 1i32);
                assert(!avail ==> e@ == unavailable_message());
                assert(avail ==> rep == Err::<ProposalView, Seq<char>>(e@));
                assert(answer == Err::<ProposalView, Seq<char>>(r.0@));
                return r;
            },
        };
        let ghost pv = proposal_view(proposal);
        assert(answer == Ok::<ProposalView, Seq<char>>(pv));
        let ghost cmds = strings_view(proposal.commands@);
        assert(cmds =~= pv.1);
        let ghost p: Result<Seq<Seq<char>>, Seq<char>> = Ok(cmds);
        let ghost ev0 = reader.events();
        // Display proposal and ask for confirmation
        let display = format_proposal(&proposal);
        assert(proposal.commands@.map_values(|s: String| s@) =~= pv.1);
        assert(display@ == format_proposal_spec(pv.0, pv.1));
        reader.write_output(display.as_str());
        proof {
            reveal_strlit("");
        }
        let confirmation = match reader.read_line("") {
            Some(line) => line,
            None => {
                let r = (String::from_str("Cancelled."), 1i32);
                proof {
                    let e: Seq<(Seq<char>, i32)> = Seq::empty();
                    assert(ai_reply(Ok(pv.1), None, e) == (r.0@, r.1));
                    assert(""@ =~= Seq::<char>::empty());
                    assert(reader.events() =~= old(reader).events() + seq![
                        TermEvent::Write { text: format_proposal_spec(pv.0, pv.1) },
                        TermEvent::Read { prompt: Seq::empty(), line: None },
                    ] + proposal_events(pv.1, e));
                    assert(answered_reply(pv, old(self).env, self.env, old(self).running, self.running, old(reader).events(), reader.events(), (r.0@, r.1)));
                }
                return r;
            },
        };
        let ghost line: Option<Seq<char>> = Some(confirmation@);
        proof {
            reveal_strlit("");
            assert(""@ =~= Seq::<char>::empty());
        }
        let ghost ev1 = reader.events();
        assert(ev1 =~= ev0 + seq![
            TermEvent::Write { text: format_proposal_spec(pv.0, pv.1) },
            TermEvent::Read { prompt: Seq::empty(), line },
        ]);
        if !Self::is_confirmation(confirmation.as_str()) {
            let r = (String::from_str("Cancelled."), 0i32);
            proof {
                let e: Seq<(Seq<char>, i32)> = Seq::empty();
                assert(ai_reply(Ok(pv.1), line, e) == (r.0@, r.1));
                assert(reader.events() =~= ev1 + proposal_events(pv.1, e));
                let envs: Seq<Environment> = seq![self.env];
                assert(envs.len() == 1);
            }
            return r;
        }
        let r = self.run_proposal(&proposal.commands, vfs, sys, reader);
        proof {
            let (replies, envs) = choose|replies: Seq<(Seq<char>, i32)>, envs: Seq<Environment>|
                #[trigger] proposal_run(cmds, replies, envs)
                && proposal_output(replies, 0, Seq::empty(), 0) == (r.0@, r.1)
                && envs[0] == old(self).env && envs.last() == self.env
                && self.running == (old(self).running && no_exit(cmds, replies.len() as int))
                && reader.events() == ev1 + proposal_events(cmds, replies);
            assert(ai_reply(Ok(pv.1), line, replies) == (r.0@, r.1));
            assert(envs.len() == replies.len() + 1);
        }
        r
    }

    /// Execute a single input line (command or natural language).
    /// Returns (output_text, exit_code).
    pub fn execute_input<V: Vfs + ?Sized, S: SystemInfo + ?Sized, R: LineReader + ?Sized>(
        &mut self,
        input: &str,
        vfs: &mut V,
        sys: &mut S,
        reader: &mut R,
    ) -> (r: (String, i32))
        ensures
            input_reply(
                input@,
                old(self).last_exit_code,
                (old(self).ai_callback is Some && old(self).ai_callback->Some_0.available()),
                |q: Seq<char>| old(self).ai_callback->Some_0.reply(q, ai_context_view(old(self).env, old(self).history.entries_view())),
                old(self).env,
                final(self).env,
                old(self).running,
                final(self).running,
                old(reader).events(),
                final(reader).events(),
                (r.0@, r.1),
            ),
            input_io(input@, old(self).last_exit_code, old(self).env, old(vfs), final(vfs), old(sys), final(sys), (r.0@, r.1)),
            final(self).history == old(self).history,
            final(self).prompt == old(self).prompt,
            final(self).last_exit_code == old(self).last_exit_code,
    {
        // Expand environment variables, `$?` standing for the last exit code
        let status = i32_to_string(self.last_exit_code);
        let expanded = self.env.expand_vars_with_status(input, status.as_str());
        // A request after `ask` or `agent` goes to the agent
        if let Some(request) = agent_request_exec(expanded.as_str()) {
            proof {
                reveal_strlit("ask ");
                reveal_strlit("agent ");
                assert(trim(expanded@).len() > 0);
            }
            return self.execute_natural_language(request.as_str(), vfs, sys, reader);
        }
        // Classify: command or natural language?
        match classify_input(expanded.as_str()) {
            InputKind::Empty => (String::new(), 0),
            InputKind::Command => self.execute_command(expanded.as_str(), vfs, sys),
            InputKind::NaturalLanguage => self.execute_natural_language(expanded.as_str(), vfs, sys, reader),
        }
    }

    /// Handles one line read from the user: blank lines do nothing; any other
    /// line goes into the history; if Ctrl+C was pressed meanwhile, the flag is
    /// cleared and `^C` shown, and nothing runs; otherwise the line runs, its
    /// output is written (ending with a newline), its exit code kept, and
    /// `exit` stops the shell. Returns whether the line ran.
    pub fn handle_line<V: Vfs + ?Sized, S: SystemInfo + ?Sized, R: LineReader + ?Sized>(
        &mut self,
        line: &str,
        vfs: &mut V,
        sys: &mut S,
        reader: &mut R,
    ) -> (r: bool)
        requires
            old(self).history.max() > 0 || trim(line@).len() == 0,
        ensures
            final(self).history.entries_view() == history_after_push(
                old(self).history.entries_view(),
                old(self).history.max(),
                line@,
            ),
            final(self).history.max() == old(self).history.max(),
            final(self).prompt == old(self).prompt,
            r == (trim(line@).len() > 0 && !old(reader).interrupted()),
            trim(line@).len() == 0 ==> *final(self) == *old(self) && final(reader).events() == old(reader).events(),
            !r ==> final(self).env == old(self).env && final(self).running == old(self).running
                && final(self).last_exit_code == old(self).last_exit_code,
            !r ==> &*final(vfs) == &*old(vfs) && &*final(sys) == &*old(sys),
            trim(line@).len() > 0 && old(reader).interrupted() ==> final(reader).events() == old(reader).events()
                + seq![TermEvent::ClearInterrupt, TermEvent::Write { text: "^C\n"@ }],
            r ==> exists|o: ((Seq<char>, i32), bool, Seq<TermEvent>)|
                #![trigger output_writes(o.0.0)]
                input_reply(
                    trim(line@),
                    old(self).last_exit_code,
                    (old(self).ai_callback is Some && old(self).ai_callback->Some_0.available()),
                    |q: Seq<char>| old(self).ai_callback->Some_0.reply(q, ai_context_view(old(self).env, final(self).history.entries_view())),
                    old(self).env,
                    final(self).env,
                    old(self).running,
                    o.1,
                    old(reader).events(),
                    o.2,
                    o.0,
                )
                && input_io(trim(line@), old(self).last_exit_code, old(self).env, old(vfs), final(vfs), old(sys), final(sys), o.0)
                && final(reader).events() == o.2 + output_writes(o.0.0)
                && final(self).last_exit_code == o.0.1
                && final(self).running == (o.1 && trim(line@) != "exit"@),
            r && trim(line@) == "exit"@ ==> !final(self).running,
    {
        let trimmed = trim_str(line);
        if trimmed.is_empty() {
            return false;
        }
        // Add to history
        self.history.push(trimmed);
        proof {
            crate::text::law_trim_idempotent(line@);
        }
        // Check for interrupt
        if reader.check_interrupt() {
            reader.clear_interrupt();
            reader.write_output("^C\n");
            return false;
        }
        // Execute the input
        let ghost avail = (self.ai_callback is Some && self.ai_callback->Some_0.available());
        let ghost ctx = ai_context_view(self.env, self.history.entries_view());
        let ghost reply_fn = |q: Seq<char>| self.ai_callback->Some_0.reply(q, ctx);
        let ghost ev0 = reader.events();
        let (output, exit_code) = self.execute_input(trimmed, vfs, sys, reader);
        let ghost reply = (output@, exit_code);
        let ghost running = self.running;
        let ghost events = reader.events();
        assert(input_reply(trim(line@), old(self).last_exit_code, avail, reply_fn, old(self).env, self.env, old(self).running, running, ev0, events, reply));
        self.last_exit_code = exit_code;
        proof {
            reveal_strlit("\n");
            assert("\n"@ =~= seq!['\n']);
        }
        if !output.as_str().is_empty() {
            reader.write_output(output.as_str());
            let oc = chars_of(output.as_str());
            if oc[oc.len() - 1] != '\n' {
                reader.write_output("\n");
                assert(reader.events() =~= events + output_writes(reply.0));
            } else {
                assert(reader.events() =~= events + output_writes(reply.0));
            }
        } else {
            assert(reader.events() =~= events + output_writes(reply.0));
        }
        // Check if we should exit
        if str_eq(trimmed, "exit") {
            self.running = false;
        }
        proof {
            reveal_strlit("exit");
        }
        assert(input_reply(trim(line@), old(self).last_exit_code, avail, reply_fn, old(self).env, self.env, old(self).running, running, ev0, events, reply));
        let ghost o = (reply, running, events);
        assert(reader.events() == o.2 + output_writes(o.0.0));
        true
    }

    /// Run the startup rc file (/etc/claudio.rc) if it exists: its script runs
    /// line by line as commands, its output is written, and a parse error is
    /// reported as `shell-nostd: error in /etc/claudio.rc: <error>`.
    #[verifier::spinoff_prover]
    pub fn run_startup_rc<V: Vfs + ?Sized, S: SystemInfo + ?Sized, R: LineReader + ?Sized>(
        &mut self,
        vfs: &mut V,
        sys: &mut S,
        reader: &mut R,
    )
        ensures
            final(self).history == old(self).history,
            final(self).prompt == old(self).prompt,
            final(self).last_exit_code == old(self).last_exit_code,
            !(old(vfs).present(rc_path()) && old(vfs).file(rc_path()) is Ok) ==> final(self).env == old(self).env
                && final(self).running == old(self).running && final(reader).events() == old(reader).events()
                && &*final(vfs) == &*old(vfs) && &*final(sys) == &*old(sys),
            old(vfs).present(rc_path()) && old(vfs).file(rc_path()) is Ok
                && parse_script_spec(utf8_lossy(old(vfs).file(rc_path())->Ok_0)) is Err ==> &*final(vfs) == &*old(vfs) && &*final(sys) == &*old(sys),
            old(vfs).present(rc_path()) && old(vfs).file(rc_path()) is Ok ==> match parse_script_spec(
                utf8_lossy(old(vfs).file(rc_path())->Ok_0),
            ) {
                Err(e) => final(self).env == old(self).env && final(self).running == old(self).running
                    && final(reader).events() == old(reader).events().push(TermEvent::Write { text: rc_error_text(e) }),
                Ok(stmts) => rc_ran(stmts, old(self).env, final(self).env, old(self).running, final(self).running, old(reader).events(), final(reader).events()),
            },
    {
        proof {
            reveal_strlit("/etc/claudio.rc");
        }
        if !vfs.path_exists("/etc/claudio.rc") {
            return;
        }
        match vfs.read_file("/etc/claudio.rc") {
            Ok(data) => {
                let content = from_utf8_lossy(data.as_slice());
                match parse_script(content.as_str()) {
                    Ok(parsed) => {
                        let ghost env0 = self.env;
                        let ghost run0 = self.running;
                        let ghost mut p_w: Answers = Seq::empty();
                        let ghost mut calls_w: Seq<ScriptCall> = Seq::empty();
                        let ghost mut envs_w: Seq<Environment> = Seq::empty();
                        let ghost mut runs_w: Seq<bool> = Seq::empty();
                        let mut taken = Environment::new();
                        std::mem::swap(&mut taken, &mut self.env);
                        let (output, code) = {
                            let mut executor = ShellScriptExecutor {
                                env: taken,
                                running: self.running,
                                vfs,
                                sys,
                                log: Ghost(Seq::empty()),
                                start: Ghost((env0, run0)),
                            };
                            proof {
                                let envs: Seq<Environment> = seq![env0];
                                let runs: Seq<bool> = seq![run0];
                                assert(script_chain(executor.log@, envs, runs));
                                assert(executor.consistent());
                                assert(executor.origin() == (env0, run0));
                            }
                            let r = ScriptRunner::run(&parsed, &mut executor);
                            proof {
                                let (p, calls) = choose|p: Answers, calls: Seq<ScriptCall>|
                                    #[trigger] script_runs_as(stmts_view(parsed.statements@), p, r.0@, r.1, calls)
                                    && executor.calls() == Seq::<ScriptCall>::empty() + calls;
                                assert(Seq::<ScriptCall>::empty() + calls =~= calls);
                                assert(executor.consistent());
                                let (envs, runs) = choose|envs: Seq<Environment>, runs: Seq<bool>|
                                    #[trigger] script_chain(executor.log@, envs, runs) && envs[0] == env0 && runs[0] == run0
                                    && envs.last() == executor.env && runs.last() == executor.running;
                                p_w = p;
                                calls_w = calls;
                                envs_w = envs;
                                runs_w = runs;
                            }
                            let ShellScriptExecutor { env: env1, running: running1, .. } = executor;
                            self.env = env1;
                            self.running = running1;
                            r
                        };
                        let ghost ev0 = reader.events();
                        if !output.as_str().is_empty() {
                            reader.write_output(output.as_str());
                        }
                        assert(reader.events() =~= ev0 + rc_output_writes(output@));
                        assert(data@ == old(vfs).file(rc_path())->Ok_0);
                        assert(parse_script_spec(utf8_lossy(old(vfs).file(rc_path())->Ok_0))
                            == Ok::<Seq<StmtSpec>, Seq<char>>(stmts_view(parsed.statements@)));
                        assert(rc_ran(stmts_view(parsed.statements@), old(self).env, self.env, old(self).running, self.running, old(reader).events(), reader.events()));
                    },
                    Err(e) => {
                        let mut msg = String::new();
                        push_str(&mut msg, "shell-nostd: error in /etc/claudio.rc: ");
                        push_str(&mut msg, e.as_str());
                        push_str(&mut msg, "\n");
                        assert(msg@ == rc_error_text(e@));
                        reader.write_output(msg.as_str());
                    },
                }
            },
            Err(_) => {},
        }
    }

    /// Execute a traditional shell command (may be a pipeline).
    fn execute_command<V: Vfs + ?Sized, S: SystemInfo + ?Sized>(
        &mut self,
        input: &str,
        vfs: &mut V,
        sys: &mut S,
    ) -> (r: (String, i32))
        ensures
            command_reply(input@, old(self).env, final(self).env, (r.0@, r.1)),
            command_io(input@, old(self).env, old(vfs), final(vfs), old(sys), final(sys), (r.0@, r.1)),
            final(self).running == (old(self).running && !is_exit_command(input@)),
            final(self).history == old(self).history,
            final(self).prompt == old(self).prompt,
            final(self).last_exit_code == old(self).last_exit_code,
    {
        run_command(&mut self.env, &mut self.running, input, vfs, sys)
    }
}

impl Default for Shell {
    fn default() -> (r: Self)
        ensures
            r.env.vars() == default_vars(),
            r.env.exported() == Set::<Seq<char>>::empty(),
            r.history.entries_view() == Seq::<Seq<char>>::empty(),
            r.history.max() == 1000,
            r.last_exit_code == 0,
            r.running,
    {
        Self::new()
    }
}

/// The request that `ask REQUEST` or `agent REQUEST` hands to the agent.
fn agent_request_exec(input: &str) -> (r: Option<String>)
    ensures
        r matches Some(q) ==> agent_request(input@) == Some(q@),
        r is None ==> agent_request(input@) is None,
{
    proof {
        reveal_strlit("ask ");
        reveal_strlit("agent ");
    }
    let chars = chars_of(input);
    let t = trim_chars(chars.as_slice());
    let ask = chars_of("ask ");
    let agent = chars_of("agent ");
    let skip: usize = if starts_with_exec(t.as_slice(), ask.as_slice()) {
        4
    } else if starts_with_exec(t.as_slice(), agent.as_slice()) {
        6
    } else {
        return None;
    };
    let rest = chars_range(t.as_slice(), skip, t.len());
    assert(rest@ =~= t@.skip(skip as int));
    let q = trim_chars(rest.as_slice());
    if q.len() == 0 {
        if skip == 4 {
            assert(!starts_with(t@, "agent "@)) by {
                if starts_with(t@, "agent "@) {
                    assert(t@.take(6)[1] == "agent "@[1]);
                    assert(t@.take(4)[1] == "ask "@[1]);
                    assert(t@.take(6)[1] == t@[1] && t@.take(4)[1] == t@[1]);
                }
            }
        }
        return None;
    }
    Some(string_of(q.as_slice()))
}

/// The reply to `text` as the output of a command: code 0 for an answer,
/// code 1 for an error, and code 127 when there is no such builtin.
fn reply_of(name: &str, result: Option<Result<String, String>>) -> (r: (String, i32))
    ensures
        (r.0@, r.1) == single_reply(name@, opt_answer(result)),
{
    match result {
        Some(Ok(out)) => (out, 0),
        Some(Err(e)) => (e, 1),
        None => {
            let mut msg = String::new();
            push_str(&mut msg, name);
            push_str(&mut msg, ": command not found");
            (msg, 127)
        },
    }
}

/// Runs the input `input` against `env`: each command line that `;`
/// separates in it runs in turn; a lone `exit` clears `running`.
#[verifier::rlimit(80)]
fn run_command<V: Vfs + ?Sized, S: SystemInfo + ?Sized>(
    env: &mut Environment,
    running: &mut bool,
    input: &str,
    vfs: &mut V,
    sys: &mut S,
) -> (r: (String, i32))
    ensures
        command_reply(input@, *old(env), *final(env), (r.0@, r.1)),
        command_io(input@, *old(env), old(vfs), final(vfs), old(sys), final(sys), (r.0@, r.1)),
        *final(running) == (*old(running) && !is_exit_command(input@)),
{
    let lines = split_command_lines(input);
    let ghost ls = command_lines(input@);
    let mut out = String::new();
    let mut code: i32 = 0;
    let ghost mut replies: Seq<(Seq<char>, i32)> = Seq::empty();
    let ghost mut envs: Seq<Environment> = seq![*env];
    let ghost mut vs: Seq<&V> = seq![&*vfs];
    let ghost mut ss: Seq<&S> = seq![&*sys];
    let mut i: usize = 0;
    proof {
        assert forall|rest: Seq<(Seq<char>, i32)>| #[trigger] lines_output(ls, replies + rest, 0, Seq::empty(), 0)
            == lines_output(ls, replies + rest, i as int, out@, code) by {}
    }
    while i < lines.len()
        invariant
            strings_view(lines@) == ls,
            i <= ls.len(),
            replies.len() == i,
            envs.len() == i + 1,
            envs[0] == *old(env),
            envs.last() == *env,
            forall|k: int| #![trigger replies[k]] 0 <= k < i ==> line_step(ls[k], envs[k], envs[k + 1], replies[k]),
            *running == (*old(running) && !has_exit(ls, i as int)),
            forall|rest: Seq<(Seq<char>, i32)>| #[trigger] lines_output(ls, replies + rest, 0, Seq::empty(), 0)
                == lines_output(ls, replies + rest, i as int, out@, code),
            lines_io(ls.take(i as int), envs, replies, vs, ss),
            vs[0] == &*old(vfs) && vs.last() == &*vfs && ss[0] == &*old(sys) && ss.last() == &*sys,
        decreases ls.len() - i,
    {
        let line = lines[i].as_str();
        assert(line@ == ls[i as int]);
        let ghost out0 = out@;
        let ghost env0 = *env;
        let ghost run0 = *running;
        let ghost v0: &V = &*vfs;
        let ghost s0: &S = &*sys;
        let blank = trim_str(line).is_empty();
        assert(blank == (trim(ls[i as int]).len() == 0));
        let ghost reply: (Seq<char>, i32);
        if blank {
            proof {
                reply = (Seq::empty(), code);
            }
        } else {
            let (o, c) = run_line(env, running, line, vfs, sys);
            if !o.as_str().is_empty() {
                if !out.as_str().is_empty() {
                    crate::text::push_char(&mut out, '\n');
                }
                push_str(&mut out, o.as_str());
            }
            code = c;
            proof {
                reply = (o@, c);
                if o@.len() == 0 {
                    assert(out@ == out0);
                } else if out0.len() == 0 {
                    assert(out@ =~= o@);
                } else {
                    assert(out@ =~= out0 + seq!['\n'] + o@);
                }
            }
        }
        proof {
            let new = replies.push(reply);
            let new_envs = envs.push(*env);
            let new_vs = vs.push(&*vfs);
            let new_ss = ss.push(&*sys);
            let lt = ls.take(i + 1);
            assert forall|k: int| #![trigger new_vs[k]] 0 <= k < lt.len() implies (if trim(lt[k]).len() == 0 {
                new_vs[k + 1].changes() == new_vs[k].changes() && new_ss[k + 1].actions() == new_ss[k].actions()
            } else {
                line_io(lt[k], new_envs[k], new_vs[k], new_vs[k + 1], new_ss[k], new_ss[k + 1], new[k])
            }) by {
                if k < i {
                    assert(lt[k] == ls.take(i as int)[k]);
                    assert(vs[k] == new_vs[k] && vs[k + 1] == new_vs[k + 1]);
                    assert(ss[k] == new_ss[k] && ss[k + 1] == new_ss[k + 1]);
                    assert(new[k] == replies[k] && new_envs[k] == envs[k]);
                } else {
                    assert(lt[k] == ls[i as int]);
                    assert(new_vs[k] == v0 && new_vs[k + 1] == &*vfs);
                    assert(new_ss[k] == s0 && new_ss[k + 1] == &*sys);
                    assert(new[k] == reply && new_envs[k] == env0);
                }
            }
            assert(lines_io(lt, new_envs, new, new_vs, new_ss));
            vs = new_vs;
            ss = new_ss;
            assert forall|rest: Seq<(Seq<char>, i32)>| #[trigger] lines_output(ls, new + rest, 0, Seq::empty(), 0)
                == lines_output(ls, new + rest, i + 1, out@, code) by {
                assert(new + rest =~= replies + (seq![reply] + rest));
                assert((new + rest)[i as int] == reply);
            }
            assert forall|k: int| #![trigger new[k]] 0 <= k < i + 1 implies line_step(ls[k], new_envs[k], new_envs[k + 1], new[k]) by {
                if k < i {
                    assert(new[k] == replies[k]);
                    assert(new_envs[k] == envs[k] && new_envs[k + 1] == envs[k + 1]);
                } else {
                    assert(new[k] == reply);
                    assert(new_envs[k] == env0);
                    assert(new_envs[k + 1] == *env);
                }
            }
            assert(has_exit(ls, i + 1) == (has_exit(ls, i as int) || (trim(ls[i as int]).len() > 0 && is_lone_exit(ls[i as int])))) by {
                if has_exit(ls, i + 1) {
                    let k = choose|k: int| 0 <= k < i + 1 && trim(ls[k]).len() > 0 && is_lone_exit(#[trigger] ls[k]);
                    if k < i {
                        assert(has_exit(ls, i as int));
                    }
                }
                if has_exit(ls, i as int) {
                    let k = choose|k: int| 0 <= k < i && trim(ls[k]).len() > 0 && is_lone_exit(#[trigger] ls[k]);
                    assert(0 <= k < i + 1 && trim(ls[k]).len() > 0 && is_lone_exit(ls[k]));
                }
                if trim(ls[i as int]).len() > 0 && is_lone_exit(ls[i as int]) {
                    assert(0 <= i < i + 1 && trim(ls[i as int]).len() > 0 && is_lone_exit(ls[i as int]));
                }
            }
            replies = new;
            envs = new_envs;
        }
        i = i + 1;
    }
    proof {
        assert(lines@.len() == ls.len());
        assert(i == ls.len());
        assert(replies + Seq::<(Seq<char>, i32)>::empty() =~= replies);
        assert(lines_output(ls, replies, 0, Seq::empty(), 0) == (out@, code));
        assert(envs.len() == ls.len() + 1);
        assert(replies.len() == ls.len());
        assert(envs[0] == *old(env) && envs.last() == *env);
        assert(lines_ran(ls, *old(env), *env, (out@, code)));
        assert(ls.take(i as int) =~= ls);
        assert(lines_io(ls, envs, replies, vs, ss));
        assert(command_io(input@, *old(env), old(vfs), &*vfs, old(sys), &*sys, (out@, code)));
    }
    (out, code)
}

/// Runs the command line `input` (no `;` in it) against `env`; a lone
/// `exit` clears `running`.
fn run_line<V: Vfs + ?Sized, S: SystemInfo + ?Sized>(
    env: &mut Environment,
    running: &mut bool,
    input: &str,
    vfs: &mut V,
    sys: &mut S,
) -> (r: (String, i32))
    ensures
        line_reply(input@, *old(env), *final(env), (r.0@, r.1)),
        line_io(input@, *old(env), old(vfs), final(vfs), old(sys), final(sys), (r.0@, r.1)),
        *final(running) == (*old(running) && !is_lone_exit(input@)),
{
    let pipeline = match Pipeline::parse(input) {
        Ok(p) => p,
        Err(e) => {
            let mut msg = String::new();
            push_str(&mut msg, "shell-nostd: parse error: ");
            push_str(&mut msg, e.message());
            return (msg, 1);
        },
    };
    let ghost cmds = pipeline@;
    // For single commands, try builtins first
    if pipeline.is_single() {
        let cmd = &pipeline.commands[0];
        assert(cmds[0] == cmd@);
        if str_eq(cmd.name.as_str(), "exit") {
            *running = false;
            return (String::new(), 0);
        }
        if cmd.stdin_redirect.is_none() && cmd.stdout_redirect.is_none() {
        let result = execute_builtin(
            cmd.name.as_str(),
            cmd.args.as_slice(),
            None,
            env,
            vfs,
            sys,
        );
        let ghost a = opt_answer(result);
        let r = reply_of(cmd.name.as_str(), result);
        assert(single_reply(cmds[0].name, a) == (r.0@, r.1));
        return r;
        }
    }
    // Pipeline execution
    let ghost env0 = *env;
    let mut taken = Environment::new();
    std::mem::swap(&mut taken, env);
    let ghost mut ans_w: Seq<StepAnswers> = Seq::empty();
    let ghost mut envs_w: Seq<Environment> = Seq::empty();
    let output = {
        let mut executor = ShellCommandExecutor { env: taken, vfs, sys, log: Ghost(Seq::empty()), start: Ghost(env0) };
        proof {
            let envs: Seq<Environment> = seq![env0];
            assert(exec_chain(executor.log@, envs));
            assert(executor.consistent());
        }
        let out = PipelineExecutor::execute(&pipeline, &mut executor);
        proof {
            let ans = choose|ans: Seq<StepAnswers>|
                #[trigger] pipeline_outcome(pipeline@, ans) == out@
                && answers_suffice(pipeline@, 0, ans)
                && executor.calls() == Seq::<ExecCall>::empty() + pipeline_calls(pipeline@, ans);
            assert(Seq::<ExecCall>::empty() + pipeline_calls(pipeline@, ans) =~= pipeline_calls(pipeline@, ans));
            let envs = choose|envs: Seq<Environment>|
                #[trigger] exec_chain(executor.log@, envs) && envs[0] == env0 && envs.last() == executor.env;
            ans_w = ans;
            envs_w = envs;
        }
        let ShellCommandExecutor { env: env1, .. } = executor;
        *env = env1;
        out
    };
    let text = if output.stderr.len() > 0 {
        let mut combined = output.stderr_str();
        let stdout = output.stdout_str();
        if !stdout.as_str().is_empty() {
            crate::text::push_char(&mut combined, '\n');
            push_str(&mut combined, stdout.as_str());
        }
        combined
    } else {
        output.stdout_str()
    };
    proof {
        let ans = choose|ans: Seq<StepAnswers>| #[trigger] pipeline_outcome(cmds, ans) == output@;
        assert(text@ == pipeline_text(pipeline_outcome(cmds, ans)));
    }
    (text, output.exit_code)
}

/// Adapter that implements `CommandExecutor` for pipeline execution,
/// delegating to builtins and VFS.
struct ShellCommandExecutor<'a, V: Vfs + ?Sized, S: SystemInfo + ?Sized> {
    env: Environment,
    vfs: &'a mut V,
    sys: &'a mut S,
    log: Ghost<Seq<ExecCall>>,
    start: Ghost<Environment>,
}

impl<'a, V: Vfs + ?Sized, S: SystemInfo + ?Sized> ShellCommandExecutor<'a, V, S> {
    /// The environment the commands run in.
    pub closed spec fn environment(&self) -> Environment {
        self.env
    }
}

impl<'a, V: Vfs + ?Sized, S: SystemInfo + ?Sized> CommandExecutor<Environment> for ShellCommandExecutor<'a, V, S> {
    /// The environment the commands started from.
    closed spec fn origin(&self) -> Environment {
        self.start@
    }

    /// The calls so far took the environment from where it started to where it is.
    closed spec fn consistent(&self) -> bool {
        exists|envs: Seq<Environment>|
            #[trigger] exec_chain(self.log@, envs) && envs[0] == self.start@ && envs.last() == self.env
    }

    closed spec fn calls(&self) -> Seq<ExecCall> {
        self.log@
    }

    closed spec fn file(&self, path: Seq<char>) -> Result<Seq<u8>, Seq<char>> {
        self.vfs.file(path)
    }

    fn execute(&mut self, name: &str, args: &[String], stdin: Option<&[u8]>) -> (r: CommandOutput)
        ensures
            exists|a: Option<Answer>|
                builtin_effect(name@, strings_view(args@), opt_bytes(stdin), old(self).environment(), final(self).environment(), a)
                && #[trigger] executor_output(name@, a) == r@,
    {
        let ghost env0 = self.env;
        let result = execute_builtin(name, args, stdin, &mut self.env, &mut *self.vfs, &mut *self.sys);
        let ghost a = opt_answer(result);
        let r = match result {
            Some(Ok(output)) => CommandOutput::success(output.as_str().as_bytes_vec()),
            Some(Err(e)) => CommandOutput::error(e.as_str(), 1),
            None => {
                let mut msg = String::new();
                push_str(&mut msg, name);
                push_str(&mut msg, ": command not found");
                CommandOutput::error(msg.as_str(), 127)
            },
        };
        assert(builtin_effect(name@, strings_view(args@), opt_bytes(stdin), env0, self.env, a));
        assert(executor_output(name@, a) == r@);
        let ghost call = ExecCall::Run { name: name@, args: strings_view(args@), stdin: opt_bytes(stdin), output: r@ };
        self.log = Ghost(self.log@.push(call));
        proof {
            if old(self).consistent() {
                let envs = choose|envs: Seq<Environment>|
                    #[trigger] exec_chain(old(self).log@, envs) && envs[0] == self.start@ && envs.last() == env0;
                assert(builtin_effect(name@, strings_view(args@), opt_bytes(stdin), envs.last(), self.env, a));
                assert(executor_output(name@, a) == r@);
                assert(call is Run);
                assert(call->Run_name == name@ && call->Run_args == strings_view(args@) && call->Run_stdin == opt_bytes(stdin) && call->Run_output == r@);
                assert(exists|a2: Option<Answer>|
                    builtin_effect(call->Run_name, call->Run_args, call->Run_stdin, envs.last(), self.env, a2)
                    && #[trigger] executor_output(call->Run_name, a2) == call->Run_output);
                assert(exec_step(call, envs.last(), self.env));
                lemma_exec_chain_push(old(self).log@, envs, call, self.env);
                assert(exec_chain(self.log@, envs.push(self.env)));
                assert(self.consistent());
            }
        }
        r
    }

    fn read_file(&mut self, path: &str) -> (r: Result<Vec<u8>, String>) {
        let r = self.vfs.read_file(path);
        let ghost call = ExecCall::Read { path: path@, result: bytes_answer(r) };
        self.log = Ghost(self.log@.push(call));
        proof {
            if old(self).consistent() {
                let envs = choose|envs: Seq<Environment>|
                    #[trigger] exec_chain(old(self).log@, envs) && envs[0] == self.start@ && envs.last() == self.env;
                assert(exec_step(call, envs.last(), self.env));
                lemma_exec_chain_push(old(self).log@, envs, call, self.env);
                assert(exec_chain(self.log@, envs.push(self.env)));
                assert(self.consistent());
            }
        }
        r
    }

    fn write_file(&mut self, path: &str, data: &[u8]) -> (r: Result<(), String>) {
        let r = self.vfs.write_file(path, data);
        let ghost call = ExecCall::Write { path: path@, data: data@, append: false, answer: unit_answer(r) };
        self.log = Ghost(self.log@.push(call));
        proof {
            if old(self).consistent() {
                let envs = choose|envs: Seq<Environment>|
                    #[trigger] exec_chain(old(self).log@, envs) && envs[0] == self.start@ && envs.last() == self.env;
                lemma_exec_chain_push(old(self).log@, envs, call, self.env);
                assert(exec_chain(self.log@, envs.push(self.env)));
                assert(self.consistent());
            }
        }
        r
    }

    fn append_file(&mut self, path: &str, data: &[u8]) -> (r: Result<(), String>) {
        let r = self.vfs.append_file(path, data);
        let ghost call = ExecCall::Write { path: path@, data: data@, append: true, answer: unit_answer(r) };
        self.log = Ghost(self.log@.push(call));
        proof {
            if old(self).consistent() {
                let envs = choose|envs: Seq<Environment>|
                    #[trigger] exec_chain(old(self).log@, envs) && envs[0] == self.start@ && envs.last() == self.env;
                lemma_exec_chain_push(old(self).log@, envs, call, self.env);
                assert(exec_chain(self.log@, envs.push(self.env)));
                assert(self.consistent());
            }
        }
        r
    }
}

/// Adapter that implements `ScriptExecutor` for rc file execution.
struct ShellScriptExecutor<'a, V: Vfs + ?Sized, S: SystemInfo + ?Sized> {
    env: Environment,
    running: bool,
    vfs: &'a mut V,
    sys: &'a mut S,
    log: Ghost<Seq<ScriptCall>>,
    start: Ghost<(Environment, bool)>,
}

impl<'a, V: Vfs + ?Sized, S: SystemInfo + ?Sized> ShellScriptExecutor<'a, V, S> {
    /// The environment the script runs in.
    pub closed spec fn environment(&self) -> Environment {
        self.env
    }

    /// Whether the shell is still to keep running.
    pub closed spec fn is_running(&self) -> bool {
        self.running
    }
}

impl<'a, V: Vfs + ?Sized, S: SystemInfo + ?Sized> ScriptExecutor<(Environment, bool)> for ShellScriptExecutor<'a, V, S> {
    closed spec fn calls(&self) -> Seq<ScriptCall> {
        self.log@
    }

    /// The environment and running flag the script started from.
    closed spec fn origin(&self) -> (Environment, bool) {
        self.start@
    }

    /// The calls so far took the shell from where it started to where it is.
    closed spec fn consistent(&self) -> bool {
        exists|envs: Seq<Environment>, runs: Seq<bool>|
            #[trigger] script_chain(self.log@, envs, runs) && envs[0] == self.start@.0 && runs[0] == self.start@.1
            && envs.last() == self.env && runs.last() == self.running
    }

    closed spec fn var(&self, name: Seq<char>) -> Option<Seq<char>> {
        if self.env.vars().contains_key(name) {
            Some(self.env.vars()[name])
        } else {
            None
        }
    }

    fn execute_line(&mut self, line: &str) -> (r: (String, i32))
        ensures
            command_reply(script_line_text(line@, old(self).environment()), old(self).environment(), final(self).environment(), (r.0@, r.1)),
            final(self).is_running() == (old(self).is_running() && !is_exit_command(script_line_text(line@, old(self).environment()))),
    {
        proof {
            reveal_strlit("?");
            reveal_strlit("0");
        }
        let status = match self.env.get("?") {
            Some(v) => String::from_str(v),
            None => String::from_str("0"),
        };
        let expanded = self.env.expand_vars_with_status(line, status.as_str());
        let ghost env0 = self.env;
        let ghost run0 = self.running;
        let r = run_command(&mut self.env, &mut self.running, expanded.as_str(), &mut *self.vfs, &mut *self.sys);
        let ghost call = ScriptCall::Line { line: line@, output: r.0@, code: r.1 };
        self.log = Ghost(self.log@.push(call));
        proof {
            if old(self).consistent() {
                let (envs, runs) = choose|envs: Seq<Environment>, runs: Seq<bool>|
                    #[trigger] script_chain(old(self).log@, envs, runs) && envs[0] == self.start@.0 && runs[0] == self.start@.1
                    && envs.last() == env0 && runs.last() == run0;
                lemma_script_chain_push(old(self).log@, envs, runs, call, self.env, self.running);
                assert(script_chain(self.log@, envs.push(self.env), runs.push(self.running)));
                assert(self.consistent());
            }
        }
        r
    }

    fn set_var(&mut self, name: &str, value: &str)
        ensures
            final(self).environment().vars() == old(self).environment().vars().insert(name@, value@),
            final(self).environment().exported() == old(self).environment().exported(),
            final(self).is_running() == old(self).is_running(),
    {
        let ghost env0 = self.env;
        self.env.set(name, value);
        let ghost call = ScriptCall::Assign { name: name@, value: value@ };
        self.log = Ghost(self.log@.push(call));
        proof {
            if old(self).consistent() {
                let (envs, runs) = choose|envs: Seq<Environment>, runs: Seq<bool>|
                    #[trigger] script_chain(old(self).log@, envs, runs) && envs[0] == self.start@.0 && runs[0] == self.start@.1
                    && envs.last() == env0 && runs.last() == self.running;
                lemma_script_chain_push(old(self).log@, envs, runs, call, self.env, self.running);
                assert(script_chain(self.log@, envs.push(self.env), runs.push(self.running)));
                assert(self.consistent());
            }
        }
    }

    fn get_var(&self, name: &str) -> (r: Option<String>)
        ensures
            r is Some <==> self.environment().vars().contains_key(name@),
            r matches Some(v) ==> v@ == self.environment().vars()[name@],
    {
        match self.env.get(name) {
            Some(v) => Some(String::from_str(v)),
            None => None,
        }
    }
}

/// A chain followed by one more call that takes its last state to `env` and
/// `running` is a chain.
proof fn lemma_script_chain_push(
    calls: Seq<ScriptCall>,
    envs: Seq<Environment>,
    runs: Seq<bool>,
    call: ScriptCall,
    env: Environment,
    running: bool,
)
    requires
        script_chain(calls, envs, runs),
        match call {
            ScriptCall::Line { line, output, code } => command_reply(script_line_text(line, envs.last()), envs.last(), env, (output, code))
                && running == (runs.last() && !is_exit_command(script_line_text(line, envs.last()))),
            ScriptCall::Assign { name, value } => env.vars() == envs.last().vars().insert(name, value)
                && env.exported() == envs.last().exported() && running == runs.last(),
        },
    ensures
        script_chain(calls.push(call), envs.push(env), runs.push(running)),
        envs.push(env)[0] == envs[0],
        runs.push(running)[0] == runs[0],
{
    let c2 = calls.push(call);
    let e2 = envs.push(env);
    let r2 = runs.push(running);
    assert forall|k: int| #![trigger c2[k]] 0 <= k < c2.len() implies match c2[k] {
        ScriptCall::Line { line, output, code } => command_reply(script_line_text(line, e2[k]), e2[k], e2[k + 1], (output, code))
            && r2[k + 1] == (r2[k] && !is_exit_command(script_line_text(line, e2[k]))),
        ScriptCall::Assign { name, value } => e2[k + 1].vars() == e2[k].vars().insert(name, value)
            && e2[k + 1].exported() == e2[k].exported() && r2[k + 1] == r2[k],
    } by {
        if k < calls.len() {
            assert(c2[k] == calls[k]);
        }
    }
}

/// A chain followed by one more call that takes its last environment to
/// `env` is a chain.
proof fn lemma_exec_chain_push(calls: Seq<ExecCall>, envs: Seq<Environment>, call: ExecCall, env: Environment)
    requires
        exec_chain(calls, envs),
        exec_step(call, envs.last(), env),
    ensures
        exec_chain(calls.push(call), envs.push(env)),
        envs.push(env)[0] == envs[0],
{
    let c2 = calls.push(call);
    let e2 = envs.push(env);
    assert forall|k: int| #![trigger c2[k]] 0 <= k < c2.len() implies exec_step(c2[k], e2[k], e2[k + 1]) by {
        if k < calls.len() {
            assert(c2[k] == calls[k]);
        }
    }
}

} // verus!
