//! AI-native command processing.
//!
//! Detects whether user input is a traditional shell command or a natural language
//! query. Natural language queries are routed to an agent which interprets
//! the request and proposes shell commands. The user confirms before execution.

use vstd::prelude::*;
use crate::text::{
    chars_of, decimal, push_str, starts_with, str_eq, trim, trim_chars, words,
    words_of, u64_to_string,
};

verus! {

/// Known built-in command names used for heuristic detection.
pub const KNOWN_COMMANDS: [&'static str; 45] = [
    "ls",
    "cd",
    "pwd",
    "cat",
    "echo",
    "cp",
    "mv",
    "rm",
    "mkdir",
    "touch",
    "head",
    "tail",
    "grep",
    "mount",
    "umount",
    "ps",
    "kill",
    "clear",
    "help",
    "reboot",
    "shutdown",
    "ifconfig",
    "ping",
    "ssh",
    "date",
    "uptime",
    "free",
    "df",
    "set",
    "unset",
    "export",
    "history",
    "exit",
    "rmdir",
    "find",
    "wc",
    "sort",
    "uniq",
    "chmod",
    "du",
    "env",
    "alias",
    "ask",
    "agent",
    "which",
];

/// The names of the built-in commands.
pub open spec fn builtin_names() -> Seq<Seq<char>> {
    KNOWN_COMMANDS@.map_values(|s: &str| s@)
}

/// What each position of the built-in names holds; no two names agree in
/// length, first and last character, so these three tell them apart.
pub proof fn lemma_builtin_names()
    ensures
        builtin_names().len() == 45,
        builtin_names()[0] == "ls"@,
        builtin_names()[1] == "cd"@,
        builtin_names()[2] == "pwd"@,
        builtin_names()[3] == "cat"@,
        builtin_names()[4] == "echo"@,
        builtin_names()[5] == "cp"@,
        builtin_names()[6] == "mv"@,
        builtin_names()[7] == "rm"@,
        builtin_names()[8] == "mkdir"@,
        builtin_names()[9] == "touch"@,
        builtin_names()[10] == "head"@,
        builtin_names()[11] == "tail"@,
        builtin_names()[12] == "grep"@,
        builtin_names()[13] == "mount"@,
        builtin_names()[14] == "umount"@,
        builtin_names()[15] == "ps"@,
        builtin_names()[16] == "kill"@,
        builtin_names()[17] == "clear"@,
        builtin_names()[18] == "help"@,
        builtin_names()[19] == "reboot"@,
        builtin_names()[20] == "shutdown"@,
        builtin_names()[21] == "ifconfig"@,
        builtin_names()[22] == "ping"@,
        builtin_names()[23] == "ssh"@,
        builtin_names()[24] == "date"@,
        builtin_names()[25] == "uptime"@,
        builtin_names()[26] == "free"@,
        builtin_names()[27] == "df"@,
        builtin_names()[28] == "set"@,
        builtin_names()[29] == "unset"@,
        builtin_names()[30] == "export"@,
        builtin_names()[31] == "history"@,
        builtin_names()[32] == "exit"@,
        builtin_names()[33] == "rmdir"@,
        builtin_names()[34] == "find"@,
        builtin_names()[35] == "wc"@,
        builtin_names()[36] == "sort"@,
        builtin_names()[37] == "uniq"@,
        builtin_names()[38] == "chmod"@,
        builtin_names()[39] == "du"@,
        builtin_names()[40] == "env"@,
        builtin_names()[41] == "alias"@,
        builtin_names()[42] == "ask"@,
        builtin_names()[43] == "agent"@,
        builtin_names()[44] == "which"@,
        builtin_names()[0].len() == 2 && builtin_names()[0][0] == 'l' && builtin_names()[0].last() == 's',
        builtin_names()[1].len() == 2 && builtin_names()[1][0] == 'c' && builtin_names()[1].last() == 'd',
        builtin_names()[2].len() == 3 && builtin_names()[2][0] == 'p' && builtin_names()[2].last() == 'd',
        builtin_names()[3].len() == 3 && builtin_names()[3][0] == 'c' && builtin_names()[3].last() == 't',
        builtin_names()[4].len() == 4 && builtin_names()[4][0] == 'e' && builtin_names()[4].last() == 'o',
        builtin_names()[5].len() == 2 && builtin_names()[5][0] == 'c' && builtin_names()[5].last() == 'p',
        builtin_names()[6].len() == 2 && builtin_names()[6][0] == 'm' && builtin_names()[6].last() == 'v',
        builtin_names()[7].len() == 2 && builtin_names()[7][0] == 'r' && builtin_names()[7].last() == 'm',
        builtin_names()[8].len() == 5 && builtin_names()[8][0] == 'm' && builtin_names()[8].last() == 'r',
        builtin_names()[9].len() == 5 && builtin_names()[9][0] == 't' && builtin_names()[9].last() == 'h',
        builtin_names()[10].len() == 4 && builtin_names()[10][0] == 'h' && builtin_names()[10].last() == 'd',
        builtin_names()[11].len() == 4 && builtin_names()[11][0] == 't' && builtin_names()[11].last() == 'l',
        builtin_names()[12].len() == 4 && builtin_names()[12][0] == 'g' && builtin_names()[12].last() == 'p',
        builtin_names()[13].len() == 5 && builtin_names()[13][0] == 'm' && builtin_names()[13].last() == 't',
        builtin_names()[14].len() == 6 && builtin_names()[14][0] == 'u' && builtin_names()[14].last() == 't',
        builtin_names()[15].len() == 2 && builtin_names()[15][0] == 'p' && builtin_names()[15].last() == 's',
        builtin_names()[16].len() == 4 && builtin_names()[16][0] == 'k' && builtin_names()[16].last() == 'l',
        builtin_names()[17].len() == 5 && builtin_names()[17][0] == 'c' && builtin_names()[17].last() == 'r',
        builtin_names()[18].len() == 4 && builtin_names()[18][0] == 'h' && builtin_names()[18].last() == 'p',
        builtin_names()[19].len() == 6 && builtin_names()[19][0] == 'r' && builtin_names()[19].last() == 't',
        builtin_names()[20].len() == 8 && builtin_names()[20][0] == 's' && builtin_names()[20].last() == 'n',
        builtin_names()[21].len() == 8 && builtin_names()[21][0] == 'i' && builtin_names()[21].last() == 'g',
        builtin_names()[22].len() == 4 && builtin_names()[22][0] == 'p' && builtin_names()[22].last() == 'g',
        builtin_names()[23].len() == 3 && builtin_names()[23][0] == 's' && builtin_names()[23].last() == 'h',
        builtin_names()[24].len() == 4 && builtin_names()[24][0] == 'd' && builtin_names()[24].last() == 'e',
        builtin_names()[25].len() == 6 && builtin_names()[25][0] == 'u' && builtin_names()[25].last() == 'e',
        builtin_names()[26].len() == 4 && builtin_names()[26][0] == 'f' && builtin_names()[26].last() == 'e',
        builtin_names()[27].len() == 2 && builtin_names()[27][0] == 'd' && builtin_names()[27].last() == 'f',
        builtin_names()[28].len() == 3 && builtin_names()[28][0] == 's' && builtin_names()[28].last() == 't',
        builtin_names()[29].len() == 5 && builtin_names()[29][0] == 'u' && builtin_names()[29].last() == 't',
        builtin_names()[30].len() == 6 && builtin_names()[30][0] == 'e' && builtin_names()[30].last() == 't',
        builtin_names()[31].len() == 7 && builtin_names()[31][0] == 'h' && builtin_names()[31].last() == 'y',
        builtin_names()[32].len() == 4 && builtin_names()[32][0] == 'e' && builtin_names()[32].last() == 't',
        builtin_names()[33].len() == 5 && builtin_names()[33][0] == 'r' && builtin_names()[33].last() == 'r',
        builtin_names()[34].len() == 4 && builtin_names()[34][0] == 'f' && builtin_names()[34].last() == 'd',
        builtin_names()[35].len() == 2 && builtin_names()[35][0] == 'w' && builtin_names()[35].last() == 'c',
        builtin_names()[36].len() == 4 && builtin_names()[36][0] == 's' && builtin_names()[36].last() == 't',
        builtin_names()[37].len() == 4 && builtin_names()[37][0] == 'u' && builtin_names()[37].last() == 'q',
        builtin_names()[38].len() == 5 && builtin_names()[38][0] == 'c' && builtin_names()[38].last() == 'd',
        builtin_names()[39].len() == 2 && builtin_names()[39][0] == 'd' && builtin_names()[39].last() == 'u',
        builtin_names()[40].len() == 3 && builtin_names()[40][0] == 'e' && builtin_names()[40].last() == 'v',
        builtin_names()[41].len() == 5 && builtin_names()[41][0] == 'a' && builtin_names()[41].last() == 's',
        builtin_names()[42].len() == 3 && builtin_names()[42][0] == 'a' && builtin_names()[42].last() == 'k',
        builtin_names()[43].len() == 5 && builtin_names()[43][0] == 'a' && builtin_names()[43].last() == 't',
        builtin_names()[44].len() == 5 && builtin_names()[44][0] == 'w' && builtin_names()[44].last() == 'h',
{
    assert(KNOWN_COMMANDS@[0] == "ls");
    reveal_strlit("ls");
    assert(KNOWN_COMMANDS@[1] == "cd");
    reveal_strlit("cd");
    assert(KNOWN_COMMANDS@[2] == "pwd");
    reveal_strlit("pwd");
    assert(KNOWN_COMMANDS@[3] == "cat");
    reveal_strlit("cat");
    assert(KNOWN_COMMANDS@[4] == "echo");
    reveal_strlit("echo");
    assert(KNOWN_COMMANDS@[5] == "cp");
    reveal_strlit("cp");
    assert(KNOWN_COMMANDS@[6] == "mv");
    reveal_strlit("mv");
    assert(KNOWN_COMMANDS@[7] == "rm");
    reveal_strlit("rm");
    assert(KNOWN_COMMANDS@[8] == "mkdir");
    reveal_strlit("mkdir");
    assert(KNOWN_COMMANDS@[9] == "touch");
    reveal_strlit("touch");
    assert(KNOWN_COMMANDS@[10] == "head");
    reveal_strlit("head");
    assert(KNOWN_COMMANDS@[11] == "tail");
    reveal_strlit("tail");
    assert(KNOWN_COMMANDS@[12] == "grep");
    reveal_strlit("grep");
    assert(KNOWN_COMMANDS@[13] == "mount");
    reveal_strlit("mount");
    assert(KNOWN_COMMANDS@[14] == "umount");
    reveal_strlit("umount");
    assert(KNOWN_COMMANDS@[15] == "ps");
    reveal_strlit("ps");
    assert(KNOWN_COMMANDS@[16] == "kill");
    reveal_strlit("kill");
    assert(KNOWN_COMMANDS@[17] == "clear");
    reveal_strlit("clear");
    assert(KNOWN_COMMANDS@[18] == "help");
    reveal_strlit("help");
    assert(KNOWN_COMMANDS@[19] == "reboot");
    reveal_strlit("reboot");
    assert(KNOWN_COMMANDS@[20] == "shutdown");
    reveal_strlit("shutdown");
    assert(KNOWN_COMMANDS@[21] == "ifconfig");
    reveal_strlit("ifconfig");
    assert(KNOWN_COMMANDS@[22] == "ping");
    reveal_strlit("ping");
    assert(KNOWN_COMMANDS@[23] == "ssh");
    reveal_strlit("ssh");
    assert(KNOWN_COMMANDS@[24] == "date");
    reveal_strlit("date");
    assert(KNOWN_COMMANDS@[25] == "uptime");
    reveal_strlit("uptime");
    assert(KNOWN_COMMANDS@[26] == "free");
    reveal_strlit("free");
    assert(KNOWN_COMMANDS@[27] == "df");
    reveal_strlit("df");
    assert(KNOWN_COMMANDS@[28] == "set");
    reveal_strlit("set");
    assert(KNOWN_COMMANDS@[29] == "unset");
    reveal_strlit("unset");
    assert(KNOWN_COMMANDS@[30] == "export");
    reveal_strlit("export");
    assert(KNOWN_COMMANDS@[31] == "history");
    reveal_strlit("history");
    assert(KNOWN_COMMANDS@[32] == "exit");
    reveal_strlit("exit");
    assert(KNOWN_COMMANDS@[33] == "rmdir");
    reveal_strlit("rmdir");
    assert(KNOWN_COMMANDS@[34] == "find");
    reveal_strlit("find");
    assert(KNOWN_COMMANDS@[35] == "wc");
    reveal_strlit("wc");
    assert(KNOWN_COMMANDS@[36] == "sort");
    reveal_strlit("sort");
    assert(KNOWN_COMMANDS@[37] == "uniq");
    reveal_strlit("uniq");
    assert(KNOWN_COMMANDS@[38] == "chmod");
    reveal_strlit("chmod");
    assert(KNOWN_COMMANDS@[39] == "du");
    reveal_strlit("du");
    assert(KNOWN_COMMANDS@[40] == "env");
    reveal_strlit("env");
    assert(KNOWN_COMMANDS@[41] == "alias");
    reveal_strlit("alias");
    assert(KNOWN_COMMANDS@[42] == "ask");
    reveal_strlit("ask");
    assert(KNOWN_COMMANDS@[43] == "agent");
    reveal_strlit("agent");
    assert(KNOWN_COMMANDS@[44] == "which");
    reveal_strlit("which");
}

/// Classification of user input.
#[derive(Debug, Clone, Copy, PartialEq, Eq, Structural)]
pub enum InputKind {
    /// Traditional shell command (starts with a known command name).
    Command,
    /// Natural language query to be interpreted by AI.
    NaturalLanguage,
    /// Empty input.
    Empty,
}

/// A proposed action from the AI, pending user confirmation.
#[derive(Debug, Clone)]
pub struct AiProposal {
    /// Human-readable explanation of what the AI intends to do.
    pub explanation: String,
    /// Shell commands the AI wants to execute.
    pub commands: Vec<String>,
    /// Whether the user has confirmed execution.
    pub confirmed: bool,
}

/// What the agent is told along with a query: the working directory, the
/// recent history and the variables.
pub type ContextView = (Seq<char>, Seq<Seq<char>>, Seq<(Seq<char>, Seq<char>)>);

/// The contents of a context.
pub open spec fn context_view(c: AiContext) -> ContextView {
    (
        c.pwd@,
        c.recent_history@.map_values(|s: String| s@),
        c.env_vars@.map_values(|p: (String, String)| (p.0@, p.1@)),
    )
}

/// A proposal's explanation, commands and confirmation flag.
pub type ProposalView = (Seq<char>, Seq<Seq<char>>, bool);

/// The contents of a proposal.
pub open spec fn proposal_view(p: AiProposal) -> ProposalView {
    (p.explanation@, p.commands@.map_values(|s: String| s@), p.confirmed)
}

/// The proposal or the error text an agent answered.
pub open spec fn proposal_answer(r: Result<AiProposal, String>) -> Result<ProposalView, Seq<char>> {
    match r {
        Ok(p) => Ok(proposal_view(p)),
        Err(e) => Err(e@),
    }
}

/// Callback trait for wiring the AI shell to an agent.
/// The shell calls these methods; the kernel/agent layer implements them.
///
/// An implementation describes itself by `available()`, whether an agent
/// session is active, and `reply(query, context)`, what the agent answers a
/// query in its present state.
pub trait AiShellCallback: Send {
    /// What the agent answers `query` with, told `context`.
    closed spec fn reply(&self, query: Seq<char>, context: ContextView) -> Result<ProposalView, Seq<char>> {
        Err(query)
    }

    /// Whether an agent session is active.
    closed spec fn available(&self) -> bool {
        false
    }

    /// Send a natural language query to the agent and receive a proposal.
    /// The agent interprets the user's intent and suggests shell commands.
    fn interpret(&mut self, query: &str, context: &AiContext) -> (r: Result<AiProposal, String>)
        ensures
            proposal_answer(r) == old(self).reply(query@, context_view(*context)),
    ;

    /// Check if the AI backend is available (agent session active, API reachable).
    fn is_available(&self) -> (r: bool)
        ensures
            r == self.available(),
    ;
}

/// Context passed to the AI for better interpretation.
#[derive(Debug, Clone)]
pub struct AiContext {
    /// Current working directory.
    pub pwd: String,
    /// Recent command history (last N entries).
    pub recent_history: Vec<String>,
    /// Environment variables that might be relevant.
    pub env_vars: Vec<(String, String)>,
}

/// The first white-space separated word of `s`, or nothing.
pub open spec fn first_word(s: Seq<char>) -> Seq<char> {
    if words(s).len() > 0 {
        words(s)[0]
    } else {
        Seq::empty()
    }
}

/// How `classify_input` classifies `input`: blank input is `Empty`; a first
/// word that is a built-in name, starts with `/` or `./`, or holds `=` but
/// does not start with it, marks a `Command`; anything else is natural language.
pub open spec fn classify_spec(input: Seq<char>) -> InputKind {
    let t = trim(input);
    let w = first_word(t);
    if t.len() == 0 {
        InputKind::Empty
    } else if builtin_names().contains(w) {
        InputKind::Command
    } else if starts_with(w, seq!['/']) || starts_with(w, seq!['.', '/']) {
        InputKind::Command
    } else if w.contains('=') && !starts_with(w, seq!['=']) {
        InputKind::Command
    } else {
        InputKind::NaturalLanguage
    }
}

/// Whether `name` is one of the built-in command names.
pub fn is_known_command(name: &str) -> (r: bool)
    ensures
        r == builtin_names().contains(name@),
{
    let names = KNOWN_COMMANDS;
    let mut i: usize = 0;
    while i < names.len()
        invariant
            names@ == KNOWN_COMMANDS@,
            i <= names@.len(),
            forall|j: int| 0 <= j < i ==> (#[trigger] builtin_names()[j]) != name@,
        decreases names@.len() - i,
    {
        if str_eq(names[i], name) {
            assert(builtin_names()[i as int] == name@);
            return true;
        }
        i = i + 1;
    }
    false
}

/// Classify user input as a command or natural language.
pub fn classify_input(input: &str) -> (r: InputKind)
    ensures
        r == classify_spec(input@),
{
    let chars = chars_of(input);
    let t = trim_chars(chars.as_slice());
    if t.len() == 0 {
        return InputKind::Empty;
    }
    let ws = words_of(t.as_slice());
    let w: Vec<char> = if ws.len() > 0 {
        let mut w: Vec<char> = Vec::new();
        let mut k: usize = 0;
        while k < ws[0].len()
            invariant
                ws@.len() > 0,
                k <= ws@[0]@.len(),
                w@ == ws@[0]@.take(k as int),
            decreases ws@[0]@.len() - k,
        {
            w.push(ws[0][k]);
            k = k + 1;
            assert(ws@[0]@.take(k as int) =~= ws@[0]@.take(k - 1 as int).push(ws@[0]@[k - 1]));
        }
        assert(ws@[0]@.take(ws@[0]@.len() as int) =~= ws@[0]@);
        w
    } else {
        Vec::new()
    };
    proof {
        if ws@.len() > 0 {
            assert(ws@.map_values(|x: Vec<char>| x@)[0] == ws@[0]@);
        } else {
            assert(w@ =~= Seq::<char>::empty());
        }
    }
    let ws_str = crate::text::string_of(w.as_slice());
    if is_known_command(ws_str.as_str()) {
        return InputKind::Command;
    }
    let slash: [char; 1] = ['/'];
    let dot_slash: [char; 2] = ['.', '/'];
    let eq: [char; 1] = ['='];
    assert(slash@ =~= seq!['/']);
    assert(dot_slash@ =~= seq!['.', '/']);
    assert(eq@ =~= seq!['=']);
    if crate::text::starts_with_exec(w.as_slice(), slash.as_slice())
        || crate::text::starts_with_exec(w.as_slice(), dot_slash.as_slice()) {
        return InputKind::Command;
    }
    let has_eq = crate::text::find_char_exec(w.as_slice(), 0, '=') < w.len();
    proof {
        crate::text::lemma_find_char_from(w@, 0, '=');
        if w@.contains('=') {
            let k = choose|k: int| 0 <= k < w@.len() && w@[k] == '=';
            assert(crate::text::find_char_from(w@, 0, '=') <= k);
        }
        if has_eq {
            assert(w@[crate::text::find_char_from(w@, 0, '=')] == '=');
        }
    }
    if has_eq && !crate::text::starts_with_exec(w.as_slice(), eq.as_slice()) {
        return InputKind::Command;
    }
    InputKind::NaturalLanguage
}

/// The message given when no agent is available.
pub open spec fn unavailable_message() -> Seq<char> {
    "AI assistant not available. Is an agent session active?"@
}

/// Process a natural language input through the AI callback.
/// Returns the AI's proposal for the user to confirm; when the callback reports
/// that no agent is available the answer is an error with
/// `unavailable_message()`, and otherwise it is what `interpret` returns.
pub fn process_natural_language<C: AiShellCallback + ?Sized>(
    input: &str,
    context: &AiContext,
    callback: &mut C,
) -> (r: Result<AiProposal, String>)
    ensures
        !old(callback).available() ==> (r matches Err(e) && e@ == unavailable_message())
            && !final(callback).available()
            && final(callback).reply(input@, context_view(*context)) == old(callback).reply(input@, context_view(*context)),
        old(callback).available() ==> proposal_answer(r) == old(callback).reply(input@, context_view(*context)),
{
    if !callback.is_available() {
        let e = String::from_str("AI assistant not available. Is an agent session active?");
        proof {
            reveal_strlit("AI assistant not available. Is an agent session active?");
        }
        return Err(e);
    }
    callback.interpret(input, context)
}

/// The display lines of the proposed commands `cmds[i..]`, numbered from `i + 1`.
pub open spec fn proposal_lines(cmds: Seq<Seq<char>>, i: int) -> Seq<char>
    decreases cmds.len() - i,
{
    if i < 0 || i >= cmds.len() {
        Seq::empty()
    } else {
        "  \x1b[32m"@ + decimal((i + 1) as nat) + "\x1b[0m. "@ + cmds[i] + seq!['\n']
            + proposal_lines(cmds, i + 1)
    }
}

/// How a proposal is shown to the user.
pub open spec fn format_proposal_spec(explanation: Seq<char>, cmds: Seq<Seq<char>>) -> Seq<char> {
    "\x1b[1;36m[AI Assistant]\x1b[0m "@ + explanation + seq!['\n', '\n']
        + "\x1b[1;33mProposed commands:\x1b[0m\n"@ + proposal_lines(cmds, 0) + seq!['\n']
        + "Execute? [y/N] "@
}

/// Format an AI proposal for display to the user.
pub fn format_proposal(proposal: &AiProposal) -> (r: String)
    ensures
        r@ == format_proposal_spec(
            proposal.explanation@,
            proposal.commands@.map_values(|s: String| s@),
        ),
{
    let ghost cmds = proposal.commands@.map_values(|s: String| s@);
    let mut output = String::new();
    push_str(&mut output, "\x1b[1;36m[AI Assistant]\x1b[0m ");
    push_str(&mut output, proposal.explanation.as_str());
    push_str(&mut output, "\n\n");
    push_str(&mut output, "\x1b[1;33mProposed commands:\x1b[0m\n");
    proof {
        reveal_strlit("\n\n");
    }
    let ghost head = output@;
    let mut i: usize = 0;
    assert(output@ + proposal_lines(cmds, 0) =~= head + proposal_lines(cmds, 0));
    while i < proposal.commands.len()
        invariant
            cmds == proposal.commands@.map_values(|s: String| s@),
            i <= cmds.len(),
            head + proposal_lines(cmds, 0) == output@ + proposal_lines(cmds, i as int),
        decreases cmds.len() - i,
    {
        let ghost before = output@;
        push_str(&mut output, "  \x1b[32m");
        let n = u64_to_string((i as u64) + 1);
        push_str(&mut output, n.as_str());
        push_str(&mut output, "\x1b[0m. ");
        push_str(&mut output, proposal.commands[i].as_str());
        push_str(&mut output, "\n");
        proof {
            reveal_strlit("\n");
            assert("\n"@ =~= seq!['\n']);
            assert(output@ + proposal_lines(cmds, i + 1) =~= before + proposal_lines(
                cmds,
                i as int,
            ));
        }
        i = i + 1;
    }
    assert(output@ + proposal_lines(cmds, i as int) =~= output@);
    push_str(&mut output, "\n");
    push_str(&mut output, "Execute? [y/N] ");
    proof {
        reveal_strlit("\n");
        assert("\n"@ =~= seq!['\n']);
        assert("\n\n"@ =~= seq!['\n', '\n']);
        assert(output@ =~= format_proposal_spec(proposal.explanation@, cmds));
    }
    output
}

/// A no-op AI callback that always returns unavailable: setting it on a
/// shell answers natural language as a shell without an agent does.
pub struct NoOpAiCallback;

impl AiShellCallback for NoOpAiCallback {
    closed spec fn reply(&self, query: Seq<char>, context: ContextView) -> Result<ProposalView, Seq<char>> {
        Err("No AI agent connected to this shell session."@)
    }

    closed spec fn available(&self) -> bool {
        false
    }

    fn interpret(&mut self, _query: &str, _context: &AiContext) -> (r: Result<AiProposal, String>)
        ensures
            r matches Err(e) && e@ == "No AI agent connected to this shell session."@,
    {
        Err(String::from_str("No AI agent connected to this shell session."))
    }

    fn is_available(&self) -> (r: bool)
        ensures
            !r,
    {
        false
    }
}

/// Input whose first word is a built-in name is a command, whatever follows.
pub proof fn law_builtin_first_word_is_command(input: Seq<char>)
    requires
        builtin_names().contains(first_word(trim(input))),
    ensures
        classify_spec(input) == InputKind::Command,
{
    lemma_builtin_names();
    let w = first_word(trim(input));
    let k = choose|k: int| 0 <= k < builtin_names().len() && builtin_names()[k] == w;
    assert(w.len() > 0);
    if trim(input).len() == 0 {
        assert(words(trim(input)) =~= Seq::<Seq<char>>::empty());
    }
}

} // verus!
