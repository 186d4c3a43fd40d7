//! Command line parser for the shell.
//!
//! Tokenizes input into words, quoted strings, pipes, and redirects.
//! Parses into Command structs with name, args, redirections, and pipe chains.
//! Also keeps the command history and completes command names.

use vstd::prelude::*;
use vstd::string::StrSliceExecFns;
use crate::text::{
    chars_of, find_char_exec, find_char_from, lemma_find_char_from, push_char, starts_with,
    string_of, string_of_range, trim, trim_str,
};

verus! {

// ---------------------------------------------------------------------------
// Data types and their models
// ---------------------------------------------------------------------------

/// A single parsed command with arguments and redirections.
#[derive(Debug, Clone)]
pub struct Command {
    /// Command name (e.g., "ls", "cat").
    pub name: String,
    /// Arguments to the command.
    pub args: Vec<String>,
    /// Stdin redirect: `< file`.
    pub stdin_redirect: Option<String>,
    /// Stdout redirect: `> file` (overwrite) or `>> file` (append).
    pub stdout_redirect: Option<Redirect>,
}

/// Stdout redirection mode.
#[derive(Debug, Clone)]
pub enum Redirect {
    /// Overwrite: `> file`
    Overwrite(String),
    /// Append: `>> file`
    Append(String),
}

/// A pipeline of commands connected by pipes.
#[derive(Debug, Clone)]
pub struct Pipeline {
    /// Ordered list of commands; output of each feeds into the next.
    pub commands: Vec<Command>,
}

/// Token types produced by the lexer.
#[derive(Debug, Clone)]
pub enum Token {
    Word(String),
    Pipe,
    RedirectOut,
    RedirectAppend,
    RedirectIn,
}

/// Parse errors.
#[derive(Debug, Clone, Copy, PartialEq, Eq, Structural)]
pub enum ParseError {
    EmptyInput,
    UnterminatedQuote,
    UnexpectedPipe,
    UnexpectedRedirect,
    MissingRedirectTarget,
    EmptyCommand,
}

/// The model of a token.
pub enum Tok {
    Word(Seq<char>),
    Pipe,
    RedirectOut,
    RedirectAppend,
    RedirectIn,
}

/// The model of a redirect.
pub enum RedirectSpec {
    Overwrite(Seq<char>),
    Append(Seq<char>),
}

/// The model of a command.
pub struct CommandSpec {
    pub name: Seq<char>,
    pub args: Seq<Seq<char>>,
    pub stdin: Option<Seq<char>>,
    pub stdout: Option<RedirectSpec>,
}

/// The characters of each string.
pub open spec fn strings_view(v: Seq<String>) -> Seq<Seq<char>> {
    v.map_values(|s: String| s@)
}

/// The characters of an optional string.
pub open spec fn opt_view(o: Option<String>) -> Option<Seq<char>> {
    match o {
        Some(s) => Some(s@),
        None => None,
    }
}

impl View for Token {
    type V = Tok;

    open spec fn view(&self) -> Tok {
        match self {
            Token::Word(w) => Tok::Word(w@),
            Token::Pipe => Tok::Pipe,
            Token::RedirectOut => Tok::RedirectOut,
            Token::RedirectAppend => Tok::RedirectAppend,
            Token::RedirectIn => Tok::RedirectIn,
        }
    }
}

impl View for Redirect {
    type V = RedirectSpec;

    open spec fn view(&self) -> RedirectSpec {
        match self {
            Redirect::Overwrite(p) => RedirectSpec::Overwrite(p@),
            Redirect::Append(p) => RedirectSpec::Append(p@),
        }
    }
}

/// The model of an optional redirect.
pub open spec fn opt_redirect_view(o: Option<Redirect>) -> Option<RedirectSpec> {
    match o {
        Some(r) => Some(r@),
        None => None,
    }
}

impl View for Command {
    type V = CommandSpec;

    open spec fn view(&self) -> CommandSpec {
        CommandSpec {
            name: self.name@,
            args: strings_view(self.args@),
            stdin: opt_view(self.stdin_redirect),
            stdout: opt_redirect_view(self.stdout_redirect),
        }
    }
}

impl View for Pipeline {
    type V = Seq<CommandSpec>;

    open spec fn view(&self) -> Seq<CommandSpec> {
        self.commands@.map_values(|c: Command| c@)
    }
}

/// The models of a token list.
pub open spec fn tokens_view(v: Seq<Token>) -> Seq<Tok> {
    v.map_values(|t: Token| t@)
}

impl Command {
    /// Create a new empty command.
    pub fn new(name: String) -> (r: Self)
        ensures
            r@ == (CommandSpec { name: name@, args: Seq::empty(), stdin: None, stdout: None }),
    {
        let r = Command { name, args: Vec::new(), stdin_redirect: None, stdout_redirect: None };
        assert(strings_view(r.args@) =~= Seq::<Seq<char>>::empty());
        r
    }
}

// ---------------------------------------------------------------------------
// The lexer
// ---------------------------------------------------------------------------

/// Characters that end an unquoted word.
pub open spec fn is_word_break(c: char) -> bool {
    c == ' ' || c == '\t' || c == '|' || c == '>' || c == '<' || c == '\'' || c == '"'
}

/// End of the unquoted word starting at `i`.
pub open spec fn word_end(s: Seq<char>, i: int) -> int
    decreases s.len() - i,
{
    if 0 <= i < s.len() && !is_word_break(s[i]) {
        word_end(s, i + 1)
    } else {
        i
    }
}

/// Bounds of `word_end`.
pub proof fn lemma_word_end(s: Seq<char>, i: int)
    requires
        0 <= i <= s.len(),
    ensures
        i <= word_end(s, i) <= s.len(),
        i < s.len() && !is_word_break(s[i]) ==> word_end(s, i) > i,
    decreases s.len() - i,
{
    if i < s.len() && !is_word_break(s[i]) {
        lemma_word_end(s, i + 1);
    }
}

/// The contents of a double-quoted string whose text starts at `k`, with the
/// escapes `\"`, `\\` and `\$` resolved, and the index of the closing quote;
/// `None` when the quote is not closed.
pub open spec fn dq_scan(s: Seq<char>, k: int) -> Option<(Seq<char>, int)>
    decreases s.len() - k,
{
    if k < 0 || k >= s.len() {
        None
    } else if s[k] == '"' {
        Some((Seq::empty(), k))
    } else if s[k] == '\\' && k + 1 < s.len() && (s[k + 1] == '"' || s[k + 1] == '\\' || s[k + 1]
        == '$') {
        match dq_scan(s, k + 2) {
            Some((w, j)) => Some((seq![s[k + 1]] + w, j)),
            None => None,
        }
    } else {
        match dq_scan(s, k + 1) {
            Some((w, j)) => Some((seq![s[k]] + w, j)),
            None => None,
        }
    }
}

/// The closing quote found by `dq_scan` lies at or after `k`.
pub proof fn lemma_dq_scan(s: Seq<char>, k: int)
    requires
        0 <= k,
    ensures
        dq_scan(s, k) matches Some((w, j)) ==> k <= j < s.len(),
    decreases s.len() - k,
{
    if 0 <= k < s.len() && s[k] != '"' {
        if s[k] == '\\' && k + 1 < s.len() && (s[k + 1] == '"' || s[k + 1] == '\\' || s[k + 1]
            == '$') {
            lemma_dq_scan(s, k + 2);
        } else {
            lemma_dq_scan(s, k + 1);
        }
    }
}

/// `t` in front of a lexing result.
pub open spec fn cons_tok(t: Tok, r: Result<Seq<Tok>, ParseError>) -> Result<Seq<Tok>, ParseError> {
    match r {
        Ok(ts) => Ok(seq![t] + ts),
        Err(e) => Err(e),
    }
}

/// `pre` in front of a lexing result.
pub open spec fn glue_toks(pre: Seq<Tok>, r: Result<Seq<Tok>, ParseError>) -> Result<
    Seq<Tok>,
    ParseError,
> {
    match r {
        Ok(ts) => Ok(pre + ts),
        Err(e) => Err(e),
    }
}

/// The tokens of `s[i..]`: blanks and tabs separate tokens; `|`, `>`, `>>` and
/// `<` are operators; `'...'` is taken literally; `"..."` resolves `\"`, `\\`
/// and `\$`; anything else runs to the next separator, operator or quote.
pub open spec fn lex_from(s: Seq<char>, i: int) -> Result<Seq<Tok>, ParseError>
    decreases s.len() - i,
{
    if i < 0 || i >= s.len() {
        Ok(Seq::empty())
    } else if s[i] == ' ' || s[i] == '\t' {
        lex_from(s, i + 1)
    } else if s[i] == '|' {
        cons_tok(Tok::Pipe, lex_from(s, i + 1))
    } else if s[i] == '>' {
        if i + 1 < s.len() && s[i + 1] == '>' {
            cons_tok(Tok::RedirectAppend, lex_from(s, i + 2))
        } else {
            cons_tok(Tok::RedirectOut, lex_from(s, i + 1))
        }
    } else if s[i] == '<' {
        cons_tok(Tok::RedirectIn, lex_from(s, i + 1))
    } else if s[i] == '\'' {
        let j = find_char_from(s, i + 1, '\'');
        proof {
            lemma_find_char_from(s, i + 1, '\'');
        }
        if j >= s.len() {
            Err(ParseError::UnterminatedQuote)
        } else {
            cons_tok(Tok::Word(s.subrange(i + 1, j)), lex_from(s, j + 1))
        }
    } else if s[i] == '"' {
        proof {
            lemma_dq_scan(s, i + 1);
        }
        match dq_scan(s, i + 1) {
            None => Err(ParseError::UnterminatedQuote),
            Some((w, j)) => cons_tok(Tok::Word(w), lex_from(s, j + 1)),
        }
    } else {
        let j = word_end(s, i);
        proof {
            lemma_word_end(s, i);
        }
        cons_tok(Tok::Word(s.subrange(i, j)), lex_from(s, j))
    }
}

/// The index of the quote that closes a double-quoted string whose text
/// starts at `k` (stepping over `\"`, `\\` and `\$`), or the end when none does.
pub open spec fn dq_close(s: Seq<char>, k: int) -> int
    decreases s.len() - k,
{
    if k < 0 || k >= s.len() {
        s.len() as int
    } else if s[k] == '"' {
        k
    } else if s[k] == '\\' && k + 1 < s.len() && (s[k + 1] == '"' || s[k + 1] == '\\' || s[k + 1] == '$') {
        dq_close(s, k + 2)
    } else {
        dq_close(s, k + 1)
    }
}

/// The closing quote `dq_close` finds lies between `k` and the end.
pub proof fn lemma_dq_close(s: Seq<char>, k: int)
    requires
        0 <= k <= s.len(),
    ensures
        k <= dq_close(s, k) <= s.len(),
    decreases s.len() - k,
{
    if k < s.len() {
        if s[k] == '\\' && k + 1 < s.len() && (s[k + 1] == '"' || s[k + 1] == '\\' || s[k + 1] == '$') {
            lemma_dq_close(s, k + 2);
        } else if s[k] != '"' {
            lemma_dq_close(s, k + 1);
        }
    }
}

/// Where the piece of text starting at `i` ends (inclusive): a quoted string
/// runs to its closing quote (the end when it is not closed), anything else
/// is one character.
pub open spec fn piece_end(s: Seq<char>, i: int) -> int {
    if s[i] == '\'' {
        find_char_from(s, i + 1, '\'')
    } else if s[i] == '"' {
        dq_close(s, i + 1)
    } else {
        i
    }
}

/// The command lines that `;` separates in `s[i..]`, the current one having
/// begun with `cur`: a `;` outside quotes ends a line, and quoted text stays
/// as it stands (a quote left open runs to the end).
pub open spec fn command_lines_from(s: Seq<char>, i: int, cur: Seq<char>) -> Seq<Seq<char>>
    decreases s.len() - i,
{
    if i < 0 || i >= s.len() {
        seq![cur]
    } else if s[i] == ';' {
        seq![cur] + command_lines_from(s, i + 1, Seq::empty())
    } else {
        let j = piece_end(s, i);
        proof {
            lemma_find_char_from(s, i + 1, '\'');
            lemma_dq_close(s, i + 1);
        }
        if j >= s.len() {
            seq![cur + s.subrange(i, s.len() as int)]
        } else {
            command_lines_from(s, j + 1, cur + s.subrange(i, j + 1))
        }
    }
}

/// The command lines of `s`, as `;` separates them.
pub open spec fn command_lines(s: Seq<char>) -> Seq<Seq<char>> {
    command_lines_from(s, 0, Seq::empty())
}

/// A line without `;` is a single command line.
pub proof fn law_line_without_semicolon_is_one_command_line(s: Seq<char>)
    requires
        !s.contains(';'),
    ensures
        command_lines(s) == seq![s],
{
    lemma_lines_without_semicolon(s, 0, Seq::empty());
    assert(Seq::<char>::empty() + s.subrange(0, s.len() as int) =~= s);
}

/// From `i`, text without `;` adds the rest of itself to the current line.
proof fn lemma_lines_without_semicolon(s: Seq<char>, i: int, cur: Seq<char>)
    requires
        0 <= i <= s.len(),
        !s.contains(';'),
    ensures
        command_lines_from(s, i, cur) == seq![cur + s.subrange(i, s.len() as int)],
    decreases s.len() - i,
{
    if i < s.len() {
        assert(s[i] != ';') by {
            if s[i] == ';' {
                assert(s.contains(s[i]));
            }
        }
        lemma_find_char_from(s, i + 1, '\'');
        lemma_dq_close(s, i + 1);
        let j = piece_end(s, i);
        if j >= s.len() {
            assert(command_lines_from(s, i, cur) == seq![cur + s.subrange(i, s.len() as int)]);
        } else {
            lemma_lines_without_semicolon(s, j + 1, cur + s.subrange(i, j + 1));
            assert(cur + s.subrange(i, j + 1) + s.subrange(j + 1, s.len() as int) =~= cur + s.subrange(i, s.len() as int));
        }
    } else {
        assert(cur + s.subrange(i, s.len() as int) =~= cur);
    }
}

/// The closing quote of a double-quoted string whose text starts at `k`.
fn dq_close_exec(s: &[char], k: usize) -> (r: usize)
    requires
        k <= s@.len(),
    ensures
        r == dq_close(s@, k as int),
{
    let mut j = k;
    while j < s.len() && s[j] != '"'
        invariant
            k <= j <= s@.len(),
            dq_close(s@, k as int) == dq_close(s@, j as int),
        decreases s@.len() - j,
    {
        if s[j] == '\\' && j + 1 < s.len() && (s[j + 1] == '"' || s[j + 1] == '\\' || s[j + 1] == '$') {
            j = j + 2;
        } else {
            j = j + 1;
        }
    }
    j
}

/// Split an input line into the command lines that `;` separates outside
/// quotes.
pub fn split_command_lines(input: &str) -> (r: Vec<String>)
    ensures
        strings_view(r@) == command_lines(input@),
{
    let chars = chars_of(input);
    let ghost s = input@;
    let mut lines: Vec<String> = Vec::new();
    let mut cur: Vec<char> = Vec::new();
    let mut i: usize = 0;
    while i < chars.len()
        invariant
            chars@ == s,
            i <= s.len(),
            command_lines(s) == strings_view(lines@) + command_lines_from(s, i as int, cur@),
        decreases s.len() - i,
    {
        let ghost before = strings_view(lines@);
        let ghost c0 = cur@;
        if chars[i] == ';' {
            let line = string_of(cur.as_slice());
            lines.push(line);
            cur = Vec::new();
            assert(strings_view(lines@) =~= before.push(c0));
            assert(command_lines_from(s, i as int, c0) == seq![c0] + command_lines_from(s, i + 1, Seq::empty()));
            assert(command_lines(s) =~= strings_view(lines@) + command_lines_from(s, i + 1, cur@));
            i = i + 1;
        } else {
            proof {
                lemma_find_char_from(s, i + 1, '\'');
                lemma_dq_close(s, i + 1);
            }
            let j = if chars[i] == '\'' {
                find_char_exec(chars.as_slice(), i + 1, '\'')
            } else if chars[i] == '"' {
                dq_close_exec(chars.as_slice(), i + 1)
            } else {
                i
            };
            assert(j == piece_end(s, i as int));
            let end = if j >= chars.len() { chars.len() } else { j + 1 };
            let mut k = i;
            while k < end
                invariant
                    chars@ == s,
                    i <= k <= end <= s.len(),
                    cur@ == c0 + s.subrange(i as int, k as int),
                decreases end - k,
            {
                cur.push(chars[k]);
                assert(cur@ =~= c0 + s.subrange(i as int, k + 1));
                k = k + 1;
            }
            i = end;
        }
    }
    let last = string_of(cur.as_slice());
    let ghost before = strings_view(lines@);
    lines.push(last);
    assert(strings_view(lines@) =~= before.push(cur@));
    assert(command_lines(s) =~= strings_view(lines@));
    lines
}

/// Tokenize a raw input string into a sequence of Tokens.
fn tokenize(input: &str) -> (r: Result<Vec<Token>, ParseError>)
    ensures
        r matches Ok(ts) ==> lex_from(input@, 0) == Ok::<Seq<Tok>, ParseError>(tokens_view(ts@)),
        r matches Err(e) ==> lex_from(input@, 0) == Err::<Seq<Tok>, ParseError>(e),
{
    let chars = chars_of(input);
    let ghost s = input@;
    let mut tokens: Vec<Token> = Vec::new();
    let mut i: usize = 0;
    assert(tokens_view(tokens@) =~= Seq::<Tok>::empty());
    while i < chars.len()
        invariant
            chars@ == s,
            s == input@,
            i <= s.len(),
            lex_from(s, 0) == glue_toks(tokens_view(tokens@), lex_from(s, i as int)),
        decreases s.len() - i,
    {
        let ghost pre = tokens_view(tokens@);
        let c = chars[i];
        if c == ' ' || c == '\t' {
            i = i + 1;
        } else if c == '|' {
            tokens.push(Token::Pipe);
            assert(tokens_view(tokens@) =~= pre + seq![Tok::Pipe]);
            assert(pre + seq![Tok::Pipe] + Seq::empty() =~= pre + seq![Tok::Pipe]);
            proof { lemma_glue_cons(pre, Tok::Pipe, lex_from(s, i + 1)); }
            i = i + 1;
        } else if c == '>' {
            if i + 1 < chars.len() && chars[i + 1] == '>' {
                tokens.push(Token::RedirectAppend);
                assert(tokens_view(tokens@) =~= pre + seq![Tok::RedirectAppend]);
                proof { lemma_glue_cons(pre, Tok::RedirectAppend, lex_from(s, i + 2)); }
                i = i + 2;
            } else {
                tokens.push(Token::RedirectOut);
                assert(tokens_view(tokens@) =~= pre + seq![Tok::RedirectOut]);
                proof { lemma_glue_cons(pre, Tok::RedirectOut, lex_from(s, i + 1)); }
                i = i + 1;
            }
        } else if c == '<' {
            tokens.push(Token::RedirectIn);
            assert(tokens_view(tokens@) =~= pre + seq![Tok::RedirectIn]);
            proof { lemma_glue_cons(pre, Tok::RedirectIn, lex_from(s, i + 1)); }
            i = i + 1;
        } else if c == '\'' {
            let j = find_char_exec(chars.as_slice(), i + 1, '\'');
            proof {
                lemma_find_char_from(s, i + 1, '\'');
            }
            if j >= chars.len() {
                return Err(ParseError::UnterminatedQuote);
            }
            let w = string_of_range(chars.as_slice(), i + 1, j);
            let ghost wv = w@;
            tokens.push(Token::Word(w));
            assert(tokens_view(tokens@) =~= pre + seq![Tok::Word(wv)]);
            proof { lemma_glue_cons(pre, Tok::Word(wv), lex_from(s, j + 1)); }
            i = j + 1;
        } else if c == '"' {
            let mut word = String::new();
            let mut k = i + 1;
            assert(word@ + Seq::<char>::empty() =~= word@);
            while k < chars.len() && chars[k] != '"'
                invariant
                    chars@ == s,
                    i < k <= s.len(),
                    dq_scan(s, i + 1) == glue_dq(word@, dq_scan(s, k as int)),
                decreases s.len() - k,
            {
                let ghost wb = word@;
                if chars[k] == '\\' && k + 1 < chars.len() && (chars[k + 1] == '"' || chars[k
                    + 1] == '\\' || chars[k + 1] == '$') {
                    push_char(&mut word, chars[k + 1]);
                    proof { lemma_glue_dq_step(wb, s[k + 1], dq_scan(s, k + 2)); }
                    k = k + 2;
                } else {
                    push_char(&mut word, chars[k]);
                    proof { lemma_glue_dq_step(wb, s[k as int], dq_scan(s, k + 1)); }
                    k = k + 1;
                }
            }
            if k >= chars.len() {
                return Err(ParseError::UnterminatedQuote);
            }
            proof {
                assert(dq_scan(s, k as int) == Some((Seq::<char>::empty(), k as int)));
                assert(word@ + Seq::<char>::empty() =~= word@);
            }
            let ghost wv = word@;
            tokens.push(Token::Word(word));
            assert(tokens_view(tokens@) =~= pre + seq![Tok::Word(wv)]);
            proof { lemma_glue_cons(pre, Tok::Word(wv), lex_from(s, k + 1)); }
            i = k + 1;
        } else {
            let start = i;
            let mut j = i;
            while j < chars.len() && !(chars[j] == ' ' || chars[j] == '\t' || chars[j] == '|'
                || chars[j] == '>' || chars[j] == '<' || chars[j] == '\'' || chars[j] == '"')
                invariant
                    chars@ == s,
                    start <= j <= s.len(),
                    word_end(s, start as int) == word_end(s, j as int),
                decreases s.len() - j,
            {
                j = j + 1;
            }
            let w = string_of_range(chars.as_slice(), start, j);
            let ghost wv = w@;
            tokens.push(Token::Word(w));
            assert(tokens_view(tokens@) =~= pre + seq![Tok::Word(wv)]);
            proof { lemma_glue_cons(pre, Tok::Word(wv), lex_from(s, j as int)); }
            i = j;
        }
    }
    assert(tokens_view(tokens@) + Seq::<Tok>::empty() =~= tokens_view(tokens@));
    Ok(tokens)
}

/// `w` in front of a double-quote scan.
pub open spec fn glue_dq(w: Seq<char>, r: Option<(Seq<char>, int)>) -> Option<(Seq<char>, int)> {
    match r {
        Some((w2, j)) => Some((w + w2, j)),
        None => None,
    }
}

proof fn lemma_glue_dq_step(w: Seq<char>, c: char, r: Option<(Seq<char>, int)>)
    ensures
        glue_dq(w, match r {
            Some((w2, j)) => Some((seq![c] + w2, j)),
            None => None,
        }) == glue_dq(w.push(c), r),
{
    match r {
        Some((w2, j)) => {
            assert(w + (seq![c] + w2) =~= w.push(c) + w2);
        },
        None => {},
    }
}

proof fn lemma_glue_cons(pre: Seq<Tok>, t: Tok, r: Result<Seq<Tok>, ParseError>)
    ensures
        glue_toks(pre, cons_tok(t, r)) == glue_toks(pre + seq![t], r),
{
    match r {
        Ok(ts) => {
            assert(pre + (seq![t] + ts) =~= pre + seq![t] + ts);
        },
        Err(e) => {},
    }
}


// ---------------------------------------------------------------------------
// From tokens to a pipeline
// ---------------------------------------------------------------------------

/// The command made of `words` (name first) and the pending redirects.
pub open spec fn finish_command(
    words: Seq<Seq<char>>,
    sin: Option<Seq<char>>,
    sout: Option<RedirectSpec>,
) -> CommandSpec {
    CommandSpec { name: words[0], args: words.drop_first(), stdin: sin, stdout: sout }
}

/// The pipeline that tokens `toks[i..]` complete, given the commands `cmds`
/// finished so far, the words of the current command and its pending redirects.
/// A redirect needs a word after it and applies to the command being built;
/// `|` needs a preceding word; the redirects of a trailing command without words
/// are dropped; a pipeline without commands is an error.
pub open spec fn build_from(
    toks: Seq<Tok>,
    i: int,
    cmds: Seq<CommandSpec>,
    words: Seq<Seq<char>>,
    sin: Option<Seq<char>>,
    sout: Option<RedirectSpec>,
) -> Result<Seq<CommandSpec>, ParseError>
    decreases toks.len() - i,
{
    if i < 0 || i >= toks.len() {
        let all = if words.len() > 0 {
            cmds.push(finish_command(words, sin, sout))
        } else {
            cmds
        };
        if all.len() == 0 {
            Err(ParseError::EmptyInput)
        } else {
            Ok(all)
        }
    } else {
        match toks[i] {
            Tok::Word(w) => build_from(toks, i + 1, cmds, words.push(w), sin, sout),
            Tok::Pipe => if words.len() == 0 {
                Err(ParseError::UnexpectedPipe)
            } else {
                build_from(
                    toks,
                    i + 1,
                    cmds.push(finish_command(words, sin, sout)),
                    Seq::empty(),
                    None,
                    None,
                )
            },
            Tok::RedirectOut => if i + 1 >= toks.len() {
                Err(ParseError::MissingRedirectTarget)
            } else {
                match toks[i + 1] {
                    Tok::Word(t) => build_from(
                        toks,
                        i + 2,
                        cmds,
                        words,
                        sin,
                        Some(RedirectSpec::Overwrite(t)),
                    ),
                    _ => Err(ParseError::MissingRedirectTarget),
                }
            },
            Tok::RedirectAppend => if i + 1 >= toks.len() {
                Err(ParseError::MissingRedirectTarget)
            } else {
                match toks[i + 1] {
                    Tok::Word(t) => build_from(
                        toks,
                        i + 2,
                        cmds,
                        words,
                        sin,
                        Some(RedirectSpec::Append(t)),
                    ),
                    _ => Err(ParseError::MissingRedirectTarget),
                }
            },
            Tok::RedirectIn => if i + 1 >= toks.len() {
                Err(ParseError::MissingRedirectTarget)
            } else {
                match toks[i + 1] {
                    Tok::Word(t) => build_from(toks, i + 2, cmds, words, Some(t), sout),
                    _ => Err(ParseError::MissingRedirectTarget),
                }
            },
        }
    }
}

/// What parsing a whole line gives: the trimmed line is lexed, then built into
/// a pipeline; a blank line is `EmptyInput`.
pub open spec fn parse_spec(input: Seq<char>) -> Result<Seq<CommandSpec>, ParseError> {
    let t = trim(input);
    if t.len() == 0 {
        Err(ParseError::EmptyInput)
    } else {
        match lex_from(t, 0) {
            Err(e) => Err(e),
            Ok(toks) => build_from(toks, 0, Seq::empty(), Seq::empty(), None, None),
        }
    }
}

/// Turn accumulated words + redirects into a Command struct.
fn finalize_command(
    words: &mut Vec<String>,
    stdin_redirect: &mut Option<String>,
    stdout_redirect: &mut Option<Redirect>,
) -> (r: Result<Command, ParseError>)
    ensures
        old(words)@.len() == 0 ==> r == Err::<Command, ParseError>(ParseError::EmptyCommand)
            && final(words)@ == old(words)@ && *final(stdin_redirect) == *old(stdin_redirect)
            && *final(stdout_redirect) == *old(stdout_redirect),
        old(words)@.len() > 0 ==> r is Ok && r->Ok_0@ == finish_command(
            strings_view(old(words)@),
            opt_view(*old(stdin_redirect)),
            opt_redirect_view(*old(stdout_redirect)),
        ) && final(words)@.len() == 0 && *final(stdin_redirect) is None
            && *final(stdout_redirect) is None,
{
    if words.len() == 0 {
        return Err(ParseError::EmptyCommand);
    }
    let ghost ws = strings_view(words@);
    let name = words.remove(0);
    let mut args: Vec<String> = Vec::new();
    std::mem::swap(&mut args, words);
    assert(strings_view(args@) =~= ws.drop_first());
    let cmd = Command {
        name,
        args,
        stdin_redirect: stdin_redirect.take(),
        stdout_redirect: stdout_redirect.take(),
    };
    Ok(cmd)
}

/// Build a Pipeline from a list of tokens.
fn build_pipeline(tokens: Vec<Token>) -> (r: Result<Pipeline, ParseError>)
    ensures
        r matches Ok(p) ==> build_from(tokens_view(tokens@), 0, Seq::empty(), Seq::empty(), None, None)
            == Ok::<Seq<CommandSpec>, ParseError>(p@),
        r matches Err(e) ==> build_from(tokens_view(tokens@), 0, Seq::empty(), Seq::empty(), None, None)
            == Err::<Seq<CommandSpec>, ParseError>(e),
{
    let ghost toks = tokens_view(tokens@);
    let mut commands: Vec<Command> = Vec::new();
    let mut current_words: Vec<String> = Vec::new();
    let mut stdin_redirect: Option<String> = None;
    let mut stdout_redirect: Option<Redirect> = None;
    assert(commands@.map_values(|c: Command| c@) =~= Seq::<CommandSpec>::empty());
    assert(strings_view(current_words@) =~= Seq::<Seq<char>>::empty());
    let mut i: usize = 0;
    while i < tokens.len()
        invariant
            toks == tokens_view(tokens@),
            i <= tokens@.len(),
            build_from(toks, 0, Seq::empty(), Seq::empty(), None, None) == build_from(
                toks,
                i as int,
                commands@.map_values(|c: Command| c@),
                strings_view(current_words@),
                opt_view(stdin_redirect),
                opt_redirect_view(stdout_redirect),
            ),
        decreases tokens@.len() - i,
    {
        let ghost cv = commands@.map_values(|c: Command| c@);
        let ghost wv = strings_view(current_words@);
        assert(toks[i as int] == tokens@[i as int]@);
        match &tokens[i] {
            Token::Word(w) => {
                current_words.push(w.clone());
                assert(strings_view(current_words@) =~= wv.push(w@));
                i = i + 1;
            },
            Token::Pipe => {
                if current_words.len() == 0 {
                    return Err(ParseError::UnexpectedPipe);
                }
                let cmd = finalize_command(
                    &mut current_words,
                    &mut stdin_redirect,
                    &mut stdout_redirect,
                );
                match cmd {
                    Ok(c) => {
                        let ghost c_v = c@;
                        commands.push(c);
                        assert(commands@.map_values(|c: Command| c@) =~= cv.push(c_v));
                        assert(strings_view(current_words@) =~= Seq::<Seq<char>>::empty());
                    },
                    Err(e) => {
                        return Err(e);
                    },
                }
                i = i + 1;
            },
            Token::RedirectOut => {
                i = i + 1;
                if i >= tokens.len() {
                    return Err(ParseError::MissingRedirectTarget);
                }
                assert(toks[i as int] == tokens@[i as int]@);
                if let Token::Word(target) = &tokens[i] {
                    stdout_redirect = Some(Redirect::Overwrite(target.clone()));
                    i = i + 1;
                } else {
                    return Err(ParseError::MissingRedirectTarget);
                }
            },
            Token::RedirectAppend => {
                i = i + 1;
                if i >= tokens.len() {
                    return Err(ParseError::MissingRedirectTarget);
                }
                assert(toks[i as int] == tokens@[i as int]@);
                if let Token::Word(target) = &tokens[i] {
                    stdout_redirect = Some(Redirect::Append(target.clone()));
                    i = i + 1;
                } else {
                    return Err(ParseError::MissingRedirectTarget);
                }
            },
            Token::RedirectIn => {
                i = i + 1;
                if i >= tokens.len() {
                    return Err(ParseError::MissingRedirectTarget);
                }
                assert(toks[i as int] == tokens@[i as int]@);
                if let Token::Word(target) = &tokens[i] {
                    stdin_redirect = Some(target.clone());
                    i = i + 1;
                } else {
                    return Err(ParseError::MissingRedirectTarget);
                }
            },
        }
    }
    if current_words.len() > 0 {
        let ghost cv = commands@.map_values(|c: Command| c@);
        let cmd = finalize_command(&mut current_words, &mut stdin_redirect, &mut stdout_redirect);
        match cmd {
            Ok(c) => {
                let ghost c_v = c@;
                commands.push(c);
                assert(commands@.map_values(|c: Command| c@) =~= cv.push(c_v));
            },
            Err(e) => {
                return Err(e);
            },
        }
    }
    if commands.len() == 0 {
        return Err(ParseError::EmptyInput);
    }
    Ok(Pipeline { commands })
}

impl Pipeline {
    /// Parse a raw input line into a Pipeline.
    pub fn parse(input: &str) -> (r: Result<Self, ParseError>)
        ensures
            r matches Ok(p) ==> parse_spec(input@) == Ok::<Seq<CommandSpec>, ParseError>(p@),
            r matches Err(e) ==> parse_spec(input@) == Err::<Seq<CommandSpec>, ParseError>(e),
    {
        let trimmed = trim_str(input);
        if trimmed.unicode_len() == 0 {
            return Err(ParseError::EmptyInput);
        }
        let tokens = match tokenize(trimmed) {
            Ok(t) => t,
            Err(e) => {
                return Err(e);
            },
        };
        build_pipeline(tokens)
    }

    /// Check if this pipeline is a single command (no pipes).
    pub fn is_single(&self) -> (r: bool)
        ensures
            r == (self@.len() == 1),
    {
        self.commands.len() == 1
    }

    /// Get the first (or only) command.
    pub fn first(&self) -> (r: Option<&Command>)
        ensures
            self@.len() == 0 ==> r is None,
            self@.len() > 0 ==> r is Some && r->0@ == self@[0],
    {
        if self.commands.len() == 0 {
            None
        } else {
            Some(&self.commands[0])
        }
    }
}

impl ParseError {
    /// The message that describes this error.
    pub fn message(&self) -> (r: &'static str)
        ensures
            r@ == self.message_spec(),
    {
        match self {
            ParseError::EmptyInput => "empty input",
            ParseError::UnterminatedQuote => "unterminated quote",
            ParseError::UnexpectedPipe => "unexpected pipe '|'",
            ParseError::UnexpectedRedirect => "unexpected redirect",
            ParseError::MissingRedirectTarget => "missing redirect target",
            ParseError::EmptyCommand => "empty command in pipeline",
        }
    }

    /// The message that describes this error.
    pub open spec fn message_spec(&self) -> Seq<char> {
        match self {
            ParseError::EmptyInput => "empty input"@,
            ParseError::UnterminatedQuote => "unterminated quote"@,
            ParseError::UnexpectedPipe => "unexpected pipe '|'"@,
            ParseError::UnexpectedRedirect => "unexpected redirect"@,
            ParseError::MissingRedirectTarget => "missing redirect target"@,
            ParseError::EmptyCommand => "empty command in pipeline"@,
        }
    }
}

/// Expand glob patterns (* and ?) in a word. Matching names needs a file
/// system, which the executor has: the word is returned as it is, whether or
/// not it holds glob characters.
pub fn expand_glob(pattern: &str) -> (r: Vec<String>)
    ensures
        r@.len() == 1,
        r@[0]@ == pattern@,
{
    let mut r = Vec::new();
    r.push(String::from_str(pattern));
    r
}


// ---------------------------------------------------------------------------
// Command history
// ---------------------------------------------------------------------------

/// No two neighbouring entries are equal.
pub open spec fn no_adjacent_repeats(e: Seq<Seq<char>>) -> bool {
    forall|i: int| 0 <= i < e.len() - 1 ==> #[trigger] e[i] != e[i + 1]
}

/// Every entry has at least one character.
pub open spec fn all_non_empty(e: Seq<Seq<char>>) -> bool {
    forall|i: int| 0 <= i < e.len() ==> (#[trigger] e[i]).len() > 0
}

/// Every entry is its own trim: no blanks or tabs at either end.
pub open spec fn all_trimmed(e: Seq<Seq<char>>) -> bool {
    forall|i: int| 0 <= i < e.len() ==> trim(#[trigger] e[i]) == e[i]
}

/// The entries after `push(line)`: the trimmed line is appended unless it is
/// blank or repeats the last entry; the oldest entry makes room when full.
pub open spec fn history_after_push(e: Seq<Seq<char>>, max: nat, line: Seq<char>) -> Seq<Seq<char>> {
    let t = trim(line);
    if t.len() == 0 || (e.len() > 0 && e.last() == t) {
        e
    } else if e.len() >= max {
        e.drop_first().push(t)
    } else {
        e.push(t)
    }
}

/// Command history for up/down arrow recall.
pub struct History {
    entries: Vec<String>,
    max_entries: usize,
    cursor: usize,
}

impl History {
    /// The stored lines, oldest first.
    pub closed spec fn entries_view(&self) -> Seq<Seq<char>> {
        strings_view(self.entries@)
    }

    /// The most entries kept.
    pub closed spec fn max(&self) -> nat {
        self.max_entries as nat
    }

    /// The recall position: `entries_view().len()` means "past the newest".
    pub closed spec fn cursor(&self) -> nat {
        self.cursor as nat
    }

    #[verifier::type_invariant]
    closed spec fn wf(&self) -> bool {
        &&& self.cursor <= self.entries@.len()
        &&& self.entries@.len() <= self.max_entries
        &&& no_adjacent_repeats(strings_view(self.entries@))
        &&& all_non_empty(strings_view(self.entries@))
        &&& all_trimmed(strings_view(self.entries@))
    }

    /// The entries are bounded, non-empty, never repeated back to back, and the
    /// cursor stays within them.
    pub open spec fn invariants_hold(&self) -> bool {
        &&& self.entries_view().len() <= self.max()
        &&& self.cursor() <= self.entries_view().len()
        &&& no_adjacent_repeats(self.entries_view())
        &&& all_non_empty(self.entries_view())
        &&& all_trimmed(self.entries_view())
    }

    /// Create a new command history.
    pub fn new(max_entries: usize) -> (r: Self)
        ensures
            r.entries_view() == Seq::<Seq<char>>::empty(),
            r.max() == max_entries,
            r.cursor() == 0,
            r.invariants_hold(),
    {
        let r = History { entries: Vec::new(), max_entries, cursor: 0 };
        assert(strings_view(r.entries@) =~= Seq::<Seq<char>>::empty());
        r
    }

    /// Add an entry to history.
    pub fn push(&mut self, line: &str)
        requires
            old(self).max() > 0 || trim(line@).len() == 0,
        ensures
            final(self).entries_view() == history_after_push(
                old(self).entries_view(),
                old(self).max(),
                line@,
            ),
            final(self).max() == old(self).max(),
            final(self).entries_view() == old(self).entries_view() ==> final(self).cursor()
                == old(self).cursor(),
            final(self).entries_view() != old(self).entries_view() ==> final(self).cursor()
                == final(self).entries_view().len(),
            final(self).invariants_hold(),
    {
        proof {
            use_type_invariant(&*self);
        }
        let trimmed = trim_str(line);
        let tc = chars_of(trimmed);
        if tc.len() == 0 {
            return;
        }
        let n = self.entries.len();
        if n > 0 {
            let last = chars_of(self.entries[n - 1].as_str());
            if crate::text::chars_eq(last.as_slice(), tc.as_slice()) {
                return;
            }
        }
        let ghost e = strings_view(self.entries@);
        let mut entries: Vec<String> = Vec::new();
        self.cursor = 0;
        std::mem::swap(&mut entries, &mut self.entries);
        if entries.len() >= self.max_entries {
            entries.remove(0);
            assert(strings_view(entries@) =~= e.drop_first());
        }
        let ghost kept = strings_view(entries@);
        entries.push(String::from_str(trimmed));
        assert(strings_view(entries@) =~= kept.push(trimmed@));
        proof {
            let e2 = strings_view(entries@);
            assert forall|i: int| 0 <= i < e2.len() - 1 implies #[trigger] e2[i] != e2[i + 1] by {
                if i + 1 < e2.len() - 1 {
                    assert(kept[i] != kept[i + 1]);
                } else if e.len() >= self.max_entries {
                    assert(kept[i] == e[e.len() - 1]);
                } else {
                    assert(kept[i] == e[e.len() - 1]);
                }
            }
            assert forall|i: int| 0 <= i < e2.len() implies (#[trigger] e2[i]).len() > 0 by {
                if i < e2.len() - 1 {
                    assert(e2[i] == kept[i]);
                }
            }
            crate::text::law_trim_idempotent(line@);
            assert forall|i: int| 0 <= i < e2.len() implies trim(#[trigger] e2[i]) == e2[i] by {
                if i < e2.len() - 1 {
                    assert(e2[i] == kept[i]);
                    if e.len() >= self.max_entries {
                        assert(kept[i] == e[i + 1]);
                    } else {
                        assert(kept[i] == e[i]);
                    }
                }
            }
            assert(e2.last() == trimmed@);
            if e.len() > 0 {
                assert(e.last() != trimmed@);
            }
            assert(e2 != e);
        }
        let len = entries.len();
        self.entries = entries;
        self.cursor = len;
    }

    /// Move cursor up (older) and return the entry, if any.
    pub fn prev(&mut self) -> (r: Option<&str>)
        ensures
            final(self).entries_view() == old(self).entries_view(),
            final(self).max() == old(self).max(),
            old(self).cursor() > 0 ==> final(self).cursor() == old(self).cursor() - 1,
            old(self).cursor() > 0 ==> r is Some && r->0@ == old(self).entries_view()[old(
                self,
            ).cursor() - 1],
            old(self).cursor() == 0 ==> r is None && final(self).cursor() == 0,
            final(self).invariants_hold(),
    {
        proof {
            use_type_invariant(&*self);
        }
        if self.cursor > 0 {
            self.cursor = self.cursor - 1;
            Some(self.entries[self.cursor].as_str())
        } else {
            None
        }
    }

    /// Move cursor down (newer) and return the entry, if any; moving past the
    /// newest entry gives `None` (an empty line).
    pub fn next(&mut self) -> (r: Option<&str>)
        ensures
            final(self).entries_view() == old(self).entries_view(),
            final(self).max() == old(self).max(),
            old(self).cursor() < old(self).entries_view().len() ==> final(self).cursor() == old(
                self,
            ).cursor() + 1,
            old(self).cursor() < old(self).entries_view().len() && final(self).cursor() < old(
                self,
            ).entries_view().len() ==> r is Some && r->0@ == old(self).entries_view()[(old(
                self,
            ).cursor() + 1) as int],
            old(self).cursor() + 1 >= old(self).entries_view().len() ==> r is None,
            old(self).cursor() >= old(self).entries_view().len() ==> final(self).cursor() == old(
                self,
            ).cursor(),
            final(self).invariants_hold(),
    {
        proof {
            use_type_invariant(&*self);
        }
        if self.cursor < self.entries.len() {
            self.cursor = self.cursor + 1;
            if self.cursor >= self.entries.len() {
                None
            } else {
                Some(self.entries[self.cursor].as_str())
            }
        } else {
            None
        }
    }

    /// Reset cursor to the end (current position).
    pub fn reset_cursor(&mut self)
        ensures
            final(self).entries_view() == old(self).entries_view(),
            final(self).max() == old(self).max(),
            final(self).cursor() == old(self).entries_view().len(),
            final(self).invariants_hold(),
    {
        proof {
            use_type_invariant(&*self);
        }
        self.cursor = self.entries.len();
    }

    /// Get all history entries.
    pub fn entries(&self) -> (r: &[String])
        ensures
            strings_view(r@) == self.entries_view(),
    {
        self.entries.as_slice()
    }

    /// The most entries the history keeps.
    pub fn max_entries(&self) -> (r: usize)
        ensures
            r == self.max(),
    {
        self.max_entries
    }

    /// Number of entries in history.
    pub fn len(&self) -> (r: usize)
        ensures
            r == self.entries_view().len(),
    {
        self.entries.len()
    }

    /// Check if history is empty.
    pub fn is_empty(&self) -> (r: bool)
        ensures
            r == (self.entries_view().len() == 0),
    {
        self.entries.len() == 0
    }
}


// ---------------------------------------------------------------------------
// Tab completion
// ---------------------------------------------------------------------------

/// Tab-completion result.
pub struct Completion {
    /// Possible completions.
    pub candidates: Vec<String>,
    /// Common prefix among all candidates.
    pub common_prefix: String,
}

/// Length of the common prefix of `a` and `b` from position `i` on.
pub open spec fn common_len_from(a: Seq<char>, b: Seq<char>, i: int) -> int
    decreases a.len() - i,
{
    if 0 <= i < a.len() && i < b.len() && a[i] == b[i] {
        common_len_from(a, b, i + 1)
    } else {
        i
    }
}

/// The common prefix length of `ss[0]` with `ss[k..]`, not above `acc`.
pub open spec fn prefix_len_from(ss: Seq<Seq<char>>, k: int, acc: int) -> int
    decreases ss.len() - k,
{
    if k < 1 || k >= ss.len() {
        acc
    } else {
        let c = common_len_from(ss[0], ss[k], 0);
        prefix_len_from(ss, k + 1, if c < acc { c } else { acc })
    }
}

/// The longest common prefix of the strings `ss` (empty when there are none).
pub open spec fn common_prefix(ss: Seq<Seq<char>>) -> Seq<char> {
    if ss.len() == 0 {
        Seq::empty()
    } else {
        ss[0].take(prefix_len_from(ss, 1, ss[0].len() as int))
    }
}

/// The candidates for completing `partial`: the built-in names that start
/// with it, for the first word; none otherwise (file names need a file system).
pub open spec fn completion_candidates(partial: Seq<char>, is_first_word: bool) -> Seq<Seq<char>> {
    if is_first_word {
        crate::ai::builtin_names().filter(|n: Seq<char>| starts_with(n, partial))
    } else {
        Seq::empty()
    }
}

/// Facts about `common_len_from`.
pub proof fn lemma_common_len(a: Seq<char>, b: Seq<char>, i: int)
    requires
        0 <= i <= a.len(),
        i <= b.len(),
    ensures
        i <= common_len_from(a, b, i) <= a.len(),
        common_len_from(a, b, i) <= b.len(),
        forall|k: int| i <= k < common_len_from(a, b, i) ==> a[k] == b[k],
    decreases a.len() - i,
{
    if i < a.len() && i < b.len() && a[i] == b[i] {
        lemma_common_len(a, b, i + 1);
    }
}

/// Facts about `prefix_len_from`.
pub proof fn lemma_prefix_len(ss: Seq<Seq<char>>, k: int, acc: int)
    requires
        ss.len() > 0,
        1 <= k,
        0 <= acc <= ss[0].len(),
        forall|j: int| 1 <= j < k && j < ss.len() ==> acc <= common_len_from(ss[0], #[trigger] ss[j], 0),
    ensures
        0 <= prefix_len_from(ss, k, acc) <= acc,
        forall|j: int| 1 <= j < ss.len() ==> prefix_len_from(ss, k, acc) <= common_len_from(ss[0], #[trigger] ss[j], 0),
    decreases ss.len() - k,
{
    if k < ss.len() {
        let c = common_len_from(ss[0], ss[k], 0);
        lemma_common_len(ss[0], ss[k], 0);
        let acc2 = if c < acc { c } else { acc };
        lemma_prefix_len(ss, k + 1, acc2);
    }
}

/// `a` and `b` agree on their first `n` characters, so their common length
/// counted from `i` reaches at least `n`.
proof fn lemma_common_len_reaches(a: Seq<char>, b: Seq<char>, i: int, n: int)
    requires
        0 <= i <= n <= a.len(),
        n <= b.len(),
        a.take(n) == b.take(n),
    ensures
        common_len_from(a, b, i) >= n,
    decreases n - i,
{
    if i < n {
        assert(a[i] == a.take(n)[i]);
        assert(b[i] == b.take(n)[i]);
        lemma_common_len_reaches(a, b, i + 1, n);
    } else {
        lemma_common_len(a, b, i);
    }
}

/// The folded prefix length is either the starting bound or one of the
/// common lengths it was folded with.
proof fn lemma_prefix_len_attained(ss: Seq<Seq<char>>, k: int, acc: int)
    requires
        1 <= k,
    ensures
        prefix_len_from(ss, k, acc) == acc
            || exists|j: int| k <= j < ss.len() && prefix_len_from(ss, k, acc) == common_len_from(ss[0], #[trigger] ss[j], 0),
    decreases ss.len() - k,
{
    if k < ss.len() {
        let c = common_len_from(ss[0], ss[k], 0);
        let acc2 = if c < acc { c } else { acc };
        lemma_prefix_len_attained(ss, k + 1, acc2);
        if prefix_len_from(ss, k + 1, acc2) != acc2 {
            let j = choose|j: int| k + 1 <= j < ss.len() && prefix_len_from(ss, k + 1, acc2) == common_len_from(ss[0], #[trigger] ss[j], 0);
            assert(k <= j < ss.len());
        } else if c < acc {
            assert(prefix_len_from(ss, k, acc) == common_len_from(ss[0], ss[k], 0));
        }
    }
}

/// The common prefix is the longest: any text that every candidate starts
/// with is a prefix of it.
pub proof fn law_common_prefix_is_longest(ss: Seq<Seq<char>>, q: Seq<char>)
    requires
        ss.len() > 0,
        forall|j: int| 0 <= j < ss.len() ==> starts_with(#[trigger] ss[j], q),
    ensures
        starts_with(common_prefix(ss), q),
{
    lemma_prefix_len(ss, 1, ss[0].len() as int);
    lemma_prefix_len_attained(ss, 1, ss[0].len() as int);
    let p = prefix_len_from(ss, 1, ss[0].len() as int);
    assert(starts_with(ss[0], q));
    let n = q.len() as int;
    if p != ss[0].len() {
        let j = choose|j: int| 1 <= j < ss.len() && p == common_len_from(ss[0], #[trigger] ss[j], 0);
        assert(starts_with(ss[j], q));
        assert(ss[0].take(n) == ss[j].take(n));
        lemma_common_len_reaches(ss[0], ss[j], 0, n);
    }
    assert(n <= p);
    assert(common_prefix(ss).take(n) =~= q);
}

/// The common prefix is a prefix of every candidate.
pub proof fn law_common_prefix_is_prefix(ss: Seq<Seq<char>>)
    ensures
        forall|j: int| 0 <= j < ss.len() ==> starts_with(#[trigger] ss[j], common_prefix(ss)),
{
    if ss.len() > 0 {
        lemma_prefix_len(ss, 1, ss[0].len() as int);
        let p = prefix_len_from(ss, 1, ss[0].len() as int);
        assert forall|j: int| 0 <= j < ss.len() implies starts_with(#[trigger] ss[j], common_prefix(ss)) by {
            if j > 0 {
                lemma_common_len(ss[0], ss[j], 0);
                assert(ss[j].take(p) =~= ss[0].take(p));
            }
        }
    }
}

/// Find the longest common prefix among a set of strings.
fn common_prefix_of(strings: &[String]) -> (r: String)
    ensures
        r@ == common_prefix(strings_view(strings@)),
{
    let ghost ss = strings_view(strings@);
    if strings.len() == 0 {
        return String::new();
    }
    let first = chars_of(strings[0].as_str());
    let mut prefix_len: usize = first.len();
    let mut k: usize = 1;
    while k < strings.len()
        invariant
            ss == strings_view(strings@),
            ss.len() > 0,
            first@ == ss[0],
            1 <= k <= ss.len(),
            prefix_len <= first@.len(),
            prefix_len_from(ss, 1, ss[0].len() as int) == prefix_len_from(ss, k as int, prefix_len as int),
        decreases ss.len() - k,
    {
        let other = chars_of(strings[k].as_str());
        let mut i: usize = 0;
        while i < first.len() && i < other.len() && first[i] == other[i]
            invariant
                i <= first@.len(),
                common_len_from(first@, other@, 0) == common_len_from(first@, other@, i as int),
            decreases first@.len() - i,
        {
            i = i + 1;
        }
        assert(other@ == ss[k as int]);
        if i < prefix_len {
            prefix_len = i;
        }
        k = k + 1;
    }
    string_of_range(first.as_slice(), 0, prefix_len)
}

/// Tab completion engine.
pub struct TabCompleter {
    /// Known built-in command names for completion.
    builtins: Vec<String>,
}

impl TabCompleter {
    #[verifier::type_invariant]
    closed spec fn wf(&self) -> bool {
        strings_view(self.builtins@) == crate::ai::builtin_names()
    }

    /// The command names this completer offers.
    pub closed spec fn names(&self) -> Seq<Seq<char>> {
        strings_view(self.builtins@)
    }

    /// Create a new tab completer with the built-in command list.
    pub fn new() -> (r: Self)
        ensures
            r.names() == crate::ai::builtin_names(),
    {
        let names = crate::ai::KNOWN_COMMANDS;
        let mut builtins: Vec<String> = Vec::new();
        let mut i: usize = 0;
        while i < names.len()
            invariant
                names@ == crate::ai::KNOWN_COMMANDS@,
                i <= names@.len(),
                strings_view(builtins@) == crate::ai::builtin_names().take(i as int),
            decreases names@.len() - i,
        {
            let ghost before = strings_view(builtins@);
            let name = names[i];
            assert(name@ == crate::ai::builtin_names()[i as int]);
            builtins.push(String::from_str(name));
            assert(crate::ai::builtin_names().take(i + 1) =~= crate::ai::builtin_names().take(
                i as int,
            ).push(name@));
            assert(strings_view(builtins@) =~= before.push(name@));
            i = i + 1;
        }
        assert(crate::ai::builtin_names().take(i as int) =~= crate::ai::builtin_names());
        TabCompleter { builtins }
    }

    /// Complete a partial input. Returns possible completions.
    /// If `is_first_word` is true, complete against command names.
    /// Otherwise, completion would be against filenames (requires VFS).
    pub fn complete(&self, partial: &str, is_first_word: bool) -> (r: Completion)
        ensures
            strings_view(r.candidates@) == completion_candidates(partial@, is_first_word),
            r.common_prefix@ == common_prefix(completion_candidates(partial@, is_first_word)),
    {
        proof {
            use_type_invariant(self);
        }
        let ghost pred = |n: Seq<char>| starts_with(n, partial@);
        let ghost names = crate::ai::builtin_names();
        let mut candidates: Vec<String> = Vec::new();
        if is_first_word {
            let pc = chars_of(partial);
            let mut i: usize = 0;
            assert(names.take(0).filter(pred) =~= Seq::<Seq<char>>::empty()) by {
                reveal(Seq::filter);
            }
            assert(strings_view(candidates@) =~= Seq::<Seq<char>>::empty());
            while i < self.builtins.len()
                invariant
                    strings_view(self.builtins@) == names,
                    pc@ == partial@,
                    pred == (|n: Seq<char>| starts_with(n, partial@)),
                    i <= names.len(),
                    strings_view(candidates@) == names.take(i as int).filter(pred),
                decreases names.len() - i,
            {
                let ghost before = strings_view(candidates@);
                assert(names.take(i + 1).drop_last() =~= names.take(i as int));
                let bc = chars_of(self.builtins[i].as_str());
                assert(bc@ == names[i as int]);
                if crate::text::starts_with_exec(bc.as_slice(), pc.as_slice()) {
                    candidates.push(self.builtins[i].clone());
                    assert(strings_view(candidates@) =~= before.push(names[i as int]));
                } else {
                    assert(strings_view(candidates@) =~= before);
                }
                assert(strings_view(candidates@) == names.take(i + 1).filter(pred)) by {
                    reveal(Seq::filter);
                }
                i = i + 1;
            }
            assert(names.take(i as int) =~= names);
        } else {
            assert(strings_view(candidates@) =~= Seq::<Seq<char>>::empty());
        }
        let common_prefix = common_prefix_of(candidates.as_slice());
        Completion { candidates, common_prefix }
    }
}

impl Default for TabCompleter {
    fn default() -> (r: Self)
        ensures
            r.names() == crate::ai::builtin_names(),
    {
        Self::new()
    }
}

/// A command line that parses gives at least one command.
pub proof fn law_parsed_pipeline_nonempty(input: Seq<char>)
    ensures
        parse_spec(input) matches Ok(cmds) ==> cmds.len() > 0,
{
    let t = trim(input);
    if t.len() > 0 {
        if let Ok(toks) = lex_from(t, 0) {
            lemma_build_from_nonempty(toks, 0, Seq::empty(), Seq::empty(), None, None);
        }
    }
}

/// How many `|` tokens stand before position `j`.
pub open spec fn pipes_before(toks: Seq<Tok>, j: int) -> nat
    decreases j,
{
    if j <= 0 || j > toks.len() {
        0
    } else {
        pipes_before(toks, j - 1) + if toks[j - 1] is Pipe {
            1nat
        } else {
            0nat
        }
    }
}

/// Whether a `< target` stands in `toks` between the `k`-th and the next `|`.
pub open spec fn stdin_written_in(toks: Seq<Tok>, k: int, target: Seq<char>) -> bool {
    exists|j: int|
        0 <= j && j + 1 < toks.len() && toks[j] is RedirectIn && toks[j + 1] == Tok::Word(target)
            && #[trigger] pipes_before(toks, j) == k
}

/// A `<` redirect belongs to the command it is written in: in the pipeline
/// built from tokens, each command that reads a file has a `< file` among its
/// own tokens, between the `|` before it and the `|` after it; so a command
/// after `|` reads the pipe unless it has a `<` of its own.
pub proof fn law_stdin_redirect_stays_with_its_command(toks: Seq<Tok>)
    ensures
        build_from(toks, 0, Seq::empty(), Seq::empty(), None, None) matches Ok(all) ==> forall|k: int|
            0 <= k < all.len() && (#[trigger] all[k]).stdin is Some ==> stdin_written_in(toks, k, all[k].stdin->0),
{
    lemma_stdin_redirects(toks, 0, Seq::empty(), Seq::empty(), None, None);
}

/// On a whole command line: each command of the parsed pipeline that reads a
/// file has a `< file` among the line's tokens that stand between the `|`
/// before it and the `|` after it.
pub proof fn law_parsed_stdin_redirects(input: Seq<char>)
    ensures
        parse_spec(input) matches Ok(all) ==> lex_from(trim(input), 0) matches Ok(toks) && forall|k: int|
            0 <= k < all.len() && (#[trigger] all[k]).stdin is Some ==> stdin_written_in(toks, k, all[k].stdin->0),
{
    let t = trim(input);
    if t.len() > 0 {
        if let Ok(toks) = lex_from(t, 0) {
            law_stdin_redirect_stays_with_its_command(toks);
        }
    }
}

/// The commands that building finishes from position `i` keep those already
/// finished, and each new one that reads a file has its `<` in its own stretch
/// of tokens.
proof fn lemma_stdin_redirects(
    toks: Seq<Tok>,
    i: int,
    cmds: Seq<CommandSpec>,
    words: Seq<Seq<char>>,
    sin: Option<Seq<char>>,
    sout: Option<RedirectSpec>,
)
    requires
        0 <= i <= toks.len(),
        pipes_before(toks, i) == cmds.len(),
        sin matches Some(p) ==> stdin_written_in(toks, cmds.len() as int, p),
    ensures
        build_from(toks, i, cmds, words, sin, sout) matches Ok(all) ==> {
            &&& all.len() >= cmds.len()
            &&& forall|k: int| 0 <= k < cmds.len() ==> #[trigger] all[k] == cmds[k]
            &&& forall|k: int|
                cmds.len() <= k < all.len() && (#[trigger] all[k]).stdin is Some ==> stdin_written_in(toks, k, all[k].stdin->0)
        },
    decreases toks.len() - i,
{
    if i < toks.len() {
        match toks[i] {
            Tok::Word(w) => {
                assert(pipes_before(toks, i + 1) == pipes_before(toks, i));
                lemma_stdin_redirects(toks, i + 1, cmds, words.push(w), sin, sout);
            },
            Tok::Pipe => {
                if words.len() > 0 {
                    let c2 = cmds.push(finish_command(words, sin, sout));
                    assert(pipes_before(toks, i + 1) == pipes_before(toks, i) + 1);
                    lemma_stdin_redirects(toks, i + 1, c2, Seq::empty(), None, None);
                    if let Ok(all) = build_from(toks, i, cmds, words, sin, sout) {
                        assert(all[cmds.len() as int] == c2[cmds.len() as int]);
                    }
                }
            },
            Tok::RedirectOut => {
                if i + 1 < toks.len() {
                    if let Tok::Word(t) = toks[i + 1] {
                        assert(pipes_before(toks, i + 1) == pipes_before(toks, i));
                        assert(pipes_before(toks, i + 2) == pipes_before(toks, i + 1));
                        lemma_stdin_redirects(toks, i + 2, cmds, words, sin, Some(RedirectSpec::Overwrite(t)));
                    }
                }
            },
            Tok::RedirectAppend => {
                if i + 1 < toks.len() {
                    if let Tok::Word(t) = toks[i + 1] {
                        assert(pipes_before(toks, i + 1) == pipes_before(toks, i));
                        assert(pipes_before(toks, i + 2) == pipes_before(toks, i + 1));
                        lemma_stdin_redirects(toks, i + 2, cmds, words, sin, Some(RedirectSpec::Append(t)));
                    }
                }
            },
            Tok::RedirectIn => {
                if i + 1 < toks.len() {
                    if let Tok::Word(t) = toks[i + 1] {
                        assert(pipes_before(toks, i + 1) == pipes_before(toks, i));
                        assert(pipes_before(toks, i + 2) == pipes_before(toks, i + 1));
                        assert(stdin_written_in(toks, cmds.len() as int, t)) by {
                            assert(pipes_before(toks, i) == cmds.len());
                        }
                        lemma_stdin_redirects(toks, i + 2, cmds, words, Some(t), sout);
                    }
                }
            },
        }
    } else {
        if let Ok(all) = build_from(toks, i, cmds, words, sin, sout) {
            if words.len() > 0 {
                assert(all == cmds.push(finish_command(words, sin, sout)));
            }
        }
    }
}

/// Building from any point yields, when it succeeds, at least one command.
proof fn lemma_build_from_nonempty(
    toks: Seq<Tok>,
    i: int,
    cmds: Seq<CommandSpec>,
    words: Seq<Seq<char>>,
    sin: Option<Seq<char>>,
    sout: Option<RedirectSpec>,
)
    ensures
        build_from(toks, i, cmds, words, sin, sout) matches Ok(all) ==> all.len() > 0,
    decreases toks.len() - i,
{
    if 0 <= i < toks.len() {
        match toks[i] {
            Tok::Word(w) => lemma_build_from_nonempty(toks, i + 1, cmds, words.push(w), sin, sout),
            Tok::Pipe => if words.len() > 0 {
                lemma_build_from_nonempty(toks, i + 1, cmds.push(finish_command(words, sin, sout)), Seq::empty(), None, None);
            },
            Tok::RedirectOut => if i + 1 < toks.len() {
                if let Tok::Word(t) = toks[i + 1] {
                    lemma_build_from_nonempty(toks, i + 2, cmds, words, sin, Some(RedirectSpec::Overwrite(t)));
                }
            },
            Tok::RedirectAppend => if i + 1 < toks.len() {
                if let Tok::Word(t) = toks[i + 1] {
                    lemma_build_from_nonempty(toks, i + 2, cmds, words, sin, Some(RedirectSpec::Append(t)));
                }
            },
            Tok::RedirectIn => if i + 1 < toks.len() {
                if let Tok::Word(t) = toks[i + 1] {
                    lemma_build_from_nonempty(toks, i + 2, cmds, words, Some(t), sout);
                }
            },
        }
    }
}

/// Every entry a history holds equals its own trim: a push keeps entries
/// that are trimmed trimmed.
pub proof fn law_history_entries_trimmed(entries: Seq<Seq<char>>, max: nat, line: Seq<char>)
    requires
        max > 0,
        all_trimmed(entries),
    ensures
        all_trimmed(history_after_push(entries, max, line)),
{
    crate::text::law_trim_idempotent(line);
    let t = trim(line);
    if t.len() == 0 || (entries.len() > 0 && entries.last() == t) {
    } else if entries.len() >= max {
        let e2 = entries.drop_first().push(t);
        assert forall|i: int| 0 <= i < e2.len() implies trim(#[trigger] e2[i]) == e2[i] by {
            if i < e2.len() - 1 {
                assert(e2[i] == entries[i + 1]);
            }
        }
    } else {
        let e2 = entries.push(t);
        assert forall|i: int| 0 <= i < e2.len() implies trim(#[trigger] e2[i]) == e2[i] by {
            if i < e2.len() - 1 {
                assert(e2[i] == entries[i]);
            }
        }
    }
}

/// Pushing the same line twice in a row stores it once.
pub proof fn law_history_push_twice(entries: Seq<Seq<char>>, max: nat, line: Seq<char>)
    requires
        max > 0,
    ensures
        history_after_push(history_after_push(entries, max, line), max, line)
            == history_after_push(entries, max, line),
{
}

/// A push keeps the history within its bound, and a non-blank line ends up as
/// the newest entry, trimmed.
pub proof fn law_history_push_bounded(entries: Seq<Seq<char>>, max: nat, line: Seq<char>)
    requires
        max > 0,
        entries.len() <= max,
    ensures
        history_after_push(entries, max, line).len() <= max,
        trim(line).len() > 0 ==> history_after_push(entries, max, line).last() == trim(line),
{
}

/// Every completion of a first word is a built-in name that starts with what
/// was typed; other words get no completion.
pub proof fn law_completions_extend_partial(partial: Seq<char>, is_first_word: bool, k: int)
    requires
        0 <= k < completion_candidates(partial, is_first_word).len(),
    ensures
        is_first_word,
        starts_with(completion_candidates(partial, is_first_word)[k], partial),
        crate::ai::builtin_names().contains(completion_candidates(partial, is_first_word)[k]),
{
    let names = crate::ai::builtin_names();
    let f = |n: Seq<char>| starts_with(n, partial);
    let c = names.filter(f)[k];
    names.lemma_filter_pred(f, k);
    assert(names.filter(f).contains(c));
    names.lemma_filter_contains_rev(f, c);
}

} // verus!
