//! Basic shell scripting support.
//!
//! Executes a file as a sequence of commands. Supports:
//! - Sequential command execution
//! - if/else/fi conditionals
//! - for loops (for x in list; do ... done)
//! - while loops (while CONDITION; do ... done)
//! - functions (NAME() { ... }), called by their name; the words after
//!   the name become the variables `1`, `2`, ...
//! - Variable assignment (VAR=value)
//! - Comments (# ...)
//! - Exit codes ($?)
//!
//! Intentionally minimal.

use vstd::prelude::*;
use crate::env::is_name_char;
use crate::parser::opt_view;
use crate::text::{
    char_is_numeric, chars_eq, chars_of, decimal, decimal_int, ends_with, find_char_exec, find_char_from,
    find_seq_exec, find_seq_from, is_alphanumeric, is_numeric, lemma_find_char_from,
    lemma_find_seq_from, lines, lines_of, push_str, starts_with, starts_with_exec,
    ends_with_exec, string_of, string_of_range, chars_range, trim, trim_chars, u64_to_string, words,
    words_of,
};

verus! {

/// A copy of each statement of `v`.
fn clone_statements(v: &Vec<Statement>) -> (r: Vec<Statement>)
    ensures
        stmts_view(r@) == stmts_view(v@),
    decreases v@, 0int,
{
    let mut r: Vec<Statement> = Vec::new();
    let mut i: usize = 0;
    while i < v.len()
        invariant
            i <= v@.len(),
            stmts_view(r@) == stmts_view(v@).take(i as int),
        decreases v@.len() - i,
    {
        assert(decreases_to!(v@ => v@[i as int]));
        let c = v[i].clone();
        let ghost before = stmts_view(r@);
        r.push(c);
        assert(stmts_view(r@) =~= before.push(stmt_view(c)));
        assert(stmts_view(v@).take(i + 1) =~= stmts_view(v@).take(i as int).push(stmt_view(v@[i as int])));
        i = i + 1;
    }
    assert(stmts_view(v@).take(i as int) =~= stmts_view(v@));
    r
}

impl Clone for Statement {
    fn clone(&self) -> (r: Self)
        ensures
            stmt_view(r) == stmt_view(*self),
        decreases *self, 1int,
    {
        match self {
            Statement::Command(c) => Statement::Command(c.clone()),
            Statement::Assignment { name, value } => Statement::Assignment { name: name.clone(), value: value.clone() },
            Statement::If { condition, then_body, else_body } => {
                let t = clone_statements(then_body);
                let e = clone_statements(else_body);
                let st = Statement::If { condition: condition.clone(), then_body: t, else_body: e };
                assert(stmt_view(st)->If_then_body =~= stmts_view(then_body@));
                assert(stmt_view(*self)->If_then_body =~= stmts_view(then_body@));
                assert(stmt_view(st)->If_else_body =~= stmts_view(else_body@));
                assert(stmt_view(*self)->If_else_body =~= stmts_view(else_body@));
                st
            },
            Statement::For { variable, items, body } => {
                let b = clone_statements(body);
                let mut its: Vec<String> = Vec::new();
                let mut k: usize = 0;
                while k < items.len()
                    invariant
                        k <= items@.len(),
                        its@.map_values(|s: String| s@) == items@.map_values(|s: String| s@).take(k as int),
                    decreases items@.len() - k,
                {
                    let ghost before = its@.map_values(|s: String| s@);
                    let item = items[k].clone();
                    its.push(item);
                    assert(its@.map_values(|s: String| s@) =~= before.push(item@));
                    assert(items@.map_values(|s: String| s@).take(k + 1) =~= items@.map_values(|s: String| s@).take(k as int).push(item@));
                    k = k + 1;
                }
                assert(items@.map_values(|s: String| s@).take(k as int) =~= items@.map_values(|s: String| s@));
                let st = Statement::For { variable: variable.clone(), items: its, body: b };
                assert(stmt_view(st)->For_body =~= stmts_view(body@));
                assert(stmt_view(*self)->For_body =~= stmts_view(body@));
                st
            },
            Statement::While { condition, body } => {
                let b = clone_statements(body);
                let st = Statement::While { condition: condition.clone(), body: b };
                assert(stmt_view(st)->While_body =~= stmts_view(body@));
                assert(stmt_view(*self)->While_body =~= stmts_view(body@));
                st
            },
            Statement::Function { name, body } => {
                let b = clone_statements(body);
                let st = Statement::Function { name: name.clone(), body: b };
                assert(stmt_view(st)->Function_body =~= stmts_view(body@));
                assert(stmt_view(*self)->Function_body =~= stmts_view(body@));
                st
            },
            Statement::Comment(c) => Statement::Comment(c.clone()),
            Statement::Empty => Statement::Empty,
        }
    }
}

/// A parsed script ready for execution.
#[derive(Debug)]
pub struct Script {
    /// Top-level statements in order.
    pub statements: Vec<Statement>,
}

/// A single statement in a script.
#[derive(Debug)]
pub enum Statement {
    /// A shell command line to execute.
    Command(String),
    /// Variable assignment: VAR=value
    Assignment { name: String, value: String },
    /// if/else/fi conditional.
    If {
        /// Condition command (exit code 0 = true).
        condition: String,
        /// Commands to run if condition is true.
        then_body: Vec<Statement>,
        /// Commands to run if condition is false.
        else_body: Vec<Statement>,
    },
    /// for loop: for VAR in ITEMS; do BODY; done
    For {
        /// Loop variable name.
        variable: String,
        /// Items to iterate over.
        items: Vec<String>,
        /// Loop body statements.
        body: Vec<Statement>,
    },
    /// while loop: while CONDITION; do BODY; done
    While {
        /// Condition command (exit code 0 = go on).
        condition: String,
        /// Loop body statements.
        body: Vec<Statement>,
    },
    /// Function definition: NAME() { BODY }
    Function {
        /// The name that calls it.
        name: String,
        /// The statements a call runs.
        body: Vec<Statement>,
    },
    /// A comment (preserved for debugging, not executed).
    Comment(String),
    /// An empty line (ignored).
    Empty,
}

/// The model of a statement.
pub enum StmtSpec {
    Command(Seq<char>),
    Assignment { name: Seq<char>, value: Seq<char> },
    If { condition: Seq<char>, then_body: Seq<StmtSpec>, else_body: Seq<StmtSpec> },
    For { variable: Seq<char>, items: Seq<Seq<char>>, body: Seq<StmtSpec> },
    While { condition: Seq<char>, body: Seq<StmtSpec> },
    Function { name: Seq<char>, body: Seq<StmtSpec> },
    Comment(Seq<char>),
    Empty,
}

/// The model of a statement.
pub open spec fn stmt_view(s: Statement) -> StmtSpec
    decreases s,
{
    match s {
        Statement::Command(l) => StmtSpec::Command(l@),
        Statement::Assignment { name, value } => StmtSpec::Assignment { name: name@, value: value@ },
        Statement::If { condition, then_body, else_body } => StmtSpec::If {
            condition: condition@,
            then_body: Seq::new(
                then_body@.len(),
                |i: int|
                    if 0 <= i < then_body@.len() {
                        stmt_view(then_body@[i])
                    } else {
                        StmtSpec::Empty
                    },
            ),
            else_body: Seq::new(
                else_body@.len(),
                |i: int|
                    if 0 <= i < else_body@.len() {
                        stmt_view(else_body@[i])
                    } else {
                        StmtSpec::Empty
                    },
            ),
        },
        Statement::For { variable, items, body } => StmtSpec::For {
            variable: variable@,
            items: items@.map_values(|s: String| s@),
            body: Seq::new(
                body@.len(),
                |i: int|
                    if 0 <= i < body@.len() {
                        stmt_view(body@[i])
                    } else {
                        StmtSpec::Empty
                    },
            ),
        },
        Statement::While { condition, body } => StmtSpec::While {
            condition: condition@,
            body: Seq::new(
                body@.len(),
                |i: int|
                    if 0 <= i < body@.len() {
                        stmt_view(body@[i])
                    } else {
                        StmtSpec::Empty
                    },
            ),
        },
        Statement::Function { name, body } => StmtSpec::Function {
            name: name@,
            body: Seq::new(
                body@.len(),
                |i: int|
                    if 0 <= i < body@.len() {
                        stmt_view(body@[i])
                    } else {
                        StmtSpec::Empty
                    },
            ),
        },
        Statement::Comment(c) => StmtSpec::Comment(c@),
        Statement::Empty => StmtSpec::Empty,
    }
}

/// The models of a statement list.
pub open spec fn stmts_view(v: Seq<Statement>) -> Seq<StmtSpec> {
    Seq::new(v.len(), |i: int| stmt_view(v[i]))
}

// ---------------------------------------------------------------------------
// The grammar
// ---------------------------------------------------------------------------

/// A trimmed line that ends a block: one of `terms`, alone or followed by a space.
pub open spec fn is_terminator(line: Seq<char>, terms: Seq<Seq<char>>) -> bool {
    exists|k: int| 0 <= k < terms.len() && (line == #[trigger] terms[k] || starts_with(line, terms[k].push(' ')))
}

/// `NAME=value` with a name of letters, digits and `_` that does not start with a digit.
pub open spec fn assignment_of(line: Seq<char>) -> Option<(Seq<char>, Seq<char>)> {
    let eq = find_char_from(line, 0, '=');
    if 0 < eq < line.len() && (forall|k: int| 0 <= k < eq ==> is_name_char(#[trigger] line[k]))
        && !char_is_numeric(line[0]) {
        Some((line.take(eq), line.skip(eq + 1)))
    } else {
        None
    }
}

/// `line N: message`.
pub open spec fn line_error(n: nat, message: Seq<char>) -> Seq<char> {
    "line "@ + decimal(n) + ": "@ + message
}

/// `st` in front of a block's statements.
pub open spec fn cons_stmt(st: StmtSpec, r: Result<(Seq<StmtSpec>, int), Seq<char>>) -> Result<
    (Seq<StmtSpec>, int),
    Seq<char>,
> {
    match r {
        Ok((sts, j)) => Ok((seq![st] + sts, j)),
        Err(e) => Err(e),
    }
}

/// The condition of an `if` line: the text after `if `, without a trailing
/// `; then`; a bare `then` has no condition.
pub open spec fn if_condition(first: Seq<char>) -> Option<Seq<char>> {
    let rest = trim(first.skip(3));
    if ends_with(rest, "; then"@) {
        Some(trim(rest.take(rest.len() - 6)))
    } else if rest == "then"@ {
        None
    } else {
        Some(rest)
    }
}

/// The name a trimmed line `NAME() {` opens a function with: letters, digits
/// and `_`, not starting with a digit.
pub open spec fn function_header(line: Seq<char>) -> Option<Seq<char>> {
    let n = line.len() - 4;
    if line.len() > 4 && ends_with(line, "() {"@) && (forall|k: int| 0 <= k < n ==> is_name_char(#[trigger] line[k]))
        && !char_is_numeric(line[0]) {
        Some(line.take(n))
    } else {
        None
    }
}

/// The function defined from line `i`, with the index of the line after its
/// closing `}`.
pub open spec fn parse_function_spec(ls: Seq<Seq<char>>, i: int) -> Result<(StmtSpec, int), Seq<char>>
    decreases ls.len() - i, 0int,
{
    if i < 0 || i >= ls.len() {
        Err(Seq::empty())
    } else {
        match function_header(trim(ls[i])) {
            None => Err(line_error((i + 1) as nat, "expected a function"@)),
            Some(name) => match parse_block_spec(ls, i + 1, seq!["}"@]) {
                Err(e) => Err(e),
                Ok((body, d)) => if d >= ls.len() || trim(ls[d]) != "}"@ {
                    Err(line_error((i + 1) as nat, "unterminated function (missing })"@))
                } else {
                    Ok((StmtSpec::Function { name, body }, d + 1))
                },
            },
        }
    }
}

/// The statements of lines `ls[i..]` up to the first line (trimmed) that is a
/// terminator, with the index of that line (or the end).
pub open spec fn parse_block_spec(ls: Seq<Seq<char>>, i: int, terms: Seq<Seq<char>>) -> Result<
    (Seq<StmtSpec>, int),
    Seq<char>,
>
    decreases ls.len() - i, 1int,
{
    if i < 0 || i >= ls.len() {
        Ok((Seq::empty(), i))
    } else {
        let line = trim(ls[i]);
        if is_terminator(line, terms) {
            Ok((Seq::empty(), i))
        } else if line.len() == 0 {
            cons_stmt(StmtSpec::Empty, parse_block_spec(ls, i + 1, terms))
        } else if line[0] == '#' {
            cons_stmt(StmtSpec::Comment(line), parse_block_spec(ls, i + 1, terms))
        } else if assignment_of(line) is Some {
            let (name, value) = assignment_of(line)->0;
            cons_stmt(
                StmtSpec::Assignment { name, value },
                parse_block_spec(ls, i + 1, terms),
            )
        } else if function_header(line) is Some {
            match parse_function_spec(ls, i) {
                Err(e) => Err(e),
                Ok((st, j)) => if j <= i || j > ls.len() {
                    Err(Seq::empty())
                } else {
                    cons_stmt(st, parse_block_spec(ls, j, terms))
                },
            }
        } else if starts_with(line, "if "@) {
            match parse_if_spec(ls, i) {
                Err(e) => Err(e),
                Ok((st, j)) => if j <= i || j > ls.len() {
                    Err(Seq::empty())
                } else {
                    cons_stmt(st, parse_block_spec(ls, j, terms))
                },
            }
        } else if starts_with(line, "while "@) {
            match parse_while_spec(ls, i) {
                Err(e) => Err(e),
                Ok((st, j)) => if j <= i || j > ls.len() {
                    Err(Seq::empty())
                } else {
                    cons_stmt(st, parse_block_spec(ls, j, terms))
                },
            }
        } else if starts_with(line, "for "@) {
            match parse_for_spec(ls, i) {
                Err(e) => Err(e),
                Ok((st, j)) => if j <= i || j > ls.len() {
                    Err(Seq::empty())
                } else {
                    cons_stmt(st, parse_block_spec(ls, j, terms))
                },
            }
        } else {
            cons_stmt(StmtSpec::Command(line), parse_block_spec(ls, i + 1, terms))
        }
    }
}

/// Where the body of a block opened on line `i` starts: the line after, or
/// the one after that when the opening line lacks `suffix` and the next line
/// is the lone `word` (`then` or `do` on a line of its own).
pub open spec fn body_start(ls: Seq<Seq<char>>, i: int, opening: Seq<char>, suffix: Seq<char>, word: Seq<char>) -> int {
    if !ends_with(opening, suffix) && i + 1 < ls.len() && trim(ls[i + 1]) == word {
        i + 2
    } else {
        i + 1
    }
}

/// The `if` statement starting at line `i`, with the index of the line after
/// its `fi`; `then` may stand on the line after `if CONDITION`.
pub open spec fn parse_if_spec(ls: Seq<Seq<char>>, i: int) -> Result<(StmtSpec, int), Seq<char>>
    decreases ls.len() - i, 0int,
{
    if i < 0 || i >= ls.len() {
        Err(Seq::empty())
    } else {
        let first = trim(ls[i]);
        if !starts_with(first, "if "@) {
            Err(line_error((i + 1) as nat, "expected 'if'"@))
        } else if if_condition(first) is None {
            Err(line_error((i + 1) as nat, "if with no condition"@))
        } else {
            let condition = if_condition(first)->0;
            let start = body_start(ls, i, trim(first.skip(3)), "; then"@, "then"@);
            match parse_block_spec(ls, start, seq!["else"@, "fi"@]) {
                Err(e) => Err(e),
                Ok((then_body, then_end)) => if then_end >= ls.len() {
                    Err(line_error((i + 1) as nat, "unterminated if (missing fi)"@))
                } else if then_end <= i {
                    Err(Seq::empty())
                } else if trim(ls[then_end]) == "else"@ {
                    match parse_block_spec(ls, then_end + 1, seq!["fi"@]) {
                        Err(e) => Err(e),
                        Ok((else_body, fi)) => if fi >= ls.len() || trim(ls[fi]) != "fi"@ {
                            Err(line_error((then_end + 1) as nat, "unterminated else (missing fi)"@))
                        } else {
                            Ok((StmtSpec::If { condition, then_body, else_body }, fi + 1))
                        },
                    }
                } else {
                    Ok(
                        (
                            StmtSpec::If { condition, then_body, else_body: Seq::empty() },
                            then_end + 1,
                        ),
                    )
                },
            }
        }
    }
}

/// The items of a `for` line's remainder, without a trailing `; do`.
pub open spec fn for_items(remainder: Seq<char>) -> Seq<Seq<char>> {
    if ends_with(remainder, "; do"@) {
        words(trim(remainder.take(remainder.len() - 4)))
    } else {
        words(remainder)
    }
}

/// The `for` statement starting at line `i`, with the index of the line after
/// its `done`; `do` may stand on the line after `for VAR in ITEMS`.
pub open spec fn parse_for_spec(ls: Seq<Seq<char>>, i: int) -> Result<(StmtSpec, int), Seq<char>>
    decreases ls.len() - i, 0int,
{
    if i < 0 || i >= ls.len() {
        Err(Seq::empty())
    } else {
        let first = trim(ls[i]);
        if !starts_with(first, "for "@) {
            Err(line_error((i + 1) as nat, "expected 'for'"@))
        } else {
            let rest = trim(first.skip(4));
            match find_seq_from(rest, 0, " in "@) {
                None => Err(line_error((i + 1) as nat, "missing 'in' in for loop"@)),
                Some(p) => {
                    let variable = trim(rest.take(p));
                    let items = for_items(trim(rest.skip(p + 4)));
                    let start = body_start(ls, i, trim(rest.skip(p + 4)), "; do"@, "do"@);
                    match parse_block_spec(ls, start, seq!["done"@]) {
                        Err(e) => Err(e),
                        Ok((body, d)) => if d >= ls.len() || trim(ls[d]) != "done"@ {
                            Err(line_error((i + 1) as nat, "unterminated for loop (missing done)"@))
                        } else {
                            Ok((StmtSpec::For { variable, items, body }, d + 1))
                        },
                    }
                },
            }
        }
    }
}

/// The condition of a `while` line: the text after `while `, without a
/// trailing `; do`; a bare `do` has no condition.
pub open spec fn while_condition(first: Seq<char>) -> Option<Seq<char>> {
    let rest = trim(first.skip(6));
    if ends_with(rest, "; do"@) {
        Some(trim(rest.take(rest.len() - 4)))
    } else if rest == "do"@ {
        None
    } else {
        Some(rest)
    }
}

/// The `while` statement starting at line `i`, with the index of the line
/// after its `done`; `do` may stand on the line after `while CONDITION`.
pub open spec fn parse_while_spec(ls: Seq<Seq<char>>, i: int) -> Result<(StmtSpec, int), Seq<char>>
    decreases ls.len() - i, 0int,
{
    if i < 0 || i >= ls.len() {
        Err(Seq::empty())
    } else {
        let first = trim(ls[i]);
        if !starts_with(first, "while "@) {
            Err(line_error((i + 1) as nat, "expected 'while'"@))
        } else if while_condition(first) is None {
            Err(line_error((i + 1) as nat, "while with no condition"@))
        } else {
            let condition = while_condition(first)->0;
            let start = body_start(ls, i, trim(first.skip(6)), "; do"@, "do"@);
            match parse_block_spec(ls, start, seq!["done"@]) {
                Err(e) => Err(e),
                Ok((body, d)) => if d >= ls.len() || trim(ls[d]) != "done"@ {
                    Err(line_error((i + 1) as nat, "unterminated while loop (missing done)"@))
                } else {
                    Ok((StmtSpec::While { condition, body }, d + 1))
                },
            }
        }
    }
}

/// What parsing a script's source gives.
pub open spec fn parse_script_spec(source: Seq<char>) -> Result<Seq<StmtSpec>, Seq<char>> {
    match parse_block_spec(lines(source), 0, Seq::empty()) {
        Ok((sts, _)) => Ok(sts),
        Err(e) => Err(e),
    }
}


// ---------------------------------------------------------------------------
// The parser
// ---------------------------------------------------------------------------

/// The characters of each string slice.
pub open spec fn strs_view(v: Seq<&'static str>) -> Seq<Seq<char>> {
    v.map_values(|t: &str| t@)
}

/// The characters of each line.
pub open spec fn lines_view(v: Seq<Vec<char>>) -> Seq<Seq<char>> {
    v.map_values(|l: Vec<char>| l@)
}

/// `pre` in front of a block's statements.
pub open spec fn glue_stmts(pre: Seq<StmtSpec>, r: Result<(Seq<StmtSpec>, int), Seq<char>>) -> Result<
    (Seq<StmtSpec>, int),
    Seq<char>,
> {
    match r {
        Ok((sts, j)) => Ok((pre + sts, j)),
        Err(e) => Err(e),
    }
}

proof fn lemma_glue_cons_stmt(pre: Seq<StmtSpec>, st: StmtSpec, r: Result<(Seq<StmtSpec>, int), Seq<char>>)
    ensures
        glue_stmts(pre, cons_stmt(st, r)) == glue_stmts(pre.push(st), r),
{
    match r {
        Ok((sts, j)) => {
            assert(pre + (seq![st] + sts) =~= pre.push(st) + sts);
        },
        Err(e) => {},
    }
}

/// `line N: message`.
fn line_error_exec(n: usize, message: &str) -> (r: String)
    ensures
        r@ == line_error(n as nat, message@),
{
    let mut out = String::from_str("line ");
    let d = u64_to_string(n as u64);
    push_str(&mut out, d.as_str());
    push_str(&mut out, ": ");
    push_str(&mut out, message);
    out
}

/// Whether the trimmed line ends a block.
fn is_terminator_exec(line: &[char], terms: &[&'static str]) -> (r: bool)
    ensures
        r == is_terminator(line@, strs_view(terms@)),
{
    let ghost tv = strs_view(terms@);
    let mut k: usize = 0;
    while k < terms.len()
        invariant
            tv == strs_view(terms@),
            k <= terms@.len(),
            forall|j: int| 0 <= j < k ==> !(line@ == #[trigger] tv[j] || starts_with(line@, tv[j].push(' '))),
        decreases terms@.len() - k,
    {
        let mut t = chars_of(terms[k]);
        assert(t@ == tv[k as int]);
        if chars_eq(line, t.as_slice()) {
            return true;
        }
        t.push(' ');
        if starts_with_exec(line, t.as_slice()) {
            return true;
        }
        k = k + 1;
    }
    false
}

/// A `NAME=value` assignment line, split at the `=`.
fn assignment_exec(line: &[char]) -> (r: Option<(Vec<char>, Vec<char>)>)
    ensures
        r matches Some((n, v)) ==> assignment_of(line@) == Some((n@, v@)),
        r is None ==> assignment_of(line@) is None,
{
    let eq = find_char_exec(line, 0, '=');
    proof {
        lemma_find_char_from(line@, 0, '=');
    }
    if eq == 0 || eq >= line.len() {
        return None;
    }
    let mut k: usize = 0;
    while k < eq
        invariant
            eq < line@.len(),
            eq == find_char_from(line@, 0, '='),
            k <= eq,
            forall|m: int| 0 <= m < k ==> is_name_char(#[trigger] line@[m]),
        decreases eq - k,
    {
        if !(is_alphanumeric(line[k]) || line[k] == '_') {
            assert(!is_name_char(line@[k as int]));
            return None;
        }
        k = k + 1;
    }
    if is_numeric(line[0]) {
        return None;
    }
    let name = crate::text::string_of_range(line, 0, eq);
    let mut n: Vec<char> = Vec::new();
    let mut v: Vec<char> = Vec::new();
    let mut k: usize = 0;
    while k < line.len()
        invariant
            eq < line@.len(),
            k <= line@.len(),
            n@ == line@.take(if k < eq { k as int } else { eq as int }),
            v@ == (if k <= eq + 1 { Seq::<char>::empty() } else { line@.subrange(eq + 1, k as int) }),
        decreases line@.len() - k,
    {
        if k < eq {
            n.push(line[k]);
            assert(line@.take(k + 1) =~= line@.take(k as int).push(line@[k as int]));
        } else if k > eq {
            v.push(line[k]);
            assert(line@.subrange(eq + 1, k + 1) =~= (if k <= eq + 1 { Seq::<char>::empty() } else { line@.subrange(eq + 1, k as int) }).push(line@[k as int]));
        }
        k = k + 1;
    }
    assert(v@ =~= line@.skip(eq + 1));
    Some((n, v))
}

/// Parse a block of lines into statements, starting at `start` line index.
/// `terms` are keywords that end the block (e.g., "fi", "done", "else").
/// Returns (statements, next_line_index).
fn parse_block(lines: &Vec<Vec<char>>, start: usize, terms: &[&'static str]) -> (r: Result<
    (Vec<Statement>, usize),
    String,
>)
    requires
        start <= lines@.len(),
    ensures
        r matches Ok((st, j)) ==> parse_block_spec(lines_view(lines@), start as int, strs_view(terms@))
            == Ok::<(Seq<StmtSpec>, int), Seq<char>>((stmts_view(st@), j as int)) && start <= j <= lines@.len(),
        r matches Err(e) ==> parse_block_spec(lines_view(lines@), start as int, strs_view(terms@))
            == Err::<(Seq<StmtSpec>, int), Seq<char>>(e@),
    decreases lines@.len() - start, 1int,
{
    let ghost lv = lines_view(lines@);
    let ghost tv = strs_view(terms@);
    let mut statements: Vec<Statement> = Vec::new();
    let mut i = start;
    assert(stmts_view(statements@) =~= Seq::<StmtSpec>::empty());
    assert(glue_stmts(Seq::empty(), parse_block_spec(lv, start as int, tv)) == parse_block_spec(lv, start as int, tv)) by {
        match parse_block_spec(lv, start as int, tv) {
            Ok((sts, j)) => { assert(Seq::<StmtSpec>::empty() + sts =~= sts); },
            Err(e) => {},
        }
    }
    while i < lines.len()
        invariant
            lv == lines_view(lines@),
            tv == strs_view(terms@),
            start <= i <= lines@.len(),
            parse_block_spec(lv, start as int, tv) == glue_stmts(stmts_view(statements@), parse_block_spec(lv, i as int, tv)),
        decreases lines@.len() - i,
    {
        let ghost pre = stmts_view(statements@);
        let line = trim_chars(lines[i].as_slice());
        assert(line@ == trim(lv[i as int]));
        if is_terminator_exec(line.as_slice(), terms) {
            assert(stmts_view(statements@) + Seq::<StmtSpec>::empty() =~= stmts_view(statements@));
            return Ok((statements, i));
        }
        let st: Statement;
        if line.len() == 0 {
            st = Statement::Empty;
            i = i + 1;
        } else if line[0] == '#' {
            st = Statement::Comment(string_of(line.as_slice()));
            i = i + 1;
        } else {
            match assignment_exec(line.as_slice()) {
                Some((n, v)) => {
                    st = Statement::Assignment { name: string_of(n.as_slice()), value: string_of(v.as_slice()) };
                    i = i + 1;
                },
                None => {
                    let header = function_header_exec(line.as_slice());
                    let if_word = chars_of("if ");
                    let for_word = chars_of("for ");
                    let while_word = chars_of("while ");
                    proof {
                        reveal_strlit("while ");
                    }
                    if header.is_some() {
                        match parse_function(lines, i) {
                            Err(e) => {
                                return Err(e);
                            },
                            Ok((s2, j)) => {
                                st = s2;
                                i = j;
                            },
                        }
                    } else if starts_with_exec(line.as_slice(), if_word.as_slice()) {
                        match parse_if(lines, i) {
                            Err(e) => {
                                return Err(e);
                            },
                            Ok((s2, j)) => {
                                st = s2;
                                i = j;
                            },
                        }
                    } else if starts_with_exec(line.as_slice(), while_word.as_slice()) {
                        match parse_while(lines, i) {
                            Err(e) => {
                                return Err(e);
                            },
                            Ok((s2, j)) => {
                                st = s2;
                                i = j;
                            },
                        }
                    } else if starts_with_exec(line.as_slice(), for_word.as_slice()) {
                        match parse_for(lines, i) {
                            Err(e) => {
                                return Err(e);
                            },
                            Ok((s2, j)) => {
                                st = s2;
                                i = j;
                            },
                        }
                    } else {
                        st = Statement::Command(string_of(line.as_slice()));
                        i = i + 1;
                    }
                },
            }
        }
        let ghost sv = stmt_view(st);
        statements.push(st);
        assert(stmts_view(statements@) =~= pre.push(sv));
        proof {
            lemma_glue_cons_stmt(pre, sv, parse_block_spec(lv, i as int, tv));
        }
    }
    assert(stmts_view(statements@) + Seq::<StmtSpec>::empty() =~= stmts_view(statements@));
    Ok((statements, i))
}

/// Parse an if/else/fi block starting at line `start`.
fn parse_if(lines: &Vec<Vec<char>>, start: usize) -> (r: Result<(Statement, usize), String>)
    requires
        start < lines@.len(),
    ensures
        r matches Ok((st, j)) ==> parse_if_spec(lines_view(lines@), start as int)
            == Ok::<(StmtSpec, int), Seq<char>>((stmt_view(st), j as int)) && start < j <= lines@.len(),
        r matches Err(e) ==> parse_if_spec(lines_view(lines@), start as int) == Err::<(StmtSpec, int), Seq<char>>(e@),
    decreases lines@.len() - start, 0int,
{
    let ghost lv = lines_view(lines@);
    let n = lines.len();
    let first = trim_chars(lines[start].as_slice());
    assert(first@ == trim(lv[start as int]));
    proof {
        reveal_strlit("if ");
    }
    let if_word = chars_of("if ");
    if !starts_with_exec(first.as_slice(), if_word.as_slice()) {
        return Err(line_error_exec(start + 1, "expected 'if'"));
    }
    let after = chars_range(first.as_slice(), 3, first.len());
    assert(after@ =~= first@.skip(3));
    let rest = trim_chars(after.as_slice());
    proof {
        reveal_strlit("; then");
    }
    let then_suffix = chars_of("; then");
    let then_word = chars_of("then");
    let ghost rest_v = rest@;
    let has_then = ends_with_exec(rest.as_slice(), then_suffix.as_slice());
    let condition: Vec<char> = if has_then {
        let c = chars_range(rest.as_slice(), 0, rest.len() - 6);
        assert(c@ =~= rest@.take(rest@.len() - 6));
        trim_chars(c.as_slice())
    } else if chars_eq(rest.as_slice(), then_word.as_slice()) {
        return Err(line_error_exec(start + 1, "if with no condition"));
    } else {
        rest
    };
    let mut body_from = start + 1;
    if !has_then && start + 1 < n {
        let next = trim_chars(lines[start + 1].as_slice());
        assert(next@ == trim(lv[start + 1]));
        if chars_eq(next.as_slice(), then_word.as_slice()) {
            body_from = start + 2;
        }
    }
    proof {
        reveal_strlit("then");
    }
    assert(body_from == body_start(lv, start as int, rest_v, "; then"@, "then"@));
    let else_fi: [&'static str; 2] = ["else", "fi"];
    assert(strs_view(else_fi@) =~= seq!["else"@, "fi"@]);
    let (then_body, then_end) = match parse_block(lines, body_from, else_fi.as_slice()) {
        Ok(p) => p,
        Err(e) => {
            return Err(e);
        },
    };
    if then_end >= lines.len() {
        return Err(line_error_exec(start + 1, "unterminated if (missing fi)"));
    }
    let term = trim_chars(lines[then_end].as_slice());
    assert(term@ == trim(lv[then_end as int]));
    let else_word = chars_of("else");
    let cond_s = string_of(condition.as_slice());
    if chars_eq(term.as_slice(), else_word.as_slice()) {
        let fi: [&'static str; 1] = ["fi"];
        assert(strs_view(fi@) =~= seq!["fi"@]);
        let (else_stmts, fi_line) = match parse_block(lines, then_end + 1, fi.as_slice()) {
            Ok(p) => p,
            Err(e) => {
                return Err(e);
            },
        };
        if fi_line >= lines.len() {
            return Err(line_error_exec(then_end + 1, "unterminated else (missing fi)"));
        }
        let fi_trim = trim_chars(lines[fi_line].as_slice());
        let fi_word = chars_of("fi");
        assert(fi_trim@ == trim(lv[fi_line as int]));
        if !chars_eq(fi_trim.as_slice(), fi_word.as_slice()) {
            return Err(line_error_exec(then_end + 1, "unterminated else (missing fi)"));
        }
        let st = Statement::If { condition: cond_s, then_body, else_body: else_stmts };
        assert(stmt_view(st) == StmtSpec::If {
            condition: condition@,
            then_body: stmts_view(then_body@),
            else_body: stmts_view(else_stmts@),
        }) by {
            assert(stmt_view(st)->If_then_body =~= stmts_view(then_body@));
            assert(stmt_view(st)->If_else_body =~= stmts_view(else_stmts@));
        }
        Ok((st, fi_line + 1))
    } else {
        let else_stmts: Vec<Statement> = Vec::new();
        let st = Statement::If { condition: cond_s, then_body, else_body: else_stmts };
        assert(stmt_view(st) == StmtSpec::If {
            condition: condition@,
            then_body: stmts_view(then_body@),
            else_body: Seq::empty(),
        }) by {
            assert(stmt_view(st)->If_then_body =~= stmts_view(then_body@));
            assert(stmt_view(st)->If_else_body =~= Seq::<StmtSpec>::empty());
        }
        Ok((st, then_end + 1))
    }
}

/// Parse a while loop starting at line `start`.
fn parse_while(lines: &Vec<Vec<char>>, start: usize) -> (r: Result<(Statement, usize), String>)
    requires
        start < lines@.len(),
    ensures
        r matches Ok((st, j)) ==> parse_while_spec(lines_view(lines@), start as int)
            == Ok::<(StmtSpec, int), Seq<char>>((stmt_view(st), j as int)) && start < j <= lines@.len(),
        r matches Err(e) ==> parse_while_spec(lines_view(lines@), start as int) == Err::<(StmtSpec, int), Seq<char>>(e@),
    decreases lines@.len() - start, 0int,
{
    let ghost lv = lines_view(lines@);
    let n = lines.len();
    let first = trim_chars(lines[start].as_slice());
    assert(first@ == trim(lv[start as int]));
    proof {
        reveal_strlit("while ");
        reveal_strlit("; do");
        reveal_strlit("do");
    }
    let while_word = chars_of("while ");
    if !starts_with_exec(first.as_slice(), while_word.as_slice()) {
        return Err(line_error_exec(start + 1, "expected 'while'"));
    }
    let after = chars_range(first.as_slice(), 6, first.len());
    assert(after@ =~= first@.skip(6));
    let rest = trim_chars(after.as_slice());
    let do_suffix = chars_of("; do");
    let do_word = chars_of("do");
    let ghost rest_v = rest@;
    let has_do = ends_with_exec(rest.as_slice(), do_suffix.as_slice());
    let condition: Vec<char> = if has_do {
        let c = chars_range(rest.as_slice(), 0, rest.len() - 4);
        assert(c@ =~= rest@.take(rest@.len() - 4));
        trim_chars(c.as_slice())
    } else if chars_eq(rest.as_slice(), do_word.as_slice()) {
        return Err(line_error_exec(start + 1, "while with no condition"));
    } else {
        rest
    };
    let mut body_from = start + 1;
    if !has_do && start + 1 < n {
        let next = trim_chars(lines[start + 1].as_slice());
        assert(next@ == trim(lv[start + 1]));
        if chars_eq(next.as_slice(), do_word.as_slice()) {
            body_from = start + 2;
        }
    }
    assert(body_from == body_start(lv, start as int, rest_v, "; do"@, "do"@));
    let done: [&'static str; 1] = ["done"];
    assert(strs_view(done@) =~= seq!["done"@]);
    let (body, done_line) = match parse_block(lines, body_from, done.as_slice()) {
        Ok(p) => p,
        Err(e) => {
            return Err(e);
        },
    };
    if done_line >= lines.len() {
        return Err(line_error_exec(start + 1, "unterminated while loop (missing done)"));
    }
    let d_trim = trim_chars(lines[done_line].as_slice());
    let done_word = chars_of("done");
    assert(d_trim@ == trim(lv[done_line as int]));
    if !chars_eq(d_trim.as_slice(), done_word.as_slice()) {
        return Err(line_error_exec(start + 1, "unterminated while loop (missing done)"));
    }
    let st = Statement::While { condition: string_of(condition.as_slice()), body };
    assert(stmt_view(st) == StmtSpec::While { condition: condition@, body: stmts_view(body@) }) by {
        assert(stmt_view(st)->While_body =~= stmts_view(body@));
    }
    Ok((st, done_line + 1))
}

/// The name a trimmed line `NAME() {` opens a function with.
fn function_header_exec(line: &[char]) -> (r: Option<Vec<char>>)
    ensures
        r matches Some(n) ==> function_header(line@) == Some(n@),
        r is None ==> function_header(line@) is None,
{
    proof {
        reveal_strlit("() {");
    }
    let opening = chars_of("() {");
    if line.len() <= 4 || !ends_with_exec(line, opening.as_slice()) {
        return None;
    }
    let n = line.len() - 4;
    let mut k: usize = 0;
    while k < n
        invariant
            n == line@.len() - 4,
            k <= n,
            forall|m: int| 0 <= m < k ==> is_name_char(#[trigger] line@[m]),
        decreases n - k,
    {
        if !(is_alphanumeric(line[k]) || line[k] == '_') {
            assert(!is_name_char(line@[k as int]));
            return None;
        }
        k = k + 1;
    }
    if is_numeric(line[0]) {
        return None;
    }
    let name = chars_range(line, 0, n);
    assert(name@ =~= line@.take(n as int));
    Some(name)
}

/// Parse a function definition starting at line `start`.
fn parse_function(lines: &Vec<Vec<char>>, start: usize) -> (r: Result<(Statement, usize), String>)
    requires
        start < lines@.len(),
    ensures
        r matches Ok((st, j)) ==> parse_function_spec(lines_view(lines@), start as int)
            == Ok::<(StmtSpec, int), Seq<char>>((stmt_view(st), j as int)) && start < j <= lines@.len(),
        r matches Err(e) ==> parse_function_spec(lines_view(lines@), start as int) == Err::<(StmtSpec, int), Seq<char>>(e@),
    decreases lines@.len() - start, 0int,
{
    let ghost lv = lines_view(lines@);
    let n = lines.len();
    let first = trim_chars(lines[start].as_slice());
    assert(first@ == trim(lv[start as int]));
    let name = match function_header_exec(first.as_slice()) {
        Some(n) => n,
        None => {
            return Err(line_error_exec(start + 1, "expected a function"));
        },
    };
    let close: [&'static str; 1] = ["}"];
    assert(strs_view(close@) =~= seq!["}"@]);
    let (body, close_line) = match parse_block(lines, start + 1, close.as_slice()) {
        Ok(p) => p,
        Err(e) => {
            return Err(e);
        },
    };
    if close_line >= lines.len() {
        return Err(line_error_exec(start + 1, "unterminated function (missing })"));
    }
    let c_trim = trim_chars(lines[close_line].as_slice());
    let close_word = chars_of("}");
    assert(c_trim@ == trim(lv[close_line as int]));
    if !chars_eq(c_trim.as_slice(), close_word.as_slice()) {
        return Err(line_error_exec(start + 1, "unterminated function (missing })"));
    }
    let st = Statement::Function { name: string_of(name.as_slice()), body };
    assert(stmt_view(st) == StmtSpec::Function { name: name@, body: stmts_view(body@) }) by {
        assert(stmt_view(st)->Function_body =~= stmts_view(body@));
    }
    Ok((st, close_line + 1))
}

/// Parse a for loop starting at line `start`.
fn parse_for(lines: &Vec<Vec<char>>, start: usize) -> (r: Result<(Statement, usize), String>)
    requires
        start < lines@.len(),
    ensures
        r matches Ok((st, j)) ==> parse_for_spec(lines_view(lines@), start as int)
            == Ok::<(StmtSpec, int), Seq<char>>((stmt_view(st), j as int)) && start < j <= lines@.len(),
        r matches Err(e) ==> parse_for_spec(lines_view(lines@), start as int) == Err::<(StmtSpec, int), Seq<char>>(e@),
    decreases lines@.len() - start, 0int,
{
    let ghost lv = lines_view(lines@);
    let n = lines.len();
    let first = trim_chars(lines[start].as_slice());
    assert(first@ == trim(lv[start as int]));
    proof {
        reveal_strlit("for ");
        reveal_strlit(" in ");
        reveal_strlit("; do");
    }
    let for_word = chars_of("for ");
    if !starts_with_exec(first.as_slice(), for_word.as_slice()) {
        return Err(line_error_exec(start + 1, "expected 'for'"));
    }
    let after = chars_range(first.as_slice(), 4, first.len());
    assert(after@ =~= first@.skip(4));
    let rest = trim_chars(after.as_slice());
    let in_word = chars_of(" in ");
    let in_pos = match find_seq_exec(rest.as_slice(), 0, in_word.as_slice()) {
        Some(p) => p,
        None => {
            return Err(line_error_exec(start + 1, "missing 'in' in for loop"));
        },
    };
    proof {
        lemma_find_seq_from(rest@, 0, " in "@);
    }
    let var_part = chars_range(rest.as_slice(), 0, in_pos);
    assert(var_part@ =~= rest@.take(in_pos as int));
    let variable = trim_chars(var_part.as_slice());
    let rest_len = rest.len();
    let rem_part = chars_range(rest.as_slice(), in_pos + 4, rest_len);
    assert(rem_part@ =~= rest@.skip(in_pos + 4));
    let remainder = trim_chars(rem_part.as_slice());
    let do_suffix = chars_of("; do");
    let ghost rem_v = remainder@;
    let has_do = ends_with_exec(remainder.as_slice(), do_suffix.as_slice());
    let items_src: Vec<char> = if has_do {
        let c = chars_range(remainder.as_slice(), 0, remainder.len() - 4);
        assert(c@ =~= remainder@.take(remainder@.len() - 4));
        trim_chars(c.as_slice())
    } else {
        remainder
    };
    let item_words = words_of(items_src.as_slice());
    let mut items: Vec<String> = Vec::new();
    let mut k: usize = 0;
    while k < item_words.len()
        invariant
            k <= item_words@.len(),
            items@.map_values(|s: String| s@) == item_words@.map_values(|w: Vec<char>| w@).take(k as int),
        decreases item_words@.len() - k,
    {
        let ghost before = items@.map_values(|s: String| s@);
        let item = string_of(item_words[k].as_slice());
        assert(item@ == item_words@.map_values(|w: Vec<char>| w@)[k as int]);
        items.push(item);
        assert(items@.map_values(|s: String| s@) =~= before.push(item@));
        assert(item_words@.map_values(|w: Vec<char>| w@).take(k + 1) =~= item_words@.map_values(|w: Vec<char>| w@).take(k as int).push(item@));
        k = k + 1;
    }
    assert(item_words@.map_values(|w: Vec<char>| w@).take(k as int) =~= item_words@.map_values(|w: Vec<char>| w@));
    let mut body_from = start + 1;
    if !has_do && start + 1 < n {
        let next = trim_chars(lines[start + 1].as_slice());
        assert(next@ == trim(lv[start + 1]));
        let do_word = chars_of("do");
        proof {
            reveal_strlit("do");
        }
        if chars_eq(next.as_slice(), do_word.as_slice()) {
            body_from = start + 2;
        }
    }
    proof {
        reveal_strlit("do");
    }
    assert(body_from == body_start(lv, start as int, rem_v, "; do"@, "do"@));
    let done: [&'static str; 1] = ["done"];
    assert(strs_view(done@) =~= seq!["done"@]);
    let (body, done_line) = match parse_block(lines, body_from, done.as_slice()) {
        Ok(p) => p,
        Err(e) => {
            return Err(e);
        },
    };
    if done_line >= lines.len() {
        return Err(line_error_exec(start + 1, "unterminated for loop (missing done)"));
    }
    let d_trim = trim_chars(lines[done_line].as_slice());
    let done_word = chars_of("done");
    assert(d_trim@ == trim(lv[done_line as int]));
    if !chars_eq(d_trim.as_slice(), done_word.as_slice()) {
        return Err(line_error_exec(start + 1, "unterminated for loop (missing done)"));
    }
    let ghost items_v = items@.map_values(|s: String| s@);
    let st = Statement::For { variable: string_of(variable.as_slice()), items, body };
    assert(stmt_view(st) == StmtSpec::For {
        variable: variable@,
        items: items_v,
        body: stmts_view(body@),
    }) by {
        assert(stmt_view(st)->For_body =~= stmts_view(body@));
    }
    Ok((st, done_line + 1))
}

/// Parse a script from source text.
pub fn parse_script(source: &str) -> (r: Result<Script, String>)
    ensures
        r matches Ok(s) ==> parse_script_spec(source@) == Ok::<Seq<StmtSpec>, Seq<char>>(stmts_view(s.statements@)),
        r matches Err(e) ==> parse_script_spec(source@) == Err::<Seq<StmtSpec>, Seq<char>>(e@),
{
    let chars = chars_of(source);
    let lines = lines_of(chars.as_slice());
    let none: [&'static str; 0] = [];
    assert(strs_view(none@) =~= Seq::<Seq<char>>::empty());
    match parse_block(&lines, 0, none.as_slice()) {
        Ok((statements, _)) => Ok(Script { statements }),
        Err(e) => Err(e),
    }
}


// ---------------------------------------------------------------------------
// Running scripts
// ---------------------------------------------------------------------------

/// A call a script makes on its executor, with what it answered: running a
/// command line (its output and exit code) or setting a variable.
pub enum ScriptCall {
    Line { line: Seq<char>, output: Seq<char>, code: i32 },
    Assign { name: Seq<char>, value: Seq<char> },
}

/// Script execution callback — the shell provides this to run individual commands.
///
/// An implementation keeps, as `calls()`, the lines run and variables set on
/// it so far, and answers `get_var` from `var()` of its present state.
/// Implementations verified with the library define both; the defaults stand
/// for nothing.
pub trait ScriptExecutor<O = ()> {
    /// What stays fixed while the executor runs, such as the state it
    /// started from.
    closed spec fn origin(&self) -> O {
        vstd::pervasive::arbitrary()
    }

    /// The lines run and variables set so far, oldest first.
    closed spec fn calls(&self) -> Seq<ScriptCall> {
        Seq::empty()
    }

    /// The value of the variable `name` in the present state.
    closed spec fn var(&self, name: Seq<char>) -> Option<Seq<char>> {
        None
    }

    /// An invariant of the implementation's own, which every call keeps
    /// (such as that its state is what its calls so far made of it).
    closed spec fn consistent(&self) -> bool {
        true
    }

    /// Execute a single command line and return (output, exit_code).
    fn execute_line(&mut self, line: &str) -> (r: (String, i32))
        ensures
            final(self).calls() == old(self).calls().push(ScriptCall::Line { line: line@, output: r.0@, code: r.1 }),
            old(self).consistent() ==> final(self).consistent(),
            final(self).origin() == old(self).origin(),
    ;

    /// Set a variable in the shell environment.
    fn set_var(&mut self, name: &str, value: &str)
        ensures
            final(self).calls() == old(self).calls().push(ScriptCall::Assign { name: name@, value: value@ }),
            old(self).consistent() ==> final(self).consistent(),
            final(self).origin() == old(self).origin(),
    ;

    /// Get a variable from the shell environment.
    fn get_var(&self, name: &str) -> (r: Option<String>)
        ensures
            opt_view(r) == self.var(name@),
    ;
}

/// The answers `execute_line` gives, in the order of the calls: (output, exit code).
pub type Answers = Seq<(Seq<char>, i32)>;

/// `out` added to the collected output, ending with a newline when it does not.
pub open spec fn add_output(acc: Seq<char>, out: Seq<char>) -> Seq<char> {
    if out.len() == 0 {
        acc
    } else if out.last() == '\n' {
        acc + out
    } else {
        acc + out.push('\n')
    }
}

/// The most calls of functions that may be running at once.
pub const MAX_FUNCTION_DEPTH: u64 = 100;

/// The body of the last function named `name` that `fns` defines.
pub open spec fn find_function(fns: Seq<StmtSpec>, name: Seq<char>) -> Option<Seq<StmtSpec>>
    decreases fns.len(),
{
    if fns.len() == 0 {
        None
    } else {
        match fns.last() {
            StmtSpec::Function { name: n, body } => if n == name {
                Some(body)
            } else {
                find_function(fns.drop_last(), name)
            },
            _ => find_function(fns.drop_last(), name),
        }
    }
}

/// The function a command line calls: the one its first word names.
pub open spec fn called_function(fns: Seq<StmtSpec>, line: Seq<char>) -> Option<Seq<StmtSpec>> {
    if words(line).len() > 0 {
        find_function(fns, words(line)[0])
    } else {
        None
    }
}

/// What a function call does before it runs the body: it sets the variables
/// `1`, `2`, ... to the words that follow the function's name.
pub open spec fn argument_calls(args: Seq<Seq<char>>) -> Seq<ScriptCall> {
    Seq::new(args.len(), |k: int| ScriptCall::Assign { name: decimal((k + 1) as nat), value: args[k] })
}

/// What a call of the function `name` prints when `MAX_FUNCTION_DEPTH` calls
/// are already running.
pub open spec fn depth_message(name: Seq<char>) -> Seq<char> {
    name + ": maximum function nesting level exceeded"@
}

/// Running one statement against the answers `ans`, with the functions that
/// `fns` defines and room for `depth` more nested calls: its output, its exit
/// code, the answers left and the calls it makes. A command that names a
/// function sets `1`, `2`, ... to the words after the name and runs the
/// function's body (from a fresh output, with one call less of room; with no
/// room left it fails with code 1 and sets nothing); another command runs its
/// line and takes one answer; an assignment sets its variable; `if` runs its
/// condition (exit code 0 picks the then-branch) and then the branch with a
/// fresh output; `for` sets its variable to each item and runs its body;
/// `while` runs as `exec_while`; definitions, comments and empty lines give
/// `("", 0)` and make no call.
pub open spec fn exec_stmt(s: StmtSpec, fns: Seq<StmtSpec>, depth: nat, ans: Answers) -> (Seq<char>, i32, Answers, Seq<ScriptCall>)
    decreases depth, s, 0nat,
{
    match s {
        StmtSpec::Command(l) => if called_function(fns, l) is Some {
            if depth == 0 {
                (depth_message(words(l)[0]), 1, ans, Seq::empty())
            } else {
                let r = exec_seq(called_function(fns, l)->0, fns, (depth - 1) as nat, ans, Seq::empty(), 0);
                (r.0, r.1, r.2, argument_calls(words(l).drop_first()) + r.3)
            }
        } else if ans.len() > 0 {
            (ans[0].0, ans[0].1, ans.drop_first(), seq![ScriptCall::Line { line: l, output: ans[0].0, code: ans[0].1 }])
        } else {
            (Seq::empty(), 0, ans, Seq::empty())
        },
        StmtSpec::Assignment { name, value } => (Seq::empty(), 0, ans, seq![ScriptCall::Assign { name: name, value: value }]),
        StmtSpec::If { condition, then_body, else_body } => if ans.len() > 0 {
            let r = if ans[0].1 == 0 {
                exec_seq(then_body, fns, depth, ans.drop_first(), Seq::empty(), 0)
            } else {
                exec_seq(else_body, fns, depth, ans.drop_first(), Seq::empty(), 0)
            };
            (r.0, r.1, r.2, seq![ScriptCall::Line { line: condition, output: ans[0].0, code: ans[0].1 }] + r.3)
        } else {
            (Seq::empty(), 0, ans, Seq::empty())
        },
        StmtSpec::For { variable, items, body } => exec_for(variable, items, body, fns, depth, 0, ans, Seq::empty(), 0),
        StmtSpec::While { condition, body } => exec_while(condition, body, fns, depth, 0, ans, Seq::empty(), 0),
        _ => (Seq::empty(), 0, ans, Seq::empty()),
    }
}

/// Running statements in order, collecting their output; the exit code is the
/// last statement's (`code` when there is none).
pub open spec fn exec_seq(ss: Seq<StmtSpec>, fns: Seq<StmtSpec>, depth: nat, ans: Answers, out: Seq<char>, code: i32) -> (Seq<char>, i32, Answers, Seq<ScriptCall>)
    decreases depth, ss, 0nat,
{
    if ss.len() == 0 {
        (out, code, ans, Seq::empty())
    } else {
        let r1 = exec_stmt(ss[0], fns, depth, ans);
        let r2 = exec_seq(ss.drop_first(), fns, depth, r1.2, add_output(out, r1.0), r1.1);
        (r2.0, r2.1, r2.2, r1.3 + r2.3)
    }
}

/// Running a loop body once for each of `items[j..]`, setting `variable` to
/// the item first.
pub open spec fn exec_for(
    variable: Seq<char>,
    items: Seq<Seq<char>>,
    body: Seq<StmtSpec>,
    fns: Seq<StmtSpec>,
    depth: nat,
    j: int,
    ans: Answers,
    out: Seq<char>,
    code: i32,
) -> (Seq<char>, i32, Answers, Seq<ScriptCall>)
    decreases depth, body, items.len() + 1 - j,
{
    if j < 0 || j >= items.len() {
        (out, code, ans, Seq::empty())
    } else {
        let r1 = exec_seq(body, fns, depth, ans, out, code);
        let r2 = exec_for(variable, items, body, fns, depth, j + 1, r1.2, r1.0, r1.1);
        (r2.0, r2.1, r2.2, seq![ScriptCall::Assign { name: variable, value: items[j] }] + r1.3 + r2.3)
    }
}

/// The most times a `while` loop runs its body.
pub const MAX_WHILE_ROUNDS: u64 = 10000;

/// What a `while` loop prints when it stops for having run its body
/// `MAX_WHILE_ROUNDS` times.
pub open spec fn while_stop_message() -> Seq<char> {
    "while: stopped after 10000 rounds"@
}

/// Running a `while` loop from round `k`: the condition line runs; exit code
/// 0 runs the body and goes on to the next round, any other ends the loop
/// (whose exit code is then the body's last, 0 if it never ran). After
/// `MAX_WHILE_ROUNDS` rounds the loop stops with a message and exit code 1.
pub open spec fn exec_while(
    condition: Seq<char>,
    body: Seq<StmtSpec>,
    fns: Seq<StmtSpec>,
    depth: nat,
    k: int,
    ans: Answers,
    out: Seq<char>,
    code: i32,
) -> (Seq<char>, i32, Answers, Seq<ScriptCall>)
    decreases depth, body, MAX_WHILE_ROUNDS + 1 - k,
{
    if k < 0 || k >= MAX_WHILE_ROUNDS {
        (add_output(out, while_stop_message()), 1, ans, Seq::empty())
    } else if ans.len() == 0 {
        (out, code, ans, Seq::empty())
    } else {
        let test = ScriptCall::Line { line: condition, output: ans[0].0, code: ans[0].1 };
        if ans[0].1 != 0 {
            (out, code, ans.drop_first(), seq![test])
        } else {
            let r1 = exec_seq(body, fns, depth, ans.drop_first(), out, code);
            let r2 = exec_while(condition, body, fns, depth, k + 1, r1.2, r1.0, r1.1);
            (r2.0, r2.1, r2.2, seq![test] + r1.3 + r2.3)
        }
    }
}

/// The variable that holds the last exit code.
pub open spec fn status_var() -> Seq<char> {
    seq!['?']
}

/// Running top-level statements: as `exec_seq`, with the functions the
/// script `fns` defines and room for `MAX_FUNCTION_DEPTH` nested calls, and
/// after each statement the variable `?` is set to its exit code.
pub open spec fn exec_top(ss: Seq<StmtSpec>, fns: Seq<StmtSpec>, ans: Answers, out: Seq<char>, code: i32) -> (Seq<char>, i32, Answers, Seq<ScriptCall>)
    decreases ss.len(),
{
    if ss.len() == 0 {
        (out, code, ans, Seq::empty())
    } else {
        let r1 = exec_stmt(ss[0], fns, MAX_FUNCTION_DEPTH as nat, ans);
        let r2 = exec_top(ss.drop_first(), fns, r1.2, add_output(out, r1.0), r1.1);
        (r2.0, r2.1, r2.2, r1.3.push(ScriptCall::Assign { name: status_var(), value: decimal_int(r1.1 as int) }) + r2.3)
    }
}

/// The output and exit code of a script run against the answers `ans`.
pub open spec fn script_outcome(stmts: Seq<StmtSpec>, ans: Answers) -> (Seq<char>, i32) {
    let r = exec_top(stmts, stmts, ans, Seq::empty(), 0);
    (r.0, r.1)
}

/// `r` with the calls `c` made before its own.
pub open spec fn after_calls(c: Seq<ScriptCall>, r: (Seq<char>, i32, Answers, Seq<ScriptCall>)) -> (Seq<char>, i32, Answers, Seq<ScriptCall>) {
    (r.0, r.1, r.2, c + r.3)
}

/// Running `s` with the functions `fv` and room for `dv` nested calls
/// consumes exactly the answers `p` (whatever follows them), gives
/// `(out, code)` and makes the calls `calls`.
pub open spec fn stmt_runs_as(s: StmtSpec, fv: Seq<StmtSpec>, dv: nat, p: Answers, out: Seq<char>, code: i32, calls: Seq<ScriptCall>) -> bool {
    forall|rest: Answers| #[trigger] exec_stmt(s, fv, dv, p + rest) == (out, code, rest, calls)
}

/// Running `ss` from `(out0, code0)`, with the functions `fv` and room for
/// `dv` nested calls, consumes exactly the answers `p`, ends at
/// `(out1, code1)` and makes the calls `calls`.
pub open spec fn seq_runs_as(ss: Seq<StmtSpec>, fv: Seq<StmtSpec>, dv: nat, p: Answers, out0: Seq<char>, code0: i32, out1: Seq<char>, code1: i32, calls: Seq<ScriptCall>) -> bool {
    forall|rest: Answers| #[trigger] exec_seq(ss, fv, dv, p + rest, out0, code0) == (out1, code1, rest, calls)
}

/// Running the script `ss` consumes exactly the answers `p`, gives
/// `(out, code)` and makes the calls `calls`.
pub open spec fn script_runs_as(ss: Seq<StmtSpec>, p: Answers, out: Seq<char>, code: i32, calls: Seq<ScriptCall>) -> bool {
    forall|rest: Answers| #[trigger] exec_top(ss, ss, p + rest, Seq::empty(), 0) == (out, code, rest, calls)
}

/// Adds a statement's output to the collected output.
fn add_output_exec(output: &mut String, out: &str)
    ensures
        final(output)@ == add_output(old(output)@, out@),
{
    let oc = chars_of(out);
    if oc.len() == 0 {
        return;
    }
    push_str(output, out);
    if oc[oc.len() - 1] != '\n' {
        crate::text::push_char(output, '\n');
    }
}

/// The body of the last function named `name` that `functions` defines.
fn find_function_exec<'a>(functions: &'a Vec<Statement>, name: &[char]) -> (r: Option<&'a Vec<Statement>>)
    ensures
        r matches Some(b) ==> find_function(stmts_view(functions@), name@) == Some(stmts_view(b@)),
        r is None ==> find_function(stmts_view(functions@), name@) is None,
{
    let ghost fv = stmts_view(functions@);
    let mut k: usize = functions.len();
    assert(fv.take(k as int) =~= fv);
    while k > 0
        invariant
            fv == stmts_view(functions@),
            k <= fv.len(),
            find_function(fv, name@) == find_function(fv.take(k as int), name@),
        decreases k,
    {
        let ghost t = fv.take(k as int);
        assert(t.last() == stmt_view(functions@[k - 1]));
        assert(t.drop_last() =~= fv.take(k - 1));
        match &functions[k - 1] {
            Statement::Function { name: n, body } => {
                let nc = chars_of(n.as_str());
                if chars_eq(nc.as_slice(), name) {
                    assert(stmt_view(functions@[k - 1])->Function_body =~= stmts_view(body@));
                    return Some(body);
                }
            },
            _ => {},
        }
        k = k - 1;
    }
    assert(fv.take(0) =~= Seq::<StmtSpec>::empty());
    None
}

/// Runner that executes a parsed script.
pub struct ScriptRunner;

impl ScriptRunner {
    /// Execute a parsed script using the provided executor.
    /// Returns the output of all commands concatenated, and the last exit code.
    ///
    /// The executor gets exactly the calls the script prescribes (each command
    /// line, each assignment, each loop variable, and `?` set to each
    /// top-level statement's exit code), and the result is what those calls'
    /// answers make of the script.
    pub fn run<O, E: ScriptExecutor<O> + ?Sized>(script: &Script, executor: &mut E) -> (r: (String, i32))
        ensures
            exists|p: Answers, calls: Seq<ScriptCall>|
                #[trigger] script_runs_as(stmts_view(script.statements@), p, r.0@, r.1, calls)
                && final(executor).calls() == old(executor).calls() + calls,
            old(executor).consistent() ==> final(executor).consistent(),
            final(executor).origin() == old(executor).origin(),
    {
        let mut output = String::new();
        let mut last_exit: i32 = 0;
        let ghost ss = stmts_view(script.statements@);
        let ghost fv = ss;
        let ghost dv = MAX_FUNCTION_DEPTH as nat;
        let ghost calls0 = executor.calls();
        let ghost mut pre: Answers = Seq::empty();
        let ghost mut made: Seq<ScriptCall> = Seq::empty();
        let mut k: usize = 0;
        assert forall|rest: Answers| #[trigger] exec_top(ss, fv, pre + rest, Seq::empty(), 0)
            == after_calls(made, exec_top(ss.skip(0), fv, rest, output@, last_exit)) by {
            assert(pre + rest =~= rest);
            assert(ss.skip(0) =~= ss);
            let r = exec_top(ss, fv, rest, Seq::empty(), 0);
            assert(made + r.3 =~= r.3);
        }
        while k < script.statements.len()
            invariant
                ss == stmts_view(script.statements@),
                fv == ss,
                dv == MAX_FUNCTION_DEPTH as nat,
                k <= ss.len(),
                calls0 == old(executor).calls(),
                executor.calls() == calls0 + made,
                old(executor).consistent() ==> executor.consistent(),
                executor.origin() == old(executor).origin(),
                forall|rest: Answers| #[trigger] exec_top(ss, fv, pre + rest, Seq::empty(), 0)
                    == after_calls(made, exec_top(ss.skip(k as int), fv, rest, output@, last_exit)),
            decreases ss.len() - k,
        {
            let ghost out0 = output@;
            let ghost mid = executor.calls();
            let (out, code) = Self::execute_statement(&script.statements[k], &script.statements, MAX_FUNCTION_DEPTH, executor);
            let ghost (p, c) = choose|p: Answers, c: Seq<ScriptCall>|
                #[trigger] stmt_runs_as(stmt_view(script.statements@[k as int]), fv, dv, p, out@, code, c)
                && executor.calls() == mid + c;
            add_output_exec(&mut output, out.as_str());
            last_exit = code;
            let code_s = crate::text::i32_to_string(code);
            executor.set_var("?", code_s.as_str());
            proof {
                reveal_strlit("?");
                assert("?"@ =~= status_var());
                let set = ScriptCall::Assign { name: status_var(), value: decimal_int(code as int) };
                assert(ss[k as int] == stmt_view(script.statements@[k as int]));
                assert forall|rest: Answers| #[trigger] exec_top(ss, fv, (pre + p) + rest, Seq::empty(), 0)
                    == after_calls(made + c.push(set), exec_top(ss.skip(k + 1), fv, rest, output@, last_exit)) by {
                    assert((pre + p) + rest =~= pre + (p + rest));
                    assert(ss.skip(k as int).drop_first() =~= ss.skip(k + 1));
                    assert(ss.skip(k as int)[0] == ss[k as int]);
                    assert(exec_stmt(ss[k as int], fv, dv, p + rest) == (out@, code, rest, c));
                    let r2 = exec_top(ss.skip(k + 1), fv, rest, output@, last_exit);
                    assert(made + (c.push(set) + r2.3) =~= (made + c.push(set)) + r2.3);
                }
                assert(executor.calls() =~= calls0 + (made + c.push(set)));
                pre = pre + p;
                made = made + c.push(set);
            }
            k = k + 1;
        }
        proof {
            assert(ss.skip(k as int) =~= Seq::<StmtSpec>::empty());
            assert(made + Seq::<ScriptCall>::empty() =~= made);
            assert(script_runs_as(ss, pre, output@, last_exit, made));
            assert(executor.calls() == old(executor).calls() + made);
        }
        let r = (output, last_exit);
        assert(script_runs_as(stmts_view(script.statements@), pre, r.0@, r.1, made));
        r
    }

    /// Runs statements in order, adding their output to `output` and setting
    /// `code` to the last one's exit code.
    fn run_body<O, E: ScriptExecutor<O> + ?Sized>(
        body: &Vec<Statement>,
        functions: &Vec<Statement>,
        depth: u64,
        executor: &mut E,
        output: &mut String,
        code: &mut i32,
    )
        ensures
            exists|p: Answers, calls: Seq<ScriptCall>|
                #[trigger] seq_runs_as(stmts_view(body@), stmts_view(functions@), depth as nat, p, old(output)@, *old(code), final(output)@, *final(code), calls)
                && final(executor).calls() == old(executor).calls() + calls,
            old(executor).consistent() ==> final(executor).consistent(),
            final(executor).origin() == old(executor).origin(),
        decreases depth, body, 0nat,
    {
        let ghost fv = stmts_view(functions@);
        let ghost dv = depth as nat;
        let ghost ss = stmts_view(body@);
        let ghost out_start = output@;
        let ghost code_start = *code;
        let ghost calls0 = executor.calls();
        let ghost mut pre: Answers = Seq::empty();
        let ghost mut made: Seq<ScriptCall> = Seq::empty();
        let mut k: usize = 0;
        assert forall|rest: Answers| #[trigger] exec_seq(ss, fv, dv, pre + rest, out_start, code_start)
            == after_calls(made, exec_seq(ss.skip(0), fv, dv, rest, output@, *code)) by {
            assert(pre + rest =~= rest);
            assert(ss.skip(0) =~= ss);
            let r = exec_seq(ss, fv, dv, rest, out_start, code_start);
            assert(made + r.3 =~= r.3);
        }
        while k < body.len()
            invariant
                ss == stmts_view(body@),
                fv == stmts_view(functions@),
                dv == depth as nat,
                k <= ss.len(),
                calls0 == old(executor).calls(),
                executor.calls() == calls0 + made,
                old(executor).consistent() ==> executor.consistent(),
                executor.origin() == old(executor).origin(),
                forall|rest: Answers| #[trigger] exec_seq(ss, fv, dv, pre + rest, out_start, code_start)
                    == after_calls(made, exec_seq(ss.skip(k as int), fv, dv, rest, output@, *code)),
            decreases ss.len() - k,
        {
            let ghost mid = executor.calls();
            let (out, c) = Self::execute_statement(&body[k], functions, depth, executor);
            let ghost (p, cs) = choose|p: Answers, cs: Seq<ScriptCall>|
                #[trigger] stmt_runs_as(stmt_view(body@[k as int]), fv, dv, p, out@, c, cs)
                && executor.calls() == mid + cs;
            add_output_exec(output, out.as_str());
            *code = c;
            proof {
                assert(ss[k as int] == stmt_view(body@[k as int]));
                assert forall|rest: Answers| #[trigger] exec_seq(ss, fv, dv, (pre + p) + rest, out_start, code_start)
                    == after_calls(made + cs, exec_seq(ss.skip(k + 1), fv, dv, rest, output@, *code)) by {
                    assert((pre + p) + rest =~= pre + (p + rest));
                    assert(ss.skip(k as int).drop_first() =~= ss.skip(k + 1));
                    assert(ss.skip(k as int)[0] == ss[k as int]);
                    assert(exec_stmt(ss[k as int], fv, dv, p + rest) == (out@, c, rest, cs));
                    let r2 = exec_seq(ss.skip(k + 1), fv, dv, rest, output@, *code);
                    assert(made + (cs + r2.3) =~= (made + cs) + r2.3);
                }
                assert(executor.calls() =~= calls0 + (made + cs));
                pre = pre + p;
                made = made + cs;
            }
            k = k + 1;
        }
        proof {
            assert(ss.skip(k as int) =~= Seq::<StmtSpec>::empty());
            assert(made + Seq::<ScriptCall>::empty() =~= made);
            assert(seq_runs_as(stmts_view(body@), fv, dv, pre, out_start, code_start, output@, *code, made));
        }
    }

    /// Execute a single statement.
    #[verifier::loop_isolation(false)]
    fn execute_statement<O, E: ScriptExecutor<O> + ?Sized>(
        stmt: &Statement,
        functions: &Vec<Statement>,
        depth: u64,
        executor: &mut E,
    ) -> (r: (String, i32))
        ensures
            exists|p: Answers, calls: Seq<ScriptCall>|
                #[trigger] stmt_runs_as(stmt_view(*stmt), stmts_view(functions@), depth as nat, p, r.0@, r.1, calls)
                && final(executor).calls() == old(executor).calls() + calls,
            old(executor).consistent() ==> final(executor).consistent(),
            final(executor).origin() == old(executor).origin(),
        decreases depth, stmt, 1nat,
    {
        let ghost fv = stmts_view(functions@);
        let ghost dv = depth as nat;
        let ghost calls0 = executor.calls();
        let ghost nothing: Answers = Seq::empty();
        let ghost none: Seq<ScriptCall> = Seq::empty();
        match stmt {
            Statement::Empty => {
                let r = (String::new(), 0i32);
                assert forall|rest: Answers| #[trigger] exec_stmt(stmt_view(*stmt), fv, dv, nothing + rest) == (r.0@, r.1, rest, none) by {
                    assert(nothing + rest =~= rest);
                }
                assert(stmt_runs_as(stmt_view(*stmt), fv, dv, nothing, r.0@, r.1, none));
                assert(calls0 + none =~= calls0);
                return r;
            },
            Statement::Comment(_) => {
                let r = (String::new(), 0i32);
                assert forall|rest: Answers| #[trigger] exec_stmt(stmt_view(*stmt), fv, dv, nothing + rest) == (r.0@, r.1, rest, none) by {
                    assert(nothing + rest =~= rest);
                }
                assert(stmt_runs_as(stmt_view(*stmt), fv, dv, nothing, r.0@, r.1, none));
                assert(calls0 + none =~= calls0);
                return r;
            },
            Statement::Command(line) => {
                let lc = chars_of(line.as_str());
                let ws = words_of(lc.as_slice());
                let called = if ws.len() > 0 {
                    find_function_exec(functions, ws[0].as_slice())
                } else {
                    None
                };
                proof {
                    if ws@.len() > 0 {
                        assert(ws@[0]@ == words(line@)[0]) by {
                            assert(ws@.map_values(|w: Vec<char>| w@)[0] == ws@[0]@);
                        }
                    }
                    assert(ws@.len() == words(line@).len()) by {
                        assert(ws@.map_values(|w: Vec<char>| w@).len() == ws@.len());
                    }
                }
                if let Some(fbody) = called {
                    assert(called_function(fv, line@) == Some(stmts_view(fbody@)));
                    if depth == 0 {
                        let mut msg = string_of(ws[0].as_slice());
                        push_str(&mut msg, ": maximum function nesting level exceeded");
                        let r = (msg, 1i32);
                        assert(r.0@ == depth_message(words(line@)[0]));
                        assert forall|rest: Answers| #[trigger] exec_stmt(stmt_view(*stmt), fv, dv, nothing + rest) == (r.0@, r.1, rest, none) by {
                            assert(nothing + rest =~= rest);
                        }
                        assert(stmt_runs_as(stmt_view(*stmt), fv, dv, nothing, r.0@, r.1, none));
                        assert(calls0 + none =~= calls0);
                        return r;
                    }
                    let ghost args = words(line@).drop_first();
                    let mut j: usize = 0;
                    while j + 1 < ws.len()
                        invariant
                            ws@.map_values(|w: Vec<char>| w@) == words(line@),
                            args == words(line@).drop_first(),
                            j <= args.len(),
                            executor.calls() == calls0 + argument_calls(args).take(j as int),
                            old(executor).consistent() ==> executor.consistent(),
                            executor.origin() == old(executor).origin(),
                        decreases args.len() - j,
                    {
                        let var = crate::text::u64_to_string((j + 1) as u64);
                        let value = string_of(ws[j + 1].as_slice());
                        executor.set_var(var.as_str(), value.as_str());
                        proof {
                            assert(ws@.map_values(|w: Vec<char>| w@)[j + 1] == ws@[j + 1]@);
                            assert(args[j as int] == words(line@)[j + 1]);
                            assert(argument_calls(args).take(j + 1) =~= argument_calls(args).take(j as int).push(
                                ScriptCall::Assign { name: decimal((j + 1) as nat), value: args[j as int] },
                            ));
                        }
                        j = j + 1;
                    }
                    let ghost set = argument_calls(args);
                    assert(set.take(j as int) =~= set);
                    let ghost mid = executor.calls();
                    let mut output = String::new();
                    let mut last_exit: i32 = 0;
                    Self::run_body(fbody, functions, depth - 1, executor, &mut output, &mut last_exit);
                    let ghost mut wit: Answers = Seq::empty();
                    let ghost mut wcalls: Seq<ScriptCall> = Seq::empty();
                    proof {
                        let (q, c2) = choose|q: Answers, c2: Seq<ScriptCall>|
                            #[trigger] seq_runs_as(stmts_view(fbody@), fv, (depth - 1) as nat, q, Seq::empty(), 0, output@, last_exit, c2)
                            && executor.calls() == mid + c2;
                        assert forall|rest: Answers| #[trigger] exec_stmt(stmt_view(*stmt), fv, dv, q + rest) == (output@, last_exit, rest, set + c2) by {
                            assert(exec_seq(stmts_view(fbody@), fv, (depth - 1) as nat, q + rest, Seq::empty(), 0) == (output@, last_exit, rest, c2));
                        }
                        assert(stmt_runs_as(stmt_view(*stmt), fv, dv, q, output@, last_exit, set + c2));
                        assert(executor.calls() =~= calls0 + (set + c2));
                        wit = q;
                        wcalls = set + c2;
                    }
                    let ghost ov = output@;
                    let r = (output, last_exit);
                    assert(r.0@ == ov);
                    assert(stmt_runs_as(stmt_view(*stmt), fv, dv, wit, r.0@, r.1, wcalls));
                    return r;
                }
                assert(called_function(fv, line@) is None);
                let (out, code) = executor.execute_line(line.as_str());
                let ghost p = seq![(out@, code)];
                let ghost cs = seq![ScriptCall::Line { line: line@, output: out@, code: code }];
                assert forall|rest: Answers| #[trigger] exec_stmt(stmt_view(*stmt), fv, dv, p + rest) == (out@, code, rest, cs) by {
                    assert((p + rest).drop_first() =~= rest);
                }
                assert(stmt_runs_as(stmt_view(*stmt), fv, dv, p, out@, code, cs));
                assert(executor.calls() =~= calls0 + cs);
                return (out, code);
            },
            Statement::Function { .. } => {
                let r = (String::new(), 0i32);
                assert forall|rest: Answers| #[trigger] exec_stmt(stmt_view(*stmt), fv, dv, nothing + rest) == (r.0@, r.1, rest, none) by {
                    assert(nothing + rest =~= rest);
                }
                assert(stmt_runs_as(stmt_view(*stmt), fv, dv, nothing, r.0@, r.1, none));
                assert(calls0 + none =~= calls0);
                return r;
            },
            Statement::Assignment { name, value } => {
                executor.set_var(name.as_str(), value.as_str());
                let r = (String::new(), 0i32);
                let ghost cs = seq![ScriptCall::Assign { name: name@, value: value@ }];
                assert forall|rest: Answers| #[trigger] exec_stmt(stmt_view(*stmt), fv, dv, nothing + rest) == (r.0@, r.1, rest, cs) by {
                    assert(nothing + rest =~= rest);
                }
                assert(stmt_runs_as(stmt_view(*stmt), fv, dv, nothing, r.0@, r.1, cs));
                assert(executor.calls() =~= calls0 + cs);
                return r;
            },
            Statement::If { condition, then_body, else_body } => {
                let ghost mut wit: Answers = Seq::empty();
                let ghost mut wcalls: Seq<ScriptCall> = Seq::empty();
                let (cond_out, cond_code) = executor.execute_line(condition.as_str());
                let ghost mid = executor.calls();
                let ghost line_call = ScriptCall::Line { line: condition@, output: cond_out@, code: cond_code };
                let mut output = String::new();
                let mut last_exit: i32 = 0;
                if cond_code == 0 {
                    Self::run_body(then_body, functions, depth, executor, &mut output, &mut last_exit);
                } else {
                    Self::run_body(else_body, functions, depth, executor, &mut output, &mut last_exit);
                }
                proof {
                    let body = if cond_code == 0 { stmts_view(then_body@) } else { stmts_view(else_body@) };
                    let (q, c2) = choose|q: Answers, c2: Seq<ScriptCall>|
                        #[trigger] seq_runs_as(body, fv, dv, q, Seq::empty(), 0, output@, last_exit, c2)
                        && executor.calls() == mid + c2;
                    let p = seq![(cond_out@, cond_code)] + q;
                    let cs = seq![line_call] + c2;
                    assert(stmt_view(*stmt)->If_then_body =~= stmts_view(then_body@));
                    assert(stmt_view(*stmt)->If_else_body =~= stmts_view(else_body@));
                    assert forall|rest: Answers| #[trigger] exec_stmt(stmt_view(*stmt), fv, dv, p + rest) == (output@, last_exit, rest, cs) by {
                        assert((p + rest).drop_first() =~= q + rest);
                        assert((p + rest)[0] == (cond_out@, cond_code));
                        assert(exec_seq(body, fv, dv, q + rest, Seq::empty(), 0) == (output@, last_exit, rest, c2));
                    }
                    assert(stmt_runs_as(stmt_view(*stmt), fv, dv, p, output@, last_exit, cs));
                    assert(executor.calls() =~= calls0 + cs);
                    wit = p;
                    wcalls = cs;
                }
                let ghost ov = output@;
                let r = (output, last_exit);
                assert(r.0@ == ov);
                assert(stmt_runs_as(stmt_view(*stmt), fv, dv, wit, r.0@, r.1, wcalls));
                return r;
            },
            Statement::For { variable, items, body } => {
                let mut output = String::new();
                let mut last_exit: i32 = 0;
                let ghost bv = stmts_view(body@);
                let ghost iv = items@.map_values(|s: String| s@);
                let ghost n = items@.len();
                let ghost mut pre: Answers = Seq::empty();
                let ghost mut made: Seq<ScriptCall> = Seq::empty();
                let mut k: usize = 0;
                assert(stmt_view(*stmt)->For_body =~= bv);
                assert(stmt_view(*stmt)->For_items == iv);
                assert forall|rest: Answers| #[trigger] exec_for(variable@, iv, bv, fv, dv, 0, pre + rest, Seq::empty(), 0)
                    == after_calls(made, exec_for(variable@, iv, bv, fv, dv, k as int, rest, output@, last_exit)) by {
                    assert(pre + rest =~= rest);
                    let r = exec_for(variable@, iv, bv, fv, dv, 0, rest, Seq::<char>::empty(), 0);
                    assert(made + r.3 =~= r.3);
                }
                while k < items.len()
                    invariant
                        bv == stmts_view(body@),
                        iv == items@.map_values(|s: String| s@),
                        n == items@.len(),
                        k <= n,
                        executor.calls() == calls0 + made,
                        old(executor).consistent() ==> executor.consistent(),
                executor.origin() == old(executor).origin(),
                        forall|rest: Answers| #[trigger] exec_for(variable@, iv, bv, fv, dv, 0, pre + rest, Seq::empty(), 0)
                            == after_calls(made, exec_for(variable@, iv, bv, fv, dv, k as int, rest, output@, last_exit)),
                    decreases n - k,
                {
                    executor.set_var(variable.as_str(), items[k].as_str());
                    let ghost set = ScriptCall::Assign { name: variable@, value: items@[k as int]@ };
                    let ghost mid = executor.calls();
                    let ghost out0 = output@;
                    let ghost code0 = last_exit;
                    Self::run_body(body, functions, depth, executor, &mut output, &mut last_exit);
                    proof {
                        assert(iv[k as int] == items@[k as int]@);
                        let (q, c2) = choose|q: Answers, c2: Seq<ScriptCall>|
                            #[trigger] seq_runs_as(bv, fv, dv, q, out0, code0, output@, last_exit, c2)
                            && executor.calls() == mid + c2;
                        assert forall|rest: Answers| #[trigger] exec_for(variable@, iv, bv, fv, dv, 0, (pre + q) + rest, Seq::empty(), 0)
                            == after_calls(made + (seq![set] + c2), exec_for(variable@, iv, bv, fv, dv, k + 1, rest, output@, last_exit)) by {
                            assert((pre + q) + rest =~= pre + (q + rest));
                            assert(exec_seq(bv, fv, dv, q + rest, out0, code0) == (output@, last_exit, rest, c2));
                            let r2 = exec_for(variable@, iv, bv, fv, dv, k + 1, rest, output@, last_exit);
                            assert(made + (seq![set] + c2 + r2.3) =~= (made + (seq![set] + c2)) + r2.3);
                        }
                        assert(executor.calls() =~= calls0 + (made + (seq![set] + c2)));
                        pre = pre + q;
                        made = made + (seq![set] + c2);
                    }
                    k = k + 1;
                }
                proof {
                    assert(made + Seq::<ScriptCall>::empty() =~= made);
                    assert(stmt_view(*stmt)->For_variable == variable@);
                    assert forall|rest: Answers| #[trigger] exec_stmt(stmt_view(*stmt), fv, dv, pre + rest) == (output@, last_exit, rest, made) by {
                        assert(exec_stmt(stmt_view(*stmt), fv, dv, pre + rest) == exec_for(variable@, iv, bv, fv, dv, 0, pre + rest, Seq::empty(), 0));
                        assert(exec_for(variable@, iv, bv, fv, dv, k as int, rest, output@, last_exit) == (output@, last_exit, rest, Seq::<ScriptCall>::empty()));
                    }
                    assert(stmt_runs_as(stmt_view(*stmt), fv, dv, pre, output@, last_exit, made));
                }
                let ghost wit = pre;
                let ghost wcalls = made;
                let ghost ov = output@;
                let r = (output, last_exit);
                assert(r.0@ == ov);
                assert(stmt_runs_as(stmt_view(*stmt), fv, dv, wit, r.0@, r.1, wcalls));
                return r;
            },
            Statement::While { condition, body } => {
                let mut output = String::new();
                let mut last_exit: i32 = 0;
                let ghost cv = condition@;
                let ghost bv = stmts_view(body@);
                let ghost mut pre: Answers = Seq::empty();
                let ghost mut made: Seq<ScriptCall> = Seq::empty();
                let mut k: u64 = 0;
                let mut done = false;
                assert(stmt_view(*stmt)->While_body =~= bv);
                assert(stmt_view(*stmt)->While_condition == cv);
                assert forall|rest: Answers| #[trigger] exec_while(cv, bv, fv, dv, 0, pre + rest, Seq::empty(), 0)
                    == after_calls(made, exec_while(cv, bv, fv, dv, k as int, rest, output@, last_exit)) by {
                    assert(pre + rest =~= rest);
                    let r = exec_while(cv, bv, fv, dv, 0, rest, Seq::<char>::empty(), 0);
                    assert(made + r.3 =~= r.3);
                }
                while k < MAX_WHILE_ROUNDS && !done
                    invariant
                        cv == condition@,
                        bv == stmts_view(body@),
                        k <= MAX_WHILE_ROUNDS,
                        executor.calls() == calls0 + made,
                        old(executor).consistent() ==> executor.consistent(),
                        executor.origin() == old(executor).origin(),
                        !done ==> forall|rest: Answers| #[trigger] exec_while(cv, bv, fv, dv, 0, pre + rest, Seq::empty(), 0)
                            == after_calls(made, exec_while(cv, bv, fv, dv, k as int, rest, output@, last_exit)),
                        done ==> forall|rest: Answers| #[trigger] exec_while(cv, bv, fv, dv, 0, pre + rest, Seq::empty(), 0)
                            == (output@, last_exit, rest, made),
                    decreases MAX_WHILE_ROUNDS - k,
                {
                    let (cond_out, cond_code) = executor.execute_line(condition.as_str());
                    let ghost test = ScriptCall::Line { line: cv, output: cond_out@, code: cond_code };
                    let ghost a0: Answers = seq![(cond_out@, cond_code)];
                    if cond_code != 0 {
                        proof {
                            assert forall|rest: Answers| #[trigger] exec_while(cv, bv, fv, dv, 0, (pre + a0) + rest, Seq::empty(), 0)
                                == (output@, last_exit, rest, made.push(test)) by {
                                assert((pre + a0) + rest =~= pre + (a0 + rest));
                                assert((a0 + rest)[0] == (cond_out@, cond_code));
                                assert((a0 + rest).drop_first() =~= rest);
                                let r = exec_while(cv, bv, fv, dv, k as int, a0 + rest, output@, last_exit);
                                assert(r == (output@, last_exit, rest, seq![test]));
                                assert(made + seq![test] =~= made.push(test));
                            }
                            assert(executor.calls() =~= calls0 + made.push(test));
                            pre = pre + a0;
                            made = made.push(test);
                        }
                        done = true;
                    } else {
                        let ghost mid = executor.calls();
                        let ghost out0 = output@;
                        let ghost code0 = last_exit;
                        Self::run_body(body, functions, depth, executor, &mut output, &mut last_exit);
                        proof {
                            let (q, c2) = choose|q: Answers, c2: Seq<ScriptCall>|
                                #[trigger] seq_runs_as(bv, fv, dv, q, out0, code0, output@, last_exit, c2)
                                && executor.calls() == mid + c2;
                            let a = a0 + q;
                            assert forall|rest: Answers| #[trigger] exec_while(cv, bv, fv, dv, 0, (pre + a) + rest, Seq::empty(), 0)
                                == after_calls(made + (seq![test] + c2), exec_while(cv, bv, fv, dv, k + 1, rest, output@, last_exit)) by {
                                assert((pre + a) + rest =~= pre + (a + rest));
                                assert((a + rest)[0] == (cond_out@, cond_code));
                                assert((a + rest).drop_first() =~= q + rest);
                                assert(exec_seq(bv, fv, dv, q + rest, out0, code0) == (output@, last_exit, rest, c2));
                                let r2 = exec_while(cv, bv, fv, dv, k + 1, rest, output@, last_exit);
                                assert(made + (seq![test] + c2 + r2.3) =~= (made + (seq![test] + c2)) + r2.3);
                            }
                            assert(executor.calls() =~= calls0 + (made + (seq![test] + c2)));
                            pre = pre + a;
                            made = made + (seq![test] + c2);
                        }
                    }
                    k = k + 1;
                }
                if !done {
                    let ghost out0 = output@;
                    add_output_exec(&mut output, "while: stopped after 10000 rounds");
                    last_exit = 1;
                    proof {
                        reveal_strlit("while: stopped after 10000 rounds");
                        assert(k == MAX_WHILE_ROUNDS);
                        assert forall|rest: Answers| #[trigger] exec_while(cv, bv, fv, dv, 0, pre + rest, Seq::empty(), 0)
                            == (output@, last_exit, rest, made) by {
                            let r = exec_while(cv, bv, fv, dv, k as int, rest, out0, 1);
                            assert(made + Seq::<ScriptCall>::empty() =~= made);
                        }
                    }
                }
                proof {
                    assert forall|rest: Answers| #[trigger] exec_stmt(stmt_view(*stmt), fv, dv, pre + rest) == (output@, last_exit, rest, made) by {
                        assert(exec_stmt(stmt_view(*stmt), fv, dv, pre + rest) == exec_while(cv, bv, fv, dv, 0, pre + rest, Seq::empty(), 0));
                    }
                    assert(stmt_runs_as(stmt_view(*stmt), fv, dv, pre, output@, last_exit, made));
                }
                let ghost wit = pre;
                let ghost wcalls = made;
                let ghost ov = output@;
                let r = (output, last_exit);
                assert(r.0@ == ov);
                assert(stmt_runs_as(stmt_view(*stmt), fv, dv, wit, r.0@, r.1, wcalls));
                return r;
            },
        }
    }
}

/// Whether `s` runs no command: an assignment, a function definition, a
/// comment or an empty line.
pub open spec fn is_quiet(s: StmtSpec) -> bool {
    s is Assignment || s is Function || s is Comment || s is Empty
}

/// A script of assignments, function definitions, comments and empty lines
/// prints nothing and exits with code 0, whatever the commands would answer.
pub proof fn law_quiet_script(stmts: Seq<StmtSpec>, ans: Answers)
    requires
        forall|k: int| 0 <= k < stmts.len() ==> is_quiet(#[trigger] stmts[k]),
    ensures
        script_outcome(stmts, ans) == (Seq::<char>::empty(), 0i32),
{
    lemma_quiet_top(stmts, stmts, ans);
}

/// Running quiet statements leaves the output and the code as they were and
/// takes no answer.
proof fn lemma_quiet_top(stmts: Seq<StmtSpec>, fns: Seq<StmtSpec>, ans: Answers)
    requires
        forall|k: int| 0 <= k < stmts.len() ==> is_quiet(#[trigger] stmts[k]),
    ensures
        exec_top(stmts, fns, ans, Seq::empty(), 0).0 == Seq::<char>::empty(),
        exec_top(stmts, fns, ans, Seq::empty(), 0).1 == 0,
    decreases stmts.len(),
{
    if stmts.len() > 0 {
        assert(is_quiet(stmts[0]));
        let d = MAX_FUNCTION_DEPTH as nat;
        assert(exec_stmt(stmts[0], fns, d, ans).0 == Seq::<char>::empty());
        assert(exec_stmt(stmts[0], fns, d, ans).1 == 0);
        assert(exec_stmt(stmts[0], fns, d, ans).2 == ans);
        assert forall|k: int| 0 <= k < stmts.drop_first().len() implies is_quiet(#[trigger] stmts.drop_first()[k]) by {
            assert(stmts.drop_first()[k] == stmts[k + 1]);
        }
        lemma_quiet_top(stmts.drop_first(), fns, ans);
        assert(add_output(Seq::<char>::empty(), Seq::<char>::empty()) == Seq::<char>::empty());
    }
}

} // verus!
