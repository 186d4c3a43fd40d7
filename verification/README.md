# shell_nostd

A small AI-native command shell whose logic is written and proved in Verus:
command-line parsing with quotes, pipes and redirections, an environment with
`$VAR` expansion, 45 builtins over a pluggable file system and system
interface, pipelines, a minimal scripting language (`if`/`else`/`fi`,
`for`/`do`/`done`, `while`/`do`/`done`, functions `NAME() { ... }`,
assignments), prompt rendering, and the routing of natural
language (or a request after `ask` or `agent`) to an agent whose proposals
the user confirms.

## Layout

- `src/text.rs` — character-level helpers (trimming, lines, words, numbers)
  and the three calls into std that have no vstd specification.
- `src/env.rs` — the variable store, kept sorted by name, and expansion.
- `src/parser.rs` — lexing and pipeline building, history, tab completion.
- `src/builtin.rs` — the builtins; `builtin_effect` states what each does to
  the environment and answers, `builtin_io` what it asks of and does to the
  file system and the system.
- `src/pipe.rs` — running a pipeline against a `CommandExecutor`.
- `src/script.rs` — parsing and running scripts against a `ScriptExecutor`.
- `src/prompt.rs` — prompt rendering.
- `src/ai.rs` — classifying input and formatting agent proposals.
- `src/shell.rs` — the `Shell` state: one input line at a time, the terminal
  and agent exchanges it makes, and the startup file.
- `app/lib.rs` — the interactive loop that reads lines until `exit` or the
  end of input.

Laws that relate several operations are public proof functions named
`law_*`, next to the functions they speak of.
