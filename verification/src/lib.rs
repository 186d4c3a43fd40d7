//! A small command shell: parser, environment, builtins, pipes, scripting
//! and prompt, with their behaviour stated and proved in Verus.
//!
//! Type `ls /mnt/nvme0` or `show me what's on the NVMe drive`: commands run
//! directly, and natural language goes to an AI agent for a proposal that the
//! user confirms.

pub mod text;
pub mod env;
pub mod parser;
pub mod ai;
pub mod pipe;
pub mod prompt;
pub mod script;
pub mod builtin;
pub mod shell;

pub use shell::Shell;
pub use shell::LineReader;
pub use env::Environment;
pub use parser::{Command, Pipeline};
pub use builtin::{execute_builtin, Vfs, SystemInfo};
pub use ai::AiShellCallback;
pub use pipe::PipelineExecutor;
pub use prompt::Prompt;
pub use script::ScriptRunner;
