use shell_nostd::ai::{
    classify_input, format_proposal, is_known_command, process_natural_language, AiContext,
    AiProposal, AiShellCallback, InputKind, NoOpAiCallback,
};

fn context() -> AiContext {
    AiContext { pwd: "/".to_string(), recent_history: Vec::new(), env_vars: Vec::new() }
}

#[test]
fn classify_known_commands() {
    assert_eq!(classify_input("ls -la"), InputKind::Command);
    assert_eq!(classify_input("  exit  "), InputKind::Command);
    assert_eq!(classify_input("grep\tfoo"), InputKind::Command);
}

#[test]
fn classify_paths_and_assignments() {
    assert_eq!(classify_input("/bin/tool arg"), InputKind::Command);
    assert_eq!(classify_input("./run.sh"), InputKind::Command);
    assert_eq!(classify_input("FOO=bar"), InputKind::Command);
    assert_eq!(classify_input("=oops"), InputKind::NaturalLanguage);
    assert_eq!(classify_input("../up"), InputKind::NaturalLanguage);
}

#[test]
fn classify_empty_and_natural_language() {
    assert_eq!(classify_input(""), InputKind::Empty);
    assert_eq!(classify_input(" \t\n "), InputKind::Empty);
    assert_eq!(classify_input("show me large files"), InputKind::NaturalLanguage);
    assert_eq!(classify_input("LS"), InputKind::NaturalLanguage);
    assert_eq!(classify_input("lsblk"), InputKind::NaturalLanguage);
}

#[test]
fn known_command_names() {
    assert!(is_known_command("df"));
    assert!(is_known_command("history"));
    assert!(is_known_command("rmdir"));
    assert!(!is_known_command("rmtree"));
    assert!(!is_known_command(""));
}

#[test]
fn format_proposal_numbers_commands() {
    let p = AiProposal {
        explanation: "List files".to_string(),
        commands: vec!["ls /".to_string(), "df".to_string()],
        confirmed: false,
    };
    assert_eq!(
        format_proposal(&p),
        "\x1b[1;36m[AI Assistant]\x1b[0m List files\n\n\x1b[1;33mProposed commands:\x1b[0m\n  \x1b[32m1\x1b[0m. ls /\n  \x1b[32m2\x1b[0m. df\n\nExecute? [y/N] "
    );
}

#[test]
fn format_proposal_without_commands() {
    let p = AiProposal { explanation: String::new(), commands: Vec::new(), confirmed: false };
    assert_eq!(
        format_proposal(&p),
        "\x1b[1;36m[AI Assistant]\x1b[0m \n\n\x1b[1;33mProposed commands:\x1b[0m\n\nExecute? [y/N] "
    );
}

#[test]
fn noop_callback_is_unavailable() {
    let mut cb = NoOpAiCallback;
    assert!(!cb.is_available());
    assert_eq!(cb.interpret("hi", &context()).unwrap_err(), "No AI agent connected to this shell session.");
    assert_eq!(
        process_natural_language("hi", &context(), &mut cb).unwrap_err(),
        "AI assistant not available. Is an agent session active?"
    );
}

struct Echo {
    seen: Vec<String>,
}

impl AiShellCallback for Echo {
    fn interpret(&mut self, query: &str, context: &AiContext) -> Result<AiProposal, String> {
        self.seen.push(format!("{} @ {}", query, context.pwd));
        Ok(AiProposal { explanation: "ok".to_string(), commands: vec![format!("echo {}", query)], confirmed: false })
    }
    fn is_available(&self) -> bool {
        true
    }
}

#[test]
fn available_callback_interprets() {
    let mut cb = Echo { seen: Vec::new() };
    let p = process_natural_language("hello", &context(), &mut cb).unwrap();
    assert_eq!(p.commands, vec!["echo hello"]);
    assert_eq!(cb.seen, vec!["hello @ /"]);
    let dyncb: &mut dyn AiShellCallback = &mut cb;
    assert!(process_natural_language("again", &context(), dyncb).is_ok());
}
