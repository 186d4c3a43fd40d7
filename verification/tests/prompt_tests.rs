use shell_nostd::env::Environment;
use shell_nostd::prompt::{colors, Prompt};

#[test]
fn plain_prompt_for_root_at_home() {
    let env = Environment::new();
    let mut p = Prompt::new();
    p.set_color(false);
    assert_eq!(p.render(&env), "[root@claudio ~]# ");
}

#[test]
fn plain_prompt_shortens_home_prefix() {
    let mut env = Environment::new();
    env.set("HOME", "/home/me");
    env.set("USER", "me");
    env.set_pwd("/home/me/src");
    let mut p = Prompt::default();
    p.set_color(false);
    assert_eq!(p.render(&env), "[me@claudio ~/src]$ ");
    env.set_pwd("/etc");
    assert_eq!(p.render(&env), "[me@claudio /etc]$ ");
    env.set_pwd("/home/meow");
    assert_eq!(p.render(&env), "[me@claudio /home/meow]$ ");
}

#[test]
fn plain_prompt_with_agent() {
    let env = Environment::new();
    let mut p = Prompt::new();
    p.set_color(false);
    p.set_agent(Some("coder".to_string()));
    assert_eq!(p.render(&env), "[root@claudio ~](coder)# ");
    p.set_agent(None);
    assert_eq!(p.render(&env), "[root@claudio ~]# ");
}

#[test]
fn colored_prompt() {
    // With HOME at "/", another directory shows as its full path.
    let mut env = Environment::new();
    env.set_pwd("/tmp");
    let p = Prompt::new();
    let expected = format!(
        "{}{}[{}root{}@{}claudio{} {}/tmp]# {}",
        colors::BOLD,
        colors::GREEN,
        colors::CYAN,
        colors::GREEN,
        colors::YELLOW,
        colors::GREEN,
        colors::BLUE,
        colors::RESET
    );
    assert_eq!(p.render(&env), expected);
}

#[test]
fn colored_prompt_with_agent() {
    let env = Environment::new();
    let mut p = Prompt::new();
    p.set_agent(Some("ops".to_string()));
    let expected = format!(
        "{}{}[{}root{}@{}claudio{} {}~]{}(ops){}# {}",
        colors::BOLD,
        colors::GREEN,
        colors::CYAN,
        colors::GREEN,
        colors::YELLOW,
        colors::GREEN,
        colors::BLUE,
        colors::MAGENTA,
        colors::RESET,
        colors::RESET
    );
    assert_eq!(p.render(&env), expected);
}

#[test]
fn custom_format_substitutes_tokens() {
    let mut env = Environment::new();
    env.set("USER", "ann");
    env.set_pwd("/var");
    let mut p = Prompt::new();
    p.set_format("{user}@{host}:{path} {agent}{$} {unknown}".to_string());
    assert_eq!(p.render(&env), "ann@claudio:/var $ {unknown}");
    p.set_agent(Some("bot".to_string()));
    assert_eq!(p.render(&env), "ann@claudio:/var bot$ {unknown}");
}

#[test]
fn custom_format_replaces_in_order() {
    let mut env = Environment::new();
    env.set("USER", "{host}");
    let mut p = Prompt::new();
    p.set_format("{user}|{host}".to_string());
    assert_eq!(p.render(&env), "claudio|claudio");
}

#[test]
fn missing_user_and_host_fall_back() {
    let mut env = Environment::new();
    env.unset("USER");
    env.unset("HOSTNAME");
    let mut p = Prompt::new();
    p.set_color(false);
    assert_eq!(p.render(&env), "[root@claudio ~]# ");
}

#[test]
fn color_codes() {
    assert_eq!(colors::RESET, "\x1b[0m");
    assert_eq!(colors::RED, "\x1b[31m");
    assert_eq!(colors::WHITE, "\x1b[37m");
}

#[test]
fn prompt_shows_directories_beside_home_in_full() {
    let mut env = Environment::new();
    env.set_pwd("/mnt/nvme0");
    let mut p = Prompt::new();
    p.set_color(false);
    assert_eq!(p.render(&env), "[root@claudio /mnt/nvme0]# ");
    env.set("HOME", "/home/u");
    env.set_pwd("/home/u/docs");
    assert_eq!(p.render(&env), "[root@claudio ~/docs]# ");
    env.set_pwd("/home/u");
    assert_eq!(p.render(&env), "[root@claudio ~]# ");
}
