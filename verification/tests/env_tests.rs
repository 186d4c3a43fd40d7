use shell_nostd::env::Environment;
use shell_nostd::text::trim_str;

#[test]
fn new_environment_has_defaults() {
    let env = Environment::new();
    assert_eq!(env.get("HOME"), Some("/"));
    assert_eq!(env.get("USER"), Some("root"));
    assert_eq!(env.get("HOSTNAME"), Some("claudio"));
    assert_eq!(env.get("PWD"), Some("/"));
    assert_eq!(env.get("PATH"), Some("/bin:/usr/bin"));
    assert_eq!(env.get("SHELL"), Some("/bin/shell-nostd"));
    assert_eq!(env.get("TERM"), Some("claudio-term"));
    assert_eq!(env.get("LANG"), Some("en_US.UTF-8"));
    assert_eq!(env.get("MISSING"), None);
    assert_eq!(env.all().len(), 8);
    assert!(env.exported_vars().is_empty());
}

#[test]
fn default_matches_new() {
    let env = Environment::default();
    assert_eq!(env.all(), Environment::new().all());
}

#[test]
fn get_after_set_gives_value_back() {
    let mut env = Environment::new();
    env.set("FOO", "bar");
    assert_eq!(env.get("FOO"), Some("bar"));
    env.set("FOO", "baz");
    assert_eq!(env.get("FOO"), Some("baz"));
    assert_eq!(env.get("HOME"), Some("/"));
}

#[test]
fn unset_removes_and_unexports() {
    let mut env = Environment::new();
    env.set_export("FOO", "1");
    assert!(env.is_exported("FOO"));
    env.unset("FOO");
    assert_eq!(env.get("FOO"), None);
    assert!(!env.is_exported("FOO"));
    env.unset("NEVER_SET");
    assert_eq!(env.all().len(), 8);
}

#[test]
fn export_marks_without_value() {
    let mut env = Environment::new();
    env.export("GHOST");
    assert!(env.is_exported("GHOST"));
    assert_eq!(env.get("GHOST"), None);
    assert!(env.exported_vars().is_empty());
    env.export("USER");
    assert_eq!(env.exported_vars(), vec![("USER", "root")]);
}

#[test]
fn set_export_sets_and_exports() {
    let mut env = Environment::new();
    env.set_export("EDITOR", "vi");
    assert_eq!(env.get("EDITOR"), Some("vi"));
    assert!(env.is_exported("EDITOR"));
    assert!(!env.is_exported("HOME"));
}

#[test]
fn pwd_and_home() {
    let mut env = Environment::new();
    env.set_pwd("/mnt/data");
    assert_eq!(env.pwd(), "/mnt/data");
    env.unset("PWD");
    assert_eq!(env.pwd(), "/");
    env.set("HOME", "/home/root");
    assert_eq!(env.home(), "/home/root");
    env.unset("HOME");
    assert_eq!(env.home(), "/");
}

#[test]
fn path_entries_split_on_colon() {
    let mut env = Environment::new();
    assert_eq!(env.path_entries(), vec!["/bin", "/usr/bin"]);
    env.set("PATH", "/a::/b:");
    assert_eq!(env.path_entries(), vec!["/a", "", "/b", ""]);
    env.unset("PATH");
    assert!(env.path_entries().is_empty());
}

#[test]
fn all_is_sorted_by_name() {
    let mut env = Environment::new();
    env.set("AAA", "1");
    env.set("ZZZ", "2");
    let all = env.all();
    let keys: Vec<&str> = all.iter().map(|p| p.0).collect();
    let mut sorted = keys.clone();
    sorted.sort();
    assert_eq!(keys, sorted);
    assert_eq!(all[0], ("AAA", "1"));
    assert_eq!(all[all.len() - 1], ("ZZZ", "2"));
}

#[test]
fn expand_dollar_name() {
    let mut env = Environment::new();
    env.set("NAME", "world");
    assert_eq!(env.expand_vars("hello $NAME!"), "hello world!");
    assert_eq!(env.expand_vars("$NAME$NAME"), "worldworld");
    assert_eq!(env.expand_vars("$MISSING."), ".");
    assert_eq!(env.expand_vars("a_$NAME_b"), "a_");
}

#[test]
fn expand_braced_name() {
    let mut env = Environment::new();
    env.set("X", "42");
    assert_eq!(env.expand_vars("${X}y"), "42y");
    assert_eq!(env.expand_vars("${NOPE}y"), "y");
    assert_eq!(env.expand_vars("${X"), "${X");
}

#[test]
fn expand_status_and_lone_dollar() {
    let env = Environment::new();
    assert_eq!(env.expand_vars("code $?"), "code 0");
    assert_eq!(env.expand_vars("cost $"), "cost $");
    assert_eq!(env.expand_vars("$ x"), "$ x");
}

#[test]
fn expand_tilde() {
    let mut env = Environment::new();
    env.set("HOME", "/home/me");
    assert_eq!(env.expand_vars("~"), "/home/me");
    assert_eq!(env.expand_vars("cd ~/docs"), "cd /home/me/docs");
    assert_eq!(env.expand_vars("X=~"), "X=/home/me");
    assert_eq!(env.expand_vars("a~b"), "a~b");
    assert_eq!(env.expand_vars("~user"), "~user");
}

#[test]
fn expand_plain_text_unchanged() {
    let env = Environment::new();
    assert_eq!(env.expand_vars("ls -la /tmp"), "ls -la /tmp");
    assert_eq!(env.expand_vars(""), "");
}

#[test]
fn load_config_applies_assignments() {
    let mut env = Environment::new();
    env.load_config(
        "# comment\n\nFOO=bar\nexport PATH=/sbin\n  SPACED = \"quoted value\"  \nno_equals_here\nEMPTY=\n",
    );
    assert_eq!(env.get("FOO"), Some("bar"));
    assert!(!env.is_exported("FOO"));
    assert_eq!(env.get("PATH"), Some("/sbin"));
    assert!(env.is_exported("PATH"));
    assert_eq!(env.get("SPACED"), Some("quoted value"));
    assert_eq!(env.get("EMPTY"), Some(""));
    assert_eq!(env.get("no_equals_here"), None);
}

#[test]
fn load_config_keeps_unbalanced_quote() {
    let mut env = Environment::new();
    env.load_config("A=\"open\nB='single'\r\n");
    assert_eq!(env.get("A"), Some("\"open"));
    assert_eq!(env.get("B"), Some("'single'"));
}

#[test]
fn expand_unicode_variable_names() {
    let mut env = Environment::new();
    env.set("ÄB", "umlaut");
    env.set("X", "x");
    assert_eq!(env.expand_vars("[$ÄB]"), "[umlaut]");
    assert_eq!(env.expand_vars("$X—dash"), "x—dash");
}

#[test]
fn trimming_twice_is_trimming_once() {
    for s in ["  a b  ", "\t\n", "", "x", "\u{3000}wide\u{3000}"] {
        assert_eq!(trim_str(trim_str(s)), trim_str(s));
        assert_eq!(trim_str(s), s.trim());
    }
}
