//! Shell prompt rendering with ANSI color support.
//!
//! Configurable prompt format, defaults to `[user@claudio path]$ `.
//! Supports showing the active agent name when in an agent context.

pub mod colors;

use vstd::prelude::*;
use crate::env::{get_or, key_home, key_pwd, root_dir, Environment};
use crate::text::{chars_of, push_str, replace_all, replace_all_exec, starts_with, str_eq, string_of};

verus! {

/// The name `USER`.
pub open spec fn key_user() -> Seq<char> {
    seq!['U', 'S', 'E', 'R']
}

/// The name `HOSTNAME`.
pub open spec fn key_hostname() -> Seq<char> {
    seq!['H', 'O', 'S', 'T', 'N', 'A', 'M', 'E']
}

/// The working directory as the prompt shows it: `~` for the home directory,
/// `~` followed by the rest for a path inside it (one that continues the home
/// directory with `/`), the path otherwise.
pub open spec fn display_path(pwd: Seq<char>, home: Seq<char>) -> Seq<char> {
    if pwd == home {
        seq!['~']
    } else if starts_with(pwd, home.push('/')) {
        seq!['~'] + pwd.skip(home.len() as int)
    } else {
        pwd
    }
}

/// A custom format with its tokens substituted, in this order.
pub open spec fn render_custom_spec(
    fmt: Seq<char>,
    user: Seq<char>,
    host: Seq<char>,
    path: Seq<char>,
    agent: Seq<char>,
    privilege: Seq<char>,
) -> Seq<char> {
    replace_all(
        replace_all(
            replace_all(
                replace_all(replace_all(fmt, "{user}"@, user), "{host}"@, host),
                "{path}"@,
                path,
            ),
            "{agent}"@,
            agent,
        ),
        "{$}"@,
        privilege,
    )
}

/// The default prompt layout: `[user@host path](agent)# `, with ANSI colors when enabled.
pub open spec fn default_render_spec(
    use_color: bool,
    agent: Option<Seq<char>>,
    user: Seq<char>,
    host: Seq<char>,
    path: Seq<char>,
    privilege: Seq<char>,
) -> Seq<char> {
    if use_color {
        let agent_part = match agent {
            Some(a) => colors::MAGENTA@ + "("@ + a + ")"@ + colors::RESET@,
            None => Seq::empty(),
        };
        colors::BOLD@ + colors::GREEN@ + "["@ + colors::CYAN@ + user + colors::GREEN@ + "@"@
            + colors::YELLOW@ + host + colors::GREEN@ + " "@ + colors::BLUE@ + path + "]"@ + agent_part
            + privilege + " "@ + colors::RESET@
    } else {
        let agent_part = match agent {
            Some(a) => "("@ + a + ")"@,
            None => Seq::empty(),
        };
        "["@ + user + "@"@ + host + " "@ + path + "]"@ + agent_part + privilege + " "@
    }
}

/// The user name the prompt shows.
pub open spec fn prompt_user(vars: Map<Seq<char>, Seq<char>>) -> Seq<char> {
    get_or(vars, key_user(), "root"@)
}

/// The host name the prompt shows.
pub open spec fn prompt_host(vars: Map<Seq<char>, Seq<char>>) -> Seq<char> {
    get_or(vars, key_hostname(), "claudio"@)
}

/// The path the prompt shows.
pub open spec fn prompt_path(vars: Map<Seq<char>, Seq<char>>) -> Seq<char> {
    display_path(get_or(vars, key_pwd(), root_dir()), get_or(vars, key_home(), root_dir()))
}

/// `#` for root, `$` for anyone else.
pub open spec fn privilege_of(user: Seq<char>) -> Seq<char> {
    if user == "root"@ {
        "#"@
    } else {
        "$"@
    }
}

/// The prompt for the given settings and variables.
pub open spec fn render_spec(
    use_color: bool,
    agent: Option<Seq<char>>,
    custom: Option<Seq<char>>,
    vars: Map<Seq<char>, Seq<char>>,
) -> Seq<char> {
    let user = prompt_user(vars);
    let host = prompt_host(vars);
    let path = prompt_path(vars);
    let privilege = privilege_of(user);
    match custom {
        Some(f) => render_custom_spec(
            f,
            user,
            host,
            path,
            match agent {
                Some(a) => a,
                None => Seq::empty(),
            },
            privilege,
        ),
        None => default_render_spec(use_color, agent, user, host, path, privilege),
    }
}

/// Shell prompt generator.
pub struct Prompt {
    /// Whether colors are enabled.
    use_color: bool,
    /// Optional agent context name (shown when shell is inside an agent pane).
    agent_name: Option<String>,
    /// Custom format string. If None, use the default format.
    custom_format: Option<String>,
}

/// The characters of an optional string.
pub open spec fn opt_chars(o: Option<String>) -> Option<Seq<char>> {
    match o {
        Some(s) => Some(s@),
        None => None,
    }
}

impl Prompt {
    /// Whether colors are enabled.
    pub closed spec fn color(&self) -> bool {
        self.use_color
    }

    /// The agent name shown, if any.
    pub closed spec fn agent(&self) -> Option<Seq<char>> {
        opt_chars(self.agent_name)
    }

    /// The custom format, if any.
    pub closed spec fn custom(&self) -> Option<Seq<char>> {
        opt_chars(self.custom_format)
    }

    /// Create a new prompt with default settings.
    pub fn new() -> (r: Self)
        ensures
            r.color(),
            r.agent() is None,
            r.custom() is None,
    {
        Prompt { use_color: true, agent_name: None, custom_format: None }
    }

    /// Enable or disable ANSI color output.
    pub fn set_color(&mut self, enabled: bool)
        ensures
            final(self).color() == enabled,
            final(self).agent() == old(self).agent(),
            final(self).custom() == old(self).custom(),
    {
        self.use_color = enabled;
    }

    /// Set the active agent name (shown in prompt when non-None).
    pub fn set_agent(&mut self, name: Option<String>)
        ensures
            final(self).agent() == opt_chars(name),
            final(self).color() == old(self).color(),
            final(self).custom() == old(self).custom(),
    {
        self.agent_name = name;
    }

    /// Set a custom prompt format string.
    /// Supported tokens: {user}, {host}, {path}, {agent}, {$}
    pub fn set_format(&mut self, format: String)
        ensures
            final(self).custom() == Some(format@),
            final(self).color() == old(self).color(),
            final(self).agent() == old(self).agent(),
    {
        self.custom_format = Some(format);
    }

    /// Render the prompt string given the current environment.
    pub fn render(&self, env: &Environment) -> (r: String)
        ensures
            r@ == render_spec(self.color(), self.agent(), self.custom(), env.vars()),
    {
        proof {
            reveal_strlit("USER");
            reveal_strlit("HOSTNAME");
            assert("USER"@ =~= key_user());
            assert("HOSTNAME"@ =~= key_hostname());
        }
        let user: &str = match env.get("USER") {
            Some(u) => u,
            None => "root",
        };
        let host: &str = match env.get("HOSTNAME") {
            Some(h) => h,
            None => "claudio",
        };
        let display_path = path_for_prompt(env);
        let privilege: &str = if str_eq(user, "root") {
            "#"
        } else {
            "$"
        };
        match &self.custom_format {
            Some(fmt) => self.render_custom(fmt.as_str(), user, host, display_path.as_str(), privilege),
            None => self.render_default(user, host, display_path.as_str(), privilege),
        }
    }

    /// Render the default layout.
    fn render_default(&self, user: &str, host: &str, path: &str, privilege: &str) -> (r: String)
        ensures
            r@ == default_render_spec(self.color(), self.agent(), user@, host@, path@, privilege@),
    {
        let mut out = String::new();
        if self.use_color {
            push_str(&mut out, colors::BOLD);
            push_str(&mut out, colors::GREEN);
            push_str(&mut out, "[");
            push_str(&mut out, colors::CYAN);
            push_str(&mut out, user);
            push_str(&mut out, colors::GREEN);
            push_str(&mut out, "@");
            push_str(&mut out, colors::YELLOW);
            push_str(&mut out, host);
            push_str(&mut out, colors::GREEN);
            push_str(&mut out, " ");
            push_str(&mut out, colors::BLUE);
            push_str(&mut out, path);
            push_str(&mut out, "]");
            let ghost before = out@;
            match &self.agent_name {
                Some(name) => {
                    push_str(&mut out, colors::MAGENTA);
                    push_str(&mut out, "(");
                    push_str(&mut out, name.as_str());
                    push_str(&mut out, ")");
                    push_str(&mut out, colors::RESET);
                    assert(out@ =~= before + (colors::MAGENTA@ + "("@ + name@ + ")"@ + colors::RESET@));
                },
                None => {
                    assert(out@ =~= before + Seq::<char>::empty());
                },
            }
            push_str(&mut out, privilege);
            push_str(&mut out, " ");
            push_str(&mut out, colors::RESET);
        } else {
            push_str(&mut out, "[");
            push_str(&mut out, user);
            push_str(&mut out, "@");
            push_str(&mut out, host);
            push_str(&mut out, " ");
            push_str(&mut out, path);
            push_str(&mut out, "]");
            let ghost before = out@;
            match &self.agent_name {
                Some(name) => {
                    push_str(&mut out, "(");
                    push_str(&mut out, name.as_str());
                    push_str(&mut out, ")");
                    assert(out@ =~= before + ("("@ + name@ + ")"@));
                },
                None => {
                    assert(out@ =~= before + Seq::<char>::empty());
                },
            }
            push_str(&mut out, privilege);
            push_str(&mut out, " ");
        }
        assert(out@ =~= default_render_spec(self.color(), self.agent(), user@, host@, path@, privilege@));
        out
    }

    /// Render a custom format string with token substitution.
    fn render_custom(&self, fmt: &str, user: &str, host: &str, path: &str, privilege: &str) -> (r: String)
        ensures
            r@ == render_custom_spec(
                fmt@,
                user@,
                host@,
                path@,
                match self.agent() {
                    Some(a) => a,
                    None => Seq::empty(),
                },
                privilege@,
            ),
    {
        let agent: Vec<char> = match &self.agent_name {
            Some(a) => chars_of(a.as_str()),
            None => Vec::new(),
        };
        let s0 = chars_of(fmt);
        let s1 = replace_all_exec(s0.as_slice(), chars_of("{user}").as_slice(), chars_of(user).as_slice());
        let s2 = replace_all_exec(s1.as_slice(), chars_of("{host}").as_slice(), chars_of(host).as_slice());
        let s3 = replace_all_exec(s2.as_slice(), chars_of("{path}").as_slice(), chars_of(path).as_slice());
        let s4 = replace_all_exec(s3.as_slice(), chars_of("{agent}").as_slice(), agent.as_slice());
        let s5 = replace_all_exec(s4.as_slice(), chars_of("{$}").as_slice(), chars_of(privilege).as_slice());
        string_of(s5.as_slice())
    }
}

/// The working directory as the prompt shows it.
fn path_for_prompt(env: &Environment) -> (r: String)
    ensures
        r@ == prompt_path(env.vars()),
{
    let pwd = env.pwd();
    let home = env.home();
    let pc = chars_of(pwd);
    let hc = chars_of(home);
    let mut inside = hc.clone();
    inside.push('/');
    proof {
        reveal_strlit("~");
        assert("~"@ =~= seq!['~']);
    }
    if crate::text::chars_eq(pc.as_slice(), hc.as_slice()) {
        String::from_str("~")
    } else if crate::text::starts_with_exec(pc.as_slice(), inside.as_slice()) {
        let mut d = String::from_str("~");
        let rest = crate::text::string_of_range(pc.as_slice(), hc.len(), pc.len());
        push_str(&mut d, rest.as_str());
        assert(pc@.subrange(hc@.len() as int, pc@.len() as int) =~= pc@.skip(hc@.len() as int));
        d
    } else {
        String::from_str(pwd)
    }
}

impl Default for Prompt {
    fn default() -> (r: Self)
        ensures
            r.color(),
            r.agent() is None,
            r.custom() is None,
    {
        Self::new()
    }
}

} // verus!
