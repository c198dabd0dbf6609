//! PTY configuration: terminal dimensions, the spawn configuration, the
//! login shell's name and the environment a session starts with.

use std::collections::HashMap;
use vstd::prelude::*;

use crate::path::{file_name_bounds, lemma_file_name_is_last_component, path_file_name};

verus! {

broadcast use vstd::string::group_string_axioms;

/// Terminal dimensions.
#[derive(Debug, Clone, Copy)]
pub struct PtySize {
    pub cols: u16,
    pub rows: u16,
}

impl Default for PtySize {
    fn default() -> (s: Self)
        ensures
            s.cols == 80,
            s.rows == 24,
    {
        Self { cols: 80, rows: 24 }
    }
}

/// The size a terminal reported, or the default size when the query failed
/// or reported a zero dimension.
pub fn reported_size_or_default(query_ok: bool, cols: u16, rows: u16) -> (s: PtySize)
    ensures
        if query_ok && cols > 0 && rows > 0 {
            s.cols == cols && s.rows == rows
        } else {
            s.cols == 80 && s.rows == 24
        },
{
    if query_ok && cols > 0 && rows > 0 {
        PtySize { cols, rows }
    } else {
        PtySize::default()
    }
}

/// Configuration for spawning a PTY.
pub struct PtyConfig {
    pub shell: String,
    pub size: PtySize,
    pub env: HashMap<String, String>,
    pub working_dir: Option<String>,
}

/// Why a PTY operation failed.
#[derive(Debug)]
pub enum PtyError {
    /// Opening the PTY pair failed.
    Open(String),
    /// Forking the child failed.
    Fork(String),
    /// Reading or writing the PTY failed.
    Io(String),
    /// Resizing the PTY failed.
    Resize(String),
    /// Signalling the child failed.
    Signal(String),
}

/// The shell used when `$SHELL` is not set.
pub open spec fn fallback_shell() -> Seq<char> {
    "/bin/zsh"@
}

/// The user's shell: the value of `$SHELL` when it is set, else `/bin/zsh`.
pub fn shell_or_default(shell_var: Option<String>) -> (shell: String)
    ensures
        shell@ == match shell_var {
            Some(s) => s@,
            None => fallback_shell(),
        },
{
    match shell_var {
        Some(s) => s,
        None => String::from_str("/bin/zsh"),
    }
}

/// The name of a shell program: the file name of its path, `sh` when the
/// path has none.
pub open spec fn shell_name(shell: Seq<char>) -> Seq<char> {
    match path_file_name(shell) {
        Some(name) => name,
        None => "sh"@,
    }
}

/// The file name of the shell path (used to build the login `argv[0]`).
pub fn shell_basename(shell: &str) -> (name: String)
    ensures
        name@ == shell_name(shell@),
{
    match file_name_bounds(shell) {
        Some((a, b)) => String::from_str(shell.substring_char(a, b)),
        None => String::from_str("sh"),
    }
}

/// The login `argv[0]` for a shell: its name behind a `-`.
pub fn login_arg(shell: &str) -> (arg: String)
    ensures
        arg@ == seq!['-'] + shell_name(shell@),
{
    let mut arg = String::from_str("-");
    let name = shell_basename(shell);
    arg.append(name.as_str());
    proof {
        reveal_strlit("-");
    }
    arg
}

/// The variables a session inherits from the parent environment, when set.
pub open spec fn propagated_env_keys() -> Seq<Seq<char>> {
    seq![
        "HOME"@,
        "USER"@,
        "LOGNAME"@,
        "SHELL"@,
        "PATH"@,
        "LANG"@,
        "LC_ALL"@,
        "LC_CTYPE"@,
        "XDG_CONFIG_HOME"@,
        "XDG_DATA_HOME"@,
        "XDG_CACHE_HOME"@,
        "XDG_RUNTIME_DIR"@,
    ]
}

/// The variables every session gets, set after the inherited ones.
pub open spec fn terminal_env() -> Seq<(Seq<char>, Seq<char>)> {
    seq![
        ("TERM"@, "xterm-256color"@),
        ("COLORTERM"@, "truecolor"@),
        ("TERM_PROGRAM"@, "termojinal"@),
        ("TERM_PROGRAM_VERSION"@, "0.1.0"@),
    ]
}

/// The names of the variables a session inherits from the parent, in order.
pub fn propagated_env_vars() -> (keys: Vec<String>)
    ensures
        keys@.len() == propagated_env_keys().len(),
        forall|i: int| 0 <= i < keys@.len() ==> #[trigger] keys@[i]@ == propagated_env_keys()[i],
{
    let keys = vec![
        String::from_str("HOME"),
        String::from_str("USER"),
        String::from_str("LOGNAME"),
        String::from_str("SHELL"),
        String::from_str("PATH"),
        String::from_str("LANG"),
        String::from_str("LC_ALL"),
        String::from_str("LC_CTYPE"),
        String::from_str("XDG_CONFIG_HOME"),
        String::from_str("XDG_DATA_HOME"),
        String::from_str("XDG_CACHE_HOME"),
        String::from_str("XDG_RUNTIME_DIR"),
    ];
    keys
}

/// The terminal-specific variables every session gets, as name-value pairs
/// in the order they are set.
pub fn terminal_env_vars() -> (vars: Vec<(String, String)>)
    ensures
        vars@.len() == terminal_env().len(),
        forall|i: int|
            0 <= i < vars@.len() ==> (#[trigger] vars@[i]).0@ == terminal_env()[i].0 && vars@[i].1@
                == terminal_env()[i].1,
{
    let vars = vec![
        (String::from_str("TERM"), String::from_str("xterm-256color")),
        (String::from_str("COLORTERM"), String::from_str("truecolor")),
        // Identify as termojinal so tools can detect us.
        (String::from_str("TERM_PROGRAM"), String::from_str("termojinal")),
        (String::from_str("TERM_PROGRAM_VERSION"), String::from_str("0.1.0")),
    ];
    vars
}

/// The shell's name is the last component of its path, so the login
/// `argv[0]` of `/bin/zsh` is `-zsh`; a path without one names `sh`.
pub proof fn lemma_shell_name_from_path(dir: Seq<char>, name: Seq<char>)
    requires
        forall|i: int| 0 <= i < name.len() ==> name[i] != '/',
        name.len() > 0,
        name != seq!['.'],
        name != seq!['.', '.'],
    ensures
        shell_name(dir + seq!['/'] + name) == name,
        path_file_name(Seq::empty()) is None ==> shell_name(Seq::empty()) == "sh"@,
{
    lemma_file_name_is_last_component(dir, name);
}

} // verus!
