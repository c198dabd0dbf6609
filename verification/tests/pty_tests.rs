use termojinal::pty::{
    login_arg, propagated_env_vars, reported_size_or_default, shell_basename, shell_or_default,
    terminal_env_vars, PtySize,
};

#[test]
fn test_pty_size_default() {
    let size = PtySize::default();
    assert_eq!(size.cols, 80);
    assert_eq!(size.rows, 24);
}

#[test]
fn terminal_env_sets_term_and_colorterm() {
    let vars = terminal_env_vars();
    let get = |k: &str| vars.iter().find(|(key, _)| key == k).map(|(_, v)| v.clone());
    assert_eq!(get("TERM").unwrap(), "xterm-256color");
    assert_eq!(get("COLORTERM").unwrap(), "truecolor");
    assert_eq!(get("TERM_PROGRAM").unwrap(), "termojinal");
    assert_eq!(get("TERM_PROGRAM_VERSION").unwrap(), "0.1.0");
    assert_eq!(vars.len(), 4);
}

#[test]
fn propagated_env_lists_login_variables() {
    let keys = propagated_env_vars();
    assert_eq!(keys.len(), 12);
    assert_eq!(keys[0], "HOME");
    assert_eq!(keys[4], "PATH");
    assert_eq!(keys[11], "XDG_RUNTIME_DIR");
    assert!(!keys.iter().any(|k| k == "TERM"));
}

#[test]
fn shell_falls_back_to_zsh() {
    assert_eq!(shell_or_default(None), "/bin/zsh");
    assert_eq!(shell_or_default(Some("/usr/bin/fish".to_string())), "/usr/bin/fish");
}

#[test]
fn shell_basename_takes_file_name() {
    assert_eq!(shell_basename("/bin/zsh"), "zsh");
    assert_eq!(shell_basename("/usr/local/bin/fish/"), "fish");
    assert_eq!(shell_basename("bash"), "bash");
    assert_eq!(shell_basename("/usr/bin/./dash"), "dash");
    assert_eq!(shell_basename("/"), "sh");
    assert_eq!(shell_basename(""), "sh");
    assert_eq!(shell_basename("/bin/.."), "sh");
    assert_eq!(shell_basename("."), "sh");
}

#[test]
fn login_arg_prefixes_dash() {
    assert_eq!(login_arg("/bin/zsh"), "-zsh");
    assert_eq!(login_arg("/"), "-sh");
}

#[test]
fn reported_size_used_when_valid() {
    let s = reported_size_or_default(true, 120, 40);
    assert_eq!((s.cols, s.rows), (120, 40));
    let s = reported_size_or_default(false, 120, 40);
    assert_eq!((s.cols, s.rows), (80, 24));
    let s = reported_size_or_default(true, 0, 40);
    assert_eq!((s.cols, s.rows), (80, 24));
    let s = reported_size_or_default(true, 120, 0);
    assert_eq!((s.cols, s.rows), (80, 24));
}

#[test]
fn test_detect_shell() {
    assert!(!shell_or_default(None).is_empty());
    assert!(!shell_or_default(Some("/bin/bash".to_string())).is_empty());
}

#[test]
fn test_default_env() {
    let vars = terminal_env_vars();
    let get = |k: &str| vars.iter().find(|(key, _)| key == k).map(|(_, v)| v.clone());
    assert_eq!(get("TERM").unwrap(), "xterm-256color");
    assert_eq!(get("COLORTERM").unwrap(), "truecolor");
}
