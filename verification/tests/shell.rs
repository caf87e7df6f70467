use wrap::shell::{alias, fish_alias, get_shell, unalias, Shell, ShellAction, ShellError};

fn strings(v: &[&str]) -> Vec<String> {
    v.iter().map(|s| s.to_string()).collect()
}

#[test]
fn fish_script_has_one_line_per_alias() {
    assert_eq!(
        fish_alias(&strings(&["k", "g"])),
        "alias k=\"wrap k\"\nalias g=\"wrap g\"\n"
    );
    assert_eq!(fish_alias(&[]), "");
}

#[test]
fn shell_from_name() {
    assert_eq!(Shell::from_str("fish").ok(), Some(Shell::Fish));
    match Shell::from_str("bash") {
        Err(e) => assert_eq!(e.to_string(), "Shell is not yet supported: bash"),
        Ok(_) => panic!("bash is not supported"),
    }
}

#[test]
fn shell_from_path_uses_last_component() {
    assert_eq!(get_shell(Some("/usr/bin/fish".to_string())).ok(), Some(Shell::Fish));
    match get_shell(Some("/usr/local/bin/zsh".to_string())) {
        Err(ShellError::Unsupported(name)) => assert_eq!(name, "zsh"),
        _ => panic!("zsh is not supported"),
    }
    match get_shell(Some("fish".to_string())) {
        Err(e) => assert_eq!(e.to_string(), "Failed to get shell from SHELL path: fish"),
        _ => panic!("a path without / is refused"),
    }
    match get_shell(None) {
        Err(e) => assert_eq!(e.to_string(), "Could not determine current shell. Is SHELL set?"),
        _ => panic!("an unset SHELL is refused"),
    }
    match get_shell(Some("/usr/bin/".to_string())) {
        Err(ShellError::Unsupported(name)) => assert_eq!(name, ""),
        _ => panic!("an empty name is not supported"),
    }
}

#[test]
fn alias_and_unalias_actions() {
    match alias(Some("/bin/fish".to_string()), &strings(&["k"])) {
        Ok(ShellAction::WriteFishConfig(contents)) => assert_eq!(contents, "alias k=\"wrap k\"\n"),
        _ => panic!("expected fish configuration"),
    }
    assert!(matches!(unalias(Some("/bin/fish".to_string()), &strings(&["k"])), Ok(ShellAction::RemoveFishConfig)));
    assert!(matches!(unalias(None, &[]), Err(ShellError::ShellNotSet)));
}
