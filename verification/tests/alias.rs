use indexmap::IndexMap;
use wrap::alias::{Alias, Aliases};
use wrap::config::Config;
use wrap::default_argument::{DefaultArgument, DefaultArguments};
use wrap::dry_run::global_dry_run;
use wrap::keyword::{Keyword, Keywords};
use wrap::run::{run_alias, RunError, RunOutcome};
use wrap::variable::{ExpandError, Variables};

fn strings(v: &[&str]) -> Vec<String> {
    v.iter().map(|s| s.to_string()).collect()
}

fn kubectl_alias() -> Alias {
    Alias {
        alias: "k".to_string(),
        program: "kubectl".to_string(),
        default_arguments: DefaultArguments(vec![DefaultArgument::new(
            "-n".to_string(),
            Some("default-namespace".to_string()),
            strings(&["-n", "-A"]),
        )]),
        keywords: Keywords(vec![
            Keyword::new(strings(&["--dev", "--development"]), strings(&["--context", "my_development_context"])),
            Keyword::new(strings(&["--prod"]), strings(&["--kubeconfig", "$PROD_KUBECONFIG"])),
            Keyword::new(strings(&["--kafka"]), strings(&["-n", "kafka-namespace"])),
        ]),
    }
}

fn readme_variables() -> Variables {
    let env = vec![("HOME".to_string(), "/home/user".to_string())];
    let mut config = IndexMap::new();
    config.insert("KUBE_DIR".to_string(), "~/.kube".to_string());
    config.insert("PROD_KUBECONFIG".to_string(), "$KUBE_DIR/prod".to_string());
    config.insert("CONFIG_DIR".to_string(), "$HOME/.config".to_string());
    Variables::try_from(env, config).unwrap()
}

fn readme_config() -> Config {
    Config { variables: readme_variables(), aliases: Aliases(vec![kubectl_alias()]) }
}

#[test]
fn get_command_applies_keywords_defaults_and_variables() {
    let mut vars = readme_variables();
    let command = kubectl_alias().get_command(strings(&["--prod", "get", "pods"]), &mut vars).unwrap();
    assert_eq!(command.program, "kubectl");
    assert_eq!(
        command.arguments,
        strings(&["-n", "default-namespace", "--kubeconfig", "/home/user/.kube/prod", "get", "pods"])
    );
}

#[test]
fn get_command_reports_expansion_errors() {
    let mut vars = Variables::new();
    let result = kubectl_alias().get_command(strings(&["\\x"]), &mut vars);
    assert!(matches!(result, Err(ExpandError::ParseFailed)));
}

#[test]
fn get_alias_finds_first_with_name() {
    let mut second = kubectl_alias();
    second.program = "other".to_string();
    let aliases = Aliases(vec![kubectl_alias(), second]);
    let found = aliases.get_alias("k").unwrap();
    assert_eq!(found.program, "kubectl");
}

#[test]
fn get_alias_missing_is_none() {
    let aliases = Aliases(vec![kubectl_alias()]);
    assert!(aliases.get_alias("kk").is_none());
    assert!(Aliases(vec![]).get_alias("k").is_none());
}

#[test]
fn get_aliases_lists_names_in_order() {
    let mut second = kubectl_alias();
    second.alias = "g".to_string();
    assert_eq!(Aliases(vec![kubectl_alias(), second]).get_aliases(), strings(&["k", "g"]));
}

#[test]
fn global_dry_run_removes_first_flag_only() {
    let mut args = strings(&["a", "--dry-run", "b", "--dry-run"]);
    assert!(global_dry_run(&mut args));
    assert_eq!(args, strings(&["a", "b", "--dry-run"]));
    let mut none = strings(&["a", "-n"]);
    assert!(!global_dry_run(&mut none));
    assert_eq!(none, strings(&["a", "-n"]));
}

#[test]
fn readme_prod_dry_run() {
    match run_alias(readme_config(), false, "k", strings(&["--prod", "--dry-run"])) {
        Ok(RunOutcome::Print(line)) => {
            assert_eq!(line, "kubectl -n default-namespace --kubeconfig /home/user/.kube/prod")
        }
        _ => panic!("expected a printed command"),
    }
}

#[test]
fn readme_dev_overrides_namespace() {
    match run_alias(readme_config(), true, "k", strings(&["--dev", "-n", "my-namespace"])) {
        Ok(RunOutcome::Print(line)) => {
            assert_eq!(line, "kubectl --context my_development_context -n my-namespace")
        }
        _ => panic!("expected a printed command"),
    }
}

#[test]
fn run_without_dry_run_executes() {
    match run_alias(readme_config(), false, "k", strings(&["get", "pods"])) {
        Ok(RunOutcome::Execute(command)) => {
            assert_eq!(command.program, "kubectl");
            assert_eq!(command.arguments, strings(&["-n", "default-namespace", "get", "pods"]));
        }
        _ => panic!("expected a command to execute"),
    }
}

#[test]
fn run_unknown_alias_fails() {
    match run_alias(readme_config(), false, "nope", vec![]) {
        Err(e) => {
            assert!(matches!(e, RunError::NoMatchingAlias));
            assert_eq!(e.to_string(), "No matching alias found");
        }
        _ => panic!("expected an error"),
    }
}

#[test]
fn run_expansion_error_fails() {
    match run_alias(readme_config(), false, "k", strings(&["$#"])) {
        Err(e) => {
            assert!(matches!(e, RunError::Expand(ExpandError::MissingPositional(0))));
            assert_eq!(e.to_string(), "Missing positional #1");
        }
        _ => panic!("expected an error"),
    }
}
