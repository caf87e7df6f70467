use indexmap::IndexMap;
use wrap::variable::{ArgumentParser, ExpandError, Variables};

fn vars() -> Variables {
    let mut map = Variables::new();
    map.insert("VAR1".to_string(), "var1_output".to_string());
    map
}

#[test]
#[allow(non_snake_case)]
fn expand__empty_input__empty_output() {
    let input = "";
    let expected = (input.to_string(), 0);
    let actual = ArgumentParser::expand(input, &vars(), &[]).unwrap();
    assert_eq!(expected, actual);
}

#[test]
#[allow(non_snake_case)]
fn expand__literal_input__literal_output() {
    let input = "nothing special here";
    let expected = (input.to_string(), 0);
    let actual = ArgumentParser::expand(input, &vars(), &[]).unwrap();
    assert_eq!(expected, actual);
}

#[test]
#[allow(non_snake_case)]
fn expand__escaped_input__escape_removed() {
    let input = r#"A bunch of escapes: \\ \$ \~"#;
    let expected = (r#"A bunch of escapes: \ $ ~"#.to_string(), 0);
    let actual = ArgumentParser::expand(input, &vars(), &[]).unwrap();
    assert_eq!(expected, actual);
}

#[test]
#[allow(non_snake_case)]
fn expand__invalid_escape_input__error() {
    let input = r#"Invalid escape: \2"#;
    let expected = "Argument parsing failed";
    let actual = ArgumentParser::expand(input, &vars(), &[])
        .unwrap_err()
        .to_string();
    assert_eq!(expected, actual);
}

#[test]
#[allow(non_snake_case)]
fn expand__missing_escapable_input__error() {
    let input = r#"Missing escape: \"#;
    let expected = "Argument parsing failed";
    let actual = ArgumentParser::expand(input, &vars(), &[])
        .unwrap_err()
        .to_string();
    assert_eq!(expected, actual);
}

#[test]
#[allow(non_snake_case)]
fn expand__variable_input__replaced_output() {
    let input = "${VAR1}";
    let expected = ("var1_output".to_string(), 0);
    let actual = ArgumentParser::expand(input, &vars(), &[]).unwrap();
    assert_eq!(expected, actual);
}

#[test]
#[allow(non_snake_case)]
fn expand__one_positional_input__replaced_output_one_skipped() {
    let input = "The first positional is: $#";
    let expected = ("The first positional is: first".to_string(), 1);
    let actual = ArgumentParser::expand(input, &vars(), &["first".to_string()]).unwrap();
    assert_eq!(expected, actual);
}

#[test]
#[allow(non_snake_case)]
fn expand__two_positional_inputs__replaced_output_one_skipped() {
    let input = "The first positional is: $#, ${#}";
    let expected = ("The first positional is: first, second".to_string(), 2);
    let actual =
        ArgumentParser::expand(input, &vars(), &["first".to_string(), "second".to_string()])
            .unwrap();
    assert_eq!(expected, actual);
}

#[test]
#[allow(non_snake_case)]
fn expand__missing_positional__error() {
    let input = "The first positional is: $#";
    let expected = "Missing positional #1";
    let actual = ArgumentParser::expand(input, &vars(), &[])
        .unwrap_err()
        .to_string();
    assert_eq!(expected, actual);
}

#[test]
#[allow(non_snake_case)]
fn apply__one_positional__one_skipped() {
    let input = vec![
        "first: 1".to_string(),
        "second: $#".to_string(),
        "2".to_string(),
        "third: 3".to_string(),
    ];
    let expected = vec!["first: 1", "second: 2", "third: 3"];
    let actual = Variables::new().apply(&input).unwrap();
    assert_eq!(expected, actual);
}

#[test]
fn expand_unbraced_variable_stops_at_non_identifier() {
    let actual = ArgumentParser::expand("$VAR1/prod", &vars(), &[]).unwrap();
    assert_eq!(actual, ("var1_output/prod".to_string(), 0));
}

#[test]
fn expand_unset_variable_is_empty() {
    let actual = ArgumentParser::expand("[${NOPE}]", &vars(), &[]).unwrap();
    assert_eq!(actual, ("[]".to_string(), 0));
}

#[test]
fn expand_tilde_is_home() {
    let mut v = vars();
    v.insert("HOME".to_string(), "/home/user".to_string());
    let actual = ArgumentParser::expand("~/.kube", &v, &[]).unwrap();
    assert_eq!(actual, ("/home/user/.kube".to_string(), 0));
}

#[test]
fn expand_tilde_without_home_is_empty() {
    let actual = ArgumentParser::expand("~/x", &vars(), &[]).unwrap();
    assert_eq!(actual, ("/x".to_string(), 0));
}

#[test]
fn expand_bad_references_fail() {
    for input in ["$", "$-", "${VAR1", "${}", "${#", "a$ b", "\\a"] {
        assert_eq!(
            ArgumentParser::expand(input, &vars(), &[]),
            Err(ExpandError::ParseFailed),
            "input {:?}",
            input
        );
    }
}

#[test]
fn expand_parse_error_wins_over_missing_positional() {
    let actual = ArgumentParser::expand("$# \\x", &vars(), &[]);
    assert_eq!(actual, Err(ExpandError::ParseFailed));
}

#[test]
fn expand_second_missing_positional_message() {
    let err = ArgumentParser::expand("$# $#", &vars(), &["one".to_string()]).unwrap_err();
    assert_eq!(err, ExpandError::MissingPositional(1));
    assert_eq!(err.to_string(), "Missing positional #2");
}

#[test]
fn expand_non_ascii_text_is_kept() {
    let actual = ArgumentParser::expand("héllo ${VAR1} ✓", &vars(), &[]).unwrap();
    assert_eq!(actual, ("héllo var1_output ✓".to_string(), 0));
}

#[test]
fn apply_error_stops_the_expansion() {
    let input = vec!["ok".to_string(), "$#".to_string()];
    assert_eq!(Variables::new().apply(&input), Err(ExpandError::MissingPositional(0)));
}

#[test]
fn apply_plain_arguments_unchanged() {
    let input = vec!["-n".to_string(), "ns".to_string(), "get".to_string()];
    assert_eq!(Variables::new().apply(&input).unwrap(), input);
}

#[test]
fn apply_positional_can_take_two_following_arguments() {
    let input = vec!["$#=$#".to_string(), "a".to_string(), "b".to_string(), "c".to_string()];
    assert_eq!(Variables::new().apply(&input).unwrap(), vec!["a=b", "c"]);
}

#[test]
fn config_variables_expand_in_order_and_environment_wins() {
    let env = vec![
        ("HOME".to_string(), "/home/user".to_string()),
        ("CONFIG_DIR".to_string(), "/from/env".to_string()),
    ];
    let mut config = IndexMap::new();
    config.insert("KUBE_DIR".to_string(), "~/.kube".to_string());
    config.insert("PROD_KUBECONFIG".to_string(), "$KUBE_DIR/prod".to_string());
    config.insert("CONFIG_DIR".to_string(), "$HOME/.config".to_string());
    let vars = Variables::try_from(env, config).unwrap();
    assert_eq!(vars.get("KUBE_DIR").unwrap(), "/home/user/.kube");
    assert_eq!(vars.get("PROD_KUBECONFIG").unwrap(), "/home/user/.kube/prod");
    assert_eq!(vars.get("CONFIG_DIR").unwrap(), "/from/env");
    assert!(vars.contains_key("HOME"));
}

#[test]
fn config_variable_that_fails_to_parse_is_an_error() {
    let mut config = IndexMap::new();
    config.insert("BAD".to_string(), "\\q".to_string());
    let result = Variables::try_from(vec![], config);
    assert!(matches!(result, Err(ExpandError::ParseFailed)));
}

#[test]
fn variables_from_env_later_pair_wins() {
    let env = vec![
        ("A".to_string(), "1".to_string()),
        ("A".to_string(), "2".to_string()),
    ];
    let vars = Variables::from_env_vars(env);
    assert_eq!(vars.get("A").unwrap(), "2");
    assert!(vars.get("B").is_none());
}
