use wrap::keyword::{Keyword, Keywords};

fn strings(v: &[&str]) -> Vec<String> {
    v.iter().map(|s| s.to_string()).collect()
}

fn keyword(keys: &[&str], values: &[&str]) -> Keyword {
    Keyword::new(strings(keys), strings(values))
}

#[test]
fn keyword_first_match_replaced_in_place() {
    let keywords = Keywords(vec![keyword(&["--dev", "--development"], &["--context", "my_development_context"])]);
    let mut args = strings(&["get", "--development", "pods", "--dev"]);
    keywords.replace(&mut args);
    assert_eq!(args, strings(&["get", "--context", "my_development_context", "pods", "--dev"]));
}

#[test]
fn keyword_without_match_leaves_arguments() {
    let keywords = Keywords(vec![keyword(&["--prod"], &["--kubeconfig", "x"])]);
    let mut args = strings(&["get", "pods"]);
    keywords.replace(&mut args);
    assert_eq!(args, strings(&["get", "pods"]));
}

#[test]
fn keyword_with_no_values_removes_the_key() {
    let keywords = Keywords(vec![keyword(&["--quiet"], &[])]);
    let mut args = strings(&["a", "--quiet", "b"]);
    keywords.replace(&mut args);
    assert_eq!(args, strings(&["a", "b"]));
}

#[test]
fn keywords_apply_in_order_and_not_recursively() {
    let keywords = Keywords(vec![
        keyword(&["--a"], &["--b", "x"]),
        keyword(&["--b"], &["y"]),
        keyword(&["--a"], &["z"]),
    ]);
    let mut args = strings(&["--a", "--a"]);
    keywords.replace(&mut args);
    assert_eq!(args, strings(&["y", "x", "z"]));
}

#[test]
fn empty_keywords_change_nothing() {
    let mut args = strings(&["one"]);
    Keywords::new().replace(&mut args);
    assert_eq!(args, strings(&["one"]));
}
