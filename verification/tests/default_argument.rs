use wrap::default_argument::{DefaultArgument, DefaultArguments};

fn strings(v: &[&str]) -> Vec<String> {
    v.iter().map(|s| s.to_string()).collect()
}

fn namespace_default() -> DefaultArgument {
    DefaultArgument::new("-n".to_string(), Some("default-namespace".to_string()), strings(&["-n", "-A"]))
}

#[test]
fn default_is_put_in_front() {
    let mut args = strings(&["get", "pods"]);
    DefaultArguments(vec![namespace_default()]).apply(&mut args);
    assert_eq!(args, strings(&["-n", "default-namespace", "get", "pods"]));
}

#[test]
fn default_is_cleared_by_listed_argument() {
    let mut args = strings(&["get", "pods", "-A"]);
    DefaultArguments(vec![namespace_default()]).apply(&mut args);
    assert_eq!(args, strings(&["get", "pods", "-A"]));
}

#[test]
fn default_without_value_adds_only_the_key() {
    let mut args = strings(&["x"]);
    DefaultArguments(vec![DefaultArgument::new("--verbose".to_string(), None, vec![])]).apply(&mut args);
    assert_eq!(args, strings(&["--verbose", "x"]));
}

#[test]
fn later_default_ends_up_first() {
    let mut args = strings(&["x"]);
    DefaultArguments(vec![
        DefaultArgument::new("--one".to_string(), None, vec![]),
        DefaultArgument::new("--two".to_string(), Some("2".to_string()), vec![]),
    ])
    .apply(&mut args);
    assert_eq!(args, strings(&["--two", "2", "--one", "x"]));
}

#[test]
fn earlier_default_can_clear_a_later_one() {
    let mut args = strings(&["x"]);
    DefaultArguments(vec![
        DefaultArgument::new("--one".to_string(), None, vec![]),
        DefaultArgument::new("--two".to_string(), None, strings(&["--one"])),
    ])
    .apply(&mut args);
    assert_eq!(args, strings(&["--one", "x"]));
}

#[test]
fn self_clearing_default_applies_once() {
    let mut args = strings(&["x"]);
    DefaultArguments(vec![namespace_default(), namespace_default()]).apply(&mut args);
    assert_eq!(args, strings(&["-n", "default-namespace", "x"]));
}
