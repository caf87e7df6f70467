use wrap::wrapper::alias::Alias;
use wrap::wrapper::trigger::Trigger;
use wrap::wrapper::wrapper::Wrapper;

fn strings(v: &[&str]) -> Vec<String> {
    v.iter().map(|s| s.to_string()).collect()
}

#[test]
fn trigger_counts_distinct_words() {
    assert_eq!(Trigger::new(strings(&["a", "b", "a"])).len(), 2);
}

#[test]
fn trigger_matches_when_all_words_present() {
    let t = Trigger::new(strings(&["get", "pods"]));
    assert!(t.matches(&strings(&["pods", "-n", "get"])));
    assert!(!t.matches(&strings(&["get"])));
    assert!(Trigger::new(vec![]).matches(&[]));
}

#[test]
fn trigger_remove_from_takes_out_first_occurrences() {
    let t = Trigger::new(strings(&["get", "pods"]));
    assert_eq!(
        t.remove_from(strings(&["get", "x", "pods", "get"])),
        strings(&["x", "get"])
    );
}

#[test]
fn longest_match_prefers_larger_then_last() {
    let w = Wrapper {
        description: "d".to_string(),
        triggers: vec![
            Trigger::new(strings(&["a"])),
            Trigger::new(strings(&["a", "b"])),
            Trigger::new(strings(&["b", "c"])),
            Trigger::new(strings(&["z"])),
        ],
        arguments: vec![],
    };
    let best = w.longest_match(&strings(&["a", "b", "c"])).unwrap();
    assert!(best.matches(&strings(&["b", "c"])));
    assert!(!best.matches(&strings(&["a"])));
    assert!(w.longest_match(&strings(&["q"])).is_none());
}

#[test]
fn wrapper_alias_picks_best_wrapper() {
    let alias = Alias {
        alias: "k".to_string(),
        command: "kubectl".to_string(),
        wrappers: vec![
            Wrapper {
                description: "one".to_string(),
                triggers: vec![Trigger::new(strings(&["prod"]))],
                arguments: strings(&["--context", "prod"]),
            },
            Wrapper {
                description: "two".to_string(),
                triggers: vec![Trigger::new(strings(&["prod", "eu"]))],
                arguments: strings(&["--context", "prod-eu"]),
            },
        ],
    };
    let command = alias.get_command(&strings(&["eu", "get", "prod"])).unwrap();
    assert_eq!(command.to_string(), "kubectl \"get\" \"--context\" \"prod-eu\"");
}

#[test]
fn wrapper_alias_without_match_is_none() {
    let alias = Alias { alias: "k".to_string(), command: "kubectl".to_string(), wrappers: vec![] };
    assert!(alias.get_command(&strings(&["x"])).is_none());
}
