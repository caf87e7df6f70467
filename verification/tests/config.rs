use wrap::config::{config_sources, ConfigSource};

fn describe(sources: Vec<ConfigSource>) -> Vec<String> {
    sources
        .into_iter()
        .map(|s| match s {
            ConfigSource::File(name, required) => format!("file {} {}", name, required),
            ConfigSource::Environment(prefix) => format!("env {}", prefix),
        })
        .collect()
}

#[test]
fn default_sources_in_order() {
    assert_eq!(
        describe(config_sources(&[], Some("/home/user".to_string()))),
        vec![
            "file /etc/wrap false",
            "file /home/user/.config/wrap false",
            "file wrap false",
            "env wrap",
        ]
    );
}

#[test]
fn default_sources_without_home() {
    assert_eq!(
        describe(config_sources(&[], None)),
        vec!["file /etc/wrap false", "file wrap false", "env wrap"]
    );
}

#[test]
fn given_files_replace_defaults_and_are_required() {
    let paths = vec!["a.yaml".to_string(), "/b".to_string()];
    assert_eq!(
        describe(config_sources(&paths, Some("/home/user".to_string()))),
        vec!["file a.yaml true", "file /b true", "env wrap"]
    );
}
