use vardadb::launch::{extract_config_path, runtime_config_handoff_path};

fn args(list: &[&str]) -> Vec<String> {
    list.iter().map(|s| s.to_string()).collect()
}

#[test]
fn config_path_from_equals_form() {
    assert_eq!(
        extract_config_path(&args(&["vardadb", "--config=prod.toml", "start"])),
        Some(("prod.toml".to_string(), true))
    );
}

#[test]
fn config_path_from_flag_and_value() {
    assert_eq!(extract_config_path(&args(&["vardadb", "-c", "a.toml"])), Some(("a.toml".to_string(), true)));
    assert_eq!(extract_config_path(&args(&["vardadb", "--config", "b.toml", "-c", "c.toml"])), Some(("b.toml".to_string(), true)));
}

#[test]
fn config_flag_without_value_is_ignored() {
    assert_eq!(extract_config_path(&args(&["vardadb", "runtime", "--config"])), None);
    assert_eq!(extract_config_path(&args(&[])), None);
}

#[test]
fn handoff_falls_back_to_default_file() {
    assert_eq!(runtime_config_handoff_path(&args(&["x", "-c", "a.toml"]), true), Some("a.toml".to_string()));
    assert_eq!(runtime_config_handoff_path(&args(&["x"]), true), Some("config.toml".to_string()));
    assert_eq!(runtime_config_handoff_path(&args(&["x"]), false), None);
}
