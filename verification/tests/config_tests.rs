use patchhive_backend::config::{bind_address_text, product_selection_from_env, ProductSelection};
use patchhive_backend::env::EnvSnapshot;

#[test]
fn all_selection_accepts_all_and_star() {
    assert_eq!(
        ProductSelection::from_env_value("all"),
        ProductSelection::All
    );
    assert_eq!(ProductSelection::from_env_value("*"), ProductSelection::All);
    assert_eq!(ProductSelection::from_env_value(""), ProductSelection::All);
}

#[test]
fn product_selection_normalizes_keys() {
    let selection = ProductSelection::from_env_value(" Signal-Hive, trust-gate ");

    assert!(selection.enables("signal-hive"));
    assert!(selection.enables("trust-gate"));
    assert!(!selection.enables("repo-reaper"));
    assert_eq!(selection.mode_label(), "partial-suite");
}

#[test]
fn all_word_ignores_ascii_case_and_whitespace() {
    assert_eq!(ProductSelection::from_env_value("  ALL\t"), ProductSelection::All);
    assert_eq!(ProductSelection::from_env_value("All"), ProductSelection::All);
    assert_eq!(ProductSelection::from_env_value(" * "), ProductSelection::All);
    assert_eq!(ProductSelection::from_env_value("   "), ProductSelection::All);
}

#[test]
fn list_without_keys_selects_every_product() {
    assert_eq!(ProductSelection::from_env_value(",, ,"), ProductSelection::All);
}

#[test]
fn star_inside_a_list_is_a_key() {
    let selection = ProductSelection::from_env_value("*,hive-core");
    assert!(selection.enables("*"));
    assert!(selection.enables("hive-core"));
    assert!(!selection.enables("signal-hive"));
}

#[test]
fn single_key_is_product_mode() {
    let selection = ProductSelection::from_env_value("signal-hive");
    assert_eq!(selection.mode_label(), "product");
    assert!(selection.enables("signal-hive"));
    assert!(!selection.enables("Signal-Hive"));
}

#[test]
fn repeated_key_is_still_product_mode() {
    let selection = ProductSelection::from_env_value("Signal-Hive, signal-hive ,");
    assert_eq!(selection.mode_label(), "product");
}

#[test]
fn suite_mode_enables_everything() {
    let selection = ProductSelection::All;
    assert_eq!(selection.mode_label(), "suite");
    assert!(selection.enables("anything-at-all"));
}

#[test]
fn selections_compare_as_sets() {
    assert_eq!(
        ProductSelection::from_env_value("a,b"),
        ProductSelection::from_env_value("B, A, a")
    );
    assert_ne!(
        ProductSelection::from_env_value("a,b"),
        ProductSelection::from_env_value("a")
    );
    assert_ne!(ProductSelection::from_env_value("a"), ProductSelection::All);
}

#[test]
fn unicode_whitespace_is_trimmed_around_keys() {
    let selection = ProductSelection::from_env_value("\u{3000}dep-triage\u{a0},vuln-triage");
    assert!(selection.enables("dep-triage"));
    assert!(selection.enables("vuln-triage"));
    assert_eq!(selection.mode_label(), "partial-suite");
}

#[test]
fn bind_address_defaults() {
    let env = EnvSnapshot::new();
    assert_eq!(bind_address_text(&env), "127.0.0.1:8100");
    let mut env = EnvSnapshot::new();
    env.set("PATCHHIVE_PORT".to_string(), "9000".to_string());
    assert_eq!(bind_address_text(&env), "127.0.0.1:9000");
    env.set("PATCHHIVE_BIND_ADDR".to_string(), "0.0.0.0:8120".to_string());
    assert_eq!(bind_address_text(&env), "0.0.0.0:8120");
}

#[test]
fn products_variable_defaults_to_suite() {
    let env = EnvSnapshot::new();
    assert_eq!(product_selection_from_env(&env), ProductSelection::All);
    let mut env = EnvSnapshot::new();
    env.set("PATCHHIVE_PRODUCTS".to_string(), "hive-core,signal-hive".to_string());
    let selection = product_selection_from_env(&env);
    assert_eq!(selection.mode_label(), "partial-suite");
    assert!(selection.enables("hive-core"));
}

#[test]
fn later_environment_value_wins() {
    let mut env = EnvSnapshot::new();
    env.set("X".to_string(), "1".to_string());
    env.set("X".to_string(), "2".to_string());
    assert_eq!(env.get("X"), Some("2".to_string()));
    assert_eq!(env.get("Y"), None);
}
