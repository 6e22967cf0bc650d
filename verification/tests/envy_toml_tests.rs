use std::collections::HashMap;

use envy_toml::EnvyToml;
use envy_toml::LoadError;
use envy_toml::env_map::EnvMap;
use envy_toml::merge::Diag;
use envy_toml::merge::apply_entry;
use envy_toml::merge::merge_entries;
use envy_toml::node::Node;
use envy_toml::node::flatten_entries;
use envy_toml::num::i64_to_string;

fn s(x: &str) -> String {
    x.to_string()
}

#[test]
fn it_works() {
    let mut env = EnvMap::new();
    env.set(&s("overridden_both"), &s("value_from_both_env"));
    env.set(&s("OVERRIDDEN_BOTH"), &s("value_from_both_env"));
    env.set(&s("overridden_lower"), &s("value_from_lower_env"));
    env.set(&s("OVERRIDDEN_UPPER"), &s("value_from_upper_env"));

    let config = EnvyToml::from_str::<HashMap<String, String>>(
        r#"
            example_key = "example_key_from_config"

            [overridden]
            both  = "both_from_config"
            lower = "lower_from_config"
            upper = "upper_from_config"
            "#,
        &mut env,
    )
    .unwrap();

    assert_eq!(config["example_key"], "example_key_from_config");
    // Should be overridden with env var in lowercase when input both cases
    assert_eq!(config["overridden_both"], "value_from_both_env");
    // Should be overridden with env var in lowercase
    assert_eq!(config["overridden_lower"], "value_from_lower_env");
    // Should be overridden with env var in uppercase
    assert_eq!(config["overridden_upper"], "value_from_upper_env");
}

#[test]
fn merged_environment_state() {
    let mut env = EnvMap::new();
    env.set(&s("overridden_both"), &s("value_from_both_env"));
    env.set(&s("OVERRIDDEN_BOTH"), &s("value_from_both_env"));
    env.set(&s("overridden_lower"), &s("value_from_lower_env"));
    env.set(&s("OVERRIDDEN_UPPER"), &s("value_from_upper_env"));

    EnvyToml::load_str(
        r#"
            example_key = "example_key_from_config"

            [overridden]
            both  = "both_from_config"
            lower = "lower_from_config"
            upper = "upper_from_config"
            "#,
        &mut env,
    )
    .unwrap();

    assert_eq!(env.get(&s("EXAMPLE_KEY")), Some(&s("example_key_from_config")));
    assert_eq!(env.get(&s("example_key")), None);
    assert_eq!(env.get(&s("overridden_both")), Some(&s("value_from_both_env")));
    assert_eq!(env.get(&s("OVERRIDDEN_BOTH")), None);
    assert_eq!(env.get(&s("overridden_lower")), Some(&s("value_from_lower_env")));
    assert_eq!(env.get(&s("OVERRIDDEN_LOWER")), None);
    assert_eq!(env.get(&s("OVERRIDDEN_UPPER")), Some(&s("value_from_upper_env")));
    assert_eq!(env.get(&s("overridden_upper")), None);
}

#[test]
fn fresh_key_written_uppercase() {
    let mut env = EnvMap::new();
    let diags = EnvyToml::load_str("example_key = \"v\"", &mut env).unwrap();
    assert_eq!(env.get(&s("EXAMPLE_KEY")), Some(&s("v")));
    assert_eq!(env.get(&s("example_key")), None);
    assert_eq!(env.len(), 1);
    assert!(diags.is_empty());
}

#[test]
fn mixed_case_key_folds_both_ways() {
    let mut env = EnvMap::new();
    EnvyToml::load_str("Mixed_Key = \"v\"", &mut env).unwrap();
    assert_eq!(env.get(&s("MIXED_KEY")), Some(&s("v")));
    assert_eq!(env.get(&s("mixed_key")), None);
    assert_eq!(env.get(&s("Mixed_Key")), None);
}

#[test]
fn lowercase_env_wins_over_file() {
    let mut env = EnvMap::new();
    env.set(&s("key"), &s("from_env"));
    let diags = EnvyToml::load_str("key = \"from_file\"", &mut env).unwrap();
    assert_eq!(env.get(&s("key")), Some(&s("from_env")));
    assert_eq!(env.get(&s("KEY")), None);
    assert_eq!(env.len(), 1);
    assert_eq!(
        diags,
        vec![Diag::KeptLower {
            lower_key: s("key"),
            lower_value: s("from_env"),
            file_value: s("from_file"),
        }]
    );
}

#[test]
fn uppercase_env_wins_over_file() {
    let mut env = EnvMap::new();
    env.set(&s("KEY"), &s("from_env"));
    let diags = EnvyToml::load_str("key = \"from_file\"", &mut env).unwrap();
    assert_eq!(env.get(&s("KEY")), Some(&s("from_env")));
    assert_eq!(env.get(&s("key")), None);
    assert_eq!(
        diags,
        vec![Diag::KeptUpper {
            upper_key: s("KEY"),
            upper_value: s("from_env"),
            file_value: s("from_file"),
        }]
    );
}

#[test]
fn both_cases_lowercase_wins_upper_removed() {
    let mut env = EnvMap::new();
    env.set(&s("key"), &s("lower_env"));
    env.set(&s("KEY"), &s("upper_env"));
    let diags = EnvyToml::load_str("key = \"from_file\"", &mut env).unwrap();
    assert_eq!(env.get(&s("key")), Some(&s("lower_env")));
    assert_eq!(env.get(&s("KEY")), None);
    assert_eq!(env.len(), 1);
    assert_eq!(
        diags,
        vec![Diag::DroppedUpper {
            lower_key: s("key"),
            lower_value: s("lower_env"),
            upper_key: s("KEY"),
            upper_value: s("upper_env"),
        }]
    );
}

#[test]
fn nested_tables_join_with_underscores() {
    let mut env = EnvMap::new();
    EnvyToml::load_str("[a.b]\nc = \"x\"", &mut env).unwrap();
    assert_eq!(env.get(&s("A_B_C")), Some(&s("x")));
    assert_eq!(env.len(), 1);
}

#[test]
fn integer_leaves_flatten_to_decimal() {
    let mut env = EnvMap::new();
    EnvyToml::load_str("count = 42\nlow = -7", &mut env).unwrap();
    assert_eq!(env.get(&s("COUNT")), Some(&s("42")));
    assert_eq!(env.get(&s("LOW")), Some(&s("-7")));
}

#[test]
fn decimal_rendering_matches_display() {
    assert_eq!(i64_to_string(0), "0");
    assert_eq!(i64_to_string(42), "42");
    assert_eq!(i64_to_string(-7), "-7");
    assert_eq!(i64_to_string(1000), "1000");
    assert_eq!(i64_to_string(i64::MAX), "9223372036854775807");
    assert_eq!(i64_to_string(i64::MIN), "-9223372036854775808");
}

#[test]
fn non_table_root_is_shape_error() {
    let mut env = EnvMap::new();
    env.set(&s("pre"), &s("kept"));
    let root = Node::Str(s("just a string"));
    let r = EnvyToml::load_node(&root, &mut env);
    assert_eq!(r, Err(LoadError::Shape));
    assert_eq!(env.get(&s("pre")), Some(&s("kept")));
    assert_eq!(env.len(), 1);
}

#[test]
fn parse_error_reported_and_nothing_merged() {
    let mut env = EnvMap::new();
    env.set(&s("pre"), &s("kept"));
    let r = EnvyToml::load_str("this is not { toml", &mut env);
    match r {
        Err(LoadError::Parse(_)) => {}
        other => panic!("expected a parse error, got {:?}", other),
    }
    assert_eq!(env.len(), 1);
    assert_eq!(env.get(&s("pre")), Some(&s("kept")));
}

#[test]
fn unsupported_leaf_aborts_load() {
    let mut env = EnvMap::new();
    let r = EnvyToml::load_str("nothing = \"merged\"\n[t]\nbad = 1.5", &mut env);
    match r {
        Err(LoadError::UnsupportedType { key, value }) => {
            assert_eq!(key, "t_bad");
            assert!(value.contains("1.5"));
        }
        other => panic!("expected an unsupported-type error, got {:?}", other),
    }
    assert_eq!(env.len(), 0);
}

#[test]
fn unsupported_array_leaf_aborts_load() {
    let mut env = EnvMap::new();
    let r = EnvyToml::load_str("xs = [1, 2]", &mut env);
    match r {
        Err(LoadError::UnsupportedType { key, .. }) => assert_eq!(key, "xs"),
        other => panic!("expected an unsupported-type error, got {:?}", other),
    }
    assert_eq!(env.len(), 0);
}

#[test]
fn loading_twice_is_idempotent() {
    let doc = r#"
        example_key = "example_key_from_config"
        count = 3

        [overridden]
        both  = "both_from_config"
        lower = "lower_from_config"
        "#;
    let mut env = EnvMap::new();
    env.set(&s("overridden_both"), &s("value_from_both_env"));
    env.set(&s("OVERRIDDEN_BOTH"), &s("value_from_both_env"));
    env.set(&s("overridden_lower"), &s("value_from_lower_env"));

    let first: HashMap<String, String> =
        EnvyToml::from_str::<HashMap<String, String>>(doc, &mut env).unwrap();
    let env_after_first = env.clone();
    let second: HashMap<String, String> =
        EnvyToml::from_str::<HashMap<String, String>>(doc, &mut env).unwrap();

    assert_eq!(env, env_after_first);
    assert_eq!(first, second);
}

#[test]
fn flattener_walks_depth_first() {
    let entries = vec![
        (s("a"), Node::Table(vec![(s("x"), Node::Str(s("1"))), (s("y"), Node::Int(2))])),
        (s("b"), Node::Str(s("3"))),
    ];
    let flat = flatten_entries(None, &entries).unwrap();
    assert_eq!(
        flat,
        vec![(s("a_x"), s("1")), (s("a_y"), s("2")), (s("b"), s("3"))]
    );
}

#[test]
fn apply_entry_writes_only_fresh_keys() {
    let mut env = EnvMap::new();
    let d = apply_entry(&mut env, &s("Port"), &s("8080"));
    assert_eq!(d, None);
    assert_eq!(env.get(&s("PORT")), Some(&s("8080")));

    let d2 = apply_entry(&mut env, &s("Port"), &s("9090"));
    assert_eq!(
        d2,
        Some(Diag::KeptUpper {
            upper_key: s("PORT"),
            upper_value: s("8080"),
            file_value: s("9090"),
        })
    );
    assert_eq!(env.get(&s("PORT")), Some(&s("8080")));
}

#[test]
fn merge_entries_in_order() {
    let mut env = EnvMap::new();
    env.set(&s("b"), &s("env_b"));
    let entries = vec![(s("a"), s("1")), (s("b"), s("2")), (s("c"), s("3"))];
    let diags = merge_entries(&mut env, &entries);
    assert_eq!(env.get(&s("A")), Some(&s("1")));
    assert_eq!(env.get(&s("b")), Some(&s("env_b")));
    assert_eq!(env.get(&s("B")), None);
    assert_eq!(env.get(&s("C")), Some(&s("3")));
    assert_eq!(diags.len(), 1);
}

#[test]
fn mixed_case_file_key_finds_lowercase_env_var() {
    let mut env = EnvMap::new();
    env.set(&s("mixed_key"), &s("from_env"));
    let diags = EnvyToml::load_str("Mixed_Key = \"v\"", &mut env).unwrap();
    assert_eq!(env.get(&s("mixed_key")), Some(&s("from_env")));
    assert_eq!(env.get(&s("MIXED_KEY")), None);
    assert_eq!(env.len(), 1);
    assert_eq!(
        diags,
        vec![Diag::KeptLower {
            lower_key: s("mixed_key"),
            lower_value: s("from_env"),
            file_value: s("v"),
        }]
    );
}

#[test]
fn caseless_key_both_spellings_collapse() {
    // A key with no cased letters folds to the same spelling both ways:
    // the both-cases-exist branch then removes the one existing variable.
    let mut env = EnvMap::new();
    env.set(&s("123"), &s("from_env"));
    EnvyToml::load_str("123 = \"from_file\"", &mut env).unwrap();
    assert_eq!(env.get(&s("123")), None);
    assert_eq!(env.len(), 0);
}

#[test]
fn env_map_basics() {
    let mut env = EnvMap::new();
    assert_eq!(env.len(), 0);
    assert_eq!(env.get(&s("k")), None);
    assert!(!env.contains_key(&s("k")));
    env.set(&s("k"), &s("v1"));
    assert_eq!(env.get(&s("k")), Some(&s("v1")));
    assert!(env.contains_key(&s("k")));
    env.set(&s("k"), &s("v2"));
    assert_eq!(env.get(&s("k")), Some(&s("v2")));
    assert_eq!(env.len(), 1);
    env.remove(&s("k"));
    assert_eq!(env.get(&s("k")), None);
    assert_eq!(env.len(), 0);
    env.remove(&s("k"));
    assert_eq!(env.len(), 0);
    let pairs = env.to_pairs();
    assert!(pairs.is_empty());
}
