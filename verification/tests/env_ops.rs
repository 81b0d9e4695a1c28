use configer::domain::{DateTime, Node, Table};
use configer::env::standard::{ConfigerEnvironment, Environment};
use configer::error::ConfigerError;
use configer::reader::toml::TomlConfigReader;

fn set_and_get_generically<E: Environment>(env: &mut E) {
    env.set("trait.key", Node::Int32(7)).unwrap();
    assert_eq!(env.get("trait.key"), Ok(&Node::Int32(7)));
}

#[test]
fn test_environment_trait_generic_use() {
    let mut configer = empty_env();
    set_and_get_generically(&mut configer);
}

fn empty_env() -> ConfigerEnvironment<TomlConfigReader> {
    ConfigerEnvironment::new(Table::new())
}

fn sample_datetime() -> DateTime {
    DateTime { year: 2024, month: 3, day: 11, hour: 22, minute: 50, second: 0, nanosecond: 0 }
}

#[test]
fn test_set() {
    let mut configer = empty_env();

    configer
        .set("io.github.photowey.string", String::from("Hello, Configer!").into())
        .unwrap();
    configer.set("io.github.photowey.str", "Rust".into()).unwrap();

    let rvt = 1_710_265_983_000_i64;
    configer.set("io.github.photowey.i32", 123_i32.into()).unwrap();
    configer.set("io.github.photowey.i64", rvt.into()).unwrap();

    let pi = std::f32::consts::PI as f64;
    configer
        .set("io.github.photowey.configer.f32", Node::Float32(9527.8848_f32.to_bits()))
        .unwrap();
    configer
        .set("io.github.photowey.configer.f64", Node::Float64(pi.to_bits()))
        .unwrap();

    let now = sample_datetime();
    configer
        .set("io.github.photowey.configer.Time", now.into())
        .unwrap();
}

#[test]
fn test_set_t() {
    let mut configer = empty_env();
    configer
        .set_t("io.github.photowey.string", String::from("Hello, Configer!"))
        .unwrap();
    configer.set_t("io.github.photowey.str", "Rust").unwrap();

    let rvt = 1_710_265_983_000_i64;
    configer.set_t("io.github.photowey.i32", 123_i32).unwrap();
    configer.set_t("io.github.photowey.i64", rvt).unwrap();

    let pi = std::f32::consts::PI as f64;
    configer
        .set_t("io.github.photowey.configer.f32", Node::Float32(9527.8848_f32.to_bits()))
        .unwrap();
    configer
        .set_t("io.github.photowey.configer.f64", Node::Float64(pi.to_bits()))
        .unwrap();

    let now = sample_datetime();
    configer.set_t("io.github.photowey.configer.Time", now).unwrap();
}

#[test]
fn test_get_by_set_t() {
    let mut configer = empty_env();

    configer
        .set_t("io.github.photowey.string", String::from("Hello, Configer!"))
        .unwrap();
    configer.set_t("io.github.photowey.str", "Rust").unwrap();

    let rvt = 1_710_265_983_000_i64;
    configer.set_t("io.github.photowey.i32", 123_i32).unwrap();
    configer.set_t("io.github.photowey.i64", rvt).unwrap();

    let pi = std::f32::consts::PI as f64;
    configer
        .set_t("io.github.photowey.configer.f32", Node::Float32(9527.8848_f32.to_bits()))
        .unwrap();
    configer
        .set_t("io.github.photowey.configer.f64", Node::Float64(pi.to_bits()))
        .unwrap();

    let now = sample_datetime();
    configer.set_t("io.github.photowey.configer.Time", now).unwrap();

    assert_eq!(
        configer.get("io.github.photowey.string"),
        Ok(&Node::Text(String::from("Hello, Configer!")))
    );
    assert_eq!(
        configer.get("io.github.photowey.str"),
        Ok(&Node::Text(String::from("Rust")))
    );
    assert_eq!(configer.get("io.github.photowey.i32"), Ok(&Node::Int32(123_i32)));
    assert_eq!(configer.get("io.github.photowey.i64"), Ok(&Node::Int64(rvt)));
    assert_eq!(
        configer.get("io.github.photowey.configer.f32"),
        Ok(&Node::Float32(9527.8848_f32.to_bits()))
    );
    assert_eq!(
        configer.get("io.github.photowey.configer.f64"),
        Ok(&Node::Float64(pi.to_bits()))
    );
    assert_eq!(
        configer.get("io.github.photowey.configer.Time"),
        Ok(&Node::DateTime(now))
    );
}

#[test]
fn test_set_empty_key() {
    let mut configer = empty_env();

    let now = sample_datetime();
    let empty_rvt = configer.set("", now.into());
    assert_eq!(empty_rvt, Err(ConfigerError::EmptyKey));

    let empty_rvt = configer.set("", "Rust".into());
    assert_eq!(empty_rvt, Err(ConfigerError::EmptyKey));
}

#[test]
fn test_get() {
    let mut configer = empty_env();

    configer
        .set("io.github.photowey.string", String::from("Hello, Configer!").into())
        .unwrap();
    configer.set("io.github.photowey.str", "Rust".into()).unwrap();

    let rvt = 1_710_265_983_000_i64;
    configer.set("io.github.photowey.i32", 123_i32.into()).unwrap();
    configer.set("io.github.photowey.i64", rvt.into()).unwrap();

    let pi = std::f32::consts::PI as f64;
    configer
        .set("io.github.photowey.configer.f32", Node::Float32(9527.8848_f32.to_bits()))
        .unwrap();
    configer
        .set("io.github.photowey.configer.f64", Node::Float64(pi.to_bits()))
        .unwrap();

    let now = sample_datetime();
    configer
        .set("io.github.photowey.configer.Time", now.into())
        .unwrap();

    assert_eq!(
        configer.get("io.github.photowey.string"),
        Ok(&Node::Text(String::from("Hello, Configer!")))
    );
    assert_eq!(
        configer.get("io.github.photowey.str"),
        Ok(&Node::Text(String::from("Rust")))
    );
    assert_eq!(configer.get("io.github.photowey.i32"), Ok(&Node::Int32(123_i32)));
    assert_eq!(configer.get("io.github.photowey.i64"), Ok(&Node::Int64(rvt)));
    assert_eq!(
        configer.get("io.github.photowey.configer.f32"),
        Ok(&Node::Float32(9527.8848_f32.to_bits()))
    );
    assert_eq!(
        configer.get("io.github.photowey.configer.f64"),
        Ok(&Node::Float64(pi.to_bits()))
    );
    assert_eq!(
        configer.get("io.github.photowey.configer.Time"),
        Ok(&Node::DateTime(now))
    );
}

#[test]
fn test_get_not_found() {
    let mut configer = empty_env();
    configer.set("io.github.photowey.configer.ok", "Rust".into()).unwrap();

    assert_eq!(
        configer.get("io.github.photowey.configer.not.found"),
        Err(ConfigerError::NotFound)
    );
}

#[test]
fn test_get_empty_key() {
    let configer = empty_env();
    assert_eq!(configer.get(""), Err(ConfigerError::EmptyKey));
}

#[test]
fn test_set_get_round_trip() {
    let mut configer = empty_env();
    configer.set("server.port", Node::IntU32(8080)).unwrap();
    assert_eq!(configer.get("server.port"), Ok(&Node::IntU32(8080)));

    configer.set("flat", Node::Boolean(true)).unwrap();
    assert_eq!(configer.get("flat"), Ok(&Node::Boolean(true)));
}

#[test]
fn test_set_overwrites_existing_key() {
    let mut configer = empty_env();
    configer.set("answer", Node::Int32(1)).unwrap();
    configer.set("answer", Node::Int32(2)).unwrap();
    assert_eq!(configer.get("answer"), Ok(&Node::Int32(2)));
}

#[test]
fn test_set_prefix_overwrites_subtree() {
    let mut configer = empty_env();
    configer.set("a.b", Node::Int32(1)).unwrap();
    configer.set("a", "scalar".into()).unwrap();

    assert_eq!(configer.get("a"), Ok(&Node::Text(String::from("scalar"))));
    // The strict read rule reports the non-nested value at the non-final
    // segment, not a missing key.
    assert_eq!(configer.get("a.b"), Err(ConfigerError::NonNested));
    assert_ne!(configer.get("a.b"), Err(ConfigerError::NotFound));
}

#[test]
fn test_set_through_scalar_fails_non_nested() {
    let mut configer = empty_env();
    configer.set("a", Node::Int32(7)).unwrap();
    assert_eq!(configer.set("a.b", Node::Int32(1)), Err(ConfigerError::NonNested));
    // The failed write left the table untouched.
    assert_eq!(configer.get("a"), Ok(&Node::Int32(7)));
}

#[test]
fn test_empty_segments_are_ordinary_keys() {
    let mut configer = empty_env();
    configer.set("a..b", Node::Int32(5)).unwrap();
    assert_eq!(configer.get("a..b"), Ok(&Node::Int32(5)));
    assert_eq!(configer.get("a.b"), Err(ConfigerError::NotFound));
}

#[test]
fn test_deep_nesting_round_trip() {
    let mut configer = empty_env();
    configer.set("a.b.c.d.e.f.g", "deep".into()).unwrap();
    assert_eq!(configer.get("a.b.c.d.e.f.g"), Ok(&Node::Text(String::from("deep"))));
    // Every prefix is a nested table on the way down.
    assert!(matches!(configer.get("a.b.c"), Ok(&Node::Nested(_))));
}

#[test]
fn test_register_table_replaces() {
    let mut configer = empty_env();
    configer.set("old", Node::Int32(1)).unwrap();

    let mut table = Table::new();
    table.insert("new".to_string(), Node::Int32(2));
    configer.register_table(table);

    assert_eq!(configer.get("old"), Err(ConfigerError::NotFound));
    assert_eq!(configer.get("new"), Ok(&Node::Int32(2)));
}

#[test]
fn test_merge_table_merges_into_context() {
    let mut configer = empty_env();
    configer.set("kept", Node::Int32(1)).unwrap();
    configer.set("replaced", Node::Int32(2)).unwrap();

    let mut table = Table::new();
    table.insert("replaced".to_string(), Node::Int32(3));
    table.insert("added".to_string(), Node::Int32(4));
    configer.merge_table(table);

    assert_eq!(configer.get("kept"), Ok(&Node::Int32(1)));
    assert_eq!(configer.get("replaced"), Ok(&Node::Int32(3)));
    assert_eq!(configer.get("added"), Ok(&Node::Int32(4)));
}

#[test]
fn test_mixed_with_env_variables_snapshot_wins() {
    let mut table = Table::new();
    table.insert("HOME_DIR".to_string(), Node::Text("from-table".to_string()));
    table.insert("ONLY_TABLE".to_string(), Node::Int32(1));

    let mut env_table = Table::new();
    env_table.insert("HOME_DIR".to_string(), Node::Text("from-env".to_string()));

    let configer: ConfigerEnvironment<TomlConfigReader> =
        ConfigerEnvironment::mixed_with_env_variables(Some(table), None, env_table);

    assert_eq!(configer.get("HOME_DIR"), Ok(&Node::Text(String::from("from-env"))));
    assert_eq!(configer.get("ONLY_TABLE"), Ok(&Node::Int32(1)));
}

#[test]
fn test_mixed_without_table_uses_snapshot() {
    let mut env_table = Table::new();
    env_table.insert("VAR".to_string(), Node::Text("value".to_string()));

    let configer: ConfigerEnvironment<TomlConfigReader> =
        ConfigerEnvironment::mixed(None, None, env_table);
    assert_eq!(configer.get("VAR"), Ok(&Node::Text(String::from("value"))));
}
