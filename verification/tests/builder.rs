use configer::domain::converter::NodeConverter;
use configer::domain::{Array, Node, Table};
use configer::env::standard::ConfigerEnvironment;
use configer::error::{ConfigerError, FileError};
use configer::reader::toml::TomlConfigReader;
use configer::reader::{ConfigReader, ConfigReaderRegistry, PathReader};

/// A reader over an in-memory set of named TOML documents: path lookup plays
/// the part the file system plays outside tests.
struct InlineToml {
    reader: TomlConfigReader,
    files: Vec<(String, String)>,
}

impl InlineToml {
    fn new(files: Vec<(String, String)>) -> InlineToml {
        InlineToml { reader: TomlConfigReader::new(), files }
    }
}

impl ConfigReader for InlineToml {
    fn name(&self) -> String {
        ConfigReader::name(&self.reader)
    }

    fn suffix(&self) -> String {
        ConfigReader::suffix(&self.reader)
    }

    fn supports(&self, suffix: &str) -> bool {
        ConfigReader::supports(&self.reader, suffix)
    }

    fn read_from_str(&self, data: &str) -> Result<Table, FileError> {
        self.reader.read_from_str(data)
    }
}

impl PathReader for InlineToml {
    fn read_from_path(&self, path: &str) -> Result<Table, FileError> {
        for (p, content) in &self.files {
            if p == path {
                return self.reader.read_from_str(content);
            }
        }
        Err(FileError::ReadFailed(path.to_string()))
    }
}

fn dev_toml() -> String {
    let mut s = String::new();
    s.push_str("string_value = \"Hello, Configer!\"\n");
    s.push_str("\n");
    s.push_str("[table]\n");
    s.push_str("table_s = \"value1\"\n");
    s.push_str("\n");
    s.push_str("[database]\n");
    s.push_str("servers = [\"192.168.1.1\", \"192.168.1.2\", \"192.168.1.3\"]\n");
    s
}

fn dev_path() -> String {
    "resources/testdata/configer-dev.toml".to_string()
}

fn dev_reader() -> InlineToml {
    InlineToml::new(vec![(dev_path(), dev_toml())])
}

fn assert_configer_array(rvt_database_servers: Result<&Node, ConfigerError>, key: &str) {
    match NodeConverter::try_array(rvt_database_servers) {
        Some(servers) => {
            let mut array = Array::new();
            array.push(Node::Text("192.168.1.1".to_string()));
            array.push(Node::Text("192.168.1.2".to_string()));
            array.push(Node::Text("192.168.1.3".to_string()));

            assert!(array.len() == servers.len()
                && servers.iter().zip(array.iter()).all(|(a, b)| a == b));
        }
        _ => panic!("Failed to get key:[{}]", key),
    }
}

#[test]
fn test_build_configer_by_table() {
    let toml_reader = dev_reader();
    let toml_rvt = toml_reader.read_from_path(&dev_path());

    if let Ok(table) = toml_rvt {
        let configer: ConfigerEnvironment<InlineToml> =
            ConfigerEnvironment::table(table, Table::new());
        let rvt_database_servers = configer.get("database.servers");

        return assert_configer_array(rvt_database_servers, "database.servers");
    }

    panic!("Failed to read configer-dev content")
}

#[test]
fn test_build_configer_by_register_table() {
    let mut registry = ConfigReaderRegistry::new();
    registry.register(dev_reader());
    let mut configer: ConfigerEnvironment<InlineToml> =
        ConfigerEnvironment::mixed(None, Some(registry), Table::new());

    let toml_from_path_rvt = match configer.try_acquire("toml") {
        Some(reader) => reader.read_from_path(&dev_path()),
        None => panic!("Failed to acquire the toml reader"),
    };

    if let Ok(table) = toml_from_path_rvt {
        configer.register_table(table);

        let rvt_string_value = configer.get("table.table_s");
        match NodeConverter::try_string(rvt_string_value) {
            Some(v) => {
                assert_eq!(*v, "value1");
            }
            _ => panic!("Get key:[table.table_s] failed"),
        }

        return ();
    }

    panic!("Failed to read configer-dev content")
}

#[test]
fn test_build_configer_builder_with_table() {
    let toml_reader = dev_reader();
    let toml_rvt = toml_reader.read_from_path(&dev_path());

    if let Ok(table) = toml_rvt {
        let builder_rvt = ConfigerEnvironment::<InlineToml>::builder()
            .with_table(table)
            .build(Table::new());

        if let Ok(configer) = builder_rvt {
            let rvt_database_servers = configer.get("database.servers");

            return assert_configer_array(rvt_database_servers, "database.servers");
        }

        panic!("Failed to build ConfigerEnvironment")
    }

    panic!("Failed to read configer-dev content")
}

#[test]
fn test_build_configer_builder_with_registry_and_path() {
    let toml_reader = dev_reader();
    let mut registry = ConfigReaderRegistry::new();
    registry.register(toml_reader);

    let builder_rvt = ConfigerEnvironment::builder()
        .with_registry(registry)
        .with_path(dev_path())
        .build(Table::new());

    if let Ok(configer) = builder_rvt {
        let rvt_database_servers = configer.get("database.servers");
        return assert_configer_array(rvt_database_servers, "database.servers");
    }

    panic!("Failed to read configer-dev content")
}

#[test]
fn test_builder_profiles_overlay_in_order() {
    let base = {
        let mut s = String::new();
        s.push_str("shared = \"base\"\n");
        s.push_str("base_only = 1\n");
        s
    };
    let dev = "shared = \"dev\"\n".to_string();

    let reader = InlineToml::new(vec![
        ("conf/app.toml".to_string(), base),
        ("conf/app-dev.toml".to_string(), dev),
    ]);
    let mut registry = ConfigReaderRegistry::new();
    registry.register(reader);

    // The "missing" profile has no adjacent file and is silently skipped.
    let builder_rvt = ConfigerEnvironment::builder()
        .with_registry(registry)
        .with_path("conf/app.toml".to_string())
        .with_profiles(vec!["dev".to_string(), "missing".to_string()])
        .build(Table::new());

    let configer = builder_rvt.expect("Failed to build ConfigerEnvironment");
    assert_eq!(configer.get("shared"), Ok(&Node::Text("dev".to_string())));
    assert_eq!(configer.get("base_only"), Ok(&Node::Int64(1)));
}

#[test]
fn test_builder_environment_snapshot_wins_last() {
    let mut registry = ConfigReaderRegistry::new();
    registry.register(dev_reader());

    let mut env_table = Table::new();
    env_table.insert("string_value".to_string(), Node::Text("from-env".to_string()));

    let builder_rvt = ConfigerEnvironment::builder()
        .with_registry(registry)
        .with_path(dev_path())
        .build(env_table);

    let configer = builder_rvt.expect("Failed to build ConfigerEnvironment");
    assert_eq!(configer.get("string_value"), Ok(&Node::Text("from-env".to_string())));
}

#[test]
fn test_builder_invalid_file() {
    let mut registry = ConfigReaderRegistry::new();
    registry.register(dev_reader());

    let builder_rvt = ConfigerEnvironment::builder()
        .with_registry(registry)
        .with_path("no-extension".to_string())
        .build(Table::new());

    match builder_rvt {
        Err(FileError::InvalidFile(path)) => assert_eq!(path, "no-extension"),
        _ => panic!("expected an invalid-file failure"),
    }
}

#[test]
fn test_builder_reader_not_found() {
    let mut registry = ConfigReaderRegistry::new();
    registry.register(dev_reader());

    let builder_rvt = ConfigerEnvironment::builder()
        .with_registry(registry)
        .with_path("conf/app.json".to_string())
        .build(Table::new());

    match builder_rvt {
        Err(FileError::ReaderNotFound(suffix)) => assert_eq!(suffix, "json"),
        _ => panic!("expected a reader-not-found failure"),
    }
}

#[test]
fn test_builder_base_read_failure_propagates() {
    let mut registry = ConfigReaderRegistry::new();
    registry.register(dev_reader());

    let builder_rvt = ConfigerEnvironment::builder()
        .with_registry(registry)
        .with_path("conf/absent.toml".to_string())
        .build(Table::new());

    match builder_rvt {
        Err(FileError::ReadFailed(path)) => assert_eq!(path, "conf/absent.toml"),
        _ => panic!("expected the reader's failure to propagate"),
    }
}

#[test]
fn test_builder_without_anything_uses_snapshot() {
    let mut env_table = Table::new();
    env_table.insert("VAR".to_string(), Node::Text("value".to_string()));

    let builder_rvt = ConfigerEnvironment::<InlineToml>::builder().build(env_table);
    let configer = builder_rvt.expect("Failed to build ConfigerEnvironment");
    assert_eq!(configer.get("VAR"), Ok(&Node::Text("value".to_string())));
}

#[test]
fn test_registry_last_registration_wins() {
    let first = InlineToml::new(vec![("a.toml".to_string(), "k = 1\n".to_string())]);
    let second = InlineToml::new(vec![("a.toml".to_string(), "k = 2\n".to_string())]);

    let mut registry = ConfigReaderRegistry::new();
    registry.register(first);
    registry.register(second);

    assert_eq!(registry.try_acquires().len(), 1);
    let reader = registry.try_acquire("toml").expect("Failed to acquire the toml reader");
    let table = reader.read_from_path("a.toml").expect("Failed to read content");
    assert_eq!(table.get("k"), Some(&Node::Int64(2)));
}

#[test]
fn test_environment_without_registry_acquires_nothing() {
    let configer: ConfigerEnvironment<InlineToml> =
        ConfigerEnvironment::mixed(None, None, Table::new());
    assert!(configer.try_acquire("toml").is_none());
    assert_eq!(configer.try_acquires().len(), 0);
}
