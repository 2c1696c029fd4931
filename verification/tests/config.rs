use ntkd::kernel::config::{ConfigError, NtkdConfig};
use ntkd::space::TopologyError;

const VALID: &str = r#"
    gsizes = [4, 2, 2, 2]
    nics = ["eth0", "eth1"]
    port = 269
"#;

#[test]
fn round_trips_valid_toml() {
    let config = NtkdConfig::from_str(VALID).expect("valid config parses");
    assert_eq!(*config.nics(), ["eth0", "eth1"]);
    assert_eq!(config.port(), 269);
    assert_eq!(config.topology().expect("valid topology").levels(), 4);
}

#[test]
fn andna_key_path_defaults_to_none_when_absent() {
    let config = NtkdConfig::from_str(VALID).expect("valid config parses");
    assert_eq!(config.andna_key_path(), None);
}

#[test]
fn andna_key_path_parses_when_present() {
    let text = r#"
        gsizes = [4, 2, 2, 2]
        nics = ["eth0", "eth1"]
        port = 269
        andna_key_path = "/etc/ntkd/andna.key"
    "#;
    let config = NtkdConfig::from_str(text).expect("valid config parses");
    assert_eq!(config.andna_key_path(), Some("/etc/ntkd/andna.key"));
}

#[test]
fn auth_is_off_and_keyless_by_default() {
    let config = NtkdConfig::from_str(VALID).expect("valid config parses");
    assert_eq!(config.node_key_path(), None);
    assert!(!config.require_auth());
}

#[test]
fn require_auth_without_a_node_key_is_refused() {
    let text = r#"
        gsizes = [4, 2, 2, 2]
        nics = ["eth0", "eth1"]
        port = 269
        require_auth = true
    "#;
    assert!(matches!(
        NtkdConfig::from_str(text),
        Err(ConfigError::AuthWithoutKey)
    ));
}

#[test]
fn require_auth_with_a_node_key_parses() {
    let text = r#"
        gsizes = [4, 2, 2, 2]
        nics = ["eth0", "eth1"]
        port = 269
        require_auth = true
        node_key_path = "/etc/ntkd/node.key"
    "#;
    let config = NtkdConfig::from_str(text).expect("valid config parses");
    assert!(config.require_auth());
    assert_eq!(config.node_key_path(), Some("/etc/ntkd/node.key"));
}

#[test]
fn node_key_and_andna_key_are_independent() {
    let text = r#"
        gsizes = [4, 2, 2, 2]
        nics = ["eth0", "eth1"]
        port = 269
        node_key_path = "/etc/ntkd/node.key"
        andna_key_path = "/etc/ntkd/andna.key"
    "#;
    let config = NtkdConfig::from_str(text).expect("valid config parses");
    assert_ne!(config.node_key_path(), config.andna_key_path());
}

#[test]
fn rejects_zero_gsize_as_config_error_not_panic() {
    let text = r#"
        gsizes = [4, 0, 2]
        nics = ["eth0"]
        port = 269
    "#;
    let err = NtkdConfig::from_str(text).expect_err("zero gsize is invalid");
    assert!(matches!(
        err,
        ConfigError::Topology(TopologyError::ZeroGsize { level: 1 })
    ));
}

#[test]
fn a_configuration_is_read_out_of_its_document() {
    let document = |text: &'static str| {
        toml::de::DeValue::Table(toml::de::DeTable::parse(text).unwrap().into_inner())
    };
    let config = NtkdConfig::from_document(&document("gsizes = [4]\nnics = [\"a\"]\nport = 7\n"))
        .expect("valid config");
    assert_eq!(config.port(), 7);
    assert_eq!(*config.nics(), ["a"]);
    assert_eq!(
        NtkdConfig::from_document(&document("gsizes = [4]\nport = 7\n")),
        Err(ConfigError::Toml("missing field `nics`".to_owned()))
    );
}

#[test]
fn rejects_malformed_toml() {
    let err = NtkdConfig::from_str("not valid toml {{{").expect_err("malformed toml");
    assert!(matches!(err, ConfigError::Toml(_)));
}

#[test]
fn fields_of_the_wrong_shape_are_refused() {
    for text in [
        "nics = []\nport = 269\n",
        "gsizes = [4]\nport = 269\n",
        "gsizes = [4]\nnics = []\n",
        "gsizes = [-1]\nnics = []\nport = 269\n",
        "gsizes = [4294967296]\nnics = []\nport = 269\n",
        "gsizes = [4]\nnics = [1]\nport = 269\n",
        "gsizes = [4]\nnics = []\nport = 65536\n",
        "gsizes = [4]\nnics = []\nport = 269\nrequire_auth = \"yes\"\n",
        "gsizes = [4]\nnics = []\nport = 269\nandna_key_path = 1\n",
    ] {
        assert!(
            matches!(NtkdConfig::from_str(text), Err(ConfigError::Toml(_))),
            "{text}"
        );
    }
    assert!(NtkdConfig::from_str("gsizes = [4]\nnics = []\nport = 269\nextra = 1.5\n").is_ok());
    let great = "gsizes = [4]\nnics = []\nport = 269\nextra = 18446744073709551615\n";
    assert!(NtkdConfig::from_str(great).is_ok());
    assert_eq!(
        NtkdConfig::from_str("gsizes = []\nnics = []\nport = 269\n"),
        Err(ConfigError::Topology(TopologyError::Empty))
    );
}

#[test]
fn a_refused_configuration_names_its_field() {
    let load = |text: &str| {
        NtkdConfig::load("/etc/ntkd.toml", Ok(text.to_string())).unwrap_err().message()
    };
    let told = |reason: &str| {
        format!("failed to load config /etc/ntkd.toml: failed to parse config: {reason}")
    };
    assert_eq!(load("gsizes = [4]\nport = 269\n"), told("missing field `nics`"));
    assert_eq!(load(""), told("missing field `gsizes`"));
    assert_eq!(
        load("gsizes = [4]\nnics = []\nport = 65536\n"),
        told("malformed field `port`")
    );
    assert_eq!(load("gsizes = [4]\nport = \"x\"\n"), told("malformed field `port`"));
    assert_eq!(
        load("gsizes = [4]\nnics = []\nport = 269\nrequire_auth = 1\n"),
        told("malformed field `require_auth`")
    );
}

#[test]
fn loading_names_the_file() {
    let missing = NtkdConfig::load("/etc/ntkd.toml", Err("no such file".to_string())).unwrap_err();
    assert_eq!(
        missing.message(),
        "failed to read config file /etc/ntkd.toml: no such file"
    );
    let text = "gsizes = [4, 0]\nnics = []\nport = 269\n".to_string();
    let bad = NtkdConfig::load("/etc/ntkd.toml", Ok(text)).unwrap_err();
    assert_eq!(
        bad.message(),
        "failed to load config /etc/ntkd.toml: invalid topology: the g-node size at level 1 is zero"
    );
    assert!(NtkdConfig::load("/etc/ntkd.toml", Ok(VALID.to_string())).is_ok());
}
