use devpp::config::Config;
use devpp::config::ConfigError;
use devpp::config::ConfigKind;
use devpp::config::RequestedConfig;

fn req(path: &str, canonical: &str) -> Option<RequestedConfig> {
    Some(RequestedConfig {
        path: path.to_string(),
        canonical: canonical.to_string(),
    })
}

fn cfg(path: &str) -> Config {
    Config {
        kind: ConfigKind::Plain,
        path: path.to_string(),
    }
}

#[test]
fn config_not_found() {
    assert!(matches!(Config::find_config(vec![], None), Err(ConfigError::ConfigNotFound)));
    assert!(matches!(
        Config::find_config(vec![], req("x.json", "/w/x.json")),
        Err(ConfigError::ConfigNotFound)
    ));
}

#[test]
fn find_config_single() {
    let c = Config::find_config(vec![cfg("/w/.devcontainer.json")], None).unwrap();
    assert_eq!(c.path, "/w/.devcontainer.json");
}

#[test]
fn config_ambiguous() {
    match Config::find_config(vec![cfg("/w/a"), cfg("/w/b")], None) {
        Err(ConfigError::ConfigAmbiguous { entries }) => {
            assert_eq!(entries, vec![String::from("/w/a"), String::from("/w/b")])
        }
        other => panic!("{other:?}"),
    }
}

#[test]
fn find_config_requested() {
    let c = Config::find_config(vec![cfg("/w/a"), cfg("/w/b")], req("./b", "/w/b")).unwrap();
    assert_eq!(c.path, "/w/b");
}

#[test]
fn config_permission_denied() {
    match Config::find_config(vec![cfg("/w/a")], req("../elsewhere", "/elsewhere")) {
        Err(ConfigError::ConfigPermissionDenied { config, entries }) => {
            assert_eq!(config, "../elsewhere");
            assert_eq!(entries, vec![String::from("/w/a")]);
        }
        other => panic!("{other:?}"),
    }
}

#[test]
fn find_dotdev_kinds() {
    let nested = Config {
        kind: ConfigKind::Nested {
            dotdev: String::from("/w/.devcontainer"),
        },
        path: String::from("/w/.devcontainer/devcontainer.json"),
    };
    assert_eq!(nested.find_dotdev().unwrap(), "/w/.devcontainer");
    assert!(matches!(cfg("/w/.devcontainer.json").find_dotdev(), Err(ConfigError::DotdevNotFound)));
}
