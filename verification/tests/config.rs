use blobstore::config::{Config, ConfigError, HttpConfig, PathProbe, TypeConfig};

fn sample_config() -> Config {
    Config {
        server: HttpConfig { port: 8080 },
        types: vec![
            TypeConfig { type_id: 1, root: "/tmp/a".to_string(), objects_in_container: 10 },
            TypeConfig { type_id: 2, root: "/tmp/b".to_string(), objects_in_container: 20 },
        ],
    }
}

fn dir() -> PathProbe {
    PathProbe { exists: true, is_dir: true }
}

fn missing() -> PathProbe {
    PathProbe { exists: false, is_dir: false }
}

fn file() -> PathProbe {
    PathProbe { exists: true, is_dir: false }
}

#[test]
fn check_config_accepts_existing_directories() {
    let c = sample_config();
    let r = c.check_config(&vec![dir(), dir()]);
    let checked = match r {
        Ok(c) => c,
        Err(e) => panic!("valid roots rejected: {:?}", e),
    };
    assert_eq!(checked.types.len(), 2);
    assert_eq!(checked.types[0].type_id, 1);
    assert_eq!(checked.types[1].objects_in_container, 20);
    assert_eq!(checked.server.port, 8080);
}

#[test]
fn check_config_rejects_a_missing_root() {
    let r = sample_config().check_config(&vec![dir(), missing()]);
    assert_eq!(r.err(), Some(ConfigError::RootNotFound { index: 1 }));
}

#[test]
fn check_config_rejects_a_root_that_is_no_directory() {
    let r = sample_config().check_config(&vec![file(), dir()]);
    assert_eq!(r.err(), Some(ConfigError::RootNotDirectory { index: 0 }));
}

#[test]
fn check_config_reports_the_first_offender() {
    let r = sample_config().check_config(&vec![missing(), file()]);
    assert_eq!(r.err(), Some(ConfigError::RootNotFound { index: 0 }));
}

#[test]
fn check_config_accepts_an_empty_type_list() {
    let c = Config { server: HttpConfig { port: 1 }, types: vec![] };
    assert!(c.check_config(&vec![]).is_ok());
}
