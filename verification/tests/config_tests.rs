use spfs::config::{
    url_scheme, Config, ConfigError, Filesystem, NamedRemote, Remote, RemoteAddress, RemoteConfig,
    Storage, User,
};

fn config_with(remotes: Vec<NamedRemote>) -> Config {
    Config {
        user: User::from_system(Some("me".into()), None),
        storage: Storage::from_expanded_root(Some("/data/spfs".into())),
        filesystem: Filesystem::default(),
        remote: remotes,
    }
}

#[test]
fn defaults() {
    assert_eq!(Filesystem::default().max_layers, 40);
    let u = User::from_system(None, Some("host".into()));
    assert_eq!(u.name, "unknown");
    assert_eq!(u.domain, "host");
    assert_eq!(Storage::from_expanded_root(None).root, "/tmp/spfs");
    let c = Config::default();
    assert!(c.remote.is_empty());
    assert!(!Storage::default().root.is_empty());
}

#[test]
fn schemes_choose_the_repository_kind() {
    assert_eq!(url_scheme("tar:///tmp/x.tar"), "tar");
    assert_eq!(url_scheme("nocolon"), "nocolon");
    assert!(matches!(RemoteConfig::from_address("file:///tmp/repo"), Ok(RemoteConfig::Fs { .. })));
    assert!(matches!(RemoteConfig::from_address("grpc://host:7737"), Ok(RemoteConfig::Grpc { .. })));
    assert!(matches!(RemoteConfig::from_address("http2://host"), Ok(RemoteConfig::Grpc { .. })));
    assert!(matches!(RemoteConfig::from_address("proxy://host"), Ok(RemoteConfig::Proxy { .. })));
    match RemoteConfig::from_address("s3://bucket") {
        Err(ConfigError::UnsupportedScheme { scheme }) => assert_eq!(scheme, "s3"),
        _ => panic!("expected an unsupported scheme"),
    }
}

#[test]
fn addresses_are_parsed_as_urls() {
    match RemoteConfig::from_str("tar:///tmp/out.tar") {
        Ok(RemoteConfig::Tar { address }) => assert_eq!(address, "tar:///tmp/out.tar"),
        _ => panic!("expected a tar config"),
    }
    // the url parser normalizes what it reads
    match RemoteConfig::from_str("GRPC://Host:1") {
        Ok(c) => assert_eq!(c.address(), "grpc://Host:1"),
        Err(e) => panic!("unexpected {e:?}"),
    }
    match RemoteConfig::from_str("not a url") {
        Err(e) => {
            assert!(matches!(e, ConfigError::InvalidUrl { .. }));
            assert_eq!(e.message(), "invalid repository url: RelativeUrlWithoutBase");
        }
        Ok(_) => panic!("expected an invalid url"),
    }
    match RemoteConfig::from_str("s3://bucket") {
        Err(e) => assert_eq!(e.message(), "Unsupported repository scheme: 's3'"),
        Ok(_) => panic!("expected an unsupported scheme"),
    }
}

#[test]
fn remotes_by_name_or_address() {
    let config = config_with(vec![
        NamedRemote {
            name: "origin".into(),
            remote: Remote::Address(RemoteAddress { address: "grpc://origin:7737".into() }),
        },
        NamedRemote {
            name: "archive".into(),
            remote: Remote::Config(RemoteConfig::Tar { address: "tar:///a.tar".into() }),
        },
    ]);
    assert_eq!(config.list_remote_names(), vec!["origin".to_string(), "archive".to_string()]);
    let remotes = config.list_remotes().unwrap();
    assert_eq!(remotes.len(), 2);
    assert!(matches!(remotes[0], RemoteConfig::Grpc { .. }));
    assert!(matches!(remotes[1], RemoteConfig::Tar { .. }));
    let broken = config_with(vec![NamedRemote {
        name: "bad".into(),
        remote: Remote::Address(RemoteAddress { address: "s3://bucket".into() }),
    }]);
    assert!(broken.list_remotes().is_err());
    assert!(matches!(config.get_remote("origin"), Ok(RemoteConfig::Grpc { .. })));
    match config.get_remote("archive") {
        Ok(RemoteConfig::Tar { address }) => assert_eq!(address, "tar:///a.tar"),
        _ => panic!("expected the configured tar"),
    }
    assert!(matches!(config.get_remote("proxy://elsewhere"), Ok(RemoteConfig::Proxy { .. })));
    // a plain path is read as a local file repository
    match config.get_remote("/some/local/path") {
        Ok(RemoteConfig::Fs { address }) => assert_eq!(address, "file:///some/local/path"),
        _ => panic!("expected a file system repository"),
    }
    assert!(config.find_remote("nothing").is_none());
}
