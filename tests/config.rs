use shipcat_config::config::{
    Cluster, Config, Contact, KafkaConfig, ManifestDefaults, Region, Team, VaultConfig,
};
use shipcat_config::kong::{KongConfig, KongOauthConsumer, KongTcpLogConfig};
use shipcat_config::{ConfigError, Version, VersionScheme};

fn s(x: &str) -> String {
    x.to_string()
}

fn kong() -> KongConfig {
    KongConfig {
        base_url: s(""),
        config_url: s(""),
        kong_token_expiration: 0,
        oauth_provision_key: s(""),
        tcp_log: KongTcpLogConfig { enabled: false, host: s(""), port: s("") },
        anonymous_consumers: None,
        consumers: vec![],
        internal_ips_whitelist: vec![],
    }
}

fn region(name: &str) -> Region {
    Region {
        name: s(name),
        namespace: s("apps"),
        environment: s("dev"),
        versioning_scheme: VersionScheme::Semver,
        base_urls: vec![(s("services"), s("https://services.example.com"))],
        env: vec![],
        kong: kong(),
        ip_whitelist: vec![],
        kafka: KafkaConfig { brokers: vec![] },
        vault: VaultConfig { url: s("https://vault.example.com:8200"), folder: s(name) },
        locations: vec![],
    }
}

fn cluster(name: &str, regions: &[&str]) -> (String, Cluster) {
    (
        s(name),
        Cluster {
            name: s(name),
            api: s("https://api.example.com"),
            regions: regions.iter().map(|r| s(r)).collect(),
        },
    )
}

fn owner(github: Option<&str>) -> Team {
    Team {
        name: s("platform"),
        owners: vec![Contact { name: s("someone"), github: github.map(s) }],
    }
}

fn config(
    clusters: Vec<(String, Cluster)>,
    aliases: Vec<(String, String)>,
    regions: Vec<Region>,
    version: &str,
) -> Config {
    Config::from_parts(
        ManifestDefaults::default(),
        clusters,
        aliases,
        regions.into_iter().map(|r| (r.name.clone(), r)).collect(),
        vec![],
        vec![owner(Some("someone"))],
        Version::parse(version).unwrap(),
    )
}

fn tool() -> Version {
    Version::parse("0.70.0").unwrap()
}

fn two_regions() -> Config {
    config(
        vec![cluster("kops-uk", &["dev-uk"]), cluster("kops-staging", &["staging-uk"])],
        vec![(s("dev-uk-green"), s("dev-uk")), (s("staging-uk-blue"), s("staging-uk"))],
        vec![region("dev-uk"), region("staging-uk")],
        "0.60.0",
    )
}

#[test]
fn valid_config_passes() {
    assert!(two_regions().verify(&tool()).is_ok());
}

#[test]
fn manifest_defaults_default() {
    let d = ManifestDefaults::default();
    assert_eq!(d.chart, "base");
    assert_eq!(d.replica_count, 1);
    assert_eq!(d.image_prefix, "");
}

#[test]
fn resolve_cluster_single_server() {
    let conf = config(
        vec![cluster("kops-uk", &["dev-uk"])],
        vec![],
        vec![region("dev-uk")],
        "0.60.0",
    );
    let (c, r) = conf.resolve_cluster("dev-uk").unwrap();
    assert_eq!(c.name, "kops-uk");
    assert_eq!(r.name, "dev-uk");
}

#[test]
fn resolve_cluster_ambiguous() {
    let conf = config(
        vec![cluster("kops-a", &["dev-uk"]), cluster("kops-b", &["dev-uk"])],
        vec![],
        vec![region("dev-uk")],
        "0.60.0",
    );
    match conf.resolve_cluster("dev-uk") {
        Err(ConfigError::AmbiguousContext(c)) => assert_eq!(c, "dev-uk"),
        _ => panic!("expected an ambiguity"),
    }
}

#[test]
fn resolve_cluster_unserved_is_ambiguous() {
    let conf = config(vec![], vec![], vec![region("dev-uk")], "0.60.0");
    assert!(matches!(conf.resolve_cluster("dev-uk"), Err(ConfigError::AmbiguousContext(_))));
}

#[test]
fn resolve_cluster_by_cluster_name() {
    let conf = config(
        vec![cluster("dev-uk", &["dev-uk"]), cluster("kops-b", &["dev-uk"])],
        vec![],
        vec![region("dev-uk")],
        "0.60.0",
    );
    let (c, _) = conf.resolve_cluster("dev-uk").unwrap();
    assert_eq!(c.name, "dev-uk");
}

#[test]
fn resolve_cluster_through_alias() {
    let conf = two_regions();
    let (c, r) = conf.resolve_cluster("staging-uk-blue").unwrap();
    assert_eq!(c.name, "kops-staging");
    assert_eq!(r.name, "staging-uk");
    assert!(matches!(conf.resolve_cluster("prod-uk"), Err(ConfigError::UnknownContext(_))));
}

#[test]
fn resolve_context_direct_alias_and_unknown() {
    let conf = two_regions();
    assert_eq!(conf.resolve_context("dev-uk"), Some(s("dev-uk")));
    assert_eq!(conf.resolve_context("dev-uk-green"), Some(s("dev-uk")));
    assert_eq!(conf.resolve_context("dev-uk-green"), conf.resolve_context("dev-uk-green"));
    assert_eq!(conf.resolve_context("nowhere"), None);
}

#[test]
fn get_region_unknown_context() {
    let conf = two_regions();
    assert_eq!(conf.get_region("staging-uk").unwrap().name, "staging-uk");
    match conf.get_region("nowhere") {
        Err(ConfigError::UnknownContext(c)) => assert_eq!(c, "nowhere"),
        _ => panic!("expected an unknown context"),
    }
}

#[test]
fn self_alias_fails_validation() {
    let conf = config(
        vec![cluster("kops-uk", &["dev-uk"])],
        vec![(s("dev-uk"), s("dev-uk"))],
        vec![region("dev-uk")],
        "0.60.0",
    );
    match conf.verify(&tool()) {
        Err(ConfigError::SelfAlias(a)) => assert_eq!(a, "dev-uk"),
        _ => panic!("expected a self alias"),
    }
}

#[test]
fn alias_to_undefined_region_fails() {
    let conf = config(vec![], vec![(s("x"), s("prod-uk"))], vec![region("dev-uk")], "0.60.0");
    assert!(matches!(conf.verify(&tool()), Err(ConfigError::AliasToUndefinedRegion(_, _))));
}

#[test]
fn validation_errors() {
    let mut bad_name = region("dev-uk");
    bad_name.name = s("other");
    let conf = Config::from_parts(
        ManifestDefaults::default(),
        vec![],
        vec![],
        vec![(s("dev-uk"), bad_name)],
        vec![],
        vec![],
        Version::parse("0.60.0").unwrap(),
    );
    assert!(matches!(conf.verify(&tool()), Err(ConfigError::RegionNameMismatch(_))));

    let mut r = region("dev-uk");
    r.namespace = s("");
    let conf = config(vec![], vec![], vec![r], "0.60.0");
    assert!(matches!(conf.verify(&tool()), Err(ConfigError::MissingNamespace(_))));

    let mut r = region("dev-uk");
    r.environment = s("");
    let conf = config(vec![], vec![], vec![r], "0.60.0");
    assert!(matches!(conf.verify(&tool()), Err(ConfigError::MissingEnvironment(_))));

    let mut r = region("dev-uk");
    r.vault.url = s("");
    let conf = config(vec![], vec![], vec![r], "0.60.0");
    assert!(matches!(conf.verify(&tool()), Err(ConfigError::MissingVaultUrl(_))));

    let mut r = region("dev-uk");
    r.vault.folder = s("");
    let conf = config(vec![], vec![], vec![r], "0.60.0");
    assert!(conf.verify(&tool()).is_ok());

    let mut r = region("dev-uk");
    r.base_urls = vec![(s("services"), s("https://services.example.com/"))];
    let conf = config(vec![], vec![], vec![r], "0.60.0");
    assert!(matches!(conf.verify(&tool()), Err(ConfigError::BaseUrlTrailingSlash(_))));

    let mut c = cluster("kops-uk", &["dev-uk"]);
    c.1.name = s("kops");
    let conf = config(vec![c], vec![], vec![region("dev-uk")], "0.60.0");
    assert!(matches!(conf.verify(&tool()), Err(ConfigError::ClusterNameMismatch(_))));

    let conf = config(vec![cluster("kops-uk", &["prod-uk"])], vec![], vec![region("dev-uk")], "0.60.0");
    match conf.verify(&tool()) {
        Err(ConfigError::UndefinedClusterRegion(c, r)) => {
            assert_eq!(c, "kops-uk");
            assert_eq!(r, "prod-uk");
        }
        _ => panic!("expected an undefined region"),
    }
}

#[test]
fn image_prefix_with_slash_fails() {
    let mut defaults = ManifestDefaults::default();
    defaults.image_prefix = s("registry.example.com/");
    let conf = Config::from_parts(
        defaults,
        vec![],
        vec![],
        vec![(s("dev-uk"), region("dev-uk"))],
        vec![],
        vec![],
        Version::parse("0.60.0").unwrap(),
    );
    assert!(matches!(conf.verify(&tool()), Err(ConfigError::ImagePrefixTrailingSlash)));
}

#[test]
fn owner_without_github_fails() {
    let conf = Config::from_parts(
        ManifestDefaults::default(),
        vec![],
        vec![],
        vec![(s("dev-uk"), region("dev-uk"))],
        vec![],
        vec![owner(None)],
        Version::parse("0.60.0").unwrap(),
    );
    match conf.verify(&tool()) {
        Err(ConfigError::OwnerWithoutGithub(t)) => assert_eq!(t, "platform"),
        _ => panic!("expected a missing github id"),
    }
}

#[test]
fn newer_declared_version_fails() {
    let conf = config(vec![], vec![], vec![region("dev-uk")], "99.0.0");
    match conf.verify(&tool()) {
        Err(ConfigError::OutdatedTool(d, c)) => {
            assert_eq!(d, "99.0.0");
            assert_eq!(c, "0.70.0");
        }
        _ => panic!("expected an outdated tool"),
    }
    let same = config(vec![], vec![], vec![region("dev-uk")], "0.70.0");
    assert!(same.verify(&tool()).is_ok());
    assert!(Config::verify_version(&Version::parse("0.71.0").unwrap(), &tool()).is_err());
}

#[test]
fn newer_version_fails_even_when_owners_are_missing() {
    let conf = Config::from_parts(
        ManifestDefaults::default(),
        vec![],
        vec![],
        vec![(s("dev-uk"), region("dev-uk"))],
        vec![],
        vec![owner(None)],
        Version::parse("99.0.0").unwrap(),
    );
    assert!(matches!(conf.verify(&tool()), Err(ConfigError::OutdatedTool(_, _))));
}

#[test]
fn remove_redundant_regions_keeps_one() {
    let mut conf = two_regions();
    assert!(conf.has_all_regions());
    assert!(!conf.has_secrets());
    conf.remove_redundant_regions("dev-uk");
    assert_eq!(conf.list_regions(), vec![s("dev-uk")]);
    assert_eq!(conf.clusters.len(), 1);
    assert_eq!(conf.clusters[0].0, "kops-uk");
    assert_eq!(conf.context_aliases, vec![(s("dev-uk-green"), s("dev-uk"))]);
    assert!(!conf.has_all_regions());
    assert!(!conf.has_secrets());
    assert!(conf.get_region("staging-uk").is_err());
    assert!(conf.verify(&tool()).is_ok());
}

#[test]
fn new_scopes_through_alias() {
    let (conf, name) = Config::new(two_regions(), "staging-uk-blue").unwrap();
    assert_eq!(name, "staging-uk");
    assert_eq!(conf.list_regions(), vec![s("staging-uk")]);
    assert!(matches!(Config::new(two_regions(), "prod-uk"), Err(ConfigError::UnknownContext(_))));
}

#[test]
fn list_regions_in_order() {
    assert_eq!(two_regions().list_regions(), vec![s("dev-uk"), s("staging-uk")]);
}

fn with_consumer() -> Config {
    let mut r = region("dev-uk");
    r.kong.consumers = vec![(
        s("web"),
        KongOauthConsumer {
            oauth_client_id: s("IN_VAULT"),
            oauth_client_secret: s("literal-secret"),
            username: s("web-user"),
        },
    )];
    config(vec![cluster("kops-uk", &["dev-uk"])], vec![], vec![r], "0.60.0")
}

#[test]
fn complete_fills_client_id() {
    let mut conf = with_consumer();
    conf.remove_redundant_regions("dev-uk");
    let paths = conf.get_region("dev-uk").unwrap().secret_paths();
    assert_eq!(paths, vec![s("dev-uk/kong/consumers/web_oauth_client_id")]);
    let r = conf.complete("dev-uk", vec![Ok(s("id-from-store"))]);
    assert!(r.is_ok());
    assert!(conf.has_secrets());
    let reg = conf.get_region("dev-uk").unwrap();
    assert_eq!(reg.kong.consumers[0].1.oauth_client_id, "id-from-store");
    assert_eq!(reg.kong.consumers[0].1.oauth_client_secret, "literal-secret");
    assert_eq!(reg.kong.consumers[0].1.username, "web-user");
}

#[test]
fn complete_fails_when_store_lacks_path() {
    let mut conf = with_consumer();
    conf.remove_redundant_regions("dev-uk");
    let missing = ConfigError::MissingSecret(s("dev-uk/kong/consumers/web_oauth_client_id"));
    match conf.complete("dev-uk", vec![Err(missing)]) {
        Err(ConfigError::MissingSecret(p)) => assert_eq!(p, "dev-uk/kong/consumers/web_oauth_client_id"),
        _ => panic!("expected a missing secret"),
    }
    assert!(!conf.has_secrets());
    let reg = conf.get_region("dev-uk").unwrap();
    assert_eq!(reg.kong.consumers[0].1.oauth_client_id, "IN_VAULT");
}

#[test]
fn kong_secret_paths_and_fill_order() {
    let mut k = kong();
    k.oauth_provision_key = s("IN_VAULT");
    k.consumers = vec![
        (
            s("a"),
            KongOauthConsumer {
                oauth_client_id: s("IN_VAULT"),
                oauth_client_secret: s("IN_VAULT"),
                username: s("ua"),
            },
        ),
        (
            s("b"),
            KongOauthConsumer {
                oauth_client_id: s("fixed"),
                oauth_client_secret: s("IN_VAULT"),
                username: s("ub"),
            },
        ),
    ];
    assert_eq!(
        k.secret_paths_of("prod-uk"),
        vec![
            s("prod-uk/kong/consumers/a_oauth_client_id"),
            s("prod-uk/kong/consumers/a_oauth_client_secret"),
            s("prod-uk/kong/consumers/b_oauth_client_secret"),
            s("prod-uk/kong/oauth_provision_key"),
        ]
    );
    assert_eq!(
        k.expected_secrets(),
        vec![s("a_oauth_client_id"), s("a_oauth_client_secret"), s("b_oauth_client_secret")]
    );
    let r = k.secrets(vec![Ok(s("1")), Ok(s("2")), Ok(s("3")), Ok(s("4"))]);
    assert!(r.is_ok());
    assert_eq!(k.consumers[0].1.oauth_client_id, "1");
    assert_eq!(k.consumers[0].1.oauth_client_secret, "2");
    assert_eq!(k.consumers[1].1.oauth_client_id, "fixed");
    assert_eq!(k.consumers[1].1.oauth_client_secret, "3");
    assert_eq!(k.oauth_provision_key, "4");
    assert!(k.verify().is_ok());
}

#[test]
fn kong_secrets_first_failure_wins() {
    let mut k = kong();
    k.oauth_provision_key = s("IN_VAULT");
    let r = k.secrets(vec![Err(ConfigError::SecretBackend(s("down")))]);
    assert!(matches!(r, Err(ConfigError::SecretBackend(_))));
    assert_eq!(k.oauth_provision_key, "IN_VAULT");
}

#[test]
fn verify_secrets_exist_checks_listing() {
    let conf = with_consumer();
    let reg = conf.get_region("dev-uk").unwrap();
    assert_eq!(reg.secrets_folder(), "dev-uk/kong/consumers");
    assert!(reg.verify_secrets_exist(&vec![s("web_oauth_client_id"), s("other")]).is_ok());
    match reg.verify_secrets_exist(&vec![s("other")]) {
        Err(ConfigError::MissingSecret(m)) => assert_eq!(m, "web_oauth_client_id"),
        _ => panic!("expected a missing secret"),
    }
    let plain = region("dev-uk");
    assert!(plain.verify_secrets_exist(&vec![]).is_ok());
}

#[test]
fn duplicate_keys_fail_validation() {
    let conf = config(
        vec![cluster("kops-uk", &["dev-uk"])],
        vec![(s("green"), s("staging-uk")), (s("green"), s("dev-uk"))],
        vec![region("dev-uk"), region("staging-uk")],
        "0.60.0",
    );
    match conf.verify(&tool()) {
        Err(ConfigError::DuplicateKey(k)) => assert_eq!(k, "green"),
        _ => panic!("expected a duplicate key"),
    }
    let conf = config(vec![], vec![], vec![region("dev-uk"), region("dev-uk")], "0.60.0");
    assert!(matches!(conf.verify(&tool()), Err(ConfigError::DuplicateKey(_))));
}

#[test]
fn build_metadata_does_not_make_a_version_newer() {
    let conf = config(vec![], vec![], vec![region("dev-uk")], "0.70.0+build5");
    assert!(conf.verify(&tool()).is_ok());
}

#[test]
fn scoping_keeps_defaults_and_version() {
    let mut conf = two_regions();
    conf.remove_redundant_regions("staging-uk");
    assert_eq!(conf.defaults.chart, "base");
    assert_eq!(conf.version.as_str(), "0.60.0");
    assert_eq!(conf.teams.len(), 1);
    assert_eq!(conf.context_aliases, vec![(s("staging-uk-blue"), s("staging-uk"))]);
}
