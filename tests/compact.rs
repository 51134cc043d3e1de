use shipcat_config::compact::{CompactError, Config, Region, RegionDefaults, Team};
use shipcat_config::config::ManifestDefaults;

fn region(namespace: &str, version: &str) -> Region {
    Region {
        defaults: RegionDefaults { namespace: namespace.to_string(), version: version.to_string() },
        env: vec![],
        kong: None,
    }
}

fn compact(prefix: &str, regions: Vec<(&str, Region)>) -> Config {
    let mut defaults = ManifestDefaults::default();
    defaults.image_prefix = prefix.to_string();
    Config {
        defaults,
        regions: regions.into_iter().map(|(k, r)| (k.to_string(), r)).collect(),
        teams: vec![Team { name: "platform".to_string() }],
    }
}

#[test]
fn compact_config_checks() {
    assert!(compact("registry.example.com", vec![("dev-uk", region("apps", "latest"))]).verify().is_ok());
    assert!(matches!(compact("", vec![]).verify(), Err(CompactError::BadImagePrefix)));
    assert!(matches!(compact("registry/", vec![]).verify(), Err(CompactError::BadImagePrefix)));
    match compact("r", vec![("dev-uk-green", region("apps", "latest"))]).verify() {
        Err(CompactError::BadRegionName(n)) => assert_eq!(n, "dev-uk-green"),
        _ => panic!("expected a bad region name"),
    }
    assert!(matches!(
        compact("r", vec![("devuk", region("apps", "latest"))]).verify(),
        Err(CompactError::BadRegionName(_))
    ));
    assert!(matches!(
        compact("r", vec![("dev-uk", region("", "latest"))]).verify(),
        Err(CompactError::EmptyNamespace(_))
    ));
    assert!(matches!(
        compact("r", vec![("dev-uk", region("apps", ""))]).verify(),
        Err(CompactError::EmptyVersion(_))
    ));
}
