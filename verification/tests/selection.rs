use qpackt::registry::{pick_version, VersionEntry, VersionRegistry, START_PORT};
use qpackt::strategy::Strategy;
use qpackt::version::{Version, VersionName};

fn version(name: &str, strategy: Strategy) -> Version {
    Version { name: VersionName::new(name.to_string()), web_root: name.to_string(), strategy }
}

fn entries(versions: Vec<Version>) -> Vec<VersionEntry> {
    versions
        .into_iter()
        .enumerate()
        .map(|(i, v)| VersionEntry { version: v, port: START_PORT + i as u16 })
        .collect()
}

#[test]
fn weighted_split() {
    // Weights one and nine: of the eleven possible draws over the
    // inclusive range, the first version takes the two smallest and the
    // second takes the other nine, so the second receives nine tenths of
    // the traffic up to the draw's granularity.
    let list = entries(vec![
        version("v1", Strategy::Weight(1)),
        version("v2", Strategy::Weight(9)),
    ]);
    let mut counts = [0usize; 2];
    for r in 0..=10u64 {
        let picked = pick_version(&list, "", r).unwrap();
        counts[picked] += 1;
    }
    assert_eq!(counts[0], 2);
    assert_eq!(counts[1], 9);
}

#[test]
fn url_param_override() {
    // A url-param version captures a matching query regardless of
    // weights or draw.
    let list = entries(vec![
        version("v1", Strategy::Weight(100)),
        version("v2", Strategy::Weight(9)),
        version("v3", Strategy::UrlParam("beta".to_string())),
    ]);
    for r in 0..=109u64 {
        let picked = pick_version(&list, "beta=1", r).unwrap();
        assert_eq!(picked, 2);
    }
    // Without the needle the weights decide.
    let picked = pick_version(&list, "alpha=1", 0).unwrap();
    assert_eq!(picked, 0);
}

#[test]
fn first_url_param_match_wins() {
    let list = entries(vec![
        version("v1", Strategy::UrlParam("x".to_string())),
        version("v2", Strategy::UrlParam("x".to_string())),
    ]);
    assert_eq!(pick_version(&list, "x=1", 0).unwrap(), 0);
}

#[test]
fn zero_weights_pick_first_weighted() {
    let list = entries(vec![
        version("v1", Strategy::UrlParam("x".to_string())),
        version("v2", Strategy::Weight(0)),
        version("v3", Strategy::Weight(0)),
    ]);
    assert_eq!(pick_version(&list, "", 0).unwrap(), 1);
}

#[test]
fn no_eligible_version_is_an_error() {
    let list = entries(vec![version("v1", Strategy::UrlParam("x".to_string()))]);
    assert!(pick_version(&list, "other", 0).is_err());
    let empty: Vec<VersionEntry> = Vec::new();
    assert!(pick_version(&empty, "", 0).is_err());
}

#[test]
fn registry_ports_start_at_base() {
    let reg = VersionRegistry::start(vec![
        version("v1", Strategy::Weight(1)),
        version("v2", Strategy::Weight(9)),
    ]);
    assert_eq!(reg.len(), 2);
    let listed = reg.list();
    assert!(listed[0].name.matches("v1"));
    assert!(listed[1].name.matches("v2"));
}

#[test]
fn cookie_lookup_finds_upstream() {
    let reg = VersionRegistry::start(vec![
        version("v1", Strategy::Weight(1)),
        version("v2", Strategy::Weight(9)),
    ]);
    let (url, name) = reg.get_url_for_cookie("v2").unwrap();
    assert!(name.matches("v2"));
    assert_eq!(url, "http://localhost:9001");
    assert!(reg.get_url_for_cookie("v9").is_none());
}

#[test]
fn pick_upstream_succeeds_with_weights() {
    let reg = VersionRegistry::start(vec![
        version("v1", Strategy::Weight(1)),
        version("v2", Strategy::Weight(9)),
    ]);
    for _ in 0..100 {
        let (url, name) = reg.pick_upstream("").unwrap();
        assert!(name.matches("v1") || name.matches("v2"));
        assert!(url == "http://localhost:9000" || url == "http://localhost:9001");
    }
}

#[test]
fn add_and_delete_versions() {
    let mut reg = VersionRegistry::start(vec![
        version("v1", Strategy::Weight(1)),
        version("v2", Strategy::Weight(9)),
    ]);
    let port = reg.add_version(version("v3", Strategy::Weight(5)));
    assert_eq!(port, 9002);
    assert_eq!(reg.len(), 3);
    let removed = reg.delete_version(&VersionName::new("v2".to_string()));
    assert_eq!(removed, Some(9001));
    assert_eq!(reg.len(), 2);
    assert!(reg.get_url_for_cookie("v2").is_none());
    assert!(reg.delete_version(&VersionName::new("v2".to_string())).is_none());
}

#[test]
fn update_with_current_list_is_noop() {
    // Writing the current list back changes no strategy: the update is a
    // no-op on the registry.
    let mut reg = VersionRegistry::start(vec![
        version("v1", Strategy::Weight(1)),
        version("v2", Strategy::Weight(9)),
    ]);
    let current = reg.list();
    reg.update_strategies(&current);
    let after = reg.list();
    assert_eq!(after.len(), 2);
    assert!(matches!(after[0].strategy, Strategy::Weight(1)));
    assert!(matches!(after[1].strategy, Strategy::Weight(9)));
}

#[test]
fn update_strategies_takes_first_occurrence() {
    let mut reg = VersionRegistry::start(vec![version("v1", Strategy::Weight(1))]);
    let updates = vec![
        version("v1", Strategy::Weight(7)),
        version("v1", Strategy::Weight(9)),
        version("v9", Strategy::Weight(3)),
    ];
    reg.update_strategies(&updates);
    let after = reg.list();
    assert_eq!(after.len(), 1);
    assert!(matches!(after[0].strategy, Strategy::Weight(7)));
}

#[test]
fn merge_strategies_keeps_unnamed_versions() {
    let current = vec![
        version("v1", Strategy::Weight(1)),
        version("v2", Strategy::Weight(9)),
    ];
    let updates = vec![version("v2", Strategy::UrlParam("beta".to_string()))];
    let merged = qpackt::registry::merge_strategies(&current, &updates);
    assert_eq!(merged.len(), 2);
    assert!(matches!(merged[0].strategy, Strategy::Weight(1)));
    assert!(matches!(merged[1].strategy, Strategy::UrlParam(ref p) if p == "beta"));
}
