use artifetch::paths::Version;
use artifetch::{Asset, Registry, Release, Repo, Target};

#[test]
fn target_assets_are_indexed_by_name() {
    let mut t = Target::new("linux".to_string());
    t.set_assets(vec![
        Asset::new("a".to_string(), "https://e.com/1".to_string()),
        Asset::new("b".to_string(), "https://e.com/2".to_string()),
        Asset::new("a".to_string(), "https://e.com/3".to_string()),
    ]);
    assert_eq!(t.name(), "linux");
    assert_eq!(t.assets().len(), 2);
    assert_eq!(t.asset("a").map(|a| a.download_uri()), Some("https://e.com/3"));
    t.push_asset(Asset::new("b".to_string(), "https://e.com/4".to_string()));
    assert_eq!(t.asset("b").map(|a| a.download_uri()), Some("https://e.com/4"));
    assert!(t.asset("c").is_none());
}

#[test]
fn release_targets_are_indexed_by_name() {
    let mut r = Release::new(7, "v1".to_string());
    r.set_targets(vec![Target::new("a".to_string()), Target::new("b".to_string())]);
    assert_eq!(r.id(), 7);
    assert_eq!(r.name(), "v1");
    assert_eq!(r.targets().len(), 2);
    assert!(r.target("b").is_some());
    let c = r.clone();
    assert_eq!(c.targets().len(), 2);
}

#[test]
fn repo_starts_empty() {
    let mut repo = Repo::new("o".to_string(), "n".to_string());
    assert_eq!(repo.owner(), "o");
    assert_eq!(repo.name(), "n");
    assert_eq!(repo.interval(), 30);
    assert!(repo.latest_release().is_none());
    repo.set_releases(vec![Release::new(1, "v1".to_string()), Release::new(2, "v1".to_string())]);
    assert_eq!(repo.releases().len(), 1);
    assert_eq!(repo.release("v1").map(|r| r.id()), Some(2));
    repo.set_latest_release(Some("v1".to_string()));
    assert_eq!(repo.latest_release().map(|r| r.id()), Some(2));
}

#[test]
fn registry_registers_by_domain() {
    let mut reg = Registry::new();
    let g = artifetch::provider::github::GitHub::build("github.com".to_string(), "t", vec![]).ok().expect("g");
    reg.register(artifetch::Provider::GitHub(g));
    assert!(reg.get("github.com").is_some());
    assert_eq!(reg.iter().len(), 1);
    let p = reg.take("github.com").expect("provider");
    assert_eq!(p.domain(), "github.com");
    assert!(reg.get("github.com").is_none());
    assert!(reg.take("github.com").is_none());
}

#[test]
fn version_reads_latest_or_a_tag() {
    assert!(matches!(Version::from_str("latest"), Version::Latest));
    match Version::from_str("v1.2") {
        Version::Version(t) => assert_eq!(t, "v1.2"),
        Version::Latest => panic!("expected a tag"),
    }
    assert_eq!(Version::Latest.to_text(), "latest");
}

#[test]
fn entities_compare_by_identity() {
    assert!(Release::new(1, "a".to_string()) == Release::new(1, "b".to_string()));
    assert!(Release::new(1, "a".to_string()) != Release::new(2, "a".to_string()));
    let mut t = Target::new("linux".to_string());
    t.push_asset(Asset::new("x".to_string(), "https://e.com/x".to_string()));
    assert!(t == Target::new("linux".to_string()));
    assert!(Repo::new("o".to_string(), "n".to_string()) == Repo::new("o".to_string(), "n".to_string()));
    assert!(Repo::new("o".to_string(), "n".to_string()) != Repo::new("o".to_string(), "m".to_string()));
}

#[test]
fn asset_address_must_parse() {
    let a = Asset::try_new("tool".to_string(), "https://e.com/tool.zip".to_string()).ok().expect("asset");
    assert_eq!(a.name(), "tool");
    assert_eq!(a.download_uri(), "https://e.com/tool.zip");
    assert!(Asset::try_new("tool".to_string(), "https://e com/x".to_string()).is_err());
}
