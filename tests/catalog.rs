use artifetch::paths::{get_asset, get_release, get_target, Asset as AssetPath, Assets, Releases, Targets, Version};
use artifetch::provider::github::client::{self, Fetched, Manifest, Response};
use artifetch::provider::github::transform::{
    convert_release, convert_releases, manifest_assets, published_releases, uri_for_asset,
};
use artifetch::provider::github::{releases_update, GitHub, RepoUpdate};
use artifetch::provider::{Error, Provider};
use artifetch::{Asset, ETag, Registry, Release, Repo, Target};

fn raw_asset(id: u64, name: &str, url: &str) -> client::Asset {
    client::Asset {
        id,
        name: name.to_string(),
        url: String::new(),
        browser_download_url: url.to_string(),
        content_type: String::new(),
        size: 0,
        download_count: 0,
        created_at: String::new(),
    }
}

fn raw_release(id: u64, tag: &str, draft: bool, prerelease: bool, assets: Vec<client::Asset>) -> client::Release {
    client::Release {
        id,
        tag_name: tag.to_string(),
        url: String::new(),
        draft,
        prerelease,
        created_at: String::new(),
        assets,
    }
}

const DARWIN_URL: &str = "https://example.com/darwin.zip";

fn names_release() -> client::Release {
    raw_release(
        1,
        "v0.11.0",
        false,
        false,
        vec![
            raw_asset(10, "names.manifest.txt", "https://example.com/names.manifest.txt"),
            raw_asset(11, "names_0.11.0_darwin_x86_64.zip", DARWIN_URL),
        ],
    )
}

fn names_manifest() -> Manifest {
    Manifest::from_bytes("names".to_string(), b"darwin-x86_64  names_0.11.0_darwin_x86_64.zip\n")
        .ok()
        .expect("manifest")
}

fn github() -> GitHub {
    GitHub::build(
        "github.com".to_string(),
        "tok",
        vec![Repo::new("fnichol".to_string(), "names".to_string())],
    )
    .ok()
    .expect("provider")
}

fn data_with(g: GitHub) -> artifetch::data::Data {
    let mut registry = Registry::new();
    registry.register(Provider::GitHub(g));
    artifetch::data::Data::new(registry)
}

fn assets_path(version: Version) -> Assets {
    Assets {
        provider: "github.com".to_string(),
        owner: "fnichol".to_string(),
        repo: "names".to_string(),
        version,
        target: "darwin-x86_64".to_string(),
    }
}

fn cold_start() -> GitHub {
    let mut g = github();
    let published = published_releases(vec![names_release()]);
    let conversion = convert_releases(published, vec![Ok(vec![names_manifest()])]);
    assert!(conversion.failures.is_empty());
    let r = g.apply_releases(
        "fnichol",
        "names",
        Fetched::Modified(Response::new(Some(ETag::new("\"e1\"")), conversion)),
    );
    assert!(r.is_ok());
    let r = g.apply_latest(
        "fnichol",
        "names",
        Fetched::Modified(Response::new(Some(ETag::new("\"l1\"")), names_release())),
    );
    assert!(r.is_ok());
    g
}

#[test]
fn manifest_files_are_found_and_named() {
    let reqs = manifest_assets(&names_release());
    assert_eq!(reqs.len(), 1);
    assert_eq!(reqs[0].asset_id, 10);
    assert_eq!(reqs[0].name, "names");
}

#[test]
fn cold_start_serves_the_asset() {
    let data = data_with(cold_start());
    let target = get_target(&assets_path(Version::Version("v0.11.0".to_string())), &data).expect("target");
    let names: Vec<&str> = target.assets().iter().map(|a| a.name()).collect();
    assert_eq!(names, vec!["names"]);
    let path = AssetPath {
        provider: "github.com".to_string(),
        owner: "fnichol".to_string(),
        repo: "names".to_string(),
        version: Version::Latest,
        target: "darwin-x86_64".to_string(),
        asset: "names".to_string(),
    };
    let asset = get_asset(&path, &data).expect("asset");
    assert_eq!(asset.download_uri(), DARWIN_URL);
}

#[test]
fn cold_start_records_etags() {
    let g = cold_start();
    let repo = g.repo("fnichol", "names").expect("repo");
    assert_eq!(repo.releases_etag().map(|e| e.as_str().to_string()), Some("\"e1\"".to_string()));
    assert_eq!(repo.latest_etag().map(|e| e.as_str().to_string()), Some("\"l1\"".to_string()));
    assert_eq!(repo.latest_release().map(|r| r.id()), Some(1));
}

#[test]
fn unchanged_poll_keeps_the_snapshot() {
    let mut g = cold_start();
    let before = g.repo("fnichol", "names").expect("repo");
    assert!(g.apply_releases("fnichol", "names", Fetched::NotModified).is_ok());
    assert!(g.apply_latest("fnichol", "names", Fetched::NotModified).is_ok());
    let after = g.repo("fnichol", "names").expect("repo");
    assert_eq!(after.releases_etag().map(|e| e.as_str().to_string()), Some("\"e1\"".to_string()));
    assert_eq!(after.releases().len(), before.releases().len());
    assert_eq!(after.release("v0.11.0").map(|r| r.id()), Some(1));
}

#[test]
fn not_found_and_failures_change_nothing() {
    let mut g = cold_start();
    assert!(matches!(
        g.apply_releases("fnichol", "names", Fetched::NotFound),
        Err(Error::Client(client::Error::NotFound))
    ));
    assert!(matches!(
        g.apply_latest("fnichol", "names", Fetched::Failed(client::Error::Request("down".to_string()))),
        Err(Error::Client(client::Error::Request(_)))
    ));
    let repo = g.repo("fnichol", "names").expect("repo");
    assert_eq!(repo.releases().len(), 1);
    assert_eq!(repo.latest_etag().map(|e| e.as_str().to_string()), Some("\"l1\"".to_string()));
}

#[test]
fn drop_to_zero_releases() {
    let mut g = cold_start();
    let conversion = convert_releases(vec![], vec![]);
    let r = g.apply_releases(
        "fnichol",
        "names",
        Fetched::Modified(Response::new(Some(ETag::new("\"e2\"")), conversion)),
    );
    assert!(r.is_ok());
    let repo = g.repo("fnichol", "names").expect("repo");
    assert!(repo.releases().is_empty());
    assert!(repo.latest_release().is_none());
    assert_eq!(repo.releases_etag().map(|e| e.as_str().to_string()), Some("\"e2\"".to_string()));
}

#[test]
fn latest_before_releases_is_not_found() {
    let mut g = github();
    let latest = raw_release(2, "v2", false, false, vec![]);
    assert!(g
        .apply_latest("fnichol", "names", Fetched::Modified(Response::new(None, latest)))
        .is_ok());
    let data = data_with(g);
    let path = Targets {
        provider: "github.com".to_string(),
        owner: "fnichol".to_string(),
        repo: "names".to_string(),
        version: Version::Latest,
    };
    assert!(get_release(&path, &data).is_none());
}

#[test]
fn drafts_and_prereleases_are_filtered() {
    let draft = raw_release(1, "v1", true, false, vec![]);
    let pre = raw_release(2, "v2-rc", false, true, vec![]);
    let kept = raw_release(3, "v3", false, false, vec![]);
    let published = published_releases(vec![draft, pre, kept]);
    assert_eq!(published.len(), 1);
    assert_eq!(published[0].tag_name, "v3");
    let conversion = convert_releases(published, vec![Ok(vec![])]);
    assert_eq!(conversion.releases.len(), 1);
    assert_eq!(conversion.releases[0].name(), "v3");
}

#[test]
fn missing_asset_fails_only_its_release() {
    let mut g = cold_start();
    let bad_manifest = Manifest::from_bytes("foo".to_string(), b"linux  foo.zip\n").ok().expect("manifest");
    let bad = raw_release(5, "v0.12.0", false, false, vec![]);
    let good = names_release();
    let conversion = convert_releases(vec![bad, good], vec![Ok(vec![bad_manifest]), Ok(vec![names_manifest()])]);
    assert_eq!(conversion.failures.len(), 1);
    assert_eq!(conversion.failures[0].0, "v0.12.0");
    assert!(matches!(&conversion.failures[0].1, Error::MissingAsset(f) if f == "foo.zip"));
    let r = g.apply_releases(
        "fnichol",
        "names",
        Fetched::Modified(Response::new(Some(ETag::new("\"e3\"")), conversion)),
    );
    assert!(r.is_ok());
    let repo = g.repo("fnichol", "names").expect("repo");
    assert!(repo.release("v0.11.0").is_some());
    assert!(repo.release("v0.12.0").is_none());
    assert_eq!(repo.releases_etag().map(|e| e.as_str().to_string()), Some("\"e1\"".to_string()));
}

#[test]
fn manifest_fetch_failure_leaves_the_repo_unchanged() {
    let mut g = cold_start();
    let conversion = convert_releases(
        vec![raw_release(7, "v7", false, false, vec![]), names_release()],
        vec![Err(client::Error::Response("cut".to_string())), Ok(vec![names_manifest()])],
    );
    assert_eq!(conversion.releases.len(), 1);
    assert!(conversion.failures.is_empty());
    assert_eq!(conversion.fetch_errors.len(), 1);
    assert_eq!(conversion.fetch_errors[0].0, "v7");
    let r = g.apply_releases(
        "fnichol",
        "names",
        Fetched::Modified(Response::new(Some(ETag::new("\"e9\"")), conversion)),
    );
    assert!(matches!(r, Err(Error::Client(client::Error::Response(_)))));
    let repo = g.repo("fnichol", "names").expect("repo");
    assert_eq!(repo.releases().len(), 1);
    assert!(repo.release("v0.11.0").is_some());
    assert_eq!(repo.releases_etag().map(|e| e.as_str().to_string()), Some("\"e1\"".to_string()));
}

#[test]
fn fetch_failure_on_the_only_release_keeps_the_catalog() {
    let mut g = cold_start();
    let conversion = convert_releases(
        vec![names_release()],
        vec![Err(client::Error::Request("timed out".to_string()))],
    );
    let r = g.apply_releases("fnichol", "names", Fetched::Modified(Response::new(None, conversion)));
    assert!(r.is_err());
    assert_eq!(g.repo("fnichol", "names").expect("repo").releases().len(), 1);
}

#[test]
fn malformed_manifest_fails_only_its_release() {
    let bad = Manifest::from_bytes("x".to_string(), b"only-one-field\n").err().expect("error");
    let conversion = convert_releases(
        vec![raw_release(7, "v7", false, false, vec![]), names_release()],
        vec![Err(bad), Ok(vec![names_manifest()])],
    );
    assert_eq!(conversion.releases.len(), 1);
    assert!(conversion.fetch_errors.is_empty());
    assert!(matches!(&conversion.failures[0].1, Error::Client(client::Error::Manifest(_))));
}

#[test]
fn invalid_download_uri_is_rejected() {
    let assets = vec![raw_asset(1, "a.zip", "https://exa mple.com/a zip")];
    match uri_for_asset("a.zip", &assets) {
        Err(Error::InvalidUri(u, _)) => assert_eq!(u, "https://exa mple.com/a zip"),
        _ => panic!("expected an invalid uri"),
    }
    assert_eq!(
        uri_for_asset("a.zip", &vec![raw_asset(1, "a.zip", DARWIN_URL)]).ok(),
        Some(DARWIN_URL.to_string())
    );
}

#[test]
fn later_manifest_entry_wins() {
    let first = Manifest::from_bytes("names".to_string(), b"darwin-x86_64  a.zip\n").ok().expect("m");
    let second = Manifest::from_bytes("names".to_string(), b"darwin-x86_64  b.zip\nlinux  a.zip\n").ok().expect("m");
    let release = raw_release(
        9,
        "v9",
        false,
        false,
        vec![raw_asset(1, "a.zip", "https://e.com/a"), raw_asset(2, "b.zip", "https://e.com/b")],
    );
    let rel = convert_release(&release, &vec![first, second]).ok().expect("release");
    assert_eq!(rel.id(), 9);
    assert_eq!(rel.targets().len(), 2);
    let t = rel.target("darwin-x86_64").expect("target");
    assert_eq!(t.assets().len(), 1);
    assert_eq!(t.asset("names").map(|a| a.download_uri().to_string()), Some("https://e.com/b".to_string()));
}

#[test]
fn incomplete_conversion_keeps_the_etag() {
    let conversion = convert_releases(vec![raw_release(5, "v5", false, false, vec![])], vec![Ok(vec![Manifest::from_bytes("x".to_string(), b"t  missing.zip").ok().expect("m")])]);
    assert!(matches!(releases_update(Some(ETag::new("e")), conversion), RepoUpdate::ReleasesOnly { .. }));
    let complete = convert_releases(vec![], vec![]);
    assert!(matches!(releases_update(Some(ETag::new("e")), complete), RepoUpdate::Releases { etag: Some(_), .. }));
}

#[test]
fn replace_of_unknown_repo_fails() {
    let mut g = github();
    let r = g.replace_repo("nobody", "nothing", RepoUpdate::ReleasesOnly { releases: vec![] });
    assert!(matches!(r, Err(Error::RepoNotFound)));
    assert!(matches!(g.prior_etags("nobody", "x"), Err(Error::RepoNotFound)));
}

#[test]
fn replace_publishes_a_whole_value() {
    let mut g = github();
    let mut rel = Release::new(4, "v4".to_string());
    let mut t = Target::new("linux".to_string());
    t.push_asset(Asset::new("tool".to_string(), "https://e.com/t".to_string()));
    rel.set_targets(vec![t]);
    let r = g.replace_repo(
        "fnichol",
        "names",
        RepoUpdate::Releases { releases: vec![rel], etag: Some(ETag::new("x")) },
    );
    assert!(r.is_ok());
    let (re, le) = g.prior_etags("fnichol", "names").ok().expect("etags");
    assert_eq!(re.map(|e| e.as_str().to_string()), Some("x".to_string()));
    assert!(le.is_none());
    let repo = g.repo("fnichol", "names").expect("repo");
    assert_eq!(repo.release("v4").and_then(|r| r.target("linux")).map(|t| t.assets().len()), Some(1));
}

#[test]
fn repos_lists_each_once() {
    let g = GitHub::build(
        "ghe.example.com".to_string(),
        "tok",
        vec![
            Repo::new("a".to_string(), "x".to_string()),
            Repo::new("a".to_string(), "y".to_string()),
            Repo::new("b".to_string(), "x".to_string()),
            Repo::new("a".to_string(), "x".to_string()),
        ],
    )
    .ok()
    .expect("provider");
    let mut names: Vec<String> = g.repos().iter().map(|r| r.full_name()).collect();
    names.sort();
    assert_eq!(names, vec!["a/x", "a/y", "b/x"]);
    assert_eq!(g.client().domain(), "ghe.example.com/api/v3");
}

#[test]
fn releases_path_lists_tags() {
    let data = data_with(cold_start());
    let path = Releases {
        provider: "github.com".to_string(),
        owner: "fnichol".to_string(),
        repo: "names".to_string(),
    };
    let repo = artifetch::paths::get_repo(&path, &data).expect("repo");
    let tags: Vec<&str> = repo.releases().iter().map(|r| r.name()).collect();
    assert_eq!(tags, vec!["v0.11.0"]);
    assert!(artifetch::paths::get_repo(
        &Releases { provider: "nope".to_string(), owner: "a".to_string(), repo: "b".to_string() },
        &data
    )
    .is_none());
}
