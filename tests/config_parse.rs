use artifetch::config::{
    data_from_config, registry_entry, Error, RegistryConfig, Repo, MISSING_SLASH, OAUTH_TOKEN,
    REPOS, TOO_MANY_FIELDS,
};
use artifetch::paths::{get_repo, Releases};

#[test]
fn owner_and_name_parse() {
    let r = Repo::from_str("fnichol/names").ok().expect("repo");
    assert_eq!(r.0, "fnichol");
    assert_eq!(r.1, "names");
}

#[test]
fn missing_slash_is_rejected() {
    assert!(matches!(Repo::from_str("fnichol"), Err(Error::RepoConfig(m)) if m == MISSING_SLASH));
}

#[test]
fn two_slashes_are_rejected() {
    assert!(matches!(Repo::from_str("a/b/c"), Err(Error::RepoConfig(m)) if m == TOO_MANY_FIELDS));
}

#[test]
fn entry_defaults_to_github() {
    let e = registry_entry(None, Some("tok".to_string()), Some(vec!["a/b".to_string(), "c/d".to_string()]))
        .ok()
        .expect("entry");
    match e {
        RegistryConfig::GitHub { repos, oauth_token } => {
            assert_eq!(oauth_token, "tok");
            assert_eq!(repos.len(), 2);
            assert_eq!(repos[1].0, "c");
            assert_eq!(repos[1].1, "d");
        }
    }
}

#[test]
fn unknown_provider_is_rejected() {
    match registry_entry(Some("gitlab".to_string()), Some("t".to_string()), Some(vec![])) {
        Err(Error::InvalidProvider(p)) => assert_eq!(p, "gitlab"),
        _ => panic!("expected an invalid provider"),
    }
}

#[test]
fn missing_token_is_rejected() {
    assert!(matches!(
        registry_entry(Some("github".to_string()), None, Some(vec![])),
        Err(Error::MissingField(f)) if f == OAUTH_TOKEN
    ));
}

#[test]
fn missing_repos_are_rejected() {
    assert!(matches!(
        registry_entry(None, Some("t".to_string()), None),
        Err(Error::MissingField(f)) if f == REPOS
    ));
}

#[test]
fn bad_repo_in_entry_is_rejected() {
    assert!(matches!(
        registry_entry(None, Some("t".to_string()), Some(vec!["a/b".to_string(), "ab".to_string()])),
        Err(Error::RepoConfig(m)) if m == MISSING_SLASH
    ));
}

#[test]
fn config_builds_the_catalog() {
    let entry = registry_entry(None, Some("tok".to_string()), Some(vec!["fnichol/names".to_string()]))
        .ok()
        .expect("entry");
    let data = data_from_config(vec![("github.com".to_string(), entry)]).ok().expect("data");
    assert!(data.provider("github.com").is_some());
    let path = Releases {
        provider: "github.com".to_string(),
        owner: "fnichol".to_string(),
        repo: "names".to_string(),
    };
    let repo = get_repo(&path, &data).expect("repo");
    assert_eq!(repo.full_name(), "fnichol/names");
    assert!(repo.releases().is_empty());
    assert_eq!(repo.interval(), 30);
}

#[test]
fn invalid_token_fails_the_config() {
    let entry = registry_entry(None, Some("bad\ntoken".to_string()), Some(vec![])).ok().expect("entry");
    assert!(matches!(data_from_config(vec![("github.com".to_string(), entry)]), Err(Error::Provider(_))));
}
