use vstd::prelude::*;

use crate::data::Data;
use crate::provider::github::{grouped, GitHub, GitHubView};
use crate::provider::Provider;
use crate::registry::Registry;
use crate::repo::{RepoView, DEFAULT_INTERVAL_SECS};
use crate::text::{chars_of, same_text, split_on};
use vstd::string::StrSliceExecFns;

verus! {

/// Errors in the configuration.
pub enum Error {
    /// A repository is not written `owner/name`.
    RepoConfig(&'static str),
    /// A registry entry lacks this field.
    MissingField(&'static str),
    /// A registry entry names a provider kind (given here) that does not
    /// exist.
    InvalidProvider(String),
    /// A provider could not be set up.
    Provider(crate::provider::Error),
}

pub const MISSING_SLASH: &'static str = "missing slash delimiter between fields";

pub const TOO_MANY_FIELDS: &'static str = "more than two fields";

pub const OAUTH_TOKEN: &'static str = "oauth_token";

pub const REPOS: &'static str = "repos";

/// The provider kind of an entry that names none.
pub const DEFAULT_PROVIDER: &'static str = "github";

/// A configured repository: owner and name.
pub struct Repo(pub String, pub String);

/// `owner/name` read as owner and name, or why it is not of that form.
pub open spec fn repo_parse(s: Seq<char>) -> Result<(Seq<char>, Seq<char>), &'static str> {
    let p = split_on('/', s);
    if p.len() == 1 {
        Err(MISSING_SLASH)
    } else if p.len() > 2 {
        Err(TOO_MANY_FIELDS)
    } else {
        Ok((p[0], p[1]))
    }
}

/// Splitting on a separator never loses pieces.
proof fn lemma_split_len_grows(sep: char, s: Seq<char>, c: char)
    ensures
        split_on(sep, s.push(c)).len() >= split_on(sep, s).len(),
{
    assert(s.push(c).drop_last() =~= s);
}

impl Repo {
    /// Reads `owner/name`: exactly one slash.
    pub fn from_str(s: &str) -> (r: Result<Repo, Error>)
        ensures
            repo_parse(s@) matches Ok(p) ==> (r matches Ok(x) && x.0@ == p.0 && x.1@ == p.1),
            repo_parse(s@) matches Err(m) ==> (r matches Err(Error::RepoConfig(e)) && e == m),
    {
        let cs = chars_of(s);
        let n = cs.len();
        let mut slashes: usize = 0;
        let mut at: usize = 0;
        let mut i: usize = 0;
        proof {
            assert(cs@.subrange(0, 0) =~= Seq::<char>::empty());
            assert(split_on('/', cs@.subrange(0, 0)) =~= seq![cs@.subrange(0, 0)]);
        }
        while i < n
            invariant
                n == cs@.len(),
                cs@ == s@,
                i <= n,
                slashes <= 2,
                slashes == 0 ==> split_on('/', cs@.subrange(0, i as int)) == seq![cs@.subrange(0, i as int)],
                slashes == 1 ==> at < i && split_on('/', cs@.subrange(0, i as int)) == seq![
                    cs@.subrange(0, at as int),
                    cs@.subrange(at + 1, i as int),
                ],
                slashes == 2 ==> split_on('/', cs@.subrange(0, i as int)).len() > 2,
            decreases n - i,
        {
            let c = cs[i];
            proof {
                assert(cs@.subrange(0, i + 1).drop_last() =~= cs@.subrange(0, i as int));
                assert(cs@.subrange(0, i + 1).last() == c);
                assert(cs@.subrange(0, i + 1) =~= cs@.subrange(0, i as int).push(c));
                lemma_split_len_grows('/', cs@.subrange(0, i as int), c);
            }
            if c == '/' {
                if slashes == 0 {
                    at = i;
                    slashes = 1;
                    proof {
                        assert(cs@.subrange(at + 1, i + 1) =~= Seq::<char>::empty());
                    }
                } else if slashes == 1 {
                    slashes = 2;
                }
            } else {
                proof {
                    if slashes == 0 {
                        assert(cs@.subrange(0, i + 1) =~= cs@.subrange(0, i as int).push(c));
                    } else if slashes == 1 {
                        assert(cs@.subrange(at + 1, i + 1) =~= cs@.subrange(at + 1, i as int).push(c));
                    }
                }
            }
            i = i + 1;
        }
        proof {
            assert(cs@.subrange(0, n as int) =~= cs@);
        }
        if slashes == 0 {
            Err(Error::RepoConfig(MISSING_SLASH))
        } else if slashes > 1 {
            Err(Error::RepoConfig(TOO_MANY_FIELDS))
        } else {
            let owner = s.substring_char(0, at).to_owned();
            let name = s.substring_char(at + 1, n).to_owned();
            Ok(Repo(owner, name))
        }
    }

    /// The catalog repository for this configured one.
    pub fn into_repo(self) -> (r: crate::Repo)
        ensures
            r@ == fresh_view(self.0@, self.1@),
    {
        crate::Repo::new(self.0, self.1)
    }
}

/// A configured repository before its first update.
pub open spec fn fresh_view(owner: Seq<char>, name: Seq<char>) -> RepoView {
    RepoView {
        owner,
        name,
        releases: Map::empty(),
        latest: None,
        releases_etag: None,
        latest_etag: None,
        interval: DEFAULT_INTERVAL_SECS,
    }
}

/// The configuration of one provider.
pub enum RegistryConfig {
    GitHub { repos: Vec<Repo>, oauth_token: String },
}

/// The repositories of a list of `owner/name` texts, or the first reason one
/// is not of that form.
pub open spec fn parse_repos(v: Seq<String>) -> Result<Seq<(Seq<char>, Seq<char>)>, &'static str>
    decreases v.len(),
{
    if v.len() == 0 {
        Ok(Seq::empty())
    } else {
        match parse_repos(v.drop_last()) {
            Err(m) => Err(m),
            Ok(rs) => match repo_parse(v.last()@) {
                Ok(p) => Ok(rs.push(p)),
                Err(m) => Err(m),
            },
        }
    }
}

proof fn lemma_parse_repos_error_stays(v: Seq<String>, k: int)
    requires
        0 <= k <= v.len(),
        parse_repos(v.subrange(0, k)) is Err,
    ensures
        parse_repos(v) == parse_repos(v.subrange(0, k)),
    decreases v.len(),
{
    if v.len() > k {
        assert(v.drop_last().subrange(0, k) =~= v.subrange(0, k));
        lemma_parse_repos_error_stays(v.drop_last(), k);
    } else {
        assert(v.subrange(0, k) =~= v);
    }
}

pub open spec fn config_repo_views(v: Seq<Repo>) -> Seq<(Seq<char>, Seq<char>)> {
    v.map_values(|r: Repo| (r.0@, r.1@))
}

/// Reads each `owner/name`, stopping at the first that is not of that form.
pub fn parse_repo_list(texts: &Vec<String>) -> (r: Result<Vec<Repo>, Error>)
    ensures
        match parse_repos(texts@) {
            Ok(rs) => (r matches Ok(x) && config_repo_views(x@) == rs),
            Err(m) => (r matches Err(Error::RepoConfig(e)) && e == m),
        },
{
    let n = texts.len();
    let mut parsed: Vec<Repo> = Vec::new();
    let mut i: usize = 0;
    proof {
        assert(texts@.subrange(0, 0) =~= Seq::<String>::empty());
        assert(config_repo_views(parsed@) =~= Seq::<(Seq<char>, Seq<char>)>::empty());
    }
    while i < n
        invariant
            n == texts@.len(),
            i <= n,
            parse_repos(texts@.subrange(0, i as int)) == Ok::<Seq<(Seq<char>, Seq<char>)>, &'static str>(
                config_repo_views(parsed@),
            ),
        decreases n - i,
    {
        proof {
            assert(texts@.subrange(0, i + 1).drop_last() =~= texts@.subrange(0, i as int));
            assert(texts@.subrange(0, i + 1).last() == texts@[i as int]);
        }
        match Repo::from_str(texts[i].as_str()) {
            Ok(x) => {
                let ghost before = parsed@;
                parsed.push(x);
                proof {
                    assert(parsed@.drop_last() =~= before);
                    assert(config_repo_views(parsed@) =~= config_repo_views(before).push((x.0@, x.1@)));
                }
            },
            Err(e) => {
                proof {
                    lemma_parse_repos_error_stays(texts@, i + 1);
                }
                return Err(e);
            },
        }
        i = i + 1;
    }
    proof {
        assert(texts@.subrange(0, n as int) =~= texts@);
    }
    Ok(parsed)
}

/// Decides a registry entry from its fields: the provider kind defaults to
/// `github`, the only kind there is; the token and the repositories are
/// required, each repository written `owner/name`.
pub fn registry_entry(
    provider: Option<String>,
    oauth_token: Option<String>,
    repos: Option<Vec<String>>,
) -> (r: Result<RegistryConfig, Error>)
    ensures
        match provider {
            Some(p) => p@ != DEFAULT_PROVIDER@ ==> (r matches Err(Error::InvalidProvider(x)) && x@ == p@),
            None => true,
        },
        (provider matches Some(p) ==> p@ == DEFAULT_PROVIDER@) ==> match oauth_token {
            None => (r matches Err(Error::MissingField(f)) && f == OAUTH_TOKEN),
            Some(t) => match repos {
                None => (r matches Err(Error::MissingField(f)) && f == REPOS),
                Some(v) => match parse_repos(v@) {
                    Ok(rs) => (r matches Ok(RegistryConfig::GitHub { repos: x, oauth_token: y })
                        && config_repo_views(x@) == rs && y@ == t@),
                    Err(m) => (r matches Err(Error::RepoConfig(e)) && e == m),
                },
            },
        },
{
    match provider {
        Some(p) => {
            if !same_text(p.as_str(), DEFAULT_PROVIDER) {
                return Err(Error::InvalidProvider(p));
            }
        },
        None => {},
    }
    let token = match oauth_token {
        Some(t) => t,
        None => {
            return Err(Error::MissingField(OAUTH_TOKEN));
        },
    };
    let texts = match repos {
        Some(v) => v,
        None => {
            return Err(Error::MissingField(REPOS));
        },
    };
    let parsed = match parse_repo_list(&texts) {
        Ok(p) => p,
        Err(e) => {
            return Err(e);
        },
    };
    Ok(RegistryConfig::GitHub { repos: parsed, oauth_token: token })
}

/// Configured repositories by owner and name, before their first update;
/// where both repeat, the later wins.
pub open spec fn fresh_repos(v: Seq<(Seq<char>, Seq<char>)>) -> Map<Seq<char>, Map<Seq<char>, RepoView>>
    decreases v.len(),
{
    if v.len() == 0 {
        Map::empty()
    } else {
        crate::provider::github::nest_insert(
            fresh_repos(v.drop_last()),
            v.last().0,
            v.last().1,
            fresh_view(v.last().0, v.last().1),
        )
    }
}

proof fn lemma_grouped_fresh(rs: Seq<crate::Repo>, v: Seq<(Seq<char>, Seq<char>)>)
    requires
        rs.len() == v.len(),
        forall|i: int| 0 <= i < rs.len() ==> (#[trigger] rs[i])@ == fresh_view(v[i].0, v[i].1),
    ensures
        grouped(rs) == fresh_repos(v),
    decreases rs.len(),
{
    if rs.len() > 0 {
        lemma_grouped_fresh(rs.drop_last(), v.drop_last());
        assert(rs.last()@ == fresh_view(v.last().0, v.last().1));
    }
}

fn into_repos(v: Vec<Repo>) -> (r: Vec<crate::Repo>)
    ensures
        r@.len() == v@.len(),
        forall|i: int| 0 <= i < r@.len() ==> (#[trigger] r@[i])@ == fresh_view(v@[i].0@, v@[i].1@),
{
    let ghost all = v@;
    let ghost n = all.len();
    let mut rest = v;
    let mut out: Vec<crate::Repo> = Vec::new();
    proof {
        assert(rest@ =~= all.subrange(0, n as int));
    }
    while rest.len() > 0
        invariant
            n == all.len(),
            rest@.len() <= n,
            rest@ == all.subrange(n - rest@.len(), n as int),
            out@.len() == n - rest@.len(),
            forall|i: int| 0 <= i < out@.len() ==> (#[trigger] out@[i])@ == fresh_view(all[i].0@, all[i].1@),
        decreases rest@.len(),
    {
        let ghost done = n - rest@.len();
        let x = rest.remove(0);
        proof {
            assert(x == all[done]);
            assert(rest@ =~= all.subrange(done + 1, n as int));
        }
        out.push(x.into_repo());
    }
    out
}

/// A domain's configuration before its first update.
pub open spec fn provider_view(domain: Seq<char>, repos: Seq<(Seq<char>, Seq<char>)>) -> GitHubView {
    GitHubView { domain, repos: fresh_repos(repos) }
}

/// The catalog that configured providers give; where a domain repeats, the
/// later entry wins.
pub open spec fn catalog_of(entries: Seq<(String, RegistryConfig)>) -> Map<Seq<char>, GitHubView>
    decreases entries.len(),
{
    if entries.len() == 0 {
        Map::empty()
    } else {
        let e = entries.last();
        match e.1 {
            RegistryConfig::GitHub { repos, oauth_token } => catalog_of(entries.drop_last()).insert(
                e.0@,
                provider_view(e.0@, config_repo_views(repos@)),
            ),
        }
    }
}

/// Whether each entry's token makes a valid authorization header.
pub open spec fn tokens_ok(entries: Seq<(String, RegistryConfig)>) -> bool {
    forall|i: int|
        0 <= i < entries.len() ==> match #[trigger] entries[i].1 {
            RegistryConfig::GitHub { repos, oauth_token } => crate::provider::github::client::header_value_ok(
                crate::provider::github::client::token_header(oauth_token@),
            ),
        }
}

/// Builds the catalog from the configured providers.
pub fn data_from_config(entries: Vec<(String, RegistryConfig)>) -> (r: Result<Data, Error>)
    ensures
        tokens_ok(entries@) ==> (r matches Ok(d) && d@ == catalog_of(entries@)),
        !tokens_ok(entries@) ==> (r matches Err(
            Error::Provider(
                crate::provider::Error::Client(
                    crate::provider::github::client::Error::InvalidHeaderValue(n),
                ),
            ),
        ) && n == crate::provider::github::client::AUTHORIZATION),
{
    let ghost all = entries@;
    let ghost n = all.len();
    let mut rest = entries;
    let mut registry = Registry::new();
    proof {
        assert(rest@ =~= all.subrange(0, n as int));
        assert(all.subrange(0, 0) =~= Seq::<(String, RegistryConfig)>::empty());
    }
    while rest.len() > 0
        invariant
            n == all.len(),
            all == entries@,
            rest@.len() <= n,
            rest@ == all.subrange(n - rest@.len(), n as int),
            tokens_ok(all.subrange(0, n - rest@.len())),
            registry@ == catalog_of(all.subrange(0, n - rest@.len())),
        decreases rest@.len(),
    {
        let ghost done = n - rest@.len();
        let entry = rest.remove(0);
        proof {
            assert(entry == all[done]);
            assert(rest@ =~= all.subrange(done + 1, n as int));
            assert(all.subrange(0, done + 1).drop_last() =~= all.subrange(0, done));
            assert(all.subrange(0, done + 1).last() == entry);
        }
        let (domain, config) = entry;
        let ghost cfgv = config;
        proof {
            assert(all[done].1 == cfgv);
        }
        match config {
            RegistryConfig::GitHub { repos, oauth_token } => {
                let ghost cfg = config_repo_views(repos@);
                let converted = into_repos(repos);
                proof {
                    lemma_grouped_fresh(converted@, cfg);
                }
                match GitHub::build(domain, oauth_token.as_str(), converted) {
                    Ok(g) => {
                        registry.register(Provider::GitHub(g));
                        proof {
                            assert forall|i: int| 0 <= i < done + 1 implies match #[trigger] all.subrange(0, done + 1)[i].1 {
                                RegistryConfig::GitHub { repos, oauth_token } => crate::provider::github::client::header_value_ok(
                                    crate::provider::github::client::token_header(oauth_token@),
                                ),
                            } by {
                                if i < done {
                                    assert(all.subrange(0, done + 1)[i] == all.subrange(0, done)[i]);
                                }
                            }
                        }
                    },
                    Err(e) => {
                        proof {
                            assert(cfgv == (RegistryConfig::GitHub { repos: cfgv->repos, oauth_token }));
                            assert(!crate::provider::github::client::header_value_ok(
                                crate::provider::github::client::token_header(oauth_token@),
                            ));
                            assert(!tokens_ok(all)) by {
                                if tokens_ok(all) {
                                    assert(match all[done].1 {
                                        RegistryConfig::GitHub { repos, oauth_token } => crate::provider::github::client::header_value_ok(
                                            crate::provider::github::client::token_header(oauth_token@),
                                        ),
                                    });
                                }
                            }
                        }
                        return Err(Error::Provider(e));
                    },
                }
            },
        }
    }
    proof {
        assert(all.subrange(0, n as int) =~= all);
    }
    Ok(Data::new(registry))
}

} // verus!
