use vstd::prelude::*;
use vstd::string::StrSliceExecFns;

use crate::asset::{Asset, AssetView};
use crate::names::{find_index, keys_unique, map_of, upsert, Named};
use crate::provider::github::client;
use crate::provider::Error;
use crate::release::{Release, ReleaseView};
use crate::target::{Target, TargetView};
use crate::text::same_text;

verus! {

/// `http::uri::InvalidUri` (through actix-web), carried opaquely in
/// `Error::InvalidUri`.
#[verifier::external_type_specification]
#[verifier::external_body]
pub struct ExInvalidUri(actix_web::http::uri::InvalidUri);

/// Whether the text parses as a URI.
pub uninterp spec fn uri_accepted(s: Seq<char>) -> bool;

/// Relies on `http::Uri::try_from(&str)`, re-exported by actix-web: whether
/// a text parses as a URI depends on the text alone.
#[verifier::external_body]
pub(crate) fn check_uri(s: &str) -> (r: Result<(), actix_web::http::uri::InvalidUri>)
    ensures
        r is Ok <==> uri_accepted(s@),
{
    match actix_web::http::Uri::try_from(s) {
        Ok(_) => Ok(()),
        Err(e) => Err(e),
    }
}

/// The suffix that marks an asset file as a manifest.
pub const MANIFEST_EXT: &'static str = ".manifest.txt";

pub open spec fn is_published(r: client::Release) -> bool {
    !r.draft && !r.prerelease
}

/// The releases that are neither drafts nor prereleases, in order.
pub open spec fn published(rs: Seq<client::Release>) -> Seq<client::Release>
    decreases rs.len(),
{
    if rs.len() == 0 {
        rs
    } else if is_published(rs.last()) {
        published(rs.drop_last()).push(rs.last())
    } else {
        published(rs.drop_last())
    }
}

/// Keeps the releases that are neither drafts nor prereleases, in order.
pub fn published_releases(releases: Vec<client::Release>) -> (r: Vec<client::Release>)
    ensures
        r@ == published(releases@),
        forall|i: int| 0 <= i < r@.len() ==> is_published(#[trigger] r@[i]),
{
    let ghost all = releases@;
    let ghost n = all.len();
    let mut rest = releases;
    let mut out: Vec<client::Release> = Vec::new();
    proof {
        assert(all.subrange(0, 0) =~= Seq::<client::Release>::empty());
        assert(rest@ =~= all.subrange(0, n as int));
    }
    while rest.len() > 0
        invariant
            n == all.len(),
            rest@.len() <= n,
            rest@ == all.subrange(n - rest@.len(), n as int),
            out@ == published(all.subrange(0, n - rest@.len())),
            forall|i: int| 0 <= i < out@.len() ==> is_published(#[trigger] out@[i]),
        decreases rest@.len(),
    {
        let ghost done = n - rest@.len();
        let r = rest.remove(0);
        proof {
            assert(r == all[done]);
            assert(rest@ =~= all.subrange(done + 1, n as int));
            assert(all.subrange(0, done + 1).drop_last() =~= all.subrange(0, done));
        }
        if !r.draft && !r.prerelease {
            out.push(r);
        }
    }
    proof {
        assert(all.subrange(0, n as int) =~= all);
    }
    out
}

pub open spec fn ends_with(s: Seq<char>, suffix: Seq<char>) -> bool {
    s.len() >= suffix.len() && s.subrange(s.len() - suffix.len(), s.len() as int) == suffix
}

/// The catalog name of a manifest file: its name without the suffix.
pub open spec fn logical_name(file: Seq<char>) -> Seq<char> {
    file.subrange(0, file.len() - MANIFEST_EXT@.len())
}

/// A manifest to fetch: the upstream id of the file and the catalog name of
/// the asset it describes.
pub struct ManifestRequest {
    pub asset_id: u64,
    pub name: String,
}

/// The manifests among the files of a release, in order.
pub open spec fn manifest_requests(assets: Seq<client::Asset>) -> Seq<(u64, Seq<char>)>
    decreases assets.len(),
{
    if assets.len() == 0 {
        Seq::empty()
    } else {
        let a = assets.last();
        let rest = manifest_requests(assets.drop_last());
        if ends_with(a.name@, MANIFEST_EXT@) {
            rest.push((a.id, logical_name(a.name@)))
        } else {
            rest
        }
    }
}

pub open spec fn request_views(v: Seq<ManifestRequest>) -> Seq<(u64, Seq<char>)> {
    v.map_values(|m: ManifestRequest| (m.asset_id, m.name@))
}

fn has_suffix(s: &str, suffix: &str) -> (r: bool)
    ensures
        r == ends_with(s@, suffix@),
{
    let n = s.unicode_len();
    let k = suffix.unicode_len();
    if n < k {
        false
    } else {
        same_text(s.substring_char(n - k, n), suffix)
    }
}

/// The manifests that a release carries: each file whose name ends in
/// `.manifest.txt`, with that suffix removed to give the catalog name.
pub fn manifest_assets(release: &client::Release) -> (r: Vec<ManifestRequest>)
    ensures
        request_views(r@) == manifest_requests(release.assets@),
{
    let assets = &release.assets;
    let n = assets.len();
    let mut out: Vec<ManifestRequest> = Vec::new();
    let mut i: usize = 0;
    proof {
        assert(assets@.subrange(0, 0) =~= Seq::<client::Asset>::empty());
        assert(request_views(out@) =~= Seq::<(u64, Seq<char>)>::empty());
    }
    while i < n
        invariant
            n == assets@.len(),
            i <= n,
            request_views(out@) == manifest_requests(assets@.subrange(0, i as int)),
        decreases n - i,
    {
        let a = &assets[i];
        proof {
            assert(assets@.subrange(0, i + 1).drop_last() =~= assets@.subrange(0, i as int));
        }
        if has_suffix(a.name.as_str(), MANIFEST_EXT) {
            let len = a.name.as_str().unicode_len();
            let base = a.name.as_str().substring_char(0, len - MANIFEST_EXT.unicode_len());
            let ghost before = out@;
            out.push(ManifestRequest { asset_id: a.id, name: base.to_owned() });
            proof {
                assert(out@.drop_last() =~= before);
                assert(request_views(out@) =~= request_views(before).push((a.id, logical_name(a.name@))));
            }
        }
        i = i + 1;
    }
    proof {
        assert(assets@.subrange(0, n as int) =~= assets@);
    }
    out
}

/// One asset to place in a release: its catalog name, its target and the
/// file name that the manifest gives.
pub struct Placement {
    pub name: String,
    pub target: String,
    pub file: String,
}

pub open spec fn manifest_placements(m: client::Manifest) -> Seq<(Seq<char>, Seq<char>, Seq<char>)> {
    m.entries@.map_values(|e: client::ManifestEntry| (m.name@, e.target@, e.asset@))
}

/// The entries of all manifests of a release, in the order the manifests
/// were fetched.
pub open spec fn placements(ms: Seq<client::Manifest>) -> Seq<(Seq<char>, Seq<char>, Seq<char>)>
    decreases ms.len(),
{
    if ms.len() == 0 {
        Seq::empty()
    } else {
        placements(ms.drop_last()) + manifest_placements(ms.last())
    }
}

pub open spec fn placement_views(v: Seq<Placement>) -> Seq<(Seq<char>, Seq<char>, Seq<char>)> {
    v.map_values(|p: Placement| (p.name@, p.target@, p.file@))
}

fn placements_of(manifests: &Vec<client::Manifest>) -> (r: Vec<Placement>)
    ensures
        placement_views(r@) == placements(manifests@),
{
    let n = manifests.len();
    let mut out: Vec<Placement> = Vec::new();
    let mut i: usize = 0;
    proof {
        assert(manifests@.subrange(0, 0) =~= Seq::<client::Manifest>::empty());
        assert(placement_views(out@) =~= Seq::<(Seq<char>, Seq<char>, Seq<char>)>::empty());
    }
    while i < n
        invariant
            n == manifests@.len(),
            i <= n,
            placement_views(out@) == placements(manifests@.subrange(0, i as int)),
        decreases n - i,
    {
        let m = &manifests[i];
        let k = m.entries.len();
        let mut j: usize = 0;
        let ghost base = placement_views(out@);
        proof {
            assert(manifest_placements(*m).subrange(0, 0) =~= Seq::<(Seq<char>, Seq<char>, Seq<char>)>::empty());
            assert(base + manifest_placements(*m).subrange(0, 0) =~= base);
        }
        while j < k
            invariant
                k == m.entries@.len(),
                j <= k,
                placement_views(out@) == base + manifest_placements(*m).subrange(0, j as int),
            decreases k - j,
        {
            let e = &m.entries[j];
            let ghost before = out@;
            out.push(Placement { name: m.name.clone(), target: e.target.clone(), file: e.asset.clone() });
            proof {
                assert(out@.drop_last() =~= before);
                assert(placement_views(out@) =~= placement_views(before).push((m.name@, e.target@, e.asset@)));
                assert(manifest_placements(*m).subrange(0, j + 1) =~= manifest_placements(*m).subrange(0, j as int).push(
                    (m.name@, e.target@, e.asset@),
                ));
            }
            j = j + 1;
        }
        proof {
            assert(manifest_placements(*m).subrange(0, k as int) =~= manifest_placements(*m));
            assert(manifests@.subrange(0, i + 1).drop_last() =~= manifests@.subrange(0, i as int));
        }
        i = i + 1;
    }
    proof {
        assert(manifests@.subrange(0, n as int) =~= manifests@);
    }
    out
}

/// The download address of the first file of a release named `file`.
pub open spec fn download_url(raw: Seq<client::Asset>, file: Seq<char>) -> Option<Seq<char>>
    decreases raw.len(),
{
    if raw.len() == 0 {
        None
    } else if raw[0].name@ == file {
        Some(raw[0].browser_download_url@)
    } else {
        download_url(raw.drop_first(), file)
    }
}

/// Why an asset cannot be placed.
pub enum Fault {
    Missing(Seq<char>),
    BadUri(Seq<char>),
}

/// `targets` with the asset `name` at `uri` placed in `target`, the target
/// made where it is not there yet.
pub open spec fn add_asset(
    targets: Map<Seq<char>, TargetView>,
    target: Seq<char>,
    name: Seq<char>,
    uri: Seq<char>,
) -> Map<Seq<char>, TargetView> {
    let assets = if targets.contains_key(target) {
        targets[target].assets
    } else {
        Map::empty()
    };
    targets.insert(
        target,
        TargetView { name: target, assets: assets.insert(name, AssetView { name, download_uri: uri }) },
    )
}

/// The targets that placing `ps` in order builds, or why the first that
/// cannot be placed fails.
pub open spec fn place(ps: Seq<(Seq<char>, Seq<char>, Seq<char>)>, raw: Seq<client::Asset>) -> Result<
    Map<Seq<char>, TargetView>,
    Fault,
>
    decreases ps.len(),
{
    if ps.len() == 0 {
        Ok(Map::empty())
    } else {
        match place(ps.drop_last(), raw) {
            Err(f) => Err(f),
            Ok(m) => {
                let p = ps.last();
                match download_url(raw, p.2) {
                    None => Err(Fault::Missing(p.2)),
                    Some(u) => if uri_accepted(u) {
                        Ok(add_asset(m, p.1, p.0, u))
                    } else {
                        Err(Fault::BadUri(u))
                    },
                }
            },
        }
    }
}

proof fn lemma_place_error_stays(ps: Seq<(Seq<char>, Seq<char>, Seq<char>)>, raw: Seq<client::Asset>, k: int)
    requires
        0 <= k <= ps.len(),
        place(ps.subrange(0, k), raw) is Err,
    ensures
        place(ps, raw) == place(ps.subrange(0, k), raw),
    decreases ps.len(),
{
    if ps.len() > k {
        assert(ps.drop_last().subrange(0, k) =~= ps.subrange(0, k));
        lemma_place_error_stays(ps.drop_last(), raw, k);
    } else {
        assert(ps.subrange(0, k) =~= ps);
    }
}

/// The download address of the file named `file` among the files of a
/// release, checked to parse as a URI.
pub fn uri_for_asset(file: &str, assets: &Vec<client::Asset>) -> (r: Result<String, Error>)
    ensures
        match download_url(assets@, file@) {
            None => (r matches Err(Error::MissingAsset(f)) && f@ == file@),
            Some(u) => if uri_accepted(u) {
                (r matches Ok(s) && s@ == u)
            } else {
                (r matches Err(Error::InvalidUri(x, _)) && x@ == u)
            },
        },
        r matches Ok(s) ==> uri_accepted(s@),
{
    let n = assets.len();
    let mut i: usize = 0;
    proof {
        assert(assets@.subrange(0, n as int) =~= assets@);
    }
    while i < n
        invariant
            n == assets@.len(),
            i <= n,
            download_url(assets@, file@) == download_url(assets@.subrange(i as int, n as int), file@),
        decreases n - i,
    {
        proof {
            assert(assets@.subrange(i as int, n as int).drop_first() =~= assets@.subrange(i + 1, n as int));
        }
        let a = &assets[i];
        if same_text(a.name.as_str(), file) {
            let url = a.browser_download_url.as_str();
            return match check_uri(url) {
                Ok(()) => Ok(url.to_owned()),
                Err(e) => Err(Error::InvalidUri(url.to_owned(), e)),
            };
        }
        i = i + 1;
    }
    Err(Error::MissingAsset(file.to_owned()))
}

/// Builds the catalog release for an upstream release from its manifests:
/// each entry places an asset, named after its manifest, in the entry's
/// target, at the download address of the file the entry names.
pub fn convert_release(release: &client::Release, manifests: &Vec<client::Manifest>) -> (r: Result<Release, Error>)
    ensures
        match place(placements(manifests@), release.assets@) {
            Ok(m) => (r matches Ok(rel) && rel@ == (ReleaseView {
                id: release.id,
                name: release.tag_name@,
                targets: m,
            })),
            Err(Fault::Missing(f)) => (r matches Err(Error::MissingAsset(x)) && x@ == f),
            Err(Fault::BadUri(u)) => (r matches Err(Error::InvalidUri(x, _)) && x@ == u),
        },
{
    let ps = placements_of(manifests);
    let ghost all = placement_views(ps@);
    let n = ps.len();
    let mut targets: Vec<Target> = Vec::new();
    let mut k: usize = 0;
    proof {
        assert(all.subrange(0, 0) =~= Seq::<(Seq<char>, Seq<char>, Seq<char>)>::empty());
        assert(map_of(targets@) =~= Map::<Seq<char>, TargetView>::empty());
    }
    while k < n
        invariant
            n == ps@.len(),
            all == placement_views(ps@),
            all == placements(manifests@),
            k <= n,
            keys_unique(targets@),
            place(all.subrange(0, k as int), release.assets@) == Ok::<Map<Seq<char>, TargetView>, Fault>(
                map_of(targets@),
            ),
        decreases n - k,
    {
        let p = &ps[k];
        let ghost pv = (p.name@, p.target@, p.file@);
        proof {
            assert(all[k as int] == pv);
            assert(all.subrange(0, k + 1).drop_last() =~= all.subrange(0, k as int));
            assert(all.subrange(0, k + 1).last() == pv);
        }
        let uri = match uri_for_asset(p.file.as_str(), &release.assets) {
            Ok(u) => u,
            Err(e) => {
                proof {
                    lemma_place_error_stays(all, release.assets@, k + 1);
                }
                return Err(e);
            },
        };
        let asset = Asset::new(p.name.clone(), uri);
        let ghost m = map_of(targets@);
        proof {
            crate::names::lemma_map_of_dom(targets@);
            crate::names::lemma_map_of_unique(targets@);
        }
        match find_index(&targets, p.target.as_str()) {
            Some(i) => {
                let mut t = targets[i].clone();
                t.push_asset(asset);
                upsert(&mut targets, t);
            },
            None => {
                let mut t = Target::new(p.target.clone());
                t.push_asset(asset);
                upsert(&mut targets, t);
            },
        }
        proof {
            assert(map_of(targets@) =~= add_asset(m, p.target@, p.name@, asset@.download_uri));
        }
        k = k + 1;
    }
    proof {
        assert(all.subrange(0, n as int) =~= all);
    }
    let mut rel = Release::new(release.id, release.tag_name.clone());
    rel.set_targets(targets);
    Ok(rel)
}

/// The catalog release that an upstream release and the outcome of fetching
/// its manifests give, where both succeed.
pub open spec fn release_outcome(
    r: client::Release,
    fetched: Result<Vec<client::Manifest>, client::Error>,
) -> Option<ReleaseView> {
    match fetched {
        Err(_) => None,
        Ok(ms) => match place(placements(ms@), r.assets@) {
            Ok(t) => Some(ReleaseView { id: r.id, name: r.tag_name@, targets: t }),
            Err(_) => None,
        },
    }
}

/// The catalog releases of the first `k` upstream releases that convert, in
/// order.
pub open spec fn converted(
    rs: Seq<client::Release>,
    mss: Seq<Result<Vec<client::Manifest>, client::Error>>,
    k: int,
) -> Seq<ReleaseView>
    decreases k,
{
    if k <= 0 {
        Seq::empty()
    } else {
        match release_outcome(rs[k - 1], mss[k - 1]) {
            Some(v) => converted(rs, mss, k - 1).push(v),
            None => converted(rs, mss, k - 1),
        }
    }
}

/// Whether each of the first `k` upstream releases converts.
pub open spec fn all_convert(
    rs: Seq<client::Release>,
    mss: Seq<Result<Vec<client::Manifest>, client::Error>>,
    k: int,
) -> bool {
    forall|i: int| 0 <= i < k ==> #[trigger] release_outcome(rs[i], mss[i]) is Some
}

pub open spec fn release_views(v: Seq<Release>) -> Seq<ReleaseView> {
    v.map_values(|r: Release| r@)
}

/// The releases that converted, and for each release that did not, its tag
/// and why.
///
/// A release whose manifests could not be fetched (a transport, status or
/// decoding failure of the download) is recorded in `fetch_errors`; one whose
/// manifests are malformed, or name a file the release lacks or an address
/// that does not parse, in `failures`.
pub struct Conversion {
    pub releases: Vec<Release>,
    pub failures: Vec<(String, Error)>,
    pub fetch_errors: Vec<(String, client::Error)>,
}

/// An error of getting a manifest rather than of its content: anything but
/// malformed text.
pub open spec fn is_fetch_error(e: client::Error) -> bool {
    !(e is Utf8 || e is Manifest)
}

/// Whether fetching a release's manifests failed.
pub open spec fn fetch_failed(fetched: Result<Vec<client::Manifest>, client::Error>) -> bool {
    fetched matches Err(e) && is_fetch_error(e)
}

/// Whether no manifest fetch of the first `k` releases failed.
pub open spec fn no_fetch_failure(mss: Seq<Result<Vec<client::Manifest>, client::Error>>, k: int) -> bool {
    forall|i: int| 0 <= i < k ==> !fetch_failed(#[trigger] mss[i])
}

fn is_fetch_error_exec(e: &client::Error) -> (r: bool)
    ensures
        r == is_fetch_error(*e),
{
    match e {
        client::Error::Utf8(_) => false,
        client::Error::Manifest(_) => false,
        _ => true,
    }
}

/// How many releases have a manifest outcome paired with them: the length
/// of the shorter list.
pub open spec fn paired(n: int, m: int) -> int {
    if n <= m {
        n
    } else {
        m
    }
}

/// Converts each upstream release with the outcome of fetching its
/// manifests, pairing the two lists in order up to the shorter one. A
/// release that fails is left out and recorded; the others are kept.
pub fn convert_releases(
    releases: Vec<client::Release>,
    manifests: Vec<Result<Vec<client::Manifest>, client::Error>>,
) -> (r: Conversion)
    ensures
        release_views(r.releases@) == converted(
            releases@,
            manifests@,
            paired(releases@.len() as int, manifests@.len() as int),
        ),
        r.failures@.len() == 0 && r.fetch_errors@.len() == 0 <==> all_convert(
            releases@,
            manifests@,
            paired(releases@.len() as int, manifests@.len() as int),
        ),
        r.fetch_errors@.len() == 0 <==> no_fetch_failure(
            manifests@,
            paired(releases@.len() as int, manifests@.len() as int),
        ),
{
    let ghost rs = releases@;
    let ghost mss = manifests@;
    let ghost n = rs.len();
    let ghost m = mss.len();
    let mut rest_r = releases;
    let mut rest_m = manifests;
    let mut out: Vec<Release> = Vec::new();
    let mut failures: Vec<(String, Error)> = Vec::new();
    let mut fetch_errors: Vec<(String, client::Error)> = Vec::new();
    let ghost mut done: int = 0;
    proof {
        assert(release_views(out@) =~= Seq::<ReleaseView>::empty());
        assert(rest_r@ =~= rs.subrange(0, n as int));
        assert(rest_m@ =~= mss.subrange(0, m as int));
    }
    while rest_r.len() > 0 && rest_m.len() > 0
        invariant
            n == rs.len(),
            m == mss.len(),
            0 <= done <= paired(n as int, m as int),
            rest_r@ == rs.subrange(done, n as int),
            rest_m@ == mss.subrange(done, m as int),
            release_views(out@) == converted(rs, mss, done),
            failures@.len() == 0 && fetch_errors@.len() == 0 <==> all_convert(rs, mss, done),
            fetch_errors@.len() == 0 <==> no_fetch_failure(mss, done),
        decreases rest_r@.len(),
    {
        let rel = rest_r.remove(0);
        let fetched = rest_m.remove(0);
        proof {
            assert(rel == rs[done]);
            assert(fetched == mss[done]);
            assert(rest_r@ =~= rs.subrange(done + 1, n as int));
            assert(rest_m@ =~= mss.subrange(done + 1, m as int));
        }
        let ghost before = out@;
        let ghost fails_before = failures@.len() + fetch_errors@.len();
        let ghost fetch_before = fetch_errors@.len();
        match fetched {
            Ok(ms) => match convert_release(&rel, &ms) {
                Ok(c) => {
                    out.push(c);
                    proof {
                        assert(out@.drop_last() =~= before);
                        assert(release_views(out@) =~= release_views(before).push(c@));
                    }
                },
                Err(e) => {
                    failures.push((rel.tag_name, e));
                },
            },
            Err(e) => {
                if is_fetch_error_exec(&e) {
                    fetch_errors.push((rel.tag_name, e));
                } else {
                    failures.push((rel.tag_name, Error::Client(e)));
                }
            },
        }
        proof {
            if fails_before == 0 && release_outcome(rs[done], mss[done]) is Some {
                assert(all_convert(rs, mss, done + 1));
            }
            if fetch_before == 0 && !fetch_failed(mss[done]) {
                assert(no_fetch_failure(mss, done + 1));
            }
            if !no_fetch_failure(mss, done) {
                let i = choose|i: int| 0 <= i < done && fetch_failed(#[trigger] mss[i]);
                assert(fetch_failed(mss[i]));
            }
            if !all_convert(rs, mss, done) {
                let i = choose|i: int| 0 <= i < done && !(#[trigger] release_outcome(rs[i], mss[i]) is Some);
                assert(!(release_outcome(rs[i], mss[i]) is Some));
            }
            done = done + 1;
        }
    }
    Conversion { releases: out, failures, fetch_errors }
}

/// Each converted release comes from an upstream release with the same id
/// and tag.
pub proof fn lemma_converted_sources(
    rs: Seq<client::Release>,
    mss: Seq<Result<Vec<client::Manifest>, client::Error>>,
    k: int,
)
    requires
        0 <= k <= rs.len(),
        k <= mss.len(),
    ensures
        forall|j: int|
            0 <= j < converted(rs, mss, k).len() ==> exists|i: int|
                0 <= i < k && #[trigger] converted(rs, mss, k)[j].id == rs[i].id
                    && converted(rs, mss, k)[j].name == rs[i].tag_name@,
    decreases k,
{
    if k > 0 {
        lemma_converted_sources(rs, mss, k - 1);
        let c = converted(rs, mss, k);
        let p = converted(rs, mss, k - 1);
        assert forall|j: int| 0 <= j < c.len() implies exists|i: int|
            0 <= i < k && #[trigger] c[j].id == rs[i].id && c[j].name == rs[i].tag_name@ by {
            if j < p.len() {
                assert(c[j] == p[j]);
                let i = choose|i: int| 0 <= i < k - 1 && #[trigger] p[j].id == rs[i].id && p[j].name == rs[i].tag_name@;
                assert(c[j].id == rs[i].id);
            } else {
                assert(c[j].id == rs[k - 1].id);
            }
        }
    }
}

/// Each published release is a release of the input that is neither a
/// draft nor a prerelease.
pub proof fn lemma_published_sources(rs: Seq<client::Release>)
    ensures
        forall|j: int|
            0 <= j < published(rs).len() ==> exists|i: int|
                0 <= i < rs.len() && #[trigger] published(rs)[j] == rs[i] && is_published(rs[i]),
    decreases rs.len(),
{
    if rs.len() > 0 {
        let q = rs.drop_last();
        let p = published(q);
        let x = rs.last();
        lemma_published_sources(q);
        let out = published(rs);
        assert forall|j: int| 0 <= j < out.len() implies exists|i: int|
            0 <= i < rs.len() && #[trigger] out[j] == rs[i] && is_published(rs[i]) by {
            if is_published(x) {
                assert(out == p.push(x));
                if j < p.len() {
                    assert(out[j] == p[j]);
                    let i = choose|i: int| 0 <= i < q.len() && #[trigger] p[j] == q[i] && is_published(q[i]);
                    assert(q[i] == rs[i]);
                    assert(out[j] == rs[i] && is_published(rs[i]));
                } else {
                    assert(out[j] == rs[rs.len() - 1]);
                }
            } else {
                assert(out == p);
                let i = choose|i: int| 0 <= i < q.len() && #[trigger] p[j] == q[i] && is_published(q[i]);
                assert(q[i] == rs[i]);
                assert(out[j] == rs[i] && is_published(rs[i]));
            }
        }
    }
}

/// No draft or prerelease reaches the catalog: every release converted from
/// the published releases of an upstream answer, whatever manifest outcomes
/// are paired with them, has the id and tag of a release of that answer that
/// is neither a draft nor a prerelease.
pub proof fn lemma_no_draft_or_prerelease(
    raw: Seq<client::Release>,
    mss: Seq<Result<Vec<client::Manifest>, client::Error>>,
)
    ensures
        forall|j: int|
            0 <= j < converted(published(raw), mss, paired(published(raw).len() as int, mss.len() as int)).len()
                ==> exists|i: int|
                0 <= i < raw.len() && is_published(raw[i]) && #[trigger] converted(
                    published(raw),
                    mss,
                    paired(published(raw).len() as int, mss.len() as int),
                )[j].id == raw[i].id && converted(
                    published(raw),
                    mss,
                    paired(published(raw).len() as int, mss.len() as int),
                )[j].name == raw[i].tag_name@,
{
    let ps = published(raw);
    let k = paired(ps.len() as int, mss.len() as int);
    lemma_converted_sources(ps, mss, k);
    lemma_published_sources(raw);
    let c = converted(ps, mss, k);
    assert forall|j: int| 0 <= j < c.len() implies exists|i: int|
        0 <= i < raw.len() && is_published(raw[i]) && #[trigger] c[j].id == raw[i].id && c[j].name
            == raw[i].tag_name@ by {
        let a = choose|a: int| 0 <= a < k && #[trigger] c[j].id == ps[a].id && c[j].name == ps[a].tag_name@;
        let i = choose|i: int| 0 <= i < raw.len() && #[trigger] ps[a] == raw[i] && is_published(raw[i]);
        assert(c[j].id == raw[i].id);
    }
}

/// Where every paired release converts, the converted releases are the
/// outcomes of the releases in order.
pub proof fn lemma_all_convert_pointwise(
    rs: Seq<client::Release>,
    mss: Seq<Result<Vec<client::Manifest>, client::Error>>,
    k: int,
)
    requires
        0 <= k <= rs.len(),
        k <= mss.len(),
        all_convert(rs, mss, k),
    ensures
        converted(rs, mss, k).len() == k,
        forall|i: int|
            0 <= i < k ==> #[trigger] converted(rs, mss, k)[i] == release_outcome(rs[i], mss[i])->0,
    decreases k,
{
    if k > 0 {
        assert(all_convert(rs, mss, k - 1));
        lemma_all_convert_pointwise(rs, mss, k - 1);
        assert(release_outcome(rs[k - 1], mss[k - 1]) is Some);
    }
}

} // verus!
