use vstd::prelude::*;
use vstd::string::StrSliceExecFns;
use vstd::utf8::{decode_utf8, valid_utf8};

use crate::etag::ETag;
use crate::text::{
    chars_of, decimal, fields, is_ascii_ws, lemma_fields_append_word, lemma_fields_append_ws,
    lemma_lines_prefix, lines, push_decimal, split_fields, split_on, views,
};
use vstd::string::StringExecFns;

verus! {

/// `std::str::Utf8Error`, carried opaquely in `Error::Utf8`.
#[verifier::external_type_specification]
#[verifier::external_body]
pub struct ExUtf8Error(std::str::Utf8Error);

/// Relies on `std::str::from_utf8`: it accepts exactly the well-formed UTF-8
/// byte strings and hands back the text they encode.
#[verifier::external_body]
fn utf8_text(b: &[u8]) -> (r: Result<&str, std::str::Utf8Error>)
    ensures
        r is Ok <==> valid_utf8(b@),
        r matches Ok(s) ==> s@ == decode_utf8(b@),
{
    std::str::from_utf8(b)
}

/// A successful answer of the upstream: its entity-tag, if it sent one, and
/// the decoded body.
pub struct Response<T> {
    etag: Option<ETag>,
    payload: T,
}

impl<T> Response<T> {
    pub closed spec fn spec_etag(&self) -> Option<ETag> {
        self.etag
    }

    pub closed spec fn spec_payload(&self) -> T {
        self.payload
    }

    pub fn new(etag: Option<ETag>, payload: T) -> (r: Response<T>)
        ensures
            r.spec_etag() == etag,
            r.spec_payload() == payload,
    {
        Response { etag, payload }
    }

    pub fn as_ref(&self) -> (r: &T)
        ensures
            *r == self.spec_payload(),
    {
        &self.payload
    }

    pub fn into_parts(self) -> (r: (Option<ETag>, T))
        ensures
            r.0 == self.spec_etag(),
            r.1 == self.spec_payload(),
    {
        (self.etag, self.payload)
    }
}

/// A release as the upstream describes it.
pub struct Release {
    pub id: u64,
    pub tag_name: String,
    pub url: String,
    pub draft: bool,
    pub prerelease: bool,
    pub created_at: String,
    pub assets: Vec<Asset>,
}

/// A file attached to an upstream release.
pub struct Asset {
    pub id: u64,
    pub name: String,
    pub url: String,
    pub browser_download_url: String,
    pub content_type: String,
    pub size: u64,
    pub download_count: u64,
    pub created_at: String,
}

/// A parsed manifest: the catalog name of the asset it describes, and its
/// `(target, file name)` entries.
pub struct Manifest {
    pub name: String,
    pub entries: Vec<ManifestEntry>,
}

/// One line of a manifest: a target name and the file name of an asset.
pub struct ManifestEntry {
    pub target: String,
    pub asset: String,
}

/// Why a manifest line is malformed.
#[derive(Debug)]
pub struct ManifestEntryParseError(pub &'static str);

pub const MISSING_DELIMITER: &'static str = "missing whitespace delimiter between fields";

pub const TOO_MANY_FIELDS: &'static str = "more than two fields";

/// The upstream's description of a failed request.
#[derive(Debug)]
pub struct RequestError {
    pub success: bool,
    pub message: String,
}

/// Errors of the upstream client.
#[derive(Debug)]
pub enum Error {
    /// The upstream answered with a failure status and this description.
    Api(RequestError),
    /// The HTTP client could not be set up.
    Builder(String),
    /// A body did not decode as expected.
    Deserialize(String),
    /// A header value (named here) holds characters no header may hold.
    InvalidHeaderValue(&'static str),
    /// A manifest line is malformed.
    Manifest(ManifestEntryParseError),
    /// The upstream answered 404.
    NotFound,
    /// The request could not be sent or answered.
    Request(String),
    /// The body of an answer could not be read.
    Response(String),
    /// A manifest is not UTF-8.
    Utf8(std::str::Utf8Error),
}

/// What a manifest line holds: nothing (a blank line), an entry, or the
/// reason it is malformed.
pub open spec fn line_entry(l: Seq<char>) -> Option<Result<(Seq<char>, Seq<char>), ManifestEntryParseError>> {
    let f = fields(l);
    if f.len() == 0 {
        None
    } else if f.len() == 1 {
        Some(Err(ManifestEntryParseError(MISSING_DELIMITER)))
    } else if f.len() > 2 {
        Some(Err(ManifestEntryParseError(TOO_MANY_FIELDS)))
    } else {
        Some(Ok((f[0], f[1])))
    }
}

/// The entries of the lines in order, or the error of the first malformed
/// line.
pub open spec fn parse_lines(ls: Seq<Seq<char>>) -> Result<Seq<(Seq<char>, Seq<char>)>, ManifestEntryParseError>
    decreases ls.len(),
{
    if ls.len() == 0 {
        Ok(Seq::empty())
    } else {
        match parse_lines(ls.drop_last()) {
            Err(e) => Err(e),
            Ok(es) => match line_entry(ls.last()) {
                None => Ok(es),
                Some(Ok(p)) => Ok(es.push(p)),
                Some(Err(e)) => Err(e),
            },
        }
    }
}

/// Once a line is malformed, the lines after it do not matter.
pub proof fn lemma_parse_error_stays(ls: Seq<Seq<char>>, k: int)
    requires
        0 <= k <= ls.len(),
        parse_lines(ls.subrange(0, k)) is Err,
    ensures
        parse_lines(ls) == parse_lines(ls.subrange(0, k)),
    decreases ls.len(),
{
    if ls.len() > k {
        assert(ls.drop_last().subrange(0, k) =~= ls.subrange(0, k));
        lemma_parse_error_stays(ls.drop_last(), k);
    } else {
        assert(ls.subrange(0, k) =~= ls);
    }
}

pub open spec fn entry_views(v: Seq<ManifestEntry>) -> Seq<(Seq<char>, Seq<char>)> {
    v.map_values(|e: ManifestEntry| (e.target@, e.asset@))
}

/// The text of a manifest line for `target` and `asset`: the two names with
/// two spaces between them.
pub open spec fn entry_line(target: Seq<char>, asset: Seq<char>) -> Seq<char> {
    target + seq![' ', ' '] + asset
}

fn entry_of_fields(fs: Vec<String>) -> (r: Result<ManifestEntry, ManifestEntryParseError>)
    requires
        fs@.len() > 0,
    ensures
        fs@.len() == 1 ==> r == Err::<ManifestEntry, ManifestEntryParseError>(
            ManifestEntryParseError(MISSING_DELIMITER),
        ),
        fs@.len() > 2 ==> r == Err::<ManifestEntry, ManifestEntryParseError>(
            ManifestEntryParseError(TOO_MANY_FIELDS),
        ),
        fs@.len() == 2 ==> (r matches Ok(e) && e.target@ == fs@[0]@ && e.asset@ == fs@[1]@),
{
    let n = fs.len();
    if n == 1 {
        Err(ManifestEntryParseError(MISSING_DELIMITER))
    } else if n > 2 {
        Err(ManifestEntryParseError(TOO_MANY_FIELDS))
    } else {
        let mut fs = fs;
        let asset = fs.pop().unwrap();
        let target = fs.pop().unwrap();
        Ok(ManifestEntry { target, asset })
    }
}

impl ManifestEntry {
    /// Parses a line of exactly two whitespace-separated fields.
    pub fn from_str(s: &str) -> (r: Result<ManifestEntry, ManifestEntryParseError>)
        requires
            fields(s@).len() > 0,
        ensures
            line_entry(s@) matches Some(Ok(p)) ==> (r matches Ok(e) && e.target@ == p.0 && e.asset@
                == p.1),
            line_entry(s@) matches Some(Err(x)) ==> r == Err::<ManifestEntry, ManifestEntryParseError>(
                x,
            ),
    {
        let fs = split_fields(s);
        proof {
            assert(fs@.len() == views(fs@).len());
        }
        entry_of_fields(fs)
    }

    /// The entry as a manifest line.
    pub fn to_line(&self) -> (r: String)
        ensures
            r@ == entry_line(self.target@, self.asset@),
    {
        let mut r = self.target.clone();
        r.append("  ");
        r.append(self.asset.as_str());
        proof {
            reveal_strlit("  ");
            assert(r@ =~= entry_line(self.target@, self.asset@));
        }
        r
    }
}

impl Manifest {
    /// Parses manifest text: each line that is not blank holds a target name
    /// and an asset file name.
    pub fn from_bytes(name: String, input: &[u8]) -> (r: Result<Manifest, Error>)
        ensures
            !valid_utf8(input@) ==> r matches Err(Error::Utf8(_)),
            valid_utf8(input@) ==> match parse_lines(lines(decode_utf8(input@))) {
                Ok(es) => (r matches Ok(m) && m.name@ == name@ && entry_views(m.entries@) == es),
                Err(x) => (r matches Err(Error::Manifest(y)) && y == x),
            },
    {
        let text = match utf8_text(input) {
            Ok(t) => t,
            Err(e) => {
                return Err(Error::Utf8(e));
            },
        };
        let cs = chars_of(text);
        let n = cs.len();
        let mut entries: Vec<ManifestEntry> = Vec::new();
        let mut start: usize = 0;
        let mut i: usize = 0;
        proof {
            assert(cs@.subrange(0, 0) =~= Seq::<char>::empty());
            assert(cs@.subrange(0, 0) =~= cs@.subrange(0, 0));
            assert(split_on('\n', Seq::<char>::empty()).drop_last() =~= Seq::<Seq<char>>::empty());
            assert(entry_views(entries@) =~= Seq::<(Seq<char>, Seq<char>)>::empty());
            assert(split_on('\n', Seq::<char>::empty()).last() =~= cs@.subrange(0, 0));
        }
        while i < n
            invariant
                n == cs@.len(),
                cs@ == text@,
                valid_utf8(input@),
                text@ == decode_utf8(input@),
                start <= i <= n,
                split_on('\n', cs@.subrange(0, i as int)).len() >= 1,
                split_on('\n', cs@.subrange(0, i as int)).last() == cs@.subrange(start as int, i as int),
                parse_lines(split_on('\n', cs@.subrange(0, i as int)).drop_last()) == Ok::<
                    Seq<(Seq<char>, Seq<char>)>,
                    ManifestEntryParseError,
                >(entry_views(entries@)),
            decreases n - i,
        {
            let c = cs[i];
            let ghost pre = cs@.subrange(0, i as int);
            let ghost pp = split_on('\n', pre);
            proof {
                assert(cs@.subrange(0, i + 1).drop_last() =~= pre);
                assert(cs@.subrange(0, i + 1).last() == c);
            }
            if c == '\n' {
                let line = text.substring_char(start, i);
                let fs = split_fields(line);
                proof {
                    assert(split_on('\n', cs@.subrange(0, i + 1)).drop_last() =~= pp);
                    assert(pp.drop_last().push(pp.last()) =~= pp);
                    assert(fs@.len() == views(fs@).len());
                }
                if fs.len() > 0 {
                    match entry_of_fields(fs) {
                        Ok(e) => {
                            let ghost before = entries@;
                            entries.push(e);
                            proof {
                                assert(entries@.drop_last() =~= before);
                                assert(entry_views(entries@) =~= entry_views(before).push(
                                    (entries@.last().target@, entries@.last().asset@),
                                ));
                            }
                        },
                        Err(x) => {
                            proof {
                                let done = split_on('\n', cs@.subrange(0, i + 1)).drop_last();
                                assert(parse_lines(done) == Err::<
                                    Seq<(Seq<char>, Seq<char>)>,
                                    ManifestEntryParseError,
                                >(x));
                                lemma_lines_prefix(cs@, i + 1);
                                lemma_parse_error_stays(lines(cs@), done.len() as int);
                            }
                            return Err(Error::Manifest(x));
                        },
                    }
                }
                start = i + 1;
                proof {
                    assert(cs@.subrange(start as int, i + 1) =~= Seq::<char>::empty());
                }
            } else {
                proof {
                    let q = split_on('\n', cs@.subrange(0, i + 1));
                    assert(q.drop_last() =~= pp.drop_last());
                    assert(cs@.subrange(start as int, i + 1) =~= cs@.subrange(start as int, i as int).push(c));
                }
            }
            i = i + 1;
        }
        proof {
            assert(cs@.subrange(0, n as int) =~= cs@);
        }
        if start < n {
            let line = text.substring_char(start, n);
            let fs = split_fields(line);
            proof {
                let pp = split_on('\n', cs@);
                assert(pp.drop_last().push(pp.last()) =~= pp);
                assert(fs@.len() == views(fs@).len());
            }
            if fs.len() > 0 {
                match entry_of_fields(fs) {
                    Ok(e) => {
                        let ghost before = entries@;
                        entries.push(e);
                        proof {
                            assert(entries@.drop_last() =~= before);
                            assert(entry_views(entries@) =~= entry_views(before).push(
                                (entries@.last().target@, entries@.last().asset@),
                            ));
                        }
                    },
                    Err(x) => {
                        return Err(Error::Manifest(x));
                    },
                }
            }
        }
        Ok(Manifest { name, entries })
    }
}

/// A manifest line written by `to_line` reads back as the same entry,
/// for names that hold no whitespace.
pub proof fn lemma_entry_line_round_trip(target: Seq<char>, asset: Seq<char>)
    requires
        target.len() > 0,
        asset.len() > 0,
        forall|i: int| 0 <= i < target.len() ==> !is_ascii_ws(#[trigger] target[i]),
        forall|i: int| 0 <= i < asset.len() ==> !is_ascii_ws(#[trigger] asset[i]),
    ensures
        line_entry(entry_line(target, asset)) == Some(
            Ok::<(Seq<char>, Seq<char>), ManifestEntryParseError>((target, asset)),
        ),
{
    let e = Seq::<char>::empty();
    lemma_fields_append_word(e, target);
    assert(e + target =~= target);
    let t1 = target.push(' ');
    let t2 = t1.push(' ');
    lemma_fields_append_ws(target, ' ');
    lemma_fields_append_ws(t1, ' ');
    lemma_fields_append_word(t2, asset);
    assert(t2 + asset =~= entry_line(target, asset));
    assert(fields(entry_line(target, asset)) =~= seq![target, asset]);
}

pub const DEFAULT_DOMAIN: &'static str = "api.github.com";

pub const ENTERPRISE_API_PATH: &'static str = "/api/v3";

pub const AUTHORIZATION: &'static str = "authorization";

pub const ETAG: &'static str = "etag";

/// The media type asked for on every request.
pub const ACCEPT_JSON: &'static str = "application/vnd.github.v3+json";

/// The media type asked for where the body of an asset is wanted.
pub const ACCEPT_OCTET_STREAM: &'static str = "application/octet-stream";

/// A character that may stand in an HTTP header value: its UTF-8 bytes are
/// each a tab, or at least 32 and not 127.
pub open spec fn header_char_ok(c: char) -> bool {
    (c as u32 >= 32 && c as u32 != 127) || c == '\t'
}

pub open spec fn header_value_ok(s: Seq<char>) -> bool {
    forall|i: int| 0 <= i < s.len() ==> header_char_ok(#[trigger] s[i])
}

pub fn is_header_value(s: &str) -> (r: bool)
    ensures
        r == header_value_ok(s@),
{
    let cs = chars_of(s);
    let n = cs.len();
    let mut i: usize = 0;
    while i < n
        invariant
            n == cs@.len(),
            cs@ == s@,
            i <= n,
            forall|j: int| 0 <= j < i ==> header_char_ok(#[trigger] cs@[j]),
        decreases n - i,
    {
        let c = cs[i];
        if !((c as u32 >= 32 && c as u32 != 127) || c == '\t') {
            return false;
        }
        i = i + 1;
    }
    true
}

/// The value of the authorization header for a token.
pub open spec fn token_header(oauth_token: Seq<char>) -> Seq<char> {
    "token "@ + oauth_token
}

/// `https://{domain}{path}`, then `?{query}` where there is a query.
pub open spec fn url_of(domain: Seq<char>, path: Seq<char>, query: Option<Seq<char>>) -> Seq<char> {
    match query {
        Some(q) => "https://"@ + domain + path + "?"@ + q,
        None => "https://"@ + domain + path,
    }
}

pub open spec fn releases_path(owner: Seq<char>, name: Seq<char>) -> Seq<char> {
    "/repos/"@ + owner + "/"@ + name + "/releases"@
}

pub open spec fn latest_release_path(owner: Seq<char>, name: Seq<char>) -> Seq<char> {
    releases_path(owner, name) + "/latest"@
}

pub open spec fn asset_path(owner: Seq<char>, name: Seq<char>, asset_id: u64) -> Seq<char> {
    releases_path(owner, name) + "/assets/"@ + decimal(asset_id as nat)
}

/// What a request to the upstream is addressed to and carries: the API root
/// and the authorization header value.
pub struct Client {
    domain: String,
    authorization: String,
}

impl Client {
    pub closed spec fn spec_domain(&self) -> Seq<char> {
        self.domain@
    }

    pub closed spec fn spec_authorization(&self) -> Seq<char> {
        self.authorization@
    }

    fn with_domain(domain: String, oauth_token: &str) -> (r: Result<Client, Error>)
        ensures
            header_value_ok(token_header(oauth_token@)) ==> (r matches Ok(c) && c.spec_domain()
                == domain@ && c.spec_authorization() == token_header(oauth_token@)),
            !header_value_ok(token_header(oauth_token@)) ==> r == Err::<Client, Error>(
                Error::InvalidHeaderValue(AUTHORIZATION),
            ),
    {
        let mut authorization = String::from_str("token ");
        authorization.append(oauth_token);
        if is_header_value(authorization.as_str()) {
            Ok(Client { domain, authorization })
        } else {
            Err(Error::InvalidHeaderValue(AUTHORIZATION))
        }
    }

    /// A client of the public API, `api.github.com`.
    pub fn build(oauth_token: &str) -> (r: Result<Client, Error>)
        ensures
            header_value_ok(token_header(oauth_token@)) ==> (r matches Ok(c) && c.spec_domain()
                == DEFAULT_DOMAIN@ && c.spec_authorization() == token_header(oauth_token@)),
            !header_value_ok(token_header(oauth_token@)) ==> r == Err::<Client, Error>(
                Error::InvalidHeaderValue(AUTHORIZATION),
            ),
    {
        Client::with_domain(String::from_str(DEFAULT_DOMAIN), oauth_token)
    }

    /// A client of an Enterprise server, whose API root is
    /// `{domain}/api/v3`.
    pub fn build_for_enterprise(domain: &str, oauth_token: &str) -> (r: Result<Client, Error>)
        ensures
            header_value_ok(token_header(oauth_token@)) ==> (r matches Ok(c) && c.spec_domain()
                == domain@ + ENTERPRISE_API_PATH@ && c.spec_authorization() == token_header(
                oauth_token@,
            )),
            !header_value_ok(token_header(oauth_token@)) ==> r == Err::<Client, Error>(
                Error::InvalidHeaderValue(AUTHORIZATION),
            ),
    {
        let mut d = String::from_str(domain);
        d.append(ENTERPRISE_API_PATH);
        Client::with_domain(d, oauth_token)
    }

    pub fn domain(&self) -> (r: &str)
        ensures
            r@ == self.spec_domain(),
    {
        self.domain.as_str()
    }

    /// The value of the authorization header of every request.
    pub fn authorization(&self) -> (r: &str)
        ensures
            r@ == self.spec_authorization(),
    {
        self.authorization.as_str()
    }

    pub fn url(&self, path: &str, query: Option<&str>) -> (r: String)
        ensures
            r@ == url_of(
                self.spec_domain(),
                path@,
                match query {
                    Some(q) => Some(q@),
                    None => None,
                },
            ),
    {
        let mut url = String::from_str("https://");
        url.append(self.domain.as_str());
        url.append(path);
        match query {
            Some(q) => {
                url.append("?");
                url.append(q);
            },
            None => {},
        }
        url
    }

    /// Where the list of releases of `owner/name` is asked for.
    pub fn releases_url(&self, owner: &str, name: &str) -> (r: String)
        ensures
            r@ == url_of(self.spec_domain(), releases_path(owner@, name@), None),
    {
        let path = releases_path_text(owner, name);
        self.url(path.as_str(), None)
    }

    /// Where the latest release of `owner/name` is asked for.
    pub fn latest_release_url(&self, owner: &str, name: &str) -> (r: String)
        ensures
            r@ == url_of(self.spec_domain(), latest_release_path(owner@, name@), None),
    {
        let mut path = releases_path_text(owner, name);
        path.append("/latest");
        self.url(path.as_str(), None)
    }

    /// Where the body of the asset `asset_id` of `owner/name` is asked for.
    pub fn manifest_url(&self, owner: &str, name: &str, asset_id: u64) -> (r: String)
        ensures
            r@ == url_of(self.spec_domain(), asset_path(owner@, name@, asset_id), None),
    {
        let mut path = releases_path_text(owner, name);
        path.append("/assets/");
        push_decimal(&mut path, asset_id);
        self.url(path.as_str(), None)
    }
}

impl Clone for Client {
    fn clone(&self) -> (r: Client)
        ensures
            r.spec_domain() == self.spec_domain(),
            r.spec_authorization() == self.spec_authorization(),
    {
        Client { domain: self.domain.clone(), authorization: self.authorization.clone() }
    }
}

fn releases_path_text(owner: &str, name: &str) -> (r: String)
    ensures
        r@ == releases_path(owner@, name@),
{
    let mut path = String::from_str("/repos/");
    path.append(owner);
    path.append("/");
    path.append(name);
    path.append("/releases");
    path
}

/// The `If-None-Match` header value for a prior entity-tag, if there is one.
pub fn if_none_match(etag: Option<&ETag>) -> (r: Result<Option<String>, Error>)
    ensures
        etag is None ==> r matches Ok(None),
        etag matches Some(e) ==> (header_value_ok(e@) ==> (r matches Ok(Some(v)) && v@ == e@)),
        etag matches Some(e) ==> (!header_value_ok(e@) ==> r == Err::<Option<String>, Error>(
            Error::InvalidHeaderValue(ETAG),
        )),
{
    match etag {
        None => Ok(None),
        Some(e) => {
            if is_header_value(e.as_str()) {
                Ok(Some(String::from_str(e.as_str())))
            } else {
                Err(Error::InvalidHeaderValue(ETAG))
            }
        },
    }
}

/// How the status of an answer is handled.
#[derive(PartialEq, Eq, Structural, Debug)]
pub enum StatusClass {
    /// 304: the resource is unchanged; no body is read.
    NotModified,
    /// 2xx: the body is decoded.
    Success,
    /// 404.
    NotFound,
    /// Anything else: the body describes the failure.
    Failure,
}

/// The class of a status of an answer to a conditional request.
pub fn classify_status(status: u16) -> (r: StatusClass)
    ensures
        status == 304 ==> r == StatusClass::NotModified,
        200 <= status <= 299 ==> r == StatusClass::Success,
        status == 404 ==> r == StatusClass::NotFound,
        status != 304 && !(200 <= status <= 299) && status != 404 ==> r == StatusClass::Failure,
{
    if status == 304 {
        StatusClass::NotModified
    } else if 200 <= status && status <= 299 {
        StatusClass::Success
    } else if status == 404 {
        StatusClass::NotFound
    } else {
        StatusClass::Failure
    }
}

/// Whether the body of an answer to a download is the asset itself (2xx),
/// rather than a description of a failure.
pub fn is_success(status: u16) -> (r: bool)
    ensures
        r == (200 <= status <= 299),
{
    200 <= status && status <= 299
}

/// The outcome of a conditional request.
pub enum Fetched<T> {
    /// 304: nothing changed since the entity-tag that was sent.
    NotModified,
    /// The resource, with its new entity-tag.
    Modified(Response<T>),
    /// 404.
    NotFound,
    /// Anything else that went wrong.
    Failed(Error),
}

} // verus!
