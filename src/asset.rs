use vstd::prelude::*;

use crate::names::Named;
use crate::provider::github::transform::{check_uri, uri_accepted};

verus! {

/// A downloadable file of a target: its catalog name and where to fetch it,
/// an address that parses as a URI.
pub struct Asset {
    name: String,
    download_uri: String,
}

pub struct AssetView {
    pub name: Seq<char>,
    pub download_uri: Seq<char>,
}

impl View for Asset {
    type V = AssetView;

    closed spec fn view(&self) -> AssetView {
        AssetView { name: self.name@, download_uri: self.download_uri@ }
    }
}

impl Asset {
    #[verifier::type_invariant]
    spec fn inv(&self) -> bool {
        uri_accepted(self.download_uri@)
    }

    pub fn new(name: String, download_uri: String) -> (r: Asset)
        requires
            uri_accepted(download_uri@),
        ensures
            r@ == (AssetView { name: name@, download_uri: download_uri@ }),
    {
        Asset { name, download_uri }
    }

    /// An asset at `download_uri`, where that parses as a URI.
    pub fn try_new(name: String, download_uri: String) -> (r: Result<Asset, actix_web::http::uri::InvalidUri>)
        ensures
            uri_accepted(download_uri@) ==> (r matches Ok(a) && a@ == (AssetView {
                name: name@,
                download_uri: download_uri@,
            })),
            !uri_accepted(download_uri@) ==> r is Err,
    {
        match check_uri(download_uri.as_str()) {
            Ok(()) => Ok(Asset { name, download_uri }),
            Err(e) => Err(e),
        }
    }

    pub fn name(&self) -> (r: &str)
        ensures
            r@ == self@.name,
    {
        self.name.as_str()
    }

    pub fn download_uri(&self) -> (r: &str)
        ensures
            r@ == self@.download_uri,
            uri_accepted(r@),
    {
        proof {
            use_type_invariant(self);
        }
        self.download_uri.as_str()
    }
}

impl Clone for Asset {
    fn clone(&self) -> (r: Asset)
        ensures
            r == *self,
    {
        proof {
            use_type_invariant(self);
        }
        Asset { name: self.name.clone(), download_uri: self.download_uri.clone() }
    }
}

impl Named for Asset {
    open spec fn key(&self) -> Seq<char> {
        self@.name
    }

    fn key_str(&self) -> (r: &str) {
        self.name.as_str()
    }
}

} // verus!
