use vstd::prelude::*;

verus! {

/// An opaque entity-tag token handed out by an upstream server.
pub struct ETag(pub String);

impl View for ETag {
    type V = Seq<char>;

    open spec fn view(&self) -> Seq<char> {
        self.0@
    }
}

/// The text of an optional token.
pub open spec fn opt_view(e: Option<ETag>) -> Option<Seq<char>> {
    match e {
        Some(t) => Some(t@),
        None => None,
    }
}

impl ETag {
    pub fn new(s: &str) -> (r: ETag)
        ensures
            r@ == s@,
    {
        ETag(s.to_owned())
    }

    pub fn as_str(&self) -> (r: &str)
        ensures
            r@ == self@,
    {
        self.0.as_str()
    }

    /// The text of the token; every string is a valid token.
    pub fn from_str(s: &str) -> (r: Result<ETag, ()>)
        ensures
            r matches Ok(e) && e@ == s@,
    {
        Ok(ETag::new(s))
    }

    pub fn as_ref(&self) -> (r: &str)
        ensures
            r@ == self@,
    {
        self.0.as_str()
    }
}

impl Clone for ETag {
    fn clone(&self) -> (r: ETag)
        ensures
            r == *self,
    {
        ETag(self.0.clone())
    }
}

} // verus!
