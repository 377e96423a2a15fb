//! Parameters that arrive with a request.

use vstd::prelude::*;

verus! {

/// The query of a request that closes an upload: the digest its content must have.
#[derive(Debug, Clone)]
pub struct QueryParams {
    digest: String,
}

impl QueryParams {
    /// The digest that the request claims.
    pub closed spec fn claimed(&self) -> Seq<char> {
        self.digest@
    }

    pub fn new(digest: String) -> (r: Self)
        ensures
            r.claimed() == digest@,
    {
        QueryParams { digest }
    }

    pub fn digest(&self) -> (r: &str)
        ensures
            r@ == self.claimed(),
    {
        self.digest.as_str()
    }
}

} // verus!
