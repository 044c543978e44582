//! The content of one spec file.
use crate::request::Request;
use vstd::prelude::*;

verus! {

/// A parsed spec file: its API version, its kind tag and its body.
pub struct Endpoint {
    pub api_version: String,
    pub kind: String,
    pub spec: Spec,
}

/// The body of a spec file: the response definitions, in file order.
pub struct Spec {
    pub requests: Vec<Request>,
}

impl Endpoint {
    pub fn request(&self) -> (r: &Vec<Request>)
        ensures
            r@ == self.spec.requests@,
    {
        &self.spec.requests
    }

    pub fn kind(&self) -> (r: String)
        ensures
            r@ == self.kind@,
    {
        self.kind.clone()
    }
}

} // verus!
