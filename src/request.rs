//! Response definitions as written in a spec file, and the same paired
//! with the URL path that they answer on.
use vstd::prelude::*;

verus! {

/// One response definition of a spec file. Its header names are distinct
/// (see `well_formed`), as the keys of the mapping they are read from.
pub struct Request {
    pub description: String,
    pub method: String,
    pub headers: Option<Vec<(String, String)>>,
    pub raw_body: Option<String>,
    pub status_code: Option<u16>,
    pub file: Option<String>,
    pub sleep: Option<u64>,
}

/// The header pairs of a definition; none given means none.
pub open spec fn header_list(h: Option<Vec<(String, String)>>) -> Seq<(String, String)> {
    match h {
        Some(v) => v@,
        None => Seq::empty(),
    }
}

/// No two header pairs share a name.
pub open spec fn distinct_names(s: Seq<(String, String)>) -> bool {
    forall|i: int, j: int| 0 <= i < j < s.len() ==> (#[trigger] s[i]).0@ != (#[trigger] s[j]).0@
}

impl Request {
    /// The header names of the definition are distinct.
    pub open spec fn well_formed(&self) -> bool {
        distinct_names(header_list(self.headers))
    }
}

/// A response definition together with the full URL path it is served on.
pub struct RequestWithMetadata {
    pub inner: Request,
    pub full_path: String,
}

/// A copy of a list of header pairs.
pub fn copy_pairs(v: &Vec<(String, String)>) -> (r: Vec<(String, String)>)
    ensures
        r@ == v@,
{
    let mut r: Vec<(String, String)> = Vec::new();
    let mut i: usize = 0;
    while i < v.len()
        invariant
            i <= v@.len(),
            r@ == v@.subrange(0, i as int),
        decreases v@.len() - i,
    {
        let pair = (v[i].0.clone(), v[i].1.clone());
        r.push(pair);
        assert(v@.subrange(0, i + 1) =~= v@.subrange(0, i as int).push(v@[i as int]));
        i = i + 1;
    }
    assert(v@.subrange(0, v@.len() as int) =~= v@);
    r
}

fn copy_text(s: &Option<String>) -> (r: Option<String>)
    ensures
        r == *s,
{
    match s {
        Some(t) => Some(t.clone()),
        None => None,
    }
}

impl RequestWithMetadata {
    pub fn new(request: Request, full_path: String) -> (r: RequestWithMetadata)
        ensures
            r.inner == request,
            r.full_path == full_path,
    {
        RequestWithMetadata { inner: request, full_path }
    }

    pub fn method(&self) -> (r: &str)
        ensures
            r@ == self.inner.method@,
    {
        self.inner.method.as_str()
    }

    pub fn path(&self) -> (r: &str)
        ensures
            r@ == self.full_path@,
    {
        self.full_path.as_str()
    }

    pub fn status_code(&self) -> (r: Option<u16>)
        ensures
            r == self.inner.status_code,
    {
        self.inner.status_code
    }

    pub fn headers(&self) -> (r: Vec<(String, String)>)
        ensures
            r@ == header_list(self.inner.headers),
    {
        match &self.inner.headers {
            Some(v) => copy_pairs(v),
            None => Vec::new(),
        }
    }

    pub fn raw_body(&self) -> (r: Option<String>)
        ensures
            r == self.inner.raw_body,
    {
        copy_text(&self.inner.raw_body)
    }

    pub fn file(&self) -> (r: Option<String>)
        ensures
            r == self.inner.file,
    {
        copy_text(&self.inner.file)
    }

    pub fn sleep(&self) -> (r: u64)
        ensures
            r == self.inner.sleep.unwrap_or(0),
    {
        match self.inner.sleep {
            Some(ms) => ms,
            None => 0,
        }
    }
}

} // verus!
