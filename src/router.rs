//! The route table: compiling response definitions into routes, looking up
//! a request's route, and the steps that answer it.
use crate::request::{distinct_names, header_list, Request, RequestWithMetadata};
use crate::text::same_text;
use crate::wire::{
    default_status, header_name_accepted, header_name_is_valid, header_value_accepted,
    header_value_is_valid, method_accepted, method_is_valid, status_from_code, status_in_range,
};
use vstd::prelude::*;

verus! {

/// Status of the reply to a request whose body file cannot be opened.
pub const INTERNAL_ERROR: u16 = 500;

/// Where the body of a response comes from.
#[derive(Debug, PartialEq, Eq)]
pub enum BodySource {
    /// The text itself.
    Raw(String),
    /// The bytes of the file at this path, read when a request comes.
    File(String),
}

/// Everything needed to answer a request on a route.
#[derive(Debug, PartialEq, Eq)]
pub struct Handler {
    pub headers: Vec<(String, String)>,
    pub status: u16,
    pub body: BodySource,
    pub sleep: u64,
}

/// A compiled route: method and path, and the handler that answers there.
#[derive(Debug, PartialEq, Eq)]
pub struct Route {
    pub method: String,
    pub path: String,
    pub handler: Handler,
}

/// A method in a definition that the HTTP library does not accept.
#[derive(Debug, PartialEq, Eq)]
pub struct InvalidMethod {
    pub method: String,
}

/// All routes, in the order they were added.
pub struct RouteTable {
    routes: Vec<Route>,
}

pub open spec fn key_of(r: Route) -> (Seq<char>, Seq<char>) {
    (r.method@, r.path@)
}

/// The handler each key leads to: a route added later replaces an earlier
/// one with the same method and path.
pub open spec fn table_map(s: Seq<Route>) -> Map<(Seq<char>, Seq<char>), Handler>
    decreases s.len(),
{
    if s.len() == 0 {
        Map::empty()
    } else {
        table_map(s.drop_last()).insert(key_of(s.last()), s.last().handler)
    }
}

/// The body source of a definition: its text if it has one, else its file.
pub open spec fn body_of(q: Request) -> Option<BodySource> {
    match q.raw_body {
        Some(b) => Some(BodySource::Raw(b)),
        None => match q.file {
            Some(f) => Some(BodySource::File(f)),
            None => None,
        },
    }
}

pub open spec fn header_kept(p: (String, String)) -> bool {
    header_name_accepted(p.0@) && header_value_accepted(p.1@)
}

/// The header pairs that the HTTP library accepts, in their order.
pub open spec fn accepted_headers(s: Seq<(String, String)>) -> Seq<(String, String)>
    decreases s.len(),
{
    if s.len() == 0 {
        Seq::empty()
    } else if header_kept(s.last()) {
        accepted_headers(s.drop_last()).push(s.last())
    } else {
        accepted_headers(s.drop_last())
    }
}

/// The status of a definition: 200 when none is given or when the given
/// one is out of range.
pub open spec fn effective_status(code: Option<u16>) -> u16 {
    let c = code.unwrap_or(200);
    if status_in_range(c) {
        c
    } else {
        200
    }
}

/// Whether `h` is the handler compiled from the definition `q`.
pub open spec fn handles(q: RequestWithMetadata, h: Handler) -> bool {
    &&& body_of(q.inner) == Some(h.body)
    &&& h.headers@ == accepted_headers(header_list(q.inner.headers))
    &&& h.status == effective_status(q.inner.status_code)
    &&& h.sleep == q.inner.sleep.unwrap_or(0)
}

/// The method and path a definition answers on.
pub open spec fn definition_key(q: RequestWithMetadata) -> (Seq<char>, Seq<char>) {
    (q.inner.method@, q.full_path@)
}

/// Whether `r` is the route compiled from the definition `q`.
pub open spec fn compiles_to(q: RequestWithMetadata, r: Route) -> bool {
    &&& key_of(r) == definition_key(q)
    &&& handles(q, r.handler)
}

pub open spec fn has_body(q: RequestWithMetadata) -> bool {
    body_of(q.inner) is Some
}

/// The definitions that become routes: those with a body source.
pub open spec fn served(s: Seq<RequestWithMetadata>) -> Seq<RequestWithMetadata>
    decreases s.len(),
{
    if s.len() == 0 {
        Seq::empty()
    } else if has_body(s.last()) {
        served(s.drop_last()).push(s.last())
    } else {
        served(s.drop_last())
    }
}

/// A definition with a body source whose method is refused.
pub open spec fn bad_method_at(s: Seq<RequestWithMetadata>, i: int) -> bool {
    0 <= i < s.len() && has_body(s[i]) && !method_accepted(s[i].inner.method@)
}

/// `out` holds the routes of `base` followed by one route for each
/// definition of `qs` that has a body source, in order.
pub open spec fn extends_with(
    base: Seq<Route>,
    qs: Seq<RequestWithMetadata>,
    out: Seq<Route>,
) -> bool {
    &&& out.len() == base.len() + served(qs).len()
    &&& out.subrange(0, base.len() as int) == base
    &&& forall|i: int|
        0 <= i < served(qs).len() ==> #[trigger] compiles_to(served(qs)[i], out[base.len() + i])
}

/// The header pairs of `h` that the HTTP library accepts.
pub fn response_headers(h: &Vec<(String, String)>) -> (r: Vec<(String, String)>)
    ensures
        r@ == accepted_headers(h@),
{
    let mut r: Vec<(String, String)> = Vec::new();
    let mut i: usize = 0;
    while i < h.len()
        invariant
            i <= h@.len(),
            r@ == accepted_headers(h@.subrange(0, i as int)),
        decreases h@.len() - i,
    {
        let ghost prefix = h@.subrange(0, i + 1);
        assert(prefix.drop_last() =~= h@.subrange(0, i as int));
        assert(prefix.last() == h@[i as int]);
        if header_name_is_valid(h[i].0.as_str()) && header_value_is_valid(h[i].1.as_str()) {
            r.push((h[i].0.clone(), h[i].1.clone()));
        }
        i = i + 1;
    }
    assert(h@.subrange(0, h@.len() as int) =~= h@);
    r
}

/// The status that a definition's code stands for.
pub fn response_status(code: Option<u16>) -> (r: u16)
    ensures
        r == effective_status(code),
{
    let c = match code {
        Some(c) => c,
        None => 200,
    };
    match status_from_code(c) {
        Some(s) => s,
        None => default_status(),
    }
}

/// The route of one definition, or none when it names neither a body text
/// nor a body file.
pub fn compile_route(q: &RequestWithMetadata) -> (r: Option<Route>)
    ensures
        r is None <==> !has_body(*q),
        r matches Some(route) ==> compiles_to(*q, route),
{
    let body = match q.raw_body() {
        Some(b) => BodySource::Raw(b),
        None => match q.file() {
            Some(f) => BodySource::File(f),
            None => {
                return None;
            },
        },
    };
    let headers = q.headers();
    let handler = Handler {
        headers: response_headers(&headers),
        status: response_status(q.status_code()),
        body,
        sleep: q.sleep(),
    };
    Some(Route { method: q.inner.method.clone(), path: q.full_path.clone(), handler })
}

pub proof fn lemma_served_step(s: Seq<RequestWithMetadata>, i: int)
    requires
        0 <= i < s.len(),
    ensures
        served(s.subrange(0, i + 1)) == (if has_body(s[i]) {
            served(s.subrange(0, i)).push(s[i])
        } else {
            served(s.subrange(0, i))
        }),
{
    let p = s.subrange(0, i + 1);
    assert(p.drop_last() =~= s.subrange(0, i));
    assert(p.last() == s[i]);
}

/// Adds one route to `table` for each definition of `routes` that has a
/// body source, in order. Fails when such a definition names a method that
/// the HTTP library refuses.
pub fn add_routes(table: RouteTable, routes: Vec<RequestWithMetadata>) -> (r: Result<
    RouteTable,
    InvalidMethod,
>)
    ensures
        r is Err <==> exists|i: int| bad_method_at(routes@, i),
        r matches Err(e) ==> exists|i: int|
            bad_method_at(routes@, i) && routes@[i].inner.method@ == e.method@ && forall|j: int|
                0 <= j < i ==> !bad_method_at(routes@, j),
        r matches Ok(t) ==> extends_with(table.entries(), routes@, t.entries()),
{
    let ghost qs = routes@;
    let ghost base = table.entries();
    let mut out = table.routes;
    let mut i: usize = 0;
    assert(qs.subrange(0, 0) =~= Seq::<RequestWithMetadata>::empty());
    assert(out@.subrange(0, base.len() as int) =~= base);
    while i < routes.len()
        invariant
            qs == routes@,
            i <= qs.len(),
            forall|j: int| 0 <= j < i ==> !bad_method_at(qs, j),
            extends_with(base, qs.subrange(0, i as int), out@),
        decreases qs.len() - i,
    {
        proof {
            lemma_served_step(qs, i as int);
        }
        let ghost before = out@;
        match compile_route(&routes[i]) {
            None => {},
            Some(route) => {
                if !method_is_valid(route.method.as_str()) {
                    assert(bad_method_at(qs, i as int));
                    return Err(InvalidMethod { method: route.method });
                }
                out.push(route);
                assert(out@.subrange(0, base.len() as int) =~= before.subrange(
                    0,
                    base.len() as int,
                ));
                let ghost sv = served(qs.subrange(0, i + 1));
                assert forall|k: int| 0 <= k < sv.len() implies #[trigger] compiles_to(
                    sv[k],
                    out@[base.len() + k],
                ) by {
                    if k < sv.len() - 1 {
                        assert(sv[k] == served(qs.subrange(0, i as int))[k]);
                    }
                };
            },
        }
        i = i + 1;
    }
    assert(qs.subrange(0, qs.len() as int) =~= qs);
    Ok(RouteTable { routes: out })
}

pub proof fn lemma_last_match(s: Seq<Route>, k: int, key: (Seq<char>, Seq<char>))
    requires
        0 <= k < s.len(),
        key_of(s[k]) == key,
        forall|j: int| k < j < s.len() ==> key_of(#[trigger] s[j]) != key,
    ensures
        table_map(s).contains_key(key),
        table_map(s)[key] == s[k].handler,
    decreases s.len(),
{
    if k < s.len() - 1 {
        let d = s.drop_last();
        assert forall|j: int| k < j < d.len() implies key_of(#[trigger] d[j]) != key by {
            assert(d[j] == s[j]);
        };
        lemma_last_match(d, k, key);
        assert(key_of(s[s.len() - 1]) != key);
    }
}

pub proof fn lemma_no_match(s: Seq<Route>, key: (Seq<char>, Seq<char>))
    requires
        forall|j: int| 0 <= j < s.len() ==> key_of(#[trigger] s[j]) != key,
    ensures
        !table_map(s).contains_key(key),
    decreases s.len(),
{
    if s.len() > 0 {
        let d = s.drop_last();
        assert forall|j: int| 0 <= j < d.len() implies key_of(#[trigger] d[j]) != key by {
            assert(d[j] == s[j]);
        };
        lemma_no_match(d, key);
        assert(key_of(s[s.len() - 1]) != key);
    }
}

impl RouteTable {
    /// The routes, in the order they were added.
    pub closed spec fn entries(&self) -> Seq<Route> {
        self.routes@
    }

    /// The handler each method and path leads to.
    pub open spec fn lookup(&self) -> Map<(Seq<char>, Seq<char>), Handler> {
        table_map(self.entries())
    }

    pub fn new() -> (r: RouteTable)
        ensures
            r.entries() == Seq::<Route>::empty(),
    {
        RouteTable { routes: Vec::new() }
    }

    pub fn routes(&self) -> (r: &Vec<Route>)
        ensures
            r@ == self.entries(),
    {
        &self.routes
    }

    /// The handler for a request with this method and path: the route added
    /// last among those with exactly this method and path.
    pub fn resolve(&self, method: &str, path: &str) -> (r: Option<&Handler>)
        ensures
            match r {
                Some(h) => self.lookup().contains_key((method@, path@)) && *h == self.lookup()[(
                    method@,
                    path@,
                )],
                None => !self.lookup().contains_key((method@, path@)),
            },
    {
        let ghost key = (method@, path@);
        let mut i: usize = self.routes.len();
        while i > 0
            invariant
                key == (method@, path@),
                i <= self.routes@.len(),
                forall|j: int| i <= j < self.routes@.len() ==> key_of(#[trigger] self.routes@[j]) != key,
            decreases i,
        {
            let route = &self.routes[i - 1];
            let same_method = same_text(route.method.as_str(), method);
            let same_path = same_text(route.path.as_str(), path);
            if same_method && same_path {
                proof {
                    lemma_last_match(self.routes@, i - 1, key);
                }
                return Some(&route.handler);
            }
            i = i - 1;
        }
        proof {
            lemma_no_match(self.routes@, key);
        }
        None
    }
}

proof fn lemma_served_all(s: Seq<RequestWithMetadata>)
    requires
        forall|i: int| 0 <= i < s.len() ==> has_body(#[trigger] s[i]),
    ensures
        served(s) == s,
    decreases s.len(),
{
    if s.len() > 0 {
        let d = s.drop_last();
        assert forall|i: int| 0 <= i < d.len() implies has_body(#[trigger] d[i]) by {
            assert(d[i] == s[i]);
        };
        lemma_served_all(d);
        assert(has_body(s[s.len() - 1]));
        assert(d.push(s.last()) =~= s);
    }
}

proof fn lemma_served_from(s: Seq<RequestWithMetadata>, k: int)
    requires
        0 <= k < served(s).len(),
    ensures
        has_body(served(s)[k]),
        exists|i: int| 0 <= i < s.len() && s[i] == served(s)[k],
    decreases s.len(),
{
    let d = s.drop_last();
    if has_body(s.last()) && k == served(s).len() - 1 {
        assert(s[s.len() - 1] == served(s)[k]);
    } else {
        assert(served(s)[k] == served(d)[k]);
        lemma_served_from(d, k);
        let i = choose|i: int| 0 <= i < d.len() && d[i] == served(d)[k];
        assert(s[i] == d[i]);
    }
}

proof fn lemma_present(s: Seq<Route>, j: int)
    requires
        0 <= j < s.len(),
    ensures
        table_map(s).contains_key(key_of(s[j])),
    decreases s.len(),
{
    if j < s.len() - 1 {
        assert(s.drop_last()[j] == s[j]);
        lemma_present(s.drop_last(), j);
    }
}

/// Compiling definitions that all have a body source, each paired with the
/// same URL path `p`, adds exactly one route per definition, in order, keyed
/// by the definition's method and `p`.
pub proof fn one_route_per_definition(
    base: Seq<Route>,
    qs: Seq<RequestWithMetadata>,
    out: Seq<Route>,
    p: Seq<char>,
)
    requires
        extends_with(base, qs, out),
        forall|i: int| 0 <= i < qs.len() ==> has_body(#[trigger] qs[i]),
        forall|i: int| 0 <= i < qs.len() ==> (#[trigger] qs[i]).full_path@ == p,
    ensures
        out.len() == base.len() + qs.len(),
        forall|i: int|
            0 <= i < qs.len() ==> key_of(#[trigger] out[base.len() + i]) == (qs[i].inner.method@, p),
{
    lemma_served_all(qs);
    assert forall|i: int| 0 <= i < qs.len() implies key_of(#[trigger] out[base.len() + i]) == (
        qs[i].inner.method@,
        p,
    ) by {
        assert(compiles_to(served(qs)[i], out[base.len() + i]));
    };
}

/// Of two routes with the same method and path, the one added later is
/// the one a lookup finds.
pub proof fn later_route_wins(s: Seq<Route>, first: Route, second: Route)
    requires
        key_of(first) == key_of(second),
    ensures
        table_map(s.push(first).push(second)).contains_key(key_of(second)),
        table_map(s.push(first).push(second))[key_of(second)] == second.handler,
{
    assert(s.push(first).push(second).drop_last() =~= s.push(first));
}

/// A method and path whose definitions all lack a body source gets no
/// route: a lookup there finds nothing, unless the table already had it.
pub proof fn bodiless_definitions_absent(
    base: Seq<Route>,
    qs: Seq<RequestWithMetadata>,
    out: Seq<Route>,
    key: (Seq<char>, Seq<char>),
)
    requires
        extends_with(base, qs, out),
        !table_map(base).contains_key(key),
        forall|i: int|
            0 <= i < qs.len() && definition_key(#[trigger] qs[i]) == key ==> !has_body(qs[i]),
    ensures
        !table_map(out).contains_key(key),
{
    assert forall|j: int| 0 <= j < base.len() implies key_of(#[trigger] base[j]) != key by {
        if key_of(base[j]) == key {
            lemma_present(base, j);
        }
    };
    assert forall|j: int| 0 <= j < out.len() implies key_of(#[trigger] out[j]) != key by {
        if j < base.len() {
            assert(out[j] == out.subrange(0, base.len() as int)[j]);
        } else {
            let k = j - base.len();
            assert(compiles_to(served(qs)[k], out[base.len() + k]));
            lemma_served_from(qs, k);
        }
    };
    lemma_no_match(out, key);
}

proof fn lemma_served_concat(a: Seq<RequestWithMetadata>, b: Seq<RequestWithMetadata>)
    ensures
        served(a + b) == served(a) + served(b),
    decreases b.len(),
{
    if b.len() == 0 {
        assert(a + b =~= a);
        assert(served(a) + served(b) =~= served(a));
    } else {
        lemma_served_concat(a, b.drop_last());
        assert((a + b).drop_last() =~= a + b.drop_last());
        assert((a + b).last() == b.last());
        if has_body(b.last()) {
            assert(served(a) + served(b.drop_last()).push(b.last()) =~= (served(a) + served(
                b.drop_last(),
            )).push(b.last()));
        }
    }
}

/// Where two definitions answer on the same method and path, the one
/// compiled later is what a lookup finds: the definition at `j` has a body
/// source and no definition after it with a body source shares its method
/// and path.
pub proof fn later_definition_wins(
    base: Seq<Route>,
    qs: Seq<RequestWithMetadata>,
    out: Seq<Route>,
    j: int,
)
    requires
        extends_with(base, qs, out),
        0 <= j < qs.len(),
        has_body(qs[j]),
        forall|k: int|
            j < k < qs.len() && has_body(#[trigger] qs[k]) ==> definition_key(qs[k])
                != definition_key(qs[j]),
    ensures
        table_map(out).contains_key(definition_key(qs[j])),
        handles(qs[j], table_map(out)[definition_key(qs[j])]),
{
    let key = definition_key(qs[j]);
    let a = qs.subrange(0, j + 1);
    let b = qs.subrange(j + 1, qs.len() as int);
    assert(qs =~= a + b);
    lemma_served_concat(a, b);
    lemma_served_step(qs, j);
    let m = served(a).len() - 1;
    assert(served(qs)[m] == qs[j]);
    let idx = base.len() + m;
    assert(compiles_to(served(qs)[m], out[idx]));
    assert forall|t: int| idx < t < out.len() implies key_of(#[trigger] out[t]) != key by {
        let m2 = t - base.len();
        assert(compiles_to(served(qs)[m2], out[base.len() + m2]));
        let mb = m2 - served(a).len();
        assert(served(qs)[m2] == served(b)[mb]);
        lemma_served_from(b, mb);
        let i = choose|i: int| 0 <= i < b.len() && b[i] == served(b)[mb];
        assert(b[i] == qs[j + 1 + i]);
    };
    lemma_last_match(out, idx, key);
}

proof fn lemma_accepted_from(s: Seq<(String, String)>, k: int)
    requires
        0 <= k < accepted_headers(s).len(),
    ensures
        exists|i: int| 0 <= i < s.len() && s[i] == accepted_headers(s)[k],
    decreases s.len(),
{
    let d = s.drop_last();
    if header_kept(s.last()) && k == accepted_headers(s).len() - 1 {
        assert(s[s.len() - 1] == accepted_headers(s)[k]);
    } else {
        assert(accepted_headers(s)[k] == accepted_headers(d)[k]);
        lemma_accepted_from(d, k);
        let i = choose|i: int| 0 <= i < d.len() && d[i] == accepted_headers(d)[k];
        assert(s[i] == d[i]);
    }
}

/// Dropping the headers the HTTP library refuses keeps header names
/// distinct.
pub proof fn accepted_headers_distinct(s: Seq<(String, String)>)
    requires
        distinct_names(s),
    ensures
        distinct_names(accepted_headers(s)),
    decreases s.len(),
{
    if s.len() > 0 {
        let d = s.drop_last();
        assert forall|i: int, j: int| 0 <= i < j < d.len() implies (#[trigger] d[i]).0@ != (
        #[trigger] d[j]).0@ by {
            assert(d[i] == s[i] && d[j] == s[j]);
        };
        accepted_headers_distinct(d);
        if header_kept(s.last()) {
            let a = accepted_headers(s);
            assert forall|i: int, j: int| 0 <= i < j < a.len() implies (#[trigger] a[i]).0@ != (
            #[trigger] a[j]).0@ by {
                if j == a.len() - 1 {
                    lemma_accepted_from(d, i);
                    let k = choose|k: int| 0 <= k < d.len() && d[k] == accepted_headers(d)[i];
                    assert(s[k] == d[k]);
                    assert(a[i] == accepted_headers(d)[i]);
                    assert(a[j] == s[s.len() - 1]);
                } else {
                    assert(a[i] == accepted_headers(d)[i] && a[j] == accepted_headers(d)[j]);
                }
            };
        }
    }
}

} // verus!
