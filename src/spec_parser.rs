//! From spec files to response definitions: which files are spec files,
//! the URL path a file stands for, and the definitions each file yields.
use crate::endpoint::Endpoint;
use crate::request::{Request, RequestWithMetadata};
use crate::text::{
    ends_with, has_suffix, lemma_trim_slashes_noop, lemma_trim_slashes_shape, same_text,
    strip_prefix, strip_suffix, trim_slashes, without_prefix, without_suffix,
    without_trailing_slashes,
};
use vstd::prelude::*;

verus! {

/// The kind tag of a spec file that declares responses.
pub const ENDPOINT_KIND: &'static str = "Endpoint";

/// A path segment that starts with `_` followed by word characters: a
/// placeholder for a path parameter.
pub const DYNAMIC_SEGMENT: &'static str = "_(\\w|\\d)+/";

/// Whether the regex crate finds a match of `pattern` in `text`.
pub uninterp spec fn regex_finds(pattern: Seq<char>, text: Seq<char>) -> bool;

/// A spec file found by the walk, with its content; `None` when it could
/// not be read or parsed.
pub struct SpecSource {
    pub path: String,
    pub endpoint: Option<Endpoint>,
}

/// A spec file's kind is not one this server knows.
#[derive(Debug, PartialEq, Eq)]
pub struct UnsupportedKind {
    pub kind: String,
}

/// Spec files are named `*.yaml` or `*.yml`.
pub open spec fn is_spec_path(p: Seq<char>) -> bool {
    has_suffix(p, ".yaml"@) || has_suffix(p, ".yml"@)
}

/// `s` without its spec-file extension.
pub open spec fn strip_extension(s: Seq<char>) -> Seq<char> {
    if has_suffix(s, ".yaml"@) {
        strip_suffix(s, ".yaml"@)
    } else {
        strip_suffix(s, ".yml"@)
    }
}

/// The URL path of the spec file at `file` under the directory `base`:
/// the file's path below `base`, without extension, without a final `root`
/// segment and without trailing slashes, followed by one `/`.
pub open spec fn derived_path(base: Seq<char>, file: Seq<char>) -> Seq<char> {
    let rel = strip_prefix(file, trim_slashes(base));
    trim_slashes(strip_suffix(strip_extension(rel), "/root"@)).push('/')
}

/// The definitions of one spec file, each with the file's URL path.
pub open spec fn file_entries(base: Seq<char>, f: SpecSource) -> Seq<(Request, Seq<char>)> {
    match f.endpoint {
        Some(ep) => if ep.kind@ == ENDPOINT_KIND@ {
            ep.spec.requests@.map_values(|q: Request| (q, derived_path(base, f.path@)))
        } else {
            Seq::empty()
        },
        None => Seq::empty(),
    }
}

/// The definitions of all spec files, in the order of the files.
pub open spec fn all_entries(base: Seq<char>, fs: Seq<SpecSource>) -> Seq<(Request, Seq<char>)>
    decreases fs.len(),
{
    if fs.len() == 0 {
        Seq::empty()
    } else {
        all_entries(base, fs.drop_last()) + file_entries(base, fs.last())
    }
}

pub open spec fn entry_view(e: RequestWithMetadata) -> (Request, Seq<char>) {
    (e.inner, e.full_path@)
}

/// Whether the file at `path` is a spec file, by its extension.
pub fn is_spec_file(path: &str) -> (r: bool)
    ensures
        r == is_spec_path(path@),
{
    ends_with(path, ".yaml") || ends_with(path, ".yml")
}

/// The URL path that the spec file at `path` under `base` stands for.
pub fn derive_path(base: &str, path: &str) -> (r: String)
    ensures
        r@ == derived_path(base@, path@),
{
    let b = without_trailing_slashes(base);
    let rel = without_prefix(path, b);
    let stem = if ends_with(rel, ".yaml") {
        without_suffix(rel, ".yaml")
    } else {
        without_suffix(rel, ".yml")
    };
    let dir = without_trailing_slashes(without_suffix(stem, "/root"));
    let mut r = String::from_str(dir);
    r.append("/");
    proof {
        reveal_strlit("/");
        assert(r@ =~= dir@.push('/'));
    }
    r
}

/// Relies on regex::Regex::new, which compiles the dynamic-segment pattern
/// without error under the crate's default features (its Unicode classes
/// `\w` and `\d` included), and Regex::is_match, which tells whether the
/// text holds a match.
#[verifier::external_body]
fn regex_search(pattern: &str, text: &str) -> (r: bool)
    requires
        pattern@ == DYNAMIC_SEGMENT@,
    ensures
        r == regex_finds(pattern@, text@),
{
    match regex::Regex::new(pattern) {
        Ok(re) => re.is_match(text),
        Err(_) => false,
    }
}

/// Whether the URL path holds a dynamic segment.
pub fn dynamic_segment(path: &str) -> (r: bool)
    ensures
        r == regex_finds(DYNAMIC_SEGMENT@, path@),
{
    regex_search(DYNAMIC_SEGMENT, path)
}

/// Pairs each definition with the URL path, in order.
fn attach_path(requests: Vec<Request>, path: &String) -> (r: Vec<RequestWithMetadata>)
    ensures
        r@.len() == requests@.len(),
        forall|i: int|
            0 <= i < r@.len() ==> (#[trigger] r@[i]).inner == requests@[i] && r@[i].full_path
                == *path,
{
    let ghost qs = requests@;
    let total = requests.len();
    let mut rest = requests;
    let mut out: Vec<RequestWithMetadata> = Vec::new();
    let mut i: usize = 0;
    while rest.len() > 0
        invariant
            qs.len() == total,
            i <= qs.len(),
            rest@ == qs.subrange(i as int, qs.len() as int),
            out@.len() == i,
            forall|j: int|
                0 <= j < i ==> (#[trigger] out@[j]).inner == qs[j] && out@[j].full_path == *path,
        decreases rest@.len(),
    {
        let q = rest.remove(0);
        assert(rest@ =~= qs.subrange(i + 1, qs.len() as int));
        out.push(RequestWithMetadata::new(q, path.clone()));
        i = i + 1;
    }
    out
}

/// The definitions of a path with a dynamic segment. Parameters are not
/// bound yet: the segment is matched as it is written.
fn process_dynamic_path(requests: Vec<Request>, path: &String) -> (r: Vec<RequestWithMetadata>)
    ensures
        r@.len() == requests@.len(),
        forall|i: int|
            0 <= i < r@.len() ==> (#[trigger] r@[i]).inner == requests@[i] && r@[i].full_path
                == *path,
{
    attach_path(requests, path)
}

/// The definitions of the spec file at `path` under `base`, each paired
/// with the file's URL path, in file order. Fails when the file's kind is
/// not `Endpoint`.
pub fn process_file(base: &str, path: &str, endpoint: Endpoint) -> (r: Result<
    Vec<RequestWithMetadata>,
    UnsupportedKind,
>)
    ensures
        r is Ok <==> endpoint.kind@ == ENDPOINT_KIND@,
        r matches Err(e) ==> e.kind@ == endpoint.kind@,
        r matches Ok(v) ==> v@.len() == endpoint.spec.requests@.len() && forall|i: int|
            0 <= i < v@.len() ==> (#[trigger] v@[i]).inner == endpoint.spec.requests@[i]
                && v@[i].full_path@ == derived_path(base@, path@),
{
    let request_path = derive_path(base, path);
    if !same_text(endpoint.kind.as_str(), ENDPOINT_KIND) {
        return Err(UnsupportedKind { kind: endpoint.kind });
    }
    let requests = endpoint.spec.requests;
    if dynamic_segment(request_path.as_str()) {
        Ok(process_dynamic_path(requests, &request_path))
    } else {
        Ok(attach_path(requests, &request_path))
    }
}

/// The definitions of all spec files found under `base`, file after file.
/// Files that could not be parsed, and files of an unknown kind, add none.
pub fn parse(base: &str, files: Vec<SpecSource>) -> (r: Vec<RequestWithMetadata>)
    ensures
        r@.map_values(|e: RequestWithMetadata| entry_view(e)) == all_entries(base@, files@),
{
    let ghost fs = files@;
    let total = files.len();
    let mut rest = files;
    let mut out: Vec<RequestWithMetadata> = Vec::new();
    let mut i: usize = 0;
    assert(fs.subrange(0, 0) =~= Seq::<SpecSource>::empty());
    assert(out@.map_values(|e: RequestWithMetadata| entry_view(e)) =~= Seq::empty());
    while rest.len() > 0
        invariant
            fs.len() == total,
            i <= fs.len(),
            rest@ == fs.subrange(i as int, fs.len() as int),
            out@.map_values(|e: RequestWithMetadata| entry_view(e)) == all_entries(
                base@,
                fs.subrange(0, i as int),
            ),
        decreases rest@.len(),
    {
        let f = rest.remove(0);
        assert(f == fs[i as int]);
        assert(rest@ =~= fs.subrange(i + 1, fs.len() as int));
        let ghost before = out@;
        let ghost step = fs.subrange(0, i + 1);
        assert(step.drop_last() =~= fs.subrange(0, i as int));
        assert(step.last() == f);
        let SpecSource { path, endpoint } = f;
        match endpoint {
            None => {},
            Some(ep) => {
                match process_file(base, path.as_str(), ep) {
                    Ok(v) => {
                        let mut v = v;
                        let ghost added = v@;
                        out.append(&mut v);
                        assert(added.map_values(|e: RequestWithMetadata| entry_view(e))
                            =~= file_entries(base@, fs[i as int]));
                        assert(out@.map_values(|e: RequestWithMetadata| entry_view(e)) =~= before.map_values(
                            |e: RequestWithMetadata| entry_view(e),
                        ) + added.map_values(|e: RequestWithMetadata| entry_view(e)));
                    },
                    Err(_) => {},
                }
            },
        }
        proof {
            if file_entries(base@, fs[i as int]).len() == 0 {
                assert(all_entries(base@, step) =~= all_entries(base@, fs.subrange(0, i as int)));
            }
        }
        i = i + 1;
    }
    assert(fs.subrange(0, fs.len() as int) =~= fs);
    out
}

/// Deriving is stable on its own output: the index file `root.yaml` in the
/// directory named by a derived path derives that same path again.
pub proof fn derive_index_of_derived(base: Seq<char>, file: Seq<char>)
    ensures
        derived_path(base, trim_slashes(base) + derived_path(base, file) + "root.yaml"@)
            == derived_path(base, file),
{
    let tb = trim_slashes(base);
    let p = derived_path(base, file);
    let q = trim_slashes(strip_suffix(strip_extension(strip_prefix(file, tb)), "/root"@));
    lemma_trim_slashes_shape(strip_suffix(strip_extension(strip_prefix(file, tb)), "/root"@));
    reveal_strlit("root.yaml");
    reveal_strlit(".yaml");
    reveal_strlit(".yml");
    reveal_strlit("/root");
    let f2 = tb + p + "root.yaml"@;
    assert(f2.subrange(0, tb.len() as int) =~= tb);
    let rel = strip_prefix(f2, tb);
    assert(rel =~= q + "/root.yaml"@) by {
        reveal_strlit("/root.yaml");
    };
    reveal_strlit("/root.yaml");
    assert(rel.subrange(rel.len() - 5, rel.len() as int) =~= ".yaml"@);
    let stem = strip_extension(rel);
    assert(stem =~= q + "/root"@);
    assert(stem.subrange(stem.len() - 5, stem.len() as int) =~= "/root"@);
    assert(strip_suffix(stem, "/root"@) =~= q);
    lemma_trim_slashes_noop(q);
}

/// Deriving a file named `name.yaml` in the directory named by a derived
/// path gives that path followed by `name/`, for a plain file name.
/// Written after `base` itself, this holds where `base` does not end in `/`.
pub proof fn derive_file_in_derived(base: Seq<char>, file: Seq<char>, name: Seq<char>)
    requires
        name.len() > 0,
        name != "root"@,
        forall|i: int| 0 <= i < name.len() ==> name[i] != '/',
    ensures
        derived_path(base, trim_slashes(base) + derived_path(base, file) + name + ".yaml"@)
            == derived_path(base, file) + name + "/"@,
        base.len() == 0 || base.last() != '/' ==> derived_path(
            base,
            base + derived_path(base, file) + name + ".yaml"@,
        ) == derived_path(base, file) + name + "/"@,
{
    if base.len() == 0 || base.last() != '/' {
        lemma_trim_slashes_noop(base);
    }
    let tb = trim_slashes(base);
    let p = derived_path(base, file);
    let q = trim_slashes(strip_suffix(strip_extension(strip_prefix(file, tb)), "/root"@));
    lemma_trim_slashes_shape(strip_suffix(strip_extension(strip_prefix(file, tb)), "/root"@));
    reveal_strlit(".yaml");
    reveal_strlit("/root");
    reveal_strlit("root");
    reveal_strlit("/");
    let f2 = tb + p + name + ".yaml"@;
    assert(f2.subrange(0, tb.len() as int) =~= tb);
    let rel = strip_prefix(f2, tb);
    assert(rel =~= q.push('/') + name + ".yaml"@);
    assert(rel.subrange(rel.len() - 5, rel.len() as int) =~= ".yaml"@);
    let stem = strip_extension(rel);
    assert(stem =~= q.push('/') + name);
    if has_suffix(stem, "/root"@) {
        let tail = stem.subrange(stem.len() - 5, stem.len() as int);
        assert(tail =~= "/root"@);
        assert(tail[0] == '/' && tail[1] == 'r' && tail[2] == 'o' && tail[3] == 'o');
        if name.len() >= 5 {
            assert(name[name.len() - 5] == stem[stem.len() - 5]);
        } else if name.len() == 4 {
            assert(name =~= tail.subrange(1, 5));
            assert(tail.subrange(1, 5) =~= "root"@);
        } else {
            let k = 4 - name.len();
            assert(stem[q.len() as int] == '/');
            assert(tail[k] == stem[q.len() as int]);
        }
        assert(false);
    }
    assert(strip_suffix(stem, "/root"@) == stem);
    assert(stem.last() == name.last());
    lemma_trim_slashes_noop(stem);
    assert(stem.push('/') =~= p + name + "/"@);
}

} // verus!
