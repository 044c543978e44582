//! Character-level string operations used by path derivation and lookup.
use vstd::prelude::*;

verus! {

/// `p` is a prefix of `s`.
pub open spec fn has_prefix(s: Seq<char>, p: Seq<char>) -> bool {
    p.len() <= s.len() && s.subrange(0, p.len() as int) == p
}

/// `x` is a suffix of `s`.
pub open spec fn has_suffix(s: Seq<char>, x: Seq<char>) -> bool {
    x.len() <= s.len() && s.subrange(s.len() - x.len(), s.len() as int) == x
}

/// `s` without the prefix `p`, or `s` itself when `p` is not a prefix.
pub open spec fn strip_prefix(s: Seq<char>, p: Seq<char>) -> Seq<char> {
    if has_prefix(s, p) {
        s.subrange(p.len() as int, s.len() as int)
    } else {
        s
    }
}

/// `s` without the suffix `x`, or `s` itself when `x` is not a suffix.
pub open spec fn strip_suffix(s: Seq<char>, x: Seq<char>) -> Seq<char> {
    if has_suffix(s, x) {
        s.subrange(0, s.len() - x.len())
    } else {
        s
    }
}

/// `s` with every trailing `/` removed.
pub open spec fn trim_slashes(s: Seq<char>) -> Seq<char>
    decreases s.len(),
{
    if s.len() > 0 && s.last() == '/' {
        trim_slashes(s.drop_last())
    } else {
        s
    }
}

pub proof fn lemma_trim_slashes_shape(s: Seq<char>)
    ensures
        has_prefix(s, trim_slashes(s)),
        trim_slashes(s).len() == 0 || trim_slashes(s).last() != '/',
    decreases s.len(),
{
    if s.len() > 0 && s.last() == '/' {
        lemma_trim_slashes_shape(s.drop_last());
        let t = trim_slashes(s.drop_last());
        assert(s.subrange(0, t.len() as int) =~= s.drop_last().subrange(0, t.len() as int));
    } else {
        assert(s.subrange(0, s.len() as int) =~= s);
    }
}

pub proof fn lemma_trim_slashes_noop(s: Seq<char>)
    requires
        s.len() == 0 || s.last() != '/',
    ensures
        trim_slashes(s) == s,
{
}

/// Whether `s` and `t` hold the same characters.
pub fn same_text(s: &str, t: &str) -> (r: bool)
    ensures
        r == (s@ == t@),
{
    let n = s.unicode_len();
    if n != t.unicode_len() {
        return false;
    }
    let mut i: usize = 0;
    while i < n
        invariant
            n == s@.len(),
            n == t@.len(),
            i <= n,
            s@.subrange(0, i as int) == t@.subrange(0, i as int),
        decreases n - i,
    {
        if s.get_char(i) != t.get_char(i) {
            assert(s@[i as int] != t@[i as int]);
            return false;
        }
        assert(s@.subrange(0, i + 1) =~= s@.subrange(0, i as int).push(s@[i as int]));
        assert(t@.subrange(0, i + 1) =~= t@.subrange(0, i as int).push(t@[i as int]));
        i = i + 1;
    }
    assert(s@ =~= s@.subrange(0, n as int));
    assert(t@ =~= t@.subrange(0, n as int));
    true
}

/// Whether `s` begins with `p`.
pub fn starts_with(s: &str, p: &str) -> (r: bool)
    ensures
        r == has_prefix(s@, p@),
{
    let n = s.unicode_len();
    let k = p.unicode_len();
    if k > n {
        return false;
    }
    let head = s.substring_char(0, k);
    same_text(head, p)
}

/// Whether `s` ends with `x`.
pub fn ends_with(s: &str, x: &str) -> (r: bool)
    ensures
        r == has_suffix(s@, x@),
{
    let n = s.unicode_len();
    let k = x.unicode_len();
    if k > n {
        return false;
    }
    let tail = s.substring_char(n - k, n);
    same_text(tail, x)
}

/// `s` without the prefix `p`, when it has it.
pub fn without_prefix<'a>(s: &'a str, p: &str) -> (r: &'a str)
    ensures
        r@ == strip_prefix(s@, p@),
{
    if starts_with(s, p) {
        let n = s.unicode_len();
        s.substring_char(p.unicode_len(), n)
    } else {
        s
    }
}

/// `s` without the suffix `x`, when it has it.
pub fn without_suffix<'a>(s: &'a str, x: &str) -> (r: &'a str)
    ensures
        r@ == strip_suffix(s@, x@),
{
    if ends_with(s, x) {
        let n = s.unicode_len();
        s.substring_char(0, n - x.unicode_len())
    } else {
        s
    }
}

/// `s` with its trailing slashes removed.
pub fn without_trailing_slashes<'a>(s: &'a str) -> (r: &'a str)
    ensures
        r@ == trim_slashes(s@),
{
    let n = s.unicode_len();
    let mut end: usize = n;
    assert(s@.subrange(0, n as int) =~= s@);
    while end > 0 && s.get_char(end - 1) == '/'
        invariant
            n == s@.len(),
            end <= n,
            trim_slashes(s@.subrange(0, end as int)) == trim_slashes(s@),
        decreases end,
    {
        let ghost t = s@.subrange(0, end as int);
        assert(t.drop_last() =~= s@.subrange(0, end - 1));
        assert(t.last() == s@[end - 1]);
        end = end - 1;
    }
    proof {
        let t = s@.subrange(0, end as int);
        if end > 0 {
            assert(t.last() == s@[end - 1]);
        }
        lemma_trim_slashes_noop(t);
    }
    s.substring_char(0, end)
}

} // verus!
