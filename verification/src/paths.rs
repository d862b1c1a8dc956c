//! Path strings and the primitive operations the mapping convention is built
//! from: splitting a path into directory and file-name parts at the last `/`,
//! joining a directory with a relative name, suffix tests, and replacement of
//! an extension token inside a file name.

use vstd::prelude::*;

verus! {

/// Index of the first character of a path's file-name component: one past the
/// last `/`, or `0` when the path contains no `/` at all.
pub open spec fn file_name_start(p: Seq<char>) -> int
    decreases p.len(),
{
    if p.len() == 0 {
        0
    } else if p[p.len() - 1] == '/' {
        p.len() as int
    } else {
        file_name_start(p.drop_last())
    }
}

/// The file-name component: everything after the last `/`, or the whole path
/// when there is none.
pub open spec fn spec_file_name(p: Seq<char>) -> Seq<char> {
    p.subrange(file_name_start(p), p.len() as int)
}

/// The directory part: everything before the last `/`, or the empty string
/// for a bare file name (a path relative to the current directory).
pub open spec fn spec_parent(p: Seq<char>) -> Seq<char> {
    if file_name_start(p) == 0 {
        Seq::empty()
    } else {
        p.subrange(0, file_name_start(p) - 1)
    }
}

/// Joining a directory with a relative name. The empty directory stands for
/// the current directory and contributes no separator.
pub open spec fn spec_join(dir: Seq<char>, name: Seq<char>) -> Seq<char> {
    if dir.len() == 0 {
        name
    } else {
        dir + seq!['/'] + name
    }
}

/// `suffix` is the final segment of `s`.
pub open spec fn spec_is_suffix(suffix: Seq<char>, s: Seq<char>) -> bool {
    s.len() >= suffix.len() && s.subrange(s.len() - suffix.len(), s.len() as int) == suffix
}

/// Replacement of every leftmost, non-overlapping occurrence of `from` in `s`
/// by `to`, exactly as `str::replace` performs it. An empty `from` leaves `s`
/// unchanged.
pub open spec fn spec_replace(s: Seq<char>, from: Seq<char>, to: Seq<char>) -> Seq<char>
    decreases s.len(),
{
    if from.len() == 0 || s.len() < from.len() {
        s
    } else if s.subrange(0, from.len() as int) == from {
        to + spec_replace(s.skip(from.len() as int), from, to)
    } else {
        seq![s[0]] + spec_replace(s.skip(1), from, to)
    }
}

/// `token` occurs nowhere in `s` (at no position at all).
pub open spec fn token_absent(s: Seq<char>, token: Seq<char>) -> bool {
    forall|i: int|
        0 <= i && i + token.len() <= s.len() ==> #[trigger] s.subrange(i, i + token.len()) != token
}

/// `token` occurs at no position of `s` before the final one (where it may
/// or may not stand as a suffix).
pub open spec fn token_not_before_end(s: Seq<char>, token: Seq<char>) -> bool {
    forall|i: int|
        0 <= i < s.len() - token.len() ==> #[trigger] s.subrange(i, i + token.len()) != token
}

/// `token` ends `s` and occurs at no earlier position.
pub open spec fn token_only_at_end(s: Seq<char>, token: Seq<char>) -> bool {
    spec_is_suffix(token, s) && token_not_before_end(s, token)
}

/// The file name with a suffix token removed.
pub open spec fn spec_stem(name: Seq<char>, token: Seq<char>) -> Seq<char> {
    name.take(name.len() - token.len())
}

/// A path that does not start at the filesystem root. Discovery works on
/// paths relative to the scanned directory, which all have this shape.
pub open spec fn spec_is_relative(p: Seq<char>) -> bool {
    p.len() == 0 || p[0] != '/'
}

/// Where the file name starts: the characteristic facts. The start index is
/// in bounds, sits right after a `/` unless it is `0`, and no `/` follows it.
pub proof fn lemma_file_name_start_props(p: Seq<char>)
    ensures
        0 <= file_name_start(p) <= p.len(),
        file_name_start(p) > 0 ==> p[file_name_start(p) - 1] == '/',
        forall|j: int| file_name_start(p) <= j < p.len() ==> p[j] != '/',
    decreases p.len(),
{
    if p.len() == 0 {
    } else if p[p.len() - 1] == '/' {
    } else {
        lemma_file_name_start_props(p.drop_last());
        assert forall|j: int| file_name_start(p) <= j < p.len() implies p[j] != '/' by {
            if j < p.len() - 1 {
                assert(p.drop_last()[j] != '/');
            }
        }
    }
}

/// The characteristic facts determine the start index: any `k` that sits
/// right after a `/` (or at `0`) with no `/` from `k` on is the start.
pub proof fn lemma_file_name_start_unique(p: Seq<char>, k: int)
    requires
        0 <= k <= p.len(),
        k == 0 || p[k - 1] == '/',
        forall|j: int| k <= j < p.len() ==> p[j] != '/',
    ensures
        file_name_start(p) == k,
    decreases p.len(),
{
    if p.len() == 0 {
    } else if p[p.len() - 1] == '/' {
        assert(k == p.len());
    } else {
        assert(k < p.len());
        assert forall|j: int| k <= j < p.drop_last().len() implies p.drop_last()[j] != '/' by {
            assert(p[j] != '/');
        }
        lemma_file_name_start_unique(p.drop_last(), k);
    }
}

/// A path all of whose characters are ordinary (no `/`) is its own file name
/// and has the empty directory as its parent.
pub proof fn lemma_no_slash_whole_name(p: Seq<char>)
    requires
        forall|j: int| 0 <= j < p.len() ==> p[j] != '/',
    ensures
        file_name_start(p) == 0,
        spec_file_name(p) == p,
        spec_parent(p) == Seq::<char>::empty(),
{
    lemma_file_name_start_unique(p, 0);
    assert(spec_file_name(p) =~= p);
}

/// Splitting a relative path at the last `/` and joining again recovers it.
pub proof fn lemma_parent_join_id(p: Seq<char>)
    requires
        spec_is_relative(p),
    ensures
        spec_join(spec_parent(p), spec_file_name(p)) == p,
{
    lemma_file_name_start_props(p);
    let k = file_name_start(p);
    if k == 0 {
        assert(spec_join(spec_parent(p), spec_file_name(p)) =~= p);
    } else {
        let q = spec_join(spec_parent(p), spec_file_name(p));
        assert(spec_parent(p).len() == k - 1);
        assert(p[k - 1] == '/');
        assert(q.len() == p.len());
        assert forall|j: int| 0 <= j < p.len() implies q[j] == p[j] by {
            if j < k - 1 {
                assert(q[j] == spec_parent(p)[j]);
            } else if j >= k {
                assert(q[j] == spec_file_name(p)[j - k]);
            }
        }
        assert(q =~= p);
    }
}

/// Joining a non-empty directory with a slash-free name makes a path whose
/// parent and file name are exactly the two parts.
pub proof fn lemma_join_parts(dir: Seq<char>, name: Seq<char>)
    requires
        dir.len() > 0,
        forall|j: int| 0 <= j < name.len() ==> name[j] != '/',
    ensures
        spec_parent(spec_join(dir, name)) == dir,
        spec_file_name(spec_join(dir, name)) == name,
{
    let q = spec_join(dir, name);
    let k = dir.len() + 1;
    assert(q[k - 1] == '/');
    assert forall|j: int| k <= j < q.len() implies q[j] != '/' by {
        assert(q[j] == name[j - k]);
    }
    lemma_file_name_start_unique(q, k as int);
    assert(spec_parent(q) =~= dir);
    assert(spec_file_name(q) =~= name);
}

/// A slash-free suffix of a path is a suffix of the path's file name.
pub proof fn lemma_suffix_in_file_name(p: Seq<char>, token: Seq<char>)
    requires
        spec_is_suffix(token, p),
        forall|j: int| 0 <= j < token.len() ==> token[j] != '/',
    ensures
        spec_is_suffix(token, spec_file_name(p)),
{
    lemma_file_name_start_props(p);
    let k = file_name_start(p);
    let n = p.len() as int;
    let m = token.len() as int;
    assert forall|j: int| n - m <= j < n implies p[j] != '/' by {
        assert(p.subrange(n - m, n)[j - (n - m)] == p[j]);
        assert(token[j - (n - m)] != '/');
    }
    if k > n - m {
        assert(p[k - 1] == '/');
        assert(false);
    }
    let name = spec_file_name(p);
    assert(name.subrange(name.len() - m, name.len() as int) =~= p.subrange(n - m, n));
}

/// Replacing a token that ends the name and occurs nowhere earlier yields the
/// stem followed by the replacement.
pub proof fn lemma_replace_token_at_end(name: Seq<char>, token: Seq<char>, to: Seq<char>)
    requires
        token.len() >= 1,
        token_only_at_end(name, token),
    ensures
        spec_replace(name, token, to) == spec_stem(name, token) + to,
    decreases name.len(),
{
    let n = name.len() as int;
    let m = token.len() as int;
    if n == m {
        assert(name.subrange(0, m) == token);
        assert(name.skip(m) =~= Seq::<char>::empty());
        assert(spec_replace(name.skip(m), token, to) == name.skip(m));
        assert(spec_stem(name, token) =~= Seq::<char>::empty());
        assert(spec_replace(name, token, to) =~= spec_stem(name, token) + to);
    } else {
        assert(name.subrange(0, 0 + m) != token);
        assert(name.subrange(0, m) != token);
        let rest = name.skip(1);
        assert(rest.subrange(rest.len() - m, rest.len() as int) =~= name.subrange(n - m, n));
        assert forall|i: int| 0 <= i < rest.len() - m implies #[trigger] rest.subrange(i, i + m)
            != token by {
            assert(rest.subrange(i, i + m) =~= name.subrange(i + 1, i + 1 + m));
        }
        lemma_replace_token_at_end(rest, token, to);
        assert(spec_replace(name, token, to) == seq![name[0]] + (spec_stem(rest, token) + to));
        assert(seq![name[0]] + (spec_stem(rest, token) + to) =~= spec_stem(name, token) + to);
    }
}

/// Last `/` of a path, found from the end: one past it, or `0` when the path
/// has none.
pub fn find_name_start(p: &str) -> (k: usize)
    ensures
        k == file_name_start(p@),
{
    let n = p.unicode_len();
    let mut i = n;
    while i > 0
        invariant
            i <= n,
            n == p@.len(),
            forall|j: int| i <= j < n ==> p@[j] != '/',
        decreases i,
    {
        if p.get_char(i - 1) == '/' {
            proof {
                lemma_file_name_start_unique(p@, i as int);
            }
            return i;
        }
        i = i - 1;
    }
    proof {
        lemma_file_name_start_unique(p@, 0);
    }
    0
}

/// The directory part of a path, before the last `/`; empty for a bare name.
pub fn parent_of(p: &str) -> (r: &str)
    ensures
        r@ == spec_parent(p@),
{
    let k = find_name_start(p);
    proof {
        lemma_file_name_start_props(p@);
    }
    if k == 0 {
        let r = "";
        proof {
            reveal_strlit("");
            assert(r@ =~= spec_parent(p@));
        }
        r
    } else {
        p.substring_char(0, k - 1)
    }
}

/// The file-name component of a path, after the last `/`.
pub fn file_name_of(p: &str) -> (r: &str)
    ensures
        r@ == spec_file_name(p@),
{
    let k = find_name_start(p);
    proof {
        lemma_file_name_start_props(p@);
    }
    p.substring_char(k, p.unicode_len())
}

/// Character-wise equality of two string slices.
pub fn str_eq(a: &str, b: &str) -> (r: bool)
    ensures
        r == (a@ == b@),
{
    let n = a.unicode_len();
    if n != b.unicode_len() {
        return false;
    }
    let mut i: usize = 0;
    while i < n
        invariant
            i <= n,
            n == a@.len(),
            n == b@.len(),
            forall|j: int| 0 <= j < i ==> a@[j] == b@[j],
        decreases n - i,
    {
        if a.get_char(i) != b.get_char(i) {
            return false;
        }
        i = i + 1;
    }
    proof {
        assert(a@ =~= b@);
    }
    true
}

/// Does `suffix` end `s`?
pub fn is_suffix_of(suffix: &str, s: &str) -> (r: bool)
    ensures
        r == spec_is_suffix(suffix@, s@),
{
    let n = s.unicode_len();
    let m = suffix.unicode_len();
    if m > n {
        return false;
    }
    let tail = s.substring_char(n - m, n);
    str_eq(tail, suffix)
}

/// Does `pat` occur in `s` at position `i`?
pub fn occurs_at(s: &str, pat: &str, i: usize) -> (r: bool)
    requires
        i <= s@.len(),
    ensures
        r == (i + pat@.len() <= s@.len() && s@.subrange(i as int, i + pat@.len()) == pat@),
{
    let n = s.unicode_len();
    let m = pat.unicode_len();
    if m > n - i {
        return false;
    }
    let part = s.substring_char(i, i + m);
    str_eq(part, pat)
}

proof fn lemma_replace_step_match(s: Seq<char>, from: Seq<char>, to: Seq<char>, i: int)
    requires
        from.len() >= 1,
        0 <= i,
        i + from.len() <= s.len(),
        s.subrange(i, i + from.len()) == from,
    ensures
        spec_replace(s.skip(i), from, to) == to + spec_replace(s.skip(i + from.len()), from, to),
{
    let rest = s.skip(i);
    let m = from.len() as int;
    assert(rest.subrange(0, m) =~= s.subrange(i, i + m));
    assert(rest.skip(m) =~= s.skip(i + m));
}

proof fn lemma_replace_step_char(s: Seq<char>, from: Seq<char>, to: Seq<char>, i: int)
    requires
        from.len() >= 1,
        0 <= i < s.len(),
        !(i + from.len() <= s.len() && s.subrange(i, i + from.len()) == from),
    ensures
        spec_replace(s.skip(i), from, to) == seq![s[i]] + spec_replace(s.skip(i + 1), from, to),
{
    let rest = s.skip(i);
    let m = from.len() as int;
    if rest.len() < m {
        assert(spec_replace(rest, from, to) == rest);
        assert(spec_replace(s.skip(i + 1), from, to) == s.skip(i + 1));
        assert(rest =~= seq![s[i]] + s.skip(i + 1));
    } else {
        assert(rest.subrange(0, m) =~= s.subrange(i, i + m));
        assert(rest.subrange(0, m) != from);
        assert(rest.skip(1) =~= s.skip(i + 1));
        assert(seq![rest[0]] =~= seq![s[i]]);
    }
}

/// Every leftmost, non-overlapping occurrence of `from` replaced by `to`, as
/// `str::replace` does it. An empty `from` leaves `s` unchanged.
pub fn replace_all(s: &str, from: &str, to: &str) -> (r: String)
    ensures
        r@ == spec_replace(s@, from@, to@),
{
    let n = s.unicode_len();
    let m = from.unicode_len();
    if m == 0 {
        return s.to_owned();
    }
    let mut out = String::new();
    let mut i: usize = 0;
    proof {
        assert(s@.skip(0) =~= s@);
    }
    while i < n
        invariant
            i <= n,
            n == s@.len(),
            m == from@.len(),
            m >= 1,
            spec_replace(s@, from@, to@) == out@ + spec_replace(s@.skip(i as int), from@, to@),
        decreases n - i,
    {
        if occurs_at(s, from, i) {
            out.append(to);
            proof {
                lemma_replace_step_match(s@, from@, to@, i as int);
            }
            i = i + m;
        } else {
            let c = s.substring_char(i, i + 1);
            out.append(c);
            proof {
                lemma_replace_step_char(s@, from@, to@, i as int);
                assert(c@ =~= seq![s@[i as int]]);
            }
            i = i + 1;
        }
    }
    proof {
        assert(s@.skip(n as int) =~= Seq::<char>::empty());
        assert(spec_replace(s@.skip(n as int), from@, to@) == s@.skip(n as int));
        assert(out@ + s@.skip(n as int) =~= out@);
    }
    out
}

/// A directory and a relative name joined with `/`; an empty directory adds
/// no separator.
pub fn join_paths(dir: &str, name: &str) -> (r: String)
    ensures
        r@ == spec_join(dir@, name@),
{
    if dir.unicode_len() == 0 {
        name.to_owned()
    } else {
        let mut r = dir.to_owned();
        r.append("/");
        r.append(name);
        proof {
            reveal_strlit("/");
            assert(r@ =~= spec_join(dir@, name@));
        }
        r
    }
}

} // verus!
