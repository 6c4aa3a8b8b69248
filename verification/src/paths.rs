//! File paths as `'/'`-separated text.
//!
//! The library keeps paths as strings. The operations below follow the
//! component rules of `std::path` for paths written without `//` runs or
//! inner `.` segments: components are the maximal `'/'`-free pieces, and a
//! path that starts with `'/'` is absolute.

use vstd::prelude::*;

use crate::strings::{chars_of, contains_seq, ends_with_chars, starts_with_chars, string_of_range};

verus! {

broadcast use vstd::string::group_string_axioms;

/// `p` starts at the root.
pub open spec fn is_absolute(p: Seq<char>) -> bool {
    p.len() > 0 && p[0] == '/'
}

/// `p` appended to `base`: an absolute `p` (or an empty `base`) replaces
/// `base`; otherwise one separator joins them.
pub open spec fn join(base: Seq<char>, p: Seq<char>) -> Seq<char> {
    if is_absolute(p) || base.len() == 0 {
        p
    } else if base.last() == '/' {
        base + p
    } else {
        base + seq!['/'] + p
    }
}

/// `p` relative to `base` when `base`'s components lead `p`'s.
pub open spec fn strip_prefix(p: Seq<char>, base: Seq<char>) -> Option<Seq<char>> {
    if base.len() == 0 {
        Some(p)
    } else if p == base {
        Some(Seq::empty())
    } else if base.is_prefix_of(p) && base.last() == '/' {
        Some(p.skip(base.len() as int))
    } else if base.is_prefix_of(p) && p[base.len() as int] == '/' {
        Some(p.skip(base.len() + 1int))
    } else {
        None
    }
}

/// `p` shown relative to `base` when it lies under it, else as it is.
pub open spec fn relative_to(p: Seq<char>, base: Seq<char>) -> Seq<char> {
    match strip_prefix(p, base) {
        Some(r) => r,
        None => p,
    }
}

/// The trailing components of `p` are those of `t`.
pub open spec fn ends_with_path(p: Seq<char>, t: Seq<char>) -> bool {
    ||| t.len() == 0
    ||| p == t
    ||| (!is_absolute(t) && t.len() < p.len() && t.is_suffix_of(p) && p[p.len() - t.len() - 1] == '/')
}

/// Index of the last `c` in `s`, or `-1`.
pub open spec fn last_index(s: Seq<char>, c: char) -> int
    decreases s.len(),
{
    if s.len() == 0 {
        -1
    } else if s.last() == c {
        s.len() - 1
    } else {
        last_index(s.drop_last(), c)
    }
}

/// `s` without its trailing `'/'`s.
pub open spec fn trim_slashes(s: Seq<char>) -> Seq<char>
    decreases s.len(),
{
    if s.len() > 0 && s.last() == '/' {
        trim_slashes(s.drop_last())
    } else {
        s
    }
}

/// The final component of `p`, unless it is empty, `.` or `..`.
pub open spec fn file_name(p: Seq<char>) -> Option<Seq<char>> {
    let q = trim_slashes(p);
    let name = q.skip(last_index(q, '/') + 1);
    if name.len() == 0 || name == seq!['.'] || name == seq!['.', '.'] {
        None
    } else {
        Some(name)
    }
}

/// A file name without its last extension; a name whose only dot leads it is kept whole.
pub open spec fn stem_of(name: Seq<char>) -> Seq<char> {
    let d = last_index(name, '.');
    if d <= 0 {
        name
    } else {
        name.take(d)
    }
}

/// The file stem of `p`.
pub open spec fn file_stem(p: Seq<char>) -> Option<Seq<char>> {
    match file_name(p) {
        Some(n) => Some(stem_of(n)),
        None => None,
    }
}

pub proof fn lemma_last_index(s: Seq<char>, c: char)
    ensures
        -1 <= last_index(s, c) < s.len(),
        last_index(s, c) >= 0 ==> s[last_index(s, c)] == c,
        forall|k: int| last_index(s, c) < k < s.len() ==> s[k] != c,
    decreases s.len(),
{
    if s.len() > 0 && s.last() != c {
        lemma_last_index(s.drop_last(), c);
        assert forall|k: int| last_index(s, c) < k < s.len() implies s[k] != c by {
            if k < s.len() - 1 {
                assert(s[k] == s.drop_last()[k]);
            }
        }
    }
}

pub proof fn lemma_trim_slashes(s: Seq<char>)
    ensures
        trim_slashes(s).is_prefix_of(s),
        trim_slashes(s).len() == 0 || trim_slashes(s).last() != '/',
        forall|k: int| trim_slashes(s).len() <= k < s.len() ==> s[k] == '/',
    decreases s.len(),
{
    if s.len() > 0 && s.last() == '/' {
        lemma_trim_slashes(s.drop_last());
        assert forall|k: int| trim_slashes(s).len() <= k < s.len() implies s[k] == '/' by {
            if k < s.len() - 1 {
                assert(s[k] == s.drop_last()[k]);
            }
        }
    }
}

/// Position of the last `c` in `cs[..end]`, or `None`.
fn rfind_char(cs: &Vec<char>, c: char, end: usize) -> (r: Option<usize>)
    requires
        end <= cs@.len(),
    ensures
        match r {
            Some(i) => i < end && i as int == last_index(cs@.take(end as int), c),
            None => last_index(cs@.take(end as int), c) == -1,
        },
{
    proof {
        lemma_last_index(cs@.take(end as int), c);
    }
    let mut i = end;
    while i > 0
        invariant
            i <= end <= cs@.len(),
            last_index(cs@.take(end as int), c) == last_index(cs@.take(i as int), c),
        decreases i,
    {
        if cs[i - 1] == c {
            return Some(i - 1);
        }
        assert(cs@.take(i as int).drop_last() =~= cs@.take(i - 1));
        i = i - 1;
    }
    None
}

/// Is `p` absolute?
pub fn path_is_absolute(p: &str) -> (r: bool)
    ensures
        r == is_absolute(p@),
{
    let cs = chars_of(p);
    cs.len() > 0 && cs[0] == '/'
}

/// `p` appended to `base`.
pub fn path_join(base: &str, p: &str) -> (r: String)
    ensures
        r@ == join(base@, p@),
{
    let b = chars_of(base);
    if path_is_absolute(p) || b.len() == 0 {
        return p.to_owned();
    }
    let mut out = base.to_owned();
    if b[b.len() - 1] != '/' {
        crate::strings::push_char(&mut out, '/');
    }
    crate::strings::push_str(&mut out, p);
    out
}

/// `p` relative to `base`, when `base` leads it.
pub fn path_strip_prefix(p: &str, base: &str) -> (r: Option<String>)
    ensures
        match r {
            Some(s) => strip_prefix(p@, base@) == Some(s@),
            None => strip_prefix(p@, base@) is None,
        },
{
    let ps = chars_of(p);
    let bs = chars_of(base);
    if bs.len() == 0 {
        return Some(p.to_owned());
    }
    if !starts_with_chars(&ps, &bs) {
        proof {
            if ps@ == bs@ {
                assert(bs@.is_prefix_of(ps@));
            }
        }
        return None;
    }
    if ps.len() == bs.len() {
        assert(ps@ =~= bs@);
        return Some(String::new());
    }
    assert(ps@ != bs@);
    if bs[bs.len() - 1] == '/' {
        return Some(string_of_range(&ps, bs.len(), ps.len()));
    }
    if ps[bs.len()] == '/' {
        return Some(string_of_range(&ps, bs.len() + 1, ps.len()));
    }
    None
}

/// `p` relative to `base` when it lies under it, else `p` itself.
pub fn path_relative_to(p: &str, base: &str) -> (r: String)
    ensures
        r@ == relative_to(p@, base@),
{
    match path_strip_prefix(p, base) {
        Some(s) => s,
        None => p.to_owned(),
    }
}

/// Do `p`'s trailing components equal `t`'s?
pub fn path_ends_with(p: &str, t: &str) -> (r: bool)
    ensures
        r == ends_with_path(p@, t@),
{
    let ps = chars_of(p);
    let ts = chars_of(t);
    if ts.len() == 0 {
        return true;
    }
    if ps.len() == ts.len() {
        let same = starts_with_chars(&ps, &ts);
        proof {
            if same {
                assert(ps@ =~= ts@);
            } else if ps@ == ts@ {
                assert(ts@.is_prefix_of(ps@));
            }
        }
        return same;
    }
    if ts.len() > ps.len() || ts[0] == '/' {
        return false;
    }
    ends_with_chars(&ps, &ts) && ps[ps.len() - ts.len() - 1] == '/'
}

/// The final component of `p`.
pub fn path_file_name(p: &str) -> (r: Option<String>)
    ensures
        match r {
            Some(s) => file_name(p@) == Some(s@),
            None => file_name(p@) is None,
        },
{
    let cs = chars_of(p);
    let mut end = cs.len();
    assert(cs@.take(cs@.len() as int) =~= cs@);
    while end > 0 && cs[end - 1] == '/'
        invariant
            end <= cs@.len(),
            trim_slashes(cs@) == trim_slashes(cs@.take(end as int)),
        decreases end,
    {
        assert(cs@.take(end as int).drop_last() =~= cs@.take(end - 1));
        end = end - 1;
    }
    assert(cs@.take(cs@.len() as int) =~= cs@);
    assert(trim_slashes(cs@.take(end as int)) == cs@.take(end as int));
    let ghost q = cs@.take(end as int);
    let start = match rfind_char(&cs, '/', end) {
        Some(i) => i + 1,
        None => 0,
    };
    let len = end - start;
    proof {
        assert(q.skip(last_index(q, '/') + 1) =~= cs@.subrange(start as int, end as int));
    }
    if len == 0 || (len == 1 && cs[start] == '.') || (len == 2 && cs[start] == '.' && cs[start + 1] == '.') {
        proof {
            let name = cs@.subrange(start as int, end as int);
            if len == 1 {
                assert(name =~= seq!['.']);
            }
            if len == 2 {
                assert(name =~= seq!['.', '.']);
            }
        }
        return None;
    }
    proof {
        let name = cs@.subrange(start as int, end as int);
        if name == seq!['.'] {
            assert(name[0] == '.');
        }
        if name == seq!['.', '.'] {
            assert(name[0] == '.' && name[1] == '.');
        }
    }
    Some(string_of_range(&cs, start, end))
}

/// `name` without its last extension.
fn stem_of_name(name: &String) -> (r: String)
    ensures
        r@ == stem_of(name@),
{
    let cs = chars_of(name.as_str());
    assert(cs@.take(cs@.len() as int) =~= cs@);
    match rfind_char(&cs, '.', cs.len()) {
        Some(d) if d > 0 => string_of_range(&cs, 0, d),
        _ => name.clone(),
    }
}

/// The file stem of `p`.
pub fn path_file_stem(p: &str) -> (r: Option<String>)
    ensures
        match r {
            Some(s) => file_stem(p@) == Some(s@),
            None => file_stem(p@) is None,
        },
{
    match path_file_name(p) {
        Some(n) => Some(stem_of_name(&n)),
        None => None,
    }
}

/// `(i, j)` spans a component of `p`: it starts the path or follows a `'/'`,
/// it ends the path or precedes one, and holds no `'/'`.
pub open spec fn component_at(p: Seq<char>, i: int, j: int) -> bool {
    &&& 0 <= i <= j <= p.len()
    &&& (i == 0 || p[i - 1] == '/')
    &&& (j == p.len() || p[j] == '/')
    &&& forall|k: int| i <= k < j ==> p[k] != '/'
}

/// Position of the first `'/'` at or after `from`, or `cs.len()`.
fn next_slash(cs: &Vec<char>, from: usize) -> (r: usize)
    requires
        from <= cs@.len(),
    ensures
        from <= r <= cs@.len(),
        r < cs@.len() ==> cs@[r as int] == '/',
        forall|k: int| from <= k < r ==> cs@[k] != '/',
{
    let mut i = from;
    while i < cs.len() && cs[i] != '/'
        invariant
            from <= i <= cs@.len(),
            forall|k: int| from <= k < i ==> cs@[k] != '/',
        decreases cs@.len() - i,
    {
        i = i + 1;
    }
    i
}

/// The component spans of `cs`, in order.
pub fn component_spans(cs: &Vec<char>) -> (r: Vec<(usize, usize)>)
    ensures
        forall|t: int| 0 <= t < r@.len() ==> component_at(cs@, #[trigger] r@[t].0 as int, r@[t].1 as int),
        forall|i: int, j: int| component_at(cs@, i, j) ==> exists|t: int|
            0 <= t < r@.len() && #[trigger] r@[t].0 == i && r@[t].1 == j,
{
    let mut out: Vec<(usize, usize)> = Vec::new();
    let mut start: usize = 0;
    loop
        invariant
            start <= cs@.len(),
            start == 0 || cs@[start - 1] == '/',
            forall|t: int| 0 <= t < out@.len() ==> component_at(cs@, #[trigger] out@[t].0 as int, out@[t].1 as int),
            forall|i: int, j: int| component_at(cs@, i, j) && i < start ==> exists|t: int|
                0 <= t < out@.len() && #[trigger] out@[t].0 == i && out@[t].1 == j,
        decreases cs@.len() - start,
    {
        let end = next_slash(cs, start);
        let ghost prev = out@;
        out.push((start, end));
        proof {
            assert(out@[prev.len() as int] == (start, end));
            assert forall|i: int, j: int| component_at(cs@, i, j) && i < end + 1 implies exists|t: int|
                0 <= t < out@.len() && #[trigger] out@[t].0 == i && out@[t].1 == j by {
                if i < start {
                    let t = choose|t: int| 0 <= t < prev.len() && #[trigger] prev[t].0 == i && prev[t].1 == j;
                    assert(out@[t] == prev[t]);
                } else {
                    if i > start {
                        assert(cs@[i - 1] != '/');
                    }
                    assert(i == start);
                    if j < end {
                        assert(cs@[j] != '/');
                    }
                    if j > end {
                        assert(cs@[end as int] == '/');
                    }
                    assert(j == end);
                    assert(out@[prev.len() as int].0 == i);
                }
            }
        }
        if end >= cs.len() {
            proof {
                assert forall|i: int, j: int| component_at(cs@, i, j) implies exists|t: int|
                    0 <= t < out@.len() && #[trigger] out@[t].0 == i && out@[t].1 == j by {
                    assert(i < end + 1);
                }
            }
            return out;
        }
        start = end + 1;
    }
}

/// A component that marks a test file or directory.
pub open spec fn is_test_component(s: Seq<char>) -> bool {
    ||| s == "tests"@
    ||| s == "__tests__"@
    ||| contains_seq(s, ".test."@)
    ||| contains_seq(s, ".spec."@)
    ||| contains_seq(s, "_test"@)
    ||| "test_"@.is_prefix_of(s)
}

/// Some component of `p` marks a test.
pub open spec fn is_test_path(p: Seq<char>) -> bool {
    exists|i: int, j: int| component_at(p, i, j) && #[trigger] is_test_component(p.subrange(i, j))
}

/// A path is a test path exactly when one of its `/`-separated components
/// is `tests` or `__tests__`, contains `.test.`, `.spec.` or `_test`, or
/// starts with `test_` (as pytest's `test_*.py` files do).
pub proof fn lemma_test_path_iff_marked_component(p: Seq<char>)
    ensures
        is_test_path(p) <==> exists|i: int, j: int|
            #[trigger] component_at(p, i, j) && (p.subrange(i, j) == "tests"@ || p.subrange(i, j) == "__tests__"@
                || contains_seq(p.subrange(i, j), ".test."@) || contains_seq(p.subrange(i, j), ".spec."@) || contains_seq(
                p.subrange(i, j),
                "_test"@,
            ) || "test_"@.is_prefix_of(p.subrange(i, j))),
{
    if is_test_path(p) {
        let (i, j) = choose|i: int, j: int| component_at(p, i, j) && #[trigger] is_test_component(p.subrange(i, j));
        assert(component_at(p, i, j));
    }
    if exists|i: int, j: int|
        #[trigger] component_at(p, i, j) && (p.subrange(i, j) == "tests"@ || p.subrange(i, j) == "__tests__"@ || contains_seq(
            p.subrange(i, j),
            ".test."@,
        ) || contains_seq(p.subrange(i, j), ".spec."@) || contains_seq(p.subrange(i, j), "_test"@) || "test_"@.is_prefix_of(
            p.subrange(i, j),
        )) {
        let (i, j) = choose|i: int, j: int|
            #[trigger] component_at(p, i, j) && (p.subrange(i, j) == "tests"@ || p.subrange(i, j) == "__tests__"@
                || contains_seq(p.subrange(i, j), ".test."@) || contains_seq(p.subrange(i, j), ".spec."@) || contains_seq(
                p.subrange(i, j),
                "_test"@,
            ) || "test_"@.is_prefix_of(p.subrange(i, j)));
        assert(is_test_component(p.subrange(i, j)));
    }
}

/// Does `cs` equal `t`?
pub fn chars_equal(cs: &Vec<char>, t: &str) -> (r: bool)
    ensures
        r == (cs@ == t@),
{
    let ts = chars_of(t);
    if cs.len() != ts.len() {
        return false;
    }
    let r = starts_with_chars(cs, &ts);
    proof {
        if r {
            assert(cs@ =~= ts@);
        } else if cs@ == ts@ {
            assert(ts@.is_prefix_of(cs@));
        }
    }
    r
}

/// Does the component `seg` mark a test?
fn test_component(seg: &Vec<char>) -> (r: bool)
    ensures
        r == is_test_component(seg@),
{
    chars_equal(seg, "tests")
        || chars_equal(seg, "__tests__")
        || crate::strings::contains_chars(seg, &chars_of(".test."))
        || crate::strings::contains_chars(seg, &chars_of(".spec."))
        || crate::strings::contains_chars(seg, &chars_of("_test"))
        || starts_with_chars(seg, &chars_of("test_"))
}

/// Does some component of `p` mark a test?
pub fn path_is_test(p: &str) -> (r: bool)
    ensures
        r == is_test_path(p@),
{
    let cs = chars_of(p);
    let spans = component_spans(&cs);
    let mut t: usize = 0;
    while t < spans.len()
        invariant
            cs@ == p@,
            t <= spans@.len(),
            forall|u: int| 0 <= u < spans@.len() ==> component_at(cs@, #[trigger] spans@[u].0 as int, spans@[u].1 as int),
            forall|u: int| 0 <= u < t ==> !is_test_component(cs@.subrange(#[trigger] spans@[u].0 as int, spans@[u].1 as int)),
        decreases spans@.len() - t,
    {
        let (i, j) = spans[t];
        assert(component_at(cs@, spans@[t as int].0 as int, spans@[t as int].1 as int));
        let mut seg: Vec<char> = Vec::new();
        let mut k = i;
        while k < j
            invariant
                i <= k <= j <= cs@.len(),
                seg@ == cs@.subrange(i as int, k as int),
            decreases j - k,
        {
            seg.push(cs[k]);
            k = k + 1;
            assert(seg@ =~= cs@.subrange(i as int, k as int));
        }
        if test_component(&seg) {
            assert(component_at(p@, i as int, j as int));
            assert(is_test_component(p@.subrange(i as int, j as int)));
            return true;
        }
        t = t + 1;
    }
    proof {
        assert forall|i: int, j: int| component_at(p@, i, j) implies !#[trigger] is_test_component(p@.subrange(i, j)) by {
            let u = choose|u: int| 0 <= u < spans@.len() && #[trigger] spans@[u].0 == i && spans@[u].1 == j;
            assert(!is_test_component(cs@.subrange(spans@[u].0 as int, spans@[u].1 as int)));
        }
    }
    false
}

/// The extension of `p`: what follows the last `.` of its file name, unless
/// that dot leads the name or there is none.
pub open spec fn extension(p: Seq<char>) -> Option<Seq<char>> {
    match file_name(p) {
        Some(n) => {
            let d = last_index(n, '.');
            if d <= 0 {
                None
            } else {
                Some(n.skip(d + 1))
            }
        },
        None => None,
    }
}

/// The extension of `p`.
pub fn path_extension(p: &str) -> (r: Option<String>)
    ensures
        match r {
            Some(s) => extension(p@) == Some(s@),
            None => extension(p@) is None,
        },
{
    match path_file_name(p) {
        Some(n) => {
            let cs = chars_of(n.as_str());
            assert(cs@.take(cs@.len() as int) =~= cs@);
            match rfind_char(&cs, '.', cs.len()) {
                Some(d) if d > 0 => Some(string_of_range(&cs, d + 1, cs.len())),
                _ => None,
            }
        },
        None => None,
    }
}

/// A path joined under `base` reads back relative to `base` as itself:
/// `relative_to(join(base, p), base) == p` for every relative `p`.
pub proof fn lemma_relative_after_join(base: Seq<char>, p: Seq<char>)
    requires
        !is_absolute(p),
    ensures
        relative_to(join(base, p), base) == p,
{
    let j = join(base, p);
    if base.len() == 0 {
    } else if base.last() == '/' {
        assert(j == base + p);
        assert(base.is_prefix_of(j)) by {
            assert(j.subrange(0, base.len() as int) =~= base);
        }
        if j == base {
            assert(p.len() == 0);
            assert(p =~= Seq::<char>::empty());
        } else {
            assert(j.skip(base.len() as int) =~= p);
        }
    } else {
        assert(j == base + seq!['/'] + p);
        assert(j != base) by {
            assert(j.len() > base.len());
        }
        assert(base.is_prefix_of(j)) by {
            assert(j.subrange(0, base.len() as int) =~= base);
        }
        assert(j[base.len() as int] == '/');
        assert(j.skip(base.len() + 1int) =~= p);
    }
}

} // verus!
