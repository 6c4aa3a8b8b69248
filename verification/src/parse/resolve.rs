//! Import path resolution.
//!
//! TypeScript and JavaScript follow the extension / index ladder and honour
//! the `compilerOptions.paths` aliases of `tsconfig.json`; Python resolves
//! dotted modules through the package tree; Rust resolves `crate::` paths
//! through the module tree under `src/`. Which files exist is given as a
//! [`FileSet`], a listing of the project's files.

use vstd::prelude::*;

use crate::graph::types::{
    centrality_under, clone_edges, edges_under, push_edge_under, sat_sub, seqs, CodeGraph, Confidence, Edge, EdgeKind,
    SymbolId, SymbolKind,
};
use crate::paths::{extension, file_name, is_absolute, join, last_index, path_join, stem_of, trim_slashes};
use crate::search::hit::join_with;
use crate::runner::json::{array_of, as_str, elements, field, get, json_document, opt, parse_json, str_of, JsonValue};
use crate::strings::{at, chars_of, find_first, first_at, last_in, lines, lines_of, occurs_at, string_of, string_of_range};
use vstd::utf8::encode_utf8;

verus! {

broadcast use vstd::string::group_string_axioms;

// ------------------------------------------------------------------
// Splitting and path arithmetic.
// ------------------------------------------------------------------

pub proof fn lemma_first_at(s: Seq<char>, p: Seq<char>, i: int)
    requires
        0 <= i,
    ensures
        first_at(s, p, i) == -1 || (i <= first_at(s, p, i) && occurs_at(s, p, first_at(s, p, i))),
        forall|k: int| i <= k < (if first_at(s, p, i) < 0 { s.len() + 1int } else { first_at(s, p, i) }) ==> !occurs_at(s, p, k),
    decreases s.len() + 1 - i,
{
    if i < 0 || i + p.len() > s.len() {
        assert forall|k: int| i <= k < s.len() + 1 implies !occurs_at(s, p, k) by {}
    } else if !occurs_at(s, p, i) {
        lemma_first_at(s, p, i + 1);
    }
}

/// The pieces of `s` between the non-overlapping occurrences of the
/// non-empty pattern `p`, as `str::split` yields them.
pub open spec fn split_by(s: Seq<char>, p: Seq<char>) -> Seq<Seq<char>>
    decreases s.len(),
{
    let k = first_at(s, p, 0);
    if p.len() == 0 || k < 0 {
        seq![s]
    } else {
        proof {
            lemma_first_at(s, p, 0);
        }
        seq![s.take(k)] + split_by(s.skip(k + p.len()), p)
    }
}

/// The pieces of `cs[from..]` between the occurrences of `p`.
fn split_from(cs: &Vec<char>, p: &Vec<char>, from: usize) -> (r: Vec<String>)
    requires
        p@.len() > 0,
        from <= cs@.len(),
    ensures
        r@.map_values(|x: String| x@) == split_by(cs@.skip(from as int), p@),
    decreases cs@.len() - from,
{
    let rest: Vec<char> = tail_of(cs, from);
    match find_first(&rest, p) {
        None => {
            let mut out: Vec<String> = Vec::new();
            out.push(string_of(&rest));
            assert(out@.map_values(|x: String| x@) =~= seq![rest@]);
            out
        },
        Some(k) => {
            proof {
                lemma_first_at(rest@, p@, 0);
            }
            let head = string_of_range(&rest, 0, k);
            let n = cs.len();
            assert(k + p@.len() <= n - from);
            let tail = split_from(cs, p, from + k + p.len());
            assert(rest@.skip(k + p@.len()) =~= cs@.skip(from + k + p@.len()));
            let mut out: Vec<String> = Vec::new();
            out.push(head);
            let mut i: usize = 0;
            while i < tail.len()
                invariant
                    i <= tail@.len(),
                    out@.map_values(|x: String| x@) == seq![rest@.take(k as int)] + tail@.map_values(
                        |x: String| x@,
                    ).take(i as int),
                decreases tail@.len() - i,
            {
                let ghost before = out@;
                let t = tail[i].clone();
                out.push(t);
                assert(out@.map_values(|x: String| x@) =~= before.map_values(|x: String| x@).push(t@));
                assert(tail@.map_values(|x: String| x@).take(i + 1) =~= tail@.map_values(|x: String| x@).take(
                    i as int,
                ).push(t@));
                assert(out@.map_values(|x: String| x@) =~= seq![rest@.take(k as int)] + tail@.map_values(
                    |x: String| x@,
                ).take(i + 1));
                i = i + 1;
            }
            assert(tail@.map_values(|x: String| x@).take(tail@.len() as int) =~= tail@.map_values(
                |x: String| x@,
            ));
            out
        },
    }
}

/// `cs[from..]`.
fn tail_of(cs: &Vec<char>, from: usize) -> (r: Vec<char>)
    requires
        from <= cs@.len(),
    ensures
        r@ == cs@.skip(from as int),
{
    let mut out: Vec<char> = Vec::new();
    let mut i = from;
    while i < cs.len()
        invariant
            from <= i <= cs@.len(),
            out@ == cs@.subrange(from as int, i as int),
        decreases cs@.len() - i,
    {
        out.push(cs[i]);
        i = i + 1;
        assert(out@ =~= cs@.subrange(from as int, i as int));
    }
    out
}

/// `str::split` of `s` on the non-empty pattern `p`.
pub fn split_text(s: &str, p: &str) -> (r: Vec<String>)
    requires
        p@.len() > 0,
    ensures
        r@.map_values(|x: String| x@) == split_by(s@, p@),
{
    let cs = chars_of(s);
    let ps = chars_of(p);
    assert(cs@.skip(0) =~= cs@);
    split_from(&cs, &ps, 0)
}

/// `PathBuf` built by pushing each of `segs` in turn.
pub open spec fn collect_path(segs: Seq<Seq<char>>) -> Seq<char>
    decreases segs.len(),
{
    if segs.len() == 0 {
        Seq::empty()
    } else {
        join(collect_path(segs.drop_last()), segs.last())
    }
}

/// The path made of the first `n` of `segs`.
fn collect_segments(segs: &Vec<String>, n: usize) -> (r: String)
    requires
        n <= segs@.len(),
    ensures
        r@ == collect_path(segs@.map_values(|x: String| x@).take(n as int)),
{
    let ghost all = segs@.map_values(|x: String| x@);
    let mut out = String::new();
    let mut i: usize = 0;
    assert(all.take(0) =~= Seq::<Seq<char>>::empty());
    while i < n
        invariant
            i <= n <= segs@.len(),
            all == segs@.map_values(|x: String| x@),
            out@ == collect_path(all.take(i as int)),
        decreases n - i,
    {
        assert(all.take(i + 1).drop_last() =~= all.take(i as int));
        out = path_join(out.as_str(), segs[i].as_str());
        i = i + 1;
    }
    out
}

/// Components after one more segment: empty and `.` segments vanish, `..`
/// drops the last component.
pub open spec fn push_component(out: Seq<Seq<char>>, seg: Seq<char>) -> Seq<Seq<char>> {
    if seg.len() == 0 || seg == seq!['.'] {
        out
    } else if seg == seq!['.', '.'] {
        if out.len() > 0 {
            out.drop_last()
        } else {
            out
        }
    } else {
        out.push(seg)
    }
}

/// The components and the pending segment after reading `p[..i]`.
pub open spec fn scan_components(p: Seq<char>, i: int) -> (Seq<Seq<char>>, Seq<char>)
    decreases i,
{
    if i <= 0 {
        (Seq::empty(), Seq::empty())
    } else {
        let (out, cur) = scan_components(p, i - 1);
        if p[i - 1] == '/' {
            (push_component(out, cur), Seq::empty())
        } else {
            (out, cur.push(p[i - 1]))
        }
    }
}

/// The components of `p` with `.` and `..` resolved lexically.
pub open spec fn normal_components(p: Seq<char>) -> Seq<Seq<char>> {
    let (out, cur) = scan_components(p, p.len() as int);
    push_component(out, cur)
}

/// `p` with `.` and `..` resolved lexically, without consulting the disk.
pub open spec fn normalize(p: Seq<char>) -> Seq<char> {
    (if is_absolute(p) {
        seq!['/']
    } else {
        Seq::empty()
    }) + join_with(normal_components(p), seq!['/'])
}

/// The components after one more segment.
fn push_component_exec(out: &mut Vec<Vec<char>>, seg: Vec<char>)
    ensures
        final(out)@.map_values(|v: Vec<char>| v@) == push_component(
            old(out)@.map_values(|v: Vec<char>| v@),
            seg@,
        ),
{
    let ghost before = out@.map_values(|v: Vec<char>| v@);
    if seg.len() == 0 || (seg.len() == 1 && seg[0] == '.') {
        proof {
            if seg@.len() == 1 && seg@[0] == '.' {
                assert(seg@ =~= seq!['.']);
            }
        }
        return;
    }
    if seg.len() == 2 && seg[0] == '.' && seg[1] == '.' {
        assert(seg@ =~= seq!['.', '.']);
        if out.len() > 0 {
            out.pop();
            assert(out@.map_values(|v: Vec<char>| v@) =~= before.drop_last());
        }
        return;
    }
    proof {
        if seg@ == seq!['.'] {
            assert(seg@[0] == '.');
        }
        if seg@ == seq!['.', '.'] {
            assert(seg@[0] == '.' && seg@[1] == '.');
        }
    }
    out.push(seg);
    assert(out@.map_values(|v: Vec<char>| v@) =~= before.push(seg@));
}

/// `p` with `.` and `..` resolved lexically.
pub fn normalize_path(p: &str) -> (r: String)
    ensures
        r@ == normalize(p@),
{
    let cs = chars_of(p);
    let mut out: Vec<Vec<char>> = Vec::new();
    let mut cur: Vec<char> = Vec::new();
    let mut i: usize = 0;
    while i < cs.len()
        invariant
            i <= cs@.len(),
            (out@.map_values(|v: Vec<char>| v@), cur@) == scan_components(cs@, i as int),
        decreases cs@.len() - i,
    {
        if cs[i] == '/' {
            let seg = cur;
            cur = Vec::new();
            push_component_exec(&mut out, seg);
        } else {
            cur.push(cs[i]);
        }
        i = i + 1;
    }
    push_component_exec(&mut out, cur);
    let mut s = String::new();
    if cs.len() > 0 && cs[0] == '/' {
        crate::strings::push_char(&mut s, '/');
    }
    assert(s@ =~= (if is_absolute(cs@) {
        seq!['/']
    } else {
        Seq::<char>::empty()
    }));
    crate::search::structural::push_joined(&mut s, &out, out.len(), "/");
    proof {
        reveal_strlit("/");
        assert("/"@ =~= seq!['/']);
        assert(out@.map_values(|v: Vec<char>| v@).take(out@.len() as int) =~= out@.map_values(
            |v: Vec<char>| v@,
        ));
    }
    s
}

/// `Path::parent`: `p` without its last component; `None` for a root or an
/// empty path.
pub open spec fn parent_of(p: Seq<char>) -> Option<Seq<char>> {
    let q = trim_slashes(p);
    let k = last_index(q, '/');
    if q.len() == 0 {
        None
    } else if k < 0 {
        Some(Seq::empty())
    } else if k == 0 {
        Some(seq!['/'])
    } else {
        Some(trim_slashes(q.take(k)))
    }
}

/// `Path::with_extension`: the file name's extension replaced by `e`; a
/// path without a file name is kept.
pub open spec fn with_extension(p: Seq<char>, e: Seq<char>) -> Seq<char> {
    match file_name(p) {
        None => p,
        Some(n) => {
            let q = trim_slashes(p);
            q.take(q.len() - n.len() + stem_of(n).len()) + seq!['.'] + e
        },
    }
}

/// Length of `cs` without its trailing `'/'`s.
fn trimmed_len(cs: &Vec<char>) -> (r: usize)
    ensures
        r <= cs@.len(),
        cs@.take(r as int) == trim_slashes(cs@),
{
    let mut end = cs.len();
    assert(cs@.take(cs@.len() as int) =~= cs@);
    while end > 0 && cs[end - 1] == '/'
        invariant
            end <= cs@.len(),
            trim_slashes(cs@) == trim_slashes(cs@.take(end as int)),
        decreases end,
    {
        assert(cs@.take(end as int).drop_last() =~= cs@.take(end - 1));
        end = end - 1;
    }
    proof {
        let q = cs@.take(end as int);
        if q.len() > 0 {
            assert(q.last() == cs@[end - 1]);
        }
    }
    end
}

/// `Path::with_extension`.
pub fn path_with_extension(p: &str, e: &str) -> (r: String)
    ensures
        r@ == with_extension(p@, e@),
{
    let name = match crate::paths::path_file_name(p) {
        Some(n) => n,
        None => return p.to_owned(),
    };
    let cs = chars_of(p);
    let end = trimmed_len(&cs);
    let stem = match crate::paths::path_file_stem(p) {
        Some(s) => s,
        None => return p.to_owned(),
    };
    let ncs = chars_of(name.as_str());
    let scs = chars_of(stem.as_str());
    proof {
        let q = trim_slashes(cs@);
        crate::paths::lemma_last_index(q, '/');
        crate::paths::lemma_last_index(name@, '.');
        assert(name@.len() <= q.len());
        assert(stem@.len() <= name@.len());
    }
    let cut = end - ncs.len() + scs.len();
    let mut out = string_of_range(&cs, 0, cut);
    assert(cs@.subrange(0, cut as int) =~= trim_slashes(cs@).take(cut as int));
    crate::strings::push_char(&mut out, '.');
    crate::strings::push_str(&mut out, e);
    out
}

/// `Path::parent`.
pub fn path_parent(p: &str) -> (r: Option<String>)
    ensures
        match r {
            Some(s) => parent_of(p@) == Some(s@),
            None => parent_of(p@) is None,
        },
{
    let cs = chars_of(p);
    let end = trimmed_len(&cs);
    if end == 0 {
        return None;
    }
    let ghost q = trim_slashes(cs@);
    let k = match last_in(&cs, '/', 0, end) {
        Some(k) => k,
        None => {
            assert(cs@.subrange(0, end as int) =~= q);
            return Some(String::new());
        },
    };
    assert(cs@.subrange(0, end as int) =~= q);
    if k == 0 {
        let mut s = String::new();
        crate::strings::push_char(&mut s, '/');
        assert(s@ =~= seq!['/']);
        return Some(s);
    }
    let head = string_of_range(&cs, 0, k);
    assert(head@ =~= q.take(k as int));
    let hcs = chars_of(head.as_str());
    let hend = trimmed_len(&hcs);
    Some(string_of_range(&hcs, 0, hend))
}

// ------------------------------------------------------------------
// The project's files and resolution results.
// ------------------------------------------------------------------

/// The files of the project, as paths.
#[derive(Debug, Clone)]
pub struct FileSet {
    pub files: Vec<String>,
}

impl FileSet {
    /// Is `p` one of the files?
    pub open spec fn has(&self, p: Seq<char>) -> bool {
        exists|i: int| 0 <= i < self.files@.len() && #[trigger] self.files@[i]@ == p
    }

    /// Is `p` one of the files?
    pub fn is_file(&self, p: &str) -> (r: bool)
        ensures
            r == self.has(p@),
    {
        let target = p.to_owned();
        let mut i: usize = 0;
        while i < self.files.len()
            invariant
                i <= self.files@.len(),
                target@ == p@,
                forall|k: int| 0 <= k < i ==> self.files@[k]@ != p@,
            decreases self.files@.len() - i,
        {
            if self.files[i] == target {
                return true;
            }
            i = i + 1;
        }
        false
    }
}

/// The first of `cands` that is a file.
pub open spec fn first_file(fs: FileSet, cands: Seq<Seq<char>>) -> Option<Seq<char>>
    decreases cands.len(),
{
    if cands.len() == 0 {
        None
    } else if fs.has(cands[0]) {
        Some(cands[0])
    } else {
        first_file(fs, cands.drop_first())
    }
}

/// The first of `cands` that is a file.
fn first_existing(fs: &FileSet, cands: &Vec<String>) -> (r: Option<String>)
    ensures
        match r {
            Some(s) => first_file(*fs, cands@.map_values(|x: String| x@)) == Some(s@),
            None => first_file(*fs, cands@.map_values(|x: String| x@)) is None,
        },
{
    let ghost all = cands@.map_values(|x: String| x@);
    let mut i: usize = 0;
    assert(all.skip(0) =~= all);
    while i < cands.len()
        invariant
            i <= cands@.len(),
            all == cands@.map_values(|x: String| x@),
            first_file(*fs, all) == first_file(*fs, all.skip(i as int)),
        decreases cands@.len() - i,
    {
        assert(all.skip(i as int)[0] == cands@[i as int]@);
        assert(all.skip(i as int).drop_first() =~= all.skip(i + 1));
        if fs.is_file(cands[i].as_str()) {
            return Some(cands[i].clone());
        }
        i = i + 1;
    }
    assert(all.skip(i as int) =~= Seq::<Seq<char>>::empty());
    None
}

/// Result of import resolution.
#[derive(Debug, Clone)]
pub enum ResolveResult {
    /// A file inside the project.
    Internal(String),
    /// An external package, with the names the import brings in.
    External { library: String, symbols: Vec<String> },
    /// Could not be resolved.
    Unresolved,
}

/// A resolution result as plain text.
pub enum Resolution {
    Internal(Seq<char>),
    /// A library, with the symbols named from it.
    External(Seq<char>, Seq<Seq<char>>),
    Unresolved,
}

impl View for ResolveResult {
    type V = Resolution;

    open spec fn view(&self) -> Resolution {
        match self {
            ResolveResult::Internal(p) => Resolution::Internal(p@),
            ResolveResult::External { library, symbols } => Resolution::External(library@, symbols@.map_values(|s: String| s@)),
            ResolveResult::Unresolved => Resolution::Unresolved,
        }
    }
}

/// An external result naming `library` and no symbols.
fn external(library: String) -> (r: ResolveResult)
    ensures
        r@ == Resolution::External(library@, Seq::empty()),
{
    let symbols: Vec<String> = Vec::new();
    assert(symbols@.map_values(|s: String| s@) =~= Seq::<Seq<char>>::empty());
    ResolveResult::External { library, symbols }
}

// ------------------------------------------------------------------
// TypeScript and JavaScript.
// ------------------------------------------------------------------

/// `compilerOptions` of `tsconfig.json` that resolution reads.
#[derive(Debug, Clone)]
pub struct TsConfig {
    /// `compilerOptions.baseUrl`.
    pub base_url: Option<String>,
    /// `compilerOptions.paths`: each alias pattern with its target patterns,
    /// tried in this order.
    pub paths: Vec<(String, Vec<String>)>,
}

/// The files a TypeScript module path may name, in the order they are
/// tried: the path itself, then with each script extension, then its
/// `index` file.
pub open spec fn ts_candidates(c: Seq<char>) -> Seq<Seq<char>> {
    seq![
        c,
        with_extension(c, "ts"@),
        with_extension(c, "tsx"@),
        with_extension(c, "js"@),
        with_extension(c, "jsx"@),
        with_extension(c, "mts"@),
        with_extension(c, "cts"@),
        join(c, "index.ts"@),
        join(c, "index.tsx"@),
        join(c, "index.js"@),
        join(c, "index.jsx"@),
    ]
}

/// The candidates for `c`.
fn ts_candidate_list(c: &str) -> (r: Vec<String>)
    ensures
        r@.map_values(|x: String| x@) == ts_candidates(c@),
{
    let mut v: Vec<String> = Vec::new();
    v.push(c.to_owned());
    v.push(path_with_extension(c, "ts"));
    v.push(path_with_extension(c, "tsx"));
    v.push(path_with_extension(c, "js"));
    v.push(path_with_extension(c, "jsx"));
    v.push(path_with_extension(c, "mts"));
    v.push(path_with_extension(c, "cts"));
    v.push(path_join(c, "index.ts"));
    v.push(path_join(c, "index.tsx"));
    v.push(path_join(c, "index.js"));
    v.push(path_join(c, "index.jsx"));
    assert(v@.map_values(|x: String| x@) =~= ts_candidates(c@));
    v
}

/// The file the TypeScript module path `c` names, if any.
fn ts_file(fs: &FileSet, c: &str) -> (r: Option<String>)
    ensures
        match r {
            Some(s) => first_file(*fs, ts_candidates(c@)) == Some(s@),
            None => first_file(*fs, ts_candidates(c@)) is None,
        },
{
    let cands = ts_candidate_list(c);
    first_existing(fs, &cands)
}

/// The library an external specifier names: a scoped `@scope/pkg` keeps
/// both segments, any other its first segment.
pub open spec fn ts_library(spec: Seq<char>) -> Seq<char> {
    let segs = split_by(spec, seq!['/']);
    if spec.len() > 0 && spec[0] == '@' {
        if segs.len() >= 2 {
            segs[0] + seq!['/'] + segs[1]
        } else {
            spec
        }
    } else {
        segs[0]
    }
}

/// The directory alias targets are relative to: the project root joined
/// with `baseUrl`, or with `.` when there is none.
pub open spec fn alias_base(root: Seq<char>, tc: TsConfig) -> Seq<char> {
    join(
        root,
        match tc.base_url {
            Some(b) => b@,
            None => seq!['.'],
        },
    )
}

/// The first wildcard target `T*` of `targets` whose `T` + `rest` names a file.
pub open spec fn wildcard_targets(fs: FileSet, base: Seq<char>, targets: Seq<String>, rest: Seq<char>) -> Option<Seq<char>>
    decreases targets.len(),
{
    if targets.len() == 0 {
        None
    } else {
        let t = targets[0]@;
        let r = if t.len() > 0 && t.last() == '*' {
            first_file(fs, ts_candidates(normalize(join(base, t.drop_last() + rest))))
        } else {
            None
        };
        if r is Some {
            r
        } else {
            wildcard_targets(fs, base, targets.drop_first(), rest)
        }
    }
}

/// The first of `targets` that names a file.
pub open spec fn exact_targets(fs: FileSet, base: Seq<char>, targets: Seq<String>) -> Option<Seq<char>>
    decreases targets.len(),
{
    if targets.len() == 0 {
        None
    } else {
        let r = first_file(fs, ts_candidates(normalize(join(base, targets[0]@))));
        if r is Some {
            r
        } else {
            exact_targets(fs, base, targets.drop_first())
        }
    }
}

/// The file the first applicable alias of `entries` maps `spec` to: a
/// wildcard pattern `P*` applies to a specifier that starts with `P`, any
/// other pattern to the specifier equal to it.
pub open spec fn alias_entries(fs: FileSet, base: Seq<char>, entries: Seq<(String, Vec<String>)>, spec: Seq<char>) -> Option<Seq<char>>
    decreases entries.len(),
{
    if entries.len() == 0 {
        None
    } else {
        let pat = entries[0].0@;
        let targets = entries[0].1@;
        let r = if pat.len() > 0 && pat.last() == '*' {
            if pat.drop_last().is_prefix_of(spec) {
                wildcard_targets(fs, base, targets, spec.skip(pat.len() - 1))
            } else {
                None
            }
        } else if pat == spec {
            exact_targets(fs, base, targets)
        } else {
            None
        };
        if r is Some {
            r
        } else {
            alias_entries(fs, base, entries.drop_first(), spec)
        }
    }
}

/// Does `spec` name a path (it starts with `.` or `/`)?
pub open spec fn is_path_spec(spec: Seq<char>) -> bool {
    spec.len() > 0 && (spec[0] == '.' || spec[0] == '/')
}

/// How a TypeScript / JavaScript import of `spec` from `from` resolves: a
/// `tsconfig` alias first, then a bare specifier is external, and a path
/// specifier names a file relative to the importing file's directory.
pub open spec fn ts_resolution(fs: FileSet, root: Seq<char>, from: Seq<char>, spec: Seq<char>, tc: Option<TsConfig>) -> Resolution {
    let alias = match tc {
        Some(c) => alias_entries(fs, alias_base(root, c), c.paths@, spec),
        None => None,
    };
    match alias {
        Some(p) => Resolution::Internal(p),
        None => if !is_path_spec(spec) {
            Resolution::External(ts_library(spec), Seq::empty())
        } else {
            let base = match parent_of(from) {
                Some(b) => b,
                None => root,
            };
            match first_file(fs, ts_candidates(normalize(join(base, spec)))) {
                Some(p) => Resolution::Internal(p),
                None => Resolution::Unresolved,
            }
        },
    }
}

/// The first wildcard target naming a file.
fn wildcard_target_file(fs: &FileSet, base: &str, targets: &Vec<String>, rest: &str) -> (r: Option<String>)
    ensures
        match r {
            Some(s) => wildcard_targets(*fs, base@, targets@, rest@) == Some(s@),
            None => wildcard_targets(*fs, base@, targets@, rest@) is None,
        },
{
    let mut i: usize = 0;
    assert(targets@.skip(0) =~= targets@);
    while i < targets.len()
        invariant
            i <= targets@.len(),
            wildcard_targets(*fs, base@, targets@, rest@) == wildcard_targets(*fs, base@, targets@.skip(i as int), rest@),
        decreases targets@.len() - i,
    {
        assert(targets@.skip(i as int)[0] == targets@[i as int]);
        assert(targets@.skip(i as int).drop_first() =~= targets@.skip(i + 1));
        let tcs = chars_of(targets[i].as_str());
        if tcs.len() > 0 && tcs[tcs.len() - 1] == '*' {
            let mut joined = string_of_range(&tcs, 0, tcs.len() - 1);
            assert(joined@ =~= targets@[i as int]@.drop_last());
            crate::strings::push_str(&mut joined, rest);
            let c = normalize_path(path_join(base, joined.as_str()).as_str());
            if let Some(f) = ts_file(fs, c.as_str()) {
                return Some(f);
            }
        }
        i = i + 1;
    }
    None
}

/// The first exact target naming a file.
fn exact_target_file(fs: &FileSet, base: &str, targets: &Vec<String>) -> (r: Option<String>)
    ensures
        match r {
            Some(s) => exact_targets(*fs, base@, targets@) == Some(s@),
            None => exact_targets(*fs, base@, targets@) is None,
        },
{
    let mut i: usize = 0;
    assert(targets@.skip(0) =~= targets@);
    while i < targets.len()
        invariant
            i <= targets@.len(),
            exact_targets(*fs, base@, targets@) == exact_targets(*fs, base@, targets@.skip(i as int)),
        decreases targets@.len() - i,
    {
        assert(targets@.skip(i as int)[0] == targets@[i as int]);
        assert(targets@.skip(i as int).drop_first() =~= targets@.skip(i + 1));
        let c = normalize_path(path_join(base, targets[i].as_str()).as_str());
        if let Some(f) = ts_file(fs, c.as_str()) {
            return Some(f);
        }
        i = i + 1;
    }
    None
}

/// The file the aliases of `tc` map `spec` to.
fn alias_file(fs: &FileSet, root: &str, spec: &str, tc: &TsConfig) -> (r: Option<String>)
    ensures
        match r {
            Some(s) => alias_entries(*fs, alias_base(root@, *tc), tc.paths@, spec@) == Some(s@),
            None => alias_entries(*fs, alias_base(root@, *tc), tc.paths@, spec@) is None,
        },
{
    let base = match &tc.base_url {
        Some(b) => path_join(root, b.as_str()),
        None => {
            proof {
                reveal_strlit(".");
            }
            path_join(root, ".")
        },
    };
    assert(base@ == alias_base(root@, *tc));
    let scs = chars_of(spec);
    let entries = &tc.paths;
    let mut i: usize = 0;
    assert(entries@.skip(0) =~= entries@);
    while i < entries.len()
        invariant
            i <= entries@.len(),
            base@ == alias_base(root@, *tc),
            scs@ == spec@,
            entries == &tc.paths,
            alias_entries(*fs, base@, entries@, spec@) == alias_entries(*fs, base@, entries@.skip(i as int), spec@),
        decreases entries@.len() - i,
    {
        assert(entries@.skip(i as int)[0] == entries@[i as int]);
        assert(entries@.skip(i as int).drop_first() =~= entries@.skip(i + 1));
        let pat = chars_of(entries[i].0.as_str());
        let targets = &entries[i].1;
        if pat.len() > 0 && pat[pat.len() - 1] == '*' {
            let prefix = string_of_range(&pat, 0, pat.len() - 1);
            let pcs = chars_of(prefix.as_str());
            assert(pcs@ =~= entries@[i as int].0@.drop_last());
            if pcs.len() <= scs.len() && at(&scs, &pcs, 0) {
                assert(scs@.subrange(0, pcs@.len() as int) == pcs@);
                assert(pcs@.is_prefix_of(spec@));
                let rest = string_of_range(&scs, pcs.len(), scs.len());
                assert(rest@ =~= spec@.skip(pat@.len() - 1));
                if let Some(f) = wildcard_target_file(fs, base.as_str(), targets, rest.as_str()) {
                    return Some(f);
                }
            } else {
                proof {
                    if pcs@.is_prefix_of(spec@) {
                        assert(scs@.subrange(0, pcs@.len() as int) =~= pcs@);
                    }
                }
            }
        } else if entries[i].0 == spec.to_owned() {
            if let Some(f) = exact_target_file(fs, base.as_str(), targets) {
                return Some(f);
            }
        }
        i = i + 1;
    }
    None
}

/// The library an external specifier names.
fn ts_library_of(spec: &str) -> (r: String)
    ensures
        r@ == ts_library(spec@),
{
    proof {
        reveal_strlit("/");
    }
    let segs = split_text(spec, "/");
    assert("/"@ =~= seq!['/']);
    let scs = chars_of(spec);
    assert(segs@.map_values(|x: String| x@).len() >= 1);
    if scs.len() > 0 && scs[0] == '@' {
        if segs.len() >= 2 {
            let mut out = segs[0].clone();
            crate::strings::push_char(&mut out, '/');
            crate::strings::push_str(&mut out, segs[1].as_str());
            assert(segs@.map_values(|x: String| x@)[1] == segs@[1]@);
            out
        } else {
            spec.to_owned()
        }
    } else {
        assert(segs@.map_values(|x: String| x@)[0] == segs@[0]@);
        segs[0].clone()
    }
}

/// Resolve a TypeScript / JavaScript import specifier.
///
/// A `tsconfig` alias is tried first; a bare specifier is external (scoped
/// packages keep both segments); a specifier starting with `.` or `/` names
/// the first of the path, the path with `.ts`, `.tsx`, `.js`, `.jsx`,
/// `.mts`, `.cts`, and its `index.{ts,tsx,js,jsx}` that is a file.
pub fn resolve_ts(project_root: &str, from_file: &str, spec: &str, tsconfig: Option<&TsConfig>, files: &FileSet) -> (r: ResolveResult)
    ensures
        r@ == ts_resolution(
            *files,
            project_root@,
            from_file@,
            spec@,
            match tsconfig {
                Some(c) => Some(*c),
                None => None,
            },
        ),
{
    if let Some(tc) = tsconfig {
        if let Some(f) = alias_file(files, project_root, spec, tc) {
            return ResolveResult::Internal(f);
        }
    }
    let scs = chars_of(spec);
    if !(scs.len() > 0 && (scs[0] == '.' || scs[0] == '/')) {
        return external(ts_library_of(spec));
    }
    let base = match path_parent(from_file) {
        Some(b) => b,
        None => project_root.to_owned(),
    };
    let c = normalize_path(path_join(base.as_str(), spec).as_str());
    match ts_file(files, c.as_str()) {
        Some(f) => ResolveResult::Internal(f),
        None => ResolveResult::Unresolved,
    }
}

// ------------------------------------------------------------------
// Python.
// ------------------------------------------------------------------

/// The files a dotted module path may name, in order: the module file and
/// the package `__init__.py`, under `src/` and then at the project root.
pub open spec fn py_candidates(root: Seq<char>, spec: Seq<char>) -> Seq<Seq<char>> {
    let rel = collect_path(split_by(spec, seq!['.']));
    let src = join(root, "src"@);
    seq![
        with_extension(join(src, rel), "py"@),
        join(join(src, rel), "__init__.py"@),
        with_extension(join(root, rel), "py"@),
        join(join(root, rel), "__init__.py"@),
    ]
}

/// How a Python import of the dotted module `spec` resolves: the first
/// candidate file, else the first segment as an external library; an empty
/// specifier or a bare `.` is unresolved.
pub open spec fn py_resolution(fs: FileSet, root: Seq<char>, spec: Seq<char>) -> Resolution {
    if spec.len() == 0 || spec == seq!['.'] {
        Resolution::Unresolved
    } else {
        match first_file(fs, py_candidates(root, spec)) {
            Some(p) => Resolution::Internal(p),
            None => Resolution::External(split_by(spec, seq!['.'])[0], Seq::empty()),
        }
    }
}

/// Resolve a Python absolute dotted module path such as `utils.auth`.
///
/// Tried in order: `src/utils/auth.py`, `src/utils/auth/__init__.py`,
/// `utils/auth.py`, `utils/auth/__init__.py`; when none is a file the first
/// segment names an external library. `from_file` is not consulted.
pub fn resolve_py(project_root: &str, from_file: &str, spec: &str, files: &FileSet) -> (r: ResolveResult)
    ensures
        r@ == py_resolution(*files, project_root@, spec@),
{
    let scs = chars_of(spec);
    if scs.len() == 0 || (scs.len() == 1 && scs[0] == '.') {
        assert(scs@.len() == 1 ==> scs@ =~= seq![scs@[0]]);
        return ResolveResult::Unresolved;
    }
    proof {
        if spec@ == seq!['.'] {
            assert(spec@[0] == '.');
        }
        reveal_strlit(".");
    }
    let segs = split_text(spec, ".");
    assert("."@ =~= seq!['.']);
    let rel = collect_segments(&segs, segs.len());
    assert(segs@.map_values(|x: String| x@).take(segs@.len() as int) =~= segs@.map_values(|x: String| x@));
    let src = path_join(project_root, "src");
    let src_rel = path_join(src.as_str(), rel.as_str());
    let root_rel = path_join(project_root, rel.as_str());
    let mut cands: Vec<String> = Vec::new();
    cands.push(path_with_extension(src_rel.as_str(), "py"));
    cands.push(path_join(src_rel.as_str(), "__init__.py"));
    cands.push(path_with_extension(root_rel.as_str(), "py"));
    cands.push(path_join(root_rel.as_str(), "__init__.py"));
    assert(cands@.map_values(|x: String| x@) =~= py_candidates(project_root@, spec@));
    match first_existing(files, &cands) {
        Some(f) => ResolveResult::Internal(f),
        None => {
            assert(segs@.map_values(|x: String| x@)[0] == segs@[0]@);
            external(segs[0].clone())
        },
    }
}

// ------------------------------------------------------------------
// Rust.
// ------------------------------------------------------------------

/// The files the module path `tail[..n]` under `src/` may be.
pub open spec fn rs_candidates(root: Seq<char>, tail: Seq<Seq<char>>, n: int) -> Seq<Seq<char>> {
    let dir = join(join(root, "src"@), collect_path(tail.take(n)));
    seq![with_extension(dir, "rs"@), join(dir, "mod.rs"@)]
}

/// The file the longest prefix `tail[..n]`, `n` at most `len`, names.
pub open spec fn rs_walk(fs: FileSet, root: Seq<char>, tail: Seq<Seq<char>>, len: int) -> Option<Seq<char>>
    decreases len,
{
    if len <= 0 {
        None
    } else {
        match first_file(fs, rs_candidates(root, tail, len)) {
            Some(p) => Some(p),
            None => rs_walk(fs, root, tail, len - 1),
        }
    }
}

/// How a Rust `use` path resolves: a `crate::`, `self::` or `super::` path
/// names the module file of its longest prefix that exists under `src/`;
/// any other head names an external crate.
pub open spec fn rs_resolution(fs: FileSet, root: Seq<char>, spec: Seq<char>) -> Resolution {
    let segs = split_by(spec, "::"@);
    let head = segs[0];
    if head == "crate"@ || head == "self"@ || head == "super"@ {
        let tail = segs.skip(1);
        if tail.len() == 0 {
            Resolution::Unresolved
        } else {
            match rs_walk(fs, root, tail, tail.len() as int) {
                Some(p) => Resolution::Internal(p),
                None => Resolution::Unresolved,
            }
        }
    } else if head.len() == 0 {
        Resolution::Unresolved
    } else {
        Resolution::External(head, Seq::empty())
    }
}

/// Resolve a Rust `use` path.
///
/// `crate::foo::bar`, `self::foo::bar` and `super::foo::bar` try
/// `src/foo/bar.rs`, then `src/foo/bar/mod.rs`, then the same for `foo`;
/// `super::` is read as `crate::`. Any other head is an external crate.
pub fn resolve_rs(project_root: &str, from_file: &str, spec: &str, files: &FileSet) -> (r: ResolveResult)
    ensures
        r@ == rs_resolution(*files, project_root@, spec@),
{
    proof {
        reveal_strlit("::");
    }
    let all = split_text(spec, "::");
    let ghost segs = all@.map_values(|x: String| x@);
    assert(segs.len() >= 1);
    let head = all[0].clone();
    assert(head@ == segs[0]);
    if head == "crate".to_owned() || head == "self".to_owned() || head == "super".to_owned() {
        let mut tail: Vec<String> = Vec::new();
        let mut k: usize = 1;
        while k < all.len()
            invariant
                1 <= k <= all@.len(),
                segs == all@.map_values(|x: String| x@),
                tail@.map_values(|x: String| x@) == segs.subrange(1, k as int),
            decreases all@.len() - k,
        {
            let ghost before = tail@;
            let t = all[k].clone();
            assert(t@ == segs[k as int]);
            tail.push(t);
            assert(tail@.map_values(|x: String| x@) =~= before.map_values(|x: String| x@).push(t@));
            k = k + 1;
            assert(tail@.map_values(|x: String| x@) =~= segs.subrange(1, k as int));
        }
        let ghost tv = tail@.map_values(|x: String| x@);
        assert(tv =~= segs.skip(1));
        if tail.len() == 0 {
            return ResolveResult::Unresolved;
        }
        let src = path_join(project_root, "src");
        let mut n = tail.len();
        while n > 0
            invariant
                n <= tail@.len(),
                tv == tail@.map_values(|x: String| x@),
                src@ == join(project_root@, "src"@),
                segs == split_by(spec@, "::"@),
                tv == segs.skip(1),
                tv.len() > 0,
                segs[0] == "crate"@ || segs[0] == "self"@ || segs[0] == "super"@,
                rs_walk(*files, project_root@, tv, tv.len() as int) == rs_walk(*files, project_root@, tv, n as int),
            decreases n,
        {
            let rel = collect_segments(&tail, n);
            let dir = path_join(src.as_str(), rel.as_str());
            let mut cands: Vec<String> = Vec::new();
            cands.push(path_with_extension(dir.as_str(), "rs"));
            cands.push(path_join(dir.as_str(), "mod.rs"));
            assert(cands@.map_values(|x: String| x@) =~= rs_candidates(project_root@, tv, n as int));
            if let Some(f) = first_existing(files, &cands) {
                return ResolveResult::Internal(f);
            }
            n = n - 1;
        }
        ResolveResult::Unresolved
    } else if head.as_str().is_empty() {
        ResolveResult::Unresolved
    } else {
        external(head)
    }
}

// ------------------------------------------------------------------
// Resolving the import edges of a graph.
// ------------------------------------------------------------------

/// Key of a symbol id.
pub type IdKey = (Seq<char>, Seq<char>, SymbolKind);

/// The edge tables an import rewrite touches, with lists as sequences.
pub struct EdgeTables {
    pub fwd: Map<IdKey, Seq<Edge>>,
    pub rev: Map<IdKey, Seq<Edge>>,
    pub cent: Map<IdKey, u32>,
}

/// The edge tables of `g`.
pub open spec fn tables(g: &CodeGraph) -> EdgeTables {
    EdgeTables { fwd: seqs(g.forward_edges@), rev: seqs(g.reverse_edges@), cent: g.centrality@ }
}

/// The file an unresolved import edge `e` of `from` resolves to, by the
/// language of `from`'s file; `None` for any other edge or a target that
/// stays unresolved.
pub open spec fn edge_target(fs: FileSet, root: Seq<char>, tc: Option<TsConfig>, from: SymbolId, e: Edge) -> Option<Seq<char>> {
    if e.kind != EdgeKind::Imports || e.confidence != Confidence::Unresolved {
        None
    } else {
        let ext = match extension(from.file@) {
            Some(x) => x,
            None => Seq::empty(),
        };
        let spec = e.to.file@;
        let r = if ext == "rs"@ {
            Some(rs_resolution(fs, root, spec))
        } else if ext == "ts"@ || ext == "tsx"@ || ext == "mts"@ || ext == "cts"@ || ext == "js"@ || ext == "jsx"@
            || ext == "mjs"@ || ext == "cjs"@ {
            Some(ts_resolution(fs, root, from.file@, spec, tc))
        } else if ext == "py"@ || ext == "pyi"@ {
            Some(py_resolution(fs, root, spec))
        } else {
            None
        };
        match r {
            Some(Resolution::Internal(p)) => Some(p),
            _ => None,
        }
    }
}

/// The rewrites `(from, index, file)` for the edges `es[..n]` of `from`.
pub open spec fn list_rewrites(fs: FileSet, root: Seq<char>, tc: Option<TsConfig>, from: SymbolId, es: Seq<Edge>, n: int) -> Seq<(SymbolId, int, Seq<char>)>
    decreases n,
{
    if n <= 0 {
        Seq::empty()
    } else {
        let prev = list_rewrites(fs, root, tc, from, es, n - 1);
        match edge_target(fs, root, tc, from, es[n - 1]) {
            Some(p) => prev.push((from, n - 1, p)),
            None => prev,
        }
    }
}

/// The rewrites for the forward lists `entries[..n]`, in table order.
pub open spec fn table_rewrites(fs: FileSet, root: Seq<char>, tc: Option<TsConfig>, entries: Seq<(SymbolId, Vec<Edge>)>, n: int) -> Seq<(SymbolId, int, Seq<char>)>
    decreases n,
{
    if n <= 0 {
        Seq::empty()
    } else {
        table_rewrites(fs, root, tc, entries, n - 1) + list_rewrites(
            fs,
            root,
            tc,
            entries[n - 1].0,
            entries[n - 1].1@,
            entries[n - 1].1@.len() as int,
        )
    }
}

/// The id `to` moved to `file`.
pub open spec fn moved(to: SymbolId, file: String) -> SymbolId {
    SymbolId { file: file, name: to.name, kind: to.kind }
}

/// Edge `e` pointed at `to` and marked certain.
pub open spec fn retargeted(e: Edge, to: SymbolId) -> Edge {
    Edge { from: e.from, to: to, kind: e.kind, line: e.line, confidence: Confidence::Certain }
}

/// Is `e` an import edge from `from`?
pub open spec fn import_from(from: IdKey) -> spec_fn(Edge) -> bool {
    |e: Edge| !(e.from@ == from && e.kind == EdgeKind::Imports)
}

/// The tables after pointing edge `idx` of `from` at `file`: the edge is
/// marked certain, the old target's reverse list loses `from`'s import edges
/// (and goes when it empties), the new target's gains the edge, and one unit
/// of centrality moves from the old target to the new one (saturating).
pub open spec fn rewrite_step(t: EdgeTables, from: SymbolId, idx: int, file: String) -> EdgeTables {
    if !t.fwd.dom().contains(from@) || idx < 0 || idx >= t.fwd[from@].len() {
        t
    } else {
        let e = t.fwd[from@][idx];
        let old_to = e.to;
        if old_to.file@ == file@ {
            t
        } else {
            let new_to = moved(old_to, file);
            let e2 = retargeted(e, new_to);
            let rev1 = if t.rev.dom().contains(old_to@) {
                let l = t.rev[old_to@].filter(import_from(from@));
                if l.len() == 0 {
                    t.rev.remove(old_to@)
                } else {
                    t.rev.insert(old_to@, l)
                }
            } else {
                t.rev
            };
            let cent1 = if t.cent.dom().contains(old_to@) {
                t.cent.insert(old_to@, sat_sub(t.cent[old_to@] as nat, 1) as u32)
            } else {
                t.cent
            };
            let c = centrality_under(cent1, new_to@);
            EdgeTables {
                fwd: t.fwd.insert(from@, t.fwd[from@].update(idx, e2)),
                rev: rev1.insert(
                    new_to@,
                    (if rev1.dom().contains(new_to@) {
                        rev1[new_to@]
                    } else {
                        Seq::empty()
                    }).push(e2),
                ),
                cent: cent1.insert(new_to@, (if c < u32::MAX { c + 1 } else { c }) as u32),
            }
        }
    }
}

/// The tables after the rewrites `rs`, applied in order.
pub open spec fn rewrite_all(t: EdgeTables, rs: Seq<(SymbolId, usize, String)>) -> EdgeTables
    decreases rs.len(),
{
    if rs.len() == 0 {
        t
    } else {
        let r = rs.last();
        rewrite_step(rewrite_all(t, rs.drop_last()), r.0, r.1 as int, r.2)
    }
}

/// The rewrites as plain values.
pub open spec fn rewrites_view(rs: Seq<(SymbolId, usize, String)>) -> Seq<(SymbolId, int, Seq<char>)> {
    rs.map_values(|r: (SymbolId, usize, String)| (r.0, r.1 as int, r.2@))
}

/// The file an edge resolves to.
fn edge_target_of(files: &FileSet, root: &str, tc: Option<&TsConfig>, from: &SymbolId, e: &Edge) -> (r: Option<String>)
    ensures
        match r {
            Some(p) => edge_target(*files, root@, opt_tc(tc), *from, *e) == Some(p@),
            None => edge_target(*files, root@, opt_tc(tc), *from, *e) is None,
        },
{
    if !(e.kind == EdgeKind::Imports && e.confidence == Confidence::Unresolved) {
        return None;
    }
    let ext = match crate::paths::path_extension(from.file.as_str()) {
        Some(x) => x,
        None => String::new(),
    };
    let spec = e.to.file.as_str();
    let r = if ext == "rs".to_owned() {
        resolve_rs(root, from.file.as_str(), spec, files)
    } else if ext == "ts".to_owned() || ext == "tsx".to_owned() || ext == "mts".to_owned() || ext == "cts".to_owned()
        || ext == "js".to_owned() || ext == "jsx".to_owned() || ext == "mjs".to_owned() || ext == "cjs".to_owned() {
        resolve_ts(root, from.file.as_str(), spec, tc, files)
    } else if ext == "py".to_owned() || ext == "pyi".to_owned() {
        resolve_py(root, from.file.as_str(), spec, files)
    } else {
        return None;
    };
    match r {
        ResolveResult::Internal(p) => Some(p),
        _ => None,
    }
}

/// An optional configuration, read as the value it points at.
pub open spec fn opt_tc(tc: Option<&TsConfig>) -> Option<TsConfig> {
    match tc {
        Some(c) => Some(*c),
        None => None,
    }
}

/// Every rewrite the unresolved import edges of `graph` call for.
fn import_rewrites(graph: &CodeGraph, root: &str, tc: Option<&TsConfig>, files: &FileSet) -> (r: Vec<(SymbolId, usize, String)>)
    ensures
        rewrites_view(r@) == table_rewrites(
            *files,
            root@,
            opt_tc(tc),
            graph.forward_edges.entry_seq(),
            graph.forward_edges.entry_seq().len() as int,
        ),
{
    let ghost entries = graph.forward_edges.entry_seq();
    let mut out: Vec<(SymbolId, usize, String)> = Vec::new();
    let mut i: usize = 0;
    while i < graph.forward_edges.len()
        invariant
            i <= entries.len(),
            entries == graph.forward_edges.entry_seq(),
            rewrites_view(out@) == table_rewrites(*files, root@, opt_tc(tc), entries, i as int),
        decreases entries.len() - i,
    {
        let from = graph.forward_edges.key_at(i);
        let edges = graph.forward_edges.value_at(i);
        let ghost base = rewrites_view(out@);
        let mut j: usize = 0;
        while j < edges.len()
            invariant
                i < entries.len(),
                *from == entries[i as int].0,
                *edges == entries[i as int].1,
                j <= edges@.len(),
                base == table_rewrites(*files, root@, opt_tc(tc), entries, i as int),
                rewrites_view(out@) == base + list_rewrites(*files, root@, opt_tc(tc), *from, edges@, j as int),
            decreases edges@.len() - j,
        {
            let ghost before = out@;
            match edge_target_of(files, root, tc, from, &edges[j]) {
                Some(p) => {
                    out.push((from.clone(), j, p));
                    assert(rewrites_view(out@) =~= rewrites_view(before).push((*from, j as int, p@)));
                },
                None => {},
            }
            j = j + 1;
        }
        i = i + 1;
    }
    out
}

/// Point edge `idx` of `from` at `file`.
fn rewrite_import(graph: &mut CodeGraph, from: &SymbolId, idx: usize, file: &String)
    requires
        old(graph).wf(),
    ensures
        final(graph).wf(),
        tables(final(graph)) == rewrite_step(tables(old(graph)), *from, idx as int, *file),
        final(graph).symbols@ == old(graph).symbols@,
        final(graph).file_symbols@ == old(graph).file_symbols@,
        final(graph).library_imports@ == old(graph).library_imports@,
{
    let ghost t = tables(graph);
    let i = match graph.forward_edges.index_of(from) {
        Some(i) => i,
        None => return,
    };
    let list = clone_edges(graph.forward_edges.value_at(i));
    assert(list@ == t.fwd[from@]);
    if idx >= list.len() {
        return;
    }
    let old_to = list[idx].to.clone();
    if old_to.file == *file {
        return;
    }
    let new_to = SymbolId { file: file.clone(), name: old_to.name.clone(), kind: old_to.kind };
    assert(new_to == moved(old_to, *file));
    let e = &list[idx];
    let updated = Edge { from: e.from.clone(), to: new_to.clone(), kind: e.kind, line: e.line, confidence: Confidence::Certain };
    assert(updated == retargeted(*e, new_to));
    let mut new_list = list;
    let pushed = updated.clone();
    new_list.set(idx, updated);
    graph.forward_edges.set_value_at(i, new_list);
    assert(seqs(graph.forward_edges@) =~= t.fwd.insert(from@, t.fwd[from@].update(idx as int, pushed)));
    // The old target loses `from`'s import edges.
    let ghost rev0 = seqs(graph.reverse_edges@);
    match graph.reverse_edges.index_of(&old_to) {
        Some(j) => {
            let cur = graph.reverse_edges.value_at(j);
            let mut kept: Vec<Edge> = Vec::new();
            let mut k: usize = 0;
            while k < cur.len()
                invariant
                    k <= cur@.len(),
                    kept@ == cur@.take(k as int).filter(import_from(from@)),
                decreases cur@.len() - k,
            {
                proof {
                    crate::graph::types::reveal_filter_push(cur@.take(k as int), cur@[k as int], import_from(from@));
                    assert(cur@.take(k + 1) =~= cur@.take(k as int).push(cur@[k as int]));
                }
                if !(cur[k].from == *from && cur[k].kind == EdgeKind::Imports) {
                    kept.push(cur[k].clone());
                }
                k = k + 1;
            }
            assert(cur@.take(cur@.len() as int) =~= cur@);
            if kept.len() == 0 {
                graph.reverse_edges.remove(&old_to);
                assert(seqs(graph.reverse_edges@) =~= rev0.remove(old_to@));
            } else {
                graph.reverse_edges.set_value_at(j, kept);
                assert(seqs(graph.reverse_edges@) =~= rev0.insert(old_to@, rev0[old_to@].filter(import_from(from@))));
            }
        },
        None => {},
    }
    let ghost rev1 = seqs(graph.reverse_edges@);
    push_edge_under(&mut graph.reverse_edges, &new_to, pushed);
    assert(edges_under(graph.reverse_edges@, new_to@) == edges_under(graph.reverse_edges@, new_to@));
    // One unit of centrality moves from the old target to the new one.
    match graph.centrality.get(&old_to) {
        Some(c) => {
            let c = *c;
            let d = if c > 0 {
                c - 1
            } else {
                0
            };
            graph.centrality.insert(old_to.clone(), d);
        },
        None => {},
    }
    let c = match graph.centrality.get(&new_to) {
        Some(c) => *c,
        None => 0,
    };
    let c2 = if c < 4294967295 {
        c + 1
    } else {
        c
    };
    graph.centrality.insert(new_to, c2);
    proof {
        let r = rewrite_step(t, *from, idx as int, *file);
        assert(seqs(graph.reverse_edges@) =~= r.rev);
        assert(graph.centrality@ =~= r.cent);
    }
}

/// Point every unresolved import edge whose target resolves to a project
/// file at that file, marked certain, keeping the reverse lists and the
/// centrality table in step. Edges of other kinds, edges already resolved
/// and targets that stay unresolved are left as they are.
pub fn resolve_imports(graph: &mut CodeGraph, project_root: &str, tsconfig: Option<&TsConfig>, files: &FileSet)
    requires
        old(graph).wf(),
    ensures
        final(graph).wf(),
        exists|rs: Seq<(SymbolId, usize, String)>|
            rewrites_view(rs) == table_rewrites(
                *files,
                project_root@,
                opt_tc(tsconfig),
                old(graph).forward_edges.entry_seq(),
                old(graph).forward_edges.entry_seq().len() as int,
            ) && tables(final(graph)) == rewrite_all(tables(old(graph)), rs),
        final(graph).symbols@ == old(graph).symbols@,
        final(graph).file_symbols@ == old(graph).file_symbols@,
        final(graph).library_imports@ == old(graph).library_imports@,
{
    let rs = import_rewrites(graph, project_root, tsconfig, files);
    let ghost t0 = tables(graph);
    let mut i: usize = 0;
    assert(rs@.take(0) =~= Seq::<(SymbolId, usize, String)>::empty());
    while i < rs.len()
        invariant
            graph.wf(),
            i <= rs@.len(),
            tables(graph) == rewrite_all(t0, rs@.take(i as int)),
            graph.symbols@ == old(graph).symbols@,
            graph.file_symbols@ == old(graph).file_symbols@,
            graph.library_imports@ == old(graph).library_imports@,
        decreases rs@.len() - i,
    {
        assert(rs@.take(i + 1).drop_last() =~= rs@.take(i as int));
        rewrite_import(graph, &rs[i].0, rs[i].1, &rs[i].2);
        i = i + 1;
    }
    assert(rs@.take(rs@.len() as int) =~= rs@);
}

// ------------------------------------------------------------------
// tsconfig.json.
// ------------------------------------------------------------------

/// A line without its `//` comment.
pub open spec fn uncommented(line: Seq<char>) -> Seq<char> {
    let k = first_at(line, "//"@, 0);
    if k < 0 {
        line
    } else {
        line.take(k)
    }
}

/// `src` with the `//` line comments JSONC allows removed, its lines joined
/// by `'\n'`.
pub open spec fn without_line_comments(src: Seq<char>) -> Seq<char> {
    join_with(lines(src).map_values(|l: Seq<char>| uncommented(l)), seq!['\n'])
}

/// Strip `//` line comments from a JSONC text. Block comments are kept.
pub fn strip_jsonc_comments(src: &str) -> (r: String)
    ensures
        r@ == without_line_comments(src@),
{
    let cs = chars_of(src);
    let ls = lines_of(&cs);
    let marker = chars_of("//");
    let mut kept: Vec<Vec<char>> = Vec::new();
    let mut i: usize = 0;
    let ghost all = lines(cs@);
    while i < ls.len()
        invariant
            i <= ls@.len(),
            ls@.len() == all.len(),
            marker@ == "//"@,
            forall|k: int| 0 <= k < ls@.len() ==> #[trigger] ls@[k]@ == all[k],
            kept@.map_values(|v: Vec<char>| v@) == all.map_values(|l: Seq<char>| uncommented(l)).take(i as int),
        decreases ls@.len() - i,
    {
        let line = &ls[i];
        let cut = match find_first(line, &marker) {
            Some(k) => k,
            None => line.len(),
        };
        let mut piece: Vec<char> = Vec::new();
        let mut j: usize = 0;
        while j < cut
            invariant
                j <= cut <= line@.len(),
                piece@ == line@.take(j as int),
            decreases cut - j,
        {
            piece.push(line[j]);
            j = j + 1;
            assert(piece@ =~= line@.take(j as int));
        }
        proof {
            if cut == line@.len() {
                assert(line@.take(cut as int) =~= line@);
            }
        }
        let ghost before = kept@;
        kept.push(piece);
        assert(kept@.map_values(|v: Vec<char>| v@) =~= before.map_values(|v: Vec<char>| v@).push(uncommented(all[i as int])));
        assert(all.map_values(|l: Seq<char>| uncommented(l)).take(i + 1) =~= all.map_values(|l: Seq<char>| uncommented(l)).take(i as int).push(uncommented(all[i as int])));
        i = i + 1;
    }
    let mut out = String::new();
    proof {
        reveal_strlit("\n");
    }
    crate::search::structural::push_joined(&mut out, &kept, kept.len(), "\n");
    assert("\n"@ =~= seq!['\n']);
    assert(kept@.map_values(|v: Vec<char>| v@).take(kept@.len() as int) =~= kept@.map_values(|v: Vec<char>| v@));
    assert(all.map_values(|l: Seq<char>| uncommented(l)).take(all.len() as int) =~= all.map_values(|l: Seq<char>| uncommented(l)));
    out
}

/// The string elements of `items`, in order.
pub open spec fn string_items(items: Seq<JsonValue>) -> Seq<Seq<char>>
    decreases items.len(),
{
    if items.len() == 0 {
        Seq::empty()
    } else {
        string_items(items.drop_last()) + match str_of(Some(items.last())) {
            Some(s) => seq![s],
            None => Seq::empty(),
        }
    }
}

/// The alias entries of a `compilerOptions.paths` object: each key with the
/// strings of its array value (none when it is not an array).
pub open spec fn alias_members(members: Seq<(String, JsonValue)>) -> Seq<(Seq<char>, Seq<Seq<char>>)> {
    members.map_values(|m: (String, JsonValue)| (m.0@, string_items(array_of(Some(m.1)))))
}

/// The members of an object value, or none.
pub open spec fn object_members(v: Option<JsonValue>) -> Seq<(String, JsonValue)> {
    match v {
        Some(JsonValue::Object(ms)) => ms@,
        _ => Seq::empty(),
    }
}

/// The alias table of `tc` as plain values.
pub open spec fn alias_table(tc: TsConfig) -> Seq<(Seq<char>, Seq<Seq<char>>)> {
    alias_seq(tc.paths@)
}

/// Alias entries as plain values.
pub open spec fn alias_seq(paths: Seq<(String, Vec<String>)>) -> Seq<(Seq<char>, Seq<Seq<char>>)> {
    paths.map_values(|e: (String, Vec<String>)| (e.0@, e.1@.map_values(|t: String| t@)))
}

/// The settings of a parsed `tsconfig.json` document `v`.
pub fn tsconfig_from_json(v: &JsonValue) -> (r: TsConfig)
    ensures
        match r.base_url {
            Some(b) => str_of(field(field(Some(*v), "compilerOptions"@), "baseUrl"@)) == Some(b@),
            None => str_of(field(field(Some(*v), "compilerOptions"@), "baseUrl"@)) is None,
        },
        alias_table(r) == alias_members(object_members(field(field(Some(*v), "compilerOptions"@), "paths"@))),
{
    let co = get(Some(v), "compilerOptions");
    let base_url = match as_str(get(co, "baseUrl")) {
        Some(b) => Some(b.clone()),
        None => None,
    };
    let paths_v = get(co, "paths");
    let ghost members = object_members(opt(paths_v));
    let mut paths: Vec<(String, Vec<String>)> = Vec::new();
    match paths_v {
        Some(JsonValue::Object(ms)) => {
            assert(members == ms@);
            let mut i: usize = 0;
            while i < ms.len()
                invariant
                    i <= ms@.len(),
                    members == ms@,
                    alias_seq(paths@) == alias_members(members).take(i as int),
                decreases ms@.len() - i,
            {
                let items = elements(Some(&ms[i].1));
                let mut targets: Vec<String> = Vec::new();
                let mut j: usize = 0;
                assert(items@.take(0) =~= Seq::<JsonValue>::empty());
                while j < items.len()
                    invariant
                        j <= items@.len(),
                        targets@.map_values(|t: String| t@) == string_items(items@.take(j as int)),
                    decreases items@.len() - j,
                {
                    assert(items@.take(j + 1).drop_last() =~= items@.take(j as int));
                    let ghost before = targets@;
                    match as_str(Some(&items[j])) {
                        Some(t) => {
                            targets.push(t.clone());
                            assert(targets@.map_values(|x: String| x@) =~= before.map_values(|x: String| x@).push(t@));
                        },
                        None => {
                            assert(targets@.map_values(|x: String| x@) =~= before.map_values(|x: String| x@) + Seq::<Seq<char>>::empty());
                        },
                    }
                    j = j + 1;
                }
                assert(items@.take(items@.len() as int) =~= items@);
                let ghost before = paths@;
                let key = ms[i].0.clone();
                paths.push((key, targets));
                assert(alias_seq(paths@) =~= alias_seq(before).push(alias_members(members)[i as int]));
                assert(alias_members(members).take(i + 1) =~= alias_members(members).take(i as int).push(alias_members(members)[i as int]));
                i = i + 1;
            }
            assert(alias_members(members).take(ms@.len() as int) =~= alias_members(members));
        },
        _ => {
            assert(alias_seq(paths@) =~= alias_members(members));
        },
    }
    TsConfig { base_url, paths }
}

/// The settings a `tsconfig.json` text holds once its `//` comments are
/// stripped, or `None` when what remains is not JSON.
pub fn parse_tsconfig(body: &str) -> (r: Option<TsConfig>)
    ensures
        r is Some <==> json_document(encode_utf8(without_line_comments(body@))) is Some,
        r matches Some(tc) ==> alias_table(tc) == alias_members(
            object_members(field(field(json_document(encode_utf8(without_line_comments(body@))), "compilerOptions"@), "paths"@)),
        ),
{
    let stripped = strip_jsonc_comments(body);
    let doc = parse_json(stripped.as_str().as_bytes());
    match &doc {
        Some(v) => Some(tsconfig_from_json(v)),
        None => None,
    }
}

// ------------------------------------------------------------------
// Laws of resolution.
// ------------------------------------------------------------------

/// The first file of `cands` is the one at `k` when it is a file and none
/// before it is.
proof fn lemma_first_file_at(fs: FileSet, cands: Seq<Seq<char>>, k: int)
    requires
        0 <= k < cands.len(),
        fs.has(cands[k]),
        forall|m: int| 0 <= m < k ==> !fs.has(#[trigger] cands[m]),
    ensures
        first_file(fs, cands) == Some(cands[k]),
    decreases k,
{
    if k > 0 {
        assert(!fs.has(cands[0]));
        assert forall|m: int| 0 <= m < k - 1 implies !fs.has(#[trigger] cands.drop_first()[m]) by {
            assert(cands.drop_first()[m] == cands[m + 1]);
        }
        lemma_first_file_at(fs, cands.drop_first(), k - 1);
    }
}

/// No file among `cands` gives none.
proof fn lemma_first_file_none(fs: FileSet, cands: Seq<Seq<char>>)
    requires
        forall|m: int| 0 <= m < cands.len() ==> !fs.has(#[trigger] cands[m]),
    ensures
        first_file(fs, cands) is None,
    decreases cands.len(),
{
    if cands.len() > 0 {
        assert(!fs.has(cands[0]));
        assert forall|m: int| 0 <= m < cands.len() - 1 implies !fs.has(#[trigger] cands.drop_first()[m]) by {
            assert(cands.drop_first()[m] == cands[m + 1]);
        }
        lemma_first_file_none(fs, cands.drop_first());
    }
}

/// A TypeScript or JavaScript import, with no `tsconfig`: a specifier not
/// starting with `.` or `/` names an outside package; a relative one,
/// joined to the importing file's directory and normalised into `c`,
/// resolves to the first of these that is a file: `c` itself, then `c`
/// with extension `ts`, `tsx`, `js`, `jsx`, `mts`, `cts`, then `c`'s
/// `index.ts`, `index.tsx`, `index.js`, `index.jsx`; and stays unresolved
/// when none is.
pub proof fn lemma_ts_resolution_ladder(fs: FileSet, root: Seq<char>, from: Seq<char>, spec: Seq<char>, c: Seq<char>)
    requires
        c == normalize(
            join(
                match parent_of(from) {
                    Some(b) => b,
                    None => root,
                },
                spec,
            ),
        ),
    ensures
        !(spec.len() > 0 && (spec[0] == '.' || spec[0] == '/')) ==> ts_resolution(fs, root, from, spec, None)
            is External,
        spec.len() > 0 && (spec[0] == '.' || spec[0] == '/') ==> {
            let ladder = seq![
                c,
                with_extension(c, "ts"@),
                with_extension(c, "tsx"@),
                with_extension(c, "js"@),
                with_extension(c, "jsx"@),
                with_extension(c, "mts"@),
                with_extension(c, "cts"@),
                join(c, "index.ts"@),
                join(c, "index.tsx"@),
                join(c, "index.js"@),
                join(c, "index.jsx"@),
            ];
            &&& forall|k: int|
                0 <= k < ladder.len() && fs.has(ladder[k]) && (forall|m: int| 0 <= m < k ==> !fs.has(#[trigger] ladder[m]))
                    ==> ts_resolution(fs, root, from, spec, None) == Resolution::Internal(#[trigger] ladder[k])
            &&& (forall|k: int| 0 <= k < ladder.len() ==> !fs.has(#[trigger] ladder[k])) ==> ts_resolution(
                fs,
                root,
                from,
                spec,
                None,
            ) == Resolution::Unresolved
        },
{
    if spec.len() > 0 && (spec[0] == '.' || spec[0] == '/') {
        let ladder = seq![
            c,
            with_extension(c, "ts"@),
            with_extension(c, "tsx"@),
            with_extension(c, "js"@),
            with_extension(c, "jsx"@),
            with_extension(c, "mts"@),
            with_extension(c, "cts"@),
            join(c, "index.ts"@),
            join(c, "index.tsx"@),
            join(c, "index.js"@),
            join(c, "index.jsx"@),
        ];
        assert(ts_candidates(c) =~= ladder);
        assert forall|k: int|
            0 <= k < ladder.len() && fs.has(ladder[k]) && (forall|m: int| 0 <= m < k ==> !fs.has(#[trigger] ladder[m]))
                implies ts_resolution(fs, root, from, spec, None) == Resolution::Internal(#[trigger] ladder[k]) by {
            lemma_first_file_at(fs, ladder, k);
        }
        if forall|k: int| 0 <= k < ladder.len() ==> !fs.has(#[trigger] ladder[k]) {
            lemma_first_file_none(fs, ladder);
        }
    }
}

/// A Python import of the dotted module `spec` (neither empty nor `.`),
/// whose dots become path separators in `rel`: it resolves to the first of
/// `src/rel.py`, `src/rel/__init__.py`, `rel.py`, `rel/__init__.py` under
/// the project root that is a file, and names its first segment as an
/// outside library when none is. An empty or bare `.` module is unresolved.
pub proof fn lemma_py_resolution_ladder(fs: FileSet, root: Seq<char>, spec: Seq<char>, rel: Seq<char>)
    requires
        rel == collect_path(split_by(spec, seq!['.'])),
    ensures
        (spec.len() == 0 || spec == seq!['.']) ==> py_resolution(fs, root, spec) == Resolution::Unresolved,
        !(spec.len() == 0 || spec == seq!['.']) ==> {
            let ladder = seq![
                with_extension(join(join(root, "src"@), rel), "py"@),
                join(join(join(root, "src"@), rel), "__init__.py"@),
                with_extension(join(root, rel), "py"@),
                join(join(root, rel), "__init__.py"@),
            ];
            &&& forall|k: int|
                0 <= k < ladder.len() && fs.has(ladder[k]) && (forall|m: int| 0 <= m < k ==> !fs.has(#[trigger] ladder[m]))
                    ==> py_resolution(fs, root, spec) == Resolution::Internal(#[trigger] ladder[k])
            &&& (forall|k: int| 0 <= k < ladder.len() ==> !fs.has(#[trigger] ladder[k])) ==> py_resolution(fs, root, spec)
                == Resolution::External(split_by(spec, seq!['.'])[0], Seq::empty())
        },
{
    if !(spec.len() == 0 || spec == seq!['.']) {
        let ladder = seq![
            with_extension(join(join(root, "src"@), rel), "py"@),
            join(join(join(root, "src"@), rel), "__init__.py"@),
            with_extension(join(root, rel), "py"@),
            join(join(root, rel), "__init__.py"@),
        ];
        assert(py_candidates(root, spec) =~= ladder);
        assert forall|k: int|
            0 <= k < ladder.len() && fs.has(ladder[k]) && (forall|m: int| 0 <= m < k ==> !fs.has(#[trigger] ladder[m]))
                implies py_resolution(fs, root, spec) == Resolution::Internal(#[trigger] ladder[k]) by {
            lemma_first_file_at(fs, ladder, k);
        }
        if forall|k: int| 0 <= k < ladder.len() ==> !fs.has(#[trigger] ladder[k]) {
            lemma_first_file_none(fs, ladder);
        }
    }
}

/// Splitting on a character the text does not hold gives the text whole.
proof fn lemma_split_without(s: Seq<char>, c: char)
    requires
        !s.contains(c),
    ensures
        split_by(s, seq![c]) == seq![s],
{
    lemma_first_at(s, seq![c], 0);
    let k = first_at(s, seq![c], 0);
    if k >= 0 {
        assert(s.subrange(k, k + 1) == seq![c]);
        assert(s[k] == s.subrange(k, k + 1)[0]);
        assert(s.contains(s[k]));
    }
}

/// A bare import specifier (not starting with `.` or `/`) with no `/` in
/// it names the outside package of that very name, when no `tsconfig`
/// alias applies.
pub proof fn lemma_bare_specifier_names_package(fs: FileSet, root: Seq<char>, from: Seq<char>, spec: Seq<char>)
    requires
        spec.len() > 0,
        spec[0] != '.',
        !spec.contains('/'),
    ensures
        ts_resolution(fs, root, from, spec, None) == Resolution::External(spec, Seq::empty()),
{
    lemma_split_without(spec, '/');
}

/// A Python module without dots that no candidate file holds names the
/// outside library of that very name.
pub proof fn lemma_undotted_module_names_library(fs: FileSet, root: Seq<char>, spec: Seq<char>)
    requires
        spec.len() > 0,
        !spec.contains('.'),
        !fs.has(with_extension(join(join(root, "src"@), spec), "py"@)),
        !fs.has(join(join(join(root, "src"@), spec), "__init__.py"@)),
        !fs.has(with_extension(join(root, spec), "py"@)),
        !fs.has(join(join(root, spec), "__init__.py"@)),
    ensures
        py_resolution(fs, root, spec) == Resolution::External(spec, Seq::empty()),
{
    lemma_split_without(spec, '.');
    if spec == seq!['.'] {
        assert(spec.contains(spec[0]));
    }
    assert(collect_path(seq![spec]) == spec) by {
        assert(seq![spec].drop_last() =~= Seq::<Seq<char>>::empty());
        assert(collect_path(Seq::<Seq<char>>::empty()) == Seq::<char>::empty());
        assert(seq![spec].last() == spec);
        assert(collect_path(seq![spec]) == join(Seq::<char>::empty(), spec));
    }
    lemma_py_resolution_ladder(fs, root, spec, spec);
}

} // verus!
