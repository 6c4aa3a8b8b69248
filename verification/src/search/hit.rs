//! Search result record and its one-line rendering.

use vstd::prelude::*;

use crate::graph::ops::centrality_rank;
use crate::graph::types::{CodeGraph, Symbol, SymbolId};
use crate::paths::{path_relative_to, relative_to};
use crate::sorting::{stable_sort, stable_sorted};
use crate::strings::{
    chars_of, contains_seq, decimal, lines, lines_of, occurs_at, push_char, push_decimal,
    push_range, push_str, string_of, trim, trim_string,
};

verus! {

broadcast use vstd::string::group_string_axioms;

/// A single search result.
#[derive(Debug, PartialEq, Eq)]
pub struct SearchHit {
    pub file: String,
    pub line: u32,
    /// Inline signature for structural results; `None` for grep hits.
    pub signature: Option<String>,
    /// Raw matching line for grep hits; `None` for structural hits.
    pub snippet: Option<String>,
    /// Call-site context attached to caller hits, rendered with a `  | ` prefix per line.
    pub context: Option<String>,
}

/// The text of an optional string.
pub open spec fn opt_text(o: Option<String>) -> Option<Seq<char>> {
    match o {
        Some(s) => Some(s@),
        None => None,
    }
}

/// Abstract value of a [`SearchHit`].
pub struct HitView {
    pub file: Seq<char>,
    pub line: u32,
    pub signature: Option<Seq<char>>,
    pub snippet: Option<Seq<char>>,
    pub context: Option<Seq<char>>,
}

impl View for SearchHit {
    type V = HitView;

    open spec fn view(&self) -> HitView {
        HitView {
            file: self.file@,
            line: self.line,
            signature: opt_text(self.signature),
            snippet: opt_text(self.snippet),
            context: opt_text(self.context),
        }
    }
}

/// A copy of an optional string.
pub fn copy_opt(o: &Option<String>) -> (r: Option<String>)
    ensures
        opt_text(r) == opt_text(*o),
{
    match o {
        Some(s) => Some(s.clone()),
        None => None,
    }
}

impl Clone for SearchHit {
    fn clone(&self) -> (r: Self)
        ensures
            r@ == self@,
    {
        SearchHit {
            file: self.file.clone(),
            line: self.line,
            signature: copy_opt(&self.signature),
            snippet: copy_opt(&self.snippet),
            context: copy_opt(&self.context),
        }
    }
}

/// The structural hit for a symbol.
pub open spec fn structural_view(s: Symbol) -> HitView {
    HitView { file: s.id.file@, line: s.line_start, signature: Some(s.signature@), snippet: None, context: None }
}

/// The hint hit carrying `message`.
pub open spec fn hint_view(message: Seq<char>) -> HitView {
    HitView { file: Seq::empty(), line: 0, signature: Some(message), snippet: None, context: None }
}

/// A hint: empty file, line zero, no snippet.
pub open spec fn is_hint_view(h: HitView) -> bool {
    h.file.len() == 0 && h.line == 0 && h.snippet is None
}

impl SearchHit {
    /// A structural hit for `symbol`, carrying its signature inline.
    pub fn structural(symbol: &Symbol) -> (r: Self)
        ensures
            r@ == structural_view(*symbol),
    {
        SearchHit {
            file: symbol.id.file.clone(),
            line: symbol.line_start,
            signature: Some(symbol.signature.clone()),
            snippet: None,
            context: None,
        }
    }

    /// A grep hit for a raw `file:line` match.
    pub fn grep(file: String, line: u32, snippet: String) -> (r: Self)
        ensures
            r@ == (HitView { file: file@, line, signature: None, snippet: Some(snippet@), context: None }),
    {
        SearchHit { file, line, signature: None, snippet: Some(snippet), context: None }
    }

    /// A synthetic hit that carries guidance rather than a match.
    pub fn empty_hint(message: &str) -> (r: Self)
        ensures
            r@ == hint_view(message@),
    {
        SearchHit {
            file: String::new(),
            line: 0,
            signature: Some(message.to_owned()),
            snippet: None,
            context: None,
        }
    }

    /// Is this a synthetic hint (empty file, line zero, no snippet)?
    pub fn is_hint(&self) -> (r: bool)
        ensures
            r == is_hint_view(self@),
    {
        let f = chars_of(self.file.as_str());
        f.len() == 0 && self.line == 0 && self.snippet.is_none()
    }

    /// This hit with the signature cut after the parenthesis that closes its
    /// parameter list, dropping any return type.
    pub fn without_return_type(self) -> (r: Self)
        ensures
            r@ == (HitView {
                file: self@.file,
                line: self@.line,
                signature: match self@.signature {
                    Some(s) => Some(drop_return_type(s)),
                    None => None,
                },
                snippet: self@.snippet,
                context: self@.context,
            }),
    {
        let SearchHit { file, line, signature, snippet, context } = self;
        let signature = match signature {
            Some(s) => Some(cut_return_type(&s)),
            None => None,
        };
        SearchHit { file, line, signature, snippet, context }
    }

    /// One compact line: the path relative to `project_root` when it lies under
    /// it, `:line`, and the compacted signature (a hint's message verbatim, or
    /// the trimmed snippet); each context line follows on its own `  | ` line.
    pub fn to_compact_line(&self, project_root: &str) -> (r: String)
        ensures
            r@ == compact_line(self@, project_root@),
    {
        let mut out = path_relative_to(self.file.as_str(), project_root);
        push_char(&mut out, ':');
        push_decimal(&mut out, self.line as u64);
        let hint = self.is_hint();
        let body: String = match &self.signature {
            Some(sig) => {
                if hint {
                    sig.clone()
                } else {
                    compact_signature(sig.as_str())
                }
            },
            None => match &self.snippet {
                Some(sn) => trim_string(sn.as_str()),
                None => String::new(),
            },
        };
        let bc = chars_of(body.as_str());
        if bc.len() > 0 {
            push_char(&mut out, ' ');
            push_str(&mut out, body.as_str());
        }
        let ghost head = out@;
        assert(head == compact_head(self@, project_root@)) by {
            assert(body@ == compact_body(self@));
        }
        match &self.context {
            Some(ctx) => {
                let cc = chars_of(ctx.as_str());
                if cc.len() > 0 {
                    push_char(&mut out, '\n');
                    let ls = lines_of(&cc);
                    let mut i: usize = 0;
                    while i < ls.len()
                        invariant
                            cc@ == ctx@,
                            ls@.len() == lines(cc@).len(),
                            forall|k: int| 0 <= k < ls@.len() ==> #[trigger] ls@[k]@ == lines(cc@)[k],
                            i <= ls@.len(),
                            out@ == head + seq!['\n'] + join_with(
                                piped(lines(cc@)).take(i as int),
                                seq!['\n'],
                            ),
                        decreases ls@.len() - i,
                    {
                        let ghost before = out@;
                        if i > 0 {
                            push_char(&mut out, '\n');
                        }
                        push_str(&mut out, "  | ");
                        push_range(&mut out, &ls[i], 0, ls[i].len());
                        proof {
                            let ps = piped(lines(cc@));
                            assert(ls@[i as int]@.subrange(0, ls@[i as int]@.len() as int) =~= ls@[i as int]@);
                            assert(ps.take(i + 1).drop_last() =~= ps.take(i as int));
                            assert(ps[i as int] == "  | "@ + lines(cc@)[i as int]);
                            if i > 0 {
                                assert(out@ =~= head + seq!['\n'] + (join_with(ps.take(i as int), seq!['\n']) + seq!['\n'] + ps[i as int]));
                            } else {
                                assert(out@ =~= head + seq!['\n'] + ps[i as int]);
                            }
                        }
                        i = i + 1;
                    }
                    assert(piped(lines(cc@)).take(ls@.len() as int) =~= piped(lines(cc@)));
                }
            },
            None => {},
        }
        out
    }
}

/// Parts joined by `sep`.
pub open spec fn join_with(parts: Seq<Seq<char>>, sep: Seq<char>) -> Seq<char>
    decreases parts.len(),
{
    if parts.len() == 0 {
        Seq::empty()
    } else if parts.len() == 1 {
        parts[0]
    } else {
        join_with(parts.drop_last(), sep) + sep + parts.last()
    }
}

/// Each line prefixed with `  | `.
pub open spec fn piped(ls: Seq<Seq<char>>) -> Seq<Seq<char>> {
    ls.map_values(|l: Seq<char>| "  | "@ + l)
}

/// What follows the path in a compact line.
pub open spec fn compact_body(h: HitView) -> Seq<char> {
    match h.signature {
        Some(sig) => if is_hint_view(h) {
            sig
        } else {
            compact(sig)
        },
        None => match h.snippet {
            Some(sn) => trim(sn),
            None => Seq::empty(),
        },
    }
}

/// `path:line` and, when there is one, the body.
pub open spec fn compact_head(h: HitView, root: Seq<char>) -> Seq<char> {
    let base = relative_to(h.file, root) + seq![':'] + decimal(h.line as nat);
    let body = compact_body(h);
    if body.len() == 0 {
        base
    } else {
        base + seq![' '] + body
    }
}

/// The full compact rendering of a hit.
pub open spec fn compact_line(h: HitView, root: Seq<char>) -> Seq<char> {
    let head = compact_head(h, root);
    match h.context {
        Some(ctx) => if ctx.len() > 0 {
            head + seq!['\n'] + join_with(piped(lines(ctx)), seq!['\n'])
        } else {
            head
        },
        None => head,
    }
}

// ---------------------------------------------------------------------------
// Signature compaction.

pub open spec fn is_ascii_alpha(c: char) -> bool {
    ('a' <= c && c <= 'z') || ('A' <= c && c <= 'Z')
}

pub open spec fn is_ascii_alnum(c: char) -> bool {
    is_ascii_alpha(c) || ('0' <= c && c <= '9')
}

fn ascii_alpha(c: char) -> (r: bool)
    ensures
        r == is_ascii_alpha(c),
{
    ('a' <= c && c <= 'z') || ('A' <= c && c <= 'Z')
}

fn ascii_alnum(c: char) -> (r: bool)
    ensures
        r == is_ascii_alnum(c),
{
    ascii_alpha(c) || ('0' <= c && c <= '9')
}

/// A `'` at `i` starts a lifetime: an ASCII letter or `_` follows it.
pub open spec fn lifetime_start(s: Seq<char>, i: int) -> bool {
    i + 1 < s.len() && (is_ascii_alpha(s[i + 1]) || s[i + 1] == '_')
}

/// End of the run of ASCII alphanumerics and `_` starting at `i`.
pub open spec fn ident_end(s: Seq<char>, i: int) -> int
    decreases s.len() - i,
{
    if 0 <= i < s.len() && (is_ascii_alnum(s[i]) || s[i] == '_') {
        ident_end(s, i + 1)
    } else {
        i
    }
}

/// End of the run of spaces starting at `i`.
pub open spec fn spaces_end(s: Seq<char>, i: int) -> int
    decreases s.len() - i,
{
    if 0 <= i < s.len() && s[i] == ' ' {
        spaces_end(s, i + 1)
    } else {
        i
    }
}

/// Where scanning resumes after the lifetime at `i`: past its name, and inside
/// generics also past a following `,` and the spaces after it.
pub open spec fn after_lifetime(s: Seq<char>, i: int, depth: int) -> int {
    let j = ident_end(s, i + 1);
    if depth > 0 && j < s.len() && s[j] == ',' {
        spaces_end(s, j + 1)
    } else {
        j
    }
}

pub proof fn lemma_ident_end(s: Seq<char>, i: int)
    ensures
        ident_end(s, i) >= i,
        0 <= i <= s.len() ==> ident_end(s, i) <= s.len(),
    decreases s.len() - i,
{
    if 0 <= i < s.len() && (is_ascii_alnum(s[i]) || s[i] == '_') {
        lemma_ident_end(s, i + 1);
    }
}

pub proof fn lemma_spaces_end(s: Seq<char>, i: int)
    ensures
        spaces_end(s, i) >= i,
        0 <= i <= s.len() ==> spaces_end(s, i) <= s.len(),
    decreases s.len() - i,
{
    if 0 <= i < s.len() && s[i] == ' ' {
        lemma_spaces_end(s, i + 1);
    }
}

/// `s[i..]` with lifetimes removed, `depth` being the `<` nesting at `i`.
pub open spec fn strip_lifetimes_from(s: Seq<char>, i: int, depth: int) -> Seq<char>
    decreases s.len() - i,
{
    if i < 0 || i >= s.len() {
        Seq::empty()
    } else if s[i] == '<' {
        seq!['<'] + strip_lifetimes_from(s, i + 1, depth + 1)
    } else if s[i] == '>' {
        seq!['>'] + strip_lifetimes_from(s, i + 1, depth - 1)
    } else if s[i] == '\'' && lifetime_start(s, i) {
        proof {
            lemma_ident_end(s, i + 1);
            lemma_spaces_end(s, ident_end(s, i + 1) + 1);
        }
        strip_lifetimes_from(s, after_lifetime(s, i, depth), depth)
    } else {
        seq![s[i]] + strip_lifetimes_from(s, i + 1, depth)
    }
}

/// Net `<` nesting of `s[..pos]`.
pub open spec fn angle_depth(s: Seq<char>, pos: int) -> int
    decreases pos,
{
    if pos <= 0 {
        0
    } else {
        angle_depth(s, pos - 1) + if s[pos - 1] == '<' {
            1int
        } else if s[pos - 1] == '>' {
            -1int
        } else {
            0int
        }
    }
}

/// Position `pos` lies inside an unclosed `<`.
pub open spec fn in_generics(s: Seq<char>, pos: int) -> bool {
    angle_depth(s, pos) > 0
}

/// Where a generic bound starting at `j` ends: the next `,` or `>` at nesting
/// `depth` zero, or the end of `s`.
pub open spec fn bound_end(s: Seq<char>, j: int, depth: int) -> int
    decreases s.len() - j,
{
    if j < 0 || j >= s.len() {
        j
    } else if s[j] == '<' {
        bound_end(s, j + 1, depth + 1)
    } else if (s[j] == '>' || s[j] == ',') && depth == 0 {
        j
    } else if s[j] == '>' {
        bound_end(s, j + 1, depth - 1)
    } else {
        bound_end(s, j + 1, depth)
    }
}

pub proof fn lemma_bound_end(s: Seq<char>, j: int, depth: int)
    ensures
        bound_end(s, j, depth) >= j,
        0 <= j <= s.len() ==> bound_end(s, j, depth) <= s.len(),
    decreases s.len() - j,
{
    if 0 <= j < s.len() {
        if s[j] == '<' {
            lemma_bound_end(s, j + 1, depth + 1);
        } else if (s[j] == '>' || s[j] == ',') && depth == 0 {
        } else if s[j] == '>' {
            lemma_bound_end(s, j + 1, depth - 1);
        } else {
            lemma_bound_end(s, j + 1, depth);
        }
    }
}

/// A `:` at `j` opens a generic bound: it follows an ASCII alphanumeric inside `<...>`.
pub open spec fn opens_bound(s: Seq<char>, j: int) -> bool {
    s[j] == ':' && j > 0 && is_ascii_alnum(s[j - 1]) && in_generics(s, j)
}

/// `s[j..]` with generic bounds removed.
pub open spec fn strip_bounds_from(s: Seq<char>, j: int) -> Seq<char>
    decreases s.len() - j,
{
    if j < 0 || j >= s.len() {
        Seq::empty()
    } else if opens_bound(s, j) {
        proof {
            lemma_bound_end(s, j + 1, 0);
        }
        strip_bounds_from(s, bound_end(s, j, 0))
    } else {
        seq![s[j]] + strip_bounds_from(s, j + 1)
    }
}

/// `s` without a leading `fn `.
pub open spec fn strip_fn(s: Seq<char>) -> Seq<char> {
    if "fn "@.is_prefix_of(s) {
        s.skip(3)
    } else {
        s
    }
}

/// Last position at or before `i` where `p` occurs in `s`, or `-1`.
pub open spec fn last_occurrence(s: Seq<char>, p: Seq<char>, i: int) -> int
    decreases i + 1,
{
    if i < 0 {
        -1
    } else if occurs_at(s, p, i) {
        i
    } else {
        last_occurrence(s, p, i - 1)
    }
}

/// The `): T` return style rewritten as `) -> T` when `t` has no `->`.
pub open spec fn arrow_style(t: Seq<char>) -> Seq<char> {
    if contains_seq(t, "->"@) {
        t
    } else {
        let idx = last_occurrence(t, "):"@, t.len() as int);
        if idx < 0 {
            t
        } else {
            t.take(idx + 1) + " ->"@ + t.skip(idx + 2)
        }
    }
}

/// A signature compacted for orientation: lifetimes and generic bounds removed,
/// a leading `fn ` dropped, and `): T` written `) -> T` when there is no `->`.
pub open spec fn compact(sig: Seq<char>) -> Seq<char> {
    arrow_style(strip_fn(strip_bounds_from(strip_lifetimes_from(sig, 0, 0), 0)))
}

/// Pass 1: drop lifetimes.
fn strip_lifetimes(cs: &Vec<char>) -> (r: Vec<char>)
    ensures
        r@ == strip_lifetimes_from(cs@, 0, 0),
{
    let n = cs.len();
    let mut out: Vec<char> = Vec::new();
    let mut depth: i128 = 0;
    let mut i: usize = 0;
    while i < n
        invariant
            n == cs@.len(),
            i <= n,
            -(i as int) <= depth <= i as int,
            out@ + strip_lifetimes_from(cs@, i as int, depth as int) == strip_lifetimes_from(cs@, 0, 0),
        decreases n - i,
    {
        let c = cs[i];
        let ghost rest = strip_lifetimes_from(cs@, i as int, depth as int);
        if c == '<' {
            out.push(c);
            assert(out@ + strip_lifetimes_from(cs@, i + 1, depth + 1) =~= (out@.drop_last()) + rest);
            depth = depth + 1;
            i = i + 1;
        } else if c == '>' {
            out.push(c);
            assert(out@ + strip_lifetimes_from(cs@, i + 1, depth - 1) =~= (out@.drop_last()) + rest);
            depth = depth - 1;
            i = i + 1;
        } else if c == '\'' && i + 1 < n && (ascii_alpha(cs[i + 1]) || cs[i + 1] == '_') {
            let ghost d0 = depth;
            let mut j = i + 1;
            while j < n && (ascii_alnum(cs[j]) || cs[j] == '_')
                invariant
                    i < j <= n,
                    n == cs@.len(),
                    ident_end(cs@, i + 1) == ident_end(cs@, j as int),
                decreases n - j,
            {
                j = j + 1;
            }
            if depth > 0 && j < n && cs[j] == ',' {
                j = j + 1;
                while j < n && cs[j] == ' '
                    invariant
                        i < j <= n,
                        n == cs@.len(),
                        spaces_end(cs@, ident_end(cs@, i + 1) + 1) == spaces_end(cs@, j as int),
                    decreases n - j,
                {
                    j = j + 1;
                }
            }
            assert(j as int == after_lifetime(cs@, i as int, d0 as int));
            i = j;
        } else {
            out.push(c);
            assert(out@ + strip_lifetimes_from(cs@, i + 1, depth as int) =~= (out@.drop_last()) + rest);
            i = i + 1;
        }
    }
    assert(out@ + strip_lifetimes_from(cs@, i as int, depth as int) =~= out@);
    out
}

/// Nesting of `<` in `cs[..pos]`.
fn angle_depth_at(cs: &Vec<char>, pos: usize) -> (r: i128)
    requires
        pos <= cs@.len(),
    ensures
        r == angle_depth(cs@, pos as int),
{
    let mut d: i128 = 0;
    let mut k: usize = 0;
    while k < pos
        invariant
            k <= pos <= cs@.len(),
            d == angle_depth(cs@, k as int),
            -(k as int) <= d <= k as int,
        decreases pos - k,
    {
        if cs[k] == '<' {
            d = d + 1;
        } else if cs[k] == '>' {
            d = d - 1;
        }
        k = k + 1;
    }
    d
}

/// Pass 2: drop generic bounds.
fn strip_bounds(cs: &Vec<char>) -> (r: Vec<char>)
    ensures
        r@ == strip_bounds_from(cs@, 0),
{
    let n = cs.len();
    let mut out: Vec<char> = Vec::new();
    let mut j: usize = 0;
    while j < n
        invariant
            n == cs@.len(),
            j <= n,
            out@ + strip_bounds_from(cs@, j as int) == strip_bounds_from(cs@, 0),
        decreases n - j,
    {
        let ghost rest = strip_bounds_from(cs@, j as int);
        if cs[j] == ':' && j > 0 && ascii_alnum(cs[j - 1]) && angle_depth_at(cs, j) > 0 {
            let ghost j0 = j;
            let mut depth: i128 = 0;
            proof {
                lemma_bound_end(cs@, j as int, 0);
            }
            while j < n
                invariant
                    j0 <= j <= n,
                    n == cs@.len(),
                    -(j - j0) <= depth <= j - j0,
                    bound_end(cs@, j0 as int, 0) == bound_end(cs@, j as int, depth as int),
                ensures
                    j0 <= j <= n,
                    j as int == bound_end(cs@, j0 as int, 0),
                decreases n - j,
            {
                let c = cs[j];
                if c == '<' {
                    depth = depth + 1;
                } else if (c == '>' || c == ',') && depth == 0 {
                    break;
                } else if c == '>' {
                    depth = depth - 1;
                }
                j = j + 1;
            }
            proof {
                lemma_bound_end(cs@, j0 + 1, 0);
            }
        } else {
            out.push(cs[j]);
            assert(out@ + strip_bounds_from(cs@, j + 1) =~= (out@.drop_last()) + rest);
            j = j + 1;
        }
    }
    assert(out@ + strip_bounds_from(cs@, j as int) =~= out@);
    out
}

/// Position of the last `"):"` in `cs`, if any.
fn rfind_paren_colon(cs: &Vec<char>) -> (r: Option<usize>)
    ensures
        match r {
            Some(i) => i as int == last_occurrence(cs@, "):"@, cs@.len() as int) && i + 2 <= cs@.len(),
            None => last_occurrence(cs@, "):"@, cs@.len() as int) < 0,
        },
{
    let pat = chars_of("):");
    proof {
        reveal_strlit("):");
    }
    let mut i = cs.len();
    let ghost n = cs@.len() as int;
    if !crate::strings::matches_at(cs, &pat, i) {
        loop
            invariant
                i <= cs@.len(),
                n == cs@.len(),
                pat@ == "):"@,
                pat@.len() == 2,
                last_occurrence(cs@, "):"@, n) == last_occurrence(cs@, "):"@, i as int - 1),
            decreases i,
        {
            if i == 0 {
                return None;
            }
            i = i - 1;
            if crate::strings::matches_at(cs, &pat, i) {
                return Some(i);
            }
        }
    } else {
        Some(i)
    }
}

/// Compact a signature for orientation.
pub fn compact_signature(sig: &str) -> (r: String)
    ensures
        r@ == compact(sig@),
{
    let cs = chars_of(sig);
    let pass1 = strip_lifetimes(&cs);
    let pass2 = strip_bounds(&pass1);
    let fn_kw = chars_of("fn ");
    proof {
        reveal_strlit("fn ");
    }
    let t: Vec<char> = if crate::strings::starts_with_chars(&pass2, &fn_kw) {
        let mut v: Vec<char> = Vec::new();
        let mut k: usize = 3;
        while k < pass2.len()
            invariant
                3 <= k <= pass2@.len(),
                v@ == pass2@.subrange(3, k as int),
            decreases pass2@.len() - k,
        {
            v.push(pass2[k]);
            k = k + 1;
            assert(v@ =~= pass2@.subrange(3, k as int));
        }
        v
    } else {
        pass2
    };
    assert(t@ == strip_fn(strip_bounds_from(strip_lifetimes_from(sig@, 0, 0), 0)));
    if !crate::strings::contains_chars(&t, &chars_of("->")) {
        match rfind_paren_colon(&t) {
            Some(idx) => {
                let tl = t.len();
                assert(idx + 2 <= tl);
                let mut out = String::new();
                push_range(&mut out, &t, 0, idx + 1);
                push_str(&mut out, " ->");
                push_range(&mut out, &t, idx + 2, t.len());
                return out;
            },
            None => {},
        }
    }
    string_of(&t)
}

/// `sig` cut after the parenthesis closing its first `(`, when there is one.
pub open spec fn drop_return_type(sig: Seq<char>) -> Seq<char> {
    let open = first_index(sig, '(');
    if open < 0 {
        sig
    } else {
        let close = closing_paren(sig, open + 1, 1);
        if close < 0 {
            sig
        } else {
            sig.take(close + 1)
        }
    }
}

/// Index of the first `c` in `s` at or after `i`, or `-1`.
pub open spec fn first_index_from(s: Seq<char>, c: char, i: int) -> int
    decreases s.len() - i,
{
    if i < 0 || i >= s.len() {
        -1
    } else if s[i] == c {
        i
    } else {
        first_index_from(s, c, i + 1)
    }
}

/// Index of the first `c` in `s`, or `-1`.
pub open spec fn first_index(s: Seq<char>, c: char) -> int {
    first_index_from(s, c, 0)
}

/// Index of the `)` that brings the nesting `depth` at `i` to zero, or `-1`.
pub open spec fn closing_paren(s: Seq<char>, i: int, depth: int) -> int
    decreases s.len() - i,
{
    if i < 0 || i >= s.len() {
        -1
    } else if s[i] == '(' {
        closing_paren(s, i + 1, depth + 1)
    } else if s[i] == ')' {
        if depth == 1 {
            i
        } else {
            closing_paren(s, i + 1, depth - 1)
        }
    } else {
        closing_paren(s, i + 1, depth)
    }
}

pub proof fn lemma_closing_paren(s: Seq<char>, i: int, depth: int)
    ensures
        closing_paren(s, i, depth) == -1 || (i <= closing_paren(s, i, depth) < s.len()),
    decreases s.len() - i,
{
    if 0 <= i < s.len() {
        if s[i] == '(' {
            lemma_closing_paren(s, i + 1, depth + 1);
        } else if s[i] == ')' {
            if depth != 1 {
                lemma_closing_paren(s, i + 1, depth - 1);
            }
        } else {
            lemma_closing_paren(s, i + 1, depth);
        }
    }
}

/// `sig` without the return type that follows its parameter list.
fn cut_return_type(sig: &String) -> (r: String)
    ensures
        r@ == drop_return_type(sig@),
{
    let cs = chars_of(sig.as_str());
    let n = cs.len();
    let mut i: usize = 0;
    while i < n && cs[i] != '('
        invariant
            n == cs@.len(),
            i <= n,
            first_index(cs@, '(') == first_index_from(cs@, '(', i as int),
        decreases n - i,
    {
        i = i + 1;
    }
    if i == n {
        return sig.clone();
    }
    let ghost open = i as int;
    assert(first_index(cs@, '(') == open);
    let mut depth: usize = 1;
    let mut k: usize = i + 1;
    while k < n
        invariant
            n == cs@.len(),
            cs@ == sig@,
            0 <= open,
            first_index(cs@, '(') == open,
            open < k <= n,
            1 <= depth <= k - open,
            closing_paren(cs@, open + 1, 1) == closing_paren(cs@, k as int, depth as int),
        decreases n - k,
    {
        if cs[k] == '(' {
            depth = depth + 1;
        } else if cs[k] == ')' {
            if depth == 1 {
                assert(closing_paren(cs@, open + 1, 1) == k);
                return string_of_range_from(&cs, k + 1);
            }
            depth = depth - 1;
        }
        k = k + 1;
    }
    assert(closing_paren(cs@, open + 1, 1) == -1);
    sig.clone()
}

/// A string holding `cs[..to]`.
fn string_of_range_from(cs: &Vec<char>, to: usize) -> (r: String)
    requires
        to <= cs@.len(),
    ensures
        r@ == cs@.take(to as int),
{
    crate::strings::string_of_range(cs, 0, to)
}

// ---------------------------------------------------------------------------
// Ranking.

/// Positions of `ids` keyed so that higher centrality sorts first.
pub open spec fn rank_positions(graph: &CodeGraph, ids: Seq<SymbolId>) -> Seq<(usize, u64)> {
    Seq::new(ids.len(), |i: int| (i as usize, centrality_rank(graph, ids[i])))
}

/// `ids` stably sorted by descending centrality (absent entries count as zero).
pub open spec fn by_centrality(graph: &CodeGraph, ids: Seq<SymbolId>) -> Seq<SymbolId> {
    stable_sorted(rank_positions(graph, ids)).map_values(|p: (usize, u64)| ids[p.0 as int])
}

/// Ranking by centrality puts more central symbols first: along
/// `by_centrality(graph, ids)` the centrality never increases, and every
/// ranked symbol is one of `ids`.
pub proof fn lemma_by_centrality_descending(graph: &CodeGraph, ids: Seq<SymbolId>)
    requires
        ids.len() <= usize::MAX,
    ensures
        by_centrality(graph, ids).len() == ids.len(),
        forall|i: int, j: int|
            0 <= i < j < ids.len() ==> crate::graph::types::centrality_under(graph.centrality@, #[trigger] by_centrality(graph, ids)[i]@)
                >= crate::graph::types::centrality_under(graph.centrality@, #[trigger] by_centrality(graph, ids)[j]@),
        forall|i: int| 0 <= i < ids.len() ==> ids.contains(#[trigger] by_centrality(graph, ids)[i]),
{
    let rp = rank_positions(graph, ids);
    let sorted = stable_sorted(rp);
    crate::sorting::lemma_sorted_members(rp);
    crate::sorting::lemma_stable_sorted_ascending(rp);
    assert forall|k: int| 0 <= k < sorted.len() implies 0 <= #[trigger] sorted[k].0 < ids.len() && sorted[k].1
        == centrality_rank(graph, ids[sorted[k].0 as int]) by {
        assert(rp.contains(sorted[k]));
        let w = choose|w: int| 0 <= w < rp.len() && rp[w] == sorted[k];
        assert(rp[w] == (w as usize, centrality_rank(graph, ids[w])));
        assert((w as usize) as int == w);
    }
    assert forall|i: int, j: int|
        0 <= i < j < ids.len() implies crate::graph::types::centrality_under(graph.centrality@, #[trigger] by_centrality(graph, ids)[i]@)
        >= crate::graph::types::centrality_under(graph.centrality@, #[trigger] by_centrality(graph, ids)[j]@) by {
        assert(sorted[i].1 <= sorted[j].1);
        assert(by_centrality(graph, ids)[i] == ids[sorted[i].0 as int]);
        assert(by_centrality(graph, ids)[j] == ids[sorted[j].0 as int]);
    }
    assert forall|i: int| 0 <= i < ids.len() implies ids.contains(#[trigger] by_centrality(graph, ids)[i]) by {
        assert(by_centrality(graph, ids)[i] == ids[sorted[i].0 as int]);
    }
}

/// Sort `ids` by reverse-edge centrality, highest first; ties keep their order.
pub fn sort_by_centrality<'a>(graph: &CodeGraph, ids: &mut Vec<&'a SymbolId>)
    requires
        graph.wf(),
    ensures
        crate::graph::ops::derefs(final(ids)@) == by_centrality(graph, crate::graph::ops::derefs(old(ids)@)),
{
    let ghost orig = crate::graph::ops::derefs(ids@);
    let n = ids.len();
    let mut keyed: Vec<(usize, u64)> = Vec::new();
    let mut i: usize = 0;
    while i < n
        invariant
            n == ids@.len(),
            orig == crate::graph::ops::derefs(ids@),
            graph.wf(),
            i <= n,
            keyed@ == rank_positions(graph, orig).take(i as int),
        decreases n - i,
    {
        let c: u32 = match graph.centrality.get(ids[i]) {
            Some(c) => *c,
            None => 0,
        };
        keyed.push((i, (u32::MAX - c) as u64));
        i = i + 1;
        assert(keyed@ =~= rank_positions(graph, orig).take(i as int));
    }
    assert(keyed@ =~= rank_positions(graph, orig));
    let sorted = stable_sort(keyed);
    proof {
        crate::sorting::lemma_sorted_members(rank_positions(graph, orig));
    }
    let mut out: Vec<&'a SymbolId> = Vec::new();
    let mut j: usize = 0;
    while j < sorted.len()
        invariant
            n == ids@.len(),
            orig == crate::graph::ops::derefs(ids@),
            sorted@ == stable_sorted(rank_positions(graph, orig)),
            sorted@.len() == n,
            forall|k: int| 0 <= k < sorted@.len() ==> rank_positions(graph, orig).contains(#[trigger] sorted@[k]),
            j <= sorted@.len(),
            crate::graph::ops::derefs(out@) == by_centrality(graph, orig).take(j as int),
        decreases sorted@.len() - j,
    {
        let pos = sorted[j].0;
        proof {
            assert(rank_positions(graph, orig).contains(sorted@[j as int]));
            let w = choose|w: int| 0 <= w < rank_positions(graph, orig).len() && rank_positions(graph, orig)[w] == sorted@[j as int];
            assert(pos as int == w);
        }
        let ghost prev = out@;
        out.push(ids[pos]);
        proof {
            assert(crate::graph::ops::derefs(out@) =~= crate::graph::ops::derefs(prev).push(orig[pos as int]));
            assert(by_centrality(graph, orig)[j as int] == orig[pos as int]);
            assert(by_centrality(graph, orig).take(j + 1) =~= by_centrality(graph, orig).take(j as int).push(orig[pos as int]));
        }
        j = j + 1;
    }
    assert(by_centrality(graph, orig).take(n as int) =~= by_centrality(graph, orig));
    *ids = out;
}

} // verus!
