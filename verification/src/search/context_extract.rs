//! Call-site context taken from a file's text: the lines around a call,
//! a statement's text capped to a few lines, and the argument list of a
//! call found by scanning the lines from the call site on.

use vstd::prelude::*;

use crate::search::hit::{closing_paren, first_index, join_with};
use crate::search::structural::{callee_name, callee_name_of, decorate_context, decorated, push_joined};
use crate::strings::{chars_of, contains_chars, contains_seq, lines, lines_of, push_char, push_range, trim, trim_bounds};

verus! {

broadcast use vstd::string::group_string_axioms;

/// Most lines a context holds.
pub const MAX_CONTEXT_LINES: usize = 20;

/// Most lines scanned from the call site for a call's arguments.
pub const ARG_SCAN_LINES: usize = 10;

/// Longest argument text kept whole; a longer one is cut and marked.
pub const MAX_ARGS_CHARS: usize = 200;

/// The views of a list of lines.
pub open spec fn line_views(ls: Seq<Vec<char>>) -> Seq<Seq<char>> {
    ls.map_values(|v: Vec<char>| v@)
}

/// The lines `from..to` of `ls`, joined by newlines.
pub open spec fn window(ls: Seq<Seq<char>>, from: int, to: int) -> Seq<char> {
    join_with(ls.subrange(from, to), seq!['\n'])
}

/// The smaller of two integers.
pub open spec fn min_int(a: int, b: int) -> int {
    if a <= b {
        a
    } else {
        b
    }
}

/// The 0-based row of the 1-based `line`; line 0 counts as the first.
pub open spec fn row_of(line: u32) -> int {
    if line >= 1 {
        line - 1
    } else {
        0
    }
}

/// First row of the window of `radius` lines around `line`.
pub open spec fn window_start(line: u32, radius: u32) -> int {
    let c = row_of(line);
    if c >= radius {
        c - radius
    } else {
        0
    }
}

/// Past-the-end row of the window of `radius` lines around `line` in a
/// text of `n` lines.
pub open spec fn window_end(line: u32, radius: u32, n: int) -> int {
    min_int(row_of(line) + radius + 1, n)
}

/// The lines within `radius` of the 1-based `line` of `source`, at most
/// [`MAX_CONTEXT_LINES`] of them, joined by newlines. The window is clamped
/// at the ends of the text: past the last line it is empty.
pub open spec fn line_window(source: Seq<char>, line: u32, radius: u32) -> Seq<char> {
    let ls = lines(source);
    let end = window_end(line, radius, ls.len() as int);
    let start = min_int(window_start(line, radius), end);
    window(ls, start, min_int(end, start + MAX_CONTEXT_LINES))
}

/// The first [`MAX_CONTEXT_LINES`] lines of `text`, joined by newlines.
pub open spec fn capped_lines(text: Seq<char>) -> Seq<char> {
    let ls = lines(text);
    window(ls, 0, min_int(ls.len() as int, MAX_CONTEXT_LINES as int))
}

/// An argument text cut to [`MAX_ARGS_CHARS`] characters: a longer one keeps
/// its first 197 characters followed by `...`.
pub open spec fn capped_args(t: Seq<char>) -> Seq<char> {
    if t.len() > MAX_ARGS_CHARS {
        t.take(197) + "..."@
    } else {
        t
    }
}

/// The arguments of the call to `callee` at the 1-based `line` of `source`.
/// The lines from that line on, at most [`ARG_SCAN_LINES`] of them, are
/// joined by newlines; the first `(` in them opens the call when `callee`
/// occurs before it, and the text up to the matching `)` is the argument
/// list. Nothing is found when the line is past the end, there is no such
/// `(`, the callee does not precede it, the `)` is missing, or the argument
/// list is blank.
pub open spec fn call_args(source: Seq<char>, line: u32, callee: Seq<char>) -> Option<Seq<char>> {
    let ls = lines(source);
    let start = row_of(line);
    if start >= ls.len() {
        None
    } else {
        let w = window(ls, start, min_int(start + ARG_SCAN_LINES, ls.len() as int));
        let open = first_index(w, '(');
        if open < 0 || !contains_seq(w.take(open), callee) {
            None
        } else {
            let close = closing_paren(w, open + 1, 1);
            if close < 0 {
                None
            } else {
                let t = trim(w.subrange(open + 1, close));
                if t.len() == 0 {
                    None
                } else {
                    Some(capped_args(t))
                }
            }
        }
    }
}

/// The lines `from..to` of `ls`, joined by newlines.
fn window_text(ls: &Vec<Vec<char>>, from: usize, to: usize) -> (r: String)
    requires
        from <= to <= ls@.len(),
    ensures
        r@ == window(line_views(ls@), from as int, to as int),
{
    let mut part: Vec<Vec<char>> = Vec::new();
    let mut i = from;
    while i < to
        invariant
            from <= i <= to <= ls@.len(),
            line_views(part@) == line_views(ls@).subrange(from as int, i as int),
        decreases to - i,
    {
        let v = ls[i].clone();
        assert(v@ =~= ls@[i as int]@);
        let ghost old_part = part@;
        part.push(v);
        assert(line_views(part@) =~= line_views(old_part).push(v@));
        assert(line_views(ls@).subrange(from as int, i + 1) =~= line_views(ls@).subrange(from as int, i as int).push(ls@[i as int]@));
        i = i + 1;
    }
    let mut out = String::new();
    push_joined(&mut out, &part, part.len(), "\n");
    proof {
        reveal_strlit("\n");
        assert(line_views(part@).take(part@.len() as int) =~= line_views(part@));
        assert("\n"@ =~= seq!['\n']);
    }
    out
}

/// The lines within `radius` of the 1-based `line` of `source`, at most
/// [`MAX_CONTEXT_LINES`] of them, joined by newlines: the context shown
/// when no enclosing statement is found.
pub fn line_window_fallback(source: &str, line: u32, radius: u32) -> (r: String)
    ensures
        r@ == line_window(source@, line, radius),
{
    let cs = chars_of(source);
    let ls = lines_of(&cs);
    assert(line_views(ls@) =~= lines(source@));
    let center: u64 = if line >= 1 {
        (line - 1) as u64
    } else {
        0
    };
    let n = ls.len() as u64;
    let mut end: u64 = center + radius as u64 + 1;
    if end > n {
        end = n;
    }
    let mut start: u64 = if center >= radius as u64 {
        center - radius as u64
    } else {
        0
    };
    if start > end {
        start = end;
    }
    let mut stop = end;
    if stop > start + MAX_CONTEXT_LINES as u64 {
        stop = start + MAX_CONTEXT_LINES as u64;
    }
    window_text(&ls, start as usize, stop as usize)
}

/// The first [`MAX_CONTEXT_LINES`] lines of `text`, joined by newlines.
pub fn cap_lines(text: &str) -> (r: String)
    ensures
        r@ == capped_lines(text@),
{
    let cs = chars_of(text);
    let ls = lines_of(&cs);
    assert(line_views(ls@) =~= lines(text@));
    let end = if ls.len() < MAX_CONTEXT_LINES {
        ls.len()
    } else {
        MAX_CONTEXT_LINES
    };
    window_text(&ls, 0, end)
}

/// Position of the first `c` in `cs`, if any.
fn first_position(cs: &Vec<char>, c: char) -> (r: Option<usize>)
    ensures
        match r {
            Some(i) => i < cs@.len() && i == first_index(cs@, c),
            None => first_index(cs@, c) < 0,
        },
{
    let mut i: usize = 0;
    while i < cs.len() && cs[i] != c
        invariant
            i <= cs@.len(),
            first_index(cs@, c) == crate::search::hit::first_index_from(cs@, c, i as int),
        decreases cs@.len() - i,
    {
        i = i + 1;
    }
    if i < cs.len() {
        Some(i)
    } else {
        None
    }
}

/// Position of the `)` that closes the `(` just before `from`, if any.
fn closing_position(cs: &Vec<char>, from: usize) -> (r: Option<usize>)
    requires
        1 <= from <= cs@.len(),
    ensures
        match r {
            Some(i) => from <= i < cs@.len() && i == closing_paren(cs@, from as int, 1),
            None => closing_paren(cs@, from as int, 1) < 0,
        },
{
    let mut depth: usize = 1;
    let mut k: usize = from;
    while k < cs.len()
        invariant
            1 <= from <= k <= cs@.len(),
            1 <= depth <= k - from + 1,
            closing_paren(cs@, from as int, 1) == closing_paren(cs@, k as int, depth as int),
        decreases cs@.len() - k,
    {
        if cs[k] == '(' {
            depth = depth + 1;
        } else if cs[k] == ')' {
            if depth == 1 {
                return Some(k);
            }
            depth = depth - 1;
        }
        k = k + 1;
    }
    None
}

/// The arguments of the call to `callee` at the 1-based `call_site_line`
/// of `source`, trimmed and cut to [`MAX_ARGS_CHARS`] characters.
pub fn extract_call_args(source: &str, call_site_line: u32, callee: &str) -> (r: Option<String>)
    ensures
        match r {
            Some(a) => call_args(source@, call_site_line, callee@) == Some(a@),
            None => call_args(source@, call_site_line, callee@) is None,
        },
{
    let cs = chars_of(source);
    let ls = lines_of(&cs);
    assert(line_views(ls@) =~= lines(source@));
    let start: usize = if call_site_line >= 1 {
        (call_site_line - 1) as usize
    } else {
        0
    };
    if start as u64 >= ls.len() as u64 {
        return None;
    }
    let end = if ls.len() - start < ARG_SCAN_LINES {
        ls.len()
    } else {
        start + ARG_SCAN_LINES
    };
    let w_text = window_text(&ls, start, end);
    let w = chars_of(w_text.as_str());
    let open = match first_position(&w, '(') {
        Some(i) => i,
        None => {
            return None;
        },
    };
    let mut before: Vec<char> = Vec::new();
    let mut k: usize = 0;
    while k < open
        invariant
            k <= open < w@.len(),
            before@ == w@.take(k as int),
        decreases open - k,
    {
        before.push(w[k]);
        k = k + 1;
        assert(before@ =~= w@.take(k as int));
    }
    let name = chars_of(callee);
    if !contains_chars(&before, &name) {
        return None;
    }
    let wn = w.len();
    assert(open < wn);
    let close = match closing_position(&w, open + 1) {
        Some(i) => i,
        None => {
            return None;
        },
    };
    let mut inner: Vec<char> = Vec::new();
    let mut j = open + 1;
    while j < close
        invariant
            open + 1 <= j <= close < w@.len(),
            inner@ == w@.subrange(open + 1, j as int),
        decreases close - j,
    {
        inner.push(w[j]);
        j = j + 1;
        assert(inner@ =~= w@.subrange(open + 1, j as int));
    }
    let (a, b) = trim_bounds(&inner);
    if a == b {
        return None;
    }
    let mut out = String::new();
    if b - a > MAX_ARGS_CHARS {
        push_range(&mut out, &inner, a, a + 197);
        push_char(&mut out, '.');
        push_char(&mut out, '.');
        push_char(&mut out, '.');
        proof {
            reveal_strlit("...");
            let t = inner@.subrange(a as int, b as int);
            assert(inner@.subrange(a as int, a + 197) =~= t.take(197));
            assert(out@ =~= t.take(197) + "..."@);
        }
    } else {
        push_range(&mut out, &inner, a, b);
    }
    Some(out)
}

/// The context shown for a caller hit: the call's enclosing `statement`
/// below a comment naming the callee's signature `callee_sig` and, when the
/// call's arguments are found in `source` at `line`, a comment with them.
pub open spec fn call_context_text(source: Seq<char>, statement: Seq<char>, callee_sig: Seq<char>, line: u32) -> Seq<char> {
    decorated(
        statement,
        callee_sig,
        match callee_name(callee_sig) {
            Some(n) => call_args(source, line, n),
            None => None,
        },
    )
}

/// The context of the call at the 1-based `line` of `source` to the callee
/// whose signature is `callee_sig`, around its enclosing `statement`.
pub fn call_context(source: &str, statement: &str, callee_sig: &str, line: u32) -> (r: String)
    ensures
        r@ == call_context_text(source@, statement@, callee_sig@, line),
{
    let args = match callee_name_of(callee_sig) {
        Some(name) => extract_call_args(source, line, name.as_str()),
        None => None,
    };
    match args {
        Some(a) => decorate_context(statement, callee_sig, Some(a.as_str())),
        None => decorate_context(statement, callee_sig, None),
    }
}

} // verus!
