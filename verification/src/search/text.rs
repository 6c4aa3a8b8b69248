//! The grep fallback of `search`: lines of the project's files that match
//! a regular expression, at most [`GREP_MAX_HITS`] of them. A pattern that
//! is no valid regular expression is searched for literally. The file
//! walk and the reading are the caller's; matching is the `regex` crate's.

use vstd::prelude::*;

use crate::search::hit::{HitView, SearchHit};
use crate::search::structural::{first_n, views};
use crate::strings::{trim_end, trim_end_string};

verus! {

broadcast use vstd::string::group_string_axioms;

/// Most hits a grep returns.
pub const GREP_MAX_HITS: usize = 30;

#[verifier::external_type_specification]
#[verifier::external_body]
pub struct ExRegex(regex::Regex);

/// `pattern` is a regular expression the `regex` crate accepts.
pub uninterp spec fn regex_valid(pattern: Seq<char>) -> bool;

/// The characters with a meaning in a regular expression.
pub open spec fn is_meta(c: char) -> bool {
    c == '\\' || c == '.' || c == '+' || c == '*' || c == '?' || c == '(' || c == ')' || c == '|' || c == '['
        || c == ']' || c == '{' || c == '}' || c == '^' || c == '$' || c == '#' || c == '&' || c == '-' || c == '~'
}

/// `pattern` with a backslash before every metacharacter.
pub open spec fn regex_escaped(pattern: Seq<char>) -> Seq<char>
    decreases pattern.len(),
{
    if pattern.len() == 0 {
        Seq::empty()
    } else {
        regex_escaped(pattern.drop_last()) + if is_meta(pattern.last()) {
            seq!['\\', pattern.last()]
        } else {
            seq![pattern.last()]
        }
    }
}

/// The regular expression `pattern` matches somewhere in `text`, as the
/// `regex` crate decides.
pub uninterp spec fn regex_matches(pattern: Seq<char>, text: Seq<char>) -> bool;

/// Calls `regex::Regex::new`; a regex comes back exactly when `regex_valid`
/// holds of the pattern.
#[verifier::external_body]
fn compile(pattern: &str) -> (r: Option<regex::Regex>)
    ensures
        r is Some <==> regex_valid(pattern@),
{
    regex::Regex::new(pattern).ok()
}

/// Calls `regex::escape`, which puts a backslash before each of
/// `\ . + * ? ( ) | [ ] { } ^ $ # & - ~`: the result is `regex_escaped` of
/// the pattern.
#[verifier::external_body]
fn escape(pattern: &str) -> (r: String)
    ensures
        r@ == regex_escaped(pattern@),
{
    regex::escape(pattern)
}

/// A compiled regular expression with the pattern it was compiled from.
pub struct LineMatcher {
    pattern: String,
    re: regex::Regex,
}

impl LineMatcher {
    /// The pattern the matcher was compiled from.
    pub closed spec fn pattern(&self) -> Seq<char> {
        self.pattern@
    }
}

/// Calls `regex::Regex::is_match` on the regex `m` holds, which was
/// compiled from `m`'s pattern; the result is `regex_matches` of that
/// pattern and the text.
#[verifier::external_body]
fn is_match(m: &LineMatcher, text: &str) -> (r: bool)
    ensures
        r == regex_matches(m.pattern(), text@),
{
    m.re.is_match(text)
}

/// The pattern a grep for `pattern` searches with: the pattern itself when
/// it is a valid regular expression, else the pattern escaped.
pub open spec fn grep_pattern(pattern: Seq<char>) -> Seq<char> {
    if regex_valid(pattern) {
        pattern
    } else {
        regex_escaped(pattern)
    }
}

/// The matcher for a grep of `pattern`; `None` when neither the pattern nor
/// its escaped form compiles.
pub fn grep_matcher(pattern: &str) -> (r: Option<LineMatcher>)
    ensures
        match r {
            Some(m) => m.pattern() == grep_pattern(pattern@) && regex_valid(grep_pattern(pattern@)),
            None => !regex_valid(grep_pattern(pattern@)),
        },
{
    match compile(pattern) {
        Some(re) => Some(LineMatcher { pattern: pattern.to_owned(), re }),
        None => {
            let escaped = escape(pattern);
            match compile(escaped.as_str()) {
                Some(re) => Some(LineMatcher { pattern: escaped, re }),
                None => None,
            }
        },
    }
}

/// The 1-based number of the line at index `i`, saturating.
pub open spec fn line_number(i: int) -> u32 {
    if i + 1 <= u32::MAX {
        (i + 1) as u32
    } else {
        u32::MAX
    }
}

/// The hits for the lines of `file` that `pattern` matches, in order:
/// each with its 1-based line number and the line without trailing
/// whitespace. Lines that could not be read (`None`) match nothing but
/// keep their place in the numbering.
pub open spec fn matching_lines(pattern: Seq<char>, file: Seq<char>, lines: Seq<Option<Seq<char>>>) -> Seq<HitView>
    decreases lines.len(),
{
    if lines.len() == 0 {
        Seq::empty()
    } else {
        let rest = matching_lines(pattern, file, lines.drop_last());
        match lines.last() {
            Some(t) => if regex_matches(pattern, t) {
                rest.push(
                    HitView {
                        file,
                        line: line_number(lines.len() - 1),
                        signature: None,
                        snippet: Some(trim_end(t)),
                        context: None,
                    },
                )
            } else {
                rest
            },
            None => rest,
        }
    }
}

/// The texts of a list of optional lines.
pub open spec fn opt_lines(ls: Seq<Option<String>>) -> Seq<Option<Seq<char>>> {
    ls.map_values(
        |l: Option<String>|
            match l {
                Some(s) => Some(s@),
                None => None,
            },
    )
}

/// The number of hits still to be had when `n` were found.
pub open spec fn room(n: int) -> int {
    if n < GREP_MAX_HITS {
        GREP_MAX_HITS - n
    } else {
        0
    }
}

proof fn lemma_first_n_push(s: Seq<HitView>, x: HitView, n: int)
    requires
        0 <= s.len() < n,
    ensures
        first_n(s.push(x), n) == first_n(s, n).push(x),
{
}

/// Add to `hits` the hits for the lines of `file` that `m` matches, in
/// order, until [`GREP_MAX_HITS`] hits are held.
pub fn grep_lines(m: &LineMatcher, file: &str, lines: &Vec<Option<String>>, hits: &mut Vec<SearchHit>)
    ensures
        views(final(hits)@) == views(old(hits)@) + first_n(
            matching_lines(m.pattern(), file@, opt_lines(lines@)),
            room(old(hits)@.len() as int),
        ),
{
    let ghost start = views(hits@);
    let ghost all = opt_lines(lines@);
    let mut i: usize = 0;
    assert(all.take(0) =~= Seq::<Option<Seq<char>>>::empty());
    assert(views(hits@) =~= start + first_n(matching_lines(m.pattern(), file@, all.take(0)), room(start.len() as int)));
    while i < lines.len() && hits.len() < GREP_MAX_HITS
        invariant
            i <= lines@.len(),
            all == opt_lines(lines@),
            start == views(old(hits)@),
            views(hits@) == start + first_n(matching_lines(m.pattern(), file@, all.take(i as int)), room(start.len() as int)),
        decreases lines@.len() - i,
    {
        let ghost before = views(hits@);
        let ghost ms = matching_lines(m.pattern(), file@, all.take(i as int));
        assert(all.take(i + 1).drop_last() =~= all.take(i as int));
        match &lines[i] {
            Some(text) => {
                if is_match(m, text.as_str()) {
                    let number: u32 = if i < u32::MAX as usize {
                        (i + 1) as u32
                    } else {
                        u32::MAX
                    };
                    let hit = SearchHit::grep(file.to_owned(), number, trim_end_string(text.as_str()));
                    hits.push(hit);
                    proof {
                        let h = HitView { file: file@, line: line_number(i as int), signature: None, snippet: Some(trim_end(text@)), context: None };
                        assert(matching_lines(m.pattern(), file@, all.take(i + 1)) == ms.push(h));
                        assert(ms.len() < room(start.len() as int)) by {
                            if ms.len() >= room(start.len() as int) {
                                assert(before.len() == start.len() + room(start.len() as int));
                            }
                        }
                        lemma_first_n_push(ms, h, room(start.len() as int));
                        assert(views(hits@) =~= before.push(h));
                    }
                } else {
                    assert(matching_lines(m.pattern(), file@, all.take(i + 1)) == ms);
                }
            },
            None => {
                assert(matching_lines(m.pattern(), file@, all.take(i + 1)) == ms);
            },
        }
        i = i + 1;
    }
    proof {
        let full = matching_lines(m.pattern(), file@, all);
        if i < lines@.len() {
            // The cap was reached: the hits already hold every hit there is room for.
            assert(views(hits@).len() >= GREP_MAX_HITS);
            lemma_matching_prefix(m.pattern(), file@, all, i as int);
            let ms = matching_lines(m.pattern(), file@, all.take(i as int));
            assert(ms.len() >= room(start.len() as int));
            assert(first_n(full, room(start.len() as int)) =~= first_n(ms, room(start.len() as int)));
        } else {
            assert(all.take(i as int) =~= all);
        }
    }
}

/// The hits of a prefix of the lines are a prefix of the hits of all of them.
proof fn lemma_matching_prefix(pattern: Seq<char>, file: Seq<char>, lines: Seq<Option<Seq<char>>>, k: int)
    requires
        0 <= k <= lines.len(),
    ensures
        matching_lines(pattern, file, lines.take(k)).len() <= matching_lines(pattern, file, lines).len(),
        matching_lines(pattern, file, lines).take(matching_lines(pattern, file, lines.take(k)).len() as int)
            == matching_lines(pattern, file, lines.take(k)),
    decreases lines.len(),
{
    if k == lines.len() {
        assert(lines.take(k) =~= lines);
        assert(matching_lines(pattern, file, lines).take(matching_lines(pattern, file, lines).len() as int) =~= matching_lines(pattern, file, lines));
    } else {
        assert(lines.take(k) =~= lines.drop_last().take(k));
        lemma_matching_prefix(pattern, file, lines.drop_last(), k);
        let a = matching_lines(pattern, file, lines.drop_last());
        let b = matching_lines(pattern, file, lines.take(k));
        let full = matching_lines(pattern, file, lines);
        assert(full.take(b.len() as int) =~= a.take(b.len() as int));
    }
}

} // verus!
