//! The text edits of `apply_change` and the bookkeeping that follows them.
//!
//! An edit replaces `old_text` by `new_text` where `old_text` occurs exactly
//! once; no occurrence and several occurrences are errors, the latter naming
//! the line of each. A request's changes apply one after another to the
//! text the previous one left. After the file is rewritten, the graph is
//! re-indexed for it, the symbol tables before and after are diffed, the
//! session records what changed, and the response summarises it.

use vstd::prelude::*;

use crate::edit::request::Change;
use crate::edit::context::{caller_lines, test_files, texts_of, TOTAL_CAP};
use crate::edit::request::{ApplyChangeRequest, ApplyChangeResponse, ApplyStatus, BundledContext};
use crate::search::structural::first_n;
use crate::session::SessionState;
use crate::edit::diff::{added_in, is_last, last_with, modified_in, removed_in, same_pairs, same_symbols, sig_changed};
use crate::graph::impact::{
    cascade, cascade_warnings, changed_warnings, orphan_warnings, pair_warnings, tag_text, warning_views, Warning,
    WarningKind,
};
use crate::graph::types::{same_symbol, file_removed, ids_under, CodeGraph, Symbol, SymbolId};
use crate::parse::resolve::{opt_tc, tables, FileSet, IdKey, TsConfig};
use crate::parse::ParseOutput;
use crate::index::indexer::{centrality_room, reindex_file, reindexed};
use crate::search::hit::join_with;
use crate::strings::{chars_of, decimal, lines, lines_of, matches_at, occurs_at, push_decimal, push_str, string_of_range};

verus! {

broadcast use vstd::string::group_string_axioms;

// ------------------------------------------------------------------
// Finding `old_text`.
// ------------------------------------------------------------------

/// Starts of the occurrences of `p` in `s` from position `i` on, leftmost
/// first and not overlapping, as `str::matches` finds them; an empty `p`
/// occurs at every position.
pub open spec fn match_starts(s: Seq<char>, p: Seq<char>, i: int) -> Seq<int>
    decreases s.len() + 1 - i,
{
    if i < 0 || i + p.len() > s.len() {
        Seq::empty()
    } else if occurs_at(s, p, i) {
        seq![i] + match_starts(
            s,
            p,
            i + if p.len() == 0 {
                1
            } else {
                p.len() as int
            },
        )
    } else {
        match_starts(s, p, i + 1)
    }
}

proof fn lemma_match_starts_occur(s: Seq<char>, p: Seq<char>, i: int)
    ensures
        forall|j: int| 0 <= j < match_starts(s, p, i).len() ==> occurs_at(s, p, #[trigger] match_starts(s, p, i)[j]),
    decreases s.len() + 1 - i,
{
    if i < 0 || i + p.len() > s.len() {
    } else if occurs_at(s, p, i) {
        let step = if p.len() == 0 {
            1
        } else {
            p.len() as int
        };
        lemma_match_starts_occur(s, p, i + step);
        let rest = match_starts(s, p, i + step);
        assert(match_starts(s, p, i) == seq![i] + rest);
        assert forall|j: int| 0 <= j < match_starts(s, p, i).len() implies occurs_at(s, p, #[trigger] match_starts(s, p, i)[j]) by {
            if j > 0 {
                assert(match_starts(s, p, i)[j] == rest[j - 1]);
                assert(occurs_at(s, p, rest[j - 1]));
            } else {
                assert(match_starts(s, p, i)[0] == i);
            }
        }
    } else {
        lemma_match_starts_occur(s, p, i + 1);
        assert(match_starts(s, p, i) == match_starts(s, p, i + 1));
    }
}

/// Number of times `c` occurs in `s`.
pub open spec fn count_char(s: Seq<char>, c: char) -> nat
    decreases s.len(),
{
    if s.len() == 0 {
        0
    } else {
        count_char(s.drop_last(), c) + if s.last() == c {
            1nat
        } else {
            0nat
        }
    }
}

/// The 1-based line of position `k` of `s`, saturating at `u32::MAX`.
pub open spec fn line_at(s: Seq<char>, k: int) -> u32 {
    let n = count_char(s.take(k), '\n') + 1;
    if n <= u32::MAX {
        n as u32
    } else {
        u32::MAX
    }
}

/// The starts of the occurrences of `p` in `s`.
fn match_positions(s: &Vec<char>, p: &Vec<char>) -> (r: Vec<usize>)
    ensures
        r@.map_values(|k: usize| k as int) == match_starts(s@, p@, 0),
        forall|j: int| 0 <= j < r@.len() ==> r@[j] + p@.len() <= s@.len(),
{
    let mut out: Vec<usize> = Vec::new();
    let mut i: usize = 0;
    let n = s.len();
    let step: usize = if p.len() == 0 {
        1
    } else {
        p.len()
    };
    while i <= n && p.len() <= n - i
        invariant
            n == s@.len(),
            step == (if p@.len() == 0 {
                1
            } else {
                p@.len() as int
            }),
            out@.map_values(|k: usize| k as int) + match_starts(s@, p@, i as int) == match_starts(s@, p@, 0),
            forall|j: int| 0 <= j < out@.len() ==> out@[j] + p@.len() <= s@.len(),
        decreases n + 1 - i,
    {
        let ghost before = out@;
        if matches_at(s, p, i) {
            out.push(i);
            assert(out@.map_values(|k: usize| k as int) =~= before.map_values(|k: usize| k as int).push(i as int));
            assert(out@.map_values(|k: usize| k as int) + match_starts(s@, p@, i + step) =~= before.map_values(
                |k: usize| k as int,
            ) + match_starts(s@, p@, i as int));
            if step > n - i {
                assert(match_starts(s@, p@, i + step) =~= Seq::<int>::empty());
                assert(out@.map_values(|k: usize| k as int) =~= match_starts(s@, p@, 0));
                return out;
            }
            i = i + step;
        } else {
            proof {
                if p@.len() == 0 {
                    assert(s@.subrange(i as int, i as int) =~= p@);
                }
            }
            i = i + 1;
        }
    }
    assert(match_starts(s@, p@, i as int) =~= Seq::<int>::empty());
    assert(out@.map_values(|k: usize| k as int) =~= match_starts(s@, p@, 0));
    out
}

/// The line of position `k` of `s`.
fn line_number_at(s: &Vec<char>, k: usize) -> (r: u32)
    requires
        k <= s@.len(),
    ensures
        r == line_at(s@, k as int),
{
    let mut count: u64 = 0;
    let mut i: usize = 0;
    assert(s@.take(0) =~= Seq::<char>::empty());
    while i < k
        invariant
            i <= k <= s@.len(),
            count == count_char(s@.take(i as int), '\n'),
            count <= i,
        decreases k - i,
    {
        assert(s@.take(i + 1).drop_last() =~= s@.take(i as int));
        if s[i] == '\n' {
            count = count + 1;
        }
        i = i + 1;
    }
    if count < 4294967295 {
        (count + 1) as u32
    } else {
        4294967295
    }
}

// ------------------------------------------------------------------
// One edit.
// ------------------------------------------------------------------

/// Why an edit did not apply.
#[derive(Debug, Clone)]
pub enum EditError {
    /// `old_text` does not occur.
    NotFound,
    /// `old_text` occurs `count` times, starting on `lines` (1-based).
    Ambiguous { count: usize, lines: Vec<u32> },
}

/// An edit failure as plain values.
pub enum EditFault {
    NotFound,
    Ambiguous(nat, Seq<u32>),
}

impl View for EditError {
    type V = EditFault;

    open spec fn view(&self) -> EditFault {
        match self {
            EditError::NotFound => EditFault::NotFound,
            EditError::Ambiguous { count, lines } => EditFault::Ambiguous(*count as nat, lines@),
        }
    }
}

/// The outcome of replacing `old` by `new` in `body`: the new text when
/// `old` occurs exactly once, else the fault.
pub open spec fn edit_one(body: Seq<char>, old: Seq<char>, new: Seq<char>) -> Result<Seq<char>, EditFault> {
    let ks = match_starts(body, old, 0);
    if ks.len() == 0 {
        Err(EditFault::NotFound)
    } else if ks.len() == 1 {
        Ok(body.take(ks[0]) + new + body.skip(ks[0] + old.len()))
    } else {
        Err(EditFault::Ambiguous(ks.len(), ks.map_values(|k: int| line_at(body, k))))
    }
}

/// Where `old` first occurs in `body`.
pub open spec fn first_match(body: Seq<char>, old: Seq<char>) -> int {
    match_starts(body, old, 0)[0]
}

/// `old_text` can be searched for in `body` the way the edit does: it is
/// not empty, or `body` is.
pub open spec fn searchable(body: Seq<char>, old: Seq<char>) -> bool {
    old.len() > 0 || body.len() == 0
}

/// An edit can be undone: when `new` occurs in the edited text only where
/// the edit put it, replacing it by `old` gives back the text as it was before the edit.
pub proof fn lemma_edit_undo(body: Seq<char>, old: Seq<char>, new: Seq<char>)
    requires
        edit_one(body, old, new) is Ok,
        match_starts(edit_one(body, old, new)->Ok_0, new, 0) == seq![first_match(body, old)],
    ensures
        edit_one(edit_one(body, old, new)->Ok_0, new, old) == Ok::<Seq<char>, EditFault>(body),
{
    let k = first_match(body, old);
    lemma_match_starts_occur(body, old, 0);
    assert(occurs_at(body, old, k));
    let b2 = edit_one(body, old, new)->Ok_0;
    assert(b2 == body.take(k) + new + body.skip(k + old.len()));
    assert(b2.take(k) =~= body.take(k));
    assert(b2.skip(k + new.len()) =~= body.skip(k + old.len()));
    assert(body.take(k) + old + body.skip(k + old.len()) =~= body) by {
        assert(body.subrange(k, k + old.len()) == old);
    }
}

/// Replace the single occurrence of `old_text` in `body` by `new_text`.
pub fn apply_edit_text(body: &str, old_text: &str, new_text: &str) -> (r: Result<String, EditError>)
    requires
        searchable(body@, old_text@),
    ensures
        match r {
            Ok(t) => edit_one(body@, old_text@, new_text@) == Ok::<Seq<char>, EditFault>(t@),
            Err(e) => edit_one(body@, old_text@, new_text@) == Err::<Seq<char>, EditFault>(e@),
        },
{
    let cs = chars_of(body);
    let ps = chars_of(old_text);
    let ks = match_positions(&cs, &ps);
    let ghost starts = match_starts(cs@, ps@, 0);
    assert(ks@.len() == starts.len());
    if ks.len() == 0 {
        return Err(EditError::NotFound);
    }
    if ks.len() == 1 {
        let k = ks[0];
        assert(starts[0] == k as int);
        let mut out = string_of_range(&cs, 0, k);
        push_str(&mut out, new_text);
        let n = cs.len();
        assert(k + ps@.len() <= n);
        let rest = string_of_range(&cs, k + ps.len(), n);
        push_str(&mut out, rest.as_str());
        assert(out@ =~= body@.take(k as int) + new_text@ + body@.skip(k + old_text@.len()));
        return Ok(out);
    }
    let mut lines: Vec<u32> = Vec::new();
    let mut i: usize = 0;
    while i < ks.len()
        invariant
            i <= ks@.len(),
            ks@.map_values(|k: usize| k as int) == starts,
            cs@ == body@,
            forall|j: int| 0 <= j < ks@.len() ==> ks@[j] + ps@.len() <= cs@.len(),
            lines@ == starts.map_values(|k: int| line_at(body@, k)).take(i as int),
        decreases ks@.len() - i,
    {
        assert(starts[i as int] == ks@[i as int] as int);
        let l = line_number_at(&cs, ks[i]);
        assert(starts.map_values(|k: int| line_at(body@, k))[i as int] == l);
        lines.push(l);
        assert(lines@ =~= starts.map_values(|k: int| line_at(body@, k)).take(i + 1));
        i = i + 1;
    }
    assert(lines@ =~= starts.map_values(|k: int| line_at(body@, k)));
    Err(EditError::Ambiguous { count: ks.len(), lines })
}

/// The 1-based lines on which `needle` starts in `body`, leftmost first and
/// not overlapping.
pub fn find_match_lines(body: &str, needle: &str) -> (r: Vec<u32>)
    requires
        needle@.len() > 0,
    ensures
        r@ == match_starts(body@, needle@, 0).map_values(|k: int| line_at(body@, k)),
{
    let cs = chars_of(body);
    let ps = chars_of(needle);
    let ks = match_positions(&cs, &ps);
    let ghost starts = match_starts(cs@, ps@, 0);
    let mut lines: Vec<u32> = Vec::new();
    let mut i: usize = 0;
    while i < ks.len()
        invariant
            i <= ks@.len(),
            ks@.map_values(|k: usize| k as int) == starts,
            cs@ == body@,
            forall|j: int| 0 <= j < ks@.len() ==> ks@[j] + ps@.len() <= cs@.len(),
            lines@ == starts.map_values(|k: int| line_at(body@, k)).take(i as int),
        decreases ks@.len() - i,
    {
        assert(starts[i as int] == ks@[i as int] as int);
        let l = line_number_at(&cs, ks[i]);
        assert(starts.map_values(|k: int| line_at(body@, k))[i as int] == l);
        lines.push(l);
        assert(lines@ =~= starts.map_values(|k: int| line_at(body@, k)).take(i + 1));
        i = i + 1;
    }
    assert(lines@ =~= starts.map_values(|k: int| line_at(body@, k)));
    lines
}

// ------------------------------------------------------------------
// A request's changes, in order.
// ------------------------------------------------------------------

/// Each of `ls` after `mark` and ended by a newline.
pub open spec fn marked_lines(ls: Seq<Seq<char>>, mark: char) -> Seq<char>
    decreases ls.len(),
{
    if ls.len() == 0 {
        Seq::empty()
    } else {
        marked_lines(ls.drop_last(), mark) + seq![mark] + ls.last() + seq!['\n']
    }
}

/// The diff hunk of one change applied to `body`:
/// `@@ FILE:LLINE @@`, then the old text's lines after `-` and the new
/// text's after `+`.
pub open spec fn hunk(file: Seq<char>, body: Seq<char>, old: Seq<char>, new: Seq<char>) -> Seq<char> {
    "@@ "@ + file + ":L"@ + decimal(line_at(body, first_match(body, old)) as nat) + " @@\n"@ + marked_lines(
        lines(old),
        '-',
    ) + marked_lines(lines(new), '+')
}

/// The text after applying `cs` to `body` in order, or the first fault.
pub open spec fn edit_text_all(body: Seq<char>, cs: Seq<Change>) -> Result<Seq<char>, EditFault>
    decreases cs.len(),
{
    if cs.len() == 0 {
        Ok(body)
    } else {
        match edit_text_all(body, cs.drop_last()) {
            Ok(b) => edit_one(b, cs.last().old_text@, cs.last().new_text@),
            Err(e) => Err(e),
        }
    }
}

/// The hunks of the changes `cs`, in order.
pub open spec fn edit_hunks(file: Seq<char>, body: Seq<char>, cs: Seq<Change>) -> Seq<char>
    decreases cs.len(),
{
    if cs.len() == 0 {
        Seq::empty()
    } else {
        match edit_text_all(body, cs.drop_last()) {
            Ok(b) => edit_hunks(file, body, cs.drop_last()) + hunk(file, b, cs.last().old_text@, cs.last().new_text@),
            Err(_) => Seq::empty(),
        }
    }
}

/// Every change that is reached searches a non-empty text or an empty body.
pub open spec fn changes_searchable(body: Seq<char>, cs: Seq<Change>) -> bool
    decreases cs.len(),
{
    if cs.len() == 0 {
        true
    } else {
        changes_searchable(body, cs.drop_last()) && match edit_text_all(body, cs.drop_last()) {
            Ok(b) => searchable(b, cs.last().old_text@),
            Err(_) => true,
        }
    }
}

/// Append `ls`, each after `mark` and ended by a newline.
fn push_marked(out: &mut String, text: &str, mark: char)
    ensures
        final(out)@ == old(out)@ + marked_lines(lines(text@), mark),
{
    let cs = chars_of(text);
    let ls = lines_of(&cs);
    let ghost all = lines(cs@);
    let mut i: usize = 0;
    assert(all.take(0) =~= Seq::<Seq<char>>::empty());
    while i < ls.len()
        invariant
            i <= ls@.len(),
            ls@.len() == all.len(),
            all == lines(text@),
            forall|k: int| 0 <= k < ls@.len() ==> #[trigger] ls@[k]@ == all[k],
            out@ == old(out)@ + marked_lines(all.take(i as int), mark),
        decreases ls@.len() - i,
    {
        assert(all.take(i + 1).drop_last() =~= all.take(i as int));
        crate::strings::push_char(out, mark);
        let l = crate::strings::string_of(&ls[i]);
        push_str(out, l.as_str());
        crate::strings::push_char(out, '\n');
        assert(out@ =~= old(out)@ + marked_lines(all.take(i + 1), mark));
        i = i + 1;
    }
    assert(all.take(all.len() as int) =~= all);
}

/// The hunk of one change.
fn hunk_of(file: &str, body: &str, old_text: &str, new_text: &str, line: u32) -> (r: String)
    requires
        line == line_at(body@, first_match(body@, old_text@)),
    ensures
        r@ == hunk(file@, body@, old_text@, new_text@),
{
    let mut out = String::new();
    push_str(&mut out, "@@ ");
    push_str(&mut out, file);
    push_str(&mut out, ":L");
    push_decimal(&mut out, line as u64);
    push_str(&mut out, " @@\n");
    push_marked(&mut out, old_text, '-');
    push_marked(&mut out, new_text, '+');
    out
}

/// Apply `changes` to `body` one after another. On success, the final text
/// and the diff hunks of the changes; otherwise the first fault.
pub fn apply_changes_text(file: &str, body: &str, changes: &Vec<Change>) -> (r: Result<(String, String), EditError>)
    requires
        changes_searchable(body@, changes@),
    ensures
        match r {
            Ok((t, d)) => edit_text_all(body@, changes@) == Ok::<Seq<char>, EditFault>(t@) && d@ == edit_hunks(
                file@,
                body@,
                changes@,
            ),
            Err(e) => edit_text_all(body@, changes@) == Err::<Seq<char>, EditFault>(e@),
        },
{
    let mut text = body.to_owned();
    let mut snippet = String::new();
    let mut i: usize = 0;
    assert(changes@.take(0) =~= Seq::<Change>::empty());
    while i < changes.len()
        invariant
            i <= changes@.len(),
            changes_searchable(body@, changes@),
            edit_text_all(body@, changes@.take(i as int)) == Ok::<Seq<char>, EditFault>(text@),
            snippet@ == edit_hunks(file@, body@, changes@.take(i as int)),
        decreases changes@.len() - i,
    {
        let ghost pre = changes@.take(i + 1);
        assert(pre.drop_last() =~= changes@.take(i as int));
        assert(pre.last() == changes@[i as int]);
        proof {
            lemma_searchable_prefix(body@, changes@, i + 1);
        }
        let c = &changes[i];
        match apply_edit_text(text.as_str(), c.old_text.as_str(), c.new_text.as_str()) {
            Ok(t) => {
                let cs = chars_of(text.as_str());
                let ps = chars_of(c.old_text.as_str());
                let ks = match_positions(&cs, &ps);
                assert(ks@.map_values(|k: usize| k as int)[0] == ks@[0] as int);
                let line = line_number_at(&cs, ks[0]);
                let h = hunk_of(file, text.as_str(), c.old_text.as_str(), c.new_text.as_str(), line);
                push_str(&mut snippet, h.as_str());
                text = t;
            },
            Err(e) => {
                proof {
                    lemma_fault_persists(body@, changes@, i + 1);
                }
                return Err(e);
            },
        }
        i = i + 1;
    }
    assert(changes@.take(changes@.len() as int) =~= changes@);
    Ok((text, snippet))
}

/// Prefixes of searchable change lists are searchable.
proof fn lemma_searchable_prefix(body: Seq<char>, cs: Seq<Change>, n: int)
    requires
        0 <= n <= cs.len(),
        changes_searchable(body, cs),
    ensures
        changes_searchable(body, cs.take(n)),
    decreases cs.len() - n,
{
    if n < cs.len() {
        assert(cs.drop_last().take(n) =~= cs.take(n));
        assert(cs.take(cs.len() as int) =~= cs);
        lemma_searchable_prefix(body, cs.drop_last(), n);
    } else {
        assert(cs.take(n) =~= cs);
    }
}

/// Once a change fails, the whole list fails the same way.
proof fn lemma_fault_persists(body: Seq<char>, cs: Seq<Change>, n: int)
    requires
        0 <= n <= cs.len(),
        edit_text_all(body, cs.take(n)) is Err,
    ensures
        edit_text_all(body, cs) == edit_text_all(body, cs.take(n)),
    decreases cs.len() - n,
{
    if n < cs.len() {
        assert(cs.drop_last().take(n) =~= cs.take(n));
        lemma_fault_persists(body, cs.drop_last(), n);
    } else {
        assert(cs.take(n) =~= cs);
    }
}

// ------------------------------------------------------------------
// The summary line.
// ------------------------------------------------------------------

/// How many of `ws` are of kind `k`.
pub open spec fn kind_count(ws: Seq<Warning>, k: WarningKind) -> nat
    decreases ws.len(),
{
    if ws.len() == 0 {
        0
    } else {
        kind_count(ws.drop_last(), k) + if ws.last().kind == k {
            1nat
        } else {
            0nat
        }
    }
}

/// `N TAG` for kind `k` when some warning has it.
pub open spec fn kind_part(ws: Seq<Warning>, k: WarningKind) -> Seq<Seq<char>> {
    if kind_count(ws, k) > 0 {
        seq![decimal(kind_count(ws, k)) + " "@ + tag_text(k)]
    } else {
        Seq::empty()
    }
}

/// The warning summary of a response: `N warnings`, followed when there
/// are any by the count of each kind, as in
/// `2 warnings: 1 SIGNATURE, 1 ASYNC_CHANGE`.
pub open spec fn summary_text(ws: Seq<Warning>) -> Seq<char> {
    let parts = kind_part(ws, WarningKind::Signature) + kind_part(ws, WarningKind::AsyncChange) + kind_part(
        ws,
        WarningKind::Orphan,
    ) + kind_part(ws, WarningKind::InterfaceBreak);
    decimal(ws.len()) + " warnings"@ + if ws.len() > 0 {
        ": "@ + join_with(parts, ", "@)
    } else {
        Seq::empty()
    }
}

/// How many of `ws` are of kind `k`.
fn count_kind(ws: &Vec<Warning>, k: WarningKind) -> (r: u64)
    ensures
        r == kind_count(ws@, k),
{
    let mut n: u64 = 0;
    let mut i: usize = 0;
    assert(ws@.take(0) =~= Seq::<Warning>::empty());
    while i < ws.len()
        invariant
            i <= ws@.len(),
            n == kind_count(ws@.take(i as int), k),
            n <= i,
        decreases ws@.len() - i,
    {
        assert(ws@.take(i + 1).drop_last() =~= ws@.take(i as int));
        if ws[i].kind == k {
            n = n + 1;
        }
        i = i + 1;
    }
    assert(ws@.take(ws@.len() as int) =~= ws@);
    n
}

/// Append the part for kind `k`.
fn push_kind_part(parts: &mut Vec<Vec<char>>, ws: &Vec<Warning>, k: WarningKind)
    ensures
        final(parts)@.map_values(|v: Vec<char>| v@) == old(parts)@.map_values(|v: Vec<char>| v@) + kind_part(ws@, k),
{
    let n = count_kind(ws, k);
    let ghost before = parts@.map_values(|v: Vec<char>| v@);
    if n > 0 {
        let mut t = String::new();
        push_decimal(&mut t, n);
        push_str(&mut t, " ");
        push_str(&mut t, k.tag());
        parts.push(chars_of(t.as_str()));
        assert(parts@.map_values(|v: Vec<char>| v@) =~= before + kind_part(ws@, k));
    } else {
        assert(parts@.map_values(|v: Vec<char>| v@) =~= before + kind_part(ws@, k));
    }
}

/// The warning summary, such as `2 warnings: 1 SIGNATURE, 1 ASYNC_CHANGE`.
pub fn summary_line(warnings: &Vec<Warning>) -> (r: String)
    ensures
        r@ == summary_text(warnings@),
{
    let mut out = String::new();
    push_decimal(&mut out, warnings.len() as u64);
    push_str(&mut out, " warnings");
    if warnings.len() > 0 {
        let mut parts: Vec<Vec<char>> = Vec::new();
        push_kind_part(&mut parts, warnings, WarningKind::Signature);
        push_kind_part(&mut parts, warnings, WarningKind::AsyncChange);
        push_kind_part(&mut parts, warnings, WarningKind::Orphan);
        push_kind_part(&mut parts, warnings, WarningKind::InterfaceBreak);
        push_str(&mut out, ": ");
        crate::search::structural::push_joined(&mut out, &parts, parts.len(), ", ");
        assert(parts@.map_values(|v: Vec<char>| v@).take(parts@.len() as int) =~= parts@.map_values(|v: Vec<char>| v@));
    }
    out
}

// ------------------------------------------------------------------
// Re-indexing the edited file.
// ------------------------------------------------------------------

/// The symbols of `ids` that `syms` holds, in order.
pub open spec fn present_symbols(syms: Map<IdKey, Symbol>, ids: Seq<SymbolId>) -> Seq<Symbol>
    decreases ids.len(),
{
    if ids.len() == 0 {
        Seq::empty()
    } else {
        present_symbols(syms, ids.drop_last()) + if syms.dom().contains(ids.last()@) {
            seq![syms[ids.last()@]]
        } else {
            Seq::empty()
        }
    }
}

/// The symbols `g` holds for `file`, in the order the file index lists them.
pub open spec fn file_symbol_list(g: &CodeGraph, file: Seq<char>) -> Seq<Symbol> {
    present_symbols(g.symbols@, ids_under(g.file_symbols@, file))
}

/// A copy of the symbols `graph` holds for `file`.
fn file_snapshot(graph: &CodeGraph, file: &String) -> (r: Vec<Symbol>)
    requires
        graph.wf(),
    ensures
        same_symbols(r@, file_symbol_list(graph, file@)),
{
    let mut out: Vec<Symbol> = Vec::new();
    let ids = match graph.file_symbols.get(file) {
        Some(ids) => ids,
        None => {
            assert(ids_under(graph.file_symbols@, file@) =~= Seq::<SymbolId>::empty());
            return out;
        },
    };
    let ghost all = ids@;
    assert(all =~= ids_under(graph.file_symbols@, file@));
    let mut i: usize = 0;
    assert(all.take(0) =~= Seq::<SymbolId>::empty());
    while i < ids.len()
        invariant
            graph.wf(),
            i <= all.len(),
            all == ids@,
            same_symbols(out@, present_symbols(graph.symbols@, all.take(i as int))),
        decreases all.len() - i,
    {
        assert(all.take(i + 1).drop_last() =~= all.take(i as int));
        let ghost before = out@;
        match graph.symbols.get(&ids[i]) {
            Some(sym) => {
                out.push(sym.clone());
                assert(present_symbols(graph.symbols@, all.take(i + 1)) =~= present_symbols(graph.symbols@, all.take(i as int)).push(*sym));
            },
            None => {
                assert(present_symbols(graph.symbols@, all.take(i + 1)) =~= present_symbols(graph.symbols@, all.take(i as int)));
            },
        }
        i = i + 1;
    }
    assert(all.take(all.len() as int) =~= all);
    out
}

// ------------------------------------------------------------------
// The diff, up to copies.
// ------------------------------------------------------------------

/// The ids of the new sides of `ps`.
pub open spec fn pair_ids(ps: Seq<(Symbol, Symbol)>) -> Seq<IdKey> {
    ps.map_values(|p: (Symbol, Symbol)| p.1.id@)
}

/// The new sides of `ps`.
pub open spec fn pair_news(ps: Seq<(Symbol, Symbol)>) -> Seq<Symbol> {
    ps.map_values(|p: (Symbol, Symbol)| p.1)
}

/// The ids of `ss`.
pub open spec fn sym_ids(ss: Seq<Symbol>) -> Seq<IdKey> {
    ss.map_values(|s: Symbol| s.id@)
}

/// No symbol of the file was added, removed or changed.
pub open spec fn diff_is_empty(old: Seq<Symbol>, new: Seq<Symbol>) -> bool {
    &&& added_in(old, new, new.len() as int).len() == 0
    &&& removed_in(old, new, old.len() as int).len() == 0
    &&& modified_in(old, new, new.len() as int, true).len() == 0
    &&& modified_in(old, new, new.len() as int, false).len() == 0
}

/// The ids an edit records: symbols whose signature changed, then those
/// whose body changed, then the removed ones.
pub open spec fn changed_ids(old: Seq<Symbol>, new: Seq<Symbol>) -> Seq<IdKey> {
    pair_ids(modified_in(old, new, new.len() as int, true)) + pair_ids(modified_in(old, new, new.len() as int, false))
        + sym_ids(removed_in(old, new, old.len() as int))
}

/// The changed symbols the bundled context is built for: those whose
/// signature changed, then those whose body changed.
pub open spec fn changed_news(old: Seq<Symbol>, new: Seq<Symbol>) -> Seq<Symbol> {
    pair_news(modified_in(old, new, new.len() as int, true)) + pair_news(modified_in(old, new, new.len() as int, false))
}

proof fn lemma_last_with_congruent(a: Seq<Symbol>, b: Seq<Symbol>, k: IdKey)
    requires
        same_symbols(a, b),
    ensures
        match (last_with(a, k), last_with(b, k)) {
            (Some(x), Some(y)) => same_symbol(x, y),
            (None, None) => true,
            _ => false,
        },
    decreases a.len(),
{
    if a.len() > 0 {
        assert(same_symbol(a[a.len() - 1], b[b.len() - 1]));
        assert(same_symbols(a.drop_last(), b.drop_last()));
        lemma_last_with_congruent(a.drop_last(), b.drop_last(), k);
    }
}

proof fn lemma_modified_congruent(a: Seq<Symbol>, b: Seq<Symbol>, new: Seq<Symbol>, n: int, sig: bool)
    requires
        same_symbols(a, b),
    ensures
        modified_in(a, new, n, sig).len() == modified_in(b, new, n, sig).len(),
        pair_news(modified_in(a, new, n, sig)) == pair_news(modified_in(b, new, n, sig)),
        same_pairs(modified_in(a, new, n, sig), modified_in(b, new, n, sig)),
    decreases n,
{
    if n > 0 {
        lemma_modified_congruent(a, b, new, n - 1, sig);
        lemma_last_with_congruent(a, b, new[n - 1].id@);
        let pa = modified_in(a, new, n - 1, sig);
        let pb = modified_in(b, new, n - 1, sig);
        match (last_with(a, new[n - 1].id@), last_with(b, new[n - 1].id@)) {
            (Some(x), Some(y)) => {
                assert(sig_changed(x, new[n - 1]) == sig_changed(y, new[n - 1]));
                assert(pair_news(pa.push((x, new[n - 1]))) =~= pair_news(pa).push(new[n - 1]));
                assert(pair_news(pb.push((y, new[n - 1]))) =~= pair_news(pb).push(new[n - 1]));
                let qa = pa.push((x, new[n - 1]));
                let qb = pb.push((y, new[n - 1]));
                assert forall|i: int| 0 <= i < qa.len() implies same_symbol(#[trigger] qa[i].0, qb[i].0) && same_symbol(qa[i].1, qb[i].1) by {
                    if i < pa.len() {
                        assert(same_symbol(pa[i].0, pb[i].0));
                        assert(qa[i] == pa[i]);
                        assert(qb[i] == pb[i]);
                    } else {
                        assert(same_symbol(x, y));
                    }
                }
                assert(same_pairs(qa, qb));
                if is_last(new, n - 1) && sig_changed(x, new[n - 1]) && sig {
                    assert(modified_in(a, new, n, sig) == qa);
                    assert(modified_in(b, new, n, sig) == qb);
                } else if is_last(new, n - 1) && !sig && !sig_changed(x, new[n - 1]) && x.body_hash != new[n - 1].body_hash {
                    assert(modified_in(a, new, n, sig) == qa);
                    assert(modified_in(b, new, n, sig) == qb);
                } else {
                    assert(modified_in(a, new, n, sig) == pa);
                    assert(modified_in(b, new, n, sig) == pb);
                }
            },
            _ => {},
        }
    }
}

proof fn lemma_removed_congruent(a: Seq<Symbol>, b: Seq<Symbol>, new: Seq<Symbol>, n: int)
    requires
        same_symbols(a, b),
        n <= a.len(),
    ensures
        sym_ids(removed_in(a, new, n)) == sym_ids(removed_in(b, new, n)),
        same_symbols(removed_in(a, new, n), removed_in(b, new, n)),
    decreases n,
{
    if n > 0 {
        lemma_removed_congruent(a, b, new, n - 1);
        assert(same_symbol(a[n - 1], b[n - 1]));
        assert(is_last(a, n - 1) == is_last(b, n - 1)) by {
            if is_last(a, n - 1) {
                assert forall|j: int| n - 1 < j < b.len() implies #[trigger] b[j].id@ != b[n - 1].id@ by {
                    assert(same_symbol(a[j], b[j]));
                    assert(a[j].id@ != a[n - 1].id@);
                }
            }
            if is_last(b, n - 1) {
                assert forall|j: int| n - 1 < j < a.len() implies #[trigger] a[j].id@ != a[n - 1].id@ by {
                    assert(same_symbol(a[j], b[j]));
                    assert(b[j].id@ != b[n - 1].id@);
                }
            }
        }
        let ra = removed_in(a, new, n - 1);
        let rb = removed_in(b, new, n - 1);
        assert(sym_ids(ra.push(a[n - 1])) =~= sym_ids(ra).push(a[n - 1].id@));
        assert(sym_ids(rb.push(b[n - 1])) =~= sym_ids(rb).push(b[n - 1].id@));
    }
}

proof fn lemma_added_congruent(a: Seq<Symbol>, b: Seq<Symbol>, new: Seq<Symbol>, n: int)
    requires
        same_symbols(a, b),
    ensures
        added_in(a, new, n) == added_in(b, new, n),
    decreases n,
{
    if n > 0 {
        lemma_added_congruent(a, b, new, n - 1);
        lemma_last_with_congruent(a, b, new[n - 1].id@);
    }
}

proof fn lemma_changed_warnings_congruent(g: &CodeGraph, x: Seq<(Symbol, Symbol)>, y: Seq<(Symbol, Symbol)>)
    requires
        same_pairs(x, y),
    ensures
        changed_warnings(g, x) == changed_warnings(g, y),
    decreases x.len(),
{
    if x.len() > 0 {
        let (xo, xn) = x.last();
        let (yo, yn) = y.last();
        assert(same_symbol(x[x.len() - 1].0, y[y.len() - 1].0));
        assert(same_symbol(x[x.len() - 1].1, y[y.len() - 1].1));
        assert(same_pairs(x.drop_last(), y.drop_last())) by {
            assert forall|i: int| 0 <= i < x.drop_last().len() implies same_symbol(#[trigger] x.drop_last()[i].0, y.drop_last()[i].0)
                && same_symbol(x.drop_last()[i].1, y.drop_last()[i].1) by {
                assert(same_symbol(x[i].0, y[i].0));
            }
        }
        lemma_changed_warnings_congruent(g, x.drop_last(), y.drop_last());
        assert(xn.id@ == yn.id@);
        assert(pair_warnings(g, xo, xn) == pair_warnings(g, yo, yn));
    }
}

proof fn lemma_orphan_warnings_congruent(g: &CodeGraph, x: Seq<Symbol>, y: Seq<Symbol>)
    requires
        same_symbols(x, y),
    ensures
        orphan_warnings(g, x) == orphan_warnings(g, y),
    decreases x.len(),
{
    if x.len() > 0 {
        assert(same_symbol(x[x.len() - 1], y[y.len() - 1]));
        assert(same_symbols(x.drop_last(), y.drop_last())) by {
            assert forall|i: int| 0 <= i < x.drop_last().len() implies same_symbol(#[trigger] x.drop_last()[i], y.drop_last()[i]) by {
                assert(same_symbol(x[i], y[i]));
            }
        }
        lemma_orphan_warnings_congruent(g, x.drop_last(), y.drop_last());
    }
}

proof fn lemma_pairs_news(x: Seq<(Symbol, Symbol)>, y: Seq<(Symbol, Symbol)>)
    requires
        same_pairs(x, y),
    ensures
        same_symbols(pair_news(x), pair_news(y)),
        pair_ids(x) == pair_ids(y),
{
    assert forall|i: int| 0 <= i < x.len() implies same_symbol(#[trigger] pair_news(x)[i], pair_news(y)[i]) by {
        let xi = x[i];
        let yi = y[i];
        assert(same_symbol(xi.0, yi.0));
        assert(same_symbol(xi.1, yi.1));
        assert(pair_news(x)[i] == xi.1);
        assert(pair_news(y)[i] == yi.1);
    }
    assert forall|i: int| 0 <= i < x.len() implies #[trigger] pair_ids(x)[i] == pair_ids(y)[i] by {
        assert(same_symbol(pair_news(x)[i], pair_news(y)[i]));
        assert(pair_news(x)[i] == x[i].1);
        assert(pair_news(y)[i] == y[i].1);
    }
    assert(pair_ids(x) =~= pair_ids(y));
}

proof fn lemma_pair_ids_news(x: Seq<(Symbol, Symbol)>)
    ensures
        pair_ids(x) == sym_ids(pair_news(x)),
{
    assert(pair_ids(x) =~= sym_ids(pair_news(x)));
}

proof fn lemma_caller_lines_congruent(graph: &CodeGraph, a: Seq<Symbol>, b: Seq<Symbol>, n: int)
    requires
        same_symbols(a, b),
        n <= a.len(),
    ensures
        caller_lines(graph, a, n) == caller_lines(graph, b, n),
    decreases n,
{
    if n > 0 {
        lemma_caller_lines_congruent(graph, a, b, n - 1);
        assert(same_symbol(a[n - 1], b[n - 1]));
    }
}

// ------------------------------------------------------------------
// The response.
// ------------------------------------------------------------------

/// The summary of a created file.
pub open spec fn created_summary(file: Seq<char>, ws: Seq<Warning>) -> Seq<char> {
    "Created"@ + " "@ + file + ". "@ + summary_text(ws) + "."@
}

/// The summary of an edit: `Modified FILE. …` or, when no symbol changed,
/// `No-op edit in FILE. …`.
pub open spec fn edited_summary(file: Seq<char>, noop: bool, ws: Seq<Warning>) -> Seq<char> {
    (if noop {
        "No-op edit in"@
    } else {
        "Modified"@
    }) + " "@ + file + ". "@ + summary_text(ws) + "."@
}

/// The summary of an edit to a file in a language without a parser.
pub open spec fn unparsed_summary(file: Seq<char>) -> Seq<char> {
    "Edited "@ + file + " (no graph impact — unsupported language)"@
}

/// `prefix FILE. N warnings.`
fn summary_with(prefix: &str, file: &str, warnings: &Vec<Warning>) -> (r: String)
    ensures
        r@ == prefix@ + " "@ + file@ + ". "@ + summary_text(warnings@) + "."@,
{
    let mut s = String::new();
    push_str(&mut s, prefix);
    push_str(&mut s, " ");
    push_str(&mut s, file);
    push_str(&mut s, ". ");
    let line = summary_line(warnings);
    push_str(&mut s, line.as_str());
    push_str(&mut s, ".");
    s
}

/// `apply_change` on `request` took graph `old_g` and session `old_s` to
/// `new_g` and `new_s` and answered `r`.
pub open spec fn change_applied(
    old_g: CodeGraph,
    new_g: CodeGraph,
    old_s: SessionState,
    new_s: SessionState,
    root: Seq<char>,
    request: ApplyChangeRequest,
    parsed: Option<ParseOutput>,
    snippet: Seq<char>,
    tc: Option<TsConfig>,
    files: FileSet,
    r: ApplyChangeResponse,
) -> bool {
    &&& new_g.wf()
    &&& r.diff_snippet@ == (if request.create_file {
        Seq::empty()
    } else {
        snippet
    })
    &&& new_s.last_results() == old_s.last_results()
    &&& new_s.started() == old_s.started()
    &&& match parsed {
        None => {
            &&& new_g == old_g
            &&& new_s.file_log() == old_s.file_log()
            &&& new_s.edit_log() == old_s.edit_log()
            &&& r.status == (if request.create_file {
                ApplyStatus::Created
            } else {
                ApplyStatus::Applied
            })
            &&& r.warnings@.len() == 0
            &&& r.summary@ == (if request.create_file {
                created_summary(request.file@, Seq::empty())
            } else {
                unparsed_summary(request.file@)
            })
            &&& r.context.callers@.len() == 0
            &&& r.context.tests@.len() == 0
        },
        Some(out) => {
            let pre = file_symbol_list(&old_g, request.file@);
            let new = out.symbols@;
            let changed = changed_news(pre, new);
            &&& reindexed(old_g, request.file@, out, files, root, tc, new_g)
            &&& new_s.file_log() == old_s.file_log().push(request.file@)
            &&& new_s.edit_log() == old_s.edit_log() + changed_ids(pre, new)
            &&& r.status == (if request.create_file {
                ApplyStatus::Created
            } else if diff_is_empty(pre, new) {
                ApplyStatus::NoOp
            } else {
                ApplyStatus::Applied
            })
            &&& warning_views(r.warnings@) == cascade(
                &new_g,
                modified_in(pre, new, new.len() as int, true),
                removed_in(pre, new, pre.len() as int),
            )
            &&& r.summary@ == (if request.create_file {
                created_summary(request.file@, r.warnings@)
            } else {
                edited_summary(request.file@, diff_is_empty(pre, new), r.warnings@)
            })
            &&& texts_of(r.context.callers@) == first_n(caller_lines(&new_g, changed, changed.len() as int), TOTAL_CAP as int)
            &&& texts_of(r.context.tests@) == test_files(&new_g, request.file@)
        },
    }
}

/// Finish `apply_change` once the request's file has been written: re-index
/// the file from `parsed` (`None` when its language has no parser), diff its
/// symbols before and after, record the edit in the session, and answer.
///
/// The status is `Created` for a request that created the file, else
/// `NoOp` when no symbol was added, removed or changed and `Applied`
/// otherwise. The context lists callers of the changed symbols and the test
/// files importing the file. The cascade detectors then run on the
/// re-indexed graph: SIGNATURE, ASYNC_CHANGE and INTERFACE_BREAK for each
/// symbol whose signature changed, then ORPHAN for each removed symbol, each
/// naming the dependents that the forward edges record.
pub fn apply_change(
    graph: &mut CodeGraph,
    session: &mut SessionState,
    project_root: &str,
    request: &ApplyChangeRequest,
    parsed: Option<ParseOutput>,
    diff_snippet: String,
    tsconfig: Option<&TsConfig>,
    files: &FileSet,
) -> (r: ApplyChangeResponse)
    requires
        old(graph).wf(),
        match parsed {
            Some(out) => centrality_room(old(graph), out.edges@.len()),
            None => true,
        },
    ensures
        change_applied(
            *old(graph),
            *final(graph),
            *old(session),
            *final(session),
            project_root@,
            *request,
            parsed,
            diff_snippet@,
            opt_tc(tsconfig),
            *files,
            r,
        ),
{
    let file = &request.file;
    let snippet = if request.create_file {
        String::new()
    } else {
        diff_snippet
    };
    let out = match parsed {
        None => {
            let warnings: Vec<Warning> = Vec::new();
            let summary = if request.create_file {
                let t = summary_with("Created", file.as_str(), &warnings);
                assert(t@ =~= created_summary(file@, warnings@));
                t
            } else {
                let mut t = String::new();
                push_str(&mut t, "Edited ");
                push_str(&mut t, file.as_str());
                push_str(&mut t, " (no graph impact — unsupported language)");
                t
            };
            let status = if request.create_file {
                ApplyStatus::Created
            } else {
                ApplyStatus::Applied
            };
            return ApplyChangeResponse { status, summary, warnings, context: BundledContext::default(), diff_snippet: snippet };
        },
        Some(out) => out,
    };
    let ghost out0 = out;
    let ghost g0 = *graph;
    let pre = file_snapshot(graph, file);
    let ghost pre_spec = file_symbol_list(&g0, file@);
    let ghost new = out.symbols@;
    let d = crate::edit::diff::diff(&pre, &out.symbols);
    proof {
        lemma_modified_congruent(pre@, pre_spec, new, new.len() as int, true);
        lemma_modified_congruent(pre@, pre_spec, new, new.len() as int, false);
        lemma_removed_congruent(pre@, pre_spec, new, pre@.len() as int);
        lemma_added_congruent(pre@, pre_spec, new, new.len() as int);
        lemma_pairs_news(d.modified_sig@, modified_in(pre@, new, new.len() as int, true));
        lemma_pairs_news(d.modified_body@, modified_in(pre@, new, new.len() as int, false));
    }
    reindex_file(graph, file, out, project_root, tsconfig, files);
    let warnings = cascade_warnings(graph, &d.modified_sig, &d.removed);
    proof {
        lemma_modified_congruent(pre@, pre_spec, new, new.len() as int, true);
        lemma_removed_congruent(pre@, pre_spec, new, pre@.len() as int);
        lemma_changed_warnings_congruent(&*graph, d.modified_sig@, modified_in(pre@, new, new.len() as int, true));
        lemma_changed_warnings_congruent(
            &*graph,
            modified_in(pre@, new, new.len() as int, true),
            modified_in(pre_spec, new, new.len() as int, true),
        );
        lemma_orphan_warnings_congruent(&*graph, d.removed@, removed_in(pre@, new, pre@.len() as int));
        lemma_orphan_warnings_congruent(
            &*graph,
            removed_in(pre@, new, pre@.len() as int),
            removed_in(pre_spec, new, pre@.len() as int),
        );
    }
    // The symbols the context is built for.
    let mut changed: Vec<Symbol> = Vec::new();
    let mut i: usize = 0;
    while i < d.modified_sig.len()
        invariant
            i <= d.modified_sig@.len(),
            same_symbols(changed@, pair_news(d.modified_sig@).take(i as int)),
        decreases d.modified_sig@.len() - i,
    {
        changed.push(d.modified_sig[i].1.clone());
        assert(pair_news(d.modified_sig@).take(i + 1) =~= pair_news(d.modified_sig@).take(i as int).push(d.modified_sig@[i as int].1));
        i = i + 1;
    }
    let mut j: usize = 0;
    assert(pair_news(d.modified_sig@).take(i as int) =~= pair_news(d.modified_sig@));
    while j < d.modified_body.len()
        invariant
            j <= d.modified_body@.len(),
            same_symbols(changed@, pair_news(d.modified_sig@) + pair_news(d.modified_body@).take(j as int)),
        decreases d.modified_body@.len() - j,
    {
        let ghost before = changed@;
        changed.push(d.modified_body[j].1.clone());
        assert((pair_news(d.modified_sig@) + pair_news(d.modified_body@).take(j + 1)) =~= (pair_news(d.modified_sig@)
            + pair_news(d.modified_body@).take(j as int)).push(d.modified_body@[j as int].1));
        j = j + 1;
    }
    assert(pair_news(d.modified_body@).take(j as int) =~= pair_news(d.modified_body@));
    let ghost spec_changed = changed_news(pre_spec, new);
    proof {
        assert(same_symbols(pair_news(d.modified_sig@) + pair_news(d.modified_body@), spec_changed)) by {
            let a = pair_news(d.modified_sig@);
            let b = pair_news(d.modified_body@);
            let a2 = pair_news(modified_in(pre_spec, new, new.len() as int, true));
            let b2 = pair_news(modified_in(pre_spec, new, new.len() as int, false));
            assert forall|k: int| 0 <= k < (a + b).len() implies same_symbol(#[trigger] (a + b)[k], (a2 + b2)[k]) by {
                if k < a.len() {
                    assert(same_symbol(a[k], a2[k]));
                } else {
                    assert(same_symbol(b[k - a.len()], b2[k - a.len()]));
                }
            }
        }
        assert forall|k: int| 0 <= k < changed@.len() implies same_symbol(#[trigger] changed@[k], spec_changed[k]) by {
            assert(same_symbol(changed@[k], (pair_news(d.modified_sig@) + pair_news(d.modified_body@))[k]));
            assert(same_symbol((pair_news(d.modified_sig@) + pair_news(d.modified_body@))[k], spec_changed[k]));
        }
        lemma_caller_lines_congruent(&*graph, changed@, spec_changed, changed@.len() as int);
    }
    let context = crate::edit::context::build(graph, file.as_str(), &changed);
    // The session records the file, then each changed and removed symbol.
    session.record_file_edit(file.as_str());
    let ghost log0 = session.edit_log();
    let mut k: usize = 0;
    while k < d.modified_sig.len()
        invariant
            k <= d.modified_sig@.len(),
            session.edit_log() == log0 + pair_ids(d.modified_sig@).take(k as int),
            session.file_log() == old(session).file_log().push(file@),
            session.last_results() == old(session).last_results(),
            session.started() == old(session).started(),
        decreases d.modified_sig@.len() - k,
    {
        session.record_symbol_edit(d.modified_sig[k].1.id.clone());
        assert(pair_ids(d.modified_sig@).take(k + 1) =~= pair_ids(d.modified_sig@).take(k as int).push(d.modified_sig@[k as int].1.id@));
        k = k + 1;
    }
    assert(pair_ids(d.modified_sig@).take(k as int) =~= pair_ids(d.modified_sig@));
    let ghost log1 = session.edit_log();
    let mut k2: usize = 0;
    while k2 < d.modified_body.len()
        invariant
            k2 <= d.modified_body@.len(),
            session.edit_log() == log1 + pair_ids(d.modified_body@).take(k2 as int),
            session.file_log() == old(session).file_log().push(file@),
            session.last_results() == old(session).last_results(),
            session.started() == old(session).started(),
        decreases d.modified_body@.len() - k2,
    {
        session.record_symbol_edit(d.modified_body[k2].1.id.clone());
        assert(pair_ids(d.modified_body@).take(k2 + 1) =~= pair_ids(d.modified_body@).take(k2 as int).push(d.modified_body@[k2 as int].1.id@));
        k2 = k2 + 1;
    }
    assert(pair_ids(d.modified_body@).take(k2 as int) =~= pair_ids(d.modified_body@));
    let ghost log2 = session.edit_log();
    let mut k3: usize = 0;
    while k3 < d.removed.len()
        invariant
            k3 <= d.removed@.len(),
            session.edit_log() == log2 + sym_ids(d.removed@).take(k3 as int),
            session.file_log() == old(session).file_log().push(file@),
            session.last_results() == old(session).last_results(),
            session.started() == old(session).started(),
        decreases d.removed@.len() - k3,
    {
        session.record_symbol_edit(d.removed[k3].id.clone());
        assert(sym_ids(d.removed@).take(k3 + 1) =~= sym_ids(d.removed@).take(k3 as int).push(d.removed@[k3 as int].id@));
        k3 = k3 + 1;
    }
    assert(sym_ids(d.removed@).take(k3 as int) =~= sym_ids(d.removed@));
    proof {
        let rs = removed_in(pre@, new, pre@.len() as int);
        assert(sym_ids(d.removed@) =~= sym_ids(rs)) by {
            assert forall|q: int| 0 <= q < d.removed@.len() implies #[trigger] sym_ids(d.removed@)[q] == sym_ids(rs)[q] by {
                assert(same_symbol(d.removed@[q], rs[q]));
            }
        }
        assert(pre@.len() == pre_spec.len());
        lemma_pair_ids_news(d.modified_sig@);
        lemma_pair_ids_news(d.modified_body@);
        lemma_pair_ids_news(modified_in(pre@, new, new.len() as int, true));
        lemma_pair_ids_news(modified_in(pre@, new, new.len() as int, false));
        lemma_pair_ids_news(modified_in(pre_spec, new, new.len() as int, true));
        lemma_pair_ids_news(modified_in(pre_spec, new, new.len() as int, false));
        assert(session.edit_log() =~= old(session).edit_log() + changed_ids(pre_spec, new));
    }
    let noop = d.is_empty();
    proof {
        assert(d.added@.len() == added_in(pre@, new, new.len() as int).len());
        assert(noop == diff_is_empty(pre_spec, new));
    }
    let status = if request.create_file {
        ApplyStatus::Created
    } else if noop {
        ApplyStatus::NoOp
    } else {
        ApplyStatus::Applied
    };
    let summary = if request.create_file {
        let t = summary_with("Created", file.as_str(), &warnings);
        assert(t@ =~= created_summary(file@, warnings@));
        t
    } else if noop {
        let t = summary_with("No-op edit in", file.as_str(), &warnings);
        assert(t@ =~= edited_summary(file@, true, warnings@));
        t
    } else {
        let t = summary_with("Modified", file.as_str(), &warnings);
        assert(t@ =~= edited_summary(file@, false, warnings@));
        t
    };
    ApplyChangeResponse { status, summary, warnings, context, diff_snippet: snippet }
}

/// Deleting `file` took graph `old_g` and session `old_s` to `new_g` and
/// `new_s` and answered `r`.
pub open spec fn file_deleted(
    old_g: CodeGraph,
    new_g: CodeGraph,
    old_s: SessionState,
    new_s: SessionState,
    file: Seq<char>,
    r: ApplyChangeResponse,
) -> bool {
    &&& new_g.wf()
    &&& file_removed(old_g, file, new_g)
    &&& new_s.file_log() == old_s.file_log().push(file)
    &&& new_s.edit_log() == old_s.edit_log()
    &&& new_s.last_results() == old_s.last_results()
    &&& new_s.started() == old_s.started()
    &&& r.status == ApplyStatus::Deleted
    &&& r.summary@ == "Deleted "@ + file
    &&& r.warnings@.len() == 0
    &&& r.context.callers@.len() == 0
    &&& r.context.tests@.len() == 0
    &&& r.diff_snippet@.len() == 0
}

/// Finish `apply_change` for a request that deleted its file: drop the
/// file's symbols and edges and record the edit.
pub fn apply_delete(graph: &mut CodeGraph, session: &mut SessionState, file: &String) -> (r: ApplyChangeResponse)
    requires
        old(graph).wf(),
    ensures
        file_deleted(*old(graph), *final(graph), *old(session), *final(session), file@, r),
{
    graph.remove_file(file);
    session.record_file_edit(file.as_str());
    let mut summary = String::new();
    push_str(&mut summary, "Deleted ");
    push_str(&mut summary, file.as_str());
    ApplyChangeResponse {
        status: ApplyStatus::Deleted,
        summary,
        warnings: Vec::new(),
        context: BundledContext::default(),
        diff_snippet: String::new(),
    }
}

} // verus!
