//! Symbol-table diff between a file's state before and after an edit.
//!
//! Symbols are matched by id. A symbol present only after the edit is
//! added, one present only before is removed; a matched pair whose
//! signature, return type, async-ness or parameters differ is a signature
//! change, and otherwise a pair whose body hash differs is a body change.
//! When an id occurs more than once in a list, its last occurrence counts.

use vstd::prelude::*;

use crate::assoc::KeyEq;
use crate::graph::types::{same_symbol, Symbol, SymbolId};

verus! {

broadcast use vstd::string::group_string_axioms;

/// Classification of the changes between two symbol lists of one file.
#[derive(Debug)]
pub struct SymbolDiff {
    pub added: Vec<Symbol>,
    pub removed: Vec<Symbol>,
    pub modified_sig: Vec<(Symbol, Symbol)>,
    pub modified_body: Vec<(Symbol, Symbol)>,
}

impl SymbolDiff {
    /// A diff with nothing in it.
    pub fn empty() -> (r: Self)
        ensures
            r.added@.len() == 0,
            r.removed@.len() == 0,
            r.modified_sig@.len() == 0,
            r.modified_body@.len() == 0,
    {
        SymbolDiff { added: Vec::new(), removed: Vec::new(), modified_sig: Vec::new(), modified_body: Vec::new() }
    }

    /// Is every category empty (a whitespace- or comment-only edit)?
    pub fn is_empty(&self) -> (r: bool)
        ensures
            r == (self.added@.len() == 0 && self.removed@.len() == 0 && self.modified_sig@.len() == 0
                && self.modified_body@.len() == 0),
    {
        self.added.len() == 0 && self.removed.len() == 0 && self.modified_sig.len() == 0
            && self.modified_body.len() == 0
    }
}

/// The last symbol of `syms` with id `k`.
pub open spec fn last_with(syms: Seq<Symbol>, k: (Seq<char>, Seq<char>, crate::graph::types::SymbolKind)) -> Option<Symbol>
    decreases syms.len(),
{
    if syms.len() == 0 {
        None
    } else if syms.last().id@ == k {
        Some(syms.last())
    } else {
        last_with(syms.drop_last(), k)
    }
}

/// Position `i` holds the last occurrence of its id in `syms`.
pub open spec fn is_last(syms: Seq<Symbol>, i: int) -> bool {
    forall|j: int| i < j < syms.len() ==> #[trigger] syms[j].id@ != syms[i].id@
}

/// The texts of a list of strings.
pub open spec fn strs(v: Seq<String>) -> Seq<Seq<char>> {
    v.map_values(|s: String| s@)
}

/// The signatures of `a` and `b` differ: text, return type, async-ness or parameters.
pub open spec fn sig_changed(a: Symbol, b: Symbol) -> bool {
    ||| a.signature@ != b.signature@
    ||| crate::search::hit::opt_text(a.return_type) != crate::search::hit::opt_text(b.return_type)
    ||| a.is_async != b.is_async
    ||| strs(a.params@) != strs(b.params@)
}

/// The symbols of `new[..n]` (last occurrences) with no match in `old`.
pub open spec fn added_in(old: Seq<Symbol>, new: Seq<Symbol>, n: int) -> Seq<Symbol>
    decreases n,
{
    if n <= 0 {
        Seq::empty()
    } else {
        let prev = added_in(old, new, n - 1);
        let s = new[n - 1];
        if is_last(new, n - 1) && last_with(old, s.id@) is None {
            prev.push(s)
        } else {
            prev
        }
    }
}

/// The symbols of `old[..n]` (last occurrences) with no match in `new`.
pub open spec fn removed_in(old: Seq<Symbol>, new: Seq<Symbol>, n: int) -> Seq<Symbol>
    decreases n,
{
    if n <= 0 {
        Seq::empty()
    } else {
        let prev = removed_in(old, new, n - 1);
        let s = old[n - 1];
        if is_last(old, n - 1) && last_with(new, s.id@) is None {
            prev.push(s)
        } else {
            prev
        }
    }
}

/// The matched pairs of `new[..n]` whose signatures differ (when `sig`), or
/// whose signatures agree and body hashes differ (when not `sig`).
pub open spec fn modified_in(old: Seq<Symbol>, new: Seq<Symbol>, n: int, sig: bool) -> Seq<(Symbol, Symbol)>
    decreases n,
{
    if n <= 0 {
        Seq::empty()
    } else {
        let prev = modified_in(old, new, n - 1, sig);
        let s = new[n - 1];
        if is_last(new, n - 1) {
            match last_with(old, s.id@) {
                Some(o) => if sig && sig_changed(o, s) {
                    prev.push((o, s))
                } else if !sig && !sig_changed(o, s) && o.body_hash != s.body_hash {
                    prev.push((o, s))
                } else {
                    prev
                },
                None => prev,
            }
        } else {
            prev
        }
    }
}

/// Two lists of symbols agree element by element.
pub open spec fn same_symbols(a: Seq<Symbol>, b: Seq<Symbol>) -> bool {
    a.len() == b.len() && forall|i: int| 0 <= i < a.len() ==> same_symbol(#[trigger] a[i], b[i])
}

/// Two lists of symbol pairs agree element by element.
pub open spec fn same_pairs(a: Seq<(Symbol, Symbol)>, b: Seq<(Symbol, Symbol)>) -> bool {
    a.len() == b.len() && forall|i: int| 0 <= i < a.len() ==> same_symbol(#[trigger] a[i].0, b[i].0) && same_symbol(a[i].1, b[i].1)
}

/// Does `a` equal `b` as optional text?
fn opt_eq(a: &Option<String>, b: &Option<String>) -> (r: bool)
    ensures
        r == (crate::search::hit::opt_text(*a) == crate::search::hit::opt_text(*b)),
{
    match (a, b) {
        (Some(x), Some(y)) => *x == *y,
        (None, None) => true,
        _ => false,
    }
}

/// Do `a` and `b` hold the same texts?
fn strs_eq(a: &Vec<String>, b: &Vec<String>) -> (r: bool)
    ensures
        r == (strs(a@) == strs(b@)),
{
    if a.len() != b.len() {
        assert(strs(a@).len() != strs(b@).len());
        return false;
    }
    let mut i: usize = 0;
    while i < a.len()
        invariant
            a@.len() == b@.len(),
            i <= a@.len(),
            forall|k: int| 0 <= k < i ==> a@[k]@ == b@[k]@,
        decreases a@.len() - i,
    {
        if a[i] != b[i] {
            assert(strs(a@)[i as int] != strs(b@)[i as int]);
            return false;
        }
        i = i + 1;
    }
    assert(strs(a@) =~= strs(b@));
    true
}

/// Did the signature change between `a` and `b`?
fn signature_changed(a: &Symbol, b: &Symbol) -> (r: bool)
    ensures
        r == sig_changed(*a, *b),
{
    a.signature != b.signature || !opt_eq(&a.return_type, &b.return_type) || a.is_async != b.is_async
        || !strs_eq(&a.params, &b.params)
}

/// The last symbol of `syms` with the id of `id`, if any.
fn find_last<'a>(syms: &'a Vec<Symbol>, id: &SymbolId) -> (r: Option<&'a Symbol>)
    ensures
        match r {
            Some(s) => last_with(syms@, id@) == Some(*s),
            None => last_with(syms@, id@) is None,
        },
{
    let mut i = syms.len();
    assert(syms@.take(i as int) =~= syms@);
    while i > 0
        invariant
            i <= syms@.len(),
            last_with(syms@, id@) == last_with(syms@.take(i as int), id@),
        decreases i,
    {
        assert(syms@.take(i as int).drop_last() =~= syms@.take(i - 1));
        assert(syms@.take(i as int).last() == syms@[i - 1]);
        if syms[i - 1].id.key_eq(id) {
            return Some(&syms[i - 1]);
        }
        i = i - 1;
    }
    None
}

/// Is position `i` the last occurrence of its id in `syms`?
fn last_position(syms: &Vec<Symbol>, i: usize) -> (r: bool)
    requires
        i < syms@.len(),
    ensures
        r == is_last(syms@, i as int),
{
    let n = syms.len();
    let mut j = i + 1;
    while j < n
        invariant
            n == syms@.len(),
            i < j <= syms@.len(),
            forall|k: int| i < k < j ==> #[trigger] syms@[k].id@ != syms@[i as int].id@,
        decreases syms@.len() - j,
    {
        if syms[j].id.key_eq(&syms[i].id) {
            return false;
        }
        j = j + 1;
    }
    true
}

/// Diff two symbol lists of one file by id.
pub fn diff(old: &Vec<Symbol>, new: &Vec<Symbol>) -> (r: SymbolDiff)
    ensures
        same_symbols(r.added@, added_in(old@, new@, new@.len() as int)),
        same_symbols(r.removed@, removed_in(old@, new@, old@.len() as int)),
        same_pairs(r.modified_sig@, modified_in(old@, new@, new@.len() as int, true)),
        same_pairs(r.modified_body@, modified_in(old@, new@, new@.len() as int, false)),
{
    let mut out = SymbolDiff::empty();
    let mut i: usize = 0;
    while i < new.len()
        invariant
            i <= new@.len(),
            same_symbols(out.added@, added_in(old@, new@, i as int)),
            same_pairs(out.modified_sig@, modified_in(old@, new@, i as int, true)),
            same_pairs(out.modified_body@, modified_in(old@, new@, i as int, false)),
            out.removed@.len() == 0,
        decreases new@.len() - i,
    {
        let s = &new[i];
        if last_position(new, i) {
            match find_last(old, &s.id) {
                None => {
                    out.added.push(s.clone());
                },
                Some(o) => {
                    if signature_changed(o, s) {
                        out.modified_sig.push((o.clone(), s.clone()));
                    } else if o.body_hash != s.body_hash {
                        out.modified_body.push((o.clone(), s.clone()));
                    }
                },
            }
        }
        i = i + 1;
    }
    let mut j: usize = 0;
    while j < old.len()
        invariant
            j <= old@.len(),
            same_symbols(out.added@, added_in(old@, new@, new@.len() as int)),
            same_pairs(out.modified_sig@, modified_in(old@, new@, new@.len() as int, true)),
            same_pairs(out.modified_body@, modified_in(old@, new@, new@.len() as int, false)),
            same_symbols(out.removed@, removed_in(old@, new@, j as int)),
        decreases old@.len() - j,
    {
        let s = &old[j];
        if last_position(old, j) {
            match find_last(new, &s.id) {
                None => {
                    out.removed.push(s.clone());
                },
                Some(_) => {},
            }
        }
        j = j + 1;
    }
    out
}

proof fn lemma_last_with_some(a: Seq<Symbol>, i: int)
    requires
        0 <= i < a.len(),
    ensures
        last_with(a, a[i].id@) is Some,
        is_last(a, i) ==> last_with(a, a[i].id@) == Some(a[i]),
    decreases a.len(),
{
    if a.last().id@ != a[i].id@ {
        assert(i < a.len() - 1);
        assert(a.drop_last()[i] == a[i]);
        if is_last(a, i) {
            assert forall|j: int| i < j < a.drop_last().len() implies #[trigger] a.drop_last()[j].id@ != a.drop_last()[i].id@ by {
                assert(a.drop_last()[j] == a[j]);
            }
        }
        lemma_last_with_some(a.drop_last(), i);
    } else if is_last(a, i) && i < a.len() - 1 {
        assert(a[a.len() - 1].id@ != a[i].id@);
    }
}

/// Diffing a symbol list against itself finds nothing: an edit that leaves
/// every symbol as it was adds, removes and changes none.
pub proof fn lemma_diff_of_unchanged_is_empty(a: Seq<Symbol>)
    ensures
        added_in(a, a, a.len() as int).len() == 0,
        removed_in(a, a, a.len() as int).len() == 0,
        modified_in(a, a, a.len() as int, true).len() == 0,
        modified_in(a, a, a.len() as int, false).len() == 0,
{
    lemma_unchanged_prefix(a, a.len() as int);
}

proof fn lemma_unchanged_prefix(a: Seq<Symbol>, n: int)
    requires
        0 <= n <= a.len(),
    ensures
        added_in(a, a, n).len() == 0,
        removed_in(a, a, n).len() == 0,
        modified_in(a, a, n, true).len() == 0,
        modified_in(a, a, n, false).len() == 0,
    decreases n,
{
    if n > 0 {
        lemma_unchanged_prefix(a, n - 1);
        lemma_last_with_some(a, n - 1);
        let s = a[n - 1];
        if is_last(a, n - 1) {
            assert(!sig_changed(s, s));
        }
    }
}

} // verus!
