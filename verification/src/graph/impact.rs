//! Cascade warnings raised by `apply_change`.
//!
//! A warning names its kind, the symbol it concerns and a body; the body is
//! kept to at most 200 characters. Four detectors run on the graph after an
//! edit: SIGNATURE when a symbol's signature text changed and it has
//! callers, ASYNC_CHANGE when it became async or stopped being so and it has
//! callers, INTERFACE_BREAK when an interface or trait changed its signature
//! and some code refers to it, and ORPHAN when a removed symbol is still
//! called. Dependents are read from the forward edge table, where a caller
//! in another file keeps its edge while the callee's file is re-indexed.

use vstd::prelude::*;

use crate::graph::types::{CodeGraph, Edge, EdgeKind, Symbol, SymbolId, SymbolKind};
use crate::search::hit::join_with;
use crate::strings::{chars_of, push_char, push_range, push_str};

verus! {

broadcast use vstd::string::group_string_axioms;

/// Cascade warning kind, rendered as an uppercase tag.
#[derive(Debug, Clone, Copy, PartialEq, Eq, Structural)]
pub enum WarningKind {
    Signature,
    AsyncChange,
    Orphan,
    InterfaceBreak,
}

/// The tag of a warning kind.
pub open spec fn tag_text(k: WarningKind) -> Seq<char> {
    match k {
        WarningKind::Signature => "SIGNATURE"@,
        WarningKind::AsyncChange => "ASYNC_CHANGE"@,
        WarningKind::Orphan => "ORPHAN"@,
        WarningKind::InterfaceBreak => "INTERFACE_BREAK"@,
    }
}

impl WarningKind {
    /// The uppercase tag this kind is rendered as.
    pub fn tag(self) -> (r: &'static str)
        ensures
            r@ == tag_text(self),
    {
        match self {
            WarningKind::Signature => "SIGNATURE",
            WarningKind::AsyncChange => "ASYNC_CHANGE",
            WarningKind::Orphan => "ORPHAN",
            WarningKind::InterfaceBreak => "INTERFACE_BREAK",
        }
    }
}

/// Longest body a warning carries, in characters.
pub const MAX_BODY: usize = 200;

/// A body cut to fit: kept when it has at most 200 characters, otherwise its
/// first 199 followed by an ellipsis.
pub open spec fn clamped(body: Seq<char>) -> Seq<char> {
    if body.len() > MAX_BODY {
        body.take(MAX_BODY - 1).push('…')
    } else {
        body
    }
}

/// A single cascade warning.
#[derive(Debug)]
pub struct Warning {
    pub kind: WarningKind,
    pub symbol: SymbolId,
    pub body: String,
}

impl Warning {
    /// A warning whose body is clamped to at most 200 characters.
    pub fn new(kind: WarningKind, symbol: SymbolId, body: String) -> (r: Self)
        ensures
            r.kind == kind,
            r.symbol == symbol,
            r.body@ == clamped(body@),
            r.body@.len() <= MAX_BODY,
    {
        let mut w = Warning { kind, symbol, body };
        w.clamp();
        w
    }

    /// Cut the body to at most 200 characters, marking a cut with an ellipsis.
    fn clamp(&mut self)
        ensures
            final(self).kind == old(self).kind,
            final(self).symbol == old(self).symbol,
            final(self).body@ == clamped(old(self).body@),
    {
        let cs = chars_of(self.body.as_str());
        if cs.len() > MAX_BODY {
            let mut t = String::new();
            push_range(&mut t, &cs, 0, MAX_BODY - 1);
            push_char(&mut t, '…');
            assert(t@ =~= cs@.take(MAX_BODY - 1).push('…'));
            self.body = t;
        }
    }
}

/// Every warning body fits the output budget: clamping yields at most 200
/// characters, and leaves a body that already fits unchanged.
pub proof fn lemma_clamp_bounds(body: Seq<char>)
    ensures
        clamped(body).len() <= MAX_BODY,
        body.len() <= MAX_BODY ==> clamped(body) == body,
        clamped(clamped(body)) == clamped(body),
{
}

// ------------------------------------------------------------------
// Who depends on a symbol.
// ------------------------------------------------------------------

/// View of a symbol id.
pub type IdView = (Seq<char>, Seq<char>, SymbolKind);

/// Does `e` point at `k` (by a call, when `calls_only`)?
pub open spec fn refers(e: Edge, k: IdView, calls_only: bool) -> bool {
    e.to@ == k && (!calls_only || e.kind == EdgeKind::Calls)
}

/// Does some edge of `es` point at `k`?
pub open spec fn refers_any(es: Seq<Edge>, k: IdView, calls_only: bool) -> bool {
    exists|i: int| 0 <= i < es.len() && #[trigger] refers(es[i], k, calls_only)
}

/// The sources among `entries` (an id with its outgoing edges) with an edge
/// pointing at `k`, in entry order.
pub open spec fn users_in(entries: Seq<(SymbolId, Vec<Edge>)>, k: IdView, calls_only: bool) -> Seq<SymbolId>
    decreases entries.len(),
{
    if entries.len() == 0 {
        Seq::empty()
    } else {
        let prev = users_in(entries.drop_last(), k, calls_only);
        if refers_any(entries.last().1@, k, calls_only) {
            prev.push(entries.last().0)
        } else {
            prev
        }
    }
}

/// The ids whose outgoing edges point at `k`, in the order the forward
/// table holds them. The forward table is read because a caller in another
/// file keeps its edge while the callee's file is re-indexed or removed.
pub open spec fn users(g: &CodeGraph, k: IdView, calls_only: bool) -> Seq<SymbolId> {
    users_in(g.forward_edges.entry_seq(), k, calls_only)
}

/// Does some edge of `es` point at `k`?
fn points_at(es: &Vec<Edge>, k: &SymbolId, calls_only: bool) -> (r: bool)
    ensures
        r == refers_any(es@, k@, calls_only),
{
    let mut i: usize = 0;
    while i < es.len()
        invariant
            i <= es@.len(),
            forall|j: int| 0 <= j < i ==> !#[trigger] refers(es@[j], k@, calls_only),
        decreases es@.len() - i,
    {
        let e = &es[i];
        let hit = e.to == *k && (!calls_only || e.kind == EdgeKind::Calls);
        if hit {
            assert(refers(es@[i as int], k@, calls_only));
            return true;
        }
        i = i + 1;
    }
    false
}

/// The ids of `g` with an edge pointing at `k` (only calls, when
/// `calls_only`), in the order the forward table holds them.
pub fn users_of(g: &CodeGraph, k: &SymbolId, calls_only: bool) -> (r: Vec<SymbolId>)
    ensures
        r@ == users(g, k@, calls_only),
{
    let ghost es = g.forward_edges.entry_seq();
    let mut out: Vec<SymbolId> = Vec::new();
    let mut i: usize = 0;
    let n = g.forward_edges.len();
    while i < n
        invariant
            n == es.len(),
            es == g.forward_edges.entry_seq(),
            i <= n,
            out@ == users_in(es.take(i as int), k@, calls_only),
        decreases n - i,
    {
        assert(es.take(i + 1).drop_last() =~= es.take(i as int));
        if points_at(g.forward_edges.value_at(i), k, calls_only) {
            out.push(g.forward_edges.key_at(i).clone());
        }
        i = i + 1;
    }
    assert(es.take(n as int) =~= es);
    out
}

// ------------------------------------------------------------------
// The detectors.
// ------------------------------------------------------------------

/// A warning by its parts: kind, symbol and body.
pub type WarningView = (WarningKind, IdView, Seq<char>);

impl View for Warning {
    type V = WarningView;

    open spec fn view(&self) -> WarningView {
        (self.kind, self.symbol@, self.body@)
    }
}

/// The views of a list of warnings.
pub open spec fn warning_views(ws: Seq<Warning>) -> Seq<WarningView> {
    ws.map_values(|w: Warning| w@)
}

/// The view of an optional warning.
pub open spec fn opt_warning(w: Option<Warning>) -> Option<WarningView> {
    match w {
        Some(w) => Some(w@),
        None => None,
    }
}

/// A dependent named as `name (file)`.
pub open spec fn user_label(id: SymbolId) -> Seq<char> {
    id.name@ + " ("@ + id.file@ + ")"@
}

/// The dependents, labelled and joined by commas.
pub open spec fn user_list(ids: Seq<SymbolId>) -> Seq<char> {
    join_with(ids.map_values(|id: SymbolId| user_label(id)), ", "@)
}

/// Interfaces and traits: shapes other code implements.
pub open spec fn is_interface(k: SymbolKind) -> bool {
    k == SymbolKind::Interface || k == SymbolKind::Trait
}

/// `name: signature `old` -> `new`; callers: …`
pub open spec fn signature_body(old: Symbol, new: Symbol, cs: Seq<SymbolId>) -> Seq<char> {
    new.id.name@ + ": signature `"@ + old.signature@ + "` -> `"@ + new.signature@ + "`; callers: "@ + user_list(cs)
}

/// `name became async; callers: …` or `name is no longer async; callers: …`
pub open spec fn async_body(new: Symbol, cs: Seq<SymbolId>) -> Seq<char> {
    new.id.name@ + if new.is_async {
        " became async; callers: "@
    } else {
        " is no longer async; callers: "@
    } + user_list(cs)
}

/// `name changed shape; dependents: …`
pub open spec fn interface_body(new: Symbol, ds: Seq<SymbolId>) -> Seq<char> {
    new.id.name@ + " changed shape; dependents: "@ + user_list(ds)
}

/// `name was removed; still called by: …`
pub open spec fn orphan_body(gone: Symbol, cs: Seq<SymbolId>) -> Seq<char> {
    gone.id.name@ + " was removed; still called by: "@ + user_list(cs)
}

/// SIGNATURE: the signature text changed and the symbol has callers.
pub open spec fn signature_warning(g: &CodeGraph, old: Symbol, new: Symbol) -> Option<WarningView> {
    let cs = users(g, new.id@, true);
    if cs.len() > 0 && old.signature@ != new.signature@ {
        Some((WarningKind::Signature, new.id@, clamped(signature_body(old, new, cs))))
    } else {
        None
    }
}

/// ASYNC_CHANGE: the symbol became async or stopped being so, and has callers.
pub open spec fn async_warning(g: &CodeGraph, old: Symbol, new: Symbol) -> Option<WarningView> {
    let cs = users(g, new.id@, true);
    if cs.len() > 0 && old.is_async != new.is_async {
        Some((WarningKind::AsyncChange, new.id@, clamped(async_body(new, cs))))
    } else {
        None
    }
}

/// INTERFACE_BREAK: an interface or trait changed its signature and some
/// code refers to it by any edge.
pub open spec fn interface_warning(g: &CodeGraph, old: Symbol, new: Symbol) -> Option<WarningView> {
    let ds = users(g, new.id@, false);
    if ds.len() > 0 && is_interface(new.id.kind) && old.signature@ != new.signature@ {
        Some((WarningKind::InterfaceBreak, new.id@, clamped(interface_body(new, ds))))
    } else {
        None
    }
}

/// ORPHAN: the symbol was removed and callers still call it.
pub open spec fn orphan_warning(g: &CodeGraph, gone: Symbol) -> Option<WarningView> {
    let cs = users(g, gone.id@, true);
    if cs.len() > 0 {
        Some((WarningKind::Orphan, gone.id@, clamped(orphan_body(gone, cs))))
    } else {
        None
    }
}

/// Append the dependents, labelled and joined by commas.
fn push_user_list(out: &mut String, ids: &Vec<SymbolId>)
    ensures
        final(out)@ == old(out)@ + user_list(ids@),
{
    let ghost labels = ids@.map_values(|id: SymbolId| user_label(id));
    let ghost start = out@;
    let mut i: usize = 0;
    while i < ids.len()
        invariant
            i <= ids@.len(),
            labels == ids@.map_values(|id: SymbolId| user_label(id)),
            out@ == start + join_with(labels.take(i as int), ", "@),
        decreases ids@.len() - i,
    {
        let ghost before = out@;
        if i > 0 {
            push_str(out, ", ");
        }
        push_str(out, ids[i].name.as_str());
        push_str(out, " (");
        push_str(out, ids[i].file.as_str());
        push_str(out, ")");
        proof {
            let t = labels.take(i + 1);
            assert(t.drop_last() =~= labels.take(i as int));
            assert(t.last() == user_label(ids@[i as int]));
            if i == 0 {
                assert(labels.take(0) =~= Seq::<Seq<char>>::empty());
                assert(out@ =~= start + join_with(t, ", "@));
            } else {
                assert(out@ =~= start + join_with(t, ", "@));
            }
        }
        i = i + 1;
    }
    assert(labels.take(ids@.len() as int) =~= labels);
}

/// The SIGNATURE warning for `old` becoming `new`: raised when the
/// signature text changed and `g` holds callers of the symbol, whose body
/// names them.
pub fn detect_signature(g: &CodeGraph, old: &Symbol, new: &Symbol) -> (r: Option<Warning>)
    ensures
        opt_warning(r) == signature_warning(g, *old, *new),
{
    let cs = users_of(g, &new.id, true);
    if cs.len() > 0 && old.signature != new.signature {
        let mut body = String::new();
        push_str(&mut body, new.id.name.as_str());
        push_str(&mut body, ": signature `");
        push_str(&mut body, old.signature.as_str());
        push_str(&mut body, "` -> `");
        push_str(&mut body, new.signature.as_str());
        push_str(&mut body, "`; callers: ");
        push_user_list(&mut body, &cs);
        Some(Warning::new(WarningKind::Signature, new.id.clone(), body))
    } else {
        None
    }
}

/// The ASYNC_CHANGE warning for `old` becoming `new`: raised when the
/// symbol became async or stopped being so and `g` holds callers of it.
pub fn detect_async_change(g: &CodeGraph, old: &Symbol, new: &Symbol) -> (r: Option<Warning>)
    ensures
        opt_warning(r) == async_warning(g, *old, *new),
{
    let cs = users_of(g, &new.id, true);
    if cs.len() > 0 && old.is_async != new.is_async {
        let mut body = String::new();
        push_str(&mut body, new.id.name.as_str());
        if new.is_async {
            push_str(&mut body, " became async; callers: ");
        } else {
            push_str(&mut body, " is no longer async; callers: ");
        }
        push_user_list(&mut body, &cs);
        Some(Warning::new(WarningKind::AsyncChange, new.id.clone(), body))
    } else {
        None
    }
}

/// The INTERFACE_BREAK warning for `old` becoming `new`: raised when an
/// interface or trait changed its signature and some code in `g` refers
/// to it.
pub fn detect_interface_break(g: &CodeGraph, old: &Symbol, new: &Symbol) -> (r: Option<Warning>)
    ensures
        opt_warning(r) == interface_warning(g, *old, *new),
{
    let ds = users_of(g, &new.id, false);
    let shape = new.id.kind == SymbolKind::Interface || new.id.kind == SymbolKind::Trait;
    if ds.len() > 0 && shape && old.signature != new.signature {
        let mut body = String::new();
        push_str(&mut body, new.id.name.as_str());
        push_str(&mut body, " changed shape; dependents: ");
        push_user_list(&mut body, &ds);
        Some(Warning::new(WarningKind::InterfaceBreak, new.id.clone(), body))
    } else {
        None
    }
}

/// The ORPHAN warning for the removed symbol `gone`: raised when callers in
/// `g` still call it.
pub fn detect_orphan(g: &CodeGraph, gone: &Symbol) -> (r: Option<Warning>)
    ensures
        opt_warning(r) == orphan_warning(g, *gone),
{
    let cs = users_of(g, &gone.id, true);
    if cs.len() > 0 {
        let mut body = String::new();
        push_str(&mut body, gone.id.name.as_str());
        push_str(&mut body, " was removed; still called by: ");
        push_user_list(&mut body, &cs);
        Some(Warning::new(WarningKind::Orphan, gone.id.clone(), body))
    } else {
        None
    }
}

/// An optional warning as a list of at most one.
pub open spec fn opt_list(w: Option<WarningView>) -> Seq<WarningView> {
    match w {
        Some(v) => seq![v],
        None => Seq::empty(),
    }
}

/// The warnings for one symbol whose signature changed: SIGNATURE,
/// ASYNC_CHANGE and INTERFACE_BREAK, in that order, each where it applies.
pub open spec fn pair_warnings(g: &CodeGraph, old: Symbol, new: Symbol) -> Seq<WarningView> {
    opt_list(signature_warning(g, old, new)) + opt_list(async_warning(g, old, new)) + opt_list(
        interface_warning(g, old, new),
    )
}

/// The warnings for each `(old, new)` pair, in order.
pub open spec fn changed_warnings(g: &CodeGraph, ps: Seq<(Symbol, Symbol)>) -> Seq<WarningView>
    decreases ps.len(),
{
    if ps.len() == 0 {
        Seq::empty()
    } else {
        changed_warnings(g, ps.drop_last()) + pair_warnings(g, ps.last().0, ps.last().1)
    }
}

/// The ORPHAN warnings for the removed symbols, in order.
pub open spec fn orphan_warnings(g: &CodeGraph, rs: Seq<Symbol>) -> Seq<WarningView>
    decreases rs.len(),
{
    if rs.len() == 0 {
        Seq::empty()
    } else {
        orphan_warnings(g, rs.drop_last()) + opt_list(orphan_warning(g, rs.last()))
    }
}

/// Every cascade warning of an edit: those of the symbols whose signature
/// changed, then the orphans of the removed ones.
pub open spec fn cascade(g: &CodeGraph, changed: Seq<(Symbol, Symbol)>, removed: Seq<Symbol>) -> Seq<WarningView> {
    changed_warnings(g, changed) + orphan_warnings(g, removed)
}

/// Append an optional warning.
fn push_opt(out: &mut Vec<Warning>, w: Option<Warning>)
    ensures
        warning_views(final(out)@) == warning_views(old(out)@) + opt_list(opt_warning(w)),
{
    let ghost before = out@;
    match w {
        Some(w) => {
            out.push(w);
            assert(warning_views(out@) =~= warning_views(before) + opt_list(opt_warning(Some(w))));
        },
        None => {
            assert(warning_views(out@) =~= warning_views(before) + opt_list(opt_warning(None)));
        },
    }
}

/// Run the detectors over an edit: for each `(old, new)` pair whose
/// signature changed, SIGNATURE, ASYNC_CHANGE and INTERFACE_BREAK; then
/// ORPHAN for each removed symbol.
pub fn cascade_warnings(g: &CodeGraph, changed: &Vec<(Symbol, Symbol)>, removed: &Vec<Symbol>) -> (r: Vec<Warning>)
    ensures
        warning_views(r@) == cascade(g, changed@, removed@),
{
    let mut out: Vec<Warning> = Vec::new();
    let mut i: usize = 0;
    assert(warning_views(out@) =~= Seq::<WarningView>::empty());
    while i < changed.len()
        invariant
            i <= changed@.len(),
            warning_views(out@) == changed_warnings(g, changed@.take(i as int)),
        decreases changed@.len() - i,
    {
        let ghost before = warning_views(out@);
        let (o, n) = (&changed[i].0, &changed[i].1);
        push_opt(&mut out, detect_signature(g, o, n));
        push_opt(&mut out, detect_async_change(g, o, n));
        push_opt(&mut out, detect_interface_break(g, o, n));
        proof {
            let t = changed@.take(i + 1);
            assert(t.drop_last() =~= changed@.take(i as int));
            assert(t.last() == changed@[i as int]);
            assert(warning_views(out@) =~= before + pair_warnings(g, *o, *n));
        }
        i = i + 1;
    }
    assert(changed@.take(changed@.len() as int) =~= changed@);
    let ghost mid = warning_views(out@);
    let mut j: usize = 0;
    assert(removed@.take(0) =~= Seq::<Symbol>::empty());
    assert(mid =~= mid + orphan_warnings(g, removed@.take(0)));
    while j < removed.len()
        invariant
            j <= removed@.len(),
            warning_views(out@) == mid + orphan_warnings(g, removed@.take(j as int)),
        decreases removed@.len() - j,
    {
        let ghost before = warning_views(out@);
        push_opt(&mut out, detect_orphan(g, &removed[j]));
        proof {
            let t = removed@.take(j + 1);
            assert(t.drop_last() =~= removed@.take(j as int));
            assert(warning_views(out@) =~= mid + orphan_warnings(g, t));
        }
        j = j + 1;
    }
    assert(removed@.take(removed@.len() as int) =~= removed@);
    out
}

/// The warnings of one changed pair are among those of the whole edit.
proof fn lemma_pair_in_changed(g: &CodeGraph, ps: Seq<(Symbol, Symbol)>, i: int, w: WarningView)
    requires
        0 <= i < ps.len(),
        pair_warnings(g, ps[i].0, ps[i].1).contains(w),
    ensures
        changed_warnings(g, ps).contains(w),
    decreases ps.len(),
{
    let prev = changed_warnings(g, ps.drop_last());
    let last = pair_warnings(g, ps.last().0, ps.last().1);
    if i == ps.len() - 1 {
        let k = choose|k: int| 0 <= k < last.len() && last[k] == w;
        assert((prev + last)[prev.len() + k] == w);
    } else {
        assert(ps.drop_last()[i] == ps[i]);
        lemma_pair_in_changed(g, ps.drop_last(), i, w);
        let k = choose|k: int| 0 <= k < prev.len() && prev[k] == w;
        assert((prev + last)[k] == w);
    }
}

/// An edit that changes the signature text of a symbol with callers warns
/// SIGNATURE for it, naming those callers; one that makes it async or
/// stops it being so warns ASYNC_CHANGE.
pub proof fn lemma_signature_change_warns(g: &CodeGraph, changed: Seq<(Symbol, Symbol)>, removed: Seq<Symbol>, i: int)
    requires
        0 <= i < changed.len(),
        users(g, changed[i].1.id@, true).len() > 0,
    ensures
        changed[i].0.signature@ != changed[i].1.signature@ ==> cascade(g, changed, removed).contains(
            (
                WarningKind::Signature,
                changed[i].1.id@,
                clamped(signature_body(changed[i].0, changed[i].1, users(g, changed[i].1.id@, true))),
            ),
        ),
        changed[i].0.is_async != changed[i].1.is_async ==> cascade(g, changed, removed).contains(
            (
                WarningKind::AsyncChange,
                changed[i].1.id@,
                clamped(async_body(changed[i].1, users(g, changed[i].1.id@, true))),
            ),
        ),
{
    let (o, n) = (changed[i].0, changed[i].1);
    let pw = pair_warnings(g, o, n);
    let cw = changed_warnings(g, changed);
    let all = cw + orphan_warnings(g, removed);
    if o.signature@ != n.signature@ {
        let w = signature_warning(g, o, n)->0;
        assert(pw[0] == w);
        lemma_pair_in_changed(g, changed, i, w);
        let k = choose|k: int| 0 <= k < cw.len() && cw[k] == w;
        assert(all[k] == w);
    }
    if o.is_async != n.is_async {
        let w = async_warning(g, o, n)->0;
        let s = opt_list(signature_warning(g, o, n));
        assert(pw[s.len() as int] == w);
        lemma_pair_in_changed(g, changed, i, w);
        let k = choose|k: int| 0 <= k < cw.len() && cw[k] == w;
        assert(all[k] == w);
    }
}

/// An edit that removes a symbol still called elsewhere warns ORPHAN for
/// it, naming the callers.
pub proof fn lemma_removal_warns(g: &CodeGraph, changed: Seq<(Symbol, Symbol)>, removed: Seq<Symbol>, i: int)
    requires
        0 <= i < removed.len(),
        users(g, removed[i].id@, true).len() > 0,
    ensures
        cascade(g, changed, removed).contains(
            (WarningKind::Orphan, removed[i].id@, clamped(orphan_body(removed[i], users(g, removed[i].id@, true)))),
        ),
    decreases removed.len(),
{
    let w = orphan_warning(g, removed[i])->0;
    let cw = changed_warnings(g, changed);
    let prev = orphan_warnings(g, removed.drop_last());
    let last = opt_list(orphan_warning(g, removed.last()));
    if i == removed.len() - 1 {
        assert((cw + (prev + last))[(cw.len() + prev.len()) as int] == w);
        assert(cw + (prev + last) =~= cascade(g, changed, removed));
    } else {
        assert(removed.drop_last()[i] == removed[i]);
        lemma_removal_warns(g, changed, removed.drop_last(), i);
        let all0 = cascade(g, changed, removed.drop_last());
        let k = choose|k: int| 0 <= k < all0.len() && all0[k] == w;
        assert(all0 =~= cw + prev);
        assert(cascade(g, changed, removed) =~= cw + prev + last);
        assert((cw + prev + last)[k] == w);
    }
}

} // verus!
