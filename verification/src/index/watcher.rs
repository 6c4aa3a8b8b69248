//! What the file watcher does with one event: events outside the project,
//! ignored by it, or on files no parser reads change nothing; a removed
//! file is dropped from the graph; a changed file is re-indexed from its
//! new parse.

use vstd::prelude::*;

use crate::graph::types::{file_removed, CodeGraph};
use crate::index::indexer::{centrality_room, reindex_file, reindexed};
use crate::parse::resolve::{opt_tc, FileSet, TsConfig};
use crate::parse::{detect_language, language_of, ParseOutput};
use crate::paths::{path_strip_prefix, strip_prefix};

verus! {

/// What happened to a watched file.
#[derive(Debug)]
pub enum WatchEvent {
    /// The file no longer exists.
    Removed,
    /// The file exists and was read and parsed anew.
    Changed(ParseOutput),
}

/// An event on `path` concerns the graph: the path lies under `root`,
/// the project's ignore rules do not exclude it, and a parser reads it.
pub open spec fn relevant(path: Seq<char>, root: Seq<char>, ignored: bool) -> bool {
    &&& strip_prefix(path, root) is Some
    &&& !ignored
    &&& language_of(path) is Some
}

/// Whether an event on `path` concerns the graph. `ignored` is the
/// project's ignore rules' verdict on the path relative to `root`.
pub fn is_relevant(path: &str, root: &str, ignored: bool) -> (r: bool)
    ensures
        r == relevant(path@, root@, ignored),
{
    if path_strip_prefix(path, root).is_none() {
        return false;
    }
    if ignored {
        return false;
    }
    detect_language(path).is_some()
}

/// Apply one watcher event on `path` to the graph.
pub fn handle_event(
    graph: &mut CodeGraph,
    path: &String,
    ignored: bool,
    event: WatchEvent,
    root: &str,
    tsconfig: Option<&TsConfig>,
    files: &FileSet,
)
    requires
        old(graph).wf(),
        event matches WatchEvent::Changed(out) ==> centrality_room(old(graph), out.edges@.len()),
    ensures
        final(graph).wf(),
        !relevant(path@, root@, ignored) ==> *final(graph) == *old(graph),
        relevant(path@, root@, ignored) ==> match event {
            WatchEvent::Removed => file_removed(*old(graph), path@, *final(graph)),
            WatchEvent::Changed(out) => reindexed(*old(graph), path@, out, *files, root@, opt_tc(tsconfig), *final(graph)),
        },
{
    if !is_relevant(path.as_str(), root, ignored) {
        return;
    }
    match event {
        WatchEvent::Removed => graph.remove_file(path),
        WatchEvent::Changed(out) => reindex_file(graph, path, out, root, tsconfig, files),
    }
}

} // verus!
