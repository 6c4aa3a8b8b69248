//! The on-disk cache: the graph with the content hashes it was built from.

use vstd::prelude::*;

use crate::assoc::AssocMap;
use crate::graph::types::CodeGraph;
use vstd::utf8::encode_utf8;

verus! {

/// Version of the cache layout; a cache of another version is rebuilt.
pub const CACHE_VERSION: u32 = 1;

/// The cached index of a project.
#[derive(Debug)]
pub struct CacheFile {
    pub version: u32,
    /// Content hash per file.
    pub file_hashes: AssocMap<String, u64>,
    /// Subtree hash per directory.
    pub tree_hashes: AssocMap<String, u64>,
    pub graph: CodeGraph,
    pub tsconfig: Option<TsConfigSnapshot>,
}

/// The `tsconfig.json` settings path resolution uses.
#[derive(Debug)]
pub struct TsConfigSnapshot {
    pub base_url: Option<String>,
    /// Alias pattern to its target patterns.
    pub paths: AssocMap<String, Vec<String>>,
}

impl CacheFile {
    /// An empty cache of the current version.
    pub fn new() -> (r: Self)
        ensures
            r.version == CACHE_VERSION,
            r.file_hashes@.dom().len() == 0,
            r.tree_hashes@.dom().len() == 0,
            r.graph.wf(),
            r.graph.symbols@.dom().len() == 0,
            r.tsconfig is None,
    {
        CacheFile {
            version: CACHE_VERSION,
            file_hashes: AssocMap::new(),
            tree_hashes: AssocMap::new(),
            graph: CodeGraph::new(),
            tsconfig: None,
        }
    }
}

// ------------------------------------------------------------------
// Content hashes.
// ------------------------------------------------------------------

/// What `blake3::hash` gives for `bytes`: its digest's bytes.
pub uninterp spec fn blake3_digest(bytes: Seq<u8>) -> Seq<u8>;

/// Calls `blake3::hash` on `bytes` and copies out the 32 bytes of the
/// digest, which is `blake3_digest` of the bytes.
#[verifier::external_body]
fn blake3_hash(bytes: &[u8]) -> (r: Vec<u8>)
    ensures
        r@ == blake3_digest(bytes@),
        r@.len() == 32,
{
    blake3::hash(bytes).as_bytes().to_vec()
}

/// `256^k`.
pub open spec fn pow256(k: nat) -> nat
    decreases k,
{
    if k == 0 {
        1
    } else {
        256 * pow256((k - 1) as nat)
    }
}

/// The number `bs` spells, least significant byte first.
pub open spec fn le_value(bs: Seq<u8>) -> nat
    decreases bs.len(),
{
    if bs.len() == 0 {
        0
    } else {
        bs[0] as nat + 256 * le_value(bs.drop_first())
    }
}

/// The `n` bytes of `x`, least significant first.
pub open spec fn le_bytes(x: nat, n: nat) -> Seq<u8>
    decreases n,
{
    if n == 0 {
        Seq::empty()
    } else {
        seq![(x % 256) as u8] + le_bytes(x / 256, (n - 1) as nat)
    }
}

/// The content hash of `bytes`: the first eight bytes of their BLAKE3
/// digest, read least significant first.
pub open spec fn content_hash_of(bytes: Seq<u8>) -> nat {
    le_value(blake3_digest(bytes).take(8))
}

/// The number the first eight bytes of the digest `d` spell, least
/// significant first.
pub fn digest_to_u64(d: &Vec<u8>) -> (r: u64)
    requires
        d@.len() >= 8,
    ensures
        r as nat == le_value(d@.take(8)),
{
    let ghost s = d@.take(8);
    let mut acc: u64 = 0;
    let mut i: usize = 8;
    assert(s.subrange(8, 8) =~= Seq::<u8>::empty());
    while i > 0
        invariant
            s == d@.take(8),
            d@.len() >= 8,
            i <= 8,
            acc as nat == le_value(s.subrange(i as int, 8)),
            (acc as nat) < pow256((8 - i) as nat),
        decreases i,
    {
        let b = d[i - 1];
        proof {
            assert(s.subrange(i - 1, 8).drop_first() =~= s.subrange(i as int, 8));
            assert(s.subrange(i - 1, 8)[0] == b);
            let k = (8 - i) as nat;
            assert(pow256(k + 1) == 256 * pow256(k));
            assert(pow256(0) == 1);
            assert(pow256(1) == 256);
            assert(pow256(2) == 65536);
            assert(pow256(3) == 16777216);
            assert(pow256(4) == 4294967296);
            assert(pow256(5) == 1099511627776);
            assert(pow256(6) == 281474976710656);
            assert(pow256(7) == 72057594037927936);
            assert(pow256(8) == 18446744073709551616);
            assert(k + 1 <= 8);
            assert((acc as nat) * 256 + (b as nat) < 256 * pow256(k)) by (nonlinear_arith)
                requires
                    (acc as nat) < pow256(k),
                    (b as nat) < 256,
            ;
            assert(pow256(k + 1) <= 18446744073709551616) by {
                if k + 1 == 1 {} else if k + 1 == 2 {} else if k + 1 == 3 {} else if k + 1 == 4 {} else if k + 1 == 5 {} else if k + 1 == 6 {} else if k + 1 == 7 {} else {}
            }
        }
        acc = acc * 256 + b as u64;
        i = i - 1;
    }
    assert(s.subrange(0, 8) =~= s);
    acc
}

/// The content hash of `bytes`: the first eight bytes of their BLAKE3
/// digest, read least significant first.
pub fn content_hash(bytes: &[u8]) -> (r: u64)
    ensures
        r as nat == content_hash_of(bytes@),
{
    let d = blake3_hash(bytes);
    digest_to_u64(&d)
}

/// The bytes a tree hash covers: each entry's path in UTF-8, then its
/// content hash in eight bytes, least significant first.
pub open spec fn tree_bytes(es: Seq<(Seq<char>, u64)>) -> Seq<u8>
    decreases es.len(),
{
    if es.len() == 0 {
        Seq::empty()
    } else {
        tree_bytes(es.drop_last()) + encode_utf8(es.last().0) + le_bytes(es.last().1 as nat, 8)
    }
}

/// The values of a list of (path, hash) entries.
pub open spec fn entry_texts(es: Seq<(String, u64)>) -> Seq<(Seq<char>, u64)> {
    es.map_values(|e: (String, u64)| (e.0@, e.1))
}

/// Append `x`'s eight bytes, least significant first.
fn push_le_u64(out: &mut Vec<u8>, x: u64)
    ensures
        final(out)@ == old(out)@ + le_bytes(x as nat, 8),
{
    let ghost start = old(out)@;
    let mut y: u64 = x;
    let mut k: usize = 0;
    while k < 8
        invariant
            k <= 8,
            start + le_bytes(x as nat, 8) == out@ + le_bytes(y as nat, (8 - k) as nat),
        decreases 8 - k,
    {
        let ghost before = out@;
        out.push((y % 256) as u8);
        proof {
            let n = (8 - k) as nat;
            assert(le_bytes(y as nat, n) == seq![(y as nat % 256) as u8] + le_bytes(y as nat / 256, (n - 1) as nat));
            assert(out@ + le_bytes((y / 256) as nat, (n - 1) as nat) =~= before + le_bytes(y as nat, n));
        }
        y = y / 256;
        k = k + 1;
    }
    assert(le_bytes(y as nat, 0) =~= Seq::<u8>::empty());
    assert(out@ + Seq::<u8>::empty() =~= out@);
}

/// The hash of a project tree from its files in order, each with its path
/// and content hash: the first eight bytes of the BLAKE3 digest of
/// [`tree_bytes`], read least significant first.
pub fn tree_hash(entries: &Vec<(String, u64)>) -> (r: u64)
    ensures
        r as nat == le_value(blake3_digest(tree_bytes(entry_texts(entries@))).take(8)),
{
    let ghost es = entry_texts(entries@);
    let mut bytes: Vec<u8> = Vec::new();
    let mut i: usize = 0;
    assert(es.take(0) =~= Seq::<(Seq<char>, u64)>::empty());
    while i < entries.len()
        invariant
            i <= entries@.len(),
            es == entry_texts(entries@),
            bytes@ == tree_bytes(es.take(i as int)),
        decreases entries@.len() - i,
    {
        let ghost before = bytes@;
        let path = entries[i].0.as_str().as_bytes();
        assert(path@ == encode_utf8(entries@[i as int].0@));
        let mut j: usize = 0;
        while j < path.len()
            invariant
                j <= path@.len(),
                bytes@ == before + path@.take(j as int),
            decreases path@.len() - j,
        {
            bytes.push(path[j]);
            assert(path@.take(j + 1) =~= path@.take(j as int).push(path@[j as int]));
            j = j + 1;
        }
        assert(path@.take(path@.len() as int) =~= path@);
        push_le_u64(&mut bytes, entries[i].1);
        assert(es.take(i + 1).drop_last() =~= es.take(i as int));
        assert(es.take(i + 1).last() == es[i as int]);
        assert(bytes@ =~= tree_bytes(es.take(i + 1)));
        i = i + 1;
    }
    assert(es.take(entries@.len() as int) =~= es);
    let d = blake3_hash(bytes.as_slice());
    digest_to_u64(&d)
}

} // verus!
