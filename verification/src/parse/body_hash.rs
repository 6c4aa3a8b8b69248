//! A body hash that survives formatting-only changes.
//!
//! Block comments `/* … */` are removed, then each line loses its `//` or
//! `#` comment and its surrounding whitespace; the non-blank lines are
//! joined by single spaces and the result is hashed with `seahash`. A
//! re-indent or a comment edit leaves the hash unchanged.

use vstd::prelude::*;

use crate::search::hit::join_with;
use crate::strings::{find_first, first_at, lines, lines_of, trim, trim_bounds};
use vstd::utf8::encode_utf8;

verus! {

broadcast use vstd::string::group_string_axioms;

/// `seahash::hash` of `bytes`.
pub uninterp spec fn seahash_of(bytes: Seq<u8>) -> u64;

/// Calls `seahash::hash`. Its result is named by [`seahash_of`]; nothing
/// more is claimed of it.
#[verifier::external_body]
fn seahash_hash(bytes: &[u8]) -> (r: u64)
    ensures
        r == seahash_of(bytes@),
{
    seahash::hash(bytes)
}

/// The position just past the `*/` that closes a comment whose text starts
/// at `j`, or the end of `bs` when it is never closed.
pub open spec fn comment_end(bs: Seq<u8>, j: int) -> int
    decreases bs.len() - j,
{
    if j < 0 || j + 1 >= bs.len() {
        bs.len() as int
    } else if bs[j] == 0x2a && bs[j + 1] == 0x2f {
        j + 2
    } else {
        comment_end(bs, j + 1)
    }
}

/// `bs[i..]` without its `/* … */` comments; a comment left open runs to
/// the end.
pub open spec fn without_block_comments(bs: Seq<u8>, i: int) -> Seq<u8>
    decreases bs.len() - i,
{
    if i < 0 || i >= bs.len() {
        Seq::empty()
    } else if i + 1 < bs.len() && bs[i] == 0x2f && bs[i + 1] == 0x2a {
        let k = comment_end(bs, i + 2);
        if k <= i || k > bs.len() {
            Seq::empty()
        } else {
            without_block_comments(bs, k)
        }
    } else {
        seq![bs[i]] + without_block_comments(bs, i + 1)
    }
}

/// Each byte read as the character with that code.
pub open spec fn latin1(bs: Seq<u8>) -> Seq<char> {
    bs.map_values(|b: u8| b as char)
}

/// A line without its comment: cut at the first `//`, or failing that at
/// the first `#`.
pub open spec fn code_part(line: Seq<char>) -> Seq<char> {
    let k = first_at(line, "//"@, 0);
    let h = first_at(line, seq!['#'], 0);
    if k >= 0 {
        line.take(k)
    } else if h >= 0 {
        line.take(h)
    } else {
        line
    }
}

/// The trimmed, non-blank code of `ls`, in order.
pub open spec fn code_tokens(ls: Seq<Seq<char>>) -> Seq<Seq<char>>
    decreases ls.len(),
{
    if ls.len() == 0 {
        Seq::empty()
    } else {
        let t = trim(code_part(ls.last()));
        code_tokens(ls.drop_last()) + if t.len() > 0 {
            seq![t]
        } else {
            Seq::empty()
        }
    }
}

/// The normal form of `src` that is hashed.
pub open spec fn normal_form(src: Seq<char>) -> Seq<char> {
    join_with(code_tokens(lines(latin1(without_block_comments(encode_utf8(src), 0)))), seq![' '])
}

/// Where a comment starting at `j` ends.
fn find_comment_end(bs: &[u8], j: usize) -> (r: usize)
    requires
        j <= bs@.len() + 2,
    ensures
        r == comment_end(bs@, j as int),
    decreases bs@.len() + 2 - j,
{
    let n = bs.len();
    if j >= n || j + 1 >= n {
        n
    } else if bs[j] == 0x2a && bs[j + 1] == 0x2f {
        j + 2
    } else {
        find_comment_end(bs, j + 1)
    }
}

/// `bs` without block comments, each byte read as a character.
fn strip_block_comments(bs: &[u8]) -> (r: Vec<char>)
    ensures
        r@ == latin1(without_block_comments(bs@, 0)),
{
    let mut out: Vec<char> = Vec::new();
    let n = bs.len();
    let mut i: usize = 0;
    while i < n
        invariant
            n == bs@.len(),
            i <= n,
            out@ + latin1(without_block_comments(bs@, i as int)) == latin1(without_block_comments(bs@, 0)),
        decreases n - i,
    {
        if i + 1 < n && bs[i] == 0x2f && bs[i + 1] == 0x2a {
            let k = find_comment_end(bs, i + 2);
            proof {
                lemma_comment_end_after(bs@, i + 2);
            }
            i = k;
        } else {
            let ghost before = out@;
            out.push(bs[i] as char);
            proof {
                let rest = without_block_comments(bs@, i + 1);
                assert(latin1(seq![bs@[i as int]] + rest) =~= seq![bs@[i as int] as char] + latin1(rest));
                assert(out@ + latin1(rest) =~= before + latin1(seq![bs@[i as int]] + rest));
            }
            i = i + 1;
        }
    }
    assert(without_block_comments(bs@, i as int) =~= Seq::<u8>::empty());
    assert(out@ =~= out@ + latin1(Seq::<u8>::empty()));
    out
}

proof fn lemma_comment_end_after(bs: Seq<u8>, j: int)
    requires
        0 <= j,
    ensures
        j <= comment_end(bs, j) || comment_end(bs, j) == bs.len(),
        comment_end(bs, j) <= bs.len(),
    decreases bs.len() - j,
{
    if j + 1 < bs.len() && !(bs[j] == 0x2a && bs[j + 1] == 0x2f) {
        lemma_comment_end_after(bs, j + 1);
    }
}

/// The code of one line, trimmed.
fn line_code(line: &Vec<char>) -> (r: Vec<char>)
    ensures
        r@ == trim(code_part(line@)),
{
    let marker: Vec<char> = crate::strings::chars_of("//");
    let mut hash: Vec<char> = Vec::new();
    hash.push('#');
    let cut = match find_first(line, &marker) {
        Some(k) => k,
        None => match find_first(line, &hash) {
            Some(h) => h,
            None => line.len(),
        },
    };
    assert(hash@ =~= seq!['#']);
    let mut code: Vec<char> = Vec::new();
    let mut i: usize = 0;
    while i < cut
        invariant
            i <= cut <= line@.len(),
            code@ == line@.take(i as int),
        decreases cut - i,
    {
        code.push(line[i]);
        i = i + 1;
        assert(code@ =~= line@.take(i as int));
    }
    proof {
        if cut == line@.len() {
            assert(line@.take(cut as int) =~= line@);
        }
    }
    assert(code@ == code_part(line@));
    let (a, b) = trim_bounds(&code);
    let mut out: Vec<char> = Vec::new();
    let mut k = a;
    while k < b
        invariant
            a <= k <= b <= code@.len(),
            out@ == code@.subrange(a as int, k as int),
        decreases b - k,
    {
        out.push(code[k]);
        k = k + 1;
        assert(out@ =~= code@.subrange(a as int, k as int));
    }
    out
}

/// The normal form of a body: block comments removed, each line's comment
/// and surrounding whitespace removed, blank lines dropped, the rest joined
/// by single spaces.
pub fn normalize(src: &str) -> (r: String)
    ensures
        r@ == normal_form(src@),
{
    let text = strip_block_comments(src.as_bytes());
    let ls = lines_of(&text);
    let ghost all = lines(text@);
    let mut tokens: Vec<Vec<char>> = Vec::new();
    let mut i: usize = 0;
    assert(all.take(0) =~= Seq::<Seq<char>>::empty());
    while i < ls.len()
        invariant
            i <= ls@.len(),
            ls@.len() == all.len(),
            forall|k: int| 0 <= k < ls@.len() ==> #[trigger] ls@[k]@ == all[k],
            tokens@.map_values(|v: Vec<char>| v@) == code_tokens(all.take(i as int)),
        decreases ls@.len() - i,
    {
        assert(all.take(i + 1).drop_last() =~= all.take(i as int));
        let t = line_code(&ls[i]);
        let ghost before = tokens@;
        if t.len() > 0 {
            tokens.push(t);
            assert(tokens@.map_values(|v: Vec<char>| v@) =~= before.map_values(|v: Vec<char>| v@).push(
                trim(code_part(all[i as int])),
            ));
        } else {
            assert(tokens@.map_values(|v: Vec<char>| v@) =~= before.map_values(|v: Vec<char>| v@) + Seq::<
                Seq<char>,
            >::empty());
        }
        i = i + 1;
    }
    assert(all.take(all.len() as int) =~= all);
    let mut out = String::new();
    proof {
        reveal_strlit(" ");
    }
    crate::search::structural::push_joined(&mut out, &tokens, tokens.len(), " ");
    assert(" "@ =~= seq![' ']);
    assert(tokens@.map_values(|v: Vec<char>| v@).take(tokens@.len() as int) =~= tokens@.map_values(|v: Vec<char>| v@));
    out
}

/// Hash a function or class body for equivalence: the `seahash` of its
/// normal form.
pub fn body_hash(src: &str) -> (r: u64)
    ensures
        r == seahash_of(encode_utf8(normal_form(src@))),
{
    let n = normalize(src);
    seahash_hash(n.as_str().as_bytes())
}

} // verus!
