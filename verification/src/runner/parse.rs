//! Parsers for the reports of jest, vitest, pytest and `cargo test`.
//!
//! jest, vitest and pytest print one JSON document; `cargo test` prints one
//! JSON event per line. Each parser yields the pass / fail / skip counts and
//! one [`TestFailure`] per failing test, with its `file:line` and the
//! `file:line` frames of its stack.

use vstd::prelude::*;

use crate::paths::last_index;
use crate::runner::json::{
    array_of, elements, field, get, is_text, json_document, opt, parse_json, str_of, text_is,
    text_or_default, text_or_empty, u64_of, as_str, as_u64, JsonValue,
};
use crate::runner::{failures_view, FailureView, ResultsView, Runner, TestFailure, TestResults};
use vstd::utf8::{decode_utf8, encode_utf8, valid_utf8};
use crate::strings::{
    at, chars_of, find_first, find_last, first_at, last_at, last_in, lines, lines_of, string_of, string_of_range, trim,
    trim_bounds,
};

verus! {

broadcast use vstd::string::group_string_axioms;

// ------------------------------------------------------------------
// Numbers written in decimal.
// ------------------------------------------------------------------

/// An ASCII decimal digit.
pub open spec fn is_digit(c: char) -> bool {
    '0' <= c && c <= '9'
}

/// Every character of `s` is a decimal digit.
pub open spec fn all_digits(s: Seq<char>) -> bool {
    forall|i: int| 0 <= i < s.len() ==> is_digit(#[trigger] s[i])
}

/// The value of digit `c`.
pub open spec fn digit_value(c: char) -> nat {
    if is_digit(c) {
        (c as int - '0' as int) as nat
    } else {
        0
    }
}

/// The value of the decimal numeral `s`.
pub open spec fn digits_value(s: Seq<char>) -> nat
    decreases s.len(),
{
    if s.len() == 0 {
        0
    } else {
        digits_value(s.drop_last()) * 10 + digit_value(s.last())
    }
}

/// `n`, or `bound` when `n` exceeds it.
pub open spec fn capped(n: nat, bound: nat) -> nat {
    if n <= bound {
        n
    } else {
        bound
    }
}

/// `str::parse::<u32>`: an optional `'+'`, then one or more digits whose
/// value fits a `u32`.
pub open spec fn parse_u32(s: Seq<char>) -> Option<u32> {
    let d = if s.len() > 0 && s[0] == '+' {
        s.drop_first()
    } else {
        s
    };
    if d.len() > 0 && all_digits(d) && digits_value(d) <= u32::MAX {
        Some(digits_value(d) as u32)
    } else {
        None
    }
}

/// Is `c` a decimal digit?
fn char_is_digit(c: char) -> (r: bool)
    ensures
        r == is_digit(c),
{
    '0' <= c && c <= '9'
}

/// The value of the numeral `cs[from..to]`, or `bound` when it is larger.
fn capped_value(cs: &Vec<char>, from: usize, to: usize, bound: u64) -> (r: u64)
    requires
        from <= to <= cs@.len(),
        all_digits(cs@.subrange(from as int, to as int)),
    ensures
        r == capped(digits_value(cs@.subrange(from as int, to as int)), bound as nat),
{
    let mut acc: u64 = 0;
    let mut i = from;
    assert(cs@.subrange(from as int, from as int) =~= Seq::<char>::empty());
    while i < to
        invariant
            from <= i <= to <= cs@.len(),
            all_digits(cs@.subrange(from as int, to as int)),
            acc == capped(digits_value(cs@.subrange(from as int, i as int)), bound as nat),
        decreases to - i,
    {
        let c = cs[i];
        assert(cs@.subrange(from as int, to as int)[i - from] == c);
        let d = (c as u32 - '0' as u32) as u64;
        assert(d == digit_value(c));
        let next: u128 = acc as u128 * 10 + d as u128;
        let ghost prefix = cs@.subrange(from as int, i + 1);
        assert(prefix.drop_last() =~= cs@.subrange(from as int, i as int));
        assert(prefix.last() == c);
        if next > bound as u128 {
            acc = bound;
        } else {
            acc = next as u64;
        }
        i = i + 1;
    }
    acc
}

/// `str::parse::<u32>` on `cs[from..to]`.
pub fn parse_u32_in(cs: &Vec<char>, from: usize, to: usize) -> (r: Option<u32>)
    requires
        from <= to <= cs@.len(),
    ensures
        r == parse_u32(cs@.subrange(from as int, to as int)),
{
    let ghost s = cs@.subrange(from as int, to as int);
    let mut a = from;
    if a < to && cs[a] == '+' {
        a = a + 1;
    }
    let ghost d = cs@.subrange(a as int, to as int);
    assert(d == (if s.len() > 0 && s[0] == '+' {
        s.drop_first()
    } else {
        s
    })) by {
        if s.len() > 0 {
            assert(s[0] == cs@[from as int]);
        }
        if a > from {
            assert(s.drop_first() =~= d);
        } else {
            assert(s =~= d);
        }
    }
    if a == to {
        return None;
    }
    let mut i = a;
    while i < to
        invariant
            a <= i <= to <= cs@.len(),
            d == cs@.subrange(a as int, to as int),
            d == (if s.len() > 0 && s[0] == '+' {
                s.drop_first()
            } else {
                s
            }),
            s == cs@.subrange(from as int, to as int),
            forall|k: int| a <= k < i ==> is_digit(#[trigger] cs@[k]),
        decreases to - i,
    {
        if !char_is_digit(cs[i]) {
            assert(d[i - a] == cs@[i as int]);
            assert(!all_digits(d));
            return None;
        }
        i = i + 1;
    }
    assert(all_digits(cs@.subrange(a as int, to as int))) by {
        assert forall|k: int| 0 <= k < cs@.subrange(a as int, to as int).len() implies is_digit(
            #[trigger] cs@.subrange(a as int, to as int)[k],
        ) by {
            assert(cs@.subrange(a as int, to as int)[k] == cs@[a + k]);
        }
    }
    let v = capped_value(cs, a, to, 4294967296);
    if v <= 4294967295 {
        Some(v as u32)
    } else {
        None
    }
}

// ------------------------------------------------------------------
// Text helpers.
// ------------------------------------------------------------------

/// The first line of `s`, or the empty text.
pub open spec fn first_line(s: Seq<char>) -> Seq<char> {
    if lines(s).len() > 0 {
        lines(s)[0]
    } else {
        Seq::empty()
    }
}

/// The first line of `cs`.
fn first_line_of(cs: &Vec<char>) -> (r: String)
    ensures
        r@ == first_line(cs@),
{
    let ls = lines_of(cs);
    if ls.len() > 0 {
        string_of(&ls[0])
    } else {
        String::new()
    }
}

// ------------------------------------------------------------------
// Stack frames.
// ------------------------------------------------------------------

/// `FILE:LINE`, split at the last `':'`.
pub open spec fn colon_frame(s: Seq<char>) -> Option<(Seq<char>, u32)> {
    let k = last_index(s, ':');
    if k < 0 {
        None
    } else {
        match parse_u32(s.skip(k + 1)) {
            Some(n) => Some((s.take(k), n)),
            None => None,
        }
    }
}

/// The frame a stack-trace line names: the `FILE:LINE` inside its last
/// parentheses, else the `FILE:LINE` after a leading `at `.
pub open spec fn frame_of(line: Seq<char>) -> Option<(Seq<char>, u32)> {
    let t = trim(line);
    let open = last_index(t, '(');
    let close = last_index(t, ')');
    let inner = if open >= 0 && close > open {
        colon_frame(t.subrange(open + 1, close))
    } else {
        None
    };
    if inner is Some {
        inner
    } else if "at "@.is_prefix_of(t) {
        colon_frame(t.skip(3))
    } else {
        None
    }
}

/// The frames of `ls`, in order.
pub open spec fn frames_of(ls: Seq<Seq<char>>) -> Seq<(Seq<char>, u32)>
    decreases ls.len(),
{
    if ls.len() == 0 {
        Seq::empty()
    } else {
        frames_of(ls.drop_last()) + match frame_of(ls.last()) {
            Some(f) => seq![f],
            None => Seq::empty(),
        }
    }
}

/// The frames a raw failure message lists.
pub open spec fn stack_of(raw: Seq<char>) -> Seq<(Seq<char>, u32)> {
    frames_of(lines(raw))
}

/// `FILE:LINE` in `cs[from..to]`.
fn colon_frame_in(cs: &Vec<char>, from: usize, to: usize) -> (r: Option<(String, u32)>)
    requires
        from <= to <= cs@.len(),
    ensures
        match r {
            Some(f) => colon_frame(cs@.subrange(from as int, to as int)) == Some((f.0@, f.1)),
            None => colon_frame(cs@.subrange(from as int, to as int)) is None,
        },
{
    let ghost s = cs@.subrange(from as int, to as int);
    match last_in(cs, ':', from, to) {
        None => None,
        Some(k) => {
            assert(s.skip(k - from + 1) =~= cs@.subrange(k + 1, to as int));
            assert(s.take(k - from) =~= cs@.subrange(from as int, k as int));
            match parse_u32_in(cs, k + 1, to) {
                Some(n) => Some((string_of_range(cs, from, k), n)),
                None => None,
            }
        },
    }
}

/// The frame line `cs` names.
fn frame_in(cs: &Vec<char>) -> (r: Option<(String, u32)>)
    ensures
        match r {
            Some(f) => frame_of(cs@) == Some((f.0@, f.1)),
            None => frame_of(cs@) is None,
        },
{
    let (a, b) = trim_bounds(cs);
    let ghost t = trim(cs@);
    assert(t == cs@.subrange(a as int, b as int));
    let open = last_in(cs, '(', a, b);
    let close = last_in(cs, ')', a, b);
    if let (Some(o), Some(c)) = (open, close) {
        if c > o {
            assert(t.subrange(o - a + 1, c - a) =~= cs@.subrange(o + 1, c as int));
            if let Some(f) = colon_frame_in(cs, o + 1, c) {
                return Some(f);
            }
        }
    }
    let at_prefix = chars_of("at ");
    proof {
        reveal_strlit("at ");
    }
    if b - a >= 3 && at(cs, &at_prefix, a) {
        assert(cs@.subrange(a as int, a + 3) == at_prefix@);
        assert(t.take(3) =~= cs@.subrange(a as int, a + 3));
        assert("at "@.is_prefix_of(t));
        assert(t.skip(3) =~= cs@.subrange(a + 3, b as int));
        colon_frame_in(cs, a + 3, b)
    } else {
        proof {
            if "at "@.is_prefix_of(t) {
                assert(t.take(3) =~= "at "@);
                assert(cs@.subrange(a as int, a + 3) =~= t.take(3));
            }
        }
        None
    }
}

/// The `(file, line)` frames a raw failure message lists, in order.
pub fn parse_stack(raw: &str) -> (r: Vec<(String, u32)>)
    ensures
        crate::runner::frames_view(r@) == stack_of(raw@),
{
    let cs = chars_of(raw);
    let ls = lines_of(&cs);
    let ghost all = lines(cs@);
    let mut out: Vec<(String, u32)> = Vec::new();
    let mut i: usize = 0;
    assert(all.take(0) =~= Seq::<Seq<char>>::empty());
    while i < ls.len()
        invariant
            i <= ls@.len(),
            ls@.len() == all.len(),
            forall|k: int| 0 <= k < ls@.len() ==> #[trigger] ls@[k]@ == all[k],
            crate::runner::frames_view(out@) == frames_of(all.take(i as int)),
        decreases ls@.len() - i,
    {
        assert(all.take(i + 1).drop_last() =~= all.take(i as int));
        assert(all.take(i + 1).last() == ls@[i as int]@);
        let ghost before = out@;
        match frame_in(&ls[i]) {
            Some(f) => {
                out.push(f);
                assert(crate::runner::frames_view(out@) =~= crate::runner::frames_view(before).push(
                    (f.0@, f.1),
                ));
            },
            None => {},
        }
        i = i + 1;
    }
    assert(all.take(ls@.len() as int) =~= all);
    out
}

// ------------------------------------------------------------------
// pytest node ids and cargo panic locations.
// ------------------------------------------------------------------

/// A pytest node id `FILE::TEST` split at its first `"::"`; an id without
/// one is all test name.
pub open spec fn split_nodeid(n: Seq<char>) -> (Seq<char>, Seq<char>) {
    let k = first_at(n, "::"@, 0);
    if k < 0 {
        (Seq::empty(), n)
    } else {
        (n.take(k), n.skip(k + 2))
    }
}

/// Split a pytest node id such as `tests/test_x.py::test_foo` into its
/// file and test name.
pub fn split_pytest_nodeid(nodeid: &str) -> (r: (String, String))
    ensures
        (r.0@, r.1@) == split_nodeid(nodeid@),
{
    let cs = chars_of(nodeid);
    let sep = chars_of("::");
    proof {
        reveal_strlit("::");
    }
    assert(sep@.len() == 2);
    match find_first(&cs, &sep) {
        Some(k) => {
            let n = cs.len();
            assert(k + sep@.len() <= n);
            (string_of_range(&cs, 0, k), string_of_range(&cs, k + 2, n))
        },
        None => (String::new(), string_of(&cs)),
    }
}

/// Where a `cargo test` panic message line says the panic happened: after
/// its last `", "`, a `PATH:LINE` or `PATH:LINE:COLUMN`.
pub open spec fn panic_site(line: Seq<char>) -> Option<(Seq<char>, u32)> {
    let c = last_at(line, ", "@, line.len() - 2);
    if !crate::strings::contains_seq(line, "panicked at"@) || c < 0 {
        None
    } else {
        let loc = line.skip(c + 2);
        let k1 = last_index(loc, ':');
        if k1 < 0 {
            None
        } else {
            let k2 = last_index(loc.take(k1), ':');
            let path = if k2 >= 0 {
                loc.take(k2)
            } else {
                loc.take(k1)
            };
            let num = if k2 >= 0 {
                loc.subrange(k2 + 1, k1)
            } else {
                loc.skip(k1 + 1)
            };
            match parse_u32(num) {
                Some(n) => Some((trim(path), n)),
                None => None,
            }
        }
    }
}

/// The first panic site among `ls`, or an empty path and line 0.
pub open spec fn panic_location(ls: Seq<Seq<char>>) -> (Seq<char>, u32)
    decreases ls.len(),
{
    if ls.len() == 0 {
        (Seq::empty(), 0)
    } else {
        match panic_site(ls[0]) {
            Some(p) => p,
            None => panic_location(ls.drop_first()),
        }
    }
}

/// The panic site of one line.
fn panic_site_in(cs: &Vec<char>) -> (r: Option<(String, u32)>)
    ensures
        match r {
            Some(p) => panic_site(cs@) == Some((p.0@, p.1)),
            None => panic_site(cs@) is None,
        },
{
    let marker = chars_of("panicked at");
    let sep = chars_of(", ");
    proof {
        reveal_strlit(", ");
    }
    assert(sep@.len() == 2);
    if !crate::strings::contains_chars(&cs, &marker) {
        return None;
    }
    let c = match find_last(cs, &sep) {
        Some(c) => c,
        None => return None,
    };
    let to = cs.len();
    assert(c + sep@.len() <= to);
    let ghost loc = cs@.skip(c + 2);
    let from = c + 2;
    assert(loc =~= cs@.subrange(from as int, to as int));
    let k1 = match last_in(cs, ':', from, to) {
        Some(k) => k,
        None => return None,
    };
    assert(loc.take(k1 - from) =~= cs@.subrange(from as int, k1 as int));
    let k2 = last_in(cs, ':', from, k1);
    let (path_end, num_from) = match k2 {
        Some(k) => (k, k + 1),
        None => (k1, k1 + 1),
    };
    let num_to = match k2 {
        Some(_) => k1,
        None => to,
    };
    proof {
        match k2 {
            Some(k) => {
                assert(loc.take(k - from) =~= cs@.subrange(from as int, k as int));
                assert(loc.subrange(k - from + 1, k1 - from) =~= cs@.subrange(k + 1, k1 as int));
            },
            None => {
                assert(loc.skip(k1 - from + 1) =~= cs@.subrange(k1 + 1, to as int));
            },
        }
    }
    match parse_u32_in(cs, num_from, num_to) {
        Some(n) => {
            let path = string_of_range(cs, from, path_end);
            Some((crate::strings::trim_string(path.as_str()), n))
        },
        None => None,
    }
}

/// Where the panic reported in a failed test's output happened: the path
/// and line of its first panic line, or an empty path and line 0.
pub fn cargo_parse_panic_location(stdout: &str) -> (r: (String, u32))
    ensures
        (r.0@, r.1) == panic_location(lines(stdout@)),
{
    let cs = chars_of(stdout);
    let ls = lines_of(&cs);
    let ghost all = lines(cs@);
    let mut i: usize = 0;
    assert(all.skip(0) =~= all);
    while i < ls.len()
        invariant
            i <= ls@.len(),
            ls@.len() == all.len(),
            all == lines(stdout@),
            forall|k: int| 0 <= k < ls@.len() ==> #[trigger] ls@[k]@ == all[k],
            panic_location(all) == panic_location(all.skip(i as int)),
        decreases ls@.len() - i,
    {
        assert(all.skip(i as int).drop_first() =~= all.skip(i + 1));
        assert(all.skip(i as int)[0] == ls@[i as int]@);
        if let Some(p) = panic_site_in(&ls[i]) {
            assert(panic_site(all.skip(i as int)[0]) == Some((p.0@, p.1)));
            assert(panic_location(all.skip(i as int)) == (p.0@, p.1));
            return p;
        }
        i = i + 1;
    }
    assert(all.skip(i as int) =~= Seq::<Seq<char>>::empty());
    (String::new(), 0)
}

// ------------------------------------------------------------------
// Durations.
// ------------------------------------------------------------------

/// The first three digits of a fraction, padded with zeros.
pub open spec fn pad3(f: Seq<char>) -> Seq<char> {
    if f.len() >= 3 {
        f.take(3)
    } else {
        f + Seq::new((3 - f.len()) as nat, |i: int| '0')
    }
}

/// The digits of `1000 * t` truncated to an integer, for `t` written as
/// `DIGITS` or `DIGITS.DIGITS`.
pub open spec fn millis_digits(t: Seq<char>) -> Option<Seq<char>> {
    let k = last_index(t, '.');
    let int_part = if k < 0 {
        t
    } else {
        t.take(k)
    };
    let frac = if k < 0 {
        Seq::empty()
    } else {
        t.skip(k + 1)
    };
    if int_part.len() > 0 && all_digits(int_part) && (k < 0 || frac.len() > 0) && all_digits(frac) {
        Some(int_part + pad3(frac))
    } else {
        None
    }
}

/// Whole milliseconds in a duration of `t` seconds, saturating at
/// `u64::MAX`; zero for a text that is not a plain non-negative decimal.
pub open spec fn millis_of_text(t: Seq<char>) -> u64 {
    match millis_digits(t) {
        Some(d) => capped(digits_value(d), u64::MAX as nat) as u64,
        None => 0,
    }
}

/// Whole milliseconds in a JSON number of seconds; zero for anything else.
pub open spec fn millis_of(v: Option<JsonValue>) -> u64 {
    match v {
        Some(JsonValue::Number(n)) => millis_of_text(n.text@),
        _ => 0,
    }
}

/// Are all of `cs[from..to]` digits?
fn all_digits_in(cs: &Vec<char>, from: usize, to: usize) -> (r: bool)
    requires
        from <= to <= cs@.len(),
    ensures
        r == all_digits(cs@.subrange(from as int, to as int)),
{
    let mut i = from;
    while i < to
        invariant
            from <= i <= to <= cs@.len(),
            forall|k: int| from <= k < i ==> is_digit(#[trigger] cs@[k]),
        decreases to - i,
    {
        if !char_is_digit(cs[i]) {
            assert(cs@.subrange(from as int, to as int)[i - from] == cs@[i as int]);
            return false;
        }
        i = i + 1;
    }
    assert forall|k: int| 0 <= k < cs@.subrange(from as int, to as int).len() implies is_digit(
        #[trigger] cs@.subrange(from as int, to as int)[k],
    ) by {
        assert(cs@.subrange(from as int, to as int)[k] == cs@[from + k]);
    }
    true
}

/// Whole milliseconds in a duration of `cs` seconds.
fn millis_in_text(cs: &Vec<char>) -> (r: u64)
    ensures
        r == millis_of_text(cs@),
{
    let n = cs.len();
    let k = last_in(cs, '.', 0, n);
    assert(cs@.subrange(0, n as int) =~= cs@);
    let (int_end, frac_from) = match k {
        Some(k) => (k, k + 1),
        None => (n, n),
    };
    let ghost int_part = cs@.subrange(0, int_end as int);
    let ghost frac = cs@.subrange(frac_from as int, n as int);
    proof {
        match k {
            Some(k) => {
                assert(int_part =~= cs@.take(k as int));
                assert(frac =~= cs@.skip(k + 1));
            },
            None => {
                assert(int_part =~= cs@);
                assert(frac =~= Seq::<char>::empty());
            },
        }
    }
    if int_end == 0 || (k.is_some() && frac_from == n) || !all_digits_in(cs, 0, int_end) || !all_digits_in(
        cs,
        frac_from,
        n,
    ) {
        return 0;
    }
    let mut d: Vec<char> = Vec::new();
    let mut i: usize = 0;
    while i < int_end
        invariant
            i <= int_end <= n == cs@.len(),
            d@ == cs@.subrange(0, i as int),
        decreases int_end - i,
    {
        d.push(cs[i]);
        i = i + 1;
        assert(d@ =~= cs@.subrange(0, i as int));
    }
    let mut j: usize = 0;
    while j < 3
        invariant
            j <= 3,
            frac_from <= n == cs@.len(),
            int_end <= n,
            frac == cs@.subrange(frac_from as int, n as int),
            int_part == cs@.subrange(0, int_end as int),
            d@ == int_part + pad3(frac).take(j as int),
        decreases 3 - j,
    {
        let c = if j < n - frac_from {
            cs[frac_from + j]
        } else {
            '0'
        };
        proof {
            if frac.len() >= 3 {
                assert(pad3(frac)[j as int] == frac[j as int]);
            } else if j < frac.len() {
                assert(pad3(frac)[j as int] == frac[j as int]);
            } else {
                assert(pad3(frac)[j as int] == '0');
            }
        }
        d.push(c);
        j = j + 1;
        assert(d@ =~= int_part + pad3(frac).take(j as int));
    }
    assert(pad3(frac).take(3) =~= pad3(frac));
    assert(millis_digits(cs@) == Some(d@));
    assert(all_digits(d@)) by {
        assert forall|q: int| 0 <= q < d@.len() implies is_digit(#[trigger] d@[q]) by {
            if q < int_part.len() {
                assert(d@[q] == int_part[q]);
            } else {
                let r = q - int_part.len();
                assert(d@[q] == pad3(frac)[r]);
                if r < frac.len() {
                    assert(pad3(frac)[r] == frac[r]);
                }
            }
        }
    }
    assert(d@.subrange(0, d@.len() as int) =~= d@);
    capped_value(&d, 0, d.len(), u64::MAX)
}

/// Whole milliseconds in a JSON number of seconds.
fn millis_in(v: Option<&JsonValue>) -> (r: u64)
    ensures
        r == millis_of(opt(v)),
{
    match v {
        Some(JsonValue::Number(n)) => millis_in_text(&chars_of(n.text.as_str())),
        _ => 0,
    }
}

// ------------------------------------------------------------------
// Reading report fields.
// ------------------------------------------------------------------

/// `u32::try_from(n).unwrap_or(u32::MAX)`.
pub open spec fn saturated_u32(n: u64) -> u32 {
    if n <= u32::MAX {
        n as u32
    } else {
        u32::MAX
    }
}

/// `u32::try_from(n).unwrap_or(u32::MAX)`.
pub fn cast_u32(n: u64) -> (r: u32)
    ensures
        r == saturated_u32(n),
{
    if n <= 4294967295 {
        n as u32
    } else {
        4294967295
    }
}

/// A count field: its `u64` value saturated to `u32`, or 0.
pub open spec fn count_of(v: Option<JsonValue>) -> u32 {
    saturated_u32(
        match u64_of(v) {
            Some(n) => n,
            None => 0,
        },
    )
}

/// A line-number field: its value when it fits a `u32`, else 0.
pub open spec fn line_of(v: Option<JsonValue>) -> u32 {
    match u64_of(v) {
        Some(n) => if n <= u32::MAX {
            n as u32
        } else {
            0
        },
        None => 0,
    }
}

/// The first element of `s`.
pub open spec fn first_element(s: Seq<JsonValue>) -> Option<JsonValue> {
    if s.len() > 0 {
        Some(s[0])
    } else {
        None
    }
}

/// A count field.
fn count_in(v: Option<&JsonValue>) -> (r: u32)
    ensures
        r == count_of(opt(v)),
{
    cast_u32(
        match as_u64(v) {
            Some(n) => n,
            None => 0,
        },
    )
}

/// A line-number field.
fn line_in(v: Option<&JsonValue>) -> (r: u32)
    ensures
        r == line_of(opt(v)),
{
    match as_u64(v) {
        Some(n) => if n <= 4294967295 {
            n as u32
        } else {
            0
        },
        None => 0,
    }
}

/// The first element of `s`.
fn first_of(s: &[JsonValue]) -> (r: Option<&JsonValue>)
    ensures
        opt(r) == first_element(s@),
{
    if s.len() > 0 {
        Some(&s[0])
    } else {
        None
    }
}

// ------------------------------------------------------------------
// jest and vitest.
// ------------------------------------------------------------------

/// The failure a failed jest assertion `a` of test file `file` reports.
pub open spec fn jest_failure(file: Seq<char>, a: JsonValue) -> FailureView {
    let raw = text_or_empty(first_element(array_of(field(Some(a), "failureMessages"@))));
    FailureView {
        test_name: text_or_empty(field(Some(a), "fullName"@)),
        file: file,
        line: line_of(field(field(Some(a), "location"@), "line"@)),
        message: first_line(raw),
        stack: stack_of(raw),
    }
}

/// The failures among the assertions `asserts` of test file `file`.
pub open spec fn assertion_failures(file: Seq<char>, asserts: Seq<JsonValue>) -> Seq<FailureView>
    decreases asserts.len(),
{
    if asserts.len() == 0 {
        Seq::empty()
    } else {
        let prev = assertion_failures(file, asserts.drop_last());
        if is_text(field(Some(asserts.last()), "status"@), "failed"@) {
            prev.push(jest_failure(file, asserts.last()))
        } else {
            prev
        }
    }
}

/// The failures of the jest test files `files`, file by file.
pub open spec fn jest_failures(files: Seq<JsonValue>) -> Seq<FailureView>
    decreases files.len(),
{
    if files.len() == 0 {
        Seq::empty()
    } else {
        let f = files.last();
        jest_failures(files.drop_last()) + assertion_failures(
            text_or_empty(field(Some(f), "name"@)),
            array_of(field(Some(f), "assertionResults"@)),
        )
    }
}

/// What a jest `--json` report `v` says; a report that did not parse reads
/// as JSON `null`.
pub open spec fn jest_report(v: Option<JsonValue>) -> ResultsView {
    ResultsView {
        passed: count_of(field(v, "numPassedTests"@)),
        failed: count_of(field(v, "numFailedTests"@)),
        skipped: count_of(field(v, "numPendingTests"@)),
        duration_ms: 0,
        failures: jest_failures(array_of(field(v, "testResults"@))),
    }
}

/// The failure of assertion `a` in test file `file`.
fn jest_failure_of(file: &String, a: &JsonValue) -> (r: TestFailure)
    ensures
        r@ == jest_failure(file@, *a),
{
    let raw = text_or_default(first_of(elements(get(Some(a), "failureMessages"))));
    let raw_cs = chars_of(raw.as_str());
    let stack = parse_stack(raw.as_str());
    TestFailure {
        test_name: text_or_default(get(Some(a), "fullName")),
        file: file.clone(),
        line: line_in(get(get(Some(a), "location"), "line")),
        message: first_line_of(&raw_cs),
        stack: stack,
    }
}

/// The counts and failures of a parsed jest (or vitest) `--json` report.
pub fn jest_results(v: Option<&JsonValue>) -> (r: TestResults)
    ensures
        r@ == jest_report(opt(v)),
{
    let files = elements(get(v, "testResults"));
    let mut failures: Vec<TestFailure> = Vec::new();
    let mut i: usize = 0;
    assert(files@.take(0) =~= Seq::<JsonValue>::empty());
    while i < files.len()
        invariant
            i <= files@.len(),
            failures_view(failures@) == jest_failures(files@.take(i as int)),
        decreases files@.len() - i,
    {
        let file = &files[i];
        let path = text_or_default(get(Some(file), "name"));
        let asserts = elements(get(Some(file), "assertionResults"));
        let ghost base = failures_view(failures@);
        let mut j: usize = 0;
        assert(asserts@.take(0) =~= Seq::<JsonValue>::empty());
        while j < asserts.len()
            invariant
                j <= asserts@.len(),
                failures_view(failures@) == base + assertion_failures(path@, asserts@.take(j as int)),
            decreases asserts@.len() - j,
        {
            let a = &asserts[j];
            assert(asserts@.take(j + 1).drop_last() =~= asserts@.take(j as int));
            assert(asserts@.take(j + 1).last() == *a);
            if text_is(get(Some(a), "status"), "failed") {
                let f = jest_failure_of(&path, a);
                let ghost before = failures@;
                failures.push(f);
                assert(failures_view(failures@) =~= failures_view(before).push(f@));
            }
            j = j + 1;
        }
        assert(asserts@.take(asserts@.len() as int) =~= asserts@);
        assert(files@.take(i + 1).drop_last() =~= files@.take(i as int));
        assert(files@.take(i + 1).last() == *file);
        i = i + 1;
    }
    assert(files@.take(files@.len() as int) =~= files@);
    TestResults {
        passed: count_in(get(v, "numPassedTests")),
        failed: count_in(get(v, "numFailedTests")),
        skipped: count_in(get(v, "numPendingTests")),
        duration_ms: 0,
        failures,
    }
}

/// Parse jest's `--json` report, a single JSON object on stdout.
pub fn parse_jest(stdout: &[u8]) -> (r: TestResults)
    ensures
        r@ == jest_report(json_document(stdout@)),
{
    let doc = parse_json(stdout);
    match &doc {
        Some(d) => jest_results(Some(d)),
        None => jest_results(None),
    }
}

/// Parse vitest's `--reporter=json` report, which has jest's shape.
pub fn parse_vitest(stdout: &[u8]) -> (r: TestResults)
    ensures
        r@ == jest_report(json_document(stdout@)),
{
    parse_jest(stdout)
}

// ------------------------------------------------------------------
// pytest.
// ------------------------------------------------------------------

/// The `(path, lineno)` frames of a pytest traceback, skipping frames
/// without both.
pub open spec fn traceback_frames(frames: Seq<JsonValue>) -> Seq<(Seq<char>, u32)>
    decreases frames.len(),
{
    if frames.len() == 0 {
        Seq::empty()
    } else {
        let f = Some(frames.last());
        traceback_frames(frames.drop_last()) + match (str_of(field(f, "path"@)), u64_of(field(f, "lineno"@))) {
            (Some(p), Some(n)) => if n <= u32::MAX {
                seq![(p, n as u32)]
            } else {
                Seq::empty()
            },
            _ => Seq::empty(),
        }
    }
}

/// The failure a failed pytest test record `t` reports.
pub open spec fn pytest_failure(t: JsonValue) -> FailureView {
    let ids = split_nodeid(text_or_empty(field(Some(t), "nodeid"@)));
    let call = field(Some(t), "call"@);
    let longrepr = text_or_empty(field(call, "longrepr"@));
    FailureView {
        test_name: ids.1,
        file: ids.0,
        line: line_of(field(Some(t), "lineno"@)),
        message: first_line(longrepr),
        stack: traceback_frames(array_of(field(call, "traceback"@))),
    }
}

/// The failures among the pytest test records `tests`.
pub open spec fn pytest_failures(tests: Seq<JsonValue>) -> Seq<FailureView>
    decreases tests.len(),
{
    if tests.len() == 0 {
        Seq::empty()
    } else {
        let prev = pytest_failures(tests.drop_last());
        if is_text(field(Some(tests.last()), "outcome"@), "failed"@) {
            prev.push(pytest_failure(tests.last()))
        } else {
            prev
        }
    }
}

/// What a pytest `--json-report` report `v` says.
pub open spec fn pytest_report(v: Option<JsonValue>) -> ResultsView {
    let summary = field(v, "summary"@);
    ResultsView {
        passed: count_of(field(summary, "passed"@)),
        failed: count_of(field(summary, "failed"@)),
        skipped: count_of(field(summary, "skipped"@)),
        duration_ms: millis_of(field(v, "duration"@)),
        failures: pytest_failures(array_of(field(v, "tests"@))),
    }
}

/// The stack frames of a pytest test record, from its call traceback.
pub fn pytest_stack(test: &JsonValue) -> (r: Vec<(String, u32)>)
    ensures
        crate::runner::frames_view(r@) == traceback_frames(
            array_of(field(field(Some(*test), "call"@), "traceback"@)),
        ),
{
    let frames = elements(get(get(Some(test), "call"), "traceback"));
    let mut out: Vec<(String, u32)> = Vec::new();
    let mut i: usize = 0;
    assert(frames@.take(0) =~= Seq::<JsonValue>::empty());
    while i < frames.len()
        invariant
            i <= frames@.len(),
            crate::runner::frames_view(out@) == traceback_frames(frames@.take(i as int)),
        decreases frames@.len() - i,
    {
        let f = &frames[i];
        assert(frames@.take(i + 1).drop_last() =~= frames@.take(i as int));
        assert(frames@.take(i + 1).last() == *f);
        let ghost before = out@;
        match (as_str(get(Some(f), "path")), as_u64(get(Some(f), "lineno"))) {
            (Some(p), Some(n)) => {
                if n <= 4294967295 {
                    out.push((p.clone(), n as u32));
                    assert(crate::runner::frames_view(out@) =~= crate::runner::frames_view(before).push(
                        (p@, n as u32),
                    ));
                } else {
                    assert(crate::runner::frames_view(out@) =~= crate::runner::frames_view(before)
                        + Seq::<(Seq<char>, u32)>::empty());
                }
            },
            _ => {
                assert(crate::runner::frames_view(out@) =~= crate::runner::frames_view(before)
                    + Seq::<(Seq<char>, u32)>::empty());
            },
        }
        i = i + 1;
    }
    assert(frames@.take(frames@.len() as int) =~= frames@);
    out
}

/// The failure of the failed pytest record `t`.
fn pytest_failure_of(t: &JsonValue) -> (r: TestFailure)
    ensures
        r@ == pytest_failure(*t),
{
    let nodeid = text_or_default(get(Some(t), "nodeid"));
    let (file, test_name) = split_pytest_nodeid(nodeid.as_str());
    let longrepr = text_or_default(get(get(Some(t), "call"), "longrepr"));
    let longrepr_cs = chars_of(longrepr.as_str());
    TestFailure {
        test_name,
        file,
        line: line_in(get(Some(t), "lineno")),
        message: first_line_of(&longrepr_cs),
        stack: pytest_stack(t),
    }
}

/// The counts, duration and failures of a parsed pytest report.
pub fn pytest_results(v: Option<&JsonValue>) -> (r: TestResults)
    ensures
        r@ == pytest_report(opt(v)),
{
    let summary = get(v, "summary");
    let tests = elements(get(v, "tests"));
    let mut failures: Vec<TestFailure> = Vec::new();
    let mut i: usize = 0;
    assert(tests@.take(0) =~= Seq::<JsonValue>::empty());
    while i < tests.len()
        invariant
            i <= tests@.len(),
            failures_view(failures@) == pytest_failures(tests@.take(i as int)),
        decreases tests@.len() - i,
    {
        let t = &tests[i];
        assert(tests@.take(i + 1).drop_last() =~= tests@.take(i as int));
        assert(tests@.take(i + 1).last() == *t);
        if text_is(get(Some(t), "outcome"), "failed") {
            let f = pytest_failure_of(t);
            let ghost before = failures@;
            failures.push(f);
            assert(failures_view(failures@) =~= failures_view(before).push(f@));
        }
        i = i + 1;
    }
    assert(tests@.take(tests@.len() as int) =~= tests@);
    TestResults {
        passed: count_in(get(summary, "passed")),
        failed: count_in(get(summary, "failed")),
        skipped: count_in(get(summary, "skipped")),
        duration_ms: millis_in(get(v, "duration")),
        failures,
    }
}

/// Parse the report of pytest's `--json-report` plugin.
pub fn parse_pytest(stdout: &[u8]) -> (r: TestResults)
    ensures
        r@ == pytest_report(json_document(stdout@)),
{
    let doc = parse_json(stdout);
    match &doc {
        Some(d) => pytest_results(Some(d)),
        None => pytest_results(None),
    }
}

// ------------------------------------------------------------------
// cargo test.
// ------------------------------------------------------------------

/// What one line of `cargo test --format json` output is.
#[derive(Debug, Clone, Copy, PartialEq, Eq, Structural)]
pub enum CargoEvent {
    Passed,
    Failed,
    Ignored,
    Suite,
    Other,
}

/// The kind of event `v` is: a `test` event that is `ok`, `failed` or
/// `ignored`, a `suite` event with any `event`, or something else.
pub open spec fn event_of(v: Option<JsonValue>) -> CargoEvent {
    let ty = field(v, "type"@);
    let ev = field(v, "event"@);
    if is_text(ty, "test"@) && is_text(ev, "ok"@) {
        CargoEvent::Passed
    } else if is_text(ty, "test"@) && is_text(ev, "failed"@) {
        CargoEvent::Failed
    } else if is_text(ty, "test"@) && is_text(ev, "ignored"@) {
        CargoEvent::Ignored
    } else if is_text(ty, "suite"@) && str_of(ev) is Some {
        CargoEvent::Suite
    } else {
        CargoEvent::Other
    }
}

/// How many of `evs` are events of kind `k`.
pub open spec fn count_events(evs: Seq<Option<JsonValue>>, k: CargoEvent) -> nat
    decreases evs.len(),
{
    if evs.len() == 0 {
        0
    } else {
        count_events(evs.drop_last(), k) + if event_of(evs.last()) == k {
            1nat
        } else {
            0nat
        }
    }
}

/// The failure a failed-test event reports.
pub open spec fn cargo_failure(v: Option<JsonValue>) -> FailureView {
    let out = text_or_empty(field(v, "stdout"@));
    let site = panic_location(lines(out));
    FailureView {
        test_name: text_or_empty(field(v, "name"@)),
        file: site.0,
        line: site.1,
        message: first_line(out),
        stack: Seq::empty(),
    }
}

/// The failures the failed-test events of `evs` report, in order.
pub open spec fn cargo_failures(evs: Seq<Option<JsonValue>>) -> Seq<FailureView>
    decreases evs.len(),
{
    if evs.len() == 0 {
        Seq::empty()
    } else if event_of(evs.last()) == CargoEvent::Failed {
        cargo_failures(evs.drop_last()).push(cargo_failure(evs.last()))
    } else {
        cargo_failures(evs.drop_last())
    }
}

/// The duration the last suite event of `evs` reports, or 0.
pub open spec fn suite_millis(evs: Seq<Option<JsonValue>>) -> u64
    decreases evs.len(),
{
    if evs.len() == 0 {
        0
    } else if event_of(evs.last()) == CargoEvent::Suite {
        millis_of(field(evs.last(), "exec_time"@))
    } else {
        suite_millis(evs.drop_last())
    }
}

/// What the events `evs` of a `cargo test` run say; each count saturates
/// at `u32::MAX`.
pub open spec fn cargo_report(evs: Seq<Option<JsonValue>>) -> ResultsView {
    ResultsView {
        passed: capped(count_events(evs, CargoEvent::Passed), u32::MAX as nat) as u32,
        failed: capped(count_events(evs, CargoEvent::Failed), u32::MAX as nat) as u32,
        skipped: capped(count_events(evs, CargoEvent::Ignored), u32::MAX as nat) as u32,
        duration_ms: suite_millis(evs),
        failures: cargo_failures(evs),
    }
}

/// The text of a runner's output: the bytes decoded when they are UTF-8,
/// else the empty text.
pub open spec fn output_text(bytes: Seq<u8>) -> Seq<char> {
    if valid_utf8(bytes) {
        decode_utf8(bytes)
    } else {
        Seq::empty()
    }
}

/// The events of `cargo test` output `text`: each line read as a JSON
/// document, `None` where it is not one.
pub open spec fn cargo_events(text: Seq<char>) -> Seq<Option<JsonValue>> {
    lines(text).map_values(|l: Seq<char>| json_document(encode_utf8(l)))
}

/// The kind of event `v` is.
pub fn event_kind(v: Option<&JsonValue>) -> (r: CargoEvent)
    ensures
        r == event_of(opt(v)),
{
    let ty = get(v, "type");
    let ev = get(v, "event");
    if text_is(ty, "test") && text_is(ev, "ok") {
        CargoEvent::Passed
    } else if text_is(ty, "test") && text_is(ev, "failed") {
        CargoEvent::Failed
    } else if text_is(ty, "test") && text_is(ev, "ignored") {
        CargoEvent::Ignored
    } else if text_is(ty, "suite") && as_str(ev).is_some() {
        CargoEvent::Suite
    } else {
        CargoEvent::Other
    }
}

/// The failure a failed-test event `v` reports.
fn cargo_failure_of(v: Option<&JsonValue>) -> (r: TestFailure)
    ensures
        r@ == cargo_failure(opt(v)),
{
    let out = text_or_default(get(v, "stdout"));
    let out_cs = chars_of(out.as_str());
    let (file, line) = cargo_parse_panic_location(out.as_str());
    let stack: Vec<(String, u32)> = Vec::new();
    assert(crate::runner::frames_view(stack@) =~= Seq::<(Seq<char>, u32)>::empty());
    TestFailure {
        test_name: text_or_default(get(v, "name")),
        file,
        line,
        message: first_line_of(&out_cs),
        stack,
    }
}

/// `n + 1`, saturating at `u32::MAX`.
fn bump(n: u32) -> (r: u32)
    ensures
        r == capped((n + 1) as nat, u32::MAX as nat),
{
    if n < 4294967295 {
        n + 1
    } else {
        n
    }
}

/// The counts, duration and failures of the events of a `cargo test` run.
pub fn cargo_results(events: &Vec<Option<JsonValue>>) -> (r: TestResults)
    ensures
        r@ == cargo_report(events@),
{
    let mut passed: u32 = 0;
    let mut failed: u32 = 0;
    let mut skipped: u32 = 0;
    let mut duration_ms: u64 = 0;
    let mut failures: Vec<TestFailure> = Vec::new();
    let mut i: usize = 0;
    assert(events@.take(0) =~= Seq::<Option<JsonValue>>::empty());
    while i < events.len()
        invariant
            i <= events@.len(),
            passed == capped(count_events(events@.take(i as int), CargoEvent::Passed), u32::MAX as nat),
            failed == capped(count_events(events@.take(i as int), CargoEvent::Failed), u32::MAX as nat),
            skipped == capped(count_events(events@.take(i as int), CargoEvent::Ignored), u32::MAX as nat),
            duration_ms == suite_millis(events@.take(i as int)),
            failures_view(failures@) == cargo_failures(events@.take(i as int)),
        decreases events@.len() - i,
    {
        let ev: Option<&JsonValue> = match &events[i] {
            Some(j) => Some(j),
            None => None,
        };
        assert(opt(ev) == events@[i as int]);
        assert(events@.take(i + 1).drop_last() =~= events@.take(i as int));
        assert(events@.take(i + 1).last() == events@[i as int]);
        match event_kind(ev) {
            CargoEvent::Passed => {
                passed = bump(passed);
            },
            CargoEvent::Failed => {
                failed = bump(failed);
                let f = cargo_failure_of(ev);
                let ghost before = failures@;
                failures.push(f);
                assert(failures_view(failures@) =~= failures_view(before).push(f@));
            },
            CargoEvent::Ignored => {
                skipped = bump(skipped);
            },
            CargoEvent::Suite => {
                duration_ms = millis_in(get(ev, "exec_time"));
            },
            CargoEvent::Other => {},
        }
        i = i + 1;
    }
    assert(events@.take(events@.len() as int) =~= events@);
    TestResults { passed, failed, skipped, duration_ms, failures }
}

/// Calls `std::str::from_utf8`: the text `bytes` encode when they are valid
/// UTF-8, `None` otherwise.
#[verifier::external_body]
pub(crate) fn utf8_text(bytes: &[u8]) -> (r: Option<&str>)
    ensures
        match r {
            Some(t) => valid_utf8(bytes@) && t@ == decode_utf8(bytes@),
            None => !valid_utf8(bytes@),
        },
{
    std::str::from_utf8(bytes).ok()
}

/// Parse `cargo test -- --format json` output: one JSON event per line.
pub fn parse_cargo(stdout: &[u8]) -> (r: TestResults)
    ensures
        r@ == cargo_report(cargo_events(output_text(stdout@))),
{
    let text: &str = match utf8_text(stdout) {
        Some(t) => t,
        None => "",
    };
    proof {
        reveal_strlit("");
    }
    assert(text@ == output_text(stdout@));
    let cs = chars_of(text);
    let ls = lines_of(&cs);
    let ghost all = lines(cs@);
    let mut events: Vec<Option<JsonValue>> = Vec::new();
    let mut i: usize = 0;
    while i < ls.len()
        invariant
            i <= ls@.len(),
            ls@.len() == all.len(),
            forall|k: int| 0 <= k < ls@.len() ==> #[trigger] ls@[k]@ == all[k],
            events@.len() == i,
            forall|k: int| 0 <= k < i ==> #[trigger] events@[k] == json_document(encode_utf8(all[k])),
        decreases ls@.len() - i,
    {
        let line = string_of(&ls[i]);
        let doc = parse_json(line.as_str().as_bytes());
        events.push(doc);
        i = i + 1;
    }
    assert(events@ =~= cargo_events(cs@));
    cargo_results(&events)
}

/// Parse the output of `runner`.
pub fn parse(runner: Runner, stdout: &[u8]) -> (r: TestResults)
    ensures
        r@ == match runner {
            Runner::Jest | Runner::Vitest => jest_report(json_document(stdout@)),
            Runner::Pytest => pytest_report(json_document(stdout@)),
            Runner::CargoTest => cargo_report(cargo_events(output_text(stdout@))),
        },
{
    match runner {
        Runner::Jest => parse_jest(stdout),
        Runner::Vitest => parse_vitest(stdout),
        Runner::Pytest => parse_pytest(stdout),
        Runner::CargoTest => parse_cargo(stdout),
    }
}

} // verus!
