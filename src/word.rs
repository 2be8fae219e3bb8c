use crate::buffer::Buffer;
use vstd::prelude::*;

verus! {

/// The class of a char for word motions.
#[derive(PartialEq, Eq, Structural, Clone, Copy, Debug)]
pub enum WordProperty {
    Lf,
    Cr,
    Space,
    Punctuation,
    Other,
}

/// ASCII punctuation, but for `_`, which words hold.
pub open spec fn spec_is_punct(c: char) -> bool {
    let u = c as u32;
    (33 <= u <= 47) || (58 <= u <= 64) || (91 <= u <= 94) || u == 96 || (123 <= u <= 126)
}

pub open spec fn prop_of(c: char) -> WordProperty {
    if (c as u32) <= 32 {
        if c == '\r' {
            WordProperty::Cr
        } else if c == '\n' {
            WordProperty::Lf
        } else {
            WordProperty::Space
        }
    } else if spec_is_punct(c) {
        WordProperty::Punctuation
    } else {
        WordProperty::Other
    }
}

/// The class of `c`.
pub fn get_word_property(c: char) -> (r: WordProperty)
    ensures
        r == prop_of(c),
{
    let u = c as u32;
    if u <= 32 {
        if c == '\r' {
            WordProperty::Cr
        } else if c == '\n' {
            WordProperty::Lf
        } else {
            WordProperty::Space
        }
    } else if (33 <= u && u <= 47) || (58 <= u && u <= 64) || (91 <= u && u <= 94) || u == 96 || (
    123 <= u && u <= 126) {
        WordProperty::Punctuation
    } else {
        WordProperty::Other
    }
}

/// A word starts between chars of classes `a` and `b`.
pub open spec fn starts_word(a: WordProperty, b: WordProperty) -> bool {
    match (a, b) {
        (WordProperty::Lf, WordProperty::Lf) => true,
        (WordProperty::Lf, WordProperty::Space) => false,
        (WordProperty::Cr, WordProperty::Lf) => false,
        (WordProperty::Space, WordProperty::Lf) => false,
        (WordProperty::Space, WordProperty::Cr) => false,
        (WordProperty::Space, WordProperty::Space) => false,
        (_, WordProperty::Space) => false,
        (WordProperty::Space, _) => true,
        (WordProperty::Lf, _) => true,
        (_, WordProperty::Cr) => false,
        (_, WordProperty::Lf) => false,
        (WordProperty::Punctuation, WordProperty::Other) => true,
        (WordProperty::Other, WordProperty::Punctuation) => true,
        _ => false,
    }
}

/// A word ends between chars of classes `a` and `b`.
pub open spec fn ends_word(a: WordProperty, b: WordProperty) -> bool {
    match (a, b) {
        (WordProperty::Lf, WordProperty::Lf) => false,
        (WordProperty::Lf, WordProperty::Space) => false,
        (WordProperty::Cr, WordProperty::Lf) => false,
        (WordProperty::Space, WordProperty::Lf) => false,
        (WordProperty::Space, WordProperty::Cr) => false,
        (WordProperty::Space, WordProperty::Space) => false,
        (_, WordProperty::Space) => true,
        (WordProperty::Space, _) => false,
        (WordProperty::Lf, _) => false,
        (_, WordProperty::Cr) => true,
        (_, WordProperty::Lf) => true,
        (WordProperty::Punctuation, WordProperty::Other) => true,
        (WordProperty::Other, WordProperty::Punctuation) => true,
        _ => false,
    }
}

fn boundary_at(a: WordProperty, b: WordProperty, end: bool) -> (r: bool)
    ensures
        r == if end {
            ends_word(a, b)
        } else {
            starts_word(a, b)
        },
{
    let (s, e) = match (a, b) {
        (WordProperty::Lf, WordProperty::Lf) => (true, false),
        (WordProperty::Lf, WordProperty::Space) => (false, false),
        (WordProperty::Cr, WordProperty::Lf) => (false, false),
        (WordProperty::Space, WordProperty::Lf) => (false, false),
        (WordProperty::Space, WordProperty::Cr) => (false, false),
        (WordProperty::Space, WordProperty::Space) => (false, false),
        (_, WordProperty::Space) => (false, true),
        (WordProperty::Space, _) => (true, false),
        (WordProperty::Lf, _) => (true, false),
        (_, WordProperty::Cr) => (false, true),
        (_, WordProperty::Lf) => (false, true),
        (WordProperty::Punctuation, WordProperty::Other) => (true, true),
        (WordProperty::Other, WordProperty::Punctuation) => (true, true),
        _ => (false, false),
    };
    if end {
        e
    } else {
        s
    }
}

/// Scanning forward from `i`, where the previous char had class `p`: the
/// first offset at which a word starts (or ends, with `end`), or the length.
pub open spec fn scan_fwd(t: Seq<char>, i: int, p: WordProperty, end: bool) -> int
    decreases t.len() - i,
{
    if i >= t.len() || i < 0 {
        t.len() as int
    } else {
        let n = prop_of(t[i]);
        if (end && ends_word(p, n)) || (!end && starts_word(p, n)) {
            i
        } else {
            scan_fwd(t, i + 1, n, end)
        }
    }
}

/// Scanning back from `i`, where the char at `i` has class `p`: the last
/// offset at or before `i` at which a word starts, or 0.
pub open spec fn scan_bwd(t: Seq<char>, i: int, p: WordProperty) -> int
    decreases i,
{
    if i <= 0 || i > t.len() {
        0
    } else {
        let q = prop_of(t[i - 1]);
        if starts_word(q, p) {
            i
        } else {
            scan_bwd(t, i - 1, q)
        }
    }
}

/// The start of the next word after `o`, if there is a char at `o`.
pub open spec fn next_word_start(t: Seq<char>, o: int) -> Option<int> {
    if 0 <= o < t.len() {
        Some(scan_fwd(t, o + 1, prop_of(t[o]), false))
    } else {
        None
    }
}

/// The end of the word that follows `o`, past its last char: after stepping
/// over the char at `o`.
pub open spec fn next_word_end(t: Seq<char>, o: int) -> Option<int> {
    let p = if o < t.len() {
        o + 1
    } else {
        o
    };
    if 0 <= p < t.len() {
        Some(scan_fwd(t, p + 1, prop_of(t[p]), true))
    } else {
        None
    }
}

/// The start of the word before `o`, if `o` is past the start.
pub open spec fn prev_word_start(t: Seq<char>, o: int) -> Option<int> {
    if 0 < o <= t.len() {
        Some(scan_bwd(t, o - 1, prop_of(t[o - 1])))
    } else {
        None
    }
}

proof fn lemma_scan_fwd_bounds(t: Seq<char>, i: int, p: WordProperty, end: bool)
    requires
        0 <= i,
    ensures
        i <= scan_fwd(t, i, p, end) <= t.len() || scan_fwd(t, i, p, end) == t.len(),
    decreases t.len() - i,
{
    if i < t.len() {
        let n = prop_of(t[i]);
        if !((end && ends_word(p, n)) || (!end && starts_word(p, n))) {
            lemma_scan_fwd_bounds(t, i + 1, n, end);
        }
    }
}

proof fn lemma_scan_bwd_bounds(t: Seq<char>, i: int, p: WordProperty)
    ensures
        0 <= scan_bwd(t, i, p),
        i >= 0 ==> scan_bwd(t, i, p) <= i,
    decreases i,
{
    if 0 < i <= t.len() {
        let q = prop_of(t[i - 1]);
        if !starts_word(q, p) {
            lemma_scan_bwd_bounds(t, i - 1, q);
        }
    }
}

/// Word motions stay within the text.
pub proof fn lemma_word_bounds(t: Seq<char>, o: int)
    requires
        0 <= o <= t.len(),
    ensures
        next_word_end(t, o) matches Some(e) ==> 0 <= e <= t.len(),
        next_word_start(t, o) matches Some(e) ==> 0 <= e <= t.len(),
        prev_word_start(t, o) matches Some(e) ==> 0 <= e <= t.len(),
{
    let p = if o < t.len() {
        o + 1
    } else {
        o
    };
    if 0 <= p < t.len() {
        lemma_scan_fwd_bounds(t, p + 1, prop_of(t[p]), true);
    }
    if o < t.len() {
        lemma_scan_fwd_bounds(t, o + 1, prop_of(t[o]), false);
    }
    if 0 < o {
        lemma_scan_bwd_bounds(t, o - 1, prop_of(t[o - 1]));
    }
}

proof fn lemma_unmatched_bwd_lt(t: Seq<char>, i: int, c: char, other: char, n: nat)
    ensures
        unmatched_bwd(t, i, c, other, n) matches Some(p) ==> 0 <= p < i,
    decreases i,
{
    if 0 < i <= t.len() && !(t[i - 1] == c && n == 0) {
        let m = if t[i - 1] == c {
            (n - 1) as nat
        } else if t[i - 1] == other {
            n + 1
        } else {
            n
        };
        lemma_unmatched_bwd_lt(t, i - 1, c, other, m);
    }
}

/// Bracket motions stay within the text.
pub proof fn lemma_bracket_bounds(t: Seq<char>, o: int, c: char)
    requires
        0 <= o <= t.len(),
    ensures
        prev_unmatched_spec(t, o, c) matches Some(p) ==> 0 <= p < o,
        next_unmatched_spec(t, o, c) matches Some(p) ==> o < p <= t.len(),
        match_pairs_spec(t, o) matches Some(p) ==> 0 <= p <= t.len(),
{
    if let Some(other) = spec_matching_char(c) {
        lemma_unmatched_bwd_lt(t, o, c, other, 0);
        lemma_unmatched_fwd_gt(t, o, c, other, 0);
    }
    if 0 <= o < t.len() {
        if let Some(other) = spec_matching_char(t[o]) {
            if let Some(x) = spec_matching_char(other) {
                lemma_unmatched_bwd_lt(t, o, other, x, 0);
                lemma_unmatched_fwd_gt(t, o + 1, other, x, 0);
            }
        }
    }
}

fn scan_forward(buf: &Buffer, start: usize, p0: WordProperty, end: bool) -> (r: usize)
    requires
        buf.wf(),
        start <= buf@.len(),
    ensures
        r == scan_fwd(buf@, start as int, p0, end),
{
    let mut i: usize = start;
    let mut p = p0;
    let len = buf.len();
    while i < len
        invariant
            buf.wf(),
            len == buf@.len(),
            start <= i <= len,
            scan_fwd(buf@, i as int, p, end) == scan_fwd(buf@, start as int, p0, end),
        decreases len - i,
    {
        let n = get_word_property(buf.char_at(i));
        if boundary_at(p, n, end) {
            return i;
        }
        p = n;
        i += 1;
    }
    len
}

/// The start of the next word after `o`; `None` at the end of the text.
pub fn next_boundary(buf: &Buffer, o: usize) -> (r: Option<usize>)
    requires
        buf.wf(),
    ensures
        r.is_some() == next_word_start(buf@, o as int).is_some(),
        r.is_some() ==> r.unwrap() == next_word_start(buf@, o as int).unwrap(),
{
    if o < buf.len() {
        let p = get_word_property(buf.char_at(o));
        Some(scan_forward(buf, o + 1, p, false))
    } else {
        None
    }
}

/// The end of the word after `o`; `None` where no char follows the one at `o`.
pub fn end_boundary(buf: &Buffer, o: usize) -> (r: Option<usize>)
    requires
        buf.wf(),
    ensures
        r.is_some() == next_word_end(buf@, o as int).is_some(),
        r.is_some() ==> r.unwrap() == next_word_end(buf@, o as int).unwrap(),
{
    let p = if o < buf.len() {
        o + 1
    } else {
        o
    };
    if p < buf.len() {
        let q = get_word_property(buf.char_at(p));
        Some(scan_forward(buf, p + 1, q, true))
    } else {
        None
    }
}

/// The start of the word before `o`; `None` at the start of the text.
pub fn prev_boundary(buf: &Buffer, o: usize) -> (r: Option<usize>)
    requires
        buf.wf(),
    ensures
        r.is_some() == prev_word_start(buf@, o as int).is_some(),
        r.is_some() ==> r.unwrap() == prev_word_start(buf@, o as int).unwrap(),
{
    if 0 < o && o <= buf.len() {
        let p0 = get_word_property(buf.char_at(o - 1));
        let mut i: usize = o - 1;
        let mut p = p0;
        while i > 0
            invariant
                buf.wf(),
                i < o <= buf@.len(),
                p0 == prop_of(buf@[o - 1]),
                scan_bwd(buf@, i as int, p) == scan_bwd(buf@, o - 1, p0),
            decreases i,
        {
            let q = get_word_property(buf.char_at(i - 1));
            if boundary_at(q, p, false) {
                assert(scan_bwd(buf@, i as int, p) == i);
                return Some(i);
            }
            p = q;
            i -= 1;
        }
        Some(0)
    } else {
        None
    }
}

/// The bracket that pairs with `c`.
pub open spec fn spec_matching_char(c: char) -> Option<char> {
    if c == '(' {
        Some(')')
    } else if c == ')' {
        Some('(')
    } else if c == '[' {
        Some(']')
    } else if c == ']' {
        Some('[')
    } else if c == '{' {
        Some('}')
    } else if c == '}' {
        Some('{')
    } else {
        None
    }
}

/// The bracket that pairs with `c`, if `c` is one.
pub fn matching_char(c: char) -> (r: Option<char>)
    ensures
        r == spec_matching_char(c),
{
    if c == '(' {
        Some(')')
    } else if c == ')' {
        Some('(')
    } else if c == '[' {
        Some(']')
    } else if c == ']' {
        Some('[')
    } else if c == '{' {
        Some('}')
    } else if c == '}' {
        Some('{')
    } else {
        None
    }
}

/// An opening bracket.
pub open spec fn is_opening(c: char) -> bool {
    c == '(' || c == '[' || c == '{'
}

/// Scanning forward from `i` with `n` unclosed `other`s: the offset just past
/// the first `c` that closes none of them.
pub open spec fn unmatched_fwd(t: Seq<char>, i: int, c: char, other: char, n: nat) -> Option<int>
    decreases t.len() - i,
{
    if i >= t.len() || i < 0 {
        None
    } else if t[i] == c && n == 0 {
        Some(i + 1)
    } else {
        unmatched_fwd(
            t,
            i + 1,
            c,
            other,
            if t[i] == other {
                n + 1
            } else if t[i] == c {
                (n - 1) as nat
            } else {
                n
            },
        )
    }
}

/// Scanning back from `i` with `n` unopened `other`s: the offset of the first
/// `c` that opens none of them.
pub open spec fn unmatched_bwd(t: Seq<char>, i: int, c: char, other: char, n: nat) -> Option<int>
    decreases i,
{
    if i <= 0 || i > t.len() {
        None
    } else if t[i - 1] == c && n == 0 {
        Some(i - 1)
    } else {
        unmatched_bwd(
            t,
            i - 1,
            c,
            other,
            if t[i - 1] == c {
                (n - 1) as nat
            } else if t[i - 1] == other {
                n + 1
            } else {
                n
            },
        )
    }
}

/// The offset just past the next `c` after `o` that its pair leaves
/// unmatched; `None` where there is none, or `c` is no bracket.
pub open spec fn next_unmatched_spec(t: Seq<char>, o: int, c: char) -> Option<int> {
    match spec_matching_char(c) {
        Some(other) => unmatched_fwd(t, o, c, other, 0),
        None => None,
    }
}

/// The offset of the previous `c` before `o` that its pair leaves unmatched.
pub open spec fn prev_unmatched_spec(t: Seq<char>, o: int, c: char) -> Option<int> {
    match spec_matching_char(c) {
        Some(other) => unmatched_bwd(t, o, c, other, 0),
        None => None,
    }
}

/// The bracket that pairs with the one at `o`, found by counting brackets.
pub open spec fn match_pairs_spec(t: Seq<char>, o: int) -> Option<int> {
    if 0 <= o < t.len() {
        match spec_matching_char(t[o]) {
            Some(other) => if is_opening(other) {
                prev_unmatched_spec(t, o, other)
            } else {
                match next_unmatched_spec(t, o + 1, other) {
                    Some(p) => Some(p - 1),
                    None => None,
                }
            },
            None => None,
        }
    } else {
        None
    }
}

proof fn lemma_unmatched_fwd_gt(t: Seq<char>, i: int, c: char, other: char, n: nat)
    requires
        0 <= i,
    ensures
        unmatched_fwd(t, i, c, other, n) matches Some(p) ==> i < p <= t.len(),
    decreases t.len() - i,
{
    if i < t.len() && !(t[i] == c && n == 0) {
        let m = if t[i] == other {
            n + 1
        } else if t[i] == c {
            (n - 1) as nat
        } else {
            n
        };
        lemma_unmatched_fwd_gt(t, i + 1, c, other, m);
    }
}

/// The offset just past the next unmatched `c` after `o`.
pub fn next_unmatched(buf: &Buffer, o: usize, c: char) -> (r: Option<usize>)
    requires
        buf.wf(),
    ensures
        r.is_some() == next_unmatched_spec(buf@, o as int, c).is_some(),
        r.is_some() ==> r.unwrap() == next_unmatched_spec(buf@, o as int, c).unwrap(),
        r.is_some() ==> o < r.unwrap() <= buf@.len(),
{
    let other = match matching_char(c) {
        Some(x) => x,
        None => return None,
    };
    let len = buf.len();
    let mut i: usize = o;
    let mut n: usize = 0;
    proof {
        lemma_unmatched_fwd_gt(buf@, o as int, c, other, 0);
    }
    while i < len
        invariant
            buf.wf(),
            len == buf@.len(),
            o <= i,
            n <= i,
            spec_matching_char(c) == Some(other),
            unmatched_fwd(buf@, i as int, c, other, n as nat) == unmatched_fwd(buf@, o as int, c, other, 0),
        decreases len - i,
    {
        let cur = buf.char_at(i);
        if cur == c && n == 0 {
            assert(unmatched_fwd(buf@, i as int, c, other, n as nat) == Some(i + 1));
            return Some(i + 1);
        }
        if cur == other {
            n += 1;
        } else if cur == c {
            n -= 1;
        }
        i += 1;
    }
    None
}

/// The offset of the previous unmatched `c` before `o`.
pub fn previous_unmatched(buf: &Buffer, o: usize, c: char) -> (r: Option<usize>)
    requires
        buf.wf(),
    ensures
        r.is_some() == prev_unmatched_spec(buf@, o as int, c).is_some(),
        r.is_some() ==> r.unwrap() == prev_unmatched_spec(buf@, o as int, c).unwrap(),
{
    let other = match matching_char(c) {
        Some(x) => x,
        None => return None,
    };
    if o > buf.len() {
        return None;
    }
    let mut i: usize = o;
    let mut n: usize = 0;
    while i > 0
        invariant
            buf.wf(),
            i <= o <= buf@.len(),
            n <= o - i,
            spec_matching_char(c) == Some(other),
            unmatched_bwd(buf@, i as int, c, other, n as nat) == unmatched_bwd(buf@, o as int, c, other, 0),
        decreases i,
    {
        let cur = buf.char_at(i - 1);
        if cur == c {
            if n == 0 {
                assert(unmatched_bwd(buf@, i as int, c, other, n as nat) == Some(i - 1));
                return Some(i - 1);
            }
            n -= 1;
        } else if cur == other {
            n += 1;
        }
        i -= 1;
    }
    None
}

/// The bracket that pairs with the one at `o`, by counting brackets; `None`
/// where `o` holds no bracket or its pair is missing.
pub fn match_pairs(buf: &Buffer, o: usize) -> (r: Option<usize>)
    requires
        buf.wf(),
    ensures
        r.is_some() == match_pairs_spec(buf@, o as int).is_some(),
        r.is_some() ==> r.unwrap() == match_pairs_spec(buf@, o as int).unwrap(),
{
    if o >= buf.len() {
        return None;
    }
    let c = buf.char_at(o);
    let other = match matching_char(c) {
        Some(x) => x,
        None => return None,
    };
    if other == '(' || other == '[' || other == '{' {
        previous_unmatched(buf, o, other)
    } else {
        match next_unmatched(buf, o + 1, other) {
            Some(p) => Some(p - 1),
            None => None,
        }
    }
}

} // verus!
