use unicode_segmentation::UnicodeSegmentation;
use vstd::prelude::*;

verus! {

/// Sum of a sequence of lengths.
pub open spec fn seq_sum(s: Seq<usize>) -> int
    decreases s.len(),
{
    if s.len() == 0 {
        0
    } else {
        seq_sum(s.drop_last()) + s.last() as int
    }
}

/// Lengths, in chars, of the extended grapheme clusters of a text, in order.
pub uninterp spec fn grapheme_lens(t: Seq<char>) -> Seq<usize>;

/// Relies on `UnicodeSegmentation::graphemes` (extended clusters): the clusters
/// are non-empty and, joined in order, give back the text.
#[verifier::external_body]
fn grapheme_char_lens(t: &Vec<char>) -> (r: Vec<usize>)
    ensures
        r@ == grapheme_lens(t@),
        forall|i: int| 0 <= i < r@.len() ==> r@[i] > 0,
        seq_sum(r@) == t@.len(),
{
    let s: String = t.iter().collect();
    s.graphemes(true).map(|g| g.chars().count()).collect()
}

/// Relies on `str::chars`: the chars of a string, in order.
#[verifier::external_body]
pub(crate) fn chars_of(s: &str) -> (r: Vec<char>)
    ensures
        r@ == s@,
{
    s.chars().collect()
}

/// Offsets at which grapheme clusters start, followed by the text's length.
pub open spec fn breaks_of(lens: Seq<usize>) -> Seq<usize>
    decreases lens.len(),
{
    if lens.len() == 0 {
        seq![0usize]
    } else {
        let b = breaks_of(lens.drop_last());
        b.push((b.last() + lens.last()) as usize)
    }
}

/// A sequence of offsets that rises strictly.
pub open spec fn strictly_increasing(b: Seq<usize>) -> bool {
    forall|i: int, j: int| 0 <= i < j < b.len() ==> b[i] < b[j]
}

/// The greatest break below `o`; `o` itself or more where there is none.
pub open spec fn prev_break(b: Seq<usize>, o: int) -> int
    decreases b.len(),
{
    if b.len() == 0 {
        o
    } else if b.last() < o {
        b.last() as int
    } else {
        prev_break(b.drop_last(), o)
    }
}

/// The least break above `o`; `o` itself where there is none.
pub open spec fn next_break(b: Seq<usize>, o: int) -> int
    decreases b.len(),
{
    if b.len() == 0 {
        o
    } else if b[0] > o {
        b[0] as int
    } else {
        next_break(b.drop_first(), o)
    }
}

/// `count` steps back over grapheme breaks from `o`, stopping before a step
/// would go below `limit` or past the start.
pub open spec fn step_back(b: Seq<usize>, o: int, count: nat, limit: int) -> int
    decreases count,
{
    if count == 0 {
        o
    } else {
        let p = prev_break(b, o);
        if p >= o || p < limit {
            o
        } else {
            step_back(b, p, (count - 1) as nat, limit)
        }
    }
}

/// `count` steps forward over grapheme breaks from `o`, stopping before a
/// step would go above `limit` or past the end.
pub open spec fn step_fwd(b: Seq<usize>, o: int, count: nat, limit: int) -> int
    decreases count,
{
    if count == 0 {
        o
    } else {
        let n = next_break(b, o);
        if n <= o || n > limit {
            o
        } else {
            step_fwd(b, n, (count - 1) as nat, limit)
        }
    }
}

/// Number of line feeds before offset `o`: the line that `o` lies on.
pub open spec fn line_of(t: Seq<char>, o: int) -> nat
    decreases o,
{
    if o <= 0 {
        0
    } else {
        line_of(t, o - 1) + if t[o - 1] == '\n' {
            1nat
        } else {
            0nat
        }
    }
}

/// The index of the last line.
pub open spec fn last_line(t: Seq<char>) -> nat {
    line_of(t, t.len() as int)
}

/// `o` starts a line.
pub open spec fn is_line_start(t: Seq<char>, o: int) -> bool {
    o == 0 || (0 < o <= t.len() && t[o - 1] == '\n')
}

/// The start of the line that holds `o`.
pub open spec fn line_start(t: Seq<char>, o: int) -> int
    decreases o,
{
    if o <= 0 {
        0
    } else if t[o - 1] == '\n' {
        o
    } else {
        line_start(t, o - 1)
    }
}

/// The offset of the line feed that ends the line holding `o`, or the length.
pub open spec fn line_break(t: Seq<char>, o: int) -> int
    decreases t.len() - o,
{
    if o >= t.len() || o < 0 {
        t.len() as int
    } else if t[o] == '\n' {
        o
    } else {
        line_break(t, o + 1)
    }
}

/// The end of the line's content, before a "\n" or "\r\n" ending.
pub open spec fn content_end(t: Seq<char>, o: int) -> int {
    let e = line_break(t, o);
    if e < t.len() && e > line_start(t, o) && t[e - 1] == '\r' {
        e - 1
    } else {
        e
    }
}

/// Where a line ends for a cursor: past its content for a caret, else on its
/// last grapheme (or its start, when it is empty). The step back never
/// leaves the line.
pub open spec fn line_end_at(t: Seq<char>, b: Seq<usize>, o: int, caret: bool) -> int {
    let ce = content_end(t, o);
    if !caret && ce > line_start(t, o) {
        step_back(b, ce, 1, line_start(t, o))
    } else {
        ce
    }
}

/// The offset of column `col` on the line that starts at `ls`, clamped to the
/// line's content.
pub open spec fn line_col_offset(t: Seq<char>, ls: int, col: int) -> int {
    let e = line_break(t, ls);
    if ls + col < e {
        ls + col
    } else {
        e
    }
}


/// The offset at which line `l` starts.
pub open spec fn line_start_offset(t: Seq<char>, l: int) -> int {
    choose|o: int| 0 <= o <= t.len() && is_line_start(t, o) && line_of(t, o) == l
}

pub proof fn lemma_line_of_mono(t: Seq<char>, a: int, b: int)
    requires
        0 <= a <= b,
    ensures
        line_of(t, a) <= line_of(t, b),
    decreases b,
{
    if a < b {
        lemma_line_of_mono(t, a, b - 1);
    }
}

pub proof fn lemma_line_start_unique(t: Seq<char>, o: int, l: int)
    requires
        0 <= o <= t.len(),
        is_line_start(t, o),
        line_of(t, o) == l,
    ensures
        line_start_offset(t, l) == o,
{
    let p = line_start_offset(t, l);
    assert(0 <= p <= t.len() && is_line_start(t, p) && line_of(t, p) == l);
    if p < o {
        lemma_line_of_mono(t, p, o - 1);
    } else if o < p {
        lemma_line_of_mono(t, o, p - 1);
    }
}

pub proof fn lemma_line_bounds(t: Seq<char>, o: int)
    requires
        0 <= o <= t.len(),
    ensures
        0 <= line_start(t, o) <= o,
        is_line_start(t, line_start(t, o)),
        o <= line_break(t, o) <= t.len(),
        line_start(t, o) <= content_end(t, o) <= line_break(t, o),
        line_break(t, o) < t.len() ==> t[line_break(t, o)] == '\n',
{
    lemma_line_start_bounds(t, o);
    lemma_line_break_bounds(t, o);
}

proof fn lemma_line_start_bounds(t: Seq<char>, o: int)
    requires
        0 <= o <= t.len(),
    ensures
        0 <= line_start(t, o) <= o,
        is_line_start(t, line_start(t, o)),
    decreases o,
{
    if o > 0 && t[o - 1] != '\n' {
        lemma_line_start_bounds(t, o - 1);
    }
}

proof fn lemma_line_break_bounds(t: Seq<char>, o: int)
    requires
        0 <= o <= t.len(),
    ensures
        o <= line_break(t, o) <= t.len(),
        line_break(t, o) < t.len() ==> t[line_break(t, o)] == '\n',
    decreases t.len() - o,
{
    if o < t.len() && t[o] != '\n' {
        lemma_line_break_bounds(t, o + 1);
    }
}


/// A blank: a control or space char other than a line ending.
pub open spec fn spec_is_blank(c: char) -> bool {
    (c as u32) <= 32 && c != '\r' && c != '\n'
}

/// Whether `c` is a blank: a control or space char other than a line ending.
pub fn is_blank(c: char) -> (r: bool)
    ensures
        r == spec_is_blank(c),
{
    (c as u32) <= 32 && c != '\r' && c != '\n'
}

/// The first offset at or after `i` that holds no blank, or the length.
pub open spec fn skip_blanks(t: Seq<char>, i: int) -> int
    decreases t.len() - i,
{
    if i >= t.len() || i < 0 {
        t.len() as int
    } else if !spec_is_blank(t[i]) {
        i
    } else {
        skip_blanks(t, i + 1)
    }
}

pub proof fn lemma_prev_break_le(b: Seq<usize>, o: int)
    requires
        o >= 0,
    ensures
        0 <= prev_break(b, o),
        prev_break(b, o) < o || prev_break(b, o) == o,
    decreases b.len(),
{
    if b.len() > 0 && !(b.last() < o) {
        lemma_prev_break_le(b.drop_last(), o);
    }
}

pub proof fn lemma_step_back_bounds(b: Seq<usize>, o: int, count: nat, limit: int)
    requires
        o >= 0,
    ensures
        0 <= step_back(b, o, count, limit) <= o,
        step_back(b, o, count, limit) == o || step_back(b, o, count, limit) >= limit,
    decreases count,
{
    if count > 0 {
        let p = prev_break(b, o);
        lemma_prev_break_le(b, o);
        if !(p >= o || p < limit) {
            lemma_step_back_bounds(b, p, (count - 1) as nat, limit);
        }
    }
}

pub proof fn lemma_line_end_at_bounds(t: Seq<char>, b: Seq<usize>, o: int, caret: bool)
    requires
        0 <= o <= t.len(),
    ensures
        line_start(t, o) <= line_end_at(t, b, o, caret) <= content_end(t, o) <= t.len(),
{
    lemma_line_bounds(t, o);
    lemma_step_back_bounds(b, content_end(t, o), 1, line_start(t, o));
}

/// A text buffer: its chars, its grapheme breaks and a revision counter that
/// every change raises.
pub struct Buffer {
    text: Vec<char>,
    breaks: Vec<usize>,
    rev: u64,
}

impl View for Buffer {
    type V = Seq<char>;

    closed spec fn view(&self) -> Seq<char> {
        self.text@
    }
}

proof fn lemma_breaks_shape(lens: Seq<usize>)
    requires
        forall|i: int| 0 <= i < lens.len() ==> lens[i] > 0,
        seq_sum(lens) < usize::MAX,
    ensures
        breaks_of(lens).len() == lens.len() + 1,
        breaks_of(lens)[0] == 0,
        breaks_of(lens).last() == seq_sum(lens),
        strictly_increasing(breaks_of(lens)),
    decreases lens.len(),
{
    if lens.len() > 0 {
        let d = lens.drop_last();
        assert forall|i: int| 0 <= i < d.len() implies d[i] > 0 by {
            assert(d[i] == lens[i]);
        }
        lemma_breaks_shape(d);
        let bd = breaks_of(d);
        let b = breaks_of(lens);
        assert(b == bd.push((bd.last() + lens.last()) as usize));
        assert forall|i: int, j: int| 0 <= i < j < b.len() implies b[i] < b[j] by {
            if j < b.len() - 1 {
                assert(b[i] == bd[i] && b[j] == bd[j]);
            } else {
                assert(b[i] == bd[i]);
                assert(bd[i] <= bd.last()) by {
                    if i < bd.len() - 1 {
                        assert(bd[i] < bd[bd.len() - 1]);
                    }
                }
            }
        }
    }
}

impl Buffer {
    /// The text, as a sequence of chars.
    pub closed spec fn text(&self) -> Seq<char> {
        self.text@
    }

    /// The grapheme breaks: every cluster's start, then the length.
    pub closed spec fn breaks(&self) -> Seq<usize> {
        self.breaks@
    }

    /// The revision counter.
    pub closed spec fn revision(&self) -> u64 {
        self.rev
    }

    pub closed spec fn wf(&self) -> bool {
        &&& self.breaks@ == breaks_of(grapheme_lens(self.text@))
        &&& self.breaks@.len() >= 1
        &&& self.breaks@[0] == 0
        &&& self.breaks@.last() == self.text@.len()
        &&& strictly_increasing(self.breaks@)
        &&& self.text@.len() < usize::MAX
    }

    fn breaks_for(text: &Vec<char>) -> (b: Vec<usize>)
        requires
            text@.len() < usize::MAX,
        ensures
            b@ == breaks_of(grapheme_lens(text@)),
            b@.len() >= 1,
            b@[0] == 0,
            b@.last() == text@.len(),
            strictly_increasing(b@),
    {
        let lens = grapheme_char_lens(text);
        let mut b: Vec<usize> = Vec::new();
        b.push(0);
        let mut i: usize = 0;
        while i < lens.len()
            invariant
                i <= lens@.len(),
                lens@ == grapheme_lens(text@),
                forall|k: int| 0 <= k < lens@.len() ==> lens@[k] > 0,
                seq_sum(lens@) == text@.len(),
                text@.len() < usize::MAX,
                b@ == breaks_of(lens@.take(i as int)),
            decreases lens@.len() - i,
        {
            proof {
                let tk = lens@.take(i as int + 1);
                assert(tk.drop_last() =~= lens@.take(i as int));
                assert forall|k: int| 0 <= k < tk.len() implies tk[k] > 0 by {}
                lemma_sum_prefix_le(lens@, i as int + 1);
                lemma_sum_prefix_le(lens@, i as int);
                lemma_breaks_shape(tk);
                lemma_breaks_shape(lens@.take(i as int));
                assert(seq_sum(tk) == seq_sum(lens@.take(i as int)) + lens@[i as int]);
            }
            let last = b[b.len() - 1];
            b.push(last + lens[i]);
            i += 1;
        }
        proof {
            assert(lens@.take(lens@.len() as int) =~= lens@);
            lemma_breaks_shape(lens@);
        }
        b
    }

    /// A buffer that holds `s`, at revision 0.
    pub fn new(s: &str) -> (r: Buffer)
        requires
            s@.len() < usize::MAX,
        ensures
            r.wf(),
            r@ == s@,
            r.revision() == 0,
    {
        let text = chars_of(s);
        let breaks = Buffer::breaks_for(&text);
        Buffer { text, breaks, rev: 0 }
    }

    /// The revision: it rises with every change of the text.
    pub fn rev(&self) -> (r: u64)
        ensures
            r == self.revision(),
    {
        self.rev
    }

    /// The length of the text, in chars.
    pub fn len(&self) -> (r: usize)
        ensures
            r == self@.len(),
    {
        self.text.len()
    }

    /// The char at offset `i`.
    pub fn char_at(&self, i: usize) -> (r: char)
        requires
            i < self@.len(),
        ensures
            r == self@[i as int],
    {
        self.text[i]
    }


    /// The line that holds offset `o`.
    pub fn line_of_offset(&self, o: usize) -> (r: usize)
        requires
            self.wf(),
            o <= self@.len(),
        ensures
            r == line_of(self@, o as int),
    {
        let mut n: usize = 0;
        let mut i: usize = 0;
        while i < o
            invariant
                i <= o <= self.text@.len() < usize::MAX,
                n == line_of(self.text@, i as int),
                n <= i,
            decreases o - i,
        {
            if self.text[i] == '\n' {
                n += 1;
            }
            i += 1;
        }
        n
    }

    /// The index of the last line.
    pub fn last_line(&self) -> (r: usize)
        requires
            self.wf(),
        ensures
            r == last_line(self@),
    {
        self.line_of_offset(self.text.len())
    }

    /// The offset at which line `line` starts.
    pub fn offset_of_line(&self, line: usize) -> (r: usize)
        requires
            self.wf(),
            line <= last_line(self@),
        ensures
            r <= self@.len(),
            is_line_start(self@, r as int),
            line_of(self@, r as int) == line,
    {
        let mut n: usize = 0;
        let mut i: usize = 0;
        while n < line
            invariant
                i <= self.text@.len() < usize::MAX,
                n == line_of(self.text@, i as int),
                n <= line <= last_line(self.text@),
                n == line ==> (i == 0 || self.text@[i - 1] == '\n'),
            decreases self.text@.len() - i,
        {
            if i == self.text.len() {
                assert(false);
            }
            if self.text[i] == '\n' {
                n += 1;
            }
            i += 1;
        }
        i
    }

    /// The start of the line that holds `o`.
    pub fn line_start_of(&self, o: usize) -> (r: usize)
        requires
            self.wf(),
            o <= self@.len(),
        ensures
            r == line_start(self@, o as int),
            r <= o,
    {
        proof {
            lemma_line_bounds(self.text@, o as int);
        }
        let mut i: usize = o;
        while i > 0 && self.text[i - 1] != '\n'
            invariant
                i <= o <= self.text@.len(),
                line_start(self.text@, i as int) == line_start(self.text@, o as int),
            decreases i,
        {
            i -= 1;
        }
        i
    }

    /// The offset of the line feed that ends the line holding `o`, or the
    /// length.
    pub fn line_break_of(&self, o: usize) -> (r: usize)
        requires
            self.wf(),
            o <= self@.len(),
        ensures
            r == line_break(self@, o as int),
            o <= r <= self@.len(),
    {
        proof {
            lemma_line_bounds(self.text@, o as int);
        }
        let mut i: usize = o;
        while i < self.text.len() && self.text[i] != '\n'
            invariant
                o <= i <= self.text@.len(),
                line_break(self.text@, i as int) == line_break(self.text@, o as int),
            decreases self.text@.len() - i,
        {
            i += 1;
        }
        i
    }

    /// The end of the content of the line holding `o`, before its ending.
    pub fn content_end_of(&self, o: usize) -> (r: usize)
        requires
            self.wf(),
            o <= self@.len(),
        ensures
            r == content_end(self@, o as int),
            r <= self@.len(),
    {
        proof {
            lemma_line_bounds(self.text@, o as int);
        }
        let e = self.line_break_of(o);
        let ls = self.line_start_of(o);
        if e < self.text.len() && e > ls && self.text[e - 1] == '\r' {
            e - 1
        } else {
            e
        }
    }

    fn prev_break_of(&self, o: usize) -> (r: usize)
        requires
            self.wf(),
        ensures
            r == prev_break(self.breaks@, o as int),
    {
        let mut j: usize = self.breaks.len();
        assert(self.breaks@.take(j as int) =~= self.breaks@);
        while j > 0
            invariant
                j <= self.breaks@.len(),
                prev_break(self.breaks@.take(j as int), o as int) == prev_break(self.breaks@, o as int),
            decreases j,
        {
            assert(self.breaks@.take(j as int).drop_last() =~= self.breaks@.take(j - 1));
            if self.breaks[j - 1] < o {
                return self.breaks[j - 1];
            }
            j -= 1;
        }
        o
    }

    fn next_break_of(&self, o: usize) -> (r: usize)
        requires
            self.wf(),
        ensures
            r == next_break(self.breaks@, o as int),
    {
        let mut j: usize = 0;
        assert(self.breaks@.skip(0) =~= self.breaks@);
        while j < self.breaks.len()
            invariant
                j <= self.breaks@.len(),
                next_break(self.breaks@.skip(j as int), o as int) == next_break(self.breaks@, o as int),
            decreases self.breaks@.len() - j,
        {
            assert(self.breaks@.skip(j as int).drop_first() =~= self.breaks@.skip(j + 1));
            if self.breaks[j] > o {
                return self.breaks[j];
            }
            j += 1;
        }
        assert(self.breaks@.skip(j as int) =~= Seq::<usize>::empty());
        o
    }

    /// Up to `count` grapheme clusters back from `o`, not below `limit`.
    pub fn prev_grapheme_offset(&self, o: usize, count: usize, limit: usize) -> (r: usize)
        requires
            self.wf(),
        ensures
            r == step_back(self.breaks(), o as int, count as nat, limit as int),
    {
        let mut cur: usize = o;
        let mut i: usize = 0;
        while i < count
            invariant
                self.wf(),
                i <= count,
                step_back(self.breaks@, cur as int, (count - i) as nat, limit as int)
                    == step_back(self.breaks@, o as int, count as nat, limit as int),
            decreases count - i,
        {
            let p = self.prev_break_of(cur);
            if p >= cur || p < limit {
                return cur;
            }
            cur = p;
            i += 1;
        }
        cur
    }

    /// Up to `count` grapheme clusters forward from `o`, not above `limit`.
    pub fn next_grapheme_offset(&self, o: usize, count: usize, limit: usize) -> (r: usize)
        requires
            self.wf(),
        ensures
            r == step_fwd(self.breaks(), o as int, count as nat, limit as int),
    {
        let mut cur: usize = o;
        let mut i: usize = 0;
        while i < count
            invariant
                self.wf(),
                i <= count,
                step_fwd(self.breaks@, cur as int, (count - i) as nat, limit as int)
                    == step_fwd(self.breaks@, o as int, count as nat, limit as int),
            decreases count - i,
        {
            let n = self.next_break_of(cur);
            if n <= cur || n > limit {
                return cur;
            }
            cur = n;
            i += 1;
        }
        cur
    }

    /// Where the line holding `o` ends for a cursor (see `line_end_at`).
    pub fn offset_line_end(&self, o: usize, caret: bool) -> (r: usize)
        requires
            self.wf(),
            o <= self@.len(),
        ensures
            r == line_end_at(self@, self.breaks(), o as int, caret),
            line_start(self@, o as int) <= r <= self@.len(),
    {
        proof {
            lemma_line_end_at_bounds(self.text@, self.breaks@, o as int, caret);
        }
        let ce = self.content_end_of(o);
        let ls = self.line_start_of(o);
        if !caret && ce > ls {
            self.prev_grapheme_offset(ce, 1, ls)
        } else {
            ce
        }
    }

    /// The offset of column `col` on line `line`, clamped to its content.
    pub fn offset_of_line_col(&self, line: usize, col: usize) -> (r: usize)
        requires
            self.wf(),
            line <= last_line(self@),
        ensures
            r == line_col_offset(self@, line_start_offset(self@, line as int), col as int),
            r <= self@.len(),
    {
        let ls = self.offset_of_line(line);
        proof {
            lemma_line_start_unique(self.text@, ls as int, line as int);
        }
        let e = self.line_break_of(ls);
        if col < e - ls {
            ls + col
        } else {
            e
        }
    }


    /// The column at which line `line` ends for a cursor.
    pub fn line_end_col(&self, line: usize, caret: bool) -> (r: usize)
        requires
            self.wf(),
            line <= last_line(self@),
        ensures
            r == line_end_at(self@, self.breaks(), line_start_offset(self@, line as int), caret)
                - line_start_offset(self@, line as int),
    {
        let ls = self.offset_of_line(line);
        proof {
            lemma_line_start_unique(self.text@, ls as int, line as int);
            lemma_line_end_at_bounds(self.text@, self.breaks@, ls as int, caret);
        }
        self.offset_line_end(ls, caret) - ls
    }

    /// The first offset on line `line` that holds no blank, or its end.
    pub fn first_non_blank_character_on_line(&self, line: usize) -> (r: usize)
        requires
            self.wf(),
            line <= last_line(self@),
        ensures
            r == skip_blanks(self@, line_start_offset(self@, line as int)),
    {
        let ls = self.offset_of_line(line);
        proof {
            lemma_line_start_unique(self.text@, ls as int, line as int);
        }
        let mut i: usize = ls;
        while i < self.text.len() && is_blank(self.text[i])
            invariant
                ls <= i <= self.text@.len(),
                skip_blanks(self.text@, i as int) == skip_blanks(self.text@, ls as int),
            decreases self.text@.len() - i,
        {
            i += 1;
        }
        i
    }

    /// Replaces the chars in `[start, end)` with `ins` and raises the revision.
    pub fn edit(&mut self, start: usize, end: usize, ins: &Vec<char>)
        requires
            old(self).wf(),
            start <= end <= old(self)@.len(),
            old(self)@.len() - (end - start) + ins@.len() < usize::MAX,
            old(self).revision() < u64::MAX,
        ensures
            final(self).wf(),
            final(self)@ == old(self)@.subrange(0, start as int) + ins@ + old(self)@.subrange(
                end as int,
                old(self)@.len() as int,
            ),
            final(self).revision() == old(self).revision() + 1,
    {
        let mut t: Vec<char> = Vec::new();
        let mut i: usize = 0;
        while i < start
            invariant
                i <= start <= end <= self.text@.len(),
                t@ == self.text@.subrange(0, i as int),
            decreases start - i,
        {
            t.push(self.text[i]);
            i += 1;
        }
        let mut k: usize = 0;
        while k < ins.len()
            invariant
                k <= ins@.len(),
                t@ == self.text@.subrange(0, start as int) + ins@.subrange(0, k as int),
            decreases ins@.len() - k,
        {
            t.push(ins[k]);
            k += 1;
        }
        assert(ins@.subrange(0, ins@.len() as int) =~= ins@);
        let mut j: usize = end;
        while j < self.text.len()
            invariant
                end <= j <= self.text@.len(),
                t@ == self.text@.subrange(0, start as int) + ins@ + self.text@.subrange(end as int, j as int),
            decreases self.text@.len() - j,
        {
            t.push(self.text[j]);
            assert(self.text@.subrange(end as int, j + 1) =~= self.text@.subrange(end as int, j as int).push(self.text@[j as int]));
            j += 1;
        }
        assert(t@.len() == self.text@.len() - (end - start) + ins@.len());
        self.breaks = Buffer::breaks_for(&t);
        self.text = t;
        self.rev = self.rev + 1;
    }

    /// Replaces the whole text with `s` and raises the revision.
    pub fn load_content(&mut self, s: &str)
        requires
            old(self).wf(),
            s@.len() < usize::MAX,
            old(self).revision() < u64::MAX,
        ensures
            final(self).wf(),
            final(self)@ == s@,
            final(self).revision() == old(self).revision() + 1,
    {
        let t = chars_of(s);
        self.breaks = Buffer::breaks_for(&t);
        self.text = t;
        self.rev = self.rev + 1;
    }

    /// The breaks start at 0, rise strictly and end at the length.
    pub proof fn lemma_breaks(&self)
        requires
            self.wf(),
        ensures
            self.breaks().len() >= 1,
            self.breaks()[0] == 0,
            self.breaks().last() == self@.len(),
            strictly_increasing(self.breaks()),
            self@.len() < usize::MAX,
    {
    }

    /// The chars in `[start, end)`.
    pub fn slice(&self, start: usize, end: usize) -> (r: Vec<char>)
        requires
            start <= end <= self@.len(),
        ensures
            r@ == self@.subrange(start as int, end as int),
    {
        let mut out: Vec<char> = Vec::new();
        let mut i: usize = start;
        while i < end
            invariant
                start <= i <= end <= self.text@.len(),
                out@ == self.text@.subrange(start as int, i as int),
            decreases end - i,
        {
            out.push(self.text[i]);
            assert(self.text@.subrange(start as int, i + 1) =~= self.text@.subrange(start as int, i as int).push(self.text@[i as int]));
            i += 1;
        }
        out
    }

    /// A copy of the text.
    pub fn chars(&self) -> (r: Vec<char>)
        ensures
            r@ == self@,
    {
        self.text.clone()
    }
}

proof fn lemma_sum_prefix_le(s: Seq<usize>, k: int)
    requires
        0 <= k <= s.len(),
    ensures
        seq_sum(s.take(k)) <= seq_sum(s),
    decreases s.len(),
{
    if k < s.len() {
        assert(s.drop_last().take(k) =~= s.take(k));
        lemma_sum_prefix_le(s.drop_last(), k);
    } else {
        assert(s.take(k) =~= s);
    }
}

} // verus!
