use vstd::prelude::*;

verus! {

/// A styled range `[start, end)` of the text; `style` names its look.
#[derive(Clone, Copy, PartialEq, Eq, Structural, Debug)]
pub struct StyleSpan {
    pub start: usize,
    pub end: usize,
    pub style: u32,
}

/// A styled range of one line, in columns of that line.
#[derive(Clone, Copy, PartialEq, Eq, Structural, Debug)]
pub struct LineStyle {
    pub start: usize,
    pub end: usize,
    pub style: u32,
}

/// One change of the text: `[start, end)` was replaced by `new_len` chars.
#[derive(Clone, Copy, PartialEq, Eq, Structural, Debug)]
pub struct Delta {
    pub start: usize,
    pub end: usize,
    pub new_len: usize,
}

/// Where an offset goes through a change: it stays before the changed range
/// and moves with the text after it (held at `usize::MAX`).
pub open spec fn shift_pos(x: usize, d: Delta) -> usize {
    if x >= d.end {
        crate::layout::sat_add((x - d.end + d.start) as usize, d.new_len)
    } else {
        x
    }
}

/// The part of span `s` before a change: what lies before its start.
pub open spec fn piece_before(s: StyleSpan, d: Delta) -> Option<StyleSpan> {
    if s.start < s.end && s.start < d.start {
        Some(
            StyleSpan {
                start: s.start,
                end: if s.end < d.start {
                    s.end
                } else {
                    d.start
                },
                style: s.style,
            },
        )
    } else {
        None
    }
}

/// The part of span `s` after a change, moved with the text after it.
pub open spec fn piece_after(s: StyleSpan, d: Delta) -> Option<StyleSpan> {
    if s.start < s.end && s.end > d.end {
        Some(
            StyleSpan {
                start: shift_pos(
                    if s.start > d.end {
                        s.start
                    } else {
                        d.end
                    },
                    d,
                ),
                end: shift_pos(s.end, d),
                style: s.style,
            },
        )
    } else {
        None
    }
}

/// The pieces that `piece` keeps of each span, in order.
pub open spec fn pieces(s: Seq<StyleSpan>, d: Delta, after: bool) -> Seq<StyleSpan>
    decreases s.len(),
{
    if s.len() == 0 {
        Seq::empty()
    } else {
        let p = pieces(s.drop_last(), d, after);
        match if after {
            piece_after(s.last(), d)
        } else {
            piece_before(s.last(), d)
        } {
            Some(x) => p.push(x),
            None => p,
        }
    }
}

/// The spans after a change: the parts that lay before the changed range,
/// then the parts that lay after it, moved; the changed range itself holds
/// no span.
pub open spec fn shape_spans(s: Seq<StyleSpan>, d: Delta) -> Seq<StyleSpan> {
    pieces(s, d, false) + pieces(s, d, true)
}

/// The spans after a list of changes, applied in order.
pub open spec fn shape_all(s: Seq<StyleSpan>, ds: Seq<Delta>) -> Seq<StyleSpan>
    decreases ds.len(),
{
    if ds.len() == 0 {
        s
    } else {
        shape_spans(shape_all(s, ds.drop_last()), ds.last())
    }
}

/// The part of span `s` on the line `[ls, le)`, in columns of that line.
pub open spec fn clip_span(s: StyleSpan, ls: usize, le: usize) -> Option<LineStyle> {
    if s.end <= ls || s.start >= le {
        None
    } else {
        Some(
            LineStyle {
                start: (if s.start > ls {
                    s.start - ls
                } else {
                    0
                }) as usize,
                end: (if s.end < le {
                    s.end - ls
                } else {
                    le - ls
                }) as usize,
                style: s.style,
            },
        )
    }
}

/// The styles of the line `[ls, le)`, in the order of the spans.
pub open spec fn clip_spans(s: Seq<StyleSpan>, ls: usize, le: usize) -> Seq<LineStyle>
    decreases s.len(),
{
    if s.len() == 0 {
        Seq::empty()
    } else {
        let p = clip_spans(s.drop_last(), ls, le);
        match clip_span(s.last(), ls, le) {
            Some(x) => p.push(x),
            None => p,
        }
    }
}

fn shift_pos_exec(x: usize, d: Delta) -> (r: usize)
    requires
        d.start <= d.end,
    ensures
        r == shift_pos(x, d),
{
    if x >= d.end {
        let y = x - d.end + d.start;
        if y > usize::MAX - d.new_len {
            usize::MAX
        } else {
            y + d.new_len
        }
    } else {
        x
    }
}

fn collect_pieces(spans: &Vec<StyleSpan>, d: Delta, after: bool, out: &mut Vec<StyleSpan>)
    requires
        d.start <= d.end,
    ensures
        final(out)@ == old(out)@ + pieces(spans@, d, after),
{
    let ghost start = out@;
    let mut i: usize = 0;
    while i < spans.len()
        invariant
            i <= spans@.len(),
            d.start <= d.end,
            out@ == start + pieces(spans@.take(i as int), d, after),
        decreases spans@.len() - i,
    {
        assert(spans@.take(i + 1).drop_last() =~= spans@.take(i as int));
        let s = spans[i];
        if s.start < s.end {
            if after {
                if s.end > d.end {
                    let from = if s.start > d.end {
                        s.start
                    } else {
                        d.end
                    };
                    out.push(
                        StyleSpan { start: shift_pos_exec(from, d), end: shift_pos_exec(s.end, d), style: s.style },
                    );
                }
            } else if s.start < d.start {
                let to = if s.end < d.start {
                    s.end
                } else {
                    d.start
                };
                out.push(StyleSpan { start: s.start, end: to, style: s.style });
            }
        }
        proof {
            assert(start + pieces(spans@.take(i + 1), d, after) =~= out@);
        }
        i += 1;
    }
    assert(spans@.take(spans@.len() as int) =~= spans@);
}

/// Moves the spans through a change of the text (see `shape_spans`).
pub fn apply_shape(spans: &Vec<StyleSpan>, d: Delta) -> (r: Vec<StyleSpan>)
    requires
        d.start <= d.end,
    ensures
        r@ == shape_spans(spans@, d),
{
    let mut out: Vec<StyleSpan> = Vec::new();
    collect_pieces(spans, d, false, &mut out);
    collect_pieces(spans, d, true, &mut out);
    assert(out@ =~= shape_spans(spans@, d));
    out
}

/// The styles of the line `[ls, le)`, clipped to it and counted from its
/// start.
pub fn line_styles(spans: &Vec<StyleSpan>, ls: usize, le: usize) -> (r: Vec<LineStyle>)
    requires
        ls <= le,
    ensures
        r@ == clip_spans(spans@, ls, le),
{
    let mut out: Vec<LineStyle> = Vec::new();
    let mut i: usize = 0;
    while i < spans.len()
        invariant
            i <= spans@.len(),
            ls <= le,
            out@ == clip_spans(spans@.take(i as int), ls, le),
        decreases spans@.len() - i,
    {
        assert(spans@.take(i + 1).drop_last() =~= spans@.take(i as int));
        let s = spans[i];
        if !(s.end <= ls || s.start >= le) {
            out.push(
                LineStyle {
                    start: if s.start > ls {
                        s.start - ls
                    } else {
                        0
                    },
                    end: if s.end < le {
                        s.end - ls
                    } else {
                        le - ls
                    },
                    style: s.style,
                },
            );
        }
        i += 1;
    }
    assert(spans@.take(spans@.len() as int) =~= spans@);
    out
}

/// A copy of a list of line styles.
pub fn copy_line_styles(styles: &Vec<LineStyle>) -> (r: Vec<LineStyle>)
    ensures
        r@ == styles@,
{
    let mut out: Vec<LineStyle> = Vec::new();
    let mut i: usize = 0;
    while i < styles.len()
        invariant
            i <= styles@.len(),
            out@ == styles@.take(i as int),
        decreases styles@.len() - i,
    {
        out.push(styles[i]);
        assert(styles@.take(i + 1) =~= styles@.take(i as int).push(styles@[i as int]));
        i += 1;
    }
    assert(styles@.take(styles@.len() as int) =~= styles@);
    out
}

/// The counterpart of the bracket at `o` among the parser's pairs: the first
/// pair that has `o` at one end.
pub open spec fn pair_partner(pairs: Seq<(usize, usize)>, o: usize) -> Option<usize>
    decreases pairs.len(),
{
    if pairs.len() == 0 {
        None
    } else if pairs[0].0 == o {
        Some(pairs[0].1)
    } else if pairs[0].1 == o {
        Some(pairs[0].0)
    } else {
        pair_partner(pairs.drop_first(), o)
    }
}

/// The first unmatched tag `c` after `o`.
pub open spec fn tag_after(tags: Seq<(usize, char)>, o: usize, c: char) -> Option<usize>
    decreases tags.len(),
{
    if tags.len() == 0 {
        None
    } else if tags[0].0 > o && tags[0].1 == c {
        Some(tags[0].0)
    } else {
        tag_after(tags.drop_first(), o, c)
    }
}

/// The last unmatched tag `c` before `o`.
pub open spec fn tag_before(tags: Seq<(usize, char)>, o: usize, c: char) -> Option<usize>
    decreases tags.len(),
{
    if tags.len() == 0 {
        None
    } else if tags.last().0 < o && tags.last().1 == c {
        Some(tags.last().0)
    } else {
        tag_before(tags.drop_last(), o, c)
    }
}

/// What a parse of the text produced: its style spans, its folding and
/// height hints (the lens), the bracket pairs it matched and the brackets it
/// left unmatched, for the revision it parsed.
pub struct Syntax {
    pub rev: u64,
    pub styles: Option<Vec<StyleSpan>>,
    /// Folding and height hints over ranges of the text; each span's `style`
    /// holds the hint.
    pub lens: Vec<StyleSpan>,
    pub pairs: Vec<(usize, usize)>,
    pub tags: Vec<(usize, char)>,
}

impl Syntax {
    /// The counterpart of the bracket at `o`, as the parser matched it.
    pub fn find_matching_pair(&self, o: usize) -> (r: Option<usize>)
        ensures
            r == pair_partner(self.pairs@, o),
    {
        let mut j: usize = 0;
        assert(self.pairs@.skip(0) =~= self.pairs@);
        while j < self.pairs.len()
            invariant
                j <= self.pairs@.len(),
                pair_partner(self.pairs@.skip(j as int), o) == pair_partner(self.pairs@, o),
            decreases self.pairs@.len() - j,
        {
            assert(self.pairs@.skip(j as int).drop_first() =~= self.pairs@.skip(j + 1));
            let (a, b) = self.pairs[j];
            if a == o {
                return Some(b);
            }
            if b == o {
                return Some(a);
            }
            j += 1;
        }
        None
    }

    /// The next (or, with `previous`, the last before) unmatched tag `c`
    /// from `o`.
    pub fn find_tag(&self, o: usize, previous: bool, c: char) -> (r: Option<usize>)
        ensures
            r == if previous {
                tag_before(self.tags@, o, c)
            } else {
                tag_after(self.tags@, o, c)
            },
    {
        if previous {
            let mut j: usize = self.tags.len();
            assert(self.tags@.take(j as int) =~= self.tags@);
            while j > 0
                invariant
                    previous,
                    j <= self.tags@.len(),
                    tag_before(self.tags@.take(j as int), o, c) == tag_before(self.tags@, o, c),
                decreases j,
            {
                assert(self.tags@.take(j as int).drop_last() =~= self.tags@.take(j - 1));
                let (p, t) = self.tags[j - 1];
                if p < o && t == c {
                    return Some(p);
                }
                j -= 1;
            }
            None
        } else {
            let mut j: usize = 0;
            assert(self.tags@.skip(0) =~= self.tags@);
            while j < self.tags.len()
                invariant
                    !previous,
                    j <= self.tags@.len(),
                    tag_after(self.tags@.skip(j as int), o, c) == tag_after(self.tags@, o, c),
                decreases self.tags@.len() - j,
            {
                assert(self.tags@.skip(j as int).drop_first() =~= self.tags@.skip(j + 1));
                let (p, t) = self.tags[j];
                if p > o && t == c {
                    return Some(p);
                }
                j += 1;
            }
            None
        }
    }
}

/// A reparse to run in the background: the revision and text it captured,
/// the file it belongs to and the change that led to it.
pub struct SyntaxRequest {
    pub path: String,
    pub rev: u64,
    pub text: Vec<char>,
    pub delta: Option<Delta>,
}

/// Whether a background parse captured at revision `captured` may go on, or
/// deliver its result, while the buffer is at revision `current`.
pub fn parse_still_current(captured: u64, current: u64) -> (r: bool)
    ensures
        r == (captured == current),
{
    captured == current
}

} // verus!
