use crate::buffer::{content_end, is_line_start, Buffer};
use crate::syntax::LineStyle;
use vstd::prelude::*;

verus! {

/// How wide a char is drawn: a tab takes `tab` cells, any other char one.
pub open spec fn char_width(c: char, tab: usize) -> usize {
    if c == '\t' {
        tab
    } else {
        1
    }
}

/// `a + b`, held at `usize::MAX`.
pub open spec fn sat_add(a: usize, b: usize) -> usize {
    if a + b > usize::MAX {
        usize::MAX
    } else {
        (a + b) as usize
    }
}

/// The horizontal position of each column of `s`, from 0 to its length.
pub open spec fn column_xs(s: Seq<char>, tab: usize) -> Seq<usize>
    decreases s.len(),
{
    if s.len() == 0 {
        seq![0usize]
    } else {
        let p = column_xs(s.drop_last(), tab);
        p.push(sat_add(p.last(), char_width(s.last(), tab)))
    }
}

/// The last column whose position is not right of `x`.
pub open spec fn hit_col(xs: Seq<usize>, x: usize) -> int
    decreases xs.len(),
{
    if xs.len() <= 1 {
        0
    } else if xs.last() <= x {
        xs.len() - 1
    } else {
        hit_col(xs.drop_last(), x)
    }
}

/// The content of the line that starts at `ls`, without its ending.
pub open spec fn line_content(t: Seq<char>, ls: int) -> Seq<char> {
    t.subrange(ls, content_end(t, ls))
}

/// Font metrics: how many cells a tab takes.
#[derive(Clone, Copy, PartialEq, Eq, Structural, Debug)]
pub struct Metrics {
    pub tab_width: usize,
}

/// A measured line: the horizontal position of each of its columns, and the
/// styled ranges it is drawn with.
pub struct LineLayout {
    xs: Vec<usize>,
    styles: Vec<LineStyle>,
}

pub proof fn lemma_column_xs_len(s: Seq<char>, tab: usize)
    ensures
        column_xs(s, tab).len() == s.len() + 1,
        column_xs(s, tab)[0] == 0,
    decreases s.len(),
{
    if s.len() > 0 {
        lemma_column_xs_len(s.drop_last(), tab);
    }
}

impl LineLayout {
    /// The column positions.
    pub closed spec fn xs(&self) -> Seq<usize> {
        self.xs@
    }

    /// The styled ranges, in columns of the line.
    pub closed spec fn styles(&self) -> Seq<LineStyle> {
        self.styles@
    }

    /// Measures the content of the line that starts at `ls`, to be drawn
    /// with `styles`.
    pub fn new(buf: &Buffer, ls: usize, metrics: Metrics, styles: Vec<LineStyle>) -> (r: LineLayout)
        requires
            buf.wf(),
            ls <= buf@.len(),
            is_line_start(buf@, ls as int),
        ensures
            r.xs() == column_xs(line_content(buf@, ls as int), metrics.tab_width),
            r.styles() == styles@,
    {
        let ce = buf.content_end_of(ls);
        proof {
            crate::buffer::lemma_line_bounds(buf@, ls as int);
        }
        let mut xs: Vec<usize> = Vec::new();
        xs.push(0);
        let mut i: usize = ls;
        while i < ce
            invariant
                buf.wf(),
                ls <= i <= ce <= buf@.len(),
                ce == content_end(buf@, ls as int),
                xs@ == column_xs(buf@.subrange(ls as int, i as int), metrics.tab_width),
            decreases ce - i,
        {
            proof {
                lemma_column_xs_len(buf@.subrange(ls as int, i as int), metrics.tab_width);
                assert(buf@.subrange(ls as int, i + 1).drop_last() =~= buf@.subrange(ls as int, i as int));
            }
            let last = xs[xs.len() - 1];
            let c = buf.char_at(i);
            let w: usize = if c == '\t' {
                metrics.tab_width
            } else {
                1
            };
            let next = if last > usize::MAX - w {
                usize::MAX
            } else {
                last + w
            };
            xs.push(next);
            i += 1;
        }
        LineLayout { xs, styles }
    }

    /// A copy of this layout.
    pub fn copy(&self) -> (r: LineLayout)
        ensures
            r.xs() == self.xs(),
            r.styles() == self.styles(),
    {
        LineLayout { xs: self.xs.clone(), styles: crate::syntax::copy_line_styles(&self.styles) }
    }

    /// A copy of the styled ranges.
    pub fn line_styles(&self) -> (r: Vec<LineStyle>)
        ensures
            r@ == self.styles(),
    {
        crate::syntax::copy_line_styles(&self.styles)
    }

    /// The position of column `col`, or of the line's end past it.
    pub fn hit_test_text_position(&self, col: usize) -> (r: usize)
        requires
            self.xs().len() >= 1,
        ensures
            r == if col < self.xs().len() {
                self.xs()[col as int]
            } else {
                self.xs().last()
            },
    {
        if col < self.xs.len() {
            self.xs[col]
        } else {
            self.xs[self.xs.len() - 1]
        }
    }

    /// The last column whose position is not right of `x`.
    pub fn hit_test_point(&self, x: usize) -> (r: usize)
        ensures
            r == hit_col(self.xs(), x),
    {
        let mut j: usize = self.xs.len();
        assert(self.xs@.take(j as int) =~= self.xs@);
        while j > 1
            invariant
                j <= self.xs@.len(),
                hit_col(self.xs@.take(j as int), x) == hit_col(self.xs@, x),
            decreases j,
        {
            assert(self.xs@.take(j as int).drop_last() =~= self.xs@.take(j - 1));
            if self.xs[j - 1] <= x {
                return j - 1;
            }
            j -= 1;
        }
        0
    }
}

} // verus!
