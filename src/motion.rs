//! Cursor motions: where each motion lands from an offset in a mode, the
//! hint it leaves, and how a cursor and its selection follow.

use crate::buffer::{
    last_line, line_break, line_col_offset, line_end_at, line_of, line_start, line_start_offset,
    prev_break, skip_blanks, step_back, step_fwd,
};
use crate::cursor::{
    cursor_within, ColPosition, Cursor, CursorMode, LinePosition, Mode, MotionMode, Movement,
    Register, SelRegion, Selection,
};
use crate::document::Document;
use crate::layout::{column_xs, hit_col, line_content, LineLayout, Metrics};
use crate::syntax::{pair_partner, tag_after, tag_before, SyntaxRequest};
use crate::word::{
    end_boundary, match_pairs, match_pairs_spec, next_boundary, next_unmatched,
    next_unmatched_spec, next_word_end, next_word_start, prev_boundary, prev_unmatched_spec,
    prev_word_start, previous_unmatched,
};
use vstd::prelude::*;

verus! {

/// The horizontal position of offset `o` on its line.
pub open spec fn x_of_offset(t: Seq<char>, o: int, tab: usize) -> usize {
    let ls = line_start(t, o);
    let xs = column_xs(line_content(t, ls), tab);
    if o - ls < xs.len() {
        xs[o - ls]
    } else {
        xs.last()
    }
}

/// The column that hint `h` picks on line `line`.
pub open spec fn horiz_col(
    t: Seq<char>,
    b: Seq<usize>,
    line: int,
    h: ColPosition,
    caret: bool,
    tab: usize,
) -> int {
    let ls = line_start_offset(t, line);
    let end_col = line_end_at(t, b, ls, caret) - ls;
    match h {
        ColPosition::Col(x) => {
            let n = hit_col(column_xs(line_content(t, ls), tab), x);
            if n < end_col {
                n
            } else {
                end_col
            }
        },
        ColPosition::End => end_col,
        ColPosition::Start => 0,
        ColPosition::FirstNonBlank => {
            let n = skip_blanks(t, ls) - ls;
            if n < end_col {
                n
            } else {
                end_col
            }
        },
    }
}

/// Where a vertical motion to `line` with hint `h` lands.
pub open spec fn vertical_target(
    t: Seq<char>,
    b: Seq<usize>,
    line: int,
    h: ColPosition,
    caret: bool,
    tab: usize,
) -> int {
    line_col_offset(t, line_start_offset(t, line), horiz_col(t, b, line, h, caret, tab))
}

/// The hint a vertical motion from `o` uses: the one given, else the
/// position of `o` on its line.
pub open spec fn resolved_hint(t: Seq<char>, o: int, h: Option<ColPosition>, tab: usize) -> ColPosition {
    match h {
        Some(x) => x,
        None => ColPosition::Col(x_of_offset(t, o, tab)),
    }
}

/// A position that a parser reported, where it lies within the text.
pub open spec fn within(p: Option<usize>, len: int, o: int) -> int {
    match p {
        Some(x) => if x <= len {
            x as int
        } else {
            o
        },
        None => o,
    }
}

/// The start of the line after the one holding `x`, or the length.
pub open spec fn next_line_start(t: Seq<char>, x: int) -> int {
    let lb = line_break(t, x);
    if lb < t.len() {
        lb + 1
    } else {
        t.len() as int
    }
}

/// The range that a pending operator covers after motion `mv` from `o` in
/// Normal mode: inclusive motions take one more grapheme, the ends are put in
/// order, and vertical motions cover whole lines.
pub open spec fn operator_span(
    d: &Document,
    o: int,
    h: Option<ColPosition>,
    count: nat,
    mv: Movement,
    tab: usize,
) -> (int, int) {
    let n = motion_result(d, o, h, count, mv, Mode::Normal, tab).0;
    let moved = motion_result(d, n, None, 1, Movement::Right, Mode::Insert, tab).0;
    let (a, b) = match mv {
        Movement::EndOfLine => (o, moved),
        Movement::WordEndForward => (o, moved),
        Movement::MatchPairs => if n > o {
            (o, moved)
        } else {
            (moved, n)
        },
        _ => (o, n),
    };
    let lo = if a <= b {
        a
    } else {
        b
    };
    let hi = if a <= b {
        b
    } else {
        a
    };
    if mv.spec_is_vertical() {
        (line_start(d.text(), lo), next_line_start(d.text(), hi))
    } else {
        (lo, hi)
    }
}

/// Where a selection's region goes under a motion in Insert mode.
pub open spec fn moved_region(
    d: &Document,
    r: SelRegion,
    count: nat,
    modify: bool,
    mv: Movement,
    mode: Mode,
    tab: usize,
) -> SelRegion {
    let m = motion_result(d, r.end as int, r.horiz, count, mv, mode, tab);
    SelRegion {
        start: if modify {
            r.start
        } else {
            m.0 as usize
        },
        end: m.0 as usize,
        horiz: m.1,
    }
}

/// How far left a motion from `o` may go: the start of the text in Insert
/// mode, else the start of the line.
pub open spec fn left_limit(t: Seq<char>, o: int, mode: Mode) -> int {
    if mode == Mode::Insert {
        0
    } else {
        line_start(t, o)
    }
}

/// How far right a motion from `o` may go: the end of the text in Insert
/// mode, else the line's last grapheme.
pub open spec fn right_limit(t: Seq<char>, b: Seq<usize>, o: int, mode: Mode) -> int {
    if mode == Mode::Insert {
        t.len() as int
    } else {
        line_end_at(t, b, o, false)
    }
}

/// Where a motion lands and the hint it leaves.
pub open spec fn motion_result(
    d: &Document,
    o: int,
    h: Option<ColPosition>,
    count: nat,
    mv: Movement,
    mode: Mode,
    tab: usize,
) -> (int, Option<ColPosition>) {
    let t = d.text();
    let b = d.breaks();
    let caret = mode != Mode::Normal;
    let len = t.len() as int;
    match mv {
        Movement::Left => (step_back(b, o, count, left_limit(t, o, mode)), None),
        Movement::Right => (step_fwd(b, o, count, right_limit(t, b, o, mode)), None),
        Movement::Up => {
            let l = line_of(t, o) as int;
            let tl = if l <= count {
                0
            } else {
                l - count
            };
            let hh = resolved_hint(t, o, h, tab);
            (vertical_target(t, b, tl, hh, caret, tab), Some(hh))
        },
        Movement::Down => {
            let l = line_of(t, o) as int;
            let tl = if l + count < last_line(t) {
                l + count
            } else {
                last_line(t) as int
            };
            let hh = resolved_hint(t, o, h, tab);
            (vertical_target(t, b, tl, hh, caret, tab), Some(hh))
        },
        Movement::DocumentStart => (0, Some(ColPosition::Start)),
        Movement::DocumentEnd => (line_end_at(t, b, len, caret), Some(ColPosition::End)),
        Movement::FirstNonBlank => (
            skip_blanks(t, line_start(t, o)),
            Some(ColPosition::FirstNonBlank),
        ),
        Movement::StartOfLine => (line_start(t, o), Some(ColPosition::Start)),
        Movement::EndOfLine => (line_end_at(t, b, o, caret), Some(ColPosition::End)),
        Movement::Line(p) => {
            let tl = match p {
                LinePosition::First => 0,
                LinePosition::Last => last_line(t) as int,
                LinePosition::Line(n) => if n == 0 {
                    0
                } else if n - 1 < last_line(t) {
                    n - 1
                } else {
                    last_line(t) as int
                },
            };
            let hh = resolved_hint(t, o, h, tab);
            (vertical_target(t, b, tl, hh, caret, tab), Some(hh))
        },
        Movement::Offset(n) => (
            prev_break(
                b,
                (if n < len {
                    n as int
                } else {
                    len
                }) + 1,
            ),
            None,
        ),
        Movement::WordEndForward => {
            let e = match next_word_end(t, o) {
                Some(e) => e,
                None => o,
            };
            (
                if mode != Mode::Insert {
                    step_back(b, e, 1, 0)
                } else {
                    e
                },
                None,
            )
        },
        Movement::WordForward => (
            match next_word_start(t, o) {
                Some(e) => e,
                None => o,
            },
            None,
        ),
        Movement::WordBackward => (
            match prev_word_start(t, o) {
                Some(e) => e,
                None => o,
            },
            None,
        ),
        Movement::NextUnmatched(c) => (
            if d.has_syntax() {
                within(tag_after(d.syntax_tags(), o as usize, c), len, o)
            } else {
                match next_unmatched_spec(t, o, c) {
                    Some(p) => p - 1,
                    None => o,
                }
            },
            None,
        ),
        Movement::PreviousUnmatched(c) => (
            if d.has_syntax() {
                within(tag_before(d.syntax_tags(), o as usize, c), len, o)
            } else {
                match prev_unmatched_spec(t, o, c) {
                    Some(p) => p,
                    None => o,
                }
            },
            None,
        ),
        Movement::MatchPairs => (
            if d.has_syntax() {
                within(pair_partner(d.syntax_pairs(), o as usize), len, o)
            } else {
                match match_pairs_spec(t, o) {
                    Some(p) => p,
                    None => o,
                }
            },
            None,
        ),
    }
}

impl Document {
    /// Where the line holding `o` ends for a cursor in `caret` form.
    fn line_end_of(&self, o: usize, caret: bool) -> (r: usize)
        requires
            self.wf(),
            o <= self.text().len(),
        ensures
            r == line_end_at(self.text(), self.breaks(), o as int, caret),
            r <= self.text().len(),
    {
        self.buffer.offset_line_end(o, caret)
    }

    /// The horizontal position of offset `o` on its line.
    pub fn point_of_offset(&self, o: usize, metrics: Metrics) -> (r: usize)
        requires
            self.wf(),
            o <= self.text().len(),
        ensures
            r == x_of_offset(self.text(), o as int, metrics.tab_width),
    {
        let ls = self.buffer.line_start_of(o);
        proof {
            crate::buffer::lemma_line_bounds(self.buffer@, o as int);
        }
        let layout = LineLayout::new(&self.buffer, ls, metrics, Vec::new());
        proof {
            crate::layout::lemma_column_xs_len(line_content(self.buffer@, ls as int), metrics.tab_width);
        }
        layout.hit_test_text_position(o - ls)
    }

    /// The column that hint `h` picks on line `line`.
    pub fn line_horiz_col(&self, line: usize, metrics: Metrics, h: ColPosition, caret: bool) -> (r: usize)
        requires
            self.wf(),
            line <= last_line(self.text()),
        ensures
            r == horiz_col(self.text(), self.breaks(), line as int, h, caret, metrics.tab_width),
    {
        match h {
            ColPosition::Col(x) => {
                let ls = self.buffer.offset_of_line(line);
                proof {
                    crate::buffer::lemma_line_start_unique(self.buffer@, ls as int, line as int);
                }
                let layout = LineLayout::new(&self.buffer, ls, metrics, Vec::new());
                let n = layout.hit_test_point(x);
                let e = self.buffer.line_end_col(line, caret);
                if n < e {
                    n
                } else {
                    e
                }
            },
            ColPosition::End => self.buffer.line_end_col(line, caret),
            ColPosition::Start => 0,
            ColPosition::FirstNonBlank => {
                let ls = self.buffer.offset_of_line(line);
                proof {
                    crate::buffer::lemma_line_start_unique(self.buffer@, ls as int, line as int);
                    lemma_skip_blanks_ge(self.buffer@, ls as int);
                }
                let n = self.buffer.first_non_blank_character_on_line(line) - ls;
                let e = self.buffer.line_end_col(line, caret);
                if n < e {
                    n
                } else {
                    e
                }
            },
        }
    }

    /// Resolves a motion from offset `o` in `mode`: where it lands and the
    /// hint it leaves (see `motion_result`).
    pub fn move_offset(
        &self,
        o: usize,
        horiz: Option<ColPosition>,
        count: usize,
        movement: &Movement,
        mode: Mode,
        metrics: Metrics,
    ) -> (r: (usize, Option<ColPosition>))
        requires
            self.wf(),
            o <= self.text().len(),
        ensures
            r.0 == motion_result(self, o as int, horiz, count as nat, *movement, mode, metrics.tab_width).0,
            r.1 == motion_result(self, o as int, horiz, count as nat, *movement, mode, metrics.tab_width).1,
            r.0 <= self.text().len(),
    {
        match movement {
            Movement::Left | Movement::Right => self.move_chars(o, horiz, count, movement, mode, metrics),
            Movement::Up | Movement::Down | Movement::Line(_) => self.move_lines(o, horiz, count, movement, mode, metrics),
            Movement::DocumentStart | Movement::DocumentEnd | Movement::FirstNonBlank | Movement::StartOfLine | Movement::EndOfLine | Movement::Offset(_) => self.move_jumps(o, horiz, count, movement, mode, metrics),
            Movement::WordEndForward | Movement::WordForward | Movement::WordBackward => self.move_words(o, horiz, count, movement, mode, metrics),
            Movement::NextUnmatched(_) | Movement::PreviousUnmatched(_) | Movement::MatchPairs => self.move_brackets(o, horiz, count, movement, mode, metrics),
        }
    }

    /// Grapheme steps: `Left` and `Right`.
    fn move_chars(
        &self,
        o: usize,
        horiz: Option<ColPosition>,
        count: usize,
        movement: &Movement,
        mode: Mode,
        metrics: Metrics,
    ) -> (r: (usize, Option<ColPosition>))
        requires
            self.wf(),
            o <= self.text().len(),
            *movement is Left || *movement is Right,
        ensures
            r.0 == motion_result(self, o as int, horiz, count as nat, *movement, mode, metrics.tab_width).0,
            r.1 == motion_result(self, o as int, horiz, count as nat, *movement, mode, metrics.tab_width).1,
            r.0 <= self.text().len(),
    {
        let len = self.buffer.len();
        proof {
            crate::buffer::lemma_line_bounds(self.buffer@, o as int);
        }
        match movement {
            Movement::Left => {
                let min_offset = if mode == Mode::Insert {
                    0
                } else {
                    self.buffer.line_start_of(o)
                };
                let r = self.buffer.prev_grapheme_offset(o, count, min_offset);
                proof {
                    crate::buffer::lemma_step_back_bounds(self.buffer.breaks(), o as int, count as nat, min_offset as int);
                }
                (r, None)
            },
            Movement::Right => {
                let max_offset = if mode == Mode::Insert {
                    len
                } else {
                    self.line_end_of(o, false)
                };
                let r = self.buffer.next_grapheme_offset(o, count, max_offset);
                proof {
                    lemma_step_fwd_bounds(self.buffer.breaks(), o as int, count as nat, max_offset as int);
                }
                (r, None)
            },
            _ => (o, None),  // ruled out by the precondition
        }
    }

    /// Vertical motions: `Up`, `Down` and `Line`.
    fn move_lines(
        &self,
        o: usize,
        horiz: Option<ColPosition>,
        count: usize,
        movement: &Movement,
        mode: Mode,
        metrics: Metrics,
    ) -> (r: (usize, Option<ColPosition>))
        requires
            self.wf(),
            o <= self.text().len(),
            *movement is Up || *movement is Down || *movement is Line,
        ensures
            r.0 == motion_result(self, o as int, horiz, count as nat, *movement, mode, metrics.tab_width).0,
            r.1 == motion_result(self, o as int, horiz, count as nat, *movement, mode, metrics.tab_width).1,
            r.0 <= self.text().len(),
    {
        let caret = mode != Mode::Normal;
        let len = self.buffer.len();
        proof {
            crate::buffer::lemma_line_bounds(self.buffer@, o as int);
        }
        match movement {
            Movement::Up => {
                let line = self.buffer.line_of_offset(o);
                let line = if line <= count {
                    0
                } else {
                    line - count
                };
                let h = match horiz {
                    Some(h) => h,
                    None => ColPosition::Col(self.point_of_offset(o, metrics)),
                };
                proof {
                    crate::buffer::lemma_line_of_mono(self.buffer@, o as int, len as int);
                }
                (self.vertical_move(line, h, caret, metrics), Some(h))
            },
            Movement::Down => {
                let last = self.buffer.last_line();
                let line = self.buffer.line_of_offset(o);
                proof {
                    crate::buffer::lemma_line_of_mono(self.buffer@, o as int, len as int);
                }
                let line = if count < last - line {
                    line + count
                } else {
                    last
                };
                let h = match horiz {
                    Some(h) => h,
                    None => ColPosition::Col(self.point_of_offset(o, metrics)),
                };
                (self.vertical_move(line, h, caret, metrics), Some(h))
            },
            Movement::Line(p) => {
                let last = self.buffer.last_line();
                let line = match p {
                    LinePosition::First => 0,
                    LinePosition::Last => last,
                    LinePosition::Line(n) => if *n == 0 {
                        0
                    } else if *n - 1 < last {
                        *n - 1
                    } else {
                        last
                    },
                };
                let h = match horiz {
                    Some(h) => h,
                    None => ColPosition::Col(self.point_of_offset(o, metrics)),
                };
                (self.vertical_move(line, h, caret, metrics), Some(h))
            },
            _ => (o, None),  // ruled out by the precondition
        }
    }

    /// Jumps within the line or the text, and to an offset.
    fn move_jumps(
        &self,
        o: usize,
        horiz: Option<ColPosition>,
        count: usize,
        movement: &Movement,
        mode: Mode,
        metrics: Metrics,
    ) -> (r: (usize, Option<ColPosition>))
        requires
            self.wf(),
            o <= self.text().len(),
            *movement is DocumentStart || *movement is DocumentEnd || *movement is FirstNonBlank || *movement is StartOfLine || *movement is EndOfLine || *movement is Offset,
        ensures
            r.0 == motion_result(self, o as int, horiz, count as nat, *movement, mode, metrics.tab_width).0,
            r.1 == motion_result(self, o as int, horiz, count as nat, *movement, mode, metrics.tab_width).1,
            r.0 <= self.text().len(),
    {
        let caret = mode != Mode::Normal;
        let len = self.buffer.len();
        proof {
            crate::buffer::lemma_line_bounds(self.buffer@, o as int);
        }
        match movement {
            Movement::DocumentStart => (0, Some(ColPosition::Start)),
            Movement::DocumentEnd => (self.line_end_of(len, caret), Some(ColPosition::End)),
            Movement::FirstNonBlank => {
                let ls = self.buffer.line_start_of(o);
                let line = self.buffer.line_of_offset(o);
                proof {
                    lemma_line_start_is_line(self.buffer@, o as int);
                    crate::buffer::lemma_line_start_unique(self.buffer@, ls as int, line as int);
                    crate::buffer::lemma_line_of_mono(self.buffer@, o as int, len as int);
                    lemma_skip_blanks_ge(self.buffer@, ls as int);
                }
                (self.buffer.first_non_blank_character_on_line(line), Some(ColPosition::FirstNonBlank))
            },
            Movement::StartOfLine => (self.buffer.line_start_of(o), Some(ColPosition::Start)),
            Movement::EndOfLine => (self.line_end_of(o, caret), Some(ColPosition::End)),
            Movement::Offset(n) => {
                let target = if *n < len {
                    *n
                } else {
                    len
                };
                proof {
                    self.buffer.lemma_breaks();
                    lemma_prev_break_of_succ(self.buffer.breaks(), target as int);
                }
                let r = self.buffer.prev_grapheme_offset(target + 1, 1, 0);
                (r, None)
            },
            _ => (o, None),  // ruled out by the precondition
        }
    }

    /// Word motions.
    fn move_words(
        &self,
        o: usize,
        horiz: Option<ColPosition>,
        count: usize,
        movement: &Movement,
        mode: Mode,
        metrics: Metrics,
    ) -> (r: (usize, Option<ColPosition>))
        requires
            self.wf(),
            o <= self.text().len(),
            *movement is WordEndForward || *movement is WordForward || *movement is WordBackward,
        ensures
            r.0 == motion_result(self, o as int, horiz, count as nat, *movement, mode, metrics.tab_width).0,
            r.1 == motion_result(self, o as int, horiz, count as nat, *movement, mode, metrics.tab_width).1,
            r.0 <= self.text().len(),
    {
        let caret = mode != Mode::Normal;
        let len = self.buffer.len();
        proof {
            crate::buffer::lemma_line_bounds(self.buffer@, o as int);
        }
        match movement {
            Movement::WordEndForward => {
                let e = match end_boundary(&self.buffer, o) {
                    Some(e) => e,
                    None => o,
                };
                proof {
                    crate::word::lemma_word_bounds(self.buffer@, o as int);
                }
                if mode != Mode::Insert {
                    let r = self.buffer.prev_grapheme_offset(e, 1, 0);
                    proof {
                        crate::buffer::lemma_step_back_bounds(self.buffer.breaks(), e as int, 1, 0);
                    }
                    (r, None)
                } else {
                    (e, None)
                }
            },
            Movement::WordForward => {
                proof {
                    crate::word::lemma_word_bounds(self.buffer@, o as int);
                }
                match next_boundary(&self.buffer, o) {
                    Some(e) => (e, None),
                    None => (o, None),
                }
            },
            Movement::WordBackward => {
                proof {
                    crate::word::lemma_word_bounds(self.buffer@, o as int);
                }
                match prev_boundary(&self.buffer, o) {
                    Some(e) => (e, None),
                    None => (o, None),
                }
            },
            _ => (o, None),  // ruled out by the precondition
        }
    }

    /// Bracket motions: through the parser's matcher when there is one, else by counting brackets.
    fn move_brackets(
        &self,
        o: usize,
        horiz: Option<ColPosition>,
        count: usize,
        movement: &Movement,
        mode: Mode,
        metrics: Metrics,
    ) -> (r: (usize, Option<ColPosition>))
        requires
            self.wf(),
            o <= self.text().len(),
            *movement is NextUnmatched || *movement is PreviousUnmatched || *movement is MatchPairs,
        ensures
            r.0 == motion_result(self, o as int, horiz, count as nat, *movement, mode, metrics.tab_width).0,
            r.1 == motion_result(self, o as int, horiz, count as nat, *movement, mode, metrics.tab_width).1,
            r.0 <= self.text().len(),
    {
        let caret = mode != Mode::Normal;
        let len = self.buffer.len();
        proof {
            crate::buffer::lemma_line_bounds(self.buffer@, o as int);
        }
        match movement {
            Movement::NextUnmatched(c) => {
                match &self.syntax {
                    Some(syntax) => {
                        let r = match syntax.find_tag(o, false, *c) {
                            Some(p) => if p <= len { p } else { o },
                            None => o,
                        };
                        (r, None)
                    },
                    None => {
                        let r = match next_unmatched(&self.buffer, o, *c) {
                            Some(p) => p - 1,
                            None => o,
                        };
                        (r, None)
                    },
                }
            },
            Movement::PreviousUnmatched(c) => {
                match &self.syntax {
                    Some(syntax) => {
                        let r = match syntax.find_tag(o, true, *c) {
                            Some(p) => if p <= len { p } else { o },
                            None => o,
                        };
                        (r, None)
                    },
                    None => {
                        proof {
                            crate::word::lemma_bracket_bounds(self.buffer@, o as int, *c);
                        }
                        let r = match previous_unmatched(&self.buffer, o, *c) {
                            Some(p) => p,
                            None => o,
                        };
                        (r, None)
                    },
                }
            },
            Movement::MatchPairs => {
                match &self.syntax {
                    Some(syntax) => {
                        let r = match syntax.find_matching_pair(o) {
                            Some(p) => if p <= len { p } else { o },
                            None => o,
                        };
                        (r, None)
                    },
                    None => {
                        proof {
                            crate::word::lemma_bracket_bounds(self.buffer@, o as int, ' ');
                        }
                        let r = match match_pairs(&self.buffer, o) {
                            Some(p) => p,
                            None => o,
                        };
                        (r, None)
                    },
                }
            },
            _ => (o, None),  // ruled out by the precondition
        }
    }

    fn vertical_move(&self, line: usize, h: ColPosition, caret: bool, metrics: Metrics) -> (r: usize)
        requires
            self.wf(),
            line <= last_line(self.text()),
        ensures
            r == vertical_target(self.text(), self.breaks(), line as int, h, caret, metrics.tab_width),
            r <= self.text().len(),
    {
        let col = self.line_horiz_col(line, metrics, h, caret);
        let r = self.buffer.offset_of_line_col(line, col);
        r
    }
}

pub proof fn lemma_step_fwd_bounds(b: Seq<usize>, o: int, count: nat, limit: int)
    requires
        0 <= o,
    ensures
        o <= step_fwd(b, o, count, limit),
        step_fwd(b, o, count, limit) == o || step_fwd(b, o, count, limit) <= limit,
    decreases count,
{
    if count > 0 {
        let n = crate::buffer::next_break(b, o);
        if !(n <= o || n > limit) {
            lemma_step_fwd_bounds(b, n, (count - 1) as nat, limit);
        }
    }
}

proof fn lemma_line_start_is_line(t: Seq<char>, o: int)
    requires
        0 <= o <= t.len(),
    ensures
        line_of(t, line_start(t, o)) == line_of(t, o),
    decreases o,
{
    if o > 0 && t[o - 1] != '\n' {
        lemma_line_start_is_line(t, o - 1);
    }
}

proof fn lemma_prev_break_of_succ(b: Seq<usize>, n: int)
    requires
        n >= 0,
        b.len() > 0,
        b[0] == 0,
    ensures
        step_back(b, n + 1, 1, 0) == prev_break(b, n + 1),
        prev_break(b, n + 1) <= n,
{
    crate::buffer::lemma_prev_break_le(b, n + 1);
    lemma_prev_break_below(b, n + 1);
    assert(step_back(b, prev_break(b, n + 1), 0, 0) == prev_break(b, n + 1));
}

proof fn lemma_prev_break_below(b: Seq<usize>, o: int)
    requires
        b.len() > 0,
        b[0] < o,
    ensures
        prev_break(b, o) < o,
    decreases b.len(),
{
    if !(b.last() < o) {
        lemma_prev_break_below(b.drop_last(), o);
    }
}

impl Document {
    /// Moves one region: its end goes where the motion lands; its start
    /// follows with `modify` unset and stays otherwise.
    pub fn move_region(
        &self,
        region: &SelRegion,
        count: usize,
        modify: bool,
        movement: &Movement,
        mode: Mode,
        metrics: Metrics,
    ) -> (r: SelRegion)
        requires
            self.wf(),
            region.end <= self.text().len(),
        ensures
            r == moved_region(self, *region, count as nat, modify, *movement, mode, metrics.tab_width),
            r.end <= self.text().len(),
    {
        let (end, horiz) = self.move_offset(region.end, region.horiz, count, movement, mode, metrics);
        let start = if modify {
            region.start
        } else {
            end
        };
        SelRegion::new(start, end, horiz)
    }

    /// Moves every region of a selection on its own, keeping their order.
    pub fn move_selection(
        &self,
        selection: &Selection,
        count: usize,
        modify: bool,
        movement: &Movement,
        mode: Mode,
        metrics: Metrics,
    ) -> (r: Selection)
        requires
            self.wf(),
            forall|i: int|
                0 <= i < selection@.len() ==> #[trigger] selection@[i].start <= self.text().len()
                    && selection@[i].end <= self.text().len(),
        ensures
            r@.len() == selection@.len(),
            forall|i: int|
                0 <= i < r@.len() ==> #[trigger] r@[i] == moved_region(
                    self,
                    selection@[i],
                    count as nat,
                    modify,
                    *movement,
                    mode,
                    metrics.tab_width,
                ),
            forall|i: int|
                0 <= i < r@.len() ==> #[trigger] r@[i].start <= self.text().len() && r@[i].end
                    <= self.text().len(),
    {
        let mut out = Selection::new();
        let mut i: usize = 0;
        while i < selection.len()
            invariant
                self.wf(),
                i <= selection@.len(),
                forall|k: int|
                    0 <= k < selection@.len() ==> #[trigger] selection@[k].start <= self.text().len()
                        && selection@[k].end <= self.text().len(),
                out@.len() == i,
                forall|k: int|
                    0 <= k < i ==> #[trigger] out@[k] == moved_region(
                        self,
                        selection@[k],
                        count as nat,
                        modify,
                        *movement,
                        mode,
                        metrics.tab_width,
                    ),
                forall|k: int|
                    0 <= k < i ==> #[trigger] out@[k].start <= self.text().len() && out@[k].end
                        <= self.text().len(),
            decreases selection@.len() - i,
        {
            let region = selection.region(i);
            assert(selection@[i as int].start <= self.text().len());
            let moved = self.move_region(&region, count, modify, movement, mode, metrics);
            out.add_region(moved);
            i += 1;
        }
        out
    }

    /// Applies a motion to the cursor. In Normal mode the offset and hint
    /// move, or, with an operator pending, the operator runs over the range
    /// the motion covers (see `operator_span`) and is cleared. In Visual mode
    /// only the moving end moves. In Insert mode every region moves on its
    /// own.
    pub fn move_cursor(
        &mut self,
        cursor: &mut Cursor,
        movement: &Movement,
        count: usize,
        modify: bool,
        register: &mut Register,
        metrics: Metrics,
    ) -> (r: Option<SyntaxRequest>)
        requires
            old(self).wf(),
            cursor_within(old(cursor), old(self).text().len() as int),
            old(self).revision() < u64::MAX,
        ensures
            final(self).wf(),
            cursor_within(final(cursor), final(self).text().len() as int),
            match old(cursor).mode {
                CursorMode::Normal(o) => {
                    let m = motion_result(old(self), o as int, old(cursor).horiz, count as nat, *movement, Mode::Normal, metrics.tab_width);
                    match old(cursor).motion_mode {
                        None => final(cursor).mode == CursorMode::Normal(m.0 as usize)
                            && final(cursor).horiz == m.1 && *final(self) == *old(self) && r is None
                            && final(cursor).motion_mode is None && *final(register) == *old(register),
                        Some(mm) => {
                            let (lo, hi) = operator_span(old(self), o as int, old(cursor).horiz, count as nat, *movement, metrics.tab_width);
                            &&& final(cursor).motion_mode is None
                            &&& final(cursor).mode == CursorMode::Normal(lo as usize)
                            &&& final(register).unnamed.content@ == old(self).text().subrange(lo, hi)
                            &&& final(cursor).horiz == old(cursor).horiz
                            &&& mm == MotionMode::Delete ==> final(self).text() == old(self).text().subrange(0, lo)
                                + old(self).text().subrange(hi, old(self).text().len() as int)
                                && final(self).revision() == old(self).revision() + 1
                                && final(self).style_cache() == Map::<usize, Vec<crate::syntax::LineStyle>>::empty()
                                && final(self).layout_cache() == Map::<usize, (Metrics, LineLayout)>::empty()
                                && (r is Some == (old(self).is_file() && old(self).has_syntax()))
                                && crate::document::follows_change(
                                old(self),
                                final(self),
                                crate::syntax::Delta { start: lo as usize, end: hi as usize, new_len: 0 },
                            )
                            &&& mm == MotionMode::Yank ==> *final(self) == *old(self) && r is None
                        },
                    }
                },
                CursorMode::Visual { start, end, mode } => {
                    let m = motion_result(old(self), end as int, old(cursor).horiz, count as nat, *movement, Mode::Visual, metrics.tab_width);
                    final(cursor).mode == (CursorMode::Visual { start, end: m.0 as usize, mode })
                        && final(cursor).horiz == m.1 && *final(self) == *old(self) && r is None
                        && final(cursor).motion_mode == old(cursor).motion_mode
                        && *final(register) == *old(register)
                },
                CursorMode::Insert(sel) => {
                    &&& final(cursor).mode is Insert
                    &&& final(cursor).selection_of().len() == sel@.len()
                    &&& forall|i: int|
                        0 <= i < sel@.len() ==> #[trigger] final(cursor).selection_of()[i] == moved_region(
                            old(self),
                            sel@[i],
                            count as nat,
                            modify,
                            *movement,
                            Mode::Insert,
                            metrics.tab_width,
                        )
                    &&& *final(self) == *old(self)
                    &&& r is None
                    &&& final(cursor).horiz == old(cursor).horiz
                    &&& final(cursor).motion_mode == old(cursor).motion_mode
                    &&& *final(register) == *old(register)
                },
            },
    {
        match &cursor.mode {
            CursorMode::Normal(offset) => {
                let offset = *offset;
                let (new_offset, horiz) = self.move_offset(offset, cursor.horiz, count, movement, Mode::Normal, metrics);
                match cursor.motion_mode {
                    Some(motion_mode) => {
                        let (moved, _) = self.move_offset(new_offset, None, 1, &Movement::Right, Mode::Insert, metrics);
                        let (a, b) = match movement {
                            Movement::EndOfLine | Movement::WordEndForward => (offset, moved),
                            Movement::MatchPairs => if new_offset > offset {
                                (offset, moved)
                            } else {
                                (moved, new_offset)
                            },
                            _ => (offset, new_offset),
                        };
                        let lo = if a <= b {
                            a
                        } else {
                            b
                        };
                        let hi = if a <= b {
                            b
                        } else {
                            a
                        };
                        let (lo, hi) = if movement.is_vertical() {
                            let ls = self.buffer.line_start_of(lo);
                            let lb = self.buffer.line_break_of(hi);
                            let next = if lb < self.buffer.len() {
                                lb + 1
                            } else {
                                self.buffer.len()
                            };
                            proof {
                                crate::buffer::lemma_line_bounds(self.text(), lo as int);
                            }
                            (ls, next)
                        } else {
                            (lo, hi)
                        };
                        let r = self.execute_motion_mode(cursor, motion_mode, lo, hi, register);
                        cursor.motion_mode = None;
                        r
                    },
                    None => {
                        cursor.mode = CursorMode::Normal(new_offset);
                        cursor.horiz = horiz;
                        None
                    },
                }
            },
            CursorMode::Visual { start, end, mode } => {
                let start = *start;
                let vmode = *mode;
                let (new_offset, horiz) = self.move_offset(*end, cursor.horiz, count, movement, Mode::Visual, metrics);
                cursor.mode = CursorMode::Visual { start, end: new_offset, mode: vmode };
                cursor.horiz = horiz;
                None
            },
            CursorMode::Insert(selection) => {
                let moved = self.move_selection(selection, count, modify, movement, Mode::Insert, metrics);
                cursor.mode = CursorMode::Insert(moved);
                None
            },
        }
    }
}

proof fn lemma_prev_break_at(b: Seq<usize>, k: int)
    requires
        crate::buffer::strictly_increasing(b),
        0 < k < b.len(),
    ensures
        prev_break(b, b[k] as int) == b[k - 1],
    decreases b.len(),
{
    let d = b.drop_last();
    assert(crate::buffer::strictly_increasing(d)) by {
        assert forall|i: int, j: int| 0 <= i < j < d.len() implies d[i] < d[j] by {
            assert(d[i] == b[i] && d[j] == b[j]);
        }
    }
    if k == b.len() - 1 {
        assert(d.last() == b[k - 1]);
        assert(prev_break(d, b[k] as int) == b[k - 1]);
    } else {
        assert(b[k] < b.last());
        assert(d[k] == b[k]);
        lemma_prev_break_at(d, k);
    }
}

proof fn lemma_next_break_at(b: Seq<usize>, j: int)
    requires
        crate::buffer::strictly_increasing(b),
        0 <= j,
        j + 1 < b.len(),
    ensures
        crate::buffer::next_break(b, b[j] as int) == b[j + 1],
    decreases b.len(),
{
    let d = b.drop_first();
    assert(crate::buffer::strictly_increasing(d)) by {
        assert forall|i: int, l: int| 0 <= i < l < d.len() implies d[i] < d[l] by {
            assert(d[i] == b[i + 1] && d[l] == b[l + 1]);
        }
    }
    if j == 0 {
        assert(d[0] == b[1]);
        assert(crate::buffer::next_break(d, b[0] as int) == b[1]);
    } else {
        assert(b[0] < b[j]);
        assert(d[j - 1] == b[j]);
        lemma_next_break_at(d, j - 1);
    }
}

proof fn lemma_step_back_at(b: Seq<usize>, k: int, c: nat, limit: int)
    requires
        crate::buffer::strictly_increasing(b),
        0 <= k < b.len(),
        c <= k,
        b[k - c] >= limit,
    ensures
        step_back(b, b[k] as int, c, limit) == b[k - c],
    decreases c,
{
    if c > 0 {
        lemma_prev_break_at(b, k);
        if c > 1 {
            assert(b[k - c] < b[k - 1]);
        }
        lemma_step_back_at(b, k - 1, (c - 1) as nat, limit);
    }
}

proof fn lemma_step_fwd_at(b: Seq<usize>, j: int, c: nat, limit: int)
    requires
        crate::buffer::strictly_increasing(b),
        0 <= j,
        j + c < b.len(),
        b[j + c] <= limit,
    ensures
        step_fwd(b, b[j] as int, c, limit) == b[j + c],
    decreases c,
{
    if c > 0 {
        lemma_next_break_at(b, j);
        if c > 1 {
            assert(b[j + 1] < b[j + c]);
        }
        lemma_step_fwd_at(b, j + 1, (c - 1) as nat, limit);
    }
}

/// From a grapheme boundary, `Left` by `c` and then `Right` by `c` come back
/// to the same offset, where neither motion is held at the bounds that its
/// mode sets (a line's ends, or the text's in Insert mode).
pub proof fn lemma_left_right_round_trip(
    d: &Document,
    k: int,
    c: nat,
    h: Option<ColPosition>,
    mode: Mode,
    tab: usize,
)
    requires
        d.wf(),
        0 <= k < d.breaks().len(),
        c <= k,
        d.breaks()[k - c] >= left_limit(d.text(), d.breaks()[k] as int, mode),
        d.breaks()[k] <= right_limit(d.text(), d.breaks(), d.breaks()[k - c] as int, mode),
    ensures
        ({
            let o = d.breaks()[k] as int;
            let l = motion_result(d, o, h, c, Movement::Left, mode, tab);
            &&& l.0 == d.breaks()[k - c]
            &&& motion_result(d, l.0, l.1, c, Movement::Right, mode, tab).0 == o
        }),
{
    d.buffer.lemma_breaks();
    let b = d.breaks();
    lemma_step_back_at(b, k, c, left_limit(d.text(), b[k] as int, mode));
    lemma_step_fwd_at(b, k - c, c, right_limit(d.text(), b, b[k - c] as int, mode));
}

/// A vertical motion given a hint hands the same hint back, so consecutive
/// vertical motions keep one horizontal target. Any other motion neither
/// depends on the hint it is given nor hands it on: it leaves no hint or one
/// of the line markers.
pub proof fn lemma_vertical_hint(
    d: &Document,
    o: int,
    h: Option<ColPosition>,
    count: nat,
    mv: Movement,
    mode: Mode,
    tab: usize,
)
    ensures
        mv.spec_is_vertical() && h is Some ==> motion_result(d, o, h, count, mv, mode, tab).1 == h,
        !mv.spec_is_vertical() ==> motion_result(d, o, h, count, mv, mode, tab) == motion_result(
            d,
            o,
            None,
            count,
            mv,
            mode,
            tab,
        ),
        !mv.spec_is_vertical() ==> !(motion_result(d, o, h, count, mv, mode, tab).1 matches Some(
            ColPosition::Col(_),
        )),
{
}

/// `DocumentStart` lands on offset 0 with the `Start` hint, and
/// `DocumentEnd` on the last offset a cursor of the mode may take, with the
/// `End` hint, from any offset and with any hint.
pub proof fn lemma_document_start_end(
    d: &Document,
    o: int,
    h: Option<ColPosition>,
    count: nat,
    mode: Mode,
    tab: usize,
)
    ensures
        motion_result(d, o, h, count, Movement::DocumentStart, mode, tab) == (0int, Some(ColPosition::Start)),
        motion_result(d, o, h, count, Movement::DocumentEnd, mode, tab) == (
            line_end_at(d.text(), d.breaks(), d.text().len() as int, mode != Mode::Normal),
            Some(ColPosition::End),
        ),
{
}

proof fn lemma_skip_blanks_ge(t: Seq<char>, i: int)
    requires
        0 <= i <= t.len(),
    ensures
        i <= skip_blanks(t, i) <= t.len(),
    decreases t.len() - i,
{
    if i < t.len() && crate::buffer::spec_is_blank(t[i]) {
        lemma_skip_blanks_ge(t, i + 1);
    }
}

} // verus!
