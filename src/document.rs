use crate::buffer::{last_line, line_break, line_start_offset, step_back, step_fwd, Buffer};
use crate::cursor::{
    cursor_offset, cursor_within, Cursor, CursorMode, EditCommand, MotionMode, Register, RegisterData, SelRegion,
    Selection,
};
use crate::layout::{column_xs, line_content, LineLayout, Metrics};
use crate::syntax::{
    apply_shape, clip_spans, copy_line_styles, line_styles, shape_all, shape_spans, Delta, LineStyle,
    StyleSpan, Syntax, SyntaxRequest,
};
use std::collections::HashMap;
use vstd::prelude::*;

verus! {

broadcast use vstd::std_specs::hash::group_hash_axioms;

/// The platform clipboard. Reading and writing it is left to the embedding
/// program, which owns the windowing system.
pub struct SystemClipboard {}

impl SystemClipboard {
    /// A handle on the platform clipboard.
    pub fn new() -> (r: SystemClipboard) {
        SystemClipboard {}
    }
}

/// What backs a buffer: a file at a path, or nothing yet.
pub enum BufferContent {
    File(String),
    Local,
}

/// An open document: its buffer, what backs it, the syntax and semantic
/// styles in force, and per-line caches of styles and layouts.
pub struct Document {
    pub(crate) buffer: Buffer,
    pub(crate) content: BufferContent,
    pub(crate) syntax: Option<Syntax>,
    pub(crate) semantic_styles: Option<Vec<StyleSpan>>,
    pub(crate) line_styles: HashMap<usize, Vec<LineStyle>>,
    pub(crate) text_layouts: HashMap<usize, (Metrics, LineLayout)>,
}

/// The offsets that bound line `l`: its start and the start of the next line
/// (or the length).
pub open spec fn line_span(t: Seq<char>, l: int) -> (usize, usize) {
    let ls = line_start_offset(t, l);
    let lb = line_break(t, ls);
    (ls as usize, (if lb < t.len() {
        lb + 1
    } else {
        t.len() as int
    }) as usize)
}

/// The styles of line `l`, from the spans in force; none where there are none.
pub open spec fn computed_line_style(d: &Document, l: int) -> Seq<LineStyle> {
    match d.style_source() {
        Some(s) => clip_spans(s, line_span(d.text(), l).0, line_span(d.text(), l).1),
        None => Seq::empty(),
    }
}

/// The range a deleting command removes: the selected text, else one
/// grapheme before or after the cursor.
pub open spec fn deleted_range(d: &Document, c: &Cursor, cmd: EditCommand) -> (int, int) {
    let (lo, hi) = insertion_range(c);
    if lo < hi {
        (lo as int, hi as int)
    } else if cmd == EditCommand::DeleteBackward {
        (step_back(d.breaks(), lo as int, 1, 0), lo as int)
    } else {
        (lo as int, step_fwd(d.breaks(), lo as int, 1, d.text().len() as int))
    }
}

/// The cursor after an edit that leaves it at `at`: a caret there in Insert
/// mode, else a Normal cursor there; its hint and pending operator kept.
pub open spec fn cursor_placed(before: &Cursor, after: &Cursor, at: int) -> bool {
    &&& (after.mode is Insert <==> before.mode is Insert)
    &&& !(before.mode is Insert) ==> after.mode == CursorMode::Normal(at as usize)
    &&& before.mode is Insert ==> after.selection_of() == seq![
        SelRegion { start: at as usize, end: at as usize, horiz: None },
    ]
    &&& after.horiz == before.horiz
    &&& after.motion_mode == before.motion_mode
}

/// What a change `d` of the text does to the rest of the document: the spans
/// in force move through it, the matcher, the backing and the syntax
/// result's presence stay.
pub open spec fn follows_change(before: &Document, after: &Document, d: Delta) -> bool {
    &&& before.style_source() matches Some(sp) ==> after.style_source() == Some(shape_spans(sp, d))
    &&& before.style_source() is None ==> after.style_source() is None
    &&& after.syntax_pairs() == before.syntax_pairs()
    &&& after.syntax_tags() == before.syntax_tags()
    &&& after.has_syntax() == before.has_syntax()
    &&& after.file_path() == before.file_path()
}

/// Where an insertion at the cursor goes: the last region of a selection
/// (replaced), else the cursor's offset.
pub open spec fn insertion_range(c: &Cursor) -> (usize, usize) {
    match c.mode {
        CursorMode::Insert(sel) => if sel@.len() > 0 {
            let r = sel@.last();
            if r.start <= r.end {
                (r.start, r.end)
            } else {
                (r.end, r.start)
            }
        } else {
            (0, 0)
        },
        _ => (cursor_offset(c), cursor_offset(c)),
    }
}

impl Document {
    /// The text.
    pub open(crate) spec fn text(&self) -> Seq<char> {
        self.buffer@
    }

    /// The grapheme breaks of the text.
    pub open(crate) spec fn breaks(&self) -> Seq<usize> {
        self.buffer.breaks()
    }

    /// The buffer's revision.
    pub open(crate) spec fn revision(&self) -> u64 {
        self.buffer.revision()
    }

    /// Whether a syntax result is installed.
    pub open(crate) spec fn has_syntax(&self) -> bool {
        self.syntax is Some
    }

    /// The installed syntax result's bracket pairs.
    pub open(crate) spec fn syntax_pairs(&self) -> Seq<(usize, usize)> {
        match self.syntax {
            Some(s) => s.pairs@,
            None => Seq::empty(),
        }
    }

    /// The installed syntax result's unmatched brackets.
    pub open(crate) spec fn syntax_tags(&self) -> Seq<(usize, char)> {
        match self.syntax {
            Some(s) => s.tags@,
            None => Seq::empty(),
        }
    }

    /// The spans that styles come from: the semantic ones, else the syntax
    /// result's.
    pub open(crate) spec fn style_source(&self) -> Option<Seq<StyleSpan>> {
        match self.semantic_styles {
            Some(v) => Some(v@),
            None => match self.syntax {
                Some(s) => match s.styles {
                    Some(v) => Some(v@),
                    None => None,
                },
                None => None,
            },
        }
    }

    /// The semantic styles in force, if any.
    pub open(crate) spec fn semantic(&self) -> Option<Seq<StyleSpan>> {
        match self.semantic_styles {
            Some(v) => Some(v@),
            None => None,
        }
    }

    /// The cached styles, by line.
    pub open(crate) spec fn style_cache(&self) -> Map<usize, Vec<LineStyle>> {
        self.line_styles@
    }

    /// The cached layouts, by line, with the metrics each was measured with.
    pub open(crate) spec fn layout_cache(&self) -> Map<usize, (Metrics, LineLayout)> {
        self.text_layouts@
    }

    /// Whether the document is backed by a file.
    pub open(crate) spec fn is_file(&self) -> bool {
        self.content is File
    }

    /// The path of the file that backs the document, if one does.
    pub open(crate) spec fn file_path(&self) -> Option<Seq<char>> {
        match self.content {
            BufferContent::File(p) => Some(p@),
            BufferContent::Local => None,
        }
    }

    /// The installed syntax result's style spans, if any.
    pub open(crate) spec fn syntax_styles(&self) -> Option<Seq<StyleSpan>> {
        match self.syntax {
            Some(s) => match s.styles {
                Some(v) => Some(v@),
                None => None,
            },
            None => None,
        }
    }

    /// The installed syntax result's lens; empty without one.
    pub open(crate) spec fn lens(&self) -> Seq<StyleSpan> {
        match self.syntax {
            Some(s) => s.lens@,
            None => Seq::empty(),
        }
    }

    /// The installed syntax result, if any.
    pub open(crate) spec fn syntax_result(&self) -> Option<Syntax> {
        self.syntax
    }

    pub open(crate) spec fn wf(&self) -> bool {
        &&& self.buffer.wf()
        &&& forall|l: usize|
            #![trigger self.line_styles@.dom().contains(l)]
            self.line_styles@.dom().contains(l) ==> l <= last_line(self.buffer@)
                && self.line_styles@[l]@ == computed_line_style(self, l as int)
        &&& forall|l: usize|
            #![trigger self.text_layouts@.dom().contains(l)]
            self.text_layouts@.dom().contains(l) ==> l <= last_line(self.buffer@)
                && self.text_layouts@[l].1.xs() == column_xs(
                line_content(self.buffer@, line_start_offset(self.buffer@, l as int)),
                self.text_layouts@[l].0.tab_width,
            ) && self.text_layouts@[l].1.styles() == computed_line_style(self, l as int)
    }

}

impl Document {
    /// An empty document backed by `content`, with no syntax and empty caches.
    pub fn new(content: BufferContent) -> (r: Document)
        ensures
            r.wf(),
            r.text() == Seq::<char>::empty(),
            r.revision() == 0,
            r.is_file() == (content is File),
            !r.has_syntax(),
            r.style_source() is None,
            r.style_cache() == Map::<usize, Vec<LineStyle>>::empty(),
            r.layout_cache() == Map::<usize, (Metrics, LineLayout)>::empty(),
    {
        proof {
            reveal_strlit("");
        }
        Document {
            buffer: Buffer::new(""),
            content,
            syntax: None,
            semantic_styles: None,
            line_styles: HashMap::new(),
            text_layouts: HashMap::new(),
        }
    }

    /// The buffer's revision.
    pub fn rev(&self) -> (r: u64)
        ensures
            r == self.revision(),
    {
        self.buffer.rev()
    }

    /// The buffer.
    pub fn buffer(&self) -> (r: &Buffer)
        requires
            self.wf(),
        ensures
            r.wf(),
            r@ == self.text(),
            r.breaks() == self.breaks(),
            r.revision() == self.revision(),
    {
        &self.buffer
    }

    /// The installed syntax result.
    pub fn syntax(&self) -> (r: Option<&Syntax>)
        ensures
            r is Some == self.has_syntax(),
            r is Some ==> *r->0 == self.syntax_result()->0,
    {
        self.syntax.as_ref()
    }

    /// Empties the layout cache.
    fn clear_text_layout_cache(&mut self)
        requires
            old(self).wf(),
        ensures
            final(self).wf(),
            final(self).layout_cache() == Map::<usize, (Metrics, LineLayout)>::empty(),
            final(self).style_cache() == old(self).style_cache(),
            final(self).text() == old(self).text(),
            final(self).breaks() == old(self).breaks(),
            final(self).revision() == old(self).revision(),
            final(self).style_source() == old(self).style_source(),
            final(self).syntax_result() == old(self).syntax_result(),
            final(self).is_file() == old(self).is_file(),
            final(self).semantic() == old(self).semantic(),
    {
        self.text_layouts.clear();
        proof {
            assert(self.line_styles@ == old(self).line_styles@);
            assert forall|l: usize| self.line_styles@.contains_key(l) implies l <= last_line(self.buffer@)
                && self.line_styles@[l]@ == computed_line_style(self, l as int) by {
                assert(old(self).line_styles@.contains_key(l));
                let v = old(self).line_styles@[l];
                assert(v@ == computed_line_style(old(self), l as int));
                assert(computed_line_style(self, l as int) == computed_line_style(old(self), l as int));
            }
        }
    }

    /// Empties the style cache and the layout cache.
    fn clear_style_cache(&mut self)
        requires
            old(self).buffer.wf(),
        ensures
            final(self).wf(),
            final(self).style_cache() == Map::<usize, Vec<LineStyle>>::empty(),
            final(self).layout_cache() == Map::<usize, (Metrics, LineLayout)>::empty(),
            final(self).text() == old(self).text(),
            final(self).breaks() == old(self).breaks(),
            final(self).revision() == old(self).revision(),
            final(self).style_source() == old(self).style_source(),
            final(self).syntax_result() == old(self).syntax_result(),
            final(self).is_file() == old(self).is_file(),
            final(self).semantic() == old(self).semantic(),
            final(self).file_path() == old(self).file_path(),
    {
        self.line_styles.clear();
        self.text_layouts.clear();
    }

    /// The reparse to dispatch after a change: one is due when the document
    /// is backed by a file and a syntax result is installed. It captures the
    /// current revision and text.
    pub fn trigger_syntax_change(&self, delta: Option<Delta>) -> (r: Option<SyntaxRequest>)
        requires
            self.wf(),
        ensures
            r is Some == (self.is_file() && self.has_syntax()),
            r matches Some(q) ==> q.rev == self.revision() && q.text@ == self.text() && q.delta == delta
                && Some(q.path@) == self.file_path(),
    {
        match &self.content {
            BufferContent::File(path) => {
                if self.syntax.is_some() {
                    Some(
                        SyntaxRequest {
                            path: path.clone(),
                            rev: self.buffer.rev(),
                            text: self.buffer.chars(),
                            delta,
                        },
                    )
                } else {
                    None
                }
            },
            BufferContent::Local => None,
        }
    }

    /// Moves the spans in force through a change (the semantic ones when
    /// there are some, else the syntax result's), moves the syntax result's
    /// lens, and empties the style cache.
    fn update_styles(&mut self, delta: Delta)
        requires
            old(self).buffer.wf(),
            delta.start <= delta.end,
        ensures
            final(self).buffer == old(self).buffer,
            final(self).content == old(self).content,
            final(self).text_layouts == old(self).text_layouts,
            final(self).line_styles@ == Map::<usize, Vec<LineStyle>>::empty(),
            final(self).has_syntax() == old(self).has_syntax(),
            final(self).syntax_pairs() == old(self).syntax_pairs(),
            final(self).syntax_tags() == old(self).syntax_tags(),
            final(self).syntax_result() matches Some(s) ==> s.rev == old(self).syntax_result()->0.rev,
            old(self).semantic() matches Some(sp) ==> final(self).semantic() == Some(shape_spans(sp, delta))
                && final(self).syntax_styles() == old(self).syntax_styles(),
            old(self).semantic() is None ==> final(self).semantic() is None && (old(self).syntax_styles() matches Some(
                sp,
            ) ==> final(self).syntax_styles() == Some(shape_spans(sp, delta))) && (old(self).syntax_styles() is None
                ==> final(self).syntax_styles() is None),
            final(self).lens() == shape_spans(old(self).lens(), delta) || !old(self).has_syntax(),
            final(self).lens() == old(self).lens() || old(self).has_syntax(),
            old(self).style_source() matches Some(sp) ==> final(self).style_source() == Some(shape_spans(sp, delta)),
            old(self).style_source() is None ==> final(self).style_source() is None,
    {
        if let Some(styles) = &self.semantic_styles {
            let shaped = apply_shape(styles, delta);
            self.semantic_styles = Some(shaped);
        } else {
            match &mut self.syntax {
                Some(syntax) => {
                    if let Some(styles) = &syntax.styles {
                        let shaped = apply_shape(styles, delta);
                        syntax.styles = Some(shaped);
                    }
                },
                None => {},
            }
        }
        match &mut self.syntax {
            Some(syntax) => {
                let lens = apply_shape(&syntax.lens, delta);
                syntax.lens = lens;
            },
            None => {},
        }
        self.line_styles.clear();
    }

    /// Follows a change of the text: shifts the spans in force, empties both
    /// caches and returns the reparse that is due, if any.
    fn on_change(&mut self, delta: Delta) -> (r: Option<SyntaxRequest>)
        requires
            old(self).buffer.wf(),
            delta.start <= delta.end,
        ensures
            final(self).wf(),
            final(self).text() == old(self).text(),
            final(self).breaks() == old(self).breaks(),
            final(self).revision() == old(self).revision(),
            final(self).style_cache() == Map::<usize, Vec<LineStyle>>::empty(),
            final(self).layout_cache() == Map::<usize, (Metrics, LineLayout)>::empty(),
            final(self).is_file() == old(self).is_file(),
            final(self).has_syntax() == old(self).has_syntax(),
            old(self).style_source() matches Some(sp) ==> final(self).style_source() == Some(shape_spans(sp, delta)),
            old(self).style_source() is None ==> final(self).style_source() is None,
            final(self).syntax_pairs() == old(self).syntax_pairs(),
            final(self).syntax_tags() == old(self).syntax_tags(),
            final(self).file_path() == old(self).file_path(),
            r is Some == (final(self).is_file() && final(self).has_syntax()),
            r matches Some(q) ==> q.rev == final(self).revision() && q.text@ == final(self).text()
                && q.delta == Some(delta),
    {
        self.update_styles(delta);
        self.text_layouts.clear();
        self.trigger_syntax_change(Some(delta))
    }

    /// Follows each change in turn; returns the reparse due after the last.
    pub fn apply_deltas(&mut self, deltas: &Vec<Delta>) -> (r: Option<SyntaxRequest>)
        requires
            old(self).wf(),
            forall|i: int| 0 <= i < deltas@.len() ==> #[trigger] deltas@[i].start <= deltas@[i].end,
        ensures
            final(self).wf(),
            final(self).text() == old(self).text(),
            final(self).revision() == old(self).revision(),
            deltas@.len() > 0 ==> final(self).style_cache() == Map::<usize, Vec<LineStyle>>::empty()
                && final(self).layout_cache() == Map::<usize, (Metrics, LineLayout)>::empty(),
            deltas@.len() > 0 ==> (r is Some == (final(self).is_file() && final(self).has_syntax())),
            deltas@.len() == 0 ==> r is None && *final(self) == *old(self),
            old(self).style_source() matches Some(sp) ==> final(self).style_source() == Some(shape_all(sp, deltas@)),
            old(self).style_source() is None ==> final(self).style_source() is None,
            final(self).syntax_pairs() == old(self).syntax_pairs(),
            final(self).syntax_tags() == old(self).syntax_tags(),
            final(self).is_file() == old(self).is_file(),
            final(self).has_syntax() == old(self).has_syntax(),
            r matches Some(q) ==> q.rev == final(self).revision() && q.text@ == final(self).text()
                && q.delta == Some(deltas@.last()),
    {
        let mut r: Option<SyntaxRequest> = None;
        let mut i: usize = 0;
        while i < deltas.len()
            invariant
                self.wf(),
                i <= deltas@.len(),
                forall|k: int| 0 <= k < deltas@.len() ==> #[trigger] deltas@[k].start <= deltas@[k].end,
                self.text() == old(self).text(),
                self.revision() == old(self).revision(),
                i > 0 ==> self.style_cache() == Map::<usize, Vec<LineStyle>>::empty()
                    && self.layout_cache() == Map::<usize, (Metrics, LineLayout)>::empty(),
                i > 0 ==> (r is Some == (self.is_file() && self.has_syntax())),
                i == 0 ==> r is None && *self == *old(self),
                old(self).style_source() matches Some(sp) ==> self.style_source() == Some(
                    shape_all(sp, deltas@.take(i as int)),
                ),
                old(self).style_source() is None ==> self.style_source() is None,
                self.syntax_pairs() == old(self).syntax_pairs(),
                self.syntax_tags() == old(self).syntax_tags(),
                self.is_file() == old(self).is_file(),
                self.has_syntax() == old(self).has_syntax(),
                r matches Some(q) ==> q.rev == self.revision() && q.text@ == self.text()
                    && q.delta == Some(deltas@[i - 1]),
            decreases deltas@.len() - i,
        {
            proof {
                assert(deltas@.take(i + 1).drop_last() =~= deltas@.take(i as int));
            }
            r = self.on_change(deltas[i]);
            i += 1;
        }
        proof {
            assert(deltas@.take(deltas@.len() as int) =~= deltas@);
        }
        r
    }

    /// Replaces the text with `content`, empties both caches and returns the
    /// reparse that is due, if any.
    pub fn load_content(&mut self, content: &str) -> (r: Option<SyntaxRequest>)
        requires
            old(self).wf(),
            content@.len() < usize::MAX,
            old(self).revision() < u64::MAX,
        ensures
            final(self).wf(),
            final(self).text() == content@,
            final(self).revision() == old(self).revision() + 1,
            final(self).style_cache() == Map::<usize, Vec<LineStyle>>::empty(),
            final(self).layout_cache() == Map::<usize, (Metrics, LineLayout)>::empty(),
            r is Some == (old(self).is_file() && old(self).has_syntax()),
            r matches Some(q) ==> q.rev == final(self).revision() && q.text@ == content@ && q.delta is None,
            final(self).syntax_result() == old(self).syntax_result(),
            final(self).semantic() == old(self).semantic(),
            final(self).is_file() == old(self).is_file(),
            final(self).file_path() == old(self).file_path(),
    {
        self.buffer.load_content(content);
        self.clear_style_cache();
        self.trigger_syntax_change(None)
    }

    /// Adopts a syntax result that a background parse delivered, but only
    /// when it was parsed at the current revision; a stale one leaves the
    /// document as it was.
    pub fn update_syntax(&mut self, rev: u64, syntax: Syntax) -> (r: bool)
        requires
            old(self).wf(),
        ensures
            final(self).wf(),
            r == (rev == old(self).revision()),
            r ==> final(self).syntax_result() == Some(syntax),
            !r ==> *final(self) == *old(self),
            final(self).text() == old(self).text(),
            final(self).revision() == old(self).revision(),
    {
        if rev == self.buffer.rev() {
            self.set_syntax(Some(syntax));
            true
        } else {
            false
        }
    }

    /// Replaces `[start, end)` with `ins` and follows the change.
    fn replace(&mut self, start: usize, end: usize, ins: &Vec<char>) -> (r: Option<SyntaxRequest>)
        requires
            old(self).wf(),
            start <= end <= old(self).text().len(),
            old(self).text().len() - (end - start) + ins@.len() < usize::MAX,
            old(self).revision() < u64::MAX,
        ensures
            final(self).wf(),
            final(self).text() == old(self).text().subrange(0, start as int) + ins@ + old(self).text().subrange(
                end as int,
                old(self).text().len() as int,
            ),
            final(self).revision() == old(self).revision() + 1,
            final(self).style_cache() == Map::<usize, Vec<LineStyle>>::empty(),
            final(self).layout_cache() == Map::<usize, (Metrics, LineLayout)>::empty(),
            r is Some == (old(self).is_file() && old(self).has_syntax()),
            r matches Some(q) ==> q.rev == final(self).revision() && q.text@ == final(self).text(),
            follows_change(old(self), final(self), Delta { start, end, new_len: ins@.len() as usize }),
            final(self).is_file() == old(self).is_file(),
    {
        self.buffer.edit(start, end, ins);
        self.on_change(Delta { start, end, new_len: ins.len() })
    }

    fn compute_line_style(&self, line: usize) -> (r: Vec<LineStyle>)
        requires
            self.wf(),
            line <= last_line(self.text()),
        ensures
            r@ == computed_line_style(self, line as int),
    {
        let ls = self.buffer.offset_of_line(line);
        proof {
            crate::buffer::lemma_line_start_unique(self.buffer@, ls as int, line as int);
        }
        let lb = self.buffer.line_break_of(ls);
        let le = if lb < self.buffer.len() {
            lb + 1
        } else {
            self.buffer.len()
        };
        match &self.semantic_styles {
            Some(spans) => line_styles(spans, ls, le),
            None => match &self.syntax {
                Some(syntax) => match &syntax.styles {
                    Some(spans) => line_styles(spans, ls, le),
                    None => Vec::new(),
                },
                None => Vec::new(),
            },
        }
    }

    /// The styles of line `line`: taken from the cache, or computed from the
    /// spans in force and cached.
    pub fn line_style(&mut self, line: usize) -> (r: Vec<LineStyle>)
        requires
            old(self).wf(),
            line <= last_line(old(self).text()),
        ensures
            final(self).wf(),
            r@ == computed_line_style(old(self), line as int),
            final(self).style_cache().contains_key(line),
            final(self).text() == old(self).text(),
            final(self).breaks() == old(self).breaks(),
            final(self).revision() == old(self).revision(),
            final(self).style_source() == old(self).style_source(),
            final(self).layout_cache() == old(self).layout_cache(),
    {
        match self.line_styles.get(&line) {
            Some(v) => {
                return copy_line_styles(v);
            },
            None => {},
        }
        let styles = self.compute_line_style(line);
        let ghost before = *self;
        self.line_styles.insert(line, copy_line_styles(&styles));
        proof {
            assert forall|l: usize| self.line_styles@.dom().contains(l) implies l <= last_line(self.buffer@)
                && self.line_styles@[l]@ == computed_line_style(self, l as int) by {
                assert(computed_line_style(self, l as int) == computed_line_style(&before, l as int));
                if l != line {
                    assert(before.line_styles@.dom().contains(l));
                }
            }
        }
        styles
    }

    /// A fresh layout of line `line`, drawn with its styles.
    pub fn new_text_layout(&self, line: usize, metrics: Metrics) -> (r: LineLayout)
        requires
            self.wf(),
            line <= last_line(self.text()),
        ensures
            r.xs() == column_xs(line_content(self.text(), line_start_offset(self.text(), line as int)), metrics.tab_width),
            r.styles() == computed_line_style(self, line as int),
    {
        let ls = self.buffer.offset_of_line(line);
        proof {
            crate::buffer::lemma_line_start_unique(self.buffer@, ls as int, line as int);
        }
        let styles = self.compute_line_style(line);
        LineLayout::new(&self.buffer, ls, metrics, styles)
    }

    /// The layout of line `line`: the cached one while it is cached, else
    /// measured under `metrics`, drawn with the line's styles, and cached.
    pub fn get_text_layout(&mut self, line: usize, metrics: Metrics) -> (r: LineLayout)
        requires
            old(self).wf(),
            line <= last_line(old(self).text()),
        ensures
            final(self).wf(),
            old(self).layout_cache().contains_key(line) ==> r.xs() == old(self).layout_cache()[line].1.xs()
                && r.styles() == old(self).layout_cache()[line].1.styles()
                && final(self).layout_cache() == old(self).layout_cache(),
            !old(self).layout_cache().contains_key(line) ==> r.xs() == column_xs(
                line_content(old(self).text(), line_start_offset(old(self).text(), line as int)),
                metrics.tab_width,
            ) && final(self).layout_cache()[line].0 == metrics,
            r.xs() == column_xs(
                line_content(old(self).text(), line_start_offset(old(self).text(), line as int)),
                final(self).layout_cache()[line].0.tab_width,
            ),
            r.styles() == computed_line_style(old(self), line as int),
            final(self).layout_cache().contains_key(line),
            final(self).text() == old(self).text(),
            final(self).breaks() == old(self).breaks(),
            final(self).revision() == old(self).revision(),
            final(self).style_source() == old(self).style_source(),
            final(self).style_cache() == old(self).style_cache(),
    {
        match self.text_layouts.get(&line) {
            Some(entry) => {
                return entry.1.copy();
            },
            None => {},
        }
        let layout = self.new_text_layout(line, metrics);
        let ghost before = *self;
        self.text_layouts.insert(line, (metrics, layout.copy()));
        proof {
            assert forall|l: usize| self.line_styles@.dom().contains(l) implies l <= last_line(self.buffer@)
                && self.line_styles@[l]@ == computed_line_style(self, l as int) by {
                assert(computed_line_style(self, l as int) == computed_line_style(&before, l as int));
                assert(before.line_styles@.dom().contains(l));
            }
            assert forall|l: usize| self.text_layouts@.dom().contains(l) implies l <= last_line(self.buffer@)
                && self.text_layouts@[l].1.xs() == column_xs(
                line_content(self.buffer@, line_start_offset(self.buffer@, l as int)),
                self.text_layouts@[l].0.tab_width,
            ) && self.text_layouts@[l].1.styles() == computed_line_style(self, l as int) by {
                assert(computed_line_style(self, l as int) == computed_line_style(&before, l as int));
                if l != line {
                    assert(before.text_layouts@.dom().contains(l));
                }
            }
        }
        layout
    }

    /// The horizontal position of column `col` on line `line`.
    pub fn point_of_line_col(&mut self, line: usize, col: usize, metrics: Metrics) -> (r: usize)
        requires
            old(self).wf(),
            line <= last_line(old(self).text()),
        ensures
            final(self).wf(),
            final(self).layout_cache().contains_key(line),
            !old(self).layout_cache().contains_key(line) ==> final(self).layout_cache()[line].0 == metrics,
            ({
                let xs = column_xs(
                    line_content(old(self).text(), line_start_offset(old(self).text(), line as int)),
                    final(self).layout_cache()[line].0.tab_width,
                );
                r == if col < xs.len() {
                    xs[col as int]
                } else {
                    xs.last()
                }
            }),
            final(self).text() == old(self).text(),
            final(self).revision() == old(self).revision(),
    {
        let layout = self.get_text_layout(line, metrics);
        proof {
            crate::layout::lemma_column_xs_len(
                line_content(old(self).text(), line_start_offset(old(self).text(), line as int)),
                self.layout_cache()[line].0.tab_width,
            );
        }
        layout.hit_test_text_position(col)
    }

    /// Installs a syntax result; the style cache is emptied unless semantic
    /// styles are in force, which the syntax styles do not override.
    pub fn set_syntax(&mut self, syntax: Option<Syntax>)
        requires
            old(self).wf(),
        ensures
            final(self).wf(),
            final(self).syntax_result() == syntax,
            final(self).text() == old(self).text(),
            final(self).revision() == old(self).revision(),
            final(self).semantic() == old(self).semantic(),
            final(self).is_file() == old(self).is_file(),
            old(self).semantic() is None ==> final(self).style_cache() == Map::<usize, Vec<LineStyle>>::empty()
                && final(self).layout_cache() == Map::<usize, (Metrics, LineLayout)>::empty(),
            old(self).semantic() is Some ==> final(self).style_cache() == old(self).style_cache()
                && final(self).layout_cache() == old(self).layout_cache()
                && final(self).style_source() == old(self).style_source(),
    {
        let ghost before = *self;
        self.syntax = syntax;
        if self.semantic_styles.is_none() {
            self.clear_style_cache();
        } else {
            assert forall|l: int| computed_line_style(self, l) == computed_line_style(&before, l) by {}
        }
    }

    /// Installs semantic styles (or removes them) and empties the caches.
    pub fn set_semantic_styles(&mut self, styles: Option<Vec<StyleSpan>>)
        requires
            old(self).wf(),
        ensures
            final(self).wf(),
            final(self).semantic() == (match styles {
                Some(v) => Some(v@),
                None => None::<Seq<StyleSpan>>,
            }),
            final(self).syntax_result() == old(self).syntax_result(),
            final(self).text() == old(self).text(),
            final(self).revision() == old(self).revision(),
            final(self).style_cache() == Map::<usize, Vec<LineStyle>>::empty(),
            final(self).layout_cache() == Map::<usize, (Metrics, LineLayout)>::empty(),
    {
        self.semantic_styles = styles;
        self.clear_style_cache();
    }
}

impl Document {
    /// Runs a pending operator over `[start, end)`: the register takes the
    /// covered text, `Delete` removes it, and the cursor goes to `start`.
    pub fn execute_motion_mode(
        &mut self,
        cursor: &mut Cursor,
        motion_mode: MotionMode,
        start: usize,
        end: usize,
        register: &mut Register,
    ) -> (r: Option<SyntaxRequest>)
        requires
            old(self).wf(),
            start <= end <= old(self).text().len(),
            old(self).revision() < u64::MAX,
        ensures
            final(self).wf(),
            final(register).unnamed.content@ == old(self).text().subrange(start as int, end as int),
            final(cursor).mode == CursorMode::Normal(start),
            final(cursor).horiz == old(cursor).horiz,
            final(cursor).motion_mode == old(cursor).motion_mode,
            cursor_within(final(cursor), final(self).text().len() as int),
            motion_mode == MotionMode::Delete ==> final(self).text() == old(self).text().subrange(0, start as int)
                + old(self).text().subrange(end as int, old(self).text().len() as int)
                && final(self).revision() == old(self).revision() + 1
                && final(self).style_cache() == Map::<usize, Vec<LineStyle>>::empty()
                && final(self).layout_cache() == Map::<usize, (Metrics, LineLayout)>::empty()
                && (r is Some == (old(self).is_file() && old(self).has_syntax()))
                && follows_change(old(self), final(self), Delta { start, end, new_len: 0 }),
            motion_mode == MotionMode::Yank ==> *final(self) == *old(self) && r is None,
    {
        let taken = self.buffer.slice(start, end);
        register.unnamed = RegisterData { content: taken };
        cursor.mode = CursorMode::Normal(start);
        match motion_mode {
            MotionMode::Delete => {
                let empty: Vec<char> = Vec::new();
                proof {
                    self.buffer.lemma_breaks();
                }
                self.replace(start, end, &empty)
            },
            MotionMode::Yank => None,
        }
    }

    /// Sets `motion_mode` pending, or, when it is pending already, runs it
    /// over the empty range at the cursor; any other pending operator is
    /// dropped.
    pub fn do_motion_mode(&mut self, cursor: &mut Cursor, motion_mode: MotionMode, register: &mut Register) -> (r: Option<SyntaxRequest>)
        requires
            old(self).wf(),
            cursor_within(old(cursor), old(self).text().len() as int),
            old(self).revision() < u64::MAX,
        ensures
            final(self).wf(),
            old(cursor).motion_mode is None ==> final(cursor).motion_mode == Some(motion_mode) && r is None
                && *final(self) == *old(self) && final(cursor).mode == old(cursor).mode
                && *final(register) == *old(register),
            old(cursor).motion_mode is Some ==> final(cursor).motion_mode is None,
            old(cursor).motion_mode == Some(motion_mode) ==> final(register).unnamed.content@ == Seq::<char>::empty()
                && final(cursor).mode == CursorMode::Normal(cursor_offset(old(cursor)))
                && final(self).text() == old(self).text(),
            old(cursor).motion_mode == Some(motion_mode) && motion_mode == MotionMode::Delete
                ==> final(self).revision() == old(self).revision() + 1
                && final(self).style_cache() == Map::<usize, Vec<LineStyle>>::empty()
                && final(self).layout_cache() == Map::<usize, (Metrics, LineLayout)>::empty()
                && (r is Some == (old(self).is_file() && old(self).has_syntax())),
            old(cursor).motion_mode == Some(motion_mode) && motion_mode == MotionMode::Yank ==> *final(self)
                == *old(self) && r is None,
            old(cursor).motion_mode is Some && old(cursor).motion_mode != Some(motion_mode) ==> *final(self) == *old(self)
                && r is None && final(cursor).mode == old(cursor).mode && *final(register) == *old(register),
            final(cursor).horiz == old(cursor).horiz,
            cursor_within(final(cursor), final(self).text().len() as int),
    {
        match cursor.motion_mode {
            Some(m) => {
                let mut r: Option<SyntaxRequest> = None;
                if m == motion_mode {
                    let offset = cursor.offset();
                    proof {
                        lemma_cursor_offset_within(cursor, self.text().len() as int);
                    }
                    r = self.execute_motion_mode(cursor, motion_mode, offset, offset, register);
                    proof {
                        assert(self.text() =~= old(self).text());
                    }
                }
                cursor.motion_mode = None;
                r
            },
            None => {
                cursor.motion_mode = Some(motion_mode);
                None
            },
        }
    }

    fn insert_chars(&mut self, cursor: &mut Cursor, ins: &Vec<char>) -> (r: Option<SyntaxRequest>)
        requires
            old(self).wf(),
            cursor_within(old(cursor), old(self).text().len() as int),
            old(self).text().len() + ins@.len() < usize::MAX,
            old(self).revision() < u64::MAX,
        ensures
            final(self).wf(),
            ({
                let (lo, hi) = insertion_range(old(cursor));
                &&& final(self).text() == old(self).text().subrange(0, lo as int) + ins@
                    + old(self).text().subrange(hi as int, old(self).text().len() as int)
                &&& cursor_placed(old(cursor), final(cursor), lo + ins@.len())
                &&& follows_change(old(self), final(self), Delta { start: lo, end: hi, new_len: ins@.len() as usize })
            }),
            final(self).revision() == old(self).revision() + 1,
            final(self).style_cache() == Map::<usize, Vec<LineStyle>>::empty(),
            final(self).layout_cache() == Map::<usize, (Metrics, LineLayout)>::empty(),
            r is Some == (old(self).is_file() && old(self).has_syntax()),
            final(cursor).horiz == old(cursor).horiz,
            final(cursor).motion_mode == old(cursor).motion_mode,
            cursor_within(final(cursor), final(self).text().len() as int),
    {
        let (lo, hi) = match &cursor.mode {
            CursorMode::Insert(sel) => {
                if sel.len() > 0 {
                    let reg = sel.region(sel.len() - 1);
                    if reg.start <= reg.end {
                        (reg.start, reg.end)
                    } else {
                        (reg.end, reg.start)
                    }
                } else {
                    (0, 0)
                }
            },
            _ => {
                let o = cursor.offset();
                (o, o)
            },
        };
        proof {
            lemma_cursor_offset_within(cursor, self.text().len() as int);
        }
        let r = self.replace(lo, hi, ins);
        let at = lo + ins.len();
        let is_insert = match &cursor.mode {
            CursorMode::Insert(_) => true,
            _ => false,
        };
        if is_insert {
            cursor.mode = CursorMode::Insert(Selection::caret(at));
        } else {
            cursor.mode = CursorMode::Normal(at);
        }
        r
    }

    /// Runs an editing command at the cursor. A new line is inserted like
    /// typed text; a deletion removes `deleted_range` and leaves the cursor
    /// at its start.
    pub fn do_edit(&mut self, cursor: &mut Cursor, cmd: &EditCommand) -> (r: Option<SyntaxRequest>)
        requires
            old(self).wf(),
            old(self).text().len() + 1 < usize::MAX,
            cursor_within(old(cursor), old(self).text().len() as int),
            old(self).revision() < u64::MAX,
        ensures
            final(self).wf(),
            *cmd == EditCommand::InsertNewLine ==> ({
                let (lo, hi) = insertion_range(old(cursor));
                &&& final(self).text() == old(self).text().subrange(0, lo as int) + seq!['\n']
                    + old(self).text().subrange(hi as int, old(self).text().len() as int)
                &&& cursor_placed(old(cursor), final(cursor), lo + 1)
                &&& follows_change(old(self), final(self), Delta { start: lo, end: hi, new_len: 1 })
            }),
            *cmd != EditCommand::InsertNewLine ==> ({
                let (s, e) = deleted_range(old(self), old(cursor), *cmd);
                &&& final(self).text() == old(self).text().subrange(0, s) + old(self).text().subrange(
                    e,
                    old(self).text().len() as int,
                )
                &&& cursor_placed(old(cursor), final(cursor), s)
                &&& follows_change(old(self), final(self), Delta { start: s as usize, end: e as usize, new_len: 0 })
            }),
            final(self).revision() == old(self).revision() + 1,
            final(self).style_cache() == Map::<usize, Vec<LineStyle>>::empty(),
            final(self).layout_cache() == Map::<usize, (Metrics, LineLayout)>::empty(),
            r is Some == (old(self).is_file() && old(self).has_syntax()),
            cursor_within(final(cursor), final(self).text().len() as int),
    {
        proof {
            self.buffer.lemma_breaks();
        }
        match cmd {
            EditCommand::InsertNewLine => {
                let mut nl: Vec<char> = Vec::new();
                nl.push('\n');
                proof {
                    assert(nl@ =~= seq!['\n']);
                }
                self.insert_chars(cursor, &nl)
            },
            _ => {
                let (lo, hi) = match &cursor.mode {
                    CursorMode::Insert(sel) => {
                        if sel.len() > 0 {
                            let reg = sel.region(sel.len() - 1);
                            if reg.start <= reg.end {
                                (reg.start, reg.end)
                            } else {
                                (reg.end, reg.start)
                            }
                        } else {
                            (0, 0)
                        }
                    },
                    _ => {
                        let o = cursor.offset();
                        (o, o)
                    },
                };
                proof {
                    lemma_cursor_offset_within(cursor, self.text().len() as int);
                }
                let (s, e) = if lo < hi {
                    (lo, hi)
                } else if *cmd == EditCommand::DeleteBackward {
                    let p = self.buffer.prev_grapheme_offset(lo, 1, 0);
                    proof {
                        crate::buffer::lemma_step_back_bounds(self.buffer.breaks(), lo as int, 1, 0);
                    }
                    (p, lo)
                } else {
                    let n = self.buffer.next_grapheme_offset(lo, 1, self.buffer.len());
                    proof {
                        crate::motion::lemma_step_fwd_bounds(self.buffer.breaks(), lo as int, 1, self.buffer@.len() as int);
                    }
                    (lo, n)
                };
                let empty: Vec<char> = Vec::new();
                let is_insert = match &cursor.mode {
                    CursorMode::Insert(_) => true,
                    _ => false,
                };
                let r = self.replace(s, e, &empty);
                if is_insert {
                    cursor.mode = CursorMode::Insert(Selection::caret(s));
                } else {
                    cursor.mode = CursorMode::Normal(s);
                }
                r
            },
        }
    }

    /// Inserts `s` at the cursor (over the last region of a selection) and
    /// puts the cursor after it.
    pub fn do_insert(&mut self, cursor: &mut Cursor, s: &str) -> (r: Option<SyntaxRequest>)
        requires
            old(self).wf(),
            cursor_within(old(cursor), old(self).text().len() as int),
            old(self).text().len() + s@.len() < usize::MAX,
            old(self).revision() < u64::MAX,
        ensures
            final(self).wf(),
            ({
                let (lo, hi) = insertion_range(old(cursor));
                &&& final(self).text() == old(self).text().subrange(0, lo as int) + s@
                    + old(self).text().subrange(hi as int, old(self).text().len() as int)
                &&& cursor_placed(old(cursor), final(cursor), lo + s@.len())
                &&& follows_change(old(self), final(self), Delta { start: lo, end: hi, new_len: s@.len() as usize })
            }),
            final(self).revision() == old(self).revision() + 1,
            final(self).style_cache() == Map::<usize, Vec<LineStyle>>::empty(),
            final(self).layout_cache() == Map::<usize, (Metrics, LineLayout)>::empty(),
            r is Some == (old(self).is_file() && old(self).has_syntax()),
            cursor_within(final(cursor), final(self).text().len() as int),
    {
        let ins = crate::buffer::chars_of(s);
        self.insert_chars(cursor, &ins)
    }

    /// Inserts the register's text at the cursor.
    pub fn do_paste(&mut self, cursor: &mut Cursor, data: &RegisterData) -> (r: Option<SyntaxRequest>)
        requires
            old(self).wf(),
            cursor_within(old(cursor), old(self).text().len() as int),
            old(self).text().len() + data.content@.len() < usize::MAX,
            old(self).revision() < u64::MAX,
        ensures
            final(self).wf(),
            ({
                let (lo, hi) = insertion_range(old(cursor));
                &&& final(self).text() == old(self).text().subrange(0, lo as int) + data.content@
                    + old(self).text().subrange(hi as int, old(self).text().len() as int)
                &&& cursor_placed(old(cursor), final(cursor), lo + data.content@.len())
                &&& follows_change(old(self), final(self), Delta { start: lo, end: hi, new_len: data.content@.len() as usize })
            }),
            final(self).revision() == old(self).revision() + 1,
            final(self).style_cache() == Map::<usize, Vec<LineStyle>>::empty(),
            final(self).layout_cache() == Map::<usize, (Metrics, LineLayout)>::empty(),
            r is Some == (old(self).is_file() && old(self).has_syntax()),
            cursor_within(final(cursor), final(self).text().len() as int),
    {
        self.insert_chars(cursor, &data.content)
    }
}

proof fn lemma_cursor_offset_within(c: &Cursor, len: int)
    requires
        cursor_within(c, len),
        len >= 0,
    ensures
        cursor_offset(c) <= len,
        insertion_range(c).0 <= insertion_range(c).1 <= len,
{
    if let CursorMode::Insert(sel) = c.mode {
        if sel@.len() > 0 {
            assert(sel@[sel@.len() - 1].start <= len);
        }
    }
}

} // verus!
