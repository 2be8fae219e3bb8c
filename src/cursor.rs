use vstd::prelude::*;

verus! {

/// A remembered horizontal target for vertical motions.
#[derive(Clone, Copy, PartialEq, Eq, Structural, Debug)]
pub enum ColPosition {
    /// A horizontal position on the measured line.
    Col(usize),
    End,
    Start,
    FirstNonBlank,
}

/// The target of a `Line` motion.
#[derive(Clone, Copy, PartialEq, Eq, Structural, Debug)]
pub enum LinePosition {
    First,
    Last,
    /// A line counted from 1.
    Line(usize),
}

/// A cursor motion.
#[derive(Clone, Copy, PartialEq, Eq, Structural, Debug)]
pub enum Movement {
    Left,
    Right,
    Up,
    Down,
    DocumentStart,
    DocumentEnd,
    FirstNonBlank,
    StartOfLine,
    EndOfLine,
    Line(LinePosition),
    /// An offset counted from 1.
    Offset(usize),
    WordEndForward,
    WordForward,
    WordBackward,
    NextUnmatched(char),
    PreviousUnmatched(char),
    MatchPairs,
}

impl Movement {
    /// Whether the motion moves between lines and keeps the horizontal hint.
    pub open spec fn spec_is_vertical(&self) -> bool {
        self is Up || self is Down || self is Line
    }

    /// Whether the motion moves between lines and keeps the horizontal hint.
    pub fn is_vertical(&self) -> (r: bool)
        ensures
            r == self.spec_is_vertical(),
    {
        match self {
            Movement::Up | Movement::Down | Movement::Line(_) => true,
            _ => false,
        }
    }
}

/// The editing mode a motion is resolved in.
#[derive(Clone, Copy, PartialEq, Eq, Structural, Debug)]
pub enum Mode {
    Normal,
    Insert,
    Visual,
}

/// The kind of a visual selection.
#[derive(Clone, Copy, PartialEq, Eq, Structural, Debug)]
pub enum VisualMode {
    Normal,
    Linewise,
    Blockwise,
}

/// An editing command.
#[derive(Clone, Copy, PartialEq, Eq, Structural, Debug)]
pub enum EditCommand {
    InsertNewLine,
    /// Removes the selected text, or the grapheme before the cursor.
    DeleteBackward,
    /// Removes the selected text, or the grapheme after the cursor.
    DeleteForward,
}

/// An operator that waits for a motion to give it a range.
#[derive(Clone, Copy, PartialEq, Eq, Structural, Debug)]
pub enum MotionMode {
    Delete,
    Yank,
}

/// One region of a selection: an anchor, a moving end and its hint.
#[derive(Clone, Copy, PartialEq, Eq, Structural, Debug)]
pub struct SelRegion {
    pub start: usize,
    pub end: usize,
    pub horiz: Option<ColPosition>,
}

impl SelRegion {
    /// A region from `start` to `end`.
    pub fn new(start: usize, end: usize, horiz: Option<ColPosition>) -> (r: SelRegion)
        ensures
            r == (SelRegion { start, end, horiz }),
    {
        SelRegion { start, end, horiz }
    }
}

/// Regions in the order in which they were added.
pub struct Selection {
    regions: Vec<SelRegion>,
}

impl View for Selection {
    type V = Seq<SelRegion>;

    closed spec fn view(&self) -> Seq<SelRegion> {
        self.regions@
    }
}

impl Selection {
    /// A selection without regions.
    pub fn new() -> (r: Selection)
        ensures
            r@ == Seq::<SelRegion>::empty(),
    {
        Selection { regions: Vec::new() }
    }

    /// A selection of one caret at `o`.
    pub fn caret(o: usize) -> (r: Selection)
        ensures
            r@ == seq![SelRegion { start: o, end: o, horiz: None }],
    {
        let mut regions: Vec<SelRegion> = Vec::new();
        regions.push(SelRegion { start: o, end: o, horiz: None });
        Selection { regions }
    }

    /// Adds `r` after the regions already there.
    pub fn add_region(&mut self, r: SelRegion)
        ensures
            final(self)@ == old(self)@.push(r),
    {
        self.regions.push(r);
    }

    /// The number of regions.
    pub fn len(&self) -> (r: usize)
        ensures
            r == self@.len(),
    {
        self.regions.len()
    }

    /// The region at `i`.
    pub fn region(&self, i: usize) -> (r: SelRegion)
        requires
            i < self@.len(),
        ensures
            r == self@[i as int],
    {
        self.regions[i]
    }
}

/// Where the cursor is, by mode.
pub enum CursorMode {
    Normal(usize),
    Visual { start: usize, end: usize, mode: VisualMode },
    Insert(Selection),
}

/// A cursor: its mode and place, the hint kept across vertical motions and
/// an operator waiting for a motion.
pub struct Cursor {
    pub mode: CursorMode,
    pub horiz: Option<ColPosition>,
    pub motion_mode: Option<MotionMode>,
}

/// Every offset the cursor holds is at most `len`.
pub open spec fn cursor_within(c: &Cursor, len: int) -> bool {
    match c.mode {
        CursorMode::Normal(o) => o <= len,
        CursorMode::Visual { start, end, mode } => start <= len && end <= len,
        CursorMode::Insert(sel) => forall|i: int|
            0 <= i < sel@.len() ==> #[trigger] sel@[i].start <= len && sel@[i].end <= len,
    }
}

/// The offset that stands for the cursor: the last region's end in a
/// selection.
pub open spec fn cursor_offset(c: &Cursor) -> usize {
    match c.mode {
        CursorMode::Normal(o) => o,
        CursorMode::Visual { start, end, mode } => end,
        CursorMode::Insert(sel) => if sel@.len() > 0 {
            sel@.last().end
        } else {
            0
        },
    }
}

impl Cursor {
    /// The selection of an Insert cursor; empty in other modes.
    pub open spec fn selection_of(&self) -> Seq<SelRegion> {
        match self.mode {
            CursorMode::Insert(sel) => sel@,
            _ => Seq::empty(),
        }
    }

    /// The offset that stands for the cursor.
    pub fn offset(&self) -> (r: usize)
        ensures
            r == cursor_offset(self),
    {
        match &self.mode {
            CursorMode::Normal(o) => *o,
            CursorMode::Visual { start, end, mode } => *end,
            CursorMode::Insert(sel) => if sel.len() > 0 {
                sel.region(sel.len() - 1).end
            } else {
                0
            },
        }
    }

    /// A cursor in `mode`, with no hint and no pending operator.
    pub fn new(mode: CursorMode) -> (r: Cursor)
        ensures
            r.mode == mode,
            r.horiz is None,
            r.motion_mode is None,
    {
        Cursor { mode, horiz: None, motion_mode: None }
    }
}

/// Text held by a register.
pub struct RegisterData {
    pub content: Vec<char>,
}

/// The register that operators yank into and paste from.
pub struct Register {
    pub unnamed: RegisterData,
}

impl Register {
    /// An empty register.
    pub fn new() -> (r: Register)
        ensures
            r.unnamed.content@ == Seq::<char>::empty(),
    {
        Register { unnamed: RegisterData { content: Vec::new() } }
    }
}

} // verus!
