use lapce_data::cursor::{
    ColPosition, EditCommand, Cursor, CursorMode, LinePosition, Mode, MotionMode, Movement, Register,
    RegisterData, SelRegion, Selection,
};
use lapce_data::document::{BufferContent, Document};
use lapce_data::layout::Metrics;
use lapce_data::syntax::{Delta, LineStyle, StyleSpan, Syntax};

const M: Metrics = Metrics { tab_width: 4 };

fn doc(text: &str) -> Document {
    let mut d = Document::new(BufferContent::Local);
    d.load_content(text);
    d
}

fn mv(d: &Document, o: usize, m: Movement, mode: Mode) -> (usize, Option<ColPosition>) {
    d.move_offset(o, None, 1, &m, mode, M)
}

#[test]
fn match_pairs_with_matcher() {
    let mut d = doc("foo(bar)");
    d.set_syntax(Some(Syntax { rev: 1, styles: None, lens: vec![], pairs: vec![(3, 7)], tags: vec![] }));
    assert_eq!(mv(&d, 3, Movement::MatchPairs, Mode::Normal).0, 7);
    assert_eq!(mv(&d, 7, Movement::MatchPairs, Mode::Normal).0, 3);
}

#[test]
fn match_pairs_heuristic() {
    let d = doc("foo(bar)");
    assert_eq!(mv(&d, 3, Movement::MatchPairs, Mode::Normal), (7, None));
    assert_eq!(mv(&d, 7, Movement::MatchPairs, Mode::Normal), (3, None));
    assert_eq!(mv(&d, 1, Movement::MatchPairs, Mode::Normal), (1, None));
}

#[test]
fn match_pairs_nested() {
    let d = doc("a(b[c](d))e");
    assert_eq!(mv(&d, 1, Movement::MatchPairs, Mode::Normal).0, 9);
    assert_eq!(mv(&d, 9, Movement::MatchPairs, Mode::Normal).0, 1);
    assert_eq!(mv(&d, 3, Movement::MatchPairs, Mode::Normal).0, 5);
}

#[test]
fn word_end_forward_by_mode() {
    let d = doc("hello world");
    assert_eq!(mv(&d, 0, Movement::WordEndForward, Mode::Normal).0, 4);
    assert_eq!(mv(&d, 0, Movement::WordEndForward, Mode::Insert).0, 5);
}

#[test]
fn word_forward_and_backward() {
    let d = doc("hello world, again");
    assert_eq!(mv(&d, 0, Movement::WordForward, Mode::Normal).0, 6);
    assert_eq!(mv(&d, 6, Movement::WordForward, Mode::Normal).0, 11);
    assert_eq!(mv(&d, 11, Movement::WordForward, Mode::Normal).0, 13);
    assert_eq!(mv(&d, 13, Movement::WordBackward, Mode::Normal).0, 11);
    assert_eq!(mv(&d, 8, Movement::WordBackward, Mode::Normal).0, 6);
    assert_eq!(mv(&d, 0, Movement::WordBackward, Mode::Normal).0, 0);
}

#[test]
fn document_start_and_end() {
    let d = doc("ab\ncd");
    for o in 0..=5 {
        assert_eq!(mv(&d, o, Movement::DocumentStart, Mode::Normal), (0, Some(ColPosition::Start)));
        assert_eq!(mv(&d, o, Movement::DocumentEnd, Mode::Normal), (4, Some(ColPosition::End)));
        assert_eq!(mv(&d, o, Movement::DocumentEnd, Mode::Insert), (5, Some(ColPosition::End)));
    }
}

#[test]
fn left_right_clamp_to_line() {
    let d = doc("ab\ncd");
    assert_eq!(mv(&d, 3, Movement::Left, Mode::Normal), (3, None));
    assert_eq!(mv(&d, 3, Movement::Left, Mode::Insert), (2, None));
    assert_eq!(mv(&d, 1, Movement::Right, Mode::Normal), (1, None));
    assert_eq!(mv(&d, 1, Movement::Right, Mode::Insert), (2, None));
    assert_eq!(d.move_offset(4, None, 9, &Movement::Right, Mode::Insert, M).0, 5);
}

#[test]
fn left_then_right_round_trip() {
    let d = doc("abcdef\nxyz");
    for o in 2..=5 {
        let (l, h) = d.move_offset(o, None, 2, &Movement::Left, Mode::Normal, M);
        assert_eq!(l, o - 2);
        assert_eq!(d.move_offset(l, h, 2, &Movement::Right, Mode::Normal, M).0, o);
    }
}

#[test]
fn grapheme_clusters_step_as_one() {
    let d = doc("e\u{301}x");
    assert_eq!(mv(&d, 0, Movement::Right, Mode::Insert).0, 2);
    assert_eq!(mv(&d, 2, Movement::Left, Mode::Insert).0, 0);
    assert_eq!(mv(&d, 1, Movement::Offset(1), Mode::Normal).0, 0);
}

#[test]
fn vertical_hint_is_kept() {
    let d = doc("abcdef\nab\nabcdef");
    let (o1, h1) = mv(&d, 4, Movement::Down, Mode::Normal);
    assert_eq!(o1, 8);
    assert_eq!(h1, Some(ColPosition::Col(4)));
    let (o2, h2) = d.move_offset(o1, h1, 1, &Movement::Down, Mode::Normal, M);
    assert_eq!(o2, 14);
    assert_eq!(h2, Some(ColPosition::Col(4)));
    let (o3, h3) = d.move_offset(o2, h2, 2, &Movement::Up, Mode::Normal, M);
    assert_eq!(o3, 4);
    assert_eq!(h3, Some(ColPosition::Col(4)));
    let (_, h4) = d.move_offset(o3, h3, 1, &Movement::Right, Mode::Normal, M);
    assert_eq!(h4, None);
}

#[test]
fn tabs_widen_columns() {
    let d = doc("\tab\nxxxxxx");
    let (o, h) = mv(&d, 1, Movement::Down, Mode::Insert);
    assert_eq!(h, Some(ColPosition::Col(4)));
    assert_eq!(o, 8);
}

#[test]
fn line_motions() {
    let d = doc("  ab\ncd\nef");
    assert_eq!(mv(&d, 3, Movement::FirstNonBlank, Mode::Normal), (2, Some(ColPosition::FirstNonBlank)));
    assert_eq!(mv(&d, 3, Movement::StartOfLine, Mode::Normal), (0, Some(ColPosition::Start)));
    assert_eq!(mv(&d, 0, Movement::EndOfLine, Mode::Normal), (3, Some(ColPosition::End)));
    assert_eq!(mv(&d, 0, Movement::EndOfLine, Mode::Insert), (4, Some(ColPosition::End)));
    assert_eq!(
        d.move_offset(0, Some(ColPosition::Start), 1, &Movement::Line(LinePosition::Last), Mode::Normal, M),
        (8, Some(ColPosition::Start))
    );
    assert_eq!(
        d.move_offset(9, Some(ColPosition::Start), 1, &Movement::Line(LinePosition::Line(2)), Mode::Normal, M).0,
        5
    );
    assert_eq!(
        d.move_offset(9, Some(ColPosition::End), 1, &Movement::Line(LinePosition::Line(40)), Mode::Normal, M).0,
        9
    );
}

#[test]
fn crlf_line_end() {
    let d = doc("ab\r\ncd");
    assert_eq!(mv(&d, 0, Movement::EndOfLine, Mode::Insert).0, 2);
    assert_eq!(mv(&d, 0, Movement::EndOfLine, Mode::Normal).0, 1);
}

#[test]
fn unmatched_brackets() {
    let d = doc("(a [b] c)");
    assert_eq!(mv(&d, 2, Movement::NextUnmatched(')'), Mode::Normal).0, 8);
    assert_eq!(mv(&d, 7, Movement::PreviousUnmatched('('), Mode::Normal).0, 0);
    assert_eq!(mv(&d, 2, Movement::NextUnmatched('x'), Mode::Normal).0, 2);
}

#[test]
fn unmatched_with_matcher() {
    let mut d = doc("(a [b] c)");
    d.set_syntax(Some(Syntax { rev: 1, styles: None, lens: vec![], pairs: vec![], tags: vec![(0, '('), (8, ')')] }));
    assert_eq!(mv(&d, 2, Movement::NextUnmatched(')'), Mode::Normal).0, 8);
    assert_eq!(mv(&d, 7, Movement::PreviousUnmatched('('), Mode::Normal).0, 0);
}

#[test]
fn stale_syntax_is_dropped() {
    let mut d = Document::new(BufferContent::File("a.rs".to_string()));
    d.load_content("x");
    let rev = d.rev();
    assert!(!d.update_syntax(rev + 1, Syntax { rev: rev + 1, styles: None, lens: vec![], pairs: vec![], tags: vec![] }));
    assert!(d.syntax().is_none());
    assert!(d.update_syntax(rev, Syntax { rev, styles: None, lens: vec![], pairs: vec![], tags: vec![] }));
    assert!(d.syntax().is_some());
}

#[test]
fn reparse_requested_for_files_with_syntax() {
    let mut d = Document::new(BufferContent::File("a.rs".to_string()));
    assert!(d.load_content("x").is_none());
    d.set_syntax(Some(Syntax { rev: 0, styles: None, lens: vec![], pairs: vec![], tags: vec![] }));
    let q = d.load_content("yz").unwrap();
    assert_eq!(q.rev, d.rev());
    assert_eq!(q.text, vec!['y', 'z']);
    assert_eq!(q.path, "a.rs");
    let mut local = doc("x");
    local.set_syntax(Some(Syntax { rev: 0, styles: None, lens: vec![], pairs: vec![], tags: vec![] }));
    assert!(local.load_content("y").is_none());
}

#[test]
fn styles_recomputed_after_edit() {
    let mut d = doc("ab\ncdef");
    d.set_semantic_styles(Some(vec![StyleSpan { start: 4, end: 6, style: 7 }]));
    assert_eq!(d.line_style(1), vec![LineStyle { start: 1, end: 3, style: 7 }]);
    assert_eq!(d.line_style(0), vec![]);
    let mut c = Cursor::new(CursorMode::Normal(3));
    d.do_insert(&mut c, "zz");
    assert_eq!(d.line_style(1), vec![LineStyle { start: 3, end: 5, style: 7 }]);
}

#[test]
fn syntax_styles_yield_to_semantic() {
    let mut d = doc("abcd");
    d.set_syntax(Some(Syntax {
        rev: 1,
        styles: Some(vec![StyleSpan { start: 0, end: 1, style: 1 }]),
        lens: vec![],
        pairs: vec![],
        tags: vec![],
    }));
    assert_eq!(d.line_style(0), vec![LineStyle { start: 0, end: 1, style: 1 }]);
    d.set_semantic_styles(Some(vec![StyleSpan { start: 2, end: 3, style: 2 }]));
    d.set_syntax(Some(Syntax { rev: 2, styles: None, lens: vec![], pairs: vec![], tags: vec![] }));
    assert_eq!(d.line_style(0), vec![LineStyle { start: 2, end: 3, style: 2 }]);
}

#[test]
fn apply_deltas_shifts_spans() {
    let mut d = doc("abcdefghij");
    d.set_semantic_styles(Some(vec![
        StyleSpan { start: 0, end: 1, style: 1 },
        StyleSpan { start: 2, end: 4, style: 2 },
        StyleSpan { start: 4, end: 6, style: 3 },
    ]));
    d.apply_deltas(&vec![Delta { start: 3, end: 4, new_len: 3 }]);
    assert_eq!(
        d.line_style(0),
        vec![
            LineStyle { start: 0, end: 1, style: 1 },
            LineStyle { start: 2, end: 3, style: 2 },
            LineStyle { start: 6, end: 8, style: 3 },
        ]
    );
    assert!(d.apply_deltas(&vec![]).is_none());
    assert_eq!(d.line_style(0).len(), 3);
}

#[test]
fn delete_word_end_is_inclusive() {
    let mut d = doc("hello world");
    let mut c = Cursor::new(CursorMode::Normal(0));
    let mut reg = Register::new();
    d.do_motion_mode(&mut c, MotionMode::Delete, &mut reg);
    assert_eq!(c.motion_mode, Some(MotionMode::Delete));
    d.move_cursor(&mut c, &Movement::WordEndForward, 1, false, &mut reg, M);
    assert_eq!(d.buffer().chars(), " world".chars().collect::<Vec<_>>());
    assert_eq!(reg.unnamed.content, "hello".chars().collect::<Vec<_>>());
    assert_eq!(c.motion_mode, None);
    assert_eq!(c.offset(), 0);
}

#[test]
fn delete_down_takes_whole_lines() {
    let mut d = doc("ab\ncd\nef");
    let mut c = Cursor::new(CursorMode::Normal(1));
    let mut reg = Register::new();
    d.do_motion_mode(&mut c, MotionMode::Delete, &mut reg);
    d.move_cursor(&mut c, &Movement::Down, 1, false, &mut reg, M);
    assert_eq!(d.buffer().chars(), vec!['e', 'f']);
}

#[test]
fn yank_leaves_text() {
    let mut d = doc("hello world");
    let mut c = Cursor::new(CursorMode::Normal(6));
    let mut reg = Register::new();
    d.do_motion_mode(&mut c, MotionMode::Yank, &mut reg);
    d.move_cursor(&mut c, &Movement::EndOfLine, 1, false, &mut reg, M);
    assert_eq!(reg.unnamed.content, "world".chars().collect::<Vec<_>>());
    assert_eq!(d.buffer().chars().len(), 11);
}

#[test]
fn repeated_operator_is_zero_width() {
    let mut d = doc("abc");
    let mut c = Cursor::new(CursorMode::Normal(1));
    let mut reg = Register::new();
    let rev = d.rev();
    d.do_motion_mode(&mut c, MotionMode::Delete, &mut reg);
    d.do_motion_mode(&mut c, MotionMode::Delete, &mut reg);
    assert_eq!(d.buffer().chars(), vec!['a', 'b', 'c']);
    assert_eq!(d.rev(), rev + 1);
    assert_eq!(c.motion_mode, None);
    assert!(reg.unnamed.content.is_empty());
}

#[test]
fn visual_moves_only_end() {
    let mut d = doc("abcdef");
    let mut c = Cursor::new(CursorMode::Visual { start: 1, end: 2, mode: lapce_data::cursor::VisualMode::Normal });
    let mut reg = Register::new();
    d.move_cursor(&mut c, &Movement::Right, 2, false, &mut reg, M);
    match c.mode {
        CursorMode::Visual { start, end, .. } => {
            assert_eq!((start, end), (1, 4));
        }
        _ => panic!("mode changed"),
    }
}

#[test]
fn insert_moves_every_region() {
    let mut d = doc("abcdef");
    let mut sel = Selection::new();
    sel.add_region(SelRegion::new(4, 4, None));
    sel.add_region(SelRegion::new(1, 1, None));
    let mut c = Cursor::new(CursorMode::Insert(sel));
    let mut reg = Register::new();
    d.move_cursor(&mut c, &Movement::Right, 1, true, &mut reg, M);
    match &c.mode {
        CursorMode::Insert(s) => {
            assert_eq!(s.len(), 2);
            assert_eq!(s.region(0), SelRegion::new(4, 5, None));
            assert_eq!(s.region(1), SelRegion::new(1, 2, None));
        }
        _ => panic!("mode changed"),
    }
}

#[test]
fn insert_and_paste_at_cursor() {
    let mut d = doc("ad");
    let mut c = Cursor::new(CursorMode::Insert(Selection::caret(1)));
    d.do_insert(&mut c, "bc");
    assert_eq!(d.buffer().chars(), vec!['a', 'b', 'c', 'd']);
    assert_eq!(c.offset(), 3);
    d.do_paste(&mut c, &RegisterData { content: vec!['x'] });
    assert_eq!(d.buffer().chars(), vec!['a', 'b', 'c', 'x', 'd']);
    assert_eq!(c.offset(), 4);
}

#[test]
fn layout_positions() {
    let mut d = doc("a\tb\nc");
    assert_eq!(d.point_of_line_col(0, 2, M), 5);
    assert_eq!(d.point_of_line_col(0, 9, M), 6);
    assert_eq!(d.point_of_offset(4, M), 0);
    assert_eq!(d.line_horiz_col(0, M, ColPosition::Col(3), true), 1);
}

#[test]
fn empty_document_motions_stay_at_zero() {
    let d = doc("");
    for m in [
        Movement::Left,
        Movement::Right,
        Movement::Up,
        Movement::Down,
        Movement::DocumentEnd,
        Movement::EndOfLine,
        Movement::FirstNonBlank,
        Movement::WordForward,
        Movement::WordBackward,
        Movement::WordEndForward,
        Movement::MatchPairs,
        Movement::Offset(7),
        Movement::NextUnmatched(')'),
        Movement::PreviousUnmatched('('),
    ] {
        assert_eq!(mv(&d, 0, m, Mode::Normal).0, 0);
        assert_eq!(mv(&d, 0, m, Mode::Insert).0, 0);
    }
}

#[test]
fn offset_motion_is_one_based() {
    let d = doc("abc
def");
    assert_eq!(mv(&d, 0, Movement::Offset(5), Mode::Normal), (5, None));
    assert_eq!(mv(&d, 0, Movement::Offset(99), Mode::Normal), (7, None));
}

#[test]
fn edit_commands() {
    let mut d = doc("ab\u{301}c");
    let mut c = Cursor::new(CursorMode::Insert(Selection::caret(3)));
    d.do_edit(&mut c, &EditCommand::DeleteBackward);
    assert_eq!(d.buffer().chars(), vec!['a', 'c']);
    assert_eq!(c.offset(), 1);
    d.do_edit(&mut c, &EditCommand::InsertNewLine);
    assert_eq!(d.buffer().chars(), vec!['a', '\n', 'c']);
    assert_eq!(c.offset(), 2);
    d.do_edit(&mut c, &EditCommand::DeleteForward);
    assert_eq!(d.buffer().chars(), vec!['a', '\n']);
    let mut sel = Selection::new();
    sel.add_region(SelRegion::new(2, 0, None));
    let mut c2 = Cursor::new(CursorMode::Insert(sel));
    d.do_edit(&mut c2, &EditCommand::DeleteForward);
    assert!(d.buffer().chars().is_empty());
    d.do_edit(&mut c2, &EditCommand::DeleteBackward);
    assert!(d.buffer().chars().is_empty());
}

#[test]
fn right_in_visual_stops_on_last_char() {
    let d = doc("ab");
    assert_eq!(mv(&d, 1, Movement::Right, Mode::Visual), (1, None));
    assert_eq!(mv(&d, 0, Movement::Right, Mode::Visual), (1, None));
    assert_eq!(mv(&d, 1, Movement::Right, Mode::Insert), (2, None));
}

#[test]
fn layout_cache_keeps_first_measure() {
    let mut d = doc("\tx");
    assert_eq!(d.point_of_line_col(0, 1, M), 4);
    assert_eq!(d.point_of_line_col(0, 1, Metrics { tab_width: 1 }), 4);
    let mut c = Cursor::new(CursorMode::Normal(2));
    d.do_insert(&mut c, "y");
    assert_eq!(d.point_of_line_col(0, 1, Metrics { tab_width: 1 }), 1);
}

#[test]
fn first_non_blank_hint_on_blank_line() {
    let d = doc("  \nab");
    assert_eq!(d.line_horiz_col(0, M, ColPosition::FirstNonBlank, false), 1);
    assert_eq!(d.line_horiz_col(0, M, ColPosition::FirstNonBlank, true), 2);
    assert_eq!(d.line_horiz_col(1, M, ColPosition::FirstNonBlank, false), 0);
}

#[test]
fn layout_carries_line_styles() {
    let mut d = doc("ab\ncdef");
    d.set_semantic_styles(Some(vec![StyleSpan { start: 4, end: 6, style: 7 }]));
    let layout = d.get_text_layout(1, M);
    assert_eq!(layout.line_styles(), vec![LineStyle { start: 1, end: 3, style: 7 }]);
}

#[test]
fn lens_moves_with_edits() {
    let mut d = doc("abcdef");
    d.set_syntax(Some(Syntax {
        rev: 1,
        styles: None,
        lens: vec![StyleSpan { start: 4, end: 6, style: 2 }],
        pairs: vec![],
        tags: vec![],
    }));
    let mut c = Cursor::new(CursorMode::Normal(1));
    d.do_insert(&mut c, "xy");
    assert_eq!(d.syntax().unwrap().lens, vec![StyleSpan { start: 6, end: 8, style: 2 }]);
}

#[test]
fn span_split_by_deletion() {
    let mut d = doc("abcdefgh");
    d.set_semantic_styles(Some(vec![StyleSpan { start: 1, end: 7, style: 5 }]));
    let mut sel = Selection::new();
    sel.add_region(SelRegion::new(3, 5, None));
    let mut c = Cursor::new(CursorMode::Insert(sel));
    d.do_edit(&mut c, &EditCommand::DeleteForward);
    assert_eq!(
        d.line_style(0),
        vec![LineStyle { start: 1, end: 3, style: 5 }, LineStyle { start: 3, end: 5, style: 5 }]
    );
}
