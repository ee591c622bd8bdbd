use jetem::grid::Grid;
use jetem::selection::{drag_step, DragState, PanelSelect, PointerStep, Selection};

#[test]
fn text_single_line() {
    let mut g = Grid::new(2, 10);
    for ch in "hello".chars() {
        g.print(ch);
    }
    let sel = Selection { pane: 0, anchor: (0, 0), head: (0, 4) };
    assert_eq!(sel.text(&g), "hello");
}

#[test]
fn text_multi_line_trims_trailing() {
    let mut g = Grid::new(3, 5);
    for ch in "ab".chars() {
        g.print(ch);
    }
    g.carriage_return();
    g.line_feed();
    for ch in "cd".chars() {
        g.print(ch);
    }
    let sel = Selection { pane: 0, anchor: (0, 0), head: (1, 1) };
    assert_eq!(sel.text(&g), "ab\ncd");
}

#[test]
fn normalizes_reversed_drag() {
    let sel = Selection { pane: 0, anchor: (1, 1), head: (0, 0) };
    assert!(sel.contains(0, 0));
    assert!(sel.contains(1, 1));
    assert!(!sel.contains(1, 2));
}

#[test]
fn reversed_drag_gives_the_same_text() {
    let mut g = Grid::new(2, 4);
    for ch in "abcdefg".chars() {
        g.print(ch);
    }
    let fwd = Selection { pane: 0, anchor: (0, 1), head: (1, 1) };
    let back = Selection { pane: 0, anchor: (1, 1), head: (0, 1) };
    assert_eq!(fwd.text(&g), "bcd\nef");
    assert_eq!(back.text(&g), "bcd\nef");
}

#[test]
fn selection_past_the_last_row_ends_with_a_newline() {
    let mut g = Grid::new(1, 3);
    for ch in "ab".chars() {
        g.print(ch);
    }
    let sel = Selection { pane: 0, anchor: (0, 0), head: (5, 0) };
    assert_eq!(sel.text(&g), "ab\n");
}

#[test]
fn new_and_set_head() {
    let mut sel = Selection::new(3, (2, 2));
    assert_eq!((sel.anchor, sel.head), ((2, 2), (2, 2)));
    sel.set_head((0, 1));
    assert_eq!(sel.normalized(), ((0, 1), (2, 2)));
    assert_eq!(sel.pane, 3);
}

#[test]
fn dragging_selects_within_one_pane() {
    let idle = DragState { selecting: false, selection: None };
    let (st, ps) = drag_step(idle, PointerStep::Press, false, None, Some((2, 1, 3)));
    assert_eq!(st, DragState { selecting: true, selection: Some(Selection::new(2, (1, 3))) });
    assert_eq!(ps, PanelSelect::Keep);
    let (st, _) = drag_step(st, PointerStep::Move, false, None, Some((2, 4, 0)));
    assert_eq!(st.selection.unwrap().head, (4, 0));
    assert_eq!(st.selection.unwrap().anchor, (1, 3));
    // Over another pane the head stays.
    let (st2, _) = drag_step(st, PointerStep::Move, false, None, Some((5, 0, 0)));
    assert_eq!(st2, st);
    let (st, _) = drag_step(st, PointerStep::Release, false, None, None);
    assert!(!st.selecting);
    // Moving without a held button changes nothing.
    assert_eq!(drag_step(st, PointerStep::Move, false, None, Some((2, 0, 0))).0, st);
    // Over a panel, the panel selects.
    assert_eq!(drag_step(idle, PointerStep::Press, true, Some((0, 2)), None).1, PanelSelect::Begin((0, 2)));
    let sel = DragState { selecting: true, selection: None };
    assert_eq!(drag_step(sel, PointerStep::Move, true, Some((1, 1)), None).1, PanelSelect::Extend((1, 1)));
}
