use jetem::layout::{Layout, PaneId, SplitDir};
use jetem::pane::Rect;

fn rects(layout: &Layout, w: usize, h: usize) -> Vec<(PaneId, Rect)> {
    let mut out = Vec::new();
    layout.compute_rects(Rect::new(0, 0, w, h), 0, &mut out);
    out
}

#[test]
fn single_leaf_fills_area() {
    let l = Layout::Leaf(7);
    assert_eq!(rects(&l, 100, 50), vec![(7, Rect::new(0, 0, 100, 50))]);
}

#[test]
fn left_right_split_divides_width() {
    let l = Layout::Leaf(0).split(0, SplitDir::LeftRight, 1);
    let r = rects(&l, 100, 50);
    assert_eq!(r[0], (0, Rect::new(0, 0, 50, 50)));
    assert_eq!(r[1], (1, Rect::new(50, 0, 50, 50)));
}

#[test]
fn top_bottom_split_divides_height() {
    let l = Layout::Leaf(0).split(0, SplitDir::TopBottom, 1);
    let r = rects(&l, 100, 80);
    assert_eq!(r[0], (0, Rect::new(0, 0, 100, 40)));
    assert_eq!(r[1], (1, Rect::new(0, 40, 100, 40)));
}

#[test]
fn nested_split_three_panes() {
    let l = Layout::Leaf(0).split(0, SplitDir::LeftRight, 1).split(1, SplitDir::TopBottom, 2);
    let ids: Vec<PaneId> = rects(&l, 100, 100).into_iter().map(|(id, _)| id).collect();
    assert_eq!(ids, vec![0, 1, 2]);
}

#[test]
fn remove_collapses_to_sibling() {
    let l = Layout::Leaf(0).split(0, SplitDir::LeftRight, 1);
    let l = l.remove(0).unwrap();
    assert_eq!(rects(&l, 100, 50), vec![(1, Rect::new(0, 0, 100, 50))]);
}

#[test]
fn remove_last_leaf_is_none() {
    let l = Layout::Leaf(0);
    assert!(l.remove(0).is_none());
}

#[test]
fn gap_is_left_between_siblings() {
    let l = Layout::Leaf(0).split(0, SplitDir::LeftRight, 1);
    let mut out = Vec::new();
    l.compute_rects(Rect::new(0, 0, 101, 50), 1, &mut out);
    assert_eq!(out[0].1, Rect::new(0, 0, 50, 50));
    assert_eq!(out[1].1, Rect::new(51, 0, 50, 50));
}

#[test]
fn odd_width_gives_the_extra_pixel_to_the_second_pane() {
    let l = Layout::Leaf(0).split(0, SplitDir::LeftRight, 1);
    let r = rects(&l, 101, 10);
    assert_eq!(r[0].1, Rect::new(0, 0, 50, 10));
    assert_eq!(r[1].1, Rect::new(50, 0, 51, 10));
}

#[test]
fn split_of_an_absent_pane_changes_nothing() {
    let l = Layout::Leaf(0).split(5, SplitDir::LeftRight, 1);
    assert_eq!(rects(&l, 10, 10), vec![(0, Rect::new(0, 0, 10, 10))]);
}

#[test]
fn grid_size_is_at_least_one_cell() {
    assert_eq!(Rect::new(0, 0, 5, 5).grid_size(8, 16), (1, 1));
    assert_eq!(Rect::new(0, 0, 100, 48).grid_size(10, 16), (3, 10));
}

#[test]
fn nested_rects_stay_inside_and_do_not_overlap() {
    let l = Layout::Leaf(0)
        .split(0, SplitDir::LeftRight, 1)
        .split(1, SplitDir::TopBottom, 2)
        .split(0, SplitDir::TopBottom, 3);
    let area = Rect::new(10, 20, 301, 199);
    let mut out = Vec::new();
    l.compute_rects(area, 3, &mut out);
    assert_eq!(out.len(), 4);
    for (_, r) in &out {
        assert!(r.x >= area.x && r.y >= area.y);
        assert!(r.x + r.w <= area.x + area.w && r.y + r.h <= area.y + area.h);
    }
    for i in 0..out.len() {
        for j in i + 1..out.len() {
            let (a, b) = (out[i].1, out[j].1);
            let apart = a.x + a.w <= b.x || b.x + b.w <= a.x || a.y + a.h <= b.y || b.y + b.h <= a.y;
            assert!(apart, "{:?} overlaps {:?}", a, b);
        }
    }
}

#[test]
fn closing_a_fresh_split_restores_the_layout() {
    let l = Layout::Leaf(0).split(0, SplitDir::LeftRight, 1).split(1, SplitDir::TopBottom, 2);
    let before = rects(&l, 300, 200);
    let again = l.split(2, SplitDir::LeftRight, 9).remove(9).expect("panes remain");
    assert_eq!(rects(&again, 300, 200), before);
}
