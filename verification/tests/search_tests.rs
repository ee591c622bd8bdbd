use jetem::search::{occurrences, Match, Search};

fn lines() -> Vec<String> {
    ["error: file not found", "compiling file.rs", "done"].iter().map(|s| s.to_string()).collect()
}

fn search_for(q: &str, ls: &[String]) -> Search {
    let mut s = Search::new();
    for c in q.chars() {
        s.on_char(c, ls);
    }
    s
}

#[test]
fn finds_all_case_insensitive() {
    let s = search_for("FILE", &lines());
    assert_eq!(s.counts(), (1, 2));
    assert_eq!(s.current_match(), Some(Match { line: 0, col: 7, len: 4 }));
}

#[test]
fn multiple_hits_on_one_line() {
    let ls = vec!["ababab".to_string()];
    let s = search_for("ab", &ls);
    assert_eq!(s.counts(), (1, 3));
}

#[test]
fn step_wraps_both_ways() {
    let mut s = search_for("file", &lines());
    assert_eq!(s.step(1).map(|m| m.line), Some(1));
    assert_eq!(s.step(1).map(|m| m.line), Some(0));
    assert_eq!(s.step(-1).map(|m| m.line), Some(1));
}

#[test]
fn hit_flags_current_match() {
    let s = search_for("file", &lines());
    assert_eq!(s.hit(0, 7), Some(true));
    assert_eq!(s.hit(0, 10), Some(true));
    assert_eq!(s.hit(0, 11), None);
    assert_eq!(s.hit(1, 10), Some(false));
}

#[test]
fn empty_query_has_no_matches() {
    let mut s = Search::new();
    s.on_char('x', &lines());
    s.on_backspace(&lines());
    assert_eq!(s.counts(), (0, 0));
    assert_eq!(s.current_match(), None);
}

#[test]
fn matches_do_not_overlap() {
    let ls = vec!["aaaa".to_string()];
    let s = search_for("aa", &ls);
    assert_eq!(s.counts(), (1, 2));
    assert_eq!(s.hit(0, 2), Some(false));
}

#[test]
fn typing_more_keeps_the_selection_near() {
    let ls: Vec<String> = ["ab", "xx", "abc"].iter().map(|s| s.to_string()).collect();
    let mut s = search_for("ab", &ls);
    s.step(1);
    assert_eq!(s.current_match().map(|m| m.line), Some(2));
    s.on_char('c', &ls);
    assert_eq!(s.current_match(), Some(Match { line: 2, col: 0, len: 3 }));
    assert_eq!(s.query(), "abc");
}

#[test]
fn step_by_large_deltas_wraps() {
    let mut s = search_for("file", &lines());
    assert_eq!(s.step(5).map(|m| m.line), Some(1));
    assert_eq!(s.step(-7).map(|m| m.line), Some(0));
    assert_eq!(Search::new().step(1), None);
}

#[test]
fn occurrences_do_not_overlap() {
    let hay: Vec<char> = "aaaa baab aa".chars().collect();
    let q: Vec<char> = "aa".chars().collect();
    assert_eq!(occurrences(&hay, &q), vec![0, 2, 6, 10]);
    assert_eq!(occurrences(&hay, &[]), Vec::<usize>::new());
    assert_eq!(occurrences(&q, &hay), Vec::<usize>::new());
}

#[test]
fn search_backspace_undoes_typing() {
    let l = lines();
    let mut s = Search::new();
    s.on_char('f', &l);
    let (q, n) = (s.query().to_string(), s.counts().1);
    s.on_char('i', &l);
    s.on_backspace(&l);
    assert_eq!(s.query(), q);
    assert_eq!(s.counts().1, n);
    s.on_backspace(&l);
    s.on_char('x', &l);
    s.on_backspace(&l);
    assert_eq!(s.counts(), (0, 0));
    assert_eq!(s.current_match(), None);
}
