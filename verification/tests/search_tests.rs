use mdview::search::{SearchMatch, SearchState};
use mdview::style::{Line, Span};

fn line(t: &str) -> Line {
    Line::from_span(Span::raw(t.to_string()))
}

#[test]
fn search_is_case_insensitive_and_finds_every_occurrence() {
    let lines = vec![line("Hello hello"), line("nothing"), line("HELLO")];
    let mut s = SearchState::new();
    s.query = "hello".to_string();
    s.search(&lines);
    assert_eq!(
        s.matches,
        vec![
            SearchMatch { line_index: 0, byte_start: 0, byte_end: 5 },
            SearchMatch { line_index: 0, byte_start: 6, byte_end: 11 },
            SearchMatch { line_index: 2, byte_start: 0, byte_end: 5 },
        ]
    );
    assert_eq!(s.current_match, 0);
}

#[test]
fn overlapping_occurrences_are_all_found() {
    let lines = vec![line("aaaa")];
    let mut s = SearchState::new();
    s.query = "aa".to_string();
    assert!(s.search_checked(&lines));
    assert_eq!(s.matches.len(), 3);
}

#[test]
fn empty_query_finds_nothing() {
    let lines = vec![line("abc")];
    let mut s = SearchState::new();
    s.search(&lines);
    assert!(s.matches.is_empty());
    assert_eq!(s.match_info(), None);
}

#[test]
fn next_and_previous_wrap_around() {
    let lines = vec![line("x x x")];
    let mut s = SearchState::new();
    s.query = "x".to_string();
    s.search(&lines);
    assert_eq!(s.match_info(), Some("Match 1/3".to_string()));
    s.prev_match();
    assert_eq!(s.current_match, 2);
    s.next_match();
    assert_eq!(s.current_match, 0);
    s.next_match();
    s.next_match();
    assert_eq!(s.match_info(), Some("Match 3/3".to_string()));
    assert_eq!(s.current_line(), Some(0));
}

#[test]
fn next_then_previous_returns_to_the_same_match() {
    let lines = vec![line("ab ab"), line("ab")];
    let mut s = SearchState::new();
    s.query = "AB".to_string();
    s.search(&lines);
    s.next_match();
    let here = s.current_match;
    s.next_match();
    s.prev_match();
    assert_eq!(s.current_match, here);
    assert_eq!(s.current_line(), Some(0));
}

#[test]
fn clear_resets_everything() {
    let lines = vec![line("abc")];
    let mut s = SearchState::new();
    s.query = "b".to_string();
    s.active = true;
    s.search(&lines);
    s.clear();
    assert!(s.query.is_empty());
    assert!(s.matches.is_empty());
    assert_eq!(s.current_match, 0);
    assert!(!s.active);
    assert_eq!(s.current_line(), None);
}

#[test]
fn search_over_several_spans() {
    let l = Line::from_spans(vec![Span::raw("He".to_string()), Span::raw("llo".to_string())]);
    let mut s = SearchState::new();
    s.query = "ell".to_string();
    s.search(&[l]);
    assert_eq!(s.matches, vec![SearchMatch { line_index: 0, byte_start: 1, byte_end: 4 }]);
}

#[test]
fn non_ascii_query_finds_every_match() {
    let lines = vec![line("éé"), line("xÉy")];
    let mut s = SearchState::new();
    s.query = "é".to_string();
    assert!(s.search_checked(&lines));
    assert_eq!(
        s.matches,
        vec![
            SearchMatch { line_index: 0, byte_start: 0, byte_end: 2 },
            SearchMatch { line_index: 0, byte_start: 2, byte_end: 4 },
            SearchMatch { line_index: 1, byte_start: 1, byte_end: 3 },
        ]
    );
}
