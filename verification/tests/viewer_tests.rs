use mdview::search::{SearchMatch, SearchState};
use mdview::style::{Color, Line, Span, Style};
use mdview::ui::viewer::{apply_link_focus, apply_search_highlights, max_scroll, ViewerWidget};

fn texts(spans: &[Span]) -> Vec<String> {
    spans.iter().map(|s| s.content.clone()).collect()
}

#[test]
fn scroll_limit_is_what_does_not_fit() {
    assert_eq!(max_scroll(100, 24), 76);
    assert_eq!(max_scroll(10, 24), 0);
    assert_eq!(max_scroll(70_024, 24), 4464);
}

#[test]
fn hit_across_a_span_boundary() {
    let l = Line::from_spans(vec![
        Span::raw("Hello ".to_string()),
        Span::styled("world".to_string(), Style::plain().add_bold()),
    ]);
    let out = apply_search_highlights(&l, &vec![(6, 11, true)]).unwrap();
    assert_eq!(texts(&out), vec!["Hello ", "world"]);
    assert_eq!(out[1].style.bg, Some(Color::Yellow));
    assert_eq!(out[1].style.fg, Some(Color::Black));
    assert!(out[1].style.bold);
    assert_eq!(out[0].style.bg, None);
}

#[test]
fn hit_inside_a_span() {
    let l = Line::from_span(Span::raw("abcdef".to_string()));
    let out = apply_search_highlights(&l, &vec![(1, 3, false)]).unwrap();
    assert_eq!(texts(&out), vec!["a", "bc", "def"]);
    assert!(!out[1].style.bold);
    assert_eq!(out[1].style.bg, Some(Color::Yellow));
}

#[test]
fn overlapping_hits_never_repeat_text() {
    let l = Line::from_span(Span::raw("abcdef".to_string()));
    let out = apply_search_highlights(&l, &vec![(0, 4, false), (1, 2, true)]).unwrap();
    assert_eq!(texts(&out), vec!["abcd", "ef"]);
    let l = Line::from_span(Span::raw("aaa".to_string()));
    let out = apply_search_highlights(&l, &vec![(0, 2, true), (1, 3, false)]).unwrap();
    assert_eq!(texts(&out), vec!["aa", "a"]);
    assert!(out[0].style.bold);
    assert!(!out[1].style.bold);
    assert_eq!(out[1].style.bg, Some(Color::Yellow));
}

#[test]
fn hit_inside_a_character_cannot_be_drawn() {
    let l = Line::from_span(Span::raw("é".to_string()));
    assert!(apply_search_highlights(&l, &vec![(1, 2, false)]).is_none());
}

#[test]
fn focused_link_spans_change_style() {
    let l = Line::from_spans(vec![
        Span::raw("see ".to_string()),
        Span::styled("docs".to_string(), Style::plain().fg(Color::Blue).add_underlined()),
        Span::styled(" (u)".to_string(), Style::plain().fg(Color::DarkGray)),
    ]);
    let out = apply_link_focus(&l);
    assert_eq!(texts(&out), vec!["see ", "docs", " (u)"]);
    assert_eq!(out[0].style.bg, None);
    assert_eq!(out[1].style.bg, Some(Color::Blue));
    assert_eq!(out[1].style.fg, Some(Color::Black));
    assert!(out[1].style.bold);
    assert_eq!(out[2].style.bg, Some(Color::Blue));
}

#[test]
fn display_marks_hits_and_the_focused_link() {
    let lines = vec![
        Line::from_span(Span::raw("find me".to_string())),
        Line::from_span(Span::styled("link".to_string(), Style::plain().add_underlined())),
    ];
    let mut search = SearchState::new();
    search.query = "me".to_string();
    search.active = true;
    search.matches = vec![SearchMatch { line_index: 0, byte_start: 5, byte_end: 7 }];
    let idx = vec![1usize];
    let w = ViewerWidget::new(&lines, 0, &search, Some(0), &idx);
    let shown = w.display_lines().unwrap();
    assert_eq!(texts(&shown[0].spans), vec!["find ", "me"]);
    assert!(shown[0].spans[1].style.bold);
    assert_eq!(shown[1].spans[0].style.bg, Some(Color::Blue));
}

#[test]
fn inactive_search_draws_lines_as_they_are() {
    let lines = vec![Line::from_span(Span::raw("find me".to_string()))];
    let mut search = SearchState::new();
    search.query = "me".to_string();
    search.matches = vec![SearchMatch { line_index: 0, byte_start: 5, byte_end: 7 }];
    let w = ViewerWidget::new(&lines, 3, &search, None, &[]);
    let shown = w.display_lines().unwrap();
    assert_eq!(texts(&shown[0].spans), vec!["find me"]);
    assert_eq!(w.scroll_offset, 3);
}
