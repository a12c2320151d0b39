use mdview::app::{App, AppAction, InputSource, KeyInput, Mode, MouseInput};
use mdview::markdown::highlight::HighlightResult;
use mdview::style::{Line, Span};
use mdview::theme::Theme;
use mdview::ui::file_picker::{DirItem, FilePicker};

fn text_of(l: &Line) -> String {
    l.spans.iter().map(|s| s.content.as_str()).collect()
}

fn long_doc() -> String {
    let mut s = String::new();
    for i in 0..100 {
        s.push_str(&format!("p{i}\n\n"));
    }
    s
}

fn viewer_with(doc: &str) -> App {
    let mut app = App::new(InputSource::Stdin, Theme::detect(None), String::new(), Vec::new());
    app.load_content(doc, "<stdin>", 80).unwrap();
    app.set_viewport(26);
    app
}

fn key(app: &mut App, k: KeyInput) -> AppAction {
    app.handle_key(k).unwrap()
}

#[test]
fn new_app_starts_on_the_right_screen() {
    let items = vec![DirItem { name: "x.md".to_string(), is_dir: Some(false) }];
    let a = App::new(InputSource::Picker, Theme::detect(None), "/w".to_string(), items);
    assert_eq!(a.mode, Mode::FilePicker);
    let p = a.file_picker.as_ref().unwrap();
    assert_eq!(p.current_dir, "/w");
    assert_eq!(p.entries.len(), 2);
    assert_eq!(p.selected, Some(0));
    let b = App::new(InputSource::Stdin, Theme::detect(None), String::new(), Vec::new());
    assert_eq!(b.mode, Mode::Viewer);
    assert!(b.table_wrap);
    assert!(b.file_picker.is_none());
    assert_eq!(b.viewport_height, 24);
}

#[test]
fn loading_content_fills_the_document() {
    let app = viewer_with("# T\n\ntext here\n");
    assert_eq!(app.lines.len(), 5);
    assert_eq!(text_of(&app.lines[3]), "text here");
    assert_eq!(app.word_count, 3);
    assert_eq!(app.filename, "<stdin>");
}

#[test]
fn scroll_keys_move_within_the_document() {
    let mut app = viewer_with(&long_doc());
    assert_eq!(app.viewport_height, 24);
    assert_eq!(app.max_scroll(), 176);
    key(&mut app, KeyInput::Char('j'));
    assert_eq!(app.scroll_offset, 1);
    key(&mut app, KeyInput::PageDown);
    assert_eq!(app.scroll_offset, 13);
    key(&mut app, KeyInput::End);
    assert_eq!(app.scroll_offset, 176);
    assert_eq!(app.scroll_percent(), 100);
    key(&mut app, KeyInput::Down);
    assert_eq!(app.scroll_offset, 176);
    key(&mut app, KeyInput::Char('u'));
    assert_eq!(app.scroll_offset, 164);
    key(&mut app, KeyInput::Home);
    assert_eq!(app.scroll_offset, 0);
    key(&mut app, KeyInput::Up);
    assert_eq!(app.scroll_offset, 0);
    assert_eq!(app.scroll_percent(), 0);
}

#[test]
fn search_flow() {
    let mut app = viewer_with(&long_doc());
    key(&mut app, KeyInput::Char('/'));
    assert_eq!(app.mode, Mode::Search);
    assert!(app.search.active);
    for c in ['p', '5', '0'] {
        key(&mut app, KeyInput::Char(c));
    }
    assert_eq!(app.search.query, "p50");
    assert_eq!(app.search.matches.len(), 1);
    assert_eq!(app.search.matches[0].line_index, 100);
    key(&mut app, KeyInput::Backspace);
    assert_eq!(app.search.query, "p5");
    assert_eq!(app.search.matches.len(), 11);
    key(&mut app, KeyInput::Enter);
    assert_eq!(app.mode, Mode::Viewer);
    assert!(app.search.active);
    assert_eq!(app.search.current_line(), Some(10));
    key(&mut app, KeyInput::Char('n'));
    assert_eq!(app.search.current_match, 1);
    assert_eq!(app.search.current_line(), Some(100));
    assert_eq!(app.scroll_offset, 88);
    key(&mut app, KeyInput::Char('N'));
    assert_eq!(app.search.current_match, 0);
    assert_eq!(app.scroll_offset, 0);
}

#[test]
fn cancelling_the_search_clears_it() {
    let mut app = viewer_with(&long_doc());
    key(&mut app, KeyInput::Char('/'));
    key(&mut app, KeyInput::Char('p'));
    key(&mut app, KeyInput::Esc);
    assert_eq!(app.mode, Mode::Viewer);
    assert!(app.search.query.is_empty());
    assert!(app.search.matches.is_empty());
    assert!(!app.search.active);
}

#[test]
fn confirming_an_empty_search_deactivates_it() {
    let mut app = viewer_with("abc\n");
    key(&mut app, KeyInput::Char('/'));
    key(&mut app, KeyInput::Enter);
    assert!(!app.search.active);
    assert_eq!(app.mode, Mode::Viewer);
}

#[test]
fn links_cycle_and_open() {
    let mut app = viewer_with("[a](http://a)\n\n[b](http://b)\n");
    assert_eq!(app.link_line_indices(), vec![0, 2]);
    assert_eq!(key(&mut app, KeyInput::Tab), AppAction::Nothing);
    assert_eq!(app.focused_link, Some(0));
    key(&mut app, KeyInput::Tab);
    assert_eq!(app.focused_link, Some(1));
    key(&mut app, KeyInput::Tab);
    assert_eq!(app.focused_link, Some(0));
    key(&mut app, KeyInput::BackTab);
    assert_eq!(app.focused_link, Some(1));
    assert_eq!(key(&mut app, KeyInput::Enter), AppAction::OpenUrl("http://b".to_string()));
}

#[test]
fn wrap_toggles() {
    let mut app = viewer_with("x\n");
    key(&mut app, KeyInput::Char('w'));
    assert!(!app.table_wrap);
    key(&mut app, KeyInput::Char('w'));
    assert!(app.table_wrap);
}

#[test]
fn quitting_from_piped_input() {
    let mut app = viewer_with("x\n");
    key(&mut app, KeyInput::Char('q'));
    assert!(app.should_quit);
}

#[test]
fn quitting_the_document_from_the_picker_goes_back_to_the_list() {
    let mut app = App::new(InputSource::Picker, Theme::detect(None), String::new(), Vec::new());
    app.attach_picker(FilePicker::new("/d".to_string(), Vec::new()));
    app.open_picked_file("/d/a.md", Ok("hi\n".to_string())).unwrap();
    assert_eq!(app.mode, Mode::Viewer);
    assert_eq!(app.current_file, Some("/d/a.md".to_string()));
    assert_eq!(app.filename, "a.md");
    key(&mut app, KeyInput::Esc);
    assert_eq!(app.mode, Mode::FilePicker);
    assert_eq!(app.current_file, None);
    assert!(!app.should_quit);
}

#[test]
fn error_is_dismissed_first() {
    let mut app = App::new(InputSource::FileArg("x.md".to_string()), Theme::detect(None), String::new(), Vec::new());
    app.error_message = Some("bad".to_string());
    assert_eq!(key(&mut app, KeyInput::Char('j')), AppAction::Nothing);
    assert!(app.error_message.is_none());
    assert!(app.should_quit);

    let mut app = App::new(InputSource::Picker, Theme::detect(None), String::new(), Vec::new());
    app.mode = Mode::Viewer;
    app.error_message = Some("bad".to_string());
    assert_eq!(key(&mut app, KeyInput::Char('j')), AppAction::Nothing);
    assert_eq!(app.mode, Mode::FilePicker);

    let mut app = App::new(InputSource::Picker, Theme::detect(None), String::new(), Vec::new());
    app.file_picker = None;
    app.mode = Mode::Viewer;
    app.error_message = Some("bad".to_string());
    assert_eq!(key(&mut app, KeyInput::Char('j')), AppAction::NewPicker);
    assert_eq!(app.mode, Mode::FilePicker);
}

#[test]
fn picker_keys_and_opening() {
    let mut app = App::new(InputSource::Picker, Theme::detect(None), String::new(), Vec::new());
    let items = vec![
        DirItem { name: "b.md".to_string(), is_dir: Some(false) },
        DirItem { name: "sub".to_string(), is_dir: Some(true) },
    ];
    app.attach_picker(FilePicker::new("/d".to_string(), items));
    key(&mut app, KeyInput::Char('j'));
    assert_eq!(app.file_picker.as_ref().unwrap().selected, Some(1));
    assert_eq!(key(&mut app, KeyInput::Enter), AppAction::ListDir("/d/sub".to_string()));
    app.dir_listed("/d/sub".to_string(), vec![DirItem { name: "c.md".to_string(), is_dir: Some(false) }]);
    assert_eq!(app.file_picker.as_ref().unwrap().entries.len(), 2);
    key(&mut app, KeyInput::End);
    assert_eq!(key(&mut app, KeyInput::Enter), AppAction::OpenFile("/d/sub/c.md".to_string()));
    app.open_picked_file("/d/sub/c.md", Err("boom".to_string())).unwrap();
    assert_eq!(app.error_message, Some("Failed to open file: boom".to_string()));
    key(&mut app, KeyInput::Char('q'));
    assert!(!app.should_quit);
    key(&mut app, KeyInput::Char('q'));
    assert!(app.should_quit);
}

#[test]
fn mouse_wheel_and_clicks() {
    let mut app = viewer_with(&long_doc());
    app.handle_mouse(MouseInput::ScrollDown).unwrap();
    assert_eq!(app.scroll_offset, 3);
    app.handle_mouse(MouseInput::ScrollUp).unwrap();
    assert_eq!(app.scroll_offset, 0);

    let mut app = viewer_with("[a](http://a)\n\n[b](http://b)\n");
    assert_eq!(app.handle_mouse(MouseInput::Down(2)).unwrap(), AppAction::OpenUrl("http://b".to_string()));
    assert_eq!(app.focused_link, Some(1));
    assert_eq!(app.handle_mouse(MouseInput::Down(1)).unwrap(), AppAction::Nothing);
}

#[test]
fn highlighted_lines_replace_the_placeholder() {
    let mut app = viewer_with("```\na\n```\n\n[l](u)\n");
    let before = app.lines.len();
    let link_line = app.links[0].line_index;
    let new_lines = vec![
        Line::from_span(Span::raw("top".to_string())),
        Line::from_span(Span::raw("mid".to_string())),
        Line::from_span(Span::raw("bottom".to_string())),
    ];
    assert!(app.apply_highlight(HighlightResult { block_id: 0, lines: new_lines }));
    assert_eq!(app.lines.len(), before);
    assert_eq!(text_of(&app.lines[1]), "mid");
    assert_eq!(app.links[0].line_index, link_line);

    let longer = vec![
        Line::from_span(Span::raw("1".to_string())),
        Line::from_span(Span::raw("2".to_string())),
        Line::from_span(Span::raw("3".to_string())),
        Line::from_span(Span::raw("4".to_string())),
    ];
    assert!(app.apply_highlight(HighlightResult { block_id: 0, lines: longer }));
    assert_eq!(app.lines.len(), before + 1);
    assert_eq!(app.links[0].line_index, link_line + 1);
}

#[test]
fn reload_errors_are_shown_and_scroll_is_kept_in_range() {
    let mut app = App::new(InputSource::FileArg("/d/f.md".to_string()), Theme::detect(None), String::new(), Vec::new());
    app.load_initial(Ok(long_doc()), 80).unwrap();
    app.set_viewport(26);
    assert_eq!(app.current_file, Some("/d/f.md".to_string()));
    key(&mut app, KeyInput::End);
    app.file_changed(Ok("short\n".to_string()), 80).unwrap();
    assert_eq!(app.scroll_offset, 0);
    app.file_changed(Err("gone".to_string()), 80).unwrap();
    assert_eq!(app.error_message, Some("Reload failed: gone".to_string()));
}

#[test]
fn first_file_read_error_is_shown() {
    let mut app = App::new(InputSource::FileArg("/d/f.md".to_string()), Theme::detect(None), String::new(), Vec::new());
    app.load_initial(Err("No such file".to_string()), 80).unwrap();
    assert_eq!(app.error_message, Some("No such file".to_string()));
}

#[test]
fn highlight_for_an_unknown_block_changes_nothing() {
    let mut app = viewer_with("```\na\n```\n");
    let before = app.lines.len();
    assert!(app.apply_highlight(HighlightResult { block_id: 7, lines: Vec::new() }));
    assert_eq!(app.lines.len(), before);
}

#[test]
fn highlight_of_a_block_past_the_document_is_refused() {
    let mut app = viewer_with("```\na\n```\n");
    app.code_blocks[0].start_line = 100;
    app.code_blocks[0].end_line = 103;
    assert!(!app.apply_highlight(HighlightResult { block_id: 0, lines: Vec::new() }));
}

#[test]
fn resize_renders_the_shown_file_again() {
    let mut app = App::new(InputSource::FileArg("/d/f.md".to_string()), Theme::detect(None), String::new(), Vec::new());
    app.load_initial(Ok("---\n".to_string()), 10).unwrap();
    assert_eq!(text_of(&app.lines[0]).chars().count(), 10);
    assert_eq!(app.resize_file(), Some("/d/f.md".to_string()));
    app.resized(Ok("---\n".to_string()), 20).unwrap();
    assert_eq!(text_of(&app.lines[0]).chars().count(), 20);
    app.resized(Err("gone".to_string()), 30).unwrap();
    assert_eq!(text_of(&app.lines[0]).chars().count(), 20);
    assert!(app.error_message.is_none());
}
