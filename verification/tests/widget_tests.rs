use mdview::app::Mode;
use mdview::style::Color;
use mdview::theme::{detect_theme_mode, Theme, ThemeMode};
use mdview::ui::error_popup::ErrorPopup;
use mdview::ui::search_bar::SearchBar;
use mdview::ui::status_bar::StatusBar;

#[test]
fn status_line_in_the_viewer() {
    let mode = Mode::Viewer;
    let bar = StatusBar {
        filename: "a.md",
        line_count: 12,
        word_count: 34,
        scroll_percent: 50,
        mode: &mode,
        table_wrap: true,
        search_info: Some("Match 1/2".to_string()),
    };
    assert_eq!(bar.text(), " a.md │ 12 lines │ 34 words │ 50% │ VIEWER │ [wrap] │ Match 1/2 │ q:back /:search w:wrap");
    let l = bar.line();
    assert_eq!(l.spans[0].style.bg, Some(Color::DarkGray));
    assert!(l.spans[0].style.bold);
}

#[test]
fn status_line_in_the_picker() {
    let mode = Mode::FilePicker;
    let bar = StatusBar {
        filename: "",
        line_count: 0,
        word_count: 0,
        scroll_percent: 0,
        mode: &mode,
        table_wrap: false,
        search_info: None,
    };
    assert_eq!(bar.text(), "  │ 0 lines │ 0 words │ 0% │ PICKER │ q:quit ↑↓:nav ↵:open");
}

#[test]
fn status_line_while_searching_with_horizontal_tables() {
    let mode = Mode::Search;
    let bar = StatusBar {
        filename: "x",
        line_count: 1,
        word_count: 1,
        scroll_percent: 0,
        mode: &mode,
        table_wrap: false,
        search_info: None,
    };
    assert_eq!(bar.text(), " x │ 1 lines │ 1 words │ 0% │ SEARCH │ ↵:confirm esc:cancel");
}

#[test]
fn search_line_shows_the_query() {
    let bar = SearchBar { query: "abc" };
    let l = bar.line();
    let t: Vec<&str> = l.spans.iter().map(|s| s.content.as_str()).collect();
    assert_eq!(t, vec!["/", "abc", "█"]);
    assert_eq!(l.spans[0].style.fg, Some(Color::Yellow));
    assert_eq!(bar.fill_style().bg, Some(Color::Black));
}

#[test]
fn error_box_lines() {
    let p = ErrorPopup { message: "oops" };
    let lines = p.lines();
    let t: Vec<String> = lines.iter().map(|l| l.spans.iter().map(|s| s.content.as_str()).collect()).collect();
    assert_eq!(t, vec!["", "oops", "", "Press any key to dismiss"]);
    assert_eq!(p.title().content, " Error ");
    assert_eq!(p.border_style().fg, Some(Color::Red));
}

#[test]
fn theme_follows_colorfgbg() {
    assert_eq!(detect_theme_mode(Some("15;0")), ThemeMode::Dark);
    assert_eq!(detect_theme_mode(Some("0;15")), ThemeMode::Light);
    assert_eq!(detect_theme_mode(Some("0;default;7")), ThemeMode::Dark);
    assert_eq!(detect_theme_mode(Some(" 0; 12 ")), ThemeMode::Light);
    assert_eq!(detect_theme_mode(Some("garbage")), ThemeMode::Dark);
    assert_eq!(detect_theme_mode(None), ThemeMode::Dark);
    assert_eq!(Theme::detect(None).syntect_theme_name(), "base16-ocean.dark");
    assert_eq!(Theme::detect(Some("0;15")).syntect_theme_name(), "base16-ocean.light");
}

#[test]
fn heading_colors_and_underlines() {
    let t = Theme::detect(None);
    assert_eq!(t.heading_fg(2), Color::Indexed(76));
    assert_eq!(t.heading_fg(9), Color::Indexed(66));
    assert_eq!(t.heading_underline_color(), Color::Indexed(240));
    assert_eq!(Theme::heading_underline_char(1), Some("═"));
    assert_eq!(Theme::heading_underline_char(4), Some("· "));
    assert_eq!(Theme::heading_underline_char(5), None);
}
