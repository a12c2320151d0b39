use mdview::markdown::parser::parse_markdown;
use mdview::markdown::table::{build_table_border, pad_cell, CellAlignment};
use mdview::style::{Color, Line};
use mdview::theme::{Theme, ThemeMode};

fn text_of(l: &Line) -> String {
    let mut s = String::new();
    for sp in &l.spans {
        s.push_str(&sp.content);
    }
    s
}

fn texts(lines: &[Line]) -> Vec<String> {
    lines.iter().map(text_of).collect()
}

fn dark() -> Theme {
    Theme::detect(None)
}

#[test]
fn heading_has_prefix_underline_and_blank() {
    let r = parse_markdown("# Title\n", &dark(), 80).unwrap();
    assert_eq!(texts(&r.lines), vec!["# Title", "═══", ""]);
    assert_eq!(r.lines[0].spans[0].style.fg, Some(Color::Indexed(39)));
    assert!(r.lines[0].spans[1].style.bold);
    assert_eq!(r.lines[1].spans[0].style.fg, Some(Color::Indexed(240)));
    assert_eq!(r.word_count, 1);
}

#[test]
fn level_four_heading_underline_halves() {
    let r = parse_markdown("#### Abcd\n", &dark(), 80).unwrap();
    assert_eq!(texts(&r.lines), vec!["#### Abcd", "· · · · ", ""]);
}

#[test]
fn level_five_heading_has_no_underline() {
    let r = parse_markdown("##### Five\n", &dark(), 80).unwrap();
    assert_eq!(texts(&r.lines), vec!["##### Five", ""]);
}

#[test]
fn paragraph_with_strong_text() {
    let r = parse_markdown("Hello **world**\n", &dark(), 80).unwrap();
    assert_eq!(texts(&r.lines), vec!["Hello world", ""]);
    assert!(!r.lines[0].spans[0].style.bold);
    assert!(r.lines[0].spans[1].style.bold);
    assert_eq!(r.word_count, 2);
}

#[test]
fn emphasis_and_strikethrough_styles() {
    let r = parse_markdown("*a* ~~b~~\n", &dark(), 80).unwrap();
    assert!(r.lines[0].spans[0].style.italic);
    assert!(r.lines[0].spans[2].style.crossed_out);
}

#[test]
fn lists_get_bullets_and_numbers() {
    let r = parse_markdown("- one\n- two\n\n3. three\n4. four\n", &dark(), 80).unwrap();
    let t = texts(&r.lines);
    assert_eq!(t[0], "• one");
    assert_eq!(t[1], "• two");
    assert!(t.contains(&"3. three".to_string()));
    assert!(t.contains(&"4. four".to_string()));
}

#[test]
fn task_list_markers() {
    let r = parse_markdown("- [x] done\n- [ ] todo\n", &dark(), 80).unwrap();
    let t = texts(&r.lines);
    assert_eq!(t[0], "• ☑ done");
    assert_eq!(t[1], "• ☐ todo");
}

#[test]
fn blockquote_prefix() {
    let r = parse_markdown("> quoted\n", &dark(), 80).unwrap();
    let t = texts(&r.lines);
    assert_eq!(t[0], "│ quoted");
    assert_eq!(r.lines[0].spans[0].style.fg, Some(Color::Rgb(100, 100, 100)));
}

#[test]
fn fenced_code_block_is_framed_and_requested() {
    let r = parse_markdown("```rust\nfn main() {}\n```\n", &dark(), 80).unwrap();
    let t = texts(&r.lines);
    assert_eq!(t[0], format!("┌{}┐", "─".repeat(14)));
    assert_eq!(t[1], "│ fn main() {} │");
    assert_eq!(t[2], format!("└{}┘", "─".repeat(14)));
    assert_eq!(t[3], "");
    assert_eq!(r.code_blocks.len(), 1);
    assert_eq!(r.code_blocks[0].start_line, 0);
    assert_eq!(r.code_blocks[0].end_line, 3);
    assert_eq!(r.code_blocks[0].width, 14);
    assert_eq!(r.highlight_requests.len(), 1);
    assert_eq!(r.highlight_requests[0].language, "rust");
    assert_eq!(r.highlight_requests[0].code, "fn main() {}\n");
    assert_eq!(r.highlight_requests[0].width, 14);
}

#[test]
fn code_block_width_is_capped_by_terminal() {
    let r = parse_markdown("```\nabcdefghij\n```\n", &dark(), 8).unwrap();
    assert_eq!(r.code_blocks[0].width, 6);
    let t = texts(&r.lines);
    assert_eq!(t[1], "│ abcdefghij │");
}

#[test]
fn link_is_recorded_with_its_url() {
    let r = parse_markdown("[x](http://a)\n", &dark(), 80).unwrap();
    assert_eq!(texts(&r.lines)[0], "x (http://a)");
    assert_eq!(r.links.len(), 1);
    assert_eq!(r.links[0].line_index, 0);
    assert_eq!(r.links[0].span_start, 0);
    assert_eq!(r.links[0].url, "http://a");
    assert!(r.lines[0].spans[0].style.underlined);
    assert_eq!(r.lines[0].spans[1].style.fg, Some(Color::DarkGray));
}

#[test]
fn rule_spans_the_terminal() {
    let r = parse_markdown("---\n", &dark(), 10).unwrap();
    assert_eq!(texts(&r.lines), vec!["─".repeat(10), String::new()]);
}

#[test]
fn table_is_drawn_with_borders() {
    let r = parse_markdown("| a | b |\n|---|:-:|\n| 1 | 22 |\n", &dark(), 80).unwrap();
    let t = texts(&r.lines);
    assert_eq!(t, vec!["┌───┬────┐", "│ a │ b  │", "├───┼────┤", "│ 1 │ 22 │", "└───┴────┘", ""]);
    assert!(r.lines[1].spans[1].style.bold);
}

#[test]
fn footnotes_are_numbered() {
    let r = parse_markdown("Text[^n]\n\n[^n]: Note\n", &dark(), 80).unwrap();
    assert_eq!(texts(&r.lines), vec!["Text[1]", "", "Note", ""]);
}

#[test]
fn front_matter_is_hidden() {
    let r = parse_markdown("---\ntitle: x\n---\nBody\n", &dark(), 80).unwrap();
    assert_eq!(texts(&r.lines), vec!["Body", ""]);
}

#[test]
fn inline_code_background() {
    let r = parse_markdown("a `b` c\n", &dark(), 80).unwrap();
    assert_eq!(r.lines[0].spans[1].content, "b");
    assert_eq!(r.lines[0].spans[1].style.bg, Some(Color::Rgb(68, 68, 68)));
}

#[test]
fn light_theme_colors() {
    let t = Theme::detect(Some("0;15"));
    assert_eq!(t.mode, ThemeMode::Light);
    let r = parse_markdown("# T\n", &t, 80).unwrap();
    assert_eq!(r.lines[0].spans[0].style.fg, Some(Color::Indexed(30)));
}

#[test]
fn empty_document_has_no_lines() {
    let r = parse_markdown("", &dark(), 80).unwrap();
    assert_eq!(r.lines.len(), 0);
    assert_eq!(r.word_count, 0);
}

#[test]
fn table_border_from_widths() {
    assert_eq!(build_table_border(&[1, 2], '┌', '┬', '┐'), "┌───┬────┐");
    assert_eq!(build_table_border(&[0], '└', '┴', '┘'), "└──┘");
}

#[test]
fn cell_padding_by_alignment() {
    assert_eq!(pad_cell("ab", 5, CellAlignment::Left), "ab   ");
    assert_eq!(pad_cell("ab", 5, CellAlignment::Right), "   ab");
    assert_eq!(pad_cell("ab", 5, CellAlignment::Center), " ab  ");
    assert_eq!(pad_cell("abcdef", 3, CellAlignment::Unspecified), "abc");
}

#[test]
fn wide_table_columns_are_scaled_to_the_terminal() {
    let r = parse_markdown("| aaaa | bbbb |\n|---|---|\n| cccc | dd |\n", &dark(), 8).unwrap();
    assert_eq!(
        texts(&r.lines),
        vec!["┌────┬────┐", "│ aa │ bb │", "├────┼────┤", "│ cc │ dd │", "└────┴────┘", ""]
    );
}

#[test]
fn display_math_is_indented() {
    let r = parse_markdown("$$\na\nb\n$$\n", &dark(), 80).unwrap();
    let t = texts(&r.lines);
    assert!(t.contains(&"  a".to_string()));
    assert!(t.contains(&"  b".to_string()));
}

#[test]
fn nested_list_keeps_the_outer_item() {
    let r = parse_markdown("- a\n  - b\n", &dark(), 80).unwrap();
    assert_eq!(texts(&r.lines), vec!["• a", "  • b", ""]);
}

#[test]
fn image_shows_its_alt_text() {
    let r = parse_markdown("![alt](img.png)\n", &dark(), 80).unwrap();
    assert_eq!(texts(&r.lines), vec!["alt", ""]);
    assert!(r.links.is_empty());
    assert!(r.lines[0].spans[0].style.underlined);
}

#[test]
fn hard_break_in_a_quote_repeats_the_prefix() {
    let r = parse_markdown("> a  \n> b\n", &dark(), 80).unwrap();
    assert_eq!(texts(&r.lines), vec!["│ a", "│ b", "", ""]);
}

#[test]
fn heading_with_inline_code() {
    let r = parse_markdown("## a `b`\n", &dark(), 80).unwrap();
    assert_eq!(texts(&r.lines), vec!["## a b", "───", ""]);
    assert!(r.lines[0].spans[2].style.bold);
    assert_eq!(r.lines[0].spans[2].style.fg, Some(Color::Indexed(76)));
}

#[test]
fn smart_quotes() {
    let r = parse_markdown("\"hi\" -- ok...\n", &dark(), 80).unwrap();
    assert_eq!(texts(&r.lines)[0], "“hi” – ok…");
}

#[test]
fn soft_break_starts_a_new_line() {
    let r = parse_markdown("a\nb\n", &dark(), 80).unwrap();
    assert_eq!(texts(&r.lines), vec!["a", "b", ""]);
}

#[test]
fn ordered_list_numbers_count_up() {
    let r = parse_markdown("1. a\n2. b\n", &dark(), 80).unwrap();
    assert_eq!(texts(&r.lines), vec!["1. a", "2. b", ""]);
}

#[test]
fn inline_math_has_code_background() {
    let r = parse_markdown("$x$\n", &dark(), 80).unwrap();
    assert_eq!(r.lines[0].spans[0].content, "x");
    assert_eq!(r.lines[0].spans[0].style.bg, Some(Color::Rgb(68, 68, 68)));
}
