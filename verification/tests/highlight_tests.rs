use mdview::markdown::highlight::Highlighter;
use mdview::markdown::parser::parse_markdown;
use mdview::theme::Theme;
use mdview::markdown::types::StyleStack;
use mdview::style::{Color, Line};

fn text_of(l: &Line) -> String {
    l.spans.iter().map(|s| s.content.as_str()).collect()
}

#[test]
fn highlighted_block_is_framed_like_its_placeholder() {
    let h = Highlighter::new("base16-ocean.dark", Color::Rgb(38, 38, 38)).unwrap();
    let lines = h.highlight("let x = 1;\n", "rust", 14, Color::Rgb(100, 100, 100));
    assert_eq!(lines.len(), 3);
    assert_eq!(text_of(&lines[0]), format!("┌{}┐", "─".repeat(14)));
    assert_eq!(text_of(&lines[1]), "│ let x = 1;   │");
    assert_eq!(text_of(&lines[2]), format!("└{}┘", "─".repeat(14)));
    assert!(lines[1].spans.len() > 4);
    for sp in &lines[1].spans[1..lines[1].spans.len() - 2] {
        assert!(matches!(sp.style.fg, Some(Color::Rgb(_, _, _))));
        assert_eq!(sp.style.bg, Some(Color::Rgb(38, 38, 38)));
    }
}

#[test]
fn unknown_language_and_theme_fall_back() {
    let h = Highlighter::new("no-such-theme", Color::Black).unwrap();
    assert_eq!(h.theme_name(), "base16-ocean.dark");
    let lines = h.highlight("", "no-such-language", 4, Color::White);
    assert_eq!(lines.len(), 3);
    assert_eq!(text_of(&lines[1]), "│    │");
}

#[test]
fn several_code_lines() {
    let h = Highlighter::new("base16-ocean.light", Color::White).unwrap();
    assert_eq!(h.theme_name(), "base16-ocean.light");
    let lines = h.highlight("a\nbb\n", "txt", 4, Color::Black);
    assert_eq!(lines.len(), 4);
    assert_eq!(text_of(&lines[1]), "│ a  │");
    assert_eq!(text_of(&lines[2]), "│ bb │");
}

#[test]
fn style_stack_push_then_pop_restores() {
    let mut s = StyleStack::new();
    s.push_bold();
    s.push_bold();
    assert!(s.to_style().bold);
    s.pop_bold();
    assert!(s.to_style().bold);
    s.pop_bold();
    assert!(!s.to_style().bold);
    s.pop_bold();
    assert!(!s.to_style().bold);
    s.push_italic();
    s.push_strikethrough();
    let st = s.to_style();
    assert!(st.italic && st.crossed_out);
    s.pop_italic();
    s.pop_strikethrough();
    let st = s.to_style();
    assert!(!st.italic && !st.crossed_out);
}

#[test]
fn highlighted_block_has_as_many_lines_as_its_placeholder() {
    let theme = Theme::detect(None);
    let r = parse_markdown("```python\nx = 1\ny = 2\n\nz\n```\n", &theme, 80).unwrap();
    let h = Highlighter::new(theme.syntect_theme_name(), theme.palette.code_block_bg).unwrap();
    let req = &r.highlight_requests[0];
    let block = r.code_blocks[0];
    assert_eq!(req.block_id, block.block_id);
    let lines = h.highlight(&req.code, &req.language, req.width, theme.palette.blockquote_border);
    assert_eq!(lines.len(), block.end_line - block.start_line);
    assert_eq!(lines.len(), 6);
}

#[test]
fn highlighted_block_keeps_the_placeholder_text() {
    let theme = Theme::detect(None);
    let r = parse_markdown("```rust\nfn main() {\n    let x = \"é\";\n}\n```\n", &theme, 40).unwrap();
    let h = Highlighter::new(theme.syntect_theme_name(), theme.palette.code_block_bg).unwrap();
    let req = &r.highlight_requests[0];
    let block = r.code_blocks[0];
    let lines = h.highlight(&req.code, &req.language, req.width, theme.palette.blockquote_border);
    assert_eq!(lines.len(), block.end_line - block.start_line);
    for (j, l) in lines.iter().enumerate() {
        assert_eq!(text_of(l), text_of(&r.lines[block.start_line + j]));
    }
    assert!(lines[1].spans.len() > 4);
}
