use mdview::ui::file_picker::{sort_strings, DirItem, FileEntry, FilePicker, PickerAction};

fn item(name: &str, is_dir: Option<bool>) -> DirItem {
    DirItem { name: name.to_string(), is_dir }
}

fn listing() -> Vec<DirItem> {
    vec![
        item("zeta.md", Some(false)),
        item("notes", Some(true)),
        item(".hidden", Some(true)),
        item("alpha.markdown", Some(false)),
        item("image.png", Some(false)),
        item("Archive", Some(true)),
        item(".secret.md", Some(false)),
        item("broken.md", None),
    ]
}

#[test]
fn rows_are_parent_then_sorted_dirs_then_sorted_markdown_files() {
    let p = FilePicker::new("/home/u/docs".to_string(), listing());
    assert_eq!(
        p.entries,
        vec![
            FileEntry::ParentDir,
            FileEntry::Directory("Archive".to_string()),
            FileEntry::Directory("notes".to_string()),
            FileEntry::File("alpha.markdown".to_string()),
            FileEntry::File("zeta.md".to_string()),
        ]
    );
    assert_eq!(p.selected, Some(0));
}

#[test]
fn root_has_no_parent_row() {
    let p = FilePicker::new("/".to_string(), vec![item("a.md", Some(false))]);
    assert_eq!(p.entries, vec![FileEntry::File("a.md".to_string())]);
}

#[test]
fn empty_listing_selects_nothing() {
    let p = FilePicker::new("/".to_string(), Vec::new());
    assert!(p.entries.is_empty());
    assert_eq!(p.selected, None);
    assert!(p.selected_entry().is_none());
}

#[test]
fn display_names() {
    assert_eq!(FileEntry::ParentDir.display_name(), "📁 ..");
    assert_eq!(FileEntry::Directory("d".to_string()).display_name(), "📁 d/");
    assert_eq!(FileEntry::File("f.md".to_string()).display_name(), "📄 f.md");
}

#[test]
fn moving_the_selection_stays_on_the_rows() {
    let mut p = FilePicker::new("/home/u/docs".to_string(), listing());
    p.move_up();
    assert_eq!(p.selected, Some(0));
    p.move_down();
    p.move_down();
    assert_eq!(p.selected, Some(2));
    p.jump_bottom();
    assert_eq!(p.selected, Some(4));
    p.move_down();
    assert_eq!(p.selected, Some(4));
    p.page_up(10);
    assert_eq!(p.selected, Some(0));
    p.page_down(10);
    assert_eq!(p.selected, Some(4));
    p.jump_top();
    assert_eq!(p.selected, Some(0));
}

#[test]
fn entering_rows() {
    let mut p = FilePicker::new("/home/u/docs".to_string(), listing());
    assert_eq!(p.enter_selected(), PickerAction::ChangeDir("/home/u".to_string()));
    p.move_down();
    assert_eq!(p.enter_selected(), PickerAction::ChangeDir("/home/u/docs/Archive".to_string()));
    p.jump_bottom();
    assert_eq!(p.enter_selected(), PickerAction::OpenFile("/home/u/docs/zeta.md".to_string()));
    p.change_dir("/home/u/docs/Archive".to_string(), vec![item("old.md", Some(false))]);
    assert_eq!(p.current_dir, "/home/u/docs/Archive");
    assert_eq!(p.entries, vec![FileEntry::ParentDir, FileEntry::File("old.md".to_string())]);
    assert_eq!(p.selected, Some(0));
}

#[test]
fn title_names_the_directory() {
    let p = FilePicker::new("/tmp".to_string(), Vec::new());
    assert_eq!(p.title(), " ▶ Select a Markdown file (/tmp) ");
}

#[test]
fn names_sort_by_code_point() {
    let v = vec!["b".to_string(), "B".to_string(), "a".to_string(), "ab".to_string(), "é".to_string()];
    assert_eq!(sort_strings(v), vec!["B", "a", "ab", "b", "é"]);
}
