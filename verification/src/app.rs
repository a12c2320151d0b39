//! The viewer's state and how it answers keys, mouse and loaded files.
use vstd::prelude::*;
use crate::markdown::types::{CodeBlockRange, HighlightRequest, LinkInfo, LinkView};
use crate::markdown::parser::{opt_string_view, links_view, requests_view, parse_markdown, ParseResult};
use crate::markdown::model::{ResultView, render_spec, code_rows, code_block_lines};
use crate::markdown::highlight::{syntect_line, syntect_rows, block_syntax, regions_text, highlighted_block, lemma_highlight_keeps_row_text};
use crate::markdown::events::{parsed_events, VIEWER_OPTIONS};
use crate::markdown::highlight::HighlightResult;
use crate::markdown::types::RequestView;
use crate::ui::file_picker::DirItem;
use crate::search::{SearchMatch, SearchState, all_matches, next_index, prev_index, search_fails};
use crate::style::{Color, Line, SpanView, lines_view, line_text};
use crate::theme::Theme;
use crate::text::{chars_of, push_char, push_str, string_from_chars, to_owned_string};
use crate::ui::file_picker::{
    EntryView, FilePicker, PickerAction, ActionView, bottom_sel, down_sel, enter_action, entries_view,
    page_down_sel, page_up_sel, selected_row, top_sel, up_sel,
};
use crate::ui::viewer::{imin, max_scroll, max_scroll_spec, sat_sub};

verus! {

/// What the screen shows: the file list, the document, or the document with
/// the search line.
#[derive(Clone, Copy, Debug, PartialEq, Eq, Structural)]
pub enum Mode {
    FilePicker,
    Viewer,
    Search,
}

/// Where the document comes from.
#[derive(Clone, Debug, PartialEq, Eq)]
pub enum InputSource {
    FileArg(String),
    Picker,
    Stdin,
}

/// The value of an [`InputSource`].
pub enum InputView {
    FileArg(Seq<char>),
    Picker,
    Stdin,
}

impl View for InputSource {
    type V = InputView;

    open spec fn view(&self) -> InputView {
        match self {
            InputSource::FileArg(p) => InputView::FileArg(p@),
            InputSource::Picker => InputView::Picker,
            InputSource::Stdin => InputView::Stdin,
        }
    }
}

/// A key press.
#[derive(Clone, Copy, Debug, PartialEq, Eq, Structural)]
pub enum KeyInput {
    Char(char),
    Enter,
    Esc,
    Backspace,
    Up,
    Down,
    Home,
    End,
    PageUp,
    PageDown,
    Tab,
    BackTab,
    Other,
}

/// A mouse event; `Down` carries the screen row clicked.
#[derive(Clone, Copy, Debug, PartialEq, Eq, Structural)]
pub enum MouseInput {
    ScrollUp,
    ScrollDown,
    Down(u16),
    Other,
}

/// What the program must do after the state changed.
#[derive(Clone, Debug, PartialEq, Eq)]
pub enum AppAction {
    /// Nothing.
    Nothing,
    /// Open this link target.
    OpenUrl(String),
    /// Read this file and hand it to [`App::open_picked_file`].
    OpenFile(String),
    /// List this directory and hand it to [`App::dir_listed`].
    ListDir(String),
    /// List the working directory and attach a picker for it ([`App::attach_picker`]).
    NewPicker,
}

/// The value of an [`AppAction`].
pub enum AppActionView {
    Nothing,
    OpenUrl(Seq<char>),
    OpenFile(Seq<char>),
    ListDir(Seq<char>),
    NewPicker,
}

impl View for AppAction {
    type V = AppActionView;

    open spec fn view(&self) -> AppActionView {
        match self {
            AppAction::Nothing => AppActionView::Nothing,
            AppAction::OpenUrl(u) => AppActionView::OpenUrl(u@),
            AppAction::OpenFile(p) => AppActionView::OpenFile(p@),
            AppAction::ListDir(p) => AppActionView::ListDir(p@),
            AppAction::NewPicker => AppActionView::NewPicker,
        }
    }
}

/// The value of a search state.
pub struct SearchView {
    pub query: Seq<char>,
    pub matches: Seq<SearchMatch>,
    pub current: usize,
    pub active: bool,
}

/// The value of a search state.
pub open spec fn search_view(s: &SearchState) -> SearchView {
    SearchView { query: s.query@, matches: s.matches@, current: s.current_match, active: s.active }
}

/// The value of a file list: its directory, rows and selection.
pub struct PickerView {
    pub dir: Seq<char>,
    pub rows: Seq<EntryView>,
    pub selected: Option<usize>,
}

/// The value of a file list.
pub open spec fn picker_view(p: &FilePicker) -> PickerView {
    PickerView { dir: p.current_dir@, rows: entries_view(p.entries@), selected: p.selected }
}

/// The value of the whole viewer state.
#[verifier::ext_equal]
pub struct AppView {
    pub mode: Mode,
    pub should_quit: bool,
    pub input: InputView,
    pub theme: Theme,
    pub lines: Seq<Seq<SpanView>>,
    pub links: Seq<LinkView>,
    pub code_blocks: Seq<CodeBlockRange>,
    pub scroll_offset: u16,
    pub viewport_height: u16,
    pub filename: Seq<char>,
    pub word_count: usize,
    pub focused_link: Option<usize>,
    pub table_wrap: bool,
    pub search: SearchView,
    pub picker: Option<PickerView>,
    pub error: Option<Seq<char>>,
    pub current_file: Option<Seq<char>>,
}

/// The viewer state: what is shown, the document and where it is scrolled,
/// the search, the file list, and an error to show.
pub struct App {
    pub mode: Mode,
    pub should_quit: bool,
    pub input_source: InputSource,
    pub theme: Theme,
    pub lines: Vec<Line>,
    pub links: Vec<LinkInfo>,
    pub code_blocks: Vec<CodeBlockRange>,
    pub scroll_offset: u16,
    pub viewport_height: u16,
    pub filename: String,
    pub word_count: usize,
    pub focused_link: Option<usize>,
    pub table_wrap: bool,
    pub search: SearchState,
    pub file_picker: Option<FilePicker>,
    pub error_message: Option<String>,
    pub current_file: Option<String>,
}

impl View for App {
    type V = AppView;

    open spec fn view(&self) -> AppView {
        AppView {
            mode: self.mode,
            should_quit: self.should_quit,
            input: self.input_source@,
            theme: self.theme,
            lines: lines_view(self.lines@),
            links: links_view(self.links@),
            code_blocks: self.code_blocks@,
            scroll_offset: self.scroll_offset,
            viewport_height: self.viewport_height,
            filename: self.filename@,
            word_count: self.word_count,
            focused_link: self.focused_link,
            table_wrap: self.table_wrap,
            search: search_view(&self.search),
            picker: match self.file_picker {
                Some(p) => Some(picker_view(&p)),
                None => None,
            },
            error: opt_string_view(self.error_message),
            current_file: opt_string_view(self.current_file),
        }
    }
}

/// The state is consistent: the current match, the focused link and the
/// selected file each exist.
pub open spec fn app_wf(v: AppView) -> bool {
    &&& (v.search.matches.len() > 0 ==> v.search.current < v.search.matches.len())
    &&& (v.focused_link matches Some(i) ==> i < v.links.len())
    &&& (v.picker matches Some(p) ==> (p.selected matches Some(i) ==> i < p.rows.len()))
}

// ---------------------------------------------------------------- scrolling

/// The last scroll position of the document.
pub open spec fn last_scroll(v: AppView) -> u16 {
    max_scroll_spec(v.lines.len() as usize, v.viewport_height)
}

/// Scrolling `n` lines down, stopping at the end; `None` when the position
/// would pass 16 bits.
pub open spec fn scrolled_down(v: AppView, n: u16) -> Option<AppView> {
    if v.scroll_offset + n > u16::MAX {
        None
    } else {
        Some(AppView { scroll_offset: imin(v.scroll_offset + n, last_scroll(v) as int) as u16, ..v })
    }
}

/// Scrolling `n` lines up, stopping at the top.
pub open spec fn scrolled_up(v: AppView, n: u16) -> AppView {
    AppView { scroll_offset: sat_sub(v.scroll_offset as int, n as int) as u16, ..v }
}

/// A line number kept to 16 bits.
pub open spec fn line16(l: usize) -> u16 {
    (l % 0x10000) as u16
}

/// Brings the current match's line into view, centering it, when it lies
/// outside the screen.
pub open spec fn to_search_match(v: AppView) -> Option<AppView> {
    if v.search.current < v.search.matches.len() {
        let line = line16(v.search.matches[v.search.current as int].line_index);
        if line < v.scroll_offset {
            Some(AppView { scroll_offset: sat_sub(line as int, (v.viewport_height / 2) as int) as u16, ..v })
        } else if v.scroll_offset + v.viewport_height > u16::MAX {
            None
        } else if line >= v.scroll_offset + v.viewport_height {
            Some(AppView { scroll_offset: sat_sub(line as int, (v.viewport_height / 2) as int) as u16, ..v })
        } else {
            Some(v)
        }
    } else {
        Some(v)
    }
}

/// Brings the focused link's line into view: to the top when above the
/// screen, centered when below it.
pub open spec fn to_link(v: AppView) -> Option<AppView> {
    match v.focused_link {
        Some(i) => if i < v.links.len() {
            let line = line16(v.links[i as int].line_index);
            if line < v.scroll_offset {
                Some(AppView { scroll_offset: line, ..v })
            } else if v.scroll_offset + v.viewport_height > u16::MAX {
                None
            } else if line >= v.scroll_offset + v.viewport_height {
                Some(AppView { scroll_offset: sat_sub(line as int, (v.viewport_height / 2) as int) as u16, ..v })
            } else {
                Some(v)
            }
        } else {
            Some(v)
        },
        None => Some(v),
    }
}

/// The link after `f` among `n`, cyclically; the first when none is focused.
pub open spec fn next_focus(f: Option<usize>, n: nat) -> usize {
    match f {
        Some(i) => ((i + 1) % (n as int)) as usize,
        None => 0usize,
    }
}

/// The link before `f` among `n`, cyclically; the last when none or the
/// first is focused.
pub open spec fn prev_focus(f: Option<usize>, n: nat) -> usize {
    match f {
        Some(i) => if i == 0 { (n - 1) as usize } else { (i - 1) as usize },
        None => (n - 1) as usize,
    }
}

/// Focuses the next link, cyclically (the first when none is focused), and
/// brings it into view.
pub open spec fn next_link_spec(v: AppView) -> Option<AppView> {
    if v.links.len() == 0 {
        Some(v)
    } else {
        let f = next_focus(v.focused_link, v.links.len());
        if v.focused_link matches Some(i) && i + 1 > usize::MAX {
            None
        } else {
            to_link(AppView { focused_link: Some(f), ..v })
        }
    }
}

/// Focuses the previous link, cyclically (the last when none or the first is
/// focused), and brings it into view.
pub open spec fn prev_link_spec(v: AppView) -> Option<AppView> {
    if v.links.len() == 0 {
        Some(v)
    } else {
        to_link(AppView { focused_link: Some(prev_focus(v.focused_link, v.links.len())), ..v })
    }
}

/// Opening the focused link: its target, if a link is focused.
pub open spec fn open_link_action(v: AppView) -> AppActionView {
    match v.focused_link {
        Some(i) => if i < v.links.len() { AppActionView::OpenUrl(v.links[i as int].url) } else { AppActionView::Nothing },
        None => AppActionView::Nothing,
    }
}

impl App {
    /// A viewer reading from `input_source`: for the picker, the file list of
    /// the working directory `cwd`, whose items are `listing`; the document
    /// otherwise (the listing is then unused); nothing loaded yet, tables wrapped.
    pub fn new(input_source: InputSource, theme: Theme, cwd: String, listing: Vec<DirItem>) -> (app: App)
        ensures
            app@.mode == (if input_source@ is Picker { Mode::FilePicker } else { Mode::Viewer }),
            !app@.should_quit,
            app@.input == input_source@,
            app@.theme == theme,
            app@.lines.len() == 0,
            app@.links.len() == 0,
            app@.code_blocks.len() == 0,
            app@.scroll_offset == 0,
            app@.viewport_height == 24,
            app@.filename.len() == 0,
            app@.word_count == 0,
            app@.focused_link is None,
            app@.table_wrap,
            app@.search == (SearchView { query: Seq::empty(), matches: Seq::empty(), current: 0, active: false }),
            input_source@ is Picker ==> app@.picker == Some(PickerView {
                dir: cwd@,
                rows: crate::ui::file_picker::listing_rows(crate::ui::file_picker::parent_of(cwd@) is Some, crate::ui::file_picker::items_view(listing@)),
                selected: crate::ui::file_picker::first_row(crate::ui::file_picker::listing_rows(crate::ui::file_picker::parent_of(cwd@) is Some, crate::ui::file_picker::items_view(listing@)).len()),
            }),
            !(input_source@ is Picker) ==> app@.picker is None,
            app@.error is None,
            app@.current_file is None,
            app_wf(app@),
    {
        let mode = match &input_source {
            InputSource::Picker => Mode::FilePicker,
            _ => Mode::Viewer,
        };
        let file_picker = match &input_source {
            InputSource::Picker => Some(FilePicker::new(cwd, listing)),
            _ => None,
        };
        let app = App {
            mode,
            should_quit: false,
            input_source,
            theme,
            lines: Vec::new(),
            links: Vec::new(),
            code_blocks: Vec::new(),
            scroll_offset: 0,
            viewport_height: 24,
            filename: String::new(),
            word_count: 0,
            focused_link: None,
            table_wrap: true,
            search: SearchState::new(),
            file_picker,
            error_message: None,
            current_file: None,
        };
        assert(app@.search =~= (SearchView { query: Seq::empty(), matches: Seq::empty(), current: 0, active: false }));
        app
    }

    /// How far the document can scroll.
    pub fn max_scroll(&self) -> (r: u16)
        ensures
            r == last_scroll(self@),
    {
        max_scroll(self.lines.len(), self.viewport_height)
    }

    /// Where the document is scrolled to, in percent of the scrollable range.
    pub fn scroll_percent(&self) -> (r: u16)
        ensures
            r == (if last_scroll(self@) == 0 { 0 } else {
                (((self.scroll_offset as int * 100) / (last_scroll(self@) as int)) % 0x10000) as u16
            }),
    {
        let max = self.max_scroll();
        if max == 0 {
            0
        } else {
            let p: u32 = (self.scroll_offset as u32 * 100) / max as u32;
            assert(p as u16 == p % 0x10000) by (bit_vector);
            p as u16
        }
    }

    /// The line of each link, in link order.
    pub fn link_line_indices(&self) -> (r: Vec<usize>)
        ensures
            r@ == links_view(self.links@).map_values(|l: LinkView| l.line_index),
    {
        let mut r: Vec<usize> = Vec::new();
        let mut i: usize = 0;
        while i < self.links.len()
            invariant
                i <= self.links.len(),
                r@ =~= links_view(self.links@).take(i as int).map_values(|l: LinkView| l.line_index),
            decreases self.links.len() - i,
        {
            r.push(self.links[i].line_index);
            proof {
                assert(links_view(self.links@).take(i + 1) =~= links_view(self.links@).take(i as int).push(self.links@[i as int]@));
            }
            i = i + 1;
        }
        assert(links_view(self.links@).take(i as int) =~= links_view(self.links@));
        r
    }

    /// Scrolls `n` lines down, stopping at the end; false (nothing changed)
    /// when the position would pass 16 bits.
    fn scroll_down(&mut self, n: u16) -> (ok: bool)
        ensures
            ok == scrolled_down(old(self)@, n) is Some,
            ok ==> final(self)@ == scrolled_down(old(self)@, n)->0,
            !ok ==> final(self)@ == old(self)@,
    {
        if n > u16::MAX - self.scroll_offset {
            return false;
        }
        let max = self.max_scroll();
        let s = self.scroll_offset + n;
        self.scroll_offset = if s <= max { s } else { max };
        assert(self@ =~= scrolled_down(old(self)@, n)->0);
        true
    }

    /// Scrolls `n` lines up, stopping at the top.
    fn scroll_up(&mut self, n: u16)
        ensures
            final(self)@ == scrolled_up(old(self)@, n),
    {
        self.scroll_offset = self.scroll_offset.saturating_sub(n);
        assert(self@ =~= scrolled_up(old(self)@, n));
    }

    /// Brings the current match into view; false (nothing changed) when the
    /// end of the screen would pass 16 bits.
    fn scroll_to_search_match(&mut self) -> (ok: bool)
        ensures
            ok == to_search_match(old(self)@) is Some,
            ok ==> final(self)@ == to_search_match(old(self)@)->0,
            !ok ==> final(self)@ == old(self)@,
    {
        if let Some(l) = self.search.current_line() {
            assert((l as u16) == l % 0x10000) by (bit_vector);
            let line = l as u16;
            if line < self.scroll_offset {
                self.scroll_offset = line.saturating_sub(self.viewport_height / 2);
            } else if self.viewport_height > u16::MAX - self.scroll_offset {
                return false;
            } else if line >= self.scroll_offset + self.viewport_height {
                self.scroll_offset = line.saturating_sub(self.viewport_height / 2);
            }
        }
        assert(self@ =~= to_search_match(old(self)@)->0);
        true
    }

    /// Brings the focused link into view; false (nothing changed) when the
    /// end of the screen would pass 16 bits.
    fn scroll_to_link(&mut self) -> (ok: bool)
        ensures
            ok == to_link(old(self)@) is Some,
            ok ==> final(self)@ == to_link(old(self)@)->0,
            !ok ==> final(self)@ == old(self)@,
    {
        if let Some(idx) = self.focused_link {
            if idx < self.links.len() {
                let l = self.links[idx].line_index;
                assert((l as u16) == l % 0x10000) by (bit_vector);
                let line = l as u16;
                if line < self.scroll_offset {
                    self.scroll_offset = line;
                } else if self.viewport_height > u16::MAX - self.scroll_offset {
                    return false;
                } else if line >= self.scroll_offset + self.viewport_height {
                    self.scroll_offset = line.saturating_sub(self.viewport_height / 2);
                }
            }
        }
        assert(self@ =~= to_link(old(self)@)->0);
        true
    }

    /// Focuses the next link and brings it into view.
    fn next_link(&mut self) -> (ok: bool)
        ensures
            ok == next_link_spec(old(self)@) is Some,
            ok ==> final(self)@ == next_link_spec(old(self)@)->0,
            !ok ==> final(self)@ == old(self)@,
    {
        if self.links.len() == 0 {
            return true;
        }
        let f = match self.focused_link {
            Some(i) => {
                if i == usize::MAX {
                    return false;
                }
                (i + 1) % self.links.len()
            },
            None => 0,
        };
        let before = self.focused_link;
        self.focused_link = Some(f);
        if self.scroll_to_link() {
            true
        } else {
            self.focused_link = before;
            assert(self@ =~= old(self)@);
            false
        }
    }

    /// Focuses the previous link and brings it into view.
    fn prev_link(&mut self) -> (ok: bool)
        ensures
            ok == prev_link_spec(old(self)@) is Some,
            ok ==> final(self)@ == prev_link_spec(old(self)@)->0,
            !ok ==> final(self)@ == old(self)@,
    {
        if self.links.len() == 0 {
            return true;
        }
        let f = match self.focused_link {
            Some(i) => if i == 0 { self.links.len() - 1 } else { i - 1 },
            None => self.links.len() - 1,
        };
        let before = self.focused_link;
        self.focused_link = Some(f);
        if self.scroll_to_link() {
            true
        } else {
            self.focused_link = before;
            assert(self@ =~= old(self)@);
            false
        }
    }

    /// The focused link's target, to be opened.
    fn open_focused_link(&self) -> (a: AppAction)
        ensures
            a@ == open_link_action(self@),
    {
        if let Some(idx) = self.focused_link {
            if idx < self.links.len() {
                return AppAction::OpenUrl(self.links[idx].url.clone());
            }
        }
        AppAction::Nothing
    }
}

// ---------------------------------------------------------------- keys

/// A state with no action to go with it.
pub open spec fn quiet(o: Option<AppView>) -> Option<(AppView, AppActionView)> {
    match o {
        Some(v) => Some((v, AppActionView::Nothing)),
        None => None,
    }
}

/// The key is `c` or the key `k`.
pub open spec fn key_is(key: KeyInput, c: char, k: KeyInput) -> bool {
    key == KeyInput::Char(c) || key == k
}

/// The viewer's answer to a key.
pub open spec fn viewer_key(v: AppView, key: KeyInput) -> Option<(AppView, AppActionView)> {
    if key_is(key, 'q', KeyInput::Esc) {
        match v.input {
            InputView::Picker => quiet(Some(AppView { mode: Mode::FilePicker, current_file: None, ..v })),
            _ => quiet(Some(AppView { should_quit: true, ..v })),
        }
    } else if key_is(key, 'j', KeyInput::Down) {
        quiet(scrolled_down(v, 1))
    } else if key_is(key, 'k', KeyInput::Up) {
        quiet(Some(scrolled_up(v, 1)))
    } else if key_is(key, 'd', KeyInput::PageDown) {
        quiet(scrolled_down(v, v.viewport_height / 2))
    } else if key_is(key, 'u', KeyInput::PageUp) {
        quiet(Some(scrolled_up(v, v.viewport_height / 2)))
    } else if key_is(key, 'g', KeyInput::Home) {
        quiet(Some(AppView { scroll_offset: 0, ..v }))
    } else if key_is(key, 'G', KeyInput::End) {
        quiet(Some(AppView { scroll_offset: last_scroll(v), ..v }))
    } else if key == KeyInput::Char('/') {
        quiet(Some(AppView { mode: Mode::Search, search: SearchView { active: true, query: Seq::empty(), ..v.search }, ..v }))
    } else if key == KeyInput::Char('n') {
        if v.search.matches.len() == 0 {
            quiet(Some(v))
        } else if v.search.current + 1 > usize::MAX {
            None
        } else {
            quiet(to_search_match(AppView {
                search: SearchView { current: next_index(v.search.current, v.search.matches.len()), ..v.search },
                ..v
            }))
        }
    } else if key == KeyInput::Char('N') {
        if v.search.matches.len() == 0 {
            quiet(Some(v))
        } else {
            quiet(to_search_match(AppView {
                search: SearchView { current: prev_index(v.search.current, v.search.matches.len()), ..v.search },
                ..v
            }))
        }
    } else if key == KeyInput::Tab {
        quiet(next_link_spec(v))
    } else if key == KeyInput::BackTab {
        quiet(prev_link_spec(v))
    } else if key == KeyInput::Enter {
        Some((v, open_link_action(v)))
    } else if key == KeyInput::Char('w') {
        quiet(Some(AppView { table_wrap: !v.table_wrap, ..v }))
    } else {
        quiet(Some(v))
    }
}

/// The search for query `q` over the document; `None` when it cannot go on.
pub open spec fn searched(v: AppView, q: Seq<char>) -> Option<AppView> {
    if search_fails(v.lines, q) {
        None
    } else {
        Some(AppView { search: SearchView { query: q, matches: all_matches(v.lines, q), current: 0, ..v.search }, ..v })
    }
}

/// The search line's answer to a key.
pub open spec fn search_key(v: AppView, key: KeyInput) -> Option<(AppView, AppActionView)> {
    match key {
        KeyInput::Esc => quiet(Some(AppView {
            mode: Mode::Viewer,
            search: SearchView { query: Seq::empty(), matches: Seq::empty(), current: 0, active: false },
            ..v
        })),
        KeyInput::Enter => {
            let active = v.search.query.len() > 0;
            let v1 = AppView { mode: Mode::Viewer, search: SearchView { active, ..v.search }, ..v };
            if active { quiet(to_search_match(v1)) } else { quiet(Some(v1)) }
        },
        KeyInput::Backspace => {
            let q = v.search.query;
            quiet(searched(v, if q.len() > 0 { q.drop_last() } else { q }))
        },
        KeyInput::Char(c) => quiet(searched(v, v.search.query.push(c))),
        _ => quiet(Some(v)),
    }
}

/// The file list after a new selection.
pub open spec fn with_selection(v: AppView, sel: Option<usize>) -> AppView {
    AppView { picker: Some(PickerView { selected: sel, ..v.picker->0 }), ..v }
}

/// The file list's answer to a key.
pub open spec fn picker_key(v: AppView, key: KeyInput) -> Option<(AppView, AppActionView)> {
    match v.picker {
        None => quiet(Some(v)),
        Some(p) => {
            let n = p.rows.len();
            if key_is(key, 'q', KeyInput::Esc) {
                quiet(Some(AppView { should_quit: true, ..v }))
            } else if key_is(key, 'j', KeyInput::Down) {
                quiet(Some(with_selection(v, down_sel(p.selected, n))))
            } else if key_is(key, 'k', KeyInput::Up) {
                quiet(Some(with_selection(v, up_sel(p.selected))))
            } else if key_is(key, 'g', KeyInput::Home) {
                quiet(Some(with_selection(v, top_sel(p.selected, n))))
            } else if key_is(key, 'G', KeyInput::End) {
                quiet(Some(with_selection(v, bottom_sel(p.selected, n))))
            } else if key_is(key, 'd', KeyInput::PageDown) {
                if p.selected matches Some(i) && i + 10 > usize::MAX {
                    None
                } else {
                    quiet(Some(with_selection(v, page_down_sel(p.selected, n, 10))))
                }
            } else if key_is(key, 'u', KeyInput::PageUp) {
                quiet(Some(with_selection(v, page_up_sel(p.selected, 10))))
            } else if key == KeyInput::Enter {
                match enter_action(p.dir, selected_row(p.rows, p.selected)) {
                    ActionView::Nothing => Some((v, AppActionView::Nothing)),
                    ActionView::ChangeDir(d) => Some((v, AppActionView::ListDir(d))),
                    ActionView::OpenFile(f) => Some((v, AppActionView::OpenFile(f))),
                }
            } else {
                quiet(Some(v))
            }
        },
    }
}

/// Dismissing the error: the program ends when it was given a file; from the
/// document it goes back to the file list (to be listed when there is none).
pub open spec fn dismissed(v: AppView) -> (AppView, AppActionView) {
    let v1 = AppView { error: None, ..v };
    if v.input is FileArg {
        (AppView { should_quit: true, ..v1 }, AppActionView::Nothing)
    } else if v.mode == Mode::Viewer {
        (AppView { mode: Mode::FilePicker, ..v1 }, if v.picker is None { AppActionView::NewPicker } else { AppActionView::Nothing })
    } else {
        (v1, AppActionView::Nothing)
    }
}

/// The answer to a key: a shown error is dismissed first; otherwise the
/// screen shown answers. `None` when the answer cannot be computed (a
/// search that cannot go on, or a position past its integer range).
pub open spec fn key_step(v: AppView, key: KeyInput) -> Option<(AppView, AppActionView)> {
    if v.error is Some {
        Some(dismissed(v))
    } else {
        match v.mode {
            Mode::FilePicker => picker_key(v, key),
            Mode::Viewer => viewer_key(v, key),
            Mode::Search => search_key(v, key),
        }
    }
}

/// The result of a step as the caller sees it.
pub open spec fn step_result(r: Option<AppAction>) -> Option<AppActionView> {
    match r {
        Some(a) => Some(a@),
        None => None,
    }
}

/// The answer's action, if there is an answer.
pub open spec fn step_action(o: Option<(AppView, AppActionView)>) -> Option<AppActionView> {
    match o {
        Some((_, a)) => Some(a),
        None => None,
    }
}

impl App {
    /// Answers a key on the document.
    fn handle_viewer_key(&mut self, key: KeyInput) -> (r: Option<AppAction>)
        ensures
            step_result(r) == step_action(viewer_key(old(self)@, key)),
            viewer_key(old(self)@, key) matches Some((nv, _)) ==> final(self)@ == nv,
            r is None ==> final(self)@ == old(self)@,
    {
        match key {
            KeyInput::Char('q') | KeyInput::Esc => {
                match self.input_source {
                    InputSource::Picker => {
                        self.mode = Mode::FilePicker;
                        self.current_file = None;
                    },
                    _ => {
                        self.should_quit = true;
                    },
                }
            },
            KeyInput::Char('j') | KeyInput::Down => {
                if !self.scroll_down(1) {
                    return None;
                }
            },
            KeyInput::Char('k') | KeyInput::Up => self.scroll_up(1),
            KeyInput::Char('d') | KeyInput::PageDown => {
                if !self.scroll_down(self.viewport_height / 2) {
                    return None;
                }
            },
            KeyInput::Char('u') | KeyInput::PageUp => self.scroll_up(self.viewport_height / 2),
            KeyInput::Char('g') | KeyInput::Home => {
                self.scroll_offset = 0;
            },
            KeyInput::Char('G') | KeyInput::End => {
                self.scroll_offset = self.max_scroll();
            },
            KeyInput::Char('/') => {
                self.mode = Mode::Search;
                self.search.active = true;
                self.search.query = String::new();
            },
            KeyInput::Char('n') => {
                if self.search.matches.len() > 0 {
                    if self.search.current_match == usize::MAX {
                        return None;
                    }
                    let cur = self.search.current_match;
                    self.search.next_match();
                    if !self.scroll_to_search_match() {
                        self.search.current_match = cur;
                        assert(self@ =~= old(self)@);
                        return None;
                    }
                }
            },
            KeyInput::Char('N') => {
                if self.search.matches.len() > 0 {
                    let cur = self.search.current_match;
                    self.search.prev_match();
                    if !self.scroll_to_search_match() {
                        self.search.current_match = cur;
                        assert(self@ =~= old(self)@);
                        return None;
                    }
                }
            },
            KeyInput::Tab => {
                if !self.next_link() {
                    return None;
                }
            },
            KeyInput::BackTab => {
                if !self.prev_link() {
                    return None;
                }
            },
            KeyInput::Enter => {
                return Some(self.open_focused_link());
            },
            KeyInput::Char('w') => {
                self.table_wrap = !self.table_wrap;
            },
            _ => {},
        }
        Some(AppAction::Nothing)
    }
}


/// The answer to a mouse event: the wheel scrolls the document; a click on
/// the document opens the first link on the clicked line; a click on the file
/// list selects the clicked row (the first row is the frame).
pub open spec fn mouse_step(v: AppView, m: MouseInput) -> Option<(AppView, AppActionView)> {
    match m {
        MouseInput::ScrollUp => if v.mode == Mode::Viewer { quiet(Some(scrolled_up(v, 3))) } else { quiet(Some(v)) },
        MouseInput::ScrollDown => if v.mode == Mode::Viewer { quiet(scrolled_down(v, 3)) } else { quiet(Some(v)) },
        MouseInput::Down(row) => if v.mode == Mode::Viewer {
            match first_link_on(v.links, v.scroll_offset + row, 0) {
                Some(i) => {
                    let v1 = AppView { focused_link: Some(i as usize), ..v };
                    Some((v1, open_link_action(v1)))
                },
                None => quiet(Some(v)),
            }
        } else if v.mode == Mode::FilePicker {
            match v.picker {
                Some(p) => if row > 0 && row <= p.rows.len() {
                    quiet(Some(with_selection(v, Some((row - 1) as usize))))
                } else {
                    quiet(Some(v))
                },
                None => quiet(Some(v)),
            }
        } else {
            quiet(Some(v))
        },
        MouseInput::Other => quiet(Some(v)),
    }
}

/// The first link from index `i` on that stands on `line`.
pub open spec fn first_link_on(links: Seq<LinkView>, line: int, i: int) -> Option<int>
    decreases links.len() - i,
{
    if i < 0 || i >= links.len() {
        None
    } else if links[i].line_index == line {
        Some(i)
    } else {
        first_link_on(links, line, i + 1)
    }
}

impl App {
    /// Answers a key on the search line.
    fn handle_search_key(&mut self, key: KeyInput) -> (r: Option<AppAction>)
        ensures
            step_result(r) == step_action(search_key(old(self)@, key)),
            search_key(old(self)@, key) matches Some((nv, _)) ==> final(self)@ == nv,
            r is None ==> final(self)@ == old(self)@,
    {
        match key {
            KeyInput::Esc => {
                self.search.clear();
                self.mode = Mode::Viewer;
            },
            KeyInput::Enter => {
                let q = chars_of(self.search.query.as_str());
                let was_active = self.search.active;
                let was_mode = self.mode;
                self.search.active = q.len() > 0;
                self.mode = Mode::Viewer;
                if self.search.active {
                    if !self.scroll_to_search_match() {
                        self.search.active = was_active;
                        self.mode = was_mode;
                        assert(self@ =~= old(self)@);
                        return None;
                    }
                }
            },
            KeyInput::Backspace => {
                let q = chars_of(self.search.query.as_str());
                let typed = string_from_chars(&q, 0, q.len());
                assert(typed@ =~= old(self)@.search.query);
                if q.len() > 0 {
                    self.search.query = string_from_chars(&q, 0, q.len() - 1);
                    assert(self.search.query@ =~= old(self)@.search.query.drop_last());
                }
                if !self.search.search_checked(self.lines.as_slice()) {
                    self.search.query = typed;
                    assert(self@ =~= old(self)@);
                    return None;
                }
            },
            KeyInput::Char(c) => {
                let q = chars_of(self.search.query.as_str());
                let typed = string_from_chars(&q, 0, q.len());
                assert(typed@ =~= old(self)@.search.query);
                push_char(&mut self.search.query, c);
                if !self.search.search_checked(self.lines.as_slice()) {
                    self.search.query = typed;
                    assert(self@ =~= old(self)@);
                    return None;
                }
            },
            _ => {},
        }
        Some(AppAction::Nothing)
    }

    /// Answers a key on the file list.
    fn handle_picker_key(&mut self, key: KeyInput) -> (r: Option<AppAction>)
        ensures
            step_result(r) == step_action(picker_key(old(self)@, key)),
            picker_key(old(self)@, key) matches Some((nv, _)) ==> final(self)@ == nv,
            r is None ==> final(self)@ == old(self)@,
    {
        let mut picker = match self.file_picker.take() {
            Some(p) => p,
            None => {
                return Some(AppAction::Nothing);
            },
        };
        let ghost p0 = picker;
        let mut action = AppAction::Nothing;
        match key {
            KeyInput::Char('q') | KeyInput::Esc => {
                self.should_quit = true;
            },
            KeyInput::Char('j') | KeyInput::Down => picker.move_down(),
            KeyInput::Char('k') | KeyInput::Up => picker.move_up(),
            KeyInput::Char('g') | KeyInput::Home => picker.jump_top(),
            KeyInput::Char('G') | KeyInput::End => picker.jump_bottom(),
            KeyInput::Char('d') | KeyInput::PageDown => {
                if let Some(i) = picker.selected {
                    if i > usize::MAX - 10 {
                        self.file_picker = Some(picker);
                        assert(self@ =~= old(self)@);
                        return None;
                    }
                }
                picker.page_down(10);
            },
            KeyInput::Char('u') | KeyInput::PageUp => picker.page_up(10),
            KeyInput::Enter => {
                action = match picker.enter_selected() {
                    PickerAction::Nothing => AppAction::Nothing,
                    PickerAction::ChangeDir(d) => AppAction::ListDir(d),
                    PickerAction::OpenFile(f) => AppAction::OpenFile(f),
                };
            },
            _ => {},
        }
        self.file_picker = Some(picker);
        let ghost step = picker_key(old(self)@, key)->0;
        assert(self@ =~= step.0);
        Some(action)
    }

    /// Answers a key: a shown error is dismissed first; otherwise the screen
    /// shown answers. `None` when the answer cannot be computed: a search
    /// that cannot go on, or a position past its integer range.
    pub fn handle_key(&mut self, key: KeyInput) -> (r: Option<AppAction>)
        ensures
            step_result(r) == step_action(key_step(old(self)@, key)),
            key_step(old(self)@, key) matches Some((nv, _)) ==> final(self)@ == nv,
            r is None ==> final(self)@ == old(self)@,
    {
        if self.error_message.is_some() {
            self.error_message = None;
            let mut action = AppAction::Nothing;
            match self.input_source {
                InputSource::FileArg(_) => {
                    self.should_quit = true;
                },
                _ => {
                    if self.mode == Mode::Viewer {
                        self.mode = Mode::FilePicker;
                        if self.file_picker.is_none() {
                            action = AppAction::NewPicker;
                        }
                    }
                },
            }
            assert(self@ =~= dismissed(old(self)@).0);
            return Some(action);
        }
        match self.mode {
            Mode::FilePicker => self.handle_picker_key(key),
            Mode::Viewer => self.handle_viewer_key(key),
            Mode::Search => self.handle_search_key(key),
        }
    }

    /// Answers a mouse event. `None` when the scroll position would pass its
    /// integer range.
    pub fn handle_mouse(&mut self, mouse: MouseInput) -> (r: Option<AppAction>)
        ensures
            step_result(r) == step_action(mouse_step(old(self)@, mouse)),
            mouse_step(old(self)@, mouse) matches Some((nv, _)) ==> final(self)@ == nv,
            r is None ==> final(self)@ == old(self)@,
    {
        match mouse {
            MouseInput::ScrollUp => {
                if self.mode == Mode::Viewer {
                    self.scroll_up(3);
                }
            },
            MouseInput::ScrollDown => {
                if self.mode == Mode::Viewer {
                    if !self.scroll_down(3) {
                        return None;
                    }
                }
            },
            MouseInput::Down(row) => {
                if self.mode == Mode::Viewer {
                    let click_line: usize = self.scroll_offset as usize + row as usize;
                    let mut i: usize = 0;
                    while i < self.links.len()
                        invariant
                            i <= self.links.len(),
                            *self == *old(self),
                            mouse == MouseInput::Down(row),
                            self.mode == Mode::Viewer,
                            click_line == self.scroll_offset + row,
                            first_link_on(links_view(self.links@), click_line as int, 0)
                                == first_link_on(links_view(self.links@), click_line as int, i as int),
                        decreases self.links.len() - i,
                    {
                        if self.links[i].line_index == click_line {
                            assert(links_view(self.links@)[i as int] == self.links@[i as int]@);
                            assert(first_link_on(links_view(self.links@), click_line as int, i as int) == Some(i as int));
                            self.focused_link = Some(i);
                            assert(self@ =~= AppView { focused_link: Some(i), ..old(self)@ });
                            return Some(self.open_focused_link());
                        }
                        assert(links_view(self.links@)[i as int] == self.links@[i as int]@);
                        i = i + 1;
                    }
                } else if self.mode == Mode::FilePicker {
                    match self.file_picker.take() {
                        Some(mut p) => {
                            let r = row as usize;
                            if r > 0 && r <= p.entries.len() {
                                p.selected = Some(r - 1);
                            }
                            self.file_picker = Some(p);
                            let ghost step = mouse_step(old(self)@, mouse)->0;
                            assert(self@ =~= step.0);
                        },
                        None => {},
                    }
                }
            },
            MouseInput::Other => {},
        }
        Some(AppAction::Nothing)
    }
}


// ---------------------------------------------------------------- loading

/// The file name part of a path, as `Path::file_name` gives it.
pub uninterp spec fn file_name_of(path: Seq<char>) -> Option<Seq<char>>;

/// The file name of `path`.
/// Trusted: calls `std::path::Path::file_name`, whose result depends on the
/// path text alone; `None` when the path ends in `..` or is a root.
#[verifier::external_body]
fn path_file_name(path: &str) -> (r: Option<String>)
    ensures
        match r {
            Some(n) => file_name_of(path@) == Some(n@),
            None => file_name_of(path@) is None,
        },
{
    match std::path::Path::new(path).file_name() {
        Some(n) => Some(n.to_string_lossy().into_owned()),
        None => None,
    }
}

/// The name shown for a file: its file name, or `<unknown>`.
pub open spec fn shown_name(path: Seq<char>) -> Seq<char> {
    match file_name_of(path) {
        Some(n) => n,
        None => "<unknown>"@,
    }
}

/// The state after showing a rendered document named `filename`: its lines,
/// links, code blocks and word count, no focused link, no search.
pub open spec fn loaded(v: AppView, res: ResultView, filename: Seq<char>) -> AppView {
    AppView {
        lines: res.lines,
        links: res.links,
        code_blocks: res.code_blocks,
        word_count: res.word_count as usize,
        filename,
        focused_link: None,
        search: SearchView { query: Seq::empty(), matches: Seq::empty(), current: 0, active: false },
        ..v
    }
}

/// The rendering of `content` for the viewer's theme at `width` columns.
pub open spec fn rendered(v: AppView, content: Seq<char>, width: u16) -> Option<ResultView> {
    render_spec(parsed_events(content, VIEWER_OPTIONS), v.theme, width)
}

/// The state after showing the file `path`, rendered as `res` and named by its file name.
pub open spec fn file_loaded(v: AppView, path: Seq<char>, res: ResultView) -> AppView {
    AppView { current_file: Some(path), ..loaded(v, res, shown_name(path)) }
}

/// The first code block from index `i` on with id `id`.
pub open spec fn find_block(blocks: Seq<CodeBlockRange>, id: usize, i: int) -> Option<int>
    decreases blocks.len() - i,
{
    if i < 0 || i >= blocks.len() {
        None
    } else if blocks[i].block_id == id {
        Some(i)
    } else {
        find_block(blocks, id, i + 1)
    }
}

/// A code block after the lines from `start` on moved by `diff`: blocks that
/// begin after `start` move.
pub open spec fn shift_block(b: CodeBlockRange, start: int, diff: int) -> CodeBlockRange {
    if b.start_line > start {
        CodeBlockRange { start_line: (b.start_line + diff) as usize, end_line: (b.end_line + diff) as usize, ..b }
    } else {
        b
    }
}

/// A link after the lines from `end` on moved by `diff`.
pub open spec fn shift_link(l: LinkView, end: int, diff: int) -> LinkView {
    if l.line_index >= end {
        LinkView { line_index: (l.line_index + diff) as usize, ..l }
    } else {
        l
    }
}

/// `x` fits a `usize`.
pub open spec fn fits(x: int) -> bool {
    0 <= x <= usize::MAX
}

/// Every moved line number stays in range.
pub open spec fn shifts_fit(v: AppView, start: int, end: int, diff: int) -> bool {
    &&& forall|k: int| 0 <= k < v.code_blocks.len() && #[trigger] v.code_blocks[k].start_line > start
            ==> fits(v.code_blocks[k].start_line + diff) && fits(v.code_blocks[k].end_line + diff)
    &&& forall|k: int| 0 <= k < v.links.len() && #[trigger] v.links[k].line_index >= end
            ==> fits(v.links[k].line_index + diff)
}

/// The document after the highlighted lines of block `id` replace its plain
/// lines; later blocks and links move by the difference in length. The state
/// is unchanged when no block has that id; `None` when the block's range does
/// not fit the document or a moved line number leaves its range.
pub open spec fn highlight_applied(v: AppView, id: usize, new_lines: Seq<Seq<SpanView>>) -> Option<AppView> {
    match find_block(v.code_blocks, id, 0) {
        None => Some(v),
        Some(b) => {
            let start = v.code_blocks[b].start_line as int;
            let end = v.code_blocks[b].end_line as int;
            let diff = new_lines.len() - (end - start);
            if start > v.lines.len() || end < start || !shifts_fit(v, start, end, diff) {
                None
            } else {
                Some(AppView {
                    lines: v.lines.take(start) + new_lines + (if end < v.lines.len() { v.lines.skip(end) } else { Seq::empty() }),
                    code_blocks: v.code_blocks.map_values(|c: CodeBlockRange| shift_block(c, start, diff)),
                    links: v.links.map_values(|l: LinkView| shift_link(l, end, diff)),
                    ..v
                })
            }
        },
    }
}

impl App {
    /// Renders `content` and shows it as the document `filename`; returns the
    /// code blocks to highlight. `None`, with nothing changed, when the text
    /// cannot be rendered.
    pub fn load_content(&mut self, content: &str, filename: &str, terminal_width: u16) -> (r: Option<Vec<HighlightRequest>>)
        ensures
            r is None <==> rendered(old(self)@, content@, terminal_width) is None,
            r is None ==> final(self)@ == old(self)@,
            r matches Some(reqs) ==> ({
                let res = rendered(old(self)@, content@, terminal_width)->0;
                &&& final(self)@ == loaded(old(self)@, res, filename@)
                &&& requests_view(reqs@) == res.requests
            }),
    {
        match parse_markdown(content, &self.theme, terminal_width) {
            None => None,
            Some(res) => {
                let ParseResult { lines, links, code_blocks, highlight_requests, word_count } = res;
                self.lines = lines;
                self.links = links;
                self.code_blocks = code_blocks;
                self.word_count = word_count;
                self.filename = to_owned_string(filename);
                self.focused_link = None;
                self.search.clear();
                assert(self@ =~= loaded(old(self)@, rendered(old(self)@, content@, terminal_width)->0, filename@));
                Some(highlight_requests)
            },
        }
    }

    /// Shows the file `path`, whose text is `content`, named by its file
    /// name; returns the code blocks to highlight. `None`, with nothing
    /// changed, when the text cannot be rendered.
    pub fn load_file(&mut self, path: &str, content: &str, terminal_width: u16) -> (r: Option<Vec<HighlightRequest>>)
        ensures
            r is None <==> rendered(old(self)@, content@, terminal_width) is None,
            r is None ==> final(self)@ == old(self)@,
            r matches Some(reqs) ==> ({
                let res = rendered(old(self)@, content@, terminal_width)->0;
                &&& final(self)@ == file_loaded(old(self)@, path@, res)
                &&& requests_view(reqs@) == res.requests
            }),
    {
        let name = match path_file_name(path) {
            Some(n) => n,
            None => to_owned_string("<unknown>"),
        };
        let r = self.load_content(content, name.as_str(), terminal_width);
        if r.is_some() {
            self.current_file = Some(to_owned_string(path));
            assert(self@ =~= file_loaded(old(self)@, path@, rendered(old(self)@, content@, terminal_width)->0));
        }
        r
    }

    /// Replaces the plain lines of a code block by its highlighted lines and
    /// moves the later blocks and links; false, with nothing changed, when
    /// the block's range does not fit the document or a moved line number
    /// leaves its range.
    pub fn apply_highlight(&mut self, result: HighlightResult) -> (ok: bool)
        ensures
            ok == highlight_applied(old(self)@, result.block_id, lines_view(result.lines@)) is Some,
            ok ==> final(self)@ == highlight_applied(old(self)@, result.block_id, lines_view(result.lines@))->0,
            !ok ==> final(self)@ == old(self)@,
    {
        let ghost v = self@;
        let mut bi: usize = 0;
        while bi < self.code_blocks.len()
            invariant
                bi <= self.code_blocks.len(),
                v == self@,
                find_block(v.code_blocks, result.block_id, 0) == find_block(v.code_blocks, result.block_id, bi as int),
            ensures
                bi <= self.code_blocks.len(),
                v == self@,
                find_block(v.code_blocks, result.block_id, 0) == find_block(v.code_blocks, result.block_id, bi as int),
                bi < self.code_blocks.len() ==> self.code_blocks@[bi as int].block_id == result.block_id,
            decreases self.code_blocks.len() - bi,
        {
            if self.code_blocks[bi].block_id == result.block_id {
                break;
            }
            bi = bi + 1;
        }
        if bi >= self.code_blocks.len() {
            return true;
        }
        assert(find_block(v.code_blocks, result.block_id, 0) == Some(bi as int));
        let start = self.code_blocks[bi].start_line;
        let end = self.code_blocks[bi].end_line;
        if start > self.lines.len() || end < start {
            return false;
        }
        let new_len = result.lines.len();
        let diff: i128 = new_len as i128 - (end - start) as i128;
        // every moved position must stay in range
        let mut k: usize = 0;
        while k < self.code_blocks.len()
            invariant
                k <= self.code_blocks.len(),
                v == self@,
                diff == new_len - (end - start),
                bi < v.code_blocks.len(),
                find_block(v.code_blocks, result.block_id, 0) == Some(bi as int),
                start == v.code_blocks[bi as int].start_line,
                end == v.code_blocks[bi as int].end_line,
                start <= v.lines.len(),
                start <= end,
                new_len == lines_view(result.lines@).len(),
                forall|j: int| 0 <= j < k && #[trigger] v.code_blocks[j].start_line > start
                    ==> fits(v.code_blocks[j].start_line + diff) && fits(v.code_blocks[j].end_line + diff),
            decreases self.code_blocks.len() - k,
        {
            let c = self.code_blocks[k];
            if c.start_line > start {
                let a: i128 = c.start_line as i128 + diff;
                let b: i128 = c.end_line as i128 + diff;
                if a < 0 || a > usize::MAX as i128 || b < 0 || b > usize::MAX as i128 {
                    assert(!shifts_fit(v, start as int, end as int, diff as int)) by {
                        assert(v.code_blocks[k as int].start_line > start);
                    }
                    return false;
                }
            }
            k = k + 1;
        }
        let mut k: usize = 0;
        while k < self.links.len()
            invariant
                k <= self.links.len(),
                v == self@,
                diff == new_len - (end - start),
                bi < v.code_blocks.len(),
                find_block(v.code_blocks, result.block_id, 0) == Some(bi as int),
                start == v.code_blocks[bi as int].start_line,
                end == v.code_blocks[bi as int].end_line,
                start <= v.lines.len(),
                start <= end,
                new_len == lines_view(result.lines@).len(),
                forall|j: int| 0 <= j < self.code_blocks.len() && #[trigger] v.code_blocks[j].start_line > start
                    ==> fits(v.code_blocks[j].start_line + diff) && fits(v.code_blocks[j].end_line + diff),
                forall|j: int| 0 <= j < k && #[trigger] v.links[j].line_index >= end ==> fits(v.links[j].line_index + diff),
            decreases self.links.len() - k,
        {
            assert(v.links[k as int] == self.links@[k as int]@);
            let li = self.links[k].line_index;
            if li >= end {
                let a: i128 = li as i128 + diff;
                if a < 0 || a > usize::MAX as i128 {
                    assert(!shifts_fit(v, start as int, end as int, diff as int)) by {
                        assert(v.links[k as int].line_index >= end);
                    }
                    return false;
                }
            }
            k = k + 1;
        }
        assert(shifts_fit(v, start as int, end as int, diff as int));
        // the new lines
        let mut new_lines: Vec<Line> = Vec::new();
        let mut i: usize = 0;
        while i < start
            invariant
                i <= start <= self.lines.len(),
                v == self@,
                lines_view(new_lines@) =~= v.lines.take(i as int),
            decreases start - i,
        {
            new_lines.push(self.lines[i].copy());
            proof {
                crate::style::lemma_lines_push(new_lines@.drop_last(), new_lines@.last());
                assert(new_lines@.drop_last().push(new_lines@.last()) =~= new_lines@);
                assert(v.lines.take(i + 1) =~= v.lines.take(i as int).push(v.lines[i as int]));
            }
            i = i + 1;
        }
        let ghost hl = lines_view(result.lines@);
        let mut extra = result.lines;
        let ghost before = new_lines@;
        new_lines.append(&mut extra);
        proof {
            crate::style::lemma_lines_add_auto(before, result.lines@);
            assert(new_lines@ == before + result.lines@);
        }
        let ghost mid = lines_view(new_lines@);
        if end < self.lines.len() {
            let mut i: usize = end;
            while i < self.lines.len()
                invariant
                    end <= i <= self.lines.len(),
                    v == self@,
                    lines_view(new_lines@) =~= mid + v.lines.subrange(end as int, i as int),
                decreases self.lines.len() - i,
            {
                let ghost prev = new_lines@;
                new_lines.push(self.lines[i].copy());
                proof {
                    assert(v.lines[i as int] == self.lines@[i as int]@);
                    crate::style::lemma_lines_push(prev, new_lines@.last());
                    assert(prev.push(new_lines@.last()) =~= new_lines@);
                    assert(v.lines.subrange(end as int, i + 1) =~= v.lines.subrange(end as int, i as int).push(v.lines[i as int]));
                    assert(lines_view(new_lines@) =~= (mid + v.lines.subrange(end as int, i as int)).push(v.lines[i as int]));
                }
                i = i + 1;
            }
            assert(v.lines.subrange(end as int, v.lines.len() as int) =~= v.lines.skip(end as int));
        } else {
            assert(mid =~= mid + Seq::<Seq<SpanView>>::empty());
        }
        // the moved blocks and links
        let mut blocks: Vec<CodeBlockRange> = Vec::new();
        let mut k: usize = 0;
        while k < self.code_blocks.len()
            invariant
                k <= self.code_blocks.len(),
                v == self@,
                diff == new_len - (end - start),
                shifts_fit(v, start as int, end as int, diff as int),
                blocks@ =~= v.code_blocks.take(k as int).map_values(|c: CodeBlockRange| shift_block(c, start as int, diff as int)),
            decreases self.code_blocks.len() - k,
        {
            let c = self.code_blocks[k];
            if c.start_line > start {
                assert(fits(v.code_blocks[k as int].start_line + diff));
                let a: i128 = c.start_line as i128 + diff;
                let b: i128 = c.end_line as i128 + diff;
                blocks.push(CodeBlockRange { start_line: a as usize, end_line: b as usize, ..c });
            } else {
                blocks.push(c);
            }
            proof {
                assert(v.code_blocks.take(k + 1) =~= v.code_blocks.take(k as int).push(v.code_blocks[k as int]));
            }
            k = k + 1;
        }
        let mut links: Vec<LinkInfo> = Vec::new();
        let mut k: usize = 0;
        while k < self.links.len()
            invariant
                k <= self.links.len(),
                v == self@,
                diff == new_len - (end - start),
                shifts_fit(v, start as int, end as int, diff as int),
                links_view(links@) =~= v.links.take(k as int).map_values(|l: LinkView| shift_link(l, end as int, diff as int)),
            decreases self.links.len() - k,
        {
            assert(v.links[k as int] == self.links@[k as int]@);
            let l = &self.links[k];
            let li = if l.line_index >= end {
                assert(fits(v.links[k as int].line_index + diff));
                let a: i128 = l.line_index as i128 + diff;
                a as usize
            } else {
                l.line_index
            };
            let ghost prevl = links@;
            links.push(LinkInfo { line_index: li, span_start: l.span_start, url: l.url.clone() });
            proof {
                assert(links@ =~= prevl.push(links@.last()));
                assert(links_view(links@) =~= links_view(prevl).push(links@.last()@));
                assert(v.links.take(k + 1).map_values(|l: LinkView| shift_link(l, end as int, diff as int))
                    =~= v.links.take(k as int).map_values(|l: LinkView| shift_link(l, end as int, diff as int)).push(shift_link(v.links[k as int], end as int, diff as int)));
                assert(v.links.take(k + 1) =~= v.links.take(k as int).push(v.links[k as int]));
                assert(links_view(links@) =~= links_view(links@.drop_last()).push(links@.last()@));
                assert(links@.last()@ == shift_link(v.links[k as int], end as int, diff as int));
            }
            k = k + 1;
        }
        assert(v.code_blocks.take(self.code_blocks.len() as int) =~= v.code_blocks);
        assert(v.links.take(self.links.len() as int) =~= v.links);
        self.lines = new_lines;
        self.code_blocks = blocks;
        self.links = links;
        assert(self@ =~= highlight_applied(v, result.block_id, hl)->0);
        true
    }
}


/// The text of a read, or its error.
pub open spec fn read_view(r: Result<String, String>) -> Result<Seq<char>, Seq<char>> {
    match r {
        Ok(c) => Ok(c@),
        Err(e) => Err(e@),
    }
}

/// The code blocks to highlight after a read: those of the rendered text,
/// none after a read error.
pub open spec fn read_requests(v: AppView, read: Result<Seq<char>, Seq<char>>, width: u16) -> Seq<RequestView> {
    match read {
        Ok(c) => match rendered(v, c, width) {
            Some(res) => res.requests,
            None => Seq::empty(),
        },
        Err(_) => Seq::empty(),
    }
}

/// Opening a file chosen in the list: its text shown (rendered 80 columns
/// wide) and the document screen shown, or an error naming the failure.
pub open spec fn picked_opened(v: AppView, path: Seq<char>, read: Result<Seq<char>, Seq<char>>) -> Option<AppView> {
    match read {
        Ok(c) => match rendered(v, c, 80) {
            Some(res) => Some(AppView { mode: Mode::Viewer, ..file_loaded(v, path, res) }),
            None => None,
        },
        Err(e) => Some(AppView { error: Some("Failed to open file: "@ + e), ..v }),
    }
}

/// The first document: the file given (or its read error), or the text piped in.
pub open spec fn initial_loaded(v: AppView, read: Result<Seq<char>, Seq<char>>, width: u16) -> Option<AppView> {
    match v.input {
        InputView::FileArg(p) => match read {
            Ok(c) => match rendered(v, c, width) {
                Some(res) => Some(file_loaded(v, p, res)),
                None => None,
            },
            Err(e) => Some(AppView { error: Some(e), ..v }),
        },
        InputView::Stdin => match read {
            Ok(c) => match rendered(v, c, width) {
                Some(res) => Some(loaded(v, res, "<stdin>"@)),
                None => None,
            },
            Err(_) => Some(v),
        },
        InputView::Picker => Some(v),
    }
}

/// After the watched file changed: its new text shown (or the read error),
/// and the scroll position kept within the document.
pub open spec fn reloaded(v: AppView, read: Result<Seq<char>, Seq<char>>, width: u16) -> Option<AppView> {
    match v.current_file {
        None => Some(v),
        Some(p) => {
            let v1 = match read {
                Ok(c) => match rendered(v, c, width) {
                    Some(res) => Some(file_loaded(v, p, res)),
                    None => None,
                },
                Err(e) => Some(AppView { error: Some("Reload failed: "@ + e), ..v }),
            };
            match v1 {
                Some(w) => Some(AppView { scroll_offset: imin(v.scroll_offset as int, last_scroll(w) as int) as u16, ..w }),
                None => None,
            }
        },
    }
}

/// The document is shown (on its own or with the search line).
pub open spec fn shows_document(v: AppView) -> bool {
    v.mode == Mode::Viewer || v.mode == Mode::Search
}

/// After the terminal was resized: the shown file rendered anew at the new
/// width; a read error is ignored.
pub open spec fn resized_view(v: AppView, read: Result<Seq<char>, Seq<char>>, width: u16) -> Option<AppView> {
    match v.current_file {
        Some(p) => if shows_document(v) {
            match read {
                Ok(c) => match rendered(v, c, width) {
                    Some(res) => Some(file_loaded(v, p, res)),
                    None => None,
                },
                Err(_) => Some(v),
            }
        } else {
            Some(v)
        },
        None => Some(v),
    }
}

impl App {
    /// Shows a file chosen in the list, whose read gave `read`; returns the
    /// code blocks to highlight. `None`, with nothing changed, when the text
    /// cannot be rendered.
    pub fn open_picked_file(&mut self, path: &str, read: Result<String, String>) -> (r: Option<Vec<HighlightRequest>>)
        ensures
            r is None <==> picked_opened(old(self)@, path@, read_view(read)) is None,
            r is None ==> final(self)@ == old(self)@,
            r is Some ==> final(self)@ == picked_opened(old(self)@, path@, read_view(read))->0,
            r matches Some(reqs) ==> requests_view(reqs@) == read_requests(old(self)@, read_view(read), 80),
    {
        match read {
            Ok(content) => {
                let r = self.load_file(path, content.as_str(), 80);
                if r.is_some() {
                    self.mode = Mode::Viewer;
                    assert(self@ =~= picked_opened(old(self)@, path@, read_view(Ok(content)))->0);
                }
                r
            },
            Err(e) => {
                let mut msg = to_owned_string("Failed to open file: ");
                push_str(&mut msg, e.as_str());
                self.error_message = Some(msg);
                assert(self@ =~= picked_opened(old(self)@, path@, read_view(Err(e)))->0);
                Some(Vec::new())
            },
        }
    }

    /// Shows the first document: the text of the file given (or its read
    /// error), or the text piped in; returns the code blocks to highlight.
    /// `None`, with nothing changed, when the text cannot be rendered.
    pub fn load_initial(&mut self, read: Result<String, String>, terminal_width: u16) -> (r: Option<Vec<HighlightRequest>>)
        ensures
            r is None <==> initial_loaded(old(self)@, read_view(read), terminal_width) is None,
            r is None ==> final(self)@ == old(self)@,
            r is Some ==> final(self)@ == initial_loaded(old(self)@, read_view(read), terminal_width)->0,
            r matches Some(reqs) ==> requests_view(reqs@) == (if old(self)@.input is Picker { Seq::empty() } else {
                read_requests(old(self)@, read_view(read), terminal_width)
            }),
    {
        match &self.input_source {
            InputSource::FileArg(p) => {
                let path = p.clone();
                match read {
                    Ok(c) => self.load_file(path.as_str(), c.as_str(), terminal_width),
                    Err(e) => {
                        self.error_message = Some(e);
                        assert(self@ =~= initial_loaded(old(self)@, read_view(Err(e)), terminal_width)->0);
                        Some(Vec::new())
                    },
                }
            },
            InputSource::Stdin => match read {
                Ok(c) => self.load_content(c.as_str(), "<stdin>", terminal_width),
                Err(_) => Some(Vec::new()),
            },
            InputSource::Picker => Some(Vec::new()),
        }
    }

    /// The file to read again after it changed on disk.
    pub fn watched_file(&self) -> (r: Option<String>)
        ensures
            opt_string_view(r) == self@.current_file,
    {
        match &self.current_file {
            Some(p) => Some(p.clone()),
            None => None,
        }
    }

    /// The file to render again after a resize: the shown one, if any.
    pub fn resize_file(&self) -> (r: Option<String>)
        ensures
            opt_string_view(r) == (if shows_document(self@) { self@.current_file } else { None }),
    {
        if self.mode == Mode::Viewer || self.mode == Mode::Search {
            self.watched_file()
        } else {
            None
        }
    }

    /// Shows the watched file's new text (or the read error) and keeps the
    /// scroll position within the document; returns the code blocks to
    /// highlight. `None`, with nothing changed, when the text cannot be rendered.
    pub fn file_changed(&mut self, read: Result<String, String>, terminal_width: u16) -> (r: Option<Vec<HighlightRequest>>)
        ensures
            r is None <==> reloaded(old(self)@, read_view(read), terminal_width) is None,
            r is None ==> final(self)@ == old(self)@,
            r is Some ==> final(self)@ == reloaded(old(self)@, read_view(read), terminal_width)->0,
            r matches Some(reqs) ==> requests_view(reqs@) == (if old(self)@.current_file is None { Seq::empty() } else {
                read_requests(old(self)@, read_view(read), terminal_width)
            }),
    {
        let path = match self.watched_file() {
            Some(p) => p,
            None => {
                return Some(Vec::new());
            },
        };
        let old_scroll = self.scroll_offset;
        let ghost v0 = self@;
        let r = match read {
            Ok(c) => {
                let r = self.load_file(path.as_str(), c.as_str(), terminal_width);
                if r.is_none() {
                    return None;
                }
                r
            },
            Err(e) => {
                let mut msg = to_owned_string("Reload failed: ");
                push_str(&mut msg, e.as_str());
                self.error_message = Some(msg);
                Some(Vec::new())
            },
        };
        let ghost v1 = self@;
        let max = max_scroll(self.lines.len(), self.viewport_height);
        self.scroll_offset = if old_scroll <= max { old_scroll } else { max };
        assert(self@ =~= AppView { scroll_offset: imin(old_scroll as int, last_scroll(v1) as int) as u16, ..v1 });
        r
    }

    /// Renders the shown file anew after a resize (a read error is ignored);
    /// returns the code blocks to highlight. `None`, with nothing changed,
    /// when the text cannot be rendered.
    pub fn resized(&mut self, read: Result<String, String>, terminal_width: u16) -> (r: Option<Vec<HighlightRequest>>)
        ensures
            r is None <==> resized_view(old(self)@, read_view(read), terminal_width) is None,
            r is None ==> final(self)@ == old(self)@,
            r is Some ==> final(self)@ == resized_view(old(self)@, read_view(read), terminal_width)->0,
            r matches Some(reqs) ==> requests_view(reqs@) == (if shows_document(old(self)@) && old(self)@.current_file is Some {
                read_requests(old(self)@, read_view(read), terminal_width)
            } else {
                Seq::empty()
            }),
    {
        match self.resize_file() {
            Some(path) => match read {
                Ok(c) => self.load_file(path.as_str(), c.as_str(), terminal_width),
                Err(_) => Some(Vec::new()),
            },
            None => Some(Vec::new()),
        }
    }

    /// Shows a directory listed for the file list (after `ListDir`).
    pub fn dir_listed(&mut self, dir: String, listing: Vec<DirItem>)
        ensures
            old(self).file_picker is None ==> final(self)@ == old(self)@,
            old(self).file_picker is Some ==> ({
                let p = final(self).file_picker->0;
                &&& final(self)@ == AppView { picker: Some(picker_view(&p)), ..old(self)@ }
                &&& p.current_dir@ == dir@
                &&& p.rows() == crate::ui::file_picker::listing_rows(crate::ui::file_picker::parent_of(dir@) is Some, crate::ui::file_picker::items_view(listing@))
                &&& p.selected == crate::ui::file_picker::first_row(p.entries@.len())
            }),
    {
        match self.file_picker.take() {
            Some(mut p) => {
                p.change_dir(dir, listing);
                self.file_picker = Some(p);
                assert(self@ =~= AppView { picker: Some(picker_view(&p)), ..old(self)@ });
            },
            None => {},
        }
    }

    /// Attaches a file list (after `NewPicker`, or at start for the picker).
    pub fn attach_picker(&mut self, picker: FilePicker)
        ensures
            final(self)@ == (AppView { picker: Some(picker_view(&picker)), ..old(self)@ }),
    {
        self.file_picker = Some(picker);
        assert(self@ =~= AppView { picker: Some(picker_view(&picker)), ..old(self)@ });
    }

    /// Takes the height of the screen: the document gets all but the two
    /// bottom rows.
    pub fn set_viewport(&mut self, area_height: u16)
        ensures
            final(self)@ == (AppView { viewport_height: sat_sub(area_height as int, 2) as u16, ..old(self)@ }),
    {
        self.viewport_height = area_height.saturating_sub(2);
        assert(self@ =~= AppView { viewport_height: sat_sub(area_height as int, 2) as u16, ..old(self)@ });
    }
}


// ---------------------------------------------------------------- laws

/// Scrolling into view moves nothing but the scroll position.
proof fn lemma_to_search_match_only_scrolls(v: AppView)
    ensures
        to_search_match(v) matches Some(w) ==> w == (AppView { scroll_offset: w.scroll_offset, ..v }),
{
}

/// Scrolling a link into view moves nothing but the scroll position.
proof fn lemma_to_link_only_scrolls(v: AppView)
    ensures
        to_link(v) matches Some(w) ==> w == (AppView { scroll_offset: w.scroll_offset, ..v }),
{
}

/// The first link found on a line is one of the links.
proof fn lemma_first_link_in_range(links: Seq<LinkView>, line: int, i: int)
    ensures
        first_link_on(links, line, i) matches Some(k) ==> 0 <= k < links.len(),
    decreases links.len() - i,
{
    if 0 <= i < links.len() && links[i].line_index != line {
        lemma_first_link_in_range(links, line, i + 1);
    }
}

/// `(x + 1) % n` stays below `n`, and is `x + 1` below it.
proof fn lemma_succ_mod(x: int, n: int)
    requires
        0 <= x < n,
    ensures
        0 <= (x + 1) % n < n,
        x + 1 < n ==> (x + 1) % n == x + 1,
        x + 1 == n ==> (x + 1) % n == 0,
        (x + 1) % n <= x + 1,
{
    if x + 1 < n {
        assert((x + 1) % n == x + 1) by (nonlinear_arith)
            requires 0 <= x + 1 < n;
    } else {
        assert((x + 1) % n == 0) by (nonlinear_arith)
            requires x + 1 == n, n > 0;
    }
}

/// The document's keys keep the state consistent.
#[verifier::rlimit(60)]
proof fn lemma_viewer_key_wf(v: AppView, key: KeyInput)
    requires
        app_wf(v),
    ensures
        viewer_key(v, key) matches Some((w, _)) ==> app_wf(w),
{
    if key == KeyInput::Char('n') && !key_is(key, 'q', KeyInput::Esc) {
        if v.search.matches.len() > 0 {
            lemma_succ_mod(v.search.current as int, v.search.matches.len() as int);
            lemma_to_search_match_only_scrolls(AppView {
                search: SearchView { current: next_index(v.search.current, v.search.matches.len()), ..v.search },
                ..v
            });
        }
    } else if key == KeyInput::Char('N') {
        if v.search.matches.len() > 0 {
            lemma_to_search_match_only_scrolls(AppView {
                search: SearchView { current: prev_index(v.search.current, v.search.matches.len()), ..v.search },
                ..v
            });
        }
    } else if key == KeyInput::Tab {
        if v.links.len() > 0 {
            if let Some(i) = v.focused_link {
                lemma_succ_mod(i as int, v.links.len() as int);
            }
            lemma_to_link_only_scrolls(AppView { focused_link: Some(next_focus(v.focused_link, v.links.len())), ..v });
        }
    } else if key == KeyInput::BackTab {
        if v.links.len() > 0 {
            lemma_to_link_only_scrolls(AppView { focused_link: Some(prev_focus(v.focused_link, v.links.len())), ..v });
        }
    }
}

/// The search line's keys keep the state consistent.
proof fn lemma_search_key_wf(v: AppView, key: KeyInput)
    requires
        app_wf(v),
    ensures
        search_key(v, key) matches Some((w, _)) ==> app_wf(w),
{
    lemma_to_search_match_only_scrolls(AppView { mode: Mode::Viewer, search: SearchView { active: v.search.query.len() > 0, ..v.search }, ..v });
}

/// Every key keeps the state consistent: the current match, the focused link
/// and the selected file still exist.
pub proof fn lemma_key_keeps_wf(v: AppView, key: KeyInput)
    requires
        app_wf(v),
    ensures
        key_step(v, key) matches Some((w, _)) ==> app_wf(w),
{
    lemma_viewer_key_wf(v, key);
    lemma_search_key_wf(v, key);
}

/// Every mouse event keeps the state consistent.
pub proof fn lemma_mouse_keeps_wf(v: AppView, m: MouseInput)
    requires
        app_wf(v),
    ensures
        mouse_step(v, m) matches Some((w, _)) ==> app_wf(w),
{
    if let MouseInput::Down(row) = m {
        lemma_first_link_in_range(v.links, v.scroll_offset + row, 0);
    }
}

/// Going to the next link and back focuses the same link, and going back and
/// then forward too.
pub proof fn lemma_link_focus_round_trip(i: usize, n: nat)
    requires
        i < n <= usize::MAX,
    ensures
        prev_focus(Some(next_focus(Some(i), n)), n) == i,
        next_focus(Some(prev_focus(Some(i), n)), n) == i,
{
    lemma_succ_mod(i as int, n as int);
    if i == 0 {
        lemma_succ_mod(n - 1, n as int);
    } else {
        lemma_succ_mod(i - 1, n as int);
    }
}

/// The scroll keys and the wheel never scroll past the end of the document
/// once the view is within it.
pub proof fn lemma_scroll_keys_stay_in_document(v: AppView, key: KeyInput)
    requires
        v.error is None,
        v.mode == Mode::Viewer,
        v.scroll_offset <= last_scroll(v),
        key_is(key, 'j', KeyInput::Down) || key_is(key, 'k', KeyInput::Up)
            || key_is(key, 'd', KeyInput::PageDown) || key_is(key, 'u', KeyInput::PageUp)
            || key_is(key, 'g', KeyInput::Home) || key_is(key, 'G', KeyInput::End),
    ensures
        key_step(v, key) matches Some((w, _)) ==> w.scroll_offset <= last_scroll(w),
{
}

/// The wheel never scrolls past the end of the document once the view is
/// within it.
pub proof fn lemma_wheel_stays_in_document(v: AppView, m: MouseInput)
    requires
        v.scroll_offset <= last_scroll(v),
        m == MouseInput::ScrollUp || m == MouseInput::ScrollDown,
    ensures
        mouse_step(v, m) matches Some((w, _)) ==> w.scroll_offset <= last_scroll(w),
{
}

/// Pressing `w` twice on the document gives back the same state.
pub proof fn lemma_wrap_toggle_twice(v: AppView)
    requires
        v.error is None,
        v.mode == Mode::Viewer,
    ensures
        key_step(v, KeyInput::Char('w')) == Some((AppView { table_wrap: !v.table_wrap, ..v }, AppActionView::Nothing)),
        key_step(v, KeyInput::Char('w')) matches Some((w, a)) && a == AppActionView::Nothing
            && key_step(w, KeyInput::Char('w')) == Some((v, AppActionView::Nothing)),
{
    let w = AppView { table_wrap: !v.table_wrap, ..v };
    assert(key_step(v, KeyInput::Char('w')) == Some((w, AppActionView::Nothing)));
    assert(AppView { table_wrap: !w.table_wrap, ..w } =~= v);
}

/// Cancelling the search line leaves the document screen with no query, no
/// match and no highlighting.
pub proof fn lemma_search_cancel_clears(v: AppView)
    requires
        v.error is None,
        v.mode == Mode::Search,
    ensures
        key_step(v, KeyInput::Esc) matches Some((w, _)) && w.mode == Mode::Viewer && w.search.query.len() == 0
            && w.search.matches.len() == 0 && !w.search.active,
{
}

/// Tab then Shift+Tab on the document focuses the link that was focused.
pub proof fn lemma_tab_back_tab(v: AppView)
    requires
        v.error is None,
        v.mode == Mode::Viewer,
        app_wf(v),
        v.focused_link is Some,
    ensures
        key_step(v, KeyInput::Tab) matches Some((w, _)) ==> (key_step(w, KeyInput::BackTab) matches Some((x, _))
            ==> x.focused_link == v.focused_link),
{
    let i = v.focused_link->0;
    let n = v.links.len();
    lemma_succ_mod(i as int, n as int);
    let w0 = AppView { focused_link: Some(next_focus(v.focused_link, n)), ..v };
    lemma_to_link_only_scrolls(w0);
    if let Some(w) = to_link(w0) {
        lemma_to_link_only_scrolls(AppView { focused_link: Some(prev_focus(w.focused_link, n)), ..w });
    }
}

/// Highlighting a block with as many lines as its plain form keeps the
/// document's length, every line outside the block, the blocks and the links.
pub proof fn lemma_highlight_same_length(v: AppView, id: usize, new_lines: Seq<Seq<SpanView>>)
    requires
        find_block(v.code_blocks, id, 0) matches Some(b) && ({
            let blk = v.code_blocks[b];
            blk.start_line <= blk.end_line <= v.lines.len() && new_lines.len() == blk.end_line - blk.start_line
        }),
    ensures
        highlight_applied(v, id, new_lines) matches Some(w) && ({
            let blk = v.code_blocks[find_block(v.code_blocks, id, 0)->0];
            &&& w.lines.len() == v.lines.len()
            &&& forall|k: int| 0 <= k < v.lines.len() && !(blk.start_line <= k < blk.end_line) ==> w.lines[k] == v.lines[k]
            &&& forall|k: int| blk.start_line <= k < blk.end_line ==> w.lines[k] == new_lines[k - blk.start_line]
            &&& w.code_blocks == v.code_blocks
            &&& w.links == v.links
        }),
{
    let b = find_block(v.code_blocks, id, 0)->0;
    lemma_find_block_in_range(v.code_blocks, id, 0);
    let start = v.code_blocks[b].start_line as int;
    let end = v.code_blocks[b].end_line as int;
    assert(shifts_fit(v, start, end, 0));
    let w = highlight_applied(v, id, new_lines)->0;
    assert(v.code_blocks.map_values(|c: CodeBlockRange| shift_block(c, start, 0)) =~= v.code_blocks);
    assert(v.links.map_values(|l: LinkView| shift_link(l, end, 0)) =~= v.links);
}

/// The block found for an id is one of the blocks.
proof fn lemma_find_block_in_range(blocks: Seq<CodeBlockRange>, id: usize, i: int)
    ensures
        find_block(blocks, id, i) matches Some(k) ==> 0 <= k < blocks.len() && blocks[k].block_id == id,
    decreases blocks.len() - i,
{
    if 0 <= i < blocks.len() && blocks[i].block_id != id {
        lemma_find_block_in_range(blocks, id, i + 1);
    }
}


/// Showing a new document, or reloading the shown one, keeps the state
/// consistent: no link is focused and no search is left over.
pub proof fn lemma_loading_keeps_wf(v: AppView, res: ResultView, path: Seq<char>, name: Seq<char>)
    requires
        app_wf(v),
    ensures
        app_wf(loaded(v, res, name)),
        app_wf(file_loaded(v, path, res)),
{
}

/// Replacing a block by its highlighted lines keeps the state consistent.
pub proof fn lemma_highlight_keeps_wf(v: AppView, id: usize, new_lines: Seq<Seq<SpanView>>)
    requires
        app_wf(v),
    ensures
        highlight_applied(v, id, new_lines) matches Some(w) ==> app_wf(w),
{
}


/// After the watched file is read again, the view is within the new document.
pub proof fn lemma_reload_keeps_scroll_in_document(v: AppView, read: Result<Seq<char>, Seq<char>>, width: u16)
    requires
        v.current_file is Some,
    ensures
        reloaded(v, read, width) matches Some(w) ==> w.scroll_offset <= last_scroll(w),
{
}


/// When block `k` has id `k`, looking up an id finds the block at that position.
proof fn lemma_find_block_by_position(blocks: Seq<CodeBlockRange>, id: usize, i: int)
    requires
        0 <= i <= id < blocks.len(),
        forall|k: int| 0 <= k < blocks.len() ==> (#[trigger] blocks[k]).block_id == k,
    ensures
        find_block(blocks, id, i) == Some(id as int),
    decreases id - i,
{
    if i < id {
        assert(blocks[i].block_id == i);
        lemma_find_block_by_position(blocks, id, i + 1);
    }
}

/// Highlighting a code block of a freshly shown document, with as many lines
/// as the block's plain form, succeeds and keeps the document's length.
proof fn lemma_fresh_highlight_fits(
    v: AppView,
    content: Seq<char>,
    width: u16,
    name: Seq<char>,
    id: usize,
    new_lines: Seq<Seq<SpanView>>,
)
    requires
        rendered(v, content, width) is Some,
        rendered(v, content, width)->0.lines.len() <= usize::MAX,
        id < rendered(v, content, width)->0.code_blocks.len(),
        new_lines.len() == rendered(v, content, width)->0.code_blocks[id as int].end_line
            - rendered(v, content, width)->0.code_blocks[id as int].start_line,
    ensures
        highlight_applied(loaded(v, rendered(v, content, width)->0, name), id, new_lines) matches Some(w)
            && w.lines.len() == rendered(v, content, width)->0.lines.len(),
{
    let res = rendered(v, content, width)->0;
    crate::markdown::model::lemma_rendered_layout(parsed_events(content, VIEWER_OPTIONS), v.theme, width);
    let w = loaded(v, res, name);
    lemma_find_block_by_position(w.code_blocks, id, 0);
    lemma_highlight_same_length(w, id, new_lines);
}


/// Highlighting the code of any request of a freshly shown document, framed
/// as the highlighter frames it (one line per code line between two edges),
/// succeeds and keeps the document's length.
pub proof fn lemma_requested_highlight_fits(
    v: AppView,
    content: Seq<char>,
    width: u16,
    name: Seq<char>,
    k: int,
    new_lines: Seq<Seq<SpanView>>,
)
    requires
        rendered(v, content, width) is Some,
        rendered(v, content, width)->0.lines.len() <= usize::MAX,
        0 <= k < rendered(v, content, width)->0.requests.len(),
        new_lines.len() == code_rows(rendered(v, content, width)->0.requests[k].code).len() + 2,
    ensures
        highlight_applied(
            loaded(v, rendered(v, content, width)->0, name),
            rendered(v, content, width)->0.requests[k].block_id,
            new_lines,
        ) matches Some(w) && w.lines.len() == rendered(v, content, width)->0.lines.len(),
{
    let res = rendered(v, content, width)->0;
    crate::markdown::model::lemma_rendered_layout(parsed_events(content, VIEWER_OPTIONS), v.theme, width);
    assert(crate::markdown::model::block_matches_request(res.code_blocks[k], res.requests[k]));
    lemma_fresh_highlight_fits(v, content, width, name, k as usize, new_lines);
}


/// Focusing the previous link undoes focusing the next one; with no links
/// both change nothing; from no focus or the first link, the previous link
/// is the last.
pub proof fn lemma_prev_link_undoes_next(v: AppView)
    requires
        app_wf(v),
        v.links.len() <= usize::MAX,
    ensures
        v.links.len() == 0 ==> next_link_spec(v) == Some(v) && prev_link_spec(v) == Some(v),
        v.links.len() > 0 && (v.focused_link is None || v.focused_link == Some(0usize))
            ==> (prev_link_spec(v) matches Some(w) ==> w.focused_link == Some((v.links.len() - 1) as usize)),
        v.focused_link is Some ==> (next_link_spec(v) matches Some(w)
            ==> (prev_link_spec(w) matches Some(x) ==> x.focused_link == v.focused_link)),
{
    if v.links.len() > 0 {
        lemma_to_link_only_scrolls(AppView { focused_link: Some(prev_focus(v.focused_link, v.links.len())), ..v });
        if let Some(i) = v.focused_link {
            lemma_link_focus_round_trip(i, v.links.len());
            let w0 = AppView { focused_link: Some(next_focus(v.focused_link, v.links.len())), ..v };
            lemma_to_link_only_scrolls(w0);
            if let Some(w) = to_link(w0) {
                lemma_to_link_only_scrolls(AppView { focused_link: Some(prev_focus(w.focused_link, v.links.len())), ..w });
            }
        }
    }
}


/// Bringing the focused link into view puts its line on the screen, when the
/// line fits in 16 bits and the screen has a line.
proof fn lemma_to_link_shows(v: AppView)
    requires
        v.focused_link matches Some(i) && i < v.links.len() && v.links[i as int].line_index <= u16::MAX,
        v.viewport_height > 0,
    ensures
        to_link(v) matches Some(w) ==> w.scroll_offset <= v.links[v.focused_link->0 as int].line_index
            < w.scroll_offset + w.viewport_height,
{
    let l = v.links[v.focused_link->0 as int].line_index;
    assert(line16(l) == l) by (nonlinear_arith)
        requires l <= u16::MAX, line16(l) == (l % 0x10000) as u16;
}

/// Tab and Shift+Tab on the document focus a link and scroll so that its
/// line lies on the screen: `scroll_offset <= line < scroll_offset +
/// viewport_height`, for a screen of at least one line and links on lines
/// that fit in 16 bits.
pub proof fn lemma_focused_link_on_screen(v: AppView)
    requires
        v.error is None,
        v.mode == Mode::Viewer,
        app_wf(v),
        0 < v.links.len() <= usize::MAX,
        forall|k: int| 0 <= k < v.links.len() ==> #[trigger] v.links[k].line_index <= u16::MAX,
        v.viewport_height > 0,
    ensures
        key_step(v, KeyInput::Tab) matches Some((w, _)) ==> (w.focused_link matches Some(i)
            && i < w.links.len()
            && w.scroll_offset <= w.links[i as int].line_index < w.scroll_offset + w.viewport_height),
        key_step(v, KeyInput::BackTab) matches Some((w, _)) ==> (w.focused_link matches Some(i)
            && i < w.links.len()
            && w.scroll_offset <= w.links[i as int].line_index < w.scroll_offset + w.viewport_height),
{
    let n = v.links.len();
    if let Some(i) = v.focused_link {
        lemma_succ_mod(i as int, n as int);
    }
    let w0 = AppView { focused_link: Some(next_focus(v.focused_link, n)), ..v };
    lemma_to_link_only_scrolls(w0);
    lemma_to_link_shows(w0);
    let w1 = AppView { focused_link: Some(prev_focus(v.focused_link, n)), ..v };
    lemma_to_link_only_scrolls(w1);
    lemma_to_link_shows(w1);
}

/// Going to the current match puts its line on the screen, when the line
/// fits in 16 bits and the screen has a line.
proof fn lemma_to_search_match_shows(v: AppView)
    requires
        v.search.current < v.search.matches.len(),
        v.search.matches[v.search.current as int].line_index <= u16::MAX,
        v.viewport_height > 0,
    ensures
        to_search_match(v) matches Some(w) ==> w.scroll_offset <= v.search.matches[v.search.current as int].line_index
            < w.scroll_offset + w.viewport_height,
{
    let l = v.search.matches[v.search.current as int].line_index;
    assert(line16(l) == l) by (nonlinear_arith)
        requires l <= u16::MAX, line16(l) == (l % 0x10000) as u16;
}

/// `n` and `N` on the document make the next or previous match current and
/// scroll so that its line lies on the screen, for a screen of at least one
/// line and matches on lines that fit in 16 bits.
pub proof fn lemma_search_match_on_screen(v: AppView)
    requires
        v.error is None,
        v.mode == Mode::Viewer,
        app_wf(v),
        0 < v.search.matches.len() <= usize::MAX,
        forall|k: int| 0 <= k < v.search.matches.len() ==> #[trigger] v.search.matches[k].line_index <= u16::MAX,
        v.viewport_height > 0,
    ensures
        key_step(v, KeyInput::Char('n')) matches Some((w, _)) ==> (w.search.current < w.search.matches.len()
            && w.scroll_offset <= w.search.matches[w.search.current as int].line_index
                < w.scroll_offset + w.viewport_height),
        key_step(v, KeyInput::Char('N')) matches Some((w, _)) ==> (w.search.current < w.search.matches.len()
            && w.scroll_offset <= w.search.matches[w.search.current as int].line_index
                < w.scroll_offset + w.viewport_height),
{
    let n = v.search.matches.len();
    lemma_succ_mod(v.search.current as int, n as int);
    let w0 = AppView { search: SearchView { current: next_index(v.search.current, n), ..v.search }, ..v };
    lemma_to_search_match_only_scrolls(w0);
    lemma_to_search_match_shows(w0);
    let w1 = AppView { search: SearchView { current: prev_index(v.search.current, n), ..v.search }, ..v };
    lemma_to_search_match_only_scrolls(w1);
    lemma_to_search_match_shows(w1);
}

/// In the file list, a click on screen row `r` with `0 < r <=` the number of
/// rows selects list row `r - 1` (screen row 0 is the frame), keeping the
/// directory and its rows.
pub proof fn lemma_picker_click_selects(v: AppView, row: u16)
    requires
        v.mode == Mode::FilePicker,
        v.picker is Some,
        0 < row <= v.picker->0.rows.len(),
    ensures
        mouse_step(v, MouseInput::Down(row)) matches Some((w, a)) && a == AppActionView::Nothing
            && w.mode == Mode::FilePicker && w.picker is Some
            && w.picker->0.selected == Some((row - 1) as usize)
            && w.picker->0.rows == v.picker->0.rows && w.picker->0.dir == v.picker->0.dir,
{
}

/// On the document with no error shown, `q` or Esc ends the program when the
/// document came from a file argument or from standard input; only when it
/// was opened from the file list does it go back to the list, without ending.
pub proof fn lemma_quit_key(v: AppView, key: KeyInput)
    requires
        v.error is None,
        v.mode == Mode::Viewer,
        key_is(key, 'q', KeyInput::Esc),
    ensures
        key_step(v, key) matches Some((w, a)) && a == AppActionView::Nothing && {
            &&& (v.input is FileArg || v.input is Stdin) ==> w.should_quit && w.mode == Mode::Viewer
                && w.lines == v.lines
            &&& v.input is Picker ==> w.mode == Mode::FilePicker && w.should_quit == v.should_quit
                && w.current_file is None
        },
{
}

/// Highlighting changes styles only: when syntect highlights every line of a
/// requested code block of a freshly rendered document (each line's regions
/// joining to that line), the highlighted lines are as many as the block's
/// placeholder lines, and each has the text of the placeholder line it
/// replaces.
pub proof fn lemma_highlight_keeps_placeholder_text(
    v: AppView,
    content: Seq<char>,
    width: u16,
    k: int,
    language: Seq<char>,
    theme_name: Seq<char>,
    bg: Color,
    border: Color,
)
    requires
        rendered(v, content, width) is Some,
        rendered(v, content, width)->0.lines.len() <= usize::MAX,
        0 <= k < rendered(v, content, width)->0.requests.len(),
        forall|i: int| #![trigger code_rows(rendered(v, content, width)->0.requests[k].code)[i]]
            0 <= i < code_rows(rendered(v, content, width)->0.requests[k].code).len() ==>
            (syntect_line(block_syntax(language), theme_name,
                code_rows(rendered(v, content, width)->0.requests[k].code).take(i),
                code_rows(rendered(v, content, width)->0.requests[k].code)[i]) matches Some(x)
            && regions_text(x) == code_rows(rendered(v, content, width)->0.requests[k].code)[i]),
    ensures
        ({
            let res = rendered(v, content, width)->0;
            let q = res.requests[k];
            let b = res.code_blocks[k];
            let hb = highlighted_block(syntect_rows(block_syntax(language), theme_name, code_rows(q.code)), q.width as nat, bg, border);
            &&& hb.len() == b.end_line - b.start_line
            &&& forall|j: int| 0 <= j < hb.len() ==> line_text(#[trigger] hb[j]) == line_text(res.lines[b.start_line + j])
        }),
{
    let res = rendered(v, content, width)->0;
    crate::markdown::model::lemma_rendered_layout(parsed_events(content, VIEWER_OPTIONS), v.theme, width);
    let q = res.requests[k];
    let b = res.code_blocks[k];
    let cr = code_rows(q.code);
    let rows = syntect_rows(block_syntax(language), theme_name, cr);
    assert(crate::markdown::model::block_matches_request(b, q));
    assert forall|i: int| 0 <= i < rows.len() implies #[trigger] regions_text(rows[i]) == cr[i] by {
        assert(cr[i] == code_rows(res.requests[k].code)[i]);
    }
    let bw = crate::markdown::model::code_width(q.code, width);
    assert(q.width as nat == bw);
    lemma_highlight_keeps_row_text(rows, q.code, bw, bg, border, v.theme);
    let cb = code_block_lines(q.code, bw, v.theme);
    assert(res.lines.subrange(b.start_line as int, b.end_line as int) == cb);
    let hb = highlighted_block(rows, bw, bg, border);
    assert forall|j: int| 0 <= j < hb.len() implies line_text(#[trigger] hb[j]) == line_text(res.lines[b.start_line + j]) by {
        assert(res.lines.subrange(b.start_line as int, b.end_line as int)[j] == res.lines[b.start_line + j]);
    }
}

} // verus!
