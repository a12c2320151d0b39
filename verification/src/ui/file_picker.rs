//! The file list: the Markdown files and folders of a directory.
use vstd::prelude::*;
use crate::text::{chars_of, push_str, strings_view, to_owned_string};

verus! {

broadcast use vstd::seq_lib::group_to_multiset_ensures;

/// One row of the file list.
#[derive(Clone, Debug, PartialEq, Eq)]
pub enum FileEntry {
    ParentDir,
    Directory(String),
    File(String),
}

/// The value of a row: its kind and name.
pub enum EntryView {
    ParentDir,
    Directory(Seq<char>),
    File(Seq<char>),
}

impl View for FileEntry {
    type V = EntryView;

    open spec fn view(&self) -> EntryView {
        match self {
            FileEntry::ParentDir => EntryView::ParentDir,
            FileEntry::Directory(n) => EntryView::Directory(n@),
            FileEntry::File(n) => EntryView::File(n@),
        }
    }
}

/// The rows as values.
pub open spec fn entries_view(v: Seq<FileEntry>) -> Seq<EntryView> {
    v.map_values(|e: FileEntry| e@)
}

/// How a row is shown: a folder or page symbol and the name.
pub open spec fn display_text(e: EntryView) -> Seq<char> {
    match e {
        EntryView::ParentDir => "📁 .."@,
        EntryView::Directory(n) => "📁 "@ + n + "/"@,
        EntryView::File(n) => "📄 "@ + n,
    }
}

impl FileEntry {
    /// How the row is shown.
    pub fn display_name(&self) -> (s: String)
        ensures
            s@ == display_text(self@),
    {
        match self {
            FileEntry::ParentDir => to_owned_string("📁 .."),
            FileEntry::Directory(name) => {
                let mut s = to_owned_string("📁 ");
                push_str(&mut s, name.as_str());
                push_str(&mut s, "/");
                s
            },
            FileEntry::File(name) => {
                let mut s = to_owned_string("📄 ");
                push_str(&mut s, name.as_str());
                s
            },
        }
    }
}

/// `a` comes before `b` (or equals it) when compared from character `i` on,
/// character by character, by code point.
pub open spec fn lex_le_from(a: Seq<char>, b: Seq<char>, i: int) -> bool
    decreases a.len() - i,
{
    if i >= a.len() {
        true
    } else if i >= b.len() {
        false
    } else if (a[i] as u32) < (b[i] as u32) {
        true
    } else if (a[i] as u32) > (b[i] as u32) {
        false
    } else {
        lex_le_from(a, b, i + 1)
    }
}

/// `a` comes before `b` or equals it, in code point order.
pub open spec fn lex_le(a: Seq<char>, b: Seq<char>) -> bool {
    lex_le_from(a, b, 0)
}

/// `x` put into `s` after the last name that comes before it or equals it.
pub open spec fn insert_sorted(s: Seq<Seq<char>>, x: Seq<char>) -> Seq<Seq<char>>
    decreases s.len(),
{
    if s.len() == 0 {
        seq![x]
    } else if lex_le(s.last(), x) {
        s.push(x)
    } else {
        insert_sorted(s.drop_last(), x).push(s.last())
    }
}

/// The names in code point order.
pub open spec fn sort_names(s: Seq<Seq<char>>) -> Seq<Seq<char>>
    decreases s.len(),
{
    if s.len() == 0 {
        Seq::empty()
    } else {
        insert_sorted(sort_names(s.drop_last()), s.last())
    }
}

/// Compares two names in code point order.
pub fn name_le(a: &Vec<char>, b: &Vec<char>) -> (r: bool)
    ensures
        r == lex_le(a@, b@),
{
    let mut i: usize = 0;
    while i < a.len() && i < b.len() && (a[i] as u32) == (b[i] as u32)
        invariant
            i <= a.len(),
            i <= b.len(),
            lex_le(a@, b@) == lex_le_from(a@, b@, i as int),
        decreases a.len() - i,
    {
        i = i + 1;
    }
    if i >= a.len() {
        true
    } else if i >= b.len() {
        false
    } else {
        (a[i] as u32) < (b[i] as u32)
    }
}

/// Where `insert_sorted` puts `x`: after the sorted prefix `s[..j]` when all
/// names from `j` on come after `x`.
proof fn lemma_insert_sorted_split(s: Seq<Seq<char>>, x: Seq<char>, j: int)
    requires
        0 <= j <= s.len(),
        forall|k: int| j <= k < s.len() ==> !lex_le(#[trigger] s[k], x),
    ensures
        insert_sorted(s, x) == insert_sorted(s.take(j), x) + s.skip(j),
    decreases s.len() - j,
{
    if j == s.len() {
        assert(s.take(j) =~= s);
        assert(s.skip(j) =~= Seq::<Seq<char>>::empty());
        assert(insert_sorted(s.take(j), x) + s.skip(j) =~= insert_sorted(s.take(j), x));
    } else {
        let t = s.drop_last();
        lemma_insert_sorted_split(t, x, j);
        assert(t.take(j) =~= s.take(j));
        assert(s.skip(j) =~= t.skip(j).push(s.last()));
        assert(insert_sorted(s, x) == insert_sorted(t, x).push(s.last()));
        assert(insert_sorted(t, x).push(s.last()) =~= insert_sorted(s.take(j), x) + s.skip(j));
    }
}

/// Inserts `x` into the sorted names `v` where `insert_sorted` puts it.
fn insert_name(v: &mut Vec<String>, x: String)
    ensures
        crate::text::strings_view(final(v)@) == insert_sorted(crate::text::strings_view(old(v)@), x@),
{
    let ghost s = crate::text::strings_view(v@);
    let xc = chars_of(x.as_str());
    let mut j: usize = v.len();
    while j > 0
        invariant
            j <= v.len(),
            s == crate::text::strings_view(v@),
            s.len() == v@.len(),
            xc@ == x@,
            forall|k: int| j <= k < s.len() ==> !lex_le(#[trigger] s[k], x@),
        ensures
            j <= v.len(),
            forall|k: int| j <= k < s.len() ==> !lex_le(#[trigger] s[k], x@),
            j == 0 || lex_le(s[j - 1], x@),
        decreases j,
    {
        let c = chars_of(v[j - 1].as_str());
        if name_le(&c, &xc) {
            break;
        }
        j = j - 1;
    }
    proof {
        lemma_insert_sorted_split(s, x@, j as int);
        let p = s.take(j as int);
        if j > 0 {
            assert(p.last() == s[j - 1]);
            assert(p.drop_last() =~= s.take(j - 1));
            assert(insert_sorted(p, x@) == p.push(x@));
        } else {
            assert(insert_sorted(p, x@) =~= p.push(x@));
        }
    }
    v.insert(j, x);
    proof {
        assert(crate::text::strings_view(v@) =~= s.take(j as int).push(x@) + s.skip(j as int));
    }
}


/// The names in code point order.
pub fn sort_strings(v: Vec<String>) -> (r: Vec<String>)
    ensures
        strings_view(r@) == sort_names(strings_view(v@)),
{
    let mut r: Vec<String> = Vec::new();
    let mut v = v;
    let ghost all = strings_view(v@);
    let mut i: usize = 0;
    let n = v.len();
    assert(all.take(0) =~= Seq::<Seq<char>>::empty());
    assert(strings_view(r@) =~= Seq::<Seq<char>>::empty());
    while i < n
        invariant
            i <= n,
            n == v@.len(),
            all == strings_view(v@),
            strings_view(r@) == sort_names(all.take(i as int)),
        decreases n - i,
    {
        proof {
            assert(all.take(i + 1).drop_last() =~= all.take(i as int));
        }
        let x = v[i].clone();
        insert_name(&mut r, x);
        i = i + 1;
    }
    assert(all.take(n as int) =~= all);
    r
}

/// A directory item as read: its name, and whether it is a directory
/// (`None` when its kind could not be read).
#[derive(Clone, Debug)]
pub struct DirItem {
    pub name: String,
    pub is_dir: Option<bool>,
}

/// The items as values.
pub open spec fn items_view(v: Seq<DirItem>) -> Seq<(Seq<char>, Option<bool>)> {
    v.map_values(|d: DirItem| (d.name@, d.is_dir))
}

/// A hidden name starts with a dot.
pub open spec fn is_hidden(n: Seq<char>) -> bool {
    n.len() > 0 && n[0] == '.'
}

/// `n` ends with `suf`.
pub open spec fn has_suffix(n: Seq<char>, suf: Seq<char>) -> bool {
    suf.len() <= n.len() && n.skip(n.len() - suf.len()) == suf
}

/// A Markdown file name ends in `.md` or `.markdown`.
pub open spec fn is_markdown_name(n: Seq<char>) -> bool {
    has_suffix(n, ".md"@) || has_suffix(n, ".markdown"@)
}

/// The visible directories among the items, in the order read.
pub open spec fn listed_dirs(items: Seq<(Seq<char>, Option<bool>)>) -> Seq<Seq<char>>
    decreases items.len(),
{
    if items.len() == 0 {
        Seq::empty()
    } else {
        let rest = listed_dirs(items.drop_last());
        let it = items.last();
        if !is_hidden(it.0) && it.1 == Some(true) { rest.push(it.0) } else { rest }
    }
}

/// The visible Markdown files among the items, in the order read.
pub open spec fn listed_files(items: Seq<(Seq<char>, Option<bool>)>) -> Seq<Seq<char>>
    decreases items.len(),
{
    if items.len() == 0 {
        Seq::empty()
    } else {
        let rest = listed_files(items.drop_last());
        let it = items.last();
        if !is_hidden(it.0) && it.1 == Some(false) && is_markdown_name(it.0) { rest.push(it.0) } else { rest }
    }
}

/// The rows of a directory: `..` unless it is a root, then its directories,
/// then its Markdown files, each group in code point order.
pub open spec fn listing_rows(has_parent: bool, items: Seq<(Seq<char>, Option<bool>)>) -> Seq<EntryView> {
    (if has_parent { seq![EntryView::ParentDir] } else { Seq::empty() })
        + sort_names(listed_dirs(items)).map_values(|n: Seq<char>| EntryView::Directory(n))
        + sort_names(listed_files(items)).map_values(|n: Seq<char>| EntryView::File(n))
}

/// `n` ends with `suf`.
fn ends_with(n: &Vec<char>, suf: &str) -> (r: bool)
    ensures
        r == has_suffix(n@, suf@),
{
    let sc = chars_of(suf);
    if sc.len() > n.len() {
        return false;
    }
    let off = n.len() - sc.len();
    let mut i: usize = 0;
    while i < sc.len()
        invariant
            sc@ == suf@,
            off + sc.len() == n.len(),
            i <= sc.len(),
            forall|k: int| 0 <= k < i ==> n@[off + k] == sc@[k],
        decreases sc.len() - i,
    {
        if n[off + i] != sc[i] {
            assert(n@.skip(off as int)[i as int] != sc@[i as int]);
            return false;
        }
        i = i + 1;
    }
    assert(n@.skip(off as int) =~= sc@);
    true
}

/// The visible directories and Markdown files among the items, in the order read.
fn split_listing(items: &Vec<DirItem>) -> (r: (Vec<String>, Vec<String>))
    ensures
        strings_view(r.0@) == listed_dirs(items_view(items@)),
        strings_view(r.1@) == listed_files(items_view(items@)),
{
    let ghost all = items_view(items@);
    let mut dirs: Vec<String> = Vec::new();
    let mut files: Vec<String> = Vec::new();
    let mut i: usize = 0;
    assert(all.take(0) =~= Seq::<(Seq<char>, Option<bool>)>::empty());
    assert(strings_view(dirs@) =~= Seq::<Seq<char>>::empty());
    assert(strings_view(files@) =~= Seq::<Seq<char>>::empty());
    while i < items.len()
        invariant
            i <= items.len(),
            all == items_view(items@),
            all.len() == items@.len(),
            strings_view(dirs@) == listed_dirs(all.take(i as int)),
            strings_view(files@) == listed_files(all.take(i as int)),
        decreases items.len() - i,
    {
        proof {
            assert(all.take(i + 1).drop_last() =~= all.take(i as int));
            assert(all.take(i + 1).last() == all[i as int]);
        }
        let it = &items[i];
        let c = chars_of(it.name.as_str());
        let hidden = c.len() > 0 && c[0] == '.';
        if !hidden {
            match it.is_dir {
                Some(true) => {
                    dirs.push(it.name.clone());
                    proof { assert(strings_view(dirs@) =~= listed_dirs(all.take(i as int)).push(it.name@)); }
                },
                Some(false) => {
                    if ends_with(&c, ".md") || ends_with(&c, ".markdown") {
                        files.push(it.name.clone());
                        proof { assert(strings_view(files@) =~= listed_files(all.take(i as int)).push(it.name@)); }
                    }
                },
                None => {},
            }
        }
        i = i + 1;
    }
    assert(all.take(i as int) =~= all);
    (dirs, files)
}


/// The parent of a path, as `Path::parent` gives it.
pub uninterp spec fn parent_of(path: Seq<char>) -> Option<Seq<char>>;

/// A name appended to a directory path, as `Path::join` gives it.
pub uninterp spec fn joined_path(dir: Seq<char>, name: Seq<char>) -> Seq<char>;

/// The parent directory of `path`.
/// Trusted: calls `std::path::Path::parent`, whose result depends on the path
/// text alone; `None` for a root or an empty path.
#[verifier::external_body]
fn path_parent(path: &str) -> (r: Option<String>)
    ensures
        match r {
            Some(p) => parent_of(path@) == Some(p@),
            None => parent_of(path@) is None,
        },
{
    match std::path::Path::new(path).parent() {
        Some(p) => Some(p.to_string_lossy().into_owned()),
        None => None,
    }
}

/// `name` inside the directory `dir`.
/// Trusted: calls `std::path::Path::join`, whose result depends on the two
/// texts alone.
#[verifier::external_body]
fn path_join(dir: &str, name: &str) -> (r: String)
    ensures
        r@ == joined_path(dir@, name@),
{
    std::path::Path::new(dir).join(name).to_string_lossy().into_owned()
}

/// What the program must do after a row was entered.
#[derive(Clone, Debug, PartialEq, Eq)]
pub enum PickerAction {
    /// Nothing to do.
    Nothing,
    /// List this directory and show it (`FilePicker::change_dir`).
    ChangeDir(String),
    /// Open this file.
    OpenFile(String),
}

/// The value of an action.
pub enum ActionView {
    Nothing,
    ChangeDir(Seq<char>),
    OpenFile(Seq<char>),
}

impl View for PickerAction {
    type V = ActionView;

    open spec fn view(&self) -> ActionView {
        match self {
            PickerAction::Nothing => ActionView::Nothing,
            PickerAction::ChangeDir(p) => ActionView::ChangeDir(p@),
            PickerAction::OpenFile(p) => ActionView::OpenFile(p@),
        }
    }
}

/// The file list of one directory and the selected row.
pub struct FilePicker {
    pub current_dir: String,
    pub entries: Vec<FileEntry>,
    pub selected: Option<usize>,
}

/// The selected row, if it exists.
pub open spec fn selected_row(entries: Seq<EntryView>, selected: Option<usize>) -> Option<EntryView> {
    match selected {
        Some(i) => if i < entries.len() { Some(entries[i as int]) } else { None },
        None => None,
    }
}

/// What entering the selected row does, from the directory `dir`.
pub open spec fn enter_action(dir: Seq<char>, row: Option<EntryView>) -> ActionView {
    match row {
        None => ActionView::Nothing,
        Some(EntryView::ParentDir) => match parent_of(dir) {
            Some(p) => ActionView::ChangeDir(p),
            None => ActionView::Nothing,
        },
        Some(EntryView::Directory(n)) => ActionView::ChangeDir(joined_path(dir, n)),
        Some(EntryView::File(n)) => ActionView::OpenFile(joined_path(dir, n)),
    }
}

/// The selection after moving up one row.
pub open spec fn up_sel(sel: Option<usize>) -> Option<usize> {
    match sel {
        Some(i) => if i > 0 { Some((i - 1) as usize) } else { Some(i) },
        None => None,
    }
}

/// The selection after moving down one row of `n`.
pub open spec fn down_sel(sel: Option<usize>, n: nat) -> Option<usize> {
    match sel {
        Some(i) => if i + 1 < n { Some((i + 1) as usize) } else { Some(i) },
        None => None,
    }
}

/// The selection after jumping to the first of `n` rows.
pub open spec fn top_sel(sel: Option<usize>, n: nat) -> Option<usize> {
    if n > 0 { Some(0usize) } else { sel }
}

/// The selection after jumping to the last of `n` rows.
pub open spec fn bottom_sel(sel: Option<usize>, n: nat) -> Option<usize> {
    if n > 0 { Some((n - 1) as usize) } else { sel }
}

/// The selection after moving `k` rows down, stopping at the last of `n` rows.
pub open spec fn page_down_sel(sel: Option<usize>, n: nat, k: usize) -> Option<usize> {
    match sel {
        Some(i) => Some(crate::ui::viewer::imin(i + k, if n > 0 { n - 1 } else { 0 }) as usize),
        None => None,
    }
}

/// The selection after moving `k` rows up, stopping at the first row.
pub open spec fn page_up_sel(sel: Option<usize>, k: usize) -> Option<usize> {
    match sel {
        Some(i) => Some(crate::ui::viewer::sat_sub(i as int, k as int) as usize),
        None => None,
    }
}

/// The selection after a listing: the first row, if there is one.
pub open spec fn first_row(n: nat) -> Option<usize> {
    if n > 0 { Some(0) } else { None }
}

impl FilePicker {
    /// The selection, if any, is a row of the list.
    pub open spec fn wf(&self) -> bool {
        self.selected matches Some(i) ==> i < self.entries@.len()
    }

    /// The rows as values.
    pub open spec fn rows(&self) -> Seq<EntryView> {
        entries_view(self.entries@)
    }

    /// The list of directory `dir`, whose items are `listing`.
    pub fn new(dir: String, listing: Vec<DirItem>) -> (p: FilePicker)
        ensures
            p.current_dir@ == dir@,
            p.rows() == listing_rows(parent_of(dir@) is Some, items_view(listing@)),
            p.selected == first_row(p.entries@.len()),
            p.wf(),
    {
        let mut p = FilePicker { current_dir: dir, entries: Vec::new(), selected: None };
        p.scan_directory(listing);
        p
    }

    /// Lists the current directory anew from its items.
    pub fn scan_directory(&mut self, listing: Vec<DirItem>)
        ensures
            final(self).current_dir == old(self).current_dir,
            final(self).rows() == listing_rows(parent_of(old(self).current_dir@) is Some, items_view(listing@)),
            final(self).selected == first_row(final(self).entries@.len()),
            final(self).wf(),
    {
        let has_parent = path_parent(self.current_dir.as_str()).is_some();
        let (dirs, files) = split_listing(&listing);
        let dirs = sort_strings(dirs);
        let files = sort_strings(files);
        let mut entries: Vec<FileEntry> = Vec::new();
        if has_parent {
            entries.push(FileEntry::ParentDir);
        }
        let ghost head = entries_view(entries@);
        assert(head =~= (if has_parent { seq![EntryView::ParentDir] } else { Seq::<EntryView>::empty() }));
        let mut i: usize = 0;
        while i < dirs.len()
            invariant
                i <= dirs.len(),
                entries_view(entries@) =~= head + strings_view(dirs@).take(i as int).map_values(|n: Seq<char>| EntryView::Directory(n)),
            decreases dirs.len() - i,
        {
            let ghost prev = entries@;
            entries.push(FileEntry::Directory(dirs[i].clone()));
            proof {
                assert(strings_view(dirs@).take(i + 1) =~= strings_view(dirs@).take(i as int).push(dirs@[i as int]@));
                assert(entries_view(entries@) =~= entries_view(prev).push(EntryView::Directory(dirs@[i as int]@)));
                assert(strings_view(dirs@).take(i + 1).map_values(|n: Seq<char>| EntryView::Directory(n))
                    =~= strings_view(dirs@).take(i as int).map_values(|n: Seq<char>| EntryView::Directory(n)).push(EntryView::Directory(dirs@[i as int]@)));
            }
            i = i + 1;
        }
        assert(strings_view(dirs@).take(i as int) =~= strings_view(dirs@));
        let ghost mid = entries_view(entries@);
        let mut k: usize = 0;
        while k < files.len()
            invariant
                k <= files.len(),
                entries_view(entries@) =~= mid + strings_view(files@).take(k as int).map_values(|n: Seq<char>| EntryView::File(n)),
            decreases files.len() - k,
        {
            let ghost prev = entries@;
            entries.push(FileEntry::File(files[k].clone()));
            proof {
                assert(strings_view(files@).take(k + 1) =~= strings_view(files@).take(k as int).push(files@[k as int]@));
                assert(entries_view(entries@) =~= entries_view(prev).push(EntryView::File(files@[k as int]@)));
                assert(strings_view(files@).take(k + 1).map_values(|n: Seq<char>| EntryView::File(n))
                    =~= strings_view(files@).take(k as int).map_values(|n: Seq<char>| EntryView::File(n)).push(EntryView::File(files@[k as int]@)));
            }
            k = k + 1;
        }
        assert(strings_view(files@).take(k as int) =~= strings_view(files@));
        self.entries = entries;
        self.selected = if self.entries.len() > 0 { Some(0) } else { None };
    }

    /// Shows the directory `dir`, whose items are `listing`.
    pub fn change_dir(&mut self, dir: String, listing: Vec<DirItem>)
        ensures
            final(self).current_dir@ == dir@,
            final(self).rows() == listing_rows(parent_of(dir@) is Some, items_view(listing@)),
            final(self).selected == first_row(final(self).entries@.len()),
            final(self).wf(),
    {
        self.current_dir = dir;
        self.scan_directory(listing);
    }

    /// The selected row, if any.
    pub fn selected_entry(&self) -> (r: Option<&FileEntry>)
        ensures
            match r {
                Some(e) => selected_row(self.rows(), self.selected) == Some(e@),
                None => selected_row(self.rows(), self.selected) is None,
            },
    {
        match self.selected {
            Some(i) => if i < self.entries.len() { Some(&self.entries[i]) } else { None },
            None => None,
        }
    }

    /// Selects the row above, if there is one.
    pub fn move_up(&mut self)
        ensures
            old(self).wf() ==> final(self).wf(),
            final(self).current_dir == old(self).current_dir,
            final(self).entries == old(self).entries,
            final(self).selected == up_sel(old(self).selected),
    {
        if let Some(i) = self.selected {
            if i > 0 {
                self.selected = Some(i - 1);
            }
        }
    }

    /// Selects the row below, if there is one.
    pub fn move_down(&mut self)
        ensures
            old(self).wf() ==> final(self).wf(),
            final(self).current_dir == old(self).current_dir,
            final(self).entries == old(self).entries,
            final(self).selected == down_sel(old(self).selected, old(self).entries@.len()),
    {
        if let Some(i) = self.selected {
            if self.entries.len() > 0 && i < self.entries.len() - 1 {
                self.selected = Some(i + 1);
            }
        }
    }

    /// Selects the first row, if there is one.
    pub fn jump_top(&mut self)
        ensures
            old(self).wf() ==> final(self).wf(),
            final(self).current_dir == old(self).current_dir,
            final(self).entries == old(self).entries,
            final(self).selected == top_sel(old(self).selected, old(self).entries@.len()),
    {
        if self.entries.len() > 0 {
            self.selected = Some(0);
        }
    }

    /// Selects the last row, if there is one.
    pub fn jump_bottom(&mut self)
        ensures
            old(self).wf() ==> final(self).wf(),
            final(self).current_dir == old(self).current_dir,
            final(self).entries == old(self).entries,
            final(self).selected == bottom_sel(old(self).selected, old(self).entries@.len()),
    {
        if self.entries.len() > 0 {
            self.selected = Some(self.entries.len() - 1);
        }
    }

    /// Moves the selection `page_size` rows down, stopping at the last row.
    pub fn page_down(&mut self, page_size: usize)
        requires
            old(self).selected matches Some(i) ==> i + page_size <= usize::MAX,
        ensures
            old(self).wf() ==> final(self).wf(),
            final(self).current_dir == old(self).current_dir,
            final(self).entries == old(self).entries,
            final(self).selected == page_down_sel(old(self).selected, old(self).entries@.len(), page_size),
    {
        if let Some(i) = self.selected {
            let last: usize = if self.entries.len() > 0 { self.entries.len() - 1 } else { 0 };
            let target = i + page_size;
            self.selected = Some(if target <= last { target } else { last });
        }
    }

    /// Moves the selection `page_size` rows up, stopping at the first row.
    pub fn page_up(&mut self, page_size: usize)
        ensures
            old(self).wf() ==> final(self).wf(),
            final(self).current_dir == old(self).current_dir,
            final(self).entries == old(self).entries,
            final(self).selected == page_up_sel(old(self).selected, page_size),
    {
        if let Some(i) = self.selected {
            self.selected = Some(i.saturating_sub(page_size));
        }
    }

    /// What entering the selected row does: a directory (or `..`) is to be
    /// listed and shown, a file opened.
    pub fn enter_selected(&self) -> (a: PickerAction)
        ensures
            a@ == enter_action(self.current_dir@, selected_row(self.rows(), self.selected)),
    {
        match self.selected_entry() {
            None => PickerAction::Nothing,
            Some(FileEntry::ParentDir) => match path_parent(self.current_dir.as_str()) {
                Some(p) => PickerAction::ChangeDir(p),
                None => PickerAction::Nothing,
            },
            Some(FileEntry::Directory(name)) => PickerAction::ChangeDir(path_join(self.current_dir.as_str(), name.as_str())),
            Some(FileEntry::File(name)) => PickerAction::OpenFile(path_join(self.current_dir.as_str(), name.as_str())),
        }
    }

    /// The title of the list: the directory shown.
    pub fn title(&self) -> (s: String)
        ensures
            s@ == " ▶ Select a Markdown file ("@ + self.current_dir@ + ") "@,
    {
        let mut s = to_owned_string(" ▶ Select a Markdown file (");
        push_str(&mut s, self.current_dir.as_str());
        push_str(&mut s, ") ");
        s
    }
}


/// The names are in code point order.
pub open spec fn names_sorted(s: Seq<Seq<char>>) -> bool {
    forall|i: int, j: int| 0 <= i < j < s.len() ==> lex_le(#[trigger] s[i], #[trigger] s[j])
}

proof fn lemma_lex_total_from(a: Seq<char>, b: Seq<char>, i: int)
    requires
        0 <= i,
    ensures
        lex_le_from(a, b, i) || lex_le_from(b, a, i),
    decreases a.len() - i,
{
    if i < a.len() && i < b.len() && (a[i] as u32) == (b[i] as u32) {
        lemma_lex_total_from(a, b, i + 1);
    }
}

proof fn lemma_lex_trans_from(a: Seq<char>, b: Seq<char>, c: Seq<char>, i: int)
    requires
        0 <= i,
        lex_le_from(a, b, i),
        lex_le_from(b, c, i),
    ensures
        lex_le_from(a, c, i),
    decreases a.len() - i,
{
    if i < a.len() && (a[i] as u32) == (b[i] as u32) && (b[i] as u32) == (c[i] as u32) {
        lemma_lex_trans_from(a, b, c, i + 1);
    }
}

/// Code point order is total: of two names, one comes first or they are equal.
pub proof fn lemma_lex_total(a: Seq<char>, b: Seq<char>)
    ensures
        lex_le(a, b) || lex_le(b, a),
{
    lemma_lex_total_from(a, b, 0);
}

/// Code point order is transitive.
pub proof fn lemma_lex_trans(a: Seq<char>, b: Seq<char>, c: Seq<char>)
    requires
        lex_le(a, b),
        lex_le(b, c),
    ensures
        lex_le(a, c),
{
    lemma_lex_trans_from(a, b, c, 0);
}

/// Inserting keeps every name at or before a bound that `x` is at or before.
proof fn lemma_insert_bounded(s: Seq<Seq<char>>, x: Seq<char>, b: Seq<char>)
    requires
        forall|k: int| 0 <= k < s.len() ==> lex_le(#[trigger] s[k], b),
        lex_le(x, b),
    ensures
        forall|k: int| 0 <= k < insert_sorted(s, x).len() ==> lex_le(#[trigger] insert_sorted(s, x)[k], b),
        insert_sorted(s, x).len() == s.len() + 1,
    decreases s.len(),
{
    if s.len() > 0 && !lex_le(s.last(), x) {
        lemma_insert_bounded(s.drop_last(), x, b);
        assert(lex_le(s[s.len() - 1], b));
    }
}

/// Inserting into sorted names keeps them sorted, and adds exactly `x`.
proof fn lemma_insert_sorted(s: Seq<Seq<char>>, x: Seq<char>)
    requires
        names_sorted(s),
    ensures
        names_sorted(insert_sorted(s, x)),
        insert_sorted(s, x).to_multiset() == s.to_multiset().insert(x),
    decreases s.len(),
{
    broadcast use vstd::multiset::group_multiset_axioms;
    broadcast use vstd::seq_lib::to_multiset_build;
    if s.len() == 0 {
        assert(insert_sorted(s, x) =~= s.push(x));
    } else if lex_le(s.last(), x) {
        let r = s.push(x);
        assert forall|i: int, j: int| 0 <= i < j < r.len() implies lex_le(#[trigger] r[i], #[trigger] r[j]) by {
            if j == s.len() {
                if i < s.len() - 1 {
                    lemma_lex_trans(s[i], s.last(), x);
                }
            }
        }
    } else {
        let t = s.drop_last();
        let l = s.last();
        assert(names_sorted(t));
        lemma_insert_sorted(t, x);
        lemma_lex_total(l, x);
        assert forall|k: int| 0 <= k < t.len() implies lex_le(#[trigger] t[k], l) by {
            assert(s[k] == t[k]);
        }
        lemma_insert_bounded(t, x, l);
        let r0 = insert_sorted(t, x);
        let r = r0.push(l);
        assert forall|i: int, j: int| 0 <= i < j < r.len() implies lex_le(#[trigger] r[i], #[trigger] r[j]) by {
            if j == r0.len() {
                assert(r[i] == r0[i]);
            } else {
                assert(r[i] == r0[i] && r[j] == r0[j]);
            }
        }
        assert(s =~= t.push(l));
        assert(r.to_multiset() =~= s.to_multiset().insert(x));
    }
}

/// Sorting the names puts them in code point order and keeps each name as
/// many times as it occurs.
pub proof fn lemma_sort_names(s: Seq<Seq<char>>)
    ensures
        names_sorted(sort_names(s)),
        sort_names(s).to_multiset() == s.to_multiset(),
    decreases s.len(),
{
    broadcast use vstd::multiset::group_multiset_axioms;
    broadcast use vstd::seq_lib::to_multiset_build;
    if s.len() == 0 {
        assert(sort_names(s) =~= s);
    } else {
        lemma_sort_names(s.drop_last());
        lemma_insert_sorted(sort_names(s.drop_last()), s.last());
        assert(s =~= s.drop_last().push(s.last()));
    }
}


/// A listing shows `..` first unless the directory is a root, then every
/// visible directory, then every visible Markdown file, each as often as it
/// was read, each group in code point order.
pub proof fn lemma_listing_rows_ordered(has_parent: bool, items: Seq<(Seq<char>, Option<bool>)>)
    ensures
        ({
            let d = sort_names(listed_dirs(items));
            let f = sort_names(listed_files(items));
            let p: int = if has_parent { 1 } else { 0 };
            let rows = listing_rows(has_parent, items);
            &&& names_sorted(d)
            &&& names_sorted(f)
            &&& d.to_multiset() == listed_dirs(items).to_multiset()
            &&& f.to_multiset() == listed_files(items).to_multiset()
            &&& rows.len() == p + d.len() + f.len()
            &&& (has_parent ==> rows[0] == EntryView::ParentDir)
            &&& forall|i: int| 0 <= i < d.len() ==> rows[p + i] == EntryView::Directory(#[trigger] d[i])
            &&& forall|i: int| 0 <= i < f.len() ==> rows[p + d.len() + i] == EntryView::File(#[trigger] f[i])
        }),
{
    lemma_sort_names(listed_dirs(items));
    lemma_sort_names(listed_files(items));
}

} // verus!
