//! Deciding what happens to each file of a directory, keeping the record of
//! a run, and planning how that record is undone.

use vstd::prelude::*;
use crate::config::{
    classify_spec, converter_spec, destination_spec, or_else, uses_marker_spec, Config, ConfigView,
};
use crate::error::MaidError;
use crate::path::{
    extension, file_name, join, join_path, parent, path_extension, path_file_name, path_parent,
    path_with_file_name, paths_equal, same_path, with_file_name,
};
use crate::platform::{rendering_shape, utc_now_text};
use crate::text::{
    last_index_of, lemma_last_index_of, lemma_last_index_of_append, lowercase,
    rfind_char, same_text, starts_with_text, to_lowercase,
};

verus! {

/// A file found in a directory, with the category its extension gives it.
pub struct FileEntry {
    pub path: String,
    pub folder: String,
}

/// One line of the record of a run: a file moved from `from` to `to`, or,
/// when `from` is `(converted)`, a converted file created at `to`.
#[derive(Debug, PartialEq, Eq)]
pub struct LogEntry {
    pub from: String,
    pub to: String,
}

/// One item of a directory listing: its name when that is valid UTF-8, and
/// whether it is a regular file.
pub struct DirItem {
    pub name: Option<String>,
    pub is_file: bool,
}

/// The `from` of the record line written for a converted file.
pub open spec fn converted_mark() -> Seq<char> {
    "(converted)"@
}

/// The extension of a path as text: empty when it has none.
pub open spec fn ext_text(p: Seq<char>) -> Seq<char> {
    or_else(extension(p), Seq::empty())
}

/// Whether a listed item is organised: a regular file whose name is valid
/// UTF-8 and does not start with `.`.
pub open spec fn scan_keeps(item: DirItem) -> bool {
    &&& item.is_file
    &&& item.name is Some
    &&& !(item.name.unwrap()@.len() > 0 && item.name.unwrap()@[0] == '.')
}

/// The entry made for a kept item: its path in `dir`, and the category of
/// that path's extension.
pub open spec fn scan_entry(dir: Seq<char>, name: Seq<char>, c: ConfigView) -> (Seq<char>, Seq<char>) {
    let p = join(dir, name);
    (p, classify_spec(c, ext_text(p)))
}

/// The (path, category) pairs of the kept items, in listing order.
pub open spec fn scan_spec(dir: Seq<char>, items: Seq<DirItem>, c: ConfigView) -> Seq<(Seq<char>, Seq<char>)>
    decreases items.len(),
{
    if items.len() == 0 {
        Seq::empty()
    } else {
        let rest = scan_spec(dir, items.drop_last(), c);
        if scan_keeps(items.last()) {
            rest.push(scan_entry(dir, items.last().name.unwrap()@, c))
        } else {
            rest
        }
    }
}

/// Entries as (path, category) pairs.
pub open spec fn entries_view(v: Seq<FileEntry>) -> Seq<(Seq<char>, Seq<char>)> {
    Seq::new(v.len(), |i: int| (v[i].path@, v[i].folder@))
}

/// Record lines as (from, to) pairs.
pub open spec fn log_view(v: Seq<LogEntry>) -> Seq<(Seq<char>, Seq<char>)> {
    Seq::new(v.len(), |i: int| (v[i].from@, v[i].to@))
}

/// The files of a directory to organise, from its listing: every regular
/// file whose name is valid UTF-8 and does not start with `.`, with the
/// category of its extension. A path that is not a directory is refused.
pub fn scan(dir: &str, is_dir: bool, items: &Vec<DirItem>, config: &Config) -> (r: Result<Vec<FileEntry>, MaidError>)
    ensures
        match r {
            Ok(entries) => is_dir && entries_view(entries@) == scan_spec(dir@, items@, config@),
            Err(e) => !is_dir && (e matches MaidError::InvalidDirectory(d) && d@ == dir@),
        },
{
    if !is_dir {
        return Err(MaidError::InvalidDirectory(String::from_str(dir)));
    }
    let mut entries: Vec<FileEntry> = Vec::new();
    let mut i: usize = 0;
    while i < items.len()
        invariant
            i <= items@.len(),
            entries_view(entries@) == scan_spec(dir@, items@.take(i as int), config@),
        decreases items@.len() - i,
    {
        let item = &items[i];
        assert(items@.take(i + 1).drop_last() =~= items@.take(i as int));
        assert(items@.take(i + 1).last() == items@[i as int]);
        if item.is_file {
            match &item.name {
                Some(name) => {
                    let hidden = name.as_str().unicode_len() > 0 && name.as_str().get_char(0) == '.';
                    if !hidden {
                        let path = join_path(dir, name.as_str());
                        let ext = match path_extension(path.as_str()) {
                            Some(e) => e,
                            None => "",
                        };
                        proof {
                            reveal_strlit("");
                        }
                        assert(ext@ == ext_text(path@));
                        let folder = String::from_str(config.classify(ext));
                        assert(folder@ == scan_entry(dir@, name@, config@).1);
                        let ghost before = entries@;
                        entries.push(FileEntry { path, folder });
                        assert(entries_view(entries@) =~= entries_view(before).push(
                            scan_entry(dir@, name@, config@),
                        ));
                    }
                },
                None => {},
            }
        }
        i = i + 1;
    }
    assert(items@.take(items@.len() as int) =~= items@);
    Ok(entries)
}

/// Whether an extension marks a notes file: `md` or `mdx`, in any case.
pub open spec fn notes_ext_spec(ext: Seq<char>) -> bool {
    lowercase(ext) == "md"@ || lowercase(ext) == "mdx"@
}

/// Whether an extension marks a notes file: `md` or `mdx`, in any case.
pub fn is_notes_ext(ext: &str) -> (r: bool)
    ensures
        r == notes_ext_spec(ext@),
{
    let e = to_lowercase(ext);
    same_text(e.as_str(), "md") || same_text(e.as_str(), "mdx")
}

/// `filename` with the part after its last `.` replaced by `new_ext`, or
/// with `.new_ext` added when it has no `.`.
pub open spec fn swap_ext_spec(filename: Seq<char>, new_ext: Seq<char>) -> Seq<char> {
    let k = last_index_of(filename, '.');
    if k >= 0 {
        filename.take(k) + seq!['.'] + new_ext
    } else {
        filename + seq!['.'] + new_ext
    }
}

/// `filename` with its extension replaced by `new_ext`.
pub fn swap_ext(filename: &str, new_ext: &str) -> (r: String)
    ensures
        r@ == swap_ext_spec(filename@, new_ext@),
{
    proof {
        reveal_strlit(".");
        lemma_last_index_of(filename@, '.');
    }
    let stem = match rfind_char(filename, '.') {
        Some(k) => filename.substring_char(0, k),
        None => filename,
    };
    let mut r = String::from_str(stem);
    r.append(".");
    r.append(new_ext);
    assert(r@ =~= swap_ext_spec(filename@, new_ext@));
    r
}

/// Replacing an extension twice with the same dot-free extension is the
/// same as replacing it once.
pub proof fn lemma_swap_ext_idempotent(filename: Seq<char>, new_ext: Seq<char>)
    requires
        !new_ext.contains('.'),
    ensures
        swap_ext_spec(swap_ext_spec(filename, new_ext), new_ext) == swap_ext_spec(filename, new_ext),
{
    let once = swap_ext_spec(filename, new_ext);
    let k = last_index_of(filename, '.');
    let stem = if k >= 0 { filename.take(k) } else { filename };
    assert(once == stem + seq!['.'] + new_ext);
    lemma_last_index_of_append(stem, '.', new_ext);
    assert(once.take(stem.len() as int) =~= stem);
}

/// The extension of a path as text: empty when it has none.
pub fn extension_text(path: &str) -> (r: &str)
    ensures
        r@ == ext_text(path@),
{
    proof {
        reveal_strlit("");
    }
    match path_extension(path) {
        Some(e) => e,
        None => "",
    }
}

/// The file name of an entry to move; a path without one is refused.
pub fn entry_file_name(path: &str) -> (r: Result<String, MaidError>)
    ensures
        match r {
            Ok(name) => file_name(path@) == Some(name@),
            Err(e) => file_name(path@) is None && (e matches MaidError::Io(m) && m@ == "Invalid filename"@),
        },
{
    match path_file_name(path) {
        Some(n) => Ok(String::from_str(n)),
        None => Err(MaidError::Io(String::from_str("Invalid filename"))),
    }
}

/// The name under which an entry is shown: its file name, or `unknown`.
pub fn shown_name(path: &str) -> (r: &str)
    ensures
        r@ == or_else(file_name(path@), "unknown"@),
{
    match path_file_name(path) {
        Some(n) => n,
        None => "unknown",
    }
}

/// What happens to one file.
pub enum Action {
    /// Convert it to markdown with `tool`, writing `md_path` (named `md_name`).
    Convert { tool: String, md_name: String, md_path: String },
    /// Move it to the quarantine directory: a notes file that failed the
    /// secret check; `frontmatter` when it gets a header first.
    Quarantine { frontmatter: bool },
    /// Move it to `dest_dir`; `frontmatter` when it is a notes file that gets a header first.
    Move { dest_dir: String, frontmatter: bool },
}

/// An action as mathematical values.
pub enum ActionView {
    Convert { tool: Seq<char>, md_name: Seq<char>, md_path: Seq<char> },
    Quarantine { frontmatter: bool },
    Move { dest_dir: Seq<char>, frontmatter: bool },
}

impl View for Action {
    type V = ActionView;

    open spec fn view(&self) -> ActionView {
        match self {
            Action::Convert { tool, md_name, md_path } => ActionView::Convert {
                tool: tool@,
                md_name: md_name@,
                md_path: md_path@,
            },
            Action::Quarantine { frontmatter } => ActionView::Quarantine { frontmatter: *frontmatter },
            Action::Move { dest_dir, frontmatter } => ActionView::Move {
                dest_dir: dest_dir@,
                frontmatter: *frontmatter,
            },
        }
    }
}

/// What happens to the file at `path` (shown as `filename`, of category
/// `folder`) found in `dir`. A file with a converter is converted to a
/// markdown file beside it; otherwise a notes file that failed the secret
/// check is quarantined; every other file moves to its category's directory.
/// Every markdown notes file that is moved, filed or quarantined, gets a
/// header first.
pub open spec fn plan_spec(
    c: ConfigView,
    path: Seq<char>,
    filename: Seq<char>,
    folder: Seq<char>,
    dir: Seq<char>,
    marker_available: bool,
    notes_clean: bool,
) -> ActionView {
    let ext = ext_text(path);
    match converter_spec(c, ext, marker_available) {
        Some(tool) => {
            let md = swap_ext_spec(filename, "md"@);
            ActionView::Convert { tool, md_name: md, md_path: with_file_name(path, md) }
        },
        None => if notes_ext_spec(ext) && !notes_clean {
            ActionView::Quarantine { frontmatter: true }
        } else {
            ActionView::Move {
                dest_dir: destination_spec(c, folder, dir),
                frontmatter: notes_ext_spec(ext),
            }
        },
    }
}

/// Whether the secret check of the file itself decides its action: it has
/// no converter and is a notes file.
pub open spec fn needs_notes_check_spec(c: ConfigView, path: Seq<char>, marker_available: bool) -> bool {
    converter_spec(c, ext_text(path), marker_available) is None && notes_ext_spec(ext_text(path))
}

/// What happens to one file, given whether `marker` is installed and
/// whether the file passed the secret check. Each of those two facts is
/// read only when `uses_marker` and `needs_notes_check` say it matters.
pub fn plan(
    entry: &FileEntry,
    filename: &str,
    dir: &str,
    config: &Config,
    marker_available: bool,
    notes_clean: bool,
) -> (r: Action)
    ensures
        r@ == plan_spec(config@, entry.path@, filename@, entry.folder@, dir@, marker_available, notes_clean),
{
    let ext = extension_text(entry.path.as_str());
    match config.converter_for(ext, marker_available) {
        Some(tool) => {
            let md_name = swap_ext(filename, "md");
            let md_path = path_with_file_name(entry.path.as_str(), md_name.as_str());
            Action::Convert { tool: String::from_str(tool), md_name, md_path }
        },
        None => {
            let notes = is_notes_ext(ext);
            if notes && !notes_clean {
                Action::Quarantine { frontmatter: true }
            } else {
                Action::Move {
                    dest_dir: config.destination(entry.folder.as_str(), dir),
                    frontmatter: notes,
                }
            }
        },
    }
}

/// Whether the file's own secret check decides what happens to it.
pub fn needs_notes_check(entry: &FileEntry, config: &Config, marker_available: bool) -> (r: bool)
    ensures
        r == needs_notes_check_spec(config@, entry.path@, marker_available),
{
    let ext = extension_text(entry.path.as_str());
    config.converter_for(ext, marker_available).is_none() && is_notes_ext(ext)
}

/// The secret check matters only where `needs_notes_check` says so.
pub proof fn lemma_plan_ignores_unneeded_check(
    c: ConfigView,
    path: Seq<char>,
    filename: Seq<char>,
    folder: Seq<char>,
    dir: Seq<char>,
    marker_available: bool,
)
    requires
        !needs_notes_check_spec(c, path, marker_available),
    ensures
        plan_spec(c, path, filename, folder, dir, marker_available, true)
            == plan_spec(c, path, filename, folder, dir, marker_available, false),
{
}

/// Whether `marker` is installed matters only for files that `marker` converts.
pub proof fn lemma_plan_ignores_unneeded_probe(
    c: ConfigView,
    path: Seq<char>,
    filename: Seq<char>,
    folder: Seq<char>,
    dir: Seq<char>,
    notes_clean: bool,
)
    requires
        !uses_marker_spec(c, ext_text(path)),
    ensures
        plan_spec(c, path, filename, folder, dir, true, notes_clean)
            == plan_spec(c, path, filename, folder, dir, false, notes_clean),
{
}

/// A notes file without a converter gets a header whether it passed the
/// secret check or not: filed in its category's directory when it passed,
/// quarantined when it failed.
pub proof fn lemma_notes_always_get_header(
    c: ConfigView,
    path: Seq<char>,
    filename: Seq<char>,
    folder: Seq<char>,
    dir: Seq<char>,
    marker_available: bool,
    notes_clean: bool,
)
    requires
        needs_notes_check_spec(c, path, marker_available),
    ensures
        notes_clean ==> plan_spec(c, path, filename, folder, dir, marker_available, notes_clean)
            == (ActionView::Move { dest_dir: destination_spec(c, folder, dir), frontmatter: true }),
        !notes_clean ==> plan_spec(c, path, filename, folder, dir, marker_available, notes_clean)
            == (ActionView::Quarantine { frontmatter: true }),
{
}

/// The name a converted document gets in the archive: `<date>-<filename>`.
pub open spec fn archived_name_spec(date: Seq<char>, filename: Seq<char>) -> Seq<char> {
    date + "-"@ + filename
}

/// The name a converted document gets in the archive on `date`.
pub fn archived_name_on(date: &str, filename: &str) -> (r: String)
    ensures
        r@ == archived_name_spec(date@, filename@),
{
    let mut r = String::from_str(date);
    r.append("-");
    r.append(filename);
    r
}

/// The name a converted document gets in the archive today (UTC, as
/// `YYYYMMDD`); none when the clock reads a time before 1970 or beyond
/// what the date rendering covers.
pub fn archived_name(filename: &str) -> (r: Option<String>)
    ensures
        r matches Some(t) ==> exists|date: Seq<char>|
            rendering_shape("%Y%m%d"@, date) && t@ == #[trigger] archived_name_spec(date, filename@),
{
    match utc_now_text("%Y%m%d") {
        Some(date) => Some(archived_name_on(date.as_str(), filename)),
        None => None,
    }
}

/// Where a conversion puts its results.
pub struct ConversionTargets {
    /// The directory that receives the markdown file.
    pub md_dest_dir: String,
    /// The markdown file's final path.
    pub md_destination: String,
    /// The converted document's path in the archive.
    pub archive_dest: String,
}

/// Where a conversion's markdown goes: the `notes` destination when it
/// passed the secret check, else the quarantine directory.
pub open spec fn md_dest_dir_spec(c: ConfigView, dir: Seq<char>, clean: bool, quarantine_dir: Seq<char>) -> Seq<char> {
    if clean {
        destination_spec(c, "notes"@, dir)
    } else {
        quarantine_dir
    }
}

/// Where a conversion puts its markdown file and the converted document.
pub fn conversion_targets(
    config: &Config,
    dir: &str,
    md_name: &str,
    archived: &str,
    clean: bool,
    quarantine_dir: &str,
    archive_dir: &str,
) -> (r: ConversionTargets)
    ensures
        r.md_dest_dir@ == md_dest_dir_spec(config@, dir@, clean, quarantine_dir@),
        r.md_destination@ == join(r.md_dest_dir@, md_name@),
        r.archive_dest@ == join(archive_dir@, archived@),
{
    let md_dest_dir = if clean {
        config.destination("notes", dir)
    } else {
        String::from_str(quarantine_dir)
    };
    let md_destination = join_path(md_dest_dir.as_str(), md_name);
    let archive_dest = join_path(archive_dir, archived);
    ConversionTargets { md_dest_dir, md_destination, archive_dest }
}

/// Where a moved file lands: its file name joined onto the directory that receives it.
pub fn move_destination(dest_dir: &str, filename: &str) -> (r: String)
    ensures
        r@ == join(dest_dir@, filename@),
{
    join_path(dest_dir, filename)
}

/// How the handling of one file of a run ended.
pub enum Outcome {
    /// Its conversion failed: it stays where it was, and the run records
    /// and counts nothing for it.
    ConversionFailed,
    /// It was converted: the document moved from `source` to `archive_dest`
    /// and its markdown landed at `md_destination`; `clean` when that
    /// markdown passed the secret check.
    Converted { source: String, archive_dest: String, md_destination: String, clean: bool },
    /// It moved from `from` to `to`, into quarantine when `quarantined`.
    Moved { from: String, to: String, quarantined: bool },
}

/// The record lines one outcome writes.
pub open spec fn outcome_lines(o: Outcome) -> Seq<(Seq<char>, Seq<char>)> {
    match o {
        Outcome::ConversionFailed => Seq::empty(),
        Outcome::Converted { source, archive_dest, md_destination, .. } => seq![
            (source@, archive_dest@),
            (converted_mark(), md_destination@),
        ],
        Outcome::Moved { from, to, .. } => seq![(from@, to@)],
    }
}

/// How many files an outcome adds to the moved count.
pub open spec fn outcome_moved(o: Outcome) -> nat {
    match o {
        Outcome::Moved { quarantined, .. } => if quarantined { 0 } else { 1 },
        _ => 0,
    }
}

/// How many files an outcome adds to the converted count.
pub open spec fn outcome_converted(o: Outcome) -> nat {
    match o {
        Outcome::Converted { .. } => 1,
        _ => 0,
    }
}

/// How many files an outcome adds to the quarantined count.
pub open spec fn outcome_quarantined(o: Outcome) -> nat {
    match o {
        Outcome::Moved { quarantined, .. } => if quarantined { 1 } else { 0 },
        Outcome::Converted { clean, .. } => if clean { 0 } else { 1 },
        Outcome::ConversionFailed => 0,
    }
}

/// The record lines of a run: those of each outcome, in order.
pub open spec fn run_lines(os: Seq<Outcome>) -> Seq<(Seq<char>, Seq<char>)>
    decreases os.len(),
{
    if os.len() == 0 {
        Seq::empty()
    } else {
        run_lines(os.drop_last()) + outcome_lines(os.last())
    }
}

/// The files a run moved to their category's directory.
pub open spec fn run_moved(os: Seq<Outcome>) -> nat
    decreases os.len(),
{
    if os.len() == 0 {
        0
    } else {
        run_moved(os.drop_last()) + outcome_moved(os.last())
    }
}

/// The files a run converted.
pub open spec fn run_converted(os: Seq<Outcome>) -> nat
    decreases os.len(),
{
    if os.len() == 0 {
        0
    } else {
        run_converted(os.drop_last()) + outcome_converted(os.last())
    }
}

/// The files a run quarantined, moved there or converted and then quarantined.
pub open spec fn run_quarantined(os: Seq<Outcome>) -> nat
    decreases os.len(),
{
    if os.len() == 0 {
        0
    } else {
        run_quarantined(os.drop_last()) + outcome_quarantined(os.last())
    }
}

/// Whether an outcome sent something to quarantine: a move into quarantine,
/// or a conversion whose markdown failed the secret check.
pub open spec fn went_to_quarantine(o: Outcome) -> bool {
    match o {
        Outcome::Moved { quarantined, .. } => quarantined,
        Outcome::Converted { clean, .. } => !clean,
        Outcome::ConversionFailed => false,
    }
}

/// What one outcome adds to the counts: a conversion counts as converted,
/// and as quarantined exactly when its markdown failed the secret check; a
/// move counts once, as quarantined when it went to quarantine and as moved
/// otherwise; a failed conversion counts nowhere.
pub proof fn lemma_outcome_counts(o: Outcome)
    ensures
        o is Converted ==> outcome_converted(o) == 1 && outcome_moved(o) == 0,
        o is Moved ==> outcome_converted(o) == 0 && outcome_moved(o) + outcome_quarantined(o) == 1,
        o is ConversionFailed ==> outcome_converted(o) == 0 && outcome_moved(o) == 0 && outcome_quarantined(o) == 0,
        outcome_quarantined(o) == 1 <==> went_to_quarantine(o),
        outcome_quarantined(o) <= 1,
{
}

/// A run in which nothing went to quarantine (every conversion passed the
/// secret check and no file was moved into quarantine) counts no file as
/// quarantined; in any run, no more files are quarantined than outcomes.
pub proof fn lemma_quarantine_count(os: Seq<Outcome>)
    ensures
        (forall|i: int| 0 <= i < os.len() ==> !went_to_quarantine(#[trigger] os[i])) ==> run_quarantined(os) == 0,
        run_quarantined(os) <= os.len(),
    decreases os.len(),
{
    if os.len() > 0 {
        let init = os.drop_last();
        lemma_quarantine_count(init);
        lemma_outcome_counts(os.last());
        if forall|i: int| 0 <= i < os.len() ==> !went_to_quarantine(#[trigger] os[i]) {
            assert forall|i: int| 0 <= i < init.len() implies !went_to_quarantine(#[trigger] init[i]) by {
                assert(init[i] == os[i]);
            }
            assert(!went_to_quarantine(os[os.len() - 1]));
        }
    }
}

/// The record of a run: the lines written so far and how many files were
/// moved, converted and quarantined.
pub struct Tally {
    log: Vec<LogEntry>,
    moved: usize,
    converted: usize,
    quarantined: usize,
}

impl Tally {
    /// Every counted file wrote at least one record line.
    #[verifier::type_invariant]
    spec fn counts_fit_log(self) -> bool {
        self.moved + self.converted + self.quarantined <= self.log@.len()
    }

    /// The record lines as (from, to) pairs.
    pub closed spec fn lines(&self) -> Seq<(Seq<char>, Seq<char>)> {
        log_view(self.log@)
    }

    /// Files moved to their category's directory.
    pub closed spec fn moved_count(&self) -> nat {
        self.moved as nat
    }

    /// Files converted.
    pub closed spec fn converted_count(&self) -> nat {
        self.converted as nat
    }

    /// Files quarantined, whether moved there or converted and then quarantined.
    pub closed spec fn quarantined_count(&self) -> nat {
        self.quarantined as nat
    }

    /// An empty record.
    pub fn new() -> (r: Tally)
        ensures
            r.lines() == Seq::<(Seq<char>, Seq<char>)>::empty(),
            r.moved_count() == 0,
            r.converted_count() == 0,
            r.quarantined_count() == 0,
    {
        let t = Tally { log: Vec::new(), moved: 0, converted: 0, quarantined: 0 };
        assert(t.lines() =~= Seq::<(Seq<char>, Seq<char>)>::empty());
        t
    }

    /// Takes the record out of `self`, leaving an empty one behind.
    fn take(&mut self) -> (r: Tally)
        ensures
            r == *old(self),
    {
        let mut r = Tally::new();
        std::mem::swap(&mut r, self);
        r
    }

    /// Records a file moved from `from` to `to`, counted as quarantined or as moved.
    pub fn record_move(&mut self, from: &str, to: &str, quarantined: bool)
        ensures
            final(self).lines() == old(self).lines().push((from@, to@)),
            final(self).moved_count() == old(self).moved_count() + if quarantined { 0nat } else { 1nat },
            final(self).quarantined_count() == old(self).quarantined_count() + if quarantined { 1nat } else { 0nat },
            final(self).converted_count() == old(self).converted_count(),
    {
        let t = self.take();
        proof { use_type_invariant(&t); }
        let Tally { mut log, moved, converted, quarantined: held } = t;
        let ghost before = log_view(log@);
        log.push(LogEntry { from: String::from_str(from), to: String::from_str(to) });
        assert(log_view(log@) =~= before.push((from@, to@)));
        let lines_now = log.len();
        assert(moved + converted + held < lines_now);
        *self = if quarantined {
            Tally { log, moved, converted, quarantined: held + 1 }
        } else {
            Tally { log, moved: moved + 1, converted, quarantined: held }
        };
    }

    /// Records a conversion: the document moved from `source` to
    /// `archive_dest`, then the markdown file created at `md_destination`;
    /// counted as converted, and as quarantined when it failed the secret check.
    pub fn record_conversion(&mut self, source: &str, archive_dest: &str, md_destination: &str, clean: bool)
        ensures
            final(self).lines() == old(self).lines().push((source@, archive_dest@)).push(
                (converted_mark(), md_destination@),
            ),
            final(self).converted_count() == old(self).converted_count() + 1,
            final(self).quarantined_count() == old(self).quarantined_count() + if clean { 0nat } else { 1nat },
            final(self).moved_count() == old(self).moved_count(),
    {
        let t = self.take();
        proof { use_type_invariant(&t); }
        let Tally { mut log, moved, converted, quarantined: held } = t;
        let ghost before = log_view(log@);
        log.push(LogEntry { from: String::from_str(source), to: String::from_str(archive_dest) });
        log.push(LogEntry { from: String::from_str("(converted)"), to: String::from_str(md_destination) });
        assert(log_view(log@) =~= before.push((source@, archive_dest@)).push(
            (converted_mark(), md_destination@),
        ));
        let lines_now = log.len();
        assert(moved + converted + held + 1 < lines_now);
        let held = if clean { held } else { held + 1 };
        *self = Tally { log, moved, converted: converted + 1, quarantined: held };
    }

    /// Records how one file's handling ended: a failed conversion records
    /// and counts nothing; a conversion and a move record their lines and
    /// counts as `record_conversion` and `record_move` do.
    pub fn record(&mut self, outcome: &Outcome)
        ensures
            final(self).lines() == old(self).lines() + outcome_lines(*outcome),
            final(self).moved_count() == old(self).moved_count() + outcome_moved(*outcome),
            final(self).converted_count() == old(self).converted_count() + outcome_converted(*outcome),
            final(self).quarantined_count() == old(self).quarantined_count() + outcome_quarantined(*outcome),
    {
        match outcome {
            Outcome::ConversionFailed => {
                assert(old(self).lines() + outcome_lines(*outcome) =~= old(self).lines());
            },
            Outcome::Converted { source, archive_dest, md_destination, clean } => {
                self.record_conversion(source.as_str(), archive_dest.as_str(), md_destination.as_str(), *clean);
                assert(old(self).lines().push((source@, archive_dest@)).push((converted_mark(), md_destination@))
                    =~= old(self).lines() + outcome_lines(*outcome));
            },
            Outcome::Moved { from, to, quarantined } => {
                self.record_move(from.as_str(), to.as_str(), *quarantined);
                assert(old(self).lines().push((from@, to@)) =~= old(self).lines() + outcome_lines(*outcome));
            },
        }
    }

    /// The record of a whole run: each outcome's lines in order, with the
    /// counts the outcomes add up to.
    pub fn from_outcomes(outcomes: &Vec<Outcome>) -> (r: Tally)
        ensures
            r.lines() == run_lines(outcomes@),
            r.moved_count() == run_moved(outcomes@),
            r.converted_count() == run_converted(outcomes@),
            r.quarantined_count() == run_quarantined(outcomes@),
    {
        let mut t = Tally::new();
        let mut i: usize = 0;
        while i < outcomes.len()
            invariant
                i <= outcomes@.len(),
                t.lines() == run_lines(outcomes@.take(i as int)),
                t.moved_count() == run_moved(outcomes@.take(i as int)),
                t.converted_count() == run_converted(outcomes@.take(i as int)),
                t.quarantined_count() == run_quarantined(outcomes@.take(i as int)),
            decreases outcomes@.len() - i,
        {
            proof {
                let os = outcomes@.take(i + 1);
                assert(os.drop_last() =~= outcomes@.take(i as int));
                assert(os.last() == outcomes@[i as int]);
            }
            t.record(&outcomes[i]);
            i = i + 1;
        }
        assert(outcomes@.take(outcomes@.len() as int) =~= outcomes@);
        t
    }

    /// The record lines; every file counted wrote at least one of them.
    pub fn log(&self) -> (r: &Vec<LogEntry>)
        ensures
            log_view(r@) == self.lines(),
            self.moved_count() + self.converted_count() + self.quarantined_count() <= r@.len(),
    {
        proof { use_type_invariant(self); }
        &self.log
    }

    /// Files moved to their category's directory.
    pub fn moved(&self) -> (r: usize)
        ensures
            r == self.moved_count(),
    {
        self.moved
    }

    /// Files converted.
    pub fn converted(&self) -> (r: usize)
        ensures
            r == self.converted_count(),
    {
        self.converted
    }

    /// Files quarantined.
    pub fn quarantined(&self) -> (r: usize)
        ensures
            r == self.quarantined_count(),
    {
        self.quarantined
    }
}

/// One step of undoing a run.
pub enum UndoStep {
    /// Delete a converted file (its source document was archived).
    RemoveConverted { path: String },
    /// Move the file at `current` back to `previous`.
    Restore { current: String, previous: String },
}

/// An undo step as mathematical values.
pub enum UndoView {
    RemoveConverted { path: Seq<char> },
    Restore { current: Seq<char>, previous: Seq<char> },
}

impl View for UndoStep {
    type V = UndoView;

    open spec fn view(&self) -> UndoView {
        match self {
            UndoStep::RemoveConverted { path } => UndoView::RemoveConverted { path: path@ },
            UndoStep::Restore { current, previous } => UndoView::Restore {
                current: current@,
                previous: previous@,
            },
        }
    }
}

/// The step that undoes one record line.
pub open spec fn undo_of(line: (Seq<char>, Seq<char>)) -> UndoView {
    if line.0 == converted_mark() {
        UndoView::RemoveConverted { path: line.1 }
    } else {
        UndoView::Restore { current: line.1, previous: line.0 }
    }
}

/// Undo steps as mathematical values.
pub open spec fn steps_view(v: Seq<UndoStep>) -> Seq<UndoView> {
    Seq::new(v.len(), |i: int| v[i]@)
}

/// The steps that undo a run, one per record line, in record order.
pub fn undo_steps(log: &Vec<LogEntry>) -> (r: Vec<UndoStep>)
    ensures
        steps_view(r@) == log_view(log@).map_values(|l: (Seq<char>, Seq<char>)| undo_of(l)),
{
    let mut steps: Vec<UndoStep> = Vec::new();
    let mut i: usize = 0;
    while i < log.len()
        invariant
            i <= log@.len(),
            steps_view(steps@) =~= log_view(log@).take(i as int).map_values(
                |l: (Seq<char>, Seq<char>)| undo_of(l),
            ),
        decreases log@.len() - i,
    {
        let e = &log[i];
        let step = if same_text(e.from.as_str(), "(converted)") {
            UndoStep::RemoveConverted { path: e.to.clone() }
        } else {
            UndoStep::Restore { current: e.to.clone(), previous: e.from.clone() }
        };
        let ghost before = steps_view(steps@);
        steps.push(step);
        assert(steps_view(steps@) =~= before.push(undo_of(log_view(log@)[i as int])));
        assert(log_view(log@).take(i + 1) =~= log_view(log@).take(i as int).push(log_view(log@)[i as int]));
        i = i + 1;
    }
    assert(log_view(log@).take(log@.len() as int) =~= log_view(log@));
    steps
}

/// Undoing a recorded move takes the file back where it was, provided its
/// previous path is not the conversion mark itself.
pub proof fn lemma_undo_reverses_move(lines: Seq<(Seq<char>, Seq<char>)>, from: Seq<char>, to: Seq<char>)
    requires
        from != converted_mark(),
    ensures
        lines.push((from, to)).map_values(|l: (Seq<char>, Seq<char>)| undo_of(l))
            == lines.map_values(|l: (Seq<char>, Seq<char>)| undo_of(l)).push(
                UndoView::Restore { current: to, previous: from },
            ),
{
    assert(lines.push((from, to)).map_values(|l: (Seq<char>, Seq<char>)| undo_of(l))
        =~= lines.map_values(|l: (Seq<char>, Seq<char>)| undo_of(l)).push(
            UndoView::Restore { current: to, previous: from },
        ));
}

/// Undoing a recorded conversion takes the archived document back where it
/// was and deletes the markdown file made from it.
pub proof fn lemma_undo_reverses_conversion(
    lines: Seq<(Seq<char>, Seq<char>)>,
    source: Seq<char>,
    archive_dest: Seq<char>,
    md_destination: Seq<char>,
)
    requires
        source != converted_mark(),
    ensures
        lines.push((source, archive_dest)).push((converted_mark(), md_destination)).map_values(
            |l: (Seq<char>, Seq<char>)| undo_of(l),
        ) == lines.map_values(|l: (Seq<char>, Seq<char>)| undo_of(l)).push(
            UndoView::Restore { current: archive_dest, previous: source },
        ).push(UndoView::RemoveConverted { path: md_destination }),
{
    assert(lines.push((source, archive_dest)).push((converted_mark(), md_destination)).map_values(
        |l: (Seq<char>, Seq<char>)| undo_of(l),
    ) =~= lines.map_values(|l: (Seq<char>, Seq<char>)| undo_of(l)).push(
        UndoView::Restore { current: archive_dest, previous: source },
    ).push(UndoView::RemoveConverted { path: md_destination }));
}

/// Whether some element of `ps` names the same place as `p`.
pub open spec fn has_same_path(ps: Seq<Seq<char>>, p: Seq<char>) -> bool {
    exists|i: int| 0 <= i < ps.len() && same_path(#[trigger] ps[i], p)
}

/// The directories to try removing after an undo: the parent of each
/// record line's `to`, each place once (first spelling kept), without `dir`.
pub open spec fn cleanup_spec(tos: Seq<Seq<char>>, dir: Seq<char>) -> Seq<Seq<char>>
    decreases tos.len(),
{
    if tos.len() == 0 {
        Seq::empty()
    } else {
        let rest = cleanup_spec(tos.drop_last(), dir);
        match parent(tos.last()) {
            Some(p) => if same_path(p, dir) || has_same_path(rest, p) {
                rest
            } else {
                rest.push(p)
            },
            None => rest,
        }
    }
}

/// The directories to try removing after undoing a run in `dir`.
pub fn cleanup_dirs(log: &Vec<LogEntry>, dir: &str) -> (r: Vec<String>)
    ensures
        r.deep_view() == cleanup_spec(log_view(log@).map_values(|l: (Seq<char>, Seq<char>)| l.1), dir@),
{
    let ghost tos = log_view(log@).map_values(|l: (Seq<char>, Seq<char>)| l.1);
    let mut out: Vec<String> = Vec::new();
    assert(out.deep_view() =~= cleanup_spec(tos.take(0), dir@));
    let mut i: usize = 0;
    while i < log.len()
        invariant
            i <= log@.len(),
            tos == log_view(log@).map_values(|l: (Seq<char>, Seq<char>)| l.1),
            out.deep_view() == cleanup_spec(tos.take(i as int), dir@),
        decreases log@.len() - i,
    {
        let to = log[i].to.as_str();
        assert(tos.take(i + 1).drop_last() =~= tos.take(i as int));
        assert(tos.take(i + 1).last() == to@);
        match path_parent(to) {
            Some(p) => {
                if !paths_equal(p, dir) {
                    let mut seen = false;
                    let mut j: usize = 0;
                    while j < out.len()
                        invariant
                            j <= out@.len(),
                            seen == exists|k: int| 0 <= k < j && same_path(#[trigger] out.deep_view()[k], p@),
                        decreases out@.len() - j,
                    {
                        if paths_equal(out[j].as_str(), p) {
                            seen = true;
                        }
                        assert(out.deep_view()[j as int] == out@[j as int]@);
                        j = j + 1;
                    }
                    if !seen {
                        let ghost before = out.deep_view();
                        let q = String::from_str(p);
                        out.push(q);
                        assert(out.deep_view() =~= before.push(p@));
                    }
                }
            },
            None => {},
        }
        i = i + 1;
    }
    assert(tos.take(log@.len() as int) =~= tos);
    out
}

/// Whether a file already starts with a header (`---` and a newline).
pub open spec fn has_frontmatter(content: Seq<char>) -> bool {
    "---\n"@.len() <= content.len() && content.take("---\n"@.len() as int) == "---\n"@
}

/// The name of the directory a file came from: its last component, or `unknown`.
pub open spec fn source_dir_name(source_dir: Seq<char>) -> Seq<char> {
    or_else(file_name(source_dir), "unknown"@)
}

/// The header line naming the document a file was converted from, if any.
pub open spec fn converted_line(converted_from: Option<Seq<char>>) -> Seq<char> {
    match converted_from {
        Some(o) => "converted_from: "@ + o + "\n"@,
        None => Seq::empty(),
    }
}

/// The header put at the top of a notes file moved from `source_dir` at `moved_at`.
pub open spec fn header_spec(
    path: Seq<char>,
    moved_at: Seq<char>,
    source_dir: Seq<char>,
    converted_from: Option<Seq<char>>,
) -> Seq<char> {
    "---\nsource: "@ + path + "\nmoved_by: maid\nmoved_at: "@ + moved_at + "\noriginal_dir: "@
        + source_dir_name(source_dir) + "\n"@ + converted_line(converted_from) + "---\n\n"@
}

/// The new contents of a notes file at `path`, moved from `source_dir` at
/// `moved_at`: the header followed by the old contents; none when the file
/// already starts with a header.
pub fn with_frontmatter(
    content: &str,
    path: &str,
    moved_at: &str,
    source_dir: &str,
    converted_from: Option<&str>,
) -> (r: Option<String>)
    ensures
        has_frontmatter(content@) ==> r is None,
        !has_frontmatter(content@) ==> (r matches Some(t) && t@ == header_spec(
            path@,
            moved_at@,
            source_dir@,
            crate::config::opt_view(converted_from),
        ) + content@),
{
    if starts_with_text(content, "---\n") {
        return None;
    }
    let source_name = match path_file_name(source_dir) {
        Some(n) => n,
        None => "unknown",
    };
    let mut r = String::from_str("---\nsource: ");
    r.append(path);
    r.append("\nmoved_by: maid\nmoved_at: ");
    r.append(moved_at);
    r.append("\noriginal_dir: ");
    r.append(source_name);
    r.append("\n");
    let ghost before_line = r@;
    match converted_from {
        Some(o) => {
            r.append("converted_from: ");
            r.append(o);
            r.append("\n");
        },
        None => {},
    }
    let ghost line = match converted_from {
        Some(o) => Some(o@),
        None => None,
    };
    assert(r@ =~= before_line + converted_line(line));
    r.append("---\n\n");
    r.append(content);
    assert(r@ =~= header_spec(path@, moved_at@, source_dir@, line) + content@);
    Some(r)
}

/// What stamping a notes file with a header gives.
pub enum Stamped {
    /// The file already starts with a header and stays as it is.
    AlreadyMarked,
    /// The file's new contents, header first.
    Marked(String),
    /// The clock reads a time before 1970 or beyond what the rendering covers.
    ClockUnavailable,
}

/// The new contents of a notes file, with a header stamped with the
/// current UTC time; the file is left alone when it already starts with a
/// header, and the clock is read only when it does not.
pub fn with_frontmatter_now(
    content: &str,
    path: &str,
    source_dir: &str,
    converted_from: Option<&str>,
) -> (r: Stamped)
    ensures
        has_frontmatter(content@) <==> r is AlreadyMarked,
        r matches Stamped::Marked(t) ==> exists|moved_at: Seq<char>|
            rendering_shape("%Y-%m-%dT%H:%M:%SZ"@, moved_at) && t@ == #[trigger] header_spec(
                path@,
                moved_at,
                source_dir@,
                crate::config::opt_view(converted_from),
            ) + content@,
{
    if starts_with_text(content, "---\n") {
        return Stamped::AlreadyMarked;
    }
    match utc_now_text("%Y-%m-%dT%H:%M:%SZ") {
        Some(now) => match with_frontmatter(content, path, now.as_str(), source_dir, converted_from) {
            Some(t) => Stamped::Marked(t),
            None => Stamped::AlreadyMarked,
        },
        None => Stamped::ClockUnavailable,
    }
}

/// A program to run and its arguments.
pub struct ToolCall {
    pub program: String,
    pub args: Vec<String>,
}

/// How a converter is run on `input` to write markdown to `output`:
/// `marker input -o output`, and for any other tool
/// `pandoc input -t markdown -o output`.
pub fn conversion_command(tool: &str, input: &str, output: &str) -> (r: ToolCall)
    ensures
        tool@ == "marker"@ ==> r.program@ == "marker"@ && r.args.deep_view() == seq![input@, "-o"@, output@],
        tool@ != "marker"@ ==> r.program@ == "pandoc"@ && r.args.deep_view() == seq![
            input@,
            "-t"@,
            "markdown"@,
            "-o"@,
            output@,
        ],
{
    let mut args: Vec<String> = Vec::new();
    if same_text(tool, "marker") {
        args.push(String::from_str(input));
        args.push(String::from_str("-o"));
        args.push(String::from_str(output));
        assert(args.deep_view() =~= seq![input@, "-o"@, output@]);
        ToolCall { program: String::from_str("marker"), args }
    } else {
        args.push(String::from_str(input));
        args.push(String::from_str("-t"));
        args.push(String::from_str("markdown"));
        args.push(String::from_str("-o"));
        args.push(String::from_str(output));
        assert(args.deep_view() =~= seq![input@, "-t"@, "markdown"@, "-o"@, output@]);
        ToolCall { program: String::from_str("pandoc"), args }
    }
}

/// Where a run's record is kept: `.maid_log.json` in the organised directory.
pub fn undo_log_path(dir: &str) -> (r: String)
    ensures
        r@ == join(dir@, ".maid_log.json"@),
{
    join_path(dir, ".maid_log.json")
}

/// The error given when a directory has no record to undo.
pub fn no_undo_log() -> (r: MaidError)
    ensures
        r matches MaidError::UndoFailed(m) && m@ == "No undo log found. Has maid been run here?"@,
{
    MaidError::UndoFailed(String::from_str("No undo log found. Has maid been run here?"))
}

/// A file given a header starts with one, so a second pass leaves it alone.
pub proof fn lemma_header_is_recognised(
    path: Seq<char>,
    moved_at: Seq<char>,
    source_dir: Seq<char>,
    converted_from: Option<Seq<char>>,
    content: Seq<char>,
)
    ensures
        has_frontmatter(header_spec(path, moved_at, source_dir, converted_from) + content),
{
    reveal_strlit("---\n");
    reveal_strlit("---\nsource: ");
    let t = header_spec(path, moved_at, source_dir, converted_from) + content;
    let start = "---\nsource: "@;
    assert(t.take(4) =~= start.take(4)) by {
        assert forall|i: int| 0 <= i < 4 implies t[i] == start[i] by {
            assert(t =~= start + (t.subrange(start.len() as int, t.len() as int)));
        }
    }
    assert(start.take(4) =~= "---\n"@);
}

/// Whether `p` is the parent of some path of `tos`.
pub open spec fn is_recorded_parent(tos: Seq<Seq<char>>, p: Seq<char>) -> bool {
    exists|i: int| 0 <= i < tos.len() && parent(#[trigger] tos[i]) == Some(p)
}

/// The directories tried after an undo are never the organised directory,
/// name no place twice, and are each the parent of some recorded file.
pub proof fn lemma_cleanup_dirs(tos: Seq<Seq<char>>, dir: Seq<char>)
    ensures
        forall|k: int| 0 <= k < cleanup_spec(tos, dir).len() ==> !same_path(#[trigger] cleanup_spec(tos, dir)[k], dir),
        forall|a: int, b: int|
            0 <= a < b < cleanup_spec(tos, dir).len() ==> !same_path(
                #[trigger] cleanup_spec(tos, dir)[a],
                #[trigger] cleanup_spec(tos, dir)[b],
            ),
        forall|k: int| 0 <= k < cleanup_spec(tos, dir).len() ==> is_recorded_parent(
            tos,
            #[trigger] cleanup_spec(tos, dir)[k],
        ),
        forall|i: int|
            0 <= i < tos.len() && #[trigger] parent(tos[i]) is Some && !same_path(parent(tos[i]).unwrap(), dir)
                ==> has_same_path(cleanup_spec(tos, dir), parent(tos[i]).unwrap()),
    decreases tos.len(),
{
    if tos.len() > 0 {
        let init = tos.drop_last();
        lemma_cleanup_dirs(init, dir);
        let rest = cleanup_spec(init, dir);
        let r = cleanup_spec(tos, dir);
        assert forall|i: int|
            0 <= i < tos.len() && #[trigger] parent(tos[i]) is Some && !same_path(parent(tos[i]).unwrap(), dir)
                implies has_same_path(r, parent(tos[i]).unwrap()) by {
            let p = parent(tos[i]).unwrap();
            if i < init.len() {
                assert(init[i] == tos[i]);
                assert(parent(init[i]) is Some);
                let k = choose|k: int| 0 <= k < rest.len() && same_path(#[trigger] rest[k], p);
                assert(r[k] == rest[k]);
            } else {
                assert(tos[i] == tos.last());
                if has_same_path(rest, p) {
                    let k = choose|k: int| 0 <= k < rest.len() && same_path(#[trigger] rest[k], p);
                    assert(r[k] == rest[k]);
                } else {
                    assert(r[rest.len() as int] == p);
                }
            }
        }
        assert forall|k: int| 0 <= k < r.len() implies is_recorded_parent(tos, #[trigger] r[k]) by {
            if k < rest.len() {
                assert(r[k] == rest[k]);
                let i = choose|i: int| 0 <= i < init.len() && parent(#[trigger] init[i]) == Some(rest[k]);
                assert(tos[i] == init[i]);
            } else {
                assert(tos[tos.len() - 1] == tos.last());
            }
        }
        assert forall|a: int, b: int| 0 <= a < b < r.len() implies !same_path(
            #[trigger] r[a],
            #[trigger] r[b],
        ) by {
            if b < rest.len() {
                assert(r[a] == rest[a] && r[b] == rest[b]);
            } else {
                assert(r[a] == rest[a]);
                if same_path(r[a], r[b]) {
                    assert(same_path(rest[a], parent(tos.last()).unwrap()));
                    assert(has_same_path(rest, parent(tos.last()).unwrap()));
                }
            }
        }
        assert forall|k: int| 0 <= k < r.len() implies !same_path(#[trigger] r[k], dir) by {
            if k < rest.len() {
                assert(r[k] == rest[k]);
            }
        }
    }
}

/// A failed conversion leaves no line in the record and changes no count.
pub proof fn lemma_failed_conversion_leaves_no_trace(os: Seq<Outcome>)
    ensures
        run_lines(os.push(Outcome::ConversionFailed)) == run_lines(os),
        run_moved(os.push(Outcome::ConversionFailed)) == run_moved(os),
        run_converted(os.push(Outcome::ConversionFailed)) == run_converted(os),
        run_quarantined(os.push(Outcome::ConversionFailed)) == run_quarantined(os),
{
    let t = os.push(Outcome::ConversionFailed);
    assert(t.drop_last() =~= os);
    assert(run_lines(os) + Seq::<(Seq<char>, Seq<char>)>::empty() =~= run_lines(os));
}

/// The line a preview shows for a file named `filename` and its action;
/// `quarantine_dir` is where quarantined files go.
pub open spec fn preview_line_spec(filename: Seq<char>, action: ActionView, quarantine_dir: Seq<char>) -> Seq<char> {
    match action {
        ActionView::Convert { tool, md_name, .. } => " "@ + filename + " -> CONVERT ("@ + tool + ") -> "@ + md_name
            + " + archive original"@,
        ActionView::Quarantine { .. } => " "@ + filename + " -> QUARANTINE ("@ + quarantine_dir + ")"@,
        ActionView::Move { dest_dir, .. } => " "@ + filename + " -> "@ + dest_dir,
    }
}

/// The line a preview shows for a file and its action.
pub fn preview_line(filename: &str, action: &Action, quarantine_dir: &str) -> (r: String)
    ensures
        r@ == preview_line_spec(filename@, action@, quarantine_dir@),
{
    let mut r = String::from_str(" ");
    r.append(filename);
    match action {
        Action::Convert { tool, md_name, .. } => {
            r.append(" -> CONVERT (");
            r.append(tool.as_str());
            r.append(") -> ");
            r.append(md_name.as_str());
            r.append(" + archive original");
        },
        Action::Quarantine { .. } => {
            r.append(" -> QUARANTINE (");
            r.append(quarantine_dir);
            r.append(")");
        },
        Action::Move { dest_dir, .. } => {
            r.append(" -> ");
            r.append(dest_dir.as_str());
        },
    }
    r
}

/// For a file without a converter that is not a notes file, the preview
/// names its category's directory, and a run moves it into exactly that
/// directory under its own name, without a header and without a secret check.
pub proof fn lemma_preview_agrees_with_run(
    c: ConfigView,
    path: Seq<char>,
    filename: Seq<char>,
    folder: Seq<char>,
    dir: Seq<char>,
    marker_available: bool,
    notes_clean: bool,
    quarantine_dir: Seq<char>,
)
    requires
        converter_spec(c, ext_text(path), marker_available) is None,
        !notes_ext_spec(ext_text(path)),
    ensures
        !needs_notes_check_spec(c, path, marker_available),
        plan_spec(c, path, filename, folder, dir, marker_available, notes_clean) == (ActionView::Move {
            dest_dir: destination_spec(c, folder, dir),
            frontmatter: false,
        }),
        preview_line_spec(filename, plan_spec(c, path, filename, folder, dir, marker_available, notes_clean), quarantine_dir)
            == " "@ + filename + " -> "@ + destination_spec(c, folder, dir),
{
}

/// The steps that undo one outcome of a run.
pub open spec fn outcome_undo(o: Outcome) -> Seq<UndoView> {
    match o {
        Outcome::ConversionFailed => Seq::empty(),
        Outcome::Converted { source, archive_dest, md_destination, .. } => seq![
            UndoView::Restore { current: archive_dest@, previous: source@ },
            UndoView::RemoveConverted { path: md_destination@ },
        ],
        Outcome::Moved { from, to, .. } => seq![UndoView::Restore { current: to@, previous: from@ }],
    }
}

/// The steps that undo a whole run: each outcome's, in order.
pub open spec fn run_undo(os: Seq<Outcome>) -> Seq<UndoView>
    decreases os.len(),
{
    if os.len() == 0 {
        Seq::empty()
    } else {
        run_undo(os.drop_last()) + outcome_undo(os.last())
    }
}

/// Whether no moved file or converted document of a run had the conversion
/// mark itself as its path.
pub open spec fn sources_unmarked(os: Seq<Outcome>) -> bool {
    forall|i: int| 0 <= i < os.len() ==> match #[trigger] os[i] {
        Outcome::Converted { source, .. } => source@ != converted_mark(),
        Outcome::Moved { from, .. } => from@ != converted_mark(),
        Outcome::ConversionFailed => true,
    }
}

/// Undoing a whole run moves every moved file back from where it went, takes
/// every archived document back and deletes every markdown file made from
/// it, in run order; a failed conversion needs no step.
pub proof fn lemma_undo_reverses_run(os: Seq<Outcome>)
    requires
        sources_unmarked(os),
    ensures
        run_lines(os).map_values(|l: (Seq<char>, Seq<char>)| undo_of(l)) == run_undo(os),
    decreases os.len(),
{
    if os.len() > 0 {
        let init = os.drop_last();
        assert(sources_unmarked(init)) by {
            assert forall|i: int| 0 <= i < init.len() implies match #[trigger] init[i] {
                Outcome::Converted { source, .. } => source@ != converted_mark(),
                Outcome::Moved { from, .. } => from@ != converted_mark(),
                Outcome::ConversionFailed => true,
            } by {
                assert(init[i] == os[i]);
            }
        }
        lemma_undo_reverses_run(init);
        let last = os.last();
        assert(os[os.len() - 1] == last);
        let f = |l: (Seq<char>, Seq<char>)| undo_of(l);
        assert(outcome_lines(last).map_values(f) =~= outcome_undo(last));
        assert((run_lines(init) + outcome_lines(last)).map_values(f) =~= run_lines(init).map_values(f)
            + outcome_lines(last).map_values(f));
    }
}

} // verus!
