//! The organiser's settings: where files go, how extensions are classified,
//! which tools convert which documents, and what to do per category.

use vstd::prelude::*;
use vstd::hash_map::StringHashMap;
use crate::path::{join, join_path};
use crate::platform::{config_dir, data_dir, home_dir};
use crate::text::{all_ascii, ascii_lower, ascii_lower_char, contains_text, lowercase, to_lowercase};

verus! {

/// What a settings file holds once parsed: every table as plain values.
/// Tables keyed by name are lists of (name, value) pairs.
pub struct ConfigFile {
    pub directories: Vec<String>,
    pub categories: Vec<(String, Vec<String>)>,
    pub destinations: Vec<(String, String)>,
    pub convert: Option<ConvertConfig>,
    pub actions: Vec<(String, String)>,
    pub stale: Vec<(String, u64)>,
}

/// The `convert` table of a settings file: which extensions each
/// converter takes, and the converter to use when `marker` is missing.
pub struct ConvertConfig {
    pub pandoc: Vec<String>,
    pub marker: Vec<String>,
    pub mutool: Vec<String>,
    pub fallback: Option<String>,
}

/// The settings in force.
pub struct Config {
    /// The directories organised when none is named.
    pub directories: Vec<String>,
    categories: Ghost<Seq<(Seq<char>, Seq<Seq<char>>)>>,
    lookup: StringHashMap<String>,
    destinations: StringHashMap<String>,
    convert_pandoc: Vec<String>,
    convert_marker: Vec<String>,
    convert_mutool: Vec<String>,
    convert_fallback: String,
    actions: StringHashMap<String>,
    stale: StringHashMap<u64>,
}

/// The settings as mathematical values.
pub struct ConfigView {
    pub directories: Seq<Seq<char>>,
    /// The (category, extensions) pairs the lookup was built from.
    pub categories: Seq<(Seq<char>, Seq<Seq<char>>)>,
    /// Lowercased extension to category.
    pub lookup: Map<Seq<char>, Seq<char>>,
    /// Category to the directory that receives it.
    pub destinations: Map<Seq<char>, Seq<char>>,
    pub pandoc: Seq<Seq<char>>,
    pub marker: Seq<Seq<char>>,
    pub mutool: Seq<Seq<char>>,
    pub fallback: Seq<char>,
    /// Category to its action.
    pub actions: Map<Seq<char>, Seq<char>>,
    /// Category to its stale threshold in days.
    pub stale: Map<Seq<char>, u64>,
}

/// A map of strings seen as a map of character sequences.
pub open spec fn text_map(m: Map<Seq<char>, String>) -> Map<Seq<char>, Seq<char>> {
    m.map_values(|v: String| v@)
}

impl View for Config {
    type V = ConfigView;

    closed spec fn view(&self) -> ConfigView {
        ConfigView {
            directories: self.directories.deep_view(),
            categories: self.categories@,
            lookup: text_map(self.lookup@),
            destinations: text_map(self.destinations@),
            pandoc: self.convert_pandoc.deep_view(),
            marker: self.convert_marker.deep_view(),
            mutool: self.convert_mutool.deep_view(),
            fallback: self.convert_fallback@,
            actions: text_map(self.actions@),
            stale: self.stale@,
        }
    }
}

impl Config {
    /// The lookup is the one built from the categories; every constructor
    /// establishes this, and nothing changes a `Config` afterwards.
    pub open spec fn well_formed(&self) -> bool {
        &&& self@.lookup == lookup_from(self@.categories)
        &&& lowercase_known(self@.categories)
    }
}

impl Config {
    /// The directories organised when none is named: the `directories`
    /// field, as the view describes it.
    pub fn directories(&self) -> (r: &Vec<String>)
        ensures
            r.deep_view() == self@.directories,
    {
        &self.directories
    }
}

/// The lowercase form of every ASCII extension that `cats` lists is its
/// ASCII lowercase form.
pub open spec fn lowercase_known(cats: Seq<(Seq<char>, Seq<Seq<char>>)>) -> bool {
    forall|i: int, j: int|
        0 <= i < cats.len() && 0 <= j < cats[i].1.len() && all_ascii(#[trigger] cats[i].1[j])
            ==> lowercase(cats[i].1[j]) == ascii_lower(cats[i].1[j])
}

/// `m` with each of `exts`, lowercased, sent to `folder`; later entries win.
pub open spec fn insert_extensions(
    m: Map<Seq<char>, Seq<char>>,
    folder: Seq<char>,
    exts: Seq<Seq<char>>,
) -> Map<Seq<char>, Seq<char>>
    decreases exts.len(),
{
    if exts.len() == 0 {
        m
    } else {
        insert_extensions(m, folder, exts.drop_last()).insert(lowercase(exts.last()), folder)
    }
}

/// The extension lookup built from (category, extensions) pairs in order:
/// an extension listed twice goes to the category listed last.
pub open spec fn lookup_from(cats: Seq<(Seq<char>, Seq<Seq<char>>)>) -> Map<Seq<char>, Seq<char>>
    decreases cats.len(),
{
    if cats.len() == 0 {
        Map::empty()
    } else {
        insert_extensions(lookup_from(cats.drop_last()), cats.last().0, cats.last().1)
    }
}

/// The map holding each (key, value) pair; a key listed twice keeps its last value.
pub open spec fn pairs_to_map<V>(ps: Seq<(Seq<char>, V)>) -> Map<Seq<char>, V>
    decreases ps.len(),
{
    if ps.len() == 0 {
        Map::empty()
    } else {
        pairs_to_map(ps.drop_last()).insert(ps.last().0, ps.last().1)
    }
}

/// The category of an extension: its lowercase form looked up, else `unknown`.
pub open spec fn classify_spec(c: ConfigView, ext: Seq<char>) -> Seq<char> {
    let key = lowercase(ext);
    if c.lookup.contains_key(key) {
        c.lookup[key]
    } else {
        "unknown"@
    }
}

/// The category a lowercase key gives: its entry in the lookup, else `unknown`.
pub open spec fn classify_at(c: ConfigView, key: Seq<char>) -> Seq<char> {
    if c.lookup.contains_key(key) {
        c.lookup[key]
    } else {
        "unknown"@
    }
}

/// Where a category goes: its configured destination, else a subdirectory
/// of the source directory named after it.
pub open spec fn destination_spec(c: ConfigView, category: Seq<char>, source_dir: Seq<char>) -> Seq<char> {
    if c.destinations.contains_key(category) {
        c.destinations[category]
    } else {
        join(source_dir, category)
    }
}

/// `o`'s value, or `d` when there is none.
pub open spec fn or_else(o: Option<Seq<char>>, d: Seq<char>) -> Seq<char> {
    match o {
        Some(v) => v,
        None => d,
    }
}

/// The quarantine directory: the `quarantine` destination, else
/// `<data dir or /tmp>/maid/quarantine`.
pub open spec fn quarantine_spec(c: ConfigView, data_dir: Option<Seq<char>>) -> Seq<char> {
    if c.destinations.contains_key("quarantine"@) {
        c.destinations["quarantine"@]
    } else {
        join(join(or_else(data_dir, "/tmp"@), "maid"@), "quarantine"@)
    }
}

/// The archive directory: the `archive` destination, else
/// `<home or /tmp>/Documents/_RepoArchive/maid`.
pub open spec fn archive_spec(c: ConfigView, home: Option<Seq<char>>) -> Seq<char> {
    if c.destinations.contains_key("archive"@) {
        c.destinations["archive"@]
    } else {
        join(join(join(or_else(home, "/tmp"@), "Documents"@), "_RepoArchive"@), "maid"@)
    }
}

/// The action of a category: its configured action, else `move`.
pub open spec fn action_spec(c: ConfigView, category: Seq<char>) -> Seq<char> {
    if c.actions.contains_key(category) {
        c.actions[category]
    } else {
        "move"@
    }
}

/// The stale threshold of a category, if one is configured.
pub open spec fn stale_spec(c: ConfigView, category: Seq<char>) -> Option<u64> {
    if c.stale.contains_key(category) {
        Some(c.stale[category])
    } else {
        None
    }
}

/// Whether the extension is one that `marker` converts.
pub open spec fn uses_marker_spec(c: ConfigView, ext: Seq<char>) -> bool {
    c.marker.contains(lowercase(ext))
}

/// The converter for an extension. `marker` extensions go to `marker` when
/// it is available, else to the fallback unless that is empty; then `mutool`
/// and `pandoc` extensions go to those tools; other extensions to none.
pub open spec fn converter_spec(c: ConfigView, ext: Seq<char>, marker_available: bool) -> Option<Seq<char>> {
    let e = lowercase(ext);
    if c.marker.contains(e) {
        if marker_available {
            Some("marker"@)
        } else if c.fallback.len() > 0 {
            Some(c.fallback)
        } else {
            None
        }
    } else if c.mutool.contains(e) {
        Some("mutool"@)
    } else if c.pandoc.contains(e) {
        Some("pandoc"@)
    } else {
        None
    }
}

/// `~/rest` with a home directory becomes `home/rest`; any other path is kept.
pub open spec fn expand_spec(path: Seq<char>, home: Option<Seq<char>>) -> Seq<char> {
    if path.len() >= 2 && path[0] == '~' && path[1] == '/' && home is Some {
        join(home.unwrap(), path.skip(2))
    } else {
        path
    }
}

/// The directories organised by default: `Documents`, `Downloads` and
/// `Desktop` under the home directory, or none without one.
pub open spec fn default_directories_spec(home: Option<Seq<char>>) -> Seq<Seq<char>> {
    match home {
        Some(h) => seq![join(h, "Documents"@), join(h, "Downloads"@), join(h, "Desktop"@)],
        None => Seq::empty(),
    }
}

/// The categories used when the settings name none.
pub open spec fn default_categories_spec() -> Seq<(Seq<char>, Seq<Seq<char>>)> {
    seq![
        ("images"@, seq!["jpg"@, "jpeg"@, "png"@, "gif"@, "svg"@, "webp"@]),
        ("documents"@, seq!["pdf"@, "docx"@, "doc"@, "txt"@, "xlsx"@, "pptx"@]),
        ("video"@, seq!["mp4"@, "mov"@, "avi"@, "mkv"@]),
        ("audio"@, seq!["mp3"@, "wav"@, "flac"@, "aac"@]),
        ("code"@, seq!["rs"@, "py"@, "js"@, "ts"@, "html"@, "css"@, "json"@]),
        ("archives"@, seq!["zip"@, "tar"@, "gz"@, "rar"@]),
    ]
}

/// The settings assembled from their parts, the lookup built from the categories.
pub open spec fn build_spec(
    directories: Seq<Seq<char>>,
    categories: Seq<(Seq<char>, Seq<Seq<char>>)>,
    destinations: Map<Seq<char>, Seq<char>>,
    pandoc: Seq<Seq<char>>,
    marker: Seq<Seq<char>>,
    mutool: Seq<Seq<char>>,
    fallback: Seq<char>,
    actions: Map<Seq<char>, Seq<char>>,
    stale: Map<Seq<char>, u64>,
) -> ConfigView {
    ConfigView {
        directories,
        categories,
        lookup: lookup_from(categories),
        destinations,
        pandoc,
        marker,
        mutool,
        fallback,
        actions,
        stale,
    }
}

/// The settings used when there is no settings file.
pub open spec fn defaults_spec(home: Option<Seq<char>>) -> ConfigView {
    build_spec(
        default_directories_spec(home),
        default_categories_spec(),
        Map::empty(),
        Seq::empty(),
        Seq::empty(),
        Seq::empty(),
        "pandoc"@,
        Map::empty(),
        Map::empty(),
    )
}

/// A borrowed optional string seen as an optional character sequence.
pub open spec fn opt_view(o: Option<&str>) -> Option<Seq<char>> {
    match o {
        Some(s) => Some(s@),
        None => None,
    }
}

/// A borrowed view of an optional owned string.
fn as_opt_str(o: &Option<String>) -> (r: Option<&str>)
    ensures
        opt_view(r) == match o {
            Some(s) => Some(s@),
            None => None::<Seq<char>>,
        },
{
    match o {
        Some(s) => Some(s.as_str()),
        None => None,
    }
}

/// Map-of-strings insertion seen through `text_map`.
proof fn lemma_text_map_insert(m: Map<Seq<char>, String>, k: Seq<char>, v: String)
    ensures
        text_map(m.insert(k, v)) == text_map(m).insert(k, v@),
{
    assert(text_map(m.insert(k, v)) =~= text_map(m).insert(k, v@));
}

/// `~/` paths are taken relative to the given home directory.
pub fn expand_path_with(path: &str, home: Option<&str>) -> (r: String)
    ensures
        r@ == expand_spec(path@, opt_view(home)),
{
    let n = path.unicode_len();
    if n >= 2 && path.get_char(0) == '~' && path.get_char(1) == '/' {
        match home {
            Some(h) => {
                let rest = path.substring_char(2, n);
                assert(rest@ =~= path@.skip(2));
                return join_path(h, rest);
            },
            None => {},
        }
    }
    String::from_str(path)
}

/// `~/` paths are taken relative to the user's home directory.
pub fn expand_path(path: &str) -> (r: String)
    ensures
        exists|home: Option<Seq<char>>| r@ == expand_spec(path@, home),
{
    let home = home_dir();
    expand_path_with(path, as_opt_str(&home))
}

/// A map of strings built from (key, value) pairs; later pairs win.
fn text_pairs_map(pairs: &Vec<(String, String)>) -> (r: StringHashMap<String>)
    ensures
        text_map(r@) == pairs_to_map(pairs.deep_view()),
{
    let mut m: StringHashMap<String> = StringHashMap::new();
    let ghost ps = pairs.deep_view();
    assert(text_map(m@) =~= pairs_to_map(ps.take(0)));
    let mut i: usize = 0;
    while i < pairs.len()
        invariant
            i <= pairs@.len(),
            ps == pairs.deep_view(),
            text_map(m@) == pairs_to_map(ps.take(i as int)),
        decreases pairs@.len() - i,
    {
        let k = pairs[i].0.clone();
        let v = pairs[i].1.clone();
        proof {
            lemma_text_map_insert(m@, k@, v);
        }
        m.insert(k, v);
        assert(ps.take(i + 1).drop_last() =~= ps.take(i as int));
        i = i + 1;
    }
    assert(ps.take(pairs@.len() as int) =~= ps);
    m
}

/// A map of thresholds built from (key, value) pairs; later pairs win.
fn count_pairs_map(pairs: &Vec<(String, u64)>) -> (r: StringHashMap<u64>)
    ensures
        r@ == pairs_to_map(pairs.deep_view()),
{
    let mut m: StringHashMap<u64> = StringHashMap::new();
    let ghost ps = pairs.deep_view();
    assert(m@ =~= pairs_to_map(ps.take(0)));
    let mut i: usize = 0;
    while i < pairs.len()
        invariant
            i <= pairs@.len(),
            ps == pairs.deep_view(),
            m@ == pairs_to_map(ps.take(i as int)),
        decreases pairs@.len() - i,
    {
        let k = pairs[i].0.clone();
        let v = pairs[i].1;
        m.insert(k, v);
        assert(ps.take(i + 1).drop_last() =~= ps.take(i as int));
        i = i + 1;
    }
    assert(ps.take(pairs@.len() as int) =~= ps);
    m
}

/// The (key, expanded path) pairs of a destinations table.
pub open spec fn expanded_pairs(ps: Seq<(Seq<char>, Seq<char>)>, home: Option<Seq<char>>) -> Seq<(Seq<char>, Seq<char>)> {
    Seq::new(ps.len(), |i: int| (ps[i].0, expand_spec(ps[i].1, home)))
}

/// The destinations map, each directory with `~/` expanded; later pairs win.
fn destinations_map(pairs: &Vec<(String, String)>, home: Option<&str>) -> (r: StringHashMap<String>)
    ensures
        text_map(r@) == pairs_to_map(expanded_pairs(pairs.deep_view(), opt_view(home))),
{
    let mut m: StringHashMap<String> = StringHashMap::new();
    let ghost ps = expanded_pairs(pairs.deep_view(), opt_view(home));
    assert(text_map(m@) =~= pairs_to_map(ps.take(0)));
    let mut i: usize = 0;
    while i < pairs.len()
        invariant
            i <= pairs@.len(),
            ps == expanded_pairs(pairs.deep_view(), opt_view(home)),
            text_map(m@) == pairs_to_map(ps.take(i as int)),
        decreases pairs@.len() - i,
    {
        let k = pairs[i].0.clone();
        let v = expand_path_with(pairs[i].1.as_str(), home);
        proof {
            lemma_text_map_insert(m@, k@, v);
        }
        m.insert(k, v);
        assert(ps.take(i + 1).drop_last() =~= ps.take(i as int));
        i = i + 1;
    }
    assert(ps.take(pairs@.len() as int) =~= ps);
    m
}

/// The extension lookup built from the categories in order.
fn build_lookup(categories: &Vec<(String, Vec<String>)>) -> (r: StringHashMap<String>)
    ensures
        text_map(r@) == lookup_from(categories.deep_view()),
        lowercase_known(categories.deep_view()),
{
    let ghost cats = categories.deep_view();
    let mut lookup: StringHashMap<String> = StringHashMap::new();
    assert(text_map(lookup@) =~= lookup_from(cats.take(0)));
    let mut i: usize = 0;
    while i < categories.len()
        invariant
            i <= categories@.len(),
            cats == categories.deep_view(),
            text_map(lookup@) == lookup_from(cats.take(i as int)),
            forall|a: int, b: int|
                0 <= a < i && 0 <= b < cats[a].1.len() && all_ascii(#[trigger] cats[a].1[b])
                    ==> lowercase(cats[a].1[b]) == ascii_lower(cats[a].1[b]),
        decreases categories@.len() - i,
    {
        let folder = &categories[i].0;
        let exts = &categories[i].1;
        let ghost base = lookup_from(cats.take(i as int));
        assert(cats[i as int].1 == exts.deep_view());
        assert(exts.deep_view().take(0) =~= Seq::<Seq<char>>::empty());
        let mut j: usize = 0;
        while j < exts.len()
            invariant
                j <= exts@.len(),
                i < categories@.len(),
                cats == categories.deep_view(),
                exts == &categories@[i as int].1,
                folder == &categories@[i as int].0,
                base == lookup_from(cats.take(i as int)),
                text_map(lookup@) == insert_extensions(base, folder@, exts.deep_view().take(j as int)),
                forall|a: int, b: int|
                    0 <= a < i && 0 <= b < cats[a].1.len() && all_ascii(#[trigger] cats[a].1[b])
                        ==> lowercase(cats[a].1[b]) == ascii_lower(cats[a].1[b]),
                forall|b: int|
                    0 <= b < j && all_ascii(#[trigger] cats[i as int].1[b])
                        ==> lowercase(cats[i as int].1[b]) == ascii_lower(cats[i as int].1[b]),
            decreases exts@.len() - j,
        {
            let key = to_lowercase(exts[j].as_str());
            assert(cats[i as int].1[j as int] == exts@[j as int]@);
            let value = folder.clone();
            proof {
                lemma_text_map_insert(lookup@, key@, value);
                assert(exts.deep_view().take(j + 1).drop_last() =~= exts.deep_view().take(j as int));
            }
            lookup.insert(key, value);
            j = j + 1;
        }
        assert(exts.deep_view().take(exts@.len() as int) =~= exts.deep_view());
        assert(cats.take(i + 1).drop_last() =~= cats.take(i as int));
        i = i + 1;
    }
    assert(cats.take(categories@.len() as int) =~= cats);
    lookup
}

impl Config {
    /// Assembles the settings; the extension lookup sends each listed
    /// extension, lowercased, to its category, the category listed last
    /// winning when an extension is listed twice.
    pub fn build(
        directories: Vec<String>,
        categories: &Vec<(String, Vec<String>)>,
        destinations: StringHashMap<String>,
        convert_pandoc: Vec<String>,
        convert_marker: Vec<String>,
        convert_mutool: Vec<String>,
        convert_fallback: String,
        actions: StringHashMap<String>,
        stale: StringHashMap<u64>,
    ) -> (r: Self)
        ensures
            r.well_formed(),
            r@ == build_spec(
                directories.deep_view(),
                categories.deep_view(),
                text_map(destinations@),
                convert_pandoc.deep_view(),
                convert_marker.deep_view(),
                convert_mutool.deep_view(),
                convert_fallback@,
                text_map(actions@),
                stale@,
            ),
    {
        let lookup = build_lookup(categories);
        Config {
            directories,
            categories: Ghost(categories.deep_view()),
            lookup,
            destinations,
            convert_pandoc,
            convert_marker,
            convert_mutool,
            convert_fallback,
            actions,
            stale,
        }
    }

    /// The category of a file extension, matched without regard to case;
    /// `unknown` when no category lists it.
    pub fn classify(&self, ext: &str) -> (r: &str)
        ensures
            r@ == classify_spec(self@, ext@),
            all_ascii(ext@) ==> r@ == classify_at(self@, ascii_lower(ext@)),
            self.well_formed() && !cats_list_key(self@.categories, lowercase(ext@)) ==> r@ == "unknown"@,
            self.well_formed() && cats_list_key(self@.categories, lowercase(ext@)) ==> exists|i: int|
                0 <= i < self@.categories.len() && lists_key(#[trigger] self@.categories[i].1, lowercase(ext@))
                    && r@ == self@.categories[i].0,
    {
        proof {
            if self.well_formed() {
                lemma_classify_listed(self@, self@.categories, ext@);
            }
        }
        let key = to_lowercase(ext);
        match self.lookup.get(key.as_str()) {
            Some(folder) => folder.as_str(),
            None => "unknown",
        }
    }

    /// The directory that receives a category's files from `source_dir`.
    pub fn destination(&self, category: &str, source_dir: &str) -> (r: String)
        ensures
            r@ == destination_spec(self@, category@, source_dir@),
    {
        match self.destinations.get(category) {
            Some(dest) => dest.clone(),
            None => join_path(source_dir, category),
        }
    }

    /// The quarantine directory, given the user's data directory.
    pub fn quarantine_dir_with(&self, data_dir: Option<&str>) -> (r: String)
        ensures
            r@ == quarantine_spec(self@, opt_view(data_dir)),
    {
        match self.destinations.get("quarantine") {
            Some(dest) => dest.clone(),
            None => {
                let base = match data_dir {
                    Some(d) => d,
                    None => "/tmp",
                };
                let maid = join_path(base, "maid");
                join_path(maid.as_str(), "quarantine")
            },
        }
    }

    /// The quarantine directory, under the user's data directory unless configured.
    pub fn quarantine_dir(&self) -> (r: String)
        ensures
            exists|d: Option<Seq<char>>| r@ == quarantine_spec(self@, d),
    {
        let d = data_dir();
        self.quarantine_dir_with(as_opt_str(&d))
    }

    /// The archive directory, given the user's home directory.
    pub fn archive_dir_with(&self, home: Option<&str>) -> (r: String)
        ensures
            r@ == archive_spec(self@, opt_view(home)),
    {
        match self.destinations.get("archive") {
            Some(dest) => dest.clone(),
            None => {
                let base = match home {
                    Some(h) => h,
                    None => "/tmp",
                };
                let docs = join_path(base, "Documents");
                let repo = join_path(docs.as_str(), "_RepoArchive");
                join_path(repo.as_str(), "maid")
            },
        }
    }

    /// The archive directory, under the user's home directory unless configured.
    pub fn archive_dir(&self) -> (r: String)
        ensures
            exists|h: Option<Seq<char>>| r@ == archive_spec(self@, h),
    {
        let h = home_dir();
        self.archive_dir_with(as_opt_str(&h))
    }

    /// The action for a category: `move` (default), `note`, etc.
    pub fn action_for(&self, category: &str) -> (r: &str)
        ensures
            r@ == action_spec(self@, category@),
    {
        match self.actions.get(category) {
            Some(a) => a.as_str(),
            None => "move",
        }
    }

    /// The stale threshold in days for a category, if any.
    pub fn stale_days(&self, category: &str) -> (r: Option<u64>)
        ensures
            r == stale_spec(self@, category@),
    {
        match self.stale.get(category) {
            Some(d) => Some(*d),
            None => None,
        }
    }

    /// Whether files with this extension go to `marker`, so that whether
    /// `marker` is installed matters.
    pub fn uses_marker(&self, ext: &str) -> (r: bool)
        ensures
            r == uses_marker_spec(self@, ext@),
    {
        let e = to_lowercase(ext);
        contains_text(&self.convert_marker, e.as_str())
    }

    /// The converter for a file extension, given whether `marker` is installed.
    pub fn converter_for(&self, ext: &str, marker_available: bool) -> (r: Option<&str>)
        ensures
            match r {
                Some(t) => converter_spec(self@, ext@, marker_available) == Some(t@),
                None => converter_spec(self@, ext@, marker_available) is None,
            },
    {
        let e = to_lowercase(ext);
        if contains_text(&self.convert_marker, e.as_str()) {
            if marker_available {
                return Some("marker");
            }
            let fallback = self.convert_fallback.as_str();
            if fallback.unicode_len() > 0 {
                return Some(fallback);
            }
            return None;
        }
        if contains_text(&self.convert_mutool, e.as_str()) {
            return Some("mutool");
        }
        if contains_text(&self.convert_pandoc, e.as_str()) {
            return Some("pandoc");
        }
        None
    }
}

impl Config {
    /// The directories organised by default under a home directory.
    pub fn default_directories_with(home: Option<&str>) -> (r: Vec<String>)
        ensures
            r.deep_view() == default_directories_spec(opt_view(home)),
    {
        let mut dirs: Vec<String> = Vec::new();
        match home {
            Some(h) => {
                dirs.push(join_path(h, "Documents"));
                dirs.push(join_path(h, "Downloads"));
                dirs.push(join_path(h, "Desktop"));
            },
            None => {},
        }
        assert(dirs.deep_view() =~= default_directories_spec(opt_view(home)));
        dirs
    }

    /// The directories organised by default under the user's home directory.
    pub fn default_directories() -> (r: Vec<String>)
        ensures
            exists|h: Option<Seq<char>>| r.deep_view() == default_directories_spec(h),
    {
        let h = home_dir();
        Self::default_directories_with(as_opt_str(&h))
    }

    /// The categories used when the settings name none: images, documents,
    /// video, audio, code and archives, with their extensions.
    pub fn default_categories() -> (r: Vec<(String, Vec<String>)>)
        ensures
            r.deep_view() == default_categories_spec(),
    {
        let mut e0: Vec<String> = Vec::new();
        e0.push(String::from_str("jpg"));
        e0.push(String::from_str("jpeg"));
        e0.push(String::from_str("png"));
        e0.push(String::from_str("gif"));
        e0.push(String::from_str("svg"));
        e0.push(String::from_str("webp"));
        let mut e1: Vec<String> = Vec::new();
        e1.push(String::from_str("pdf"));
        e1.push(String::from_str("docx"));
        e1.push(String::from_str("doc"));
        e1.push(String::from_str("txt"));
        e1.push(String::from_str("xlsx"));
        e1.push(String::from_str("pptx"));
        let mut e2: Vec<String> = Vec::new();
        e2.push(String::from_str("mp4"));
        e2.push(String::from_str("mov"));
        e2.push(String::from_str("avi"));
        e2.push(String::from_str("mkv"));
        let mut e3: Vec<String> = Vec::new();
        e3.push(String::from_str("mp3"));
        e3.push(String::from_str("wav"));
        e3.push(String::from_str("flac"));
        e3.push(String::from_str("aac"));
        let mut e4: Vec<String> = Vec::new();
        e4.push(String::from_str("rs"));
        e4.push(String::from_str("py"));
        e4.push(String::from_str("js"));
        e4.push(String::from_str("ts"));
        e4.push(String::from_str("html"));
        e4.push(String::from_str("css"));
        e4.push(String::from_str("json"));
        let mut e5: Vec<String> = Vec::new();
        e5.push(String::from_str("zip"));
        e5.push(String::from_str("tar"));
        e5.push(String::from_str("gz"));
        e5.push(String::from_str("rar"));
        let mut cats: Vec<(String, Vec<String>)> = Vec::new();
        assert(e0.deep_view() =~= seq!["jpg"@, "jpeg"@, "png"@, "gif"@, "svg"@, "webp"@]);
        cats.push((String::from_str("images"), e0));
        assert(e1.deep_view() =~= seq!["pdf"@, "docx"@, "doc"@, "txt"@, "xlsx"@, "pptx"@]);
        cats.push((String::from_str("documents"), e1));
        assert(e2.deep_view() =~= seq!["mp4"@, "mov"@, "avi"@, "mkv"@]);
        cats.push((String::from_str("video"), e2));
        assert(e3.deep_view() =~= seq!["mp3"@, "wav"@, "flac"@, "aac"@]);
        cats.push((String::from_str("audio"), e3));
        assert(e4.deep_view() =~= seq!["rs"@, "py"@, "js"@, "ts"@, "html"@, "css"@, "json"@]);
        cats.push((String::from_str("code"), e4));
        assert(e5.deep_view() =~= seq!["zip"@, "tar"@, "gz"@, "rar"@]);
        cats.push((String::from_str("archives"), e5));
        assert(cats.deep_view() =~= default_categories_spec());
        cats
    }
}

/// The settings assembled from a parsed file, given the user's home
/// directory: no directories means the default ones, no categories the
/// default ones, destinations with `~/` expanded, no converter fallback
/// means `pandoc`.
pub open spec fn from_file_spec(
    directories: Seq<Seq<char>>,
    categories: Seq<(Seq<char>, Seq<Seq<char>>)>,
    destinations: Seq<(Seq<char>, Seq<char>)>,
    convert: Option<(Seq<Seq<char>>, Seq<Seq<char>>, Seq<Seq<char>>, Option<Seq<char>>)>,
    actions: Seq<(Seq<char>, Seq<char>)>,
    stale: Seq<(Seq<char>, u64)>,
    home: Option<Seq<char>>,
) -> ConfigView {
    let (pandoc, marker, mutool, fallback) = match convert {
        Some(c) => c,
        None => (Seq::empty(), Seq::empty(), Seq::empty(), None),
    };
    build_spec(
        if directories.len() == 0 {
            default_directories_spec(home)
        } else {
            Seq::new(directories.len(), |i: int| expand_spec(directories[i], home))
        },
        if categories.len() == 0 {
            default_categories_spec()
        } else {
            categories
        },
        pairs_to_map(expanded_pairs(destinations, home)),
        pandoc,
        marker,
        mutool,
        or_else(fallback, "pandoc"@),
        pairs_to_map(actions),
        pairs_to_map(stale),
    )
}

/// The `convert` table as mathematical values.
pub open spec fn convert_view(c: Option<ConvertConfig>) -> Option<(Seq<Seq<char>>, Seq<Seq<char>>, Seq<Seq<char>>, Option<Seq<char>>)> {
    match c {
        Some(c) => Some((c.pandoc.deep_view(), c.marker.deep_view(), c.mutool.deep_view(), c.fallback.deep_view())),
        None => None,
    }
}

impl ConfigFile {
    /// The parsed file as mathematical values, read by `from_file_spec`.
    pub open spec fn spec_parts(&self, home: Option<Seq<char>>) -> ConfigView {
        from_file_spec(
            self.directories.deep_view(),
            self.categories.deep_view(),
            self.destinations.deep_view(),
            convert_view(self.convert),
            self.actions.deep_view(),
            self.stale.deep_view(),
            home,
        )
    }
}

impl Config {
    /// The settings used when there is no settings file, given the user's
    /// home directory.
    pub fn defaults_with(home: Option<&str>) -> (r: Self)
        ensures
            r.well_formed(),
            r@ == defaults_spec(opt_view(home)),
    {
        let cats = Self::default_categories();
        let none_pandoc: Vec<String> = Vec::new();
        let none_marker: Vec<String> = Vec::new();
        let none_mutool: Vec<String> = Vec::new();
        assert(none_pandoc.deep_view() =~= Seq::<Seq<char>>::empty());
        assert(none_marker.deep_view() =~= Seq::<Seq<char>>::empty());
        assert(none_mutool.deep_view() =~= Seq::<Seq<char>>::empty());
        let destinations: StringHashMap<String> = StringHashMap::new();
        let actions: StringHashMap<String> = StringHashMap::new();
        assert(text_map(destinations@) =~= Map::empty());
        assert(text_map(actions@) =~= Map::empty());
        let r = Self::build(
            Self::default_directories_with(home),
            &cats,
            destinations,
            none_pandoc,
            none_marker,
            none_mutool,
            String::from_str("pandoc"),
            actions,
            StringHashMap::new(),
        );
        r
    }

    /// The settings used when there is no settings file.
    pub fn defaults() -> (r: Self)
        ensures
            r.well_formed(),
            exists|h: Option<Seq<char>>| r@ == defaults_spec(h),
    {
        let h = home_dir();
        Self::defaults_with(as_opt_str(&h))
    }

    /// The settings that a parsed settings file gives, with `~/` taken
    /// relative to `home`.
    pub fn from_file_with(file: ConfigFile, home: Option<&str>) -> (r: Self)
        ensures
            r.well_formed(),
            r@ == file.spec_parts(opt_view(home)),
    {
        let ghost dv = file.directories.deep_view();
        let directories = if file.directories.len() == 0 {
            Self::default_directories_with(home)
        } else {
            let mut out: Vec<String> = Vec::new();
            let mut i: usize = 0;
            while i < file.directories.len()
                invariant
                    i <= file.directories@.len(),
                    dv == file.directories.deep_view(),
                    out.deep_view() =~= Seq::new(i as nat, |k: int| expand_spec(dv[k], opt_view(home))),
                decreases file.directories@.len() - i,
            {
                let ghost before = out.deep_view();
                let x = expand_path_with(file.directories[i].as_str(), home);
                out.push(x);
                assert(out.deep_view() =~= before.push(x@));
                i = i + 1;
            }
            out
        };
        let cats = if file.categories.len() == 0 {
            Self::default_categories()
        } else {
            file.categories
        };
        let destinations = destinations_map(&file.destinations, home);
        let actions = text_pairs_map(&file.actions);
        let stale = count_pairs_map(&file.stale);
        let ghost cv = convert_view(file.convert);
        let (pandoc, marker, mutool, fallback) = match file.convert {
            Some(c) => (c.pandoc, c.marker, c.mutool, c.fallback),
            None => {
                let a: Vec<String> = Vec::new();
                let b: Vec<String> = Vec::new();
                let c: Vec<String> = Vec::new();
                assert(a.deep_view() =~= Seq::<Seq<char>>::empty());
                assert(b.deep_view() =~= Seq::<Seq<char>>::empty());
                assert(c.deep_view() =~= Seq::<Seq<char>>::empty());
                (a, b, c, None)
            },
        };
        assert(cv matches Some(t) ==> t == (pandoc.deep_view(), marker.deep_view(), mutool.deep_view(), fallback.deep_view()));
        let fallback = match fallback {
            Some(f) => f,
            None => String::from_str("pandoc"),
        };
        Self::build(directories, &cats, destinations, pandoc, marker, mutool, fallback, actions, stale)
    }

    /// The settings that a parsed settings file gives, with `~/` taken
    /// relative to the user's home directory.
    pub fn from_file(file: ConfigFile) -> (r: Self)
        ensures
            r.well_formed(),
            exists|h: Option<Seq<char>>| r@ == file.spec_parts(h),
    {
        let h = home_dir();
        Self::from_file_with(file, as_opt_str(&h))
    }
}

/// Where the settings file is looked for first: `.config/maid/config.toml`
/// under the home directory.
pub open spec fn home_config_spec(home: Option<Seq<char>>) -> Option<Seq<char>> {
    match home {
        Some(h) => Some(join(join(join(h, ".config"@), "maid"@), "config.toml"@)),
        None => None,
    }
}

/// Where the settings file is looked for next: `maid/config.toml` under the
/// platform's configuration directory.
pub open spec fn platform_config_spec(config_dir: Option<Seq<char>>) -> Option<Seq<char>> {
    match config_dir {
        Some(d) => Some(join(join(d, "maid"@), "config.toml"@)),
        None => None,
    }
}

/// The two places a settings file may be, in the order they are tried.
pub struct ConfigCandidates {
    pub home_config: Option<String>,
    pub platform_config: Option<String>,
}

/// The two places a settings file may be, given the home and configuration directories.
pub fn config_candidates_with(home: Option<&str>, config_dir: Option<&str>) -> (r: ConfigCandidates)
    ensures
        r.home_config.deep_view() == home_config_spec(opt_view(home)),
        r.platform_config.deep_view() == platform_config_spec(opt_view(config_dir)),
{
    let home_config = match home {
        Some(h) => {
            let a = join_path(h, ".config");
            let b = join_path(a.as_str(), "maid");
            Some(join_path(b.as_str(), "config.toml"))
        },
        None => None,
    };
    let platform_config = match config_dir {
        Some(d) => {
            let a = join_path(d, "maid");
            Some(join_path(a.as_str(), "config.toml"))
        },
        None => None,
    };
    ConfigCandidates { home_config, platform_config }
}

/// The two places a settings file may be, for this user.
pub fn config_candidates() -> (r: ConfigCandidates)
    ensures
        exists|h: Option<Seq<char>>, d: Option<Seq<char>>|
            r.home_config.deep_view() == home_config_spec(h)
            && r.platform_config.deep_view() == platform_config_spec(d),
{
    let h = home_dir();
    let d = config_dir();
    config_candidates_with(as_opt_str(&h), as_opt_str(&d))
}

/// The directories to organise: the one named, else the configured ones.
pub fn resolve_dirs(path: Option<String>, config: &Config) -> (r: Vec<String>)
    ensures
        r.deep_view() == match path {
            Some(p) => seq![p@],
            None => config@.directories,
        },
{
    match path {
        Some(p) => {
            let mut v: Vec<String> = Vec::new();
            v.push(p);
            assert(v.deep_view() =~= seq![p@]);
            v
        },
        None => {
            let mut v: Vec<String> = Vec::new();
            let mut i: usize = 0;
            while i < config.directories.len()
                invariant
                    i <= config.directories@.len(),
                    v.deep_view() =~= config.directories.deep_view().take(i as int),
                decreases config.directories@.len() - i,
            {
                let ghost before = v.deep_view();
                let x = config.directories[i].clone();
                v.push(x);
                assert(v.deep_view() =~= before.push(x@));
                assert(config.directories.deep_view().take(i + 1) =~= config.directories.deep_view().take(i as int).push(x@));
                i = i + 1;
            }
            assert(config.directories.deep_view().take(config.directories@.len() as int) =~= config.directories.deep_view());
            v
        },
    }
}

/// Extensions that differ only in case fall in the same category.
pub proof fn lemma_classify_ignores_case(c: ConfigView, a: Seq<char>, b: Seq<char>)
    requires
        lowercase(a) == lowercase(b),
    ensures
        classify_spec(c, a) == classify_spec(c, b),
{
}

/// Extensions that differ only in case get the same converter.
pub proof fn lemma_converter_ignores_case(c: ConfigView, a: Seq<char>, b: Seq<char>, marker_available: bool)
    requires
        lowercase(a) == lowercase(b),
    ensures
        converter_spec(c, a, marker_available) == converter_spec(c, b, marker_available),
{
}

/// Whether some extension of `exts` lowercases to `k`.
pub open spec fn lists_key(exts: Seq<Seq<char>>, k: Seq<char>) -> bool {
    exists|j: int| 0 <= j < exts.len() && lowercase(#[trigger] exts[j]) == k
}

/// Adding one category's extensions to a lookup adds exactly their
/// lowercase forms, sent to that category.
proof fn lemma_insert_extensions(m: Map<Seq<char>, Seq<char>>, folder: Seq<char>, exts: Seq<Seq<char>>, k: Seq<char>)
    ensures
        insert_extensions(m, folder, exts).contains_key(k) == (m.contains_key(k) || lists_key(exts, k)),
        lists_key(exts, k) ==> insert_extensions(m, folder, exts)[k] == folder,
        !lists_key(exts, k) && m.contains_key(k) ==> insert_extensions(m, folder, exts)[k] == m[k],
    decreases exts.len(),
{
    if exts.len() > 0 {
        let init = exts.drop_last();
        lemma_insert_extensions(m, folder, init, k);
        if lists_key(exts, k) && lowercase(exts.last()) != k {
            let j = choose|j: int| 0 <= j < exts.len() && lowercase(#[trigger] exts[j]) == k;
            assert(init[j] == exts[j]);
        }
        if lists_key(init, k) {
            let j = choose|j: int| 0 <= j < init.len() && lowercase(#[trigger] init[j]) == k;
            assert(exts[j] == init[j]);
        }
        if lowercase(exts.last()) == k {
            assert(exts[exts.len() - 1] == exts.last());
        }
    }
}

/// Whether some category of `cats` lists an extension lowercasing to `k`.
pub open spec fn cats_list_key(cats: Seq<(Seq<char>, Seq<Seq<char>>)>, k: Seq<char>) -> bool {
    exists|i: int| 0 <= i < cats.len() && lists_key(#[trigger] cats[i].1, k)
}

/// The lookup knows exactly the extensions that some category lists
/// (lowercased), and sends each to a category that lists it.
pub proof fn lemma_lookup_from(cats: Seq<(Seq<char>, Seq<Seq<char>>)>, k: Seq<char>)
    ensures
        lookup_from(cats).contains_key(k) == cats_list_key(cats, k),
        lookup_from(cats).contains_key(k) ==> exists|i: int|
            0 <= i < cats.len() && lists_key(#[trigger] cats[i].1, k) && lookup_from(cats)[k] == cats[i].0,
    decreases cats.len(),
{
    if cats.len() > 0 {
        let init = cats.drop_last();
        let last = cats.last();
        lemma_lookup_from(init, k);
        lemma_insert_extensions(lookup_from(init), last.0, last.1, k);
        assert(cats[cats.len() - 1] == last);
        if cats_list_key(init, k) {
            let i = choose|i: int| 0 <= i < init.len() && lists_key(#[trigger] init[i].1, k);
            assert(cats[i] == init[i]);
        }
        if cats_list_key(cats, k) && !lists_key(last.1, k) {
            let i = choose|i: int| 0 <= i < cats.len() && lists_key(#[trigger] cats[i].1, k);
            assert(i < cats.len() - 1);
            assert(init[i] == cats[i]);
        }
        if lookup_from(init).contains_key(k) && !lists_key(last.1, k) {
            let i = choose|i: int|
                0 <= i < init.len() && lists_key(#[trigger] init[i].1, k) && lookup_from(init)[k] == init[i].0;
            assert(cats[i] == init[i]);
        }
    }
}

/// An extension that no category lists is `unknown`; one that some category
/// lists goes to a category that lists it.
pub proof fn lemma_classify_listed(c: ConfigView, cats: Seq<(Seq<char>, Seq<Seq<char>>)>, ext: Seq<char>)
    requires
        c.lookup == lookup_from(cats),
    ensures
        !cats_list_key(cats, lowercase(ext)) ==> classify_spec(c, ext) == "unknown"@,
        cats_list_key(cats, lowercase(ext)) ==> exists|i: int|
            0 <= i < cats.len() && lists_key(#[trigger] cats[i].1, lowercase(ext)) && classify_spec(c, ext) == cats[i].0,
{
    lemma_lookup_from(cats, lowercase(ext));
}

/// The settings assembled from their parts answer from those parts: the
/// directories are the ones given; a category's destination, action and
/// stale threshold are the configured ones, else `source_dir/category`,
/// `move` and none; an extension is `unknown` when no category lists it and
/// otherwise goes to a category that lists it.
pub proof fn lemma_build_answers(
    c: ConfigView,
    directories: Seq<Seq<char>>,
    categories: Seq<(Seq<char>, Seq<Seq<char>>)>,
    destinations: Map<Seq<char>, Seq<char>>,
    pandoc: Seq<Seq<char>>,
    marker: Seq<Seq<char>>,
    mutool: Seq<Seq<char>>,
    fallback: Seq<char>,
    actions: Map<Seq<char>, Seq<char>>,
    stale: Map<Seq<char>, u64>,
    category: Seq<char>,
    source_dir: Seq<char>,
    ext: Seq<char>,
)
    requires
        c == build_spec(directories, categories, destinations, pandoc, marker, mutool, fallback, actions, stale),
    ensures
        c.directories == directories,
        c.categories == categories,
        c.lookup == lookup_from(c.categories),
        destination_spec(c, category, source_dir) == if destinations.contains_key(category) {
            destinations[category]
        } else {
            join(source_dir, category)
        },
        action_spec(c, category) == if actions.contains_key(category) {
            actions[category]
        } else {
            "move"@
        },
        stale_spec(c, category) == if stale.contains_key(category) {
            Some(stale[category])
        } else {
            None
        },
        !cats_list_key(categories, lowercase(ext)) ==> classify_spec(c, ext) == "unknown"@,
        cats_list_key(categories, lowercase(ext)) ==> exists|i: int|
            0 <= i < categories.len() && lists_key(#[trigger] categories[i].1, lowercase(ext))
                && classify_spec(c, ext) == categories[i].0,
{
    lemma_classify_listed(c, categories, ext);
}

/// The settings used without a settings file: the default directories and
/// categories; every category goes to `source_dir/category`, has the action
/// `move` and no stale threshold; no extension has a converter.
pub proof fn lemma_defaults_answer(
    home: Option<Seq<char>>,
    category: Seq<char>,
    source_dir: Seq<char>,
    ext: Seq<char>,
    marker_available: bool,
)
    ensures
        defaults_spec(home).directories == default_directories_spec(home),
        defaults_spec(home).categories == default_categories_spec(),
        destination_spec(defaults_spec(home), category, source_dir) == join(source_dir, category),
        action_spec(defaults_spec(home), category) == "move"@,
        stale_spec(defaults_spec(home), category) is None,
        converter_spec(defaults_spec(home), ext, marker_available) is None,
        !uses_marker_spec(defaults_spec(home), ext),
{
}

/// Which tool converts an extension, read from the three lists by its
/// lowercase form: a `marker` extension goes to `marker` when it is
/// installed, else to the fallback tool (none when that is empty); an
/// extension in the `mutool` list and not the `marker` list goes to
/// `mutool`; one only in the `pandoc` list goes to `pandoc`; one in none of
/// the lists has no converter.
pub proof fn lemma_converter_choice(c: ConfigView, ext: Seq<char>, marker_available: bool)
    ensures
        c.marker.contains(lowercase(ext)) && marker_available ==> converter_spec(c, ext, marker_available)
            == Some("marker"@),
        c.marker.contains(lowercase(ext)) && !marker_available && c.fallback.len() > 0 ==> converter_spec(
            c,
            ext,
            marker_available,
        ) == Some(c.fallback),
        c.marker.contains(lowercase(ext)) && !marker_available && c.fallback.len() == 0 ==> converter_spec(
            c,
            ext,
            marker_available,
        ) is None,
        !c.marker.contains(lowercase(ext)) && c.mutool.contains(lowercase(ext)) ==> converter_spec(
            c,
            ext,
            marker_available,
        ) == Some("mutool"@),
        !c.marker.contains(lowercase(ext)) && !c.mutool.contains(lowercase(ext)) && c.pandoc.contains(
            lowercase(ext),
        ) ==> converter_spec(c, ext, marker_available) == Some("pandoc"@),
        !c.marker.contains(lowercase(ext)) && !c.mutool.contains(lowercase(ext)) && !c.pandoc.contains(
            lowercase(ext),
        ) ==> converter_spec(c, ext, marker_available) is None,
        converter_spec(c, ext, marker_available) is Some ==> c.marker.contains(lowercase(ext))
            || c.mutool.contains(lowercase(ext)) || c.pandoc.contains(lowercase(ext)),
{
}

/// A settings file with no categories gives the default categories: each
/// default extension is classified into the default category that lists it.
pub proof fn lemma_file_without_categories(file: ConfigFile, home: Option<Seq<char>>, c: Config)
    requires
        file.categories@.len() == 0,
        c.well_formed(),
        c@ == file.spec_parts(home),
    ensures
        c@.categories == default_categories_spec(),
        forall|i: int, j: int|
            0 <= i < default_categories_spec().len() && 0 <= j < default_categories_spec()[i].1.len()
                ==> classify_spec(c@, #[trigger] default_categories_spec()[i].1[j]) == default_categories_spec()[i].0,
{
    assert(file.categories.deep_view().len() == 0);
    lemma_defaults_classify(c@);
}

/// Whether `s` is made of lowercase ASCII letters and digits.
pub open spec fn lower_alnum(s: Seq<char>) -> bool {
    forall|k: int| 0 <= k < s.len() ==> ('a' <= #[trigger] s[k] && s[k] <= 'z') || ('0' <= s[k] && s[k] <= '9')
}

/// Text of lowercase ASCII letters and digits is ASCII and its own ASCII lowercase form.
proof fn lemma_lower_alnum(s: Seq<char>)
    requires
        lower_alnum(s),
    ensures
        all_ascii(s),
        ascii_lower(s) == s,
{
    assert(ascii_lower(s) =~= s);
}

/// Whether no extension, lowercased, is listed under two different categories.
pub open spec fn keys_unambiguous(cats: Seq<(Seq<char>, Seq<Seq<char>>)>) -> bool {
    forall|i1: int, j1: int, i2: int, j2: int|
        0 <= i1 < cats.len() && 0 <= j1 < cats[i1].1.len() && 0 <= i2 < cats.len() && 0 <= j2 < cats[i2].1.len()
            && lowercase(#[trigger] cats[i1].1[j1]) == lowercase(#[trigger] cats[i2].1[j2])
            ==> cats[i1].0 == cats[i2].0
}

/// When no extension is listed under two different categories, every listed
/// extension is classified into the category that lists it.
pub proof fn lemma_classify_unambiguous(c: ConfigView, cats: Seq<(Seq<char>, Seq<Seq<char>>)>)
    requires
        c.lookup == lookup_from(cats),
        keys_unambiguous(cats),
    ensures
        forall|i: int, j: int|
            0 <= i < cats.len() && 0 <= j < cats[i].1.len() ==> classify_spec(c, #[trigger] cats[i].1[j]) == cats[i].0,
{
    assert forall|i: int, j: int| 0 <= i < cats.len() && 0 <= j < cats[i].1.len() implies classify_spec(
        c,
        #[trigger] cats[i].1[j],
    ) == cats[i].0 by {
        let key = lowercase(cats[i].1[j]);
        assert(lists_key(cats[i].1, key));
        assert(cats_list_key(cats, key));
        lemma_classify_listed(c, cats, cats[i].1[j]);
        let i2 = choose|i2: int| 0 <= i2 < cats.len() && lists_key(#[trigger] cats[i2].1, key) && classify_spec(c, cats[i].1[j]) == cats[i2].0;
        let j2 = choose|j2: int| 0 <= j2 < cats[i2].1.len() && lowercase(#[trigger] cats[i2].1[j2]) == key;
    }
}

/// Under the default categories, every default extension is classified
/// into the category that lists it.
pub proof fn lemma_defaults_classify(c: ConfigView)
    requires
        c.categories == default_categories_spec(),
        c.lookup == lookup_from(c.categories),
        lowercase_known(c.categories),
    ensures
        forall|i: int, j: int|
            0 <= i < c.categories.len() && 0 <= j < c.categories[i].1.len()
                ==> classify_spec(c, #[trigger] c.categories[i].1[j]) == c.categories[i].0,
{
    let d = default_categories_spec();
    reveal_strlit("images");
    reveal_strlit("jpg");
    reveal_strlit("jpeg");
    reveal_strlit("png");
    reveal_strlit("gif");
    reveal_strlit("svg");
    reveal_strlit("webp");
    reveal_strlit("documents");
    reveal_strlit("pdf");
    reveal_strlit("docx");
    reveal_strlit("doc");
    reveal_strlit("txt");
    reveal_strlit("xlsx");
    reveal_strlit("pptx");
    reveal_strlit("video");
    reveal_strlit("mp4");
    reveal_strlit("mov");
    reveal_strlit("avi");
    reveal_strlit("mkv");
    reveal_strlit("audio");
    reveal_strlit("mp3");
    reveal_strlit("wav");
    reveal_strlit("flac");
    reveal_strlit("aac");
    reveal_strlit("code");
    reveal_strlit("rs");
    reveal_strlit("py");
    reveal_strlit("js");
    reveal_strlit("ts");
    reveal_strlit("html");
    reveal_strlit("css");
    reveal_strlit("json");
    reveal_strlit("archives");
    reveal_strlit("zip");
    reveal_strlit("tar");
    reveal_strlit("gz");
    reveal_strlit("rar");
    assert forall|i: int, j: int| 0 <= i < d.len() && 0 <= j < d[i].1.len() implies lowercase(#[trigger] d[i].1[j])
        == d[i].1[j] by {
        lemma_lower_alnum(d[i].1[j]);
    }
    assert forall|i1: int, j1: int, i2: int, j2: int|
        0 <= i1 < d.len() && 0 <= j1 < d[i1].1.len() && 0 <= i2 < d.len() && 0 <= j2 < d[i2].1.len()
            && #[trigger] d[i1].1[j1] == #[trigger] d[i2].1[j2] implies d[i1].0 == d[i2].0 by {
        let (a, b) = (d[i1].1[j1], d[i2].1[j2]);
        assert(a.len() == b.len() && a[0] == b[0] && a[1] == b[1]);
        assert(a.len() > 2 ==> a[2] == b[2]);
        assert(a.len() > 3 ==> a[3] == b[3]);
    }
    assert(keys_unambiguous(d));
    lemma_classify_unambiguous(c, d);
}

/// For an ASCII extension, classifying it and classifying its lowercase
/// form look up the same key: lowering ASCII text twice is lowering it once,
/// and the lowered text is ASCII again.
pub proof fn lemma_classify_lowercase_ascii(c: ConfigView, ext: Seq<char>)
    requires
        all_ascii(ext),
    ensures
        all_ascii(ascii_lower(ext)),
        ascii_lower(ascii_lower(ext)) == ascii_lower(ext),
        classify_at(c, ascii_lower(ascii_lower(ext))) == classify_at(c, ascii_lower(ext)),
{
    let l = ascii_lower(ext);
    assert forall|i: int| 0 <= i < l.len() implies (#[trigger] l[i] as u32) < 128 by {
        assert(l[i] == ascii_lower_char(ext[i]));
        assert((ext[i] as u32) < 128);
    }
    assert(ascii_lower(l) =~= l) by {
        assert forall|i: int| 0 <= i < l.len() implies ascii_lower(l)[i] == l[i] by {
            assert(l[i] == ascii_lower_char(ext[i]));
        }
    }
}

} // verus!
