//! The music library: its records, which files it takes in, how a search and
//! a page of results are asked of the database, how a scan is tallied, which
//! rows a rescan drops, and what the folder watcher does with what it hears.
use vstd::prelude::*;

use crate::paths::{
    extension_of, path_equal, path_extension, path_is_under, path_starts_with, same_path,
};
use crate::text::{
    chars_of, eq_ignore_ascii_case, equal_ignoring_ascii_case, string_from_chars, trim, trim_chars,
};

verus! {

#[derive(Debug, Clone, PartialEq)]
pub struct ArtistRecord {
    pub id: i64,
    pub name: String,
    pub track_count: i64,
}

#[derive(Debug, Clone, PartialEq)]
pub struct AlbumRecord {
    pub id: i64,
    pub title: String,
    pub artist: Option<String>,
    pub track_count: i64,
}

#[derive(Debug, Clone, PartialEq)]
pub struct GenreRecord {
    pub id: i64,
    pub name: String,
    pub track_count: i64,
}

/// Filters and paging for listing library tracks. Every field is optional;
/// the default page size keeps a whole library from reaching the interface at
/// once.
#[derive(Debug, Clone, PartialEq)]
pub struct TrackFilter {
    pub search: Option<String>,
    pub artist_id: Option<i64>,
    pub album_id: Option<i64>,
    pub genre_id: Option<i64>,
    pub limit: Option<i64>,
    pub offset: Option<i64>,
}

impl Default for TrackFilter {
    fn default() -> (r: Self)
        ensures
            r.search is None,
            r.artist_id is None,
            r.album_id is None,
            r.genre_id is None,
            r.limit is None,
            r.offset is None,
    {
        TrackFilter { search: None, artist_id: None, album_id: None, genre_id: None, limit: None, offset: None }
    }
}

/// Counts of what a scan of a folder did.
#[derive(Debug, Clone, Copy, PartialEq, Eq, Structural)]
pub struct ScanSummary {
    pub scanned: usize,
    pub added: usize,
    pub updated: usize,
    pub removed: usize,
    pub errors: usize,
}

impl Default for ScanSummary {
    fn default() -> (r: Self)
        ensures
            r == (ScanSummary { scanned: 0, added: 0, updated: 0, removed: 0, errors: 0 }),
    {
        ScanSummary { scanned: 0, added: 0, updated: 0, removed: 0, errors: 0 }
    }
}

/// What storing one scanned file came to.
#[derive(Debug, Clone, Copy, PartialEq, Eq, Structural)]
pub enum UpsertOutcome {
    /// A track that was not in the library.
    Added,
    /// A track that was there and changed on disk.
    Updated,
    /// A track whose size and modification time had not changed: skipped.
    Unchanged,
    /// The file could not be read or stored.
    Failed,
}

impl ScanSummary {
    /// Counts one supported audio file found by the scan, with what storing it
    /// came to.
    pub fn record_file(&mut self, outcome: UpsertOutcome)
        requires
            old(self).scanned < usize::MAX,
            old(self).added < usize::MAX,
            old(self).updated < usize::MAX,
            old(self).errors < usize::MAX,
        ensures
            final(self).scanned == old(self).scanned + 1,
            final(self).added == old(self).added + if outcome == UpsertOutcome::Added { 1int } else { 0 },
            final(self).updated == old(self).updated + if outcome == UpsertOutcome::Updated { 1int } else { 0 },
            final(self).errors == old(self).errors + if outcome == UpsertOutcome::Failed { 1int } else { 0 },
            final(self).removed == old(self).removed,
    {
        self.scanned = self.scanned + 1;
        match outcome {
            UpsertOutcome::Added => self.added = self.added + 1,
            UpsertOutcome::Updated => self.updated = self.updated + 1,
            UpsertOutcome::Unchanged => {},
            UpsertOutcome::Failed => self.errors = self.errors + 1,
        }
    }

    /// Adds the counts of `other` to these (the total of a rescan of several
    /// folders).
    pub fn add(&mut self, other: &ScanSummary)
        requires
            old(self).scanned + other.scanned <= usize::MAX,
            old(self).added + other.added <= usize::MAX,
            old(self).updated + other.updated <= usize::MAX,
            old(self).removed + other.removed <= usize::MAX,
            old(self).errors + other.errors <= usize::MAX,
        ensures
            final(self).scanned == old(self).scanned + other.scanned,
            final(self).added == old(self).added + other.added,
            final(self).updated == old(self).updated + other.updated,
            final(self).removed == old(self).removed + other.removed,
            final(self).errors == old(self).errors + other.errors,
    {
        self.scanned = self.scanned + other.scanned;
        self.added = self.added + other.added;
        self.updated = self.updated + other.updated;
        self.removed = self.removed + other.removed;
        self.errors = self.errors + other.errors;
    }
}

/// The file extensions of the audio formats the library takes in.
pub open spec fn supported_extension_name(i: int) -> Seq<char> {
    if i == 0 {
        "mp3"@
    } else if i == 1 {
        "flac"@
    } else if i == 2 {
        "ogg"@
    } else if i == 3 {
        "wav"@
    } else if i == 4 {
        "m4a"@
    } else if i == 5 {
        "mp4"@
    } else {
        "aac"@
    }
}

/// How many extensions the library takes in.
pub const SUPPORTED_EXTENSION_COUNT: usize = 7;

fn supported_extension_at(i: usize) -> (r: &'static str)
    requires
        i < SUPPORTED_EXTENSION_COUNT,
    ensures
        r@ == supported_extension_name(i as int),
{
    if i == 0 {
        "mp3"
    } else if i == 1 {
        "flac"
    } else if i == 2 {
        "ogg"
    } else if i == 3 {
        "wav"
    } else if i == 4 {
        "m4a"
    } else if i == 5 {
        "mp4"
    } else {
        "aac"
    }
}

/// Whether a file, by its path, is audio that the library takes in: its
/// extension is one of the supported ones, in any ASCII case.
pub open spec fn supported_audio_path(path: Seq<char>) -> bool {
    match path_extension(path) {
        Some(ext) => exists|i: int|
            0 <= i < SUPPORTED_EXTENSION_COUNT && eq_ignore_ascii_case(#[trigger] supported_extension_name(i), ext),
        None => false,
    }
}

pub fn is_supported_audio_file(path: &str) -> (r: bool)
    ensures
        r == supported_audio_path(path@),
{
    let ext = match extension_of(path) {
        Some(e) => e,
        None => return false,
    };
    let mut i: usize = 0;
    while i < SUPPORTED_EXTENSION_COUNT
        invariant
            i <= SUPPORTED_EXTENSION_COUNT,
            path_extension(path@) == Some(ext@),
            forall|k: int| 0 <= k < i ==> !eq_ignore_ascii_case(#[trigger] supported_extension_name(k), ext@),
        decreases SUPPORTED_EXTENSION_COUNT - i,
    {
        if equal_ignoring_ascii_case(supported_extension_at(i), ext.as_str()) {
            return true;
        }
        i = i + 1;
    }
    false
}

/// One character escaped for a `LIKE ... ESCAPE '\'` pattern: the escape
/// character itself and the two wildcards get a backslash before them.
pub open spec fn escape_like_char(c: char) -> Seq<char> {
    if c == '\\' || c == '%' || c == '_' {
        seq!['\\', c]
    } else {
        seq![c]
    }
}

/// `s` with every character escaped as [`escape_like_char`] says, which is what
/// replacing `\` by `\\`, then `%` by `\%`, then `_` by `\_` gives.
pub open spec fn escape_like_spec(s: Seq<char>) -> Seq<char>
    decreases s.len(),
{
    if s.len() == 0 {
        seq![]
    } else {
        escape_like_spec(s.drop_last()) + escape_like_char(s.last())
    }
}

/// Escapes `input` so that a `LIKE` pattern matches it literally.
pub fn escape_like(input: &str) -> (r: String)
    ensures
        r@ == escape_like_spec(input@),
{
    let chars = chars_of(input);
    let mut out = String::new();
    let mut i: usize = 0;
    while i < chars.len()
        invariant
            chars@ == input@,
            i <= chars@.len(),
            out@ == escape_like_spec(chars@.take(i as int)),
        decreases chars@.len() - i,
    {
        let c = chars[i];
        if c == '\\' || c == '%' || c == '_' {
            out.push('\\');
        }
        out.push(c);
        assert(chars@.take(i as int + 1).drop_last() =~= chars@.take(i as int));
        assert(out@ =~= escape_like_spec(chars@.take(i as int + 1)));
        i = i + 1;
    }
    assert(chars@.take(i as int) =~= chars@);
    out
}

/// The parameters of a track listing, worked out from a [`TrackFilter`].
#[derive(Debug, Clone, PartialEq)]
pub struct TrackQuery {
    /// `%text%` with the trimmed search text escaped, or `None` when there is
    /// no search text left after trimming.
    pub search_pattern: Option<String>,
    pub artist_id: Option<i64>,
    pub album_id: Option<i64>,
    pub genre_id: Option<i64>,
    /// Page size: 500 by default, kept within 1..=1000.
    pub limit: i64,
    /// Rows to skip: 0 by default, never negative.
    pub offset: i64,
}

pub open spec fn search_pattern_spec(search: Option<Seq<char>>) -> Option<Seq<char>> {
    match search {
        Some(s) => if trim(s).len() > 0 {
            Some(seq!['%'] + escape_like_spec(trim(s)) + seq!['%'])
        } else {
            None
        },
        None => None,
    }
}

pub open spec fn page_limit(limit: Option<i64>) -> i64 {
    let l = match limit {
        Some(l) => l,
        None => 500,
    };
    if l < 1 {
        1
    } else if l > 1000 {
        1000
    } else {
        l
    }
}

pub open spec fn page_offset(offset: Option<i64>) -> i64 {
    match offset {
        Some(o) => if o < 0 {
            0
        } else {
            o
        },
        None => 0,
    }
}

/// Works out the parameters of a track listing from `filter`.
pub fn track_query(filter: &TrackFilter) -> (q: TrackQuery)
    ensures
        (match q.search_pattern {
            Some(p) => Some(p@),
            None => None,
        }) == search_pattern_spec(match filter.search {
            Some(s) => Some(s@),
            None => None,
        }),
        q.artist_id == filter.artist_id,
        q.album_id == filter.album_id,
        q.genre_id == filter.genre_id,
        q.limit == page_limit(filter.limit),
        q.offset == page_offset(filter.offset),
        1 <= q.limit <= 1000,
        q.offset >= 0,
{
    let search_pattern = match &filter.search {
        Some(s) => {
            let trimmed = string_from_chars(trim_chars(&chars_of(s.as_str())).as_slice());
            if trimmed.as_str().is_empty() {
                None
            } else {
                let mut p = String::new();
                p.push('%');
                let escaped = escape_like(trimmed.as_str());
                p.append(escaped.as_str());
                p.push('%');
                assert(p@ =~= seq!['%'] + escape_like_spec(trim(s@)) + seq!['%']);
                Some(p)
            }
        },
        None => None,
    };
    let l = match filter.limit {
        Some(l) => l,
        None => 500,
    };
    let limit = if l < 1 {
        1
    } else if l > 1000 {
        1000
    } else {
        l
    };
    let offset = match filter.offset {
        Some(o) => if o < 0 {
            0
        } else {
            o
        },
        None => 0,
    };
    TrackQuery {
        search_pattern,
        artist_id: filter.artist_id,
        album_id: filter.album_id,
        genre_id: filter.genre_id,
        limit,
        offset,
    }
}

/// Whether a file must be read again: always when the library has no row
/// for it, otherwise only when its size or modification time changed.
pub open spec fn needs_reread_spec(existing: Option<(i64, i64)>, file_size: i64, modified_at: i64) -> bool {
    match existing {
        Some((size, mtime)) => !(size == file_size && mtime == modified_at),
        None => true,
    }
}

pub fn needs_reread(existing: Option<(i64, i64)>, file_size: i64, modified_at: i64) -> (r: bool)
    ensures
        r == needs_reread_spec(existing, file_size, modified_at),
{
    match existing {
        Some((size, mtime)) => !(size == file_size && mtime == modified_at),
        None => true,
    }
}

/// Whether `path` is one of `seen`, as paths compare.
pub open spec fn seen_path(seen: Seq<Seq<char>>, path: Seq<char>) -> bool {
    exists|k: int| 0 <= k < seen.len() && path_equal(path, #[trigger] seen[k])
}

/// The rows to drop after scanning `root`: those whose path lies under `root`
/// and that the scan did not see.
pub open spec fn is_stale(root: Seq<char>, seen: Seq<Seq<char>>) -> spec_fn((i64, Seq<char>)) -> bool {
    |row: (i64, Seq<char>)| path_starts_with(row.1, root) && !seen_path(seen, row.1)
}

pub open spec fn row_views(rows: Seq<(i64, String)>) -> Seq<(i64, Seq<char>)> {
    rows.map_values(|r: (i64, String)| (r.0, r.1@))
}

pub open spec fn string_views(v: Seq<String>) -> Seq<Seq<char>> {
    v.map_values(|s: String| s@)
}

/// The ids of the library rows `(id, path)` that a scan of `root`, which found
/// the files `seen`, leaves stale, in row order.
pub fn stale_track_ids(rows: &Vec<(i64, String)>, root: &str, seen: &Vec<String>) -> (r: Vec<i64>)
    ensures
        r@ == row_views(rows@).filter(is_stale(root@, string_views(seen@))).map_values(|row: (i64, Seq<char>)| row.0),
{
    let ghost pred = is_stale(root@, string_views(seen@));
    let ghost rv = row_views(rows@);
    let mut out: Vec<i64> = Vec::new();
    let mut i: usize = 0;
    while i < rows.len()
        invariant
            rv == row_views(rows@),
            pred == is_stale(root@, string_views(seen@)),
            i <= rows@.len(),
            out@ == rv.take(i as int).filter(pred).map_values(|row: (i64, Seq<char>)| row.0),
        decreases rows@.len() - i,
    {
        let (id, path) = (&rows[i].0, &rows[i].1);
        let mut was_seen = false;
        let mut k: usize = 0;
        while k < seen.len()
            invariant
                k <= seen@.len(),
                was_seen == exists|j: int| 0 <= j < k && path_equal(path@, #[trigger] string_views(seen@)[j]),
            decreases seen@.len() - k,
        {
            if same_path(path.as_str(), seen[k].as_str()) {
                was_seen = true;
            }
            assert(string_views(seen@)[k as int] == seen@[k as int]@);
            k = k + 1;
        }
        let stale = path_is_under(path.as_str(), root) && !was_seen;
        proof {
            assert(rv[i as int] == (*id, path@));
            assert(stale == pred(rv[i as int]));
            assert(rv.take(i as int + 1) =~= rv.take(i as int).push(rv[i as int]));
            rv.take(i as int).lemma_filter_push(rv[i as int], pred);
        }
        if stale {
            out.push(*id);
        }
        assert(out@ =~= rv.take(i as int + 1).filter(pred).map_values(|row: (i64, Seq<char>)| row.0));
        i = i + 1;
    }
    assert(rv.take(i as int) =~= rv);
    out
}


/// A request to the folder watcher.
#[derive(Debug, Clone, PartialEq)]
pub enum WatcherCommand {
    AddFolder(String),
    RemoveFolder(String),
}

/// What reaches the folder watcher: a request, or news from the file system.
#[derive(Debug, Clone, PartialEq)]
pub enum WatcherEvent {
    Command(WatcherCommand),
    /// Files changed; `is_access` marks events that only report reading.
    FilesChanged { is_access: bool, paths: Vec<String> },
    /// The file system watcher reported an error.
    WatchError,
}

/// What the watcher does with the file system for an event.
#[derive(Debug, Clone, PartialEq)]
pub enum WatcherAction {
    /// Starts watching the folder; if that works, scans it.
    WatchAndScan(String),
    /// Stops watching the folder.
    Unwatch(String),
    Nothing,
}

/// What becomes of a changed path once the burst of events is over.
#[derive(Debug, Clone, Copy, PartialEq, Eq, Structural)]
pub enum PendingAction {
    /// Not an audio file the library takes in.
    Skip,
    /// The file is there: read it into the library.
    Upsert,
    /// The file is gone: drop it from the library.
    Remove,
}

/// `pending` with `path` added unless an equal path is already there.
pub open spec fn add_pending(pending: Seq<Seq<char>>, path: Seq<char>) -> Seq<Seq<char>> {
    if seen_path(pending, path) {
        pending
    } else {
        pending.push(path)
    }
}

/// `pending` with each of `paths` added in turn.
pub open spec fn add_all_pending(pending: Seq<Seq<char>>, paths: Seq<Seq<char>>) -> Seq<Seq<char>>
    decreases paths.len(),
{
    if paths.len() == 0 {
        pending
    } else {
        add_all_pending(add_pending(pending, paths[0]), paths.drop_first())
    }
}

/// The paths that changed during a burst of file system events, each once.
pub struct PendingPaths {
    paths: Vec<String>,
}

impl View for PendingPaths {
    type V = Seq<Seq<char>>;

    closed spec fn view(&self) -> Seq<Seq<char>> {
        string_views(self.paths@)
    }
}

proof fn lemma_add_all_pending_step(pending: Seq<Seq<char>>, paths: Seq<Seq<char>>, i: int)
    requires
        0 <= i < paths.len(),
    ensures
        add_all_pending(pending, paths.take(i + 1)) == add_pending(add_all_pending(pending, paths.take(i)), paths[i]),
    decreases i,
{
    if i == 0 {
        reveal_with_fuel(add_all_pending, 2);
        assert(paths.take(1).drop_first() =~= Seq::<Seq<char>>::empty());
        assert(paths.take(1)[0] == paths[0]);
        assert(paths.take(0) =~= Seq::<Seq<char>>::empty());
    } else {
        let tail = paths.drop_first();
        assert(paths.take(i + 1).drop_first() =~= tail.take(i));
        assert(paths.take(i).drop_first() =~= tail.take(i - 1));
        assert(paths.take(i + 1)[0] == paths[0]);
        assert(paths.take(i)[0] == paths[0]);
        lemma_add_all_pending_step(add_pending(pending, paths[0]), tail, i - 1);
        assert(tail[i - 1] == paths[i]);
    }
}

impl PendingPaths {
    pub fn new() -> (r: Self)
        ensures
            r@ == Seq::<Seq<char>>::empty(),
    {
        let r = PendingPaths { paths: Vec::new() };
        assert(r@ =~= Seq::<Seq<char>>::empty());
        r
    }

    pub fn is_empty(&self) -> (r: bool)
        ensures
            r == (self@.len() == 0),
    {
        self.paths.len() == 0
    }

    fn add(&mut self, path: String)
        ensures
            final(self)@ == add_pending(old(self)@, path@),
    {
        let mut k: usize = 0;
        let ghost pv = self@;
        while k < self.paths.len()
            invariant
                self@ == pv,
                k <= pv.len(),
                forall|j: int| 0 <= j < k ==> !path_equal(path@, #[trigger] pv[j]),
            decreases pv.len() - k,
        {
            assert(pv[k as int] == self.paths@[k as int]@);
            if same_path(path.as_str(), self.paths[k].as_str()) {
                return;
            }
            k = k + 1;
        }
        let ghost prev = self.paths@;
        self.paths.push(path);
        assert(string_views(self.paths@) =~= string_views(prev).push(path@));
    }

    /// Takes in one event: requests become actions on the file system;
    /// changes other than reads add their paths to the pending ones; errors
    /// are ignored.
    pub fn on_event(&mut self, event: WatcherEvent) -> (a: WatcherAction)
        ensures
            match event {
                WatcherEvent::Command(WatcherCommand::AddFolder(f)) => a matches WatcherAction::WatchAndScan(g)
                    && g@ == f@ && final(self)@ == old(self)@,
                WatcherEvent::Command(WatcherCommand::RemoveFolder(f)) => a matches WatcherAction::Unwatch(g)
                    && g@ == f@ && final(self)@ == old(self)@,
                WatcherEvent::FilesChanged { is_access, paths } => a == WatcherAction::Nothing && final(self)@
                    == if is_access {
                    old(self)@
                } else {
                    add_all_pending(old(self)@, string_views(paths@))
                },
                WatcherEvent::WatchError => a == WatcherAction::Nothing && final(self)@ == old(self)@,
            },
    {
        match event {
            WatcherEvent::Command(WatcherCommand::AddFolder(f)) => WatcherAction::WatchAndScan(f),
            WatcherEvent::Command(WatcherCommand::RemoveFolder(f)) => WatcherAction::Unwatch(f),
            WatcherEvent::FilesChanged { is_access, paths } => {
                if !is_access {
                    let ghost start = self@;
                    let ghost pv = string_views(paths@);
                    let mut i: usize = 0;
                    while i < paths.len()
                        invariant
                            pv == string_views(paths@),
                            i <= paths@.len(),
                            self@ == add_all_pending(start, pv.take(i as int)),
                        decreases paths@.len() - i,
                    {
                        proof {
                            lemma_add_all_pending_step(start, pv, i as int);
                        }
                        assert(pv[i as int] == paths@[i as int]@);
                        self.add(paths[i].clone());
                        i = i + 1;
                    }
                    assert(pv.take(i as int) =~= pv);
                }
                WatcherAction::Nothing
            },
            WatcherEvent::WatchError => WatcherAction::Nothing,
        }
    }

    /// Hands out the pending paths, in the order they first came, and forgets
    /// them.
    pub fn drain(&mut self) -> (r: Vec<String>)
        ensures
            string_views(r@) == old(self)@,
            final(self)@ == Seq::<Seq<char>>::empty(),
    {
        let mut out: Vec<String> = Vec::new();
        std::mem::swap(&mut out, &mut self.paths);
        assert(self@ =~= Seq::<Seq<char>>::empty());
        out
    }
}

/// What becomes of a changed path: audio files the library does not take in
/// are skipped; the others are read in when the file is there and dropped
/// when it is gone.
pub open spec fn pending_action_spec(path: Seq<char>, is_file: bool) -> PendingAction {
    if !supported_audio_path(path) {
        PendingAction::Skip
    } else if is_file {
        PendingAction::Upsert
    } else {
        PendingAction::Remove
    }
}

pub fn pending_action(path: &str, is_file: bool) -> (r: PendingAction)
    ensures
        r == pending_action_spec(path@, is_file),
{
    if !is_supported_audio_file(path) {
        PendingAction::Skip
    } else if is_file {
        PendingAction::Upsert
    } else {
        PendingAction::Remove
    }
}

} // verus!
