//! Playlists: their records, how a track is moved within one, and the
//! extended M3U format they are exported to and imported from.
use vstd::prelude::*;

use crate::paths::{
    file_stem_of, is_absolute_path, join_paths, parent_of, path_file_stem, path_is_absolute,
    path_join, path_parent,
};
use crate::text::{
    chars_of, decimal, decimal_signed, is_white_space, push_decimal_signed, string_from_chars,
    trim, trim_chars, trim_end, trim_start,
};

verus! {

#[derive(Debug, Clone, PartialEq)]
pub struct PlaylistRecord {
    pub id: i64,
    pub name: String,
    pub track_count: i64,
    pub created_at: i64,
    pub updated_at: i64,
}

/// The first position of `id` in `ids` (meaningful when `ids` holds it).
pub open spec fn first_index_of(ids: Seq<i64>, id: i64) -> int {
    choose|k: int| 0 <= k < ids.len() && ids[k] == id && forall|j: int| 0 <= j < k ==> ids[j] != id
}

/// The order of a playlist after moving `track_id` to `new_index` (clamped to
/// the end), or `None` when the playlist does not hold it.
pub open spec fn reorder_ids_spec(ids: Seq<i64>, track_id: i64, new_index: usize) -> Option<Seq<i64>> {
    if ids.contains(track_id) {
        let pos = first_index_of(ids, track_id);
        let rest = ids.remove(pos);
        let at = if new_index < rest.len() {
            new_index as int
        } else {
            rest.len() as int
        };
        Some(rest.insert(at, track_id))
    } else {
        None
    }
}

/// Moves `track_id` to `new_index` (clamped) in the playlist order `ids`; the
/// positions are then rewritten as `0..n` in this order. `None` when the
/// playlist does not hold the track, which leaves it as it is.
pub fn reorder_ids(ids: &Vec<i64>, track_id: i64, new_index: usize) -> (r: Option<Vec<i64>>)
    ensures
        match r {
            Some(v) => reorder_ids_spec(ids@, track_id, new_index) == Some(v@),
            None => reorder_ids_spec(ids@, track_id, new_index) is None,
        },
{
    let mut pos: usize = 0;
    while pos < ids.len() && ids[pos] != track_id
        invariant
            pos <= ids@.len(),
            forall|j: int| 0 <= j < pos ==> ids@[j] != track_id,
        decreases ids@.len() - pos,
    {
        pos = pos + 1;
    }
    if pos == ids.len() {
        assert(!ids@.contains(track_id));
        return None;
    }
    proof {
        assert(ids@[pos as int] == track_id);
        let k = first_index_of(ids@, track_id);
        assert(ids@.contains(track_id));
        assert(k == pos) by {
            if k < pos {
            } else if k > pos {
                assert(ids@[pos as int] != track_id);
            }
        }
    }
    let mut v = ids.clone();
    assert(v@ == ids@);
    let id = v.remove(pos);
    let at = if new_index < v.len() {
        new_index
    } else {
        v.len()
    };
    v.insert(at, id);
    Some(v)
}

/// Moving a track keeps every track of the playlist, each as many times, and
/// puts the moved one where it was asked to go (clamped to the end).
pub proof fn law_reorder_keeps_the_same_tracks(ids: Seq<i64>, track_id: i64, new_index: usize)
    requires
        ids.contains(track_id),
    ensures
        reorder_ids_spec(ids, track_id, new_index) matches Some(v) && v.to_multiset() == ids.to_multiset()
            && v.len() == ids.len() && v[if new_index < ids.len() {
            new_index as int
        } else {
            ids.len() - 1
        }] == track_id,
{
    broadcast use vstd::seq_lib::group_to_multiset_ensures;

    let pos = first_index_of(ids, track_id);
    let k = choose|k: int| 0 <= k < ids.len() && ids[k] == track_id;
    assert(exists|k: int| 0 <= k < ids.len() && ids[k] == track_id && forall|j: int| 0 <= j < k ==> ids[j] != track_id)
        by {
        lemma_first_occurrence(ids, track_id, k);
    }
    let rest = ids.remove(pos);
    let at = if new_index < rest.len() {
        new_index as int
    } else {
        rest.len() as int
    };
    assert(ids[pos] == track_id);
    assert(ids.to_multiset() == rest.to_multiset().insert(track_id));
}

proof fn lemma_first_occurrence(s: Seq<i64>, x: i64, k: int)
    requires
        0 <= k < s.len(),
        s[k] == x,
    ensures
        exists|m: int| 0 <= m < s.len() && s[m] == x && forall|j: int| 0 <= j < m ==> s[j] != x,
    decreases k,
{
    if exists|j: int| 0 <= j < k && s[j] == x {
        let j = choose|j: int| 0 <= j < k && s[j] == x;
        lemma_first_occurrence(s, x, j);
    } else {
        assert(forall|j: int| 0 <= j < k ==> s[j] != x);
    }
}

/// One exported track: its length rounded to whole seconds, its artist and
/// title for the `#EXTINF` label, and its absolute path.
#[derive(Debug, Clone, PartialEq)]
pub struct M3uEntry {
    pub duration_secs: i64,
    pub artist: Option<String>,
    pub title: String,
    pub path: String,
}

pub struct EntryView {
    pub duration_secs: i64,
    pub artist: Option<Seq<char>>,
    pub title: Seq<char>,
    pub path: Seq<char>,
}

impl View for M3uEntry {
    type V = EntryView;

    open spec fn view(&self) -> EntryView {
        EntryView {
            duration_secs: self.duration_secs,
            artist: match self.artist {
                Some(a) => Some(a@),
                None => None,
            },
            title: self.title@,
            path: self.path@,
        }
    }
}

/// The label of an entry: `artist - title`, or the title alone when there is
/// no artist or it is empty.
pub open spec fn entry_label(e: EntryView) -> Seq<char> {
    match e.artist {
        Some(a) => if a.len() > 0 {
            a + " - "@ + e.title
        } else {
            e.title
        },
        None => e.title,
    }
}

/// The two lines of an entry, each ended by a newline.
pub open spec fn entry_lines(e: EntryView) -> Seq<char> {
    "#EXTINF:"@ + decimal_signed(e.duration_secs as int) + ","@ + entry_label(e) + "\n"@ + e.path + "\n"@
}

pub open spec fn entries_text(entries: Seq<EntryView>) -> Seq<char>
    decreases entries.len(),
{
    if entries.len() == 0 {
        seq![]
    } else {
        entry_lines(entries[0]) + entries_text(entries.drop_first())
    }
}

/// A playlist as extended M3U: the `#EXTM3U` header line, then the lines of
/// each entry in order.
pub open spec fn m3u_text(entries: Seq<EntryView>) -> Seq<char> {
    "#EXTM3U\n"@ + entries_text(entries)
}

proof fn lemma_entries_text_push(entries: Seq<EntryView>, e: EntryView)
    ensures
        entries_text(entries.push(e)) == entries_text(entries) + entry_lines(e),
    decreases entries.len(),
{
    if entries.len() == 0 {
        assert(entries.push(e).drop_first() =~= Seq::<EntryView>::empty());
        assert(entries.push(e)[0] == e);
        assert(entries_text(Seq::<EntryView>::empty()) == Seq::<char>::empty());
        assert(entries_text(entries) == Seq::<char>::empty());
        assert(entries_text(entries.push(e)) =~= entry_lines(e));
    } else {
        assert(entries.push(e).drop_first() =~= entries.drop_first().push(e));
        lemma_entries_text_push(entries.drop_first(), e);
        assert(entries_text(entries.push(e)) =~= entries_text(entries) + entry_lines(e));
    }
}

pub open spec fn entry_views(entries: Seq<M3uEntry>) -> Seq<EntryView> {
    entries.map_values(|e: M3uEntry| e@)
}

/// Writes a playlist as extended M3U (see [`m3u_text`]).
pub fn render_m3u(entries: &Vec<M3uEntry>) -> (r: String)
    ensures
        r@ == m3u_text(entry_views(entries@)),
{
    let ghost ev = entry_views(entries@);
    let mut out = String::from_str("#EXTM3U\n");
    let mut i: usize = 0;
    while i < entries.len()
        invariant
            ev == entry_views(entries@),
            i <= entries@.len(),
            out@ == "#EXTM3U\n"@ + entries_text(ev.take(i as int)),
        decreases entries@.len() - i,
    {
        let e = &entries[i];
        let ghost before = out@;
        out.append("#EXTINF:");
        push_decimal_signed(&mut out, e.duration_secs);
        out.push(',');
        match &e.artist {
            Some(a) => {
                if a.as_str().is_empty() {
                    out.append(e.title.as_str());
                } else {
                    out.append(a.as_str());
                    out.append(" - ");
                    out.append(e.title.as_str());
                }
            },
            None => {
                out.append(e.title.as_str());
            },
        }
        out.push('\n');
        out.append(e.path.as_str());
        out.push('\n');
        proof {
            reveal_strlit(",");
            reveal_strlit("\n");
            assert(ev[i as int] == e@);
            assert(out@ =~= before + entry_lines(e@));
            assert(ev.take(i as int + 1) =~= ev.take(i as int).push(ev[i as int]));
            lemma_entries_text_push(ev.take(i as int), ev[i as int]);
        }
        i = i + 1;
    }
    assert(ev.take(i as int) =~= ev);
    out
}

/// Whether a trimmed line names a track: it is not blank and not a `#`
/// directive or comment.
pub open spec fn names_track(line: Seq<char>) -> bool {
    line.len() > 0 && line[0] != '#'
}

/// What the line read so far contributes once it ends.
pub open spec fn line_entry(line: Seq<char>) -> Seq<Seq<char>> {
    if names_track(trim(line)) {
        seq![trim(line)]
    } else {
        seq![]
    }
}

/// The track lines of `s`, given that `line` has been read of the current line.
pub open spec fn m3u_scan(s: Seq<char>, line: Seq<char>) -> Seq<Seq<char>>
    decreases s.len(),
{
    if s.len() == 0 {
        line_entry(line)
    } else if s[0] == '\n' {
        line_entry(line) + m3u_scan(s.drop_first(), seq![])
    } else {
        m3u_scan(s.drop_first(), line.push(s[0]))
    }
}

/// The entries of an M3U text: its lines, trimmed, without the blank ones and
/// those that start with `#`.
pub open spec fn m3u_entries(text: Seq<char>) -> Seq<Seq<char>> {
    m3u_scan(text, seq![])
}

/// Reads the entries of an M3U text (see [`m3u_entries`]).
pub fn parse_m3u(content: &str) -> (r: Vec<String>)
    ensures
        r@.map_values(|s: String| s@) == m3u_entries(content@),
{
    let chars = chars_of(content);
    let ghost text = chars@;
    let mut out: Vec<String> = Vec::new();
    let mut line: Vec<char> = Vec::new();
    let mut i: usize = 0;
    assert(text.skip(0) =~= text);
    while i < chars.len()
        invariant
            text == content@,
            chars@ == text,
            i <= text.len(),
            m3u_entries(text) == out@.map_values(|s: String| s@) + m3u_scan(text.skip(i as int), line@),
        decreases text.len() - i,
    {
        let c = chars[i];
        let ghost rest = text.skip(i as int);
        assert(rest[0] == c);
        assert(rest.drop_first() =~= text.skip(i as int + 1));
        if c == '\n' {
            let ghost before = out@.map_values(|s: String| s@);
            let t = trim_chars(&line);
            if t.len() > 0 && t[0] != '#' {
                let entry = string_from_chars(t.as_slice());
                out.push(entry);
                assert(out@.map_values(|s: String| s@) =~= before + line_entry(line@));
            } else {
                assert(out@.map_values(|s: String| s@) =~= before + line_entry(line@));
            }
            line = Vec::new();
            assert(line@ =~= Seq::<char>::empty());
        } else {
            line.push(c);
        }
        i = i + 1;
    }
    let ghost before = out@.map_values(|s: String| s@);
    assert(text.skip(i as int) =~= Seq::<char>::empty());
    let t = trim_chars(&line);
    if t.len() > 0 && t[0] != '#' {
        out.push(string_from_chars(t.as_slice()));
    }
    assert(out@.map_values(|s: String| s@) =~= before + line_entry(line@));
    out
}

/// The file an entry refers to: the entry itself when it is an absolute path,
/// else the entry taken relative to the folder of the playlist.
pub open spec fn resolve_entry_spec(base_dir: Seq<char>, entry: Seq<char>) -> Seq<char> {
    if path_is_absolute(entry) {
        entry
    } else {
        path_join(base_dir, entry)
    }
}

/// The folder an M3U file lies in, or the empty path.
pub open spec fn playlist_dir(source: Seq<char>) -> Seq<char> {
    match path_parent(source) {
        Some(p) => p,
        None => seq![],
    }
}

/// The files that the M3U text `content`, read from `source`, refers to, in
/// order (see [`m3u_entries`] and [`resolve_entry_spec`]).
pub fn m3u_track_paths(source: &str, content: &str) -> (r: Vec<String>)
    ensures
        r@.map_values(|s: String| s@) == m3u_entries(content@).map_values(
            |e: Seq<char>| resolve_entry_spec(playlist_dir(source@), e),
        ),
{
    let base = match parent_of(source) {
        Some(p) => p,
        None => String::new(),
    };
    let entries = parse_m3u(content);
    let ghost ev = entries@.map_values(|s: String| s@);
    let ghost target = ev.map_values(|e: Seq<char>| resolve_entry_spec(playlist_dir(source@), e));
    let mut out: Vec<String> = Vec::new();
    let mut i: usize = 0;
    while i < entries.len()
        invariant
            base@ == playlist_dir(source@),
            ev == entries@.map_values(|s: String| s@),
            target == ev.map_values(|e: Seq<char>| resolve_entry_spec(playlist_dir(source@), e)),
            i <= entries@.len(),
            out@.map_values(|s: String| s@) =~= target.take(i as int),
        decreases entries@.len() - i,
    {
        let e = entries[i].as_str();
        let resolved = if is_absolute_path(e) {
            String::from_str(e)
        } else {
            join_paths(base.as_str(), e)
        };
        assert(ev[i as int] == entries@[i as int]@);
        assert(resolved@ == target[i as int]);
        let ghost prev = out@;
        out.push(resolved);
        assert(out@.map_values(|s: String| s@) =~= prev.map_values(|s: String| s@).push(resolved@));
        assert(out@.map_values(|s: String| s@) =~= target.take(i as int + 1));
        i = i + 1;
    }
    assert(target.take(i as int) =~= target);
    out
}

/// The name of an imported playlist: the one given, else the file name of the
/// M3U without its extension, else `Playlist importada`.
pub open spec fn imported_name_spec(name: Option<Seq<char>>, source: Seq<char>) -> Seq<char> {
    match name {
        Some(n) => n,
        None => match path_file_stem(source) {
            Some(stem) => stem,
            None => "Playlist importada"@,
        },
    }
}

pub fn imported_playlist_name(name: Option<String>, source: &str) -> (r: String)
    ensures
        r@ == imported_name_spec(
            match name {
                Some(n) => Some(n@),
                None => None,
            },
            source@,
        ),
{
    match name {
        Some(n) => n,
        None => match file_stem_of(source) {
            Some(stem) => stem,
            None => String::from_str("Playlist importada"),
        },
    }
}


/// What becomes of one entry of an imported M3U file, once its path is
/// resolved.
#[derive(Debug, Clone, Copy, PartialEq, Eq, Structural)]
pub enum ImportEntryAction {
    /// The file no longer exists: the entry is skipped and the import goes on.
    Skip,
    /// The file is in the library already, as this track: it is added.
    Add(i64),
    /// The file exists but is not in the library: it is read into the library
    /// first, and the track it becomes (if any) is added.
    ScanThenAdd,
}

/// The choice for one entry: skip a file that is not there, add the track of
/// a file the library holds (`existing`), else scan the file in first.
pub open spec fn import_entry_action_spec(is_file: bool, existing: Option<i64>) -> ImportEntryAction {
    if !is_file {
        ImportEntryAction::Skip
    } else {
        match existing {
            Some(id) => ImportEntryAction::Add(id),
            None => ImportEntryAction::ScanThenAdd,
        }
    }
}

pub fn import_entry_action(is_file: bool, existing: Option<i64>) -> (r: ImportEntryAction)
    ensures
        r == import_entry_action_spec(is_file, existing),
{
    if !is_file {
        ImportEntryAction::Skip
    } else {
        match existing {
            Some(id) => ImportEntryAction::Add(id),
            None => ImportEntryAction::ScanThenAdd,
        }
    }
}

/// An entry that survives a round trip through an M3U file: its path is one
/// non-blank line with no surrounding whitespace that does not start with `#`,
/// and its title and artist hold no line break.
pub open spec fn exportable(e: EntryView) -> bool {
    &&& !e.path.contains('\n')
    &&& trim(e.path) == e.path
    &&& names_track(e.path)
    &&& !e.title.contains('\n')
    &&& match e.artist {
        Some(a) => !a.contains('\n'),
        None => true,
    }
}

proof fn lemma_scan_line(x: Seq<char>, rest: Seq<char>, line: Seq<char>)
    requires
        !x.contains('\n'),
    ensures
        m3u_scan(x + seq!['\n'] + rest, line) == line_entry(line + x) + m3u_scan(rest, seq![]),
    decreases x.len(),
{
    let s = x + seq!['\n'] + rest;
    if x.len() == 0 {
        assert(s =~= seq!['\n'] + rest);
        assert(s.drop_first() =~= rest);
        assert(line + x =~= line);
    } else {
        assert(x[0] != '\n') by {
            assert(x.contains(x[0]) || true);
            if x[0] == '\n' {
                assert(x.contains('\n'));
            }
        }
        assert(s[0] == x[0]);
        assert(s.drop_first() =~= x.drop_first() + seq!['\n'] + rest);
        assert(!x.drop_first().contains('\n')) by {
            if x.drop_first().contains('\n') {
                let k = choose|k: int| 0 <= k < x.drop_first().len() && x.drop_first()[k] == '\n';
                assert(x[k + 1] == '\n');
            }
        }
        lemma_scan_line(x.drop_first(), rest, line.push(x[0]));
        assert(line.push(x[0]) + x.drop_first() =~= line + x);
    }
}

proof fn lemma_trim_end_keeps_first(s: Seq<char>)
    requires
        s.len() > 0,
        !is_white_space(s[0]),
    ensures
        trim_end(s).len() > 0,
        trim_end(s)[0] == s[0],
    decreases s.len(),
{
    if is_white_space(s.last()) {
        assert(s.len() > 1);
        assert(s.drop_last()[0] == s[0]);
        lemma_trim_end_keeps_first(s.drop_last());
    }
}

/// A line that starts with `#` names no track, whatever follows.
proof fn lemma_directive_line(s: Seq<char>)
    requires
        s.len() > 0,
        s[0] == '#',
    ensures
        line_entry(s) == Seq::<Seq<char>>::empty(),
{
    assert(trim_start(s) == s);
    lemma_trim_end_keeps_first(s);
}

proof fn lemma_decimal_no_newline(n: nat)
    ensures
        !decimal(n).contains('\n'),
    decreases n,
{
    if n >= 10 {
        lemma_decimal_no_newline(n / 10);
        let d = decimal(n);
        assert(d == decimal(n / 10).push(crate::text::hex_digit(n % 10)));
        if d.contains('\n') {
            let k = choose|k: int| 0 <= k < d.len() && d[k] == '\n';
            if k < d.len() - 1 {
                assert(decimal(n / 10)[k] == '\n');
            }
        }
    }
}

proof fn lemma_concat_no_newline(a: Seq<char>, b: Seq<char>)
    requires
        !a.contains('\n'),
        !b.contains('\n'),
    ensures
        !(a + b).contains('\n'),
{
    if (a + b).contains('\n') {
        let k = choose|k: int| 0 <= k < (a + b).len() && (a + b)[k] == '\n';
        if k < a.len() {
            assert(a[k] == '\n');
        } else {
            assert(b[k - a.len()] == '\n');
        }
    }
}

proof fn lemma_entry_scan(e: EntryView, rest: Seq<char>)
    requires
        exportable(e),
    ensures
        m3u_scan(entry_lines(e) + rest, seq![]) == seq![e.path] + m3u_scan(rest, seq![]),
{
    reveal_strlit("#EXTINF:");
    reveal_strlit(",");
    reveal_strlit(" - ");
    reveal_strlit("\n");
    let n = e.duration_secs as int;
    let digits = decimal_signed(n);
    assert(!digits.contains('\n')) by {
        if n < 0 {
            lemma_decimal_no_newline((-n) as nat);
            lemma_concat_no_newline(seq!['-'], decimal((-n) as nat));
        } else {
            lemma_decimal_no_newline(n as nat);
        }
    }
    let label = entry_label(e);
    assert(!label.contains('\n')) by {
        match e.artist {
            Some(a) => if a.len() > 0 {
                lemma_concat_no_newline(a, " - "@);
                lemma_concat_no_newline(a + " - "@, e.title);
            },
            None => {},
        }
    }
    let info = "#EXTINF:"@ + digits + ","@ + label;
    assert(!info.contains('\n')) by {
        lemma_concat_no_newline("#EXTINF:"@, digits);
        lemma_concat_no_newline("#EXTINF:"@ + digits, ","@);
        lemma_concat_no_newline("#EXTINF:"@ + digits + ","@, label);
    }
    let after = e.path + seq!['\n'] + rest;
    assert(entry_lines(e) + rest =~= info + seq!['\n'] + after);
    lemma_scan_line(info, after, seq![]);
    assert(Seq::<char>::empty() + info =~= info);
    assert(info[0] == '#');
    lemma_directive_line(info);
    lemma_scan_line(e.path, rest, seq![]);
    assert(Seq::<char>::empty() + e.path =~= e.path);
    assert(line_entry(e.path) == seq![e.path]);
    assert(m3u_scan(entry_lines(e) + rest, seq![]) =~= seq![e.path] + m3u_scan(rest, seq![]));
}

proof fn lemma_entries_scan(entries: Seq<EntryView>)
    requires
        forall|i: int| 0 <= i < entries.len() ==> exportable(#[trigger] entries[i]),
    ensures
        m3u_scan(entries_text(entries), seq![]) == entries.map_values(|e: EntryView| e.path),
    decreases entries.len(),
{
    if entries.len() == 0 {
        assert(trim(Seq::<char>::empty()) =~= Seq::<char>::empty());
        assert(m3u_scan(entries_text(entries), seq![]) =~= Seq::<Seq<char>>::empty());
        assert(entries.map_values(|e: EntryView| e.path) =~= Seq::<Seq<char>>::empty());
    } else {
        let tail = entries.drop_first();
        assert forall|i: int| 0 <= i < tail.len() implies exportable(#[trigger] tail[i]) by {
            assert(tail[i] == entries[i + 1]);
        }
        lemma_entries_scan(tail);
        lemma_entry_scan(entries[0], entries_text(tail));
        assert(entries.map_values(|e: EntryView| e.path) =~= seq![entries[0].path] + tail.map_values(
            |e: EntryView| e.path,
        ));
    }
}

/// Importing what an export wrote gives back the exported paths, in order,
/// for every playlist whose entries are [`exportable`].
pub proof fn law_m3u_export_then_import_gives_back_the_paths(entries: Seq<EntryView>)
    requires
        forall|i: int| 0 <= i < entries.len() ==> exportable(#[trigger] entries[i]),
    ensures
        m3u_entries(m3u_text(entries)) == entries.map_values(|e: EntryView| e.path),
{
    reveal_strlit("#EXTM3U\n");
    reveal_strlit("#EXTM3U");
    let header = "#EXTM3U"@;
    assert("#EXTM3U\n"@ =~= header + seq!['\n']);
    assert(!header.contains('\n')) by {
        if header.contains('\n') {
            let k = choose|k: int| 0 <= k < header.len() && header[k] == '\n';
        }
    }
    assert(m3u_text(entries) =~= header + seq!['\n'] + entries_text(entries));
    lemma_scan_line(header, entries_text(entries), seq![]);
    assert(Seq::<char>::empty() + header =~= header);
    lemma_directive_line(header);
    lemma_entries_scan(entries);
    assert(m3u_entries(m3u_text(entries)) =~= entries.map_values(|e: EntryView| e.path));
}

} // verus!
