//! The dataset that rules are mined from: a table in text form, one line per
//! track of a playlist, its columns named by the first line.

use vstd::prelude::*;
use vstd::string::*;
use crate::fields::{lemma_pieces_nonempty, pieces, split_at_char};
use crate::text::{chars_of, holds_name, str_same, texts};

verus! {

/// Why a dataset could not be used.
#[derive(Clone, Copy, Debug, PartialEq, Eq, Structural)]
pub enum DatasetError {
    /// The dataset has no line at all.
    Empty,
    /// No column of the header is named `pid`.
    NoPlaylistColumn,
    /// No column of the header is named `track_name`.
    NoTrackColumn,
    /// A line ends before the column of the playlist.
    LineWithoutPlaylist,
    /// A line ends before the column of the track.
    LineWithoutTrack,
}

impl DatasetError {
    /// A sentence for the log.
    pub fn message(&self) -> (text: &'static str)
        ensures
            text@ == match *self {
                DatasetError::Empty => "The dataset file is empty."@,
                DatasetError::NoPlaylistColumn => "Dataset file has no `pid` column."@,
                DatasetError::NoTrackColumn => "Dataset file has no `track_name` column."@,
                DatasetError::LineWithoutPlaylist => "Line does not contain `pid` column"@,
                DatasetError::LineWithoutTrack => "Line does not contain `track_name` column"@,
            },
    {
        match self {
            DatasetError::Empty => "The dataset file is empty.",
            DatasetError::NoPlaylistColumn => "Dataset file has no `pid` column.",
            DatasetError::NoTrackColumn => "Dataset file has no `track_name` column.",
            DatasetError::LineWithoutPlaylist => "Line does not contain `pid` column",
            DatasetError::LineWithoutTrack => "Line does not contain `track_name` column",
        }
    }
}

/// The last position at which `name` stands in `columns`.
pub open spec fn last_position(columns: Seq<Seq<char>>, name: Seq<char>) -> Option<int>
    decreases columns.len(),
{
    if columns.len() == 0 {
        None
    } else if columns.last() == name {
        Some(columns.len() - 1)
    } else {
        last_position(columns.drop_last(), name)
    }
}

/// A position found is a position of the name.
pub proof fn lemma_last_position(columns: Seq<Seq<char>>, name: Seq<char>)
    ensures
        match last_position(columns, name) {
            Some(i) => 0 <= i < columns.len() && columns[i] == name,
            None => !columns.contains(name),
        },
    decreases columns.len(),
{
    if columns.len() > 0 && columns.last() != name {
        let front = columns.drop_last();
        lemma_last_position(front, name);
        match last_position(front, name) {
            Some(i) => {
                assert(front[i] == columns[i]);
            },
            None => {
                if columns.contains(name) {
                    let j = choose|j: int| 0 <= j < columns.len() && columns[j] == name;
                    assert(front[j] == name);
                    assert(front.contains(name));
                }
            },
        }
    }
}

/// The columns of the playlist and of the track, as a header names them:
/// where a name stands more than once, its last place counts.
pub open spec fn header_columns(header: Seq<char>) -> Result<(int, int), DatasetError> {
    let columns = pieces(header, ',');
    match (last_position(columns, "pid"@), last_position(columns, "track_name"@)) {
        (None, _) => Err(DatasetError::NoPlaylistColumn),
        (Some(_), None) => Err(DatasetError::NoTrackColumn),
        (Some(p), Some(t)) => Ok((p, t)),
    }
}

fn find_last(columns: &Vec<String>, name: &str) -> (found: Option<usize>)
    ensures
        match found {
            Some(i) => last_position(texts(columns@), name@) == Some(i as int),
            None => last_position(texts(columns@), name@) is None,
        },
{
    let mut found: Option<usize> = None;
    let mut i: usize = 0;
    assert(texts(columns@).take(0) =~= Seq::<Seq<char>>::empty());
    while i < columns.len()
        invariant
            i <= columns.len(),
            match found {
                Some(k) => last_position(texts(columns@).take(i as int), name@) == Some(k as int),
                None => last_position(texts(columns@).take(i as int), name@) is None,
            },
        decreases columns.len() - i,
    {
        let ghost next = texts(columns@).take(i + 1);
        assert(next.drop_last() =~= texts(columns@).take(i as int));
        assert(next.last() == columns@[i as int]@);
        if str_same(columns[i].as_str(), name) {
            found = Some(i);
        }
        i += 1;
    }
    assert(texts(columns@).take(i as int) =~= texts(columns@));
    found
}

/// Finds the columns of the playlist and of the track in the header line.
pub fn get_playlist_id_and_track_name_index_in_header(header: &str) -> (columns: Result<
    (usize, usize),
    DatasetError,
>)
    ensures
        match columns {
            Ok((p, t)) => header_columns(header@) == Ok::<(int, int), DatasetError>(
                (p as int, t as int),
            ),
            Err(e) => header_columns(header@) == Err::<(int, int), DatasetError>(e),
        },
{
    let names = split_at_char(header, ',');
    let playlist = find_last(&names, "pid");
    let track = find_last(&names, "track_name");
    match playlist {
        None => Err(DatasetError::NoPlaylistColumn),
        Some(p) => match track {
            None => Err(DatasetError::NoTrackColumn),
            Some(t) => Ok((p, t)),
        },
    }
}

/// The line that stands at `i` among the pieces between line feeds: a piece
/// that a line feed ends loses one carriage return before it.
pub open spec fn line_at(parts: Seq<Seq<char>>, i: int) -> Seq<char> {
    if i < parts.len() - 1 && parts[i].len() > 0 && parts[i].last() == '\r' {
        parts[i].drop_last()
    } else {
        parts[i]
    }
}

/// The lines of a text, as `str::lines` gives them: the text is cut after
/// each line feed, and the line feed, with a carriage return before it, is
/// left out.
pub open spec fn lines(s: Seq<char>) -> Seq<Seq<char>> {
    let parts = pieces(s, '\n');
    let n = if parts.last().len() == 0 {
        parts.len() - 1
    } else {
        parts.len() as int
    };
    Seq::new(n as nat, |i: int| line_at(parts, i))
}

/// Cuts a text into its lines.
pub fn split_lines(s: &str) -> (out: Vec<String>)
    ensures
        texts(out@) == lines(s@),
{
    let parts = split_at_char(s, '\n');
    proof {
        lemma_pieces_nonempty(s@, '\n');
    }
    let ghost ps = texts(parts@);
    let last = parts.len() - 1;
    assert(ps[last as int] == parts@[last as int]@);
    let n = if parts[last].as_str().is_empty() {
        last
    } else {
        parts.len()
    };
    let mut out: Vec<String> = Vec::new();
    let mut i: usize = 0;
    while i < n
        invariant
            i <= n <= parts.len(),
            ps == texts(parts@),
            out.len() == i,
            forall|j: int| 0 <= j < i ==> out@[j]@ == line_at(ps, j),
        decreases n - i,
    {
        assert(ps[i as int] == parts@[i as int]@);
        let chars = chars_of(parts[i].as_str());
        let line = if i + 1 < parts.len() && chars.len() > 0 && chars[chars.len() - 1] == '\r' {
            let cut = parts[i].as_str().substring_char(0, chars.len() - 1).to_owned();
            assert(cut@ =~= ps[i as int].drop_last());
            cut
        } else {
            parts[i].clone()
        };
        out.push(line);
        i += 1;
    }
    assert(texts(out@) =~= lines(s@));
    out
}

/// One line of the dataset: a track of a playlist.
#[derive(Clone, Debug, PartialEq, Eq)]
pub struct Row {
    pub playlist: String,
    pub track: String,
}

/// What a row says.
pub struct RowView {
    pub playlist: Seq<char>,
    pub track: Seq<char>,
}

impl View for Row {
    type V = RowView;

    open spec fn view(&self) -> RowView {
        RowView { playlist: self.playlist@, track: self.track@ }
    }
}

/// The views of a list of rows, position by position.
pub open spec fn row_views(rows: Seq<Row>) -> Seq<RowView> {
    rows.map_values(|r: Row| r@)
}

/// The row of one line, with the playlist in column `p` and the track in
/// column `t`.
pub open spec fn row_of(line: Seq<char>, p: int, t: int) -> Result<RowView, DatasetError> {
    let cells = pieces(line, ',');
    if p >= cells.len() {
        Err(DatasetError::LineWithoutPlaylist)
    } else if t >= cells.len() || t == p {
        Err(DatasetError::LineWithoutTrack)
    } else {
        Ok(RowView { playlist: cells[p], track: cells[t] })
    }
}

/// Reads one line of the dataset.
pub fn read_row(line: &str, p: usize, t: usize) -> (row: Result<Row, DatasetError>)
    ensures
        match row {
            Ok(r) => row_of(line@, p as int, t as int) == Ok::<RowView, DatasetError>(r@),
            Err(e) => row_of(line@, p as int, t as int) == Err::<RowView, DatasetError>(e),
        },
{
    let cells = split_at_char(line, ',');
    if p >= cells.len() {
        return Err(DatasetError::LineWithoutPlaylist);
    }
    if t >= cells.len() || t == p {
        return Err(DatasetError::LineWithoutTrack);
    }
    assert(texts(cells@)[p as int] == cells@[p as int]@);
    assert(texts(cells@)[t as int] == cells@[t as int]@);
    Ok(Row { playlist: cells[p].clone(), track: cells[t].clone() })
}

/// The rows of the first `n` lines after the header, or the error of the
/// first line among them that is no row.
pub open spec fn rows_of(data: Seq<Seq<char>>, p: int, t: int, n: int) -> Result<
    Seq<RowView>,
    DatasetError,
>
    decreases n,
{
    if n <= 0 {
        Ok(Seq::empty())
    } else {
        match rows_of(data, p, t, n - 1) {
            Err(e) => Err(e),
            Ok(rows) => match row_of(data[n - 1], p, t) {
                Err(e) => Err(e),
                Ok(row) => Ok(rows.push(row)),
            },
        }
    }
}

/// The rows of a dataset: its first line names the columns, every other line
/// is one row.
pub open spec fn dataset_rows(content: Seq<char>) -> Result<Seq<RowView>, DatasetError> {
    let all = lines(content);
    if all.len() == 0 {
        Err(DatasetError::Empty)
    } else {
        match header_columns(all[0]) {
            Err(e) => Err(e),
            Ok((p, t)) => rows_of(all.skip(1), p, t, all.len() - 1),
        }
    }
}

/// Reads the rows of a dataset.
pub fn read_rows(content: &str) -> (rows: Result<Vec<Row>, DatasetError>)
    ensures
        match rows {
            Ok(r) => dataset_rows(content@) == Ok::<Seq<RowView>, DatasetError>(row_views(r@)),
            Err(e) => dataset_rows(content@) == Err::<Seq<RowView>, DatasetError>(e),
        },
{
    let all = split_lines(content);
    if all.len() == 0 {
        return Err(DatasetError::Empty);
    }
    assert(texts(all@)[0] == all@[0]@);
    let (p, t) = match get_playlist_id_and_track_name_index_in_header(all[0].as_str()) {
        Ok(columns) => columns,
        Err(e) => {
            return Err(e);
        },
    };
    let ghost data = texts(all@).skip(1);
    let mut rows: Vec<Row> = Vec::new();
    let mut i: usize = 1;
    assert(row_views(rows@) =~= Seq::<RowView>::empty());
    while i < all.len()
        invariant
            1 <= i <= all.len(),
            texts(all@) == lines(content@),
            data == texts(all@).skip(1),
            header_columns(all@[0]@) == Ok::<(int, int), DatasetError>((p as int, t as int)),
            rows_of(data, p as int, t as int, i - 1) == Ok::<Seq<RowView>, DatasetError>(
                row_views(rows@),
            ),
        decreases all.len() - i,
    {
        assert(data[i - 1] == all@[i as int]@);
        let ghost before = row_views(rows@);
        match read_row(all[i].as_str(), p, t) {
            Ok(row) => {
                let ghost r = row@;
                rows.push(row);
                assert(row_views(rows@) =~= before.push(r));
            },
            Err(e) => {
                proof {
                    assert(rows_of(data, p as int, t as int, i as int) == Err::<
                        Seq<RowView>,
                        DatasetError,
                    >(e));
                    lemma_rows_error_stays(data, p as int, t as int, i as int, all.len() - 1);
                }
                return Err(e);
            },
        }
        i += 1;
    }
    Ok(rows)
}

/// An error among the first lines is the error of the whole.
proof fn lemma_rows_error_stays(data: Seq<Seq<char>>, p: int, t: int, n: int, m: int)
    requires
        0 <= n <= m,
        rows_of(data, p, t, n) is Err,
    ensures
        rows_of(data, p, t, m) == rows_of(data, p, t, n),
    decreases m - n,
{
    if n < m {
        lemma_rows_error_stays(data, p, t, n, m - 1);
    }
}

/// The tracks that `rows` list for `playlist`.
pub open spec fn tracks_of(rows: Seq<RowView>, playlist: Seq<char>) -> Set<Seq<char>> {
    Set::new(
        |track: Seq<char>|
            exists|i: int|
                #![trigger rows[i]]
                0 <= i < rows.len() && rows[i].playlist == playlist && rows[i].track == track,
    )
}

/// Whether `rows` list a track for `playlist`.
pub open spec fn has_playlist(rows: Seq<RowView>, playlist: Seq<char>) -> bool {
    exists|i: int| #![trigger rows[i]] 0 <= i < rows.len() && rows[i].playlist == playlist
}

/// A playlist with its tracks, each named once.
#[derive(Clone, Debug, PartialEq, Eq)]
pub struct Playlist {
    pub id: String,
    pub tracks: Vec<String>,
}

/// What a playlist says.
pub struct PlaylistView {
    pub id: Seq<char>,
    pub tracks: Seq<Seq<char>>,
}

impl View for Playlist {
    type V = PlaylistView;

    open spec fn view(&self) -> PlaylistView {
        PlaylistView { id: self.id@, tracks: texts(self.tracks@) }
    }
}

/// The views of a list of playlists, position by position.
pub open spec fn playlist_views(playlists: Seq<Playlist>) -> Seq<PlaylistView> {
    playlists.map_values(|p: Playlist| p@)
}

/// Whether `playlists` are the playlists of `rows`: one for each playlist
/// that the rows name, none twice, each with exactly the tracks that the rows
/// list for it, none of them twice.
pub open spec fn playlists_of(playlists: Seq<PlaylistView>, rows: Seq<RowView>) -> bool {
    &&& forall|a: int, b: int|
        #![trigger playlists[a], playlists[b]]
        0 <= a < playlists.len() && 0 <= b < playlists.len() && a != b ==> playlists[a].id
            != playlists[b].id
    &&& forall|a: int|
        #![trigger playlists[a]]
        0 <= a < playlists.len() ==> {
            &&& has_playlist(rows, playlists[a].id)
            &&& playlists[a].tracks.no_duplicates()
            &&& playlists[a].tracks.to_set() == tracks_of(rows, playlists[a].id)
        }
    &&& forall|i: int|
        #![trigger rows[i]]
        0 <= i < rows.len() ==> listed(playlists, rows[i].playlist)
}

/// Whether one of `playlists` has the id `id`.
pub open spec fn listed(playlists: Seq<PlaylistView>, id: Seq<char>) -> bool {
    exists|a: int| #![trigger playlists[a]] 0 <= a < playlists.len() && playlists[a].id == id
}

/// One more row adds its track to its playlist and leaves the others alone.
proof fn lemma_one_more_row(seen: Seq<RowView>, row: RowView, pid: Seq<char>)
    ensures
        tracks_of(seen.push(row), pid) == if pid == row.playlist {
            tracks_of(seen, pid).insert(row.track)
        } else {
            tracks_of(seen, pid)
        },
        has_playlist(seen.push(row), pid) == (has_playlist(seen, pid) || pid == row.playlist),
{
    let more = seen.push(row);
    let goal = if pid == row.playlist {
        tracks_of(seen, pid).insert(row.track)
    } else {
        tracks_of(seen, pid)
    };
    assert(more[seen.len() as int] == row);
    assert forall|x: Seq<char>| tracks_of(more, pid).contains(x) <==> goal.contains(x) by {
        if tracks_of(more, pid).contains(x) {
            let i = choose|i: int|
                #![trigger more[i]]
                0 <= i < more.len() && more[i].playlist == pid && more[i].track == x;
            if i < seen.len() {
                assert(seen[i] == more[i]);
            }
        }
        if tracks_of(seen, pid).contains(x) {
            let i = choose|i: int|
                #![trigger seen[i]]
                0 <= i < seen.len() && seen[i].playlist == pid && seen[i].track == x;
            assert(more[i] == seen[i]);
        }
    }
    assert(tracks_of(more, pid) =~= goal);
    if has_playlist(more, pid) {
        let i = choose|i: int| #![trigger more[i]] 0 <= i < more.len() && more[i].playlist == pid;
        if i < seen.len() {
            assert(seen[i] == more[i]);
        }
    }
    if has_playlist(seen, pid) {
        let i = choose|i: int| #![trigger seen[i]] 0 <= i < seen.len() && seen[i].playlist == pid;
        assert(more[i] == seen[i]);
    }
}

/// A playlist that no row has named has no tracks.
proof fn lemma_unnamed_playlist(seen: Seq<RowView>, pid: Seq<char>)
    requires
        !has_playlist(seen, pid),
    ensures
        tracks_of(seen, pid) == Set::<Seq<char>>::empty(),
{
    assert forall|x: Seq<char>| !tracks_of(seen, pid).contains(x) by {
        if tracks_of(seen, pid).contains(x) {
            let k = choose|k: int|
                #![trigger seen[k]]
                0 <= k < seen.len() && seen[k].playlist == pid && seen[k].track == x;
            assert(has_playlist(seen, pid));
        }
    }
    assert(tracks_of(seen, pid) =~= Set::<Seq<char>>::empty());
}

/// A row of a playlist that is not listed yet starts a new playlist.
proof fn lemma_new_playlist(ps: Seq<PlaylistView>, seen: Seq<RowView>, row: RowView)
    requires
        playlists_of(ps, seen),
        !listed(ps, row.playlist),
    ensures
        playlists_of(
            ps.push(PlaylistView { id: row.playlist, tracks: seq![row.track] }),
            seen.push(row),
        ),
{
    let more = seen.push(row);
    let fresh = PlaylistView { id: row.playlist, tracks: seq![row.track] };
    let now = ps.push(fresh);
    assert(!has_playlist(seen, row.playlist)) by {
        if has_playlist(seen, row.playlist) {
            let k = choose|k: int|
                #![trigger seen[k]]
                0 <= k < seen.len() && seen[k].playlist == row.playlist;
            assert(listed(ps, seen[k].playlist));
        }
    }
    lemma_unnamed_playlist(seen, row.playlist);
    assert(fresh.tracks.to_set() =~= Set::<Seq<char>>::empty().insert(row.track)) by {
        assert forall|x: Seq<char>| fresh.tracks.contains(x) <==> x == row.track by {
            if x == row.track {
                assert(fresh.tracks[0] == x);
            }
        }
    }
    assert forall|a: int| #![trigger now[a]] 0 <= a < now.len() implies {
        &&& has_playlist(more, now[a].id)
        &&& now[a].tracks.no_duplicates()
        &&& now[a].tracks.to_set() == tracks_of(more, now[a].id)
    } by {
        lemma_one_more_row(seen, row, now[a].id);
        if a < ps.len() {
            assert(now[a] == ps[a]);
            assert(ps[a].id != row.playlist);
        }
    }
    assert forall|a: int, b: int|
        #![trigger now[a], now[b]]
        0 <= a < now.len() && 0 <= b < now.len() && a != b implies now[a].id != now[b].id by {
        if a < ps.len() && b < ps.len() {
            assert(ps[a].id != ps[b].id);
        } else if a < ps.len() {
            assert(now[a] == ps[a]);
        } else {
            assert(now[b] == ps[b]);
        }
    }
    assert forall|i: int| #![trigger more[i]] 0 <= i < more.len() implies listed(
        now,
        more[i].playlist,
    ) by {
        if i < seen.len() {
            assert(more[i] == seen[i]);
            assert(listed(ps, seen[i].playlist));
            let a = choose|a: int|
                #![trigger ps[a]]
                0 <= a < ps.len() && ps[a].id == seen[i].playlist;
            assert(now[a] == ps[a]);
        } else {
            assert(now[ps.len() as int].id == more[i].playlist);
        }
    }
}

/// A row of the playlist listed at `i` adds its track there, unless the
/// playlist has it already.
proof fn lemma_known_playlist(ps: Seq<PlaylistView>, seen: Seq<RowView>, row: RowView, i: int)
    requires
        playlists_of(ps, seen),
        0 <= i < ps.len(),
        ps[i].id == row.playlist,
    ensures
        ps[i].tracks.contains(row.track) ==> playlists_of(ps, seen.push(row)),
        !ps[i].tracks.contains(row.track) ==> playlists_of(
            ps.update(i, PlaylistView { id: row.playlist, tracks: ps[i].tracks.push(row.track) }),
            seen.push(row),
        ),
{
    let more = seen.push(row);
    let grown = PlaylistView { id: row.playlist, tracks: ps[i].tracks.push(row.track) };
    let now = if ps[i].tracks.contains(row.track) {
        ps
    } else {
        ps.update(i, grown)
    };
    let s = ps[i].tracks;
    if s.contains(row.track) {
        assert(s.to_set().insert(row.track) =~= s.to_set());
    } else {
        s.lemma_push_to_set_commute(row.track);
        let t = s.push(row.track);
        assert forall|x: int, y: int| 0 <= x < t.len() && 0 <= y < t.len() && x != y implies t[x]
            != t[y] by {
            if x < s.len() && y < s.len() {
                assert(s[x] != s[y]);
            } else if x < s.len() {
                assert(s.contains(s[x]));
            } else {
                assert(s.contains(s[y]));
            }
        }
    }
    assert forall|a: int| #![trigger now[a]] 0 <= a < now.len() implies {
        &&& has_playlist(more, now[a].id)
        &&& now[a].tracks.no_duplicates()
        &&& now[a].tracks.to_set() == tracks_of(more, now[a].id)
    } by {
        lemma_one_more_row(seen, row, now[a].id);
        assert(now[a].id == ps[a].id);
        if a != i {
            assert(now[a] == ps[a]);
            assert(ps[a].id != ps[i].id);
        }
    }
    assert forall|a: int, b: int|
        #![trigger now[a], now[b]]
        0 <= a < now.len() && 0 <= b < now.len() && a != b implies now[a].id != now[b].id by {
        assert(now[a].id == ps[a].id);
        assert(now[b].id == ps[b].id);
    }
    assert forall|k: int| #![trigger more[k]] 0 <= k < more.len() implies listed(
        now,
        more[k].playlist,
    ) by {
        if k < seen.len() {
            assert(more[k] == seen[k]);
            assert(listed(ps, seen[k].playlist));
            let a = choose|a: int|
                #![trigger ps[a]]
                0 <= a < ps.len() && ps[a].id == seen[k].playlist;
            assert(now[a].id == ps[a].id);
        } else {
            assert(now[i].id == more[k].playlist);
        }
    }
}

/// Gathers the tracks of each playlist.
pub fn group_rows(rows: Vec<Row>) -> (playlists: Vec<Playlist>)
    ensures
        playlists_of(playlist_views(playlists@), row_views(rows@)),
{
    let mut playlists: Vec<Playlist> = Vec::new();
    let ghost all = row_views(rows@);
    let mut n: usize = 0;
    assert(playlist_views(playlists@) =~= Seq::<PlaylistView>::empty());
    assert(all.take(0) =~= Seq::<RowView>::empty());
    while n < rows.len()
        invariant
            n <= rows.len(),
            all == row_views(rows@),
            playlists_of(playlist_views(playlists@), all.take(n as int)),
        decreases rows.len() - n,
    {
        let ghost seen = all.take(n as int);
        let ghost row = all[n as int];
        let ghost ps = playlist_views(playlists@);
        proof {
            assert(row == rows@[n as int]@);
            assert(all.take(n + 1) =~= seen.push(row));
        }
        let mut i: usize = 0;
        while i < playlists.len() && !str_same(
            playlists[i].id.as_str(),
            rows[n].playlist.as_str(),
        )
            invariant
                i <= playlists.len(),
                n < rows.len(),
                ps == playlist_views(playlists@),
                row == rows@[n as int]@,
                forall|j: int| 0 <= j < i ==> (#[trigger] ps[j]).id != row.playlist,
            decreases playlists.len() - i,
        {
            assert(ps[i as int] == playlists@[i as int]@);
            i += 1;
        }
        if i < playlists.len() {
            assert(ps[i as int] == playlists@[i as int]@);
            proof {
                lemma_known_playlist(ps, seen, row, i as int);
            }
            if !holds_name(&playlists[i].tracks, rows[n].track.as_str()) {
                let mut playlist = playlists.remove(i);
                playlist.tracks.push(rows[n].track.clone());
                assert(texts(playlist.tracks@) =~= ps[i as int].tracks.push(row.track));
                playlists.insert(i, playlist);
                assert(playlist_views(playlists@) =~= ps.update(
                    i as int,
                    PlaylistView { id: row.playlist, tracks: ps[i as int].tracks.push(row.track) },
                ));
            }
        } else {
            let mut tracks: Vec<String> = Vec::new();
            tracks.push(rows[n].track.clone());
            let playlist = Playlist { id: rows[n].playlist.clone(), tracks };
            proof {
                assert(playlist@.tracks =~= seq![row.track]);
                lemma_new_playlist(ps, seen, row);
            }
            playlists.push(playlist);
            assert(playlist_views(playlists@) =~= ps.push(
                PlaylistView { id: row.playlist, tracks: seq![row.track] },
            ));
        }
        n += 1;
    }
    assert(all.take(n as int) =~= all);
    playlists
}

/// Reads a dataset and gathers the tracks of each of its playlists: the
/// transactions that rules are mined from.
pub fn process_data(content: &str) -> (playlists: Result<Vec<Playlist>, DatasetError>)
    ensures
        match playlists {
            Ok(p) => dataset_rows(content@) is Ok && playlists_of(
                playlist_views(p@),
                dataset_rows(content@)->Ok_0,
            ),
            Err(e) => dataset_rows(content@) == Err::<Seq<RowView>, DatasetError>(e),
        },
{
    match read_rows(content) {
        Ok(rows) => Ok(group_rows(rows)),
        Err(e) => Err(e),
    }
}

} // verus!
