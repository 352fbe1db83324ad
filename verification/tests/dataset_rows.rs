use song_recommender::dataset::{
    get_playlist_id_and_track_name_index_in_header, group_rows, process_data, read_row,
    read_rows, split_lines, DatasetError, Playlist, Row,
};

fn row(playlist: &str, track: &str) -> Row {
    Row { playlist: playlist.to_string(), track: track.to_string() }
}

fn playlist(id: &str, tracks: &[&str]) -> Playlist {
    Playlist { id: id.to_string(), tracks: tracks.iter().map(|s| s.to_string()).collect() }
}

#[test]
fn header_names_the_columns() {
    assert_eq!(
        get_playlist_id_and_track_name_index_in_header("artist,track_name,pid,album"),
        Ok((2, 1))
    );
    assert_eq!(get_playlist_id_and_track_name_index_in_header("pid,track_name"), Ok((0, 1)));
}

#[test]
fn header_last_column_of_a_name_counts() {
    assert_eq!(
        get_playlist_id_and_track_name_index_in_header("pid,track_name,pid,x,track_name"),
        Ok((2, 4))
    );
}

#[test]
fn header_without_columns_is_an_error() {
    assert_eq!(
        get_playlist_id_and_track_name_index_in_header("artist,track_name"),
        Err(DatasetError::NoPlaylistColumn)
    );
    assert_eq!(
        get_playlist_id_and_track_name_index_in_header("pid,artist"),
        Err(DatasetError::NoTrackColumn)
    );
    assert_eq!(
        get_playlist_id_and_track_name_index_in_header(""),
        Err(DatasetError::NoPlaylistColumn)
    );
    assert_eq!(
        get_playlist_id_and_track_name_index_in_header("PID, track_name"),
        Err(DatasetError::NoPlaylistColumn)
    );
}

#[test]
fn lines_agree_with_str() {
    let texts = [
        "",
        "\n",
        "a",
        "a\n",
        "a\nb",
        "a\r\nb\r\n",
        "a\n\nb",
        "a\r",
        "a\r\n",
        "\r\n\r\n",
        "a\rb\nc",
        "a\n\r",
        "x\r\r\ny",
    ];
    for text in texts.iter() {
        let expected: Vec<String> = text.lines().map(|s| s.to_string()).collect();
        assert_eq!(split_lines(text), expected, "{:?}", text);
    }
}

#[test]
fn row_takes_playlist_and_track() {
    assert_eq!(read_row("1,Song,Artist", 0, 1), Ok(row("1", "Song")));
    assert_eq!(read_row("Artist,Song,1", 2, 1), Ok(row("1", "Song")));
    assert_eq!(read_row(",,", 0, 2), Ok(row("", "")));
}

#[test]
fn short_row_is_an_error() {
    assert_eq!(read_row("1", 0, 1), Err(DatasetError::LineWithoutTrack));
    assert_eq!(read_row("Song", 1, 0), Err(DatasetError::LineWithoutPlaylist));
    assert_eq!(read_row("", 3, 4), Err(DatasetError::LineWithoutPlaylist));
}

#[test]
fn rows_follow_the_header() {
    let content = "pid,track_name\n1,A\n2,B\r\n1,C\n";
    assert_eq!(read_rows(content), Ok(vec![row("1", "A"), row("2", "B"), row("1", "C")]));
    assert_eq!(read_rows("pid,track_name"), Ok(Vec::new()));
}

#[test]
fn rows_of_a_bad_dataset() {
    assert_eq!(read_rows(""), Err(DatasetError::Empty));
    assert_eq!(read_rows("a,b\n1,2"), Err(DatasetError::NoPlaylistColumn));
    assert_eq!(read_rows("pid,b\n1,2"), Err(DatasetError::NoTrackColumn));
    assert_eq!(read_rows("x,pid,track_name\n1,2"), Err(DatasetError::LineWithoutTrack));
    assert_eq!(read_rows("x,track_name,pid\n1,2,3\n1,2"), Err(DatasetError::LineWithoutPlaylist));
    assert_eq!(read_rows("pid,track_name\n1,A\n\n2,B"), Err(DatasetError::LineWithoutTrack));
}

#[test]
fn tracks_are_gathered_by_playlist() {
    let rows = vec![row("1", "A"), row("2", "B"), row("1", "C"), row("1", "A"), row("2", "A")];
    assert_eq!(group_rows(rows), vec![playlist("1", &["A", "C"]), playlist("2", &["B", "A"])]);
    assert_eq!(group_rows(Vec::new()), Vec::new());
}

#[test]
fn dataset_becomes_playlists() {
    let content = "pid,artist,track_name\n7,x,One\n8,y,Two\n7,z,Three\n7,x,One\n";
    assert_eq!(
        process_data(content),
        Ok(vec![playlist("7", &["One", "Three"]), playlist("8", &["Two"])])
    );
    assert_eq!(process_data(""), Err(DatasetError::Empty));
    assert_eq!(process_data("pid\n"), Err(DatasetError::NoTrackColumn));
}

#[test]
fn dataset_errors_have_messages() {
    assert_eq!(DatasetError::Empty.message(), "The dataset file is empty.");
    assert_eq!(DatasetError::NoPlaylistColumn.message(), "Dataset file has no `pid` column.");
    assert_eq!(DatasetError::NoTrackColumn.message(), "Dataset file has no `track_name` column.");
    assert_eq!(DatasetError::LineWithoutPlaylist.message(), "Line does not contain `pid` column");
    assert_eq!(
        DatasetError::LineWithoutTrack.message(),
        "Line does not contain `track_name` column"
    );
}
