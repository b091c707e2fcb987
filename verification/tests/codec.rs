use mpd2k::cache::{
    append, read_records, save_full, tracks_from_records, try_load_cache, write_records,
};
use mpd2k::date::{AlbumDate, SomeAlbumDate};
use mpd2k::error::AppError;
use mpd2k::record::record_hash;
use mpd2k::track::AudioTrack;

fn record(columns: &[&str]) -> Vec<String> {
    columns.iter().map(|c| c.to_string()).collect()
}

fn full_track() -> AudioTrack {
    AudioTrack {
        name: "Song".to_string(),
        path: "/music/a.flac".to_string(),
        artist: Some("Artist".to_string()),
        album: Some("Album".to_string()),
        album_artist: Some("AlbumArtist".to_string()),
        track_no: Some(3),
        date: SomeAlbumDate(Some(AlbumDate { year: 2020, month: Some(1), day: Some(1) })),
        binary_hash: Some("deadbeef".to_string()),
    }
}

fn bare_track(path: &str) -> AudioTrack {
    AudioTrack {
        name: "x".to_string(),
        path: path.to_string(),
        artist: None,
        album: None,
        album_artist: None,
        track_no: None,
        date: SomeAlbumDate(None),
        binary_hash: None,
    }
}

#[test]
fn decodes_a_full_cache_line() {
    let track = AudioTrack::from_record(record(&[
        "Song",
        "/a.flac",
        "3",
        "Artist",
        "Album",
        "AlbumArtist",
        "2020.01.01",
        "deadbeef",
    ]))
    .unwrap();
    assert_eq!(track.name, "Song");
    assert_eq!(track.path, "/a.flac");
    assert_eq!(track.track_no, Some(3));
    assert_eq!(track.artist.as_deref(), Some("Artist"));
    assert_eq!(track.album.as_deref(), Some("Album"));
    assert_eq!(track.album_artist.as_deref(), Some("AlbumArtist"));
    assert_eq!(
        track.date,
        SomeAlbumDate(Some(AlbumDate { year: 2020, month: Some(1), day: Some(1) }))
    );
    assert_eq!(track.binary_hash.as_deref(), Some("deadbeef"));
}

#[test]
fn decodes_a_cache_line_of_text() {
    let text = b"Song;/a.flac;3;Artist;Album;AlbumArtist;2020.01.01;deadbeef\n";
    let tracks = try_load_cache(Some(&text[..]));
    assert_eq!(tracks.len(), 1);
    assert_eq!(tracks[0].track_no, Some(3));
    assert_eq!(
        tracks[0].date,
        SomeAlbumDate(Some(AlbumDate { year: 2020, month: Some(1), day: Some(1) }))
    );
    assert_eq!(tracks[0].binary_hash.as_deref(), Some("deadbeef"));
}

#[test]
fn refuses_a_record_with_seven_columns() {
    let r = AudioTrack::from_record(record(&["Song", "/a.flac", "3", "", "", "", ""]));
    assert_eq!(r, Err(AppError::CsvParse));
}

#[test]
fn refuses_a_record_with_nine_columns() {
    let r = AudioTrack::from_record(record(&["a", "b", "", "", "", "", "", "", ""]));
    assert_eq!(r, Err(AppError::CsvParse));
}

#[test]
fn empty_columns_are_absent_values() {
    let track = AudioTrack::from_record(record(&["n", "/p.mp3", "", "", "", "", "", ""])).unwrap();
    assert_eq!(track, AudioTrack { name: "n".to_string(), ..bare_track("/p.mp3") });
}

#[test]
fn unreadable_track_number_is_zero() {
    let track =
        AudioTrack::from_record(record(&["n", "/p.mp3", "three", "", "", "", "", ""])).unwrap();
    assert_eq!(track.track_no, Some(0));
    let track =
        AudioTrack::from_record(record(&["n", "/p.mp3", "70000", "", "", "", "", ""])).unwrap();
    assert_eq!(track.track_no, Some(0));
}

#[test]
fn unreadable_date_is_absent() {
    for date in ["2020", "2020-01-01", "2020.13.01", "2021.02.29", "soon"] {
        let track =
            AudioTrack::from_record(record(&["n", "/p.mp3", "", "", "", "", date, ""])).unwrap();
        assert_eq!(track.date, SomeAlbumDate(None));
    }
}

#[test]
fn encodes_eight_columns_hash_last() {
    let rec = full_track().to_record();
    assert_eq!(
        rec,
        record(&[
            "Song",
            "/music/a.flac",
            "3",
            "Artist",
            "Album",
            "AlbumArtist",
            "2020.01.01",
            "deadbeef"
        ])
    );
    assert_eq!(record_hash(&rec).map(|h| h.as_str()), Some("deadbeef"));
}

#[test]
fn encodes_absent_values_as_empty_columns() {
    let rec = bare_track("/p.mp3").to_record();
    assert_eq!(rec, record(&["x", "/p.mp3", "", "", "", "", "", ""]));
    assert_eq!(record_hash(&rec).map(|h| h.as_str()), Some(""));
}

#[test]
fn record_without_columns_has_no_hash() {
    assert_eq!(record_hash(&Vec::new()), None);
}

#[test]
fn round_trip_keeps_every_field() {
    let track = full_track();
    assert_eq!(AudioTrack::from_record(track.to_record()), Ok(track));
    let track = bare_track("/music/b.mp3");
    assert_eq!(AudioTrack::from_record(track.to_record()), Ok(track));
    let track = AudioTrack {
        track_no: Some(65535),
        date: SomeAlbumDate(Some(AlbumDate { year: 1999, month: Some(12), day: Some(31) })),
        ..bare_track("/c.wav")
    };
    assert_eq!(AudioTrack::from_record(track.to_record()), Ok(track));
}

#[test]
fn round_trip_through_the_text_of_a_cache_file() {
    let tracks = vec![full_track(), bare_track("/music/b;c.mp3")];
    let text = save_full(&tracks).unwrap();
    let mut back = try_load_cache(Some(&text[..]));
    back.sort_by(|a, b| a.path.cmp(&b.path));
    assert_eq!(back, tracks);
}

#[test]
fn a_date_without_month_is_not_read_back() {
    let track = AudioTrack {
        date: SomeAlbumDate(Some(AlbumDate { year: 2020, month: None, day: None })),
        ..bare_track("/d.aac")
    };
    let back = AudioTrack::from_record(track.to_record()).unwrap();
    assert_eq!(back.date, SomeAlbumDate(None));
}

#[test]
fn records_that_hold_no_track_are_dropped() {
    let records = vec![
        record(&["a", "/a.mp3", "", "", "", "", "", ""]),
        record(&["too", "short"]),
        record(&["b", "/b.mp3", "", "", "", "", "", ""]),
    ];
    let tracks = tracks_from_records(records);
    assert_eq!(tracks.len(), 2);
    assert_eq!(tracks[0].path, "/a.mp3");
    assert_eq!(tracks[1].path, "/b.mp3");
}

#[test]
fn load_without_a_cache_file_is_empty() {
    assert_eq!(try_load_cache(None), Vec::new());
}

#[test]
fn load_sorts_the_tracks() {
    let text = b"b;/b.mp3;2;;Album;Artist;;\na;/a.mp3;1;;Album;Artist;;\n";
    let tracks = try_load_cache(Some(&text[..]));
    assert_eq!(tracks.len(), 2);
    assert_eq!(tracks[0].path, "/a.mp3");
    assert_eq!(tracks[1].path, "/b.mp3");
}

#[test]
fn load_passes_over_lines_of_other_widths() {
    let text = b"a;/a.mp3;1;;Album;Artist;;\nonly;three;columns\n";
    let tracks = try_load_cache(Some(&text[..]));
    assert_eq!(tracks.len(), 1);
    assert_eq!(tracks[0].path, "/a.mp3");
}

#[test]
fn save_writes_one_line_for_each_track() {
    let text = save_full(&vec![full_track(), bare_track("/p.mp3")]).unwrap();
    assert_eq!(
        String::from_utf8(text).unwrap(),
        "Song;/music/a.flac;3;Artist;Album;AlbumArtist;2020.01.01;deadbeef\nx;/p.mp3;;;;;;\n"
    );
}

#[test]
fn save_of_no_tracks_is_empty() {
    assert_eq!(save_full(&Vec::new()), Ok(Vec::new()));
}

#[test]
fn append_writes_one_line() {
    let text = append(&bare_track("/p.mp3")).unwrap();
    assert_eq!(String::from_utf8(text).unwrap(), "x;/p.mp3;;;;;;\n");
}

#[test]
fn a_delimiter_in_a_column_is_quoted() {
    let text = append(&bare_track("/a;b.mp3")).unwrap();
    assert_eq!(String::from_utf8(text).unwrap(), "x;\"/a;b.mp3\";;;;;;\n");
}

#[test]
fn records_are_written_one_line_each() {
    let text = write_records(&vec![record(&["a", "b"]), record(&["c"]), record(&[])]).unwrap();
    assert_eq!(String::from_utf8(text).unwrap(), "a;b\nc\n\"\"\n");
    assert_eq!(write_records(&Vec::new()), Ok(Vec::new()));
}

#[test]
fn the_date_column_has_four_and_two_and_two_digits() {
    let track = AudioTrack {
        date: SomeAlbumDate(Some(AlbumDate { year: 2020, month: Some(1), day: Some(1) })),
        ..bare_track("/a.flac")
    };
    assert_eq!(track.to_record().get(6).map(|c| c.as_str()), Some("2020.01.01"));
    let track = AudioTrack {
        date: SomeAlbumDate(Some(AlbumDate { year: 987, month: Some(12), day: Some(31) })),
        ..bare_track("/a.flac")
    };
    assert_eq!(track.to_record().get(6).map(|c| c.as_str()), Some("0987.12.31"));
    assert_eq!(AudioTrack::from_record(track.to_record()), Ok(track));
}

#[test]
fn a_bad_first_line_does_not_spoil_the_load() {
    let text = b"only;three;columns\na;/a.mp3;1;;Album;Artist;;\n\nb;/b.mp3;2;;Album;Artist;;\nx\n";
    let tracks = try_load_cache(Some(&text[..]));
    assert_eq!(tracks.len(), 2);
    assert_eq!(tracks[0].path, "/a.mp3");
    assert_eq!(tracks[1].path, "/b.mp3");
}

#[test]
fn a_date_that_is_read_lies_in_the_calendar() {
    for date in ["2020.01.01", "2020.12.31", "1.2.3", "2024.02.29"] {
        let track =
            AudioTrack::from_record(record(&["n", "/p.mp3", "", "", "", "", date, ""])).unwrap();
        let d = track.date.0.unwrap();
        assert!((1..=12).contains(&d.month.unwrap()));
        assert!((1..=31).contains(&d.day.unwrap()));
    }
}

#[test]
fn a_record_that_is_no_text_is_passed_over() {
    let mut text = b"a;/a.mp3;1;;Album;Artist;;\n".to_vec();
    text.extend_from_slice(b"b;/\xff\xfe.mp3;2;;Album;Artist;;\n");
    text.extend_from_slice(b"c;/c.mp3;3;;Album;Artist;;\n");
    let records = read_records(&text);
    assert_eq!(records.len(), 2);
    assert_eq!(records[0][1], "/a.mp3");
    assert_eq!(records[1][1], "/c.mp3");
    assert_eq!(try_load_cache(Some(&text[..])).len(), 2);
}

#[test]
fn records_of_any_width_are_read() {
    let records = read_records(b"one\ntwo;columns\n\nthree;;columns\n");
    assert_eq!(
        records,
        vec![record(&["one"]), record(&["two", "columns"]), record(&["three", "", "columns"])]
    );
    assert_eq!(read_records(b""), Vec::<Vec<String>>::new());
}

#[test]
fn records_of_different_widths_are_written() {
    let text = write_records(&vec![record(&["a"]), record(&["b", "c", "d"])]);
    assert_eq!(text, Ok(b"a\nb;c;d\n".to_vec()));
    let back = read_records(&text.unwrap());
    assert_eq!(back, vec![record(&["a"]), record(&["b", "c", "d"])]);
}
