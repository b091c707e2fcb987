use mpd2k::date::{AlbumDate, SomeAlbumDate};
use mpd2k::hash::{get_hash_murmur_64, get_hash_sha256, get_hash_xx, hash_file, murmur_text, HashKind};
use mpd2k::error::AppError;
use mpd2k::library::{clone_tracks, find_path, merge_tracks, LibraryClient, RepeatMode};
use mpd2k::record::Tags;
use mpd2k::track::AudioTrack;
use mpd2k::util::supported_paths;

fn named(name: &str, path: &str) -> AudioTrack {
    AudioTrack::with_name(name.to_string(), path.to_string())
}

fn paths(tracks: &[AudioTrack]) -> Vec<&str> {
    tracks.iter().map(|t| t.path.as_str()).collect()
}

#[test]
fn a_new_track_is_named_by_its_file() {
    let t = AudioTrack::new("/music/album/01 song.flac".to_string());
    assert_eq!(t.name, "01 song.flac");
    assert_eq!(t.path, "/music/album/01 song.flac");
    assert_eq!(t.artist, None);
    assert_eq!(t.album, None);
    assert_eq!(t.album_artist, None);
    assert_eq!(t.track_no, None);
    assert_eq!(t.date, SomeAlbumDate(None));
    assert_eq!(t.binary_hash, None);
}

#[test]
fn a_path_without_file_name_gives_no_track() {
    assert_eq!(AudioTrack::try_new("/".to_string()), None);
    assert_eq!(AudioTrack::try_new("/music/..".to_string()), None);
    assert_eq!(AudioTrack::try_new("".to_string()), None);
    assert_eq!(AudioTrack::try_new("/m/a.mp3".to_string()), Some(named("a.mp3", "/m/a.mp3")));
}

#[test]
fn a_library_without_cache_is_empty_and_idle() {
    let lib = LibraryClient::new(None);
    assert!(lib.audio_tracks.is_empty());
    assert!(lib.albums().is_empty());
    assert!(lib.audio_tracks().is_empty());
    assert!(!lib.loading());
    assert!(!lib.get_shuffle());
    assert_eq!(lib.get_repeat(), RepeatMode::Off);
    assert!(lib.current_track().is_none());
}

#[test]
fn a_library_is_loaded_from_the_cache() {
    let text = b"b;/b.mp3;2;;Album;Artist;;\na;/a.mp3;1;;Album;Artist;;\nc;/c.mp3;1;;Other;Artist;;\n";
    let lib = LibraryClient::new(Some(&text[..]));
    assert_eq!(paths(&lib.audio_tracks), vec!["/a.mp3", "/b.mp3", "/c.mp3"]);
    assert_eq!(lib.albums().len(), 2);
    let flat: Vec<&str> = lib.audio_tracks().iter().map(|t| t.path.as_str()).collect();
    assert_eq!(flat, vec!["/a.mp3", "/b.mp3", "/c.mp3"]);
}

#[test]
fn a_rescan_while_loading_is_a_no_op() {
    let mut lib = LibraryClient::new(None);
    lib.merge_track(named("a", "/a.mp3"));
    assert!(lib.update_lib(false));
    assert!(lib.loading());
    assert!(!lib.update_lib(false));
    assert!(lib.loading());
    assert!(!lib.update_lib(true));
    assert!(lib.loading());
    assert_eq!(paths(&lib.audio_tracks), vec!["/a.mp3"]);
}

#[test]
fn a_hard_rescan_clears_the_tracks() {
    let mut lib = LibraryClient::new(None);
    lib.merge_track(named("a", "/a.mp3"));
    assert!(lib.update_lib(true));
    assert!(lib.loading());
    assert!(lib.audio_tracks.is_empty());
}

#[test]
fn a_soft_rescan_keeps_the_tracks() {
    let mut lib = LibraryClient::new(None);
    lib.merge_track(named("a", "/a.mp3"));
    assert!(lib.update_lib(false));
    assert_eq!(paths(&lib.audio_tracks), vec!["/a.mp3"]);
}

#[test]
fn merging_replaces_the_track_with_the_same_path() {
    let mut lib = LibraryClient::new(None);
    lib.merge_track(named("one", "/a.mp3"));
    lib.merge_track(named("two", "/b.mp3"));
    lib.merge_track(named("three", "/a.mp3"));
    assert_eq!(lib.audio_tracks, vec![named("three", "/a.mp3"), named("two", "/b.mp3")]);
}

#[test]
fn merging_all_keeps_the_last_of_each_path() {
    let merged = merge_tracks(vec![
        named("1", "/a"),
        named("2", "/b"),
        named("3", "/a"),
        named("4", "/c"),
        named("5", "/b"),
        named("6", "/a"),
    ]);
    assert_eq!(merged, vec![named("6", "/a"), named("5", "/b"), named("4", "/c")]);
}

#[test]
fn finds_the_first_track_with_a_path() {
    let tracks = vec![named("1", "/a"), named("2", "/b"), named("3", "/b")];
    assert_eq!(find_path(&tracks, &"/a".to_string()), Some(0));
    assert_eq!(find_path(&tracks, &"/b".to_string()), Some(1));
    assert_eq!(find_path(&tracks, &"/c".to_string()), None);
}

#[test]
fn a_hash_is_attached_by_path() {
    let mut lib = LibraryClient::new(None);
    lib.merge_track(named("a", "/a.mp3"));
    lib.merge_track(named("b", "/b.mp3"));
    assert!(lib.attach_hash(&"/b.mp3".to_string(), "123".to_string()));
    assert!(!lib.attach_hash(&"/c.mp3".to_string(), "456".to_string()));
    assert_eq!(lib.audio_tracks[0], named("a", "/a.mp3"));
    assert_eq!(
        lib.audio_tracks[1],
        AudioTrack { binary_hash: Some("123".to_string()), ..named("b", "/b.mp3") }
    );
}

#[test]
fn after_a_rescan_no_two_tracks_share_a_path() {
    let mut lib = LibraryClient::new(None);
    assert!(lib.update_lib(false));
    lib.audio_tracks.push(named("1", "/b.mp3"));
    lib.audio_tracks.push(named("2", "/a.mp3"));
    lib.audio_tracks.push(named("3", "/b.mp3"));
    lib.audio_tracks.push(named("4", "/c.mp3"));
    lib.audio_tracks.push(named("5", "/a.mp3"));
    lib.finish_update();
    assert!(!lib.loading());
    assert_eq!(
        lib.audio_tracks,
        vec![named("5", "/a.mp3"), named("3", "/b.mp3"), named("4", "/c.mp3")]
    );
    assert_eq!(lib.albums().len(), 1);
    assert_eq!(lib.albums()[0].tracks, lib.audio_tracks);
    assert!(lib.update_lib(false));
}

#[test]
fn dedup_sorts_and_keeps_one_track_for_each_path() {
    let mut lib = LibraryClient::new(None);
    lib.audio_tracks = vec![named("1", "/z"), named("2", "/a"), named("3", "/z")];
    lib.dedup();
    assert_eq!(lib.audio_tracks, vec![named("2", "/a"), named("3", "/z")]);
}

#[test]
fn a_rescan_that_is_given_up_leaves_the_index() {
    let text = b"a;/a.mp3;1;;Album;Artist;;\n";
    for hard in [false, true] {
        let mut lib = LibraryClient::new(Some(&text[..]));
        assert!(lib.update_lib(hard));
        assert_eq!(lib.audio_tracks.is_empty(), hard);
        lib.abort_update();
        assert!(!lib.loading());
        assert_eq!(paths(&lib.audio_tracks), vec!["/a.mp3"]);
        assert_eq!(lib.albums().len(), 1);
    }
}

#[test]
fn the_loading_flag_is_set() {
    let mut lib = LibraryClient::new(None);
    lib.set_loading(true);
    assert!(lib.loading());
    lib.set_loading(false);
    assert!(!lib.loading());
}

#[test]
fn a_snapshot_is_a_copy() {
    let mut lib = LibraryClient::new(None);
    lib.merge_track(named("a", "/a.mp3"));
    let snap = lib.snapshot();
    lib.merge_track(named("b", "/b.mp3"));
    assert_eq!(snap, vec![named("a", "/a.mp3")]);
    assert_eq!(clone_tracks(&lib.audio_tracks), lib.audio_tracks);
}

#[test]
fn repeat_cycles_through_three_modes() {
    let mut lib = LibraryClient::new(None);
    lib.cycle_repeat();
    assert_eq!(lib.get_repeat(), RepeatMode::One);
    lib.cycle_repeat();
    assert_eq!(lib.get_repeat(), RepeatMode::All);
    lib.cycle_repeat();
    assert_eq!(lib.get_repeat(), RepeatMode::Off);
    assert_eq!(RepeatMode::default(), RepeatMode::Off);
}

#[test]
fn shuffle_is_toggled() {
    let mut lib = LibraryClient::new(None);
    lib.toggle_shuffle();
    assert!(lib.get_shuffle());
    lib.toggle_shuffle();
    assert!(!lib.get_shuffle());
}

#[test]
fn sha256_in_lower_hex() {
    assert_eq!(
        get_hash_sha256(b"abc"),
        "ba7816bf8f01cfea414140de5dae2223b00361a396177a9cb410ff61f20015ad"
    );
    assert_eq!(
        get_hash_sha256(b""),
        "e3b0c44298fc1c149afbf4c8996fb92427ae41e4649b934ca495991b7852b855"
    );
    assert_eq!(get_hash_sha256(b"some audio").len(), 64);
}

#[test]
fn xxh3_in_decimal() {
    assert_eq!(get_hash_xx(b""), 0x2d06800538d394c2u64.to_string());
    assert_eq!(get_hash_xx(b"abc"), xxhash_rust::xxh3::xxh3_64(b"abc").to_string());
    assert_ne!(get_hash_xx(b"abc"), get_hash_xx(b"abd"));
}

#[test]
fn murmur_in_decimal() {
    assert_eq!(get_hash_murmur_64(b""), Ok("0".to_string()));
    let mut source = &b"hello world"[..];
    let expected = murmur3::murmur3_x64_128(&mut source, 0).unwrap().to_string();
    assert_eq!(get_hash_murmur_64(b"hello world"), Ok(expected));
    assert_ne!(get_hash_murmur_64(b"hello world"), get_hash_murmur_64(b"hello worle"));
}

#[test]
fn a_murmur_hash_that_failed_is_an_io_error() {
    assert_eq!(murmur_text(Ok(12)), Ok("12".to_string()));
    assert_eq!(murmur_text(Err("broken".to_string())), Err(AppError::Io("broken".to_string())));
}

#[test]
fn the_kind_selects_the_hash() {
    let data = b"some audio";
    assert_eq!(hash_file(data, HashKind::Sha256), Ok(get_hash_sha256(data)));
    assert_eq!(hash_file(data, HashKind::Murmur), get_hash_murmur_64(data));
    assert!(hash_file(data, HashKind::Murmur).is_ok());
    assert_eq!(hash_file(data, HashKind::XxHash), Ok(get_hash_xx(data)));
    assert_eq!(HashKind::Sha256.name(), "Sha256");
    assert_eq!(HashKind::Murmur.name(), "Murmur");
    assert_eq!(HashKind::XxHash.name(), "XxHash");
}

fn tags(title: Option<&str>) -> Tags {
    Tags {
        title: title.map(|t| t.to_string()),
        artist: Some("Artist".to_string()),
        album: Some("Album".to_string()),
        album_artist: None,
        track_no: Some(4),
        date: SomeAlbumDate(Some(AlbumDate { year: 2001, month: Some(2), day: None })),
    }
}

#[test]
fn tags_fill_a_track() {
    let mut t = AudioTrack {
        album_artist: Some("Old".to_string()),
        binary_hash: Some("ff".to_string()),
        ..named("a.mp3", "/m/a.mp3")
    };
    t.update_tag(tags(Some("Title")));
    assert_eq!(
        t,
        AudioTrack {
            name: "Title".to_string(),
            path: "/m/a.mp3".to_string(),
            artist: Some("Artist".to_string()),
            album: Some("Album".to_string()),
            album_artist: None,
            track_no: Some(4),
            date: SomeAlbumDate(Some(AlbumDate { year: 2001, month: Some(2), day: None })),
            binary_hash: Some("ff".to_string()),
        }
    );
}

#[test]
fn a_track_without_title_is_named_by_its_file() {
    let t = AudioTrack::from_tags("/m/a.mp3".to_string(), tags(None)).unwrap();
    assert_eq!(t.name, "a.mp3");
    assert_eq!(t.artist.as_deref(), Some("Artist"));
    assert_eq!(t.binary_hash, None);
    let t = AudioTrack::from_tags("/m/a.mp3".to_string(), tags(Some("Title"))).unwrap();
    assert_eq!(t.name, "Title");
    assert_eq!(t.path, "/m/a.mp3");
    let t = AudioTrack::from_tags("/".to_string(), tags(Some("Title"))).unwrap();
    assert_eq!(t.name, "Title");
    assert_eq!(AudioTrack::from_tags("/".to_string(), tags(None)), None);
}

#[test]
fn a_time_stamp_gives_a_date() {
    assert_eq!(
        AlbumDate::from_timestamp(2020, Some(3), None),
        AlbumDate { year: 2020, month: Some(3), day: None }
    );
    assert_eq!(
        AlbumDate::from_timestamp(-1, None, None),
        AlbumDate { year: u32::MAX, month: None, day: None }
    );
}

#[test]
fn a_walk_keeps_one_file_for_each_supported_format() {
    let found = supported_paths(
        [
            "/m/a.mp3", "/m/notes.txt", "/m/b.wav", "/m/c.vorbis", "/m/cover.png", "/m/d.flac",
            "/m/e.aac", "/m/f.ogg",
        ]
            .iter()
            .map(|p| p.to_string())
            .collect(),
    );
    assert_eq!(
        found,
        vec!["/m/a.mp3", "/m/b.wav", "/m/c.vorbis", "/m/d.flac", "/m/e.aac", "/m/f.ogg"]
    );
    assert_eq!(supported_paths(Vec::new()), Vec::<String>::new());
}

fn files(paths: &[&str]) -> Vec<String> {
    paths.iter().map(|p| p.to_string()).collect()
}

#[test]
fn a_walk_indexes_the_supported_files_in_order() {
    let mut lib = LibraryClient::new(None);
    lib.load_all_tracks_raw(
        files(&["/r/a.mp3", "/r/a.wav", "/r/a.flac", "/r/a.aac", "/r/notes.txt"]),
        false,
    );
    assert_eq!(paths(&lib.audio_tracks), vec!["/r/a.aac", "/r/a.flac", "/r/a.mp3", "/r/a.wav"]);
    assert_eq!(lib.audio_tracks[0], named("a.aac", "/r/a.aac"));
    assert!(!lib.loading());
}

#[test]
fn a_walk_indexes_each_file_once() {
    let mut lib = LibraryClient::new(None);
    lib.load_all_tracks_raw(files(&["/r/b.ogg", "/r/a.mp3", "/r/b.ogg", "/r/cover.jpg"]), true);
    assert_eq!(paths(&lib.audio_tracks), vec!["/r/a.mp3", "/r/b.ogg"]);
}

#[test]
fn a_walk_replaces_the_tracks_it_finds_again() {
    let mut lib = LibraryClient::new(None);
    lib.merge_track(AudioTrack { artist: Some("A".to_string()), ..named("old", "/r/a.mp3") });
    lib.merge_track(named("kept", "/r/z.mp3"));
    lib.load_all_tracks_raw(files(&["/r/a.mp3", "/r/b.mp3"]), false);
    assert_eq!(
        lib.audio_tracks,
        vec![named("a.mp3", "/r/a.mp3"), named("b.mp3", "/r/b.mp3"), named("kept", "/r/z.mp3")]
    );
    lib.load_all_tracks_raw(files(&["/r/c.mp3"]), true);
    assert_eq!(lib.audio_tracks, vec![named("c.mp3", "/r/c.mp3")]);
    lib.load_all_tracks_raw(Vec::new(), true);
    assert!(lib.audio_tracks.is_empty());
}
