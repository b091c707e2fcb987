use mpd2k::client::{
    check_greeting, read_reply, select_first_track, select_last_track, select_next_track,
    select_prev_track, timestamp, tracks_at, MpdCommand,
};
use mpd2k::dotfile::{DotfileSchema, GeneralSubSchema, LibrarySubSchema};
use mpd2k::error::{AppError, MpdError};
use mpd2k::index::{clean_albums, remove_duplicates, Album};
use mpd2k::keys::{KeyAction, KeyEventHandler};
use mpd2k::library::LibraryClient;
use mpd2k::rescan::{RescanAction, RescanEvent};
use mpd2k::text::starts_with;
use mpd2k::track::AudioTrack;
use mpd2k::util::{first_cover, is_cover_image};

fn named(name: &str, path: &str) -> AudioTrack {
    AudioTrack::with_name(name.to_string(), path.to_string())
}

fn hashed(name: &str, path: &str, hash: &str) -> AudioTrack {
    AudioTrack { binary_hash: Some(hash.to_string()), ..named(name, path) }
}

#[test]
fn a_request_starts_a_rescan_once() {
    let mut lib = LibraryClient::new(None);
    assert_eq!(lib.step(RescanEvent::Requested { hard: false }), RescanAction::Walk);
    assert!(lib.loading());
    assert_eq!(lib.step(RescanEvent::Requested { hard: false }), RescanAction::Rejected);
    assert_eq!(lib.step(RescanEvent::Requested { hard: true }), RescanAction::Rejected);
    assert!(lib.loading());
}

#[test]
fn a_whole_rescan() {
    let mut lib = LibraryClient::new(None);
    assert_eq!(lib.step(RescanEvent::Requested { hard: true }), RescanAction::Walk);
    assert_eq!(lib.step(RescanEvent::TagRead(named("b", "/b.mp3"))), RescanAction::Nothing);
    assert_eq!(lib.step(RescanEvent::TagFailed), RescanAction::Nothing);
    assert_eq!(lib.step(RescanEvent::TagRead(named("a", "/a.mp3"))), RescanAction::Nothing);
    assert_eq!(lib.step(RescanEvent::TagRead(named("b again", "/b.mp3"))), RescanAction::Nothing);
    assert_eq!(
        lib.step(RescanEvent::TagsDone),
        RescanAction::Hash(vec!["/b.mp3".to_string(), "/a.mp3".to_string()])
    );
    assert_eq!(
        lib.step(RescanEvent::Hashed { path: "/a.mp3".to_string(), hash: "11".to_string() }),
        RescanAction::Append(hashed("a", "/a.mp3", "11"))
    );
    assert_eq!(lib.step(RescanEvent::HashFailed), RescanAction::Nothing);
    assert_eq!(
        lib.step(RescanEvent::Hashed { path: "/gone.mp3".to_string(), hash: "22".to_string() }),
        RescanAction::Nothing
    );
    assert!(lib.loading());
    let settled = vec![hashed("a", "/a.mp3", "11"), named("b again", "/b.mp3")];
    assert_eq!(lib.step(RescanEvent::HashesDone), RescanAction::Persist(settled.clone()));
    assert!(!lib.loading());
    assert_eq!(lib.audio_tracks, settled);
    assert_eq!(lib.albums().len(), 1);
    assert_eq!(lib.albums()[0].tracks, settled);
}

#[test]
fn a_failed_walk_leaves_the_index() {
    let text = b"a;/a.mp3;1;;Album;Artist;;\n";
    let mut lib = LibraryClient::new(Some(&text[..]));
    assert_eq!(lib.step(RescanEvent::Requested { hard: false }), RescanAction::Walk);
    assert_eq!(lib.step(RescanEvent::WalkFailed), RescanAction::Nothing);
    assert!(!lib.loading());
    assert_eq!(lib.audio_tracks.len(), 1);
    assert_eq!(lib.albums().len(), 1);
    assert_eq!(lib.step(RescanEvent::Requested { hard: false }), RescanAction::Walk);
}

#[test]
fn events_of_a_rescan_mean_nothing_while_idle() {
    let mut lib = LibraryClient::new(None);
    lib.merge_track(named("a", "/a.mp3"));
    let events = vec![
        RescanEvent::WalkFailed,
        RescanEvent::TagRead(named("b", "/b.mp3")),
        RescanEvent::TagFailed,
        RescanEvent::TagsDone,
        RescanEvent::Hashed { path: "/a.mp3".to_string(), hash: "11".to_string() },
        RescanEvent::HashFailed,
        RescanEvent::HashesDone,
    ];
    for event in events {
        assert_eq!(lib.step(event), RescanAction::Nothing);
        assert!(!lib.loading());
        assert_eq!(lib.audio_tracks, vec![named("a", "/a.mp3")]);
        assert!(lib.albums().is_empty());
    }
}

#[test]
fn the_paths_of_the_tracks() {
    let mut lib = LibraryClient::new(None);
    lib.merge_track(named("a", "/a.mp3"));
    lib.merge_track(named("b", "/b.mp3"));
    assert_eq!(lib.paths(), vec!["/a.mp3".to_string(), "/b.mp3".to_string()]);
}

#[test]
fn tracks_with_the_hash_of_another_are_removed() {
    let kept = remove_duplicates(vec![
        hashed("1", "/d", "22"),
        named("2", "/c"),
        hashed("3", "/b", "22"),
        named("4", "/a"),
        hashed("5", "/e", ""),
        hashed("6", "/f", ""),
        hashed("7", "/g", "11"),
    ]);
    assert_eq!(
        kept,
        vec![
            named("4", "/a"),
            named("2", "/c"),
            hashed("1", "/d", "22"),
            hashed("5", "/e", ""),
            hashed("6", "/f", ""),
            hashed("7", "/g", "11"),
        ]
    );
}

#[test]
fn albums_are_cleaned_one_by_one() {
    let album = |tracks: Vec<AudioTrack>| Album { meta: named("", "").album_meta(), tracks };
    let cleaned = clean_albums(vec![
        album(vec![hashed("1", "/a", "aa"), hashed("2", "/b", "aa")]),
        album(vec![hashed("3", "/c", "aa")]),
        album(vec![]),
    ]);
    assert_eq!(
        cleaned,
        vec![album(vec![hashed("1", "/a", "aa")]), album(vec![hashed("3", "/c", "aa")]), album(vec![])]
    );
    let mut lib = LibraryClient::new(None);
    lib.albums = vec![album(vec![hashed("1", "/a", "aa"), hashed("2", "/b", "aa")])];
    lib.hash_cleanup();
    assert_eq!(lib.albums, vec![album(vec![hashed("1", "/a", "aa")])]);
}

#[test]
fn the_library_root_of_a_configuration() {
    let mut schema = DotfileSchema {
        general: GeneralSubSchema { use_mpd: false },
        library: Some(LibrarySubSchema { root: "/music".to_string() }),
        mpd: None,
    };
    assert_eq!(schema.library_root(), Ok("/music".to_string()));
    schema.library = None;
    assert_eq!(schema.library_root(), Err(AppError::BadConfig));
}

#[test]
fn the_bytes_of_a_command() {
    assert_eq!(MpdCommand::Status.as_bytes(), b"status\n".to_vec());
    assert_eq!(MpdCommand::Play(0).as_bytes(), b"play 0\n".to_vec());
    assert_eq!(MpdCommand::Play(12).as_bytes(), b"play 12\n".to_vec());
}

#[test]
fn the_selection_moves_within_the_list() {
    assert_eq!(select_next_track(None, 3), Some(0));
    assert_eq!(select_next_track(Some(0), 3), Some(1));
    assert_eq!(select_next_track(Some(2), 3), Some(2));
    assert_eq!(select_next_track(Some(usize::MAX), 3), Some(usize::MAX));
    assert_eq!(select_prev_track(None), Some(0));
    assert_eq!(select_prev_track(Some(0)), Some(0));
    assert_eq!(select_prev_track(Some(2)), Some(1));
    assert_eq!(select_first_track(), Some(0));
    assert_eq!(select_last_track(3), Some(2));
}

#[test]
fn q_quits() {
    assert_eq!(KeyEventHandler::init(Some('q')), KeyAction::Quit);
    assert_eq!(KeyEventHandler::init(Some('Q')), KeyAction::Nul);
    assert_eq!(KeyEventHandler::init(None), KeyAction::Nul);
}

#[test]
fn each_binding_hears_the_key_of_its_turn() {
    let mut handler = KeyEventHandler::new();
    assert_eq!(handler.listen(&vec![Some('q')]), KeyAction::Nul);
    handler.register('x', KeyAction::Nul);
    handler.register('q', KeyAction::Quit);
    assert_eq!(handler.listen(&vec![Some('q'), None]), KeyAction::Nul);
    assert_eq!(handler.listen(&vec![None, Some('q')]), KeyAction::Quit);
    assert_eq!(handler.listen(&vec![Some('x'), Some('q')]), KeyAction::Nul);
    assert_eq!(handler.listen(&vec![Some('a'), Some('q'), Some('q')]), KeyAction::Quit);
    assert_eq!(handler.listen(&vec![Some('a')]), KeyAction::Nul);
    assert_eq!(handler.listen(&vec![]), KeyAction::Nul);
}

#[test]
fn a_length_of_time_in_minutes_and_seconds() {
    assert_eq!(timestamp(None), "00:00");
    assert_eq!(timestamp(Some(0)), "0:0");
    assert_eq!(timestamp(Some(59)), "0:59");
    assert_eq!(timestamp(Some(61)), "1:1");
    assert_eq!(timestamp(Some(3725)), "62:5");
}

#[test]
fn a_random_queue_holds_twenty_different_tracks() {
    let mut lib = LibraryClient::new(None);
    for i in 0..50 {
        lib.audio_tracks.push(named("t", &format!("/m/{i}.mp3")));
    }
    lib.load_albums();
    let queue = lib.generate_random_queue();
    assert_eq!(queue.len(), 20);
    for (i, a) in queue.iter().enumerate() {
        assert!(lib.audio_tracks.contains(a));
        for b in &queue[i + 1..] {
            assert_ne!(a.path, b.path);
        }
    }
}

#[test]
fn a_random_queue_of_a_small_library_holds_all_tracks() {
    let mut lib = LibraryClient::new(None);
    assert!(lib.generate_random_queue().is_empty());
    for i in 0..3 {
        lib.audio_tracks.push(named("t", &format!("/m/{i}.mp3")));
    }
    lib.load_albums();
    let mut queue = lib.generate_random_queue();
    queue.sort_by(|a, b| a.path.cmp(&b.path));
    assert_eq!(queue, lib.audio_tracks);
}

#[test]
fn tracks_are_copied_from_their_places() {
    let (a, b, c) = (named("a", "/a"), named("b", "/b"), named("c", "/c"));
    let tracks = vec![&a, &b, &c];
    assert_eq!(tracks_at(&tracks, &vec![2, 0]), vec![c.clone(), a.clone()]);
    assert_eq!(tracks_at(&tracks, &vec![]), Vec::new());
}

#[test]
fn cover_images_are_png_or_jpg() {
    assert!(is_cover_image("/m/cover.png"));
    assert!(is_cover_image("/m/cover.jpg"));
    assert!(!is_cover_image("/m/cover.PNG"));
    assert!(!is_cover_image("/m/cover.jpeg"));
    assert!(!is_cover_image("/m/cover"));
    let paths: Vec<String> =
        ["/m/a.mp3", "/m/b.jpg", "/m/c.png"].iter().map(|p| p.to_string()).collect();
    assert_eq!(first_cover(&paths), Some(1));
    assert_eq!(first_cover(&paths[..1].to_vec()), None);
    assert_eq!(first_cover(&Vec::new()), None);
}

fn lines(text: &[&str]) -> Vec<String> {
    text.iter().map(|l| l.to_string()).collect()
}

#[test]
fn a_text_begins_with_its_prefixes() {
    assert!(starts_with("OK MPD 0.23", "OK MPD "));
    assert!(starts_with("ACK", "ACK"));
    assert!(starts_with("anything", ""));
    assert!(!starts_with("OK", "OK MPD "));
    assert!(!starts_with("ok MPD 0.23", "OK MPD "));
    assert!(starts_with("été", "ét"));
    assert!(!starts_with("ete", "ét"));
}

#[test]
fn the_daemon_greets() {
    assert_eq!(check_greeting(&"OK MPD 0.23.5".to_string()), Ok(()));
    assert_eq!(
        check_greeting(&"ACK no".to_string()),
        Err(AppError::MpdClient(MpdError::MpdClient("[init connection] ACK no".to_string())))
    );
}

#[test]
fn a_reply_ends_with_ok() {
    assert_eq!(
        read_reply(lines(&["volume: 50", "state: play", "OK", "late"])),
        Ok(lines(&["volume: 50", "state: play"]))
    );
    assert_eq!(read_reply(lines(&["OK"])), Ok(Vec::new()));
    assert_eq!(read_reply(lines(&["a", "b"])), Ok(lines(&["a", "b"])));
    assert_eq!(read_reply(Vec::new()), Ok(Vec::new()));
    assert_eq!(read_reply(lines(&["OKAY", "OK"])), Ok(lines(&["OKAY"])));
}

#[test]
fn a_reply_that_refuses_is_an_error() {
    assert_eq!(
        read_reply(lines(&["a", "ACK [50@0] {play} No such song", "OK"])),
        Err(AppError::MpdClient(MpdError::MpdProtocol(
            lines(&["a"]),
            "ACK [50@0] {play} No such song".to_string()
        )))
    );
    assert_eq!(read_reply(lines(&["OK", "ACK late"])), Ok(Vec::new()));
}

#[test]
fn a_failed_walk_of_a_hard_rescan_leaves_the_index() {
    let text = b"a;/a.mp3;1;;Album;Artist;;\nb;/b.mp3;2;;Album;Artist;;\n";
    let mut lib = LibraryClient::new(Some(&text[..]));
    let before = lib.snapshot();
    assert_eq!(before.len(), 2);
    assert_eq!(lib.step(RescanEvent::Requested { hard: true }), RescanAction::Walk);
    assert!(lib.audio_tracks.is_empty());
    assert_eq!(lib.kept, Some(before.clone()));
    assert_eq!(lib.step(RescanEvent::WalkFailed), RescanAction::Nothing);
    assert!(!lib.loading());
    assert_eq!(lib.audio_tracks, before);
    assert_eq!(lib.kept, None);
    assert_eq!(lib.albums().len(), 1);
    assert_eq!(lib.albums()[0].tracks, before);
}

#[test]
fn a_rescan_given_up_after_tracks_were_read_goes_back() {
    let text = b"a;/a.mp3;1;;Album;Artist;;\n";
    for hard in [false, true] {
        let mut lib = LibraryClient::new(Some(&text[..]));
        let before = lib.snapshot();
        assert_eq!(lib.step(RescanEvent::Requested { hard }), RescanAction::Walk);
        assert_eq!(lib.step(RescanEvent::TagRead(named("new", "/new.mp3"))), RescanAction::Nothing);
        assert_eq!(lib.step(RescanEvent::TagRead(named("again", "/a.mp3"))), RescanAction::Nothing);
        lib.abort_update();
        assert!(!lib.loading());
        assert_eq!(lib.audio_tracks, before);
        assert_eq!(lib.kept, None);
        assert_eq!(lib.albums().len(), 1);
        assert_eq!(lib.step(RescanEvent::Requested { hard }), RescanAction::Walk);
    }
}

#[test]
fn a_rescan_that_ends_keeps_nothing_aside() {
    let text = b"a;/a.mp3;1;;Album;Artist;;\n";
    let mut lib = LibraryClient::new(Some(&text[..]));
    assert_eq!(lib.kept, None);
    assert_eq!(lib.step(RescanEvent::Requested { hard: true }), RescanAction::Walk);
    assert_eq!(lib.step(RescanEvent::TagRead(named("b", "/b.mp3"))), RescanAction::Nothing);
    assert_eq!(lib.step(RescanEvent::TagsDone), RescanAction::Hash(vec!["/b.mp3".to_string()]));
    assert_eq!(
        lib.step(RescanEvent::HashesDone),
        RescanAction::Persist(vec![named("b", "/b.mp3")])
    );
    assert_eq!(lib.kept, None);
    assert_eq!(lib.audio_tracks, vec![named("b", "/b.mp3")]);
    lib.abort_update();
    assert_eq!(lib.audio_tracks, vec![named("b", "/b.mp3")]);
}
