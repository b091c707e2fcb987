//! The rescan as a state machine: what the library does on each event of
//! a rescan, and what it asks its driver to do next.

use crate::index::{album_index, index_in_order};
use crate::date::SomeAlbumDate;
use crate::library::{
    find_path, has_path, lemma_path_index, lemma_settled, merged, path_index, settled, with_hash,
    LibraryClient,
};
use crate::order::reversed;
use crate::util::{is_supported_audio, path_file_name, supported_path};
use crate::order::ordered;
use crate::track::{track_order, unique_paths, AudioTrack, TrackModel};
use vstd::prelude::*;

verus! {

/// What happens during a rescan.
#[derive(Debug, PartialEq, Eq)]
pub enum RescanEvent {
    /// A rescan was asked for; a hard one starts from an empty flat list.
    Requested { hard: bool },
    /// The library root could not be walked: the rescan is given up, and
    /// the flat list is again the one of before the request.
    WalkFailed,
    /// The tags of one file were read.
    TagRead(AudioTrack),
    /// The tags of one file could not be read: the file is skipped.
    TagFailed,
    /// Every file of the walk has been read or skipped.
    TagsDone,
    /// The content of the file at `path` was hashed.
    Hashed { path: String, hash: String },
    /// The content of one file could not be hashed: it stays without hash.
    HashFailed,
    /// Every file has been hashed or left without hash.
    HashesDone,
}

/// What the driver of a rescan is to do next.
#[derive(Debug, PartialEq, Eq)]
pub enum RescanAction {
    /// Nothing: the event was taken in, or had no meaning in this state.
    Nothing,
    /// Nothing: a rescan is under way already, and none was started.
    Rejected,
    /// Walk the library root and read the tags of each supported file.
    Walk,
    /// Hash the contents of the files at these paths.
    Hash(Vec<String>),
    /// Append the cache record of this track to the cache file.
    Append(AudioTrack),
    /// Write these tracks to the cache file in full, then resolve the
    /// collisions in the file.
    Persist(Vec<AudioTrack>),
}

/// The paths of tracks, in their order.
pub open spec fn paths_of(tracks: Seq<TrackModel>) -> Seq<Seq<char>> {
    tracks.map_values(|t: TrackModel| t.path)
}

impl LibraryClient {
    /// Whether everything but the tracks, the album index and the loading
    /// flag is as in `other`.
    pub open spec fn same_playback(&self, other: &LibraryClient) -> bool {
        &&& self.current_track == other.current_track
        &&& self.shuffle == other.shuffle
        &&& self.repeat == other.repeat
    }

    /// The paths of the flat list of tracks.
    pub fn paths(&self) -> (r: Vec<String>)
        ensures
            r.deep_view() == paths_of(self.tracks()),
    {
        let mut out: Vec<String> = Vec::new();
        let n = self.audio_tracks.len();
        let mut i: usize = 0;
        while i < n
            invariant
                i <= n,
                n == self.audio_tracks@.len(),
                out@.len() == i,
                forall|j: int| 0 <= j < i ==> (#[trigger] out@[j])@ == self.audio_tracks@[j].path@,
            decreases n - i,
        {
            out.push(self.audio_tracks[i].path.clone());
            i += 1;
        }
        assert(out.deep_view() =~= paths_of(self.tracks()));
        out
    }

    /// Takes in one event of a rescan and says what is to be done next.
    ///
    /// While idle, only a request has an effect: the library is loading
    /// from then on, the flat list is kept aside, a hard request starts
    /// from an empty flat list, and the root is to be walked. While
    /// loading, a request is rejected and changes nothing; a failed walk
    /// ends the rescan with the flat list and the index of before the
    /// request; a track that was read is merged into the flat list by its
    /// path; when all are read their files are to be hashed; a hash is
    /// written into the track with its path, which is then to be appended
    /// to the cache; and when all are hashed the flat list is settled, the
    /// album index is rebuilt from it, the library is idle again and the
    /// cache is to be written. A file that failed is passed over.
    pub fn step(&mut self, event: RescanEvent) -> (action: RescanAction)
        ensures
            final(self).same_playback(old(self)),
            !old(self).loading && !(event is Requested) ==> {
                &&& action is Nothing
                &&& *final(self) == *old(self)
            },
            match event {
                RescanEvent::Requested { hard } => {
                    &&& final(self).loading
                    &&& final(self).albums == old(self).albums
                    &&& if old(self).loading {
                        action is Rejected && *final(self) == *old(self)
                    } else {
                        &&& action is Walk
                        &&& final(self).kept_tracks() == Some(old(self).tracks())
                        &&& final(self).tracks() == if hard {
                            Seq::<TrackModel>::empty()
                        } else {
                            old(self).tracks()
                        }
                    }
                },
                RescanEvent::WalkFailed => old(self).loading ==> {
                    &&& action is Nothing
                    &&& !final(self).loading
                    &&& final(self).kept is None
                    &&& final(self).tracks() == match old(self).kept_tracks() {
                        Some(list) => list,
                        None => old(self).tracks(),
                    }
                    &&& final(self).albums == old(self).albums
                },
                RescanEvent::TagRead(track) => old(self).loading ==> {
                    &&& action is Nothing
                    &&& final(self).loading
                    &&& final(self).kept == old(self).kept
                    &&& final(self).albums == old(self).albums
                    &&& final(self).tracks() == merged(old(self).tracks(), track@)
                },
                RescanEvent::TagFailed | RescanEvent::HashFailed => {
                    &&& action is Nothing
                    &&& *final(self) == *old(self)
                },
                RescanEvent::TagsDone => old(self).loading ==> {
                    &&& *final(self) == *old(self)
                    &&& action is Hash
                    &&& action->Hash_0.deep_view() == paths_of(old(self).tracks())
                },
                RescanEvent::Hashed { path, hash } => old(self).loading ==> {
                    &&& final(self).loading
                    &&& final(self).kept == old(self).kept
                    &&& final(self).albums == old(self).albums
                    &&& match path_index(old(self).tracks(), path@) {
                        Some(i) => {
                            &&& final(self).tracks() == old(self).tracks().update(
                                i,
                                with_hash(old(self).tracks()[i], hash@),
                            )
                            &&& action is Append
                            &&& action->Append_0@ == with_hash(old(self).tracks()[i], hash@)
                        },
                        None => action is Nothing && final(self).tracks() == old(self).tracks(),
                    }
                },
                RescanEvent::HashesDone => old(self).loading ==> {
                    &&& !final(self).loading
                    &&& final(self).kept is None
                    &&& final(self).tracks() == settled(old(self).tracks())
                    &&& unique_paths(final(self).tracks())
                    &&& ordered(final(self).tracks(), track_order())
                    &&& final(self).index() == album_index(final(self).tracks())
                    &&& index_in_order(final(self).index())
                    &&& action is Persist
                    &&& action->Persist_0.deep_view() == final(self).tracks()
                },
            },
    {
        match event {
            RescanEvent::Requested { hard } => {
                if self.update_lib(hard) {
                    RescanAction::Walk
                } else {
                    RescanAction::Rejected
                }
            },
            RescanEvent::WalkFailed => {
                if self.loading {
                    self.abort_update();
                }
                RescanAction::Nothing
            },
            RescanEvent::TagRead(track) => {
                if self.loading {
                    self.merge_track(track);
                }
                RescanAction::Nothing
            },
            RescanEvent::TagFailed => RescanAction::Nothing,
            RescanEvent::HashFailed => RescanAction::Nothing,
            RescanEvent::TagsDone => {
                if self.loading {
                    RescanAction::Hash(self.paths())
                } else {
                    RescanAction::Nothing
                }
            },
            RescanEvent::Hashed { path, hash } => {
                if !self.loading {
                    return RescanAction::Nothing;
                }
                proof {
                    lemma_path_index(self.tracks(), path@);
                }
                match find_path(&self.audio_tracks, &path) {
                    Some(i) => {
                        let ghost before = self.tracks();
                        self.audio_tracks[i].binary_hash = Some(hash);
                        assert(self.tracks() =~= before.update(
                            i as int,
                            with_hash(before[i as int], hash@),
                        ));
                        RescanAction::Append(self.audio_tracks[i].clone())
                    },
                    None => RescanAction::Nothing,
                }
            },
            RescanEvent::HashesDone => {
                if !self.loading {
                    return RescanAction::Nothing;
                }
                self.finish_update();
                RescanAction::Persist(self.snapshot())
            },
        }
    }
}

/// The track for a file of which only the path is known: it is named by
/// the final component of the path and has no metadata and no content
/// hash.
pub open spec fn raw_track(path: Seq<char>) -> TrackModel {
    TrackModel {
        name: path_file_name(path)->0,
        path: path,
        artist: None,
        album: None,
        album_artist: None,
        track_no: None,
        date: SomeAlbumDate(None),
        binary_hash: None,
    }
}

/// The tracks for the files of a walk: one for each file of a supported
/// audio format, in the order of the walk.
pub open spec fn raw_tracks(files: Seq<Seq<char>>) -> Seq<TrackModel>
    decreases files.len(),
{
    if files.len() == 0 {
        Seq::empty()
    } else if supported_path(files.last()) {
        raw_tracks(files.drop_last()).push(raw_track(files.last()))
    } else {
        raw_tracks(files.drop_last())
    }
}

/// The tracks for the files of a walk have the paths of the files of a
/// supported format, and no other.
pub proof fn lemma_raw_tracks_paths(files: Seq<Seq<char>>, path: Seq<char>)
    ensures
        has_path(raw_tracks(files), path) <==> (files.contains(path) && supported_path(path)),
    decreases files.len(),
{
    if files.len() > 0 {
        let front = files.drop_last();
        let last = files.last();
        let tracks = raw_tracks(files);
        lemma_raw_tracks_paths(front, path);
        if has_path(tracks, path) {
            let k = choose|k: int| 0 <= k < tracks.len() && (#[trigger] tracks[k]).path == path;
            if k < raw_tracks(front).len() {
                assert(raw_tracks(front)[k].path == path);
                let j = choose|j: int| 0 <= j < front.len() && front[j] == path;
                assert(files[j] == path);
            } else {
                assert(files[files.len() - 1] == path);
            }
        }
        if files.contains(path) && supported_path(path) {
            let j = choose|j: int| 0 <= j < files.len() && files[j] == path;
            if j < front.len() {
                assert(front[j] == path);
                let k = choose|k: int|
                    0 <= k < raw_tracks(front).len() && (#[trigger] raw_tracks(front)[k]).path == path;
                assert(tracks[k].path == path);
            } else {
                assert(tracks[tracks.len() - 1].path == path);
            }
        }
    }
}

/// What a rescan of an empty library holds after a walk over `files`,
/// before the tags are read.
pub open spec fn indexed(files: Seq<Seq<char>>) -> Seq<TrackModel> {
    settled(raw_tracks(files))
}

/// A rescan of an empty library indexes exactly the files of the walk
/// that have a supported format: each of them once, in the total order of
/// tracks, and no other file.
pub proof fn lemma_walk_indexes_supported_files(files: Seq<Seq<char>>)
    ensures
        forall|path: Seq<char>| #[trigger]
            has_path(indexed(files), path) <==> (files.contains(path) && supported_path(path)),
        unique_paths(indexed(files)),
        ordered(indexed(files), track_order()),
{
    lemma_settled(raw_tracks(files));
    assert forall|path: Seq<char>| #[trigger]
        has_path(indexed(files), path) <==> (files.contains(path) && supported_path(path)) by {
        lemma_raw_tracks_paths(files, path);
    }
}

impl LibraryClient {
    /// Takes the files of a walk into the flat list of tracks, knowing
    /// only their paths: a hard update empties the list first; then each
    /// file of a supported format is added as a track named by its file
    /// name, and the list is settled. Of two tracks with one path the
    /// later one stays, so a file of the walk takes the place of the track
    /// that the list had for it.
    pub fn load_all_tracks_raw(&mut self, files: Vec<String>, hard_update: bool)
        ensures
            final(self).tracks() == settled(
                (if hard_update {
                    Seq::<TrackModel>::empty()
                } else {
                    old(self).tracks()
                }) + raw_tracks(files.deep_view()),
            ),
            unique_paths(final(self).tracks()),
            ordered(final(self).tracks(), track_order()),
            final(self).albums == old(self).albums,
            final(self).loading == old(self).loading,
            final(self).kept == old(self).kept,
            final(self).same_playback(old(self)),
    {
        if hard_update {
            self.audio_tracks.clear();
        }
        let ghost base = self.tracks();
        let ghost whole = files.deep_view();
        let ghost n = whole.len();
        let mut rest = reversed(files);
        proof {
            assert(base =~= if hard_update {
                Seq::<TrackModel>::empty()
            } else {
                old(self).tracks()
            });
            assert(whole.subrange(0, 0) =~= Seq::<Seq<char>>::empty());
            assert(base + raw_tracks(whole.subrange(0, 0)) =~= base);
        }
        while rest.len() > 0
            invariant
                n == whole.len(),
                rest@.len() <= n,
                forall|i: int| 0 <= i < rest@.len() ==> (#[trigger] rest@[i])@ == whole[n - 1 - i],
                self.tracks() == base + raw_tracks(whole.subrange(0, n - rest@.len())),
                self.albums == old(self).albums,
                self.loading == old(self).loading,
                self.kept == old(self).kept,
                self.same_playback(old(self)),
            decreases rest@.len(),
        {
            let ghost k = n - rest@.len();
            let ghost before = self.tracks();
            let path = rest.pop().unwrap();
            proof {
                let next = whole.subrange(0, k + 1);
                assert(next.drop_last() =~= whole.subrange(0, k));
                assert(next.last() == path@);
            }
            if is_supported_audio(path.as_str()) {
                let track = AudioTrack::new(path);
                self.audio_tracks.push(track);
                assert(self.tracks() =~= before.push(raw_track(path@)));
                assert(base + raw_tracks(whole.subrange(0, k)).push(raw_track(path@)) =~= (base
                    + raw_tracks(whole.subrange(0, k))).push(raw_track(path@)));
            }
        }
        assert(whole.subrange(0, n as int) =~= whole);
        self.dedup();
    }
}

} // verus!
