//! The library client's state: the flat list of tracks, the album index,
//! the loading flag, and the steps of a rescan.

use crate::cache::{loaded, try_load_cache};
use crate::index::{
    album_index, clean_albums, cleaned, flat, index_in_order, try_load_cache_albums, Album,
    AlbumBucket,
};
use crate::order::{
    lemma_stable_sort, lemma_stable_sort_contains, ordered, reversed, stable_sort,
};
use crate::track::{sort_tracks, track_order, unique_paths, AudioTrack, TrackModel};
use core::time::Duration;
use vstd::prelude::*;

verus! {

/// What follows the last track of the queue.
#[derive(Debug, Clone, Copy, PartialEq, Eq, Structural)]
pub enum RepeatMode {
    Off,
    One,
    All,
}

impl Default for RepeatMode {
    fn default() -> (r: RepeatMode)
        ensures
            r == RepeatMode::Off,
    {
        RepeatMode::Off
    }
}

/// The mode that follows `mode` when the user cycles through them.
pub open spec fn next_repeat(mode: RepeatMode) -> RepeatMode {
    match mode {
        RepeatMode::Off => RepeatMode::One,
        RepeatMode::One => RepeatMode::All,
        RepeatMode::All => RepeatMode::Off,
    }
}

/// The track that is playing, and how long it lasts.
#[derive(Debug)]
pub struct CurrentTrack {
    pub data: AudioTrack,
    pub duration: Duration,
}

/// The library of tracks on disk: what is indexed, and whether a rescan is
/// under way.
#[derive(Debug)]
pub struct LibraryClient {
    /// The flat list of tracks.
    pub audio_tracks: Vec<AudioTrack>,
    /// The album index, built from the flat list.
    pub albums: Vec<Album>,
    pub current_track: Option<CurrentTrack>,
    pub shuffle: bool,
    pub repeat: RepeatMode,
    /// Whether a rescan is under way.
    pub loading: bool,
    /// The flat list as it was when the rescan that is under way was
    /// asked for: what the library goes back to if the rescan fails.
    pub kept: Option<Vec<AudioTrack>>,
}

/// The first place in `s` of a track with the path `path`.
pub open spec fn path_index(s: Seq<TrackModel>, path: Seq<char>) -> Option<int>
    decreases s.len(),
{
    if s.len() == 0 {
        None
    } else {
        match path_index(s.drop_last(), path) {
            Some(i) => Some(i),
            None => if s.last().path == path {
                Some(s.len() - 1)
            } else {
                None
            },
        }
    }
}

/// `s` with `t` merged in by path: `t` takes the place of the track with
/// its path, or goes to the end where there is none.
pub open spec fn merged(s: Seq<TrackModel>, t: TrackModel) -> Seq<TrackModel> {
    match path_index(s, t.path) {
        Some(i) => s.update(i, t),
        None => s.push(t),
    }
}

/// The tracks of `s` merged by path one after the other: of the tracks
/// with one path the last one given stays, at the place of the first.
pub open spec fn merged_all(s: Seq<TrackModel>) -> Seq<TrackModel>
    decreases s.len(),
{
    if s.len() == 0 {
        s
    } else {
        merged(merged_all(s.drop_last()), s.last())
    }
}

/// Whether some track of `s` has the path `path`.
pub open spec fn has_path(s: Seq<TrackModel>, path: Seq<char>) -> bool {
    exists|i: int| 0 <= i < s.len() && (#[trigger] s[i]).path == path
}

/// `path_index` finds the first track with the path, and finds one
/// wherever there is one.
pub proof fn lemma_path_index(s: Seq<TrackModel>, path: Seq<char>)
    ensures
        match path_index(s, path) {
            Some(i) => 0 <= i < s.len() && s[i].path == path && forall|j: int|
                0 <= j < i ==> (#[trigger] s[j]).path != path,
            None => forall|j: int| 0 <= j < s.len() ==> (#[trigger] s[j]).path != path,
        },
    decreases s.len(),
{
    if s.len() > 0 {
        let front = s.drop_last();
        lemma_path_index(front, path);
        match path_index(front, path) {
            Some(i) => {
                assert(front[i] == s[i]);
                assert forall|j: int| 0 <= j < i implies (#[trigger] s[j]).path != path by {
                    assert(front[j] == s[j]);
                }
            },
            None => {
                assert forall|j: int| 0 <= j < s.len() - 1 implies (#[trigger] s[j]).path
                    != path by {
                    assert(front[j] == s[j]);
                }
            },
        }
    }
}

/// Merging a track into tracks with unique paths keeps the paths unique,
/// keeps every path that was there, and adds the path of the track.
pub proof fn lemma_merged(s: Seq<TrackModel>, t: TrackModel)
    requires
        unique_paths(s),
    ensures
        unique_paths(merged(s, t)),
        merged(s, t).contains(t),
        forall|path: Seq<char>|
            has_path(merged(s, t), path) <==> (has_path(s, path) || path == t.path),
{
    lemma_path_index(s, t.path);
    let m = merged(s, t);
    match path_index(s, t.path) {
        Some(i) => {
            assert(m[i] == t);
            assert forall|a: int, b: int| 0 <= a < b < m.len() implies (#[trigger] m[a]).path != (
            #[trigger] m[b]).path by {
                assert(s[a].path != s[b].path);
                if a == i {
                    assert(m[b] == s[b]);
                    assert(s[i].path == t.path);
                } else if b == i {
                    assert(m[a] == s[a]);
                } else {
                    assert(m[a] == s[a] && m[b] == s[b]);
                }
            }
            assert forall|path: Seq<char>| has_path(m, path) <==> (has_path(s, path) || path
                == t.path) by {
                if has_path(m, path) {
                    let k = choose|k: int| 0 <= k < m.len() && (#[trigger] m[k]).path == path;
                    if k != i {
                        assert(s[k].path == path);
                    }
                }
                if has_path(s, path) {
                    let k = choose|k: int| 0 <= k < s.len() && (#[trigger] s[k]).path == path;
                    assert(m[k].path == path);
                }
                if path == t.path {
                    assert(m[i].path == path);
                }
            }
        },
        None => {
            assert(m[s.len() as int] == t);
            assert forall|a: int, b: int| 0 <= a < b < m.len() implies (#[trigger] m[a]).path != (
            #[trigger] m[b]).path by {
                if b < s.len() {
                    assert(m[a] == s[a] && m[b] == s[b]);
                } else {
                    assert(m[a] == s[a]);
                }
            }
            assert forall|path: Seq<char>| has_path(m, path) <==> (has_path(s, path) || path
                == t.path) by {
                if has_path(m, path) {
                    let k = choose|k: int| 0 <= k < m.len() && (#[trigger] m[k]).path == path;
                    if k < s.len() {
                        assert(s[k].path == path);
                    }
                }
                if has_path(s, path) {
                    let k = choose|k: int| 0 <= k < s.len() && (#[trigger] s[k]).path == path;
                    assert(m[k].path == path);
                }
                if path == t.path {
                    assert(m[s.len() as int].path == path);
                }
            }
        },
    }
}

/// Merging all tracks by path leaves no two tracks with one path, and a
/// track for every path that was given.
pub proof fn lemma_merged_all(s: Seq<TrackModel>)
    ensures
        unique_paths(merged_all(s)),
        merged_all(s).len() <= s.len(),
        forall|path: Seq<char>| has_path(merged_all(s), path) <==> has_path(s, path),
    decreases s.len(),
{
    if s.len() > 0 {
        let front = s.drop_last();
        lemma_merged_all(front);
        lemma_merged(merged_all(front), s.last());
        lemma_path_index(merged_all(front), s.last().path);
        assert forall|path: Seq<char>| has_path(merged_all(s), path) <==> has_path(s, path) by {
            if has_path(front, path) {
                let k = choose|k: int| 0 <= k < front.len() && (#[trigger] front[k]).path == path;
                assert(s[k].path == path);
            }
            if has_path(s, path) {
                let k = choose|k: int| 0 <= k < s.len() && (#[trigger] s[k]).path == path;
                if k < front.len() {
                    assert(front[k].path == path);
                } else {
                    assert(path == s.last().path);
                }
            }
            if path == s.last().path {
                assert(s[s.len() - 1].path == path);
            }
        }
    }
}

/// Of the tracks with one path the last one stays when all are merged: a
/// track stays if no later track has its path.
pub proof fn lemma_merged_all_keeps_last(s: Seq<TrackModel>, i: int)
    requires
        0 <= i < s.len(),
        forall|j: int| i < j < s.len() ==> (#[trigger] s[j]).path != s[i].path,
    ensures
        merged_all(s).contains(s[i]),
    decreases s.len(),
{
    let front = s.drop_last();
    let x = s.last();
    let m = merged_all(front);
    lemma_merged_all(front);
    lemma_merged(m, x);
    if i < s.len() - 1 {
        assert(front[i] == s[i]);
        assert forall|j: int| i < j < front.len() implies (#[trigger] front[j]).path
            != front[i].path by {
            assert(front[j] == s[j]);
        }
        lemma_merged_all_keeps_last(front, i);
        let k = choose|k: int| 0 <= k < m.len() && m[k] == s[i];
        assert(s[s.len() - 1].path != s[i].path);
        lemma_path_index(m, x.path);
        assert(merged(m, x)[k] == s[i]);
    }
}

/// The same of the settled list: after a rescan the track of a path is
/// the last one that was given for it.
pub proof fn lemma_settled_keeps_last(s: Seq<TrackModel>, i: int)
    requires
        0 <= i < s.len(),
        forall|j: int| i < j < s.len() ==> (#[trigger] s[j]).path != s[i].path,
    ensures
        settled(s).contains(s[i]),
{
    lemma_merged_all_keeps_last(s, i);
    lemma_stable_sort_contains(merged_all(s), track_order(), s[i]);
}

/// Tracks whose paths are unique have unique paths in every order.
pub proof fn lemma_sorted_keeps_unique_paths(s: Seq<TrackModel>)
    requires
        unique_paths(s),
    ensures
        unique_paths(stable_sort(s, track_order())),
    decreases s.len(),
{
    if s.len() > 0 {
        let front = s.drop_last();
        let x = s.last();
        assert forall|i: int, j: int| 0 <= i < j < front.len() implies (#[trigger] front[i]).path != (
        #[trigger] front[j]).path by {
            assert(front[i] == s[i] && front[j] == s[j]);
        }
        lemma_sorted_keeps_unique_paths(front);
        let placed = stable_sort(front, track_order());
        crate::order::lemma_insert_point(placed, x, track_order());
        let p = crate::order::insert_point(placed, x, track_order());
        let r = placed.insert(p, x);
        assert forall|k: int| 0 <= k < placed.len() implies (#[trigger] placed[k]).path != x.path by {
            assert(placed.contains(placed[k]));
            lemma_stable_sort_contains(front, track_order(), placed[k]);
            let q = choose|q: int| 0 <= q < front.len() && front[q] == placed[k];
            assert(s[q].path != s[s.len() - 1].path);
        }
        assert forall|i: int, j: int| 0 <= i < j < r.len() implies (#[trigger] r[i]).path != (
        #[trigger] r[j]).path by {
            let a = if i < p { i } else { i - 1 };
            let b = if j < p { j } else { j - 1 };
            if i == p {
                assert(r[j] == placed[b]);
            } else if j == p {
                assert(r[i] == placed[a]);
            } else {
                assert(r[i] == placed[a] && r[j] == placed[b]);
                assert(placed[a].path != placed[b].path);
            }
        }
    }
}

/// The place of the first track with the path `path`, if there is one.
pub fn find_path(tracks: &Vec<AudioTrack>, path: &String) -> (r: Option<usize>)
    ensures
        match r {
            Some(i) => path_index(tracks.deep_view(), path@) == Some(i as int),
            None => path_index(tracks.deep_view(), path@) is None,
        },
{
    let n = tracks.len();
    let mut i: usize = 0;
    while i < n
        invariant
            i <= n,
            n == tracks@.len(),
            forall|j: int| 0 <= j < i ==> (#[trigger] tracks.deep_view()[j]).path != path@,
        decreases n - i,
    {
        if tracks[i].path == *path {
            proof {
                lemma_path_index(tracks.deep_view(), path@);
                assert(tracks.deep_view()[i as int].path == path@);
            }
            return Some(i);
        }
        i += 1;
    }
    proof {
        lemma_path_index(tracks.deep_view(), path@);
    }
    None
}

/// Merges tracks by path, one after the other.
pub fn merge_tracks(tracks: Vec<AudioTrack>) -> (r: Vec<AudioTrack>)
    ensures
        r.deep_view() == merged_all(tracks.deep_view()),
        unique_paths(r.deep_view()),
{
    let ghost models = tracks.deep_view();
    let ghost n = models.len();
    let mut rest = reversed(tracks);
    let mut out: Vec<AudioTrack> = Vec::new();
    assert(out.deep_view() =~= merged_all(models.subrange(0, 0)));
    while rest.len() > 0
        invariant
            n == models.len(),
            rest@.len() <= n,
            forall|i: int|
                0 <= i < rest@.len() ==> (#[trigger] rest@[i]).deep_view() == models[n - 1 - i],
            out.deep_view() == merged_all(models.subrange(0, n - rest@.len())),
        decreases rest@.len(),
    {
        let ghost k = n - rest@.len();
        let ghost before = out.deep_view();
        let track = rest.pop().unwrap();
        proof {
            let next = models.subrange(0, k + 1);
            assert(next.drop_last() =~= models.subrange(0, k));
            assert(next.last() == track@);
        }
        proof {
            lemma_path_index(before, track@.path);
        }
        match find_path(&out, &track.path) {
            Some(i) => {
                out[i] = track;
                assert(out.deep_view() =~= before.update(i as int, track@));
            },
            None => {
                out.push(track);
                assert(out.deep_view() =~= before.push(track@));
            },
        }
    }
    assert(models.subrange(0, n as int) =~= models);
    proof {
        lemma_merged_all(models);
    }
    out
}

/// A copy of each of `tracks`, in their order.
pub fn clone_tracks(tracks: &Vec<AudioTrack>) -> (r: Vec<AudioTrack>)
    ensures
        r.deep_view() == tracks.deep_view(),
{
    let mut out: Vec<AudioTrack> = Vec::new();
    let n = tracks.len();
    let mut i: usize = 0;
    while i < n
        invariant
            i <= n,
            n == tracks@.len(),
            out@.len() == i,
            forall|j: int| 0 <= j < i ==> (#[trigger] out@[j])@ == tracks@[j]@,
        decreases n - i,
    {
        out.push(tracks[i].clone());
        i += 1;
    }
    assert(out.deep_view() =~= tracks.deep_view());
    out
}

/// The tracks after a rescan: merged by path, then sorted.
pub open spec fn settled(s: Seq<TrackModel>) -> Seq<TrackModel> {
    stable_sort(merged_all(s), track_order())
}

/// The track `t` with the content hash `hash`.
pub open spec fn with_hash(t: TrackModel, hash: Seq<char>) -> TrackModel {
    TrackModel { binary_hash: Some(hash), ..t }
}

/// The settled tracks are in order, no two of them have one path, and
/// they have a track for each path that was there and for no other.
pub proof fn lemma_settled(s: Seq<TrackModel>)
    ensures
        ordered(settled(s), track_order()),
        unique_paths(settled(s)),
        settled(s).len() <= s.len(),
        forall|path: Seq<char>| has_path(settled(s), path) <==> has_path(s, path),
{
    let m = merged_all(s);
    let r = settled(s);
    lemma_merged_all(s);
    crate::track::lemma_track_order_is_strict_weak();
    lemma_stable_sort(m, track_order());
    lemma_sorted_keeps_unique_paths(m);
    assert forall|path: Seq<char>| has_path(r, path) <==> has_path(s, path) by {
        if has_path(r, path) {
            let k = choose|k: int| 0 <= k < r.len() && (#[trigger] r[k]).path == path;
            assert(r.contains(r[k]));
            lemma_stable_sort_contains(m, track_order(), r[k]);
            let q = choose|q: int| 0 <= q < m.len() && m[q] == r[k];
            assert(m[q].path == path);
        }
        if has_path(m, path) {
            let k = choose|k: int| 0 <= k < m.len() && (#[trigger] m[k]).path == path;
            assert(m.contains(m[k]));
            lemma_stable_sort_contains(m, track_order(), m[k]);
            let q = choose|q: int| 0 <= q < r.len() && r[q] == m[k];
            assert(r[q].path == path);
        }
    }
}

impl LibraryClient {
    /// The flat list of tracks, as plain values.
    pub open spec fn tracks(&self) -> Seq<TrackModel> {
        self.audio_tracks.deep_view()
    }

    /// The album index, as plain values.
    pub open spec fn index(&self) -> Seq<AlbumBucket> {
        self.albums.deep_view()
    }

    /// The flat list that is kept for the case that the rescan under way
    /// fails, as plain values.
    pub open spec fn kept_tracks(&self) -> Option<Seq<TrackModel>> {
        match self.kept {
            Some(list) => Some(list.deep_view()),
            None => None,
        }
    }

    /// A library with the tracks of the cache file whose text is
    /// `contents`, or without tracks where there is no cache file; not
    /// loading, not shuffling, not repeating, nothing playing.
    pub fn new(contents: Option<&[u8]>) -> (r: LibraryClient)
        ensures
            r.tracks() == loaded(contents),
            r.index() == album_index(r.tracks()),
            !r.loading,
            !r.shuffle,
            r.repeat == RepeatMode::Off,
            r.current_track is None,
            r.kept is None,
    {
        let audio_tracks = try_load_cache(contents);
        let albums = try_load_cache_albums(clone_tracks(&audio_tracks));
        LibraryClient {
            audio_tracks,
            albums,
            current_track: None,
            shuffle: false,
            repeat: RepeatMode::Off,
            loading: false,
            kept: None,
        }
    }

    /// Sets the loading flag.
    pub fn set_loading(&mut self, loading: bool)
        ensures
            final(self).loading == loading,
            final(self).audio_tracks == old(self).audio_tracks,
            final(self).albums == old(self).albums,
            final(self).current_track == old(self).current_track,
            final(self).kept == old(self).kept,
            final(self).shuffle == old(self).shuffle,
            final(self).repeat == old(self).repeat,
    {
        self.loading = loading;
    }

    /// Whether a rescan is under way.
    pub fn loading(&self) -> (r: bool)
        ensures
            r == self.loading,
    {
        self.loading
    }

    /// The album index.
    pub fn albums(&self) -> (r: &Vec<Album>)
        ensures
            r == &self.albums,
    {
        &self.albums
    }

    /// The tracks of the album index, album after album.
    pub fn audio_tracks(&self) -> (r: Vec<&AudioTrack>)
        ensures
            r.deep_view() == flat(self.index()),
    {
        let ghost index = self.index();
        let mut out: Vec<&AudioTrack> = Vec::new();
        let n = self.albums.len();
        let mut i: usize = 0;
        assert(index.subrange(0, 0) =~= Seq::<AlbumBucket>::empty());
        assert(out.deep_view() =~= flat(index.subrange(0, 0)));
        while i < n
            invariant
                i <= n,
                n == self.albums@.len(),
                index == self.index(),
                out.deep_view() == flat(index.subrange(0, i as int)),
            decreases n - i,
        {
            let album = &self.albums[i];
            let m = album.tracks.len();
            let ghost done = out.deep_view();
            let mut k: usize = 0;
            assert(out.deep_view() =~= done + index[i as int].tracks.subrange(0, 0));
            while k < m
                invariant
                    k <= m,
                    m == album.tracks@.len(),
                    i < n,
                    n == self.albums@.len(),
                    index == self.index(),
                    album == &self.albums@[i as int],
                    out.deep_view() == done + index[i as int].tracks.subrange(0, k as int),
                decreases m - k,
            {
                let ghost before = out.deep_view();
                out.push(&album.tracks[k]);
                assert(out.deep_view() =~= before.push(album.tracks@[k as int]@));
                assert(index[i as int].tracks.subrange(0, k + 1) =~= index[i as int].tracks.subrange(
                    0,
                    k as int,
                ).push(album.tracks@[k as int]@));
                k += 1;
            }
            proof {
                let next = index.subrange(0, i + 1);
                assert(next.drop_last() =~= index.subrange(0, i as int));
                assert(next.last() == index[i as int]);
                assert(index[i as int].tracks.subrange(0, m as int) =~= index[i as int].tracks);
            }
            i += 1;
        }
        assert(index.subrange(0, n as int) =~= index);
        out
    }

    /// A copy of the flat list of tracks as it stands.
    pub fn snapshot(&self) -> (r: Vec<AudioTrack>)
        ensures
            r.deep_view() == self.tracks(),
    {
        clone_tracks(&self.audio_tracks)
    }

    /// Merges `track` into the flat list by its path: it takes the place
    /// of the track with the same path, or goes to the end.
    pub fn merge_track(&mut self, track: AudioTrack)
        ensures
            final(self).tracks() == merged(old(self).tracks(), track@),
            unique_paths(old(self).tracks()) ==> unique_paths(final(self).tracks()),
            final(self).albums == old(self).albums,
            final(self).loading == old(self).loading,
            final(self).current_track == old(self).current_track,
            final(self).kept == old(self).kept,
            final(self).shuffle == old(self).shuffle,
            final(self).repeat == old(self).repeat,
    {
        let ghost before = self.tracks();
        proof {
            lemma_path_index(before, track@.path);
            if unique_paths(before) {
                lemma_merged(before, track@);
            }
        }
        match find_path(&self.audio_tracks, &track.path) {
            Some(i) => {
                self.audio_tracks[i] = track;
                assert(self.tracks() =~= before.update(i as int, track@));
            },
            None => {
                self.audio_tracks.push(track);
                assert(self.tracks() =~= before.push(track@));
            },
        }
    }

    /// Writes the content hash `hash` into the track with the path `path`
    /// and says whether there is such a track.
    pub fn attach_hash(&mut self, path: &String, hash: String) -> (found: bool)
        ensures
            match path_index(old(self).tracks(), path@) {
                Some(i) => found && final(self).tracks() == old(self).tracks().update(
                    i,
                    with_hash(old(self).tracks()[i], hash@),
                ),
                None => !found && final(self).tracks() == old(self).tracks(),
            },
            unique_paths(old(self).tracks()) ==> unique_paths(final(self).tracks()),
            final(self).albums == old(self).albums,
            final(self).loading == old(self).loading,
            final(self).current_track == old(self).current_track,
            final(self).kept == old(self).kept,
            final(self).shuffle == old(self).shuffle,
            final(self).repeat == old(self).repeat,
    {
        let ghost before = self.tracks();
        proof {
            lemma_path_index(before, path@);
        }
        match find_path(&self.audio_tracks, path) {
            Some(i) => {
                self.audio_tracks[i].binary_hash = Some(hash);
                assert(self.tracks() =~= before.update(
                    i as int,
                    with_hash(before[i as int], hash@),
                ));
                proof {
                    let after = self.tracks();
                    if unique_paths(before) {
                        assert forall|a: int, b: int| 0 <= a < b < after.len() implies (
                        #[trigger] after[a]).path != (#[trigger] after[b]).path by {
                            assert(after[a].path == before[a].path);
                            assert(after[b].path == before[b].path);
                        }
                    }
                }
                true
            },
            None => false,
        }
    }

    /// Removes the tracks that share their path with a later one, and
    /// sorts what is left by the total order of tracks.
    pub fn dedup(&mut self)
        ensures
            final(self).tracks() == settled(old(self).tracks()),
            unique_paths(final(self).tracks()),
            ordered(final(self).tracks(), track_order()),
            final(self).albums == old(self).albums,
            final(self).loading == old(self).loading,
            final(self).current_track == old(self).current_track,
            final(self).kept == old(self).kept,
            final(self).shuffle == old(self).shuffle,
            final(self).repeat == old(self).repeat,
    {
        proof {
            lemma_settled(self.tracks());
        }
        let mut tracks: Vec<AudioTrack> = Vec::new();
        core::mem::swap(&mut self.audio_tracks, &mut tracks);
        self.audio_tracks = sort_tracks(merge_tracks(tracks));
    }

    /// Rebuilds the album index from the flat list of tracks.
    pub fn load_albums(&mut self)
        ensures
            final(self).index() == album_index(old(self).tracks()),
            index_in_order(final(self).index()),
            final(self).audio_tracks == old(self).audio_tracks,
            final(self).loading == old(self).loading,
            final(self).current_track == old(self).current_track,
            final(self).kept == old(self).kept,
            final(self).shuffle == old(self).shuffle,
            final(self).repeat == old(self).repeat,
    {
        self.albums = try_load_cache_albums(clone_tracks(&self.audio_tracks));
    }

    /// Asks for a rescan. While one is under way nothing changes and the
    /// answer is `false`. Otherwise the library is loading from now on,
    /// the flat list as it is now is kept aside, a hard rescan starts from
    /// an empty flat list, and the answer is `true`: the caller is to walk
    /// the library root.
    ///
    /// The album index stays as it is until the rescan ends. A rescan
    /// that fails goes back to the list that was kept, so that list and
    /// index are then those of before the request, for a hard rescan as
    /// for a soft one.
    pub fn update_lib(&mut self, hard_update: bool) -> (started: bool)
        ensures
            started == !old(self).loading,
            final(self).loading,
            !started ==> *final(self) == *old(self),
            started ==> final(self).kept_tracks() == Some(old(self).tracks()),
            final(self).tracks() == if started && hard_update {
                Seq::<TrackModel>::empty()
            } else {
                old(self).tracks()
            },
            final(self).albums == old(self).albums,
            final(self).current_track == old(self).current_track,
            final(self).shuffle == old(self).shuffle,
            final(self).repeat == old(self).repeat,
    {
        if self.loading {
            return false;
        }
        self.loading = true;
        let mut list: Vec<AudioTrack> = Vec::new();
        if hard_update {
            core::mem::swap(&mut self.audio_tracks, &mut list);
            assert(self.tracks() =~= Seq::<TrackModel>::empty());
        } else {
            list = clone_tracks(&self.audio_tracks);
        }
        self.kept = Some(list);
        true
    }

    /// Ends a rescan: settles the flat list of tracks, rebuilds the album
    /// index from it, and is idle again.
    pub fn finish_update(&mut self)
        ensures
            final(self).tracks() == settled(old(self).tracks()),
            unique_paths(final(self).tracks()),
            ordered(final(self).tracks(), track_order()),
            final(self).index() == album_index(final(self).tracks()),
            index_in_order(final(self).index()),
            !final(self).loading,
            final(self).kept is None,
            final(self).current_track == old(self).current_track,
            final(self).shuffle == old(self).shuffle,
            final(self).repeat == old(self).repeat,
    {
        self.dedup();
        self.load_albums();
        self.kept = None;
        self.loading = false;
    }

    /// Gives up the rescan that is under way, whatever it has done so far:
    /// the flat list is again the one that was kept when the rescan was
    /// asked for, the album index is still that of before, and the library
    /// is idle again. Where no list is kept, the flat list stays.
    pub fn abort_update(&mut self)
        ensures
            !final(self).loading,
            final(self).kept is None,
            final(self).tracks() == match old(self).kept_tracks() {
                Some(list) => list,
                None => old(self).tracks(),
            },
            old(self).kept is None ==> final(self).audio_tracks == old(self).audio_tracks,
            final(self).albums == old(self).albums,
            final(self).current_track == old(self).current_track,
            final(self).shuffle == old(self).shuffle,
            final(self).repeat == old(self).repeat,
    {
        let mut kept: Option<Vec<AudioTrack>> = None;
        core::mem::swap(&mut self.kept, &mut kept);
        match kept {
            Some(list) => {
                self.audio_tracks = list;
            },
            None => {},
        }
        self.loading = false;
    }

    /// Cleans up duplicate tracks with the same hash in every album of the
    /// index.
    pub fn hash_cleanup(&mut self)
        ensures
            final(self).index() == old(self).index().map_values(
                |a: AlbumBucket| cleaned(a),
            ),
            final(self).audio_tracks == old(self).audio_tracks,
            final(self).loading == old(self).loading,
            final(self).current_track == old(self).current_track,
            final(self).kept == old(self).kept,
            final(self).shuffle == old(self).shuffle,
            final(self).repeat == old(self).repeat,
    {
        let mut albums: Vec<Album> = Vec::new();
        core::mem::swap(&mut self.albums, &mut albums);
        self.albums = clean_albums(albums);
    }

    /// Moves on to the next repeat mode: off, one, all, and off again.
    pub fn cycle_repeat(&mut self)
        ensures
            final(self).repeat == next_repeat(old(self).repeat),
            final(self).audio_tracks == old(self).audio_tracks,
            final(self).albums == old(self).albums,
            final(self).loading == old(self).loading,
            final(self).current_track == old(self).current_track,
            final(self).kept == old(self).kept,
            final(self).shuffle == old(self).shuffle,
    {
        self.repeat = match self.repeat {
            RepeatMode::Off => RepeatMode::One,
            RepeatMode::One => RepeatMode::All,
            RepeatMode::All => RepeatMode::Off,
        };
    }

    /// Turns shuffling on if it is off, and off if it is on.
    pub fn toggle_shuffle(&mut self)
        ensures
            final(self).shuffle == !old(self).shuffle,
            final(self).audio_tracks == old(self).audio_tracks,
            final(self).albums == old(self).albums,
            final(self).loading == old(self).loading,
            final(self).current_track == old(self).current_track,
            final(self).kept == old(self).kept,
            final(self).repeat == old(self).repeat,
    {
        self.shuffle = !self.shuffle;
    }

    /// The repeat mode.
    pub fn get_repeat(&self) -> (r: RepeatMode)
        ensures
            r == self.repeat,
    {
        self.repeat
    }

    /// Whether the queue is shuffled.
    pub fn get_shuffle(&self) -> (r: bool)
        ensures
            r == self.shuffle,
    {
        self.shuffle
    }

    /// The track that is playing, if one is.
    pub fn current_track(&self) -> (r: Option<&CurrentTrack>)
        ensures
            r is Some == self.current_track is Some,
            r matches Some(t) ==> *t == self.current_track->0,
    {
        self.current_track.as_ref()
    }
}

} // verus!
