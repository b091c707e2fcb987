//! The album index: tracks grouped by album key, the albums in the order
//! of their keys and the tracks of each album in the order of tracks.

use crate::order::{
    dedup_by, drop_repeats, lemma_stable_sort, lemma_stable_sort_contains, likeness, ordered,
    ranking, reversed, sort_by, stable_sort, strict_weak_order, Likeness, Ranking,
};
use crate::text::text_less;
use crate::track::{
    album_lt, album_of, lemma_album_lt_total, lemma_album_lt_transitive, lemma_track_lt_total,
    lemma_track_lt_transitive, opt_text_lt, same_rank, sort_tracks, track_lt, track_order,
    AlbumMeta, AlbumModel, AudioTrack, TrackModel,
};
use vstd::prelude::*;

verus! {

/// One album of the index: its key and its tracks.
#[derive(Debug, PartialEq, Eq)]
pub struct Album {
    pub meta: AlbumMeta,
    pub tracks: Vec<AudioTrack>,
}

/// What an album of the index holds, as plain values.
pub ghost struct AlbumBucket {
    pub key: AlbumModel,
    pub tracks: Seq<TrackModel>,
}

impl DeepView for Album {
    type V = AlbumBucket;

    open spec fn deep_view(&self) -> AlbumBucket {
        AlbumBucket { key: self.meta@, tracks: self.tracks.deep_view() }
    }
}

/// The order in which the index holds tracks: by album key, and within an
/// album by the total order of tracks.
pub open spec fn index_lt(a: TrackModel, b: TrackModel) -> bool {
    if album_of(a) != album_of(b) {
        album_lt(album_of(a), album_of(b))
    } else {
        track_lt(a, b)
    }
}

/// The order of the index as a ranking.
pub struct IndexOrder;

impl Ranking<AudioTrack> for IndexOrder {
    open spec fn lt(a: TrackModel, b: TrackModel) -> bool {
        index_lt(a, b)
    }

    fn less(a: &AudioTrack, b: &AudioTrack) -> (r: bool) {
        let x = a.album_meta();
        let y = b.album_meta();
        if !x.same(&y) {
            x.is_before(&y)
        } else {
            a.is_before(b)
        }
    }
}

/// The order of the index as a relation.
pub open spec fn index_order() -> spec_fn(TrackModel, TrackModel) -> bool {
    ranking::<AudioTrack, IndexOrder>()
}

/// Tracks cut into albums: each run of neighbours with the same album key
/// is one album.
pub open spec fn runs(s: Seq<TrackModel>) -> Seq<AlbumBucket>
    decreases s.len(),
{
    if s.len() == 0 {
        Seq::empty()
    } else {
        let front = runs(s.drop_last());
        let t = s.last();
        if front.len() > 0 && front.last().key == album_of(t) {
            front.update(
                front.len() - 1,
                AlbumBucket { key: album_of(t), tracks: front.last().tracks.push(t) },
            )
        } else {
            front.push(AlbumBucket { key: album_of(t), tracks: seq![t] })
        }
    }
}

/// The album index of `tracks`: the tracks sorted by album key and then
/// by the order of tracks, and cut into albums.
pub open spec fn album_index(tracks: Seq<TrackModel>) -> Seq<AlbumBucket> {
    runs(stable_sort(tracks, index_order()))
}

/// The tracks of all albums of an index, one album after the other.
pub open spec fn flat(index: Seq<AlbumBucket>) -> Seq<TrackModel>
    decreases index.len(),
{
    if index.len() == 0 {
        Seq::empty()
    } else {
        flat(index.drop_last()) + index.last().tracks
    }
}

/// Of two tracks either the ordering keys are all equal, or exactly one
/// comes before the other in the order of the index.
pub proof fn lemma_index_lt_total(a: TrackModel, b: TrackModel)
    ensures
        same_rank(a, b) || index_lt(a, b) || index_lt(b, a),
        !(index_lt(a, b) && index_lt(b, a)),
        same_rank(a, b) ==> !index_lt(a, b),
{
    lemma_album_lt_total(album_of(a), album_of(b));
    lemma_track_lt_total(a, b);
}

/// The order of the index is transitive.
pub proof fn lemma_index_lt_transitive(a: TrackModel, b: TrackModel, c: TrackModel)
    requires
        index_lt(a, b),
        index_lt(b, c),
    ensures
        index_lt(a, c),
{
    let (x, y, z) = (album_of(a), album_of(b), album_of(c));
    lemma_album_lt_total(x, y);
    lemma_album_lt_total(y, z);
    lemma_album_lt_total(x, z);
    if x != y && y != z {
        lemma_album_lt_transitive(x, y, z);
    } else if x == y && y == z {
        lemma_track_lt_transitive(a, b, c);
    }
}

/// The order of the index is a strict weak order.
pub proof fn lemma_index_order_is_strict_weak()
    ensures
        strict_weak_order(index_order()),
{
    let lt = index_order();
    assert forall|a: TrackModel| !#[trigger] lt(a, a) by {
        lemma_index_lt_total(a, a);
    }
    assert forall|a: TrackModel, b: TrackModel, c: TrackModel| #[trigger]
        lt(a, b) && #[trigger] lt(b, c) implies lt(a, c) by {
        lemma_index_lt_transitive(a, b, c);
    }
    assert forall|a: TrackModel, b: TrackModel, c: TrackModel| !#[trigger] lt(a, b) && !#[trigger] lt(
        b,
        c,
    ) implies !lt(a, c) by {
        lemma_index_lt_total(a, b);
        if index_lt(a, c) {
            if index_lt(b, a) {
                lemma_index_lt_transitive(b, a, c);
            } else {
                assert(same_rank(a, b));
                assert(album_of(a) == album_of(b));
                assert(index_lt(b, c) == index_lt(a, c));
            }
        }
    }
}

/// Whether an index is in order: the keys of its albums ascend strictly,
/// no album is empty, every track has the key of its album, and the tracks
/// of each album are in the order of tracks.
pub open spec fn index_in_order(index: Seq<AlbumBucket>) -> bool {
    &&& forall|i: int, j: int|
        0 <= i < j < index.len() ==> album_lt((#[trigger] index[i]).key, (#[trigger] index[j]).key)
    &&& forall|i: int| 0 <= i < index.len() ==> (#[trigger] index[i]).tracks.len() > 0
    &&& forall|i: int, k: int|
        0 <= i < index.len() && 0 <= k < index[i].tracks.len() ==> album_of(
            #[trigger] index[i].tracks[k],
        ) == index[i].key
    &&& forall|i: int| 0 <= i < index.len() ==> ordered((#[trigger] index[i]).tracks, track_order())
}

/// Whether every track of every album of `index` is an element of `s`.
pub open spec fn drawn_from(index: Seq<AlbumBucket>, s: Seq<TrackModel>) -> bool {
    forall|i: int, k: int|
        0 <= i < index.len() && 0 <= k < index[i].tracks.len() ==> s.contains(
            #[trigger] index[i].tracks[k],
        )
}

/// Cutting into albums loses and adds no track and keeps their order.
pub proof fn lemma_runs_flat(s: Seq<TrackModel>)
    ensures
        flat(runs(s)) == s,
    decreases s.len(),
{
    if s.len() > 0 {
        let front = s.drop_last();
        let idx0 = runs(front);
        let idx = runs(s);
        let t = s.last();
        lemma_runs_flat(front);
        if idx0.len() > 0 && idx0.last().key == album_of(t) {
            assert(idx.drop_last() =~= idx0.drop_last());
            assert(flat(idx) =~= (flat(idx0.drop_last()) + idx0.last().tracks).push(t));
        } else {
            assert(idx.drop_last() =~= idx0);
            assert(flat(idx) =~= flat(idx0) + seq![t]);
        }
        assert(front.push(t) =~= s);
    }
}

/// The albums cut from a list in the order of the index are in order, and
/// their tracks are tracks of the list.
pub proof fn lemma_runs_in_order(s: Seq<TrackModel>)
    requires
        ordered(s, index_order()),
    ensures
        index_in_order(runs(s)),
        drawn_from(runs(s), s),
    decreases s.len(),
{
    if s.len() > 0 {
        let front = s.drop_last();
        let idx0 = runs(front);
        let idx = runs(s);
        let t = s.last();
        let n = s.len() - 1;
        assert forall|i: int, j: int| 0 <= i < j < front.len() implies !index_order()(
            #[trigger] front[j],
            #[trigger] front[i],
        ) by {
            assert(front[i] == s[i] && front[j] == s[j]);
        }
        lemma_runs_in_order(front);
        // every track placed so far does not come after `t`
        assert forall|i: int, k: int|
            0 <= i < idx0.len() && 0 <= k < idx0[i].tracks.len() implies !index_lt(
            t,
            #[trigger] idx0[i].tracks[k],
        ) && s.contains(idx0[i].tracks[k]) by {
            let u = idx0[i].tracks[k];
            assert(front.contains(u));
            let p = choose|p: int| 0 <= p < front.len() && front[p] == u;
            assert(s[p] == u);
            assert(!index_order()(s[n], s[p]));
        }
        if idx0.len() > 0 && idx0.last().key == album_of(t) {
            let last = idx0.len() - 1;
            let old_tracks = idx0[last].tracks;
            let new_tracks = old_tracks.push(t);
            assert(idx[last].tracks == new_tracks);
            assert forall|i: int, j: int| 0 <= i < j < idx.len() implies album_lt(
                (#[trigger] idx[i]).key,
                (#[trigger] idx[j]).key,
            ) by {
                assert(idx[i].key == idx0[i].key && idx[j].key == idx0[j].key);
            }
            assert forall|i: int, k: int|
                0 <= i < idx.len() && 0 <= k < idx[i].tracks.len() implies album_of(
                #[trigger] idx[i].tracks[k],
            ) == idx[i].key && s.contains(idx[i].tracks[k]) by {
                if i < last {
                    assert(idx[i] == idx0[i]);
                    assert(idx[i].tracks[k] == idx0[i].tracks[k]);
                } else if k < old_tracks.len() {
                    assert(idx[i].tracks[k] == idx0[last].tracks[k]);
                } else {
                    assert(idx[i].tracks[k] == s[n]);
                }
            }
            assert forall|i: int| 0 <= i < idx.len() implies ordered(
                (#[trigger] idx[i]).tracks,
                track_order(),
            ) by {
                if i < last {
                    assert(idx[i] == idx0[i]);
                } else {
                    assert(ordered(idx0[last].tracks, track_order()));
                    assert forall|a: int, b: int| 0 <= a < b < new_tracks.len() implies !track_order()(
                        #[trigger] new_tracks[b],
                        #[trigger] new_tracks[a],
                    ) by {
                        if b < old_tracks.len() {
                            assert(new_tracks[a] == old_tracks[a] && new_tracks[b] == old_tracks[b]);
                        } else {
                            assert(new_tracks[a] == idx0[last].tracks[a]);
                            assert(!index_lt(t, idx0[last].tracks[a]));
                            assert(album_of(idx0[last].tracks[a]) == idx0[last].key);
                        }
                    }
                }
            }
            assert forall|i: int| 0 <= i < idx.len() implies (#[trigger] idx[i]).tracks.len() > 0 by {
                if i < last {
                    assert(idx[i] == idx0[i]);
                }
            }
        } else {
            let m = idx0.len() as int;
            assert(idx[m].tracks =~= seq![t]);
            assert forall|i: int, j: int| 0 <= i < j < idx.len() implies album_lt(
                (#[trigger] idx[i]).key,
                (#[trigger] idx[j]).key,
            ) by {
                if j < m {
                    assert(idx[i] == idx0[i] && idx[j] == idx0[j]);
                } else {
                    assert(idx[i] == idx0[i]);
                    let u = idx0[m - 1].tracks[0];
                    assert(album_of(u) == idx0[m - 1].key);
                    assert(!index_lt(t, u));
                    lemma_album_lt_total(album_of(u), album_of(t));
                    assert(album_lt(idx0[m - 1].key, album_of(t)));
                    if i < m - 1 {
                        assert(album_lt(idx0[i].key, idx0[m - 1].key));
                        lemma_album_lt_transitive(idx0[i].key, idx0[m - 1].key, album_of(t));
                    }
                }
            }
            assert forall|i: int, k: int|
                0 <= i < idx.len() && 0 <= k < idx[i].tracks.len() implies album_of(
                #[trigger] idx[i].tracks[k],
            ) == idx[i].key && s.contains(idx[i].tracks[k]) by {
                if i < m {
                    assert(idx[i] == idx0[i]);
                    assert(idx[i].tracks[k] == idx0[i].tracks[k]);
                } else {
                    assert(idx[i].tracks[k] == s[n]);
                }
            }
            assert forall|i: int| 0 <= i < idx.len() implies ordered(
                (#[trigger] idx[i]).tracks,
                track_order(),
            ) && idx[i].tracks.len() > 0 by {
                if i < m {
                    assert(idx[i] == idx0[i]);
                }
            }
        }
    }
}

/// Every track among the tracks of an index stands in one of its albums.
pub proof fn lemma_flat_contains(index: Seq<AlbumBucket>, x: TrackModel)
    requires
        flat(index).contains(x),
    ensures
        exists|i: int| 0 <= i < index.len() && (#[trigger] index[i]).tracks.contains(x),
    decreases index.len(),
{
    if index.len() > 0 {
        let front = index.drop_last();
        let p = choose|p: int| 0 <= p < flat(index).len() && flat(index)[p] == x;
        if p < flat(front).len() {
            assert(flat(front)[p] == x);
            lemma_flat_contains(front, x);
            let i = choose|i: int| 0 <= i < front.len() && (#[trigger] front[i]).tracks.contains(x);
            assert(index[i] == front[i]);
        } else {
            assert(index.last().tracks[p - flat(front).len()] == x);
            assert(index[index.len() - 1].tracks.contains(x));
        }
    }
}

/// The album index is in order and holds the tracks it was built from,
/// each as often as it was given.
pub proof fn lemma_album_index(tracks: Seq<TrackModel>)
    ensures
        index_in_order(album_index(tracks)),
        flat(album_index(tracks)) == stable_sort(tracks, index_order()),
        flat(album_index(tracks)).to_multiset() == tracks.to_multiset(),
{
    lemma_index_order_is_strict_weak();
    lemma_stable_sort(tracks, index_order());
    let sorted = stable_sort(tracks, index_order());
    lemma_runs_in_order(sorted);
    lemma_runs_flat(sorted);
}

/// Tracks that share album artist, date and album stand in exactly one
/// album of the index: each track that was given stands in the album with
/// its key, and no other album has that key or holds a track with it.
pub proof fn lemma_one_album_per_key(tracks: Seq<TrackModel>, t: TrackModel)
    requires
        tracks.contains(t),
    ensures
        exists|i: int|
            0 <= i < album_index(tracks).len() && (#[trigger] album_index(tracks)[i]).key
                == album_of(t) && album_index(tracks)[i].tracks.contains(t),
        forall|i: int, j: int|
            0 <= i < album_index(tracks).len() && 0 <= j < album_index(tracks).len() && (
            #[trigger] album_index(tracks)[i]).key == (#[trigger] album_index(tracks)[j]).key ==> i
                == j,
        forall|i: int, u: TrackModel|
            0 <= i < album_index(tracks).len() && #[trigger] album_index(tracks)[i].tracks.contains(
                u,
            ) ==> album_of(u) == album_index(tracks)[i].key,
{
    let idx = album_index(tracks);
    lemma_album_index(tracks);
    lemma_stable_sort_contains(tracks, index_order(), t);
    lemma_flat_contains(idx, t);
    let i = choose|i: int| 0 <= i < idx.len() && (#[trigger] idx[i]).tracks.contains(t);
    let k = choose|k: int| 0 <= k < idx[i].tracks.len() && idx[i].tracks[k] == t;
    assert(album_of(idx[i].tracks[k]) == idx[i].key);
    assert forall|a: int, b: int|
        0 <= a < idx.len() && 0 <= b < idx.len() && (#[trigger] idx[a]).key == (
        #[trigger] idx[b]).key implies a == b by {
        lemma_album_lt_total(idx[a].key, idx[b].key);
        if a < b {
            assert(album_lt(idx[a].key, idx[b].key));
        } else if b < a {
            assert(album_lt(idx[b].key, idx[a].key));
        }
    }
    assert forall|a: int, u: TrackModel|
        0 <= a < idx.len() && #[trigger] idx[a].tracks.contains(u) implies album_of(u)
        == idx[a].key by {
        let k = choose|k: int| 0 <= k < idx[a].tracks.len() && idx[a].tracks[k] == u;
        assert(album_of(idx[a].tracks[k]) == idx[a].key);
    }
}

/// Builds the album index of `tracks`: groups them by album key, the
/// albums in the order of their keys, and orders the tracks of each album
/// by the total order of tracks.
pub fn try_load_cache_albums(tracks: Vec<AudioTrack>) -> (r: Vec<Album>)
    ensures
        r.deep_view() == album_index(tracks.deep_view()),
        index_in_order(r.deep_view()),
{
    proof {
        lemma_album_index(tracks.deep_view());
    }
    let sorted = sort_by::<AudioTrack, IndexOrder>(tracks);
    let ghost models = sorted.deep_view();
    let ghost n = models.len();
    let mut rest = reversed(sorted);
    let mut out: Vec<Album> = Vec::new();
    let mut meta: Option<AlbumMeta> = None;
    let mut bucket: Vec<AudioTrack> = Vec::new();
    assert(models.subrange(0, 0) =~= Seq::<TrackModel>::empty());
    assert(out.deep_view() =~= runs(models.subrange(0, 0)));
    while rest.len() > 0
        invariant
            n == models.len(),
            rest@.len() <= n,
            forall|i: int|
                0 <= i < rest@.len() ==> (#[trigger] rest@[i]).deep_view() == models[n - 1 - i],
            match meta {
                Some(m) => runs(models.subrange(0, n - rest@.len())) == out.deep_view().push(
                    AlbumBucket { key: m@, tracks: bucket.deep_view() },
                ),
                None => rest@.len() == n && out@.len() == 0,
            },
        decreases rest@.len(),
    {
        let ghost k = n - rest@.len();
        let ghost done = out.deep_view();
        let ghost held = bucket.deep_view();
        let track = rest.pop().unwrap();
        let key = track.album_meta();
        proof {
            let next = models.subrange(0, k + 1);
            assert(next.drop_last() =~= models.subrange(0, k));
            assert(next.last() == track@);
        }
        let same = match &meta {
            Some(m) => m.same(&key),
            None => false,
        };
        if same {
            bucket.push(track);
            proof {
                let front = runs(models.subrange(0, k));
                assert(bucket.deep_view() =~= held.push(track@));
                assert(front.update(
                    front.len() - 1,
                    AlbumBucket { key: album_of(track@), tracks: front.last().tracks.push(track@) },
                ) =~= done.push(AlbumBucket { key: meta.unwrap()@, tracks: bucket.deep_view() }));
            }
        } else {
            if let Some(m) = meta {
                out.push(Album { meta: m, tracks: bucket });
                assert(out.deep_view() =~= done.push(AlbumBucket { key: m@, tracks: held }));
            } else {
                assert(out.deep_view() =~= runs(models.subrange(0, k)));
            }
            meta = Some(key);
            bucket = Vec::new();
            bucket.push(track);
            assert(bucket.deep_view() =~= seq![track@]);
        }
    }
    assert(models.subrange(0, n as int) =~= models);
    if let Some(m) = meta {
        let ghost done = out.deep_view();
        let ghost held = bucket.deep_view();
        out.push(Album { meta: m, tracks: bucket });
        assert(out.deep_view() =~= done.push(AlbumBucket { key: m@, tracks: held }));
    } else {
        assert(out.deep_view() =~= runs(models));
    }
    out
}

/// The order of tracks by their content hash, a track without one first.
pub struct TrackHashOrder;

/// The likeness of tracks with the same content hash.
pub struct SameTrackHash;

/// Whether two tracks have the same content hash, and it is not empty.
pub open spec fn same_content(a: TrackModel, b: TrackModel) -> bool {
    &&& a.binary_hash == b.binary_hash
    &&& a.binary_hash matches Some(h) && h.len() > 0
}

impl Ranking<AudioTrack> for TrackHashOrder {
    open spec fn lt(a: TrackModel, b: TrackModel) -> bool {
        opt_text_lt(a.binary_hash, b.binary_hash)
    }

    fn less(a: &AudioTrack, b: &AudioTrack) -> (r: bool) {
        match (&a.binary_hash, &b.binary_hash) {
            (None, Some(_)) => true,
            (Some(x), Some(y)) => text_less(x.as_str(), y.as_str()),
            _ => false,
        }
    }
}

impl Likeness<AudioTrack> for SameTrackHash {
    open spec fn same(a: TrackModel, b: TrackModel) -> bool {
        same_content(a, b)
    }

    fn alike(a: &AudioTrack, b: &AudioTrack) -> (r: bool) {
        match (&a.binary_hash, &b.binary_hash) {
            (Some(x), Some(y)) => !x.as_str().is_empty() && *x == *y,
            _ => false,
        }
    }
}

/// Tracks without those that repeat a content hash: sorted by hash,
/// stably, the first of each run with one hash kept, and what is left
/// sorted by the order of tracks.
pub open spec fn without_duplicates(tracks: Seq<TrackModel>) -> Seq<TrackModel> {
    stable_sort(
        drop_repeats(
            stable_sort(tracks, ranking::<AudioTrack, TrackHashOrder>()),
            likeness::<AudioTrack, SameTrackHash>(),
        ),
        track_order(),
    )
}

/// An album without the tracks that repeat a content hash.
pub open spec fn cleaned(album: AlbumBucket) -> AlbumBucket {
    AlbumBucket { key: album.key, tracks: without_duplicates(album.tracks) }
}

/// Removes the tracks that have the content hash of another one, and
/// sorts the rest by the order of tracks.
pub fn remove_duplicates(tracks: Vec<AudioTrack>) -> (r: Vec<AudioTrack>)
    ensures
        r.deep_view() == without_duplicates(tracks.deep_view()),
        ordered(r.deep_view(), track_order()),
{
    let by_hash = sort_by::<AudioTrack, TrackHashOrder>(tracks);
    let kept = dedup_by::<AudioTrack, SameTrackHash>(by_hash);
    sort_tracks(kept)
}

/// Cleans up duplicate tracks with the same hash, album by album.
pub fn clean_albums(albums: Vec<Album>) -> (r: Vec<Album>)
    ensures
        r.deep_view() == albums.deep_view().map_values(|a: AlbumBucket| cleaned(a)),
{
    let ghost models = albums.deep_view();
    let ghost n = models.len();
    let mut rest = reversed(albums);
    let mut out: Vec<Album> = Vec::new();
    while rest.len() > 0
        invariant
            n == models.len(),
            rest@.len() + out@.len() == n,
            forall|i: int|
                0 <= i < rest@.len() ==> (#[trigger] rest@[i]).deep_view() == models[n - 1 - i],
            forall|i: int|
                0 <= i < out@.len() ==> (#[trigger] out@[i]).deep_view() == cleaned(models[i]),
        decreases rest@.len(),
    {
        let album = rest.pop().unwrap();
        let Album { meta, tracks } = album;
        out.push(Album { meta, tracks: remove_duplicates(tracks) });
    }
    assert(out.deep_view() =~= models.map_values(|a: AlbumBucket| cleaned(a)));
    out
}

/// The place in `albums` of the album with the key `meta`, if there is
/// one: the first, and in an index that is in order the only one.
pub fn find_album(albums: &Vec<Album>, meta: &AlbumMeta) -> (r: Option<usize>)
    ensures
        match r {
            Some(i) => {
                &&& i < albums@.len()
                &&& albums.deep_view()[i as int].key == meta@
                &&& forall|j: int| 0 <= j < i ==> (#[trigger] albums.deep_view()[j]).key != meta@
            },
            None => forall|j: int|
                0 <= j < albums@.len() ==> (#[trigger] albums.deep_view()[j]).key != meta@,
        },
{
    let n = albums.len();
    let mut i: usize = 0;
    while i < n
        invariant
            i <= n,
            n == albums@.len(),
            forall|j: int| 0 <= j < i ==> (#[trigger] albums.deep_view()[j]).key != meta@,
        decreases n - i,
    {
        if albums[i].meta.same(meta) {
            assert(albums.deep_view()[i as int].key == albums@[i as int].meta@);
            return Some(i);
        }
        assert(albums.deep_view()[i as int].key == albums@[i as int].meta@);
        i += 1;
    }
    None
}

} // verus!
