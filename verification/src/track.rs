//! Track records, album keys and the total order of tracks.

use crate::date::{
    lemma_some_date_lt_total, lemma_some_date_lt_transitive, opt_num_lt, ordering_by,
    some_date_lt, SomeAlbumDate,
};
use crate::text::{
    lemma_text_lt_total, lemma_text_lt_transitive, text_less, text_lt,
};
use crate::order::{lemma_stable_sort, ordered, ranking, sort_by, stable_sort, strict_weak_order, Ranking};
use core::cmp::Ordering;
use vstd::prelude::*;
use vstd::std_specs::cmp::PartialOrdSpecImpl;

verus! {

/// One audio file and what is known of it.
#[derive(Debug, PartialEq, Eq)]
pub struct AudioTrack {
    pub name: String,
    pub path: String,
    pub artist: Option<String>,
    pub album: Option<String>,
    pub album_artist: Option<String>,
    pub track_no: Option<u16>,
    pub date: SomeAlbumDate,
    pub binary_hash: Option<String>,
}

/// The identity of an album: the key under which its tracks are grouped.
#[derive(Debug, PartialEq, Eq)]
pub struct AlbumMeta {
    pub album_artist: Option<String>,
    pub date: SomeAlbumDate,
    pub name: Option<String>,
}

/// What a track record holds, as plain values.
pub ghost struct TrackModel {
    pub name: Seq<char>,
    pub path: Seq<char>,
    pub artist: Option<Seq<char>>,
    pub album: Option<Seq<char>>,
    pub album_artist: Option<Seq<char>>,
    pub track_no: Option<u16>,
    pub date: SomeAlbumDate,
    pub binary_hash: Option<Seq<char>>,
}

/// What an album key holds, as plain values.
pub ghost struct AlbumModel {
    pub album_artist: Option<Seq<char>>,
    pub date: SomeAlbumDate,
    pub name: Option<Seq<char>>,
}

/// The characters of a string that may be absent.
pub open spec fn opt_text(s: Option<String>) -> Option<Seq<char>> {
    match s {
        Some(t) => Some(t@),
        None => None,
    }
}

/// A track number that may be absent, as a number.
pub open spec fn opt_u16_int(a: Option<u16>) -> Option<int> {
    match a {
        Some(x) => Some(x as int),
        None => None,
    }
}

impl View for AudioTrack {
    type V = TrackModel;

    open spec fn view(&self) -> TrackModel {
        TrackModel {
            name: self.name@,
            path: self.path@,
            artist: opt_text(self.artist),
            album: opt_text(self.album),
            album_artist: opt_text(self.album_artist),
            track_no: self.track_no,
            date: self.date,
            binary_hash: opt_text(self.binary_hash),
        }
    }
}

impl DeepView for AudioTrack {
    type V = TrackModel;

    open spec fn deep_view(&self) -> TrackModel {
        self@
    }
}

impl View for AlbumMeta {
    type V = AlbumModel;

    open spec fn view(&self) -> AlbumModel {
        AlbumModel {
            album_artist: opt_text(self.album_artist),
            date: self.date,
            name: opt_text(self.name),
        }
    }
}

impl DeepView for AlbumMeta {
    type V = AlbumModel;

    open spec fn deep_view(&self) -> AlbumModel {
        self@
    }
}

/// Whether `a` comes strictly before `b`, an absent text first.
pub open spec fn opt_text_lt(a: Option<Seq<char>>, b: Option<Seq<char>>) -> bool {
    match (a, b) {
        (None, Some(_)) => true,
        (Some(x), Some(y)) => text_lt(x, y),
        _ => false,
    }
}

/// Whether `a` comes strictly before `b`, an absent text last.
pub open spec fn opt_text_lt_absent_last(a: Option<Seq<char>>, b: Option<Seq<char>>) -> bool {
    match (a, b) {
        (Some(_), None) => true,
        (Some(x), Some(y)) => text_lt(x, y),
        _ => false,
    }
}

/// The album key of a track: its album artist, its date and its album.
pub open spec fn album_of(t: TrackModel) -> AlbumModel {
    AlbumModel { album_artist: t.album_artist, date: t.date, name: t.album }
}

/// The total order of tracks: by album artist (absent first), then date
/// (absent last), then album (absent last), then track number (absent
/// first), then path. Each key decides only where all before it are equal.
pub open spec fn track_lt(a: TrackModel, b: TrackModel) -> bool {
    if a.album_artist != b.album_artist {
        opt_text_lt(a.album_artist, b.album_artist)
    } else if a.date != b.date {
        some_date_lt(a.date, b.date)
    } else if a.album != b.album {
        opt_text_lt_absent_last(a.album, b.album)
    } else if a.track_no != b.track_no {
        opt_num_lt(opt_u16_int(a.track_no), opt_u16_int(b.track_no))
    } else {
        text_lt(a.path, b.path)
    }
}

/// The order of album keys: by album artist (absent first), then date
/// (absent last), then name (absent first).
pub open spec fn album_lt(a: AlbumModel, b: AlbumModel) -> bool {
    if a.album_artist != b.album_artist {
        opt_text_lt(a.album_artist, b.album_artist)
    } else if a.date != b.date {
        some_date_lt(a.date, b.date)
    } else {
        opt_text_lt(a.name, b.name)
    }
}

/// Two texts that may be absent are equal, or one comes strictly before
/// the other, never both: with an absent text first, and with it last.
pub proof fn lemma_opt_text_lt_total(a: Option<Seq<char>>, b: Option<Seq<char>>)
    ensures
        a == b || opt_text_lt(a, b) || opt_text_lt(b, a),
        !(opt_text_lt(a, b) && opt_text_lt(b, a)),
        !opt_text_lt(a, a),
        a == b || opt_text_lt_absent_last(a, b) || opt_text_lt_absent_last(b, a),
        !(opt_text_lt_absent_last(a, b) && opt_text_lt_absent_last(b, a)),
        !opt_text_lt_absent_last(a, a),
{
    match (a, b) {
        (Some(x), Some(y)) => {
            lemma_text_lt_total(x, y);
            lemma_text_lt_total(x, x);
        },
        (Some(x), None) => {
            lemma_text_lt_total(x, x);
        },
        _ => {},
    }
}

/// Both orders of texts that may be absent are transitive.
pub proof fn lemma_opt_text_lt_transitive(
    a: Option<Seq<char>>,
    b: Option<Seq<char>>,
    c: Option<Seq<char>>,
)
    ensures
        opt_text_lt(a, b) && opt_text_lt(b, c) ==> opt_text_lt(a, c),
        opt_text_lt_absent_last(a, b) && opt_text_lt_absent_last(b, c) ==> opt_text_lt_absent_last(
            a,
            c,
        ),
{
    if let (Some(x), Some(y), Some(z)) = (a, b, c) {
        if text_lt(x, y) && text_lt(y, z) {
            lemma_text_lt_transitive(x, y, z);
        }
    }
}

/// The keys by which tracks are ordered; the other fields take no part.
pub open spec fn same_rank(a: TrackModel, b: TrackModel) -> bool {
    &&& a.album_artist == b.album_artist
    &&& a.date == b.date
    &&& a.album == b.album
    &&& a.track_no == b.track_no
    &&& a.path == b.path
}

/// Of two tracks either the ordering keys are all equal, or exactly one track comes
/// strictly before the other.
pub proof fn lemma_track_lt_total(a: TrackModel, b: TrackModel)
    ensures
        same_rank(a, b) || track_lt(a, b) || track_lt(b, a),
        !(track_lt(a, b) && track_lt(b, a)),
        same_rank(a, b) ==> !track_lt(a, b),
{
    lemma_opt_text_lt_total(a.album_artist, b.album_artist);
    lemma_some_date_lt_total(a.date, b.date);
    lemma_opt_text_lt_total(a.album, b.album);
    lemma_text_lt_total(a.path, b.path);
}

/// The order of tracks is transitive.
pub proof fn lemma_track_lt_transitive(a: TrackModel, b: TrackModel, c: TrackModel)
    requires
        track_lt(a, b),
        track_lt(b, c),
    ensures
        track_lt(a, c),
{
    lemma_opt_text_lt_total(a.album_artist, b.album_artist);
    lemma_opt_text_lt_total(b.album_artist, c.album_artist);
    lemma_opt_text_lt_total(a.album_artist, c.album_artist);
    lemma_opt_text_lt_transitive(a.album_artist, b.album_artist, c.album_artist);
    lemma_some_date_lt_total(a.date, b.date);
    lemma_some_date_lt_total(b.date, c.date);
    lemma_some_date_lt_total(a.date, c.date);
    if some_date_lt(a.date, b.date) && some_date_lt(b.date, c.date) {
        lemma_some_date_lt_transitive(a.date, b.date, c.date);
    }
    lemma_opt_text_lt_total(a.album, b.album);
    lemma_opt_text_lt_total(b.album, c.album);
    lemma_opt_text_lt_total(a.album, c.album);
    lemma_opt_text_lt_transitive(a.album, b.album, c.album);
    lemma_text_lt_total(a.path, b.path);
    lemma_text_lt_total(b.path, c.path);
    lemma_text_lt_total(a.path, c.path);
    if text_lt(a.path, b.path) && text_lt(b.path, c.path) {
        lemma_text_lt_transitive(a.path, b.path, c.path);
    }
}

/// Two distinct tracks of an index differ in their paths, and then exactly
/// one of them comes before the other.
pub proof fn lemma_track_order_is_total(a: TrackModel, b: TrackModel)
    requires
        a.path != b.path,
    ensures
        track_lt(a, b) != track_lt(b, a),
{
    lemma_track_lt_total(a, b);
}

/// With the same album artist, a track without a date comes after a track
/// with a date, whatever their albums, track numbers and paths are.
pub proof fn lemma_track_without_date_is_last(dated: TrackModel, undated: TrackModel)
    requires
        dated.date.0 is Some,
        undated.date.0 is None,
        dated.album_artist == undated.album_artist,
    ensures
        track_lt(dated, undated),
        !track_lt(undated, dated),
{
}

/// A copy of a string that may be absent.
pub fn clone_opt_text(s: &Option<String>) -> (r: Option<String>)
    ensures
        opt_text(r) == opt_text(*s),
{
    match s {
        Some(t) => Some(t.clone()),
        None => None,
    }
}

/// Whether two strings that may be absent hold the same.
pub fn opt_text_same(a: &Option<String>, b: &Option<String>) -> (r: bool)
    ensures
        r == (opt_text(*a) == opt_text(*b)),
{
    match (a, b) {
        (Some(x), Some(y)) => *x == *y,
        (None, None) => true,
        _ => false,
    }
}

/// Whether `a` comes strictly before `b`, an absent string first.
pub fn opt_text_less(a: &Option<String>, b: &Option<String>) -> (r: bool)
    ensures
        r == opt_text_lt(opt_text(*a), opt_text(*b)),
{
    match (a, b) {
        (None, Some(_)) => true,
        (Some(x), Some(y)) => text_less(x.as_str(), y.as_str()),
        _ => false,
    }
}

/// Whether `a` comes strictly before `b`, an absent string last.
pub fn opt_text_less_absent_last(a: &Option<String>, b: &Option<String>) -> (r: bool)
    ensures
        r == opt_text_lt_absent_last(opt_text(*a), opt_text(*b)),
{
    match (a, b) {
        (Some(_), None) => true,
        (Some(x), Some(y)) => text_less(x.as_str(), y.as_str()),
        _ => false,
    }
}

fn opt_u16_same(a: Option<u16>, b: Option<u16>) -> (r: bool)
    ensures
        r == (a == b),
{
    match (a, b) {
        (Some(x), Some(y)) => x == y,
        (None, None) => true,
        _ => false,
    }
}

fn opt_u16_less(a: Option<u16>, b: Option<u16>) -> (r: bool)
    ensures
        r == opt_num_lt(opt_u16_int(a), opt_u16_int(b)),
{
    match (a, b) {
        (None, Some(_)) => true,
        (Some(x), Some(y)) => x < y,
        _ => false,
    }
}

impl Clone for AudioTrack {
    fn clone(&self) -> (r: Self)
        ensures
            r@ == self@,
    {
        AudioTrack {
            name: self.name.clone(),
            path: self.path.clone(),
            artist: clone_opt_text(&self.artist),
            album: clone_opt_text(&self.album),
            album_artist: clone_opt_text(&self.album_artist),
            track_no: self.track_no,
            date: self.date,
            binary_hash: clone_opt_text(&self.binary_hash),
        }
    }
}

impl Clone for AlbumMeta {
    fn clone(&self) -> (r: Self)
        ensures
            r@ == self@,
    {
        AlbumMeta {
            album_artist: clone_opt_text(&self.album_artist),
            date: self.date,
            name: clone_opt_text(&self.name),
        }
    }
}

impl AudioTrack {
    /// A record for the file at `path` under the display name `name`, with
    /// no metadata and no content hash yet.
    pub fn with_name(name: String, path: String) -> (r: AudioTrack)
        ensures
            r@ == (TrackModel {
                name: name@,
                path: path@,
                artist: None,
                album: None,
                album_artist: None,
                track_no: None,
                date: SomeAlbumDate(None),
                binary_hash: None,
            }),
    {
        AudioTrack {
            name,
            path,
            artist: None,
            album: None,
            album_artist: None,
            track_no: None,
            date: SomeAlbumDate(None),
            binary_hash: None,
        }
    }

    /// Whether this track comes strictly before `other` in the total order
    /// of tracks.
    pub fn is_before(&self, other: &AudioTrack) -> (r: bool)
        ensures
            r == track_lt(self@, other@),
    {
        if !opt_text_same(&self.album_artist, &other.album_artist) {
            opt_text_less(&self.album_artist, &other.album_artist)
        } else if !self.date.same(&other.date) {
            self.date.is_before(&other.date)
        } else if !opt_text_same(&self.album, &other.album) {
            opt_text_less_absent_last(&self.album, &other.album)
        } else if !opt_u16_same(self.track_no, other.track_no) {
            opt_u16_less(self.track_no, other.track_no)
        } else {
            text_less(self.path.as_str(), other.path.as_str())
        }
    }

    /// The album key of this track.
    pub fn album_meta(&self) -> (r: AlbumMeta)
        ensures
            r@ == album_of(self@),
    {
        AlbumMeta {
            album_artist: clone_opt_text(&self.album_artist),
            date: self.date,
            name: clone_opt_text(&self.album),
        }
    }
}

impl AlbumMeta {
    /// Whether this key comes strictly before `other` in the order of
    /// album keys.
    pub fn is_before(&self, other: &AlbumMeta) -> (r: bool)
        ensures
            r == album_lt(self@, other@),
    {
        if !opt_text_same(&self.album_artist, &other.album_artist) {
            opt_text_less(&self.album_artist, &other.album_artist)
        } else if !self.date.same(&other.date) {
            self.date.is_before(&other.date)
        } else {
            opt_text_less(&self.name, &other.name)
        }
    }

    /// Whether the two keys name the same album.
    pub fn same(&self, other: &AlbumMeta) -> (r: bool)
        ensures
            r == (self@ == other@),
    {
        opt_text_same(&self.album_artist, &other.album_artist) && self.date.same(&other.date)
            && opt_text_same(&self.name, &other.name)
    }
}

/// Of two album keys either they are equal, or exactly one comes strictly
/// before the other.
pub proof fn lemma_album_lt_total(a: AlbumModel, b: AlbumModel)
    ensures
        a == b || album_lt(a, b) || album_lt(b, a),
        !(album_lt(a, b) && album_lt(b, a)),
        !album_lt(a, a),
{
    lemma_opt_text_lt_total(a.album_artist, b.album_artist);
    lemma_opt_text_lt_total(a.album_artist, a.album_artist);
    lemma_some_date_lt_total(a.date, b.date);
    lemma_opt_text_lt_total(a.name, b.name);
    lemma_opt_text_lt_total(a.name, a.name);
}

/// The order of album keys is transitive.
pub proof fn lemma_album_lt_transitive(a: AlbumModel, b: AlbumModel, c: AlbumModel)
    requires
        album_lt(a, b),
        album_lt(b, c),
    ensures
        album_lt(a, c),
{
    lemma_opt_text_lt_total(a.album_artist, b.album_artist);
    lemma_opt_text_lt_total(b.album_artist, c.album_artist);
    lemma_opt_text_lt_total(a.album_artist, c.album_artist);
    lemma_opt_text_lt_transitive(a.album_artist, b.album_artist, c.album_artist);
    lemma_some_date_lt_total(a.date, b.date);
    lemma_some_date_lt_total(b.date, c.date);
    lemma_some_date_lt_total(a.date, c.date);
    if some_date_lt(a.date, b.date) && some_date_lt(b.date, c.date) {
        lemma_some_date_lt_transitive(a.date, b.date, c.date);
    }
    lemma_opt_text_lt_total(a.name, b.name);
    lemma_opt_text_lt_total(b.name, c.name);
    lemma_opt_text_lt_total(a.name, c.name);
    lemma_opt_text_lt_transitive(a.name, b.name, c.name);
}

/// The total order of tracks as a ranking.
pub struct TrackOrder;

impl Ranking<AudioTrack> for TrackOrder {
    open spec fn lt(a: TrackModel, b: TrackModel) -> bool {
        track_lt(a, b)
    }

    fn less(a: &AudioTrack, b: &AudioTrack) -> (r: bool) {
        a.is_before(b)
    }
}

/// The total order of tracks as a relation.
pub open spec fn track_order() -> spec_fn(TrackModel, TrackModel) -> bool {
    ranking::<AudioTrack, TrackOrder>()
}

/// Where `a` does not come before `b` nor `b` before `c`, `a` does not come
/// before `c`.
pub proof fn lemma_track_lt_negatively_transitive(a: TrackModel, b: TrackModel, c: TrackModel)
    requires
        !track_lt(a, b),
        !track_lt(b, c),
    ensures
        !track_lt(a, c),
{
    lemma_track_lt_total(a, b);
    if track_lt(a, c) {
        if track_lt(b, a) {
            lemma_track_lt_transitive(b, a, c);
        } else {
            assert(same_rank(a, b));
            assert(track_lt(b, c) == track_lt(a, c));
        }
    }
}

/// The order of tracks is a strict weak order.
pub proof fn lemma_track_order_is_strict_weak()
    ensures
        strict_weak_order(track_order()),
{
    let lt = track_order();
    assert forall|a: TrackModel| !#[trigger] lt(a, a) by {
        lemma_track_lt_total(a, a);
    }
    assert forall|a: TrackModel, b: TrackModel, c: TrackModel| #[trigger]
        lt(a, b) && #[trigger] lt(b, c) implies lt(a, c) by {
        lemma_track_lt_transitive(a, b, c);
    }
    assert forall|a: TrackModel, b: TrackModel, c: TrackModel| !#[trigger] lt(a, b) && !#[trigger] lt(
        b,
        c,
    ) implies !lt(a, c) by {
        lemma_track_lt_negatively_transitive(a, b, c);
    }
}

/// Whether no two tracks of `s` have the same path.
pub open spec fn unique_paths(s: Seq<TrackModel>) -> bool {
    forall|i: int, j: int| 0 <= i < j < s.len() ==> (#[trigger] s[i]).path != (#[trigger] s[j]).path
}

/// Sorts tracks by the total order of tracks. Tracks that the order does
/// not tell apart keep the order they came in.
pub fn sort_tracks(tracks: Vec<AudioTrack>) -> (r: Vec<AudioTrack>)
    ensures
        r.deep_view() == stable_sort(tracks.deep_view(), track_order()),
        ordered(r.deep_view(), track_order()),
        r.deep_view().to_multiset() == tracks.deep_view().to_multiset(),
        r@.len() == tracks@.len(),
{
    proof {
        lemma_track_order_is_strict_weak();
        lemma_stable_sort(tracks.deep_view(), track_order());
    }
    sort_by::<AudioTrack, TrackOrder>(tracks)
}

impl AudioTrack {
    /// How this track is ordered against `other` in the total order of
    /// tracks. Tracks are equal in it where all its keys are equal.
    pub fn cmp(&self, other: &AudioTrack) -> (r: Ordering)
        ensures
            r == ordering_by(track_lt(self@, other@), track_lt(other@, self@)),
            r == Ordering::Equal <==> same_rank(self@, other@),
    {
        proof {
            lemma_track_lt_total(self@, other@);
        }
        if self.is_before(other) {
            Ordering::Less
        } else if other.is_before(self) {
            Ordering::Greater
        } else {
            Ordering::Equal
        }
    }
}

impl PartialOrd for AudioTrack {
    fn partial_cmp(&self, other: &AudioTrack) -> (r: Option<Ordering>) {
        Some(self.cmp(other))
    }
}

impl PartialOrdSpecImpl for AudioTrack {
    open spec fn obeys_partial_cmp_spec() -> bool {
        true
    }

    open spec fn partial_cmp_spec(&self, other: &AudioTrack) -> Option<Ordering> {
        Some(ordering_by(track_lt(self@, other@), track_lt(other@, self@)))
    }
}

impl AlbumMeta {
    /// How this key is ordered against `other` in the order of album keys.
    pub fn cmp(&self, other: &AlbumMeta) -> (r: Ordering)
        ensures
            r == ordering_by(album_lt(self@, other@), album_lt(other@, self@)),
            r == Ordering::Equal <==> self@ == other@,
    {
        proof {
            lemma_album_lt_total(self@, other@);
        }
        if self.is_before(other) {
            Ordering::Less
        } else if other.is_before(self) {
            Ordering::Greater
        } else {
            Ordering::Equal
        }
    }
}

impl PartialOrd for AlbumMeta {
    fn partial_cmp(&self, other: &AlbumMeta) -> (r: Option<Ordering>) {
        Some(self.cmp(other))
    }
}

impl PartialOrdSpecImpl for AlbumMeta {
    open spec fn obeys_partial_cmp_spec() -> bool {
        true
    }

    open spec fn partial_cmp_spec(&self, other: &AlbumMeta) -> Option<Ordering> {
        Some(ordering_by(album_lt(self@, other@), album_lt(other@, self@)))
    }
}

} // verus!
