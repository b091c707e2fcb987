//! The cache codec: a track record as eight columns of text, and back.

use crate::date::{date_of_text, AlbumDate, SomeAlbumDate};
use crate::error::AppError;
use crate::text::{decimal, decimal_string, lemma_decimal_reads_back, lemma_parse_decimal};
use crate::track::{opt_text, AudioTrack, TrackModel};
use crate::util::{empty_to_option, field_of, file_name_of, path_file_name};
use vstd::prelude::*;

verus! {

/// The number of columns of a cache record.
pub const CSV_COLS: usize = 8;

/// A text that may be absent as a column: empty where it is absent.
pub open spec fn text_column(s: Option<Seq<char>>) -> Seq<char> {
    match s {
        Some(t) => t,
        None => Seq::<char>::empty(),
    }
}

/// A track number as a column: its decimal numeral, or empty.
pub open spec fn number_column(n: Option<u16>) -> Seq<char> {
    match n {
        Some(v) => decimal(v as nat),
        None => Seq::<char>::empty(),
    }
}

/// A date as a column: its text form, or empty.
pub open spec fn date_column(d: SomeAlbumDate) -> Seq<char> {
    match d.0 {
        Some(date) => date.text(),
        None => Seq::<char>::empty(),
    }
}

/// The cache record of a track: name, path, track number, artist, album,
/// album artist, date and content hash, in this order.
pub open spec fn record_of(t: TrackModel) -> Seq<Seq<char>> {
    seq![
        t.name,
        t.path,
        number_column(t.track_no),
        text_column(t.artist),
        text_column(t.album),
        text_column(t.album_artist),
        date_column(t.date),
        text_column(t.binary_hash),
    ]
}

/// The track that a cache record holds, if it has the eight columns of
/// one. An empty column is an absent value, a track number that cannot be
/// read is 0, and a date that cannot be read is absent.
pub open spec fn track_of(r: Seq<Seq<char>>) -> Option<TrackModel> {
    if r.len() != 8 {
        None
    } else {
        Some(
            TrackModel {
                name: r[0],
                path: r[1],
                track_no: field_of::<u16>(r[2]),
                artist: field_of::<String>(r[3]),
                album: field_of::<String>(r[4]),
                album_artist: field_of::<String>(r[5]),
                date: SomeAlbumDate(date_of_text(r[6])),
                binary_hash: field_of::<String>(r[7]),
            },
        )
    }
}

/// Whether a text that may be absent is not the empty text.
pub open spec fn present_or_absent(s: Option<Seq<char>>) -> bool {
    match s {
        Some(t) => t.len() > 0,
        None => true,
    }
}

/// Whether a track can be told from its cache record: no optional text is
/// present and empty, and its date, if it has one, is read back from its
/// text form.
pub open spec fn well_formed(t: TrackModel) -> bool {
    &&& present_or_absent(t.artist)
    &&& present_or_absent(t.album)
    &&& present_or_absent(t.album_artist)
    &&& present_or_absent(t.binary_hash)
    &&& match t.date.0 {
        Some(d) => d.reads_back(),
        None => true,
    }
}

/// Every well-formed track is what its cache record is decoded to, field
/// for field.
pub proof fn lemma_record_round_trip(t: TrackModel)
    requires
        well_formed(t),
    ensures
        track_of(record_of(t)) == Some(t),
{
    let r = record_of(t);
    if let Some(n) = t.track_no {
        lemma_decimal_reads_back(n as nat);
        lemma_parse_decimal(n as nat, 65535);
    }
    assert(field_of::<u16>(r[2]) == t.track_no);
    assert(field_of::<String>(r[3]) == t.artist);
    assert(field_of::<String>(r[4]) == t.album);
    assert(field_of::<String>(r[5]) == t.album_artist);
    assert(field_of::<String>(r[7]) == t.binary_hash);
    assert(date_of_text(r[6]) == t.date.0);
    assert(SomeAlbumDate(t.date.0) == t.date);
}

/// The hash column of a record: its last column, if it has any.
pub open spec fn hash_column(r: Seq<Seq<char>>) -> Option<Seq<char>> {
    if r.len() == 0 {
        None
    } else {
        Some(r.last())
    }
}

/// The hash column of a cache record: the last one.
pub fn record_hash(record: &Vec<String>) -> (r: Option<&String>)
    ensures
        r.deep_view() == hash_column(record.deep_view()),
{
    let n = record.len();
    if n == 0 {
        None
    } else {
        Some(&record[n - 1])
    }
}

fn text_or_empty(s: &Option<String>) -> (r: String)
    ensures
        r@ == text_column(s.deep_view()),
{
    match s {
        Some(t) => t.clone(),
        None => String::new(),
    }
}

impl AudioTrack {
    /// Whether this record can be told from its cache record.
    pub open spec fn well_formed(&self) -> bool {
        well_formed(self@)
    }

    /// A record for the file at `path`, named by the final component of
    /// the path, with no metadata and no content hash yet.
    pub fn new(path: String) -> (r: AudioTrack)
        requires
            path_file_name(path@) is Some,
        ensures
            r@ == (TrackModel {
                name: path_file_name(path@)->0,
                path: path@,
                artist: None,
                album: None,
                album_artist: None,
                track_no: None,
                date: SomeAlbumDate(None),
                binary_hash: None,
            }),
    {
        let name = file_name_of(path.as_str());
        AudioTrack::with_name(name.unwrap(), path)
    }

    /// A record for the file at `path` as `new` makes it, or `None` where
    /// the path has no final component to name it by.
    pub fn try_new(path: String) -> (r: Option<AudioTrack>)
        ensures
            match path_file_name(path@) {
                Some(name) => r matches Some(t) && t@ == (TrackModel {
                    name: name,
                    path: path@,
                    artist: None,
                    album: None,
                    album_artist: None,
                    track_no: None,
                    date: SomeAlbumDate(None),
                    binary_hash: None,
                }),
                None => r is None,
            },
    {
        let name = file_name_of(path.as_str());
        if name.is_some() {
            Some(AudioTrack::new(path))
        } else {
            None
        }
    }

    /// The cache record of this track: eight columns, the content hash
    /// last, an absent value as an empty column.
    pub fn to_record(&self) -> (r: Vec<String>)
        ensures
            r.deep_view() == record_of(self@),
    {
        let mut record: Vec<String> = Vec::new();
        record.push(self.name.clone());
        record.push(self.path.clone());
        record.push(
            match self.track_no {
                Some(n) => decimal_string(n as u128),
                None => String::new(),
            },
        );
        record.push(text_or_empty(&self.artist));
        record.push(text_or_empty(&self.album));
        record.push(text_or_empty(&self.album_artist));
        record.push(
            match &self.date.0 {
                Some(d) => d.to_string(),
                None => String::new(),
            },
        );
        record.push(text_or_empty(&self.binary_hash));
        assert(record.deep_view() =~= record_of(self@));
        record
    }

    /// The track that a cache record holds. A record that does not have
    /// eight columns is refused. A date that is read has a month from 1 to
    /// 12 and a day from 1 to 31.
    pub fn from_record(record: Vec<String>) -> (r: Result<AudioTrack, AppError>)
        ensures
            match track_of(record.deep_view()) {
                Some(t) => r matches Ok(track) && track@ == t,
                None => r == Err::<AudioTrack, AppError>(AppError::CsvParse),
            },
            r matches Ok(track) ==> (track.date.0 matches Some(d) ==> d.in_calendar()),
    {
        if record.len() != CSV_COLS {
            return Err(AppError::CsvParse);
        }
        let ghost columns = record.deep_view();
        assert(forall|i: int| 0 <= i < 8 ==> columns[i] == #[trigger] record@[i]@);
        let track = AudioTrack {
            name: record[0].clone(),
            path: record[1].clone(),
            track_no: empty_to_option::<u16>(record[2].as_str()),
            artist: empty_to_option::<String>(record[3].as_str()),
            album: empty_to_option::<String>(record[4].as_str()),
            album_artist: empty_to_option::<String>(record[5].as_str()),
            date: SomeAlbumDate(AlbumDate::parse(record[6].as_str())),
            binary_hash: empty_to_option::<String>(record[7].as_str()),
        };
        Ok(track)
    }
}

/// What the tags of an audio file say of it.
#[derive(Debug, PartialEq, Eq)]
pub struct Tags {
    pub title: Option<String>,
    pub artist: Option<String>,
    pub album: Option<String>,
    pub album_artist: Option<String>,
    pub track_no: Option<u16>,
    pub date: SomeAlbumDate,
}

/// The track `t` with the metadata of tags: the title is its name where
/// there is one, the other tags replace what the track had, and the path
/// and the content hash stay.
pub open spec fn tagged(t: TrackModel, tags: Tags) -> TrackModel {
    TrackModel {
        name: match tags.title {
            Some(title) => title@,
            None => t.name,
        },
        path: t.path,
        artist: opt_text(tags.artist),
        album: opt_text(tags.album),
        album_artist: opt_text(tags.album_artist),
        track_no: tags.track_no,
        date: tags.date,
        binary_hash: t.binary_hash,
    }
}

impl AlbumDate {
    /// The date of a time stamp: its year as an unsigned number, its month
    /// and its day.
    pub fn from_timestamp(year: i32, month: Option<u8>, day: Option<u8>) -> (r: AlbumDate)
        ensures
            r == (AlbumDate { year: year as u32, month, day }),
    {
        AlbumDate { year: #[verifier::truncate] (year as u32), month, day }
    }
}

impl AudioTrack {
    /// Takes the metadata of `tags` into this track. Without a title the
    /// track keeps its name.
    pub fn update_tag(&mut self, tags: Tags)
        ensures
            final(self)@ == tagged(old(self)@, tags),
    {
        let Tags { title, artist, album, album_artist, track_no, date } = tags;
        match title {
            Some(t) => {
                self.name = t;
            },
            None => {},
        }
        self.artist = artist;
        self.album = album;
        self.album_artist = album_artist;
        self.track_no = track_no;
        self.date = date;
    }

    /// The track for the file at `path` with the metadata of `tags`, named
    /// by its title or else by the final component of the path, without
    /// content hash; `None` where there is neither title nor final
    /// component.
    pub fn from_tags(path: String, tags: Tags) -> (r: Option<AudioTrack>)
        ensures
            match (tags.title, path_file_name(path@)) {
                (None, None) => r is None,
                (title, file_name) => r matches Some(t) && t@ == (TrackModel {
                    name: match title {
                        Some(text) => text@,
                        None => file_name->0,
                    },
                    path: path@,
                    artist: opt_text(tags.artist),
                    album: opt_text(tags.album),
                    album_artist: opt_text(tags.album_artist),
                    track_no: tags.track_no,
                    date: tags.date,
                    binary_hash: None,
                }),
            },
    {
        let mut track = match file_name_of(path.as_str()) {
            Some(name) => AudioTrack::with_name(name, path),
            None => {
                if tags.title.is_none() {
                    return None;
                }
                AudioTrack::with_name(String::new(), path)
            },
        };
        track.update_tag(tags);
        Some(track)
    }
}

} // verus!
