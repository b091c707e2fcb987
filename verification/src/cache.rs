//! The cache store's logic: the text of the cache file to records and
//! tracks and back, and the resolver of hash collisions.

use crate::error::AppError;
use crate::order::{
    dedup_by, drop_repeats, lemma_drop_repeats, lemma_drop_repeats_of_none, lemma_stable_sort,
    lemma_stable_sort_of_ordered, likeness, ordered, ranking, reversed, sort_by, stable_sort,
    strict_weak_order, Likeness, Ranking,
};
use crate::record::{hash_column, record_hash, record_of, track_of};
use crate::text::text_less;
use crate::track::{
    lemma_opt_text_lt_total, lemma_opt_text_lt_transitive, opt_text_lt, sort_tracks, track_order,
    AudioTrack, TrackModel,
};
use vstd::prelude::*;

verus! {

/// What `csv` makes of each record in the text `data` of a cache file,
/// with `;` between columns, no header row and any number of columns in
/// a record: the columns of the record, or `None` for a record that it
/// fails on.
pub uninterp spec fn record_outcomes(data: Seq<u8>) -> Seq<Option<Seq<Seq<char>>>>;

/// The text that `csv` writes for one record, with `;` between columns.
pub uninterp spec fn record_text(record: Seq<Seq<char>>) -> Seq<u8>;

/// `csv::Reader::records` on a reader that `csv::ReaderBuilder` makes over
/// `data`, with the delimiter `;`, without headers, and flexible, so that
/// a record of another width than the first is read like any other. Each
/// record is handed out as its columns, and a record that the reader
/// fails on as `None`. The contract names the result and claims nothing
/// of it.
#[verifier::external_body]
fn read_outcomes(data: &[u8]) -> (r: Vec<Option<Vec<String>>>)
    ensures
        r.deep_view() == record_outcomes(data@),
{
    let mut reader = csv::ReaderBuilder::new().delimiter(b';').has_headers(false).flexible(
        true,
    ).from_reader(data);
    reader.records().map(
        |outcome| outcome.ok().map(|record| record.iter().map(|c| c.to_string()).collect()),
    ).collect()
}

/// `csv::Writer::write_record` for `record`, on a writer that
/// `csv::WriterBuilder` makes over an empty buffer, with the delimiter `;`
/// and without headers, then `csv::Writer::into_inner`. An error of either
/// would be handed out as its message. The contract names the text and
/// claims that it always comes: the writer refuses a record only for its
/// width against that of an earlier one, and here there is none; and
/// writing to memory does not fail.
#[verifier::external_body]
fn write_record(record: &Vec<String>) -> (r: Result<Vec<u8>, String>)
    ensures
        r is Ok,
        r matches Ok(text) ==> text@ == record_text(record.deep_view()),
{
    let mut writer = csv::WriterBuilder::new().delimiter(b';').has_headers(false).from_writer(
        Vec::new(),
    );
    writer.write_record(record).map_err(|e| e.to_string())?;
    writer.into_inner().map_err(|e| e.to_string())
}

/// The records that were read, without the places of those that failed.
pub open spec fn present(outcomes: Seq<Option<Seq<Seq<char>>>>) -> Seq<Seq<Seq<char>>>
    decreases outcomes.len(),
{
    if outcomes.len() == 0 {
        Seq::empty()
    } else {
        match outcomes.last() {
            Some(record) => present(outcomes.drop_last()).push(record),
            None => present(outcomes.drop_last()),
        }
    }
}

/// The records in the text `data` of a cache file: those that can be
/// read, in their order.
pub open spec fn records_in(data: Seq<u8>) -> Seq<Seq<Seq<char>>> {
    present(record_outcomes(data))
}

/// Reads the records in the text of a cache file and passes over those
/// that cannot be read.
pub fn read_records(data: &[u8]) -> (r: Vec<Vec<String>>)
    ensures
        r.deep_view() == records_in(data@),
{
    let outcomes = read_outcomes(data);
    let ghost whole = outcomes.deep_view();
    let ghost n = whole.len();
    let mut rest = reversed(outcomes);
    let mut out: Vec<Vec<String>> = Vec::new();
    assert(whole.subrange(0, 0) =~= Seq::<Option<Seq<Seq<char>>>>::empty());
    assert(out.deep_view() =~= present(whole.subrange(0, 0)));
    while rest.len() > 0
        invariant
            n == whole.len(),
            rest@.len() <= n,
            forall|i: int|
                0 <= i < rest@.len() ==> (#[trigger] rest@[i]).deep_view() == whole[n - 1 - i],
            out.deep_view() == present(whole.subrange(0, n - rest@.len())),
        decreases rest@.len(),
    {
        let ghost k = n - rest@.len();
        let ghost before = out.deep_view();
        let outcome = rest.pop().unwrap();
        proof {
            let next = whole.subrange(0, k + 1);
            assert(next.drop_last() =~= whole.subrange(0, k));
            assert(next.last() == outcome.deep_view());
        }
        match outcome {
            Some(record) => {
                out.push(record);
                assert(out.deep_view() =~= before.push(record.deep_view()));
            },
            None => {},
        }
    }
    assert(whole.subrange(0, n as int) =~= whole);
    out
}

/// The text of a cache file that holds `records`: the text of each record
/// in turn.
pub open spec fn text_of_records(records: Seq<Seq<Seq<char>>>) -> Seq<u8>
    decreases records.len(),
{
    if records.len() == 0 {
        Seq::empty()
    } else {
        text_of_records(records.drop_last()) + record_text(records.last())
    }
}

/// The tracks that records hold, in the order of the records; a record
/// that holds no track is passed over.
pub open spec fn decoded(records: Seq<Seq<Seq<char>>>) -> Seq<TrackModel>
    decreases records.len(),
{
    if records.len() == 0 {
        Seq::empty()
    } else {
        let front = decoded(records.drop_last());
        match track_of(records.last()) {
            Some(t) => front.push(t),
            None => front,
        }
    }
}

/// The cache records of tracks, in the order of the tracks.
pub open spec fn encoded(tracks: Seq<TrackModel>) -> Seq<Seq<Seq<char>>> {
    tracks.map_values(|t: TrackModel| record_of(t))
}

/// Decodes each record that holds a track, and drops the others.
pub fn tracks_from_records(records: Vec<Vec<String>>) -> (r: Vec<AudioTrack>)
    ensures
        r.deep_view() == decoded(records.deep_view()),
{
    let ghost whole = records.deep_view();
    let ghost n = whole.len();
    let mut rest = reversed(records);
    let mut out: Vec<AudioTrack> = Vec::new();
    assert(whole.subrange(0, 0) =~= Seq::<Seq<Seq<char>>>::empty());
    assert(out.deep_view() =~= decoded(whole.subrange(0, 0)));
    while rest.len() > 0
        invariant
            n == whole.len(),
            rest@.len() <= n,
            forall|i: int|
                0 <= i < rest@.len() ==> (#[trigger] rest@[i]).deep_view() == whole[n - 1 - i],
            out.deep_view() == decoded(whole.subrange(0, n - rest@.len())),
        decreases rest@.len(),
    {
        let ghost k = n - rest@.len();
        let ghost before = out.deep_view();
        let record = rest.pop().unwrap();
        assert(record.deep_view() == whole[k]);
        proof {
            let next = whole.subrange(0, k + 1);
            assert(next.drop_last() =~= whole.subrange(0, k));
            assert(next.last() == whole[k]);
        }
        match AudioTrack::from_record(record) {
            Ok(track) => {
                out.push(track);
                assert(out.deep_view() =~= before.push(track@));
            },
            Err(_) => {},
        }
    }
    assert(whole.subrange(0, n as int) =~= whole);
    out
}

/// The tracks of a cache file with the text `contents`, or of none where
/// there is `None`: the tracks that its records hold, sorted by the total
/// order of tracks.
pub open spec fn loaded(contents: Option<&[u8]>) -> Seq<TrackModel> {
    match contents {
        Some(data) => stable_sort(decoded(records_in(data@)), track_order()),
        None => Seq::<TrackModel>::empty(),
    }
}

/// The tracks of a cache file, sorted by the total order of tracks.
/// `contents` is the text of the file, or `None` where there is no file:
/// then there are no tracks. Lines that hold no track are passed over.
pub fn try_load_cache(contents: Option<&[u8]>) -> (r: Vec<AudioTrack>)
    ensures
        r.deep_view() == loaded(contents),
        ordered(r.deep_view(), track_order()),
{
    match contents {
        Some(data) => {
            let records = read_records(data);
            let tracks = tracks_from_records(records);
            sort_tracks(tracks)
        },
        None => {
            let out: Vec<AudioTrack> = Vec::new();
            assert(out.deep_view() =~= Seq::<TrackModel>::empty());
            out
        },
    }
}

/// The cache records of `tracks`, in their order.
pub fn records_of_tracks(tracks: &Vec<AudioTrack>) -> (r: Vec<Vec<String>>)
    ensures
        r.deep_view() == encoded(tracks.deep_view()),
{
    let mut out: Vec<Vec<String>> = Vec::new();
    let n = tracks.len();
    let mut i: usize = 0;
    while i < n
        invariant
            i <= n,
            n == tracks@.len(),
            out@.len() == i,
            forall|j: int| 0 <= j < i ==> (#[trigger] out@[j]).deep_view() == record_of(tracks@[j]@),
        decreases n - i,
    {
        out.push(tracks[i].to_record());
        i += 1;
    }
    assert(out.deep_view() =~= encoded(tracks.deep_view()));
    out
}

/// Whether `r` is the text of `records`, and no error.
pub open spec fn written(records: Seq<Seq<Seq<char>>>, r: Result<Vec<u8>, AppError>) -> bool {
    r matches Ok(out) && out@ == text_of_records(records)
}

/// The text of a cache file that holds `records`. Every list of records
/// has one.
pub fn write_records(records: &Vec<Vec<String>>) -> (r: Result<Vec<u8>, AppError>)
    ensures
        written(records.deep_view(), r),
{
    let ghost whole = records.deep_view();
    let mut out: Vec<u8> = Vec::new();
    let n = records.len();
    let mut i: usize = 0;
    assert(whole.subrange(0, 0) =~= Seq::<Seq<Seq<char>>>::empty());
    while i < n
        invariant
            i <= n,
            n == records@.len(),
            whole == records.deep_view(),
            text_of_records(whole.subrange(0, i as int)) == out@,
        decreases n - i,
    {
        proof {
            let next = whole.subrange(0, i + 1);
            assert(next.drop_last() =~= whole.subrange(0, i as int));
            assert(next.last() == records@[i as int].deep_view());
        }
        match write_record(&records[i]) {
            Ok(mut text) => {
                out.append(&mut text);
            },
            Err(message) => {
                return Err(AppError::Csv(message));
            },
        }
        i += 1;
    }
    assert(whole.subrange(0, n as int) =~= whole);
    Ok(out)
}

/// The whole text of a cache file that holds `tracks`, in their order.
pub fn save_full(tracks: &Vec<AudioTrack>) -> (r: Result<Vec<u8>, AppError>)
    ensures
        written(encoded(tracks.deep_view()), r),
{
    let records = records_of_tracks(tracks);
    write_records(&records)
}

/// The text that adds `track` to a cache file: its one record.
pub fn append(track: &AudioTrack) -> (r: Result<Vec<u8>, AppError>)
    ensures
        written(seq![record_of(track@)], r),
{
    let mut records: Vec<Vec<String>> = Vec::new();
    records.push(track.to_record());
    assert(records.deep_view() =~= seq![record_of(track@)]);
    write_records(&records)
}

/// The order of cache records by their hash column, a record without
/// columns first.
pub struct HashOrder;

/// The likeness of cache records that collide: their hash columns are
/// equal and not empty.
pub struct SameHash;

/// Whether two records collide: they have the same hash, and it is not
/// empty.
pub open spec fn collide(a: Seq<Seq<char>>, b: Seq<Seq<char>>) -> bool {
    &&& hash_column(a) == hash_column(b)
    &&& hash_column(a) matches Some(h) && h.len() > 0
}

impl Ranking<Vec<String>> for HashOrder {
    open spec fn lt(a: Seq<Seq<char>>, b: Seq<Seq<char>>) -> bool {
        opt_text_lt(hash_column(a), hash_column(b))
    }

    fn less(a: &Vec<String>, b: &Vec<String>) -> (r: bool) {
        match (record_hash(a), record_hash(b)) {
            (None, Some(_)) => true,
            (Some(x), Some(y)) => text_less(x.as_str(), y.as_str()),
            _ => false,
        }
    }
}

impl Likeness<Vec<String>> for SameHash {
    open spec fn same(a: Seq<Seq<char>>, b: Seq<Seq<char>>) -> bool {
        collide(a, b)
    }

    fn alike(a: &Vec<String>, b: &Vec<String>) -> (r: bool) {
        match (record_hash(a), record_hash(b)) {
            (Some(x), Some(y)) => !x.as_str().is_empty() && *x == *y,
            _ => false,
        }
    }
}

/// The order of records by hash, as a relation.
pub open spec fn hash_order() -> spec_fn(Seq<Seq<char>>, Seq<Seq<char>>) -> bool {
    ranking::<Vec<String>, HashOrder>()
}

/// Colliding, as a relation.
pub open spec fn same_hash() -> spec_fn(Seq<Seq<char>>, Seq<Seq<char>>) -> bool {
    likeness::<Vec<String>, SameHash>()
}

/// What the collision resolver leaves of `records`: they are sorted by
/// hash, stably, and of each run of colliding records the first stays.
pub open spec fn resolved(records: Seq<Seq<Seq<char>>>) -> Seq<Seq<Seq<char>>> {
    drop_repeats(stable_sort(records, hash_order()), same_hash())
}

/// The order of records by hash is a strict weak order.
pub proof fn lemma_hash_order_is_strict_weak()
    ensures
        strict_weak_order(hash_order()),
{
    let lt = hash_order();
    assert forall|a: Seq<Seq<char>>| !#[trigger] lt(a, a) by {
        lemma_opt_text_lt_total(hash_column(a), hash_column(a));
    }
    assert forall|a: Seq<Seq<char>>, b: Seq<Seq<char>>, c: Seq<Seq<char>>| #[trigger]
        lt(a, b) && #[trigger] lt(b, c) implies lt(a, c) by {
        lemma_opt_text_lt_transitive(hash_column(a), hash_column(b), hash_column(c));
    }
    assert forall|a: Seq<Seq<char>>, b: Seq<Seq<char>>, c: Seq<Seq<char>>| !#[trigger] lt(a, b)
        && !#[trigger] lt(b, c) implies !lt(a, c) by {
        lemma_opt_text_lt_total(hash_column(a), hash_column(b));
        lemma_opt_text_lt_total(hash_column(b), hash_column(c));
        lemma_opt_text_lt_transitive(hash_column(b), hash_column(a), hash_column(c));
    }
}

/// What the resolver leaves is ordered by hash, holds only records that
/// were there, and no two neighbours of it collide.
pub proof fn lemma_resolved(records: Seq<Seq<Seq<char>>>)
    ensures
        ordered(resolved(records), hash_order()),
        crate::order::no_repeats(resolved(records), same_hash()),
        resolved(records).len() <= records.len(),
        forall|x: Seq<Seq<char>>| #[trigger] resolved(records).contains(x) ==> records.contains(x),
{
    lemma_hash_order_is_strict_weak();
    lemma_stable_sort(records, hash_order());
    let sorted = stable_sort(records, hash_order());
    lemma_drop_repeats(sorted, same_hash(), hash_order());
    assert forall|x: Seq<Seq<char>>| #[trigger] resolved(records).contains(x) implies records.contains(
        x,
    ) by {
        assert(sorted.contains(x));
        crate::order::lemma_stable_sort_contains(records, hash_order(), x);
    }
}

/// A record with which no earlier record collides is left by the
/// resolver: of the records with one hash that is not empty, the first.
pub proof fn lemma_first_of_each_hash_stays(records: Seq<Seq<Seq<char>>>, i: int)
    requires
        0 <= i < records.len(),
        forall|j: int| 0 <= j < i ==> !collide(#[trigger] records[j], records[i]),
    ensures
        resolved(records).contains(records[i]),
{
    let sorted = stable_sort(records, hash_order());
    assert forall|a: Seq<Seq<char>>, b: Seq<Seq<char>>| #[trigger]
        hash_order()(a, b) implies !same_hash()(a, b) by {
        lemma_opt_text_lt_total(hash_column(a), hash_column(a));
    }
    assert(crate::order::stands_first(records, records[i], same_hash(), i));
    crate::order::lemma_stable_sort_keeps_first(records, hash_order(), same_hash(), i);
    let k = choose|k: int| crate::order::stands_first(sorted, records[i], same_hash(), k);
    crate::order::lemma_drop_repeats_keeps(sorted, same_hash(), k);
}

/// Every record without a hash, or with an empty one, is left by the
/// resolver.
pub proof fn lemma_records_without_hash_stay(records: Seq<Seq<Seq<char>>>, i: int)
    requires
        0 <= i < records.len(),
        !(hash_column(records[i]) matches Some(h) && h.len() > 0),
    ensures
        resolved(records).contains(records[i]),
{
    lemma_first_of_each_hash_stays(records, i);
}

/// Resolving collisions a second time changes nothing.
pub proof fn lemma_resolving_is_idempotent(records: Seq<Seq<Seq<char>>>)
    ensures
        resolved(resolved(records)) == resolved(records),
{
    lemma_resolved(records);
    let once = resolved(records);
    lemma_stable_sort_of_ordered(once, hash_order());
    lemma_drop_repeats_of_none(once, same_hash());
}

/// No two records that the resolver leaves have the same hash, unless it
/// is empty.
pub proof fn lemma_resolved_has_no_collision(records: Seq<Seq<Seq<char>>>, i: int, j: int)
    requires
        0 <= i < j < resolved(records).len(),
    ensures
        !collide(resolved(records)[i], resolved(records)[j]),
{
    lemma_resolved(records);
    lemma_hash_order_is_strict_weak();
    let d = resolved(records);
    if j == i + 1 {
        assert(!same_hash()(d[i], d[i + 1]));
    } else if collide(d[i], d[j]) {
        // the record between them has a hash between theirs, so the same
        let lt = hash_order();
        assert(!lt(d[i + 1], d[i]));
        assert(!lt(d[j], d[i + 1]));
        lemma_opt_text_lt_total(hash_column(d[i]), hash_column(d[i + 1]));
        lemma_opt_text_lt_total(hash_column(d[i + 1]), hash_column(d[j]));
        if hash_column(d[i]) != hash_column(d[i + 1]) {
            assert(opt_text_lt(hash_column(d[i]), hash_column(d[i + 1])));
            assert(lt(d[j], d[i + 1]));
        }
        assert(same_hash()(d[i], d[i + 1]));
    }
}

/// Removes the records that collide with one before them: sorts the
/// records by hash, stably, and keeps the first of each run of records
/// with the same hash that is not empty.
pub fn resolve_collisions(records: Vec<Vec<String>>) -> (r: Vec<Vec<String>>)
    ensures
        r.deep_view() == resolved(records.deep_view()),
{
    let sorted = sort_by::<Vec<String>, HashOrder>(records);
    dedup_by::<Vec<String>, SameHash>(sorted)
}

/// Handles collisions in the text `data` of a cache file, where several
/// records have the same hash: gives the text of the file with the
/// colliding records removed.
pub fn handle_collision(data: &[u8]) -> (r: Result<Vec<u8>, AppError>)
    ensures
        written(resolved(records_in(data@)), r),
{
    let records = read_records(data);
    let kept = resolve_collisions(records);
    write_records(&kept)
}

} // verus!
