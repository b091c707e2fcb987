//! Album dates: their text form, their reading and their order.

use crate::text::{padded, push_padded};
use core::cmp::Ordering;
use vstd::prelude::*;
use vstd::std_specs::cmp::PartialOrdSpecImpl;
use vstd::string::*;

verus! {

/// A release date. The year is always known; month and day may be missing.
#[derive(Debug, PartialEq, Eq, Copy, Clone, Hash, Structural)]
pub struct AlbumDate {
    pub year: u32,
    pub month: Option<u8>,
    pub day: Option<u8>,
}

/// A date that may be absent. An absent date is ordered after every date.
#[derive(Debug, PartialEq, Eq, Copy, Clone, Hash, Structural)]
pub struct SomeAlbumDate(pub Option<AlbumDate>);

/// What `chrono` reads in `text` as a date written year, month, day with
/// dots between them: the year, the month counted from 0 and the day of the
/// month counted from 0, or `None` where it reads no such date.
pub uninterp spec fn dotted_date(text: Seq<char>) -> Option<(i32, u32, u32)>;

/// `chrono::NaiveDate::parse_from_str` with the format `%Y.%m.%d`, and the
/// accessors `year`, `month0` and `day0` of `chrono::Datelike` on its result.
/// The contract names what is read and claims that a month counted from 0 is
/// at most 11, a day counted from 0 at most 30, and that the empty text
/// holds no date.
#[verifier::external_body]
fn read_dotted_date(text: &str) -> (r: Option<(i32, u32, u32)>)
    ensures
        r == dotted_date(text@),
        r matches Some(parts) ==> parts.1 <= 11 && parts.2 <= 30,
        text@.len() == 0 ==> r is None,
{
    match chrono::NaiveDate::parse_from_str(text, "%Y.%m.%d") {
        Ok(date) => Some(
            (
                chrono::Datelike::year(&date),
                chrono::Datelike::month0(&date),
                chrono::Datelike::day0(&date),
            ),
        ),
        Err(_) => None,
    }
}

/// Whether `a` comes before `b` where a missing number comes first.
pub open spec fn opt_num_lt(a: Option<int>, b: Option<int>) -> bool {
    match (a, b) {
        (None, Some(_)) => true,
        (Some(x), Some(y)) => x < y,
        _ => false,
    }
}

/// A missing month or day as a missing number.
pub open spec fn opt_u8_int(a: Option<u8>) -> Option<int> {
    match a {
        Some(x) => Some(x as int),
        None => None,
    }
}

/// Whether `a` is strictly earlier than `b`: by year, then month, then day,
/// a missing month or day before a given one.
pub open spec fn date_lt(a: AlbumDate, b: AlbumDate) -> bool {
    if a.year != b.year {
        a.year < b.year
    } else if a.month != b.month {
        opt_num_lt(opt_u8_int(a.month), opt_u8_int(b.month))
    } else {
        opt_num_lt(opt_u8_int(a.day), opt_u8_int(b.day))
    }
}

/// Whether `a` is ordered strictly before `b`, an absent date last.
pub open spec fn some_date_lt(a: SomeAlbumDate, b: SomeAlbumDate) -> bool {
    match (a.0, b.0) {
        (Some(x), Some(y)) => date_lt(x, y),
        (Some(_), None) => true,
        _ => false,
    }
}

/// The date that the parts read from a text stand for: the year as an
/// unsigned number, month and day counted from 1.
pub open spec fn album_date_from(parts: Option<(i32, u32, u32)>) -> Option<AlbumDate> {
    match parts {
        Some((year, month0, day0)) => Some(
            AlbumDate {
                year: year as u32,
                month: Some((month0 + 1) as u8),
                day: Some((day0 + 1) as u8),
            },
        ),
        None => None,
    }
}

/// The date that a text holds: none where the text is empty or nothing is
/// read in it.
pub open spec fn date_of_text(text: Seq<char>) -> Option<AlbumDate> {
    if text.len() == 0 {
        None
    } else {
        album_date_from(dotted_date(text))
    }
}

fn opt_u8_less(a: Option<u8>, b: Option<u8>) -> (r: bool)
    ensures
        r == opt_num_lt(opt_u8_int(a), opt_u8_int(b)),
{
    match (a, b) {
        (None, Some(_)) => true,
        (Some(x), Some(y)) => x < y,
        _ => false,
    }
}

impl AlbumDate {
    /// The text form: the year in four digits, then a dot and the month in
    /// two, then a dot and the day in two, as far as month and day are
    /// known. A number with more digits is written in full.
    pub open spec fn text(self) -> Seq<char> {
        padded(self.year as nat, 4) + (match self.month {
            Some(m) => seq!['.'] + padded(m as nat, 2),
            None => Seq::<char>::empty(),
        }) + (match self.day {
            Some(d) => seq!['.'] + padded(d as nat, 2),
            None => Seq::<char>::empty(),
        })
    }

    /// Whether month and day are given and are numbers of a calendar: a
    /// month from 1 to 12 and a day from 1 to 31.
    pub open spec fn in_calendar(self) -> bool {
        &&& self.month matches Some(m) && 1 <= m <= 12
        &&& self.day matches Some(d) && 1 <= d <= 31
    }

    /// The date for the parts that were read from a text.
    pub fn from_parts(parts: Option<(i32, u32, u32)>) -> (r: Option<AlbumDate>)
        requires
            parts matches Some(p) ==> p.1 <= 11 && p.2 <= 30,
        ensures
            r == album_date_from(parts),
            r matches Some(d) ==> d.in_calendar(),
    {
        match parts {
            Some((year, month0, day0)) => Some(
                AlbumDate {
                    year: #[verifier::truncate]
                    (year as u32),
                    month: Some((month0 + 1) as u8),
                    day: Some((day0 + 1) as u8),
                },
            ),
            None => None,
        }
    }

    /// Reads a date written as year, month and day with dots between them.
    /// Any other text gives no date. A date that is read has a month
    /// from 1 to 12 and a day from 1 to 31.
    pub fn parse(text: &str) -> (r: Option<AlbumDate>)
        ensures
            r == date_of_text(text@),
            r matches Some(d) ==> d.in_calendar(),
    {
        AlbumDate::from_parts(read_dotted_date(text))
    }

    /// Whether the text form of this date is read back as this date.
    pub open spec fn reads_back(self) -> bool {
        date_of_text(self.text()) == Some(self)
    }

    /// Writes the date and reads it again, and says whether the same date
    /// came back.
    pub fn is_read_back(&self) -> (r: bool)
        ensures
            r == self.reads_back(),
    {
        let text = self.to_string();
        match AlbumDate::parse(text.as_str()) {
            Some(d) => SomeAlbumDate(Some(d)).same(&SomeAlbumDate(Some(*self))),
            None => false,
        }
    }

    /// The text form of the date.
    pub fn to_string(&self) -> (r: String)
        ensures
            r@ == self.text(),
    {
        let mut out = String::new();
        push_padded(&mut out, self.year as u128, 4);
        proof {
            reveal_strlit(".");
            assert(out@ =~= padded(self.year as nat, 4));
        }
        let ghost year_text = out@;
        if let Some(m) = self.month {
            out.append(".");
            push_padded(&mut out, m as u128, 2);
            assert(out@ =~= year_text + (seq!['.'] + padded(m as nat, 2))) by {
                assert("."@ =~= seq!['.']);
            }
        } else {
            assert(out@ =~= year_text + Seq::<char>::empty());
        }
        let ghost month_text = out@;
        if let Some(d) = self.day {
            out.append(".");
            push_padded(&mut out, d as u128, 2);
            assert(out@ =~= month_text + (seq!['.'] + padded(d as nat, 2))) by {
                assert("."@ =~= seq!['.']);
            }
        } else {
            assert(out@ =~= month_text + Seq::<char>::empty());
        }
        out
    }

    /// Whether this date is strictly earlier than `other`.
    pub fn is_before(&self, other: &AlbumDate) -> (r: bool)
        ensures
            r == date_lt(*self, *other),
    {
        if self.year != other.year {
            self.year < other.year
        } else if !opt_u8_same(self.month, other.month) {
            opt_u8_less(self.month, other.month)
        } else {
            opt_u8_less(self.day, other.day)
        }
    }
}

fn opt_u8_same(a: Option<u8>, b: Option<u8>) -> (r: bool)
    ensures
        r == (a == b),
{
    match (a, b) {
        (None, None) => true,
        (Some(x), Some(y)) => x == y,
        _ => false,
    }
}

impl SomeAlbumDate {
    /// Whether this date is ordered strictly before `other`, an absent date
    /// after every date.
    pub fn is_before(&self, other: &SomeAlbumDate) -> (r: bool)
        ensures
            r == some_date_lt(*self, *other),
    {
        match (&self.0, &other.0) {
            (Some(x), Some(y)) => x.is_before(y),
            (Some(_), None) => true,
            _ => false,
        }
    }

    /// Whether the two are the same date, or both absent.
    pub fn same(&self, other: &SomeAlbumDate) -> (r: bool)
        ensures
            r == (*self == *other),
    {
        match (&self.0, &other.0) {
            (Some(x), Some(y)) => x.year == y.year && opt_u8_same(x.month, y.month) && opt_u8_same(
                x.day,
                y.day,
            ),
            (None, None) => true,
            _ => false,
        }
    }
}

/// No date comes before itself, and of two different dates exactly one
/// comes before the other.
pub proof fn lemma_date_lt_total(a: AlbumDate, b: AlbumDate)
    ensures
        a == b || date_lt(a, b) || date_lt(b, a),
        !(date_lt(a, b) && date_lt(b, a)),
        !date_lt(a, a),
{
}

/// A date that is earlier than an earlier one is earlier than the later one.
pub proof fn lemma_date_lt_transitive(a: AlbumDate, b: AlbumDate, c: AlbumDate)
    requires
        date_lt(a, b),
        date_lt(b, c),
    ensures
        date_lt(a, c),
{
}

/// The same for dates that may be absent.
pub proof fn lemma_some_date_lt_total(a: SomeAlbumDate, b: SomeAlbumDate)
    ensures
        a == b || some_date_lt(a, b) || some_date_lt(b, a),
        !(some_date_lt(a, b) && some_date_lt(b, a)),
        !some_date_lt(a, a),
{
    if let (Some(x), Some(y)) = (a.0, b.0) {
        lemma_date_lt_total(x, y);
    }
}

/// The same for dates that may be absent.
pub proof fn lemma_some_date_lt_transitive(a: SomeAlbumDate, b: SomeAlbumDate, c: SomeAlbumDate)
    requires
        some_date_lt(a, b),
        some_date_lt(b, c),
    ensures
        some_date_lt(a, c),
{
    if let (Some(x), Some(y), Some(z)) = (a.0, b.0, c.0) {
        lemma_date_lt_transitive(x, y, z);
    }
}

/// An absent date is ordered after every date that is given.
pub proof fn lemma_absent_date_is_last(d: AlbumDate)
    ensures
        some_date_lt(SomeAlbumDate(Some(d)), SomeAlbumDate(None)),
        !some_date_lt(SomeAlbumDate(None), SomeAlbumDate(Some(d))),
{
}

/// The ordering of two values of which the first comes before the second,
/// or after it, or neither.
pub open spec fn ordering_by(before: bool, after: bool) -> Ordering {
    if before {
        Ordering::Less
    } else if after {
        Ordering::Greater
    } else {
        Ordering::Equal
    }
}

impl AlbumDate {
    /// How this date is ordered against `other`: by year, then month, then
    /// day.
    pub fn cmp(&self, other: &AlbumDate) -> (r: Ordering)
        ensures
            r == ordering_by(date_lt(*self, *other), date_lt(*other, *self)),
    {
        proof {
            lemma_date_lt_total(*self, *other);
        }
        if self.is_before(other) {
            Ordering::Less
        } else if other.is_before(self) {
            Ordering::Greater
        } else {
            Ordering::Equal
        }
    }
}

impl PartialOrd for AlbumDate {
    fn partial_cmp(&self, other: &AlbumDate) -> (r: Option<Ordering>) {
        Some(self.cmp(other))
    }
}

impl PartialOrdSpecImpl for AlbumDate {
    open spec fn obeys_partial_cmp_spec() -> bool {
        true
    }

    open spec fn partial_cmp_spec(&self, other: &AlbumDate) -> Option<Ordering> {
        Some(ordering_by(date_lt(*self, *other), date_lt(*other, *self)))
    }
}

impl SomeAlbumDate {
    /// How this date is ordered against `other`, an absent date greater
    /// than every date.
    pub fn cmp(&self, other: &SomeAlbumDate) -> (r: Ordering)
        ensures
            r == ordering_by(some_date_lt(*self, *other), some_date_lt(*other, *self)),
    {
        if self.is_before(other) {
            Ordering::Less
        } else if other.is_before(self) {
            Ordering::Greater
        } else {
            Ordering::Equal
        }
    }
}

impl PartialOrd for SomeAlbumDate {
    fn partial_cmp(&self, other: &SomeAlbumDate) -> (r: Option<Ordering>) {
        Some(self.cmp(other))
    }
}

impl PartialOrdSpecImpl for SomeAlbumDate {
    open spec fn obeys_partial_cmp_spec() -> bool {
        true
    }

    open spec fn partial_cmp_spec(&self, other: &SomeAlbumDate) -> Option<Ordering> {
        Some(ordering_by(some_date_lt(*self, *other), some_date_lt(*other, *self)))
    }
}

} // verus!
