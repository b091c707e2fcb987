//! Small helpers: supported audio formats, optional fields, and turning an
//! ordering round.

use crate::order::reversed;
use crate::text::{eq_ignoring_ascii_case, parse_u16, parse_unsigned, same_ignoring_ascii_case};
use core::cmp::Ordering;
use vstd::prelude::*;
use vstd::string::*;

verus! {

/// The audio formats that the library indexes.
#[derive(Debug, Clone, Copy, PartialEq, Eq, Structural)]
pub enum SupportedAudio {
    MP3,
    WAV,
    VORBIS,
    FLAC,
    AAC,
}

/// The format that a file extension names, whatever the case of its
/// letters. Vorbis has two extensions, `vorbis` and `ogg`.
pub open spec fn audio_format(ext: Seq<char>) -> Option<SupportedAudio> {
    if same_ignoring_ascii_case(ext, "mp3"@) {
        Some(SupportedAudio::MP3)
    } else if same_ignoring_ascii_case(ext, "wav"@) {
        Some(SupportedAudio::WAV)
    } else if same_ignoring_ascii_case(ext, "vorbis"@) || same_ignoring_ascii_case(ext, "ogg"@) {
        Some(SupportedAudio::VORBIS)
    } else if same_ignoring_ascii_case(ext, "flac"@) {
        Some(SupportedAudio::FLAC)
    } else if same_ignoring_ascii_case(ext, "aac"@) {
        Some(SupportedAudio::AAC)
    } else {
        None
    }
}

impl SupportedAudio {
    /// The format that the extension `ext` names, if it is a supported one.
    pub fn from_extension(ext: &str) -> (r: Option<SupportedAudio>)
        ensures
            r == audio_format(ext@),
    {
        proof {
            reveal_strlit("mp3");
            reveal_strlit("wav");
            reveal_strlit("vorbis");
            reveal_strlit("ogg");
            reveal_strlit("flac");
            reveal_strlit("aac");
        }
        if eq_ignoring_ascii_case(ext, "mp3") {
            Some(SupportedAudio::MP3)
        } else if eq_ignoring_ascii_case(ext, "wav") {
            Some(SupportedAudio::WAV)
        } else if eq_ignoring_ascii_case(ext, "vorbis") || eq_ignoring_ascii_case(ext, "ogg") {
            Some(SupportedAudio::VORBIS)
        } else if eq_ignoring_ascii_case(ext, "flac") {
            Some(SupportedAudio::FLAC)
        } else if eq_ignoring_ascii_case(ext, "aac") {
            Some(SupportedAudio::AAC)
        } else {
            None
        }
    }
}

/// The extension that `std::path::Path::extension` finds in a path, on the
/// platform that the library is built for.
pub uninterp spec fn path_extension(path: Seq<char>) -> Option<Seq<char>>;

/// The final component that `std::path::Path::file_name` finds in a path,
/// on the platform that the library is built for.
pub uninterp spec fn path_file_name(path: Seq<char>) -> Option<Seq<char>>;

/// `std::path::Path::extension` on the path `path`. The contract names its
/// result and claims of it only that a path with an extension has a file
/// name: the extension is a part of the file name, and there is none where
/// there is no file name.
#[verifier::external_body]
pub(crate) fn extension_of(path: &str) -> (r: Option<String>)
    ensures
        r.deep_view() == path_extension(path@),
        r is Some ==> path_file_name(path@) is Some,
{
    std::path::Path::new(path).extension().map(|ext| ext.to_string_lossy().to_string())
}

/// `std::path::Path::file_name` on the path `path`. The contract names its
/// result and claims nothing of it.
#[verifier::external_body]
pub(crate) fn file_name_of(path: &str) -> (r: Option<String>)
    ensures
        r.deep_view() == path_file_name(path@),
{
    std::path::Path::new(path).file_name().map(|name| name.to_string_lossy().to_string())
}

/// Whether an extension, if there is one, names a supported format.
pub open spec fn supported_extension(ext: Option<Seq<char>>) -> bool {
    match ext {
        Some(e) => audio_format(e) is Some,
        None => false,
    }
}

/// Whether the extension found in a path names a supported audio format.
pub fn is_supported_extension(ext: &Option<String>) -> (r: bool)
    ensures
        r == supported_extension(ext.deep_view()),
{
    match ext {
        Some(e) => SupportedAudio::from_extension(e.as_str()).is_some(),
        None => false,
    }
}

/// Returns true if the path names a file of a supported audio format.
/// Such a path has a file name.
pub fn is_supported_audio(path: &str) -> (r: bool)
    ensures
        r == supported_extension(path_extension(path@)),
        r ==> path_file_name(path@) is Some,
{
    let ext = extension_of(path);
    is_supported_extension(&ext)
}

/// A type of value that a cache column can hold.
pub trait Field: DeepView + Sized {
    /// What a non-empty column `text` holds: what it reads as, or the
    /// default of the type where it cannot be read.
    spec fn read(text: Seq<char>) -> Self::V;

    /// Computes `read`.
    fn read_or_default(text: &str) -> (r: Self)
        ensures
            r.deep_view() == Self::read(text@),
    ;
}

impl Field for String {
    open spec fn read(text: Seq<char>) -> Seq<char> {
        text
    }

    fn read_or_default(text: &str) -> (r: String) {
        text.to_owned()
    }
}

impl Field for u16 {
    open spec fn read(text: Seq<char>) -> u16 {
        match parse_unsigned(text, 65535) {
            Some(v) => v as u16,
            None => 0,
        }
    }

    fn read_or_default(text: &str) -> (r: u16) {
        match parse_u16(text) {
            Some(v) => v,
            None => 0,
        }
    }
}

/// What a cache column holds: nothing where it is empty, else what it
/// reads as.
pub open spec fn field_of<T: Field>(text: Seq<char>) -> Option<T::V> {
    if text.len() == 0 {
        None
    } else {
        Some(T::read(text))
    }
}

/// Converts an empty string to `None` and any other to what it reads as.
pub fn empty_to_option<T: Field>(text: &str) -> (r: Option<T>)
    ensures
        r.deep_view() == field_of::<T>(text@),
{
    if text.is_empty() {
        None
    } else {
        Some(T::read_or_default(text))
    }
}

/// The opposite ordering.
pub open spec fn reversed_order(ord: Ordering) -> Ordering {
    match ord {
        Ordering::Less => Ordering::Greater,
        Ordering::Equal => Ordering::Equal,
        Ordering::Greater => Ordering::Less,
    }
}

/// Turns an ordering round, if there is one.
pub fn reverse_ord_option(ord: Option<Ordering>) -> (r: Option<Ordering>)
    ensures
        r == match ord {
            Some(o) => Some(reversed_order(o)),
            None => None,
        },
{
    match ord {
        Some(o) => Some(reverse_ord(o)),
        None => None,
    }
}

/// Turns an ordering round: less becomes greater and greater less.
pub fn reverse_ord(ord: Ordering) -> (r: Ordering)
    ensures
        r == reversed_order(ord),
{
    match ord {
        Ordering::Less => Ordering::Greater,
        Ordering::Equal => Ordering::Equal,
        Ordering::Greater => Ordering::Less,
    }
}

/// Turning an ordering round twice gives it back.
pub proof fn lemma_reversed_twice(ord: Ordering)
    ensures
        reversed_order(reversed_order(ord)) == ord,
{
}

/// Whether the path names a file of a supported audio format.
pub open spec fn supported_path(path: Seq<char>) -> bool {
    supported_extension(path_extension(path))
}

/// Naming a file of a supported audio format, as a property of paths.
pub open spec fn supported() -> spec_fn(Seq<char>) -> bool {
    |path: Seq<char>| supported_path(path)
}

/// The paths among `paths` that name files of a supported audio format,
/// in their order.
pub fn supported_paths(paths: Vec<String>) -> (r: Vec<String>)
    ensures
        r.deep_view() == paths.deep_view().filter(supported()),
{
    let ghost whole = paths.deep_view();
    let ghost n = whole.len();
    let mut rest = reversed(paths);
    let mut out: Vec<String> = Vec::new();
    proof {
        reveal(Seq::filter);
        assert(whole.subrange(0, 0) =~= Seq::<Seq<char>>::empty());
        assert(out.deep_view() =~= whole.subrange(0, 0).filter(supported()));
    }
    while rest.len() > 0
        invariant
            n == whole.len(),
            rest@.len() <= n,
            forall|i: int| 0 <= i < rest@.len() ==> (#[trigger] rest@[i])@ == whole[n - 1 - i],
            out.deep_view() == whole.subrange(0, n - rest@.len()).filter(supported()),
        decreases rest@.len(),
    {
        let ghost k = n - rest@.len();
        let ghost kept = out.deep_view();
        let path = rest.pop().unwrap();
        proof {
            reveal(Seq::filter);
            let next = whole.subrange(0, k + 1);
            assert(next.drop_last() =~= whole.subrange(0, k));
            assert(next.last() == path@);
        }
        if is_supported_audio(path.as_str()) {
            out.push(path);
            assert(out.deep_view() =~= kept.push(path@));
        }
    }
    assert(whole.subrange(0, n as int) =~= whole);
    out
}

/// Whether an extension, if there is one, is that of a cover image: `png`
/// or `jpg`, in lower case.
pub open spec fn cover_extension(ext: Option<Seq<char>>) -> bool {
    match ext {
        Some(e) => e == "png"@ || e == "jpg"@,
        None => false,
    }
}

/// Whether the path names a cover image.
pub fn is_cover_image(path: &str) -> (r: bool)
    ensures
        r == cover_extension(path_extension(path@)),
{
    match extension_of(path) {
        Some(ext) => ext == String::from_str("png") || ext == String::from_str("jpg"),
        None => false,
    }
}

/// The first of `paths` that names a cover image, if one does.
pub fn first_cover(paths: &Vec<String>) -> (r: Option<usize>)
    ensures
        match r {
            Some(i) => {
                &&& i < paths@.len()
                &&& cover_extension(path_extension(paths@[i as int]@))
                &&& forall|j: int|
                    0 <= j < i ==> !cover_extension(path_extension((#[trigger] paths@[j])@))
            },
            None => forall|j: int|
                0 <= j < paths@.len() ==> !cover_extension(path_extension((#[trigger] paths@[j])@)),
        },
{
    let n = paths.len();
    let mut i: usize = 0;
    while i < n
        invariant
            i <= n,
            n == paths@.len(),
            forall|j: int| 0 <= j < i ==> !cover_extension(path_extension((#[trigger] paths@[j])@)),
        decreases n - i,
    {
        if is_cover_image(paths[i].as_str()) {
            return Some(i);
        }
        i += 1;
    }
    None
}

} // verus!
