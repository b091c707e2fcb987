use mpd2k::date::{AlbumDate, SomeAlbumDate};
use mpd2k::text::{
    decimal_string, eq_ignoring_ascii_case, parse_u16, push_decimal, push_padded, text_less,
};
use mpd2k::util::{
    empty_to_option, is_supported_audio, is_supported_extension, reverse_ord, reverse_ord_option,
    SupportedAudio,
};
use std::cmp::Ordering;

#[test]
fn decimal_numerals() {
    assert_eq!(decimal_string(0), "0");
    assert_eq!(decimal_string(7), "7");
    assert_eq!(decimal_string(10), "10");
    assert_eq!(decimal_string(65535), "65535");
    assert_eq!(decimal_string(u128::MAX), u128::MAX.to_string());
}

#[test]
fn decimal_is_appended() {
    let mut s = "track ".to_string();
    push_decimal(&mut s, 42);
    assert_eq!(s, "track 42");
}

#[test]
fn parses_unsigned_numbers() {
    assert_eq!(parse_u16("0"), Some(0));
    assert_eq!(parse_u16("3"), Some(3));
    assert_eq!(parse_u16("007"), Some(7));
    assert_eq!(parse_u16("+5"), Some(5));
    assert_eq!(parse_u16("65535"), Some(65535));
}

#[test]
fn refuses_what_is_no_unsigned_number() {
    for text in ["", "+", "-1", "65536", "99999999999999999999", "1 ", " 1", "1_0", "++1", "x", "١"] {
        assert_eq!(parse_u16(text), None);
        assert_eq!(parse_u16(text), text.parse::<u16>().ok());
    }
}

#[test]
fn parse_agrees_with_the_numeral() {
    for n in [0u16, 1, 9, 10, 99, 100, 12345, 65535] {
        assert_eq!(parse_u16(&decimal_string(n as u128)), Some(n));
    }
}

#[test]
fn strings_are_ordered_by_their_bytes() {
    let words = ["", "a", "A", "ab", "b", "abc", "é", "z", "日本", "a\u{10000}", "a\u{ffff}"];
    for a in words {
        for b in words {
            assert_eq!(text_less(a, b), a < b);
        }
    }
}

#[test]
fn compares_ignoring_ascii_case() {
    assert!(eq_ignoring_ascii_case("FLAC", "flac"));
    assert!(eq_ignoring_ascii_case("FlAc", "flac"));
    assert!(!eq_ignoring_ascii_case("flac1", "flac"));
    assert!(!eq_ignoring_ascii_case("fla", "flac"));
    assert!(!eq_ignoring_ascii_case("flaç", "flac"));
    assert!(eq_ignoring_ascii_case("", ""));
}

#[test]
fn names_the_supported_formats() {
    assert_eq!(SupportedAudio::from_extension("mp3"), Some(SupportedAudio::MP3));
    assert_eq!(SupportedAudio::from_extension("WAV"), Some(SupportedAudio::WAV));
    assert_eq!(SupportedAudio::from_extension("Vorbis"), Some(SupportedAudio::VORBIS));
    assert_eq!(SupportedAudio::from_extension("ogg"), Some(SupportedAudio::VORBIS));
    assert_eq!(SupportedAudio::from_extension("OGG"), Some(SupportedAudio::VORBIS));
    assert_eq!(SupportedAudio::from_extension("og"), None);
    assert_eq!(SupportedAudio::from_extension("flac"), Some(SupportedAudio::FLAC));
    assert_eq!(SupportedAudio::from_extension("aAc"), Some(SupportedAudio::AAC));
    assert_eq!(SupportedAudio::from_extension("txt"), None);
    assert_eq!(SupportedAudio::from_extension(""), None);
}

#[test]
fn supported_files_by_extension() {
    for path in
        ["/m/a.mp3", "/m/a.wav", "/m/a.vorbis", "/music/a.ogg", "/m/a.flac", "/m/a.aac", "/m/A.FLAC"]
    {
        assert!(is_supported_audio(path));
    }
    for path in ["/m/a.txt", "/m/a", "/m/.flac", "/m/a.flac/b", "", "/m/a.mp3.bak", "/m/flac"] {
        assert!(!is_supported_audio(path));
    }
}

#[test]
fn an_absent_extension_is_not_supported() {
    assert!(!is_supported_extension(&None));
    assert!(is_supported_extension(&Some("mp3".to_string())));
    assert!(!is_supported_extension(&Some("jpg".to_string())));
}

#[test]
fn empty_text_is_no_value() {
    assert_eq!(empty_to_option::<String>(""), None);
    assert_eq!(empty_to_option::<u16>(""), None);
    assert_eq!(empty_to_option::<String>("x"), Some("x".to_string()));
    assert_eq!(empty_to_option::<u16>("12"), Some(12));
    assert_eq!(empty_to_option::<u16>("twelve"), Some(0));
}

#[test]
fn orderings_are_turned_round() {
    assert_eq!(reverse_ord(Ordering::Less), Ordering::Greater);
    assert_eq!(reverse_ord(Ordering::Equal), Ordering::Equal);
    assert_eq!(reverse_ord(Ordering::Greater), Ordering::Less);
    assert_eq!(reverse_ord_option(Some(Ordering::Less)), Some(Ordering::Greater));
    assert_eq!(reverse_ord_option(Some(Ordering::Equal)), Some(Ordering::Equal));
    assert_eq!(reverse_ord_option(Some(Ordering::Greater)), Some(Ordering::Less));
    assert_eq!(reverse_ord_option(None), None);
}

#[test]
fn reads_dotted_dates() {
    assert_eq!(
        AlbumDate::parse("2020.01.01"),
        Some(AlbumDate { year: 2020, month: Some(1), day: Some(1) })
    );
    assert_eq!(
        AlbumDate::parse("1987.12.31"),
        Some(AlbumDate { year: 1987, month: Some(12), day: Some(31) })
    );
    assert_eq!(
        AlbumDate::parse("2024.2.29"),
        Some(AlbumDate { year: 2024, month: Some(2), day: Some(29) })
    );
    assert_eq!(AlbumDate::parse(""), None);
    assert_eq!(AlbumDate::parse("2020"), None);
    assert_eq!(AlbumDate::parse("2023.02.29"), None);
    assert_eq!(AlbumDate::parse("2020/01/01"), None);
}

#[test]
fn date_from_parts_counts_from_one() {
    assert_eq!(
        AlbumDate::from_parts(Some((2020, 0, 0))),
        Some(AlbumDate { year: 2020, month: Some(1), day: Some(1) })
    );
    assert_eq!(
        AlbumDate::from_parts(Some((1999, 11, 30))),
        Some(AlbumDate { year: 1999, month: Some(12), day: Some(31) })
    );
    assert_eq!(
        AlbumDate::from_parts(Some((-1, 5, 6))),
        Some(AlbumDate { year: u32::MAX, month: Some(6), day: Some(7) })
    );
    assert_eq!(AlbumDate::from_parts(None), None);
}

#[test]
fn writes_dates_with_dots() {
    assert_eq!(AlbumDate { year: 2020, month: Some(1), day: Some(1) }.to_string(), "2020.01.01");
    assert_eq!(AlbumDate { year: 1999, month: Some(12), day: Some(31) }.to_string(), "1999.12.31");
    assert_eq!(AlbumDate { year: 33, month: Some(4), day: Some(5) }.to_string(), "0033.04.05");
    assert_eq!(AlbumDate { year: 12345, month: Some(6), day: Some(7) }.to_string(), "12345.06.07");
    assert_eq!(AlbumDate { year: 2020, month: Some(11), day: None }.to_string(), "2020.11");
    assert_eq!(AlbumDate { year: 2020, month: None, day: Some(5) }.to_string(), "2020.05");
    assert_eq!(AlbumDate { year: 0, month: None, day: None }.to_string(), "0000");
    assert_eq!(AlbumDate { year: 1, month: Some(200), day: None }.to_string(), "0001.200");
}

#[test]
fn full_dates_are_read_back() {
    assert!(AlbumDate { year: 2020, month: Some(1), day: Some(1) }.is_read_back());
    assert!(AlbumDate { year: 1999, month: Some(12), day: Some(31) }.is_read_back());
    assert!(AlbumDate { year: 33, month: Some(4), day: Some(5) }.is_read_back());
    assert!(!AlbumDate { year: 2020, month: None, day: None }.is_read_back());
    assert!(!AlbumDate { year: 2020, month: Some(2), day: Some(30) }.is_read_back());
}

#[test]
fn dates_are_ordered_by_year_month_day() {
    let d = |year, month, day| AlbumDate { year, month, day };
    assert!(d(2019, Some(12), Some(31)).is_before(&d(2020, Some(1), Some(1))));
    assert!(d(2020, Some(1), Some(31)).is_before(&d(2020, Some(2), Some(1))));
    assert!(d(2020, Some(1), Some(1)).is_before(&d(2020, Some(1), Some(2))));
    assert!(d(2020, None, Some(9)).is_before(&d(2020, Some(1), Some(1))));
    assert!(d(2020, Some(1), None).is_before(&d(2020, Some(1), Some(1))));
    assert!(!d(2020, Some(1), Some(1)).is_before(&d(2020, Some(1), Some(1))));
    assert!(!d(2020, Some(1), Some(1)).is_before(&d(2019, Some(12), Some(31))));
}

#[test]
fn an_absent_date_is_last() {
    let some = SomeAlbumDate(Some(AlbumDate { year: 9999, month: Some(12), day: Some(31) }));
    let none = SomeAlbumDate(None);
    assert!(some.is_before(&none));
    assert!(!none.is_before(&some));
    assert!(!none.is_before(&none));
    assert!(none.same(&none));
    assert!(!none.same(&some));
    assert!(some.same(&some));
}

#[test]
fn numerals_are_padded_with_zeros() {
    let mut s = String::new();
    push_padded(&mut s, 7, 2);
    assert_eq!(s, "07");
    push_padded(&mut s, 12, 2);
    assert_eq!(s, "0712");
    push_padded(&mut s, 123, 2);
    assert_eq!(s, "0712123");
    push_padded(&mut s, 0, 4);
    assert_eq!(s, "07121230000");
    push_padded(&mut s, 5, 0);
    assert_eq!(s, "071212300005");
}
