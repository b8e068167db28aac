use dataingester::suffix::{
    prepare_filename, scan_suffixes, CountSuffix, FileLimit, SuffixScheme, TimestampSuffix,
    TimestampSuffixScheme,
};

#[test]
fn timestamp_ordering() {
    assert!(
        TimestampSuffix {
            timestamp: "2021".to_string(),
            number: None
        } < TimestampSuffix {
            timestamp: "2020".to_string(),
            number: None
        }
    );
    assert!(
        TimestampSuffix {
            timestamp: "2021".to_string(),
            number: Some(1)
        } < TimestampSuffix {
            timestamp: "2021".to_string(),
            number: None
        }
    );
}

#[test]
fn count_suffix_rotation_and_limit() {
    let mut scheme = CountSuffix::new(3);
    assert_eq!(scheme.rotate_file("log", None, &None), 1);
    assert_eq!(scheme.rotate_file("log", Some(&1), &Some(2)), 3);
    assert!(!scheme.too_old(&1, 2));
    assert!(scheme.too_old(&1, 3));
}

#[test]
fn count_suffix_parses_numbers() {
    let scheme = CountSuffix::new(3);
    assert_eq!(scheme.parse("7"), Some(7));
    assert_eq!(scheme.parse("007"), Some(7));
    assert_eq!(scheme.parse(""), None);
    assert_eq!(scheme.parse("7a"), None);
}

#[test]
fn timestamp_scheme_parses_its_format() {
    let scheme = TimestampSuffixScheme::default(FileLimit::MaxFiles(2));
    let r = scheme.parse("20210911T121830").unwrap();
    assert_eq!(r.timestamp, "20210911T121830");
    assert_eq!(r.number, None);

    let r = scheme.parse("20210911T121830.3").unwrap();
    assert_eq!(r.timestamp, "20210911T121830");
    assert_eq!(r.number, Some(3));

    assert!(scheme.parse("garbage").is_none());
    assert!(scheme.parse("20210911T121830.x").is_none());
    // an incomplete or out-of-range time is not a datetime in this format
    assert!(scheme.parse("20210911T1218").is_none());
    assert!(scheme.parse("20211350T121830").is_none());
}

#[test]
fn timestamp_rotation_advances_tie_breaker() {
    let mut scheme = TimestampSuffixScheme::default(FileLimit::MaxFiles(2));
    let first = scheme.rotate_file("log", None, &None);
    assert_eq!(first.number, None);
    // rotating again while the clock still renders the same text bumps the number
    let second = scheme.rotate_file("log", Some(&first), &None);
    if second.timestamp == first.timestamp {
        assert_eq!(second.number, Some(1));
    } else {
        assert_eq!(second.number, None);
    }
}

#[test]
fn prepare_filename_strips_compression_mark() {
    assert_eq!(prepare_filename("all.log.1.gz"), ("all.log.1", true));
    assert_eq!(prepare_filename("all.log.1"), ("all.log.1", false));
    assert_eq!(prepare_filename("gz"), ("gz", false));
}

#[test]
fn scan_finds_rotated_companions_sorted() {
    let scheme = TimestampSuffixScheme::default(FileLimit::Age(604800));
    let names = vec![
        String::from("all.log.20210911T121830"),
        String::from("all.log.20210911T121831.gz"),
        String::from("all.log"),
        String::from("other.txt"),
    ];
    let found = scan_suffixes(&scheme, "all.log", &names);
    assert_eq!(found.len(), 2);
    // most recent first: the later timestamp sorts before the earlier one
    assert_eq!(found[0].suffix.timestamp, "20210911T121831");
    assert!(found[0].compressed);
    assert_eq!(found[1].suffix.timestamp, "20210911T121830");
    assert!(!found[1].compressed);
}

#[test]
fn scan_with_count_scheme_orders_numerically() {
    let scheme = CountSuffix::new(10);
    let names = vec![
        String::from("log.3"),
        String::from("log.1"),
        String::from("log.2.gz"),
        String::from("log.nope"),
    ];
    let found = scan_suffixes(&scheme, "log", &names);
    assert_eq!(found.len(), 3);
    assert_eq!(found[0].suffix, 1);
    assert_eq!(found[1].suffix, 2);
    assert!(found[1].compressed);
    assert_eq!(found[2].suffix, 3);
}

#[test]
fn checked_rotation_probes_the_format() {
    let mut good = TimestampSuffixScheme::default(FileLimit::MaxFiles(2));
    let first = good.checked_rotate_file("log", None, &None).unwrap();
    assert_eq!(first.number, None);

    // a format that does not render (a stray specifier) yields nothing
    // instead of aborting
    let mut bad = TimestampSuffixScheme::with_format("%", FileLimit::MaxFiles(2));
    assert!(bad.checked_rotate_file("log", None, &None).is_none());
}

#[test]
fn checked_age_limit_probes_the_format() {
    let good = TimestampSuffixScheme::default(FileLimit::Age(604800));
    let suffix = TimestampSuffix { timestamp: String::from("20210911T121830"), number: None };
    assert!(good.checked_too_old(&suffix, 0).is_some());

    let bad = TimestampSuffixScheme::with_format("%", FileLimit::Age(604800));
    assert!(bad.checked_too_old(&suffix, 0).is_none());

    // a file-count limit never consults the clock, so the verdict is exact
    let counted = TimestampSuffixScheme::with_format("%", FileLimit::MaxFiles(3));
    assert_eq!(counted.checked_too_old(&suffix, 2), Some(false));
    assert_eq!(counted.checked_too_old(&suffix, 3), Some(true));
}
