use orchestre::sort::{stable_sort, SortOrder};
use orchestre::album::ByTrack;
use orchestre::text::{blank, decimal_text, lex_before, lex_before_folded, signed_decimal_text};
use orchestre::time::Duration;

#[test]
fn durations_are_counted_in_nanoseconds() {
    assert_eq!(Duration::from_millis(500), Duration::new(0, 500000000));
    assert_eq!(Duration::from_micros(1500000), Duration::new(1, 500000000));
    assert_eq!(Duration::from_secs(3).as_secs(), 3);
    assert_eq!(Duration::from_millis(3250).subsec_nanos(), 250000000);
    assert_eq!(Duration::from_secs(2).micros(), 2000000);
    assert_eq!(Duration::default(), Duration::from_secs(0));
}

#[test]
fn durations_saturate() {
    let longest = Duration::new(u64::MAX, 999999999);
    assert_eq!(longest.saturating_add(Duration::from_secs(1)), longest);
    assert_eq!(
        Duration::from_secs(1).saturating_sub(Duration::from_secs(2)),
        Duration::from_secs(0)
    );
    assert_eq!(
        Duration::from_secs(5).saturating_sub(Duration::from_secs(2)),
        Duration::from_secs(3)
    );
    assert!(Duration::from_micros(5000001).exceeds(&Duration::from_secs(5)));
    assert!(!Duration::from_secs(5).exceeds(&Duration::from_secs(5)));
}

#[test]
fn microseconds_are_cut_to_64_bits() {
    let longest = Duration::new(u64::MAX, 999999999);
    let whole = u64::MAX as u128 * 1000000 + 999999;
    assert_eq!(longest.micros(), whole as u64);
}

#[test]
fn numbers_are_written_in_decimal() {
    assert_eq!(decimal_text(0), "0");
    assert_eq!(decimal_text(7), "7");
    assert_eq!(decimal_text(1024), "1024");
    assert_eq!(decimal_text(u64::MAX), u64::MAX.to_string());
    assert_eq!(signed_decimal_text(1999), "1999");
    assert_eq!(signed_decimal_text(-44), "-44");
    assert_eq!(signed_decimal_text(i32::MIN), i32::MIN.to_string());
}

#[test]
fn blank_is_nothing_but_white_space() {
    for text in ["", " ", "\t\n", "\u{2003}\u{a0}", "\u{3000}"] {
        assert!(blank(text));
        assert!(text.trim().is_empty());
    }
    for text in ["a", " jazz ", "\u{200b}", "\u{feff}"] {
        assert!(!blank(text));
        assert!(!text.trim().is_empty());
    }
}

#[test]
fn titles_compare_character_by_character() {
    let titles = ["", "A", "B", "a", "ab", "b", "\u{e9}", "\u{1f600}"];
    for a in titles {
        for b in titles {
            assert_eq!(lex_before(a, b), a <= b);
            let lower = |s: &str| -> Vec<char> { s.chars().map(|c| c.to_ascii_lowercase()).collect() };
            assert_eq!(lex_before_folded(a, b), lower(a) <= lower(b));
        }
    }
    assert!(lex_before_folded("Zebra", "zebra") && lex_before_folded("zebra", "Zebra"));
    assert!(!lex_before_folded("\u{c9}", "E"));
}

#[test]
fn a_sort_is_stable_and_puts_missing_tracks_first() {
    let keys = vec![Some(3), None, Some(1), Some(3), None, Some(2)];
    assert_eq!(stable_sort(&keys, &ByTrack), vec![1, 4, 2, 5, 0, 3]);
    assert_eq!(stable_sort(&Vec::new(), &ByTrack), Vec::<usize>::new());
    assert!(ByTrack.ranks_before(&None, &Some(0)));
    assert!(!ByTrack.ranks_before(&Some(0), &None));
}

#[test]
fn a_sort_has_one_outcome() {
    let keys: Vec<Option<u32>> = (0..200u32).map(|i| Some((i * 7919) % 31)).collect();
    let mut expected: Vec<usize> = (0..200).collect();
    expected.sort_by_key(|&i| keys[i]);
    assert_eq!(stable_sort(&keys, &ByTrack), expected);
}
