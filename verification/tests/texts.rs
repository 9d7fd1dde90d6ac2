use data_browser::calendar::{civil_from_days, civil_from_unix, days_from_civil};
use data_browser::keyed::{Keyed, Names};
use data_browser::names::sorted_names;
use data_browser::number::{decimal, parse_up_to, reads_as_number};
use data_browser::state::ids::ViewId;
use data_browser::state::listing::{Filter, Grouping, Menu, Sorting};
use data_browser::state::request::{Latest, Reply};
use data_browser::text;

#[test]
fn numbers_read_back_as_they_are_written() {
    for value in [0u64, 9, 10, 4_294_967_296, u64::MAX] {
        assert_eq!(decimal(value as u128), value.to_string());
        assert_eq!(parse_up_to(&decimal(value as u128), u64::MAX), Some(value));
    }
    assert_eq!(parse_up_to("18446744073709551616", u64::MAX), None);
    assert_eq!(ViewId::parse("7"), Some(ViewId { number: 7 }));
    assert_eq!(ViewId::parse(""), None);
    assert!(reads_as_number("1.5"));
}

#[test]
fn days_and_dates_tell_each_other() {
    for days in [-719_528i64, -1, 0, 59, 19_000, 20_678] {
        let (year, month, day) = civil_from_days(days);
        assert_eq!(days_from_civil(year, month, day), days);
    }
    assert_eq!(civil_from_unix(0), (1970, 1, 1));
    assert_eq!(civil_from_unix(951_782_400), (2000, 2, 29));
}

#[test]
fn texts_are_asked_as_strings_are() {
    assert_eq!(text::trim_trailing("a//", '/'), "a".to_string().as_str());
    assert_eq!(text::rfind("a/b/c", '/'), Some(3));
    assert_eq!(text::rfind("abc", '/'), None);
    assert!(text::contains("abc", "bc") && !text::contains("abc", "cb"));
    assert!(text::starts_with("abc", "ab") && text::ends_with("abc", "bc"));
    assert!(text::is_before("а", "б") && !text::is_before("б", "а") && text::is_before("a", "aa"));
    assert_eq!(text::split("2026-08.13", &['-', '.']), ["2026", "08", "13"]);
    assert_eq!(text::join(&vec!["a".to_string(), "b".to_string()], " · "), "a · b");
    assert_eq!(text::trim("  a b\t"), "a b");
    assert_eq!(text::slice("снимок", 1, 3), "ни");
}

#[test]
fn names_are_kept_once_and_listed_in_order() {
    let mut names = Names::new();
    for name in ["b", "a", "b", "c"] {
        names.insert(name.to_string());
    }
    assert_eq!(names.len(), 3);
    assert_eq!(sorted_names(&names), ["a", "b", "c"]);
    assert!(names.remove("b") && !names.remove("b"));

    let mut table: Keyed<u32> = Keyed::new();
    table.insert("x".to_string(), 1);
    table.insert("x".to_string(), 2);
    assert_eq!((table.len(), table.get("x")), (1, Some(&2)));
    assert_eq!(table.remove("x"), Some(2));
    assert!(table.is_empty());
}

#[test]
fn only_the_last_question_has_an_answer() {
    let mut latest = Latest::new();
    latest.begin("1".to_string());
    latest.begin("2".to_string());
    assert_eq!(latest.settle("1"), Reply::Stale);
    assert_eq!(latest.settle("2"), Reply::Current);
    assert_eq!(latest.settle("2"), Reply::Stale);
}

#[test]
fn choices_travel_by_their_keys() {
    for filter in Filter::all() {
        assert_eq!(Filter::from_key(filter.key()), Some(filter));
    }
    for grouping in Grouping::all() {
        assert_eq!(Grouping::from_key(grouping.key()), Some(grouping));
    }
    for sorting in Sorting::all() {
        assert_eq!(Sorting::from_key(sorting.key()), Some(sorting));
    }
    let menu = Menu::Row("снимок".to_string());
    assert!(matches!(Menu::from_key(&menu.key()), Some(Menu::Row(key)) if key == "снимок"));
    assert!(Menu::from_key("нет такого").is_none());
}
