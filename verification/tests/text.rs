use trx_client::num::to_signed;
use trx_client::order::{less_text, order_by_number, order_by_text};
use trx_client::table::Table;
use trx_client::text::{
    contains, dedup_ids, ends_with, i64_text, list_eq, parse_unsigned, replace, starts_with,
    to_lower, trim, u64_text,
};

fn texts(list: &[&str]) -> Vec<String> {
    list.iter().map(|s| s.to_string()).collect()
}

#[test]
fn white_space_around_a_text_goes() {
    for s in ["", "  ", " a b ", "\u{a0}x\u{2003}", "\u{feff}y", "\ta\u{85}"] {
        assert_eq!(trim(s), s.trim());
        assert_eq!(trim(&trim(s)), trim(s));
    }
}

#[test]
fn capitals_become_small() {
    for s in ["ABC", "aBc1", "ÄÖ", ""] {
        assert_eq!(to_lower(s), s.to_ascii_lowercase());
        assert_eq!(to_lower(&to_lower(s)), to_lower(s));
    }
}

#[test]
fn numbers_are_read_as_std_reads_them() {
    for s in ["0", "7", "+7", "007", "", "+", "-1", " 1", "1 ", "99999999999999999999", "18446744073709551615", "1e3"] {
        assert_eq!(parse_unsigned(s, u64::MAX), s.parse::<u64>().ok());
    }
    for s in ["255", "256", "+12", "x"] {
        assert_eq!(parse_unsigned(s, 255), s.parse::<u8>().ok().map(u64::from));
    }
}

#[test]
fn numbers_are_written_as_std_writes_them() {
    for n in [0u64, 9, 10, 14_074_000, u64::MAX] {
        assert_eq!(u64_text(n), n.to_string());
        assert_eq!(parse_unsigned(&u64_text(n), u64::MAX), Some(n));
    }
    for n in [0i64, -1, -10, 7, i64::MIN, i64::MAX] {
        assert_eq!(i64_text(n), n.to_string());
    }
    assert_eq!(to_signed(u64::MAX), u64::MAX as i64);
    assert_eq!(to_signed(5), 5);
}

#[test]
fn parts_are_found_and_replaced() {
    assert!(contains("abcd", "bc"));
    assert!(contains("abcd", ""));
    assert!(!contains("abcd", "ac"));
    assert!(starts_with("abc", "ab") && !starts_with("abc", "bc"));
    assert!(ends_with("abc", "bc") && !ends_with("abc", "ab"));
    for (s, from, to) in [("{a}-{a}", "{a}", "x"), ("aaa", "aa", "b"), ("abc", "z", "y"), ("aa", "a", "aa")] {
        assert_eq!(replace(s, from, to), s.replace(from, to));
    }
}

#[test]
fn repeated_ids_are_kept_once() {
    let ids = texts(&["b", "a", "b", "", "a"]);
    let once = dedup_ids(&ids);
    assert_eq!(once, texts(&["b", "a", ""]));
    assert_eq!(dedup_ids(&once), once);
    assert_eq!(dedup_ids(&texts(&["c", "c", "a", "b", "a"])), texts(&["c", "a", "b"]));
    assert!(list_eq(&once, &texts(&["b", "a", ""])));
    assert!(!list_eq(&once, &texts(&["b", "a"])));
}

#[test]
fn texts_are_ordered_as_std_orders_them() {
    let list = ["", "a", "ab", "b", "Z", "\u{e4}", "\u{1f600}", "\u{ffff}"];
    for a in list {
        for b in list {
            assert_eq!(less_text(a, b), a < b, "{a:?} {b:?}");
        }
    }
    let keys = texts(&["b", "a", "c", "a"]);
    assert_eq!(order_by_text(&keys, false), vec![1, 3, 0, 2]);
    assert_eq!(order_by_text(&keys, true), vec![2, 0, 1, 3]);
    assert_eq!(order_by_number(&vec![5, 1, 5, 0]), vec![3, 1, 0, 2]);
}

#[test]
fn tables_keep_the_last_value_of_a_key() {
    let mut table: Table<u8> = Table::new();
    table.insert("a", 1);
    table.insert("b", 2);
    table.insert("a", 3);
    assert_eq!(table.get("a"), Some(&3));
    assert_eq!(table.entries.len(), 2);
    assert_eq!(table.remove("a"), Some(3));
    assert!(!table.contains_key("a"));
    assert_eq!(table.remove("a"), None);
    assert_eq!(table.get("b"), Some(&2));
}
