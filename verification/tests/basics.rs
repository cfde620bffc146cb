use flotilla_core::digest::{
    bytes_digest, convoy_ensure_name, hex_of, static_ssh_environment_id, text_digest, transient_checkout_session_name,
};
use flotilla_core::ordered::{same_texts, sort_dedup, sort_strs, OrderedMap, OrderedSet};
use flotilla_core::text::{
    char_is_space, concat2, concat9, decimal_str, join_strs, opt_eq, opt_is, signed_decimal_str, str_blank, str_ends, str_has_char,
    str_has_text, str_lt, str_replace, str_rsplit_once, str_split, str_split_once, str_starts, str_trim, string_of, strs_hold,
};
use flotilla_core::time::Timestamp;

fn texts(items: &[&str]) -> Vec<String> {
    items.iter().map(|item| item.to_string()).collect()
}

fn noon() -> Timestamp {
    Timestamp::at(1786795200, 0).expect("an instant")
}

#[test]
fn texts_are_searched_and_cut() {
    assert!(str_starts("flotilla/core", "flotilla"));
    assert!(!str_starts("core", "flotilla"));
    assert!(str_ends("main.rs", ".rs"));
    assert!(!str_ends("s", ".rs"));
    assert!(str_has_text("one two", "e t"));
    assert!(str_has_text("one", ""));
    assert!(!str_has_text("one", "two"));
    assert!(str_has_char("a@b", '@'));
    assert_eq!(str_split_once("a=b=c", '='), Some(("a".to_string(), "b=c".to_string())));
    assert_eq!(str_split_once("abc", '='), None);
    assert_eq!(str_rsplit_once("a/b/c", '/'), Some(("a/b".to_string(), "c".to_string())));
    assert_eq!(str_split("a,,b", ','), texts(&["a", "", "b"]));
    assert_eq!(str_split("", ','), texts(&[""]));
    assert_eq!(str_replace("a @ b @ c", " @ ", "@"), "a@b@c");
    assert_eq!(string_of(&"flotilla".chars().collect(), 2, 5), "oti");
}

#[test]
fn blank_texts_hold_nothing_but_space() {
    assert_eq!(str_trim("  a b\t\n"), "a b");
    assert_eq!(str_trim(" \u{a0}\u{2003}x\u{3000} "), "x");
    assert!(str_blank(" \u{2028}\r\n"));
    assert!(str_blank(""));
    assert!(!str_blank(" . "));
    assert!(char_is_space('\u{85}'));
    assert!(!char_is_space('\u{200b}'));
}

#[test]
fn the_space_characters_are_those_of_the_standard_library() {
    for code in 0u32..0x1_0000 {
        if let Some(c) = char::from_u32(code) {
            assert_eq!(char_is_space(c), c.is_whitespace(), "{code:x}");
        }
    }
}

#[test]
fn texts_are_joined_and_compared() {
    assert_eq!(join_strs(&texts(&["a", "b", "c"]), ", "), "a, b, c");
    assert_eq!(join_strs(&vec![], ", "), "");
    assert_eq!(concat2("a", "b"), "ab");
    assert_eq!(concat9("1", "2", "3", "4", "5", "6", "7", "8", "9"), "123456789");
    assert!(str_lt("abc", "abd"));
    assert!(str_lt("ab", "abc"));
    assert!(!str_lt("b", "abc"));
    assert!(str_lt("z", "\u{e9}"));
    assert!(opt_is(&Some("a".to_string()), "a"));
    assert!(!opt_is(&None, ""));
    assert!(opt_eq(&None, &None));
    assert!(!opt_eq(&Some("a".to_string()), &None));
    assert!(strs_hold(&texts(&["a", "b"]), "b"));
    assert!(!strs_hold(&texts(&["a", "b"]), "c"));
}

#[test]
fn numbers_are_written_in_decimal() {
    assert_eq!(decimal_str(0), "0");
    assert_eq!(decimal_str(1048576), "1048576");
    assert_eq!(decimal_str(u64::MAX), "18446744073709551615");
    assert_eq!(signed_decimal_str(-75), "-75");
    assert_eq!(signed_decimal_str(i64::MIN), "-9223372036854775808");
}

#[test]
fn an_ordered_set_keeps_its_items_in_order_and_once() {
    let mut set = OrderedSet::new();
    assert!(set.is_empty());
    assert!(set.insert("b".to_string()));
    assert!(set.insert("a".to_string()));
    assert!(!set.insert("b".to_string()));
    assert_eq!(set.len(), 2);
    assert_eq!(set.item(0), "a");
    assert_eq!(set.to_vec(), texts(&["a", "b"]));
    assert!(set.contains("b"));
    assert!(!set.contains("c"));
    let larger = OrderedSet::from_strs(&texts(&["c", "b", "a", "c"]));
    assert!(set.is_subset(&larger));
    assert!(!larger.is_subset(&set));
    assert_eq!(larger.copy(), larger);
}

#[test]
fn texts_are_sorted_with_and_without_repeats() {
    assert_eq!(sort_strs(&texts(&["b", "a", "b"])), texts(&["a", "b", "b"]));
    assert_eq!(sort_dedup(&texts(&["b", "a", "b"])), texts(&["a", "b"]));
}

#[test]
fn an_ordered_map_keeps_its_keys_in_order() {
    let mut map: OrderedMap<u32> = OrderedMap::new();
    map.insert("b".to_string(), 2);
    map.insert("a".to_string(), 1);
    map.insert("b".to_string(), 3);
    assert_eq!(map.len(), 2);
    assert_eq!(map.key(0), "a");
    assert_eq!(map.value(1), &3);
    assert_eq!(map.get("b"), Some(&3));
    assert_eq!(map.get("c"), None);
    assert!(map.contains_key("a"));
    assert!(map.remove("a"));
    assert!(!map.remove("a"));
    assert_eq!(map.len(), 1);
}

#[test]
fn maps_of_texts_are_equal_when_their_entries_are() {
    let mut a: OrderedMap<String> = OrderedMap::new();
    let mut b: OrderedMap<String> = OrderedMap::new();
    a.insert("x".to_string(), "1".to_string());
    a.insert("y".to_string(), "2".to_string());
    b.insert("y".to_string(), "2".to_string());
    assert!(!same_texts(&a, &b));
    b.insert("x".to_string(), "1".to_string());
    assert!(same_texts(&a, &b));
    b.insert("x".to_string(), "3".to_string());
    assert!(!same_texts(&a, &b));
}

#[test]
fn instants_are_written_and_read() {
    assert_eq!(noon().to_rfc3339(), "2026-08-15T12:00:00+00:00");
    assert_eq!(noon().to_date(), "2026-08-15");
    assert_eq!(noon().to_text(), "2026-08-15 12:00:00 UTC");
    assert_eq!(Timestamp::from_rfc3339("2026-08-15T14:00:00+02:00"), Some(noon()));
    assert_eq!(Timestamp::from_rfc3339(&noon().to_rfc3339()), Some(noon()));
    assert_eq!(Timestamp::from_rfc3339("yesterday"), None);
    assert_eq!(Timestamp::from_rfc3339("2026-08-15T12:00:00.5Z"), Timestamp::at(1786795200, 500_000_000));
}

#[test]
fn instants_are_compared_and_moved() {
    let later = noon().plus_secs(90).expect("an instant");
    assert!(noon().is_before(&later));
    assert!(!later.is_before(&noon()));
    assert_eq!(later.since(&noon()), 90_000_000_000);
    assert_eq!(later.seconds_since(&noon()), 90);
    assert_eq!(noon().seconds_since(&later), -90);
    let half = Timestamp::at(1786795200, 500_000_000).expect("an instant");
    assert_eq!(later.seconds_since(&half), 89);
    assert_eq!(half.seconds_since(&later), -89);
    assert_eq!(half.whole_secs(), 1786795200);
    assert_eq!(half.fraction_nanos(), 500_000_000);
}

#[test]
fn spans_agree_with_chrono_across_leap_seconds() {
    let cases: [(i64, u32); 5] = [(59, 1_500_000_000), (60, 0), (59, 999_999_999), (86459, 1_000_000_000), (-1, 1_999_999_999)];
    for (a_secs, a_nanos) in cases {
        for (b_secs, b_nanos) in cases {
            let a = Timestamp::at(a_secs, a_nanos).expect("an instant");
            let b = Timestamp::at(b_secs, b_nanos).expect("an instant");
            let chrono_a = chrono::DateTime::<chrono::Utc>::from_timestamp(a_secs, a_nanos).expect("an instant");
            let chrono_b = chrono::DateTime::<chrono::Utc>::from_timestamp(b_secs, b_nanos).expect("an instant");
            let expected = chrono_a.signed_duration_since(chrono_b);
            assert_eq!(a.since(&b), expected.num_seconds() as i128 * 1_000_000_000 + expected.subsec_nanos() as i128);
            assert_eq!(a.seconds_since(&b), expected.num_seconds());
            assert_eq!(a.is_before(&b), chrono_a < chrono_b);
        }
    }
}

#[test]
fn instants_end_where_those_of_chrono_do() {
    assert_eq!(Timestamp::at(8210266876800, 0), None);
    assert!(Timestamp::at(8210266876799, 0).is_some());
    assert!(chrono::DateTime::<chrono::Utc>::from_timestamp(8210266876799, 0).is_some());
    assert!(chrono::DateTime::<chrono::Utc>::from_timestamp(8210266876800, 0).is_none());
    assert!(Timestamp::at(-8334601228800, 0).is_some());
    assert!(chrono::DateTime::<chrono::Utc>::from_timestamp(-8334601228800, 0).is_some());
    assert!(chrono::DateTime::<chrono::Utc>::from_timestamp(-8334601228801, 0).is_none());
    assert_eq!(Timestamp::at(-8334601228801, 0), None);
    assert_eq!(Timestamp::at(58, 1_000_000_000), None);
    assert!(chrono::DateTime::<chrono::Utc>::from_timestamp(58, 1_000_000_000).is_none());
    assert_eq!(Timestamp::at(8210266876799, 0).expect("an instant").plus_secs(1), None);
}

#[test]
fn digests_are_written_in_hexadecimal() {
    assert_eq!(bytes_digest(&b"abc".to_vec()), "ba7816bf8f01cfea414140de5dae2223b00361a396177a9cb410ff61f20015ad");
    assert_eq!(text_digest("abc", 4), "ba7816bf");
    assert_eq!(text_digest("", 2), "e3b0");
    assert_eq!(hex_of(&[0, 255, 16], 3), "00ff10");
}

#[test]
fn ensure_and_session_names_are_digests_of_their_parts() {
    assert_eq!(
        convoy_ensure_name("standing-project", "quartermaster"),
        "ensure-d0b71a3971221f3a2d7db8d4fff64f801a5b886782363b7e0ce0e8c2b428a219"
    );
    assert_eq!(transient_checkout_session_name("kiwi", "/work/app"), "flotilla-checkout-4dd6d10ff04d468e0a4a8f7b8517d7dc");
}

#[test]
fn declared_environments_have_distinct_identifiers() {
    assert_eq!(static_ssh_environment_id("feta"), "static-ssh-66657461");
    assert_eq!(static_ssh_environment_id(""), "static-ssh-empty");
    assert_ne!(static_ssh_environment_id("empty"), static_ssh_environment_id(""));
}
