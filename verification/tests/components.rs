use std::collections::hash_map::DefaultHasher;
use std::hash::{Hash, Hasher};

use winpinner_rust::calculate_hash;
use winpinner_rust::utils::{active_window_number, getactivewindow, ProcessWmList};
use winpinner_rust::WinPinner;

#[test]
fn test_get_active_win() {
    let res = getactivewindow("52428806\n");
    println!("{:#?}", res);
    assert_eq!(res, Some("0x3200006".to_string()));
}

#[test]
fn test_hash() {
    let op = calculate_hash(&"0x06000");
    println!("{:#?}", op);
    let mut s = DefaultHasher::new();
    "0x06000".hash(&mut s);
    assert_eq!(op, s.finish());
}

#[test]
fn hash_is_the_same_for_equal_names() {
    let owned = String::from("brave-browser");
    assert_eq!(calculate_hash("brave-browser"), calculate_hash(owned.as_str()));
    assert_ne!(calculate_hash("brave-browser"), calculate_hash("arandr"));
}

#[test]
fn active_window_empty_output_is_none() {
    assert_eq!(getactivewindow(""), None);
}

#[test]
fn active_window_zero_and_small() {
    assert_eq!(getactivewindow("0"), Some("0x0".to_string()));
    assert_eq!(getactivewindow("  15  "), Some("0xf".to_string()));
    assert_eq!(getactivewindow("16\n"), Some("0x10".to_string()));
    assert_eq!(getactivewindow("+255"), Some("0xff".to_string()));
}

#[test]
fn active_window_negative_is_twos_complement() {
    assert_eq!(getactivewindow("-1"), Some("0xffffffff".to_string()));
    assert_eq!(getactivewindow("-2147483648"), Some("0x80000000".to_string()));
    assert_eq!(getactivewindow("2147483647"), Some("0x7fffffff".to_string()));
}

#[test]
fn active_window_number_rejects_what_parse_rejects() {
    for s in ["", "+", "-", "abc", "12a", "2147483648", "-2147483649", "99999999999999", "1 2"] {
        assert_eq!(active_window_number(s), s.trim().parse::<i32>().ok(), "input {:?}", s);
    }
    for s in ["0", "007", "-0", "+42", " 52428806 ", "-2147483648", "2147483647"] {
        assert_eq!(active_window_number(s), s.trim().parse::<i32>().ok(), "input {:?}", s);
    }
}

#[test]
fn add_win_keeps_the_first_record() {
    let mut w = WinPinner::new();
    let first = ProcessWmList::fetch("0x1 0 a.A host one\n");
    let second = ProcessWmList::fetch("0x1 0 b.B host two\n");
    w.add_win(&first, "0x1".to_string());
    w.add_win(&second, "0x1".to_string());
    assert_eq!(w.win_storage.get("0x1"), Some(&"0x1 0 a.A host one".to_string()));
    w.add_win(&second, "0x2".to_string());
    assert_eq!(w.win_storage.get("0x2"), None);
    w.append_active_window(&second, "0x1".to_string());
    assert_eq!(w.win_storage.len(), 1);
}
