use winpinner_rust::utils::{process_command, win_root_tree};
use winpinner_rust::{WinPinner, WinstateError};

const XWININFO_OUTPUT: &str = "
xwininfo: Window id: 0x1e1 (the root window) (has no name)

  Root window id: 0x1e1 (the root window) (has no name)
  Parent window id: 0x0 (none)
     2 children:
     0x2a00007 \"Display\": (\"arandr\" \"Arandr\")  500x400+0+0  +0+0
     0x3200004 \"New Tab - Brave\": (\"brave-browser\" \"Brave-browser\")  1920x1043+0+37  +0+37
";

#[test]
fn test_fetch_appid() {
    let mut wp = WinPinner::new();
    let mock = "arandr";
    let tree = process_command(XWININFO_OUTPUT);
    let found = win_root_tree(&tree, mock);
    match wp.fetch_appid(mock, found) {
        Ok(stda) => {
            let o = stda.split_whitespace().next();
            assert!(o.is_some());
            let mut slice = o.unwrap().chars();
            assert!(slice.next() == Some('0'));
            assert!(slice.next() == Some('x'));
            println!("app {} has id of {}", mock, stda);
        }
        Err(e) => {
            println!("Error type {:#?}", e);
            panic!("Test Failed")
        }
    }
}

#[test]
fn test_toggle() {
    let mut w = WinPinner::new();
    // The user is in a terminal and asks for the browser.
    let first = w.toggle_mechanism("0x1000001".to_string(), "0x3200004".to_string());
    assert_eq!(first, "0x3200004");
    // Now in the browser: toggling goes back to where the user came from.
    let second = w.toggle_mechanism("0x3200004".to_string(), "0x3200004".to_string());
    assert_eq!(second, "0x1000001");
    assert_eq!(w.winstack, vec!["0x1000001".to_string(), "0x3200004".to_string()]);
}

#[test]
fn toggle_from_the_app_first_stays() {
    let mut w = WinPinner::new();
    let t = w.toggle_mechanism("0x3200004".to_string(), "0x3200004".to_string());
    assert_eq!(t, "0x3200004");
}

#[test]
fn fetch_appid_caches_the_first_answer() {
    let mut w = WinPinner::new();
    assert_eq!(w.cached_appid("brave-browser"), None);
    let r = w.fetch_appid("brave-browser", Some("0x3200004".to_string()));
    assert_eq!(r.ok(), Some("0x3200004".to_string()));
    assert_eq!(w.cached_appid("brave-browser"), Some("0x3200004".to_string()));
    let again = w.fetch_appid("brave-browser", Some("0x9999999".to_string()));
    assert_eq!(again.ok(), Some("0x3200004".to_string()));
    let cached_even_if_gone = w.fetch_appid("brave-browser", None);
    assert_eq!(cached_even_if_gone.ok(), Some("0x3200004".to_string()));
}

#[test]
fn fetch_appid_not_found() {
    let mut w = WinPinner::new();
    let r = w.fetch_appid("arandr", None);
    assert!(matches!(r, Err(WinstateError::NotFound)));
    assert_eq!(w.cached_appid("arandr"), None);
    assert!(w.app_cache.is_empty());
}

#[test]
fn fetch_appid_keeps_other_applications() {
    let mut w = WinPinner::new();
    let _ = w.fetch_appid("brave-browser", Some("0x3200004".to_string()));
    let r = w.fetch_appid("arandr", Some("0x2a00007".to_string()));
    assert_eq!(r.ok(), Some("0x2a00007".to_string()));
    assert_eq!(w.cached_appid("brave-browser"), Some("0x3200004".to_string()));
    assert_eq!(w.cached_appid_by_hash(winpinner_rust::calculate_hash("arandr")), Some("0x2a00007".to_string()));
    assert_eq!(w.app_cache.len(), 2);
}

#[test]
fn note_window_pushes_on_top() {
    let mut w = WinPinner::new();
    w.note_window("0x1000001".to_string());
    w.note_window("0x2000002".to_string());
    assert_eq!(w.winstack, vec!["0x1000001".to_string(), "0x2000002".to_string()]);
    let t = w.toggle_mechanism("0x3".to_string(), "0x3".to_string());
    assert_eq!(t, "0x1000001");
}
