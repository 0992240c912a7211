use winpinner_rust::utils::{pick_window, process_command, win_root_tree, ProcessWmList};
use winpinner_rust::WinPinner;

const WMCTRL_OUTPUT: &str = "0x01e00003  0 nautilus.Nautilus     host Home\n0x03200004  0 brave-browser.Brave-browser  host New Tab - Brave\n";

const XWININFO_OUTPUT: &str = "
xwininfo: Window id: 0x1e1 (the root window) (has no name)

  Root window id: 0x1e1 (the root window) (has no name)
  Parent window id: 0x0 (none)
     3 children:
     0x3200004 \"New Tab - Brave\": (\"brave-browser\" \"Brave-browser\")  1920x1043+0+37  +0+37
        1 child:
        0x3200005 (has no name): ()  1x1+-1+-1  +-1+-1
     0x1e00003 \"Home\": (\"nautilus\" \"Nautilus\")  800x600+10+10  +10+10
";

#[test]
fn test_win_tree() {
    let tree = process_command(XWININFO_OUTPUT);
    let id = win_root_tree(&tree, "brave-browser");
    assert_eq!(id, Some("0x3200004".to_string()));
}

#[test]
fn benchmark_find_with_name() {
    let o = ProcessWmList::fetch(WMCTRL_OUTPUT);
    let found = o.find_with_name("brave-browser");
    println!("each time {:?}", found);
    assert_eq!(found, Some("0x03200004  0 brave-browser.Brave-browser  host New Tab - Brave"));
}

#[test]
fn run_winpinner() {
    let mut w = WinPinner::new();
    let z = ProcessWmList::fetch(WMCTRL_OUTPUT);
    let info = z.find_with_name("brave-browser").expect("brave should be open!");
    let id = info.split_whitespace().next().unwrap();
    println!("zz {}", id);
    assert_eq!(id, "0x03200004");
    w.add_win(&z, id.to_string());
    assert_eq!(w.win_storage.get(id), Some(&info.to_string()));
}

#[test]
fn fetch_keeps_every_piece() {
    let wm = ProcessWmList::fetch("a\n\nb c\n");
    assert_eq!(wm.find_with_id("a"), Some("a"));
    assert_eq!(wm.find_with_id("b"), Some("b c"));
    assert_eq!(wm.find_with_id("c"), None);
    let empty = ProcessWmList::fetch("");
    assert_eq!(empty.find_with_id(""), None);
}

#[test]
fn find_with_id_takes_the_first_field_only() {
    let wm = ProcessWmList::fetch(WMCTRL_OUTPUT);
    assert_eq!(wm.find_with_id("0x03200004"), Some("0x03200004  0 brave-browser.Brave-browser  host New Tab - Brave"));
    assert_eq!(wm.find_with_id("0x0320000"), None);
    assert_eq!(wm.find_with_id("host"), None);
}

#[test]
fn find_with_name_compares_the_class_before_its_dot() {
    let wm = ProcessWmList::fetch("0x01800001  0 xterm.XTerm  host  bash\n0x03a00003  0 brave-browser.Brave-browser  host  New Tab\n");
    assert_eq!(wm.find_with_name("brave-browser"), Some("0x03a00003  0 brave-browser.Brave-browser  host  New Tab"));
    assert_eq!(wm.find_with_name("xterm"), Some("0x01800001  0 xterm.XTerm  host  bash"));
    assert_eq!(wm.find_with_name("XTerm"), None);
    assert_eq!(wm.find_with_name("brave-browser.Brave-browser"), None);
    assert_eq!(wm.find_with_name("brave"), None);
    let no_dot = ProcessWmList::fetch("0x1 0\n0x2 0 plain host t\n");
    assert_eq!(no_dot.find_with_name("plain"), Some("0x2 0 plain host t"));
    assert_eq!(no_dot.find_with_name("0"), None);
}

#[test]
fn process_command_drops_header_and_children() {
    let tree = process_command(XWININFO_OUTPUT);
    assert_eq!(
        tree,
        vec![
            "0x3200004 \"New Tab - Brave\": (\"brave-browser\" \"Brave-browser\")  1920x1043+0+37  +0+37".to_string(),
            "0x3200005 (has no name): ()  1x1+-1+-1  +-1+-1".to_string(),
            "0x1e00003 \"Home\": (\"nautilus\" \"Nautilus\")  800x600+10+10  +10+10".to_string(),
            "".to_string(),
        ]
    );
    assert_eq!(process_command("a\nb\nc"), Vec::<String>::new());
}

#[test]
fn win_root_tree_matches_case_insensitively() {
    let tree = process_command(XWININFO_OUTPUT);
    assert_eq!(win_root_tree(&tree, "Brave-browser"), Some("0x3200004".to_string()));
    assert_eq!(win_root_tree(&tree, "NAUTILUS"), Some("0x1e00003".to_string()));
    assert_eq!(win_root_tree(&tree, "arandr"), None);
    assert_eq!(win_root_tree(&Vec::new(), "brave"), None);
}

#[test]
fn pick_window_uses_the_given_classes() {
    let tree = vec!["0x1 a b c".to_string(), "0x2 d e f".to_string(), "".to_string()];
    let classes = vec![Some("\"nautilus\"".to_string()), Some("\"brave-browser\"".to_string()), Some("brave".to_string())];
    assert_eq!(pick_window(&tree, &classes, "brave"), Some("0x2".to_string()));
    assert_eq!(pick_window(&tree, &classes, "naut"), Some("0x1".to_string()));
    assert_eq!(pick_window(&tree, &classes, "Brave"), None);
    let no_class = vec![None, Some("x".to_string())];
    assert_eq!(pick_window(&tree, &no_class, "x"), Some("0x2".to_string()));
    assert_eq!(pick_window(&tree, &vec![None], "x"), None);
}
