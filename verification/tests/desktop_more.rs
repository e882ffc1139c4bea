use prompt_pocket::desktop::{
    center_in_monitor, confine_to_root, hotkey_had_text_input, is_first_run, next_focus_poll,
    normalize_lexical, open_url_target, pick_monitor, should_hide_on_blur, strip_unc_prefix,
    text_focus_signal, toggle_hides, MonitorRect, PathPart, TextFocusSignal, PATH_OUTSIDE_ROOT,
    URL_SCHEME_REFUSED,
};

fn n(s: &str) -> PathPart {
    PathPart::Normal(s.to_string())
}

#[test]
fn focus_signals_and_hotkey() {
    assert_eq!(text_focus_signal(Some(true), false), TextFocusSignal::UiaTextInput);
    assert_eq!(text_focus_signal(Some(false), true), TextFocusSignal::GuiCaret);
    assert_eq!(text_focus_signal(None, false), TextFocusSignal::NoFocus);
    assert!(hotkey_had_text_input(false, true));
    assert!(!hotkey_had_text_input(true, true));
}

#[test]
fn focus_wait_is_bounded() {
    assert_eq!(next_focus_poll(0, 120, 10), Some(10));
    assert_eq!(next_focus_poll(115, 120, 10), Some(5));
    assert_eq!(next_focus_poll(120, 120, 10), None);
    assert_eq!(next_focus_poll(300, 120, 10), None);
}

#[test]
fn window_visibility_rules() {
    assert!(is_first_run(false));
    assert!(!is_first_run(true));
    assert!(should_hide_on_blur(false, false));
    assert!(!should_hide_on_blur(true, false));
    assert!(!should_hide_on_blur(false, true));
    assert!(toggle_hides(Some(true)));
    assert!(!toggle_hides(Some(false)));
    assert!(!toggle_hides(None));
}

#[test]
fn open_url_trims_and_checks() {
    assert_eq!(open_url_target("  https://a.b  "), Ok("https://a.b".to_string()));
    assert_eq!(open_url_target("\tMailTo:x@y"), Ok("MailTo:x@y".to_string()));
    assert_eq!(open_url_target("ftp://x"), Err(URL_SCHEME_REFUSED.to_string()));
    assert_eq!(open_url_target("nocolon"), Err(URL_SCHEME_REFUSED.to_string()));
}

#[test]
fn window_opens_on_cursor_display() {
    let monitors = vec![
        MonitorRect { x: 0, y: 0, width: 1920, height: 1080 },
        MonitorRect { x: 1920, y: 0, width: 2560, height: 1440 },
    ];
    assert_eq!(pick_monitor(&monitors, 100, 100), Some(0));
    assert_eq!(pick_monitor(&monitors, 1920, 5), Some(1));
    assert_eq!(pick_monitor(&monitors, 5000, 5), None);
    assert_eq!(center_in_monitor(&monitors[1], 960, 600), (1920 + 800, 420));
    assert_eq!(center_in_monitor(&monitors[0], 1921, 600), (0, 240));
    assert_eq!(center_in_monitor(&monitors[0], 1923, 600), (-1, 240));
}

#[test]
fn paths_normalize_lexically() {
    let p = vec![PathPart::RootDir, n("data"), PathPart::CurDir, n("a"), PathPart::ParentDir, n("b.md")];
    assert_eq!(normalize_lexical(&p), vec![PathPart::RootDir, n("data"), n("b.md")]);
    let up = vec![PathPart::RootDir, PathPart::ParentDir, PathPart::ParentDir, n("x")];
    assert_eq!(normalize_lexical(&up), vec![PathPart::RootDir, n("x")]);
    let rel = vec![PathPart::ParentDir, n("x")];
    assert_eq!(normalize_lexical(&rel), vec![n("x")]);
}

#[test]
fn escaping_paths_are_refused() {
    let root = vec![PathPart::RootDir, n("data")];
    let inside = normalize_lexical(&vec![PathPart::RootDir, n("data"), n("写作"), n("a.md")]);
    assert_eq!(confine_to_root(&root, inside.clone()), Ok(inside));
    let outside = normalize_lexical(&vec![PathPart::RootDir, n("data"), PathPart::ParentDir, n("secret.md")]);
    assert_eq!(confine_to_root(&root, outside), Err(PATH_OUTSIDE_ROOT.to_string()));
    assert_eq!(confine_to_root(&root, vec![PathPart::RootDir]), Err(PATH_OUTSIDE_ROOT.to_string()));
}

#[test]
fn verbatim_prefix_is_stripped() {
    assert_eq!(strip_unc_prefix("\\\\?\\C:\\data"), "C:\\data");
    assert_eq!(strip_unc_prefix("C:\\data"), "C:\\data");
    assert_eq!(strip_unc_prefix("/data"), "/data");
}

#[test]
fn normalizing_twice_changes_nothing_and_relative_paths_stay_inside() {
    let p = vec![PathPart::CurDir, n("a"), PathPart::ParentDir, PathPart::ParentDir, n("b"), PathPart::CurDir];
    let once = normalize_lexical(&p);
    assert_eq!(normalize_lexical(&once), once);
    assert!(once.iter().all(|x| *x != PathPart::CurDir && *x != PathPart::ParentDir));
    let root = vec![PathPart::RootDir, n("data")];
    let mut joined = root.clone();
    joined.extend(vec![n("写作"), PathPart::CurDir, n("a.md")]);
    assert!(confine_to_root(&root, normalize_lexical(&joined)).is_ok());
}
