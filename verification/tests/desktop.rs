use prompt_pocket::desktop::{
    foreground_matches_app_window, is_allowed_external_url, is_text_input_signal,
    is_uia_text_input_candidate, should_inject_after_hotkey, should_mark_first_run_done,
    TextFocusSignal, FOCUS_RESTORE_POLL_MS, FOCUS_RESTORE_TIMEOUT_MS, GLOBAL_HOTKEY,
};

#[test]
fn paste_injection_requires_hotkey_origin_and_returned_caret() {
    assert!(should_inject_after_hotkey(true, true));
    assert!(!should_inject_after_hotkey(false, true));
    assert!(!should_inject_after_hotkey(true, false));
    assert!(!should_inject_after_hotkey(false, false));
}

#[test]
fn focus_restore_polling_is_short_and_bounded() {
    let poll_ms = FOCUS_RESTORE_POLL_MS;
    let timeout_ms = FOCUS_RESTORE_TIMEOUT_MS;
    assert!(poll_ms <= 10);
    assert!(timeout_ms <= 120);
    assert!(timeout_ms >= poll_ms);
}

#[test]
fn text_focus_signal_accepts_uia_and_legacy_caret() {
    assert!(is_text_input_signal(TextFocusSignal::UiaTextInput));
    assert!(is_text_input_signal(TextFocusSignal::GuiCaret));
    assert!(!is_text_input_signal(TextFocusSignal::NoFocus));
}

#[test]
fn uia_candidate_detects_modern_text_inputs_without_legacy_caret() {
    assert!(is_uia_text_input_candidate(true, true, false, false, false, false));
    assert!(is_uia_text_input_candidate(true, false, true, false, true, false));
    assert!(is_uia_text_input_candidate(true, false, false, false, false, true));
}

#[test]
fn uia_candidate_rejects_non_focusable_or_weak_value_controls() {
    assert!(!is_uia_text_input_candidate(false, true, false, true, true, true));
    assert!(!is_uia_text_input_candidate(true, false, false, true, false, false));
    assert!(!is_uia_text_input_candidate(true, false, false, false, true, false));
}

#[test]
fn global_hotkey_stays_ctrl_alt_p() {
    assert_eq!(GLOBAL_HOTKEY, "Ctrl+Alt+P");
}

#[test]
fn first_run_marker_is_written_only_after_visible_window() {
    assert!(should_mark_first_run_done(true, true));
    assert!(!should_mark_first_run_done(true, false));
    assert!(!should_mark_first_run_done(false, true));
    assert!(!should_mark_first_run_done(false, false));
}

#[test]
fn foreground_match_accepts_webview_child_window() {
    assert!(foreground_matches_app_window(true, false));
    assert!(foreground_matches_app_window(false, true));
    assert!(!foreground_matches_app_window(false, false));
}

#[test]
fn open_url_allows_only_external_safe_protocols() {
    assert!(is_allowed_external_url("https://example.com"));
    assert!(is_allowed_external_url("http://example.com"));
    assert!(is_allowed_external_url("HTTPS://example.com/?a=1&b=2"));
    assert!(is_allowed_external_url("mailto:hello@example.com"));
    assert!(!is_allowed_external_url("javascript:alert(1)"));
    assert!(!is_allowed_external_url("file:///C:/Windows/System32/calc.exe"));
    assert!(!is_allowed_external_url("./local-file.md"));
}
