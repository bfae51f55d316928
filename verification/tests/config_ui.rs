use runin::config_ui::{clear_if_corrupt, normalize_include_root_input, normalize_input};

#[test]
fn clear_if_corrupt_clears_when_control_chars_present() {
    let mut value = "qwen\x1b[A".to_string();
    clear_if_corrupt(&mut value);
    assert_eq!(value, "");
}

#[test]
fn clear_if_corrupt_keeps_clean_value() {
    let mut value = "qwen --fast".to_string();
    clear_if_corrupt(&mut value);
    assert_eq!(value, "qwen --fast");
}

#[test]
fn normalize_input_returns_none_for_empty() {
    assert_eq!(normalize_input(""), None);
}

#[test]
fn normalize_input_returns_none_for_corrupt_value() {
    assert_eq!(normalize_input("\x1b[A"), None);
}

#[test]
fn normalize_input_returns_clean_value() {
    assert_eq!(normalize_input("nvim ."), Some("nvim .".to_string()));
}

#[test]
fn normalize_include_root_input_keeps_current_on_empty() {
    assert_eq!(normalize_include_root_input(""), Ok(None));
}

#[test]
fn normalize_include_root_input_accepts_yes() {
    assert_eq!(normalize_include_root_input("y"), Ok(Some(true)));
    assert_eq!(normalize_include_root_input("Y"), Ok(Some(true)));
}

#[test]
fn normalize_include_root_input_accepts_no() {
    assert_eq!(normalize_include_root_input("n"), Ok(Some(false)));
    assert_eq!(normalize_include_root_input("N"), Ok(Some(false)));
}

#[test]
fn normalize_include_root_input_rejects_invalid() {
    assert_eq!(normalize_include_root_input("yes"), Err(()));
}

#[test]
fn clear_if_corrupt_clears_on_c1_control_and_delete() {
    let mut value = "abc\u{7f}".to_string();
    clear_if_corrupt(&mut value);
    assert_eq!(value, "");
    let mut value = "abc\u{85}def".to_string();
    clear_if_corrupt(&mut value);
    assert_eq!(value, "");
    let mut value = "caf\u{e9} \u{a0}".to_string();
    clear_if_corrupt(&mut value);
    assert_eq!(value, "caf\u{e9} \u{a0}");
}

#[test]
fn normalize_input_refuses_tab_and_newline() {
    assert_eq!(normalize_input("a\tb"), None);
    assert_eq!(normalize_input("a\n"), None);
    assert_eq!(normalize_input(" "), Some(" ".to_string()));
}

#[test]
fn normalize_include_root_input_rejects_other_letters_and_spaces() {
    assert_eq!(normalize_include_root_input("x"), Err(()));
    assert_eq!(normalize_include_root_input(" y"), Err(()));
    assert_eq!(normalize_include_root_input("no"), Err(()));
}
