use diane::cli::validade_text;
use diane::config::root_setting;

#[test]
fn test_validade_empty_note() {
    let result = validade_text("");
    assert!(result.is_err());
    assert_eq!(result.unwrap_err(), "The note cannot be empty.")
}

#[test]
fn test_validade_space_only_note() {
    let result = validade_text(" ");
    assert!(result.is_err());
    assert_eq!(result.unwrap_err(), "The note cannot be empty.")
}

#[test]
fn test_validade_accepted_note() {
    let result = validade_text(" 18:59 - valid node, nice! ");
    assert!(result.is_ok());
    assert_eq!(result.unwrap(), " 18:59 - valid node, nice! ")
}

#[test]
fn validade_rejects_other_whitespace() {
    assert!(validade_text("\t\n \u{3000}").is_err());
}

#[test]
fn root_setting_trims_or_defaults() {
    assert_eq!(root_setting("  /tmp/diane \n"), Some("/tmp/diane".to_string()));
    assert_eq!(root_setting("   "), None);
    assert_eq!(root_setting(""), None);
}
