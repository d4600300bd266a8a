use codesearch::output::{is_quiet, print_info, print_warn, set_quiet, QuietMode};

#[test]
fn test_quiet_mode_toggle() {
    let mut mode = QuietMode { quiet: true };

    // Initial state
    set_quiet(&mut mode, false);
    assert!(!is_quiet(&mode));

    // Enable
    set_quiet(&mut mode, true);
    assert!(is_quiet(&mode));

    // Disable
    set_quiet(&mut mode, false);
    assert!(!is_quiet(&mode));
}

#[test]
fn test_print_info_not_quiet() {
    let mode = QuietMode { quiet: false };
    assert!(!is_quiet(&mode));
    assert_eq!(print_info(&mode, "info message"), Some("info message"));
}

#[test]
fn test_print_info_quiet() {
    let mode = QuietMode { quiet: true };
    assert!(is_quiet(&mode));
    assert_eq!(print_info(&mode, "suppressed info message"), None);
}

#[test]
fn test_print_warn_not_quiet() {
    let mode = QuietMode { quiet: false };
    assert!(!is_quiet(&mode));
    assert_eq!(print_warn(&mode, "warning message"), Some("warning message"));
}

#[test]
fn test_print_warn_quiet() {
    let mode = QuietMode { quiet: true };
    assert!(is_quiet(&mode));
    assert_eq!(print_warn(&mode, "suppressed warning message"), None);
}

#[test]
fn test_multiple_print_calls() {
    let mut mode = QuietMode { quiet: false };
    assert_eq!(print_info(&mode, "first"), Some("first"));
    assert_eq!(print_warn(&mode, "second"), Some("second"));

    set_quiet(&mut mode, true);
    assert_eq!(print_info(&mode, "suppressed first"), None);
    assert_eq!(print_warn(&mode, "suppressed second"), None);
}
