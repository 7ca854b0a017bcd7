use hk::progress::truncate_progress_message;
use hk::step::{Platform, RunType, Script, Step};

/// Every system that commands run on.
const PLATFORMS: [Platform; 4] = [
    Platform::Linux,
    Platform::Macos,
    Platform::Windows,
    Platform::Other,
];

#[test]
fn truncate_progress_message_passes_short_input() {
    assert_eq!(truncate_progress_message("hello", 100), "hello");
}

#[test]
fn truncate_progress_message_caps_long_input() {
    let s = "a".repeat(5000);
    let out = truncate_progress_message(&s, 2048);
    assert_eq!(console::measure_text_width(&out), 2048);
    assert!(out.ends_with('…'));
}

#[test]
fn truncate_progress_message_preserves_ansi_escapes() {
    // Color escape + long plain run; truncation must be width-aware
    // so the ANSI bytes don't count toward the budget.
    let s = format!("\x1b[31m{}\x1b[0m", "a".repeat(100));
    let out = truncate_progress_message(&s, 50);
    assert_eq!(console::measure_text_width(&out), 50);
}

#[test]
fn truncate_progress_message_at_exact_length_unchanged() {
    let s = "x".repeat(2048);
    assert_eq!(truncate_progress_message(&s, 2048), s);
}

#[test]
fn test_has_command_for_empty_command() {
    // Windows is empty, other has the real command. On Windows the empty
    // string should make has_command_for return false; on every other
    // platform the `other` fallback provides a valid command.
    let step = Step {
        name: "test_step".to_string(),
        check: Some(Script {
            linux: None,
            macos: None,
            windows: Some("".to_string()),
            other: Some("other_cmd".to_string()),
        }),
        fix: None,
        ..Default::default()
    };
    assert!(!step.has_command_for(RunType::Check, Platform::Windows));
    for platform in [Platform::Linux, Platform::Macos, Platform::Other] {
        assert!(step.has_command_for(RunType::Check, platform));
    }
}

#[test]
fn test_has_command_for_valid_command() {
    // Test that has_command_for returns true when command is valid
    let step = Step {
        name: "test_step".to_string(),
        check: Some(Script {
            linux: Some("cmd".to_string()),
            macos: Some("cmd".to_string()),
            windows: Some("cmd".to_string()),
            other: Some("cmd".to_string()),
        }),
        fix: None,
        ..Default::default()
    };
    // Should have a command on all platforms
    for platform in PLATFORMS {
        assert!(step.has_command_for(RunType::Check, platform));
    }
}

#[test]
fn test_has_command_for_no_command() {
    // Test that has_command_for returns false when no command is defined
    let step = Step {
        name: "test_step".to_string(),
        check: None,
        fix: None,
        ..Default::default()
    };
    for platform in PLATFORMS {
        assert!(!step.has_command_for(RunType::Check, platform));
        assert!(!step.has_command_for(RunType::Fix, platform));
    }
}
