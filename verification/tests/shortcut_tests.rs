use umux::shortcuts::default_shortcuts;

#[test]
fn quit_is_unbound_by_default() {
    let binding = default_shortcuts()
        .into_iter()
        .find(|binding| binding.action == "quit")
        .expect("quit binding should exist");

    assert_eq!(binding.windows_shortcut, None);
}

#[test]
fn split_right_avoids_ctrl_d() {
    let binding = default_shortcuts()
        .into_iter()
        .find(|binding| binding.action == "split_right")
        .expect("split_right binding should exist");

    assert_eq!(binding.windows_shortcut, Some("Ctrl+Alt+D"));
}

#[test]
fn terminal_copy_uses_context_sensitive_windows_terminal_binding() {
    let binding = default_shortcuts()
        .into_iter()
        .find(|binding| binding.action == "copy")
        .expect("copy binding should exist");

    assert_eq!(
        binding.windows_shortcut,
        Some("Ctrl+Shift+C when terminal focused, Ctrl+C with selection")
    );
    assert!(binding.configurable);
}
