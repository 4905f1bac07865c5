use umux::ui_kit::{button_label, format_keybinding, tab_label};

#[test]
fn button_label_trims_outer_whitespace() {
    assert_eq!(button_label(" jump "), "jump");
}
#[test]
fn keybinding_adds_spacing_between_keys() {
    assert_eq!(format_keybinding("Ctrl+Shift+U"), "Ctrl + Shift + U");
}
#[test]
fn tab_label_marks_unread_tabs() {
    assert_eq!(tab_label("cargo test", true), "cargo test *");
    assert_eq!(tab_label("shell", false), "shell");
}
