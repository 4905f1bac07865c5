use vstd::prelude::*;

verus! {

/// A keyboard shortcut: its macOS chord, its Windows chord if it has one, and the action.
#[derive(Clone, Debug, PartialEq, Eq)]
pub struct ShortcutBinding {
    pub cmux_shortcut: &'static str,
    pub windows_shortcut: Option<&'static str>,
    pub action: &'static str,
    pub configurable: bool,
}

pub struct BindingView {
    pub cmux_shortcut: Seq<char>,
    pub windows_shortcut: Option<Seq<char>>,
    pub action: Seq<char>,
    pub configurable: bool,
}

impl View for ShortcutBinding {
    type V = BindingView;

    open spec fn view(&self) -> BindingView {
        BindingView {
            cmux_shortcut: self.cmux_shortcut@,
            windows_shortcut: match self.windows_shortcut {
                Some(w) => Some(w@),
                None => None,
            },
            action: self.action@,
            configurable: self.configurable,
        }
    }
}

pub open spec fn binding_view(cmux: Seq<char>, windows: Option<Seq<char>>, action: Seq<char>) -> BindingView {
    BindingView { cmux_shortcut: cmux, windows_shortcut: windows, action, configurable: true }
}

/// The shortcuts a fresh configuration has, in order.
pub open spec fn shortcut_table() -> Seq<BindingView> {
    seq![
        binding_view("Cmd+N"@, Some("Ctrl+N"@), "new_workspace"@),
        binding_view("Cmd+1-8"@, Some("Ctrl+1-8"@), "jump_workspace_1_8"@),
        binding_view("Cmd+9"@, Some("Ctrl+9"@), "jump_last_workspace"@),
        binding_view("Cmd+Shift+W"@, Some("Ctrl+Shift+W"@), "close_workspace"@),
        binding_view("Cmd+B"@, Some("Ctrl+B"@), "toggle_sidebar"@),
        binding_view("Cmd+T"@, Some("Ctrl+T"@), "new_surface"@),
        binding_view("Cmd+W"@, Some("Ctrl+W"@), "close_surface"@),
        binding_view("Cmd+D"@, Some("Ctrl+Alt+D"@), "split_right"@),
        binding_view("Cmd+Shift+D"@, Some("Ctrl+Shift+Alt+D"@), "split_down"@),
        binding_view("Cmd+Shift+L"@, Some("Ctrl+Shift+L"@), "open_browser_split"@),
        binding_view("Cmd+L"@, Some("Ctrl+L"@), "focus_address_bar"@),
        binding_view("Cmd+I"@, Some("Ctrl+I"@), "show_notifications"@),
        binding_view("Cmd+Shift+U"@, Some("Ctrl+Shift+U"@), "jump_latest_unread"@),
        binding_view("Cmd+K"@, Some("Ctrl+Shift+K"@), "clear_scrollback"@),
        binding_view("Cmd+C"@, Some("Ctrl+Shift+C when terminal focused, Ctrl+C with selection"@), "copy"@),
        binding_view("Cmd+V"@, Some("Ctrl+Shift+V when terminal focused, Ctrl+V elsewhere"@), "paste"@),
        binding_view("Cmd+,"@, Some("Ctrl+,"@), "settings"@),
        binding_view("Cmd+Q"@, None, "quit"@),
    ]
}

pub open spec fn bindings_view(v: Seq<ShortcutBinding>) -> Seq<BindingView> {
    v.map_values(|b: ShortcutBinding| b@)
}

fn binding(cmux_shortcut: &'static str, windows_shortcut: Option<&'static str>, action: &'static str) -> (r:
    ShortcutBinding)
    ensures
        r.cmux_shortcut == cmux_shortcut,
        r.windows_shortcut == windows_shortcut,
        r.action == action,
        r.configurable,
{
    ShortcutBinding { cmux_shortcut, windows_shortcut, action, configurable: true }
}

/// The default shortcuts; every one of them can be changed.
pub fn default_shortcuts() -> (r: Vec<ShortcutBinding>)
    ensures
        bindings_view(r@) == shortcut_table(),
{
    let mut v: Vec<ShortcutBinding> = Vec::new();
    v.push(binding("Cmd+N", Some("Ctrl+N"), "new_workspace"));
    v.push(binding("Cmd+1-8", Some("Ctrl+1-8"), "jump_workspace_1_8"));
    v.push(binding("Cmd+9", Some("Ctrl+9"), "jump_last_workspace"));
    v.push(binding("Cmd+Shift+W", Some("Ctrl+Shift+W"), "close_workspace"));
    v.push(binding("Cmd+B", Some("Ctrl+B"), "toggle_sidebar"));
    v.push(binding("Cmd+T", Some("Ctrl+T"), "new_surface"));
    v.push(binding("Cmd+W", Some("Ctrl+W"), "close_surface"));
    v.push(binding("Cmd+D", Some("Ctrl+Alt+D"), "split_right"));
    v.push(binding("Cmd+Shift+D", Some("Ctrl+Shift+Alt+D"), "split_down"));
    v.push(binding("Cmd+Shift+L", Some("Ctrl+Shift+L"), "open_browser_split"));
    v.push(binding("Cmd+L", Some("Ctrl+L"), "focus_address_bar"));
    v.push(binding("Cmd+I", Some("Ctrl+I"), "show_notifications"));
    v.push(binding("Cmd+Shift+U", Some("Ctrl+Shift+U"), "jump_latest_unread"));
    v.push(binding("Cmd+K", Some("Ctrl+Shift+K"), "clear_scrollback"));
    v.push(binding("Cmd+C", Some("Ctrl+Shift+C when terminal focused, Ctrl+C with selection"), "copy"));
    v.push(binding("Cmd+V", Some("Ctrl+Shift+V when terminal focused, Ctrl+V elsewhere"), "paste"));
    v.push(binding("Cmd+,", Some("Ctrl+,"), "settings"));
    v.push(binding("Cmd+Q", None, "quit"));
    assert(bindings_view(v@) =~= shortcut_table());
    v
}

} // verus!
