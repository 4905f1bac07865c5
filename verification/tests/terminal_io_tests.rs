use umux::clipboard::{ClipboardPort, FakeClipboard};
use umux::grid::clip_selection_to_viewport;
use umux::pty::{sanitize_terminal_child_env, FakePtyBackend, PtyBackend, PtyError};
use umux::render::TerminalSelection;
use umux::shell::ShellResolver;
use umux::startup_env::StartupEnvironment;

#[test]
fn selection_clip_intersects_visible_viewport() {
    let selection = clip_selection_to_viewport(8, 2, 14, 5, 0, 10, 3).unwrap();

    assert_eq!(
        selection,
        TerminalSelection {
            start_col: 8,
            start_row: 2,
            end_col: 9,
            end_row: 2,
        }
    );
}

#[test]
fn selection_clip_preserves_multiline_endpoint_column_order() {
    let selection = clip_selection_to_viewport(8, 1, 2, 3, 0, 10, 5).unwrap();

    assert_eq!(
        selection,
        TerminalSelection {
            start_col: 8,
            start_row: 1,
            end_col: 2,
            end_row: 3,
        }
    );
}

#[test]
fn selection_clip_drops_fully_offscreen_selection() {
    assert_eq!(clip_selection_to_viewport(0, -3, 4, -1, 0, 10, 3), None);
}

#[test]
fn selection_clip_clamps_visible_endpoint_columns_independently() {
    let selection = clip_selection_to_viewport(10, 0, 14, 1, 0, 10, 3).unwrap();

    assert_eq!(
        selection,
        TerminalSelection {
            start_col: 9,
            start_row: 0,
            end_col: 9,
            end_row: 1,
        }
    );
}

#[test]
fn fake_backend_records_input_and_resize() {
    let mut backend = FakePtyBackend::new(b"ready\n");

    backend.write_input(b"echo hi\r").unwrap();
    backend.resize(120, 30).unwrap();

    assert_eq!(backend.written_input(), b"echo hi\r");
    assert_eq!(backend.size(), (120, 30));
    assert_eq!(backend.read_output().unwrap(), b"ready\n");
}

#[test]
fn fake_backend_clamps_resize_to_conpty_safe_dimensions() {
    let mut backend = FakePtyBackend::new(b"");

    backend.resize(0, u16::MAX).unwrap();

    assert_eq!(backend.size(), (1, i16::MAX as u16));
}

#[test]
fn fake_backend_returns_empty_output_after_queue_is_drained() {
    let mut backend = FakePtyBackend::new(b"ready\n");

    assert_eq!(backend.read_output().unwrap(), b"ready\n");
    assert_eq!(backend.read_output().unwrap(), b"");
}

#[test]
fn fake_backend_child_exit_is_absent() {
    let mut backend = FakePtyBackend::new(b"");
    let result: Result<Option<i32>, PtyError> = backend.child_exited();

    assert_eq!(result.unwrap(), None);
}

#[test]
fn sanitize_terminal_child_env_removes_reserved_ipc_keys() {
    let mut env = Vec::from([
        ("UMUX_SOCKET".to_string(), "named-pipe".to_string()),
        ("cmux_socket_path".to_string(), "legacy-pipe".to_string()),
        ("UMUX_WORKSPACE_ID".to_string(), "2".to_string()),
    ]);

    env = sanitize_terminal_child_env(env);

    assert!(!contains_key(&env, "UMUX_SOCKET"));
    assert!(!contains_key(&env, "cmux_socket_path"));
    assert_eq!(get(&env, "UMUX_WORKSPACE_ID").map(String::as_str), Some("2"));
}

#[test]
fn resolver_prefers_pwsh_then_windows_powershell_then_cmd() {
    let resolver = ShellResolver::new(&["cmd.exe", "powershell.exe", "pwsh"]);

    let shell = resolver.resolve();

    assert_eq!(shell.program, "pwsh");
    assert_eq!(shell.attempted, vec!["pwsh", "powershell.exe", "cmd.exe"]);
}

#[test]
fn resolver_falls_back_to_cmd() {
    let resolver = ShellResolver::new(&["cmd.exe"]);

    let shell = resolver.resolve();

    assert_eq!(shell.program, "cmd.exe");
    assert_eq!(shell.args, Vec::<String>::new());
}

#[test]
fn resolver_reports_attempts_when_nothing_is_found() {
    let resolver = ShellResolver::new(&[]);

    let shell = resolver.resolve();

    assert_eq!(shell.program, "cmd.exe");
    assert_eq!(shell.attempted, vec!["pwsh", "powershell.exe", "cmd.exe"]);
    assert!(shell.used_last_resort);
}

#[test]
fn resolver_normalizes_common_windows_spellings() {
    let resolver = ShellResolver::new(&["CMD.EXE", "PowerShell.EXE", "PWSH.EXE"]);

    let shell = resolver.resolve();

    assert_eq!(shell.program, "pwsh");
    assert!(!shell.used_last_resort);
}

#[test]
fn startup_environment_sets_canonical_umux_context() {
    let env = StartupEnvironment::new(2, 3, 4, "C:/work/alpha").into_pairs();

    assert_eq!(get(&env, "UMUX_WORKSPACE_ID").map(String::as_str), Some("2"));
    assert_eq!(get(&env, "UMUX_PANE_ID").map(String::as_str), Some("3"));
    assert_eq!(get(&env, "UMUX_SURFACE_ID").map(String::as_str), Some("4"));
    assert_eq!(
        get(&env, "UMUX_CWD").map(String::as_str),
        Some("C:/work/alpha")
    );
    assert_eq!(get(&env, "UMUX_TERMINAL").map(String::as_str), Some("1"));
}

#[test]
fn startup_environment_does_not_advertise_socket_before_ipc_exists() {
    let env = StartupEnvironment::new(2, 3, 4, "C:/work/alpha").into_pairs();

    assert!(!contains_key(&env, "UMUX_SOCKET"));
    assert!(!contains_key(&env, "CMUX_SOCKET_PATH"));
}

#[test]
fn fake_clipboard_stores_and_loads_text() {
    let mut clipboard = FakeClipboard::default();

    clipboard.store_text("hello").unwrap();

    assert_eq!(clipboard.load_text().unwrap(), "hello");
}

fn get<'a>(env: &'a [(String, String)], key: &str) -> Option<&'a String> {
    env.iter().find(|(k, _)| k == key).map(|(_, v)| v)
}

fn contains_key(env: &[(String, String)], key: &str) -> bool {
    get(env, key).is_some()
}
