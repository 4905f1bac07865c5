use umux::action::AppAction;
use umux::browser::{BrowserCommand, BrowserSurfaceState};
use umux::cli::{BrowserCommand as CliBrowserCommand, Cli, Command};
use umux::controller::{AppController, AppControllerError};
use umux::engine::TerminalSurface;
use umux::grid::{color_cube_channel, dim, map_indexed_color, to_u16, trailing_incomplete_osc_start, visible_row};
use umux::ids::{PaneId, SurfaceId, WorkspaceId};
use umux::ipc::{ErrorFrame, Method, ResponseFrame, ResponseShapeError};
use umux::appearance::{TerminalColor, TerminalPalette};
use umux::model::{AppModel, ModelError};
use umux::notify::parse_osc_notifications;
use umux::pty::{clamp_pty_size, sanitize_terminal_child_env, TerminalSessionConfig};
use umux::registry::{TerminalRegistry, TerminalRegistryError, TerminalSpawnSpec};
use umux::shell::ShellResolver;
use umux::shortcuts::default_shortcuts;
use umux::snapshot::{schema_support, AppSnapshot, SchemaSupport, SessionError};
use umux::startup_env::u64_to_decimal;
use umux::ui_kit::{button_label, format_keybinding, tab_unread_marker};

fn spec(surface_id: u64) -> TerminalSpawnSpec {
    TerminalSpawnSpec {
        workspace_id: WorkspaceId(1),
        pane_id: PaneId(2),
        surface_id: SurfaceId(surface_id),
        cwd: "C:/work/alpha".to_string(),
    }
}

#[test]
fn registry_refuses_second_terminal_for_a_surface() {
    let mut registry = TerminalRegistry::new();
    registry.spawn(spec(7)).unwrap();
    assert_eq!(registry.spawn(spec(7)), Err(TerminalRegistryError::AlreadyRegistered(SurfaceId(7))));
    assert_eq!(registry.len(), 1);
}

#[test]
fn registry_lists_ids_in_increasing_order_and_spawn_then_remove_restores_it() {
    let mut registry = TerminalRegistry::new();
    registry.spawn(spec(30)).unwrap();
    registry.spawn(spec(10)).unwrap();
    registry.spawn(spec(20)).unwrap();
    assert_eq!(registry.running_surface_ids(), vec![SurfaceId(10), SurfaceId(20), SurfaceId(30)]);
    registry.spawn(spec(15)).unwrap();
    assert!(registry.remove(SurfaceId(15)).is_some());
    assert_eq!(registry.running_surface_ids(), vec![SurfaceId(10), SurfaceId(20), SurfaceId(30)]);
    assert!(registry.remove(SurfaceId(99)).is_none());
    assert!(!registry.is_empty());
}

#[test]
fn controller_reports_model_errors() {
    let mut controller = AppController::new(AppModel::new("C:/work/alpha")).unwrap();
    let result = controller.apply(AppAction::SelectWorkspace(WorkspaceId(999)));
    assert_eq!(result, Err(AppControllerError::Model(ModelError::UnknownWorkspace(WorkspaceId(999)))));
    let pane = controller.model.selected_pane().unwrap().id;
    let result = controller.apply(AppAction::ClosePane(pane));
    assert_eq!(result, Err(AppControllerError::Model(ModelError::CannotCloseLastPane)));
}

#[test]
fn controller_terminals_follow_terminal_surfaces_only() {
    let mut controller = AppController::new(AppModel::new("C:/work/alpha")).unwrap();
    let browser = controller.model.open_browser_surface("https://example.com".to_string()).unwrap();
    controller.apply(AppAction::NewTerminalTab).unwrap();
    assert!(!controller.terminals.contains(browser));
    assert_eq!(controller.terminals.len(), 2);
    let outcome = controller.apply(AppAction::CloseSurface(browser)).unwrap();
    assert_eq!(outcome.closed_surfaces, vec![browser]);
    assert_eq!(outcome.spawned_surfaces, Vec::<SurfaceId>::new());
    assert_eq!(controller.terminals.len(), 2);
}

#[test]
fn browser_back_then_forward_returns_to_the_same_page() {
    let mut state = BrowserSurfaceState::new();
    state.apply(BrowserCommand::Back);
    assert_eq!(state.current_url, None);
    state.apply(BrowserCommand::OpenUrl("a".to_string()));
    state.apply(BrowserCommand::OpenUrl("b".to_string()));
    let before = state.clone();
    state.apply(BrowserCommand::Back);
    state.apply(BrowserCommand::Forward);
    assert_eq!(state, before);
    state.apply(BrowserCommand::Reload);
    state.apply(BrowserCommand::EvaluateJavaScript("1".to_string()));
    assert_eq!(state, before);
}

#[test]
fn terminal_surface_joins_an_osc_sequence_split_across_chunks() {
    let mut surface = TerminalSurface::new("C:/work/alpha");
    assert!(surface.feed_output("a\u{1b}]9;rea").is_empty());
    let events = surface.feed_output("dy\u{7}b");
    assert_eq!(events.len(), 1);
    assert_eq!(events[0].message, "ready");
    assert_eq!(surface.scrollback(), "a\u{1b}]9;ready\u{7}b");
    assert_eq!(surface.cwd(), "C:/work/alpha");
}

#[test]
fn osc_777_with_semicolons_keeps_them_in_the_message() {
    let notifications = parse_osc_notifications("\u{1b}]777;notify;T;a;b\u{1b}\\\u{1b}]777;other;x;y\u{7}");
    assert_eq!(notifications.len(), 1);
    assert_eq!(notifications[0].title.as_deref(), Some("T"));
    assert_eq!(notifications[0].message, "a;b");
}

#[test]
fn method_wire_names_read_back() {
    let methods = [
        Method::SystemPing,
        Method::SystemCapabilities,
        Method::WorkspaceCreate,
        Method::PaneSplit,
        Method::BrowserOpen,
        Method::NotificationCreate,
        Method::EventsStream,
    ];
    for m in methods {
        assert_eq!(Method::from_wire_name(m.wire_name()), Some(m));
    }
    assert_eq!(Method::from_wire_name("workspace.destroy"), None);
    assert_eq!(Method::EventsStream.wire_name(), "events.stream");
}

#[test]
fn response_parts_need_exactly_one_of_result_and_error() {
    let error = ErrorFrame { code: "boom".to_string(), message: "bad".to_string() };
    assert_eq!(
        ResponseFrame::from_parts(6, Some(serde_json::Value::Null), Some(error.clone())).err(),
        Some(ResponseShapeError::BothResultAndError)
    );
    assert_eq!(ResponseFrame::from_parts(6, None, None).err(), Some(ResponseShapeError::NeitherResultNorError));
    let ok = ResponseFrame::from_parts(5, Some(serde_json::Value::Null), None).unwrap();
    assert_eq!(ok.result(), Some(&serde_json::Value::Null));
    assert_eq!(ok.error_frame(), None);
    let err = ResponseFrame::from_parts(10, None, Some(error)).unwrap();
    assert_eq!(err.error_frame().unwrap().message, "bad");
    assert_eq!(ResponseShapeError::NeitherResultNorError.message(), "response frame must contain result or error");
    assert_eq!(umux::ipc::json_line("{}".to_string()), "{}\n");
}

#[test]
fn builds_workspace_create_request() {
    let cli = Cli { dry_run_json: true, command: Command::NewWorkspace { cwd: "C:/work/alpha".to_string() } };
    let request = cli.into_request(1).expect("request should build");
    assert_eq!(request.id, 1);
    assert_eq!(request.method, Method::WorkspaceCreate);
    assert_eq!(request.params["cwd"], "C:/work/alpha");
}

#[test]
fn builds_browser_open_request() {
    let cli = Cli {
        dry_run_json: true,
        command: Command::Browser { command: CliBrowserCommand::Open { url: "https://example.com".to_string() } },
    };
    let request = cli.into_request(9).expect("request should build");
    assert_eq!(request.id, 9);
    assert_eq!(request.method, Method::BrowserOpen);
    assert_eq!(request.params["url"], "https://example.com");
}

#[test]
fn builds_notification_request() {
    let cli = Cli { dry_run_json: true, command: Command::Notify { message: "Needs input".to_string() } };
    let request = cli.into_request(3).expect("request should build");
    assert_eq!(request.id, 3);
    assert_eq!(request.method, Method::NotificationCreate);
    assert_eq!(request.params["message"], "Needs input");
}

#[test]
fn ping_and_split_requests() {
    let ping = Cli { dry_run_json: false, command: Command::Ping }.into_request(2).unwrap();
    assert_eq!(ping.method, Method::SystemPing);
    assert_eq!(ping.params, serde_json::Value::Object(serde_json::Map::new()));
    let split = Cli { dry_run_json: false, command: Command::Split { axis: "vertical".to_string() } }
        .into_request(4)
        .unwrap();
    assert_eq!(split.method, Method::PaneSplit);
    assert_eq!(split.params["axis"], "vertical");
}

#[test]
fn default_shortcuts_are_all_configurable() {
    let shortcuts = default_shortcuts();
    assert_eq!(shortcuts.len(), 18);
    assert!(shortcuts.iter().all(|b| b.configurable));
    assert_eq!(shortcuts[0].cmux_shortcut, "Cmd+N");
    assert_eq!(shortcuts[0].action, "new_workspace");
}

#[test]
fn ui_kit_formats_labels() {
    assert_eq!(button_label("\t\n go \u{3000}"), "go");
    assert_eq!(button_label("   "), "");
    assert_eq!(format_keybinding("Esc"), "Esc");
    assert_eq!(format_keybinding("+"), " + ");
    assert_eq!(tab_unread_marker(true), " *");
    assert_eq!(tab_unread_marker(false), "");
}

#[test]
fn decimal_and_clamping_helpers() {
    assert_eq!(u64_to_decimal(0), "0");
    assert_eq!(u64_to_decimal(u64::MAX), "18446744073709551615");
    assert_eq!(clamp_pty_size(0, 40000), (1, 32767));
    assert_eq!(clamp_pty_size(120, 30), (120, 30));
    let shell = ShellResolver::new(&["bash", "cmd"]).resolve();
    assert_eq!(shell.program, "cmd.exe");
    assert!(!shell.used_last_resort);
    let config = TerminalSessionConfig::new(shell, "C:/work", 0, 9);
    assert_eq!((config.cols, config.rows, config.scrollback_limit), (1, 9, 10_000));
}

#[test]
fn sanitize_keeps_other_variables_in_order() {
    let env = vec![
        ("A".to_string(), "1".to_string()),
        ("Umux_Socket".to_string(), "x".to_string()),
        ("B".to_string(), "2".to_string()),
    ];
    let kept = sanitize_terminal_child_env(env);
    assert_eq!(kept, vec![("A".to_string(), "1".to_string()), ("B".to_string(), "2".to_string())]);
}

#[test]
fn grid_color_helpers() {
    assert_eq!(dim(TerminalColor::rgb(255, 30, 3)), TerminalColor::rgb(170, 20, 2));
    assert_eq!(color_cube_channel(0), 0);
    assert_eq!(color_cube_channel(5), 255);
    let palette = TerminalPalette::default();
    assert_eq!(map_indexed_color(1, &palette), TerminalColor::rgb(0xcd, 0x31, 0x31));
    assert_eq!(map_indexed_color(16, &palette), TerminalColor::rgb(0, 0, 0));
    assert_eq!(map_indexed_color(231, &palette), TerminalColor::rgb(255, 255, 255));
    assert_eq!(map_indexed_color(232, &palette), TerminalColor::rgb(8, 8, 8));
    assert_eq!(map_indexed_color(255, &palette), TerminalColor::rgb(238, 238, 238));
    assert_eq!(to_u16(70000), 65535);
    assert_eq!(visible_row(-1, 2, 3), Some(1));
    assert_eq!(visible_row(2, 1, 3), None);
}

#[test]
fn trailing_incomplete_osc_start_cases() {
    assert_eq!(trailing_incomplete_osc_start(b"ok\x1b]9;rea"), Some(2));
    assert_eq!(trailing_incomplete_osc_start(b"ok\x1b]9;ready\x07"), None);
    assert_eq!(trailing_incomplete_osc_start(b"ok\x1b]9;ready\x07\x1b"), Some(12));
    assert_eq!(trailing_incomplete_osc_start(b"\x1b]9;a\x1b\\"), None);
    assert_eq!(trailing_incomplete_osc_start(b""), None);
}

#[test]
fn snapshot_schema_versions() {
    assert!(matches!(schema_support(2), Ok(SchemaSupport::Current)));
    assert!(matches!(schema_support(1), Ok(SchemaSupport::Legacy)));
    assert!(matches!(schema_support(3), Err(SessionError::UnsupportedSchemaVersion(3))));
    let mut app = AppModel::new("C:/work/alpha");
    let surface = app.selected_pane().unwrap().selected_surface;
    app.mark_surface_unread(surface, "x".to_string()).unwrap();
    let legacy = AppSnapshot::from_model(&app).upgrade(SchemaSupport::Legacy);
    assert_eq!(legacy.schema_version, 2);
    assert_eq!(legacy.latest_unread_target, None);
    assert_eq!(legacy.next_unread_sequence, 1);
}

#[test]
fn snapshot_without_windows_does_not_restore() {
    let mut snapshot = AppSnapshot::from_model(&AppModel::new("C:/work/alpha"));
    snapshot.windows.clear();
    assert!(matches!(snapshot.into_model(), Err(SessionError::MissingSelectedWindow)));
}

#[test]
fn restored_model_advances_ids_past_every_id() {
    let app = AppModel::new("C:/work/alpha");
    let mut restored = AppSnapshot::from_model(&app).into_model().unwrap();
    assert_eq!(restored.ids.next_surface(), SurfaceId(5));
}
