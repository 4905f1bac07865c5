use umux::ids::{PaneId, SurfaceId, WorkspaceId};
use umux::registry::{TerminalEntry, TerminalEntrySnapshot, TerminalRegistry, TerminalSpawnSpec};

fn spec(surface_id: u64) -> TerminalSpawnSpec {
    TerminalSpawnSpec {
        workspace_id: WorkspaceId(1),
        pane_id: PaneId(2),
        surface_id: SurfaceId(surface_id),
        cwd: "C:/work/alpha".to_string(),
    }
}

#[test]
fn registry_removes_closed_sessions() {
    let mut registry = TerminalRegistry::new();
    registry.spawn(spec(20)).unwrap();
    registry.spawn(spec(10)).unwrap();

    let removed = registry.remove(SurfaceId(20)).unwrap();

    assert_eq!(removed.surface_id(), SurfaceId(20));
    assert!(!registry.contains(SurfaceId(20)));
    assert_eq!(registry.running_surface_ids(), vec![SurfaceId(10)]);
}

#[test]
fn registry_exposes_snapshot_entry_for_ui() {
    let mut registry = TerminalRegistry::new();
    let surface_id = SurfaceId(30);
    registry.spawn(spec(surface_id.0)).unwrap();

    let entry = registry.entry(surface_id).unwrap();

    assert_eq!(entry.surface_id(), surface_id);
    {
        assert_eq!(entry.snapshot(), None);
        assert_eq!(entry.health(), None);
        assert_eq!(
            entry.snapshot_state(),
            TerminalEntrySnapshot {
                health: None,
                renderer_snapshot: None,
            }
        );
    }
}

#[test]
fn failed_entry_snapshot_state_is_empty() {
    let entry = TerminalEntry::Failed {
        spec: spec(40),
        message: "pty refused startup".to_string(),
    };

    assert_eq!(
        entry.snapshot_state(),
        TerminalEntrySnapshot {
            health: None,
            renderer_snapshot: None,
        }
    );
}

#[test]
fn failed_start_registers_a_failed_entry() {
    let mut registry = umux::registry::TerminalRegistry::new();
    let spec = umux::registry::TerminalSpawnSpec {
        workspace_id: umux::ids::WorkspaceId(2),
        pane_id: umux::ids::PaneId(3),
        surface_id: umux::ids::SurfaceId(4),
        cwd: "C:/work/alpha".to_string(),
    };
    registry.spawn_with_outcome(spec, Err("pty I/O error: denied".to_string())).unwrap();

    match registry.entry(umux::ids::SurfaceId(4)).unwrap() {
        umux::registry::TerminalEntry::Failed { message, .. } => assert_eq!(message, "pty I/O error: denied"),
        other => panic!("expected a failed entry, got {other:?}"),
    }
    assert!(registry.contains(umux::ids::SurfaceId(4)));
}

#[test]
fn registry_len_counts_each_spawned_terminal_once() {
    let mut registry = TerminalRegistry::new();
    assert!(registry.is_empty());
    assert_eq!(registry.len(), 0);

    registry.spawn(spec(7)).unwrap();
    registry.spawn(spec(3)).unwrap();
    assert!(registry.spawn(spec(7)).is_err());

    assert_eq!(registry.len(), 2);
    assert!(!registry.is_empty());
    assert_eq!(registry.running_surface_ids(), vec![SurfaceId(3), SurfaceId(7)]);
    assert_eq!(registry.running_surface_ids().len(), registry.len());
}
