use vstd::prelude::*;

use crate::ids::{PaneId, SurfaceId, WorkspaceId};
use crate::model::SplitAxis;

verus! {

/// A request to change the application model.
#[derive(Clone, Debug, PartialEq, Eq)]
pub enum CoreCommand {
    CreateWorkspace { cwd: String },
    SplitSelectedPane { axis: SplitAxis },
    OpenBrowserSurface { url: String },
    MarkSurfaceUnread { message: String },
}

/// Something that happened to the application model.
#[derive(Clone, Debug, PartialEq, Eq)]
pub enum CoreEvent {
    WorkspaceSelected(WorkspaceId),
    PaneSelected(PaneId),
    SurfaceSelected(SurfaceId),
    SurfaceMarkedUnread { surface_id: SurfaceId, message: String },
}

} // verus!
