//! Backend-neutral workspace identifiers, configuration and observable events.

use crate::wm::WindowId;
use vstd::prelude::*;

verus! {

/// Stable identifier persisted across renames and configuration reloads.
#[derive(Clone, Copy, Debug, PartialEq, Eq, Hash, PartialOrd, Ord, Structural)]
pub struct WorkspaceId(u32);

#[derive(Clone, Copy, Debug, PartialEq, Eq, Structural)]
pub struct WorkspaceIdError;

impl WorkspaceId {
    #[verifier::type_invariant]
    spec fn nonzero(self) -> bool {
        self.0 != 0
    }

    /// The numeric value of the identifier.
    pub closed spec fn value(self) -> u32 {
        self.0
    }

    /// Creates a workspace identifier; zero is reserved as an invalid sentinel.
    pub fn new(value: u32) -> (r: Result<Self, WorkspaceIdError>)
        ensures
            value == 0 <==> r is Err,
            r matches Ok(id) ==> id.value() == value,
    {
        if value == 0 {
            Err(WorkspaceIdError)
        } else {
            Ok(WorkspaceId(value))
        }
    }

    pub fn get(self) -> (r: u32)
        ensures
            r == self.value(),
            r != 0,
    {
        proof {
            use_type_invariant(&self);
        }
        self.0
    }
}

/// Two workspace identifiers are the same exactly when their values are.
pub proof fn lemma_workspace_id_value_injective(a: WorkspaceId, b: WorkspaceId)
    ensures
        (a.value() == b.value()) <==> (a == b),
{
}

/// Persistent workspaces remain until explicitly removed; dynamic ones may be
/// removed by the lifecycle policy once unused.
#[derive(Clone, Copy, Debug, PartialEq, Eq, Structural)]
pub enum WorkspaceKind {
    Fixed,
    Dynamic,
}

/// Controls only the automatic cleanup of dynamic workspaces.
#[derive(Clone, Copy, Debug, PartialEq, Eq, Structural)]
pub enum DynamicPolicy {
    KeepEmpty,
    RemoveEmptyInactive,
}

impl Default for DynamicPolicy {
    fn default() -> (r: Self)
        ensures
            r == DynamicPolicy::RemoveEmptyInactive,
    {
        DynamicPolicy::RemoveEmptyInactive
    }
}

/// Persistent definition of one workspace; window membership is not persisted.
#[derive(Clone, Debug, PartialEq, Eq)]
pub struct WorkspaceDefinition {
    pub id: WorkspaceId,
    pub name: String,
    pub kind: WorkspaceKind,
}

impl WorkspaceDefinition {
    /// A field-by-field copy of the definition.
    pub fn duplicate(&self) -> (r: WorkspaceDefinition)
        ensures
            r == *self,
    {
        WorkspaceDefinition { id: self.id, name: self.name.clone(), kind: self.kind }
    }
}

/// Exact application-id rule consulted only when a window is first assigned.
#[derive(Clone, Debug, PartialEq, Eq)]
pub struct PlacementRule {
    pub application_id: String,
    pub workspace: WorkspaceId,
}

impl PlacementRule {
    /// A field-by-field copy of the rule.
    pub fn duplicate(&self) -> (r: PlacementRule)
        ensures
            r == *self,
    {
        PlacementRule { application_id: self.application_id.clone(), workspace: self.workspace }
    }
}

/// The persisted workspace configuration.
#[derive(Clone, Debug, PartialEq, Eq)]
pub struct WorkspaceConfig {
    pub active: WorkspaceId,
    pub dynamic_policy: DynamicPolicy,
    pub workspaces: Vec<WorkspaceDefinition>,
    pub placement_rules: Vec<PlacementRule>,
}

/// Events consumed by the bar, shortcuts, backend adapters and session
/// integration, without any backend-specific handle.
#[derive(Clone, Debug, PartialEq, Eq)]
pub enum WorkspaceEvent {
    Created { workspace: WorkspaceId, name: String, kind: WorkspaceKind },
    Removed { workspace: WorkspaceId },
    Renamed { workspace: WorkspaceId, old_name: String, new_name: String },
    Activated { previous: WorkspaceId, current: WorkspaceId },
    WindowMoved { window: WindowId, from: Option<WorkspaceId>, to: WorkspaceId },
    WindowForgotten { window: WindowId, from: WorkspaceId },
}

} // verus!
