use vstd::prelude::*;
use crate::arena::ScopeId;

verus! {

/// Identifier of a task spawned by a component and registered with the task
/// runtime.
#[derive(Clone, Copy, Debug, PartialEq, Eq, PartialOrd, Ord, Hash, Default, Structural)]
pub struct TaskId(pub usize);

/// Index of a prop or listener cell in the arena's cell table. A cell stands
/// for a borrowed value that the drop-safety pass must empty before the
/// owning structure goes away.
#[derive(Clone, Copy, Debug, PartialEq, Eq, PartialOrd, Ord, Hash, Default, Structural)]
pub struct CellId(pub usize);

/// Whether a cell still holds its value or has been cleared.
#[derive(Clone, Copy, Debug, PartialEq, Eq, Structural)]
pub enum CellState {
    Filled,
    Empty,
}

/// A weak back-reference recorded by a scope for a prop borrowed through one
/// of its component nodes: the child scope that component produced (when
/// known) and the cell holding the borrowed props.
#[derive(Clone, Copy, Debug)]
pub struct BorrowRef {
    pub scope: Option<ScopeId>,
    pub props: CellId,
}

/// A node of realised render output: a tagged variant over the dynamic
/// content a template slot can hold.
#[derive(Debug)]
pub enum DynamicNode {
    /// A nested component instance: a weak reference to the scope it
    /// produced, and the cell owning its props.
    Component { scope: Option<ScopeId>, props: CellId },
    /// A fragment of child node lists.
    Fragment(Vec<VNode>),
    Placeholder,
    Text,
}

/// The realised output of one render call.
#[derive(Debug)]
pub struct VNode {
    pub dynamic_nodes: Vec<DynamicNode>,
}

/// What a render call produced for a scope, if it ran at all.
#[derive(Debug)]
pub enum RenderReturn {
    Ready(VNode),
    Aborted,
}

/// Per-component state owned by the scope tree.
#[derive(Debug)]
pub struct ScopeState {
    /// Depth in the scope tree; used to order top-down re-renders.
    pub height: u32,
    /// Hook storage slots, append-only during the scope's lifetime and
    /// cleared only at teardown.
    pub hooks: Vec<u64>,
    /// Identities of the tasks this scope has spawned.
    pub spawned_tasks: Vec<TaskId>,
    /// Back-references for props borrowed by child components.
    pub borrowed_props: Vec<BorrowRef>,
    /// Back-references for listener and generic-value cells owned by rendered
    /// elements of this scope.
    pub attributes_to_drop: Vec<CellId>,
    /// The root node of the scope's last successful render, if any.
    pub root_node: Option<RenderReturn>,
}

/// An entry of the dirty set: a scope scheduled for re-render, keyed by its
/// recorded tree height so parents re-render before children.
#[derive(Clone, Copy, Debug, PartialEq, Eq, Hash, Structural)]
pub struct DirtyScope {
    pub height: u32,
    pub id: ScopeId,
}

/// One step of teardown, as observed through the arena's event log.
#[derive(Clone, Copy, Debug, PartialEq, Eq, Structural)]
pub enum Event {
    /// The drop-safety walker emptied a borrowed-prop cell.
    BorrowCleared(CellId),
    /// The drop-safety walker emptied a listener or generic-value cell.
    ListenerCleared(CellId),
    /// Structural teardown emptied the prop cell of a component node.
    PropsCleared(CellId),
    /// A scope's hook storage was cleared.
    HooksCleared(ScopeId),
    /// A task was cancelled and removed from the runtime.
    TaskCancelled(TaskId),
    /// A scope's state record was removed and its identity slot freed.
    ScopeRemoved(ScopeId),
}

} // verus!
