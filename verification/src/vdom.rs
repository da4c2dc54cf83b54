use vstd::prelude::*;
use crate::arena::{ArenaError, BubbleId, ElementId, ElementRef, ScopeId, TemplateId};
use crate::scopes::{BorrowRef, CellId, CellState, DirtyScope, DynamicNode, Event, RenderReturn, ScopeState, TaskId, VNode};
use crate::slot_table::{insert_effect, occupied, SlotTable};

verus! {

broadcast use vstd::seq_lib::group_seq_properties;

/// The arena: element identity registry, scope tree, dirty set, cell table
/// for borrowed props and listeners, the active-task set of the runtime, and
/// an ordered log of teardown events.
pub struct VirtualDom {
    pub(crate) elements: SlotTable<Option<BubbleId>>,
    pub(crate) element_refs: SlotTable<ElementRef>,
    pub(crate) scopes: SlotTable<ScopeState>,
    pub(crate) dirty_scopes: Vec<DirtyScope>,
    pub(crate) tasks: Vec<TaskId>,
    pub(crate) cells: Vec<CellState>,
    pub(crate) events: Vec<Event>,
}

/// Strict order of dirty-set entries: by height, then by scope identity.
pub open spec fn dirty_lt(a: DirtyScope, b: DirtyScope) -> bool {
    a.height < b.height || (a.height == b.height && a.id.0 < b.id.0)
}

/// Every prop cell named by a component node inside `node` is a real cell of
/// the arena's cell table.
pub open spec fn node_cells_ok(n_cells: nat, node: VNode) -> bool
    decreases node,
{
    forall|k: int|
        0 <= k < node.dynamic_nodes@.len() ==> dnode_cells_ok(
            n_cells,
            #[trigger] node.dynamic_nodes@[k],
        )
}

/// See [`node_cells_ok`].
pub open spec fn dnode_cells_ok(n_cells: nat, d: DynamicNode) -> bool
    decreases d,
{
    match d {
        DynamicNode::Component { scope, props } => props.0 < n_cells,
        DynamicNode::Fragment(nodes) => forall|k: int|
            0 <= k < nodes@.len() ==> node_cells_ok(n_cells, #[trigger] nodes@[k]),
        DynamicNode::Placeholder => true,
        DynamicNode::Text => true,
    }
}

/// What a render return may reference.
pub open spec fn rr_cells_ok(n_cells: nat, rr: Option<RenderReturn>) -> bool {
    match rr {
        Some(RenderReturn::Ready(node)) => node_cells_ok(n_cells, node),
        _ => true,
    }
}

/// A cell that is a real cell stays one when the table grows.
pub proof fn lemma_node_cells_ok_grow(n1: nat, n2: nat, node: VNode)
    requires
        node_cells_ok(n1, node),
        n1 <= n2,
    ensures
        node_cells_ok(n2, node),
    decreases node,
{
    assert forall|k: int| 0 <= k < node.dynamic_nodes@.len() implies dnode_cells_ok(
        n2,
        #[trigger] node.dynamic_nodes@[k],
    ) by {
        lemma_dnode_cells_ok_grow(n1, n2, node.dynamic_nodes@[k]);
    }
}

/// See [`lemma_node_cells_ok_grow`].
pub proof fn lemma_dnode_cells_ok_grow(n1: nat, n2: nat, d: DynamicNode)
    requires
        dnode_cells_ok(n1, d),
        n1 <= n2,
    ensures
        dnode_cells_ok(n2, d),
    decreases d,
{
    match d {
        DynamicNode::Fragment(nodes) => {
            assert forall|k: int| 0 <= k < nodes@.len() implies node_cells_ok(
                n2,
                #[trigger] nodes@[k],
            ) by {
                lemma_node_cells_ok_grow(n1, n2, nodes@[k]);
            }
        },
        _ => {},
    }
}

/// Every cell a scope's back-reference lists name is a real cell.
pub open spec fn scope_cells_ok(s: ScopeState, n_cells: nat) -> bool {
    &&& forall|k: int| 0 <= k < s.borrowed_props@.len() ==> (#[trigger] s.borrowed_props@[k]).props.0 < n_cells
    &&& forall|k: int| 0 <= k < s.attributes_to_drop@.len() ==> (#[trigger] s.attributes_to_drop@[k]).0 < n_cells
}

/// Occupancy can only disappear between `pre` and `post`, and a slot that
/// stays occupied keeps its height.
pub open spec fn scopes_shrink(pre: Seq<Option<ScopeState>>, post: Seq<Option<ScopeState>>) -> bool {
    &&& post.len() == pre.len()
    &&& forall|i: int|
        0 <= i < post.len() && post[i] is Some ==> pre[i] is Some && (#[trigger] post[i]).unwrap().height
            == pre[i].unwrap().height
}

/// What teardown may do to a scope record it does not remove: everything is
/// kept, except that the two back-reference lists may have been drained and
/// the realised output of the scope under teardown itself is detached.
pub open spec fn scope_drained_from(pre: ScopeState, post: ScopeState) -> bool {
    &&& post.height == pre.height
    &&& post.hooks@ == pre.hooks@
    &&& post.spawned_tasks@ == pre.spawned_tasks@
    &&& (post.root_node == pre.root_node || post.root_node is None)
    &&& (post.borrowed_props@ == pre.borrowed_props@ || post.borrowed_props@.len() == 0)
    &&& (post.attributes_to_drop@ == pre.attributes_to_drop@ || post.attributes_to_drop@.len() == 0)
}

impl VirtualDom {
    pub closed spec fn elements_view(self) -> Seq<Option<Option<BubbleId>>> {
        self.elements@
    }

    pub closed spec fn element_refs_view(self) -> Seq<Option<ElementRef>> {
        self.element_refs@
    }

    pub closed spec fn scopes_view(self) -> Seq<Option<ScopeState>> {
        self.scopes@
    }

    pub closed spec fn dirty_view(self) -> Seq<DirtyScope> {
        self.dirty_scopes@
    }

    pub closed spec fn tasks_view(self) -> Seq<TaskId> {
        self.tasks@
    }

    pub closed spec fn cells_view(self) -> Seq<CellState> {
        self.cells@
    }

    pub closed spec fn events_view(self) -> Seq<Event> {
        self.events@
    }

    pub open spec fn element_live(self, el: ElementId) -> bool {
        occupied(self.elements_view(), el.0 as int)
    }

    pub open spec fn scope_live(self, id: ScopeId) -> bool {
        occupied(self.scopes_view(), id.0 as int)
    }

    pub open spec fn scope_at(self, id: ScopeId) -> ScopeState {
        self.scopes_view()[id.0 as int].unwrap()
    }

    pub open spec fn cell_ok(self, c: CellId) -> bool {
        c.0 < self.cells_view().len()
    }

    pub open spec fn cell_state(self, c: CellId) -> CellState {
        self.cells_view()[c.0 as int]
    }

    /// Dirty entries are strictly ordered, and each names a live scope under
    /// the height that scope really has.
    pub open spec fn dirty_ok(self) -> bool {
        &&& forall|k: int|
            0 <= k < self.dirty_view().len() ==> self.scope_live((#[trigger] self.dirty_view()[k]).id)
                && self.scope_at(self.dirty_view()[k].id).height == self.dirty_view()[k].height
        &&& forall|k1: int, k2: int|
            0 <= k1 < k2 < self.dirty_view().len() ==> dirty_lt(
                #[trigger] self.dirty_view()[k1],
                #[trigger] self.dirty_view()[k2],
            )
    }

    /// Every live scope's back-references and render output name real cells.
    pub open spec fn scopes_ok(self) -> bool {
        forall|i: int|
            0 <= i < self.scopes_view().len() && self.scopes_view()[i] is Some ==> {
                let s = (#[trigger] self.scopes_view()[i]).unwrap();
                &&& scope_cells_ok(s, self.cells_view().len())
                &&& rr_cells_ok(self.cells_view().len(), s.root_node)
            }
    }

    /// Every bubble an element slot names is a real element-reference record.
    pub open spec fn bubbles_ok(self) -> bool {
        forall|i: int|
            0 <= i < self.elements_view().len() ==> ((#[trigger] self.elements_view()[i]) matches Some(
                Some(b),
            ) ==> occupied(self.element_refs_view(), b.0 as int))
    }

    /// The arena's well-formedness invariant: constructors establish it and
    /// every operation preserves it.
    pub open spec fn wf(self) -> bool {
        &&& self.dirty_ok()
        &&& self.scopes_ok()
        &&& self.bubbles_ok()
    }

    /// A fresh arena holding only the reserved root element identity.
    pub fn new() -> (v: Self)
        ensures
            v.wf(),
            v.elements_view() == seq![Some(Option::<BubbleId>::None)],
            v.element_refs_view() == Seq::<Option<ElementRef>>::empty(),
            v.scopes_view() == Seq::<Option<ScopeState>>::empty(),
            v.dirty_view() == Seq::<DirtyScope>::empty(),
            v.tasks_view() == Seq::<TaskId>::empty(),
            v.cells_view() == Seq::<CellState>::empty(),
            v.events_view() == Seq::<Event>::empty(),
    {
        let mut elements = SlotTable::new();
        let root = elements.insert(None);
        proof {
            assert(elements@ =~= seq![Some(Option::<BubbleId>::None)]);
        }
        VirtualDom {
            elements,
            element_refs: SlotTable::new(),
            scopes: SlotTable::new(),
            dirty_scopes: Vec::new(),
            tasks: Vec::new(),
            cells: Vec::new(),
            events: Vec::new(),
        }
    }

    /// Allocates a fresh element identity in the lowest free slot, with no
    /// bubble bound to it yet.
    pub fn next_element(&mut self) -> (el: ElementId)
        requires
            old(self).wf(),
        ensures
            final(self).wf(),
            insert_effect(
                old(self).elements_view(),
                final(self).elements_view(),
                el.0 as int,
                None,
            ),
            final(self).element_live(el),
            final(self).element_refs_view() == old(self).element_refs_view(),
            final(self).scopes_view() == old(self).scopes_view(),
            final(self).dirty_view() == old(self).dirty_view(),
            final(self).tasks_view() == old(self).tasks_view(),
            final(self).cells_view() == old(self).cells_view(),
            final(self).events_view() == old(self).events_view(),
    {
        let i = self.elements.insert(None);
        ElementId(i)
    }

    /// Allocates a bubble record for `element_ref` in the lowest free slot of
    /// the reference table.
    pub fn next_element_ref(&mut self, element_ref: ElementRef) -> (b: BubbleId)
        requires
            old(self).wf(),
        ensures
            final(self).wf(),
            insert_effect(
                old(self).element_refs_view(),
                final(self).element_refs_view(),
                b.0 as int,
                element_ref,
            ),
            occupied(final(self).element_refs_view(), b.0 as int),
            final(self).elements_view() == old(self).elements_view(),
            final(self).scopes_view() == old(self).scopes_view(),
            final(self).dirty_view() == old(self).dirty_view(),
            final(self).tasks_view() == old(self).tasks_view(),
            final(self).cells_view() == old(self).cells_view(),
            final(self).events_view() == old(self).events_view(),
    {
        let i = self.element_refs.insert(element_ref);
        BubbleId(i)
    }

    /// Frees an element identity for reuse. The reserved root identity `0`
    /// and identities that are not currently allocated are contract
    /// violations, so they are excluded here; `try_reclaim` is the checked
    /// variant.
    pub fn reclaim(&mut self, el: ElementId)
        requires
            old(self).wf(),
            el.0 != 0,
            old(self).element_live(el),
        ensures
            final(self).wf(),
            final(self).elements_view() == old(self).elements_view().update(el.0 as int, None),
            !final(self).element_live(el),
            final(self).element_refs_view() == old(self).element_refs_view(),
            final(self).scopes_view() == old(self).scopes_view(),
            final(self).dirty_view() == old(self).dirty_view(),
            final(self).tasks_view() == old(self).tasks_view(),
            final(self).cells_view() == old(self).cells_view(),
            final(self).events_view() == old(self).events_view(),
    {
        let _ = self.try_reclaim(el);
    }

    /// Frees an element identity for reuse, reporting rather than assuming
    /// the two edge cases: reclaiming the reserved root identity is a fatal
    /// invariant violation and is refused, while reclaiming an identity that
    /// is already free is an expected absence and yields `Ok(None)`.
    pub fn try_reclaim(&mut self, el: ElementId) -> (r: Result<Option<()>, ArenaError>)
        requires
            old(self).wf(),
        ensures
            final(self).wf(),
            el.0 == 0 ==> r == Result::<Option<()>, ArenaError>::Err(ArenaError::RootReclaim)
                && *final(self) == *old(self),
            el.0 != 0 ==> {
                &&& (r == Result::<Option<()>, ArenaError>::Ok(Some(())) <==> occupied(
                    old(self).elements_view(),
                    el.0 as int,
                ))
                &&& (r == Result::<Option<()>, ArenaError>::Ok(Option::<()>::None) <==> !occupied(
                    old(self).elements_view(),
                    el.0 as int,
                ))
                &&& final(self).elements_view() == if el.0 < old(self).elements_view().len() {
                    old(self).elements_view().update(el.0 as int, None)
                } else {
                    old(self).elements_view()
                }
            },
            !final(self).element_live(el) || el.0 == 0,
            final(self).element_refs_view() == old(self).element_refs_view(),
            final(self).scopes_view() == old(self).scopes_view(),
            final(self).dirty_view() == old(self).dirty_view(),
            final(self).tasks_view() == old(self).tasks_view(),
            final(self).cells_view() == old(self).cells_view(),
            final(self).events_view() == old(self).events_view(),
    {
        if el.0 == 0 {
            return Err(ArenaError::RootReclaim);
        }
        match self.elements.try_remove(el.0) {
            Some(_) => Ok(Some(())),
            None => Ok(None),
        }
    }

    /// Identity reuse at the arena level: after `next_element` handed out an
    /// identity and `try_reclaim` freed it, the next `next_element` hands the
    /// same identity out again, and its slot holds a fresh, unbound entry —
    /// nothing bound before the reclaim survives into the reuse.
    pub proof fn lemma_element_identity_reuse(
        v0: Self,
        v1: Self,
        v2: Self,
        v3: Self,
        e1: ElementId,
        e2: ElementId,
    )
        requires
            e1.0 != 0,
            // what `next_element` ensures of v0 -> v1, returning e1
            insert_effect(v0.elements_view(), v1.elements_view(), e1.0 as int, None),
            // what `try_reclaim` ensures of v1 -> v2 on e1
            v2.elements_view() == if e1.0 < v1.elements_view().len() {
                v1.elements_view().update(e1.0 as int, None)
            } else {
                v1.elements_view()
            },
            // what `next_element` ensures of v2 -> v3, returning e2
            insert_effect(v2.elements_view(), v3.elements_view(), e2.0 as int, None),
        ensures
            e2 == e1,
            v3.elements_view()[e1.0 as int] == Some(Option::<BubbleId>::None),
    {
        assert(e1.0 < v1.elements_view().len());
        crate::slot_table::lemma_identity_reuse(
            v0.elements_view(),
            v1.elements_view(),
            v2.elements_view(),
            v3.elements_view(),
            e1.0 as int,
            None,
            v1.elements_view()[e1.0 as int],
            e2.0 as int,
            None,
        );
        assert(e2.0 == e1.0);
    }

    /// Binds `element_ref` to an allocated element: the first binding
    /// allocates a bubble, a re-binding overwrites the reference in place so
    /// the element keeps its identity across re-renders.
    pub fn set_template(&mut self, el: ElementId, element_ref: ElementRef)
        requires
            old(self).wf(),
            old(self).element_live(el),
        ensures
            final(self).wf(),
            final(self).element_live(el),
            // the element now has a bubble, and that bubble holds the reference
            final(self).elements_view()[el.0 as int] matches Some(Some(b))
                && final(self).element_refs_view()[b.0 as int] == Some(element_ref),
            // a bubble already bound stays bound: identity does not churn
            old(self).elements_view()[el.0 as int] matches Some(Some(b))
                ==> final(self).elements_view() == old(self).elements_view()
                && final(self).element_refs_view() == old(self).element_refs_view().update(
                b.0 as int,
                Some(element_ref),
            ),
            // first binding: only this element's slot gains a bubble
            old(self).elements_view()[el.0 as int] == Some(Option::<BubbleId>::None) ==> {
                &&& exists|b: BubbleId|
                    final(self).elements_view() == old(self).elements_view().update(
                        el.0 as int,
                        Some(Some(b)),
                    ) && insert_effect(
                        old(self).element_refs_view(),
                        final(self).element_refs_view(),
                        b.0 as int,
                        element_ref,
                    )
            },
            final(self).scopes_view() == old(self).scopes_view(),
            final(self).dirty_view() == old(self).dirty_view(),
            final(self).tasks_view() == old(self).tasks_view(),
            final(self).cells_view() == old(self).cells_view(),
            final(self).events_view() == old(self).events_view(),
    {
        let existing = match self.elements.get(el.0) {
            Some(slot) => *slot,
            None => vstd::pervasive::unreached(),
        };
        match existing {
            Some(bubble) => {
                let _ = self.element_refs.put_at(bubble.0, element_ref);
            },
            None => {
                let b = self.next_element_ref(element_ref);
                let _ = self.elements.put_at(el.0, Some(b));
            },
        }
    }

    /// Replaces only the template reference of an element's bubble, used when
    /// a template is hot-swapped without changing the element's slot in it.
    /// An element with no bubble yet is a contract violation and is excluded.
    pub fn update_template(&mut self, el: ElementId, template: TemplateId)
        requires
            old(self).wf(),
            old(self).elements_view()[el.0 as int] matches Some(Some(_)),
            el.0 < old(self).elements_view().len(),
        ensures
            final(self).wf(),
            final(self).elements_view() == old(self).elements_view(),
            old(self).elements_view()[el.0 as int] matches Some(Some(b)) ==> {
                let pre = old(self).element_refs_view()[b.0 as int].unwrap();
                final(self).element_refs_view() == old(self).element_refs_view().update(
                    b.0 as int,
                    Some(ElementRef { template, path: pre.path, scope: pre.scope }),
                )
            },
            final(self).scopes_view() == old(self).scopes_view(),
            final(self).dirty_view() == old(self).dirty_view(),
            final(self).tasks_view() == old(self).tasks_view(),
            final(self).cells_view() == old(self).cells_view(),
            final(self).events_view() == old(self).events_view(),
    {
        let bubble = match self.elements.get(el.0) {
            Some(slot) => match slot {
                Some(b) => *b,
                None => vstd::pervasive::unreached(),
            },
            None => vstd::pervasive::unreached(),
        };
        let mut r = self.element_refs.take_at(bubble.0);
        r.template = template;
        let _ = self.element_refs.put_at(bubble.0, r);
    }

    /// Mounts a fresh component scope, one level deeper than its parent (or
    /// at height `0` for a root), with empty hooks, task set and
    /// back-reference lists and no render output yet; returns its identity,
    /// allocated in the lowest free scope slot.
    pub fn mount_scope(&mut self, parent: Option<ScopeId>) -> (id: ScopeId)
        requires
            old(self).wf(),
            parent matches Some(p) ==> old(self).scope_live(p) && old(self).scope_at(p).height
                < u32::MAX,
        ensures
            final(self).wf(),
            final(self).scope_live(id),
            insert_effect(
                old(self).scopes_view(),
                final(self).scopes_view(),
                id.0 as int,
                final(self).scope_at(id),
            ),
            final(self).scope_at(id).height == match parent {
                Some(p) => old(self).scope_at(p).height + 1,
                None => 0,
            },
            final(self).scope_at(id).hooks@ == Seq::<u64>::empty(),
            final(self).scope_at(id).spawned_tasks@ == Seq::<TaskId>::empty(),
            final(self).scope_at(id).borrowed_props@ == Seq::<BorrowRef>::empty(),
            final(self).scope_at(id).attributes_to_drop@ == Seq::<CellId>::empty(),
            final(self).scope_at(id).root_node is None,
            final(self).elements_view() == old(self).elements_view(),
            final(self).element_refs_view() == old(self).element_refs_view(),
            final(self).dirty_view() == old(self).dirty_view(),
            final(self).tasks_view() == old(self).tasks_view(),
            final(self).cells_view() == old(self).cells_view(),
            final(self).events_view() == old(self).events_view(),
    {
        let height: u32 = match parent {
            Some(p) => {
                match self.scopes.get(p.0) {
                    Some(s) => s.height + 1,
                    None => vstd::pervasive::unreached(),
                }
            },
            None => 0,
        };
        let record = ScopeState {
            height,
            hooks: Vec::new(),
            spawned_tasks: Vec::new(),
            borrowed_props: Vec::new(),
            attributes_to_drop: Vec::new(),
            root_node: None,
        };
        let i = self.scopes.insert(record);
        ScopeId(i)
    }

    /// Installs the realised output of a render call for scope `id`,
    /// replacing whatever output it had.
    pub fn set_scope_root(&mut self, id: ScopeId, root: Option<RenderReturn>)
        requires
            old(self).wf(),
            old(self).scope_live(id),
            rr_cells_ok(old(self).cells_view().len(), root),
        ensures
            final(self).wf(),
            final(self).scope_live(id),
            final(self).scope_at(id).root_node == root,
            final(self).scope_at(id).height == old(self).scope_at(id).height,
            final(self).scope_at(id).hooks@ == old(self).scope_at(id).hooks@,
            final(self).scope_at(id).spawned_tasks@ == old(self).scope_at(id).spawned_tasks@,
            final(self).scope_at(id).borrowed_props@ == old(self).scope_at(id).borrowed_props@,
            final(self).scope_at(id).attributes_to_drop@ == old(self).scope_at(
                id,
            ).attributes_to_drop@,
            final(self).scopes_view() == old(self).scopes_view().update(
                id.0 as int,
                final(self).scopes_view()[id.0 as int],
            ),
            final(self).elements_view() == old(self).elements_view(),
            final(self).element_refs_view() == old(self).element_refs_view(),
            final(self).dirty_view() == old(self).dirty_view(),
            final(self).tasks_view() == old(self).tasks_view(),
            final(self).cells_view() == old(self).cells_view(),
            final(self).events_view() == old(self).events_view(),
    {
        let mut s = self.scopes.take_at(id.0);
        s.root_node = root;
        let _ = self.scopes.put_at(id.0, s);
    }

    /// Allocates a fresh, filled cell standing for a borrowed prop, listener
    /// or generic value owned by render output.
    pub fn new_cell(&mut self) -> (c: CellId)
        requires
            old(self).wf(),
        ensures
            final(self).wf(),
            c.0 == old(self).cells_view().len(),
            final(self).cells_view() == old(self).cells_view().push(CellState::Filled),
            final(self).elements_view() == old(self).elements_view(),
            final(self).element_refs_view() == old(self).element_refs_view(),
            final(self).scopes_view() == old(self).scopes_view(),
            final(self).dirty_view() == old(self).dirty_view(),
            final(self).tasks_view() == old(self).tasks_view(),
            final(self).events_view() == old(self).events_view(),
    {
        let c = CellId(self.cells.len());
        self.cells.push(CellState::Filled);
        proof {
            let pre = old(self);
            assert forall|i: int|
                0 <= i < self.scopes_view().len() && self.scopes_view()[i] is Some implies {
                let s = (#[trigger] self.scopes_view()[i]).unwrap();
                scope_cells_ok(s, self.cells_view().len()) && rr_cells_ok(
                    self.cells_view().len(),
                    s.root_node,
                )
            } by {
                let s = self.scopes_view()[i].unwrap();
                match s.root_node {
                    Some(RenderReturn::Ready(node)) => {
                        lemma_node_cells_ok_grow(
                            pre.cells_view().len(),
                            self.cells_view().len(),
                            node,
                        );
                    },
                    _ => {},
                }
            }
        }
        c
    }

    /// Records in scope `id` a back-reference for a prop that one of its
    /// component nodes borrows.
    pub fn push_borrowed_prop(&mut self, id: ScopeId, entry: BorrowRef)
        requires
            old(self).wf(),
            old(self).scope_live(id),
            old(self).cell_ok(entry.props),
        ensures
            final(self).wf(),
            final(self).scope_live(id),
            final(self).scope_at(id).borrowed_props@ == old(self).scope_at(
                id,
            ).borrowed_props@.push(entry),
            final(self).scope_at(id).height == old(self).scope_at(id).height,
            final(self).scope_at(id).hooks@ == old(self).scope_at(id).hooks@,
            final(self).scope_at(id).spawned_tasks@ == old(self).scope_at(id).spawned_tasks@,
            final(self).scope_at(id).attributes_to_drop@ == old(self).scope_at(
                id,
            ).attributes_to_drop@,
            final(self).scope_at(id).root_node == old(self).scope_at(id).root_node,
            final(self).scopes_view() == old(self).scopes_view().update(
                id.0 as int,
                final(self).scopes_view()[id.0 as int],
            ),
            final(self).elements_view() == old(self).elements_view(),
            final(self).element_refs_view() == old(self).element_refs_view(),
            final(self).dirty_view() == old(self).dirty_view(),
            final(self).tasks_view() == old(self).tasks_view(),
            final(self).cells_view() == old(self).cells_view(),
            final(self).events_view() == old(self).events_view(),
    {
        let mut s = self.scopes.take_at(id.0);
        s.borrowed_props.push(entry);
        let _ = self.scopes.put_at(id.0, s);
    }

    /// Records in scope `id` a back-reference for a listener or
    /// generic-value cell owned by one of its rendered elements.
    pub fn push_listener(&mut self, id: ScopeId, cell: CellId)
        requires
            old(self).wf(),
            old(self).scope_live(id),
            old(self).cell_ok(cell),
        ensures
            final(self).wf(),
            final(self).scope_live(id),
            final(self).scope_at(id).attributes_to_drop@ == old(self).scope_at(
                id,
            ).attributes_to_drop@.push(cell),
            final(self).scope_at(id).height == old(self).scope_at(id).height,
            final(self).scope_at(id).hooks@ == old(self).scope_at(id).hooks@,
            final(self).scope_at(id).spawned_tasks@ == old(self).scope_at(id).spawned_tasks@,
            final(self).scope_at(id).borrowed_props@ == old(self).scope_at(id).borrowed_props@,
            final(self).scope_at(id).root_node == old(self).scope_at(id).root_node,
            final(self).scopes_view() == old(self).scopes_view().update(
                id.0 as int,
                final(self).scopes_view()[id.0 as int],
            ),
            final(self).elements_view() == old(self).elements_view(),
            final(self).element_refs_view() == old(self).element_refs_view(),
            final(self).dirty_view() == old(self).dirty_view(),
            final(self).tasks_view() == old(self).tasks_view(),
            final(self).cells_view() == old(self).cells_view(),
            final(self).events_view() == old(self).events_view(),
    {
        let mut s = self.scopes.take_at(id.0);
        s.attributes_to_drop.push(cell);
        let _ = self.scopes.put_at(id.0, s);
    }

    /// Appends a hook storage slot to scope `id`; hook storage is append-only
    /// until teardown clears it.
    pub fn push_hook(&mut self, id: ScopeId, hook: u64)
        requires
            old(self).wf(),
            old(self).scope_live(id),
        ensures
            final(self).wf(),
            final(self).scope_live(id),
            final(self).scope_at(id).hooks@ == old(self).scope_at(id).hooks@.push(hook),
            final(self).scope_at(id).height == old(self).scope_at(id).height,
            final(self).scope_at(id).spawned_tasks@ == old(self).scope_at(id).spawned_tasks@,
            final(self).scope_at(id).borrowed_props@ == old(self).scope_at(id).borrowed_props@,
            final(self).scope_at(id).attributes_to_drop@ == old(self).scope_at(
                id,
            ).attributes_to_drop@,
            final(self).scope_at(id).root_node == old(self).scope_at(id).root_node,
            final(self).scopes_view() == old(self).scopes_view().update(
                id.0 as int,
                final(self).scopes_view()[id.0 as int],
            ),
            final(self).elements_view() == old(self).elements_view(),
            final(self).element_refs_view() == old(self).element_refs_view(),
            final(self).dirty_view() == old(self).dirty_view(),
            final(self).tasks_view() == old(self).tasks_view(),
            final(self).cells_view() == old(self).cells_view(),
            final(self).events_view() == old(self).events_view(),
    {
        let mut s = self.scopes.take_at(id.0);
        s.hooks.push(hook);
        let _ = self.scopes.put_at(id.0, s);
    }

    /// Registers a task with the runtime and records it as spawned by scope
    /// `id`, so that tearing the scope down cancels it.
    pub fn spawn_task(&mut self, id: ScopeId, task: TaskId)
        requires
            old(self).wf(),
            old(self).scope_live(id),
        ensures
            final(self).wf(),
            final(self).scope_live(id),
            final(self).tasks_view() == old(self).tasks_view().push(task),
            final(self).scope_at(id).spawned_tasks@ == old(self).scope_at(
                id,
            ).spawned_tasks@.push(task),
            final(self).scope_at(id).height == old(self).scope_at(id).height,
            final(self).scope_at(id).hooks@ == old(self).scope_at(id).hooks@,
            final(self).scope_at(id).borrowed_props@ == old(self).scope_at(id).borrowed_props@,
            final(self).scope_at(id).attributes_to_drop@ == old(self).scope_at(
                id,
            ).attributes_to_drop@,
            final(self).scope_at(id).root_node == old(self).scope_at(id).root_node,
            final(self).scopes_view() == old(self).scopes_view().update(
                id.0 as int,
                final(self).scopes_view()[id.0 as int],
            ),
            final(self).elements_view() == old(self).elements_view(),
            final(self).element_refs_view() == old(self).element_refs_view(),
            final(self).dirty_view() == old(self).dirty_view(),
            final(self).cells_view() == old(self).cells_view(),
            final(self).events_view() == old(self).events_view(),
    {
        let mut s = self.scopes.take_at(id.0);
        s.spawned_tasks.push(task);
        let _ = self.scopes.put_at(id.0, s);
        self.tasks.push(task);
    }

    /// Schedules scope `id` for re-render by inserting it into the dirty set
    /// under its recorded height; a scope already present stays present once.
    pub fn mark_dirty(&mut self, id: ScopeId)
        requires
            old(self).wf(),
            old(self).scope_live(id),
        ensures
            final(self).wf(),
            final(self).dirty_view().contains(
                (DirtyScope { height: old(self).scope_at(id).height, id }),
            ),
            forall|d: DirtyScope| #[trigger]
                final(self).dirty_view().contains(d) <==> old(self).dirty_view().contains(d) || d
                    == (DirtyScope { height: old(self).scope_at(id).height, id }),
            final(self).elements_view() == old(self).elements_view(),
            final(self).element_refs_view() == old(self).element_refs_view(),
            final(self).scopes_view() == old(self).scopes_view(),
            final(self).tasks_view() == old(self).tasks_view(),
            final(self).cells_view() == old(self).cells_view(),
            final(self).events_view() == old(self).events_view(),
    {
        let height: u32 = match self.scopes.get(id.0) {
            Some(s) => s.height,
            None => vstd::pervasive::unreached(),
        };
        let key = DirtyScope { height, id };
        let n = self.dirty_scopes.len();
        let pos = self.dirty_insert_pos(key);
        if pos < n {
            let e = self.dirty_scopes[pos];
            if e.height == height && e.id.0 == id.0 {
                proof {
                    assert(self.dirty_view()[pos as int] == key);
                    assert(self.dirty_view().contains(key));
                }
                return ;
            }
        }
        proof {
            assert(pos < n ==> !dirty_lt(self.dirty_scopes@[pos as int], key)
                && self.dirty_scopes@[pos as int] != key);
        }
        self.dirty_scopes.insert(pos, key);
        proof {
            let pre = old(self).dirty_view();
            let post = self.dirty_scopes@;
            assert(post == pre.insert(pos as int, key));
            assert forall|d: DirtyScope| #[trigger] post.contains(d) implies (pre.contains(d) || d
                == key) by {
                let k = choose|k: int| 0 <= k < post.len() && post[k] == d;
                if k < pos {
                    assert(pre[k] == d);
                } else if k > pos {
                    assert(pre[k - 1] == d);
                }
            }
            assert forall|d: DirtyScope| pre.contains(d) implies post.contains(d) by {
                let k = choose|k: int| 0 <= k < pre.len() && pre[k] == d;
                if k < pos {
                    assert(post[k] == d);
                } else {
                    assert(post[k + 1] == d);
                }
            }
            assert(post[pos as int] == key);
            assert(post.contains(key));
            // order: everything before the insertion point is below the key,
            // everything after is above it
            assert forall|k1: int, k2: int| 0 <= k1 < k2 < post.len() implies dirty_lt(
                #[trigger] post[k1],
                #[trigger] post[k2],
            ) by {
                if k1 == pos {
                    assert(post[k2] == pre[k2 - 1]);
                    if k2 - 1 > pos {
                        assert(dirty_lt(pre[pos as int], pre[k2 - 1]));
                    }
                } else if k2 == pos {
                    assert(post[k1] == pre[k1]);
                } else if k1 < pos && k2 > pos {
                    assert(post[k1] == pre[k1] && post[k2] == pre[k2 - 1]);
                    if k2 - 1 > pos {
                        assert(dirty_lt(pre[pos as int], pre[k2 - 1]));
                    }
                }
            }
        }
    }

    /// Position of the first dirty entry not strictly below `key`, or the
    /// set's length when every entry is below it.
    fn dirty_insert_pos(&self, key: DirtyScope) -> (pos: usize)
        ensures
            0 <= pos <= self.dirty_view().len(),
            forall|k: int| 0 <= k < pos ==> dirty_lt(#[trigger] self.dirty_view()[k], key),
            pos < self.dirty_view().len() ==> !dirty_lt(self.dirty_view()[pos as int], key),
    {
        let n = self.dirty_scopes.len();
        let mut pos: usize = 0;
        while pos < n
            invariant
                0 <= pos <= n,
                n == self.dirty_scopes@.len(),
                forall|k: int| 0 <= k < pos ==> dirty_lt(#[trigger] self.dirty_scopes@[k], key),
            decreases n - pos,
        {
            let e = self.dirty_scopes[pos];
            if !(e.height < key.height || (e.height == key.height && e.id.0 < key.id.0)) {
                return pos;
            }
            pos += 1;
        }
        pos
    }

    /// Index of the dirty entry equal to `key`, if the set holds one.
    fn dirty_find(&self, key: DirtyScope) -> (r: Option<usize>)
        ensures
            r matches Some(p) ==> p < self.dirty_view().len() && self.dirty_view()[p as int]
                == key,
            r is None ==> forall|k: int|
                0 <= k < self.dirty_view().len() ==> #[trigger] self.dirty_view()[k] != key,
    {
        let n = self.dirty_scopes.len();
        let mut pos: usize = 0;
        while pos < n
            invariant
                0 <= pos <= n,
                n == self.dirty_scopes@.len(),
                forall|k: int| 0 <= k < pos ==> #[trigger] self.dirty_scopes@[k] != key,
            decreases n - pos,
        {
            let e = self.dirty_scopes[pos];
            if e.height == key.height && e.id.0 == key.id.0 {
                proof {
                    assert(self.dirty_scopes@[pos as int] == key);
                }
                return Some(pos);
            }
            pos += 1;
        }
        None
    }

    /// Evicts the dirty entry recorded for `id` under `height`, if present.
    pub(crate) fn remove_dirty(&mut self, height: u32, id: ScopeId)
        requires
            old(self).wf(),
        ensures
            final(self).wf(),
            !final(self).dirty_view().contains((DirtyScope { height, id })),
            forall|d: DirtyScope| #[trigger]
                final(self).dirty_view().contains(d) <==> old(self).dirty_view().contains(d) && d
                    != (DirtyScope { height, id }),
            final(self).elements_view() == old(self).elements_view(),
            final(self).element_refs_view() == old(self).element_refs_view(),
            final(self).scopes_view() == old(self).scopes_view(),
            final(self).tasks_view() == old(self).tasks_view(),
            final(self).cells_view() == old(self).cells_view(),
            final(self).events_view() == old(self).events_view(),
    {
        let key = DirtyScope { height, id };
        let pos = match self.dirty_find(key) {
            Some(p) => p,
            None => {
                proof {
                    assert forall|d: DirtyScope| #[trigger]
                        self.dirty_view().contains(d) implies d != key by {
                        let k = choose|k: int|
                            0 <= k < self.dirty_view().len() && self.dirty_view()[k] == d;
                        assert(self.dirty_view()[k] != key);
                    }
                }
                return ;
            },
        };
        self.dirty_scopes.remove(pos);
        proof {
            let pre = old(self).dirty_view();
            let post = self.dirty_scopes@;
            assert(post == pre.remove(pos as int));
            assert(pre[pos as int] == key);
            assert forall|d: DirtyScope| #[trigger] post.contains(d) implies (pre.contains(d) && d
                != key) by {
                let k = choose|k: int| 0 <= k < post.len() && post[k] == d;
                if k < pos {
                    assert(pre[k] == d);
                    if d == key {
                        assert(dirty_lt(pre[k], pre[pos as int]));
                    }
                } else {
                    assert(pre[k + 1] == d);
                    if d == key {
                        assert(dirty_lt(pre[pos as int], pre[k + 1]));
                    }
                }
            }
            assert forall|d: DirtyScope| pre.contains(d) && d != key implies post.contains(d) by {
                let k = choose|k: int| 0 <= k < pre.len() && pre[k] == d;
                if k < pos {
                    assert(post[k] == d);
                } else if k > pos {
                    assert(post[k - 1] == d);
                }
            }
            assert forall|k1: int, k2: int| 0 <= k1 < k2 < post.len() implies dirty_lt(
                #[trigger] post[k1],
                #[trigger] post[k2],
            ) by {
                if k2 < pos {
                } else if k1 >= pos {
                    assert(post[k1] == pre[k1 + 1] && post[k2] == pre[k2 + 1]);
                } else {
                    assert(post[k1] == pre[k1] && post[k2] == pre[k2 + 1]);
                }
            }
        }
    }

    /// Removes every occurrence of `task` from the runtime's active set.
    pub(crate) fn remove_task(&mut self, task: TaskId)
        requires
            old(self).wf(),
        ensures
            final(self).wf(),
            !final(self).tasks_view().contains(task),
            forall|t: TaskId| #[trigger]
                final(self).tasks_view().contains(t) <==> old(self).tasks_view().contains(t) && t
                    != task,
            final(self).elements_view() == old(self).elements_view(),
            final(self).element_refs_view() == old(self).element_refs_view(),
            final(self).scopes_view() == old(self).scopes_view(),
            final(self).dirty_view() == old(self).dirty_view(),
            final(self).cells_view() == old(self).cells_view(),
            final(self).events_view() == old(self).events_view(),
    {
        let mut kept: Vec<TaskId> = Vec::new();
        let n = self.tasks.len();
        let mut i: usize = 0;
        while i < n
            invariant
                0 <= i <= n,
                *self == *old(self),
                n == self.tasks@.len(),
                forall|t: TaskId| #[trigger]
                    kept@.contains(t) <==> self.tasks@.subrange(0, i as int).contains(t) && t
                        != task,
            decreases n - i,
        {
            let t = self.tasks[i];
            let ghost prefix = self.tasks@.subrange(0, i as int);
            if !(t.0 == task.0) {
                kept.push(t);
            }
            proof {
                let longer = self.tasks@.subrange(0, i as int + 1);
                assert(longer.drop_last() == prefix);
                assert(longer.last() == t);
                assert forall|u: TaskId| #[trigger] longer.contains(u) implies (prefix.contains(u)
                    || u == t) by {
                    let k = choose|k: int| 0 <= k < longer.len() && longer[k] == u;
                    if k < i {
                        assert(prefix[k] == u);
                    }
                }
                assert forall|u: TaskId| prefix.contains(u) implies longer.contains(u) by {
                    let k = choose|k: int| 0 <= k < prefix.len() && prefix[k] == u;
                    assert(longer[k] == u);
                }
                assert(longer.contains(t)) by {
                    assert(longer[i as int] == t);
                }
            }
            i += 1;
        }
        proof {
            assert(self.tasks@.subrange(0, n as int) == self.tasks@);
        }
        self.tasks = kept;
    }

    /// Empties the cell `c`; clearing an already empty cell is a no-op.
    pub(crate) fn clear_cell(&mut self, c: CellId)
        requires
            old(self).wf(),
            old(self).cell_ok(c),
        ensures
            final(self).wf(),
            final(self).cells_view() == old(self).cells_view().update(
                c.0 as int,
                CellState::Empty,
            ),
            final(self).elements_view() == old(self).elements_view(),
            final(self).element_refs_view() == old(self).element_refs_view(),
            final(self).scopes_view() == old(self).scopes_view(),
            final(self).dirty_view() == old(self).dirty_view(),
            final(self).tasks_view() == old(self).tasks_view(),
            final(self).events_view() == old(self).events_view(),
    {
        self.cells[c.0] = CellState::Empty;
    }

    /// Descends through the borrow graph and severs every borrowed-prop and
    /// listener back-reference of `scope_id` before structural teardown
    /// begins. A borrow entry that names a different child scope has that
    /// child walked first, so the deepest borrows are severed before the cell
    /// they were borrowed through is emptied; afterwards the scope's own
    /// listener cells are emptied. Every cleared cell is logged.
    #[verifier::loop_isolation(false)]
    pub fn ensure_drop_safety(&mut self, scope_id: ScopeId)
        requires
            old(self).wf(),
            old(self).scope_live(scope_id),
        ensures
            final(self).wf(),
            final(self).scope_live(scope_id),
            final(self).elements_view() == old(self).elements_view(),
            final(self).element_refs_view() == old(self).element_refs_view(),
            final(self).dirty_view() == old(self).dirty_view(),
            final(self).tasks_view() == old(self).tasks_view(),
            final(self).cells_view().len() == old(self).cells_view().len(),
            final(self).scopes_view().len() == old(self).scopes_view().len(),
            forall|i: int|
                0 <= i < final(self).scopes_view().len() ==> (((#[trigger] final(self).scopes_view()[i]) is Some) == old(self).scopes_view()[i] is Some),
            forall|i: int|
                0 <= i < final(self).scopes_view().len() && final(self).scopes_view()[i] is Some
                    ==> scope_drained_from(
                    old(self).scopes_view()[i].unwrap(),
                    (#[trigger] final(self).scopes_view()[i]).unwrap(),
                ),
            final(self).scope_at(scope_id).borrowed_props@.len() == 0,
            final(self).scope_at(scope_id).attributes_to_drop@.len() == 0,
            forall|c: int|
                0 <= c < final(self).cells_view().len() && (#[trigger] final(self).cells_view()[c]) is Filled ==> old(self).cells_view()[c] is Filled,
            old(self).events_view().is_prefix_of(final(self).events_view()),
            forall|m: int|
                old(self).events_view().len() <= m < final(self).events_view().len() ==> (
                (#[trigger] final(self).events_view()[m]) is BorrowCleared || final(self).events_view()[m] is ListenerCleared),
            forall|i: int|
                0 <= i < final(self).scopes_view().len() && final(self).scopes_view()[i] is Some
                    && (#[trigger] final(self).scopes_view()[i]).unwrap().borrowed_props@ != old(self).scopes_view()[i].unwrap().borrowed_props@ ==> crate::teardown::drained_logged(
                    old(self).scopes_view()[i].unwrap().borrowed_props@,
                    *final(self),
                    old(self).events_view().len() as int,
                ),
            crate::teardown::drained_logged(
                old(self).scope_at(scope_id).borrowed_props@,
                *final(self),
                old(self).events_view().len() as int,
            ),
            forall|i: int|
                0 <= i < final(self).scopes_view().len() && final(self).scopes_view()[i] is Some
                    ==> (#[trigger] final(self).scopes_view()[i]).unwrap().root_node == old(self).scopes_view()[i].unwrap().root_node,
            forall|k: int|
                0 <= k < old(self).scope_at(scope_id).attributes_to_drop@.len() ==> final(self).cell_state(#[trigger] old(self).scope_at(scope_id).attributes_to_drop@[k]) is Empty,
            crate::teardown::teardown_frame(*old(self), *final(self)),
            crate::teardown::borrow_lists_accounted(
                *old(self),
                *final(self),
                old(self).events_view().len() as int,
            ),
            crate::teardown::borrows_total(final(self).scopes_view())
                <= crate::teardown::borrows_total(old(self).scopes_view()),
        decreases crate::teardown::borrows_total(old(self).scopes_view()),
    {
        let ghost pre = *old(self);
        let ghost from = old(self).events_view().len() as int;

        // Drain both back-reference lists out of the scope record before any
        // recursion: the total number of recorded borrows shrinks by the
        // whole list at once, which is what bounds the recursion.
        let mut s = self.scopes.take_at(scope_id.0);
        let mut entries: Vec<BorrowRef> = Vec::new();
        core::mem::swap(&mut entries, &mut s.borrowed_props);
        let mut listeners: Vec<CellId> = Vec::new();
        core::mem::swap(&mut listeners, &mut s.attributes_to_drop);
        let _ = self.scopes.put_at(scope_id.0, s);

        proof {
            assert(self.scopes_view() =~= pre.scopes_view().update(
                scope_id.0 as int,
                self.scopes_view()[scope_id.0 as int],
            ));
            crate::teardown::lemma_borrows_total_update(
                pre.scopes_view(),
                scope_id.0 as int,
                self.scopes_view()[scope_id.0 as int],
            );
        }

        let n = entries.len();
        let mut k: usize = 0;
        while k < n
            invariant
                0 <= k <= n,
                n == entries@.len(),
                entries@ == pre.scope_at(scope_id).borrowed_props@,
                listeners@ == pre.scope_at(scope_id).attributes_to_drop@,
                pre.wf(),
                pre.scope_live(scope_id),
                self.wf(),
                self.scope_live(scope_id),
                self.elements_view() == pre.elements_view(),
                self.element_refs_view() == pre.element_refs_view(),
                self.dirty_view() == pre.dirty_view(),
                self.tasks_view() == pre.tasks_view(),
                self.cells_view().len() == pre.cells_view().len(),
                self.scopes_view().len() == pre.scopes_view().len(),
                forall|i: int|
                    0 <= i < self.scopes_view().len() ==> (((#[trigger] self.scopes_view()[i]) is Some)
                        == pre.scopes_view()[i] is Some),
                forall|i: int|
                    0 <= i < self.scopes_view().len() && self.scopes_view()[i] is Some
                        ==> scope_drained_from(
                        pre.scopes_view()[i].unwrap(),
                        (#[trigger] self.scopes_view()[i]).unwrap(),
                    ),
                forall|i: int|
                    0 <= i < self.scopes_view().len() && self.scopes_view()[i] is Some
                        ==> (#[trigger] self.scopes_view()[i]).unwrap().root_node
                        == pre.scopes_view()[i].unwrap().root_node,
                self.scope_at(scope_id).borrowed_props@.len() == 0,
                self.scope_at(scope_id).attributes_to_drop@.len() == 0,
                forall|c: int|
                    0 <= c < self.cells_view().len() && (#[trigger] self.cells_view()[c]) is Filled
                        ==> pre.cells_view()[c] is Filled,
                pre.events_view().is_prefix_of(self.events_view()),
                from == pre.events_view().len(),
                forall|m: int|
                    from <= m < self.events_view().len() ==> ((#[trigger] self.events_view()[m]) is BorrowCleared
                        || self.events_view()[m] is ListenerCleared),
                forall|i: int|
                    0 <= i < self.scopes_view().len() && self.scopes_view()[i] is Some && i
                        != scope_id.0 && (#[trigger] self.scopes_view()[i]).unwrap().borrowed_props@
                        != pre.scopes_view()[i].unwrap().borrowed_props@
                        ==> crate::teardown::drained_logged(
                        pre.scopes_view()[i].unwrap().borrowed_props@,
                        *self,
                        from,
                    ),
                crate::teardown::drained_logged(entries@.subrange(0, k as int), *self, from),
                crate::teardown::borrows_total(self.scopes_view()) + entries@.len()
                    <= crate::teardown::borrows_total(pre.scopes_view()),
            decreases n - k,
        {
            let ghost before = *self;
            let entry = entries[k];
            match entry.scope {
                Some(child) => {
                    if child.0 != scope_id.0 {
                        if self.scopes.is_occupied(child.0) {
                            proof {
                                assert(crate::teardown::borrows_total(self.scopes_view())
                                    < crate::teardown::borrows_total(pre.scopes_view()));
                            }
                            self.ensure_drop_safety(child);
                        }
                    }
                },
                None => {},
            }
            let ghost mid = *self;
            self.clear_cell(entry.props);
            self.events.push(Event::BorrowCleared(entry.props));
            proof {
                crate::teardown::lemma_prefix_push(mid.events_view(), Event::BorrowCleared(
                    entry.props,
                ));
                crate::teardown::lemma_prefix_trans(
                    before.events_view(),
                    mid.events_view(),
                    self.events_view(),
                );
                crate::teardown::lemma_prefix_trans(
                    pre.events_view(),
                    before.events_view(),
                    self.events_view(),
                );
                // the facts gathered so far survive the recursion and the push
                assert forall|i: int|
                    0 <= i < self.scopes_view().len() && self.scopes_view()[i] is Some && i
                        != scope_id.0 && (#[trigger] self.scopes_view()[i]).unwrap().borrowed_props@
                        != pre.scopes_view()[i].unwrap().borrowed_props@
                        implies crate::teardown::drained_logged(
                    pre.scopes_view()[i].unwrap().borrowed_props@,
                    *self,
                    from,
                ) by {
                    if before.scopes_view()[i].unwrap().borrowed_props@
                        != pre.scopes_view()[i].unwrap().borrowed_props@ {
                        crate::teardown::lemma_drained_logged_persists(
                            pre.scopes_view()[i].unwrap().borrowed_props@,
                            before,
                            *self,
                            from,
                        );
                    } else {
                        crate::teardown::lemma_drained_logged_persists(
                            pre.scopes_view()[i].unwrap().borrowed_props@,
                            mid,
                            *self,
                            from,
                        );
                    }
                }
                crate::teardown::lemma_drained_logged_persists(
                    entries@.subrange(0, k as int),
                    before,
                    *self,
                    from,
                );
                assert(crate::teardown::drained_logged(
                    entries@.subrange(0, k as int + 1),
                    *self,
                    from,
                )) by {
                    let seg = entries@.subrange(0, k as int + 1);
                    assert forall|k2: int| 0 <= k2 < seg.len() implies {
                        let e = #[trigger] seg[k2];
                        &&& exists|m: int|
                            from <= m < self.events_view().len() && self.events_view()[m]
                                == Event::BorrowCleared(e.props)
                        &&& e.props.0 < self.cells_view().len() ==> self.cell_state(
                            e.props,
                        ) is Empty
                    } by {
                        if k2 < k {
                            assert(seg[k2] == entries@.subrange(0, k as int)[k2]);
                        } else {
                            assert(seg[k2] == entries@[k as int]);
                            assert(self.events_view()[self.events_view().len() - 1]
                                == Event::BorrowCleared(entry.props));
                        }
                    }
                }
            }
            k += 1;
        }

        proof {
            assert(entries@.subrange(0, n as int) =~= entries@);
        }

        let m = listeners.len();
        let mut j: usize = 0;
        while j < m
            invariant
                0 <= j <= m,
                m == listeners@.len(),
                listeners@ == pre.scope_at(scope_id).attributes_to_drop@,
                pre.wf(),
                pre.scope_live(scope_id),
                self.wf(),
                self.scope_live(scope_id),
                self.elements_view() == pre.elements_view(),
                self.element_refs_view() == pre.element_refs_view(),
                self.dirty_view() == pre.dirty_view(),
                self.tasks_view() == pre.tasks_view(),
                self.cells_view().len() == pre.cells_view().len(),
                self.scopes_view().len() == pre.scopes_view().len(),
                forall|i: int|
                    0 <= i < self.scopes_view().len() ==> (((#[trigger] self.scopes_view()[i]) is Some)
                        == pre.scopes_view()[i] is Some),
                forall|i: int|
                    0 <= i < self.scopes_view().len() && self.scopes_view()[i] is Some
                        ==> scope_drained_from(
                        pre.scopes_view()[i].unwrap(),
                        (#[trigger] self.scopes_view()[i]).unwrap(),
                    ),
                self.scope_at(scope_id).borrowed_props@.len() == 0,
                self.scope_at(scope_id).attributes_to_drop@.len() == 0,
                forall|c: int|
                    0 <= c < self.cells_view().len() && (#[trigger] self.cells_view()[c]) is Filled
                        ==> pre.cells_view()[c] is Filled,
                pre.events_view().is_prefix_of(self.events_view()),
                from == pre.events_view().len(),
                forall|m2: int|
                    from <= m2 < self.events_view().len() ==> ((#[trigger] self.events_view()[m2]) is BorrowCleared
                        || self.events_view()[m2] is ListenerCleared),
                forall|i: int|
                    0 <= i < self.scopes_view().len() && self.scopes_view()[i] is Some && i
                        != scope_id.0 && (#[trigger] self.scopes_view()[i]).unwrap().borrowed_props@
                        != pre.scopes_view()[i].unwrap().borrowed_props@
                        ==> crate::teardown::drained_logged(
                        pre.scopes_view()[i].unwrap().borrowed_props@,
                        *self,
                        from,
                    ),
                crate::teardown::drained_logged(
                    pre.scope_at(scope_id).borrowed_props@,
                    *self,
                    from,
                ),
                forall|i: int|
                    0 <= i < self.scopes_view().len() && self.scopes_view()[i] is Some
                        ==> (#[trigger] self.scopes_view()[i]).unwrap().root_node
                        == pre.scopes_view()[i].unwrap().root_node,
                forall|jj: int|
                    0 <= jj < j ==> self.cell_state(#[trigger] listeners@[jj]) is Empty,
                crate::teardown::borrows_total(self.scopes_view())
                    <= crate::teardown::borrows_total(pre.scopes_view()),
            decreases m - j,
        {
            let ghost before = *self;
            let cell = listeners[j];
            proof {
                assert(pre.scope_at(scope_id).attributes_to_drop@[j as int] == cell);
            }
            self.clear_cell(cell);
            self.events.push(Event::ListenerCleared(cell));
            proof {
                crate::teardown::lemma_prefix_push(before.events_view(), Event::ListenerCleared(
                    cell,
                ));
                crate::teardown::lemma_prefix_trans(
                    pre.events_view(),
                    before.events_view(),
                    self.events_view(),
                );
                assert forall|i: int|
                    0 <= i < self.scopes_view().len() && self.scopes_view()[i] is Some && i
                        != scope_id.0 && (#[trigger] self.scopes_view()[i]).unwrap().borrowed_props@
                        != pre.scopes_view()[i].unwrap().borrowed_props@
                        implies crate::teardown::drained_logged(
                    pre.scopes_view()[i].unwrap().borrowed_props@,
                    *self,
                    from,
                ) by {
                    crate::teardown::lemma_drained_logged_persists(
                        pre.scopes_view()[i].unwrap().borrowed_props@,
                        before,
                        *self,
                        from,
                    );
                }
                crate::teardown::lemma_drained_logged_persists(
                    pre.scope_at(scope_id).borrowed_props@,
                    before,
                    *self,
                    from,
                );
            }
            j += 1;
        }
    }

    /// Walks realised render output during recursive teardown: every nested
    /// component that still names a live scope strictly deeper than `height`
    /// is torn down in full, and every component node's prop cell is emptied.
    #[verifier::loop_isolation(false)]
    pub fn drop_scope_inner(&mut self, node: &VNode, height: u32)
        requires
            old(self).wf(),
            node_cells_ok(old(self).cells_view().len() as nat, *node),
        ensures
            final(self).wf(),
            crate::teardown::teardown_frame(*old(self), *final(self)),
            crate::teardown::borrow_lists_accounted(
                *old(self),
                *final(self),
                old(self).events_view().len() as int,
            ),
            crate::teardown::removed_scopes_settled(
                *old(self),
                *final(self),
                height as nat + 1,
                old(self).events_view().len() as int,
            ),
            crate::teardown::subtree_dropped(*old(self), *final(self), *node, height),
        decreases
                crate::teardown::live_count_at_least(old(self).scopes_view(), height as nat + 1),
                crate::teardown::vnode_size(*node),
    {
        let ghost pre = *old(self);
        let ghost from = pre.events_view().len() as int;
        let n = node.dynamic_nodes.len();
        let mut k: usize = 0;
        while k < n
            invariant
                0 <= k <= n,
                n == node.dynamic_nodes@.len(),
                self.wf(),
                crate::teardown::teardown_frame(pre, *self),
                crate::teardown::borrow_lists_accounted(pre, *self, from),
                crate::teardown::removed_scopes_settled(pre, *self, height as nat + 1, from),
                forall|kk: int|
                    0 <= kk < k ==> crate::teardown::dnode_dropped(
                        pre,
                        *self,
                        #[trigger] node.dynamic_nodes@[kk],
                        height,
                    ),
            decreases n - k,
        {
            let ghost before = *self;
            proof {
                crate::teardown::lemma_count_shrink(
                    pre.scopes_view(),
                    self.scopes_view(),
                    height as nat + 1,
                );
                crate::teardown::lemma_dnodes_size_elem(node.dynamic_nodes@, k as int);
            }
            self.drop_dnode(&node.dynamic_nodes[k], height);
            proof {
                crate::teardown::lemma_teardown_compose(
                    pre,
                    before,
                    *self,
                    height as nat + 1,
                    from,
                );
                assert forall|kk: int| 0 <= kk < k + 1 implies crate::teardown::dnode_dropped(
                    pre,
                    *self,
                    #[trigger] node.dynamic_nodes@[kk],
                    height,
                ) by {
                    if kk < k {
                        crate::teardown::lemma_dnode_dropped_persists(
                            pre,
                            before,
                            *self,
                            node.dynamic_nodes@[kk],
                            height,
                        );
                    } else {
                        crate::teardown::lemma_dnode_dropped_widen(
                            pre,
                            before,
                            *self,
                            node.dynamic_nodes@[kk],
                            height,
                        );
                    }
                }
            }
            k += 1;
        }
    }

    /// Handles one dynamic node for [`VirtualDom::drop_scope_inner`].
    #[verifier::loop_isolation(false)]
    fn drop_dnode(&mut self, d: &DynamicNode, height: u32)
        requires
            old(self).wf(),
            dnode_cells_ok(old(self).cells_view().len() as nat, *d),
        ensures
            final(self).wf(),
            crate::teardown::teardown_frame(*old(self), *final(self)),
            crate::teardown::borrow_lists_accounted(
                *old(self),
                *final(self),
                old(self).events_view().len() as int,
            ),
            crate::teardown::removed_scopes_settled(
                *old(self),
                *final(self),
                height as nat + 1,
                old(self).events_view().len() as int,
            ),
            crate::teardown::dnode_dropped(*old(self), *final(self), *d, height),
        decreases
                crate::teardown::live_count_at_least(old(self).scopes_view(), height as nat + 1),
                crate::teardown::dnode_size(*d),
    {
        let ghost pre = *old(self);
        let ghost from = pre.events_view().len() as int;
        match d {
            DynamicNode::Component { scope, props } => {
                let cell = *props;
                match scope {
                    Some(fr) => {
                        let f = *fr;
                        match self.scope_height(f) {
                            Some(fh) => {
                                if fh > height {
                                    proof {
                                        crate::teardown::lemma_count_mono_h(
                                            self.scopes_view(),
                                            height as nat + 1,
                                            fh as nat,
                                        );
                                    }
                                    self.drop_scope(f, true);
                                    proof {
                                        crate::teardown::lemma_teardown_compose(
                                            pre,
                                            pre,
                                            *self,
                                            height as nat + 1,
                                            from,
                                        );
                                    }
                                }
                            },
                            None => {},
                        }
                    },
                    None => {},
                }
                let ghost mid = *self;
                self.clear_cell(cell);
                self.events.push(Event::PropsCleared(cell));
                proof {
                    crate::teardown::lemma_prefix_push(mid.events_view(), Event::PropsCleared(
                        cell,
                    ));
                    crate::teardown::lemma_frame_local(mid, *self, height as nat + 1);
                    crate::teardown::lemma_teardown_compose(
                        pre,
                        mid,
                        *self,
                        height as nat + 1,
                        from,
                    );
                }
            },
            DynamicNode::Fragment(nodes) => {
                let m = nodes.len();
                let mut j: usize = 0;
                proof {
                    crate::teardown::lemma_prefix_refl(pre.events_view());
                    crate::teardown::lemma_frame_local(pre, pre, height as nat + 1);
                }
                while j < m
                    invariant
                        0 <= j <= m,
                        m == nodes@.len(),
                        self.wf(),
                        crate::teardown::teardown_frame(pre, *self),
                        crate::teardown::borrow_lists_accounted(pre, *self, from),
                        crate::teardown::removed_scopes_settled(
                            pre,
                            *self,
                            height as nat + 1,
                            from,
                        ),
                        forall|jj: int|
                            0 <= jj < j ==> crate::teardown::subtree_dropped(
                                pre,
                                *self,
                                #[trigger] nodes@[jj],
                                height,
                            ),
                    decreases m - j,
                {
                    let ghost before = *self;
                    proof {
                        crate::teardown::lemma_count_shrink(
                            pre.scopes_view(),
                            self.scopes_view(),
                            height as nat + 1,
                        );
                        crate::teardown::lemma_vnodes_size_elem(nodes@, j as int);
                    }
                    self.drop_scope_inner(&nodes[j], height);
                    proof {
                        crate::teardown::lemma_teardown_compose(
                            pre,
                            before,
                            *self,
                            height as nat + 1,
                            from,
                        );
                        assert forall|jj: int|
                            0 <= jj < j + 1 implies crate::teardown::subtree_dropped(
                            pre,
                            *self,
                            #[trigger] nodes@[jj],
                            height,
                        ) by {
                            if jj < j {
                                crate::teardown::lemma_subtree_dropped_persists(
                                    pre,
                                    before,
                                    *self,
                                    nodes@[jj],
                                    height,
                                );
                            } else {
                                crate::teardown::lemma_subtree_dropped_widen(
                                    pre,
                                    before,
                                    *self,
                                    nodes@[jj],
                                    height,
                                );
                            }
                        }
                    }
                    j += 1;
                }
            },
            DynamicNode::Placeholder => {
                proof {
                    crate::teardown::lemma_prefix_refl(pre.events_view());
                    crate::teardown::lemma_frame_local(pre, pre, height as nat + 1);
                }
            },
            DynamicNode::Text => {
                proof {
                    crate::teardown::lemma_prefix_refl(pre.events_view());
                    crate::teardown::lemma_frame_local(pre, pre, height as nat + 1);
                }
            },
        }
    }

    /// Tears down scope `id`, in the strict order the arena guarantees:
    /// dirty-set eviction first, then the drop-safety walker, then (when
    /// `recursive`) full teardown of every component scope realised by this
    /// scope's output, then hook clearing, task cancellation and finally
    /// removal of the state record, freeing the identity slot.
    #[verifier::loop_isolation(false)]
    pub fn drop_scope(&mut self, id: ScopeId, recursive: bool)
        requires
            old(self).wf(),
            old(self).scope_live(id),
        ensures
            final(self).wf(),
            !final(self).scope_live(id),
            crate::teardown::teardown_frame(*old(self), *final(self)),
            crate::teardown::borrow_lists_accounted(
                *old(self),
                *final(self),
                old(self).events_view().len() as int,
            ),
            crate::teardown::removed_scopes_settled(
                *old(self),
                *final(self),
                old(self).scope_at(id).height as nat,
                old(self).events_view().len() as int,
            ),
            // the dirty set no longer schedules the scope
            forall|d: DirtyScope| #[trigger] final(self).dirty_view().contains(d) ==> d.id != id,
            // every cell the scope's back-references named reads empty
            forall|k: int|
                0 <= k < old(self).scope_at(id).borrowed_props@.len() ==> final(self).cell_state(
                    (#[trigger] old(self).scope_at(id).borrowed_props@[k]).props,
                ) is Empty,
            forall|k: int|
                0 <= k < old(self).scope_at(id).attributes_to_drop@.len() ==> final(self).cell_state(#[trigger] old(self).scope_at(id).attributes_to_drop@[k]) is Empty,
            // recursive teardown reached the realised output
            recursive ==> (old(self).scope_at(id).root_node matches Some(
                RenderReturn::Ready(node),
            ) ==> crate::teardown::subtree_dropped(
                *old(self),
                *final(self),
                node,
                old(self).scope_at(id).height,
            )),
            final(self).events_view().len() > old(self).events_view().len(),
            final(self).events_view().last() == Event::ScopeRemoved(id),
        decreases
                crate::teardown::live_count_at_least(
                    old(self).scopes_view(),
                    old(self).scope_at(id).height as nat,
                ),
                0nat,
    {
        let ghost pre = *old(self);
        let ghost from = pre.events_view().len() as int;
        let ghost hmin = pre.scope_at(id).height as nat;

        let height = match self.scopes.get(id.0) {
            Some(s) => s.height,
            None => vstd::pervasive::unreached(),
        };

        // 1. evict the scope from the dirty set before anything can touch it
        self.remove_dirty(height, id);
        let ghost s1 = *self;
        proof {
            crate::teardown::lemma_prefix_refl(pre.events_view());
            crate::teardown::lemma_frame_local(pre, s1, hmin);
        }

        // 2. sever all borrowed props and listeners
        self.ensure_drop_safety(id);
        let ghost s2 = *self;
        proof {
            assert(crate::teardown::removed_scopes_settled(
                s1,
                s2,
                hmin,
                s1.events_view().len() as int,
            )) by {
                assert forall|t: ScopeId|
                    0 <= t.0 < s1.scopes_view().len() && (#[trigger] s1.scopes_view()[t.0 as int]) is Some
                        && !s2.scope_live(t) implies false by {
                    assert(s2.scopes_view()[t.0 as int] is Some);
                }
            }
            crate::teardown::lemma_teardown_compose(pre, s1, s2, hmin, from);
        }

        // 3. recursively tear down the component scopes this output realised
        if recursive {
            let mut s = self.scopes.take_at(id.0);
            let mut root: Option<RenderReturn> = None;
            core::mem::swap(&mut root, &mut s.root_node);
            let _ = self.scopes.put_at(id.0, s);
            let ghost s3 = *self;
            proof {
                assert(root == pre.scope_at(id).root_node);
            }
            proof {
                assert(s3.scopes_view() =~= s2.scopes_view().update(
                    id.0 as int,
                    s3.scopes_view()[id.0 as int],
                ));
                crate::teardown::lemma_prefix_refl(s2.events_view());
                assert(crate::teardown::teardown_frame(s2, s3));
                assert(crate::teardown::borrow_lists_accounted(
                    s2,
                    s3,
                    s2.events_view().len() as int,
                ));
                assert(crate::teardown::removed_scopes_settled(
                    s2,
                    s3,
                    hmin,
                    s2.events_view().len() as int,
                )) by {
                    assert forall|t: ScopeId|
                        0 <= t.0 < s2.scopes_view().len() && (#[trigger] s2.scopes_view()[t.0 as int]) is Some
                            && !s3.scope_live(t) implies false by {
                        assert(s3.scopes_view()[t.0 as int] is Some);
                    }
                }
                crate::teardown::lemma_teardown_compose(pre, s2, s3, hmin, from);
            }
            match root {
                Some(RenderReturn::Ready(node)) => {
                    proof {
                        crate::teardown::lemma_count_same(
                            pre.scopes_view(),
                            s3.scopes_view(),
                            height as nat + 1,
                        );
                        crate::teardown::lemma_count_strict(
                            pre.scopes_view(),
                            id.0 as int,
                            hmin,
                            height as nat + 1,
                        );
                        assert(node_cells_ok(self.cells_view().len() as nat, node));
                    }
                    self.drop_scope_inner(&node, height);
                    proof {
                        crate::teardown::lemma_teardown_compose(pre, s3, *self, hmin, from);
                        crate::teardown::lemma_subtree_dropped_widen(pre, s3, *self, node, height);
                    }
                },
                _ => {},
            }
        }
        let ghost sb = *self;

        // 4.-6. clear hooks, cancel the scope's tasks, free the record
        let s = self.scopes.take_at(id.0);
        self.events.push(Event::HooksCleared(id));
        let ghost s4 = *self;
        proof {
            let key = DirtyScope { height, id };
            assert(self.scopes_view() =~= sb.scopes_view().update(id.0 as int, None));
            assert(self.dirty_ok()) by {
                assert forall|kx: int| 0 <= kx < self.dirty_view().len() implies self.scope_live(
                    (#[trigger] self.dirty_view()[kx]).id,
                ) && self.scope_at(self.dirty_view()[kx].id).height
                    == self.dirty_view()[kx].height by {
                    let e = self.dirty_view()[kx];
                    assert(sb.dirty_view().contains(e)) by {
                        assert(sb.dirty_view()[kx] == e);
                    }
                    if e.id == id {
                        assert(sb.scope_at(id).height == height);
                        assert(e == key);
                        assert(s1.dirty_view().contains(e));
                        assert(false);
                    }
                }
            }
        }
        let nt = s.spawned_tasks.len();
        let mut i: usize = 0;
        while i < nt
            invariant
                0 <= i <= nt,
                nt == s.spawned_tasks@.len(),
                self.scopes_view() == s4.scopes_view(),
                self.elements_view() == s4.elements_view(),
                self.element_refs_view() == s4.element_refs_view(),
                self.dirty_view() == s4.dirty_view(),
                self.cells_view() == s4.cells_view(),
                forall|t: TaskId| #[trigger]
                    self.tasks_view().contains(t) ==> s4.tasks_view().contains(t),
                forall|kk: int|
                    0 <= kk < i ==> !self.tasks_view().contains(
                        #[trigger] s.spawned_tasks@[kk],
                    ),
                s4.events_view().is_prefix_of(self.events_view()),
                self.wf(),
            decreases nt - i,
        {
            let ghost before = *self;
            let t = s.spawned_tasks[i];
            self.remove_task(t);
            self.events.push(Event::TaskCancelled(t));
            proof {
                crate::teardown::lemma_prefix_push(before.events_view(), Event::TaskCancelled(t));
                crate::teardown::lemma_prefix_trans(
                    s4.events_view(),
                    before.events_view(),
                    self.events_view(),
                );
            }
            i += 1;
        }
        let ghost s5 = *self;
        self.events.push(Event::ScopeRemoved(id));
        proof {
            let fin = *self;
            let fromb = sb.events_view().len() as int;

            // the log grew by the hook, task and removal entries, in order
            crate::teardown::lemma_prefix_push(sb.events_view(), Event::HooksCleared(id));
            crate::teardown::lemma_prefix_push(s5.events_view(), Event::ScopeRemoved(id));
            crate::teardown::lemma_prefix_trans(sb.events_view(), s4.events_view(), s5.events_view());
            crate::teardown::lemma_prefix_trans(sb.events_view(), s5.events_view(), fin.events_view());

            // the final phase is itself one teardown step removing only `id`
            assert(fin.events_view().last() == Event::ScopeRemoved(id));
            assert(fin.scopes_view() =~= sb.scopes_view().update(id.0 as int, None));
            assert(fin.elements_view() == sb.elements_view());
            assert(fin.element_refs_view() == sb.element_refs_view());
            assert(fin.cells_view() == sb.cells_view());
            assert(scopes_shrink(sb.scopes_view(), fin.scopes_view()));
            assert(forall|i: int|
                0 <= i < fin.scopes_view().len() && (#[trigger] fin.scopes_view()[i]) is Some
                    ==> scope_drained_from(
                    sb.scopes_view()[i].unwrap(),
                    fin.scopes_view()[i].unwrap(),
                ));
            assert(fin.tasks_view() == s5.tasks_view());
            assert(s4.tasks_view() == sb.tasks_view());
            assert forall|t: TaskId| #[trigger]
                fin.tasks_view().contains(t) implies sb.tasks_view().contains(t) by {
                assert(s5.tasks_view().contains(t));
                assert(s4.tasks_view().contains(t));
            }
            assert(forall|d: DirtyScope| #[trigger]
                fin.dirty_view().contains(d) ==> sb.dirty_view().contains(d));
            assert(crate::teardown::teardown_frame(sb, fin));
            assert(crate::teardown::borrow_lists_accounted(sb, fin, fromb));
            assert(crate::teardown::removed_scopes_settled(sb, fin, hmin, fromb)) by {
                assert forall|t: ScopeId|
                    0 <= t.0 < sb.scopes_view().len() && (#[trigger] sb.scopes_view()[t.0 as int]) is Some
                        && !fin.scope_live(t) implies {
                    &&& sb.scope_at(t).height >= hmin
                    &&& crate::teardown::removal_logged(sb, fin, t, fromb)
                    &&& forall|k: int|
                        0 <= k < sb.scope_at(t).spawned_tasks@.len() ==> !fin.tasks_view().contains(
                            #[trigger] sb.scope_at(t).spawned_tasks@[k],
                        )
                } by {
                    assert(fin.scopes_view() =~= sb.scopes_view().update(id.0 as int, None));
                    assert(t.0 == id.0);
                    assert(t == id);
                    assert(sb.scope_at(id).height == height);
                    assert(sb.scope_at(id).borrowed_props@.len() == 0);
                    assert(sb.scope_at(id).spawned_tasks@ == s.spawned_tasks@);
                    let m2 = fin.events_view().len() - 1;
                    assert(fin.events_view()[m2] == Event::ScopeRemoved(id));
                    assert(crate::teardown::removal_logged(sb, fin, t, fromb));
                }
            }
            crate::teardown::lemma_teardown_compose(pre, sb, fin, hmin, from);

            // the structural teardown facts survive the final phase
            if recursive {
                match pre.scope_at(id).root_node {
                    Some(RenderReturn::Ready(gnode)) => {
                        assert(crate::teardown::subtree_dropped(pre, sb, gnode, height));
                        crate::teardown::lemma_subtree_dropped_persists(pre, sb, fin, gnode, height);
                    },
                    _ => {},
                }
            }

            // the dirty set cannot schedule the scope any more
            assert forall|d: DirtyScope| #[trigger]
                fin.dirty_view().contains(d) implies d.id != id by {
                if d.id == id {
                    let kx = choose|kx: int|
                        0 <= kx < fin.dirty_view().len() && fin.dirty_view()[kx] == d;
                    assert(fin.scope_live(d.id));
                    assert(fin.scopes_view()[id.0 as int] is None);
                }
            }

            // the severed cells stay empty
            assert forall|k: int|
                0 <= k < pre.scope_at(id).borrowed_props@.len() implies fin.cell_state(
                (#[trigger] pre.scope_at(id).borrowed_props@[k]).props,
            ) is Empty by {
                let e = pre.scope_at(id).borrowed_props@[k];
                assert(e.props.0 < pre.cells_view().len());
                assert(s2.cell_state(e.props) is Empty);
                assert(fin.cells_view()[e.props.0 as int] is Filled ==> s2.cells_view()[e.props.0 as int] is Filled);
            }
            assert forall|k: int|
                0 <= k < pre.scope_at(id).attributes_to_drop@.len() implies fin.cell_state(
                #[trigger] pre.scope_at(id).attributes_to_drop@[k],
            ) is Empty by {
                let c = pre.scope_at(id).attributes_to_drop@[k];
                assert(c.0 < pre.cells_view().len());
                assert(s2.cell_state(c) is Empty);
                assert(fin.cells_view()[c.0 as int] is Filled ==> s2.cells_view()[c.0 as int] is Filled);
            }
        }
    }

    pub fn scope_exists(&self, id: ScopeId) -> (r: bool)
        ensures
            r == self.scope_live(id),
    {
        self.scopes.is_occupied(id.0)
    }

    pub fn scope_height(&self, id: ScopeId) -> (r: Option<u32>)
        ensures
            r matches Some(h) ==> self.scope_live(id) && h == self.scope_at(id).height,
            r is None ==> !self.scope_live(id),
    {
        match self.scopes.get(id.0) {
            Some(s) => Some(s.height),
            None => None,
        }
    }

    pub fn element_exists(&self, el: ElementId) -> (r: bool)
        ensures
            r == self.element_live(el),
    {
        self.elements.is_occupied(el.0)
    }

    pub fn cell_filled(&self, c: CellId) -> (r: bool)
        ensures
            r == (self.cell_ok(c) && self.cell_state(c) is Filled),
    {
        if c.0 < self.cells.len() {
            match self.cells[c.0] {
                CellState::Filled => true,
                CellState::Empty => false,
            }
        } else {
            false
        }
    }

    pub fn task_active(&self, task: TaskId) -> (r: bool)
        ensures
            r == self.tasks_view().contains(task),
    {
        let n = self.tasks.len();
        let mut i: usize = 0;
        while i < n
            invariant
                0 <= i <= n,
                n == self.tasks@.len(),
                forall|k: int| 0 <= k < i ==> #[trigger] self.tasks@[k] != task,
            decreases n - i,
        {
            if self.tasks[i].0 == task.0 {
                proof {
                    assert(self.tasks@[i as int] == task);
                }
                return true;
            }
            i += 1;
        }
        proof {
            if self.tasks_view().contains(task) {
                let k = choose|k: int|
                    0 <= k < self.tasks_view().len() && self.tasks_view()[k] == task;
                assert(self.tasks@[k] != task);
            }
        }
        false
    }

    pub fn is_dirty(&self, id: ScopeId) -> (r: bool)
        ensures
            r == exists|k: int|
                0 <= k < self.dirty_view().len() && (#[trigger] self.dirty_view()[k]).id == id,
    {
        let n = self.dirty_scopes.len();
        let mut i: usize = 0;
        while i < n
            invariant
                0 <= i <= n,
                n == self.dirty_scopes@.len(),
                forall|k: int| 0 <= k < i ==> (#[trigger] self.dirty_scopes@[k]).id != id,
            decreases n - i,
        {
            if self.dirty_scopes[i].id.0 == id.0 {
                proof {
                    assert((self.dirty_view()[i as int]).id == id);
                }
                return true;
            }
            i += 1;
        }
        false
    }

    /// The ordered log of teardown events, oldest first.
    pub fn event_log(&self) -> (r: &Vec<Event>)
        ensures
            r@ == self.events_view(),
    {
        &self.events
    }
}

} // verus!
