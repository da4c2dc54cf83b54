use vstd::prelude::*;
use crate::arena::ScopeId;
use crate::scopes::{BorrowRef, DynamicNode, Event, ScopeState, VNode};
use crate::vdom::VirtualDom;

verus! {

broadcast use vstd::seq_lib::group_seq_properties;

// ------------------------------------------------------------------
// Termination measures for the teardown recursion.
// ------------------------------------------------------------------

/// How many live scopes sit at height `h` or deeper. Recursive teardown only
/// ever descends to strictly deeper scopes, so this count shrinks along the
/// recursion.
pub open spec fn live_count_at_least(slots: Seq<Option<ScopeState>>, h: nat) -> nat
    decreases slots.len(),
{
    if slots.len() == 0 {
        0
    } else {
        live_count_at_least(slots.drop_last(), h) + match slots.last() {
            Some(s) => if s.height >= h {
                1nat
            } else {
                0nat
            },
            None => 0nat,
        }
    }
}

/// How many borrowed-prop back-references a slot contributes.
pub open spec fn borrow_contrib(o: Option<ScopeState>) -> nat {
    match o {
        Some(s) => s.borrowed_props@.len(),
        None => 0,
    }
}

/// Total number of borrowed-prop back-references over all live scopes; the
/// drop-safety walker drains a whole list before it recurses, so this total
/// shrinks along its recursion.
pub open spec fn borrows_total(slots: Seq<Option<ScopeState>>) -> nat
    decreases slots.len(),
{
    if slots.len() == 0 {
        0
    } else {
        borrows_total(slots.drop_last()) + borrow_contrib(slots.last())
    }
}

/// Structural size of render output, used to order the walk over fragments.
pub open spec fn vnode_size(node: VNode) -> nat
    decreases node,
{
    1 + dnodes_size(node.dynamic_nodes@)
}

/// See [`vnode_size`].
pub open spec fn dnodes_size(s: Seq<DynamicNode>) -> nat
    decreases s,
{
    if s.len() == 0 {
        0
    } else {
        dnodes_size(s.drop_last()) + dnode_size(s.last())
    }
}

/// See [`vnode_size`].
pub open spec fn dnode_size(d: DynamicNode) -> nat
    decreases d,
{
    match d {
        DynamicNode::Fragment(nodes) => 1 + vnodes_size(nodes@),
        _ => 1,
    }
}

/// See [`vnode_size`].
pub open spec fn vnodes_size(s: Seq<VNode>) -> nat
    decreases s,
{
    if s.len() == 0 {
        0
    } else {
        vnodes_size(s.drop_last()) + vnode_size(s.last())
    }
}

pub proof fn lemma_dnodes_size_elem(s: Seq<DynamicNode>, i: int)
    requires
        0 <= i < s.len(),
    ensures
        dnode_size(s[i]) <= dnodes_size(s),
    decreases s.len(),
{
    if i == s.len() - 1 {
    } else {
        lemma_dnodes_size_elem(s.drop_last(), i);
    }
}

pub proof fn lemma_vnodes_size_elem(s: Seq<VNode>, i: int)
    requires
        0 <= i < s.len(),
    ensures
        vnode_size(s[i]) <= vnodes_size(s),
    decreases s.len(),
{
    if i == s.len() - 1 {
    } else {
        lemma_vnodes_size_elem(s.drop_last(), i);
    }
}

/// Dropping to a higher threshold never counts more scopes.
pub proof fn lemma_count_mono_h(slots: Seq<Option<ScopeState>>, h1: nat, h2: nat)
    requires
        h1 <= h2,
    ensures
        live_count_at_least(slots, h2) <= live_count_at_least(slots, h1),
    decreases slots.len(),
{
    if slots.len() > 0 {
        lemma_count_mono_h(slots.drop_last(), h1, h2);
    }
}

/// Fewer or equally many live scopes, with heights kept, never count more.
pub proof fn lemma_count_shrink(pre: Seq<Option<ScopeState>>, post: Seq<Option<ScopeState>>, h: nat)
    requires
        crate::vdom::scopes_shrink(pre, post),
    ensures
        live_count_at_least(post, h) <= live_count_at_least(pre, h),
    decreases pre.len(),
{
    if pre.len() > 0 {
        assert(crate::vdom::scopes_shrink(pre.drop_last(), post.drop_last())) by {
            assert forall|i: int|
                0 <= i < post.drop_last().len() && post.drop_last()[i] is Some implies pre.drop_last()[i] is Some
                && (#[trigger] post.drop_last()[i]).unwrap().height
                    == pre.drop_last()[i].unwrap().height by {
                assert(post.drop_last()[i] == post[i]);
                assert(pre.drop_last()[i] == pre[i]);
            }
        }
        lemma_count_shrink(pre.drop_last(), post.drop_last(), h);
        assert(post.last() == post[post.len() - 1]);
        assert(pre.last() == pre[pre.len() - 1]);
    }
}

/// Occupancy and heights alone determine the count.
pub proof fn lemma_count_same(pre: Seq<Option<ScopeState>>, post: Seq<Option<ScopeState>>, h: nat)
    requires
        crate::vdom::scopes_shrink(pre, post),
        forall|i: int| 0 <= i < pre.len() && pre[i] is Some ==> (#[trigger] post[i]) is Some,
    ensures
        live_count_at_least(post, h) == live_count_at_least(pre, h),
    decreases pre.len(),
{
    if pre.len() > 0 {
        assert(crate::vdom::scopes_shrink(pre.drop_last(), post.drop_last())) by {
            assert forall|i: int|
                0 <= i < post.drop_last().len() && post.drop_last()[i] is Some implies pre.drop_last()[i] is Some
                && (#[trigger] post.drop_last()[i]).unwrap().height
                    == pre.drop_last()[i].unwrap().height by {
                assert(post.drop_last()[i] == post[i]);
                assert(pre.drop_last()[i] == pre[i]);
            }
        }
        assert(forall|i: int|
            0 <= i < pre.drop_last().len() && pre.drop_last()[i] is Some ==> (#[trigger] post.drop_last()[i]) is Some) by {
            assert(forall|i: int|
                0 <= i < pre.drop_last().len() ==> pre.drop_last()[i] == pre[i]
                    && #[trigger] post.drop_last()[i] == post[i]);
        }
        lemma_count_same(pre.drop_last(), post.drop_last(), h);
        assert(post.last() == post[post.len() - 1]);
        assert(pre.last() == pre[pre.len() - 1]);
    }
}

/// A live scope of height at least `h2` but below no threshold `h1 <= h2`
/// separates the two counts strictly.
pub proof fn lemma_count_strict(slots: Seq<Option<ScopeState>>, i: int, h1: nat, h2: nat)
    requires
        0 <= i < slots.len(),
        slots[i] is Some,
        h1 <= slots[i].unwrap().height < h2,
    ensures
        live_count_at_least(slots, h2) < live_count_at_least(slots, h1),
    decreases slots.len(),
{
    lemma_count_mono_h(slots.drop_last(), h1, h2);
    if i == slots.len() - 1 {
        assert(slots.last() == slots[i]);
    } else {
        lemma_count_strict(slots.drop_last(), i, h1, h2);
        assert(slots.drop_last()[i] == slots[i]);
    }
}

/// How an update of one slot moves the borrow total.
pub proof fn lemma_borrows_total_update(
    slots: Seq<Option<ScopeState>>,
    i: int,
    v: Option<ScopeState>,
)
    requires
        0 <= i < slots.len(),
    ensures
        borrows_total(slots.update(i, v)) + borrow_contrib(slots[i]) == borrows_total(slots)
            + borrow_contrib(v),
    decreases slots.len(),
{
    let upd = slots.update(i, v);
    if i == slots.len() - 1 {
        assert(upd.drop_last() =~= slots.drop_last());
        assert(upd.last() == v);
        assert(slots.last() == slots[i]);
    } else {
        assert(upd.drop_last() =~= slots.drop_last().update(i, v));
        assert(upd.last() == slots.last());
        lemma_borrows_total_update(slots.drop_last(), i, v);
        assert(slots.drop_last()[i] == slots[i]);
    }
}

// ------------------------------------------------------------------
// Spec predicates stated by the teardown contracts.
// ------------------------------------------------------------------

/// Every entry of `list` has its cell read empty and its clear event in the
/// part of the log that starts at index `from`.
pub open spec fn drained_logged(list: Seq<BorrowRef>, v: VirtualDom, from: int) -> bool {
    forall|k: int|
        0 <= k < list.len() ==> {
            let e = #[trigger] list[k];
            &&& exists|m: int|
                from <= m < v.events_view().len() && v.events_view()[m] == Event::BorrowCleared(
                    e.props,
                )
            &&& e.props.0 < v.cells_view().len() ==> v.cell_state(e.props) is Empty
        }
}

/// Scope `t` was removed in order: its removal stands in the log after `from`,
/// and every borrowed-prop back-reference it held in `pre` was cleared and
/// logged before that removal.
pub open spec fn removal_logged(pre: VirtualDom, post: VirtualDom, t: ScopeId, from: int) -> bool {
    exists|m2: int|
        {
            &&& from <= m2 < post.events_view().len()
            &&& post.events_view()[m2] == Event::ScopeRemoved(t)
            &&& forall|k: int|
                0 <= k < pre.scope_at(t).borrowed_props@.len() ==> exists|m1: int|
                    from <= m1 < m2 && post.events_view()[m1] == Event::BorrowCleared(
                        (#[trigger] pre.scope_at(t).borrowed_props@[k]).props,
                    )
        }
}

/// Once logged and emptied, a drained list stays logged and emptied: the log
/// only grows and cells only lose their values.
pub proof fn lemma_drained_logged_persists(
    list: Seq<BorrowRef>,
    v1: VirtualDom,
    v2: VirtualDom,
    from: int,
)
    requires
        0 <= from,
        drained_logged(list, v1, from),
        v1.events_view().is_prefix_of(v2.events_view()),
        v2.cells_view().len() == v1.cells_view().len(),
        forall|c: int|
            0 <= c < v2.cells_view().len() && (#[trigger] v2.cells_view()[c]) is Filled
                ==> v1.cells_view()[c] is Filled,
    ensures
        drained_logged(list, v2, from),
{
    assert forall|k: int| 0 <= k < list.len() implies {
        let e = #[trigger] list[k];
        &&& exists|m: int|
            from <= m < v2.events_view().len() && v2.events_view()[m] == Event::BorrowCleared(
                e.props,
            )
        &&& e.props.0 < v2.cells_view().len() ==> v2.cell_state(e.props) is Empty
    } by {
        let e = list[k];
        let m = choose|m: int|
            from <= m < v1.events_view().len() && v1.events_view()[m] == Event::BorrowCleared(
                e.props,
            );
        assert(v1.events_view() =~= v2.events_view().subrange(
            0,
            v1.events_view().len() as int,
        ));
        assert(v2.events_view().subrange(0, v1.events_view().len() as int)[m]
            == v2.events_view()[m]);
        assert(v2.events_view()[m] == v1.events_view()[m]);
        if e.props.0 < v2.cells_view().len() {
            assert(v1.cell_state(e.props) is Empty);
            assert(v2.cells_view()[e.props.0 as int] is Filled ==> v1.cells_view()[e.props.0 as int] is Filled);
        }
    }
}

/// Prefixes chain.
pub proof fn lemma_prefix_trans<T>(a: Seq<T>, b: Seq<T>, c: Seq<T>)
    requires
        a.is_prefix_of(b),
        b.is_prefix_of(c),
    ensures
        a.is_prefix_of(c),
{
    assert(a =~= c.subrange(0, a.len() as int));
}

/// A push extends the log.
pub proof fn lemma_prefix_push<T>(a: Seq<T>, x: T)
    ensures
        a.is_prefix_of(a.push(x)),
{
    assert(a =~= a.push(x).subrange(0, a.len() as int));
}

/// The direct structural teardown obligations for `node`, owned by a scope at
/// height `h`: each component node's prop cell reads empty, and each live
/// strictly deeper scope a component node referenced is gone.
pub open spec fn subtree_dropped(pre: VirtualDom, post: VirtualDom, node: VNode, h: u32) -> bool
    decreases node,
{
    forall|k: int|
        0 <= k < node.dynamic_nodes@.len() ==> dnode_dropped(
            pre,
            post,
            #[trigger] node.dynamic_nodes@[k],
            h,
        )
}

/// See [`subtree_dropped`].
pub open spec fn dnode_dropped(pre: VirtualDom, post: VirtualDom, d: DynamicNode, h: u32) -> bool
    decreases d,
{
    match d {
        DynamicNode::Component { scope, props } => {
            &&& (props.0 < post.cells_view().len() ==> post.cell_state(props) is Empty)
            &&& match scope {
                Some(t) => pre.scope_live(t) && pre.scope_at(t).height > h ==> !post.scope_live(t),
                None => true,
            }
        },
        DynamicNode::Fragment(nodes) => forall|j: int|
            0 <= j < nodes@.len() ==> subtree_dropped(pre, post, #[trigger] nodes@[j], h),
        DynamicNode::Placeholder => true,
        DynamicNode::Text => true,
    }
}

/// What any teardown step may do to the arena: elements and their references
/// stay put, cells only lose values, scopes only disappear (survivors at most
/// drained), tasks and dirty entries only leave, and the log only grows.
pub open spec fn teardown_frame(pre: VirtualDom, post: VirtualDom) -> bool {
    &&& post.elements_view() == pre.elements_view()
    &&& post.element_refs_view() == pre.element_refs_view()
    &&& post.cells_view().len() == pre.cells_view().len()
    &&& forall|c: int|
        0 <= c < post.cells_view().len() && (#[trigger] post.cells_view()[c]) is Filled
            ==> pre.cells_view()[c] is Filled
    &&& crate::vdom::scopes_shrink(pre.scopes_view(), post.scopes_view())
    &&& forall|i: int|
        0 <= i < post.scopes_view().len() && (#[trigger] post.scopes_view()[i]) is Some
            ==> crate::vdom::scope_drained_from(
            pre.scopes_view()[i].unwrap(),
            post.scopes_view()[i].unwrap(),
        )
    &&& forall|t: crate::scopes::TaskId| #[trigger]
        post.tasks_view().contains(t) ==> pre.tasks_view().contains(t)
    &&& forall|d: crate::scopes::DirtyScope| #[trigger]
        post.dirty_view().contains(d) ==> pre.dirty_view().contains(d)
    &&& pre.events_view().is_prefix_of(post.events_view())
}

/// Any borrow list that a teardown step drained had each of its entries
/// cleared and logged after `from`.
pub open spec fn borrow_lists_accounted(pre: VirtualDom, post: VirtualDom, from: int) -> bool {
    forall|i: int|
        0 <= i < post.scopes_view().len() && (#[trigger] post.scopes_view()[i]) is Some
            && post.scopes_view()[i].unwrap().borrowed_props@
            != pre.scopes_view()[i].unwrap().borrowed_props@ ==> drained_logged(
            pre.scopes_view()[i].unwrap().borrowed_props@,
            post,
            from,
        )
}

/// Every scope a teardown step removed sat at height `hmin` or deeper, had
/// its removal logged after its borrows were severed, and has none of its
/// spawned tasks left in the runtime.
pub open spec fn removed_scopes_settled(
    pre: VirtualDom,
    post: VirtualDom,
    hmin: nat,
    from: int,
) -> bool {
    forall|t: ScopeId|
        0 <= t.0 < pre.scopes_view().len() && (#[trigger] pre.scopes_view()[t.0 as int]) is Some
            && !post.scope_live(t) ==> {
            &&& pre.scope_at(t).height >= hmin
            &&& removal_logged(pre, post, t, from)
            &&& forall|k: int|
                0 <= k < pre.scope_at(t).spawned_tasks@.len() ==> !post.tasks_view().contains(
                    #[trigger] pre.scope_at(t).spawned_tasks@[k],
                )
        }
}

/// Log entries already written never change.
pub proof fn lemma_event_persists(v1: VirtualDom, v2: VirtualDom, m: int)
    requires
        v1.events_view().is_prefix_of(v2.events_view()),
        0 <= m < v1.events_view().len(),
    ensures
        v2.events_view()[m] == v1.events_view()[m],
{
    assert(v1.events_view() =~= v2.events_view().subrange(0, v1.events_view().len() as int));
    assert(v2.events_view().subrange(0, v1.events_view().len() as int)[m] == v2.events_view()[m]);
}

/// An ordered removal stays ordered as the log grows.
pub proof fn lemma_removal_logged_persists(
    pre: VirtualDom,
    v1: VirtualDom,
    v2: VirtualDom,
    t: ScopeId,
    from: int,
)
    requires
        0 <= from,
        removal_logged(pre, v1, t, from),
        v1.events_view().is_prefix_of(v2.events_view()),
    ensures
        removal_logged(pre, v2, t, from),
{
    let m2 = choose|m2: int|
        {
            &&& from <= m2 < v1.events_view().len()
            &&& v1.events_view()[m2] == Event::ScopeRemoved(t)
            &&& forall|k: int|
                0 <= k < pre.scope_at(t).borrowed_props@.len() ==> exists|m1: int|
                    from <= m1 < m2 && v1.events_view()[m1] == Event::BorrowCleared(
                        (#[trigger] pre.scope_at(t).borrowed_props@[k]).props,
                    )
        };
    lemma_event_persists(v1, v2, m2);
    assert forall|k: int| 0 <= k < pre.scope_at(t).borrowed_props@.len() implies exists|m1: int|
        from <= m1 < m2 && v2.events_view()[m1] == Event::BorrowCleared(
            (#[trigger] pre.scope_at(t).borrowed_props@[k]).props,
        ) by {
        let m1 = choose|m1: int|
            from <= m1 < m2 && v1.events_view()[m1] == Event::BorrowCleared(
                pre.scope_at(t).borrowed_props@[k].props,
            );
        lemma_event_persists(v1, v2, m1);
    }
}

/// Two teardown steps compose into one.
pub proof fn lemma_teardown_compose(
    a: VirtualDom,
    b: VirtualDom,
    c: VirtualDom,
    hmin: nat,
    from: int,
)
    requires
        0 <= from <= a.events_view().len(),
        teardown_frame(a, b),
        teardown_frame(b, c),
        borrow_lists_accounted(a, b, from),
        borrow_lists_accounted(b, c, b.events_view().len() as int),
        removed_scopes_settled(a, b, hmin, from),
        removed_scopes_settled(b, c, hmin, b.events_view().len() as int),
    ensures
        teardown_frame(a, c),
        borrow_lists_accounted(a, c, from),
        removed_scopes_settled(a, c, hmin, from),
{
    lemma_prefix_trans(a.events_view(), b.events_view(), c.events_view());
    let fromb = b.events_view().len() as int;

    // framing composes pointwise
    assert forall|i: int|
        0 <= i < c.scopes_view().len() && (#[trigger] c.scopes_view()[i]) is Some
            implies crate::vdom::scope_drained_from(
        a.scopes_view()[i].unwrap(),
        c.scopes_view()[i].unwrap(),
    ) by {
        assert(b.scopes_view()[i] is Some);
    }

    // drained lists stay accounted
    assert forall|i: int|
        0 <= i < c.scopes_view().len() && (#[trigger] c.scopes_view()[i]) is Some
            && c.scopes_view()[i].unwrap().borrowed_props@
            != a.scopes_view()[i].unwrap().borrowed_props@ implies drained_logged(
        a.scopes_view()[i].unwrap().borrowed_props@,
        c,
        from,
    ) by {
        assert(b.scopes_view()[i] is Some);
        if b.scopes_view()[i].unwrap().borrowed_props@
            != a.scopes_view()[i].unwrap().borrowed_props@ {
            lemma_drained_logged_persists(a.scopes_view()[i].unwrap().borrowed_props@, b, c, from);
        } else {
            assert(drained_logged(b.scopes_view()[i].unwrap().borrowed_props@, c, fromb));
            assert forall|k: int|
                0 <= k < a.scopes_view()[i].unwrap().borrowed_props@.len() implies {
                let e = #[trigger] a.scopes_view()[i].unwrap().borrowed_props@[k];
                &&& exists|m: int|
                    from <= m < c.events_view().len() && c.events_view()[m]
                        == Event::BorrowCleared(e.props)
                &&& e.props.0 < c.cells_view().len() ==> c.cell_state(e.props) is Empty
            } by {
                let e = a.scopes_view()[i].unwrap().borrowed_props@[k];
                assert(b.scopes_view()[i].unwrap().borrowed_props@[k] == e);
                let m = choose|m: int|
                    fromb <= m < c.events_view().len() && c.events_view()[m]
                        == Event::BorrowCleared(e.props);
                assert(from <= m);
            }
        }
    }

    // removed scopes stay settled
    assert forall|t: ScopeId|
        0 <= t.0 < a.scopes_view().len() && (#[trigger] a.scopes_view()[t.0 as int]) is Some
            && !c.scope_live(t) implies {
        &&& a.scope_at(t).height >= hmin
        &&& removal_logged(a, c, t, from)
        &&& forall|k: int|
            0 <= k < a.scope_at(t).spawned_tasks@.len() ==> !c.tasks_view().contains(
                #[trigger] a.scope_at(t).spawned_tasks@[k],
            )
    } by {
        if b.scope_live(t) {
            // removed by the second step
            assert(b.scope_at(t).height == a.scope_at(t).height);
            assert(crate::vdom::scope_drained_from(a.scope_at(t), b.scope_at(t)));
            assert(b.scope_at(t).spawned_tasks@ == a.scope_at(t).spawned_tasks@);
            assert(removal_logged(b, c, t, fromb));
            let m2 = choose|m2: int|
                {
                    &&& fromb <= m2 < c.events_view().len()
                    &&& c.events_view()[m2] == Event::ScopeRemoved(t)
                    &&& forall|k: int|
                        0 <= k < b.scope_at(t).borrowed_props@.len() ==> exists|m1: int|
                            fromb <= m1 < m2 && c.events_view()[m1] == Event::BorrowCleared(
                                (#[trigger] b.scope_at(t).borrowed_props@[k]).props,
                            )
                };
            assert forall|k: int|
                0 <= k < a.scope_at(t).borrowed_props@.len() implies exists|m1: int|
                from <= m1 < m2 && c.events_view()[m1] == Event::BorrowCleared(
                    (#[trigger] a.scope_at(t).borrowed_props@[k]).props,
                ) by {
                let e = a.scope_at(t).borrowed_props@[k];
                if b.scope_at(t).borrowed_props@ == a.scope_at(t).borrowed_props@ {
                    assert(b.scope_at(t).borrowed_props@[k] == e);
                    let m1 = choose|m1: int|
                        fromb <= m1 < m2 && c.events_view()[m1] == Event::BorrowCleared(e.props);
                    assert(from <= m1);
                } else {
                    // drained earlier: its clear events sit before the second
                    // step's part of the log
                    assert(drained_logged(a.scope_at(t).borrowed_props@, b, from));
                    let m1 = choose|m1: int|
                        from <= m1 < b.events_view().len() && b.events_view()[m1]
                            == Event::BorrowCleared(e.props);
                    lemma_event_persists(b, c, m1);
                }
            }
            assert(removal_logged(a, c, t, from));
        } else {
            // removed by the first step; its facts persist
            lemma_removal_logged_persists(a, b, c, t, from);
            assert forall|k: int|
                0 <= k < a.scope_at(t).spawned_tasks@.len() implies !c.tasks_view().contains(
                #[trigger] a.scope_at(t).spawned_tasks@[k],
            ) by {
                if c.tasks_view().contains(a.scope_at(t).spawned_tasks@[k]) {
                    assert(b.tasks_view().contains(a.scope_at(t).spawned_tasks@[k]));
                }
            }
        }
    }
}

/// A step that leaves the scope table alone is a teardown step for any
/// height bound.
pub proof fn lemma_frame_local(v1: VirtualDom, v2: VirtualDom, hmin: nat)
    requires
        v2.elements_view() == v1.elements_view(),
        v2.element_refs_view() == v1.element_refs_view(),
        v2.scopes_view() == v1.scopes_view(),
        v2.cells_view().len() == v1.cells_view().len(),
        forall|c: int|
            0 <= c < v2.cells_view().len() && (#[trigger] v2.cells_view()[c]) is Filled
                ==> v1.cells_view()[c] is Filled,
        forall|t: crate::scopes::TaskId| #[trigger]
            v2.tasks_view().contains(t) ==> v1.tasks_view().contains(t),
        forall|d: crate::scopes::DirtyScope| #[trigger]
            v2.dirty_view().contains(d) ==> v1.dirty_view().contains(d),
        v1.events_view().is_prefix_of(v2.events_view()),
    ensures
        teardown_frame(v1, v2),
        borrow_lists_accounted(v1, v2, v1.events_view().len() as int),
        removed_scopes_settled(v1, v2, hmin, v1.events_view().len() as int),
{
}

/// A sequence is a prefix of itself.
pub proof fn lemma_prefix_refl<T>(s: Seq<T>)
    ensures
        s.is_prefix_of(s),
{
    assert(s =~= s.subrange(0, s.len() as int));
}

/// [`subtree_dropped`] against a later baseline also holds against an earlier
/// one: scopes only disappear and heights never change on the way.
pub proof fn lemma_subtree_dropped_widen(
    pre: VirtualDom,
    mid: VirtualDom,
    post: VirtualDom,
    node: VNode,
    h: u32,
)
    requires
        subtree_dropped(mid, post, node, h),
        crate::vdom::scopes_shrink(pre.scopes_view(), mid.scopes_view()),
        crate::vdom::scopes_shrink(mid.scopes_view(), post.scopes_view()),
    ensures
        subtree_dropped(pre, post, node, h),
    decreases node,
{
    assert forall|k: int| 0 <= k < node.dynamic_nodes@.len() implies dnode_dropped(
        pre,
        post,
        #[trigger] node.dynamic_nodes@[k],
        h,
    ) by {
        lemma_dnode_dropped_widen(pre, mid, post, node.dynamic_nodes@[k], h);
    }
}

/// See [`lemma_subtree_dropped_widen`].
pub proof fn lemma_dnode_dropped_widen(
    pre: VirtualDom,
    mid: VirtualDom,
    post: VirtualDom,
    d: DynamicNode,
    h: u32,
)
    requires
        dnode_dropped(mid, post, d, h),
        crate::vdom::scopes_shrink(pre.scopes_view(), mid.scopes_view()),
        crate::vdom::scopes_shrink(mid.scopes_view(), post.scopes_view()),
    ensures
        dnode_dropped(pre, post, d, h),
    decreases d,
{
    match d {
        DynamicNode::Fragment(nodes) => {
            assert forall|j: int| 0 <= j < nodes@.len() implies subtree_dropped(
                pre,
                post,
                #[trigger] nodes@[j],
                h,
            ) by {
                lemma_subtree_dropped_widen(pre, mid, post, nodes@[j], h);
            }
        },
        _ => {},
    }
}

/// Facts of [`subtree_dropped`] persist as teardown keeps removing scopes and
/// emptying cells.
pub proof fn lemma_subtree_dropped_persists(
    pre: VirtualDom,
    mid: VirtualDom,
    post: VirtualDom,
    node: VNode,
    h: u32,
)
    requires
        subtree_dropped(pre, mid, node, h),
        post.cells_view().len() == mid.cells_view().len(),
        forall|c: int|
            0 <= c < post.cells_view().len() && (#[trigger] post.cells_view()[c]) is Filled
                ==> mid.cells_view()[c] is Filled,
        forall|i: int|
            0 <= i < post.scopes_view().len() && (#[trigger] post.scopes_view()[i]) is Some
                ==> mid.scopes_view()[i] is Some,
        post.scopes_view().len() == mid.scopes_view().len(),
    ensures
        subtree_dropped(pre, post, node, h),
    decreases node,
{
    assert forall|k: int| 0 <= k < node.dynamic_nodes@.len() implies dnode_dropped(
        pre,
        post,
        #[trigger] node.dynamic_nodes@[k],
        h,
    ) by {
        lemma_dnode_dropped_persists(pre, mid, post, node.dynamic_nodes@[k], h);
    }
}

/// See [`lemma_subtree_dropped_persists`].
pub proof fn lemma_dnode_dropped_persists(
    pre: VirtualDom,
    mid: VirtualDom,
    post: VirtualDom,
    d: DynamicNode,
    h: u32,
)
    requires
        dnode_dropped(pre, mid, d, h),
        post.cells_view().len() == mid.cells_view().len(),
        forall|c: int|
            0 <= c < post.cells_view().len() && (#[trigger] post.cells_view()[c]) is Filled
                ==> mid.cells_view()[c] is Filled,
        forall|i: int|
            0 <= i < post.scopes_view().len() && (#[trigger] post.scopes_view()[i]) is Some
                ==> mid.scopes_view()[i] is Some,
        post.scopes_view().len() == mid.scopes_view().len(),
    ensures
        dnode_dropped(pre, post, d, h),
    decreases d,
{
    match d {
        DynamicNode::Fragment(nodes) => {
            assert forall|j: int| 0 <= j < nodes@.len() implies subtree_dropped(
                pre,
                post,
                #[trigger] nodes@[j],
                h,
            ) by {
                lemma_subtree_dropped_persists(pre, mid, post, nodes@[j], h);
            }
        },
        _ => {},
    }
}

} // verus!
