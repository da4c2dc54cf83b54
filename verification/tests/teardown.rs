use vdom_arena::arena::ElementId;
use vdom_arena::arena::ElementPath;
use vdom_arena::arena::ElementRef;
use vdom_arena::arena::TemplateId;
use vdom_arena::scopes::{BorrowRef, DynamicNode, Event, RenderReturn, TaskId, VNode};
use vdom_arena::vdom::VirtualDom;

#[test]
fn teardown_order_severs_deep_borrows_first() {
    // A scope tree A -> B -> C, where C borrows a prop owned by B and B
    // borrows one owned by A.
    let mut vd = VirtualDom::new();
    let a = vd.mount_scope(None);
    let b = vd.mount_scope(Some(a));
    let c = vd.mount_scope(Some(b));
    let cell_ab = vd.new_cell();
    let cell_bc = vd.new_cell();

    vd.set_scope_root(
        b,
        Some(RenderReturn::Ready(VNode {
            dynamic_nodes: vec![DynamicNode::Component { scope: Some(c), props: cell_bc }],
        })),
    );
    vd.set_scope_root(
        a,
        Some(RenderReturn::Ready(VNode {
            dynamic_nodes: vec![DynamicNode::Component { scope: Some(b), props: cell_ab }],
        })),
    );
    vd.push_borrowed_prop(a, BorrowRef { scope: Some(b), props: cell_ab });
    vd.push_borrowed_prop(b, BorrowRef { scope: Some(c), props: cell_bc });

    vd.drop_scope(a, true);

    let log = vd.event_log();
    assert_eq!(log.len(), 10);
    // the drop-safety walker severs C's borrow before B's, both before any
    // structural teardown
    assert_eq!(log[0], Event::BorrowCleared(cell_bc));
    assert_eq!(log[1], Event::BorrowCleared(cell_ab));
    // C is fully torn down before B, and B before A
    assert_eq!(log[2], Event::HooksCleared(c));
    assert_eq!(log[3], Event::ScopeRemoved(c));
    assert_eq!(log[4], Event::PropsCleared(cell_bc));
    assert_eq!(log[5], Event::HooksCleared(b));
    assert_eq!(log[6], Event::ScopeRemoved(b));
    assert_eq!(log[7], Event::PropsCleared(cell_ab));
    assert_eq!(log[8], Event::HooksCleared(a));
    assert_eq!(log[9], Event::ScopeRemoved(a));

    assert!(!vd.scope_exists(a));
    assert!(!vd.scope_exists(b));
    assert!(!vd.scope_exists(c));
    assert!(!vd.cell_filled(cell_ab));
    assert!(!vd.cell_filled(cell_bc));
}

#[test]
fn dirty_set_is_consistent_across_teardown() {
    let mut vd = VirtualDom::new();
    let a = vd.mount_scope(None);
    let b = vd.mount_scope(Some(a));
    vd.mark_dirty(a);
    vd.mark_dirty(b);
    assert!(vd.is_dirty(a));
    assert!(vd.is_dirty(b));
    // marking twice keeps a single entry and stays consistent
    vd.mark_dirty(a);

    vd.drop_scope(a, false);
    assert!(!vd.is_dirty(a));
    assert!(vd.is_dirty(b));

    vd.drop_scope(b, false);
    assert!(!vd.is_dirty(b));
}

#[test]
fn teardown_cancels_all_spawned_tasks() {
    let mut vd = VirtualDom::new();
    let a = vd.mount_scope(None);
    vd.spawn_task(a, TaskId(11));
    vd.spawn_task(a, TaskId(12));
    assert!(vd.task_active(TaskId(11)));
    assert!(vd.task_active(TaskId(12)));

    vd.drop_scope(a, false);
    assert!(!vd.task_active(TaskId(11)));
    assert!(!vd.task_active(TaskId(12)));
}

#[test]
fn teardown_is_ordered_and_logs_hooks_before_tasks() {
    let mut vd = VirtualDom::new();
    let a = vd.mount_scope(None);
    vd.push_hook(a, 1);
    vd.push_hook(a, 2);
    vd.spawn_task(a, TaskId(5));
    vd.drop_scope(a, false);

    let log = vd.event_log();
    assert_eq!(log.len(), 3);
    assert_eq!(log[0], Event::HooksCleared(a));
    assert_eq!(log[1], Event::TaskCancelled(TaskId(5)));
    assert_eq!(log[2], Event::ScopeRemoved(a));
}

#[test]
fn listeners_are_cleared_by_the_walker() {
    let mut vd = VirtualDom::new();
    let a = vd.mount_scope(None);
    let listener = vd.new_cell();
    vd.push_listener(a, listener);
    assert!(vd.cell_filled(listener));

    vd.ensure_drop_safety(a);
    assert!(!vd.cell_filled(listener));
    assert!(vd.scope_exists(a));
    assert_eq!(vd.event_log()[0], Event::ListenerCleared(listener));
}

#[test]
fn non_recursive_teardown_keeps_children() {
    let mut vd = VirtualDom::new();
    let a = vd.mount_scope(None);
    let b = vd.mount_scope(Some(a));
    let props = vd.new_cell();
    vd.set_scope_root(
        a,
        Some(RenderReturn::Ready(VNode {
            dynamic_nodes: vec![DynamicNode::Component { scope: Some(b), props }],
        })),
    );
    vd.drop_scope(a, false);
    assert!(!vd.scope_exists(a));
    assert!(vd.scope_exists(b));
    assert!(vd.cell_filled(props));
}

#[test]
fn fragments_are_walked_recursively() {
    let mut vd = VirtualDom::new();
    let a = vd.mount_scope(None);
    let b = vd.mount_scope(Some(a));
    let props = vd.new_cell();
    let fragment = DynamicNode::Fragment(vec![
        VNode { dynamic_nodes: vec![DynamicNode::Text, DynamicNode::Placeholder] },
        VNode { dynamic_nodes: vec![DynamicNode::Component { scope: Some(b), props }] },
    ]);
    vd.set_scope_root(a, Some(RenderReturn::Ready(VNode { dynamic_nodes: vec![fragment] })));
    vd.drop_scope(a, true);
    assert!(!vd.scope_exists(a));
    assert!(!vd.scope_exists(b));
    assert!(!vd.cell_filled(props));
}

#[test]
fn end_to_end_mount_and_teardown() {
    let mut vd = VirtualDom::new();

    // mount scope A at height 0 and child scope B at height 1
    let a = vd.mount_scope(None);
    let b = vd.mount_scope(Some(a));
    assert_eq!(vd.scope_height(a), Some(0));
    assert_eq!(vd.scope_height(b), Some(1));

    // B borrows a prop owned by A
    let prop = vd.new_cell();
    vd.set_scope_root(
        a,
        Some(RenderReturn::Ready(VNode {
            dynamic_nodes: vec![DynamicNode::Component { scope: Some(b), props: prop }],
        })),
    );
    vd.push_borrowed_prop(a, BorrowRef { scope: Some(b), props: prop });

    // an element realised under B's template
    let e = vd.next_element();
    vd.set_template(
        e,
        ElementRef { path: ElementPath { path: vec![0] }, template: TemplateId(0), scope: b },
    );

    // B spawns a task
    vd.spawn_task(b, TaskId(77));
    assert!(vd.task_active(TaskId(77)));

    vd.drop_scope(a, true);

    // B's state record is gone
    assert!(!vd.scope_exists(b));
    // A's borrowed-prop cell reads empty
    assert!(!vd.cell_filled(prop));
    // no task identity from B remains active
    assert!(!vd.task_active(TaskId(77)));

    // E's identity is reclaimed by the diffing layer and is reusable
    assert_eq!(vd.try_reclaim(e), Ok(Some(())));
    let reused = vd.next_element();
    assert_eq!(reused, e);
    assert_ne!(e, ElementId(0));
}

#[test]
fn scope_slots_are_reused_after_teardown() {
    let mut vd = VirtualDom::new();
    let a = vd.mount_scope(None);
    let b = vd.mount_scope(Some(a));
    vd.drop_scope(b, false);
    assert!(!vd.scope_exists(b));
    let c = vd.mount_scope(Some(a));
    assert_eq!(c, b);
    assert_eq!(vd.scope_height(c), Some(1));
}
