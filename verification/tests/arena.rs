use vdom_arena::arena::{ArenaError, ElementId, ElementPath, ElementRef, ScopeId, TemplateId};
use vdom_arena::vdom::VirtualDom;

#[test]
fn identity_reuse_hands_the_same_value_back() {
    let mut vd = VirtualDom::new();
    let first = vd.next_element();
    assert_eq!(first, ElementId(1));

    let path = ElementPath { path: vec![0] };
    vd.set_template(first, ElementRef { path, template: TemplateId(3), scope: ScopeId(0) });

    vd.reclaim(first);
    assert!(!vd.element_exists(first));

    let second = vd.next_element();
    assert_eq!(second, first);
    assert!(vd.element_exists(second));
}

#[test]
fn root_identity_is_protected() {
    let mut vd = VirtualDom::new();
    assert_eq!(vd.try_reclaim(ElementId(0)), Err(ArenaError::RootReclaim));
    assert!(vd.element_exists(ElementId(0)));
}

#[test]
fn double_reclaim_is_idempotent() {
    let mut vd = VirtualDom::new();
    let el = vd.next_element();
    assert_eq!(vd.try_reclaim(el), Ok(Some(())));
    assert_eq!(vd.try_reclaim(el), Ok(None));
}

#[test]
fn reclaiming_what_never_existed_reports_absence() {
    let mut vd = VirtualDom::new();
    assert_eq!(vd.try_reclaim(ElementId(9)), Ok(None));
}

#[test]
fn allocation_fills_the_lowest_free_slot() {
    let mut vd = VirtualDom::new();
    let e1 = vd.next_element();
    let e2 = vd.next_element();
    let e3 = vd.next_element();
    assert_eq!((e1, e2, e3), (ElementId(1), ElementId(2), ElementId(3)));

    assert_eq!(vd.try_reclaim(e2), Ok(Some(())));
    let e4 = vd.next_element();
    assert_eq!(e4, e2);
    let e5 = vd.next_element();
    assert_eq!(e5, ElementId(4));
}

#[test]
fn binding_keeps_the_element_identity() {
    let mut vd = VirtualDom::new();
    let el = vd.next_element();
    let r1 = ElementRef {
        path: ElementPath { path: vec![0, 1] },
        template: TemplateId(0),
        scope: ScopeId(0),
    };
    vd.set_template(el, r1);
    // re-binding against a new template version keeps the identity
    let r2 = ElementRef {
        path: ElementPath { path: vec![0, 2] },
        template: TemplateId(1),
        scope: ScopeId(0),
    };
    vd.set_template(el, r2);
    vd.update_template(el, TemplateId(2));
    assert!(vd.element_exists(el));
}

#[test]
fn is_decendant_checks_path_prefixes() {
    let p = ElementPath { path: vec![1, 2, 3] };
    assert!(p.is_decendant(&[]));
    assert!(p.is_decendant(&[1]));
    assert!(p.is_decendant(&[1, 2]));
    assert!(p.is_decendant(&[1, 2, 3]));
    assert!(!p.is_decendant(&[2]));
    assert!(!p.is_decendant(&[1, 3]));
    assert!(!p.is_decendant(&[1, 2, 3, 4]));
}

#[test]
fn path_eq_compares_the_bytes() {
    let p = ElementPath { path: vec![1, 2] };
    assert!(p.path_eq(&[1, 2]));
    assert!(!p.path_eq(&[1]));
    assert!(!p.path_eq(&[1, 3]));
}
