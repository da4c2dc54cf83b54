use vstd::prelude::*;
use crate::rsx::{attr_static, attr_name_chars, element_name_chars, fanout_ok, AttrValue, AttributeType, BodyNode, Element, ElementAttrName, HotReloadingContext, IfmtInput, TemplateAttribute, TemplateNode, ifmt_static};

verus! {

broadcast use vstd::seq_lib::group_seq_properties;

/// An understanding of a markup body that provides the mapping required for
/// hot-reload diffing and for converting the body to a template: the dynamic
/// nodes and attributes in the order they were discovered, and the tree path
/// at which each was found.
#[derive(Debug)]
pub struct DynamicContext {
    pub dynamic_nodes: Vec<BodyNode>,
    pub dynamic_attributes: Vec<Vec<AttributeType>>,
    pub ifmts: Vec<IfmtInput>,
    pub current_path: Vec<u8>,
    pub node_paths: Vec<Vec<u8>>,
    pub attr_paths: Vec<Vec<u8>>,
    /// The identity of this template relative to the call body; the root
    /// template has identity `0`.
    pub template_idx: usize,
    /// Counter handing out the next dynamic index.
    pub dynamic_idx: usize,
}

/// The dynamic contexts of a call body, root first.
#[derive(Debug)]
pub struct CallBodyContext {
    pub contexts: Vec<DynamicContext>,
}

// ------------------------------------------------------------------
// How many dynamic nodes and dynamic attributes a body records.
// ------------------------------------------------------------------

/// Number of dynamic nodes that updating `root` records.
pub open spec fn node_dyn_count(root: BodyNode) -> nat
    decreases root,
{
    match root {
        BodyNode::Element(el) => children_dyn_count(el.children@),
        BodyNode::Text(t) => if ifmt_static(t.input) {
            0nat
        } else {
            1nat
        },
        _ => 1nat,
    }
}

/// See [`node_dyn_count`].
pub open spec fn children_dyn_count(children: Seq<BodyNode>) -> nat
    decreases children,
{
    if children.len() == 0 {
        0
    } else {
        children_dyn_count(children.drop_last()) + node_dyn_count(children.last())
    }
}

/// Number of dynamic attributes that updating `root` records.
pub open spec fn node_attr_count(root: BodyNode) -> nat
    decreases root,
{
    match root {
        BodyNode::Element(el) => attrs_dyn_count(el.merged_attributes@) + children_attr_count(
            el.children@,
        ),
        _ => 0,
    }
}

/// Number of the attributes in `alist` that are not static string literals.
pub open spec fn attrs_dyn_count(alist: Seq<AttributeType>) -> nat
    decreases alist.len(),
{
    if alist.len() == 0 {
        0
    } else {
        attrs_dyn_count(alist.drop_last()) + if attr_static(alist.last()) {
            0nat
        } else {
            1nat
        }
    }
}

/// See [`node_attr_count`].
pub open spec fn children_attr_count(children: Seq<BodyNode>) -> nat
    decreases children,
{
    if children.len() == 0 {
        0
    } else {
        children_attr_count(children.drop_last()) + node_attr_count(children.last())
    }
}

// ------------------------------------------------------------------
// What the recorded state and the produced template look like.
// ------------------------------------------------------------------

/// The second sequence extends the first as far as `bound`: it is at least
/// as long, and the first `bound` entries agree.
pub open spec fn seq_agree_below<T>(s1: Seq<T>, s2: Seq<T>, bound: int) -> bool {
    &&& bound <= s1.len() <= s2.len()
    &&& forall|i: int| 0 <= i < bound ==> s2[i] == (#[trigger] s1[i])
}

/// The executable mapping answer holds the same characters as the spec-level
/// one.
pub open spec fn opt_str_matches(a: Option<String>, b: Option<Seq<char>>) -> bool {
    match (a, b) {
        (Some(x), Some(y)) => x@ == y,
        (None, None) => true,
        _ => false,
    }
}

/// The dynamic node `root` is recorded at index `d`, under path `p`.
pub open spec fn dynamic_recorded(
    root: BodyNode,
    nodes: Seq<BodyNode>,
    paths: Seq<Vec<u8>>,
    d: int,
    p: Seq<u8>,
) -> bool {
    &&& 0 <= d < nodes.len() && nodes[d] == root
    &&& d < paths.len() && paths[d]@ == p
}

/// The template attribute a static string attribute compiles to: the name as
/// the renderer maps it (or as written), and the literal source as value.
pub open spec fn static_attr_built<Ctx: HotReloadingContext>(
    ctx: Ctx,
    ename: Seq<char>,
    aname: ElementAttrName,
    value: IfmtInput,
    ta: TemplateAttribute,
) -> bool {
    ta matches TemplateAttribute::Static { name, namespace, value: v } && {
        &&& v@ == value.source@
        &&& match ctx.map_attribute_spec(ename, attr_name_chars(aname)) {
            Some((n, ns)) => name@ == n && opt_str_matches(namespace, ns),
            None => name@ == attr_name_chars(aname) && namespace is None,
        }
    }
}

/// `tattrs` compiles the attribute list `alist` of an element named `ename`:
/// one template attribute per attribute in order, static string literals
/// compiled in place and the rest recorded as dynamic attributes with
/// consecutive indices from `a0` on, each under path `p`.
pub open spec fn updated_attrs<Ctx: HotReloadingContext>(
    ctx: Ctx,
    ename: Seq<char>,
    alist: Seq<AttributeType>,
    tattrs: Seq<TemplateAttribute>,
    attrs_rec: Seq<Vec<AttributeType>>,
    apaths: Seq<Vec<u8>>,
    a0: int,
    p: Seq<u8>,
) -> bool
    decreases alist.len(),
{
    if alist.len() == 0 {
        tattrs.len() == 0
    } else {
        &&& tattrs.len() == alist.len()
        &&& updated_attrs(
            ctx,
            ename,
            alist.drop_last(),
            tattrs.drop_last(),
            attrs_rec,
            apaths,
            a0,
            p,
        )
        &&& if attr_static(alist.last()) {
            alist.last().value matches AttrValue::Literal(f) && static_attr_built(
                ctx,
                ename,
                alist.last().name,
                f,
                tattrs.last(),
            )
        } else {
            let am = a0 + attrs_dyn_count(alist.drop_last());
            &&& (tattrs.last() matches TemplateAttribute::Dynamic { id } && id == am)
            &&& 0 <= am < attrs_rec.len() && attrs_rec[am]@ == seq![alist.last()]
            &&& am < apaths.len() && apaths[am]@ == p
        }
    }
}

/// `tpl` is the template node that updating `root` under path `p` produces,
/// with its dynamic nodes recorded from index `d0` on and its dynamic
/// attributes from `a0` on.
pub open spec fn updated_node<Ctx: HotReloadingContext>(
    ctx: Ctx,
    root: BodyNode,
    tpl: TemplateNode,
    nodes: Seq<BodyNode>,
    paths: Seq<Vec<u8>>,
    attrs_rec: Seq<Vec<AttributeType>>,
    apaths: Seq<Vec<u8>>,
    d0: int,
    a0: int,
    p: Seq<u8>,
) -> bool
    decreases root,
{
    match root {
        BodyNode::Element(el) => updated_element(
            ctx,
            el,
            tpl,
            nodes,
            paths,
            attrs_rec,
            apaths,
            d0,
            a0,
            p,
        ),
        BodyNode::Text(t) => if ifmt_static(t.input) {
            tpl matches TemplateNode::Text { text } && text@ == t.input.source@
        } else {
            &&& (tpl matches TemplateNode::DynamicText { id } && id == d0)
            &&& dynamic_recorded(root, nodes, paths, d0, p)
        },
        _ => {
            &&& (tpl matches TemplateNode::Dynamic { id } && id == d0)
            &&& dynamic_recorded(root, nodes, paths, d0, p)
        },
    }
}

/// See [`updated_node`]: the element case, compiling attributes first and
/// then the children.
pub open spec fn updated_element<Ctx: HotReloadingContext>(
    ctx: Ctx,
    el: Element,
    tpl: TemplateNode,
    nodes: Seq<BodyNode>,
    paths: Seq<Vec<u8>>,
    attrs_rec: Seq<Vec<AttributeType>>,
    apaths: Seq<Vec<u8>>,
    d0: int,
    a0: int,
    p: Seq<u8>,
) -> bool
    decreases el,
{
    tpl matches TemplateNode::Element { tag, namespace, attrs, children } && {
        &&& match ctx.map_element_spec(element_name_chars(el.name)) {
            Some((t, ns)) => tag@ == t && opt_str_matches(namespace, ns),
            None => tag@ == element_name_chars(el.name) && namespace is None,
        }
        &&& updated_attrs(
            ctx,
            element_name_chars(el.name),
            el.merged_attributes@,
            attrs@,
            attrs_rec,
            apaths,
            a0,
            p,
        )
        &&& updated_children(
            ctx,
            el.children@,
            children@,
            nodes,
            paths,
            attrs_rec,
            apaths,
            d0,
            a0 + attrs_dyn_count(el.merged_attributes@),
            p,
        )
    }
}

/// See [`updated_node`]: children in order, the `i`-th under path `p`
/// extended with the byte `i`.
pub open spec fn updated_children<Ctx: HotReloadingContext>(
    ctx: Ctx,
    children: Seq<BodyNode>,
    tchildren: Seq<TemplateNode>,
    nodes: Seq<BodyNode>,
    paths: Seq<Vec<u8>>,
    attrs_rec: Seq<Vec<AttributeType>>,
    apaths: Seq<Vec<u8>>,
    d0: int,
    a0: int,
    p: Seq<u8>,
) -> bool
    decreases children,
{
    if children.len() == 0 {
        tchildren.len() == 0
    } else {
        &&& tchildren.len() == children.len()
        &&& updated_children(
            ctx,
            children.drop_last(),
            tchildren.drop_last(),
            nodes,
            paths,
            attrs_rec,
            apaths,
            d0,
            a0,
            p,
        )
        &&& updated_node(
            ctx,
            children.last(),
            tchildren.last(),
            nodes,
            paths,
            attrs_rec,
            apaths,
            d0 + children_dyn_count(children.drop_last()),
            a0 + children_attr_count(children.drop_last()),
            p.push((children.len() - 1) as u8),
        )
    }
}

impl DynamicContext {
    /// Every recorded dynamic node and attribute has a recorded path.
    pub open spec fn inv(self) -> bool {
        &&& self.node_paths@.len() >= self.dynamic_nodes@.len()
        &&& self.attr_paths@.len() >= self.dynamic_attributes@.len()
    }
}

/// What any update step leaves alone: the walk position and template
/// identity, everything already recorded, and every recorded path below what
/// was already recorded.
pub open spec fn ctx_frame(pre: DynamicContext, post: DynamicContext) -> bool {
    &&& post.current_path@ == pre.current_path@
    &&& post.template_idx == pre.template_idx
    &&& post.ifmts@ == pre.ifmts@
    &&& post.dynamic_idx == pre.dynamic_idx
    &&& pre.dynamic_nodes@.is_prefix_of(post.dynamic_nodes@)
    &&& pre.dynamic_attributes@.is_prefix_of(post.dynamic_attributes@)
    &&& seq_agree_below(pre.node_paths@, post.node_paths@, pre.dynamic_nodes@.len() as int)
    &&& seq_agree_below(pre.attr_paths@, post.attr_paths@, pre.dynamic_attributes@.len() as int)
}

/// Frames chain.
pub proof fn lemma_ctx_frame_trans(a: DynamicContext, b: DynamicContext, c: DynamicContext)
    requires
        ctx_frame(a, b),
        ctx_frame(b, c),
    ensures
        ctx_frame(a, c),
{
    crate::teardown::lemma_prefix_trans(a.dynamic_nodes@, b.dynamic_nodes@, c.dynamic_nodes@);
    crate::teardown::lemma_prefix_trans(
        a.dynamic_attributes@,
        b.dynamic_attributes@,
        c.dynamic_attributes@,
    );
    assert forall|i: int|
        0 <= i < a.dynamic_nodes@.len() implies i < a.node_paths@.len() && i < c.node_paths@.len()
        && a.node_paths@[i] == (#[trigger] c.node_paths@[i]) by {
        assert(b.node_paths@[i] == a.node_paths@[i]);
    }
    assert forall|i: int|
        0 <= i < a.dynamic_attributes@.len() implies i < a.attr_paths@.len() && i
        < c.attr_paths@.len() && a.attr_paths@[i] == (#[trigger] c.attr_paths@[i]) by {
        assert(b.attr_paths@[i] == a.attr_paths@[i]);
    }
}

/// An element of a prefix is an element of the whole.
pub proof fn lemma_prefix_index<T>(s1: Seq<T>, s2: Seq<T>, i: int)
    requires
        s1.is_prefix_of(s2),
        0 <= i < s1.len(),
    ensures
        s2[i] == s1[i],
{
    assert(s1 =~= s2.subrange(0, s1.len() as int));
    assert(s2.subrange(0, s1.len() as int)[i] == s2[i]);
}

// ------------------------------------------------------------------
// The recorded facts persist as recording continues.
// ------------------------------------------------------------------

/// [`updated_attrs`] persists: nothing recorded below `bound_a` changes.
pub proof fn lemma_updated_attrs_persists<Ctx: HotReloadingContext>(
    ctx: Ctx,
    ename: Seq<char>,
    alist: Seq<AttributeType>,
    tattrs: Seq<TemplateAttribute>,
    ar1: Seq<Vec<AttributeType>>,
    ap1: Seq<Vec<u8>>,
    ar2: Seq<Vec<AttributeType>>,
    ap2: Seq<Vec<u8>>,
    a0: int,
    p: Seq<u8>,
    bound_a: int,
)
    requires
        updated_attrs(ctx, ename, alist, tattrs, ar1, ap1, a0, p),
        a0 + attrs_dyn_count(alist) <= bound_a,
        ar1.is_prefix_of(ar2),
        seq_agree_below(ap1, ap2, bound_a),
    ensures
        updated_attrs(ctx, ename, alist, tattrs, ar2, ap2, a0, p),
    decreases alist.len(),
{
    if alist.len() > 0 {
        lemma_updated_attrs_persists(
            ctx,
            ename,
            alist.drop_last(),
            tattrs.drop_last(),
            ar1,
            ap1,
            ar2,
            ap2,
            a0,
            p,
            bound_a,
        );
        if !attr_static(alist.last()) {
            let am = a0 + attrs_dyn_count(alist.drop_last());
            lemma_prefix_index(ar1, ar2, am);
        }
    }
}

/// [`updated_node`] persists: nothing recorded below the bounds changes.
pub proof fn lemma_updated_node_persists<Ctx: HotReloadingContext>(
    ctx: Ctx,
    root: BodyNode,
    tpl: TemplateNode,
    n1: Seq<BodyNode>,
    p1: Seq<Vec<u8>>,
    ar1: Seq<Vec<AttributeType>>,
    ap1: Seq<Vec<u8>>,
    n2: Seq<BodyNode>,
    p2: Seq<Vec<u8>>,
    ar2: Seq<Vec<AttributeType>>,
    ap2: Seq<Vec<u8>>,
    d0: int,
    a0: int,
    p: Seq<u8>,
    bound_d: int,
    bound_a: int,
)
    requires
        updated_node(ctx, root, tpl, n1, p1, ar1, ap1, d0, a0, p),
        d0 + node_dyn_count(root) <= bound_d,
        a0 + node_attr_count(root) <= bound_a,
        n1.is_prefix_of(n2),
        seq_agree_below(p1, p2, bound_d),
        ar1.is_prefix_of(ar2),
        seq_agree_below(ap1, ap2, bound_a),
    ensures
        updated_node(ctx, root, tpl, n2, p2, ar2, ap2, d0, a0, p),
    decreases root,
{
    match root {
        BodyNode::Element(el) => {
            lemma_updated_element_persists(
                ctx,
                el,
                tpl,
                n1,
                p1,
                ar1,
                ap1,
                n2,
                p2,
                ar2,
                ap2,
                d0,
                a0,
                p,
                bound_d,
                bound_a,
            );
        },
        BodyNode::Text(t) => {
            if !ifmt_static(t.input) {
                lemma_prefix_index(n1, n2, d0);
            }
        },
        _ => {
            lemma_prefix_index(n1, n2, d0);
        },
    }
}

/// See [`lemma_updated_node_persists`].
pub proof fn lemma_updated_element_persists<Ctx: HotReloadingContext>(
    ctx: Ctx,
    el: Element,
    tpl: TemplateNode,
    n1: Seq<BodyNode>,
    p1: Seq<Vec<u8>>,
    ar1: Seq<Vec<AttributeType>>,
    ap1: Seq<Vec<u8>>,
    n2: Seq<BodyNode>,
    p2: Seq<Vec<u8>>,
    ar2: Seq<Vec<AttributeType>>,
    ap2: Seq<Vec<u8>>,
    d0: int,
    a0: int,
    p: Seq<u8>,
    bound_d: int,
    bound_a: int,
)
    requires
        updated_element(ctx, el, tpl, n1, p1, ar1, ap1, d0, a0, p),
        d0 + children_dyn_count(el.children@) <= bound_d,
        a0 + attrs_dyn_count(el.merged_attributes@) + children_attr_count(el.children@) <= bound_a,
        n1.is_prefix_of(n2),
        seq_agree_below(p1, p2, bound_d),
        ar1.is_prefix_of(ar2),
        seq_agree_below(ap1, ap2, bound_a),
    ensures
        updated_element(ctx, el, tpl, n2, p2, ar2, ap2, d0, a0, p),
    decreases el,
{
    match tpl {
        TemplateNode::Element { tag, namespace, attrs, children } => {
            lemma_updated_attrs_persists(
                ctx,
                element_name_chars(el.name),
                el.merged_attributes@,
                attrs@,
                ar1,
                ap1,
                ar2,
                ap2,
                a0,
                p,
                bound_a,
            );
            lemma_updated_children_persists(
                ctx,
                el.children@,
                children@,
                n1,
                p1,
                ar1,
                ap1,
                n2,
                p2,
                ar2,
                ap2,
                d0,
                a0 + attrs_dyn_count(el.merged_attributes@),
                p,
                bound_d,
                bound_a,
            );
        },
        _ => {},
    }
}

/// See [`lemma_updated_node_persists`].
pub proof fn lemma_updated_children_persists<Ctx: HotReloadingContext>(
    ctx: Ctx,
    children: Seq<BodyNode>,
    tchildren: Seq<TemplateNode>,
    n1: Seq<BodyNode>,
    p1: Seq<Vec<u8>>,
    ar1: Seq<Vec<AttributeType>>,
    ap1: Seq<Vec<u8>>,
    n2: Seq<BodyNode>,
    p2: Seq<Vec<u8>>,
    ar2: Seq<Vec<AttributeType>>,
    ap2: Seq<Vec<u8>>,
    d0: int,
    a0: int,
    p: Seq<u8>,
    bound_d: int,
    bound_a: int,
)
    requires
        updated_children(ctx, children, tchildren, n1, p1, ar1, ap1, d0, a0, p),
        d0 + children_dyn_count(children) <= bound_d,
        a0 + children_attr_count(children) <= bound_a,
        n1.is_prefix_of(n2),
        seq_agree_below(p1, p2, bound_d),
        ar1.is_prefix_of(ar2),
        seq_agree_below(ap1, ap2, bound_a),
    ensures
        updated_children(ctx, children, tchildren, n2, p2, ar2, ap2, d0, a0, p),
    decreases children,
{
    if children.len() > 0 {
        lemma_updated_children_persists(
            ctx,
            children.drop_last(),
            tchildren.drop_last(),
            n1,
            p1,
            ar1,
            ap1,
            n2,
            p2,
            ar2,
            ap2,
            d0,
            a0,
            p,
            bound_d,
            bound_a,
        );
        lemma_updated_node_persists(
            ctx,
            children.last(),
            tchildren.last(),
            n1,
            p1,
            ar1,
            ap1,
            n2,
            p2,
            ar2,
            ap2,
            d0 + children_dyn_count(children.drop_last()),
            a0 + children_attr_count(children.drop_last()),
            p.push((children.len() - 1) as u8),
            bound_d,
            bound_a,
        );
    }
}

// ------------------------------------------------------------------
// The executable update pass.
// ------------------------------------------------------------------

/// A byte-for-byte copy of a recorded path.
fn clone_bytes(v: &Vec<u8>) -> (r: Vec<u8>)
    ensures
        r@ == v@,
{
    let mut r: Vec<u8> = Vec::new();
    let n = v.len();
    let mut i: usize = 0;
    while i < n
        invariant
            0 <= i <= n,
            n == v@.len(),
            r@ == v@.subrange(0, i as int),
        decreases n - i,
    {
        r.push(v[i]);
        proof {
            assert(r@ =~= v@.subrange(0, i as int + 1));
        }
        i += 1;
    }
    proof {
        assert(v@.subrange(0, n as int) =~= v@);
    }
    r
}

/// A context with nothing recorded frames itself.
pub proof fn lemma_ctx_frame_refl(c: DynamicContext)
    requires
        c.inv(),
    ensures
        ctx_frame(c, c),
{
    crate::teardown::lemma_prefix_refl(c.dynamic_nodes@);
    crate::teardown::lemma_prefix_refl(c.dynamic_attributes@);
}

impl Default for DynamicContext {
    /// An empty context for the root template.
    fn default() -> (s: Self)
        ensures
            s.inv(),
            s.dynamic_nodes@.len() == 0,
            s.dynamic_attributes@.len() == 0,
            s.ifmts@.len() == 0,
            s.current_path@.len() == 0,
            s.node_paths@.len() == 0,
            s.attr_paths@.len() == 0,
            s.template_idx == 0,
            s.dynamic_idx == 0,
    {
        DynamicContext {
            dynamic_nodes: Vec::new(),
            dynamic_attributes: Vec::new(),
            ifmts: Vec::new(),
            current_path: Vec::new(),
            node_paths: Vec::new(),
            attr_paths: Vec::new(),
            template_idx: 0,
            dynamic_idx: 0,
        }
    }
}

impl DynamicContext {
    /// Hands out the next dynamic index.
    pub fn next_dynamic_idx(&mut self) -> (idx: usize)
        requires
            old(self).dynamic_idx < usize::MAX,
        ensures
            idx == old(self).dynamic_idx,
            final(self).dynamic_idx == old(self).dynamic_idx + 1,
            final(self).dynamic_nodes@ == old(self).dynamic_nodes@,
            final(self).dynamic_attributes@ == old(self).dynamic_attributes@,
            final(self).ifmts@ == old(self).ifmts@,
            final(self).current_path@ == old(self).current_path@,
            final(self).node_paths@ == old(self).node_paths@,
            final(self).attr_paths@ == old(self).attr_paths@,
            final(self).template_idx == old(self).template_idx,
    {
        let idx = self.dynamic_idx;
        self.dynamic_idx += 1;
        idx
    }

    /// Records `root` as the next dynamic node under the current path and
    /// produces the template slot that refers to it.
    pub fn update_dynamic_node(&mut self, root: BodyNode) -> (r: Option<TemplateNode>)
        requires
            old(self).inv(),
        ensures
            final(self).inv(),
            ctx_frame(*old(self), *final(self)),
            final(self).dynamic_nodes@ == old(self).dynamic_nodes@.push(root),
            final(self).dynamic_attributes@ == old(self).dynamic_attributes@,
            final(self).attr_paths@ == old(self).attr_paths@,
            final(self).node_paths@[old(self).dynamic_nodes@.len() as int]@ == old(
                self,
            ).current_path@,
            final(self).node_paths@.len() >= old(self).dynamic_nodes@.len() + 1,
            r matches Some(tpl) && (if root is Text {
                tpl matches TemplateNode::DynamicText { id } && id == old(
                    self,
                ).dynamic_nodes@.len()
            } else {
                tpl matches TemplateNode::Dynamic { id } && id == old(self).dynamic_nodes@.len()
            }),
    {
        let idx = self.dynamic_nodes.len();
        let is_text = match &root {
            BodyNode::Text(_) => true,
            _ => false,
        };
        self.dynamic_nodes.push(root);
        let target = self.dynamic_nodes.len();
        while self.node_paths.len() < target
            invariant
                old(self).node_paths@.is_prefix_of(self.node_paths@),
                self.node_paths@.len() >= old(self).node_paths@.len(),
                self.dynamic_nodes@ == old(self).dynamic_nodes@.push(root),
                self.dynamic_attributes@ == old(self).dynamic_attributes@,
                self.attr_paths@ == old(self).attr_paths@,
                self.current_path@ == old(self).current_path@,
                self.ifmts@ == old(self).ifmts@,
                self.template_idx == old(self).template_idx,
                self.dynamic_idx == old(self).dynamic_idx,
                target == idx + 1,
                idx == old(self).dynamic_nodes@.len(),
            decreases target - self.node_paths@.len(),
        {
            let ghost before = self.node_paths@;
            self.node_paths.push(Vec::new());
            proof {
                crate::teardown::lemma_prefix_push(before, self.node_paths@.last());
                crate::teardown::lemma_prefix_trans(
                    old(self).node_paths@,
                    before,
                    self.node_paths@,
                );
            }
        }
        let path_copy = clone_bytes(&self.current_path);
        self.node_paths[idx] = path_copy;
        proof {
            // the write lands at or past every previously recorded index
            assert forall|i: int| 0 <= i < old(self).dynamic_nodes@.len() implies self.node_paths@[i]
                == (#[trigger] old(self).node_paths@[i]) by {
                assert(i < old(self).node_paths@.len());
                assert(i != idx);
            }
            crate::teardown::lemma_prefix_refl(self.dynamic_attributes@);
        }
        if is_text {
            Some(TemplateNode::DynamicText { id: idx })
        } else {
            Some(TemplateNode::Dynamic { id: idx })
        }
    }

    /// Records `attr` as the next dynamic attribute under the current path
    /// and returns its index.
    pub fn update_dynamic_attribute(&mut self, attr: AttributeType) -> (r: Option<usize>)
        requires
            old(self).inv(),
        ensures
            final(self).inv(),
            ctx_frame(*old(self), *final(self)),
            final(self).dynamic_nodes@ == old(self).dynamic_nodes@,
            final(self).node_paths@ == old(self).node_paths@,
            final(self).dynamic_attributes@.len() == old(self).dynamic_attributes@.len() + 1,
            final(self).dynamic_attributes@[old(self).dynamic_attributes@.len() as int]@
                == seq![attr],
            final(self).attr_paths@[old(self).dynamic_attributes@.len() as int]@ == old(
                self,
            ).current_path@,
            final(self).attr_paths@.len() >= old(self).dynamic_attributes@.len() + 1,
            r matches Some(id) && id == old(self).dynamic_attributes@.len(),
    {
        let idx = self.dynamic_attributes.len();
        let mut single: Vec<AttributeType> = Vec::new();
        single.push(attr);
        proof {
            assert(single@ =~= seq![single@[0]]);
        }
        self.dynamic_attributes.push(single);
        let target = self.dynamic_attributes.len();
        while self.attr_paths.len() < target
            invariant
                old(self).attr_paths@.is_prefix_of(self.attr_paths@),
                self.attr_paths@.len() >= old(self).attr_paths@.len(),
                self.dynamic_attributes@.len() == old(self).dynamic_attributes@.len() + 1,
                self.dynamic_attributes@[old(self).dynamic_attributes@.len() as int] == single,
                old(self).dynamic_attributes@.is_prefix_of(self.dynamic_attributes@),
                self.dynamic_nodes@ == old(self).dynamic_nodes@,
                self.node_paths@ == old(self).node_paths@,
                self.current_path@ == old(self).current_path@,
                self.ifmts@ == old(self).ifmts@,
                self.template_idx == old(self).template_idx,
                self.dynamic_idx == old(self).dynamic_idx,
                target == idx + 1,
                idx == old(self).dynamic_attributes@.len(),
            decreases target - self.attr_paths@.len(),
        {
            let ghost before = self.attr_paths@;
            self.attr_paths.push(Vec::new());
            proof {
                crate::teardown::lemma_prefix_push(before, self.attr_paths@.last());
                crate::teardown::lemma_prefix_trans(
                    old(self).attr_paths@,
                    before,
                    self.attr_paths@,
                );
            }
        }
        let path_copy = clone_bytes(&self.current_path);
        self.attr_paths[idx] = path_copy;
        proof {
            crate::teardown::lemma_prefix_refl(self.dynamic_nodes@);
        }
        Some(idx)
    }

    /// Compiles a static string attribute straight into a template attribute,
    /// mapping its name through the renderer's context.
    pub fn make_static_attribute<Ctx: HotReloadingContext>(
        value: IfmtInput,
        name: ElementAttrName,
        element_name_rust: &String,
        ctx: &Ctx,
    ) -> (r: TemplateAttribute)
        ensures
            static_attr_built(*ctx, element_name_rust@, name, value, r),
    {
        let attribute_name_rust = name.to_string();
        let mapped = ctx.map_attribute(element_name_rust, &attribute_name_rust);
        let (name2, namespace) = match mapped {
            Some((n, ns)) => (n, ns),
            None => (attribute_name_rust, None),
        };
        TemplateAttribute::Static { name: name2, namespace, value: value.source }
    }

    /// Attempts to update one node of a template against the current walk
    /// position: elements are walked structurally, static text is compiled in
    /// place, and everything else becomes a dynamic node.
    pub fn update_node<Ctx: HotReloadingContext>(&mut self, root: BodyNode, ctx: &Ctx) -> (r:
        Option<TemplateNode>)
        requires
            old(self).inv(),
            fanout_ok(root),
        ensures
            final(self).inv(),
            ctx_frame(*old(self), *final(self)),
            final(self).dynamic_nodes@.len() == old(self).dynamic_nodes@.len() + node_dyn_count(
                root,
            ),
            final(self).dynamic_attributes@.len() == old(self).dynamic_attributes@.len()
                + node_attr_count(root),
            r matches Some(tpl) && updated_node(
                *ctx,
                root,
                tpl,
                final(self).dynamic_nodes@,
                final(self).node_paths@,
                final(self).dynamic_attributes@,
                final(self).attr_paths@,
                old(self).dynamic_nodes@.len() as int,
                old(self).dynamic_attributes@.len() as int,
                old(self).current_path@,
            ),
        decreases root,
    {
        match root {
            BodyNode::Element(el) => self.update_element(el, ctx),
            BodyNode::Text(t) => {
                if t.input.is_static() {
                    let text = t.input.source.clone();
                    proof {
                        lemma_ctx_frame_refl(*self);
                    }
                    Some(TemplateNode::Text { text })
                } else {
                    self.update_dynamic_node(BodyNode::Text(t))
                }
            },
            other => self.update_dynamic_node(other),
        }
    }

    /// Attempts to update an element: its attributes first (static string
    /// literals compiled in place, the rest recorded), then its children.
    pub fn update_element<Ctx: HotReloadingContext>(&mut self, el: Element, ctx: &Ctx) -> (r:
        Option<TemplateNode>)
        requires
            old(self).inv(),
            fanout_ok(BodyNode::Element(el)),
        ensures
            final(self).inv(),
            ctx_frame(*old(self), *final(self)),
            final(self).dynamic_nodes@.len() == old(self).dynamic_nodes@.len()
                + children_dyn_count(el.children@),
            final(self).dynamic_attributes@.len() == old(self).dynamic_attributes@.len()
                + attrs_dyn_count(el.merged_attributes@) + children_attr_count(el.children@),
            r matches Some(tpl) && updated_element(
                *ctx,
                el,
                tpl,
                final(self).dynamic_nodes@,
                final(self).node_paths@,
                final(self).dynamic_attributes@,
                final(self).attr_paths@,
                old(self).dynamic_nodes@.len() as int,
                old(self).dynamic_attributes@.len() as int,
                old(self).current_path@,
            ),
        decreases el,
    {
        let ghost pre = *old(self);
        let ghost gel = el;
        let Element { name, merged_attributes, children } = el;
        let rust_name = name.to_string();
        let ghost gattrs = merged_attributes;
        let mut alist = merged_attributes;
        let total = alist.len();
        let mut static_attr_array: Vec<TemplateAttribute> = Vec::new();
        let mut k: usize = 0;
        proof {
            lemma_ctx_frame_refl(pre);
            assert(gattrs@.subrange(0, 0) =~= Seq::<AttributeType>::empty());
            assert(gattrs@.subrange(0, gattrs@.len() as int) =~= gattrs@);
        }
        while alist.len() > 0
            invariant
                total == gattrs@.len(),
                k + alist@.len() == gattrs@.len(),
                alist@ == gattrs@.subrange(k as int, gattrs@.len() as int),
                rust_name@ == element_name_chars(gel.name),
                gattrs@ == gel.merged_attributes@,
                self.inv(),
                ctx_frame(pre, *self),
                self.dynamic_nodes@ == pre.dynamic_nodes@,
                self.node_paths@ == pre.node_paths@,
                static_attr_array@.len() == k,
                self.dynamic_attributes@.len() == pre.dynamic_attributes@.len() + attrs_dyn_count(
                    gattrs@.subrange(0, k as int),
                ),
                updated_attrs(
                    *ctx,
                    rust_name@,
                    gattrs@.subrange(0, k as int),
                    static_attr_array@,
                    self.dynamic_attributes@,
                    self.attr_paths@,
                    pre.dynamic_attributes@.len() as int,
                    pre.current_path@,
                ),
            decreases alist@.len(),
        {
            let ghost before = *self;
            let attr = alist.remove(0);
            proof {
                assert(attr == gattrs@[k as int]);
                assert(alist@ =~= gattrs@.subrange(k as int + 1, gattrs@.len() as int));
            }
            let is_static_lit = match &attr.value {
                AttrValue::Literal(f) => f.is_static(),
                _ => false,
            };
            let ta: TemplateAttribute;
            if is_static_lit {
                let AttributeType { name: aname, value } = attr;
                let f = match value {
                    AttrValue::Literal(f) => f,
                    _ => vstd::pervasive::unreached(),
                };
                ta = Self::make_static_attribute(f, aname, &rust_name, ctx);
            } else {
                let id = match self.update_dynamic_attribute(attr) {
                    Some(id) => id,
                    None => vstd::pervasive::unreached(),
                };
                ta = TemplateAttribute::Dynamic { id };
            }
            let ghost prev_arr = static_attr_array@;
            static_attr_array.push(ta);
            proof {
                let seg = gattrs@.subrange(0, k as int + 1);
                assert(seg.drop_last() =~= gattrs@.subrange(0, k as int));
                assert(seg.last() == gattrs@[k as int]);
                assert(static_attr_array@.drop_last() =~= prev_arr);
                if !is_static_lit {
                    lemma_updated_attrs_persists(
                        *ctx,
                        rust_name@,
                        gattrs@.subrange(0, k as int),
                        prev_arr,
                        before.dynamic_attributes@,
                        before.attr_paths@,
                        self.dynamic_attributes@,
                        self.attr_paths@,
                        pre.dynamic_attributes@.len() as int,
                        pre.current_path@,
                        before.dynamic_attributes@.len() as int,
                    );
                    lemma_ctx_frame_trans(pre, before, *self);
                } else {
                    assert(*self == before);
                }
            }
            k += 1;
        }
        let ghost mid = *self;
        let children_t = match self.fill(children, ctx) {
            Some(c) => c,
            None => vstd::pervasive::unreached(),
        };
        proof {
            lemma_ctx_frame_trans(pre, mid, *self);
            lemma_updated_attrs_persists(
                *ctx,
                rust_name@,
                gattrs@,
                static_attr_array@,
                mid.dynamic_attributes@,
                mid.attr_paths@,
                self.dynamic_attributes@,
                self.attr_paths@,
                pre.dynamic_attributes@.len() as int,
                pre.current_path@,
                mid.dynamic_attributes@.len() as int,
            );
        }
        let mapped = ctx.map_element(&rust_name);
        let (tag, namespace) = match mapped {
            Some((t, ns)) => (t, ns),
            None => (rust_name, None),
        };
        Some(TemplateNode::Element { tag, namespace, attrs: static_attr_array, children: children_t })
    }

    /// Populates the context with a list of roots, compiling each in turn;
    /// the `i`-th root is walked under the current path extended with the
    /// byte `i`.
    #[verifier::loop_isolation(false)]
    pub fn fill<Ctx: HotReloadingContext>(&mut self, roots: Vec<BodyNode>, ctx: &Ctx) -> (r:
        Option<Vec<TemplateNode>>)
        requires
            old(self).inv(),
            roots@.len() <= 255,
            forall|i: int| 0 <= i < roots@.len() ==> fanout_ok(#[trigger] roots@[i]),
        ensures
            final(self).inv(),
            ctx_frame(*old(self), *final(self)),
            final(self).dynamic_nodes@.len() == old(self).dynamic_nodes@.len()
                + children_dyn_count(roots@),
            final(self).dynamic_attributes@.len() == old(self).dynamic_attributes@.len()
                + children_attr_count(roots@),
            r matches Some(ts) && ts@.len() == roots@.len() && updated_children(
                *ctx,
                roots@,
                ts@,
                final(self).dynamic_nodes@,
                final(self).node_paths@,
                final(self).dynamic_attributes@,
                final(self).attr_paths@,
                old(self).dynamic_nodes@.len() as int,
                old(self).dynamic_attributes@.len() as int,
                old(self).current_path@,
            ),
        decreases roots,
    {
        let ghost pre = *old(self);
        let ghost groots = roots;
        let mut roots = roots;
        let mut out: Vec<TemplateNode> = Vec::new();
        let mut idx: usize = 0;
        proof {
            lemma_ctx_frame_refl(pre);
            assert(groots@.subrange(0, 0) =~= Seq::<BodyNode>::empty());
        }
        while roots.len() > 0
            invariant
                idx + roots@.len() == groots@.len(),
                groots@.len() <= 255,
                roots@ == groots@.subrange(idx as int, groots@.len() as int),
                forall|i: int| 0 <= i < groots@.len() ==> fanout_ok(#[trigger] groots@[i]),
                out@.len() == idx,
                self.inv(),
                ctx_frame(pre, *self),
                self.dynamic_nodes@.len() == pre.dynamic_nodes@.len() + children_dyn_count(
                    groots@.subrange(0, idx as int),
                ),
                self.dynamic_attributes@.len() == pre.dynamic_attributes@.len()
                    + children_attr_count(groots@.subrange(0, idx as int)),
                updated_children(
                    *ctx,
                    groots@.subrange(0, idx as int),
                    out@,
                    self.dynamic_nodes@,
                    self.node_paths@,
                    self.dynamic_attributes@,
                    self.attr_paths@,
                    pre.dynamic_nodes@.len() as int,
                    pre.dynamic_attributes@.len() as int,
                    pre.current_path@,
                ),
            decreases roots@.len(),
        {
            let ghost at_top = *self;
            self.current_path.push(idx as u8);
            let root = roots.remove(0);
            proof {
                assert(root == groots@[idx as int]);
                assert(roots@ =~= groots@.subrange(idx as int + 1, groots@.len() as int));
                assert(decreases_to!(groots => groots@));
                assert(decreases_to!(groots@ => groots@[idx as int]));
                assert(decreases_to!(groots => groots@[idx as int]));
            }
            let t = match self.update_node(root, ctx) {
                Some(t) => t,
                None => vstd::pervasive::unreached(),
            };
            let _ = self.current_path.pop();
            proof {
                assert(self.current_path@ =~= pre.current_path@);
            }
            let ghost prev_out = out@;
            out.push(t);
            proof {
                let seg = groots@.subrange(0, idx as int + 1);
                assert(seg.drop_last() =~= groots@.subrange(0, idx as int));
                assert(seg.last() == groots@[idx as int]);
                assert(out@.drop_last() =~= prev_out);
                lemma_updated_children_persists(
                    *ctx,
                    groots@.subrange(0, idx as int),
                    out@.drop_last(),
                    at_top.dynamic_nodes@,
                    at_top.node_paths@,
                    at_top.dynamic_attributes@,
                    at_top.attr_paths@,
                    self.dynamic_nodes@,
                    self.node_paths@,
                    self.dynamic_attributes@,
                    self.attr_paths@,
                    pre.dynamic_nodes@.len() as int,
                    pre.dynamic_attributes@.len() as int,
                    pre.current_path@,
                    at_top.dynamic_nodes@.len() as int,
                    at_top.dynamic_attributes@.len() as int,
                );
                assert(seg.last() == root);
                assert(pre.current_path@.push((seg.len() - 1) as u8) == at_top.current_path@.push(
                    idx as u8,
                ));
                lemma_ctx_frame_trans(pre, at_top, *self);
            }
            idx += 1;
        }
        proof {
            assert(groots@.subrange(0, groots@.len() as int) =~= groots@);
        }
        Some(out)
    }

    /// Populates the context with the roots of a call body and bubbles the
    /// compiled template nodes up, one list per template.
    pub fn populate_all_by_updating<Ctx: HotReloadingContext>(
        &mut self,
        roots: Vec<BodyNode>,
        ctx: &Ctx,
    ) -> (r: Option<Vec<Vec<TemplateNode>>>)
        requires
            old(self).inv(),
            roots@.len() <= 255,
            forall|i: int| 0 <= i < roots@.len() ==> fanout_ok(#[trigger] roots@[i]),
        ensures
            final(self).inv(),
            ctx_frame(*old(self), *final(self)),
            final(self).dynamic_nodes@.len() == old(self).dynamic_nodes@.len()
                + children_dyn_count(roots@),
            final(self).dynamic_attributes@.len() == old(self).dynamic_attributes@.len()
                + children_attr_count(roots@),
            r matches Some(ts) && ts@.len() == 1 && updated_children(
                *ctx,
                roots@,
                ts@[0]@,
                final(self).dynamic_nodes@,
                final(self).node_paths@,
                final(self).dynamic_attributes@,
                final(self).attr_paths@,
                old(self).dynamic_nodes@.len() as int,
                old(self).dynamic_attributes@.len() as int,
                old(self).current_path@,
            ),
    {
        match self.fill(roots, ctx) {
            Some(ts) => Some(vec![ts]),
            None => vstd::pervasive::unreached(),
        }
    }

    /// Builds the dynamic context of a whole body: an empty context populated
    /// from its roots.
    pub fn from_body<Ctx: HotReloadingContext>(roots: Vec<BodyNode>, ctx: &Ctx) -> (s: Self)
        requires
            roots@.len() <= 255,
            forall|i: int| 0 <= i < roots@.len() ==> fanout_ok(#[trigger] roots@[i]),
        ensures
            s.inv(),
            s.current_path@.len() == 0,
            s.template_idx == 0,
            s.dynamic_nodes@.len() == children_dyn_count(roots@),
            s.dynamic_attributes@.len() == children_attr_count(roots@),
            exists|ts: Seq<TemplateNode>| #[trigger] updated_children(
                *ctx,
                roots@,
                ts,
                s.dynamic_nodes@,
                s.node_paths@,
                s.dynamic_attributes@,
                s.attr_paths@,
                0,
                0,
                Seq::<u8>::empty(),
            ),
    {
        let mut s = Self::default();
        let templates = s.populate_all_by_updating(roots, ctx);
        proof {
            assert(s.current_path@ =~= Seq::<u8>::empty());
            assert(updated_children(
                *ctx,
                roots@,
                templates.unwrap()@[0]@,
                s.dynamic_nodes@,
                s.node_paths@,
                s.dynamic_attributes@,
                s.attr_paths@,
                0,
                0,
                Seq::<u8>::empty(),
            ));
        }
        s
    }
}


} // verus!
