use vstd::prelude::*;

verus! {

/// One segment of a formatted string: literal text, or a formatting hole
/// holding the expression text that fills it.
#[derive(Debug)]
pub enum Segment {
    Literal(String),
    Formatted(String),
}

/// A formatted string input: its source text and its parsed segments.
#[derive(Debug)]
pub struct IfmtInput {
    pub source: String,
    pub segments: Vec<Segment>,
}

/// An input is static when no segment is a formatting hole.
pub open spec fn ifmt_static(f: IfmtInput) -> bool {
    forall|i: int| 0 <= i < f.segments@.len() ==> (#[trigger] f.segments@[i]) is Literal
}

impl IfmtInput {
    /// Whether this input will produce a plain string with nothing to format.
    pub fn is_static(&self) -> (r: bool)
        ensures
            r == ifmt_static(*self),
    {
        let n = self.segments.len();
        let mut i: usize = 0;
        while i < n
            invariant
                0 <= i <= n,
                n == self.segments@.len(),
                forall|j: int| 0 <= j < i ==> (#[trigger] self.segments@[j]) is Literal,
            decreases n - i,
        {
            match &self.segments[i] {
                Segment::Literal(_) => {},
                Segment::Formatted(_) => {
                    return false;
                },
            }
            i += 1;
        }
        true
    }

    /// The source text, when the input is static; `None` when formatting
    /// would be needed.
    pub fn to_static(&self) -> (r: Option<String>)
        ensures
            ifmt_static(*self) ==> (r matches Some(s) && s@ == self.source@),
            !ifmt_static(*self) ==> r is None,
    {
        if self.is_static() {
            Some(self.source.clone())
        } else {
            None
        }
    }
}

/// The name of a markup element: a known identifier or a custom tag.
#[derive(Debug)]
pub enum ElementName {
    Ident(String),
    Custom(String),
}

/// The characters of the name, however it is spelled.
pub open spec fn element_name_chars(n: ElementName) -> Seq<char> {
    match n {
        ElementName::Ident(s) => s@,
        ElementName::Custom(s) => s@,
    }
}

impl ElementName {
    /// The name as a plain string.
    pub fn to_string(&self) -> (r: String)
        ensures
            r@ == element_name_chars(*self),
    {
        match self {
            ElementName::Ident(s) => s.clone(),
            ElementName::Custom(s) => s.clone(),
        }
    }
}

/// The name of an attribute: built in to the element set, or custom.
#[derive(Debug)]
pub enum ElementAttrName {
    BuiltIn(String),
    Custom(String),
}

/// The characters of the attribute name.
pub open spec fn attr_name_chars(n: ElementAttrName) -> Seq<char> {
    match n {
        ElementAttrName::BuiltIn(s) => s@,
        ElementAttrName::Custom(s) => s@,
    }
}

impl ElementAttrName {
    /// The name as a plain string.
    pub fn to_string(&self) -> (r: String)
        ensures
            r@ == attr_name_chars(*self),
    {
        match self {
            ElementAttrName::BuiltIn(s) => s.clone(),
            ElementAttrName::Custom(s) => s.clone(),
        }
    }
}

/// The value of an attribute: a literal formatted string, or an arbitrary
/// expression given by its text.
#[derive(Debug)]
pub enum AttrValue {
    Literal(IfmtInput),
    Expr(String),
}

/// One attribute of an element.
#[derive(Debug)]
pub struct AttributeType {
    pub name: ElementAttrName,
    pub value: AttrValue,
}

/// An attribute is a static string literal when its value is a literal with
/// nothing to format; only those can be compiled straight into a template.
pub open spec fn attr_static(a: AttributeType) -> bool {
    a.value matches AttrValue::Literal(f) && ifmt_static(f)
}

/// An element of a markup body: a name, its attributes and its children.
#[derive(Debug)]
pub struct Element {
    pub name: ElementName,
    pub merged_attributes: Vec<AttributeType>,
    pub children: Vec<BodyNode>,
}

/// A text node holding a formatted string input.
#[derive(Debug)]
pub struct TextNode {
    pub input: IfmtInput,
}

/// A `for` loop in a markup body: its pattern and iterated expression as
/// text, the loop body, and the dynamic index assigned to it.
#[derive(Debug)]
pub struct ForLoop {
    pub pat: String,
    pub expr: String,
    pub body: Vec<BodyNode>,
    pub dyn_idx: usize,
}

/// One node of a markup body.
#[derive(Debug)]
pub enum BodyNode {
    Element(Element),
    Text(TextNode),
    RawExpr(String),
    Component(String),
    ForLoop(ForLoop),
    IfChain(String),
}

/// Whether every element in this body node has few enough children for each
/// child index to be recorded as one path byte.
pub open spec fn fanout_ok(node: BodyNode) -> bool
    decreases node,
{
    match node {
        BodyNode::Element(el) => {
            &&& el.children@.len() <= 255
            &&& forall|i: int| 0 <= i < el.children@.len() ==> fanout_ok(#[trigger] el.children@[i])
        },
        _ => true,
    }
}

/// A compiled template attribute.
#[derive(Debug)]
pub enum TemplateAttribute {
    Static { name: String, namespace: Option<String>, value: String },
    Dynamic { id: usize },
}

/// A compiled template node: the static description that realised output is
/// diffed against, with dynamic slots referred to by index.
#[derive(Debug)]
pub enum TemplateNode {
    Text { text: String },
    Dynamic { id: usize },
    DynamicText { id: usize },
    Element {
        tag: String,
        namespace: Option<String>,
        attrs: Vec<TemplateAttribute>,
        children: Vec<TemplateNode>,
    },
}

/// How element and attribute names map to a renderer's namespaced names
/// during hot reload. Renderers implement this for their element sets; a
/// name the renderer does not know stays as written, with no namespace.
pub trait HotReloadingContext {
    /// What [`HotReloadingContext::map_element`] returns.
    spec fn map_element_spec(&self, rust_name: Seq<char>) -> Option<(Seq<char>, Option<Seq<char>>)>;

    /// What [`HotReloadingContext::map_attribute`] returns.
    spec fn map_attribute_spec(
        &self,
        element: Seq<char>,
        attribute: Seq<char>,
    ) -> Option<(Seq<char>, Option<Seq<char>>)>;

    /// The renderer's name and namespace for an element, if it knows one.
    fn map_element(&self, rust_name: &String) -> (r: Option<(String, Option<String>)>)
        ensures
            option_name_matches(r, self.map_element_spec(rust_name@)),
    ;

    /// The renderer's name and namespace for an attribute, if it knows one.
    fn map_attribute(&self, element: &String, attribute: &String) -> (r: Option<
        (String, Option<String>),
    >)
        ensures
            option_name_matches(r, self.map_attribute_spec(element@, attribute@)),
    ;
}

/// The executable mapping result views to the same characters as the spec
/// level answer.
pub open spec fn option_name_matches(
    r: Option<(String, Option<String>)>,
    s: Option<(Seq<char>, Option<Seq<char>>)>,
) -> bool {
    match (r, s) {
        (Some((rn, rns)), Some((sn, sns))) => rn@ == sn && match (rns, sns) {
            (Some(a), Some(b)) => a@ == b,
            (None, None) => true,
            _ => false,
        },
        (None, None) => true,
        _ => false,
    }
}

/// A context that knows no renderer names: every element and attribute keeps
/// the name it was written with.
#[derive(Debug)]
pub struct NoMapping;

impl HotReloadingContext for NoMapping {
    open spec fn map_element_spec(&self, rust_name: Seq<char>) -> Option<
        (Seq<char>, Option<Seq<char>>),
    > {
        None
    }

    open spec fn map_attribute_spec(&self, element: Seq<char>, attribute: Seq<char>) -> Option<
        (Seq<char>, Option<Seq<char>>),
    > {
        None
    }

    fn map_element(&self, rust_name: &String) -> (r: Option<(String, Option<String>)>) {
        None
    }

    fn map_attribute(&self, element: &String, attribute: &String) -> (r: Option<
        (String, Option<String>),
    >) {
        None
    }
}

} // verus!
