//! The HTML side: a parsed document as a tree of plain values, and how the
//! tree of the crate scraper is read into one.

use vstd::prelude::*;

verus! {

/// One attribute of an element, as it was parsed.
#[derive(Debug, Clone)]
pub struct Attribute {
    pub name: String,
    pub value: String,
}

/// A node of a parsed HTML document.
#[derive(Debug)]
pub enum HtmlNode {
    /// The root of a document.
    Document { children: Vec<HtmlNode> },
    /// The root of a fragment.
    Fragment,
    /// A doctype, with the name it declares.
    Doctype { name: String },
    /// A comment.
    Comment,
    /// A run of text.
    Text { text: String },
    /// An element: its tag name, its attributes in the order in which they
    /// were scanned, its children, and the markup of the whole element as
    /// the parser's serializer writes it.
    Element { name: String, attrs: Vec<Attribute>, children: Vec<HtmlNode>, markup: String },
    /// A processing instruction.
    ProcessingInstruction,
}

/// An `HtmlNode` as a mathematical tree.
pub enum HtmlTree {
    Document { children: Seq<HtmlTree> },
    Fragment,
    Doctype { name: Seq<char> },
    Comment,
    Text { text: Seq<char> },
    Element {
        name: Seq<char>,
        attrs: Seq<(Seq<char>, Seq<char>)>,
        children: Seq<HtmlTree>,
        markup: Seq<char>,
    },
    ProcessingInstruction,
}

/// The attributes of an element as pairs of name and value.
pub open spec fn attrs_view(attrs: Seq<Attribute>) -> Seq<(Seq<char>, Seq<char>)> {
    Seq::new(attrs.len(), |i: int| (attrs[i].name@, attrs[i].value@))
}

/// The tree that a node stands for.
pub open spec fn tree_of(node: HtmlNode) -> HtmlTree
    decreases node,
{
    match node {
        HtmlNode::Document { children } => HtmlTree::Document { children: trees_of(children@) },
        HtmlNode::Fragment => HtmlTree::Fragment,
        HtmlNode::Doctype { name } => HtmlTree::Doctype { name: name@ },
        HtmlNode::Comment => HtmlTree::Comment,
        HtmlNode::Text { text } => HtmlTree::Text { text: text@ },
        HtmlNode::Element { name, attrs, children, markup } => HtmlTree::Element {
            name: name@,
            attrs: attrs_view(attrs@),
            children: trees_of(children@),
            markup: markup@,
        },
        HtmlNode::ProcessingInstruction => HtmlTree::ProcessingInstruction,
    }
}

/// The trees that a sequence of nodes stands for.
pub open spec fn trees_of(nodes: Seq<HtmlNode>) -> Seq<HtmlTree>
    decreases nodes,
{
    if nodes.len() == 0 {
        Seq::empty()
    } else {
        trees_of(nodes.drop_last()).push(tree_of(nodes.last()))
    }
}

impl View for HtmlNode {
    type V = HtmlTree;

    open spec fn view(&self) -> HtmlTree {
        tree_of(*self)
    }
}

/// `trees_of` keeps the length and maps node by node.
pub proof fn lemma_trees_of(nodes: Seq<HtmlNode>)
    ensures
        trees_of(nodes).len() == nodes.len(),
        forall|i: int| 0 <= i < nodes.len() ==> trees_of(nodes)[i] == tree_of(nodes[i]),
    decreases nodes.len(),
{
    if nodes.len() > 0 {
        lemma_trees_of(nodes.drop_last());
    }
}

/// The children of a document or an element; no other node has any.
pub open spec fn children_of(tree: HtmlTree) -> Seq<HtmlTree> {
    match tree {
        HtmlTree::Document { children } => children,
        HtmlTree::Element { children, .. } => children,
        _ => Seq::empty(),
    }
}

/// What one node of the parser's tree holds, without what is below it.
#[derive(Debug, Clone)]
pub enum Content {
    Document,
    Fragment,
    Doctype { name: String },
    Comment,
    Text { text: String },
    Element { name: String, attrs: Vec<Attribute> },
    ProcessingInstruction,
}

/// `content` is what the root of `tree` holds.
pub open spec fn describes(content: Content, tree: HtmlTree) -> bool {
    match content {
        Content::Document => tree is Document,
        Content::Fragment => tree is Fragment,
        Content::Doctype { name } => tree == (HtmlTree::Doctype { name: name@ }),
        Content::Comment => tree is Comment,
        Content::Text { text } => tree == (HtmlTree::Text { text: text@ }),
        Content::Element { name, attrs } => {
            &&& tree is Element
            &&& tree->Element_name == name@
            &&& tree->attrs == attrs_view(attrs@)
        },
        Content::ProcessingInstruction => tree is ProcessingInstruction,
    }
}

#[verifier::external_type_specification]
#[verifier::external_body]
pub struct ExHtml(scraper::Html);

#[verifier::external_type_specification]
#[verifier::external_body]
pub struct ExHtmlNode(scraper::Node);

#[verifier::external_type_specification]
#[verifier::external_body]
#[verifier::reject_recursive_types(T)]
pub struct ExNodeRef<'a, T: 'a>(ego_tree::NodeRef<'a, T>);

/// The tree that scraper's `Html::parse_document` builds from `text`, from
/// its root down, in plain values.
pub uninterp spec fn parsed_html(text: Seq<char>) -> HtmlTree;

/// The tree that a parsed document holds, from its root down.
pub uninterp spec fn document_tree(document: scraper::Html) -> HtmlTree;

/// The tree below a node of a parsed document, the node included.
pub uninterp spec fn subtree(node: ego_tree::NodeRef<'_, scraper::Node>) -> HtmlTree;

/// scraper's `Html::parse_document`: it parses any text, and what it builds
/// depends on the text alone.
#[verifier::external_body]
fn parse_document(text: &str) -> (document: scraper::Html)
    ensures
        document_tree(document) == parsed_html(text@),
{
    scraper::Html::parse_document(text)
}

/// `Tree::root` of ego-tree on the tree of a parsed document.
#[verifier::external_body]
fn root_of<'a>(document: &'a scraper::Html) -> (root: ego_tree::NodeRef<'a, scraper::Node>)
    ensures
        subtree(root) == document_tree(*document),
{
    document.tree.root()
}

/// `NodeRef::value` of ego-tree: the variant of the node, with the name of a
/// doctype, the text of a text node, and the local name and the attributes
/// of an element, the attributes in the order in which `attrs` yields them.
#[verifier::external_body]
fn content_of<'a>(node: ego_tree::NodeRef<'a, scraper::Node>) -> (content: Content)
    ensures
        describes(content, subtree(node)),
{
    match node.value() {
        scraper::Node::Document => Content::Document,
        scraper::Node::Fragment => Content::Fragment,
        scraper::Node::Doctype(doctype) => Content::Doctype { name: doctype.name().to_string() },
        scraper::Node::Comment(_) => Content::Comment,
        scraper::Node::Text(text) => Content::Text { text: text.to_string() },
        scraper::Node::ProcessingInstruction(_) => Content::ProcessingInstruction,
        scraper::Node::Element(element) => Content::Element {
            name: element.name().to_string(),
            attrs: element.attrs().map(
                |(name, value)| Attribute { name: name.to_string(), value: value.to_string() },
            ).collect(),
        },
    }
}

/// `NodeRef::children` of ego-tree on a document root or an element: the
/// children in document order.
#[verifier::external_body]
fn nodes_below<'a>(node: ego_tree::NodeRef<'a, scraper::Node>) -> (below: Vec<
    ego_tree::NodeRef<'a, scraper::Node>,
>)
    requires
        subtree(node) is Document || subtree(node) is Element,
    ensures
        below.len() == children_of(subtree(node)).len(),
        forall|i: int|
            0 <= i < below.len() ==> subtree(#[trigger] below[i]) == children_of(subtree(node))[i],
{
    node.children().collect()
}

/// scraper's `ElementRef::html` on an element: the element with all below
/// it, as html5ever's serializer writes it.
#[verifier::external_body]
fn markup_of<'a>(node: ego_tree::NodeRef<'a, scraper::Node>) -> (markup: String)
    requires
        subtree(node) is Element,
    ensures
        markup@ == subtree(node)->markup,
{
    scraper::ElementRef::wrap(node).unwrap().html()
}

/// The tree below `node` in plain values.
fn lift<'a>(node: ego_tree::NodeRef<'a, scraper::Node>) -> (tree: HtmlNode)
    ensures
        tree@ == subtree(node),
    decreases subtree(node),
{
    match content_of(node) {
        Content::Document => {
            let children = lift_below(node);
            HtmlNode::Document { children }
        },
        Content::Fragment => HtmlNode::Fragment,
        Content::Doctype { name } => HtmlNode::Doctype { name },
        Content::Comment => HtmlNode::Comment,
        Content::Text { text } => HtmlNode::Text { text },
        Content::Element { name, attrs } => {
            let markup = markup_of(node);
            let children = lift_below(node);
            HtmlNode::Element { name, attrs, children, markup }
        },
        Content::ProcessingInstruction => HtmlNode::ProcessingInstruction,
    }
}

/// The trees below the children of `node`, in document order.
fn lift_below<'a>(node: ego_tree::NodeRef<'a, scraper::Node>) -> (children: Vec<HtmlNode>)
    requires
        subtree(node) is Document || subtree(node) is Element,
    ensures
        trees_of(children@) == children_of(subtree(node)),
    decreases subtree(node), 0nat,
{
    let below = nodes_below(node);
    let mut children: Vec<HtmlNode> = Vec::new();
    let mut i: usize = 0;
    while i < below.len()
        invariant
            i <= below.len(),
            subtree(node) is Document || subtree(node) is Element,
            below.len() == children_of(subtree(node)).len(),
            forall|k: int|
                0 <= k < below.len() ==> subtree(#[trigger] below[k]) == children_of(
                    subtree(node),
                )[k],
            trees_of(children@) == children_of(subtree(node)).take(i as int),
        decreases below.len() - i,
    {
        assert(subtree(below[i as int]) == children_of(subtree(node))[i as int]);
        let child = lift(below[i]);
        let ghost before = children@;
        children.push(child);
        assert(children@.drop_last() == before);
        assert(trees_of(children@) == children_of(subtree(node)).take(i + 1));
        i += 1;
    }
    assert(children_of(subtree(node)).take(below.len() as int) == children_of(subtree(node)));
    children
}

/// The document that `text` parses to, as a tree of plain values.
pub fn parse_html(text: &str) -> (tree: HtmlNode)
    ensures
        tree@ == parsed_html(text@),
{
    let document = parse_document(text);
    lift(root_of(&document))
}

} // verus!
