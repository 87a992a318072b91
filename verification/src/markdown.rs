//! The Markdown side: the document tree of the crate comrak, reached through
//! a handle, and what the rest of the crate reads from it as plain values.

use vstd::prelude::*;

verus! {

/// What the inliner reads of one node of the document tree.
#[derive(Debug, Clone)]
pub struct NodeSummary {
    /// How many nodes lie on the way from the root to this node, both
    /// counted: the root has level 1, its children level 2.
    pub level: usize,
    /// The reference of the node, where the node is an image.
    pub image: Option<String>,
}

/// A `NodeSummary` with its text as a character sequence.
pub struct SummaryView {
    pub level: nat,
    pub image: Option<Seq<char>>,
}

impl View for NodeSummary {
    type V = SummaryView;

    open spec fn view(&self) -> SummaryView {
        SummaryView {
            level: self.level as nat,
            image: match self.image {
                Some(url) => Some(url@),
                None => None,
            },
        }
    }
}

/// The summaries of a document's nodes, in document order, as plain values.
pub open spec fn outline_view(nodes: Seq<NodeSummary>) -> Seq<SummaryView> {
    Seq::new(nodes.len(), |i: int| nodes[i]@)
}

/// What is done to the content of one node before the tree is written out.
#[derive(Debug, Clone)]
pub enum Edit {
    /// The node stays as it was parsed.
    Keep,
    /// The node is an image and gets another reference.
    Retarget { url: String },
    /// The node becomes raw inline markup.
    Splice { markup: String },
}

/// An `Edit` with its text as a character sequence.
pub enum EditView {
    Keep,
    Retarget { url: Seq<char> },
    Splice { markup: Seq<char> },
}

impl View for Edit {
    type V = EditView;

    open spec fn view(&self) -> EditView {
        match self {
            Edit::Keep => EditView::Keep,
            Edit::Retarget { url } => EditView::Retarget { url: url@ },
            Edit::Splice { markup } => EditView::Splice { markup: markup@ },
        }
    }
}

/// The edits of a document's nodes, in document order, as plain values.
pub open spec fn edits_view(edits: Seq<Edit>) -> Seq<EditView> {
    Seq::new(edits.len(), |i: int| edits[i]@)
}

/// What has been done to one node of a tree since it was parsed.
pub struct NodeState {
    /// What was done to its content.
    pub edit: EditView,
    /// Whether it was taken out of the tree, with all below it.
    pub detached: bool,
}

/// The states of `count` nodes to which nothing has been done.
pub open spec fn pristine(count: nat) -> Seq<NodeState> {
    Seq::new(count, |i: int| NodeState { edit: EditView::Keep, detached: false })
}

/// Pipe tables are parsed into table nodes.
pub const TABLES: bool = true;

/// Raw markup in the tree is written out as it is, not escaped.
pub const RAW_MARKUP: bool = true;

#[verifier::external_type_specification]
#[verifier::external_body]
#[verifier::reject_recursive_types(T)]
pub struct ExArena<T>(comrak::Arena<T>);

#[verifier::external_type_specification]
#[verifier::external_body]
#[verifier::reject_recursive_types(T)]
pub struct ExNode<'a, T: 'a>(comrak::arena_tree::Node<'a, T>);

#[verifier::external_type_specification]
#[verifier::external_body]
#[verifier::reject_recursive_types(T)]
pub struct ExRefCell<T: ?Sized>(core::cell::RefCell<T>);

#[verifier::external_type_specification]
#[verifier::external_body]
pub struct ExAst(comrak::nodes::Ast);

/// A parsed document: its nodes in document order, the root first. The
/// nodes live in an arena that the tree borrows.
pub struct SyntaxTree<'a> {
    nodes: Vec<&'a comrak::nodes::AstNode<'a>>,
}

/// The summaries of the nodes of the tree that comrak's `parse_document`
/// builds from `source`, with the table extension on: the nodes in the order
/// of `descendants`, each with the number of its `ancestors` and, for an
/// image, its `url`.
pub uninterp spec fn markdown_outline(source: Seq<char>) -> Seq<SummaryView>;

/// What comrak's `format_html` writes, with raw markup let through and the
/// table extension on, for the tree parsed from `source` after the nodes
/// were changed as `nodes` says: the bytes, or the text of its error.
pub uninterp spec fn rendered_html(source: Seq<char>, nodes: Seq<NodeState>) -> Result<
    Seq<u8>,
    Seq<char>,
>;

/// The text that a tree was parsed from.
pub uninterp spec fn tree_source(tree: SyntaxTree<'_>) -> Seq<char>;

/// What has been done to each node of a tree since it was parsed.
pub uninterp spec fn tree_nodes(tree: SyntaxTree<'_>) -> Seq<NodeState>;

/// `Arena::new` of typed-arena, as comrak hands it on: an empty arena.
#[verifier::external_body]
fn new_arena<'a>() -> comrak::Arena<comrak::nodes::AstNode<'a>> {
    comrak::Arena::new()
}

/// comrak's `parse_document` with the table extension as `tables` says, and
/// `descendants` on the root it returns, which yields the root first. Asked
/// only with the extension on. The tree remembers its source, holds as many
/// nodes as the outline of that source, and nothing has been done to them.
#[verifier::external_body]
fn parse_tree<'a>(
    arena: &'a comrak::Arena<comrak::nodes::AstNode<'a>>,
    source: &str,
    tables: bool,
) -> (tree: SyntaxTree<'a>)
    requires
        tables,
    ensures
        tree_source(tree) == source@,
        tree_nodes(tree) == pristine(markdown_outline(source@).len()),
        tree_nodes(tree).len() > 0,
{
    let mut options = comrak::Options::default();
    options.extension.table = tables;
    SyntaxTree { nodes: comrak::parse_document(arena, source, &options).descendants().collect() }
}

/// For each node of a tree to which nothing has been done: the count of
/// `ancestors` of the node, and the `url` of its value where that is an
/// image. This is the outline of the tree's source.
#[verifier::external_body]
fn summaries<'a>(tree: &SyntaxTree<'a>) -> (outline: Vec<NodeSummary>)
    requires
        tree_nodes(*tree) == pristine(tree_nodes(*tree).len()),
    ensures
        outline_view(outline@) == markdown_outline(tree_source(*tree)),
{
    tree.nodes.iter().map(
        |node|
            NodeSummary {
                level: node.ancestors().count(),
                image: match &node.data.borrow().value {
                    comrak::nodes::NodeValue::Image(link) => Some(link.url.clone()),
                    _ => None,
                },
            },
    ).collect()
}

/// Writes `url` into the `url` field of the image at `at`. Asked only of a
/// node that was parsed as an image and whose content is as parsed.
#[verifier::external_body]
fn retarget<'a>(tree: &mut SyntaxTree<'a>, at: usize, url: &str)
    requires
        at < tree_nodes(*old(tree)).len(),
        at < markdown_outline(tree_source(*old(tree))).len(),
        markdown_outline(tree_source(*old(tree)))[at as int].image is Some,
        tree_nodes(*old(tree))[at as int].edit is Keep,
    ensures
        tree_source(*final(tree)) == tree_source(*old(tree)),
        tree_nodes(*final(tree)) == tree_nodes(*old(tree)).update(
            at as int,
            (NodeState {
                edit: EditView::Retarget { url: url@ },
                detached: tree_nodes(*old(tree))[at as int].detached,
            }),
        ),
{
    if let comrak::nodes::NodeValue::Image(link) = &mut tree.nodes[at].data.borrow_mut().value {
        link.url = url.to_string();
    }
}

/// Replaces the value of the node at `at` by comrak's `HtmlInline` with
/// `markup` as its literal. Asked only of a node that was parsed as an image
/// and whose content is as parsed: an image is an inline node, and so is
/// what takes its place.
#[verifier::external_body]
fn splice<'a>(tree: &mut SyntaxTree<'a>, at: usize, markup: &str)
    requires
        at < tree_nodes(*old(tree)).len(),
        at < markdown_outline(tree_source(*old(tree))).len(),
        markdown_outline(tree_source(*old(tree)))[at as int].image is Some,
        tree_nodes(*old(tree))[at as int].edit is Keep,
    ensures
        tree_source(*final(tree)) == tree_source(*old(tree)),
        tree_nodes(*final(tree)) == tree_nodes(*old(tree)).update(
            at as int,
            (NodeState {
                edit: EditView::Splice { markup: markup@ },
                detached: tree_nodes(*old(tree))[at as int].detached,
            }),
        ),
{
    tree.nodes[at].data.borrow_mut().value = comrak::nodes::NodeValue::HtmlInline(
        markup.to_string(),
    );
}

/// `Node::detach` of comrak's arena tree on the node at `at`: the node
/// leaves its parent and its siblings, and takes along what is below it.
/// Asked only of a node below an image that has become raw markup: what
/// leaves is part of the image's text, never a piece of a block that the
/// formatter expects whole.
#[verifier::external_body]
fn detach<'a>(tree: &mut SyntaxTree<'a>, at: usize)
    requires
        at < tree_nodes(*old(tree)).len(),
        under_splice(
            markdown_outline(tree_source(*old(tree))),
            edits_of(tree_nodes(*old(tree))),
            at as int,
        ),
    ensures
        tree_source(*final(tree)) == tree_source(*old(tree)),
        tree_nodes(*final(tree)) == tree_nodes(*old(tree)).update(
            at as int,
            (NodeState { edit: tree_nodes(*old(tree))[at as int].edit, detached: true }),
        ),
{
    tree.nodes[at].detach();
}

/// comrak's `format_html` on the root of the tree, into an empty vector,
/// with the table extension as `tables` says and raw markup let through as
/// `raw_markup` says. Asked only with both on, and only of a tree in which
/// nothing but images was changed and nothing but the text of images that
/// became raw markup was taken out: the blocks are then as the parser built
/// them, which is what the formatter relies on. An error of the writer
/// comes back as its text.
#[verifier::external_body]
fn format_tree<'a>(tree: &SyntaxTree<'a>, tables: bool, raw_markup: bool) -> (html: Result<
    Vec<u8>,
    String,
>)
    requires
        tree_nodes(*tree).len() > 0,
        states_fit(markdown_outline(tree_source(*tree)), tree_nodes(*tree)),
        tables,
        raw_markup,
    ensures
        match html {
            Ok(bytes) => rendered_html(tree_source(*tree), tree_nodes(*tree)) == Ok::<
                Seq<u8>,
                Seq<char>,
            >(bytes@),
            Err(reason) => rendered_html(tree_source(*tree), tree_nodes(*tree)) == Err::<
                Seq<u8>,
                Seq<char>,
            >(reason@),
        },
{
    let mut options = comrak::Options::default();
    options.extension.table = tables;
    options.render.unsafe_ = raw_markup;
    let mut html = Vec::new();
    match comrak::format_html(tree.nodes[0], &options, &mut html) {
        Ok(()) => Ok(html),
        Err(error) => Err(error.to_string()),
    }
}

/// The indices as mathematical integers.
pub open spec fn indices(list: Seq<usize>) -> Seq<int> {
    Seq::new(list.len(), |j: int| list[j] as int)
}

/// The node at `at` is one of those listed in `scrubbed`.
pub open spec fn is_scrubbed(scrubbed: Seq<int>, at: int) -> bool {
    exists|j: int| 0 <= j < scrubbed.len() && scrubbed[j] == at
}

/// The states of a tree's nodes once each node has had its edit and the
/// nodes listed in `scrubbed` have been taken out.
pub open spec fn node_states(edits: Seq<EditView>, scrubbed: Seq<int>) -> Seq<NodeState> {
    Seq::new(
        edits.len(),
        |i: int| NodeState { edit: edits[i], detached: is_scrubbed(scrubbed, i) },
    )
}

/// The node `at` lies below the node `top`: it follows `top`, and it and
/// every node between the two lie deeper than `top`.
pub open spec fn below(outline: Seq<SummaryView>, top: int, at: int) -> bool {
    &&& 0 <= top < at < outline.len()
    &&& forall|k: int| top < k <= at ==> (#[trigger] outline[k]).level > outline[top].level
}

/// What was done to the content of each node.
pub open spec fn edits_of(nodes: Seq<NodeState>) -> Seq<EditView> {
    Seq::new(nodes.len(), |i: int| nodes[i].edit)
}

/// The node `at` lies below a node that becomes raw markup.
pub open spec fn under_splice(outline: Seq<SummaryView>, edits: Seq<EditView>, at: int) -> bool {
    exists|top: int| #[trigger] below(outline, top, at) && top < edits.len() && edits[top] is Splice
}

/// There is one edit for each node, and only images are changed.
pub open spec fn edits_fit(outline: Seq<SummaryView>, edits: Seq<EditView>) -> bool {
    &&& edits.len() == outline.len()
    &&& forall|i: int|
        0 <= i < edits.len() && !((#[trigger] edits[i]) is Keep) ==> outline[i].image is Some
}

/// Each node that is taken out lies below an image that becomes raw markup.
pub open spec fn scrubs_fit(
    outline: Seq<SummaryView>,
    edits: Seq<EditView>,
    scrubbed: Seq<int>,
) -> bool {
    forall|j: int|
        0 <= j < scrubbed.len() ==> 0 <= (#[trigger] scrubbed[j]) < edits.len() && under_splice(
            outline,
            edits,
            scrubbed[j],
        )
}

/// The states of a tree's nodes are such as a document's images alone
/// bring about: only images were changed, and each node that was taken out
/// lies below an image that became raw markup.
pub open spec fn states_fit(outline: Seq<SummaryView>, nodes: Seq<NodeState>) -> bool {
    &&& edits_fit(outline, edits_of(nodes))
    &&& forall|i: int|
        0 <= i < nodes.len() && (#[trigger] nodes[i]).detached ==> under_splice(
            outline,
            edits_of(nodes),
            i,
        )
}

/// The states that edits and removals which fit the outline lead to fit it
/// too.
pub proof fn lemma_node_states_fit(
    outline: Seq<SummaryView>,
    edits: Seq<EditView>,
    scrubbed: Seq<int>,
)
    requires
        edits_fit(outline, edits),
        scrubs_fit(outline, edits, scrubbed),
    ensures
        edits_of(node_states(edits, scrubbed)) == edits,
        states_fit(outline, node_states(edits, scrubbed)),
{
    let nodes = node_states(edits, scrubbed);
    assert(edits_of(nodes) =~= edits);
    assert forall|i: int| 0 <= i < nodes.len() && (#[trigger] nodes[i]).detached implies under_splice(
        outline,
        edits_of(nodes),
        i,
    ) by {
        let j = choose|j: int| 0 <= j < scrubbed.len() && scrubbed[j] == i;
        assert(under_splice(outline, edits, scrubbed[j]));
    }
}

/// The states while the edits are being applied: the first `done` nodes
/// have theirs.
spec fn states_while_editing(edits: Seq<EditView>, done: int) -> Seq<NodeState> {
    Seq::new(
        edits.len(),
        |i: int|
            NodeState {
                edit: if i < done {
                    edits[i]
                } else {
                    EditView::Keep
                },
                detached: false,
            },
    )
}

/// The document `source` written out as HTML, after each node has had its
/// edit and the nodes listed in `scrubbed` have been taken out of the tree.
/// Only images are changed, and only what lies below an image that becomes
/// raw markup is taken out. All edits are made before the first node
/// leaves, and all nodes leave before anything is written.
pub fn render(source: &str, edits: &Vec<Edit>, scrubbed: &Vec<usize>) -> (html: Result<
    Vec<u8>,
    String,
>)
    requires
        edits_fit(markdown_outline(source@), edits_view(edits@)),
        scrubs_fit(markdown_outline(source@), edits_view(edits@), indices(scrubbed@)),
    ensures
        match html {
            Ok(bytes) => rendered_html(
                source@,
                node_states(edits_view(edits@), indices(scrubbed@)),
            ) == Ok::<Seq<u8>, Seq<char>>(bytes@),
            Err(reason) => rendered_html(
                source@,
                node_states(edits_view(edits@), indices(scrubbed@)),
            ) == Err::<Seq<u8>, Seq<char>>(reason@),
        },
{
    let arena = new_arena();
    let mut tree = parse_tree(&arena, source, TABLES);
    let ghost plan = edits_view(edits@);
    assert(tree_nodes(tree) =~= states_while_editing(plan, 0));
    let mut i: usize = 0;
    while i < edits.len()
        invariant
            i <= edits.len(),
            plan == edits_view(edits@),
            edits_fit(markdown_outline(source@), plan),
            tree_source(tree) == source@,
            tree_nodes(tree) == states_while_editing(plan, i as int),
        decreases edits.len() - i,
    {
        assert(plan[i as int] == edits[i as int]@);
        match &edits[i] {
            Edit::Keep => {},
            Edit::Retarget { url } => {
                retarget(&mut tree, i, url.as_str());
            },
            Edit::Splice { markup } => {
                splice(&mut tree, i, markup.as_str());
            },
        }
        assert(tree_nodes(tree) =~= states_while_editing(plan, i + 1));
        i += 1;
    }
    assert(tree_nodes(tree) =~= node_states(plan, indices(scrubbed@).take(0)));
    let mut j: usize = 0;
    while j < scrubbed.len()
        invariant
            j <= scrubbed.len(),
            scrubs_fit(markdown_outline(source@), plan, indices(scrubbed@)),
            plan.len() == edits.len(),
            tree_source(tree) == source@,
            tree_nodes(tree) == node_states(plan, indices(scrubbed@).take(j as int)),
        decreases scrubbed.len() - j,
    {
        assert(indices(scrubbed@)[j as int] == scrubbed[j as int]);
        assert(edits_of(tree_nodes(tree)) =~= plan);
        detach(&mut tree, scrubbed[j]);
        assert(tree_nodes(tree) =~= node_states(plan, indices(scrubbed@).take(j + 1))) by {
            let before = indices(scrubbed@).take(j as int);
            let after = indices(scrubbed@).take(j + 1);
            assert forall|at: int| is_scrubbed(after, at) <==> (is_scrubbed(before, at) || at
                == scrubbed[j as int]) by {
                if is_scrubbed(after, at) {
                    let w = choose|w: int| 0 <= w < after.len() && after[w] == at;
                    if w < j {
                        assert(before[w] == at);
                    }
                }
                if is_scrubbed(before, at) {
                    let w = choose|w: int| 0 <= w < before.len() && before[w] == at;
                    assert(after[w] == at);
                }
                if at == scrubbed[j as int] {
                    assert(after[j as int] == at);
                }
            }
        }
        j += 1;
    }
    assert(indices(scrubbed@).take(scrubbed.len() as int) == indices(scrubbed@));
    proof {
        lemma_node_states_fit(markdown_outline(source@), plan, indices(scrubbed@));
    }
    format_tree(&tree, TABLES, RAW_MARKUP)
}

/// The summaries of the nodes of the document `source`, in document order.
pub fn outline(source: &str) -> (nodes: Vec<NodeSummary>)
    ensures
        outline_view(nodes@) == markdown_outline(source@),
{
    let arena = new_arena();
    let tree = parse_tree(&arena, source, TABLES);
    summaries(&tree)
}

} // verus!
