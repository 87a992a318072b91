//! The normalizing pass over parsed HTML: white space in text is collapsed,
//! comments are dropped, and the elements whose content is sensitive to
//! white space are written out untouched.

use crate::error::{ConvertError, ErrorView};
use crate::html::{
    attrs_view, lemma_trees_of, parse_html, parsed_html, trees_of, Attribute, HtmlNode, HtmlTree,
};
use crate::text::reads;
use vstd::prelude::*;
use vstd::string::StringExecFns;

verus! {

/// A white space character: the space, the tab and the line feed. No other
/// character counts, the carriage return and the no-break space neither.
pub open spec fn is_space(c: char) -> bool {
    c == ' ' || c == '\t' || c == '\n'
}

/// `text` with every maximal run of white space replaced by one space: a
/// white space character gives a space where it opens a run and nothing
/// where it continues one, and every other character stays.
pub open spec fn collapsed(text: Seq<char>) -> Seq<char>
    decreases text.len(),
{
    if text.len() == 0 {
        text
    } else if !is_space(text.last()) {
        collapsed(text.drop_last()).push(text.last())
    } else if text.len() >= 2 && is_space(text[text.len() - 2]) {
        collapsed(text.drop_last())
    } else {
        collapsed(text.drop_last()).push(' ')
    }
}

/// Collapsed text ends as the text does: in a space where the text ends in
/// white space, and in the last character of the text where it does not.
pub proof fn lemma_collapsed_last(text: Seq<char>)
    requires
        text.len() > 0,
    ensures
        collapsed(text).len() > 0,
        is_space(text.last()) ==> collapsed(text).last() == ' ',
        !is_space(text.last()) ==> collapsed(text).last() == text.last(),
    decreases text.len(),
{
    if is_space(text.last()) && text.len() >= 2 && is_space(text[text.len() - 2]) {
        lemma_collapsed_last(text.drop_last());
    }
}

/// Collapsing is idempotent: text that was collapsed stays as it is when it
/// is collapsed again.
pub proof fn law_collapse_is_idempotent(text: Seq<char>)
    ensures
        collapsed(collapsed(text)) == collapsed(text),
    decreases text.len(),
{
    if text.len() > 0 {
        let front = text.drop_last();
        let once = collapsed(front);
        law_collapse_is_idempotent(front);
        if front.len() > 0 {
            lemma_collapsed_last(front);
        }
        if !is_space(text.last()) {
            assert(once.push(text.last()).drop_last() == once);
        } else if text.len() >= 2 && is_space(text[text.len() - 2]) {
        } else {
            assert(is_space(' '));
            assert(once.push(' ').drop_last() == once);
            if once.len() > 0 {
                assert(once.push(' ')[once.len() as int - 1] == once.last());
            }
        }
    }
}

/// Text whose only white space is single spaces stays as it is: a space
/// with no white space behind it is a run of its own, and all else is kept.
pub proof fn law_single_spaces_are_kept(text: Seq<char>)
    requires
        forall|i: int|
            0 <= i < text.len() && is_space(#[trigger] text[i]) ==> text[i] == ' ' && (i + 1
                < text.len() ==> !is_space(text[i + 1])),
    ensures
        collapsed(text) == text,
    decreases text.len(),
{
    if text.len() > 0 {
        let front = text.drop_last();
        assert forall|i: int| 0 <= i < front.len() && is_space(#[trigger] front[i]) implies front[i]
            == ' ' && (i + 1 < front.len() ==> !is_space(front[i + 1])) by {
            assert(front[i] == text[i]);
        }
        law_single_spaces_are_kept(front);
        if text.len() >= 2 && is_space(text[text.len() - 2]) {
            assert(!is_space(text[text.len() - 2 + 1]));
        }
        assert(front.push(text.last()) =~= text);
    }
}

/// The elements that are written out as they were parsed.
pub open spec fn is_verbatim(name: Seq<char>) -> bool {
    name == "pre"@ || name == "code"@ || name == "textarea"@ || name == "svg"@
}

/// The attributes of an opening tag: each as a space, the name, `="`, the
/// value and `"`, in the order given.
pub open spec fn attrs_text(attrs: Seq<(Seq<char>, Seq<char>)>) -> Seq<char>
    decreases attrs.len(),
{
    if attrs.len() == 0 {
        Seq::empty()
    } else {
        attrs_text(attrs.drop_last()) + " "@ + attrs.last().0 + "=\""@ + attrs.last().1 + "\""@
    }
}

/// The normalized text of a tree, or `None` where the tree holds a fragment
/// or a processing instruction outside the elements that are written out as
/// they were parsed.
pub open spec fn normalized(tree: HtmlTree) -> Option<Seq<char>>
    decreases tree,
{
    match tree {
        HtmlTree::Document { children } => normalized_each(children),
        HtmlTree::Fragment => None,
        HtmlTree::ProcessingInstruction => None,
        HtmlTree::Doctype { name } => Some("<!doctype "@ + name + ">"@),
        HtmlTree::Comment => Some(Seq::empty()),
        HtmlTree::Text { text } => Some(collapsed(text)),
        HtmlTree::Element { name, attrs, children, markup } => if is_verbatim(name) {
            Some(markup)
        } else {
            match normalized_each(children) {
                Some(inner) => Some(
                    "<"@ + name + attrs_text(attrs) + ">"@ + inner + "</"@ + name + ">"@,
                ),
                None => None,
            }
        },
    }
}

/// The normalized texts of the trees, one after the other, or `None` where
/// one of them has none.
pub open spec fn normalized_each(trees: Seq<HtmlTree>) -> Option<Seq<char>>
    decreases trees,
{
    if trees.len() == 0 {
        Some(Seq::empty())
    } else {
        match (normalized_each(trees.drop_last()), normalized(trees.last())) {
            (Some(front), Some(back)) => Some(front + back),
            _ => None,
        }
    }
}

/// Where the first `k` trees have no normalized text, all of them have none.
pub proof fn lemma_normalized_each_none(trees: Seq<HtmlTree>, k: int)
    requires
        0 <= k <= trees.len(),
        normalized_each(trees.take(k)) is None,
    ensures
        normalized_each(trees) is None,
    decreases trees.len() - k,
{
    if k == trees.len() {
        assert(trees.take(k) == trees);
    } else {
        assert(trees.take(k + 1).drop_last() == trees.take(k));
        lemma_normalized_each_none(trees, k + 1);
    }
}

/// The tree as the normalizing pass sees it: text collapsed, comments gone,
/// and of each element only what the pass reads, the markup of an element
/// that is written out as parsed and the children of any other.
pub open spec fn settled(tree: HtmlTree) -> HtmlTree
    decreases tree,
{
    match tree {
        HtmlTree::Document { children } => HtmlTree::Document { children: settled_each(children) },
        HtmlTree::Text { text } => HtmlTree::Text { text: collapsed(text) },
        HtmlTree::Element { name, attrs, children, markup } => if is_verbatim(name) {
            HtmlTree::Element { name, attrs, children: Seq::empty(), markup }
        } else {
            HtmlTree::Element {
                name,
                attrs,
                children: settled_each(children),
                markup: Seq::empty(),
            }
        },
        other => other,
    }
}

/// The trees as the normalizing pass sees them, without the comments.
pub open spec fn settled_each(trees: Seq<HtmlTree>) -> Seq<HtmlTree>
    decreases trees,
{
    if trees.len() == 0 {
        Seq::empty()
    } else if trees.last() is Comment {
        settled_each(trees.drop_last())
    } else {
        settled_each(trees.drop_last()).push(settled(trees.last()))
    }
}

/// The normalized text depends on the settled tree alone.
pub proof fn law_settled_normalizes_alike(tree: HtmlTree)
    ensures
        normalized(settled(tree)) == normalized(tree),
    decreases tree, 1nat,
{
    match tree {
        HtmlTree::Document { children } => {
            lemma_settled_each_normalizes_alike(children);
        },
        HtmlTree::Text { text } => {
            law_collapse_is_idempotent(text);
        },
        HtmlTree::Element { name, attrs, children, markup } => {
            if !is_verbatim(name) {
                lemma_settled_each_normalizes_alike(children);
            }
        },
        _ => {},
    }
}

/// The normalized text of a sequence of trees depends on the settled trees
/// alone.
pub proof fn lemma_settled_each_normalizes_alike(trees: Seq<HtmlTree>)
    ensures
        normalized_each(settled_each(trees)) == normalized_each(trees),
    decreases trees, 0nat,
{
    if trees.len() > 0 {
        let front = trees.drop_last();
        lemma_settled_each_normalizes_alike(front);
        if trees.last() is Comment {
            match normalized_each(front) {
                Some(text) => {
                    assert(text + Seq::<char>::empty() =~= text);
                },
                None => {},
            }
        } else {
            law_settled_normalizes_alike(trees.last());
            let both = settled_each(front).push(settled(trees.last()));
            assert(both.drop_last() == settled_each(front));
            assert(both.last() == settled(trees.last()));
            assert(normalized_each(both) == normalized_each(trees));
        }
    } else {
        assert(trees =~= Seq::empty());
    }
}

/// Settling is idempotent: a settled tree is its own settled tree.
pub proof fn law_settled_is_idempotent(tree: HtmlTree)
    ensures
        settled(settled(tree)) == settled(tree),
    decreases tree, 1nat,
{
    match tree {
        HtmlTree::Document { children } => {
            lemma_settled_each_is_idempotent(children);
        },
        HtmlTree::Text { text } => {
            law_collapse_is_idempotent(text);
        },
        HtmlTree::Element { name, attrs, children, markup } => {
            if !is_verbatim(name) {
                lemma_settled_each_is_idempotent(children);
            } else {
                assert(settled_each(Seq::<HtmlTree>::empty()) =~= Seq::<HtmlTree>::empty());
            }
        },
        _ => {},
    }
}

/// Settling a sequence of trees is idempotent.
pub proof fn lemma_settled_each_is_idempotent(trees: Seq<HtmlTree>)
    ensures
        settled_each(settled_each(trees)) == settled_each(trees),
    decreases trees, 0nat,
{
    if trees.len() > 0 {
        let front = trees.drop_last();
        lemma_settled_each_is_idempotent(front);
        if !(trees.last() is Comment) {
            law_settled_is_idempotent(trees.last());
            let both = settled_each(front).push(settled(trees.last()));
            assert(both.drop_last() == settled_each(front));
            assert(both.last() == settled(trees.last()));
            assert(!(settled(trees.last()) is Comment));
        }
    }
}

/// Normalizing is idempotent on every document whose normalized text parses
/// back to the tree that the pass saw: normalized once more, that text comes
/// out as it is.
pub proof fn law_normalize_is_idempotent(html: Seq<char>, once: Seq<char>)
    requires
        normalized(parsed_html(html)) == Some(once),
        settled(parsed_html(once)) == settled(parsed_html(html)),
    ensures
        normalized(parsed_html(once)) == Some(once),
{
    law_settled_normalizes_alike(parsed_html(once));
    law_settled_normalizes_alike(parsed_html(html));
}

/// The pattern of a run of white space.
pub open spec fn space_pattern() -> Seq<char> {
    "[ \\t\\n]+"@
}

/// `Regex::replace_all` of the crate regex, asked only with the pattern
/// `[ \t\n]+` and a single space as the replacement. The class holds the
/// space, the tab and the line feed, `+` takes as many as there are, and
/// every match is replaced: so each maximal run of these becomes one space
/// and all else stays.
#[verifier::external_body]
fn replace_all(pattern: &str, text: &str, replacement: &str) -> (replaced: String)
    requires
        pattern@ == space_pattern(),
        replacement@ == " "@,
    ensures
        replaced@ == collapsed(text@),
{
    regex::Regex::new(pattern).unwrap().replace_all(text, replacement).into_owned()
}

/// `text` with every run of white space replaced by one space.
pub fn normalize_whitespace(text: &str) -> (normal: String)
    ensures
        normal@ == collapsed(text@),
{
    replace_all("[ \\t\\n]+", text, " ")
}

/// Whether an element with this tag name is written out as it was parsed.
pub fn verbatim_tag(name: &String) -> (verbatim: bool)
    ensures
        verbatim == is_verbatim(name@),
{
    reads(name, "pre") || reads(name, "code") || reads(name, "textarea") || reads(name, "svg")
}

/// Appends the attributes of an opening tag to `out`.
fn push_attrs(attrs: &Vec<Attribute>, out: &mut String)
    ensures
        final(out)@ == old(out)@ + attrs_text(attrs_view(attrs@)),
{
    let ghost pairs = attrs_view(attrs@);
    let mut i: usize = 0;
    while i < attrs.len()
        invariant
            i <= attrs.len(),
            pairs == attrs_view(attrs@),
            out@ == old(out)@ + attrs_text(pairs.take(i as int)),
        decreases attrs.len() - i,
    {
        out.append(" ");
        out.append(attrs[i].name.as_str());
        out.append("=\"");
        out.append(attrs[i].value.as_str());
        out.append("\"");
        assert(pairs.take(i + 1).drop_last() == pairs.take(i as int));
        assert(pairs.take(i + 1).last() == (attrs[i as int].name@, attrs[i as int].value@));
        i += 1;
    }
    assert(pairs.take(attrs.len() as int) == pairs);
}

/// Whether each of `nodes` can be normalized.
fn supported_each(nodes: &Vec<HtmlNode>) -> (all: bool)
    ensures
        all == normalized_each(trees_of(nodes@)) is Some,
    decreases nodes, 0nat,
{
    let ghost trees = trees_of(nodes@);
    proof {
        lemma_trees_of(nodes@);
    }
    let mut i: usize = 0;
    while i < nodes.len()
        invariant
            i <= nodes.len(),
            trees == trees_of(nodes@),
            trees.len() == nodes.len(),
            forall|k: int| 0 <= k < nodes.len() ==> trees[k] == nodes[k]@,
            normalized_each(trees.take(i as int)) is Some,
        decreases nodes.len() - i,
    {
        assert(trees.take(i + 1).drop_last() == trees.take(i as int));
        assert(trees.take(i + 1).last() == nodes[i as int]@);
        if !supported(&nodes[i]) {
            proof {
                lemma_normalized_each_none(trees, i + 1);
            }
            return false;
        }
        i += 1;
    }
    assert(trees.take(nodes.len() as int) == trees);
    true
}

/// Whether the tree can be normalized: it holds no fragment and no
/// processing instruction outside the elements that are written out as
/// they were parsed.
pub fn supported(node: &HtmlNode) -> (ok: bool)
    ensures
        ok == normalized(node@) is Some,
    decreases node, 1nat,
{
    match node {
        HtmlNode::Document { children } => supported_each(children),
        HtmlNode::Fragment => false,
        HtmlNode::ProcessingInstruction => false,
        HtmlNode::Doctype { .. } => true,
        HtmlNode::Comment => true,
        HtmlNode::Text { .. } => true,
        HtmlNode::Element { name, children, .. } => verbatim_tag(name) || supported_each(children),
    }
}

/// Appends the normalized text of each of `nodes` to `out`, in order.
fn recurse_each(nodes: &Vec<HtmlNode>, out: &mut String)
    requires
        normalized_each(trees_of(nodes@)) is Some,
    ensures
        final(out)@ == old(out)@ + normalized_each(trees_of(nodes@))->0,
    decreases nodes, 0nat,
{
    let ghost trees = trees_of(nodes@);
    proof {
        lemma_trees_of(nodes@);
    }
    let mut i: usize = 0;
    while i < nodes.len()
        invariant
            i <= nodes.len(),
            trees == trees_of(nodes@),
            trees.len() == nodes.len(),
            normalized_each(trees) is Some,
            forall|k: int| 0 <= k < nodes.len() ==> trees[k] == nodes[k]@,
            normalized_each(trees.take(i as int)) matches Some(text) && out@ == old(out)@ + text,
        decreases nodes.len() - i,
    {
        assert(trees.take(i + 1).drop_last() == trees.take(i as int));
        assert(trees.take(i + 1).last() == nodes[i as int]@);
        proof {
            if normalized_each(trees.take(i + 1)) is None {
                lemma_normalized_each_none(trees, i + 1);
            }
        }
        recurse(&nodes[i], out);
        i += 1;
    }
    assert(trees.take(nodes.len() as int) == trees);
}

/// Appends the normalized text of `node` to `out`. A doctype gives
/// `<!doctype NAME>`, a comment nothing, text its text with white space
/// collapsed, a document what its children give. An element named `pre`,
/// `code`, `textarea` or `svg` gives its markup as it was parsed; any other
/// gives its opening tag with the attributes in their order, what its
/// children give, and its closing tag. A fragment and a processing
/// instruction have no normalized text: a tree that holds one where it
/// would be written is not to be handed in.
pub fn recurse(node: &HtmlNode, out: &mut String)
    requires
        normalized(node@) is Some,
    ensures
        final(out)@ == old(out)@ + normalized(node@)->0,
    decreases node, 1nat,
{
    match node {
        HtmlNode::Document { children } => {
            recurse_each(children, out);
        },
        HtmlNode::Fragment => {},
        HtmlNode::ProcessingInstruction => {},
        HtmlNode::Doctype { name } => {
            out.append("<!doctype ");
            out.append(name.as_str());
            out.append(">");
        },
        HtmlNode::Comment => {
            assert(out@ + Seq::<char>::empty() == out@);
        },
        HtmlNode::Text { text } => {
            let normal = normalize_whitespace(text.as_str());
            out.append(normal.as_str());
        },
        HtmlNode::Element { name, attrs, children, markup } => {
            if verbatim_tag(name) {
                out.append(markup.as_str());
            } else {
                out.append("<");
                out.append(name.as_str());
                push_attrs(attrs, out);
                out.append(">");
                recurse_each(children, out);
                out.append("</");
                out.append(name.as_str());
                out.append(">");
            }
        },
    }
}

/// The normalized text of a parsed document. The tree is looked through
/// first: one that holds a fragment or a processing instruction where it
/// would be written is refused, and nothing is written.
pub fn normalize(tree: &HtmlNode) -> (html: Result<String, ConvertError>)
    ensures
        match normalized(tree@) {
            Some(text) => html matches Ok(out) && out@ == text,
            None => html matches Err(error) && error@ == ErrorView::UnsupportedNode,
        },
{
    if !supported(tree) {
        return Err(ConvertError::UnsupportedNode);
    }
    let mut out = String::new();
    recurse(tree, &mut out);
    assert(Seq::<char>::empty() + normalized(tree@)->0 == normalized(tree@)->0);
    Ok(out)
}

/// `text` parsed as an HTML document and written out normalized.
pub fn normalize_html(text: &str) -> (html: Result<String, ConvertError>)
    ensures
        match normalized(parsed_html(text@)) {
            Some(normal) => html matches Ok(out) && out@ == normal,
            None => html matches Err(error) && error@ == ErrorView::UnsupportedNode,
        },
{
    let tree = parse_html(text);
    normalize(&tree)
}

} // verus!
