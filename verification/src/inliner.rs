//! The conversion of one document, as a machine that alternates with its
//! driver: the machine says which file it needs, the driver reads it and
//! hands the answer back, until the machine has the HTML or a failure.
//!
//! The images are taken in document order, one file at a time. What is to be
//! done to the tree is collected while the nodes are walked, and the tree is
//! changed only when the walk has ended.

use crate::error::{ConvertError, ErrorView};
use crate::html::parsed_html;
use crate::markdown::{
    below, edits_fit, edits_view, indices, markdown_outline, node_states, outline, outline_view,
    render, rendered_html, scrubs_fit, under_splice, Edit, EditView, NodeSummary, SummaryView,
};
use crate::normalize::{normalize_html, normalized};
use crate::reference::{classified, classify, Target, TargetView};
use crate::text::{
    chars_of, find, first_occurrence, lemma_first_occurrence_from, starts_with, string_of,
};
use vstd::prelude::*;
use vstd::string::StringExecFns;
use vstd::utf8::{decode_utf8, valid_utf8};

verus! {

/// How a file is to be read.
#[derive(Debug, Clone, Copy, PartialEq, Eq)]
pub enum ReadKind {
    /// As text.
    Text,
    /// As bytes, handed back in base64.
    Base64,
}

/// A file that the machine needs before it can go on.
#[derive(Debug, Clone)]
pub struct Request {
    pub kind: ReadKind,
    pub path: String,
}

/// A `Request` with its path as a character sequence.
pub struct RequestView {
    pub kind: ReadKind,
    pub path: Seq<char>,
}

impl View for Request {
    type V = RequestView;

    open spec fn view(&self) -> RequestView {
        RequestView { kind: self.kind, path: self.path@ }
    }
}

/// What the machine is waiting for.
pub enum WaitingView {
    /// The document itself.
    Source,
    /// The bytes of the raster image at the cursor.
    Raster { path: Seq<char>, mime: Seq<char> },
    /// The text of the SVG image at the cursor.
    Svg { path: Seq<char> },
}

/// The state of a conversion in plain values.
pub struct ConversionView {
    /// The path of the document.
    pub file: Seq<char>,
    /// The text of the document, once it was read.
    pub source: Seq<char>,
    /// The nodes of the document, in document order.
    pub outline: Seq<SummaryView>,
    /// What is to be done to each node.
    pub edits: Seq<EditView>,
    /// The nodes that are to leave the tree when the walk has ended.
    pub scrubbed: Seq<int>,
    /// The node that the walk has reached.
    pub cursor: int,
    /// What the machine is waiting for.
    pub waiting: WaitingView,
}

/// The answer of the driver to a request: the content of the file, or why it
/// could not be read.
pub open spec fn reply_view(reply: Result<String, String>) -> Result<Seq<char>, Seq<char>> {
    match reply {
        Ok(contents) => Ok(contents@),
        Err(reason) => Err(reason@),
    }
}

/// How a conversion ended, in plain values.
pub open spec fn outcome_view(outcome: Result<String, ConvertError>) -> Result<
    Seq<char>,
    ErrorView,
> {
    match outcome {
        Ok(html) => Ok(html@),
        Err(error) => Err(error@),
    }
}

/// Where a conversion stands after a step, in plain values.
pub enum ProgressView {
    Pending { conversion: ConversionView, request: RequestView },
    Finished { outcome: Result<Seq<char>, ErrorView> },
}

/// The data URI that embeds `contents`, given in base64, with the media type
/// `mime`.
pub open spec fn data_uri(mime: Seq<char>, contents: Seq<char>) -> Seq<char> {
    "data:"@ + mime + ";base64,"@ + contents
}

/// The markup that is inlined for an SVG file: the file from its first
/// `<svg` on, without what stands before. A file without `<svg` has none.
pub open spec fn inline_markup(contents: Seq<char>) -> Option<Seq<char>> {
    match first_occurrence(contents, "<svg"@) {
        Some(at) => Some(contents.skip(at)),
        None => None,
    }
}

/// The children of the node `at` among the nodes from `from` on, in document
/// order. The nodes below `at` follow it and lie deeper; its children lie
/// one level deeper.
pub open spec fn children_from(outline: Seq<SummaryView>, at: int, from: int) -> Seq<int>
    decreases outline.len() - from,
{
    if from < 0 || at < 0 || at >= outline.len() || from >= outline.len() || outline[from].level
        <= outline[at].level {
        Seq::empty()
    } else if outline[from].level == outline[at].level + 1 {
        seq![from] + children_from(outline, at, from + 1)
    } else {
        children_from(outline, at, from + 1)
    }
}

/// The children of the node `at`, in document order.
pub open spec fn children_indices(outline: Seq<SummaryView>, at: int) -> Seq<int> {
    children_from(outline, at, at + 1)
}

/// The edits of a document to which nothing is to be done.
pub open spec fn no_edits(count: nat) -> Seq<EditView> {
    Seq::new(count, |i: int| EditView::Keep)
}

/// The state in which a conversion starts: it waits for the document.
pub open spec fn initial(file: Seq<char>) -> ConversionView {
    ConversionView {
        file,
        source: Seq::empty(),
        outline: Seq::empty(),
        edits: Seq::empty(),
        scrubbed: Seq::empty(),
        cursor: 0,
        waiting: WaitingView::Source,
    }
}

/// The state once the answer to the outstanding request is taken in, or the
/// failure that the answer brings. The document is parsed. A raster image
/// gets its data URI. An SVG image becomes the markup of its file, and its
/// children, the alternative text, are marked to leave the tree. A file that
/// could not be read, and an SVG file without `<svg`, end the conversion.
pub open spec fn absorbed(v: ConversionView, reply: Result<Seq<char>, Seq<char>>) -> Result<
    ConversionView,
    ErrorView,
> {
    match v.waiting {
        WaitingView::Source => match reply {
            Err(reason) => Err(ErrorView::FileAccess { path: v.file, reason }),
            Ok(text) => Ok(
                ConversionView {
                    source: text,
                    outline: markdown_outline(text),
                    edits: no_edits(markdown_outline(text).len()),
                    scrubbed: Seq::empty(),
                    cursor: 0,
                    ..v
                },
            ),
        },
        WaitingView::Raster { path, mime } => match reply {
            Err(reason) => Err(ErrorView::FileAccess { path, reason }),
            Ok(contents) => Ok(
                ConversionView {
                    edits: v.edits.update(
                        v.cursor,
                        EditView::Retarget { url: data_uri(mime, contents) },
                    ),
                    cursor: v.cursor + 1,
                    waiting: WaitingView::Source,
                    ..v
                },
            ),
        },
        WaitingView::Svg { path } => match reply {
            Err(reason) => Err(ErrorView::FileAccess { path, reason }),
            Ok(contents) => match inline_markup(contents) {
                None => Err(ErrorView::MalformedSvg),
                Some(markup) => Ok(
                    ConversionView {
                        edits: v.edits.update(v.cursor, EditView::Splice { markup }),
                        scrubbed: v.scrubbed + children_indices(v.outline, v.cursor),
                        cursor: v.cursor + 1,
                        waiting: WaitingView::Source,
                        ..v
                    },
                ),
            },
        },
    }
}

/// How a conversion ends when the walk has passed the last node: the tree is
/// written out with the edits made and the marked nodes gone, the bytes are
/// read as UTF-8, and the HTML is parsed again and normalized.
pub open spec fn finished(v: ConversionView) -> Result<Seq<char>, ErrorView> {
    match rendered_html(v.source, node_states(v.edits, v.scrubbed)) {
        Err(reason) => Err(ErrorView::Rendering { reason }),
        Ok(bytes) => if !valid_utf8(bytes) {
            Err(ErrorView::Encoding)
        } else {
            match normalized(parsed_html(decode_utf8(bytes))) {
                Some(html) => Ok(html),
                None => Err(ErrorView::UnsupportedNode),
            }
        },
    }
}

/// The walk from the cursor on. A node that is no image, and an image behind
/// a protocol, are passed. An image that needs a file stops the walk with
/// the request for it. A reference that is refused ends the conversion. Past
/// the last node the conversion ends as `finished` says.
pub open spec fn scanned(v: ConversionView) -> ProgressView
    decreases v.outline.len() - v.cursor,
{
    if v.cursor < 0 || v.cursor >= v.outline.len() {
        ProgressView::Finished { outcome: finished(v) }
    } else {
        match v.outline[v.cursor].image {
            None => scanned(ConversionView { cursor: v.cursor + 1, ..v }),
            Some(url) => match classified(v.file, url) {
                Ok(TargetView::External) => scanned(ConversionView { cursor: v.cursor + 1, ..v }),
                Ok(TargetView::Raster { path, mime }) => ProgressView::Pending {
                    conversion: ConversionView { waiting: WaitingView::Raster { path, mime }, ..v },
                    request: RequestView { kind: ReadKind::Base64, path },
                },
                Ok(TargetView::Svg { path }) => ProgressView::Pending {
                    conversion: ConversionView { waiting: WaitingView::Svg { path }, ..v },
                    request: RequestView { kind: ReadKind::Text, path },
                },
                Err(error) => ProgressView::Finished { outcome: Err(error) },
            },
        }
    }
}

/// Where a conversion stands once the answer to its request is handed in.
pub open spec fn resumed(v: ConversionView, reply: Result<Seq<char>, Seq<char>>) -> ProgressView {
    match absorbed(v, reply) {
        Err(error) => ProgressView::Finished { outcome: Err(error) },
        Ok(next) => scanned(next),
    }
}

/// What holds of the node `at` once the walk has passed it: a node that is
/// no image, and an image behind a protocol, are as they were parsed; a
/// raster image has a data URI of its media type; an SVG image has become
/// markup that starts with `<svg`; and no reference was refused.
pub open spec fn inlined_at(
    file: Seq<char>,
    outline: Seq<SummaryView>,
    edits: Seq<EditView>,
    at: int,
) -> bool {
    match outline[at].image {
        None => edits[at] is Keep,
        Some(url) => match classified(file, url) {
            Ok(TargetView::External) => edits[at] is Keep,
            Ok(TargetView::Raster { path, mime }) => {
                &&& edits[at] matches EditView::Retarget { url }
                &&& starts_with(url, "data:"@ + mime + ";base64,"@)
            },
            Ok(TargetView::Svg { path }) => {
                &&& edits[at] matches EditView::Splice { markup }
                &&& starts_with(markup, "<svg"@)
            },
            Err(_) => false,
        },
    }
}

/// A data URI begins with `data:`, its media type and `;base64,`.
pub proof fn lemma_data_uri(mime: Seq<char>, contents: Seq<char>)
    ensures
        starts_with(data_uri(mime, contents), "data:"@ + mime + ";base64,"@),
{
    let prefix = "data:"@ + mime + ";base64,"@;
    assert(data_uri(mime, contents).subrange(0, prefix.len() as int) =~= prefix);
}

/// The markup that is inlined for an SVG file begins with `<svg`.
pub proof fn lemma_inline_markup(contents: Seq<char>)
    ensures
        inline_markup(contents) matches Some(markup) ==> starts_with(markup, "<svg"@),
{
    lemma_first_occurrence_from(contents, "<svg"@, 0);
    match first_occurrence(contents, "<svg"@) {
        Some(at) => {
            let tag = "<svg"@;
            assert(contents.skip(at).subrange(0, tag.len() as int) =~= contents.subrange(
                at,
                at + tag.len(),
            ));
        },
        None => {},
    }
}

/// The state of a conversion is sound: once the document is read, the
/// outline is that of its text, each node has an edit, the nodes that the
/// walk has passed are inlined and those it has not reached are untouched,
/// each node that is marked to leave the tree lies below an image that
/// has become markup, and what the machine waits for belongs to the image
/// at the cursor.
pub open spec fn sound(v: ConversionView) -> bool {
    v.waiting is Source || {
        &&& v.outline == markdown_outline(v.source)
        &&& v.edits.len() == v.outline.len()
        &&& 0 <= v.cursor < v.outline.len()
        &&& forall|i: int| 0 <= i < v.cursor ==> inlined_at(v.file, v.outline, v.edits, i)
        &&& forall|i: int| v.cursor <= i < v.edits.len() ==> (#[trigger] v.edits[i]) is Keep
        &&& scrubs_fit(v.outline, v.edits, v.scrubbed)
        &&& v.outline[v.cursor].image is Some
        &&& match v.waiting {
            WaitingView::Source => true,
            WaitingView::Raster { path, mime } => classified(
                v.file,
                v.outline[v.cursor].image->0,
            ) == Ok::<TargetView, ErrorView>(TargetView::Raster { path, mime }),
            WaitingView::Svg { path } => classified(v.file, v.outline[v.cursor].image->0) == Ok::<
                TargetView,
                ErrorView,
            >(TargetView::Svg { path }),
        }
    }
}

/// The state between two requests: as `sound`, but the cursor may stand
/// behind the last node and nothing is waited for.
pub open spec fn walking(v: ConversionView) -> bool {
    &&& v.outline == markdown_outline(v.source)
    &&& v.edits.len() == v.outline.len()
    &&& 0 <= v.cursor <= v.outline.len()
    &&& forall|i: int| 0 <= i < v.cursor ==> inlined_at(v.file, v.outline, v.edits, i)
    &&& forall|i: int| v.cursor <= i < v.edits.len() ==> (#[trigger] v.edits[i]) is Keep
    &&& scrubs_fit(v.outline, v.edits, v.scrubbed)
}

/// An edit at the cursor leaves the nodes before it inlined, and every
/// marked node below an image that has become markup: the node at the cursor
/// was untouched.
pub proof fn lemma_edit_at_cursor(v: ConversionView, edits: Seq<EditView>)
    requires
        sound(v),
        !(v.waiting is Source),
        edits.len() == v.edits.len(),
        forall|i: int| 0 <= i < edits.len() && i != v.cursor ==> edits[i] == v.edits[i],
    ensures
        scrubs_fit(v.outline, edits, v.scrubbed),
        forall|i: int| 0 <= i < v.cursor ==> inlined_at(v.file, v.outline, edits, i),
{
    assert forall|i: int| 0 <= i < v.cursor implies inlined_at(v.file, v.outline, edits, i) by {
        assert(inlined_at(v.file, v.outline, v.edits, i));
    }
    assert forall|j: int| 0 <= j < v.scrubbed.len() implies 0 <= (#[trigger] v.scrubbed[j])
        < edits.len() && under_splice(v.outline, edits, v.scrubbed[j]) by {
        let at = v.scrubbed[j];
        assert(under_splice(v.outline, v.edits, at));
        let top = choose|top: int| #[trigger]
            below(v.outline, top, at) && top < v.edits.len() && v.edits[top] is Splice;
        assert(below(v.outline, top, at) && top < edits.len() && edits[top] is Splice);
    }
}

/// Taking in an answer keeps the state in order: from a sound state, what
/// `absorbed` gives is a state in which the walk can go on.
pub proof fn lemma_absorbed(v: ConversionView, reply: Result<Seq<char>, Seq<char>>)
    requires
        sound(v),
    ensures
        absorbed(v, reply) matches Ok(next) ==> walking(next),
{
    match absorbed(v, reply) {
        Ok(next) => {
            match v.waiting {
                WaitingView::Source => {},
                WaitingView::Raster { path, mime } => {
                    lemma_data_uri(mime, reply->Ok_0);
                    lemma_edit_at_cursor(v, next.edits);
                    assert(inlined_at(next.file, next.outline, next.edits, v.cursor));
                },
                WaitingView::Svg { path } => {
                    lemma_inline_markup(reply->Ok_0);
                    lemma_edit_at_cursor(v, next.edits);
                    assert(inlined_at(next.file, next.outline, next.edits, v.cursor));
                    lemma_children_from(v.outline, v.cursor, v.cursor + 1);
                    let children = children_indices(v.outline, v.cursor);
                    assert forall|j: int| 0 <= j < next.scrubbed.len() implies 0 <= (
                    #[trigger] next.scrubbed[j]) < next.edits.len() && under_splice(
                        next.outline,
                        next.edits,
                        next.scrubbed[j],
                    ) by {
                        if j >= v.scrubbed.len() {
                            let child = children[j - v.scrubbed.len()];
                            assert(next.scrubbed[j] == child);
                            assert(below(next.outline, v.cursor, child));
                        } else {
                            assert(next.scrubbed[j] == v.scrubbed[j]);
                        }
                    }
                },
            }
        },
        Err(_) => {},
    }
}

/// The walk passes this node: it is no image, or an image behind a
/// protocol.
pub open spec fn passed(file: Seq<char>, node: SummaryView) -> bool {
    match node.image {
        None => true,
        Some(url) => classified(file, url) == Ok::<TargetView, ErrorView>(TargetView::External),
    }
}

/// The walk goes over a node that it passes: the node is left as it was
/// parsed, and the walk goes on behind it as it would from there.
pub proof fn lemma_passed_node(v: ConversionView)
    requires
        walking(v),
        0 <= v.cursor < v.outline.len(),
        passed(v.file, v.outline[v.cursor]),
    ensures
        walking(ConversionView { cursor: v.cursor + 1, ..v }),
        scanned(v) == scanned(ConversionView { cursor: v.cursor + 1, ..v }),
{
    assert(inlined_at(v.file, v.outline, v.edits, v.cursor));
}

/// Where the walk ends with HTML, it has passed every node: the HTML is
/// that of the tree with the edits of this state, and every node is inlined.
pub proof fn lemma_scanned(v: ConversionView)
    requires
        walking(v),
    ensures
        scanned(v) matches ProgressView::Finished { outcome: Ok(html) } ==> {
            &&& finished(v) == Ok::<Seq<char>, ErrorView>(html)
            &&& forall|i: int|
                0 <= i < v.outline.len() ==> inlined_at(v.file, v.outline, v.edits, i)
        },
    decreases v.outline.len() - v.cursor,
{
    if v.cursor < v.outline.len() && passed(v.file, v.outline[v.cursor]) {
        lemma_passed_node(v);
        lemma_scanned(ConversionView { cursor: v.cursor + 1, ..v });
    }
}

/// A conversion that ends with HTML has inlined the whole document: the
/// HTML is that of the tree in which each node that is no image, and each
/// image behind a protocol, is as it was parsed, each raster image has a
/// data URI of its media type, and each SVG image has become markup that
/// starts with `<svg`.
pub proof fn law_converted_document_is_inlined(
    v: ConversionView,
    reply: Result<Seq<char>, Seq<char>>,
)
    requires
        sound(v),
        resumed(v, reply) matches ProgressView::Finished { outcome: Ok(_) },
    ensures
        absorbed(v, reply) matches Ok(last) && {
            &&& finished(last) == resumed(v, reply)->outcome
            &&& forall|i: int|
                0 <= i < last.outline.len() ==> inlined_at(last.file, last.outline, last.edits, i)
        },
{
    lemma_absorbed(v, reply);
    lemma_scanned(absorbed(v, reply)->Ok_0);
}

/// An image behind a protocol keeps its reference: in every sound state of
/// a conversion that has read its document, the node is as it was parsed.
pub proof fn law_external_reference_is_kept(v: ConversionView, at: int, url: Seq<char>)
    requires
        sound(v),
        !(v.waiting is Source),
        0 <= at < v.outline.len(),
        v.outline[at].image == Some(url),
        crate::reference::is_external(url),
    ensures
        v.edits[at] is Keep,
{
    if at < v.cursor {
        assert(inlined_at(v.file, v.outline, v.edits, at));
    }
}

/// A step does not end with HTML where the document holds a reference that
/// is refused.
pub proof fn law_refused_reference_fails(
    v: ConversionView,
    reply: Result<Seq<char>, Seq<char>>,
    at: int,
    url: Seq<char>,
)
    requires
        sound(v),
        absorbed(v, reply) matches Ok(next) && 0 <= at < next.outline.len()
            && next.outline[at].image == Some(url) && classified(next.file, url) is Err,
    ensures
        !(resumed(v, reply) matches ProgressView::Finished { outcome: Ok(_) }),
{
    if resumed(v, reply) matches ProgressView::Finished { outcome: Ok(_) } {
        law_converted_document_is_inlined(v, reply);
        let last = absorbed(v, reply)->Ok_0;
        assert(inlined_at(last.file, last.outline, last.edits, at));
    }
}

/// Where the walk stops for a file, the state is sound, and it is still the
/// same document that is walked.
pub proof fn lemma_scanned_pending(v: ConversionView)
    requires
        walking(v),
    ensures
        scanned(v) matches ProgressView::Pending { conversion, .. } ==> {
            &&& sound(conversion)
            &&& !(conversion.waiting is Source)
            &&& conversion.file == v.file
            &&& conversion.source == v.source
            &&& conversion.outline == v.outline
        },
    decreases v.outline.len() - v.cursor,
{
    if v.cursor < v.outline.len() && passed(v.file, v.outline[v.cursor]) {
        lemma_passed_node(v);
        lemma_scanned_pending(ConversionView { cursor: v.cursor + 1, ..v });
    }
}

/// A step keeps the state sound, and once the document is read it stays the
/// document of the conversion.
pub proof fn lemma_resumed(v: ConversionView, reply: Result<Seq<char>, Seq<char>>)
    requires
        sound(v),
    ensures
        resumed(v, reply) matches ProgressView::Pending { conversion, .. } ==> {
            &&& sound(conversion)
            &&& !(conversion.waiting is Source)
            &&& conversion.file == v.file
            &&& conversion.outline == markdown_outline(conversion.source)
            &&& v.waiting is Source ==> reply == Ok::<Seq<char>, Seq<char>>(conversion.source)
            &&& !(v.waiting is Source) ==> conversion.source == v.source
        },
{
    lemma_absorbed(v, reply);
    match absorbed(v, reply) {
        Ok(next) => {
            lemma_scanned_pending(next);
        },
        Err(_) => {},
    }
}

/// Where a conversion stands when the driver has handed in `replies`, one
/// after the other, as far as the conversion went on asking.
pub open spec fn driven(
    v: ConversionView,
    replies: Seq<Result<Seq<char>, Seq<char>>>,
) -> ProgressView
    recommends
        replies.len() > 0,
    decreases replies.len(),
{
    match resumed(v, replies[0]) {
        ProgressView::Pending { conversion, request } => if replies.len() <= 1 {
            ProgressView::Pending { conversion, request }
        } else {
            driven(conversion, replies.drop_first())
        },
        ended => ended,
    }
}

/// Once the document is read: a conversion that ends with HTML has refused
/// no reference of the document.
pub proof fn lemma_driven(
    v: ConversionView,
    replies: Seq<Result<Seq<char>, Seq<char>>>,
    at: int,
    url: Seq<char>,
)
    requires
        sound(v),
        !(v.waiting is Source),
        replies.len() > 0,
        driven(v, replies) matches ProgressView::Finished { outcome: Ok(_) },
        0 <= at < v.outline.len(),
        v.outline[at].image == Some(url),
    ensures
        classified(v.file, url) is Ok,
    decreases replies.len(),
{
    lemma_resumed(v, replies[0]);
    match resumed(v, replies[0]) {
        ProgressView::Pending { conversion, .. } => {
            lemma_driven(conversion, replies.drop_first(), at, url);
        },
        ProgressView::Finished { .. } => {
            if classified(v.file, url) is Err {
                law_refused_reference_fails(v, replies[0], at, url);
            }
        },
    }
}

/// A document with a reference that is refused is not converted, whatever
/// the driver answers: where a conversion ends with HTML, the document was
/// read, and each image in it has a reference that is accepted. So a
/// reference with a backslash, one that resolves to a rooted path, and one
/// without an extension that can be inlined each make the conversion fail.
pub proof fn law_converted_document_has_no_refused_reference(
    file: Seq<char>,
    replies: Seq<Result<Seq<char>, Seq<char>>>,
)
    requires
        replies.len() > 0,
        driven(initial(file), replies) matches ProgressView::Finished { outcome: Ok(_) },
    ensures
        replies[0] matches Ok(text) && forall|at: int|
            0 <= at < markdown_outline(text).len() ==> (#[trigger] markdown_outline(
                text,
            )[at].image matches Some(url) ==> classified(file, url) is Ok),
{
    let start = initial(file);
    lemma_resumed(start, replies[0]);
    assert(replies[0] is Ok);
    let text = replies[0]->Ok_0;
    assert forall|at: int| 0 <= at < markdown_outline(text).len() implies (#[trigger] markdown_outline(
        text,
    )[at].image matches Some(url) ==> classified(file, url) is Ok) by {
        if markdown_outline(text)[at].image is Some {
            let url = markdown_outline(text)[at].image->0;
            match resumed(start, replies[0]) {
                ProgressView::Pending { conversion, .. } => {
                    lemma_driven(conversion, replies.drop_first(), at, url);
                },
                ProgressView::Finished { .. } => {
                    if classified(file, url) is Err {
                        law_refused_reference_fails(start, replies[0], at, url);
                    }
                },
            }
        }
    }
}

/// What the machine is waiting for.
#[derive(Debug)]
enum Waiting {
    Source,
    Raster { path: String, mime: String },
    Svg { path: String },
}

impl View for Waiting {
    type V = WaitingView;

    closed spec fn view(&self) -> WaitingView {
        match self {
            Waiting::Source => WaitingView::Source,
            Waiting::Raster { path, mime } => WaitingView::Raster { path: path@, mime: mime@ },
            Waiting::Svg { path } => WaitingView::Svg { path: path@ },
        }
    }
}

/// A conversion that waits for a file.
#[derive(Debug)]
pub struct Conversion {
    file: String,
    source: String,
    nodes: Vec<NodeSummary>,
    edits: Vec<Edit>,
    scrubbed: Vec<usize>,
    cursor: usize,
    waiting: Waiting,
}

impl View for Conversion {
    type V = ConversionView;

    closed spec fn view(&self) -> ConversionView {
        ConversionView {
            file: self.file@,
            source: self.source@,
            outline: outline_view(self.nodes@),
            edits: edits_view(self.edits@),
            scrubbed: indices(self.scrubbed@),
            cursor: self.cursor as int,
            waiting: self.waiting@,
        }
    }
}

/// Where a conversion stands after a step: it waits for another file, or it
/// has ended with the HTML or with a failure.
#[derive(Debug)]
pub enum Progress {
    Pending { conversion: Conversion, request: Request },
    Finished { outcome: Result<String, ConvertError> },
}

impl View for Progress {
    type V = ProgressView;

    open spec fn view(&self) -> ProgressView {
        match self {
            Progress::Pending { conversion, request } => ProgressView::Pending {
                conversion: conversion@,
                request: request@,
            },
            Progress::Finished { outcome } => ProgressView::Finished {
                outcome: outcome_view(*outcome),
            },
        }
    }
}

/// The data URI that embeds `contents`, given in base64, with the media type
/// `mime`.
pub fn make_data_uri(mime: &str, contents: &str) -> (uri: String)
    ensures
        uri@ == data_uri(mime@, contents@),
{
    let mut uri = String::from_str("data:");
    uri.append(mime);
    uri.append(";base64,");
    uri.append(contents);
    uri
}

/// The markup that is inlined for an SVG file with these contents.
pub fn svg_markup(contents: &str) -> (markup: Option<String>)
    ensures
        match markup {
            Some(m) => inline_markup(contents@) == Some(m@),
            None => inline_markup(contents@) is None,
        },
{
    let hay = chars_of(contents);
    let needle = chars_of("<svg");
    match find(&hay, &needle) {
        Some(at) => {
            proof {
                lemma_first_occurrence_from(hay@, needle@, 0);
            }
            assert(hay@.subrange(at as int, hay.len() as int) == hay@.skip(at as int));
            Some(string_of(&hay, at, hay.len()))
        },
        None => None,
    }
}

/// Every node that `children_from` gives lies below the node `at`, where
/// the nodes between `at` and `from` do.
pub proof fn lemma_children_from(outline: Seq<SummaryView>, at: int, from: int)
    requires
        0 <= at < from,
        forall|k: int|
            at < k < from ==> k < outline.len() && (#[trigger] outline[k]).level
                > outline[at].level,
    ensures
        forall|j: int|
            0 <= j < children_from(outline, at, from).len() ==> below(
                outline,
                at,
                #[trigger] children_from(outline, at, from)[j],
            ),
    decreases outline.len() - from,
{
    if !(from < 0 || at < 0 || at >= outline.len() || from >= outline.len() || outline[from].level
        <= outline[at].level) {
        lemma_children_from(outline, at, from + 1);
        let all = children_from(outline, at, from);
        let rest = children_from(outline, at, from + 1);
        if outline[from].level == outline[at].level + 1 {
            assert forall|j: int| 0 <= j < all.len() implies below(outline, at, #[trigger] all[j]) by {
                if j > 0 {
                    assert(all[j] == rest[j - 1]);
                } else {
                    assert(all[j] == from);
                }
            }
        }
    }
}

/// Marks the children of the node `at` to leave the tree: the nodes that
/// follow it one level deeper, as far as the nodes lie deeper than it. The
/// tree itself is not touched; the marked nodes leave when the walk is over.
pub fn mark_children(nodes: &Vec<NodeSummary>, at: usize, scrubbed: &mut Vec<usize>)
    requires
        at < nodes.len(),
    ensures
        indices(final(scrubbed)@) == indices(old(scrubbed)@) + children_indices(
            outline_view(nodes@),
            at as int,
        ),
{
    let ghost outline = outline_view(nodes@);
    let mut j: usize = at + 1;
    assert(indices(scrubbed@) + children_from(outline, at as int, j as int) == indices(
        old(scrubbed)@,
    ) + children_indices(outline, at as int));
    while j < nodes.len() && nodes[j].level > nodes[at].level
        invariant
            at < j <= nodes.len(),
            outline == outline_view(nodes@),
            indices(scrubbed@) + children_from(outline, at as int, j as int) == indices(
                old(scrubbed)@,
            ) + children_indices(outline, at as int),
        decreases nodes.len() - j,
    {
        assert(outline[j as int] == nodes[j as int]@);
        assert(outline[at as int] == nodes[at as int]@);
        let ghost before = indices(scrubbed@);
        if nodes[j].level - 1 == nodes[at].level {
            scrubbed.push(j);
            assert(indices(scrubbed@) =~= before.push(j as int));
            assert(before.push(j as int) + children_from(outline, at as int, j + 1) =~= before + (
            seq![j as int] + children_from(outline, at as int, j + 1)));
        }
        j += 1;
    }
    proof {
        if j < nodes.len() {
            assert(outline[j as int] == nodes[j as int]@);
            assert(outline[at as int] == nodes[at as int]@);
        }
        assert(indices(scrubbed@) + Seq::<int>::empty() =~= indices(scrubbed@));
    }
}

/// As many edits as `count`, each leaving its node as it is.
fn keep_all(count: usize) -> (edits: Vec<Edit>)
    ensures
        edits_view(edits@) == no_edits(count as nat),
{
    let mut edits: Vec<Edit> = Vec::new();
    let mut i: usize = 0;
    while i < count
        invariant
            i <= count,
            edits.len() == i,
            forall|k: int| 0 <= k < i ==> edits[k]@ is Keep,
        decreases count - i,
    {
        edits.push(Edit::Keep);
        i += 1;
    }
    assert(edits_view(edits@) =~= no_edits(count as nat));
    edits
}

/// The state that these parts make up.
spec fn assembled(
    file: String,
    source: String,
    nodes: Vec<NodeSummary>,
    edits: Vec<Edit>,
    scrubbed: Vec<usize>,
    cursor: int,
    waiting: WaitingView,
) -> ConversionView {
    ConversionView {
        file: file@,
        source: source@,
        outline: outline_view(nodes@),
        edits: edits_view(edits@),
        scrubbed: indices(scrubbed@),
        cursor,
        waiting,
    }
}

/// How the conversion ends when the walk has passed the last node.
fn finish(source: &String, edits: &Vec<Edit>, scrubbed: &Vec<usize>, Ghost(v): Ghost<
    ConversionView,
>) -> (outcome: Result<String, ConvertError>)
    requires
        walking(v),
        v.source == source@,
        v.edits == edits_view(edits@),
        v.scrubbed == indices(scrubbed@),
        v.cursor == v.outline.len(),
    ensures
        outcome_view(outcome) == finished(v),
{
    assert(edits_fit(markdown_outline(source@), edits_view(edits@))) by {
        assert forall|i: int|
            0 <= i < v.edits.len() && !((#[trigger] v.edits[i]) is Keep) implies v.outline[i].image
            is Some by {
            assert(inlined_at(v.file, v.outline, v.edits, i));
        }
    }
    match render(source.as_str(), edits, scrubbed) {
        Err(reason) => Err(ConvertError::Rendering { reason }),
        Ok(bytes) => match crate::text::decode(bytes) {
            None => Err(ConvertError::Encoding),
            Some(text) => normalize_html(text.as_str()),
        },
    }
}

/// What was decided on a reference, in plain values.
pub open spec fn decision_view(decision: Result<Target, ConvertError>) -> Result<
    TargetView,
    ErrorView,
> {
    match decision {
        Ok(target) => Ok(target@),
        Err(error) => Err(error@),
    }
}

/// The walk passes the nodes from the cursor to `to` without a stop.
pub proof fn lemma_scanned_skips(v: ConversionView, to: int)
    requires
        walking(v),
        v.cursor <= to <= v.outline.len(),
        forall|i: int| v.cursor <= i < to ==> passed(v.file, #[trigger] v.outline[i]),
    ensures
        scanned(v) == scanned(ConversionView { cursor: to, ..v }),
        walking(ConversionView { cursor: to, ..v }),
    decreases to - v.cursor,
{
    if v.cursor < to {
        lemma_passed_node(v);
        lemma_scanned_skips(ConversionView { cursor: v.cursor + 1, ..v }, to);
    } else {
        assert(v == ConversionView { cursor: to, ..v });
    }
}

/// Whether the reference is one behind a protocol.
fn is_kept(decision: &Result<Target, ConvertError>) -> (kept: bool)
    ensures
        kept == (decision_view(*decision) == Ok::<TargetView, ErrorView>(TargetView::External)),
{
    match decision {
        Ok(Target::External) => true,
        _ => false,
    }
}

/// The first node from `from` on at which the walk stops, with what was
/// decided on its reference: an image that needs a file, or one whose
/// reference is refused. The nodes before it are passed.
pub fn next_image(file: &str, nodes: &Vec<NodeSummary>, from: usize) -> (found: Option<
    (usize, Result<Target, ConvertError>),
>)
    requires
        from <= nodes.len(),
    ensures
        match found {
            None => forall|i: int| from <= i < nodes.len() ==> passed(file@, #[trigger] nodes[i]@),
            Some((at, decision)) => {
                &&& from <= at < nodes.len()
                &&& forall|i: int| from <= i < at ==> passed(file@, #[trigger] nodes[i]@)
                &&& !passed(file@, nodes[at as int]@)
                &&& decision_view(decision) == classified(file@, nodes[at as int]@.image->0)
            },
        },
{
    let mut at: usize = from;
    while at < nodes.len()
        invariant
            from <= at <= nodes.len(),
            forall|i: int| from <= i < at ==> passed(file@, #[trigger] nodes[i]@),
        decreases nodes.len() - at,
    {
        match &nodes[at].image {
            None => {},
            Some(url) => {
                let decision = classify(file, url.as_str());
                if !is_kept(&decision) {
                    return Some((at, decision));
                }
            },
        }
        at += 1;
    }
    None
}

/// The walk from `cursor` on.
fn scan(
    file: String,
    source: String,
    nodes: Vec<NodeSummary>,
    edits: Vec<Edit>,
    scrubbed: Vec<usize>,
    cursor: usize,
) -> (progress: Progress)
    requires
        walking(
            assembled(file, source, nodes, edits, scrubbed, cursor as int, WaitingView::Source),
        ),
    ensures
        progress@ == scanned(
            assembled(file, source, nodes, edits, scrubbed, cursor as int, WaitingView::Source),
        ),
        progress matches Progress::Pending { conversion, .. } ==> sound(conversion@),
{
    let ghost start = assembled(
        file,
        source,
        nodes,
        edits,
        scrubbed,
        cursor as int,
        WaitingView::Source,
    );
    let found = next_image(file.as_str(), &nodes, cursor);
    let stop: usize = match &found {
        None => nodes.len(),
        Some((at, _)) => *at,
    };
    let ghost here = ConversionView { cursor: stop as int, ..start };
    proof {
        assert forall|i: int| start.cursor <= i < stop implies passed(
            start.file,
            #[trigger] start.outline[i],
        ) by {
            assert(start.outline[i] == nodes[i]@);
        }
        lemma_scanned_skips(start, stop as int);
        if stop < nodes.len() {
            assert(here.outline[stop as int] == nodes[stop as int]@);
        }
    }
    match found {
        None => {
            let outcome = finish(&source, &edits, &scrubbed, Ghost(here));
            Progress::Finished { outcome }
        },
        Some((at, Err(error))) => Progress::Finished { outcome: Err(error) },
        Some((at, Ok(Target::Raster { path, mime }))) => {
            let request = Request { kind: ReadKind::Base64, path: path.clone() };
            let conversion = Conversion {
                file,
                source,
                nodes,
                edits,
                scrubbed,
                cursor: at,
                waiting: Waiting::Raster { path, mime },
            };
            Progress::Pending { conversion, request }
        },
        Some((at, Ok(Target::Svg { path }))) => {
            let request = Request { kind: ReadKind::Text, path: path.clone() };
            let conversion = Conversion {
                file,
                source,
                nodes,
                edits,
                scrubbed,
                cursor: at,
                waiting: Waiting::Svg { path },
            };
            Progress::Pending { conversion, request }
        },
        Some((at, Ok(Target::External))) => {
            proof {
                assert(false);
            }
            vstd::pervasive::unreached()
        },
    }
}

/// Starts the conversion of the document at `file`: the machine asks for the
/// document itself, as text.
pub fn begin(file: &str) -> (start: (Conversion, Request))
    ensures
        start.0@ == initial(file@),
        start.1@ == (RequestView { kind: ReadKind::Text, path: file@ }),
        sound(start.0@),
{
    let conversion = Conversion {
        file: String::from_str(file),
        source: String::new(),
        nodes: Vec::new(),
        edits: Vec::new(),
        scrubbed: Vec::new(),
        cursor: 0,
        waiting: Waiting::Source,
    };
    assert(conversion@.outline =~= Seq::empty());
    assert(conversion@.edits =~= Seq::empty());
    assert(conversion@.scrubbed =~= Seq::<int>::empty());
    (conversion, Request { kind: ReadKind::Text, path: String::from_str(file) })
}

impl Conversion {
    /// Goes on with the answer to the outstanding request: the content of
    /// the file, or the reason why it could not be read. The machine asks
    /// for the next file, or ends with the HTML or with a failure.
    pub fn resume(self, reply: Result<String, String>) -> (progress: Progress)
        requires
            sound(self@),
        ensures
            progress@ == resumed(self@, reply_view(reply)),
            progress matches Progress::Pending { conversion, .. } ==> sound(conversion@),
    {
        let ghost v = self@;
        let Conversion { file, source, nodes, edits, scrubbed, cursor, waiting } = self;
        let mut edits = edits;
        let mut scrubbed = scrubbed;
        assert(v.outline.len() == nodes.len());
        assert(v.edits.len() == edits.len());
        match waiting {
            Waiting::Source => match reply {
                Err(reason) => Progress::Finished {
                    outcome: Err(ConvertError::FileAccess { path: file, reason }),
                },
                Ok(text) => {
                    let nodes = outline(text.as_str());
                    let edits = keep_all(nodes.len());
                    let scrubbed: Vec<usize> = Vec::new();
                    assert(indices(scrubbed@) =~= Seq::empty());
                    assert(absorbed(v, reply_view(reply)) == Ok::<ConversionView, ErrorView>(
                        assembled(file, text, nodes, edits, scrubbed, 0, WaitingView::Source),
                    ));
                    scan(file, text, nodes, edits, scrubbed, 0)
                },
            },
            Waiting::Raster { path, mime } => match reply {
                Err(reason) => Progress::Finished {
                    outcome: Err(ConvertError::FileAccess { path, reason }),
                },
                Ok(contents) => {
                    let url = make_data_uri(mime.as_str(), contents.as_str());
                    edits.set(cursor, Edit::Retarget { url });
                    let ghost next = assembled(
                        file,
                        source,
                        nodes,
                        edits,
                        scrubbed,
                        cursor + 1,
                        WaitingView::Source,
                    );
                    assert(next.edits =~= v.edits.update(
                        cursor as int,
                        EditView::Retarget { url: data_uri(mime@, contents@) },
                    ));
                    assert(absorbed(v, reply_view(reply)) == Ok::<ConversionView, ErrorView>(next));
                    proof {
                        lemma_absorbed(v, reply_view(reply));
                    }
                    scan(file, source, nodes, edits, scrubbed, cursor + 1)
                },
            },
            Waiting::Svg { path } => match reply {
                Err(reason) => Progress::Finished {
                    outcome: Err(ConvertError::FileAccess { path, reason }),
                },
                Ok(contents) => match svg_markup(contents.as_str()) {
                    None => Progress::Finished { outcome: Err(ConvertError::MalformedSvg) },
                    Some(markup) => {
                        edits.set(cursor, Edit::Splice { markup });
                        mark_children(&nodes, cursor, &mut scrubbed);
                        let ghost next = assembled(
                            file,
                            source,
                            nodes,
                            edits,
                            scrubbed,
                            cursor + 1,
                            WaitingView::Source,
                        );
                        assert(next.edits =~= v.edits.update(
                            cursor as int,
                            EditView::Splice { markup: inline_markup(contents@)->0 },
                        ));
                        assert(absorbed(v, reply_view(reply)) == Ok::<ConversionView, ErrorView>(
                            next,
                        ));
                        proof {
                            lemma_absorbed(v, reply_view(reply));
                        }
                        scan(file, source, nodes, edits, scrubbed, cursor + 1)
                    },
                },
            },
        }
    }
}

} // verus!
