//! The ways in which a conversion fails. Each failure ends the conversion of
//! the document: nothing is returned in part.

use vstd::prelude::*;
use vstd::string::StringExecFns;

verus! {

/// Why a document could not be converted.
#[derive(Debug, Clone)]
pub enum ConvertError {
    /// An image reference holds a backslash.
    Backslash { url: String },
    /// An image reference resolves to a rooted path.
    AbsolutePath { url: String },
    /// The image's file name has no extension.
    MissingExtension { path: String },
    /// The image's extension names no format that can be inlined.
    UnsupportedExtension { path: String },
    /// The host could not read a file: the document itself or an image.
    FileAccess { path: String, reason: String },
    /// A file with the extension `svg` holds no `<svg` tag.
    MalformedSvg,
    /// The document tree could not be written out as HTML.
    Rendering { reason: String },
    /// The HTML that was written out is not valid UTF-8.
    Encoding,
    /// The HTML holds a fragment or a processing instruction.
    UnsupportedNode,
}

/// A `ConvertError` with its texts as character sequences.
pub enum ErrorView {
    Backslash { url: Seq<char> },
    AbsolutePath { url: Seq<char> },
    MissingExtension { path: Seq<char> },
    UnsupportedExtension { path: Seq<char> },
    FileAccess { path: Seq<char>, reason: Seq<char> },
    MalformedSvg,
    Rendering { reason: Seq<char> },
    Encoding,
    UnsupportedNode,
}

impl View for ConvertError {
    type V = ErrorView;

    open spec fn view(&self) -> ErrorView {
        match self {
            ConvertError::Backslash { url } => ErrorView::Backslash { url: url@ },
            ConvertError::AbsolutePath { url } => ErrorView::AbsolutePath { url: url@ },
            ConvertError::MissingExtension { path } => ErrorView::MissingExtension { path: path@ },
            ConvertError::UnsupportedExtension { path } => ErrorView::UnsupportedExtension {
                path: path@,
            },
            ConvertError::FileAccess { path, reason } => ErrorView::FileAccess {
                path: path@,
                reason: reason@,
            },
            ConvertError::MalformedSvg => ErrorView::MalformedSvg,
            ConvertError::Rendering { reason } => ErrorView::Rendering { reason: reason@ },
            ConvertError::Encoding => ErrorView::Encoding,
            ConvertError::UnsupportedNode => ErrorView::UnsupportedNode,
        }
    }
}

/// The message that describes a failure.
pub open spec fn message_of(e: ErrorView) -> Seq<char> {
    match e {
        ErrorView::Backslash { url } => "Path "@ + url
            + " contains backslash. Use forward slash, even on Windows."@,
        ErrorView::AbsolutePath { url } => "Path "@ + url
            + " is absolute. For portability reasons, this is not allowed."@,
        ErrorView::MissingExtension { path } => "Image lacks an extension: "@ + path,
        ErrorView::UnsupportedExtension { path } => "Unsupported extension for "@ + path,
        ErrorView::FileAccess { path, reason } => "Could not read "@ + path + ": "@ + reason,
        ErrorView::MalformedSvg => "Could not find svg tag in svg file."@,
        ErrorView::Rendering { reason } => "Could not render: "@ + reason,
        ErrorView::Encoding => "Encoding error"@,
        ErrorView::UnsupportedNode => "these nodes are not supported"@,
    }
}

impl ConvertError {
    /// The message that describes this failure, naming the path or the
    /// reference at fault where there is one.
    pub fn message(&self) -> (text: String)
        ensures
            text@ == message_of(self@),
    {
        match self {
            ConvertError::Backslash { url } => {
                let mut text = String::from_str("Path ");
                text.append(url.as_str());
                text.append(" contains backslash. Use forward slash, even on Windows.");
                text
            },
            ConvertError::AbsolutePath { url } => {
                let mut text = String::from_str("Path ");
                text.append(url.as_str());
                text.append(" is absolute. For portability reasons, this is not allowed.");
                text
            },
            ConvertError::MissingExtension { path } => {
                let mut text = String::from_str("Image lacks an extension: ");
                text.append(path.as_str());
                text
            },
            ConvertError::UnsupportedExtension { path } => {
                let mut text = String::from_str("Unsupported extension for ");
                text.append(path.as_str());
                text
            },
            ConvertError::FileAccess { path, reason } => {
                let mut text = String::from_str("Could not read ");
                text.append(path.as_str());
                text.append(": ");
                text.append(reason.as_str());
                text
            },
            ConvertError::MalformedSvg => String::from_str("Could not find svg tag in svg file."),
            ConvertError::Rendering { reason } => {
                let mut text = String::from_str("Could not render: ");
                text.append(reason.as_str());
                text
            },
            ConvertError::Encoding => String::from_str("Encoding error"),
            ConvertError::UnsupportedNode => String::from_str("these nodes are not supported"),
        }
    }
}

} // verus!
