//! What an image reference points at, and what is to be done with it.

use crate::error::{ConvertError, ErrorView};
use crate::paths::{
    extension, extension_of, is_absolute, lemma_resolved_rooted, resolve, resolved, rooted,
};
use crate::text::{chars_of, contains_char, reads, string_of};
use vstd::prelude::*;
use vstd::string::StringExecFns;

verus! {

/// What is to be done with an image reference that was accepted.
#[derive(Debug, Clone)]
pub enum Target {
    /// It names a resource behind a protocol and is left as it is.
    External,
    /// It names a raster image: the file at `path` is to be embedded as a
    /// data URI of the media type `mime`.
    Raster { path: String, mime: String },
    /// It names an SVG image: the markup in the file at `path` is to take the
    /// image's place.
    Svg { path: String },
}

/// A `Target` with its texts as character sequences.
pub enum TargetView {
    External,
    Raster { path: Seq<char>, mime: Seq<char> },
    Svg { path: Seq<char> },
}

impl View for Target {
    type V = TargetView;

    open spec fn view(&self) -> TargetView {
        match self {
            Target::External => TargetView::External,
            Target::Raster { path, mime } => TargetView::Raster { path: path@, mime: mime@ },
            Target::Svg { path } => TargetView::Svg { path: path@ },
        }
    }
}

/// One of the letters `A` to `Z` and `a` to `z`.
pub open spec fn is_ascii_letter(c: char) -> bool {
    ('A' <= c && c <= 'Z') || ('a' <= c && c <= 'z')
}

/// The reference opens with a protocol of `letters` letters: that many
/// letters, one at least, then `://`, then at least one more character.
pub open spec fn opens_with_protocol(url: Seq<char>, letters: int) -> bool {
    &&& 1 <= letters
    &&& letters + 3 < url.len()
    &&& forall|j: int| 0 <= j < letters ==> is_ascii_letter(#[trigger] url[j])
    &&& url[letters] == ':'
    &&& url[letters + 1] == '/'
    &&& url[letters + 2] == '/'
}

/// The reference names a resource behind a protocol: it is made of one or
/// more letters, `://` and one or more characters of any kind, from its
/// first character to its last.
pub open spec fn is_external(url: Seq<char>) -> bool {
    exists|letters: int| opens_with_protocol(url, letters)
}

/// The media type that belongs to an extension, for the raster formats that
/// can be inlined. Extensions are compared as they are written.
pub open spec fn mime_of(ext: Seq<char>) -> Option<Seq<char>> {
    if ext == "jpg"@ || ext == "jpeg"@ {
        Some("image/jpeg"@)
    } else if ext == "gif"@ {
        Some("image/gif"@)
    } else if ext == "png"@ {
        Some("image/png"@)
    } else if ext == "webp"@ {
        Some("image/webp"@)
    } else {
        None
    }
}

/// What is decided on the image reference `url` in the document `file`,
/// given whether the reference names a protocol. A reference behind a
/// protocol is accepted as it is. Any other is refused where it holds a
/// backslash, then where it resolves to a rooted path, then where the file
/// it names has no extension or one that names no format to inline.
pub open spec fn classified_given(file: Seq<char>, url: Seq<char>, external: bool) -> Result<
    TargetView,
    ErrorView,
> {
    if external {
        Ok(TargetView::External)
    } else if url.contains('\\') {
        Err(ErrorView::Backslash { url })
    } else if rooted(resolved(file, url)) {
        Err(ErrorView::AbsolutePath { url })
    } else {
        match extension_of(resolved(file, url)) {
            None => Err(ErrorView::MissingExtension { path: resolved(file, url) }),
            Some(ext) => if ext == "svg"@ {
                Ok(TargetView::Svg { path: resolved(file, url) })
            } else {
                match mime_of(ext) {
                    Some(mime) => Ok(TargetView::Raster { path: resolved(file, url), mime }),
                    None => Err(ErrorView::UnsupportedExtension { path: resolved(file, url) }),
                }
            },
        }
    }
}

/// What is decided on the image reference `url` in the document `file`.
pub open spec fn classified(file: Seq<char>, url: Seq<char>) -> Result<TargetView, ErrorView> {
    classified_given(file, url, is_external(url))
}

/// A reference behind a protocol opens with a letter, and a backslash in it
/// stands behind the `://`: one that holds a backslash further to the front
/// names no protocol.
pub proof fn law_protocol_opens_the_reference(url: Seq<char>, at: int)
    requires
        is_external(url),
        0 <= at < url.len(),
        url[at] == '\\',
    ensures
        is_ascii_letter(url[0]),
        exists|letters: int| opens_with_protocol(url, letters) && letters + 3 <= at,
{
    let letters = choose|letters: int| opens_with_protocol(url, letters);
    assert(is_ascii_letter(url[0]));
    if at < letters {
        assert(is_ascii_letter(url[at]));
    }
    assert(opens_with_protocol(url, letters) && letters + 3 <= at);
}

/// A reference behind a protocol is accepted as it is, whatever else it
/// holds.
pub proof fn law_external_is_accepted(file: Seq<char>, url: Seq<char>)
    requires
        is_external(url),
    ensures
        classified(file, url) == Ok::<TargetView, ErrorView>(TargetView::External),
{
}

/// A reference without a protocol that holds a backslash is refused for the
/// backslash, whatever its extension.
pub proof fn law_backslash_is_refused(file: Seq<char>, url: Seq<char>)
    requires
        !is_external(url),
        url.contains('\\'),
    ensures
        classified(file, url) == Err::<TargetView, ErrorView>(ErrorView::Backslash { url }),
{
}

/// A reference without a protocol and without a backslash that is rooted, or
/// that stands in a document whose own path is rooted, resolves to a rooted
/// path and is refused for that.
pub proof fn law_rooted_is_refused(file: Seq<char>, url: Seq<char>)
    requires
        !is_external(url),
        !url.contains('\\'),
        rooted(url) || rooted(file),
    ensures
        classified(file, url) == Err::<TargetView, ErrorView>(ErrorView::AbsolutePath { url }),
{
    lemma_resolved_rooted(file, url);
}

/// The pattern of a reference behind a protocol.
pub open spec fn protocol_pattern() -> Seq<char> {
    "^[A-Za-z]+://(?s:.)"@
}

/// `Regex::is_match` of the crate regex, asked only with the pattern
/// `^[A-Za-z]+://(?s:.)`. `^` holds the match to the start of the text, the
/// class holds the ASCII letters only, and `.` under the flag `s` is any
/// character, the line feed too: so the pattern is found exactly where the
/// text opens with one or more letters, `://` and one more character.
#[verifier::external_body]
fn is_match(pattern: &str, text: &str) -> (found: bool)
    requires
        pattern@ == protocol_pattern(),
    ensures
        found == is_external(text@),
{
    regex::Regex::new(pattern).unwrap().is_match(text)
}

/// Whether the reference names a resource behind a protocol.
pub fn has_protocol(url: &str) -> (found: bool)
    ensures
        found == is_external(url@),
{
    is_match("^[A-Za-z]+://(?s:.)", url)
}

/// The media type that belongs to the extension `ext`.
pub fn mime_type(ext: &String) -> (mime: Option<String>)
    ensures
        match mime {
            Some(m) => mime_of(ext@) == Some(m@),
            None => mime_of(ext@) is None,
        },
{
    if reads(ext, "jpg") || reads(ext, "jpeg") {
        Some(String::from_str("image/jpeg"))
    } else if reads(ext, "gif") {
        Some(String::from_str("image/gif"))
    } else if reads(ext, "png") {
        Some(String::from_str("image/png"))
    } else if reads(ext, "webp") {
        Some(String::from_str("image/webp"))
    } else {
        None
    }
}

/// What is decided on the image reference `url` in the document at `file`,
/// given whether the reference names a protocol.
pub fn classify_reference(file: &str, url: &str, external: bool) -> (decision: Result<
    Target,
    ConvertError,
>)
    ensures
        match decision {
            Ok(target) => classified_given(file@, url@, external) == Ok::<TargetView, ErrorView>(
                target@,
            ),
            Err(error) => classified_given(file@, url@, external) == Err::<TargetView, ErrorView>(
                error@,
            ),
        },
{
    if external {
        return Ok(Target::External);
    }
    let reference = chars_of(url);
    if contains_char(&reference, '\\') {
        return Err(ConvertError::Backslash { url: String::from_str(url) });
    }
    let document = chars_of(file);
    let location = resolve(&document, &reference);
    if is_absolute(&location) {
        return Err(ConvertError::AbsolutePath { url: String::from_str(url) });
    }
    let path = string_of(&location, 0, location.len());
    assert(location@.subrange(0, location.len() as int) == location@);
    match extension(&location) {
        None => Err(ConvertError::MissingExtension { path }),
        Some(letters) => {
            let ext = string_of(&letters, 0, letters.len());
            assert(letters@.subrange(0, letters.len() as int) == letters@);
            if reads(&ext, "svg") {
                Ok(Target::Svg { path })
            } else {
                match mime_type(&ext) {
                    Some(mime) => Ok(Target::Raster { path, mime }),
                    None => Err(ConvertError::UnsupportedExtension { path }),
                }
            }
        },
    }
}

/// What is decided on the image reference `url` in the document at `file`.
pub fn classify(file: &str, url: &str) -> (decision: Result<Target, ConvertError>)
    ensures
        match decision {
            Ok(target) => classified(file@, url@) == Ok::<TargetView, ErrorView>(target@),
            Err(error) => classified(file@, url@) == Err::<TargetView, ErrorView>(error@),
        },
{
    let external = has_protocol(url);
    classify_reference(file, url, external)
}

} // verus!
