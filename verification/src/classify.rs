use crate::text::same_text;
use vstd::prelude::*;

verus! {

/// The extension of a path as `std::path::Path::extension` reports it on the
/// platform the library is built for: the part of the final component after
/// its last dot, or `None` where there is no final component, no dot in it,
/// or only a leading one.
pub uninterp spec fn path_extension(path: Seq<char>) -> Option<Seq<char>>;

/// The path that `std::path::Path::with_extension` builds on the platform
/// the library is built for: the given path with the extension of its final
/// component set to the given one.
pub uninterp spec fn path_with_extension(path: Seq<char>, extension: Seq<char>) -> Seq<char>;

/// `Path::extension` on a path held as text. The contract only gives the
/// result its name; what the extension of a given path is, is not stated.
#[verifier::external_body]
fn extension_of(path: &str) -> (extension: Option<String>)
    ensures
        path_extension(path@) == match extension {
            Some(text) => Some(text@),
            None => None,
        },
{
    std::path::Path::new(path).extension().map(|text| text.to_string_lossy().into_owned())
}

/// `Path::with_extension` on a path held as text. The contract only gives the
/// result its name. The standard library panics on an extension that holds a
/// path separator, so none may be passed.
#[verifier::external_body]
fn with_extension(path: &str, extension: &str) -> (changed: String)
    requires
        forall|i: int| 0 <= i < extension@.len() ==> extension@[i] != '/' && extension@[i] != '\\',
    ensures
        changed@ == path_with_extension(path@, extension@),
{
    std::path::Path::new(path).with_extension(extension).to_string_lossy().into_owned()
}

/// Whether an extension is one of the recognized ones: `jpg`, `jpeg` and
/// `png`, in exactly this spelling.
pub open spec fn recognized(extension: Seq<char>) -> bool {
    extension == "jpg"@ || extension == "jpeg"@ || extension == "png"@
}

/// Whether a path carries a recognized extension.
pub open spec fn path_recognized(path: Seq<char>) -> bool {
    match path_extension(path) {
        Some(extension) => recognized(extension),
        None => false,
    }
}

/// The extension given to entries that carry no recognized one.
pub open spec fn canonical_extension() -> Seq<char> {
    "jpg"@
}

/// Where an entry without a recognized extension is moved to.
pub open spec fn canonical_path(path: Seq<char>) -> Seq<char> {
    path_with_extension(path, canonical_extension())
}

/// Decides whether an extension is one of the recognized ones.
pub fn is_recognized(extension: &str) -> (known: bool)
    ensures
        known == recognized(extension@),
{
    same_text(extension, "jpg") || same_text(extension, "jpeg") || same_text(extension, "png")
}

/// What the classifier found out about an entry.
#[derive(Debug, PartialEq, Eq)]
pub enum Classification {
    /// The entry carries a recognized extension and is read as it stands.
    Recognized,
    /// The entry must be renamed to `target` before it is read.
    NeedsRename { target: String },
}

/// Classifies an entry by the extension of its path. An entry without a
/// recognized extension is to be renamed to the same path with the extension
/// `jpg`, whatever its content is.
pub fn classify(path: &str) -> (verdict: Classification)
    ensures
        match verdict {
            Classification::Recognized => path_recognized(path@),
            Classification::NeedsRename { target } => !path_recognized(path@) && target@
                == canonical_path(path@),
        },
{
    let known = match extension_of(path) {
        Some(extension) => is_recognized(extension.as_str()),
        None => false,
    };
    if known {
        Classification::Recognized
    } else {
        proof {
            reveal_strlit("jpg");
        }
        Classification::NeedsRename { target: with_extension(path, "jpg") }
    }
}

} // verus!
