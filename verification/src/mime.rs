//! The media type of an object, guessed from the extension of its key.
//!
//! The table of extensions and media types is the one of the `mime_guess`
//! crate; the extension is found here.

use vstd::prelude::*;
use crate::path::{extension, key_extension, text_view};

verus! {

/// The first media type that `mime_guess` lists for an extension, and
/// nothing for an extension that it does not list. It depends on the
/// extension alone: the table is part of the crate, and the search in it
/// ignores case.
pub uninterp spec fn media_type_of_extension(ext: Seq<char>) -> Option<Seq<char>>;

/// The media type guessed for a key: that of its extension, and nothing for
/// a key without one.
pub open spec fn media_type_of(path: Seq<char>) -> Option<Seq<char>> {
    match extension(path) {
        Some(ext) => media_type_of_extension(ext),
        None => None,
    }
}

/// `mime_guess::from_ext` followed by `MimeGuess::first`, the media type
/// written out as text. The result is named, not described: it is what the
/// crate's table gives for this extension. An empty extension has no entry,
/// as the crate documents.
#[verifier::external_body]
fn first_guess(ext: &str) -> (media_type: Option<String>)
    ensures
        text_view(media_type) == media_type_of_extension(ext@),
        ext@.len() == 0 ==> media_type is None,
{
    mime_guess::from_ext(ext).first().map(|mime| mime.to_string())
}

/// Guesses the media type of a file from the extension of its path or key.
pub fn guess_mime_type(path: &str) -> (media_type: Option<String>)
    ensures
        text_view(media_type) == media_type_of(path@),
{
    match key_extension(path) {
        Some(ext) => first_guess(ext.as_str()),
        None => None,
    }
}

} // verus!
