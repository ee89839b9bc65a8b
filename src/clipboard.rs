//! What a clipboard read yields, and which part of it is kept.

use vstd::prelude::*;

verus! {

/// Image data extracted from the clipboard.
#[derive(Clone, Debug)]
pub struct ImageData {
    pub bytes: Vec<u8>,
    pub width: u32,
    pub height: u32,
}

/// Clipboard content variants.
#[derive(Clone, Debug)]
pub enum ClipboardContent {
    Text(String),
    Image(ImageData),
}

/// Relies on `str::contains` with a `char` pattern: whether the character
/// occurs in the string.
#[verifier::external_body]
fn contains_char(s: &str, c: char) -> (r: bool)
    ensures
        r == s@.contains(c),
{
    s.contains(c)
}

/// Whether clipboard text is worth keeping: not empty and free of NUL.
pub open spec fn keeps_text(t: Seq<char>) -> bool {
    t.len() > 0 && !t.contains('\0')
}

/// Picks what a clipboard read yields, image first: an image with bytes;
/// else text that is not empty and holds no NUL; else nothing.
pub fn select_clipboard_content(image: Option<ImageData>, text: Option<String>) -> (r: Option<
    ClipboardContent,
>)
    ensures
        match image {
            Some(img) if img.bytes@.len() > 0 => r == Some(ClipboardContent::Image(img)),
            _ => match text {
                Some(t) if keeps_text(t@) => r == Some(ClipboardContent::Text(t)),
                _ => r.is_none(),
            },
        },
{
    if let Some(img) = image {
        if img.bytes.len() > 0 {
            return Some(ClipboardContent::Image(img));
        }
    }
    if let Some(t) = text {
        if !t.as_str().is_empty() && !contains_char(t.as_str(), '\0') {
            return Some(ClipboardContent::Text(t));
        }
    }
    None
}

} // verus!
