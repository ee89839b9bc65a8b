//! Clipboard history records and their content hash.

use vstd::prelude::*;

verus! {

/// Clipboard history item as stored.
#[derive(Clone, Debug)]
pub struct ClipboardItem {
    pub id: i64,
    pub item_type: String,
    pub content: String,
    pub hash: String,
    pub created_at: String,
}

/// The fields of a history item, as values.
pub struct ClipboardItemView {
    pub id: i64,
    pub item_type: Seq<char>,
    pub content: Seq<char>,
    pub hash: Seq<char>,
    pub created_at: Seq<char>,
}

impl View for ClipboardItem {
    type V = ClipboardItemView;

    open spec fn view(&self) -> ClipboardItemView {
        ClipboardItemView {
            id: self.id,
            item_type: self.item_type@,
            content: self.content@,
            hash: self.hash@,
            created_at: self.created_at@,
        }
    }
}

impl ClipboardItem {
    /// A copy of the item.
    pub fn duplicate(&self) -> (r: ClipboardItem)
        ensures
            r@ == self@,
    {
        ClipboardItem {
            id: self.id,
            item_type: self.item_type.clone(),
            content: self.content.clone(),
            hash: self.hash.clone(),
            created_at: self.created_at.clone(),
        }
    }
}

/// The lowercase hexadecimal MD5 digest of a byte string.
pub uninterp spec fn md5_hex(b: Seq<u8>) -> Seq<char>;

/// Relies on `md5::compute` and the digest's `LowerHex` formatting: the
/// sixteen digest bytes, two lowercase hex digits each, a function of the
/// input alone.
#[verifier::external_body]
fn md5_lower_hex(content: &[u8]) -> (r: String)
    ensures
        r@ == md5_hex(content@),
        r@.len() == 32,
{
    format!("{:x}", md5::compute(content))
}

/// The content hash used to recognise an item already in history: the MD5
/// digest of its bytes in lowercase hex.
pub fn calculate_hash(content: &[u8]) -> (r: String)
    ensures
        r@ == md5_hex(content@),
        r@.len() == 32,
{
    md5_lower_hex(content)
}

} // verus!
