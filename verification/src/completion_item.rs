use vstd::prelude::*;
use vstd::utf8::encode_utf8;

verus! {

/// The candidates returned for one request, merged over all providers.
pub type Completions = Vec<CompletionItem>;

/// A half-open range `[start, end)` of byte offsets into a display string,
/// marking bytes to be highlighted.
#[derive(Clone, Copy, Debug, PartialEq, Eq, Structural)]
pub struct ByteRange {
    /// Offset of the first highlighted byte.
    pub start: usize,
    /// Offset one past the last highlighted byte.
    pub end: usize,
}

/// A sequence of byte ranges is well formed for a string of `len` bytes when
/// every range is non-empty and lies within `[0, len)`, and the ranges are
/// sorted ascending by start and pairwise disjoint.
pub open spec fn ranges_wf(rs: Seq<ByteRange>, len: nat) -> bool {
    &&& forall|i: int| 0 <= i < rs.len() ==> (#[trigger] rs[i]).start < rs[i].end <= len
    &&& forall|i: int, j: int| 0 <= i < j < rs.len() ==> (#[trigger] rs[i]).end
        <= (#[trigger] rs[j]).start
}

/// One completion candidate, produced by exactly one source and read-only to
/// the user interface after the merge.
#[derive(Debug)]
pub struct CompletionItem {
    /// The text to display in the details window as a vector of strings.
    pub details: Option<Vec<String>>,
    /// The formatted completion item as shown inside the completion menu.
    pub format: String,
    /// The number of leading bytes of `text` matched by the typed prefix.
    pub matched_prefix: u16,
    /// The byte ranges of `format` matched by the typed prefix, used for
    /// highlighting.
    pub matched_bytes: Vec<ByteRange>,
    /// The name of the source this completion comes from.
    pub source: &'static str,
    /// The text that will be inserted into the buffer if the completion is
    /// selected.
    pub text: String,
}

/// Mathematical model of a [`CompletionItem`]: the display and insertable
/// text as byte sequences (every offset in this crate is a byte offset), the
/// matching metadata, and the provider identity.
#[verifier::ext_equal]
pub struct ItemModel {
    /// Model of `details`.
    pub details: Option<Seq<Seq<char>>>,
    /// The UTF-8 bytes of `format`.
    pub format_bytes: Seq<u8>,
    /// Model of `matched_prefix`.
    pub matched_prefix: u16,
    /// Model of `matched_bytes`.
    pub matched_bytes: Seq<ByteRange>,
    /// Model of `source`.
    pub source: Seq<char>,
    /// The UTF-8 bytes of `text`.
    pub text_bytes: Seq<u8>,
}

impl ItemModel {
    /// The highlighting metadata never points outside the display string.
    pub open spec fn wf(self) -> bool {
        ranges_wf(self.matched_bytes, self.format_bytes.len())
    }
}

impl View for CompletionItem {
    type V = ItemModel;

    open spec fn view(&self) -> ItemModel {
        ItemModel {
            details: self.details.deep_view(),
            format_bytes: encode_utf8(self.format@),
            matched_prefix: self.matched_prefix,
            matched_bytes: self.matched_bytes@,
            source: self.source@,
            text_bytes: encode_utf8(self.text@),
        }
    }
}

impl CompletionItem {
    /// The highlighting metadata never points outside `format`.
    pub open spec fn wf(&self) -> bool {
        self@.wf()
    }
}

} // verus!
