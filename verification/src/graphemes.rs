use unicode_segmentation::UnicodeSegmentation;
use vstd::prelude::*;
use vstd::utf8::encode_utf8;

verus! {

/// The extended grapheme clusters of a text (Unicode Standard Annex #29),
/// each as its UTF-8 bytes, in order.
pub uninterp spec fn grapheme_clusters(text: Seq<char>) -> Seq<Seq<u8>>;

/// Calls `UnicodeSegmentation::graphemes(s, true)` and collects the
/// clusters, each as its bytes. The iterator hands out consecutive slices
/// of `s`, each from the current boundary to the next, so the clusters are
/// not empty and together make up the bytes of `s`. Where the boundaries
/// fall is left to the crate.
#[verifier::external_body]
pub(crate) fn extended_graphemes(s: &str) -> (r: Vec<Vec<u8>>)
    ensures
        r.deep_view() == grapheme_clusters(s@),
        r.deep_view().flatten() == encode_utf8(s@),
        forall|i: int| 0 <= i < r.deep_view().len() ==> (#[trigger] r.deep_view()[i]).len() > 0,
{
    s.graphemes(true).map(|g| g.as_bytes().to_vec()).collect()
}

} // verus!
