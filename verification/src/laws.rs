//! Laws of the extraction: how many categories a document yields, and
//! what extraction gives when the content region is empty or missing.

use vstd::prelude::*;
use crate::dom::{DomNode, descendants_named, content_regions, join_frags};
use crate::extract::{spec_category, spec_categories, spec_extract, CategoryView, ExtractError};

verus! {

/// Law: one fragment joins to itself, with no added spacing; two
/// fragments join with a single space between them.
pub proof fn lemma_join_pair(a: Seq<char>, b: Seq<char>)
    ensures
        join_frags(seq![a]) == a,
        join_frags(seq![a, b]) == a + seq![' '] + b,
{
    assert(join_frags(seq![a]) == seq![a][0]);
    assert(seq![a, b].drop_first() =~= seq![b]);
    assert(join_frags(seq![b]) == seq![b][0]);
}

/// Whether a definition list yields a category titled "Various other".
pub open spec fn is_various(dl: DomNode) -> bool {
    spec_category(dl) matches Ok(c) && c.title == "Various other"@
}

/// How many definition lists yield a category titled "Various other".
pub open spec fn various_count(dls: Seq<DomNode>) -> nat
    decreases dls.len(),
{
    if dls.len() == 0 {
        0
    } else {
        (if is_various(dls[0]) {
            1nat
        } else {
            0nat
        }) + various_count(dls.drop_first())
    }
}

/// Successful extraction from a run of definition lists yields one
/// category per list, except the lists titled "Various other".
pub proof fn lemma_categories_count(dls: Seq<DomNode>)
    requires
        spec_categories(dls) is Ok,
    ensures
        spec_categories(dls)->Ok_0.len() + various_count(dls) == dls.len(),
    decreases dls.len(),
{
    if dls.len() > 0 {
        lemma_categories_count(dls.drop_first());
    }
}

/// Law: a document that extracts without error yields exactly as many
/// categories as its content region has definition lists, less those
/// titled "Various other".
pub proof fn lemma_category_count(doc: DomNode)
    requires
        spec_extract(doc) is Ok,
    ensures
        content_regions(doc).len() > 0,
        spec_extract(doc)->Ok_0.len() + various_count(
            descendants_named(content_regions(doc)[0], "dl"@),
        ) == descendants_named(content_regions(doc)[0], "dl"@).len(),
{
    lemma_categories_count(descendants_named(content_regions(doc)[0], "dl"@));
}

/// Law: a content region without definition lists extracts to the empty
/// catalog, with no error.
pub proof fn lemma_extract_empty_region(doc: DomNode)
    requires
        content_regions(doc).len() > 0,
        descendants_named(content_regions(doc)[0], "dl"@).len() == 0,
    ensures
        spec_extract(doc) == Ok::<Seq<CategoryView>, ExtractError>(Seq::<CategoryView>::empty()),
{
}

/// Law: a document without a content region extracts to
/// `ContentRegionNotFound`, and to no categories.
pub proof fn lemma_extract_no_region(doc: DomNode)
    requires
        content_regions(doc).len() == 0,
    ensures
        spec_extract(doc) == Err::<Seq<CategoryView>, ExtractError>(
            ExtractError::ContentRegionNotFound,
        ),
{
}

} // verus!
