//! The trusted boundary to scraper's tolerant HTML parser: parsing never
//! fails, and the parsed tree is copied into the library's [`DomNode`] model.

use vstd::prelude::*;
use crate::dom::DomNode;
use crate::extract::{Category, ExtractError, CategoryView, cats_view, spec_extract,
    extract_from_node};

verus! {

#[verifier::external_type_specification]
#[verifier::external_body]
#[verifier::reject_recursive_types(T)]
pub struct ExNodeRef<'a, T: 'a>(ego_tree::NodeRef<'a, T>);

#[verifier::external_type_specification]
#[verifier::external_body]
pub struct ExHtmlNode(scraper::node::Node);

/// The document tree scraper's HTML parser yields for a text, copied
/// into [`DomNode`]: a function of the text alone.
pub uninterp spec fn parsed_doc(s: Seq<char>) -> DomNode;

/// Relies on `scraper::Html::parse_document`: it parses any text as an
/// HTML document without failing, and the tree it yields depends on the
/// text alone. The body copies that tree into [`DomNode`], rooted at the
/// document node, which carries no name and no attributes.
#[verifier::external_body]
pub fn parse_document(s: &str) -> (r: DomNode)
    ensures
        r == parsed_doc(s@),
{
    let html = scraper::Html::parse_document(s);
    match node_of(html.tree.root()) {
        Some(n) => n,
        None => DomNode::Text(String::new()),
    }
}

/// Helper of [`parse_document`]: relies on `ego_tree::NodeRef::children`
/// and `NodeRef::value` to walk scraper's tree in document order. Copies
/// one node and its descendants into [`DomNode`], one for one: element tag
/// names, attribute names and values, and text moved verbatim; document
/// and fragment roots become the nameless root element; doctypes,
/// comments and processing instructions are dropped.
#[verifier::external_body]
fn node_of(n: ego_tree::NodeRef<'_, scraper::node::Node>) -> (r: Option<DomNode>) {
    match n.value() {
        scraper::node::Node::Document | scraper::node::Node::Fragment => Some(DomNode::Element {
            name: String::new(),
            attrs: Vec::new(),
            children: n.children().filter_map(node_of).collect(),
        }),
        scraper::node::Node::Element(e) => Some(DomNode::Element {
            name: e.name().to_string(),
            attrs: e.attrs().map(|(k, v)| (k.to_string(), v.to_string())).collect(),
            children: n.children().filter_map(node_of).collect(),
        }),
        scraper::node::Node::Text(t) => Some(DomNode::Text(t.to_string())),
        _ => None,
    }
}

/// The catalog of a page's markup: the markup parsed as HTML, then the
/// categories extracted from the parsed tree as [`spec_extract`] gives
/// them.
pub fn extract_categories(html: &str) -> (r: Result<Vec<Category>, ExtractError>)
    ensures
        match r {
            Ok(cats) => spec_extract(parsed_doc(html@)) == Ok::<Seq<CategoryView>, ExtractError>(
                cats_view(cats@),
            ),
            Err(e) => spec_extract(parsed_doc(html@)) == Err::<Seq<CategoryView>, ExtractError>(e),
        },
{
    let doc = parse_document(html);
    extract_from_node(&doc)
}

} // verus!
