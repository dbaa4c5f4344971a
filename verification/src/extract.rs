//! Extraction of the API catalog from a document tree: one category per
//! definition list in the content region, each with a title and its
//! linked entries, categories titled "Various other" left out.

use vstd::prelude::*;
use crate::dom::{
    DomNode, Query, descendants_named, content_regions, node_attr, joined_text, find_descendants,
    find_attr, join_text, refs_view, str_eq,
};

verus! {

/// Why extraction of the catalog failed.
#[derive(Debug, Clone, Copy, PartialEq, Eq, Structural)]
pub enum ExtractError {
    /// No content-region element in the document.
    ContentRegionNotFound,
    /// A definition list without a term element.
    MissingCategoryTitle,
    /// An entry element without a link element.
    MissingEntryLink,
    /// A link element without a target attribute.
    MissingSpecHref,
}

/// One catalogued API: its display name and the link to its
/// specification.
pub struct Api {
    name: String,
    spec_link: String,
}

/// What an [`Api`] holds, as character sequences.
pub struct ApiView {
    pub name: Seq<char>,
    pub spec_link: Seq<char>,
}

impl View for Api {
    type V = ApiView;

    closed spec fn view(&self) -> ApiView {
        ApiView { name: self.name@, spec_link: self.spec_link@ }
    }
}

/// A named group of API entries, in document order.
pub struct Category {
    /// The name of the category.
    pub title: String,
    /// The APIs in the category.
    pub items: Vec<Api>,
}

/// What a [`Category`] holds, as character sequences.
pub struct CategoryView {
    pub title: Seq<char>,
    pub items: Seq<ApiView>,
}

/// The views of a sequence of entries.
pub open spec fn apis_view(s: Seq<Api>) -> Seq<ApiView> {
    s.map_values(|a: Api| a@)
}

impl View for Category {
    type V = CategoryView;

    open spec fn view(&self) -> CategoryView {
        CategoryView { title: self.title@, items: apis_view(self.items@) }
    }
}

/// The views of a sequence of categories.
pub open spec fn cats_view(s: Seq<Category>) -> Seq<CategoryView> {
    s.map_values(|c: Category| c@)
}

/// The entry an entry element yields: its first descendant link's joined
/// text and `href` value, or the error for a missing link or target.
pub open spec fn spec_api(dd: DomNode) -> Result<ApiView, ExtractError> {
    let links = descendants_named(dd, "a"@);
    if links.len() == 0 {
        Err(ExtractError::MissingEntryLink)
    } else {
        match node_attr(links[0], "href"@) {
            None => Err(ExtractError::MissingSpecHref),
            Some(h) => Ok(ApiView { name: joined_text(links[0]), spec_link: h }),
        }
    }
}

/// The entries a sequence of entry elements yields: each in turn, the
/// first error aborting the whole extraction.
pub open spec fn spec_apis(dds: Seq<DomNode>) -> Result<Seq<ApiView>, ExtractError>
    decreases dds.len(),
{
    if dds.len() == 0 {
        Ok(Seq::empty())
    } else {
        match spec_api(dds[0]) {
            Err(e) => Err(e),
            Ok(a) => match spec_apis(dds.drop_first()) {
                Err(e) => Err(e),
                Ok(rest) => Ok(seq![a] + rest),
            },
        }
    }
}

/// The category a definition list yields: the joined text of its first
/// term element as title, its entry elements' entries as items.
pub open spec fn spec_category(dl: DomNode) -> Result<CategoryView, ExtractError> {
    let dts = descendants_named(dl, "dt"@);
    if dts.len() == 0 {
        Err(ExtractError::MissingCategoryTitle)
    } else {
        match spec_apis(descendants_named(dl, "dd"@)) {
            Err(e) => Err(e),
            Ok(items) => Ok(CategoryView { title: joined_text(dts[0]), items }),
        }
    }
}

/// The categories a sequence of definition lists yields, in order, those
/// titled "Various other" left out; the first error aborts the whole
/// extraction, whether or not its list would have been left out.
pub open spec fn spec_categories(dls: Seq<DomNode>) -> Result<Seq<CategoryView>, ExtractError>
    decreases dls.len(),
{
    if dls.len() == 0 {
        Ok(Seq::empty())
    } else {
        match spec_category(dls[0]) {
            Err(e) => Err(e),
            Ok(c) => match spec_categories(dls.drop_first()) {
                Err(e) => Err(e),
                Ok(rest) => Ok(
                    if c.title == "Various other"@ {
                        rest
                    } else {
                        seq![c] + rest
                    },
                ),
            },
        }
    }
}

/// The catalog a document yields: the categories of the definition lists
/// of the first content region, in document order, or
/// `ContentRegionNotFound` if the document has no content region.
pub open spec fn spec_extract(doc: DomNode) -> Result<Seq<CategoryView>, ExtractError> {
    let regions = content_regions(doc);
    if regions.len() == 0 {
        Err(ExtractError::ContentRegionNotFound)
    } else {
        spec_categories(descendants_named(regions[0], "dl"@))
    }
}

impl Api {
    /// An entry from its parts.
    pub fn new(name: String, spec_link: String) -> (r: Api)
        ensures
            r@ == (ApiView { name: name@, spec_link: spec_link@ }),
    {
        Api { name, spec_link }
    }

    /// The display name of the API.
    pub fn name(&self) -> (r: &String)
        ensures
            r@ == self@.name,
    {
        &self.name
    }

    /// The link to the API specification.
    pub fn spec_link(&self) -> (r: &String)
        ensures
            r@ == self@.spec_link,
    {
        &self.spec_link
    }

    /// The entry of one entry element, as [`spec_api`] gives it.
    pub fn from_html(el: &DomNode) -> (r: Result<Api, ExtractError>)
        ensures
            match r {
                Ok(a) => spec_api(*el) == Ok::<ApiView, ExtractError>(a@),
                Err(e) => spec_api(*el) == Err::<ApiView, ExtractError>(e),
            },
    {
        let links = find_descendants(el, &Query::Tag("a"));
        if links.len() == 0 {
            return Err(ExtractError::MissingEntryLink);
        }
        let link = links[0];
        proof {
            assert(*link == descendants_named(*el, "a"@)[0]);
        }
        match link {
            DomNode::Text(_) => Err(ExtractError::MissingSpecHref),
            DomNode::Element { attrs, .. } => match find_attr(attrs, "href") {
                None => Err(ExtractError::MissingSpecHref),
                Some(h) => Ok(Api { name: join_text(link), spec_link: h.clone() }),
            },
        }
    }
}

impl Category {
    /// The category of one definition list, as [`spec_category`] gives it.
    pub fn from_html(el: &DomNode) -> (r: Result<Category, ExtractError>)
        ensures
            match r {
                Ok(c) => spec_category(*el) == Ok::<CategoryView, ExtractError>(c@),
                Err(e) => spec_category(*el) == Err::<CategoryView, ExtractError>(e),
            },
    {
        let title = match Self::title(el) {
            Ok(t) => t,
            Err(e) => {
                return Err(e);
            },
        };
        let items = match Self::items(el) {
            Ok(v) => v,
            Err(e) => {
                return Err(e);
            },
        };
        Ok(Category { title, items })
    }

    /// The joined text of the list's first term element.
    fn title(el: &DomNode) -> (r: Result<String, ExtractError>)
        ensures
            match r {
                Ok(t) => descendants_named(*el, "dt"@).len() > 0 && t@ == joined_text(
                    descendants_named(*el, "dt"@)[0],
                ),
                Err(e) => descendants_named(*el, "dt"@).len() == 0 && e
                    == ExtractError::MissingCategoryTitle,
            },
    {
        let dts = find_descendants(el, &Query::Tag("dt"));
        if dts.len() == 0 {
            return Err(ExtractError::MissingCategoryTitle);
        }
        proof {
            assert(*dts@[0] == descendants_named(*el, "dt"@)[0]);
        }
        Ok(join_text(dts[0]))
    }

    /// The entries of the list's entry elements, in document order.
    fn items(el: &DomNode) -> (r: Result<Vec<Api>, ExtractError>)
        ensures
            match r {
                Ok(v) => spec_apis(descendants_named(*el, "dd"@)) == Ok::<
                    Seq<ApiView>,
                    ExtractError,
                >(apis_view(v@)),
                Err(e) => spec_apis(descendants_named(*el, "dd"@)) == Err::<
                    Seq<ApiView>,
                    ExtractError,
                >(e),
            },
    {
        let dds = find_descendants(el, &Query::Tag("dd"));
        let ghost s = descendants_named(*el, "dd"@);
        let mut out: Vec<Api> = Vec::new();
        let k = dds.len();
        proof {
            assert(s.skip(0) =~= s);
            assert(apis_view(out@) =~= Seq::<ApiView>::empty());
        }
        for i in 0..k
            invariant
                k == dds@.len(),
                s == descendants_named(*el, "dd"@),
                refs_view(dds@) == s,
                match spec_apis(s.skip(i as int)) {
                    Ok(rest) => spec_apis(s) == Ok::<Seq<ApiView>, ExtractError>(
                        apis_view(out@) + rest,
                    ),
                    Err(e) => spec_apis(s) == Err::<Seq<ApiView>, ExtractError>(e),
                },
        {
            proof {
                assert(*dds@[i as int] == s[i as int]);
                assert(s.skip(i as int)[0] == s[i as int]);
                assert(s.skip(i as int).drop_first() =~= s.skip(i + 1));
            }
            match Api::from_html(dds[i]) {
                Err(e) => {
                    return Err(e);
                },
                Ok(a) => {
                    let ghost prev = out@;
                    out.push(a);
                    proof {
                        assert(apis_view(prev.push(a)) =~= apis_view(prev).push(a@));
                        if spec_apis(s.skip(i + 1)) is Ok {
                            let rest = spec_apis(s.skip(i + 1))->Ok_0;
                            assert(apis_view(prev) + (seq![a@] + rest) =~= apis_view(out@) + rest);
                        }
                    }
                },
            }
        }
        proof {
            assert(s.skip(k as int) =~= Seq::<DomNode>::empty());
            assert(apis_view(out@) + Seq::<ApiView>::empty() =~= apis_view(out@));
        }
        Ok(out)
    }
}

/// The catalog of a document tree, as [`spec_extract`] gives it: the
/// categories of the content region's definition lists in document
/// order, those titled "Various other" left out, or the first error.
pub fn extract_from_node(doc: &DomNode) -> (r: Result<Vec<Category>, ExtractError>)
    ensures
        match r {
            Ok(cats) => spec_extract(*doc) == Ok::<Seq<CategoryView>, ExtractError>(
                cats_view(cats@),
            ),
            Err(e) => spec_extract(*doc) == Err::<Seq<CategoryView>, ExtractError>(e),
        },
{
    let regions = find_descendants(doc, &Query::Region);
    if regions.len() == 0 {
        return Err(ExtractError::ContentRegionNotFound);
    }
    let region = regions[0];
    proof {
        assert(*region == content_regions(*doc)[0]);
    }
    let dls = find_descendants(region, &Query::Tag("dl"));
    let ghost s = descendants_named(*region, "dl"@);
    let mut out: Vec<Category> = Vec::new();
    let k = dls.len();
    proof {
        assert(s.skip(0) =~= s);
        assert(cats_view(out@) =~= Seq::<CategoryView>::empty());
    }
    for i in 0..k
        invariant
            k == dls@.len(),
            s == descendants_named(*region, "dl"@),
            refs_view(dls@) == s,
            spec_extract(*doc) == spec_categories(s),
            match spec_categories(s.skip(i as int)) {
                Ok(rest) => spec_categories(s) == Ok::<Seq<CategoryView>, ExtractError>(
                    cats_view(out@) + rest,
                ),
                Err(e) => spec_categories(s) == Err::<Seq<CategoryView>, ExtractError>(e),
            },
    {
        proof {
            assert(*dls@[i as int] == s[i as int]);
            assert(s.skip(i as int)[0] == s[i as int]);
            assert(s.skip(i as int).drop_first() =~= s.skip(i + 1));
        }
        match Category::from_html(dls[i]) {
            Err(e) => {
                return Err(e);
            },
            Ok(c) => {
                let keep = !str_eq(c.title.as_str(), "Various other");
                let ghost prev = out@;
                if keep {
                    out.push(c);
                }
                proof {
                    if spec_categories(s.skip(i + 1)) is Ok {
                        let rest = spec_categories(s.skip(i + 1))->Ok_0;
                        if keep {
                            assert(cats_view(prev.push(c)) =~= cats_view(prev).push(c@));
                            assert(cats_view(prev) + (seq![c@] + rest) =~= cats_view(out@) + rest);
                        }
                    }
                }
            },
        }
    }
    proof {
        assert(s.skip(k as int) =~= Seq::<DomNode>::empty());
        assert(cats_view(out@) + Seq::<CategoryView>::empty() =~= cats_view(out@));
    }
    Ok(out)
}

} // verus!
