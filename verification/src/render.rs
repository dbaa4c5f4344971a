//! Rendering the catalog as text: one block per category, a `# `-headed
//! title line, one `  - [name](link)` line per entry, and a blank line
//! closing each block.

use vstd::prelude::*;
use crate::extract::{Api, ApiView, Category, CategoryView, apis_view, cats_view};
use crate::dom::str_eq;

verus! {

/// The line one entry renders to, without its newline.
pub open spec fn api_line_body(a: ApiView) -> Seq<char> {
    "  - ["@ + a.name + "]("@ + a.spec_link + ")"@
}

/// The line one entry renders to, newline included.
pub open spec fn render_api_line(a: ApiView) -> Seq<char> {
    api_line_body(a) + "\n"@
}

/// The lines a category's entries render to, in order.
pub open spec fn render_apis(items: Seq<ApiView>) -> Seq<char>
    decreases items.len(),
{
    if items.len() == 0 {
        Seq::empty()
    } else {
        render_api_line(items[0]) + render_apis(items.drop_first())
    }
}

/// The block one category renders to: its title line, its entry lines,
/// and a closing blank line.
pub open spec fn render_category(c: CategoryView) -> Seq<char> {
    "# "@ + c.title + "\n"@ + render_apis(c.items) + "\n"@
}

/// The text a catalog renders to: the categories' blocks in order.
pub open spec fn render_categories(cs: Seq<CategoryView>) -> Seq<char>
    decreases cs.len(),
{
    if cs.len() == 0 {
        Seq::empty()
    } else {
        render_category(cs[0]) + render_categories(cs.drop_first())
    }
}

/// Renders one entry's line onto the end of `out`.
fn push_api_line(a: &Api, out: &mut String)
    ensures
        final(out)@ == old(out)@ + render_api_line(a@),
{
    out.append("  - [");
    out.append(a.name().as_str());
    out.append("](");
    out.append(a.spec_link().as_str());
    out.append(")\n");
    proof {
        reveal_strlit(")");
        reveal_strlit("\n");
        reveal_strlit(")\n");
        assert(")\n"@ =~= ")"@ + "\n"@);
        assert(final(out)@ =~= old(out)@ + render_api_line(a@));
    }
}

/// Renders one category's block onto the end of `out`.
fn push_category(c: &Category, out: &mut String)
    ensures
        final(out)@ == old(out)@ + render_category(c@),
{
    out.append("# ");
    out.append(c.title.as_str());
    out.append("\n");
    let k = c.items.len();
    let ghost items = apis_view(c.items@);
    let ghost mid = out@;
    proof {
        assert(render_apis(items.take(0)) =~= Seq::<char>::empty());
        assert(out@ =~= mid + render_apis(items.take(0)));
    }
    for i in 0..k
        invariant
            k == c.items@.len(),
            items == apis_view(c.items@),
            out@ == mid + render_apis(items.take(i as int)),
        decreases k - i,
    {
        push_api_line(&c.items[i], out);
        proof {
            lemma_render_apis_push(items.take(i as int), items[i as int]);
            assert(items.take(i + 1) =~= items.take(i as int).push(items[i as int]));
            assert(out@ =~= mid + render_apis(items.take(i + 1)));
        }
    }
    out.append("\n");
    proof {
        assert(items.take(k as int) =~= items);
        assert(out@ =~= old(out)@ + render_category(c@));
    }
}

/// Rendering one more entry appends its line.
pub proof fn lemma_render_apis_push(items: Seq<ApiView>, x: ApiView)
    ensures
        render_apis(items.push(x)) == render_apis(items) + render_api_line(x),
    decreases items.len(),
{
    if items.len() == 0 {
        assert(items.push(x).drop_first() =~= items);
        assert(render_apis(items.push(x)) =~= render_apis(items) + render_api_line(x));
    } else {
        assert(items.push(x).drop_first() =~= items.drop_first().push(x));
        lemma_render_apis_push(items.drop_first(), x);
        assert(render_apis(items.push(x)) =~= render_apis(items) + render_api_line(x));
    }
}

/// Rendering one more category appends its block.
pub proof fn lemma_render_categories_push(cs: Seq<CategoryView>, x: CategoryView)
    ensures
        render_categories(cs.push(x)) == render_categories(cs) + render_category(x),
    decreases cs.len(),
{
    if cs.len() == 0 {
        assert(cs.push(x).drop_first() =~= cs);
        assert(render_categories(cs.push(x)) =~= render_categories(cs) + render_category(x));
    } else {
        assert(cs.push(x).drop_first() =~= cs.drop_first().push(x));
        lemma_render_categories_push(cs.drop_first(), x);
        assert(render_categories(cs.push(x)) =~= render_categories(cs) + render_category(x));
    }
}

/// The text of the whole catalog, as [`render_categories`] gives it.
pub fn render(cats: &Vec<Category>) -> (r: String)
    ensures
        r@ == render_categories(cats_view(cats@)),
{
    let mut out = String::new();
    let k = cats.len();
    let ghost cs = cats_view(cats@);
    proof {
        assert(render_categories(cs.take(0)) =~= Seq::<char>::empty());
        assert(out@ =~= render_categories(cs.take(0)));
    }
    for i in 0..k
        invariant
            k == cats@.len(),
            cs == cats_view(cats@),
            out@ == render_categories(cs.take(i as int)),
        decreases k - i,
    {
        push_category(&cats[i], &mut out);
        proof {
            lemma_render_categories_push(cs.take(i as int), cs[i as int]);
            assert(cs.take(i + 1) =~= cs.take(i as int).push(cs[i as int]));
            assert(out@ =~= render_categories(cs.take(i + 1)));
        }
    }
    proof {
        assert(cs.take(k as int) =~= cs);
    }
    out
}

} // verus!
