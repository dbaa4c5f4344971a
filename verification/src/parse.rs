//! Re-parsing rendered catalog text, and the proof that rendering loses
//! nothing: the rendered text parses back to the very same catalog.

use vstd::prelude::*;
use crate::extract::{ApiView, CategoryView};
use crate::render::{api_line_body, render_api_line, render_apis, render_category, render_categories};

verus! {

/// The characters before the first newline, or nothing if no newline
/// follows.
pub open spec fn upto_nl(s: Seq<char>) -> Option<Seq<char>>
    decreases s.len(),
{
    if s.len() == 0 {
        None
    } else if s[0] == '\n' {
        Some(Seq::empty())
    } else {
        match upto_nl(s.drop_first()) {
            None => None,
            Some(t) => Some(seq![s[0]] + t),
        }
    }
}

/// A line found by [`upto_nl`] is shorter than the text holding it.
pub proof fn lemma_upto_nl_len(s: Seq<char>)
    ensures
        upto_nl(s) matches Some(l) ==> l.len() < s.len(),
    decreases s.len(),
{
    if s.len() > 0 && s[0] != '\n' {
        lemma_upto_nl_len(s.drop_first());
    }
}

/// The newline-terminated lines of a text, terminators dropped, or
/// nothing if the text does not end in a newline.
pub open spec fn lines_of(s: Seq<char>) -> Option<Seq<Seq<char>>>
    decreases s.len(),
    via lines_of_decreases
{
    if s.len() == 0 {
        Some(Seq::empty())
    } else {
        match upto_nl(s) {
            None => None,
            Some(l) => match lines_of(s.skip(l.len() as int + 1)) {
                None => None,
                Some(ls) => Some(seq![l] + ls),
            },
        }
    }
}

#[via_fn]
proof fn lines_of_decreases(s: Seq<char>) {
    lemma_upto_nl_len(s);
}

/// The characters before the first `](` pair, or nothing if no such
/// pair occurs.
pub open spec fn upto_mark(s: Seq<char>) -> Option<Seq<char>>
    decreases s.len(),
{
    if s.len() < 2 {
        None
    } else if s[0] == ']' && s[1] == '(' {
        Some(Seq::empty())
    } else {
        match upto_mark(s.drop_first()) {
            None => None,
            Some(t) => Some(seq![s[0]] + t),
        }
    }
}

/// The entry an entry line stands for: `  - [`, the name up to the first
/// `](`, the link, and a closing `)`.
pub open spec fn parse_api_line(l: Seq<char>) -> Option<ApiView> {
    if l.len() < 5 || l.take(5) != "  - ["@ {
        None
    } else {
        let s = l.skip(5);
        match upto_mark(s) {
            None => None,
            Some(name) => {
                let rest = s.skip(name.len() as int + 2);
                if rest.len() >= 1 && rest[rest.len() - 1] == ')' {
                    Some(ApiView { name, spec_link: rest.take(rest.len() - 1) })
                } else {
                    None
                }
            },
        }
    }
}

/// Whether a line opens a category block.
pub open spec fn is_title_line(l: Seq<char>) -> bool {
    l.len() >= 2 && l.take(2) == "# "@
}

/// How many leading lines parse as entry lines.
pub open spec fn count_api_lines(ls: Seq<Seq<char>>) -> nat
    decreases ls.len(),
{
    if ls.len() == 0 {
        0
    } else if parse_api_line(ls[0]) is Some {
        1 + count_api_lines(ls.drop_first())
    } else {
        0
    }
}

/// No more entry lines than lines.
pub proof fn lemma_count_api_lines_le(ls: Seq<Seq<char>>)
    ensures
        count_api_lines(ls) <= ls.len(),
    decreases ls.len(),
{
    if ls.len() > 0 && parse_api_line(ls[0]) is Some {
        lemma_count_api_lines_le(ls.drop_first());
    }
}

/// The entries of a run of entry lines.
pub open spec fn apis_of_lines(ls: Seq<Seq<char>>) -> Seq<ApiView> {
    ls.map_values(|l: Seq<char>| parse_api_line(l)->Some_0)
}

/// The catalog a sequence of lines stands for: blocks of a title line,
/// entry lines, and a closing blank line.
pub open spec fn parse_blocks(ls: Seq<Seq<char>>) -> Option<Seq<CategoryView>>
    decreases ls.len(),
    via parse_blocks_decreases
{
    if ls.len() == 0 {
        Some(Seq::empty())
    } else if !is_title_line(ls[0]) {
        None
    } else {
        let title = ls[0].skip(2);
        let body = ls.drop_first();
        let k = count_api_lines(body) as int;
        let items = apis_of_lines(body.take(k));
        let after = body.skip(k);
        if after.len() == 0 || after[0].len() != 0 {
            None
        } else {
            match parse_blocks(after.drop_first()) {
                None => None,
                Some(rest) => Some(seq![CategoryView { title, items }] + rest),
            }
        }
    }
}

#[via_fn]
proof fn parse_blocks_decreases(ls: Seq<Seq<char>>) {
    if ls.len() > 0 {
        lemma_count_api_lines_le(ls.drop_first());
    }
}

/// The catalog a rendered text stands for, if it has the rendered shape.
pub open spec fn parse_rendered(s: Seq<char>) -> Option<Seq<CategoryView>> {
    match lines_of(s) {
        None => None,
        Some(ls) => parse_blocks(ls),
    }
}

/// No newline among the characters.
pub open spec fn no_nl(s: Seq<char>) -> bool {
    forall|i: int| 0 <= i < s.len() ==> #[trigger] s[i] != '\n'
}

/// No `](` pair among the characters.
pub open spec fn no_mark(s: Seq<char>) -> bool {
    forall|i: int| 0 <= i && i + 1 < s.len() ==> !(#[trigger] s[i] == ']' && s[i + 1] == '(')
}

/// An entry whose line re-parses: no newline in name or link, and no
/// `](` pair in the name.
pub open spec fn renderable_api(a: ApiView) -> bool {
    no_nl(a.name) && no_mark(a.name) && no_nl(a.spec_link)
}

/// A category whose block re-parses: no newline in the title, every
/// entry renderable.
pub open spec fn renderable_category(c: CategoryView) -> bool {
    no_nl(c.title) && forall|i: int| 0 <= i < c.items.len() ==> renderable_api(#[trigger] c.items[i])
}

/// A catalog whose rendered text re-parses.
pub open spec fn renderable(cs: Seq<CategoryView>) -> bool {
    forall|i: int| 0 <= i < cs.len() ==> renderable_category(#[trigger] cs[i])
}


/// Newline-freedom carries over concatenation.
pub proof fn lemma_no_nl_concat(a: Seq<char>, b: Seq<char>)
    requires
        no_nl(a),
        no_nl(b),
    ensures
        no_nl(a + b),
{
    assert forall|i: int| 0 <= i < (a + b).len() implies #[trigger] (a + b)[i] != '\n' by {
        if i < a.len() {
            assert((a + b)[i] == a[i]);
        } else {
            assert((a + b)[i] == b[i - a.len()]);
        }
    }
}

/// The first line of a newline-free prefix followed by a newline is
/// that prefix.
proof fn lemma_upto_nl_of(a: Seq<char>, s: Seq<char>)
    requires
        no_nl(a),
        s.len() > 0,
        s[0] == '\n',
    ensures
        upto_nl(a + s) == Some(a),
    decreases a.len(),
{
    if a.len() == 0 {
        assert(a + s =~= s);
    } else {
        assert((a + s)[0] == a[0]);
        assert((a + s).drop_first() =~= a.drop_first() + s);
        assert forall|i: int| 0 <= i < a.drop_first().len() implies #[trigger] a.drop_first()[i]
            != '\n' by {
            assert(a.drop_first()[i] == a[i + 1]);
        }
        lemma_upto_nl_of(a.drop_first(), s);
        assert(seq![a[0]] + a.drop_first() =~= a);
    }
}

/// A first line is unchanged by text appended after it.
proof fn lemma_upto_nl_prefix(a: Seq<char>, b: Seq<char>)
    requires
        upto_nl(a) is Some,
    ensures
        upto_nl(a + b) == upto_nl(a),
    decreases a.len(),
{
    if a.len() > 0 {
        assert((a + b)[0] == a[0]);
        if a[0] != '\n' {
            assert((a + b).drop_first() =~= a.drop_first() + b);
            lemma_upto_nl_prefix(a.drop_first(), b);
        }
    }
}

/// The lines of a concatenation are the lines of the parts, when the
/// first part splits into lines.
proof fn lemma_lines_of_concat(a: Seq<char>, b: Seq<char>)
    requires
        lines_of(a) is Some,
    ensures
        lines_of(a + b) == match lines_of(b) {
            None => None,
            Some(lb) => Some(lines_of(a)->Some_0 + lb),
        },
    decreases a.len(),
{
    if a.len() == 0 {
        assert(a + b =~= b);
        if lines_of(b) is Some {
            assert(Seq::<Seq<char>>::empty() + lines_of(b)->Some_0 =~= lines_of(b)->Some_0);
        }
    } else {
        let l = upto_nl(a)->Some_0;
        lemma_upto_nl_prefix(a, b);
        lemma_upto_nl_len(a);
        assert((a + b).skip(l.len() as int + 1) =~= a.skip(l.len() as int + 1) + b);
        lemma_lines_of_concat(a.skip(l.len() as int + 1), b);
        if lines_of(b) is Some {
            let la = lines_of(a)->Some_0;
            let lr = lines_of(a.skip(l.len() as int + 1))->Some_0;
            let lb = lines_of(b)->Some_0;
            assert(seq![l] + (lr + lb) =~= (seq![l] + lr) + lb);
        }
    }
}

/// The lines of one newline-terminated, newline-free line.
proof fn lemma_lines_of_line(body: Seq<char>)
    requires
        no_nl(body),
    ensures
        lines_of(body + "\n"@) == Some(seq![body]),
{
    reveal_strlit("\n");
    lemma_upto_nl_of(body, "\n"@);
    assert((body + "\n"@).len() > 0);
    assert((body + "\n"@).skip(body.len() as int + 1) =~= Seq::<char>::empty());
    assert(lines_of(Seq::<char>::empty()) == Some(Seq::<Seq<char>>::empty()));
    assert(seq![body] + Seq::<Seq<char>>::empty() =~= seq![body]);
}

/// The first name of a mark-free prefix followed by a mark is that
/// prefix.
proof fn lemma_upto_mark_of(a: Seq<char>, s: Seq<char>)
    requires
        no_mark(a),
        s.len() >= 2,
        s[0] == ']',
        s[1] == '(',
    ensures
        upto_mark(a + s) == Some(a),
    decreases a.len(),
{
    if a.len() == 0 {
        assert(a + s =~= s);
    } else {
        let t = a + s;
        assert(t[0] == a[0]);
        if a.len() >= 2 {
            assert(t[1] == a[1]);
            assert(!(a[0] == ']' && a[1] == '('));
        } else {
            assert(t[1] == s[0]);
        }
        assert(t.drop_first() =~= a.drop_first() + s);
        assert forall|i: int| 0 <= i && i + 1 < a.drop_first().len() implies !(
        #[trigger] a.drop_first()[i] == ']' && a.drop_first()[i + 1] == '(') by {
            assert(a.drop_first()[i] == a[i + 1]);
            assert(a.drop_first()[i + 1] == a[i + 2]);
        }
        lemma_upto_mark_of(a.drop_first(), s);
        assert(seq![a[0]] + a.drop_first() =~= a);
    }
}

/// A renderable entry's line parses back to the entry.
pub proof fn lemma_parse_api_line(a: ApiView)
    requires
        renderable_api(a),
    ensures
        parse_api_line(api_line_body(a)) == Some(a),
{
    reveal_strlit("  - [");
    reveal_strlit("](");
    reveal_strlit(")");
    let l = api_line_body(a);
    assert(l.len() == 5 + a.name.len() + 2 + a.spec_link.len() + 1);
    assert(l.take(5) =~= "  - ["@);
    let s = l.skip(5);
    let tail = "]("@ + a.spec_link + ")"@;
    assert(s =~= a.name + tail);
    assert(tail[0] == ']');
    assert(tail[1] == '(');
    lemma_upto_mark_of(a.name, tail);
    assert(upto_mark(s) == Some(a.name));
    let rest = s.skip(a.name.len() as int + 2);
    assert(rest =~= a.spec_link + ")"@);
    assert(rest[rest.len() - 1] == ')');
    assert(rest.take(rest.len() - 1) =~= a.spec_link);
    assert(parse_api_line(l)->Some_0 == a);
}

/// The line bodies a run of entries renders to.
pub open spec fn api_lines(items: Seq<ApiView>) -> Seq<Seq<char>> {
    items.map_values(|a: ApiView| api_line_body(a))
}

/// An entry's line body holds no newline.
proof fn lemma_api_line_no_nl(a: ApiView)
    requires
        renderable_api(a),
    ensures
        no_nl(api_line_body(a)),
{
    reveal_strlit("  - [");
    reveal_strlit("](");
    reveal_strlit(")");
    lemma_no_nl_concat("  - ["@, a.name);
    lemma_no_nl_concat("  - ["@ + a.name, "]("@);
    lemma_no_nl_concat("  - ["@ + a.name + "]("@, a.spec_link);
    lemma_no_nl_concat("  - ["@ + a.name + "]("@ + a.spec_link, ")"@);
}

/// The rendered entry lines split into the entries' line bodies.
proof fn lemma_lines_of_apis(items: Seq<ApiView>)
    requires
        forall|i: int| 0 <= i < items.len() ==> renderable_api(#[trigger] items[i]),
    ensures
        lines_of(render_apis(items)) == Some(api_lines(items)),
    decreases items.len(),
{
    if items.len() == 0 {
        assert(api_lines(items) =~= Seq::<Seq<char>>::empty());
    } else {
        lemma_api_line_no_nl(items[0]);
        lemma_lines_of_line(api_line_body(items[0]));
        lemma_lines_of_apis(items.drop_first());
        lemma_lines_of_concat(render_api_line(items[0]), render_apis(items.drop_first()));
        assert(api_lines(items) =~= seq![api_line_body(items[0])] + api_lines(
            items.drop_first(),
        ));
    }
}

/// The lines one category's block renders to: its title line, its entry
/// line bodies, and a blank line.
pub open spec fn block_lines(c: CategoryView) -> Seq<Seq<char>> {
    seq!["# "@ + c.title] + api_lines(c.items) + seq![Seq::<char>::empty()]
}

/// A renderable category's block splits into its block lines.
proof fn lemma_lines_of_block(c: CategoryView)
    requires
        renderable_category(c),
    ensures
        lines_of(render_category(c)) == Some(block_lines(c)),
{
    reveal_strlit("# ");
    reveal_strlit("\n");
    let title_line = "# "@ + c.title;
    let head = title_line + "\n"@;
    let body = render_apis(c.items);
    assert(render_category(c) =~= head + (body + "\n"@));
    lemma_no_nl_concat("# "@, c.title);
    lemma_lines_of_line(title_line);
    lemma_lines_of_apis(c.items);
    assert(Seq::<char>::empty() + "\n"@ =~= "\n"@);
    lemma_lines_of_line(Seq::<char>::empty());
    lemma_lines_of_concat(body, "\n"@);
    lemma_lines_of_concat(head, body + "\n"@);
    assert(seq![title_line] + (api_lines(c.items) + seq![Seq::<char>::empty()]) =~= block_lines(
        c,
    ));
}

/// Entry lines count up to the first line that is not one.
proof fn lemma_count_of(als: Seq<Seq<char>>, rest: Seq<Seq<char>>)
    requires
        forall|i: int| 0 <= i < als.len() ==> parse_api_line(#[trigger] als[i]) is Some,
        rest.len() > 0,
        parse_api_line(rest[0]) is None,
    ensures
        count_api_lines(als + rest) == als.len(),
    decreases als.len(),
{
    if als.len() == 0 {
        assert(als + rest =~= rest);
    } else {
        assert((als + rest)[0] == als[0]);
        assert((als + rest).drop_first() =~= als.drop_first() + rest);
        assert forall|i: int| 0 <= i < als.drop_first().len() implies parse_api_line(
            #[trigger] als.drop_first()[i],
        ) is Some by {
            assert(als.drop_first()[i] == als[i + 1]);
        }
        lemma_count_of(als.drop_first(), rest);
    }
}

/// The lines of all blocks of a catalog, in order.
pub open spec fn all_block_lines(cs: Seq<CategoryView>) -> Seq<Seq<char>>
    decreases cs.len(),
{
    if cs.len() == 0 {
        Seq::empty()
    } else {
        block_lines(cs[0]) + all_block_lines(cs.drop_first())
    }
}

/// A renderable catalog's block lines parse back to the catalog.
proof fn lemma_parse_blocks(cs: Seq<CategoryView>)
    requires
        renderable(cs),
    ensures
        parse_blocks(all_block_lines(cs)) == Some(cs),
    decreases cs.len(),
{
    reveal_strlit("# ");
    if cs.len() == 0 {
    } else {
        let c = cs[0];
        let ls = all_block_lines(cs);
        let title_line = "# "@ + c.title;
        assert(ls[0] == title_line);
        assert(title_line.take(2) =~= "# "@);
        assert(is_title_line(ls[0]));
        assert(ls[0].skip(2) =~= c.title);
        let body = ls.drop_first();
        let after_items = seq![Seq::<char>::empty()] + all_block_lines(cs.drop_first());
        assert(body =~= api_lines(c.items) + after_items);
        assert forall|i: int| 0 <= i < api_lines(c.items).len() implies parse_api_line(
            #[trigger] api_lines(c.items)[i],
        ) is Some by {
            lemma_parse_api_line(c.items[i]);
        }
        assert(after_items[0].len() == 0);
        assert(parse_api_line(after_items[0]) is None);
        lemma_count_of(api_lines(c.items), after_items);
        let k = count_api_lines(body) as int;
        assert(k == c.items.len());
        assert(body.take(k) =~= api_lines(c.items));
        assert forall|i: int| 0 <= i < c.items.len() implies #[trigger] apis_of_lines(
            body.take(k),
        )[i] == c.items[i] by {
            lemma_parse_api_line(c.items[i]);
        }
        assert(apis_of_lines(body.take(k)) =~= c.items);
        let after = body.skip(k);
        assert(after =~= after_items);
        assert(after.drop_first() =~= all_block_lines(cs.drop_first()));
        assert forall|i: int| 0 <= i < cs.drop_first().len() implies renderable_category(
            #[trigger] cs.drop_first()[i],
        ) by {
            assert(cs.drop_first()[i] == cs[i + 1]);
        }
        lemma_parse_blocks(cs.drop_first());
        assert(CategoryView { title: ls[0].skip(2), items: apis_of_lines(body.take(k)) } == c);
        assert(seq![c] + cs.drop_first() =~= cs);
    }
}

/// A renderable catalog's rendered text splits into all its block lines.
proof fn lemma_lines_of_catalog(cs: Seq<CategoryView>)
    requires
        renderable(cs),
    ensures
        lines_of(render_categories(cs)) == Some(all_block_lines(cs)),
    decreases cs.len(),
{
    if cs.len() == 0 {
        assert(all_block_lines(cs) =~= Seq::<Seq<char>>::empty());
    } else {
        lemma_lines_of_block(cs[0]);
        assert forall|i: int| 0 <= i < cs.drop_first().len() implies renderable_category(
            #[trigger] cs.drop_first()[i],
        ) by {
            assert(cs.drop_first()[i] == cs[i + 1]);
        }
        lemma_lines_of_catalog(cs.drop_first());
        lemma_lines_of_concat(render_category(cs[0]), render_categories(cs.drop_first()));
    }
}

/// Law: rendering loses nothing. The text a renderable catalog renders
/// to parses back to the very same catalog, titles, names and links in
/// the same order.
pub proof fn lemma_render_round_trip(cs: Seq<CategoryView>)
    requires
        renderable(cs),
    ensures
        parse_rendered(render_categories(cs)) == Some(cs),
{
    lemma_lines_of_catalog(cs);
    lemma_parse_blocks(cs);
}

} // verus!
