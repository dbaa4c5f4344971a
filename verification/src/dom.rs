//! The document model: a tree of elements and text runs, with the
//! queries the catalog extraction needs — descendant lookup by tag
//! name, attribute lookup, and text joining.

use vstd::prelude::*;

verus! {

/// A document node: an element with a tag name, attributes and children,
/// or a run of text.
pub enum DomNode {
    Element { name: String, attrs: Vec<(String, String)>, children: Vec<DomNode> },
    Text(String),
}

/// The value of the first attribute called `name`, if any.
pub open spec fn attr_of(attrs: Seq<(String, String)>, name: Seq<char>) -> Option<Seq<char>>
    decreases attrs.len(),
{
    if attrs.len() == 0 {
        None
    } else if attrs[0].0@ == name {
        Some(attrs[0].1@)
    } else {
        attr_of(attrs.drop_first(), name)
    }
}

/// Whether `n` is an element whose tag name is `name`.
pub open spec fn is_elem_named(n: DomNode, name: Seq<char>) -> bool {
    match n {
        DomNode::Element { name: m, .. } => m@ == name,
        DomNode::Text(_) => false,
    }
}

/// All nodes of `n`'s subtree satisfying `p`, in document order,
/// `n` itself included.
pub open spec fn sub_matches(n: DomNode, p: spec_fn(DomNode) -> bool) -> Seq<DomNode>
    decreases n,
{
    match n {
        DomNode::Text(_) => if p(n) { seq![n] } else { Seq::empty() },
        DomNode::Element { children, .. } => (if p(n) { seq![n] } else {
            Seq::empty()
        }) + seq_matches(children@, p),
    }
}

/// All nodes of the subtrees of `ns` satisfying `p`, in document order.
pub open spec fn seq_matches(ns: Seq<DomNode>, p: spec_fn(DomNode) -> bool) -> Seq<DomNode>
    decreases ns,
{
    if ns.len() == 0 {
        Seq::empty()
    } else {
        sub_matches(ns[0], p) + seq_matches(ns.drop_first(), p)
    }
}

/// All proper descendants of `n` satisfying `p`, in document order.
pub open spec fn descendant_matches(n: DomNode, p: spec_fn(DomNode) -> bool) -> Seq<DomNode> {
    match n {
        DomNode::Text(_) => Seq::empty(),
        DomNode::Element { children, .. } => seq_matches(children@, p),
    }
}

/// The predicate of elements with tag name `name`.
pub open spec fn named_pred(name: Seq<char>) -> spec_fn(DomNode) -> bool {
    |m: DomNode| is_elem_named(m, name)
}

/// All proper descendant elements of `n` with tag name `name`,
/// in document order.
pub open spec fn descendants_named(n: DomNode, name: Seq<char>) -> Seq<DomNode> {
    descendant_matches(n, named_pred(name))
}

/// The value of `n`'s first attribute called `name`, if `n` is an
/// element that has one.
pub open spec fn node_attr(n: DomNode, name: Seq<char>) -> Option<Seq<char>> {
    match n {
        DomNode::Element { attrs, .. } => attr_of(attrs@, name),
        DomNode::Text(_) => None,
    }
}

/// Whether `n` is the content region: a `section` element whose `id`
/// attribute is `contentCols`.
pub open spec fn is_content_region(n: DomNode) -> bool {
    match n {
        DomNode::Element { name, attrs, .. } => name@ == "section"@ && attr_of(
            attrs@,
            "id"@,
        ) == Some("contentCols"@),
        DomNode::Text(_) => false,
    }
}

/// A descendant query: all elements with a given tag name, or all
/// content-region elements.
pub enum Query<'a> {
    Tag(&'a str),
    Region,
}

/// The predicate of content-region elements.
pub open spec fn region_pred() -> spec_fn(DomNode) -> bool {
    |m: DomNode| is_content_region(m)
}

/// All content-region elements among `n`'s proper descendants,
/// in document order.
pub open spec fn content_regions(n: DomNode) -> Seq<DomNode> {
    descendant_matches(n, region_pred())
}

/// The node predicate a query stands for.
pub open spec fn query_pred(q: Query) -> spec_fn(DomNode) -> bool {
    match q {
        Query::Tag(name) => named_pred(name@),
        Query::Region => region_pred(),
    }
}

/// Appending one more subtree extends the matches of a node sequence by
/// that subtree's matches.
pub proof fn lemma_seq_matches_push(ns: Seq<DomNode>, x: DomNode, p: spec_fn(DomNode) -> bool)
    ensures
        seq_matches(ns.push(x), p) == seq_matches(ns, p) + sub_matches(x, p),
    decreases ns.len(),
{
    if ns.len() == 0 {
        assert(ns.push(x).drop_first() =~= ns);
        assert(seq_matches(ns.push(x), p) =~= seq_matches(ns, p) + sub_matches(x, p));
    } else {
        assert(ns.push(x).drop_first() =~= ns.drop_first().push(x));
        lemma_seq_matches_push(ns.drop_first(), x, p);
        assert(seq_matches(ns.push(x), p) =~= seq_matches(ns, p) + sub_matches(x, p));
    }
}

/// Relies on str's `PartialEq`: two string slices are equal exactly when
/// their character sequences are.
#[verifier::external_body]
pub(crate) fn str_eq(a: &str, b: &str) -> (r: bool)
    ensures
        r == (a@ == b@),
{
    a == b
}

/// Whether `n` satisfies `q`, executably.
fn node_matches(n: &DomNode, q: &Query) -> (r: bool)
    ensures
        r == query_pred(*q)(*n),
{
    match n {
        DomNode::Text(_) => false,
        DomNode::Element { name, attrs, .. } => match q {
            Query::Tag(t) => str_eq(name.as_str(), *t),
            Query::Region => str_eq(name.as_str(), "section") && {
                match find_attr(attrs, "id") {
                    Some(v) => str_eq(v.as_str(), "contentCols"),
                    None => false,
                }
            },
        },
    }
}

/// The value of the first attribute called `name`, executably.
pub fn find_attr<'a>(attrs: &'a Vec<(String, String)>, name: &str) -> (r: Option<&'a String>)
    ensures
        match r {
            Some(v) => attr_of(attrs@, name@) == Some(v@),
            None => attr_of(attrs@, name@) is None,
        },
{
    let n = attrs.len();
    proof {
        assert(attrs@.skip(0) =~= attrs@);
    }
    for i in 0..n
        invariant
            n == attrs@.len(),
            attr_of(attrs@, name@) == attr_of(attrs@.skip(i as int), name@),
    {
        assert(attrs@.skip(i as int)[0] == attrs@[i as int]);
        if str_eq(attrs[i].0.as_str(), name) {
            return Some(&attrs[i].1);
        }
        assert(attrs@.skip(i as int).drop_first() =~= attrs@.skip(i + 1));
    }
    assert(attrs@.skip(n as int) =~= Seq::<(String, String)>::empty());
    None
}

/// The nodes a sequence of node references points at.
pub open spec fn refs_view(s: Seq<&DomNode>) -> Seq<DomNode> {
    s.map_values(|r: &DomNode| *r)
}

/// References to all matches in `n`'s subtree, `n` included, in
/// document order.
fn collect_sub<'a>(n: &'a DomNode, q: &Query) -> (r: Vec<&'a DomNode>)
    ensures
        refs_view(r@) == sub_matches(*n, query_pred(*q)),
    decreases *n,
{
    let ghost p = query_pred(*q);
    let mut out: Vec<&'a DomNode> = Vec::new();
    if node_matches(n, q) {
        out.push(n);
    }
    let ghost head = refs_view(out@);
    proof {
        assert(head =~= (if p(*n) {
            seq![*n]
        } else {
            Seq::<DomNode>::empty()
        }));
    }
    match n {
        DomNode::Text(_) => {
            proof {
                assert(refs_view(out@) =~= sub_matches(*n, p));
            }
        },
        DomNode::Element { children, .. } => {
            let m = children.len();
            proof {
                assert(children@.take(0) =~= Seq::<DomNode>::empty());
                assert(refs_view(out@) =~= head + seq_matches(children@.take(0), p));
            }
            for j in 0..m
                invariant
                    m == children@.len(),
                    p == query_pred(*q),
                    *n matches DomNode::Element { children: cs, .. } && cs == *children,
                    head == (if p(*n) {
                        seq![*n]
                    } else {
                        Seq::<DomNode>::empty()
                    }),
                    refs_view(out@) == head + seq_matches(children@.take(j as int), p),
                decreases m - j,
            {
                proof {
                    assert(decreases_to!(*n => *children));
                    assert(decreases_to!(*children => children[j as int]));
                }
                let ghost prev = out@;
                let mut sub = collect_sub(&children[j], q);
                let ghost subv = sub@;
                out.append(&mut sub);
                proof {
                    assert(refs_view(prev + subv) =~= refs_view(prev) + refs_view(subv));
                    lemma_seq_matches_push(children@.take(j as int), children@[j as int], p);
                    assert(children@.take(j + 1) =~= children@.take(j as int).push(
                        children@[j as int],
                    ));
                    assert(refs_view(out@) =~= head + seq_matches(children@.take(j + 1), p));
                }
            }
            proof {
                assert(children@.take(m as int) =~= children@);
                assert(refs_view(out@) =~= sub_matches(*n, p));
            }
        },
    }
    out
}

/// References to all proper descendants of `n` matching `q`,
/// in document order.
pub fn find_descendants<'a>(n: &'a DomNode, q: &Query) -> (r: Vec<&'a DomNode>)
    ensures
        refs_view(r@) == descendant_matches(*n, query_pred(*q)),
{
    let ghost p = query_pred(*q);
    let mut out: Vec<&'a DomNode> = Vec::new();
    match n {
        DomNode::Text(_) => {
            proof {
                assert(refs_view(out@) =~= descendant_matches(*n, p));
            }
        },
        DomNode::Element { children, .. } => {
            let m = children.len();
            proof {
                assert(children@.take(0) =~= Seq::<DomNode>::empty());
                assert(refs_view(out@) =~= seq_matches(children@.take(0), p));
            }
            for j in 0..m
                invariant
                    m == children@.len(),
                    p == query_pred(*q),
                    *n matches DomNode::Element { children: cs, .. } && cs == *children,
                    refs_view(out@) == seq_matches(children@.take(j as int), p),
            {
                let ghost prev = out@;
                let mut sub = collect_sub(&children[j], q);
                let ghost subv = sub@;
                out.append(&mut sub);
                proof {
                    assert(refs_view(prev + subv) =~= refs_view(prev) + refs_view(subv));
                    lemma_seq_matches_push(children@.take(j as int), children@[j as int], p);
                    assert(children@.take(j + 1) =~= children@.take(j as int).push(
                        children@[j as int],
                    ));
                    assert(refs_view(out@) =~= seq_matches(children@.take(j + 1), p));
                }
            }
            proof {
                assert(children@.take(m as int) =~= children@);
            }
        },
    }
    out
}


/// The text fragments of `n`'s subtree: one entry per text node,
/// in document order.
pub open spec fn frags(n: DomNode) -> Seq<Seq<char>>
    decreases n,
{
    match n {
        DomNode::Text(s) => seq![s@],
        DomNode::Element { children, .. } => seq_frags(children@),
    }
}

/// The text fragments of the subtrees of `ns`, in document order.
pub open spec fn seq_frags(ns: Seq<DomNode>) -> Seq<Seq<char>>
    decreases ns,
{
    if ns.len() == 0 {
        Seq::empty()
    } else {
        frags(ns[0]) + seq_frags(ns.drop_first())
    }
}

/// Fragments joined with a single space between one and the next;
/// no fragments yield the empty string.
pub open spec fn join_frags(fs: Seq<Seq<char>>) -> Seq<char>
    decreases fs.len(),
{
    if fs.len() == 0 {
        Seq::empty()
    } else if fs.len() == 1 {
        fs[0]
    } else {
        fs[0] + seq![' '] + join_frags(fs.drop_first())
    }
}

/// The joined text of `n`: its fragments joined with single spaces.
pub open spec fn joined_text(n: DomNode) -> Seq<char> {
    join_frags(frags(n))
}

/// Appending one more subtree extends the fragments of a node sequence
/// by that subtree's fragments.
pub proof fn lemma_seq_frags_push(ns: Seq<DomNode>, x: DomNode)
    ensures
        seq_frags(ns.push(x)) == seq_frags(ns) + frags(x),
    decreases ns.len(),
{
    if ns.len() == 0 {
        assert(ns.push(x).drop_first() =~= ns);
        assert(seq_frags(ns.push(x)) =~= seq_frags(ns) + frags(x));
    } else {
        assert(ns.push(x).drop_first() =~= ns.drop_first().push(x));
        lemma_seq_frags_push(ns.drop_first(), x);
        assert(seq_frags(ns.push(x)) =~= seq_frags(ns) + frags(x));
    }
}

/// Joining fragments with one more at the end appends a space and the
/// new fragment, unless there was nothing yet.
pub proof fn lemma_join_frags_push(fs: Seq<Seq<char>>, x: Seq<char>)
    ensures
        join_frags(fs.push(x)) == if fs.len() == 0 {
            x
        } else {
            join_frags(fs) + seq![' '] + x
        },
    decreases fs.len(),
{
    if fs.len() == 0 {
        assert(join_frags(fs.push(x)) == fs.push(x)[0]);
    } else if fs.len() == 1 {
        assert(fs.push(x).drop_first() =~= seq![x]);
        assert(join_frags(seq![x]) == seq![x][0]);
        assert(join_frags(fs.push(x)) =~= join_frags(fs) + seq![' '] + x);
    } else {
        assert(fs.push(x).drop_first() =~= fs.drop_first().push(x));
        lemma_join_frags_push(fs.drop_first(), x);
        assert(join_frags(fs.push(x)) =~= join_frags(fs) + seq![' '] + x);
    }
}

/// The character sequences a sequence of string references points at.
pub open spec fn strs_view(s: Seq<&String>) -> Seq<Seq<char>> {
    s.map_values(|r: &String| r@)
}

/// References to the text fragments of `n`'s subtree, in document order.
fn collect_frags<'a>(n: &'a DomNode) -> (r: Vec<&'a String>)
    ensures
        strs_view(r@) == frags(*n),
    decreases *n,
{
    let mut out: Vec<&'a String> = Vec::new();
    match n {
        DomNode::Text(t) => {
            out.push(t);
            proof {
                assert(strs_view(out@) =~= frags(*n));
            }
        },
        DomNode::Element { children, .. } => {
            let m = children.len();
            proof {
                assert(children@.take(0) =~= Seq::<DomNode>::empty());
                assert(strs_view(out@) =~= seq_frags(children@.take(0)));
            }
            for j in 0..m
                invariant
                    m == children@.len(),
                    *n matches DomNode::Element { children: cs, .. } && cs == *children,
                    strs_view(out@) == seq_frags(children@.take(j as int)),
                decreases m - j,
            {
                proof {
                    assert(decreases_to!(*n => *children));
                    assert(decreases_to!(*children => children[j as int]));
                }
                let ghost prev = out@;
                let mut sub = collect_frags(&children[j]);
                let ghost subv = sub@;
                out.append(&mut sub);
                proof {
                    assert(strs_view(prev + subv) =~= strs_view(prev) + strs_view(subv));
                    lemma_seq_frags_push(children@.take(j as int), children@[j as int]);
                    assert(children@.take(j + 1) =~= children@.take(j as int).push(
                        children@[j as int],
                    ));
                    assert(strs_view(out@) =~= seq_frags(children@.take(j + 1)));
                }
            }
            proof {
                assert(children@.take(m as int) =~= children@);
            }
        },
    }
    out
}

/// The joined text of `n`: every text fragment of its subtree in
/// document order, a single space between one fragment and the next.
pub fn join_text(n: &DomNode) -> (r: String)
    ensures
        r@ == joined_text(*n),
{
    let fs = collect_frags(n);
    let ghost fv = strs_view(fs@);
    let mut s = String::new();
    let k = fs.len();
    proof {
        assert(fv.take(0) =~= Seq::<Seq<char>>::empty());
    }
    for i in 0..k
        invariant
            k == fs@.len(),
            fv == strs_view(fs@),
            s@ == join_frags(fv.take(i as int)),
        decreases k - i,
    {
        if i > 0 {
            s.append(" ");
        }
        s.append(fs[i].as_str());
        proof {
            reveal_strlit(" ");
            lemma_join_frags_push(fv.take(i as int), fv[i as int]);
            assert(fv.take(i + 1) =~= fv.take(i as int).push(fv[i as int]));
            if i > 0 {
                assert(s@ =~= join_frags(fv.take(i + 1)));
            } else {
                assert(s@ =~= join_frags(fv.take(i + 1)));
            }
        }
    }
    proof {
        assert(fv.take(k as int) =~= fv);
    }
    s
}

} // verus!
