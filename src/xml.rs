//! XML elements as plain values.
use vstd::prelude::*;

use crate::content_types::attrs_view;
use crate::path_exp::{PathToken, TokenSpec, tokens_view};
use crate::text::seq_eq;

verus! {

broadcast use vstd::std_specs::vec::group_vec_axioms;

/// An XML element: its tag name, attributes, child elements and text content.
#[derive(Debug, PartialEq, Eq)]
pub struct XmlElement {
    pub name: String,
    pub attributes: Vec<(String, String)>,
    pub children: Vec<XmlElement>,
    pub text: String,
}

/// The mathematical form of an [`XmlElement`].
pub struct XmlV {
    pub name: Seq<char>,
    pub attributes: Seq<(Seq<char>, Seq<char>)>,
    pub children: Seq<XmlV>,
    pub text: Seq<char>,
}

pub open spec fn xml_view(e: XmlElement) -> XmlV
    decreases e, 0nat,
{
    XmlV {
        name: e.name@,
        attributes: attrs_view(e.attributes@),
        children: children_view(e.children, e.children@.len() as int),
        text: e.text@,
    }
}

/// The views of the first `n` elements.
pub open spec fn children_view(cs: Vec<XmlElement>, n: int) -> Seq<XmlV>
    decreases cs, n,
{
    if n <= 0 || n > cs@.len() {
        Seq::empty()
    } else {
        children_view(cs, n - 1).push(xml_view(cs@[n - 1]))
    }
}

impl View for XmlElement {
    type V = XmlV;

    open spec fn view(&self) -> XmlV {
        xml_view(*self)
    }
}

pub open spec fn elements_view(s: Seq<XmlElement>) -> Seq<XmlV> {
    s.map_values(|e: XmlElement| xml_view(e))
}

pub proof fn lemma_children_view(cs: Vec<XmlElement>, n: int)
    requires
        0 <= n <= cs@.len(),
    ensures
        children_view(cs, n) == elements_view(cs@.subrange(0, n)),
    decreases n,
{
    if n > 0 {
        lemma_children_view(cs, n - 1);
        assert(elements_view(cs@.subrange(0, n)) =~= elements_view(cs@.subrange(0, n - 1)).push(xml_view(cs@[n - 1])));
    } else {
        assert(elements_view(cs@.subrange(0, n)) =~= Seq::<XmlV>::empty());
    }
}

/// The view of an element's children is the views of the child elements.
pub proof fn lemma_xml_view(e: XmlElement)
    ensures
        e@.children == elements_view(e.children@),
{
    lemma_children_view(e.children, e.children@.len() as int);
    assert(e.children@.subrange(0, e.children@.len() as int) =~= e.children@);
}

/// A copy of an element, with the same view.
pub fn copy_element(e: &XmlElement) -> (r: XmlElement)
    ensures
        r@ == e@,
    decreases *e,
{
    proof {
        lemma_xml_view(*e);
    }
    let mut attributes: Vec<(String, String)> = Vec::new();
    let mut i: usize = 0;
    while i < e.attributes.len()
        invariant
            i <= e.attributes@.len(),
            attrs_view(attributes@) == attrs_view(e.attributes@.subrange(0, i as int)),
        decreases e.attributes@.len() - i,
    {
        let ghost before = attrs_view(attributes@);
        let k = e.attributes[i].0.clone();
        let v = e.attributes[i].1.clone();
        attributes.push((k, v));
        proof {
            assert(attrs_view(attributes@) =~= before.push((k@, v@)));
            assert(attrs_view(e.attributes@.subrange(0, i + 1)) =~= attrs_view(e.attributes@.subrange(0, i as int)).push((k@, v@)));
        }
        i = i + 1;
    }
    proof {
        assert(e.attributes@.subrange(0, i as int) =~= e.attributes@);
    }
    let mut children: Vec<XmlElement> = Vec::new();
    let mut j: usize = 0;
    while j < e.children.len()
        invariant
            j <= e.children@.len(),
            elements_view(children@) == elements_view(e.children@.subrange(0, j as int)),
        decreases e.children@.len() - j,
    {
        proof {
            assert(decreases_to!(*e => (*e).children));
            assert(decreases_to!((*e).children => (*e).children[j as int]));
        }
        let ghost before = elements_view(children@);
        let c = copy_element(&e.children[j]);
        children.push(c);
        proof {
            assert(elements_view(children@) =~= before.push(c@));
            assert(elements_view(e.children@.subrange(0, j + 1)) =~= elements_view(e.children@.subrange(0, j as int)).push(xml_view(e.children@[j as int])));
        }
        j = j + 1;
    }
    proof {
        assert(e.children@.subrange(0, j as int) =~= e.children@);
    }
    let r = XmlElement { name: e.name.clone(), attributes, children, text: e.text.clone() };
    proof {
        lemma_xml_view(r);
        assert(r@.attributes =~= e@.attributes);
    }
    r
}

/// Whether an element has the tag name asked for; `None` asks for any name.
pub open spec fn name_matches(e: XmlV, name: Option<Seq<char>>) -> bool {
    match name {
        Some(n) => e.name == n,
        None => true,
    }
}

/// The elements of `cs` with the tag name asked for, in order.
pub open spec fn named(cs: Seq<XmlV>, name: Option<Seq<char>>) -> Seq<XmlV>
    decreases cs.len(),
{
    if cs.len() == 0 {
        Seq::empty()
    } else if name_matches(cs.last(), name) {
        named(cs.drop_last(), name).push(cs.last())
    } else {
        named(cs.drop_last(), name)
    }
}

/// The children with the tag name asked for of each element of `cur`, one after the other.
pub open spec fn children_matching(cur: Seq<XmlV>, name: Option<Seq<char>>) -> Seq<XmlV>
    decreases cur.len(),
{
    if cur.len() == 0 {
        Seq::empty()
    } else {
        children_matching(cur.drop_last(), name) + named(cur.last().children, name)
    }
}

/// One step of a walk: a field takes the children of that name, a wildcard all children, and
/// a position that follows neither takes the element at that position among those reached.
pub open spec fn xml_step(cur: Seq<XmlV>, tok: TokenSpec) -> Seq<XmlV> {
    match tok {
        TokenSpec::Root => cur,
        TokenSpec::Field(n) => children_matching(cur, Some(n)),
        TokenSpec::Star => children_matching(cur, None),
        TokenSpec::Index(i) => if i < cur.len() {
            seq![cur[i as int]]
        } else {
            Seq::empty()
        },
    }
}

/// The element at position `i` of `s`, where there is one.
pub open spec fn nth_of(s: Seq<XmlV>, i: nat) -> Seq<XmlV> {
    if i < s.len() {
        seq![s[i as int]]
    } else {
        Seq::empty()
    }
}

/// For each element of `cur`, its child at position `i` among those with the tag name asked for.
pub open spec fn nth_children(cur: Seq<XmlV>, name: Option<Seq<char>>, i: nat) -> Seq<XmlV>
    decreases cur.len(),
{
    if cur.len() == 0 {
        Seq::empty()
    } else {
        nth_children(cur.drop_last(), name, i) + nth_of(named(cur.last().children, name), i)
    }
}

/// The tag name that a field asks for; a wildcard asks for any.
pub open spec fn child_name(t: TokenSpec) -> Option<Seq<char>> {
    match t {
        TokenSpec::Field(n) => Some(n),
        _ => None,
    }
}

/// Whether the first two tokens pick a child by position: a field or a wildcard, then `[n]`.
pub open spec fn picks_nth_child(toks: Seq<TokenSpec>) -> bool {
    toks.len() >= 2 && (toks[0] is Field || toks[0] is Star) && toks[1] is Index
}

/// The elements reached from `cur` by the tokens. A field or a wildcard followed by `[n]`
/// takes, of each element, the `n`-th child that it matches.
pub open spec fn xml_walk(cur: Seq<XmlV>, toks: Seq<TokenSpec>) -> Seq<XmlV>
    decreases toks.len(),
{
    if toks.len() == 0 {
        cur
    } else if picks_nth_child(toks) {
        xml_walk(nth_children(cur, child_name(toks[0]), toks[1]->Index_0), toks.subrange(2, toks.len() as int))
    } else {
        xml_walk(xml_step(cur, toks[0]), toks.drop_first())
    }
}

/// The first step of a walk, from the root element: a field keeps the root where the name is
/// its tag name, a wildcard keeps it.
pub open spec fn xml_start(root: XmlV, tok: TokenSpec) -> Seq<XmlV> {
    match tok {
        TokenSpec::Field(n) => if root.name == n {
            seq![root]
        } else {
            Seq::empty()
        },
        TokenSpec::Star => seq![root],
        _ => xml_step(seq![root], tok),
    }
}

/// The elements that the tokens address, the first of which names the root element itself.
pub open spec fn xml_select(root: XmlV, toks: Seq<TokenSpec>) -> Seq<XmlV> {
    if toks.len() == 0 {
        seq![root]
    } else {
        xml_walk(xml_start(root, toks[0]), toks.drop_first())
    }
}

pub open spec fn refs_view(s: Seq<&XmlElement>) -> Seq<XmlV> {
    s.map_values(|e: &XmlElement| xml_view(*e))
}

pub open spec fn name_view(n: Option<&str>) -> Option<Seq<char>> {
    match n {
        Some(x) => Some(x@),
        None => None,
    }
}

/// Appends to `out` the children of `e` with the tag name asked for.
fn push_named<'a>(e: &'a XmlElement, name: Option<&str>, out: &mut Vec<&'a XmlElement>)
    ensures
        refs_view(final(out)@) == refs_view(old(out)@) + named(e@.children, name_view(name)),
{
    proof {
        lemma_xml_view(*e);
    }
    let ghost start = refs_view(out@);
    let ghost cs = elements_view(e.children@);
    let mut j: usize = 0;
    proof {
        assert(cs.subrange(0, 0) =~= Seq::<XmlV>::empty());
        assert(start + Seq::<XmlV>::empty() =~= start);
    }
    while j < e.children.len()
        invariant
            j <= e.children@.len(),
            cs == elements_view(e.children@),
            refs_view(out@) == start + named(cs.subrange(0, j as int), name_view(name)),
        decreases e.children@.len() - j,
    {
        let c = &e.children[j];
        let ok = match name {
            Some(n) => seq_eq(c.name.as_str(), n),
            None => true,
        };
        let ghost before = refs_view(out@);
        proof {
            let sub = cs.subrange(0, j + 1);
            assert(sub.drop_last() =~= cs.subrange(0, j as int));
            assert(sub.last() == xml_view(*c));
        }
        if ok {
            out.push(c);
            proof {
                assert(refs_view(out@) =~= before.push(xml_view(*c)));
            }
        }
        j = j + 1;
    }
    proof {
        assert(cs.subrange(0, j as int) =~= cs);
    }
}

/// One step of a walk over the elements reached so far.
fn walk_step<'a>(cur: Vec<&'a XmlElement>, tok: &PathToken) -> (r: Vec<&'a XmlElement>)
    ensures
        refs_view(r@) == xml_step(refs_view(cur@), tok@),
{
    let name: Option<&str> = match tok {
        PathToken::Root => {
            return cur;
        },
        PathToken::Index(i) => {
            if *i < cur.len() {
                let r = vec![cur[*i]];
                proof {
                    assert(refs_view(r@) =~= seq![refs_view(cur@)[*i as int]]);
                }
                return r;
            } else {
                let r: Vec<&'a XmlElement> = Vec::new();
                proof {
                    assert(refs_view(r@) =~= Seq::<XmlV>::empty());
                }
                return r;
            }
        },
        PathToken::Field(n) => Some(n.as_str()),
        PathToken::Star => None,
    };
    let mut out: Vec<&'a XmlElement> = Vec::new();
    let mut k: usize = 0;
    proof {
        assert(refs_view(cur@).subrange(0, 0) =~= Seq::<XmlV>::empty());
        assert(refs_view(out@) =~= Seq::<XmlV>::empty());
    }
    while k < cur.len()
        invariant
            k <= cur@.len(),
            refs_view(out@) == children_matching(refs_view(cur@).subrange(0, k as int), name_view(name)),
        decreases cur@.len() - k,
    {
        push_named(cur[k], name, &mut out);
        proof {
            let sub = refs_view(cur@).subrange(0, k + 1);
            assert(sub.drop_last() =~= refs_view(cur@).subrange(0, k as int));
            assert(sub.last() == xml_view(*cur@[k as int]));
        }
        k = k + 1;
    }
    proof {
        assert(refs_view(cur@).subrange(0, k as int) =~= refs_view(cur@));
    }
    out
}

/// For each element of `cur`, its child at position `i` among those with the tag name asked for.
fn walk_nth<'a>(cur: Vec<&'a XmlElement>, name: Option<&str>, i: usize) -> (r: Vec<&'a XmlElement>)
    ensures
        refs_view(r@) == nth_children(refs_view(cur@), name_view(name), i as nat),
{
    let mut out: Vec<&'a XmlElement> = Vec::new();
    let mut k: usize = 0;
    proof {
        assert(refs_view(cur@).subrange(0, 0) =~= Seq::<XmlV>::empty());
        assert(refs_view(out@) =~= Seq::<XmlV>::empty());
    }
    while k < cur.len()
        invariant
            k <= cur@.len(),
            refs_view(out@) == nth_children(refs_view(cur@).subrange(0, k as int), name_view(name), i as nat),
        decreases cur@.len() - k,
    {
        let mut matching: Vec<&'a XmlElement> = Vec::new();
        proof {
            assert(refs_view(matching@) =~= Seq::<XmlV>::empty());
        }
        push_named(cur[k], name, &mut matching);
        proof {
            assert(Seq::<XmlV>::empty() + named(xml_view(*cur@[k as int]).children, name_view(name)) =~= named(
                xml_view(*cur@[k as int]).children,
                name_view(name),
            ));
        }
        let ghost before = refs_view(out@);
        if i < matching.len() {
            out.push(matching[i]);
            proof {
                assert(refs_view(out@) =~= before + seq![refs_view(matching@)[i as int]]);
            }
        } else {
            proof {
                assert(refs_view(out@) =~= before + Seq::<XmlV>::empty());
            }
        }
        proof {
            let sub = refs_view(cur@).subrange(0, k + 1);
            assert(sub.drop_last() =~= refs_view(cur@).subrange(0, k as int));
            assert(sub.last() == xml_view(*cur@[k as int]));
        }
        k = k + 1;
    }
    proof {
        assert(refs_view(cur@).subrange(0, k as int) =~= refs_view(cur@));
    }
    out
}

/// The elements under `root` that the tokens of `path` after the first address.
pub fn select_elements<'a>(root: &'a XmlElement, path: &Vec<PathToken>) -> (r: Vec<&'a XmlElement>)
    requires
        path@.len() >= 1,
    ensures
        refs_view(r@) == xml_select(root@, tokens_view(path@).drop_first()),
{
    let ghost toks = tokens_view(path@);
    if path.len() == 1 {
        let r = vec![root];
        proof {
            assert(refs_view(r@) =~= seq![root@]);
        }
        return r;
    }
    let start = vec![root];
    proof {
        assert(refs_view(start@) =~= seq![root@]);
        assert(toks.drop_first()[0] == path@[1]@);
    }
    let mut cur: Vec<&'a XmlElement> = match &path[1] {
        PathToken::Field(n) => {
            if seq_eq(root.name.as_str(), n.as_str()) {
                start
            } else {
                let r: Vec<&'a XmlElement> = Vec::new();
                proof {
                    assert(refs_view(r@) =~= Seq::<XmlV>::empty());
                }
                r
            }
        },
        PathToken::Star => start,
        _ => walk_step(start, &path[1]),
    };
    let mut i: usize = 2;
    proof {
        assert(toks.subrange(2, toks.len() as int) =~= toks.drop_first().drop_first());
    }
    while i < path.len()
        invariant
            2 <= i <= path@.len(),
            toks == tokens_view(path@),
            xml_select(root@, toks.drop_first()) == xml_walk(refs_view(cur@), toks.subrange(i as int, toks.len() as int)),
        decreases path@.len() - i,
    {
        let ghost rest = toks.subrange(i as int, toks.len() as int);
        proof {
            assert(rest.drop_first() =~= toks.subrange(i + 1, toks.len() as int));
            assert(rest[0] == path@[i as int]@);
            if i + 1 < path@.len() {
                assert(rest[1] == path@[i + 1]@);
                assert(rest.subrange(2, rest.len() as int) =~= toks.subrange(i + 2, toks.len() as int));
            }
        }
        let mut paired = false;
        if i + 1 < path.len() {
            let name: Option<&str> = match &path[i] {
                PathToken::Field(n) => Some(n.as_str()),
                _ => None,
            };
            let child_step = match &path[i] {
                PathToken::Field(_) => true,
                PathToken::Star => true,
                _ => false,
            };
            match &path[i + 1] {
                PathToken::Index(n) => {
                    if child_step {
                        proof {
                            assert(name_view(name) == child_name(rest[0]));
                        }
                        cur = walk_nth(cur, name, *n);
                        paired = true;
                    }
                },
                _ => {},
            }
        }
        if paired {
            i = i + 2;
        } else {
            cur = walk_step(cur, &path[i]);
            i = i + 1;
        }
    }
    proof {
        assert(toks.subrange(i as int, toks.len() as int) =~= Seq::<TokenSpec>::empty());
    }
    cur
}

} // verus!
