//! A tree model of parsed HTML, the strict cell-positional conversion of a
//! table row into a posting, and the post-order depth-first traversal that
//! collects every valid row of a document.
//!
//! The document text itself is parsed by an outside HTML parser behind a
//! trusted wrapper; everything after that wrapper — locating rows,
//! validating cells, normalizing titles and labels, rewriting links — is
//! verified against the exact specifications in this module.

use vstd::prelude::*;
use vstd::string::StrSliceExecFns;
use vstd::string::StringExecFns;

use crate::date::spec_parse_date;
use crate::date::parse_date;
use crate::domain::Campus;
use crate::domain::Faculty;
use crate::domain::spec_campus_of_label;
use crate::domain::spec_faculty_of_label;
use crate::domain::str_eq;
use crate::position::Position;
use crate::position::PositionView;
use crate::position::spec_position_wf;
use crate::position::views_of;
use crate::text::chars_of;
use crate::text::collapse_ws;
use crate::text::replace_chars;
use crate::text::spec_collapse;
use crate::text::spec_replace;
use crate::text::string_of;

verus! {

/// One node of a parsed HTML document.
pub enum HtmlNode {
    /// An element with its tag name, attributes and child nodes.
    Element(HtmlElement),
    /// A text node.
    Text(String),
    /// A comment node.
    Comment(String),
}

/// An element node: a tag name, the attributes (each possibly valueless),
/// and the child nodes. The attribute pairs carry no meaningful order.
pub struct HtmlElement {
    /// The tag name.
    pub name: String,
    /// Attribute name/value pairs; a `None` value is a valueless attribute.
    pub attributes: Vec<(String, Option<String>)>,
    /// The child nodes, in document order.
    pub children: Vec<HtmlNode>,
}

/// The view of an optional string.
pub open spec fn opt_str_view(o: Option<String>) -> Option<Seq<char>> {
    match o {
        Some(s) => Some(s@),
        None => None,
    }
}

/// The value of the first attribute named `key`: `None` when no such
/// attribute exists, `Some(None)` when it exists without a value.
pub open spec fn spec_attr_lookup(attrs: Seq<(String, Option<String>)>, key: Seq<char>) -> Option<
    Option<Seq<char>>,
>
    decreases attrs.len(),
{
    if attrs.len() == 0 {
        None
    } else if attrs[0].0@ == key {
        Some(opt_str_view(attrs[0].1))
    } else {
        spec_attr_lookup(attrs.skip(1), key)
    }
}

/// The value of the first attribute named `key`.
pub fn attr_lookup(attrs: &Vec<(String, Option<String>)>, key: &str) -> (r: Option<Option<String>>)
    ensures
        match r {
            Some(v) => spec_attr_lookup(attrs@, key@) == Some(opt_str_view(v)),
            None => spec_attr_lookup(attrs@, key@) is None,
        },
{
    let mut i: usize = 0;
    proof {
        assert(attrs@.skip(0) =~= attrs@);
    }
    while i < attrs.len()
        invariant
            i <= attrs@.len(),
            spec_attr_lookup(attrs@, key@) == spec_attr_lookup(attrs@.skip(i as int), key@),
        decreases attrs@.len() - i,
    {
        proof {
            let rest = attrs@.skip(i as int);
            assert(rest[0] == attrs@[i as int]);
            assert(rest.skip(1) =~= attrs@.skip(i + 1 as int));
        }
        if str_eq(attrs[i].0.as_str(), key) {
            let r = match &attrs[i].1 {
                Some(s) => Some(s.clone()),
                None => None,
            };
            return Some(r);
        }
        i += 1;
    }
    proof {
        assert(attrs@.skip(attrs@.len() as int) =~= Seq::<(String, Option<String>)>::empty());
    }
    None
}

/// The faculty label after entity cleanup: literal `&amp;` removed and
/// `&nbsp;` replaced by a plain space.
pub open spec fn spec_strip_entities(s: Seq<char>) -> Seq<char> {
    spec_replace(spec_replace(s, "&amp;"@, Seq::empty()), "&nbsp;"@, " "@)
}

/// Removes literal `&amp;` and replaces `&nbsp;` with a plain space.
pub fn strip_entities(v: &Vec<char>) -> (r: Vec<char>)
    ensures
        r@ == spec_strip_entities(v@),
{
    proof {
        reveal_strlit("&amp;");
        reveal_strlit("&nbsp;");
        reveal_strlit(" ");
    }
    let amp = chars_of("&amp;");
    let nbsp = chars_of("&nbsp;");
    let space = chars_of(" ");
    let empty: Vec<char> = Vec::new();
    let pass1 = replace_chars(v, &amp, &empty);
    replace_chars(&pass1, &nbsp, &space)
}

/// The element in cell `i` of a row, if that child is an element.
pub open spec fn spec_cell_elem(e: HtmlElement, i: int) -> Option<HtmlElement> {
    if 0 <= i < e.children@.len() {
        match e.children@[i] {
            HtmlNode::Element(td) => Some(td),
            _ => None,
        }
    } else {
        None
    }
}

/// The text of an element's first child, if that child is a text node.
pub open spec fn spec_first_text(td: HtmlElement) -> Option<Seq<char>> {
    if td.children@.len() > 0 {
        match td.children@[0] {
            HtmlNode::Text(t) => Some(t@),
            _ => None,
        }
    } else {
        None
    }
}

/// The link and title taken from the anchor cell: the first child must be
/// an element carrying an `href` value, its first child the title text.
/// The link is made absolute by prefixing `root` when it starts with `/`;
/// the title is whitespace-collapsed. An empty link or title is rejected.
pub open spec fn spec_link_title(td0: HtmlElement, root: Seq<char>) -> Option<
    (Seq<char>, Seq<char>),
> {
    if td0.children@.len() == 0 {
        None
    } else {
        match td0.children@[0] {
            HtmlNode::Element(a) => match spec_attr_lookup(a.attributes@, "href"@) {
                Some(Some(href)) => {
                    if a.children@.len() > 0 {
                        match a.children@[0] {
                            HtmlNode::Text(t) => {
                                let title = spec_collapse(t@);
                                let link = if href.len() > 0 && href[0] == '/' {
                                    root + href
                                } else {
                                    href
                                };
                                if link.len() > 0 && title.len() > 0 {
                                    Some((link, title))
                                } else {
                                    None
                                }
                            },
                            _ => None,
                        }
                    } else {
                        None
                    }
                },
                _ => None,
            },
            _ => None,
        }
    }
}

/// The posting described by a table row, under the strict cell layout
/// [anchor, faculty label, campus label, deadline]; `None` when any cell
/// fails validation.
pub open spec fn spec_row_position(e: HtmlElement, root: Seq<char>) -> Option<PositionView> {
    match (spec_cell_elem(e, 0), spec_cell_elem(e, 1), spec_cell_elem(e, 2), spec_cell_elem(
        e,
        3,
    )) {
        (Some(td0), Some(td1), Some(td2), Some(td3)) => match spec_link_title(td0, root) {
            Some(lt) => match spec_first_text(td1) {
                Some(ft) => match spec_faculty_of_label(spec_strip_entities(ft)) {
                    Some(fac) => match spec_first_text(td2) {
                        Some(ct) => match spec_campus_of_label(ct) {
                            Some(camp) => match spec_first_text(td3) {
                                Some(dt) => match spec_parse_date(dt) {
                                    Some(deadline) => Some(
                                        PositionView {
                                            link: lt.0,
                                            title: lt.1,
                                            campus: camp,
                                            faculty: fac,
                                            deadline,
                                            first_seen: None,
                                        },
                                    ),
                                    None => None,
                                },
                                None => None,
                            },
                            None => None,
                        },
                        None => None,
                    },
                    None => None,
                },
                None => None,
            },
            None => None,
        },
        _ => None,
    }
}

/// The element in cell `i`, if that child is an element.
fn cell_elem<'a>(e: &'a HtmlElement, i: usize) -> (r: Option<&'a HtmlElement>)
    ensures
        match r {
            Some(td) => spec_cell_elem(*e, i as int) == Some(*td),
            None => spec_cell_elem(*e, i as int) is None,
        },
{
    if i < e.children.len() {
        match &e.children[i] {
            HtmlNode::Element(td) => Some(td),
            _ => None,
        }
    } else {
        None
    }
}

/// The text of an element's first child, if that child is a text node.
fn first_text<'a>(td: &'a HtmlElement) -> (r: Option<&'a String>)
    ensures
        match r {
            Some(t) => spec_first_text(*td) == Some(t@),
            None => spec_first_text(*td) is None,
        },
{
    if td.children.len() > 0 {
        match &td.children[0] {
            HtmlNode::Text(t) => Some(t),
            _ => None,
        }
    } else {
        None
    }
}

/// Converts one table row into a posting; rows that fail the strict cell
/// validation yield `None`.
pub fn row_position(e: &HtmlElement, root: &str) -> (r: Option<Position>)
    ensures
        match r {
            Some(p) => spec_row_position(*e, root@) == Some(p@),
            None => spec_row_position(*e, root@) is None,
        },
{
    let td0 = match cell_elem(e, 0) {
        Some(td) => td,
        None => {
            return None;
        },
    };
    let td1 = match cell_elem(e, 1) {
        Some(td) => td,
        None => {
            return None;
        },
    };
    let td2 = match cell_elem(e, 2) {
        Some(td) => td,
        None => {
            return None;
        },
    };
    let td3 = match cell_elem(e, 3) {
        Some(td) => td,
        None => {
            return None;
        },
    };
    // cell 0: the anchor with the link and the title
    if td0.children.len() == 0 {
        return None;
    }
    let a = match &td0.children[0] {
        HtmlNode::Element(a) => a,
        _ => {
            return None;
        },
    };
    let href = match attr_lookup(&a.attributes, "href") {
        Some(Some(h)) => h,
        Some(None) => {
            return None;
        },
        None => {
            return None;
        },
    };
    if a.children.len() == 0 {
        return None;
    }
    let t = match &a.children[0] {
        HtmlNode::Text(t) => t,
        _ => {
            return None;
        },
    };
    let t_chars = chars_of(t.as_str());
    let title_chars = collapse_ws(&t_chars);
    let title = string_of(&title_chars);
    let link: String = if href.as_str().unicode_len() > 0 && href.as_str().get_char(0) == '/' {
        let mut l = root.to_owned();
        l.append(href.as_str());
        l
    } else {
        href
    };
    if link.as_str().is_empty() || title.as_str().is_empty() {
        return None;
    }
    // cell 1: the faculty label, after entity cleanup
    let ft = match first_text(td1) {
        Some(t) => t,
        None => {
            return None;
        },
    };
    let ft_chars = chars_of(ft.as_str());
    let label_chars = strip_entities(&ft_chars);
    let label = string_of(&label_chars);
    let faculty = match Faculty::from_label(label.as_str()) {
        Some(f) => f,
        None => {
            return None;
        },
    };
    // cell 2: the campus label
    let ct = match first_text(td2) {
        Some(t) => t,
        None => {
            return None;
        },
    };
    let campus = match Campus::from_label(ct.as_str()) {
        Some(c) => c,
        None => {
            return None;
        },
    };
    // cell 3: the deadline
    let dt = match first_text(td3) {
        Some(t) => t,
        None => {
            return None;
        },
    };
    let dt_chars = chars_of(dt.as_str());
    let deadline = match parse_date(&dt_chars) {
        Some(d) => d,
        None => {
            return None;
        },
    };
    Some(Position { link, title, campus, faculty, deadline, first_seen: None })
}

/// The postings found in the subtree of one node, post-order: all postings
/// of the children first, then, if the node is a `tr` element that
/// converts, its own posting.
pub open spec fn spec_node_positions(n: HtmlNode, root: Seq<char>) -> Seq<PositionView>
    decreases n,
{
    match n {
        HtmlNode::Element(e) => spec_list_positions(e.children@, root) + (
        if e.name@ == "tr"@ {
            match spec_row_position(e, root) {
                Some(p) => seq![p],
                None => Seq::empty(),
            }
        } else {
            Seq::empty()
        }),
        _ => Seq::empty(),
    }
}

/// The postings found in a list of sibling nodes, in document order.
pub open spec fn spec_list_positions(s: Seq<HtmlNode>, root: Seq<char>) -> Seq<PositionView>
    decreases s,
{
    if s.len() == 0 {
        Seq::empty()
    } else {
        spec_node_positions(s[0], root) + spec_list_positions(s.skip(1), root)
    }
}

/// Appends the postings of one node's subtree to `out`.
fn visit_node(n: &HtmlNode, root: &str, out: &mut Vec<Position>)
    ensures
        views_of(final(out)@) == views_of(old(out)@) + spec_node_positions(*n, root@),
    decreases *n,
{
    match n {
        HtmlNode::Element(e) => {
            visit_list(&e.children, root, out);
            if str_eq(e.name.as_str(), "tr") {
                match row_position(e, root) {
                    Some(p) => {
                        let ghost prev = out@;
                        let ghost pv = p@;
                        out.push(p);
                        proof {
                            assert(views_of(out@) =~= views_of(prev) + seq![pv]);
                            assert(views_of(out@) =~= views_of(old(out)@) + spec_node_positions(
                                *n,
                                root@,
                            ));
                        }
                    },
                    None => {
                        proof {
                            assert(views_of(out@) =~= views_of(old(out)@) + spec_node_positions(
                                *n,
                                root@,
                            ));
                        }
                    },
                }
            } else {
                proof {
                    assert(views_of(out@) =~= views_of(old(out)@) + spec_node_positions(
                        *n,
                        root@,
                    ));
                }
            }
        },
        HtmlNode::Text(_) => {
            proof {
                assert(views_of(out@) =~= views_of(old(out)@) + spec_node_positions(*n, root@));
            }
        },
        HtmlNode::Comment(_) => {
            proof {
                assert(views_of(out@) =~= views_of(old(out)@) + spec_node_positions(*n, root@));
            }
        },
    }
}

/// Appends the postings of a list of sibling subtrees to `out`.
fn visit_list(nodes: &Vec<HtmlNode>, root: &str, out: &mut Vec<Position>)
    ensures
        views_of(final(out)@) == views_of(old(out)@) + spec_list_positions(nodes@, root@),
    decreases nodes@,
{
    let mut i: usize = 0;
    proof {
        assert(nodes@.skip(0) =~= nodes@);
        assert(views_of(out@) + spec_list_positions(nodes@, root@) =~= views_of(old(out)@)
            + spec_list_positions(nodes@, root@));
    }
    while i < nodes.len()
        invariant
            i <= nodes@.len(),
            views_of(out@) + spec_list_positions(nodes@.skip(i as int), root@) =~= views_of(
                old(out)@,
            ) + spec_list_positions(nodes@, root@),
        decreases nodes@.len() - i,
    {
        proof {
            let rest = nodes@.skip(i as int);
            assert(rest[0] == nodes@[i as int]);
            assert(rest.skip(1) =~= nodes@.skip(i + 1 as int));
            assert(spec_list_positions(rest, root@) == spec_node_positions(nodes@[i as int], root@)
                + spec_list_positions(nodes@.skip(i + 1 as int), root@));
        }
        let ghost before = out@;
        visit_node(&nodes[i], root, out);
        proof {
            assert(views_of(out@) =~= views_of(before) + spec_node_positions(
                nodes@[i as int],
                root@,
            ));
            assert(views_of(out@) + spec_list_positions(nodes@.skip(i + 1 as int), root@)
                =~= views_of(old(out)@) + spec_list_positions(nodes@, root@));
        }
        i += 1;
    }
    proof {
        assert(nodes@.skip(nodes@.len() as int) =~= Seq::<HtmlNode>::empty());
        assert(views_of(out@) + Seq::<PositionView>::empty() =~= views_of(out@));
    }
}

/// Collects every posting of the given root nodes, post-order and in
/// document order, exactly as [`spec_list_positions`] states.
pub fn extract_positions(nodes: &Vec<HtmlNode>, root: &str) -> (r: Vec<Position>)
    ensures
        views_of(r@) == spec_list_positions(nodes@, root@),
{
    let mut out: Vec<Position> = Vec::new();
    proof {
        assert(views_of(out@) =~= Seq::<PositionView>::empty());
    }
    visit_list(nodes, root, &mut out);
    proof {
        assert(views_of(out@) =~= spec_list_positions(nodes@, root@));
    }
    out
}

/// LAW: every posting the traversal collects is well formed — non-empty
/// link and title, a deadline that exists on the calendar — and has no
/// first-seen stamp yet.
pub proof fn lemma_node_positions_wf(n: HtmlNode, root: Seq<char>)
    ensures
        forall|j: int|
            0 <= j < spec_node_positions(n, root).len() ==> #[trigger] spec_position_wf(
                spec_node_positions(n, root)[j],
            ) && spec_node_positions(n, root)[j].first_seen is None,
    decreases n,
{
    match n {
        HtmlNode::Element(e) => {
            lemma_list_positions_wf(e.children@, root);
        },
        _ => {},
    }
}

/// LAW: every posting the traversal collects from a list of subtrees is
/// well formed and has no first-seen stamp yet.
pub proof fn lemma_list_positions_wf(s: Seq<HtmlNode>, root: Seq<char>)
    ensures
        forall|j: int|
            0 <= j < spec_list_positions(s, root).len() ==> #[trigger] spec_position_wf(
                spec_list_positions(s, root)[j],
            ) && spec_list_positions(s, root)[j].first_seen is None,
    decreases s,
{
    if s.len() > 0 {
        lemma_node_positions_wf(s[0], root);
        lemma_list_positions_wf(s.skip(1), root);
    }
}

// ---------------------------------------------------------------------
// Equality of trees up to attribute order.
//
// The outside parser hands each element's attributes out of a hash map,
// so their pair order is not a function of the document text. Everything
// else is. The relation below pins a tree up to that order: two trees are
// equivalent when they agree on every tag name, every text, every child,
// and every attribute lookup. The extraction reads attributes only
// through lookups, so it cannot tell equivalent trees apart — proved by
// the lemmas that follow.
// ---------------------------------------------------------------------

/// Two attribute lists denote the same mapping: every lookup agrees.
pub open spec fn attrs_equiv(
    x: Seq<(String, Option<String>)>,
    y: Seq<(String, Option<String>)>,
) -> bool {
    forall|k: Seq<char>| spec_attr_lookup(x, k) == spec_attr_lookup(y, k)
}

/// Two elements are equal up to attribute order.
pub open spec fn elem_equiv(x: HtmlElement, y: HtmlElement) -> bool
    decreases x,
{
    &&& x.name@ == y.name@
    &&& attrs_equiv(x.attributes@, y.attributes@)
    &&& nodes_equiv(x.children@, y.children@)
}

/// Two nodes are equal up to attribute order.
pub open spec fn node_equiv(a: HtmlNode, b: HtmlNode) -> bool
    decreases a,
{
    match (a, b) {
        (HtmlNode::Element(x), HtmlNode::Element(y)) => elem_equiv(x, y),
        (HtmlNode::Text(s), HtmlNode::Text(t)) => s@ == t@,
        (HtmlNode::Comment(s), HtmlNode::Comment(t)) => s@ == t@,
        _ => false,
    }
}

/// Two node lists are pointwise equal up to attribute order.
pub open spec fn nodes_equiv(a: Seq<HtmlNode>, b: Seq<HtmlNode>) -> bool
    decreases a,
{
    &&& a.len() == b.len()
    &&& (a.len() == 0 || (node_equiv(a[0], b[0]) && nodes_equiv(a.skip(1), b.skip(1))))
}

/// Equivalent node lists are equivalent at every index.
proof fn lemma_nodes_equiv_index(a: Seq<HtmlNode>, b: Seq<HtmlNode>, i: int)
    requires
        nodes_equiv(a, b),
        0 <= i < a.len(),
    ensures
        node_equiv(a[i], b[i]),
    decreases i,
{
    if i > 0 {
        assert(a.skip(1)[i - 1] == a[i]);
        assert(b.skip(1)[i - 1] == b[i]);
        lemma_nodes_equiv_index(a.skip(1), b.skip(1), i - 1);
    }
}

/// Equivalent elements yield the same first-child text.
proof fn lemma_equiv_first_text(x: HtmlElement, y: HtmlElement)
    requires
        elem_equiv(x, y),
    ensures
        spec_first_text(x) == spec_first_text(y),
{
    if x.children@.len() > 0 {
        lemma_nodes_equiv_index(x.children@, y.children@, 0);
    }
}

/// Equivalent anchor cells yield the same link and title.
proof fn lemma_equiv_link_title(x: HtmlElement, y: HtmlElement, root: Seq<char>)
    requires
        elem_equiv(x, y),
    ensures
        spec_link_title(x, root) == spec_link_title(y, root),
{
    if x.children@.len() > 0 {
        lemma_nodes_equiv_index(x.children@, y.children@, 0);
        match (x.children@[0], y.children@[0]) {
            (HtmlNode::Element(ax), HtmlNode::Element(ay)) => {
                assert(spec_attr_lookup(ax.attributes@, "href"@) == spec_attr_lookup(
                    ay.attributes@,
                    "href"@,
                ));
                if ax.children@.len() > 0 {
                    lemma_nodes_equiv_index(ax.children@, ay.children@, 0);
                }
            },
            _ => {},
        }
    }
}

/// Equivalent rows convert to the same posting, or both fail.
proof fn lemma_equiv_row(x: HtmlElement, y: HtmlElement, root: Seq<char>)
    requires
        elem_equiv(x, y),
    ensures
        spec_row_position(x, root) == spec_row_position(y, root),
{
    let n = x.children@.len();
    assert(y.children@.len() == n);
    if n >= 1 {
        lemma_nodes_equiv_index(x.children@, y.children@, 0);
    }
    if n >= 2 {
        lemma_nodes_equiv_index(x.children@, y.children@, 1);
    }
    if n >= 3 {
        lemma_nodes_equiv_index(x.children@, y.children@, 2);
    }
    if n >= 4 {
        lemma_nodes_equiv_index(x.children@, y.children@, 3);
    }
    if n >= 4 {
        match (x.children@[0], y.children@[0]) {
            (HtmlNode::Element(tx), HtmlNode::Element(ty)) => {
                lemma_equiv_link_title(tx, ty, root);
            },
            _ => {},
        }
        match (x.children@[1], y.children@[1]) {
            (HtmlNode::Element(tx), HtmlNode::Element(ty)) => {
                lemma_equiv_first_text(tx, ty);
            },
            _ => {},
        }
        match (x.children@[2], y.children@[2]) {
            (HtmlNode::Element(tx), HtmlNode::Element(ty)) => {
                lemma_equiv_first_text(tx, ty);
            },
            _ => {},
        }
        match (x.children@[3], y.children@[3]) {
            (HtmlNode::Element(tx), HtmlNode::Element(ty)) => {
                lemma_equiv_first_text(tx, ty);
            },
            _ => {},
        }
    }
}

/// Equivalent nodes yield the same postings.
pub proof fn lemma_equiv_node_positions(a: HtmlNode, b: HtmlNode, root: Seq<char>)
    requires
        node_equiv(a, b),
    ensures
        spec_node_positions(a, root) == spec_node_positions(b, root),
    decreases a,
{
    match (a, b) {
        (HtmlNode::Element(x), HtmlNode::Element(y)) => {
            lemma_equiv_list_positions(x.children@, y.children@, root);
            lemma_equiv_row(x, y, root);
        },
        _ => {},
    }
}

/// LAW: the extraction cannot tell trees apart that differ only in
/// attribute order. Equivalent node lists yield the same postings.
pub proof fn lemma_equiv_list_positions(a: Seq<HtmlNode>, b: Seq<HtmlNode>, root: Seq<char>)
    requires
        nodes_equiv(a, b),
    ensures
        spec_list_positions(a, root) == spec_list_positions(b, root),
    decreases a,
{
    if a.len() > 0 {
        lemma_equiv_node_positions(a[0], b[0], root);
        lemma_equiv_list_positions(a.skip(1), b.skip(1), root);
    }
}

// ---------------------------------------------------------------------
// The trusted boundary to the outside HTML parser.
// ---------------------------------------------------------------------

/// Whether a text parses as an HTML document. Relied on below: the outside
/// parser accepts or rejects a document as a function of the text alone.
pub uninterp spec fn html_ok(s: Seq<char>) -> bool;

/// The tree a text parses to, with each element's attributes in one fixed
/// (but unknown) order. Relied on below: the outside parser's result is a
/// function of the text alone, except for attribute order.
pub uninterp spec fn dom_of(s: Seq<char>) -> Seq<HtmlNode>;

#[verifier::external_type_specification]
#[verifier::external_body]
pub struct ExHtmlParserNode(html_parser::Node);

/// Relies on `html_parser::Node`: converts one parsed node into the
/// library's tree, variant for variant and field for field (children
/// recursively; the attribute map as pairs, in no particular order).
#[verifier::external_body]
fn convert_node(n: &html_parser::Node) -> HtmlNode {
    match n {
        html_parser::Node::Element(e) => HtmlNode::Element(
            HtmlElement {
                name: e.name.clone(),
                attributes: e.attributes.iter().map(|kv| (kv.0.clone(), kv.1.clone())).collect(),
                children: e.children.iter().map(convert_node).collect(),
            },
        ),
        html_parser::Node::Text(t) => HtmlNode::Text(t.clone()),
        html_parser::Node::Comment(c) => HtmlNode::Comment(c.clone()),
    }
}

/// Relies on `html_parser::Dom::parse`: it accepts or rejects a text as a
/// function of the text alone, and on success its tree is a function of
/// the text alone up to attribute order — the attributes sit in a hash
/// map whose keys are unique, so the converted nodes agree with
/// [`dom_of`] on every attribute lookup and on everything else exactly.
#[verifier::external_body]
pub(crate) fn parse_html_nodes(html: &str) -> (r: Option<Vec<HtmlNode>>)
    ensures
        (r is Some) == html_ok(html@),
        r matches Some(v) ==> nodes_equiv(v@, dom_of(html@)),
{
    match html_parser::Dom::parse(html) {
        Ok(dom) => Some(dom.children.iter().map(convert_node).collect()),
        Err(_) => None,
    }
}

} // verus!
