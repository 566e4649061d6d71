//! Matched elements: bounds, visibility, markup, and lookup in a document.

use vstd::prelude::*;
use vstd::string::*;
use crate::selector::{selects, Selector};
use crate::text::chars_of;
use crate::tree::{node_views, xml_nodes, NodeView, UiTree};

verus! {

/// A matched element: its bounding box `(x1, y1, x2, y2)` and its markup.
#[derive(Debug)]
pub struct UiElement {
    pub bounds: (i32, i32, i32, i32),
    pub raw_xml: String,
}

/// Whether the element's box overlaps the screen `[0, width) x [0, height)`
/// at all.
pub fn is_element_visible(element: &UiElement, screen_width: i32, screen_height: i32) -> (r: bool)
    ensures
        r == (element.bounds.0 < screen_width && element.bounds.2 > 0 && element.bounds.1
            < screen_height && element.bounds.3 > 0),
{
    let (x1, y1, x2, y2) = element.bounds;
    let has_horizontal_overlap = x1 < screen_width && x2 > 0;
    let has_vertical_overlap = y1 < screen_height && y2 > 0;
    has_horizontal_overlap && has_vertical_overlap
}

/// The value of a run of decimal digits.
pub open spec fn digits_value(d: Seq<char>) -> int
    decreases d.len(),
{
    if d.len() == 0 {
        0
    } else {
        10 * digits_value(d.drop_last()) + (d.last() as int - '0' as int)
    }
}

pub open spec fn all_digits(d: Seq<char>) -> bool {
    forall|k: int| 0 <= k < d.len() ==> '0' <= #[trigger] d[k] <= '9'
}

/// A decimal `i32` as `str::parse` reads one: an optional `+` or `-`, then
/// one or more ASCII digits, with the value in range.
pub open spec fn decimal_i32(s: Seq<char>) -> Option<i32> {
    let signed = s.len() > 0 && (s[0] == '-' || s[0] == '+');
    let d = if signed {
        s.drop_first()
    } else {
        s
    };
    let v = if s.len() > 0 && s[0] == '-' {
        -digits_value(d)
    } else {
        digits_value(d)
    };
    if d.len() > 0 && all_digits(d) && i32::MIN <= v <= i32::MAX {
        Some(v as i32)
    } else {
        None
    }
}

proof fn lemma_digits_grow(d: Seq<char>, k: int)
    requires
        all_digits(d),
        0 <= k <= d.len(),
    ensures
        digits_value(d.subrange(0, k)) <= digits_value(d),
        0 <= digits_value(d.subrange(0, k)),
    decreases d.len(),
{
    if d.len() > 0 {
        let e = d.drop_last();
        assert(all_digits(e));
        if k < d.len() {
            lemma_digits_grow(e, k);
            assert(e.subrange(0, k) =~= d.subrange(0, k));
        } else {
            assert(d.subrange(0, k) =~= d);
            lemma_digits_grow(e, 0);
            lemma_digits_grow(e, e.len() as int);
            assert(e.subrange(0, e.len() as int) =~= e);
        }
    } else {
        assert(d.subrange(0, k) =~= d);
    }
}

/// Reads a decimal `i32` (see `decimal_i32`).
pub fn parse_decimal_i32(s: &str) -> (r: Option<i32>)
    ensures
        r == decimal_i32(s@),
{
    let cs = chars_of(s);
    let n = cs.len();
    let negative = n > 0 && cs[0] == '-';
    let start: usize = if n > 0 && (cs[0] == '-' || cs[0] == '+') {
        1
    } else {
        0
    };
    let ghost d = if start == 1 {
        s@.drop_first()
    } else {
        s@
    };
    assert(d =~= s@.subrange(start as int, n as int));
    if start >= n {
        return None;
    }
    let mut acc: i64 = 0;
    let mut k: usize = start;
    while k < n
        invariant
            cs@ == s@,
            n == s@.len(),
            start <= k <= n,
            start <= 1,
            (start == 1) == (s@.len() > 0 && (s@[0] == '-' || s@[0] == '+')),
            negative == (s@.len() > 0 && s@[0] == '-'),
            d == (if start == 1 {
                s@.drop_first()
            } else {
                s@
            }),
            d == s@.subrange(start as int, n as int),
            all_digits(s@.subrange(start as int, k as int)),
            0 <= acc <= 2147483648,
            acc == digits_value(s@.subrange(start as int, k as int)),
        decreases n - k,
    {
        let c = cs[k];
        if !('0' <= c && c <= '9') {
            assert(d[k - start] == c);
            return None;
        }
        let ghost before = s@.subrange(start as int, k as int);
        let ghost after = s@.subrange(start as int, k + 1);
        assert(after.drop_last() =~= before);
        assert(all_digits(after));
        acc = acc * 10 + (c as u32 - '0' as u32) as i64;
        if acc > 2147483648 {
            proof {
                if all_digits(d) {
                    lemma_digits_grow(d, k + 1 - start);
                    assert(d.subrange(0, k + 1 - start) =~= after);
                }
            }
            return None;
        }
        k += 1;
    }
    assert(s@.subrange(start as int, n as int) =~= d);
    let v: i64 = if negative {
        -acc
    } else {
        acc
    };
    if v > 2147483647 {
        return None;
    }
    Some(v as i32)
}

/// What the leftmost match of regular expression `pattern` in `hay`
/// captures, group by group (group 0 is the whole match), when the pattern
/// compiles and matches.
pub uninterp spec fn regex_groups(pattern: Seq<char>, hay: Seq<char>) -> Option<
    Seq<Option<Seq<char>>>,
>;

pub open spec fn groups_view(g: Vec<Option<String>>) -> Seq<Option<Seq<char>>> {
    g@.map_values(
        |o: Option<String>|
            match o {
                Some(s) => Some(s@),
                None => None,
            },
    )
}

/// Relies on `regex::Regex::new` and `regex::Regex::captures`: compiles
/// `pattern` and takes its leftmost-first match in `hay`, whose
/// `Captures::iter` gives group 0 (the whole match) and then each group in
/// order, `None` for a group that took no part. `None` overall when the
/// pattern does not compile or does not match. The result depends on the two
/// strings alone.
#[verifier::external_body]
fn regex_captures(pattern: &str, hay: &str) -> (r: Option<Vec<Option<String>>>)
    ensures
        match r {
            Some(g) => regex_groups(pattern@, hay@) == Some(groups_view(g)),
            None => regex_groups(pattern@, hay@) is None,
        },
{
    let caps = regex::Regex::new(pattern).ok()?.captures(hay)?;
    Some(caps.iter().map(|m| m.map(|m| m.as_str().to_string())).collect())
}

/// The pattern of a bounds attribute: `[x1,y1][x2,y2]`.
pub open spec fn bounds_pattern() -> Seq<char> {
    "\\[(\\d+),(\\d+)\\]\\[(\\d+),(\\d+)\\]"@
}

/// Group `k` read as a decimal `i32`.
pub open spec fn group_i32(g: Seq<Option<Seq<char>>>, k: int) -> Option<i32> {
    if 0 <= k < g.len() {
        match g[k] {
            Some(s) => decimal_i32(s),
            None => None,
        }
    } else {
        None
    }
}

/// The box that groups 1 to 4 give, when each reads as an `i32`.
pub open spec fn bounds_of_groups(g: Seq<Option<Seq<char>>>) -> Option<(i32, i32, i32, i32)> {
    match (group_i32(g, 1), group_i32(g, 2), group_i32(g, 3), group_i32(g, 4)) {
        (Some(a), Some(b), Some(c), Some(d)) => Some((a, b, c, d)),
        _ => None,
    }
}

/// The box that a bounds attribute gives, if any.
pub open spec fn bounds_of(s: Seq<char>) -> Option<(i32, i32, i32, i32)> {
    match regex_groups(bounds_pattern(), s) {
        Some(g) => bounds_of_groups(g),
        None => None,
    }
}

fn group_value(groups: &Vec<Option<String>>, k: usize) -> (r: Option<i32>)
    ensures
        r == group_i32(groups_view(*groups), k as int),
{
    if k < groups.len() {
        match &groups[k] {
            Some(s) => parse_decimal_i32(s.as_str()),
            None => None,
        }
    } else {
        None
    }
}

/// The box given by capture groups 1 to 4 of a bounds match.
pub fn bounds_from_groups(groups: &Vec<Option<String>>) -> (r: Option<(i32, i32, i32, i32)>)
    ensures
        r == bounds_of_groups(groups_view(*groups)),
{
    let x1 = group_value(groups, 1);
    let y1 = group_value(groups, 2);
    let x2 = group_value(groups, 3);
    let y2 = group_value(groups, 4);
    match (x1, y1, x2, y2) {
        (Some(a), Some(b), Some(c), Some(d)) => Some((a, b, c, d)),
        _ => None,
    }
}

/// Reads a bounds attribute of the form `[x1,y1][x2,y2]`.
pub fn parse_bounds(bounds_str: &str) -> (r: Option<(i32, i32, i32, i32)>)
    ensures
        r == bounds_of(bounds_str@),
{
    match regex_captures("\\[(\\d+),(\\d+)\\]\\[(\\d+),(\\d+)\\]", bounds_str) {
        Some(groups) => bounds_from_groups(&groups),
        None => None,
    }
}

} // verus!

verus! {

/// `c` as it stands in a double-quoted attribute value.
pub open spec fn escape_char(c: char) -> Seq<char> {
    if c == '&' {
        "&amp;"@
    } else if c == '<' {
        "&lt;"@
    } else if c == '>' {
        "&gt;"@
    } else if c == '"' {
        "&quot;"@
    } else {
        seq![c]
    }
}

pub open spec fn escaped(v: Seq<char>) -> Seq<char>
    decreases v.len(),
{
    if v.len() == 0 {
        Seq::empty()
    } else {
        escaped(v.drop_last()) + escape_char(v.last())
    }
}

/// ` name="value"` for each attribute, in order.
pub open spec fn attrs_markup(a: Seq<(String, String)>) -> Seq<char>
    decreases a.len(),
{
    if a.len() == 0 {
        Seq::empty()
    } else {
        attrs_markup(a.drop_last()) + " "@ + a.last().0@ + "=\""@ + escaped(a.last().1@) + "\""@
    }
}

/// `<tag` followed by the node's attributes.
pub open spec fn open_tag(t: UiTree, i: int) -> Seq<char> {
    "<"@ + t.nodes@[i].tag@ + attrs_markup(t.nodes@[i].attrs@)
}

/// The markup of node `i` alone: its opening tag, closed with ` />` when it
/// has no element children; empty for a node that is not an element.
pub open spec fn node_markup(t: UiTree, i: int) -> Seq<char> {
    if !t.is_element(i) {
        Seq::empty()
    } else if exists|j: int| #[trigger] t.is_element_child(i, j) {
        open_tag(t, i) + ">"@
    } else {
        open_tag(t, i) + " />"@
    }
}

/// The markup of node `i` and its element descendants.
pub open spec fn subtree_markup(t: UiTree, i: int) -> Seq<char>
    decreases t.size() - i, t.size() + 1,
{
    if !t.is_element(i) {
        Seq::empty()
    } else {
        let kids = children_markup(t, i, t.size());
        if kids.len() == 0 {
            open_tag(t, i) + " />"@
        } else {
            open_tag(t, i) + ">"@ + kids + "</"@ + t.nodes@[i].tag@ + ">"@
        }
    }
}

/// The markup of the element children of `i` that come before node `j`.
pub open spec fn children_markup(t: UiTree, i: int, j: int) -> Seq<char>
    decreases t.size() - i, j,
{
    if j <= i + 1 || i < 0 || j > t.size() {
        Seq::empty()
    } else {
        children_markup(t, i, j - 1) + if t.is_element_child(i, j - 1) {
            subtree_markup(t, j - 1)
        } else {
            Seq::empty()
        }
    }
}

fn escape_into(out: &mut String, v: &String)
    ensures
        final(out)@ == old(out)@ + escaped(v@),
{
    let s = v.as_str();
    let n = s.unicode_len();
    let mut k: usize = 0;
    while k < n
        invariant
            n == v@.len(),
            s@ == v@,
            k <= n,
            out@ == old(out)@ + escaped(v@.subrange(0, k as int)),
        decreases n - k,
    {
        let c = s.get_char(k);
        if c == '&' {
            out.append("&amp;");
        } else if c == '<' {
            out.append("&lt;");
        } else if c == '>' {
            out.append("&gt;");
        } else if c == '"' {
            out.append("&quot;");
        } else {
            out.append(s.substring_char(k, k + 1));
        }
        assert(v@.subrange(0, k + 1).drop_last() =~= v@.subrange(0, k as int));
        assert(old(out)@ + escaped(v@.subrange(0, k + 1)) =~= old(out)@ + escaped(
            v@.subrange(0, k as int),
        ) + escape_char(c));
        k += 1;
    }
    assert(v@.subrange(0, n as int) =~= v@);
}

fn open_tag_string(t: &UiTree, i: usize) -> (r: String)
    requires
        t.has_node(i as int),
    ensures
        r@ == open_tag(*t, i as int),
{
    let node = &t.nodes[i];
    let mut out = "<".to_owned();
    out.append(node.tag.as_str());
    let ghost head = out@;
    let mut k: usize = 0;
    while k < node.attrs.len()
        invariant
            node == &t.nodes@[i as int],
            k <= node.attrs@.len(),
            out@ == head + attrs_markup(node.attrs@.subrange(0, k as int)),
        decreases node.attrs@.len() - k,
    {
        let (name, value) = &node.attrs[k];
        out.append(" ");
        out.append(name.as_str());
        out.append("=\"");
        escape_into(&mut out, value);
        out.append("\"");
        assert(node.attrs@.subrange(0, k + 1).drop_last() =~= node.attrs@.subrange(0, k as int));
        assert(out@ =~= head + attrs_markup(node.attrs@.subrange(0, k + 1)));
        k += 1;
    }
    assert(node.attrs@.subrange(0, node.attrs@.len() as int) =~= node.attrs@);
    assert(out@ =~= "<"@ + node.tag@ + attrs_markup(node.attrs@));
    out
}

/// Whether node `i` has an element child.
fn has_element_child(t: &UiTree, i: usize) -> (r: bool)
    requires
        t.has_node(i as int),
    ensures
        r == exists|j: int| #[trigger] t.is_element_child(i as int, j),
{
    t.first_element_child(i).is_some()
}

/// The markup of node `i` alone.
fn node_to_xml_string(t: &UiTree, i: usize) -> (r: String)
    requires
        t.has_node(i as int),
    ensures
        r@ == node_markup(*t, i as int),
{
    if !t.nodes[i].element {
        return String::new();
    }
    let mut out = open_tag_string(t, i);
    if has_element_child(t, i) {
        out.append(">");
    } else {
        out.append(" />");
    }
    out
}

/// The markup of node `i` and its element descendants.
fn node_to_xml_string_with_descendants(t: &UiTree, i: usize) -> (r: String)
    requires
        t.wf(),
        t.has_node(i as int),
    ensures
        r@ == subtree_markup(*t, i as int),
    decreases t.size() - i, t.size() + 1,
{
    if !t.nodes[i].element {
        return String::new();
    }
    let n = t.nodes.len();
    let mut kids = String::new();
    let mut j: usize = i + 1;
    while j < n
        invariant
            t.wf(),
            n == t.size(),
            i < j <= n,
            kids@ == children_markup(*t, i as int, j as int),
        decreases n - j,
    {
        if t.nodes[j].element && t.nodes[j].parent == Some(i) {
            let sub = node_to_xml_string_with_descendants(t, j);
            kids.append(sub.as_str());
        }
        j += 1;
    }
    let mut out = open_tag_string(t, i);
    if kids.as_str().unicode_len() == 0 {
        out.append(" />");
    } else {
        out.append(">");
        out.append(kids.as_str());
        out.append("</");
        out.append(t.nodes[i].tag.as_str());
        out.append(">");
    }
    out
}

} // verus!

verus! {

/// What a matching element contributes: its box and its markup.
pub open spec fn found_at(t: UiTree, sel: Selector, i: int, deep: bool) -> Option<
    ((i32, i32, i32, i32), Seq<char>),
> {
    if selects(t, sel, i) {
        match t.attr(i, "bounds"@) {
            Some(b) => match bounds_of(b) {
                Some(bx) => Some(
                    (
                        bx,
                        if deep {
                            subtree_markup(t, i)
                        } else {
                            node_markup(t, i)
                        },
                    ),
                ),
                None => None,
            },
            None => None,
        }
    } else {
        None
    }
}

/// The elements among the first `k` nodes, in document order, that match
/// `sel` and carry a readable `bounds` attribute.
pub open spec fn found(t: UiTree, sel: Selector, k: int, deep: bool) -> Seq<
    ((i32, i32, i32, i32), Seq<char>),
>
    decreases k,
{
    if k <= 0 {
        Seq::empty()
    } else {
        found(t, sel, k - 1, deep) + match found_at(t, sel, k - 1, deep) {
            Some(e) => seq![e],
            None => Seq::empty(),
        }
    }
}

pub open spec fn elements_view(v: Seq<UiElement>) -> Seq<((i32, i32, i32, i32), Seq<char>)> {
    v.map_values(|e: UiElement| (e.bounds, e.raw_xml@))
}

/// The matching elements of a tree, in document order, each with its box
/// and with its own markup (`deep` false) or that of its whole subtree
/// (`deep` true). Elements without a readable `bounds` attribute are left
/// out.
pub fn collect_matching_elements(tree: &UiTree, selector: &Selector, deep: bool) -> (r: Vec<
    UiElement,
>)
    requires
        tree.wf(),
    ensures
        elements_view(r@) == found(*tree, *selector, tree.size(), deep),
{
    let mut elements: Vec<UiElement> = Vec::new();
    let key = "bounds".to_owned();
    let n = tree.nodes.len();
    let mut i: usize = 0;
    while i < n
        invariant
            tree.wf(),
            n == tree.size(),
            i <= n,
            key@ == "bounds"@,
            elements_view(elements@) == found(*tree, *selector, i as int, deep),
        decreases n - i,
    {
        let ghost before = elements@;
        if selector.matches(tree, i) {
            match tree.attribute(i, &key) {
                Some(b) => match parse_bounds(b.as_str()) {
                    Some(bx) => {
                        let raw_xml = if deep {
                            node_to_xml_string_with_descendants(tree, i)
                        } else {
                            node_to_xml_string(tree, i)
                        };
                        elements.push(UiElement { bounds: bx, raw_xml });
                        assert(elements_view(elements@) =~= elements_view(before).push(
                            (bx, raw_xml@),
                        ));
                    },
                    None => {},
                },
                None => {},
            }
        }
        assert(elements_view(elements@) =~= found(*tree, *selector, i + 1, deep));
        i += 1;
    }
    elements
}

/// Prefix of the error for text that is not a document.
pub open spec fn xml_error(e: Seq<char>) -> Seq<char> {
    "Failed to parse XML: "@ + e
}

fn read_tree(xml: &str) -> (r: Result<UiTree, String>)
    ensures
        match r {
            Ok(t) => t.wf() && xml_nodes(xml@) == Ok::<Seq<NodeView>, Seq<char>>(
                node_views(t.nodes@),
            ),
            Err(e) => xml_nodes(xml@) matches Err(m) && e@ == xml_error(m),
        },
{
    match UiTree::parse(xml) {
        Ok(t) => Ok(t),
        Err(e) => {
            let mut msg = "Failed to parse XML: ".to_owned();
            msg.append(e.as_str());
            Err(msg)
        },
    }
}

/// The elements of document `xml` that match `selector`, each with its own
/// markup. Fails with "Failed to parse XML: " and the reader's message when
/// `xml` is not a document.
pub fn find_elements(xml: &str, selector: &Selector) -> (r: Result<Vec<UiElement>, String>)
    ensures
        match r {
            Ok(v) => exists|t: UiTree|
                t.wf() && xml_nodes(xml@) == Ok::<Seq<NodeView>, Seq<char>>(node_views(t.nodes@))
                    && elements_view(v@) == found(t, *selector, t.size(), false),
            Err(e) => xml_nodes(xml@) matches Err(m) && e@ == xml_error(m),
        },
{
    let tree = read_tree(xml)?;
    Ok(collect_matching_elements(&tree, selector, false))
}

/// The elements of document `xml` that match `selector`, each with the
/// markup of its whole subtree. Fails as `find_elements` does.
pub fn find_elements_with_descendants(xml: &str, selector: &Selector) -> (r: Result<
    Vec<UiElement>,
    String,
>)
    ensures
        match r {
            Ok(v) => exists|t: UiTree|
                t.wf() && xml_nodes(xml@) == Ok::<Seq<NodeView>, Seq<char>>(node_views(t.nodes@))
                    && elements_view(v@) == found(t, *selector, t.size(), true),
            Err(e) => xml_nodes(xml@) matches Err(m) && e@ == xml_error(m),
        },
{
    let tree = read_tree(xml)?;
    Ok(collect_matching_elements(&tree, selector, true))
}

} // verus!
