//! The selector grammar, written as functions over character sequences, and
//! the shape of a parsed selector.

use vstd::prelude::*;
use crate::selector::{AttrClause, AttrOp, Selector};
use crate::text::is_space;

verus! {

/// The shape of an attribute clause.
pub struct ClauseView {
    pub attr: Seq<char>,
    pub op: AttrOp,
    pub value: Seq<char>,
}

/// The shape of a selector, with text as character sequences.
pub enum SelectorView {
    And(Seq<ClauseView>),
    Or(Seq<SelectorView>),
    Has(Box<SelectorView>),
    Not(Box<SelectorView>),
    Complex(Seq<ClauseView>, Option<Box<SelectorView>>, Option<Box<SelectorView>>),
    Child(Box<SelectorView>, Box<SelectorView>),
    Descendant(Box<SelectorView>, Box<SelectorView>),
}

/// Whether `c` is a letter or digit in Unicode's sense, as
/// `char::is_alphanumeric` decides it.
pub uninterp spec fn alphanumeric(c: char) -> bool;

/// An ASCII letter or digit.
pub open spec fn ascii_alphanumeric(c: char) -> bool {
    'a' <= c <= 'z' || 'A' <= c <= 'Z' || '0' <= c <= '9'
}

/// A character of an attribute name: a letter or digit (exactly the ASCII
/// ones among ASCII characters), `_` or `-`.
pub open spec fn ident_char(c: char) -> bool {
    (if (c as u32) < 128 {
        ascii_alphanumeric(c)
    } else {
        alphanumeric(c)
    }) || c == '_' || c == '-'
}

/// First position at or after `p` that is not whitespace.
pub open spec fn skip_ws(t: Seq<char>, p: int) -> int
    decreases t.len() - p,
{
    if p < 0 || p >= t.len() || !is_space(t[p]) {
        p
    } else {
        skip_ws(t, p + 1)
    }
}

/// Position one past the last non-whitespace character before `e`.
pub open spec fn trim_end(t: Seq<char>, e: int) -> int
    decreases e,
{
    if e <= 0 || !is_space(t[e - 1]) {
        e
    } else {
        trim_end(t, e - 1)
    }
}

/// `s` without leading and trailing whitespace.
pub open spec fn trim(s: Seq<char>) -> Seq<char> {
    let b = skip_ws(s, 0);
    let e = trim_end(s, s.len() as int);
    if b < e {
        s.subrange(b, e)
    } else {
        Seq::empty()
    }
}

pub open spec fn at_char(t: Seq<char>, p: int, c: char) -> bool {
    0 <= p < t.len() && t[p] == c
}

/// `w` occurs in `t` at position `p`.
pub open spec fn at_word(t: Seq<char>, p: int, w: Seq<char>) -> bool {
    0 <= p && p + w.len() <= t.len() && t.subrange(p, p + w.len()) == w
}

/// First position at or after `p` that does not continue an identifier.
pub open spec fn ident_end(t: Seq<char>, p: int) -> int
    decreases t.len() - p,
{
    if p < 0 || p >= t.len() || !ident_char(t[p]) {
        p
    } else {
        ident_end(t, p + 1)
    }
}

/// First position at or after `p` holding `q`, or the end.
pub open spec fn find_char(t: Seq<char>, p: int, q: char) -> int
    decreases t.len() - p,
{
    if p < 0 || p >= t.len() || t[p] == q {
        p
    } else {
        find_char(t, p + 1, q)
    }
}

/// First position at or after `p` that ends an unquoted value: `]`, `,`,
/// whitespace, or the end.
pub open spec fn unquoted_end(t: Seq<char>, p: int) -> int
    decreases t.len() - p,
{
    if p < 0 || p >= t.len() || t[p] == ']' || t[p] == ',' || is_space(t[p]) {
        p
    } else {
        unquoted_end(t, p + 1)
    }
}

/// The `)` that closes a group opened before `p`, with `depth` groups open,
/// or the end when there is none.
pub open spec fn close_paren(t: Seq<char>, p: int, depth: nat) -> int
    decreases t.len() - p,
{
    if p < 0 || p >= t.len() {
        p
    } else if t[p] == '(' {
        close_paren(t, p + 1, depth + 1)
    } else if t[p] == ')' {
        if depth <= 1 {
            p
        } else {
            close_paren(t, p + 1, (depth - 1) as nat)
        }
    } else {
        close_paren(t, p + 1, depth)
    }
}

/// An operator at `p`, with the position after it.
pub open spec fn operator_at(t: Seq<char>, p: int) -> Option<(AttrOp, int)> {
    if at_char(t, p, '=') {
        Some((AttrOp::Equals, p + 1))
    } else if at_char(t, p + 1, '=') && at_char(t, p, '^') {
        Some((AttrOp::StartsWith, p + 2))
    } else if at_char(t, p + 1, '=') && at_char(t, p, '$') {
        Some((AttrOp::EndsWith, p + 2))
    } else if at_char(t, p + 1, '=') && at_char(t, p, '*') {
        Some((AttrOp::Contains, p + 2))
    } else {
        None
    }
}

/// A value at `p`: quoted with `"` or `'` (no escapes), or an unquoted run.
pub open spec fn value_at(t: Seq<char>, p: int) -> Option<(Seq<char>, int)> {
    if 0 <= p <= t.len() {
        if at_char(t, p, '"') || at_char(t, p, '\'') {
            let e = find_char(t, p + 1, t[p]);
            if e < t.len() {
                Some((t.subrange(p + 1, e), e + 1))
            } else {
                None
            }
        } else {
            let e = unquoted_end(t, p);
            Some((t.subrange(p, e), e))
        }
    } else {
        None
    }
}

/// One `[attr<op>value]` clause at `p`.
pub open spec fn clause_at(t: Seq<char>, p: int) -> Option<(ClauseView, int)> {
    if !at_char(t, p, '[') {
        None
    } else {
        let name_start = skip_ws(t, p + 1);
        let name_end = ident_end(t, name_start);
        if name_end == name_start {
            None
        } else {
            match operator_at(t, skip_ws(t, name_end)) {
                None => None,
                Some((op, after_op)) => match value_at(t, skip_ws(t, after_op)) {
                    None => None,
                    Some((v, after_value)) => {
                        let close = skip_ws(t, after_value);
                        if op != AttrOp::Equals && v.len() == 0 {
                            None
                        } else if !at_char(t, close, ']') {
                            None
                        } else {
                            Some((ClauseView { attr: t.subrange(name_start, name_end), op, value: v }, close + 1))
                        }
                    },
                },
            }
        }
    }
}

/// Clauses that follow `acc` from `p`. A clause after the first must follow
/// the previous one with no whitespace between; whitespace before a `[`
/// there ends the run (it separates a descendant).
pub open spec fn clauses_from(t: Seq<char>, p: int, acc: Seq<ClauseView>) -> Option<
    (Seq<ClauseView>, int),
>
    decreases t.len() - p,
{
    let q = skip_ws(t, p);
    if !(0 <= p <= t.len()) || !at_char(t, q, '[') || (q > p && acc.len() > 0) {
        Some((acc, p))
    } else {
        match clause_at(t, q) {
            None => None,
            Some((c, r)) => if r > p {
                clauses_from(t, r, acc.push(c))
            } else {
                None
            },
        }
    }
}

} // verus!

verus! {

/// A whole selector: the trimmed text parsed by the bracket grammar, or
/// else by the legacy `field=value` form.
pub open spec fn parse_text(s: Seq<char>) -> Option<SelectorView>
    decreases s.len(), 3nat, 0nat, 0nat,
{
    let t = trim(s);
    if t.len() <= s.len() {
        match primary(t) {
            Some(sel) => Some(sel),
            None => legacy(t),
        }
    } else {
        None
    }
}

/// The bracket grammar on trimmed text `t`: an or-expression that spans
/// all of it.
pub open spec fn primary(t: Seq<char>) -> Option<SelectorView>
    decreases t.len(), 2nat, 0nat, 0nat,
{
    match or_expr(t, skip_ws(t, 0)) {
        None => None,
        Some((sel, p)) => if skip_ws(t, p) < t.len() {
            None
        } else {
            Some(sel)
        },
    }
}

/// An or-expression at `p`: one member stands alone, two or more make an
/// `Or`, none fails.
pub open spec fn or_expr(t: Seq<char>, p: int) -> Option<(SelectorView, int)>
    decreases t.len(), 1nat, t.len() - p, 8nat,
{
    if !(0 <= p <= t.len()) {
        None
    } else {
        match or_members(t, p, Seq::empty()) {
            None => None,
            Some((members, q)) => if members.len() == 0 {
                None
            } else if members.len() == 1 {
                Some((members[0], q))
            } else {
                Some((SelectorView::Or(members), q))
            },
        }
    }
}

/// Comma-separated members after `acc`, from `p`. An empty member (a comma
/// first, last, or after another) fails.
pub open spec fn or_members(t: Seq<char>, p: int, acc: Seq<SelectorView>) -> Option<
    (Seq<SelectorView>, int),
>
    decreases t.len(), 1nat, t.len() - p, 7nat,
{
    let first = skip_ws(t, p);
    if !(0 <= p <= first <= t.len()) {
        None
    } else if first == t.len() {
        Some((acc, first))
    } else if t[first] == ',' {
        None
    } else {
        match chain(t, first) {
            None => None,
            Some((sel, after_member)) => {
                let next = skip_ws(t, after_member);
                if at_char(t, next, ',') {
                    let resume = skip_ws(t, next + 1);
                    if resume >= t.len() || t[resume] == ',' || resume <= p {
                        None
                    } else {
                        or_members(t, resume, acc.push(sel))
                    }
                } else {
                    Some((acc.push(sel), next))
                }
            },
        }
    }
}

/// The or-expression from `p` fails on an empty member: a comma comes first,
/// last, or right after another comma (whitespace between aside).
pub open spec fn or_gap(t: Seq<char>, p: int) -> bool
    decreases t.len() - p,
{
    let first = skip_ws(t, p);
    if !(0 <= p <= first <= t.len()) || first == t.len() {
        false
    } else if t[first] == ',' {
        true
    } else {
        match chain(t, first) {
            None => false,
            Some((sel, after_member)) => {
                let next = skip_ws(t, after_member);
                if at_char(t, next, ',') {
                    let resume = skip_ws(t, next + 1);
                    if resume >= t.len() || t[resume] == ',' {
                        true
                    } else if resume <= p {
                        false
                    } else {
                        or_gap(t, resume)
                    }
                } else {
                    false
                }
            },
        }
    }
}

/// A descendant chain at `p`: child chains separated by whitespace.
pub open spec fn chain(t: Seq<char>, p: int) -> Option<(SelectorView, int)>
    decreases t.len(), 1nat, t.len() - p, 6nat,
{
    if !(0 <= p <= t.len()) {
        None
    } else {
        match child_chain(t, p) {
            None => None,
            Some((left, r)) => if p <= r <= t.len() {
                descendants_after(t, left, r)
            } else {
                None
            },
        }
    }
}

/// Further child chains after `left`, each the descendant of all before it.
/// Only whitespace separates a descendant step: a `[` or `:` that follows
/// with no whitespace between ends the chain.
pub open spec fn descendants_after(t: Seq<char>, left: SelectorView, p: int) -> Option<
    (SelectorView, int),
>
    decreases t.len(), 1nat, t.len() - p, 5nat,
{
    let q = skip_ws(t, p);
    if !(0 <= p <= q <= t.len()) {
        None
    } else if q == t.len() || t[q] == ',' || t[q] == ')' {
        Some((left, q))
    } else if p < q && (t[q] == '[' || t[q] == ':') {
        match child_chain(t, q) {
            None => None,
            Some((right, r)) => if p < r <= t.len() {
                descendants_after(
                    t,
                    SelectorView::Descendant(Box::new(left), Box::new(right)),
                    r,
                )
            } else {
                None
            },
        }
    } else {
        Some((left, p))
    }
}

/// A child chain at `p`: complex selectors separated by `>`.
pub open spec fn child_chain(t: Seq<char>, p: int) -> Option<(SelectorView, int)>
    decreases t.len(), 1nat, t.len() - p, 4nat,
{
    if !(0 <= p <= t.len()) {
        None
    } else {
        match complex(t, p) {
            None => None,
            Some((left, r)) => if p <= r <= t.len() {
                children_after(t, left, r)
            } else {
                None
            },
        }
    }
}

/// Further `> selector` steps after `left`. Without a further `>`, the chain
/// ends before any whitespace, which may separate a descendant step.
pub open spec fn children_after(t: Seq<char>, left: SelectorView, p: int) -> Option<
    (SelectorView, int),
>
    decreases t.len(), 1nat, t.len() - p, 3nat,
{
    let q = skip_ws(t, p);
    if !(0 <= p <= q <= t.len()) {
        None
    } else if at_char(t, q, '>') {
        let q1 = skip_ws(t, q + 1);
        match if p < q1 <= t.len() {
            complex(t, q1)
        } else {
            None
        } {
            None => None,
            Some((right, r)) => if p < r <= t.len() {
                children_after(t, SelectorView::Child(Box::new(left), Box::new(right)), r)
            } else {
                None
            },
        }
    } else {
        Some((left, p))
    }
}

/// A complex selector at `p`: a leading `:has(..)` or `:not(..)`, or clauses
/// with optional `:has(..)` / `:not(..)` suffixes right after them (no
/// whitespace between), the last of each kind kept.
pub open spec fn complex(t: Seq<char>, p: int) -> Option<(SelectorView, int)>
    decreases t.len(), 1nat, t.len() - p, 2nat,
{
    let q = skip_ws(t, p);
    if !(0 <= p <= q <= t.len()) {
        None
    } else if at_word(t, q, ":has("@) {
        match pseudo(t, q) {
            None => None,
            Some((inner, r)) => Some((SelectorView::Has(Box::new(inner)), r)),
        }
    } else if at_word(t, q, ":not("@) {
        match pseudo(t, q) {
            None => None,
            Some((inner, r)) => Some((SelectorView::Not(Box::new(inner)), r)),
        }
    } else {
        match clauses_from(t, q, Seq::empty()) {
            None => None,
            Some((cs, r)) => {
                if !(p <= r <= t.len()) {
                    None
                } else if at_char(t, r, ':') {
                    match suffixes(t, r, None, None) {
                        None => None,
                        Some((h, n, e)) => if h is None && n is None {
                            if cs.len() == 0 {
                                None
                            } else {
                                Some((SelectorView::And(cs), e))
                            }
                        } else {
                            Some((SelectorView::Complex(cs, h, n), e))
                        },
                    }
                } else if cs.len() == 0 {
                    None
                } else {
                    Some((SelectorView::And(cs), r))
                }
            },
        }
    }
}

/// Adjacent `:has(..)` and `:not(..)` suffixes from `p`; a later one of a
/// kind replaces an earlier one.
pub open spec fn suffixes(
    t: Seq<char>,
    p: int,
    has: Option<Box<SelectorView>>,
    not: Option<Box<SelectorView>>,
) -> Option<(Option<Box<SelectorView>>, Option<Box<SelectorView>>, int)>
    decreases t.len(), 1nat, t.len() - p, 1nat,
{
    if !(0 <= p <= t.len()) {
        None
    } else if at_word(t, p, ":has("@) {
        match pseudo(t, p) {
            None => None,
            Some((inner, r)) => if p < r <= t.len() {
                suffixes(t, r, Some(Box::new(inner)), not)
            } else {
                None
            },
        }
    } else if at_word(t, p, ":not("@) {
        match pseudo(t, p) {
            None => None,
            Some((inner, r)) => if p < r <= t.len() {
                suffixes(t, r, has, Some(Box::new(inner)))
            } else {
                None
            },
        }
    } else {
        Some((has, not, p))
    }
}

/// The parenthesised selector of a pseudo-class whose five-character
/// opener (`:has(` or `:not(`) starts at `p`: the text up to the matching
/// `)` parsed as a whole selector.
pub open spec fn pseudo(t: Seq<char>, p: int) -> Option<(SelectorView, int)>
    decreases t.len(), 1nat, t.len() - p, 0nat,
{
    if !(0 <= p && p + 5 <= t.len()) {
        None
    } else {
        let start = skip_ws(t, p + 5);
        let end = close_paren(t, start, 1);
        if !(p + 5 <= start <= end <= t.len()) {
            None
        } else {
            match parse_text(t.subrange(start, end)) {
                None => None,
                Some(inner) => if at_char(t, end, ')') {
                    Some((inner, end + 1))
                } else {
                    None
                },
            }
        }
    }
}

/// Position of the first `c` in `t`, if any.
pub open spec fn first_index(t: Seq<char>, c: char) -> int {
    find_char(t, 0, c)
}

/// `v` without one pair of matching surrounding quotes.
pub open spec fn unquote(v: Seq<char>) -> Seq<char> {
    if v.len() >= 2 && (v[0] == '"' || v[0] == '\'') && v[v.len() - 1] == v[0] {
        v.subrange(1, v.len() - 1)
    } else {
        v
    }
}

/// The legacy form `field=value` on trimmed text: no `[` and no `:`, split
/// at the first `=`, both sides trimmed and non-empty, quotes around the
/// value dropped.
pub open spec fn legacy(t: Seq<char>) -> Option<SelectorView> {
    let k = first_index(t, '=');
    if k >= t.len() || t.contains('[') || t.contains(':') {
        None
    } else {
        let field = trim(t.subrange(0, k));
        let value = unquote(trim(t.subrange(k + 1, t.len() as int)));
        if field.len() == 0 || value.len() == 0 {
            None
        } else {
            Some(
                SelectorView::And(
                    seq![ClauseView { attr: field, op: AttrOp::Equals, value: value }],
                ),
            )
        }
    }
}

} // verus!

verus! {

impl View for AttrClause {
    type V = ClauseView;

    open spec fn view(&self) -> ClauseView {
        ClauseView { attr: self.attr@, op: self.op, value: self.value@ }
    }
}

pub open spec fn clause_views(cs: Seq<AttrClause>) -> Seq<ClauseView> {
    cs.map_values(|c: AttrClause| c@)
}

/// The shape of a selector.
pub open spec fn shape(s: Selector) -> SelectorView
    decreases s,
{
    match s {
        Selector::And(cs) => SelectorView::And(clause_views(cs@)),
        Selector::Or(v) => {
            proof {
                assert forall|k: int| 0 <= k < v@.len() implies decreases_to!(s => v@[k]) by {
                    vstd::std_specs::vec::axiom_vec_index_decreases(v, k);
                }
            }
            SelectorView::Or(
                Seq::new(
                    v@.len(),
                    |k: int|
                        if 0 <= k < v@.len() {
                            shape(v@[k])
                        } else {
                            SelectorView::And(Seq::empty())
                        },
                ),
            )
        },
        Selector::Has(inner) => SelectorView::Has(Box::new(shape(*inner))),
        Selector::Not(inner) => SelectorView::Not(Box::new(shape(*inner))),
        Selector::Complex { attrs, has, not } => SelectorView::Complex(
            clause_views(attrs@),
            match has {
                Some(h) => Some(Box::new(shape(*h))),
                None => None,
            },
            match not {
                Some(n) => Some(Box::new(shape(*n))),
                None => None,
            },
        ),
        Selector::Child { parent, child } => SelectorView::Child(
            Box::new(shape(*parent)),
            Box::new(shape(*child)),
        ),
        Selector::Descendant { ancestor, descendant } => SelectorView::Descendant(
            Box::new(shape(*ancestor)),
            Box::new(shape(*descendant)),
        ),
    }
}

pub open spec fn opt_shape(o: Option<Box<Selector>>) -> Option<Box<SelectorView>> {
    match o {
        Some(b) => Some(Box::new(shape(*b))),
        None => None,
    }
}

pub open spec fn shapes(v: Seq<Selector>) -> Seq<SelectorView> {
    v.map_values(|s: Selector| shape(s))
}

impl View for Selector {
    type V = SelectorView;

    open spec fn view(&self) -> SelectorView {
        shape(*self)
    }
}

} // verus!

verus! {

pub proof fn lemma_skip_ws(t: Seq<char>, p: int)
    requires
        0 <= p <= t.len(),
    ensures
        p <= skip_ws(t, p) <= t.len(),
        skip_ws(t, p) < t.len() ==> !is_space(t[skip_ws(t, p)]),
    decreases t.len() - p,
{
    if p < t.len() && is_space(t[p]) {
        lemma_skip_ws(t, p + 1);
    }
}

pub proof fn lemma_ident_end(t: Seq<char>, p: int)
    requires
        0 <= p <= t.len(),
    ensures
        p <= ident_end(t, p) <= t.len(),
    decreases t.len() - p,
{
    if p < t.len() && ident_char(t[p]) {
        lemma_ident_end(t, p + 1);
    }
}

pub proof fn lemma_find_char(t: Seq<char>, p: int, c: char)
    requires
        0 <= p <= t.len(),
    ensures
        p <= find_char(t, p, c) <= t.len(),
    decreases t.len() - p,
{
    if p < t.len() && t[p] != c {
        lemma_find_char(t, p + 1, c);
    }
}

pub proof fn lemma_unquoted_end(t: Seq<char>, p: int)
    requires
        0 <= p <= t.len(),
    ensures
        p <= unquoted_end(t, p) <= t.len(),
    decreases t.len() - p,
{
    if p < t.len() && t[p] != ']' && t[p] != ',' && !is_space(t[p]) {
        lemma_unquoted_end(t, p + 1);
    }
}

pub proof fn lemma_close_paren(t: Seq<char>, p: int, depth: nat)
    requires
        0 <= p <= t.len(),
    ensures
        p <= close_paren(t, p, depth) <= t.len(),
    decreases t.len() - p,
{
    if p < t.len() {
        if t[p] == '(' {
            lemma_close_paren(t, p + 1, depth + 1);
        } else if t[p] == ')' {
            if depth > 1 {
                lemma_close_paren(t, p + 1, (depth - 1) as nat);
            }
        } else {
            lemma_close_paren(t, p + 1, depth);
        }
    }
}

/// A clause that parses ends after where it began, within the text.
pub proof fn lemma_clause_advances(t: Seq<char>, p: int)
    requires
        0 <= p <= t.len(),
    ensures
        clause_at(t, p) matches Some((c, r)) ==> p < r <= t.len(),
{
    if at_char(t, p, '[') {
        let name_start = skip_ws(t, p + 1);
        lemma_skip_ws(t, p + 1);
        let name_end = ident_end(t, name_start);
        lemma_ident_end(t, name_start);
        lemma_skip_ws(t, name_end);
        match operator_at(t, skip_ws(t, name_end)) {
            Some((op, after_op)) => {
                if after_op <= t.len() {
                    lemma_skip_ws(t, after_op);
                    let pv = skip_ws(t, after_op);
                    if at_char(t, pv, '"') || at_char(t, pv, '\'') {
                        lemma_find_char(t, pv + 1, t[pv]);
                    } else {
                        lemma_unquoted_end(t, pv);
                    }
                    match value_at(t, pv) {
                        Some((v, after_value)) => {
                            lemma_skip_ws(t, after_value);
                        },
                        None => {},
                    }
                }
            },
            None => {},
        }
    }
}

} // verus!

verus! {

/// A word that stands at `p` begins with its first character there.
pub proof fn lemma_word_starts(t: Seq<char>, p: int, w: Seq<char>)
    requires
        w.len() > 0,
    ensures
        at_word(t, p, w) ==> p < t.len() && t[p] == w[0],
{
    if at_word(t, p, w) {
        assert(t.subrange(p, p + w.len())[0] == w[0]);
    }
}

pub proof fn lemma_or_shape(v: Vec<Selector>)
    ensures
        shape(Selector::Or(v)) == SelectorView::Or(shapes(v@)),
{
    let a = shape(Selector::Or(v))->Or_0;
    assert(a =~= shapes(v@));
    assert(shapes(v@) =~= Seq::new(
        v@.len(),
        |k: int|
            if 0 <= k < v@.len() {
                shape(v@[k])
            } else {
                SelectorView::And(Seq::empty())
            },
    ));
}

} // verus!

verus! {

fn copy_clauses(v: &Vec<AttrClause>) -> (r: Vec<AttrClause>)
    ensures
        clause_views(r@) == clause_views(v@),
{
    let mut r: Vec<AttrClause> = Vec::new();
    let mut k: usize = 0;
    while k < v.len()
        invariant
            k <= v@.len(),
            clause_views(r@) == clause_views(v@.subrange(0, k as int)),
        decreases v@.len() - k,
    {
        let c = &v[k];
        let ghost before = r@;
        let copy = AttrClause { attr: c.attr.clone(), op: c.op, value: c.value.clone() };
        assert(copy@ == v@[k as int]@);
        r.push(copy);
        assert(clause_views(r@) =~= clause_views(before).push(copy@));
        assert(clause_views(v@.subrange(0, k + 1)) =~= clause_views(v@.subrange(0, k as int)).push(
            v@[k as int]@,
        ));
        k += 1;
    }
    assert(v@.subrange(0, v@.len() as int) =~= v@);
    r
}

fn copy_members(members: &Vec<Selector>) -> (r: Vec<Selector>)
    ensures
        shapes(r@) == shapes(members@),
    decreases members, 1nat,
{
    let mut v: Vec<Selector> = Vec::new();
    let mut k: usize = 0;
    while k < members.len()
        invariant
            k <= members@.len(),
            shapes(v@) == shapes(members@.subrange(0, k as int)),
        decreases members@.len() - k,
    {
        proof {
            vstd::std_specs::vec::axiom_vec_index_decreases(*members, k as int);
        }
        let ghost before = v@;
        let copy = copy_selector(&members[k]);
        v.push(copy);
        assert(shapes(v@) =~= shapes(before).push(copy@));
        assert(shapes(members@.subrange(0, k + 1)) =~= shapes(members@.subrange(0, k as int)).push(
            members@[k as int]@,
        ));
        k += 1;
    }
    assert(members@.subrange(0, members@.len() as int) =~= members@);
    v
}

/// A copy of `s` with the same shape.
pub fn copy_selector(s: &Selector) -> (r: Selector)
    ensures
        r@ == s@,
    decreases s, 0nat,
{
    match s {
        Selector::And(cs) => Selector::And(copy_clauses(cs)),
        Selector::Or(members) => {
            let v = copy_members(members);
            proof {
                lemma_or_shape(v);
                lemma_or_shape(*members);
            }
            Selector::Or(v)
        },
        Selector::Has(inner) => Selector::Has(Box::new(copy_selector(inner))),
        Selector::Not(inner) => Selector::Not(Box::new(copy_selector(inner))),
        Selector::Complex { attrs, has, not } => {
            let h = match has {
                Some(b) => Some(Box::new(copy_selector(b))),
                None => None,
            };
            let n = match not {
                Some(b) => Some(Box::new(copy_selector(b))),
                None => None,
            };
            Selector::Complex { attrs: copy_clauses(attrs), has: h, not: n }
        },
        Selector::Child { parent, child } => Selector::Child {
            parent: Box::new(copy_selector(parent)),
            child: Box::new(copy_selector(child)),
        },
        Selector::Descendant { ancestor, descendant } => Selector::Descendant {
            ancestor: Box::new(copy_selector(ancestor)),
            descendant: Box::new(copy_selector(descendant)),
        },
    }
}

impl Clone for Selector {
    fn clone(&self) -> Self {
        copy_selector(self)
    }
}

} // verus!
