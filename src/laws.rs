//! General facts about matching and parsing.

use vstd::prelude::*;
use crate::grammar::{
    ascii_alphanumeric, clause_at, ident_char, ident_end, lemma_skip_ws, operator_at, primary,
    skip_ws, unquoted_end, value_at, ClauseView,
};
use crate::text::is_space;
use crate::selector::{all_hold, clause_holds, resolve, selects, AttrClause, AttrOp, Selector};
use crate::tree::UiTree;

verus! {

/// An equality clause matches a node exactly when the node is an element and
/// its resolved attribute is present and equal to the clause's value; a node
/// without that attribute never matches.
pub proof fn law_equals_clause(t: UiTree, cs: Vec<AttrClause>, i: int)
    requires
        cs@.len() == 1,
        cs@[0].op == AttrOp::Equals,
    ensures
        selects(t, Selector::And(cs), i) <==> t.is_element(i) && t.attr(
            i,
            resolve(cs@[0].attr@),
        ) == Some(cs@[0].value@),
        t.attr(i, resolve(cs@[0].attr@)) is None ==> !selects(t, Selector::And(cs), i),
{
    if t.is_element(i) {
        assert(all_hold(t, cs@, i) <==> clause_holds(t, cs@[0], i));
    }
}

/// Two clauses together match exactly when each matches alone, in either
/// order.
pub proof fn law_clause_conjunction(
    t: UiTree,
    ab: Vec<AttrClause>,
    ba: Vec<AttrClause>,
    a: Vec<AttrClause>,
    b: Vec<AttrClause>,
    i: int,
)
    requires
        a@.len() == 1,
        b@.len() == 1,
        ab@ == seq![a@[0], b@[0]],
        ba@ == seq![b@[0], a@[0]],
    ensures
        selects(t, Selector::And(ab), i) <==> selects(t, Selector::And(a), i) && selects(
            t,
            Selector::And(b),
            i,
        ),
        selects(t, Selector::And(ab), i) == selects(t, Selector::And(ba), i),
{
    if t.is_element(i) {
        assert(all_hold(t, ab@, i) <==> clause_holds(t, a@[0], i) && clause_holds(t, b@[0], i)) by {
            if clause_holds(t, a@[0], i) && clause_holds(t, b@[0], i) {
                assert forall|k: int| 0 <= k < ab@.len() implies #[trigger] clause_holds(
                    t,
                    ab@[k],
                    i,
                ) by {}
            }
            if all_hold(t, ab@, i) {
                assert(clause_holds(t, ab@[0], i));
                assert(clause_holds(t, ab@[1], i));
            }
        }
        assert(all_hold(t, ba@, i) <==> clause_holds(t, a@[0], i) && clause_holds(t, b@[0], i)) by {
            if clause_holds(t, a@[0], i) && clause_holds(t, b@[0], i) {
                assert forall|k: int| 0 <= k < ba@.len() implies #[trigger] clause_holds(
                    t,
                    ba@[k],
                    i,
                ) by {}
            }
            if all_hold(t, ba@, i) {
                assert(clause_holds(t, ba@[0], i));
                assert(clause_holds(t, ba@[1], i));
            }
        }
        assert(all_hold(t, a@, i) <==> clause_holds(t, a@[0], i));
        assert(all_hold(t, b@, i) <==> clause_holds(t, b@[0], i));
    }
}

/// A two-member `Or` matches exactly when either member matches.
pub proof fn law_or_two(t: UiTree, s: Selector, i: int)
    requires
        s is Or,
        s->Or_0@.len() == 2,
    ensures
        selects(t, s, i) <==> selects(t, s->Or_0@[0], i) || selects(t, s->Or_0@[1], i),
{
    let members = s->Or_0;
    if t.is_element(i) {
        if selects(t, s, i) {
            let k = choose|k: int| 0 <= k < members@.len() && selects(t, #[trigger] members@[k], i);
            assert(k == 0 || k == 1);
        }
        if selects(t, members@[0], i) {
            assert(0 <= 0 < members@.len() && selects(t, members@[0], i));
        }
        if selects(t, members@[1], i) {
            assert(0 <= 1 < members@.len() && selects(t, members@[1], i));
        }
    } else {
        assert(!selects(t, members@[0], i));
        assert(!selects(t, members@[1], i));
    }
}

/// A node strictly inside the subtree of `i` has a child of `i` on its way up.
pub proof fn lemma_below_has_child(t: UiTree, i: int, j: int)
    requires
        t.is_below(i, j),
    ensures
        exists|c: int| #[trigger] t.parent_of(c) == Some(i as usize) && t.has_node(c),
    decreases j,
{
    let p = t.nodes@[j].parent.unwrap() as int;
    if p == i {
        assert(t.parent_of(j) == Some(i as usize));
    } else {
        lemma_below_has_child(t, i, p);
    }
}

/// `:has(inner)` matches an element exactly when some node strictly inside its
/// subtree matches `inner`; a node with no children never matches it.
pub proof fn law_has(t: UiTree, inner: Box<Selector>, i: int)
    ensures
        selects(t, Selector::Has(inner), i) <==> t.is_element(i) && exists|j: int|
            #[trigger] t.is_below(i, j) && selects(t, *inner, j),
        (forall|c: int| #[trigger] t.parent_of(c) != Some(i as usize)) ==> !selects(
            t,
            Selector::Has(inner),
            i,
        ),
{
    if (forall|c: int| #[trigger] t.parent_of(c) != Some(i as usize)) && selects(
        t,
        Selector::Has(inner),
        i,
    ) {
        let j = choose|j: int| #[trigger] t.is_below(i, j) && selects(t, *inner, j);
        lemma_below_has_child(t, i, j);
    }
}

/// `:not([text=X])` matches an element exactly when its `text` attribute is
/// absent or differs from `X`.
pub proof fn law_not_text(t: UiTree, inner: Box<Selector>, cs: Vec<AttrClause>, i: int)
    requires
        *inner == Selector::And(cs),
        cs@.len() == 1,
        cs@[0].attr@ == "text"@,
        cs@[0].op == AttrOp::Equals,
    ensures
        selects(t, Selector::Not(inner), i) <==> t.is_element(i) && t.attr(i, "text"@) != Some(
            cs@[0].value@,
        ),
{
    reveal_strlit("text");
    reveal_strlit("contentDescription");
    reveal_strlit("content-description");
    reveal_strlit("content_desc");
    reveal_strlit("resourceId");
    reveal_strlit("resource_id");
    reveal_strlit("long_clickable");
    assert(resolve("text"@) == "text"@);
    law_equals_clause(t, cs, i);
}

/// A child combinator matches a node exactly when the node matches the child
/// part and its parent exists and matches the parent part; a node whose
/// parent fails the parent part never matches, however far up a match lies.
pub proof fn law_child(t: UiTree, parent: Box<Selector>, child: Box<Selector>, i: int)
    ensures
        selects(t, Selector::Child { parent, child }, i) <==> selects(t, *child, i) && match t.parent_of(i) {
            Some(p) => selects(t, *parent, p as int),
            None => false,
        },
{
    if selects(t, *child, i) {
        assert(t.is_element(i));
    }
}

/// A descendant combinator matches a node exactly when the node matches the
/// descendant part and some node above it, at any depth, matches the
/// ancestor part.
pub proof fn law_descendant(
    t: UiTree,
    ancestor: Box<Selector>,
    descendant: Box<Selector>,
    i: int,
)
    ensures
        selects(t, Selector::Descendant { ancestor, descendant }, i) <==> selects(t, *descendant, i)
            && exists|a: int| #[trigger] t.is_below(a, i) && selects(t, *ancestor, a),
{
    if selects(t, *descendant, i) {
        assert(t.is_element(i));
    }
}

/// A clause that parses with `^=`, `$=` or `*=` has a non-empty value; only
/// `=` admits an empty one.
pub proof fn law_substring_ops_need_value(text: Seq<char>, p: int)
    ensures
        clause_at(text, p) matches Some((c, e)) ==> c.op == AttrOp::Equals || c.value.len() > 0,
{
}

/// Text whose first non-blank character is a comma fails the bracket
/// grammar: an or-expression cannot begin with an empty member.
pub proof fn law_leading_comma(t: Seq<char>)
    requires
        skip_ws(t, 0) < t.len(),
        t[skip_ws(t, 0)] == ',',
    ensures
        primary(t) is None,
{
    lemma_skip_ws(t, 0);
}

/// The text of an operator.
pub open spec fn op_text(op: AttrOp) -> Seq<char> {
    match op {
        AttrOp::Equals => seq!['='],
        AttrOp::StartsWith => seq!['^', '='],
        AttrOp::EndsWith => seq!['$', '='],
        AttrOp::Contains => seq!['*', '='],
    }
}

/// A character that may stand in an unquoted value and does not open a
/// quoted one.
pub open spec fn plain_value_char(c: char) -> bool {
    c != ']' && c != ',' && !is_space(c) && c != '"' && c != '\''
}

/// `[name<op>value]`, written without whitespace.
pub open spec fn clause_text(name: Seq<char>, op: AttrOp, value: Seq<char>) -> Seq<char> {
    seq!['['] + name + op_text(op) + value + seq![']']
}

proof fn lemma_ident_run(t: Seq<char>, p: int, e: int)
    requires
        0 <= p <= e < t.len(),
        forall|k: int| p <= k < e ==> ident_char(#[trigger] t[k]),
        !ident_char(t[e]),
    ensures
        ident_end(t, p) == e,
    decreases e - p,
{
    if p < e {
        lemma_ident_run(t, p + 1, e);
    }
}

proof fn lemma_value_run(t: Seq<char>, p: int, e: int)
    requires
        0 <= p <= e < t.len(),
        forall|k: int| p <= k < e ==> plain_value_char(#[trigger] t[k]),
        t[e] == ']',
    ensures
        unquoted_end(t, p) == e,
    decreases e - p,
{
    if p < e {
        lemma_value_run(t, p + 1, e);
    }
}

/// A clause written `[name<op>value]` without whitespace, with an ASCII name
/// of letters, digits, `_` and `-` and an unquoted value, parses to exactly
/// that name, operator and value, ending after the `]`; except that an empty
/// value fails with `^=`, `$=` and `*=`.
pub proof fn law_clause_text(name: Seq<char>, op: AttrOp, value: Seq<char>)
    requires
        name.len() > 0,
        forall|k: int|
            0 <= k < name.len() ==> (ascii_alphanumeric(#[trigger] name[k]) || name[k] == '_'
                || name[k] == '-'),
        forall|k: int| 0 <= k < value.len() ==> plain_value_char(#[trigger] value[k]),
    ensures
        clause_at(clause_text(name, op, value), 0) == if op != AttrOp::Equals && value.len() == 0 {
            None
        } else {
            Some((ClauseView { attr: name, op, value }, clause_text(name, op, value).len() as int))
        },
{
    let t = clause_text(name, op, value);
    let n = name.len() as int;
    let m = op_text(op).len() as int;
    let vl = value.len() as int;
    let at_op = 1 + n;
    let at_value = at_op + m;
    let close = at_value + vl;
    assert(t.len() == close + 1);
    assert forall|k: int| 1 <= k < at_op implies ident_char(#[trigger] t[k]) by {
        assert(t[k] == name[k - 1]);
    }
    assert(t[at_op] == op_text(op)[0]);
    assert(!ident_char(t[at_op]));
    lemma_ident_run(t, 1, at_op);
    assert(t[1] == name[0]);
    assert(skip_ws(t, 1) == 1);
    assert(skip_ws(t, at_op) == at_op);
    if m == 2 {
        assert(t[at_op + 1] == '=');
    }
    assert(operator_at(t, at_op) == Some((op, at_value)));
    assert(t[close] == ']');
    assert forall|k: int| at_value <= k < close implies plain_value_char(#[trigger] t[k]) by {
        assert(t[k] == value[k - at_value]);
    }
    if vl > 0 {
        assert(t[at_value] == value[0]);
    }
    assert(skip_ws(t, at_value) == at_value);
    lemma_value_run(t, at_value, close);
    assert(t.subrange(at_value, close) =~= value);
    assert(value_at(t, at_value) == Some((value, close)));
    assert(skip_ws(t, close) == close);
    assert(t.subrange(1, at_op) =~= name);
}

} // verus!
