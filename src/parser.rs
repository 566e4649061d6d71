//! The selector parser: a cursor over the text, proved to follow the grammar.

use vstd::prelude::*;
use vstd::string::*;
use crate::grammar::{
    alphanumeric, at_char, at_word, chain, child_chain, children_after, clause_at, clause_views,
    clauses_from, close_paren, complex, descendants_after, find_char, ident_end, legacy,
    lemma_clause_advances, lemma_close_paren, lemma_or_shape, lemma_skip_ws, lemma_word_starts,
    operator_at, opt_shape, or_expr, or_gap, or_members, parse_text, primary, pseudo, shapes, skip_ws,
    suffixes, trim, trim_end, unquoted_end, value_at, ClauseView, SelectorView,
};
use crate::selector::{AttrClause, AttrOp, Selector};
use crate::text::{chars_at, chars_of, space_char};

verus! {

/// Relies on `char::is_alphanumeric`: whether a character is a letter or a
/// digit in Unicode's sense (the Alphabetic or Numeric property); the answer
/// depends on the character alone. Among ASCII characters these are exactly
/// the letters and the digits.
#[verifier::external_body]
fn is_alphanumeric(c: char) -> (r: bool)
    ensures
        r == alphanumeric(c),
        (c as u32) < 128 ==> (r <==> ('a' <= c <= 'z' || 'A' <= c <= 'Z' || '0' <= c <= '9')),
{
    c.is_alphanumeric()
}

/// Why and where, as a character offset, the bracket grammar failed.
#[derive(Debug, Clone, PartialEq, Eq)]
pub struct SyntaxError {
    pub message: String,
    pub position: usize,
}

fn syntax_error(message: &str, position: usize) -> (e: SyntaxError)
    ensures
        e.message@ == message@,
        e.position == position,
{
    SyntaxError { message: message.to_owned(), position }
}

/// A cursor over a selector's text.
struct SelectorParser<'a> {
    input: &'a str,
    chars: Vec<char>,
    pos: usize,
}

impl<'a> SelectorParser<'a> {
    spec fn wf(&self) -> bool {
        self.chars@ == self.input@ && self.pos <= self.chars@.len()
    }

    spec fn text(&self) -> Seq<char> {
        self.chars@
    }

    spec fn same_text(&self, other: &Self) -> bool {
        self.input == other.input && self.chars@ == other.chars@
    }

    fn new(input: &'a str) -> (r: Self)
        ensures
            r.wf(),
            r.input == input,
            r.pos == 0,
    {
        SelectorParser { input, chars: chars_of(input), pos: 0 }
    }

    fn peek(&self) -> (r: Option<char>)
        requires
            self.wf(),
        ensures
            r == (if self.pos < self.text().len() {
                Some(self.text()[self.pos as int])
            } else {
                None
            }),
    {
        if self.pos < self.chars.len() {
            Some(self.chars[self.pos])
        } else {
            None
        }
    }

    fn advance(&mut self)
        requires
            old(self).wf(),
        ensures
            final(self).wf(),
            final(self).same_text(old(self)),
            final(self).pos == (if old(self).pos < old(self).text().len() {
                old(self).pos + 1
            } else {
                old(self).pos as int
            }),
    {
        if self.pos < self.chars.len() {
            self.pos += 1;
        }
    }

    fn is_eof(&self) -> (r: bool)
        requires
            self.wf(),
        ensures
            r == (self.pos >= self.text().len()),
    {
        self.pos >= self.chars.len()
    }

    fn skip_whitespace(&mut self)
        requires
            old(self).wf(),
        ensures
            final(self).wf(),
            final(self).same_text(old(self)),
            final(self).pos == skip_ws(old(self).text(), old(self).pos as int),
            old(self).pos <= final(self).pos,
    {
        while self.pos < self.chars.len() && space_char(self.chars[self.pos])
            invariant
                self.wf(),
                self.same_text(old(self)),
                skip_ws(self.text(), self.pos as int) == skip_ws(old(self).text(), old(self).pos as int),
                old(self).pos <= self.pos,
            decreases self.text().len() - self.pos,
        {
            self.pos += 1;
        }
    }

    /// Whether `w` stands at the cursor.
    fn looking_at(&self, w: &str) -> (r: bool)
        requires
            self.wf(),
        ensures
            r == at_word(self.text(), self.pos as int, w@),
    {
        let wc = chars_of(w);
        if wc.len() > self.chars.len() - self.pos {
            return false;
        }
        chars_at(&self.chars, self.pos, &wc)
    }

    fn expect_str(&mut self, s: &str) -> (r: Result<(), SyntaxError>)
        requires
            old(self).wf(),
        ensures
            final(self).wf(),
            final(self).same_text(old(self)),
            r is Ok <==> at_word(old(self).text(), old(self).pos as int, s@),
            r is Ok ==> final(self).pos == old(self).pos + s@.len(),
            r is Err ==> final(self).pos == old(self).pos,
    {
        if self.looking_at(s) {
            let n = self.chars.len();
            assert(self.pos + s@.len() <= n);
            self.pos += s.unicode_len();
            Ok(())
        } else {
            Err(syntax_error("Expected pseudo-class", self.pos))
        }
    }

    fn expect_char(&mut self, expected: char) -> (r: Result<(), SyntaxError>)
        requires
            old(self).wf(),
        ensures
            final(self).wf(),
            final(self).same_text(old(self)),
            r is Ok <==> at_char(old(self).text(), old(self).pos as int, expected),
            r is Ok ==> final(self).pos == old(self).pos + 1,
            r is Err ==> final(self).pos == old(self).pos,
    {
        match self.peek() {
            Some(c) => {
                if c == expected {
                    self.advance();
                    Ok(())
                } else {
                    Err(syntax_error("Unexpected character", self.pos))
                }
            },
            None => Err(syntax_error("Unexpected end of input", self.pos)),
        }
    }

    /// The text between two positions, as a new string.
    fn slice(&self, start: usize, end: usize) -> (r: String)
        requires
            self.wf(),
            start <= end <= self.text().len(),
        ensures
            r@ == self.text().subrange(start as int, end as int),
    {
        self.input.substring_char(start, end).to_owned()
    }

    fn parse_identifier(&mut self) -> (r: Result<String, SyntaxError>)
        requires
            old(self).wf(),
        ensures
            final(self).wf(),
            final(self).same_text(old(self)),
            old(self).pos <= final(self).pos,
            ({
                let t = old(self).text();
                let p = old(self).pos as int;
                let e = ident_end(t, p);
                match r {
                    Ok(name) => e > p && name@ == t.subrange(p, e) && final(self).pos == e,
                    Err(_) => e == p,
                }
            }),
    {
        let start = self.pos;
        while self.pos < self.chars.len() && (is_alphanumeric(self.chars[self.pos])
            || self.chars[self.pos] == '_' || self.chars[self.pos] == '-')
            invariant
                self.wf(),
                self.same_text(old(self)),
                start == old(self).pos,
                start <= self.pos,
                ident_end(self.text(), self.pos as int) == ident_end(old(self).text(), start as int),
            decreases self.text().len() - self.pos,
        {
            self.pos += 1;
        }
        if start == self.pos {
            return Err(syntax_error("Expected identifier", self.pos));
        }
        Ok(self.slice(start, self.pos))
    }

    fn parse_operator(&mut self) -> (r: Result<AttrOp, SyntaxError>)
        requires
            old(self).wf(),
        ensures
            final(self).wf(),
            final(self).same_text(old(self)),
            old(self).pos <= final(self).pos,
            match r {
                Ok(op) => operator_at(old(self).text(), old(self).pos as int) == Some(
                    (op, final(self).pos as int),
                ),
                Err(_) => operator_at(old(self).text(), old(self).pos as int) is None,
            },
    {
        match self.peek() {
            Some('^') => {
                self.advance();
                self.expect_char('=')?;
                Ok(AttrOp::StartsWith)
            },
            Some('$') => {
                self.advance();
                self.expect_char('=')?;
                Ok(AttrOp::EndsWith)
            },
            Some('*') => {
                self.advance();
                self.expect_char('=')?;
                Ok(AttrOp::Contains)
            },
            Some('=') => {
                self.advance();
                Ok(AttrOp::Equals)
            },
            _ => Err(syntax_error("Expected operator (=, ^=, $=, *=)", self.pos)),
        }
    }

    fn parse_quoted_string(&mut self, quote: char) -> (r: Result<String, SyntaxError>)
        requires
            old(self).wf(),
            quote == '"' || quote == '\'',
            at_char(old(self).text(), old(self).pos as int, quote),
        ensures
            final(self).wf(),
            final(self).same_text(old(self)),
            old(self).pos <= final(self).pos,
            match r {
                Ok(v) => value_at(old(self).text(), old(self).pos as int) == Some(
                    (v@, final(self).pos as int),
                ),
                Err(_) => value_at(old(self).text(), old(self).pos as int) is None,
            },
    {
        self.expect_char(quote)?;
        let start = self.pos;
        while self.pos < self.chars.len()
            invariant
                self.wf(),
                self.same_text(old(self)),
                start == old(self).pos + 1,
                start <= self.pos,
                at_char(old(self).text(), old(self).pos as int, quote),
                quote == '"' || quote == '\'',
                find_char(self.text(), self.pos as int, quote) == find_char(
                    old(self).text(),
                    start as int,
                    quote,
                ),
            decreases self.text().len() - self.pos,
        {
            if self.chars[self.pos] == quote {
                assert(find_char(self.text(), self.pos as int, quote) == self.pos);
                assert(old(self).text()[old(self).pos as int] == quote);
                let value = self.slice(start, self.pos);
                self.advance();
                return Ok(value);
            }
            self.advance();
        }
        Err(syntax_error("Unterminated string", start - 1))
    }

    fn parse_unquoted_value(&mut self) -> (r: String)
        requires
            old(self).wf(),
        ensures
            final(self).wf(),
            final(self).same_text(old(self)),
            old(self).pos <= final(self).pos,
            final(self).pos == unquoted_end(old(self).text(), old(self).pos as int),
            r@ == old(self).text().subrange(old(self).pos as int, final(self).pos as int),
    {
        let start = self.pos;
        while self.pos < self.chars.len() && self.chars[self.pos] != ']' && self.chars[self.pos]
            != ',' && !space_char(self.chars[self.pos])
            invariant
                self.wf(),
                self.same_text(old(self)),
                start == old(self).pos,
                start <= self.pos,
                unquoted_end(self.text(), self.pos as int) == unquoted_end(
                    old(self).text(),
                    start as int,
                ),
            decreases self.text().len() - self.pos,
        {
            self.pos += 1;
        }
        self.slice(start, self.pos)
    }

    fn parse_value(&mut self) -> (r: Result<String, SyntaxError>)
        requires
            old(self).wf(),
        ensures
            final(self).wf(),
            final(self).same_text(old(self)),
            old(self).pos <= final(self).pos,
            match r {
                Ok(v) => value_at(old(self).text(), old(self).pos as int) == Some(
                    (v@, final(self).pos as int),
                ),
                Err(_) => value_at(old(self).text(), old(self).pos as int) is None,
            },
    {
        match self.peek() {
            Some('"') => self.parse_quoted_string('"'),
            Some('\'') => self.parse_quoted_string('\''),
            _ => Ok(self.parse_unquoted_value()),
        }
    }

    fn parse_attr_clause(&mut self) -> (r: Result<AttrClause, SyntaxError>)
        requires
            old(self).wf(),
        ensures
            final(self).wf(),
            final(self).same_text(old(self)),
            old(self).pos <= final(self).pos,
            match r {
                Ok(c) => clause_at(old(self).text(), old(self).pos as int) == Some(
                    (c@, final(self).pos as int),
                ),
                Err(_) => clause_at(old(self).text(), old(self).pos as int) is None,
            },
    {
        self.expect_char('[')?;
        self.skip_whitespace();
        let attr = self.parse_identifier()?;
        self.skip_whitespace();
        let op = self.parse_operator()?;
        self.skip_whitespace();
        let value = self.parse_value()?;
        match op {
            AttrOp::Equals => {},
            _ => {
                if value.as_str().unicode_len() == 0 {
                    return Err(syntax_error("Empty value not allowed for this operator", self.pos));
                }
            },
        }
        self.skip_whitespace();
        self.expect_char(']')?;
        Ok(AttrClause { attr, op, value })
    }

    fn parse_attr_clauses(&mut self) -> (r: Result<Vec<AttrClause>, SyntaxError>)
        requires
            old(self).wf(),
        ensures
            final(self).wf(),
            final(self).same_text(old(self)),
            old(self).pos <= final(self).pos,
            r matches Ok(cs) ==> (cs.len() > 0 ==> old(self).pos < final(self).pos),
            match r {
                Ok(cs) => clauses_from(old(self).text(), old(self).pos as int, Seq::empty())
                    == Some((clause_views(cs@), final(self).pos as int)),
                Err(_) => clauses_from(old(self).text(), old(self).pos as int, Seq::empty())
                    is None,
            },
    {
        let mut clauses: Vec<AttrClause> = Vec::new();
        let ghost goal = clauses_from(self.text(), self.pos as int, Seq::empty());
        assert(clause_views(clauses@) =~= Seq::<ClauseView>::empty());
        loop
            invariant
                self.wf(),
                self.same_text(old(self)),
                clauses_from(self.text(), self.pos as int, clause_views(clauses@)) == goal,
                old(self).pos <= self.pos,
                clauses.len() > 0 ==> old(self).pos < self.pos,
                goal == clauses_from(old(self).text(), old(self).pos as int, Seq::empty()),
            decreases self.text().len() - self.pos,
        {
            let saved = self.pos;
            self.skip_whitespace();
            if self.peek() != Some('[') {
                self.pos = saved;
                return Ok(clauses);
            }
            if self.pos > saved && clauses.len() > 0 {
                self.pos = saved;
                return Ok(clauses);
            }
            let ghost q = self.pos as int;
            let c = self.parse_attr_clause()?;
            proof {
                lemma_skip_ws(self.text(), saved as int);
                lemma_clause_advances(self.text(), q);
            }
            let ghost before = clause_views(clauses@);
            assert(clauses_from(self.text(), saved as int, before) == clauses_from(
                self.text(),
                self.pos as int,
                before.push(c@),
            ));
            clauses.push(c);
            assert(clause_views(clauses@) =~= before.push(c@));
        }
    }

    fn parse(&mut self) -> (r: Result<Selector, SyntaxError>)
        requires
            old(self).wf(),
            old(self).pos == 0,
        ensures
            final(self).wf(),
            final(self).same_text(old(self)),
            match r {
                Ok(sel) => primary(old(self).text()) == Some(sel@),
                Err(e) => primary(old(self).text()) is None && (or_gap(
                    old(self).text(),
                    skip_ws(old(self).text(), 0),
                ) ==> e.message@ == "Empty selector in OR expression"@),
            },
        decreases old(self).text().len(), 2nat, 0nat, 0nat,
    {
        self.skip_whitespace();
        let result = self.parse_or_expr()?;
        self.skip_whitespace();
        if !self.is_eof() {
            return Err(syntax_error("Unexpected characters after selector", self.pos));
        }
        Ok(result)
    }

    fn parse_or_expr(&mut self) -> (r: Result<Selector, SyntaxError>)
        requires
            old(self).wf(),
        ensures
            final(self).wf(),
            final(self).same_text(old(self)),
            old(self).pos <= final(self).pos,
            match r {
                Ok(sel) => or_expr(old(self).text(), old(self).pos as int) == Some(
                    (sel@, final(self).pos as int),
                ) && !or_gap(old(self).text(), old(self).pos as int),
                Err(e) => or_expr(old(self).text(), old(self).pos as int) is None && (or_gap(
                    old(self).text(),
                    old(self).pos as int,
                ) ==> e.message@ == "Empty selector in OR expression"@),
            },
        decreases old(self).text().len(), 1nat, old(self).text().len() - old(self).pos, 8nat,
    {
        let mut selectors: Vec<Selector> = Vec::new();
        let ghost goal = or_members(self.text(), self.pos as int, Seq::empty());
        assert(shapes(selectors@) =~= Seq::<SelectorView>::empty());
        loop
            invariant_except_break
                or_members(self.text(), self.pos as int, shapes(selectors@)) == goal,
                or_gap(self.text(), self.pos as int) == or_gap(old(self).text(), old(self).pos as int),
            invariant
                self.wf(),
                self.same_text(old(self)),
                old(self).pos <= self.pos,
                goal == or_members(old(self).text(), old(self).pos as int, Seq::empty()),
            ensures
                goal == Some((shapes(selectors@), self.pos as int)),
                !or_gap(old(self).text(), old(self).pos as int),
            decreases self.text().len() - self.pos,
        {
            let ghost p = self.pos as int;
            self.skip_whitespace();
            if self.is_eof() {
                break;
            }
            if self.peek() == Some(',') {
                return Err(syntax_error("Empty selector in OR expression", self.pos));
            }
            let sel = self.parse_descendant_chain()?;
            self.skip_whitespace();
            if self.peek() == Some(',') {
                self.advance();
                self.skip_whitespace();
                if self.is_eof() || self.peek() == Some(',') {
                    return Err(syntax_error("Empty selector in OR expression", self.pos));
                }
                let ghost before = shapes(selectors@);
                assert(or_members(self.text(), p, before) == or_members(
                    self.text(),
                    self.pos as int,
                    before.push(sel@),
                ));
                selectors.push(sel);
                assert(shapes(selectors@) =~= before.push(selectors@.last()@));
            } else {
                let ghost before = shapes(selectors@);
                selectors.push(sel);
                assert(shapes(selectors@) =~= before.push(selectors@.last()@));
                break;
            }
        }
        if selectors.len() == 0 {
            return Err(syntax_error("Empty selector", self.pos));
        }
        if selectors.len() == 1 {
            let only = selectors.remove(0);
            return Ok(only);
        }
        proof {
            lemma_or_shape(selectors);
        }
        Ok(Selector::Or(selectors))
    }

    fn parse_descendant_chain(&mut self) -> (r: Result<Selector, SyntaxError>)
        requires
            old(self).wf(),
        ensures
            final(self).wf(),
            final(self).same_text(old(self)),
            old(self).pos <= final(self).pos,
            r is Ok ==> old(self).pos < final(self).pos,
            match r {
                Ok(sel) => chain(old(self).text(), old(self).pos as int) == Some(
                    (sel@, final(self).pos as int),
                ),
                Err(_) => chain(old(self).text(), old(self).pos as int) is None,
            },
        decreases old(self).text().len(), 1nat, old(self).text().len() - old(self).pos, 6nat,
    {
        let mut left = self.parse_child_combinator()?;
        let ghost goal = descendants_after(self.text(), left@, self.pos as int);
        loop
            invariant_except_break
                descendants_after(self.text(), left@, self.pos as int) == goal,
            invariant
                self.wf(),
                self.same_text(old(self)),
                old(self).pos <= self.pos,
                goal == chain(old(self).text(), old(self).pos as int),
                old(self).pos < self.pos,
            ensures
                goal == Some((left@, self.pos as int)),
            decreases self.text().len() - self.pos,
        {
            let saved = self.pos;
            self.skip_whitespace();
            let next = self.peek();
            if self.pos > saved && (next == Some('[') || next == Some(':')) {
                let right = self.parse_child_combinator()?;
                let ghost before = left@;
                left = Selector::Descendant { ancestor: Box::new(left), descendant: Box::new(right) };
                assert(left@ == SelectorView::Descendant(Box::new(before), Box::new(right@)));
                assert(descendants_after(self.text(), before, saved as int) == descendants_after(
                    self.text(),
                    left@,
                    self.pos as int,
                ));
            } else {
                if !(next.is_none() || next == Some(',') || next == Some(')')) {
                    self.pos = saved;
                }
                break;
            }
        }
        Ok(left)
    }

    fn parse_child_combinator(&mut self) -> (r: Result<Selector, SyntaxError>)
        requires
            old(self).wf(),
        ensures
            final(self).wf(),
            final(self).same_text(old(self)),
            old(self).pos <= final(self).pos,
            r is Ok ==> old(self).pos < final(self).pos,
            match r {
                Ok(sel) => child_chain(old(self).text(), old(self).pos as int) == Some(
                    (sel@, final(self).pos as int),
                ),
                Err(_) => child_chain(old(self).text(), old(self).pos as int) is None,
            },
        decreases old(self).text().len(), 1nat, old(self).text().len() - old(self).pos, 4nat,
    {
        let mut left = self.parse_complex_selector()?;
        let ghost goal = children_after(self.text(), left@, self.pos as int);
        loop
            invariant_except_break
                children_after(self.text(), left@, self.pos as int) == goal,
            invariant
                self.wf(),
                self.same_text(old(self)),
                old(self).pos <= self.pos,
                goal == child_chain(old(self).text(), old(self).pos as int),
                old(self).pos < self.pos,
            ensures
                goal == Some((left@, self.pos as int)),
            decreases self.text().len() - self.pos,
        {
            let saved = self.pos;
            self.skip_whitespace();
            if self.peek() == Some('>') {
                self.advance();
                self.skip_whitespace();
                let right = self.parse_complex_selector()?;
                left = Selector::Child { parent: Box::new(left), child: Box::new(right) };
            } else {
                self.pos = saved;
                break;
            }
        }
        Ok(left)
    }

    #[verifier::rlimit(40)]
    fn parse_complex_selector(&mut self) -> (r: Result<Selector, SyntaxError>)
        requires
            old(self).wf(),
        ensures
            final(self).wf(),
            final(self).same_text(old(self)),
            old(self).pos <= final(self).pos,
            r is Ok ==> old(self).pos < final(self).pos,
            match r {
                Ok(sel) => complex(old(self).text(), old(self).pos as int) == Some(
                    (sel@, final(self).pos as int),
                ),
                Err(_) => complex(old(self).text(), old(self).pos as int) is None,
            },
        decreases old(self).text().len(), 1nat, old(self).text().len() - old(self).pos, 2nat,
    {
        proof {
            reveal_strlit(":has(");
            reveal_strlit(":not(");
        }
        self.skip_whitespace();
        proof {
            lemma_word_starts(self.text(), self.pos as int, ":has("@);
            lemma_word_starts(self.text(), self.pos as int, ":not("@);
        }
        if self.peek() == Some(':') {
            if self.looking_at(":has(") {
                return self.parse_has_selector();
            } else if self.looking_at(":not(") {
                return self.parse_not_selector();
            }
        }
        let clauses = self.parse_attr_clauses()?;
        if self.peek() == Some(':') {
            let (has_selector, not_selector) = self.parse_pseudo_suffixes()?;
            if clauses.len() == 0 && has_selector.is_none() && not_selector.is_none() {
                return Err(syntax_error("Expected attribute clause, :has() or :not()", self.pos));
            }
            if has_selector.is_some() || not_selector.is_some() {
                Ok(Selector::Complex { attrs: clauses, has: has_selector, not: not_selector })
            } else if clauses.len() == 0 {
                Err(syntax_error("Expected attribute clause", self.pos))
            } else {
                Ok(Selector::And(clauses))
            }
        } else if clauses.len() == 0 {
            Err(syntax_error("Expected attribute clause, :has() or :not()", self.pos))
        } else {
            Ok(Selector::And(clauses))
        }
    }

    /// `:has(..)` and `:not(..)` suffixes; a later one of a kind replaces an
    /// earlier one.
    fn parse_pseudo_suffixes(&mut self) -> (r: Result<
        (Option<Box<Selector>>, Option<Box<Selector>>),
        SyntaxError,
    >)
        requires
            old(self).wf(),
        ensures
            final(self).wf(),
            final(self).same_text(old(self)),
            old(self).pos <= final(self).pos,
            match r {
                Ok((h, n)) => suffixes(old(self).text(), old(self).pos as int, None, None) == Some(
                    (opt_shape(h), opt_shape(n), final(self).pos as int),
                ) && ((h is Some || n is Some) ==> old(self).pos < final(self).pos),
                Err(_) => suffixes(old(self).text(), old(self).pos as int, None, None) is None,
            },
        decreases old(self).text().len(), 1nat, old(self).text().len() - old(self).pos, 1nat,
    {
        let mut has_selector: Option<Box<Selector>> = None;
        let mut not_selector: Option<Box<Selector>> = None;
        let ghost goal = suffixes(self.text(), self.pos as int, None, None);
        loop
            invariant_except_break
                suffixes(
                    self.text(),
                    self.pos as int,
                    opt_shape(has_selector),
                    opt_shape(not_selector),
                ) == goal,
            invariant
                self.wf(),
                self.same_text(old(self)),
                old(self).pos <= self.pos,
                goal == suffixes(old(self).text(), old(self).pos as int, None, None),
                (has_selector is Some || not_selector is Some) ==> old(self).pos < self.pos,
            ensures
                goal == Some((opt_shape(has_selector), opt_shape(not_selector), self.pos as int)),
            decreases self.text().len() - self.pos,
        {
            proof {
                reveal_strlit(":has(");
                reveal_strlit(":not(");
            }
            proof {
                lemma_word_starts(self.text(), self.pos as int, ":has("@);
                lemma_word_starts(self.text(), self.pos as int, ":not("@);
            }
            if self.peek() != Some(':') {
                break;
            }
            if self.looking_at(":has(") {
                let inner = self.parse_has_selector_suffix()?;
                has_selector = Some(inner);
            } else if self.looking_at(":not(") {
                let inner = self.parse_not_selector_suffix()?;
                not_selector = Some(inner);
            } else {
                break;
            }
        }
        Ok((has_selector, not_selector))
    }

    fn parse_has_selector(&mut self) -> (r: Result<Selector, SyntaxError>)
        requires
            old(self).wf(),
            at_word(old(self).text(), old(self).pos as int, ":has("@),
        ensures
            final(self).wf(),
            final(self).same_text(old(self)),
            old(self).pos <= final(self).pos,
            match r {
                Ok(sel) => match pseudo(old(self).text(), old(self).pos as int) {
                    Some((v, e)) => e == final(self).pos && sel@ == SelectorView::Has(Box::new(v)),
                    None => false,
                },
                Err(_) => pseudo(old(self).text(), old(self).pos as int) is None,
            },
        decreases old(self).text().len(), 1nat, old(self).text().len() - old(self).pos, 0nat,
    {
        proof {
            reveal_strlit(":has(");
        }
        self.expect_str(":has(")?;
        let inner = self.parse_inner_selector()?;
        self.expect_char(')')?;
        Ok(Selector::Has(inner))
    }

    fn parse_not_selector(&mut self) -> (r: Result<Selector, SyntaxError>)
        requires
            old(self).wf(),
            at_word(old(self).text(), old(self).pos as int, ":not("@),
        ensures
            final(self).wf(),
            final(self).same_text(old(self)),
            old(self).pos <= final(self).pos,
            match r {
                Ok(sel) => match pseudo(old(self).text(), old(self).pos as int) {
                    Some((v, e)) => e == final(self).pos && sel@ == SelectorView::Not(Box::new(v)),
                    None => false,
                },
                Err(_) => pseudo(old(self).text(), old(self).pos as int) is None,
            },
        decreases old(self).text().len(), 1nat, old(self).text().len() - old(self).pos, 0nat,
    {
        proof {
            reveal_strlit(":not(");
        }
        self.expect_str(":not(")?;
        let inner = self.parse_inner_selector()?;
        self.expect_char(')')?;
        Ok(Selector::Not(inner))
    }

    fn parse_has_selector_suffix(&mut self) -> (r: Result<Box<Selector>, SyntaxError>)
        requires
            old(self).wf(),
            at_word(old(self).text(), old(self).pos as int, ":has("@),
        ensures
            final(self).wf(),
            final(self).same_text(old(self)),
            old(self).pos <= final(self).pos,
            match r {
                Ok(inner) => pseudo(old(self).text(), old(self).pos as int) == Some(
                    ((*inner)@, final(self).pos as int),
                ),
                Err(_) => pseudo(old(self).text(), old(self).pos as int) is None,
            },
        decreases old(self).text().len(), 1nat, old(self).text().len() - old(self).pos, 0nat,
    {
        proof {
            reveal_strlit(":has(");
        }
        self.expect_str(":has(")?;
        let inner = self.parse_inner_selector()?;
        self.expect_char(')')?;
        Ok(inner)
    }

    fn parse_not_selector_suffix(&mut self) -> (r: Result<Box<Selector>, SyntaxError>)
        requires
            old(self).wf(),
            at_word(old(self).text(), old(self).pos as int, ":not("@),
        ensures
            final(self).wf(),
            final(self).same_text(old(self)),
            old(self).pos <= final(self).pos,
            match r {
                Ok(inner) => pseudo(old(self).text(), old(self).pos as int) == Some(
                    ((*inner)@, final(self).pos as int),
                ),
                Err(_) => pseudo(old(self).text(), old(self).pos as int) is None,
            },
        decreases old(self).text().len(), 1nat, old(self).text().len() - old(self).pos, 0nat,
    {
        proof {
            reveal_strlit(":not(");
        }
        self.expect_str(":not(")?;
        let inner = self.parse_inner_selector()?;
        self.expect_char(')')?;
        Ok(inner)
    }

    /// The selector inside a pseudo-class's parentheses: the text up to the
    /// matching `)`, parsed as a whole selector. Stops at that `)`.
    fn parse_inner_selector(&mut self) -> (r: Result<Box<Selector>, SyntaxError>)
        requires
            old(self).wf(),
            old(self).pos >= 1,
        ensures
            final(self).wf(),
            final(self).same_text(old(self)),
            old(self).pos <= final(self).pos,
            ({
                let t = old(self).text();
                let start = skip_ws(t, old(self).pos as int);
                let end = close_paren(t, start, 1);
                &&& old(self).pos <= start <= end <= t.len()
                &&& r is Ok ==> final(self).pos == end
                &&& match r {
                    Ok(inner) => parse_text(t.subrange(start, end)) == Some((*inner)@),
                    Err(_) => parse_text(t.subrange(start, end)) is None,
                }
            }),
        decreases old(self).text().len(), 1nat, old(self).text().len() - old(self).pos, 0nat,
    {
        self.skip_whitespace();
        let start = self.pos;
        proof {
            lemma_skip_ws(self.text(), old(self).pos as int);
            lemma_close_paren(self.text(), start as int, 1);
        }
        let mut depth: usize = 1;
        while !self.is_eof()
            invariant
                self.wf(),
                self.same_text(old(self)),
                1 <= start <= self.pos,
                1 <= depth <= self.pos - start + 1,
                close_paren(self.text(), self.pos as int, depth as nat) == close_paren(
                    self.text(),
                    start as int,
                    1,
                ),
            ensures
                close_paren(self.text(), start as int, 1) == self.pos,
            decreases self.text().len() - self.pos,
        {
            match self.peek() {
                Some('(') => {
                    self.advance();
                    depth += 1;
                },
                Some(')') => {
                    if depth == 1 {
                        break;
                    }
                    self.advance();
                    depth -= 1;
                },
                _ => self.advance(),
            }
        }
        let inner = match parse_selector_text(self.input.substring_char(start, self.pos)) {
            Ok(sel) => sel,
            Err(_) => {
                return Err(syntax_error("Invalid selector inside pseudo-class", start));
            },
        };
        Ok(Box::new(inner))
    }
}

} // verus!

verus! {

/// `s` without leading and trailing whitespace.
pub fn trim_str(s: &str) -> (r: &str)
    ensures
        r@ == trim(s@),
        r@.len() <= s@.len(),
{
    let cs = chars_of(s);
    let n = cs.len();
    let mut b: usize = 0;
    while b < n && space_char(cs[b])
        invariant
            cs@ == s@,
            n == s@.len(),
            b <= n,
            skip_ws(s@, b as int) == skip_ws(s@, 0),
        decreases n - b,
    {
        b += 1;
    }
    let mut e: usize = n;
    while e > 0 && space_char(cs[e - 1])
        invariant
            cs@ == s@,
            n == s@.len(),
            e <= n,
            trim_end(s@, e as int) == trim_end(s@, n as int),
        decreases e,
    {
        e -= 1;
    }
    if b < e {
        s.substring_char(b, e)
    } else {
        let r = s.substring_char(0, 0);
        assert(r@ =~= Seq::<char>::empty());
        r
    }
}

/// Whether `c` occurs in `cs`.
fn holds_char(cs: &Vec<char>, c: char) -> (r: bool)
    ensures
        r == cs@.contains(c),
{
    let mut i: usize = 0;
    while i < cs.len()
        invariant
            i <= cs@.len(),
            forall|j: int| 0 <= j < i ==> cs@[j] != c,
        decreases cs@.len() - i,
    {
        if cs[i] == c {
            assert(cs@[i as int] == c);
            return true;
        }
        i += 1;
    }
    false
}

/// "Invalid selector format: " followed by `t`.
fn format_error(t: &str) -> (r: String)
    ensures
        r@ == "Invalid selector format: "@ + t@,
{
    let mut msg = "Invalid selector format: ".to_owned();
    msg.append(t);
    msg
}

/// The most groups of parentheses a selector may open inside one another.
pub const MAX_NESTING: usize = 32;

/// How many groups are open after the first `k` characters of `s`: each `(`
/// opens one, each `)` closes one if any is open.
pub open spec fn open_groups(s: Seq<char>, k: int) -> int
    decreases k,
{
    if k <= 0 {
        0
    } else {
        let before = open_groups(s, k - 1);
        if s[k - 1] == '(' {
            before + 1
        } else if s[k - 1] == ')' && before > 0 {
            before - 1
        } else {
            before
        }
    }
}

/// Somewhere in `s` more than `MAX_NESTING` groups are open.
pub open spec fn nested_too_deeply(s: Seq<char>) -> bool {
    exists|k: int| 0 <= k <= s.len() && #[trigger] open_groups(s, k) > MAX_NESTING
}

fn check_nesting(s: &str) -> (r: bool)
    ensures
        r == nested_too_deeply(s@),
{
    let cs = chars_of(s);
    let n = cs.len();
    let mut depth: usize = 0;
    let mut k: usize = 0;
    while k < n
        invariant
            cs@ == s@,
            n == s@.len(),
            k <= n,
            depth == open_groups(s@, k as int),
            depth <= MAX_NESTING,
            forall|j: int| 0 <= j <= k ==> #[trigger] open_groups(s@, j) <= MAX_NESTING,
        decreases n - k,
    {
        if cs[k] == '(' {
            depth += 1;
        } else if cs[k] == ')' && depth > 0 {
            depth -= 1;
        }
        k += 1;
        assert(depth == open_groups(s@, k as int));
        if depth > MAX_NESTING {
            assert(open_groups(s@, k as int) > MAX_NESTING);
            return true;
        }
    }
    false
}

/// `Selector::parse` without the bound on nesting; inner selectors recurse
/// here.
fn parse_selector_text(s: &str) -> (r: Result<Selector, String>)
    ensures
        match r {
            Ok(sel) => parse_text(s@) == Some(sel@),
            Err(e) => parse_text(s@) is None && e@ == "Invalid selector format: "@ + trim(s@),
        },
    decreases s@.len(), 3nat, 0nat, 0nat,
{
    let trimmed = trim_str(s);
    let mut parser = SelectorParser::new(trimmed);
    match parser.parse() {
        Ok(selector) => Ok(selector),
        Err(_) => Selector::parse_legacy(trimmed),
    }
}

impl Selector {
    /// Parses a selector: the trimmed text by the bracket grammar, or else
    /// in the legacy form `field=value`. Fails with
    /// "Invalid selector format: " and the trimmed text when neither applies,
    /// and with "Selector nested too deeply" when more than `MAX_NESTING`
    /// groups of parentheses are open at once, which bounds the parser's
    /// recursion.
    pub fn parse(s: &str) -> (r: Result<Selector, String>)
        ensures
            match r {
                Ok(sel) => !nested_too_deeply(s@) && parse_text(s@) == Some(sel@),
                Err(e) => if nested_too_deeply(s@) {
                    e@ == "Selector nested too deeply"@
                } else {
                    parse_text(s@) is None && e@ == "Invalid selector format: "@ + trim(s@)
                },
            },
    {
        if check_nesting(s) {
            return Err("Selector nested too deeply".to_owned());
        }
        parse_selector_text(s)
    }

    /// Parses the trimmed text by the bracket grammar alone, with no legacy
    /// fallback and the same bound on nesting, and says why it failed. An empty member of an or-expression
    /// fails with "Empty selector in OR expression".
    pub fn parse_bracket(s: &str) -> (r: Result<Selector, SyntaxError>)
        ensures
            match r {
                Ok(sel) => !nested_too_deeply(s@) && primary(trim(s@)) == Some(sel@),
                Err(e) => if nested_too_deeply(s@) {
                    e.message@ == "Selector nested too deeply"@
                } else {
                    primary(trim(s@)) is None && (or_gap(trim(s@), skip_ws(trim(s@), 0))
                        ==> e.message@ == "Empty selector in OR expression"@)
                },
            },
    {
        if check_nesting(s) {
            return Err(syntax_error("Selector nested too deeply", 0));
        }
        let trimmed = trim_str(s);
        let mut parser = SelectorParser::new(trimmed);
        parser.parse()
    }

    /// The legacy form `field=value` of trimmed text `s`.
    fn parse_legacy(s: &str) -> (r: Result<Selector, String>)
        ensures
            match r {
                Ok(sel) => legacy(s@) == Some(sel@),
                Err(e) => legacy(s@) is None && e@ == "Invalid selector format: "@ + s@,
            },
    {
        let cs = chars_of(s);
        let n = cs.len();
        let mut k: usize = 0;
        while k < n && cs[k] != '='
            invariant
                cs@ == s@,
                n == s@.len(),
                k <= n,
                find_char(s@, k as int, '=') == find_char(s@, 0, '='),
            decreases n - k,
        {
            k += 1;
        }
        if k < n && !holds_char(&cs, '[') && !holds_char(&cs, ':') {
            let field = trim_str(s.substring_char(0, k));
            let raw = trim_str(s.substring_char(k + 1, n));
            let vc = chars_of(raw);
            let vl = vc.len();
            let value = if vl >= 2 && (vc[0] == '"' || vc[0] == '\'') && vc[vl - 1] == vc[0] {
                raw.substring_char(1, vl - 1)
            } else {
                raw
            };
            if field.unicode_len() > 0 && value.unicode_len() > 0 {
                let clause = AttrClause { attr: field.to_owned(), op: AttrOp::Equals, value: value.to_owned() };
                let mut clauses: Vec<AttrClause> = Vec::new();
                clauses.push(clause);
                let sel = Selector::And(clauses);
                proof {
                    assert(clauses@ =~= seq![clause]);
                    assert(clause_views(clauses@) =~= seq![clause@]);
                }
                return Ok(sel);
            }
        }
        Err(format_error(s))
    }
}

} // verus!
