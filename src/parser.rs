use vstd::prelude::*;
use crate::ast::{Ast, ASTNode};
use crate::ast::{render_node, views};
use crate::text::{
    contains, contains_text, matches_at, parse_i32, parse_i32_spec, same_text, starts_with,
    starts_with_text, to_chars,
};
use crate::types::{ControlFlow, DrawCall, FlowView, State, StateView, VarView, Variable};
use crate::types::{DrawType, DrawView, Token, TokenType};
use crate::ast::render;

verus! {

/// What a parse step required when it failed.
#[derive(PartialEq, Eq, Structural, Debug, Clone, Copy)]
pub enum Expected {
    Identifier,
    Equals,
    OpenParen,
    CloseParen,
}

/// A structural parse failure: the token kind required, the kind found
/// (`Eol` at the end of input), and what was being parsed.
#[derive(PartialEq, Eq, Structural, Debug, Clone, Copy)]
pub struct ParseError {
    pub expected: TokenType,
    pub found: TokenType,
    pub context: Expected,
}

/// The kind of the token at `p`, or `Eol` past the end.
pub open spec fn kind_at(toks: Seq<Token>, p: int) -> TokenType {
    if 0 <= p < toks.len() {
        toks[p].token_type
    } else {
        TokenType::Eol
    }
}

/// The text of the token at `p`, or a newline past the end.
pub open spec fn text_at(toks: Seq<Token>, p: int) -> Seq<char> {
    if 0 <= p < toks.len() {
        toks[p].value@
    } else {
        seq!['\n']
    }
}

/// Whether a token of kind `ty` stands at `p`, with text `v` unless `v` is
/// empty.
pub open spec fn check_at(toks: Seq<Token>, p: int, ty: TokenType, v: Seq<char>) -> bool {
    0 <= p < toks.len() && toks[p].token_type == ty && (v.len() == 0 || toks[p].value@ == v)
}

pub open spec fn is_binop_text(s: Seq<char>) -> bool {
    s == "+"@ || s == "-"@ || s == "*"@ || s == "/"@ || s == "//"@
}

/// Whether a binary operator symbol stands at `p`.
pub open spec fn is_binop_at(toks: Seq<Token>, p: int) -> bool {
    0 <= p < toks.len() && toks[p].token_type == TokenType::Symbol && is_binop_text(toks[p].value@)
}

pub open spec fn error_at(toks: Seq<Token>, p: int, expected: TokenType, context: Expected) -> ParseError {
    ParseError { expected, found: kind_at(toks, p), context }
}

/// Where the dotted call path that starts at `p` ends: identifiers,
/// keywords and `.` symbols are taken greedily.
pub open spec fn path_end(toks: Seq<Token>, p: int) -> int
    decreases toks.len() - p,
{
    if 0 <= p < toks.len() && (toks[p].token_type == TokenType::Identifier
        || toks[p].token_type == TokenType::Keyword || check_at(toks, p, TokenType::Symbol, "."@)) {
        path_end(toks, p + 1)
    } else {
        p
    }
}

/// The texts of the tokens in `p..q`, concatenated.
pub open spec fn path_text(toks: Seq<Token>, p: int, q: int) -> Seq<char>
    decreases q - p,
{
    if q <= p {
        Seq::empty()
    } else {
        path_text(toks, p, q - 1) + text_at(toks, q - 1)
    }
}

/// The part of `s` after its last `.`, or all of `s`.
pub open spec fn last_segment(s: Seq<char>) -> Seq<char>
    decreases s.len(),
{
    if s.len() == 0 {
        s
    } else if s.last() == '.' {
        Seq::empty()
    } else {
        last_segment(s.drop_last()).push(s.last())
    }
}

/// The rectangle that a fill call with at least four arguments draws.
pub open spec fn rect_draw(args: Seq<Ast>) -> DrawView {
    DrawView {
        draw_type: DrawType::Rect,
        x: render(args[1]),
        y: render(args[2]),
        w: Some(render(args[3])),
        h: if args.len() > 4 { Some(render(args[4])) } else { Some("50"@) },
        radius: None,
        color: render(args[0]),
    }
}

/// The circle that a point call with at least three arguments draws.
pub open spec fn point_draw(args: Seq<Ast>) -> DrawView {
    DrawView {
        draw_type: DrawType::Circle,
        x: render(args[1]),
        y: render(args[2]),
        w: None,
        h: None,
        radius: Some("50"@),
        color: render(args[0]),
    }
}

pub open spec fn number_value(s: Seq<char>) -> i32 {
    match parse_i32_spec(s) {
        Some(n) => n,
        None => 0,
    }
}

/// Comma-separated argument expressions from `p` up to a `)` or the end.
pub open spec fn spec_args(toks: Seq<Token>, p: int) -> Result<(Seq<Ast>, int), ParseError>
    decreases toks.len() - p, 6int,
{
    if p < 0 || p >= toks.len() || check_at(toks, p, TokenType::Symbol, ")"@) {
        Ok((seq![], p))
    } else {
        match spec_expr(toks, p) {
            Err(e) => Err(e),
            Ok((a, p1)) => if p1 <= p || p1 > toks.len() {
                Err(error_at(toks, p, TokenType::Symbol, Expected::CloseParen))
            } else {
                let p2 = if check_at(toks, p1, TokenType::Symbol, ","@) { p1 + 1 } else { p1 };
                match spec_args(toks, p2) {
                    Err(e) => Err(e),
                    Ok((rest, q)) => Ok((seq![a] + rest, q)),
                }
            },
        }
    }
}

/// An expression: a primary, then binary operators folded to the left.
pub open spec fn spec_expr(toks: Seq<Token>, p: int) -> Result<(Ast, int), ParseError>
    decreases toks.len() - p, 5int,
{
    match spec_primary(toks, p) {
        Err(e) => Err(e),
        Ok((l, p1)) => if p1 < p || p1 > toks.len() {
            Ok((l, p1))
        } else {
            spec_binops(toks, l, p1)
        },
    }
}

/// The fold of `left` with the operators and primaries from `p` on.
pub open spec fn spec_binops(toks: Seq<Token>, left: Ast, p: int) -> Result<(Ast, int), ParseError>
    decreases toks.len() - p, 4int,
{
    if is_binop_at(toks, p) {
        match spec_primary(toks, p + 1) {
            Err(e) => Err(e),
            Ok((r, p2)) => if p2 <= p || p2 > toks.len() {
                Ok((left, p))
            } else {
                spec_binops(toks, Ast::BinaryOp(toks[p].value@, Box::new(left), Box::new(r)), p2)
            },
        }
    } else {
        Ok((left, p))
    }
}

/// A primary expression at `p`.
pub open spec fn spec_primary(toks: Seq<Token>, p: int) -> Result<(Ast, int), ParseError>
    decreases toks.len() - p, 3int,
{
    if p < 0 || p >= toks.len() {
        Ok((Ast::Ignore, p))
    } else {
        let v = toks[p].value@;
        match toks[p].token_type {
            TokenType::Number => Ok((Ast::Number(number_value(v)), p + 1)),
            TokenType::Identifier => if check_at(toks, p + 1, TokenType::Symbol, "."@) {
                spec_call(toks, p)
            } else {
                Ok((Ast::Identifier(v), p + 1))
            },
            TokenType::String => Ok((Ast::StringLiteral(v), p + 1)),
            TokenType::Keyword => if v == "true"@ {
                Ok((Ast::Boolean(true), p + 1))
            } else if v == "false"@ {
                Ok((Ast::Boolean(false), p + 1))
            } else if starts_with(v, "sdl2"@) {
                spec_call(toks, p)
            } else {
                Ok((Ast::Ignore, p + 1))
            },
            _ => Ok((Ast::Ignore, p + 1)),
        }
    }
}

/// A runtime call whose dotted path starts at `p`.
pub open spec fn spec_call(toks: Seq<Token>, p: int) -> Result<(Ast, int), ParseError>
    decreases toks.len() - p, 2int,
{
    let q = path_end(toks, p);
    let path = path_text(toks, p, q);
    if q <= p || q > toks.len() || !contains(path, "sdl2"@) {
        Ok((Ast::Ignore, q))
    } else {
        let last = last_segment(path);
        if last == "rect"@ || last == "fill"@ {
            spec_rect(toks, q, path)
        } else if last == "draw_point"@ {
            spec_point(toks, q)
        } else {
            Ok((Ast::Call(path, seq![]), q))
        }
    }
}

/// The argument list of a fill call named `path`, from `p`.
pub open spec fn spec_rect(toks: Seq<Token>, p: int, path: Seq<char>) -> Result<(Ast, int), ParseError>
    decreases toks.len() - p, 1int,
{
    if !check_at(toks, p, TokenType::Symbol, "("@) {
        Ok((Ast::Call(path, seq![]), p))
    } else {
        match spec_args(toks, p + 1) {
            Err(e) => Err(e),
            Ok((args, q)) => if !check_at(toks, q, TokenType::Symbol, seq![]) {
                Err(error_at(toks, q, TokenType::Symbol, Expected::CloseParen))
            } else if args.len() >= 4 {
                Ok((Ast::Draw(rect_draw(args)), q + 1))
            } else {
                Ok((Ast::Call(path, args), q + 1))
            },
        }
    }
}

/// The argument list of a point call, from `p`.
pub open spec fn spec_point(toks: Seq<Token>, p: int) -> Result<(Ast, int), ParseError>
    decreases toks.len() - p, 1int,
{
    if !check_at(toks, p, TokenType::Symbol, seq![]) {
        Err(error_at(toks, p, TokenType::Symbol, Expected::OpenParen))
    } else {
        match spec_args(toks, p + 1) {
            Err(e) => Err(e),
            Ok((args, q)) => if !check_at(toks, q, TokenType::Symbol, seq![]) {
                Err(error_at(toks, q, TokenType::Symbol, Expected::CloseParen))
            } else if args.len() >= 3 {
                Ok((Ast::Draw(point_draw(args)), q + 1))
            } else {
                Ok((Ast::Call("draw_point"@, args), q + 1))
            },
        }
    }
}

/// A statement at `p`: an assignment, a control-flow block or an expression.
pub open spec fn spec_statement(toks: Seq<Token>, p: int) -> Result<(Ast, int), ParseError>
    decreases toks.len() - p, 0int,
{
    if p < 0 || p >= toks.len() {
        spec_expr(toks, p)
    } else {
        let v = toks[p].value@;
        match toks[p].token_type {
            TokenType::Identifier => if kind_at(toks, p + 1) == TokenType::Symbol && text_at(toks, p + 1)
                == "="@ {
                match spec_expr(toks, p + 2) {
                    Err(e) => Err(e),
                    Ok((value, q)) => Ok((Ast::Assignment(v, Box::new(value)), q)),
                }
            } else {
                spec_expr(toks, p)
            },
            TokenType::Keyword => if v == "while"@ || v == "if"@ {
                spec_control(toks, p + 1, v)
            } else {
                spec_expr(toks, p)
            },
            _ => spec_expr(toks, p),
        }
    }
}

/// A control-flow block of the given kind whose optional condition starts
/// at `p`.
pub open spec fn spec_control(toks: Seq<Token>, p: int, kind: Seq<char>) -> Result<(Ast, int), ParseError>
    decreases toks.len() - p, 3int,
{
    if check_at(toks, p, TokenType::Symbol, "("@) {
        match spec_expr(toks, p + 1) {
            Err(e) => Err(e),
            Ok((c, p1)) => if !check_at(toks, p1, TokenType::Symbol, seq![]) {
                Err(error_at(toks, p1, TokenType::Symbol, Expected::CloseParen))
            } else if p1 < p {
                Ok((Ast::Ignore, p))
            } else {
                match spec_block(toks, p1 + 1) {
                    Err(e) => Err(e),
                    Ok((body, q)) => Ok((Ast::ControlFlow(kind, Some(Box::new(c)), body), q)),
                }
            },
        }
    } else {
        match spec_block(toks, p) {
            Err(e) => Err(e),
            Ok((body, q)) => Ok((Ast::ControlFlow(kind, None, body), q)),
        }
    }
}

pub open spec fn cons_opt(s: Option<Ast>, rest: Seq<Ast>) -> Seq<Ast> {
    match s {
        Some(a) => seq![a] + rest,
        None => rest,
    }
}

/// Statements from `p` up to an `end` keyword or the end of input.
pub open spec fn spec_block(toks: Seq<Token>, p: int) -> Result<(Seq<Ast>, int), ParseError>
    decreases toks.len() - p, 2int,
{
    if p < 0 || p >= toks.len() || check_at(toks, p, TokenType::Keyword, "end"@) {
        Ok((seq![], p))
    } else {
        match spec_try(toks, p) {
            Err(e) => Err(e),
            Ok((s, p1)) => if p1 <= p || p1 > toks.len() {
                Ok((seq![], p))
            } else {
                match spec_block(toks, p1) {
                    Err(e) => Err(e),
                    Ok((rest, q)) => Ok((cons_opt(s, rest), q)),
                }
            },
        }
    }
}

/// A statement at `p`, or nothing for a line end.
pub open spec fn spec_try(toks: Seq<Token>, p: int) -> Result<(Option<Ast>, int), ParseError>
    decreases toks.len() - p, 1int,
{
    if p < 0 || p >= toks.len() {
        Ok((None, p))
    } else if check_at(toks, p, TokenType::Eol, "\n"@) {
        Ok((None, p + 1))
    } else {
        match spec_statement(toks, p) {
            Err(e) => Err(e),
            Ok((s, q)) => Ok((Some(s), q)),
        }
    }
}

/// The statements from `p` to the end of input.
pub open spec fn spec_items(toks: Seq<Token>, p: int) -> Result<Seq<Ast>, ParseError>
    decreases toks.len() - p,
{
    if p < 0 || p >= toks.len() {
        Ok(seq![])
    } else {
        match spec_try(toks, p) {
            Err(e) => Err(e),
            Ok((s, p1)) => if p1 <= p || p1 > toks.len() {
                Ok(seq![])
            } else {
                match spec_items(toks, p1) {
                    Err(e) => Err(e),
                    Ok(rest) => Ok(cons_opt(s, rest)),
                }
            },
        }
    }
}

/// The program that a token sequence parses to.
pub open spec fn spec_program(toks: Seq<Token>) -> Result<Ast, ParseError> {
    match spec_items(toks, 0) {
        Err(e) => Err(e),
        Ok(items) => Ok(Ast::Program(items)),
    }
}

/// A node result of an exec parse step against its spec: the same node
/// ending at `pos`, or the same error.
pub open spec fn node_matches(r: Result<ASTNode, ParseError>, s: Result<(Ast, int), ParseError>, pos: int) -> bool {
    match r {
        Ok(n) => s == Ok::<(Ast, int), ParseError>((n@, pos)),
        Err(e) => s == Err::<(Ast, int), ParseError>(e),
    }
}

pub open spec fn list_matches(r: Result<Vec<ASTNode>, ParseError>, s: Result<(Seq<Ast>, int), ParseError>, pos: int) -> bool {
    match r {
        Ok(v) => s == Ok::<(Seq<Ast>, int), ParseError>((views(v@), pos)),
        Err(e) => s == Err::<(Seq<Ast>, int), ParseError>(e),
    }
}

/// `prefix` put before the items of a list result.
pub open spec fn prepend(prefix: Seq<Ast>, s: Result<(Seq<Ast>, int), ParseError>) -> Result<(Seq<Ast>, int), ParseError> {
    match s {
        Ok((rest, q)) => Ok((prefix + rest, q)),
        Err(e) => Err(e),
    }
}

/// Whether a successful step moved from `p` to `q` without passing `len`,
/// and moved at all when input was left.
pub open spec fn advanced(p: int, q: int, len: int) -> bool {
    p <= q <= len && (p < len ==> p < q)
}

proof fn lemma_views_push(v: Seq<ASTNode>, n: ASTNode)
    ensures
        views(v.push(n)) == views(v).push(n@),
{
    assert(views(v.push(n)) =~= views(v).push(n@));
}

proof fn lemma_prepend_push(prefix: Seq<Ast>, a: Ast, s: Result<(Seq<Ast>, int), ParseError>)
    ensures
        prepend(prefix, prepend(seq![a], s)) == prepend(prefix.push(a), s),
{
    match s {
        Ok((rest, q)) => {
            assert(prefix + (seq![a] + rest) =~= prefix.push(a) + rest);
        },
        Err(e) => {},
    }
}

pub open spec fn opt_node_view(o: Option<ASTNode>) -> Option<Ast> {
    match o {
        Some(n) => Some(n@),
        None => None,
    }
}

/// `prefix` put before the items of a program result.
pub open spec fn prepend_items(prefix: Seq<Ast>, s: Result<Seq<Ast>, ParseError>) -> Result<Seq<Ast>, ParseError> {
    match s {
        Ok(rest) => Ok(prefix + rest),
        Err(e) => Err(e),
    }
}

proof fn lemma_items_push(prefix: Seq<Ast>, a: Ast, s: Result<Seq<Ast>, ParseError>)
    ensures
        prepend_items(prefix, prepend_items(seq![a], s)) == prepend_items(prefix.push(a), s),
{
    match s {
        Ok(rest) => {
            assert(prefix + (seq![a] + rest) =~= prefix.push(a) + rest);
        },
        Err(e) => {},
    }
}

proof fn lemma_items_none(prefix: Seq<Ast>, s: Result<Seq<Ast>, ParseError>)
    ensures
        prepend_items(prefix, prepend_items(seq![], s)) == prepend_items(prefix, s),
{
    match s {
        Ok(rest) => {
            assert(Seq::<Ast>::empty() + rest =~= rest);
        },
        Err(e) => {},
    }
}

proof fn lemma_prepend_none(prefix: Seq<Ast>, s: Result<(Seq<Ast>, int), ParseError>)
    ensures
        prepend(prefix, prepend(seq![], s)) == prepend(prefix, s),
{
    match s {
        Ok((rest, q)) => {
            assert(Seq::<Ast>::empty() + rest =~= rest);
        },
        Err(e) => {},
    }
}

pub open spec fn opt_items(o: Option<Ast>) -> Seq<Ast> {
    match o {
        Some(a) => seq![a],
        None => seq![],
    }
}

proof fn lemma_items_step(toks: Seq<Token>, p: int)
    requires
        0 <= p < toks.len(),
    ensures
        match spec_try(toks, p) {
            Err(e) => spec_items(toks, p) == Err::<Seq<Ast>, ParseError>(e),
            Ok((o, p1)) => p < p1 <= toks.len() ==> spec_items(toks, p) == prepend_items(
                opt_items(o),
                spec_items(toks, p1),
            ),
        },
{
    match spec_try(toks, p) {
        Err(e) => {},
        Ok((o, p1)) => {
            match spec_items(toks, p1) {
                Ok(rest) => {
                    assert(cons_opt(o, rest) =~= opt_items(o) + rest);
                },
                Err(e) => {},
            }
        },
    }
}

/// A control-flow node of the given kind and condition around a body result.
pub open spec fn wrap_control(kind: Seq<char>, cond: Option<Box<Ast>>, s: Result<(Seq<Ast>, int), ParseError>) -> Result<(Ast, int), ParseError> {
    match s {
        Err(e) => Err(e),
        Ok((body, q)) => Ok((Ast::ControlFlow(kind, cond, body), q)),
    }
}

pub open spec fn cond_view_of(c: Option<Box<ASTNode>>) -> Option<Box<Ast>> {
    match c {
        Some(n) => Some(Box::new(n@)),
        None => None,
    }
}

proof fn lemma_last_segment_split(s: Seq<char>, j: int)
    requires
        0 <= j <= s.len(),
        forall|k: int| j <= k < s.len() ==> s[k] != '.',
    ensures
        last_segment(s) == last_segment(s.take(j)) + s.subrange(j, s.len() as int),
    decreases s.len(),
{
    if j == s.len() {
        assert(s.take(j) =~= s);
        assert(s.subrange(j, s.len() as int) =~= Seq::<char>::empty());
        assert(last_segment(s) + Seq::<char>::empty() =~= last_segment(s));
    } else {
        let d = s.drop_last();
        lemma_last_segment_split(d, j);
        assert(d.take(j) =~= s.take(j));
        assert(d.subrange(j, d.len() as int).push(s.last()) =~= s.subrange(j, s.len() as int));
        assert((last_segment(d.take(j)) + d.subrange(j, d.len() as int)).push(s.last())
            =~= last_segment(s.take(j)) + s.subrange(j, s.len() as int));
    }
}

/// Whether the part of `path` after its last `.` is the text `name`.
fn last_segment_is(path: &Vec<char>, name: &str) -> (r: bool)
    ensures
        r == (last_segment(path@) == name@),
{
    let mut j: usize = path.len();
    while j > 0 && path[j - 1] != '.'
        invariant
            j <= path@.len(),
            forall|k: int| j <= k < path@.len() ==> path@[k] != '.',
        decreases j,
    {
        j = j - 1;
    }
    proof {
        lemma_last_segment_split(path@, j as int);
        if j > 0 {
            assert(path@.take(j as int).last() == '.');
        } else {
            assert(path@.take(0) =~= Seq::<char>::empty());
        }
        assert(last_segment(path@) =~= path@.subrange(j as int, path@.len() as int));
    }
    let nc = to_chars(name);
    path.len() - j == nc.len() && matches_at(path, j, &nc)
}

fn copy_token(t: &Token) -> (r: Token)
    ensures
        r.token_type == t.token_type,
        r.value@ == t.value@,
{
    Token { token_type: t.token_type, value: t.value.clone() }
}

fn end_of_line_token() -> (r: Token)
    ensures
        r.token_type == TokenType::Eol,
        r.value@ == seq!['\n'],
{
    let v = String::from_str("\n");
    proof {
        reveal_strlit("\n");
    }
    Token { token_type: TokenType::Eol, value: v }
}

/// A cursor over a token sequence.
pub struct Parser {
    tokens: Vec<Token>,
    current: usize,
}

impl Parser {
    fn is_at_end(&self) -> (r: bool)
        ensures
            r == (self.current >= self.tokens@.len()),
    {
        self.current >= self.tokens.len()
    }

    fn peek(&self) -> (r: Token)
        ensures
            r.token_type == kind_at(self.tokens@, self.current as int),
            r.value@ == text_at(self.tokens@, self.current as int),
    {
        if self.is_at_end() {
            end_of_line_token()
        } else {
            copy_token(&self.tokens[self.current])
        }
    }

    fn peek_next(&self) -> (r: Token)
        ensures
            r.token_type == kind_at(self.tokens@, self.current + 1),
            r.value@ == text_at(self.tokens@, self.current + 1),
    {
        if self.current >= self.tokens.len() || self.tokens.len() - self.current <= 1 {
            end_of_line_token()
        } else {
            copy_token(&self.tokens[self.current + 1])
        }
    }

    fn peek_previous(&self) -> (r: Token)
        requires
            self.tokens@.len() > 0,
            self.current <= self.tokens@.len(),
        ensures
            self.current > 0 ==> r.token_type == self.tokens@[self.current - 1].token_type
                && r.value@ == self.tokens@[self.current - 1].value@,
            self.current == 0 ==> r.token_type == self.tokens@[0].token_type && r.value@
                == self.tokens@[0].value@,
    {
        if self.current == 0 {
            copy_token(&self.tokens[0])
        } else {
            copy_token(&self.tokens[self.current - 1])
        }
    }

    fn advance(&mut self) -> (r: Token)
        requires
            old(self).tokens@.len() > 0,
            old(self).current <= old(self).tokens@.len(),
        ensures
            final(self).tokens@ == old(self).tokens@,
            final(self).current == if old(self).current < old(self).tokens@.len() {
                old(self).current + 1
            } else {
                old(self).current as int
            },
            old(self).current < old(self).tokens@.len() ==> r.token_type == old(
                self,
            ).tokens@[old(self).current as int].token_type && r.value@ == old(
                self,
            ).tokens@[old(self).current as int].value@,
    {
        if self.current < self.tokens.len() {
            self.current = self.current + 1;
        }
        self.peek_previous()
    }

    fn check(&self, token_type: TokenType, value: &str) -> (r: bool)
        ensures
            r == check_at(self.tokens@, self.current as int, token_type, value@),
    {
        if self.is_at_end() {
            return false;
        }
        let t = &self.tokens[self.current];
        if value.unicode_len() > 0 {
            t.token_type == token_type && same_text(t.value.as_str(), value)
        } else {
            t.token_type == token_type
        }
    }

    fn match_keyword(&mut self, value: &str) -> (r: bool)
        requires
            old(self).current <= old(self).tokens@.len(),
        ensures
            final(self).tokens@ == old(self).tokens@,
            r == check_at(old(self).tokens@, old(self).current as int, TokenType::Keyword, value@),
            final(self).current == old(self).current + if r { 1int } else { 0int },
    {
        if self.check(TokenType::Keyword, value) {
            self.advance();
            true
        } else {
            false
        }
    }

    fn consume(&mut self, expected_type: TokenType, context: Expected) -> (r: Result<Token, ParseError>)
        requires
            old(self).current <= old(self).tokens@.len(),
        ensures
            final(self).tokens@ == old(self).tokens@,
            check_at(old(self).tokens@, old(self).current as int, expected_type, seq![]) ==> {
                &&& r is Ok
                &&& final(self).current == old(self).current + 1
                &&& r->Ok_0.value@ == old(self).tokens@[old(self).current as int].value@
            },
            !check_at(old(self).tokens@, old(self).current as int, expected_type, seq![]) ==> {
                &&& r == Err::<Token, ParseError>(
                    error_at(old(self).tokens@, old(self).current as int, expected_type, context),
                )
                &&& final(self).current == old(self).current
            },
    {
        proof {
            reveal_strlit("");
        }
        if self.check(expected_type, "") {
            assert(""@ =~= Seq::<char>::empty());
            Ok(self.advance())
        } else {
            let found = self.peek().token_type;
            Err(ParseError { expected: expected_type, found, context })
        }
    }

    fn is_binary_operator(&self) -> (r: bool)
        ensures
            r == is_binop_at(self.tokens@, self.current as int),
    {
        if self.is_at_end() {
            return false;
        }
        let t = &self.tokens[self.current];
        let v = t.value.as_str();
        t.token_type == TokenType::Symbol && (same_text(v, "+") || same_text(v, "-") || same_text(v, "*")
            || same_text(v, "/") || same_text(v, "//"))
    }

    fn parse_arguments(&mut self) -> (r: Result<Vec<ASTNode>, ParseError>)
        requires
            old(self).current <= old(self).tokens@.len(),
        ensures
            final(self).tokens@ == old(self).tokens@,
            final(self).current <= final(self).tokens@.len(),
            r is Ok ==> old(self).current <= final(self).current,
            list_matches(r, spec_args(old(self).tokens@, old(self).current as int), final(self).current as int),
        decreases old(self).tokens@.len() - old(self).current, 7int,
    {
        let ghost toks = self.tokens@;
        let ghost start = self.current as int;
        let mut args: Vec<ASTNode> = Vec::new();
        assert(views(args@) =~= Seq::<Ast>::empty());
        assert(spec_args(toks, start) =~~= prepend(views(args@), spec_args(toks, start))) by {
            match spec_args(toks, start) {
                Ok((rest, q)) => {
                    assert(Seq::<Ast>::empty() + rest =~= rest);
                },
                Err(e) => {},
            }
        }
        while !self.is_at_end() && !self.check(TokenType::Symbol, ")")
            invariant
                self.tokens@ == toks,
                toks == old(self).tokens@,
                start == old(self).current,
                start <= self.current <= toks.len(),
                spec_args(toks, start) == prepend(views(args@), spec_args(toks, self.current as int)),
            decreases toks.len() - self.current,
        {
            let ghost before = self.current as int;
            match self.parse_expression() {
                Err(e) => {
                    return Err(e);
                },
                Ok(a) => {
                    if self.check(TokenType::Symbol, ",") {
                        self.advance();
                    }
                    proof {
                        lemma_prepend_push(views(args@), a@, spec_args(toks, self.current as int));
                        lemma_views_push(args@, a);
                    }
                    args.push(a);
                },
            }
        }
        proof {
            assert(views(args@) + seq![] =~= views(args@));
        }
        Ok(args)
    }

    fn parse_expression(&mut self) -> (r: Result<ASTNode, ParseError>)
        requires
            old(self).current <= old(self).tokens@.len(),
        ensures
            final(self).tokens@ == old(self).tokens@,
            final(self).current <= final(self).tokens@.len(),
            node_matches(r, spec_expr(old(self).tokens@, old(self).current as int), final(self).current as int),
            r is Ok ==> advanced(old(self).current as int, final(self).current as int, old(self).tokens@.len() as int),
        decreases old(self).tokens@.len() - old(self).current, 6int,
    {
        self.parse_binary_expression()
    }

    fn parse_binary_expression(&mut self) -> (r: Result<ASTNode, ParseError>)
        requires
            old(self).current <= old(self).tokens@.len(),
        ensures
            final(self).tokens@ == old(self).tokens@,
            final(self).current <= final(self).tokens@.len(),
            node_matches(r, spec_expr(old(self).tokens@, old(self).current as int), final(self).current as int),
            r is Ok ==> advanced(old(self).current as int, final(self).current as int, old(self).tokens@.len() as int),
        decreases old(self).tokens@.len() - old(self).current, 5int,
    {
        let ghost toks = self.tokens@;
        let ghost start = self.current as int;
        let mut left = match self.parse_primary() {
            Err(e) => {
                return Err(e);
            },
            Ok(l) => l,
        };
        while self.is_binary_operator()
            invariant
                self.tokens@ == toks,
                toks == old(self).tokens@,
                start == old(self).current,
                start <= self.current <= toks.len(),
                start < toks.len() ==> start < self.current,
                spec_expr(toks, start) == spec_binops(toks, left@, self.current as int),
            decreases toks.len() - self.current,
        {
            let op = self.advance();
            match self.parse_primary() {
                Err(e) => {
                    return Err(e);
                },
                Ok(right) => {
                    left = ASTNode::BinaryOp { op: op.value, left: Box::new(left), right: Box::new(right) };
                },
            }
        }
        Ok(left)
    }

    fn parse_primary(&mut self) -> (r: Result<ASTNode, ParseError>)
        requires
            old(self).current <= old(self).tokens@.len(),
        ensures
            final(self).tokens@ == old(self).tokens@,
            final(self).current <= final(self).tokens@.len(),
            node_matches(r, spec_primary(old(self).tokens@, old(self).current as int), final(self).current as int),
            r is Ok ==> advanced(old(self).current as int, final(self).current as int, old(self).tokens@.len() as int),
        decreases old(self).tokens@.len() - old(self).current, 3int,
    {
        if self.is_at_end() {
            return Ok(ASTNode::Ignore);
        }
        proof {
            reveal_strlit("true");
            reveal_strlit("false");
        }
        let token = self.peek();
        match token.token_type {
            TokenType::Number => {
                let t = self.advance();
                let value = match parse_i32(t.value.as_str()) {
                    Some(n) => n,
                    None => 0,
                };
                Ok(ASTNode::Number(value))
            },
            TokenType::Identifier => {
                let t = self.advance();
                if !self.is_at_end() && self.check(TokenType::Symbol, ".") {
                    self.current = self.current - 1;
                    self.parse_sdl2_call()
                } else {
                    Ok(ASTNode::Identifier(t.value))
                }
            },
            TokenType::String => {
                let t = self.advance();
                Ok(ASTNode::StringLiteral(t.value))
            },
            TokenType::Keyword => {
                if self.match_keyword("true") {
                    Ok(ASTNode::Boolean(true))
                } else if self.match_keyword("false") {
                    Ok(ASTNode::Boolean(false))
                } else if starts_with_text(token.value.as_str(), "sdl2") {
                    self.parse_sdl2_call()
                } else {
                    self.advance();
                    Ok(ASTNode::Ignore)
                }
            },
            _ => {
                self.advance();
                Ok(ASTNode::Ignore)
            },
        }
    }

    fn parse_sdl2_call(&mut self) -> (r: Result<ASTNode, ParseError>)
        requires
            old(self).current < old(self).tokens@.len(),
            old(self).tokens@[old(self).current as int].token_type == TokenType::Identifier
                || old(self).tokens@[old(self).current as int].token_type == TokenType::Keyword,
        ensures
            final(self).tokens@ == old(self).tokens@,
            final(self).current <= final(self).tokens@.len(),
            node_matches(r, spec_call(old(self).tokens@, old(self).current as int), final(self).current as int),
            r is Ok ==> advanced(old(self).current as int, final(self).current as int, old(self).tokens@.len() as int),
        decreases old(self).tokens@.len() - old(self).current, 2int,
    {
        let ghost toks = self.tokens@;
        let ghost start = self.current as int;
        proof {
            reveal_strlit("");
            reveal_strlit(".");
        }
        let mut function_path = String::new();
        while !self.is_at_end() && (self.check(TokenType::Identifier, "") || self.check(TokenType::Symbol, ".")
            || self.check(TokenType::Keyword, ""))
            invariant
                self.tokens@ == toks,
                toks == old(self).tokens@,
                start == old(self).current,
                start <= self.current <= toks.len(),
                start < self.current || (self.current == start && (toks[start].token_type == TokenType::Identifier
                    || toks[start].token_type == TokenType::Keyword)),
                function_path@ == path_text(toks, start, self.current as int),
                path_end(toks, start) == path_end(toks, self.current as int),
            decreases toks.len() - self.current,
        {
            let t = self.advance();
            function_path.append(t.value.as_str());
        }
        let pc = to_chars(function_path.as_str());
        if !contains_text(&pc, "sdl2") {
            return Ok(ASTNode::Ignore);
        }
        if last_segment_is(&pc, "rect") || last_segment_is(&pc, "fill") {
            self.parse_sdl2_rect_or_fill_call(function_path)
        } else if last_segment_is(&pc, "draw_point") {
            self.parse_sdl2_draw_point_call()
        } else {
            let args: Vec<ASTNode> = Vec::new();
            assert(views(args@) =~= Seq::<Ast>::empty());
            Ok(ASTNode::SDL2Call { function: function_path, args })
        }
    }

    fn parse_sdl2_rect_or_fill_call(&mut self, function: String) -> (r: Result<ASTNode, ParseError>)
        requires
            old(self).current <= old(self).tokens@.len(),
        ensures
            final(self).tokens@ == old(self).tokens@,
            final(self).current <= final(self).tokens@.len(),
            node_matches(r, spec_rect(old(self).tokens@, old(self).current as int, function@), final(self).current as int),
            r is Ok ==> old(self).current <= final(self).current,
        decreases old(self).tokens@.len() - old(self).current, 1int,
    {
        proof {
            reveal_strlit("(");
        }
        if !self.check(TokenType::Symbol, "(") {
            let args: Vec<ASTNode> = Vec::new();
            assert(views(args@) =~= Seq::<Ast>::empty());
            return Ok(ASTNode::SDL2Call { function, args });
        }
        let _ = self.consume(TokenType::Symbol, Expected::OpenParen);
        let args = match self.parse_arguments() {
            Err(e) => {
                return Err(e);
            },
            Ok(a) => a,
        };
        match self.consume(TokenType::Symbol, Expected::CloseParen) {
            Err(e) => {
                return Err(e);
            },
            Ok(_) => {},
        }
        if args.len() >= 4 {
            let h = if args.len() > 4 {
                Some(render_node(&args[4]))
            } else {
                Some(String::from_str("50"))
            };
            let draw_call = DrawCall {
                draw_type: DrawType::Rect,
                x: render_node(&args[1]),
                y: render_node(&args[2]),
                w: Some(render_node(&args[3])),
                h,
                radius: None,
                color: render_node(&args[0]),
            };
            assert(draw_call@ == rect_draw(views(args@)));
            Ok(ASTNode::DrawCall(draw_call))
        } else {
            Ok(ASTNode::SDL2Call { function, args })
        }
    }

    fn parse_sdl2_draw_point_call(&mut self) -> (r: Result<ASTNode, ParseError>)
        requires
            old(self).current <= old(self).tokens@.len(),
        ensures
            final(self).tokens@ == old(self).tokens@,
            final(self).current <= final(self).tokens@.len(),
            node_matches(r, spec_point(old(self).tokens@, old(self).current as int), final(self).current as int),
            r is Ok ==> old(self).current <= final(self).current,
        decreases old(self).tokens@.len() - old(self).current, 1int,
    {
        match self.consume(TokenType::Symbol, Expected::OpenParen) {
            Err(e) => {
                return Err(e);
            },
            Ok(_) => {},
        }
        let args = match self.parse_arguments() {
            Err(e) => {
                return Err(e);
            },
            Ok(a) => a,
        };
        match self.consume(TokenType::Symbol, Expected::CloseParen) {
            Err(e) => {
                return Err(e);
            },
            Ok(_) => {},
        }
        if args.len() >= 3 {
            let draw_call = DrawCall {
                draw_type: DrawType::Circle,
                x: render_node(&args[1]),
                y: render_node(&args[2]),
                w: None,
                h: None,
                radius: Some(String::from_str("50")),
                color: render_node(&args[0]),
            };
            assert(draw_call@ == point_draw(views(args@)));
            Ok(ASTNode::DrawCall(draw_call))
        } else {
            Ok(ASTNode::SDL2Call { function: String::from_str("draw_point"), args })
        }
    }

    fn parse_program(&mut self) -> (r: Result<ASTNode, ParseError>)
        requires
            old(self).current == 0,
        ensures
            match r {
                Ok(n) => spec_program(old(self).tokens@) == Ok::<Ast, ParseError>(n@),
                Err(e) => spec_program(old(self).tokens@) == Err::<Ast, ParseError>(e),
            },
    {
        let ghost toks = self.tokens@;
        let mut statements: Vec<ASTNode> = Vec::new();
        assert(views(statements@) =~= Seq::<Ast>::empty());
        assert(spec_items(toks, 0) =~~= prepend_items(views(statements@), spec_items(toks, 0))) by {
            match spec_items(toks, 0) {
                Ok(rest) => {
                    assert(Seq::<Ast>::empty() + rest =~= rest);
                },
                Err(e) => {},
            }
        }
        while !self.is_at_end()
            invariant
                self.tokens@ == toks,
                toks == old(self).tokens@,
                self.current <= toks.len(),
                spec_items(toks, 0) == prepend_items(views(statements@), spec_items(toks, self.current as int)),
            decreases toks.len() - self.current,
        {
            let ghost before = self.current as int;
            proof {
                lemma_items_step(toks, before);
            }
            match self.try_parse_statement() {
                Err(e) => {
                    return Err(e);
                },
                Ok(Some(stmt)) => {
                    proof {
                        lemma_items_push(views(statements@), stmt@, spec_items(toks, self.current as int));
                        lemma_views_push(statements@, stmt);
                    }
                    statements.push(stmt);
                },
                Ok(None) => {
                    proof {
                        lemma_items_none(views(statements@), spec_items(toks, self.current as int));
                    }
                },
            }
        }
        assert(views(statements@) + seq![] =~= views(statements@));
        Ok(ASTNode::Program(statements))
    }

    fn try_parse_statement(&mut self) -> (r: Result<Option<ASTNode>, ParseError>)
        requires
            old(self).current <= old(self).tokens@.len(),
        ensures
            final(self).tokens@ == old(self).tokens@,
            final(self).current <= final(self).tokens@.len(),
            match r {
                Ok(o) => spec_try(old(self).tokens@, old(self).current as int) == Ok::<(Option<Ast>, int), ParseError>(
                    (opt_node_view(o), final(self).current as int),
                ),
                Err(e) => spec_try(old(self).tokens@, old(self).current as int) == Err::<(Option<Ast>, int), ParseError>(e),
            },
            r is Ok ==> advanced(old(self).current as int, final(self).current as int, old(self).tokens@.len() as int),
        decreases old(self).tokens@.len() - old(self).current, 1int,
    {
        proof {
            reveal_strlit("\n");
        }
        if self.is_at_end() {
            return Ok(None);
        }
        if self.check(TokenType::Eol, "\n") {
            self.advance();
            return Ok(None);
        }
        match self.parse_statement() {
            Err(e) => Err(e),
            Ok(stmt) => Ok(Some(stmt)),
        }
    }

    fn parse_statement(&mut self) -> (r: Result<ASTNode, ParseError>)
        requires
            old(self).current < old(self).tokens@.len(),
        ensures
            final(self).tokens@ == old(self).tokens@,
            final(self).current <= final(self).tokens@.len(),
            node_matches(r, spec_statement(old(self).tokens@, old(self).current as int), final(self).current as int),
            r is Ok ==> advanced(old(self).current as int, final(self).current as int, old(self).tokens@.len() as int),
        decreases old(self).tokens@.len() - old(self).current, 0int,
    {
        proof {
            reveal_strlit("while");
            reveal_strlit("if");
        }
        let token = self.peek();
        match token.token_type {
            TokenType::Identifier => {
                let next = self.peek_next();
                if next.token_type == TokenType::Symbol && same_text(next.value.as_str(), "=") {
                    self.parse_assignment()
                } else {
                    self.parse_expression()
                }
            },
            TokenType::Keyword => {
                if self.match_keyword("while") || self.match_keyword("if") {
                    self.parse_control_flow()
                } else {
                    self.parse_expression()
                }
            },
            _ => self.parse_expression(),
        }
    }

    fn parse_assignment(&mut self) -> (r: Result<ASTNode, ParseError>)
        requires
            old(self).current + 1 < old(self).tokens@.len(),
            old(self).tokens@[old(self).current as int].token_type == TokenType::Identifier,
            old(self).tokens@[old(self).current + 1].token_type == TokenType::Symbol,
            old(self).tokens@[old(self).current + 1].value@ == "="@,
        ensures
            final(self).tokens@ == old(self).tokens@,
            final(self).current <= final(self).tokens@.len(),
            node_matches(r, spec_statement(old(self).tokens@, old(self).current as int), final(self).current as int),
            r is Ok ==> advanced(old(self).current as int, final(self).current as int, old(self).tokens@.len() as int),
    {
        let name = match self.consume(TokenType::Identifier, Expected::Identifier) {
            Ok(t) => t.value,
            Err(e) => {
                return Err(e);
            },
        };
        match self.consume(TokenType::Symbol, Expected::Equals) {
            Ok(_) => {},
            Err(e) => {
                return Err(e);
            },
        }
        match self.parse_expression() {
            Ok(value) => Ok(ASTNode::Assignment { name, value: Box::new(value) }),
            Err(e) => Err(e),
        }
    }

    fn parse_control_flow(&mut self) -> (r: Result<ASTNode, ParseError>)
        requires
            0 < old(self).current <= old(self).tokens@.len(),
        ensures
            final(self).tokens@ == old(self).tokens@,
            final(self).current <= final(self).tokens@.len(),
            node_matches(
                r,
                spec_control(old(self).tokens@, old(self).current as int, old(self).tokens@[old(self).current - 1].value@),
                final(self).current as int,
            ),
            r is Ok ==> old(self).current <= final(self).current,
        decreases old(self).tokens@.len() - old(self).current, 3int,
    {
        let ghost toks = self.tokens@;
        let ghost start = self.current as int;
        proof {
            reveal_strlit("(");
            reveal_strlit("end");
        }
        let control_type = self.peek_previous().value;
        let ghost kind = control_type@;
        let mut condition: Option<Box<ASTNode>> = None;
        if self.check(TokenType::Symbol, "(") {
            self.advance();
            let c = match self.parse_expression() {
                Err(e) => {
                    return Err(e);
                },
                Ok(c) => c,
            };
            match self.consume(TokenType::Symbol, Expected::CloseParen) {
                Err(e) => {
                    return Err(e);
                },
                Ok(_) => {},
            }
            condition = Some(Box::new(c));
        }
        let ghost body_start = self.current as int;
        let ghost cond_view = cond_view_of(condition);
        assert(spec_control(toks, start, kind) == wrap_control(kind, cond_view, spec_block(toks, body_start)));
        let mut body: Vec<ASTNode> = Vec::new();
        assert(views(body@) =~= Seq::<Ast>::empty());
        assert(spec_block(toks, body_start) =~~= prepend(views(body@), spec_block(toks, body_start))) by {
            match spec_block(toks, body_start) {
                Ok((rest, q)) => {
                    assert(Seq::<Ast>::empty() + rest =~= rest);
                },
                Err(e) => {},
            }
        }
        while !self.is_at_end() && !self.check(TokenType::Keyword, "end")
            invariant
                self.tokens@ == toks,
                toks == old(self).tokens@,
                start == old(self).current,
                start <= body_start <= self.current <= toks.len(),
                kind == control_type@,
                kind == toks[start - 1].value@,
                cond_view == cond_view_of(condition),
                spec_control(toks, start, kind) == wrap_control(kind, cond_view, spec_block(toks, body_start)),
                spec_block(toks, body_start) == prepend(views(body@), spec_block(toks, self.current as int)),
            decreases toks.len() - self.current,
        {
            match self.try_parse_statement() {
                Err(e) => {
                    return Err(e);
                },
                Ok(Some(stmt)) => {
                    proof {
                        lemma_prepend_push(views(body@), stmt@, spec_block(toks, self.current as int));
                        lemma_views_push(body@, stmt);
                    }
                    body.push(stmt);
                },
                Ok(None) => {
                    proof {
                        lemma_prepend_none(views(body@), spec_block(toks, self.current as int));
                    }
                },
            }
        }
        assert(views(body@) + seq![] =~= views(body@));
        Ok(ASTNode::ControlFlow { control_type, condition, body })
    }
}

/// The kind inferred from the rendering of an assigned value: `bool` for a
/// boolean literal, `tuple` when the rendering holds a comma, else `i32`.
pub open spec fn kind_of(s: Seq<char>) -> Seq<char> {
    if s == "Boolean(true)"@ || s == "Boolean(false)"@ {
        "bool"@
    } else if contains(s, ","@) {
        "tuple"@
    } else {
        "i32"@
    }
}

/// What extraction records for a node: assignments as variables, draw
/// invocations as draw calls, control flow as a record followed by what its
/// body records; programs record what their statements record, in order.
pub open spec fn extracted(a: Ast) -> StateView
    decreases a, 0int,
{
    match a {
        Ast::Program(v) => extracted_items(v, v.len() as int),
        Ast::Assignment(n, value) => StateView {
            variables: seq![VarView { name: n, value: render(*value), tipo: kind_of(render(*value)) }],
            draw_calls: seq![],
            control_flow: seq![],
        },
        Ast::Draw(d) => StateView { variables: seq![], draw_calls: seq![d], control_flow: seq![] },
        Ast::ControlFlow(k, c, body) => StateView {
            variables: seq![],
            draw_calls: seq![],
            control_flow: seq![
                FlowView {
                    control_type: k,
                    condition: match c {
                        Some(e) => Some(render(*e)),
                        None => None,
                    },
                },
            ],
        }.plus(extracted_items(body, body.len() as int)),
        _ => StateView::empty(),
    }
}

/// What extraction records for `v[0..n]`, in order.
pub open spec fn extracted_items(v: Seq<Ast>, n: int) -> StateView
    decreases v, n,
{
    if n <= 0 || n > v.len() {
        StateView::empty()
    } else {
        extracted_items(v, n - 1).plus(extracted(v[n - 1]))
    }
}

proof fn lemma_plus_assoc(a: StateView, b: StateView, c: StateView)
    ensures
        a.plus(b).plus(c) == a.plus(b.plus(c)),
{
    assert(a.plus(b).plus(c).variables =~= a.plus(b.plus(c)).variables);
    assert(a.plus(b).plus(c).draw_calls =~= a.plus(b.plus(c)).draw_calls);
    assert(a.plus(b).plus(c).control_flow =~= a.plus(b.plus(c)).control_flow);
}

proof fn lemma_plus_empty(a: StateView)
    ensures
        a.plus(StateView::empty()) == a,
{
    assert(a.plus(StateView::empty()).variables =~= a.variables);
    assert(a.plus(StateView::empty()).draw_calls =~= a.draw_calls);
    assert(a.plus(StateView::empty()).control_flow =~= a.control_flow);
}

/// The kind of a rendered value.
fn infer_kind(value_str: &String) -> (r: String)
    ensures
        r@ == kind_of(value_str@),
{
    let vc = to_chars(value_str.as_str());
    if same_text(value_str.as_str(), "Boolean(true)") || same_text(value_str.as_str(), "Boolean(false)") {
        String::from_str("bool")
    } else if contains_text(&vc, ",") {
        String::from_str("tuple")
    } else {
        String::from_str("i32")
    }
}

fn extract_list(statements: &Vec<ASTNode>, state: &mut State)
    ensures
        final(state)@ == old(state)@.plus(extracted_items(views(statements@), statements@.len() as int)),
    decreases statements, 0int,
{
    let ghost start = state@;
    let ghost vs = views(statements@);
    proof {
        lemma_plus_empty(start);
    }
    let mut i: usize = 0;
    while i < statements.len()
        invariant
            i <= statements@.len(),
            vs == views(statements@),
            start == old(state)@,
            state@ == start.plus(extracted_items(vs, i as int)),
        decreases statements@.len() - i,
    {
        extract_state_from_ast(&statements[i], state);
        proof {
            lemma_plus_assoc(start, extracted_items(vs, i as int), extracted(vs[i as int]));
        }
        i = i + 1;
    }
}

/// Appends to `state` what `node` records (see `extracted`).
pub fn extract_state_from_ast(node: &ASTNode, state: &mut State)
    ensures
        final(state)@ == old(state)@.plus(extracted(node@)),
    decreases node, 1int,
{
    let ghost start = state@;
    match node {
        ASTNode::Program(statements) => {
            extract_list(statements, state);
        },
        ASTNode::Assignment { name, value } => {
            let value_str = render_node(value);
            let tipo = infer_kind(&value_str);
            let v = Variable { name: name.clone(), value: value_str, tipo };
            let ghost vv = v@;
            state.variables.push(v);
            assert(state@.variables =~= start.variables + seq![vv]);
            assert(state@.draw_calls =~= start.draw_calls + seq![]);
            assert(state@.control_flow =~= start.control_flow + seq![]);
        },
        ASTNode::DrawCall(d) => {
            let dc = DrawCall {
                draw_type: d.draw_type,
                x: d.x.clone(),
                y: d.y.clone(),
                w: clone_opt(&d.w),
                h: clone_opt(&d.h),
                radius: clone_opt(&d.radius),
                color: d.color.clone(),
            };
            let ghost dv = dc@;
            state.draw_calls.push(dc);
            assert(state@.variables =~= start.variables + seq![]);
            assert(state@.draw_calls =~= start.draw_calls + seq![dv]);
            assert(state@.control_flow =~= start.control_flow + seq![]);
        },
        ASTNode::ControlFlow { control_type, condition, body } => {
            let cond = match condition {
                Some(c) => Some(render_node(c)),
                None => None,
            };
            let cf = ControlFlow { control_type: control_type.clone(), condition: cond };
            let ghost fv = cf@;
            state.control_flow.push(cf);
            let ghost mid = state@;
            assert(mid.variables =~= start.variables + seq![]);
            assert(mid.draw_calls =~= start.draw_calls + seq![]);
            assert(mid.control_flow =~= start.control_flow + seq![fv]);
            extract_list(body, state);
            proof {
                let head = StateView { variables: seq![], draw_calls: seq![], control_flow: seq![fv] };
                lemma_plus_assoc(start, head, extracted_items(views(body@), body@.len() as int));
            }
        },
        _ => {
            proof {
                lemma_plus_empty(start);
            }
        },
    }
}

fn clone_opt(o: &Option<String>) -> (r: Option<String>)
    ensures
        crate::types::opt_view(r) == crate::types::opt_view(*o),
{
    match o {
        Some(s) => Some(s.clone()),
        None => None,
    }
}

/// Parses a token sequence and flattens the program into a state: its
/// variables, draw calls and control-flow records in source order. A
/// structural parse failure is returned as the error.
pub fn extract_state(tokens: Vec<Token>) -> (r: Result<State, ParseError>)
    ensures
        match spec_program(tokens@) {
            Ok(a) => r is Ok && r->Ok_0@ == extracted(a),
            Err(e) => r is Err && r->Err_0 == e,
        },
{
    let mut parser = Parser { tokens, current: 0 };
    let ast = match parser.parse_program() {
        Ok(a) => a,
        Err(e) => {
            return Err(e);
        },
    };
    let mut state = State { variables: Vec::new(), draw_calls: Vec::new(), control_flow: Vec::new() };
    assert(state@.variables =~= Seq::<VarView>::empty());
    assert(state@.draw_calls =~= Seq::<DrawView>::empty());
    assert(state@.control_flow =~= Seq::<FlowView>::empty());
    extract_state_from_ast(&ast, &mut state);
    proof {
        let x = extracted(ast@);
        assert(StateView::empty().plus(x).variables =~= x.variables);
        assert(StateView::empty().plus(x).draw_calls =~= x.draw_calls);
        assert(StateView::empty().plus(x).control_flow =~= x.control_flow);
    }
    Ok(state)
}

} // verus!
