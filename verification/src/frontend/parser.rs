//! The parser: recursive descent over the tokens of a module, with a
//! precedence loop for expressions. It builds the arena of syntax nodes and a
//! list of errors. A token that does not fit is reported and gives an error
//! node, and the parse goes on; the end of the input inside a construct ends
//! the statement it cuts off, which is reported and gives an error node too.
pub mod ast;
pub mod grammar;
pub mod shape;

use crate::frontend::lexer::token::{MaybeToken, Token, TokenType};
use crate::frontend::module::span::Span;
use crate::frontend::parser::ast::{
    lemma_nodes_of_push, nodes_of, rooted, well_formed, Ast, AstId, AstKind, AstNode, AstTag,
    AstType,
};
use crate::frontend::parser::grammar::{
    is_at, mismatch, sp_define, sp_expect_and_skip, sp_expression, sp_function_block,
    sp_function_body, sp_function_params, sp_function_type, sp_iden, sp_postfix, sp_program,
    sp_return_expression, sp_statement, sp_statements, sp_top_block, sp_top_level_statement,
    sp_top_statements, sp_value_expression, span_at_token, spec_postfix_precedence, tokens_left,
    unexpected, unexpected_end, Items, Step,
};
use crate::frontend::parser::shape::{lemma_program_shaped, nodes_shaped, tokens_within};
use crate::util::indexed_vector::IndexedVec;
use vstd::prelude::*;
pub use crate::frontend::parser::grammar::{ParserError, SyntaxError};

verus! {

/// What a production returns: the node it appended last, or the failure of
/// having run out of input.
pub type ParserResult = Result<AstId, ()>;

pub struct Parser<'m> {
    pub tokens: &'m [Token],
    pub eof_token: Token,
    pub current: usize,
    pub asts: IndexedVec<AstTag, Ast>,
    pub errors: Vec<ParserError>,
}

impl<'m> Parser<'m> {
    /// Whether the position lies in the tokens or at their end, and the arena
    /// is well formed.
    pub open spec fn wf(&self) -> bool {
        &&& self.current <= self.tokens@.len()
        &&& well_formed(nodes_of(self.asts@))
    }

    /// Whether `self` reads the same tokens as `old`.
    pub open spec fn same_input(&self, old: &Self) -> bool {
        &&& self.tokens == old.tokens
        &&& self.eof_token == old.eof_token
    }

    /// Whether `self` is what `step` makes of `old`, with `r` as the result of
    /// the production: the step's tokens are read, its nodes and errors are
    /// appended, and `r` is the node appended last, or the failure of a step
    /// that ran out of input, which leaves the position at the end.
    pub open spec fn follows(&self, old: &Self, step: Step, r: ParserResult) -> bool {
        &&& self.same_input(old)
        &&& self.wf()
        &&& nodes_of(self.asts@) =~= nodes_of(old.asts@) + step.nodes
        &&& self.asts@.len() == old.asts@.len() + step.nodes.len()
        &&& self.errors@ =~= old.errors@ + step.errors
        &&& (r is Ok) == step.ok
        &&& r is Ok ==> {
            &&& self.current == old.current + step.consumed
            &&& step.nodes.len() >= 1
            &&& r->Ok_0.0 == old.asts@.len() + step.nodes.len() - 1
        }
        &&& r is Err ==> self.current == self.tokens@.len()
    }

    /// Whether `self` differs from `old` in nothing but the position.
    pub open spec fn moved_from(&self, old: &Self) -> bool {
        &&& self.same_input(old)
        &&& self.asts == old.asts
        &&& self.errors == old.errors
    }

    /// A parser at the start of `tokens`. `eof_token` lends its span where the
    /// input has ended.
    pub fn new(tokens: &'m [Token], eof_token: Token) -> (r: Parser<'m>)
        ensures
            r.wf(),
            r.tokens == tokens,
            r.eof_token == eof_token,
            r.current == 0,
            r.asts@.len() == 0,
            r.errors@.len() == 0,
    {
        Parser { tokens, eof_token, current: 0, asts: IndexedVec::new(), errors: Vec::new() }
    }

    /// Appends a node of type `atype` whose span runs from the start of
    /// `start` to the end of `end`.
    fn new_ast(&mut self, atype: AstType, start: &Span, end: &Span) -> (id: AstId)
        requires
            old(self).wf(),
            atype@.refers_below(old(self).asts@.len() as int),
        ensures
            final(self).wf(),
            final(self).same_input(old(self)),
            final(self).current == old(self).current,
            final(self).errors == old(self).errors,
            nodes_of(final(self).asts@) == nodes_of(old(self).asts@).push(
                AstNode {
                    id: AstId::at(old(self).asts@.len() as int),
                    kind: atype@,
                    span: start.spec_to(*end),
                },
            ),
            id == AstId::at(old(self).asts@.len() as int),
            id.0 == old(self).asts@.len(),
            final(self).asts@.len() == old(self).asts@.len() + 1,
    {
        let id: AstId = AstId::from(self.asts.len());
        let ast = Ast { id, atype, span: start.to(*end) };
        proof {
            lemma_nodes_of_push(self.asts@, ast);
        }
        self.asts.push(ast);
        id
    }

    /// Appends an error node with the span of the token at the position, or of
    /// the end of the input.
    fn new_error_ast(&mut self) -> (id: AstId)
        requires
            old(self).wf(),
        ensures
            final(self).wf(),
            final(self).same_input(old(self)),
            final(self).current == old(self).current,
            final(self).errors == old(self).errors,
            nodes_of(final(self).asts@) == nodes_of(old(self).asts@).push(
                AstNode {
                    id: AstId::at(old(self).asts@.len() as int),
                    kind: AstKind::ErrorAst,
                    span: span_at_token(
                        old(self).tokens@,
                        old(self).eof_token,
                        old(self).current as int,
                    ),
                },
            ),
            id == AstId::at(old(self).asts@.len() as int),
            id.0 == old(self).asts@.len(),
            final(self).asts@.len() == old(self).asts@.len() + 1,
    {
        let id: AstId = AstId::from(self.asts.len());
        let span = match self.raw_peek().0 {
            Some(t) => t.span,
            None => self.eof_token.span,
        };
        let ast = Ast { id, atype: AstType::ErrorAst, span };
        proof {
            lemma_nodes_of_push(self.asts@, ast);
        }
        self.asts.push(ast);
        id
    }

    /// Appends `error` to the errors.
    fn new_error(&mut self, error: ParserError)
        ensures
            final(self).same_input(old(self)),
            final(self).current == old(self).current,
            final(self).asts == old(self).asts,
            final(self).errors@ == old(self).errors@.push(error),
    {
        self.errors.push(error);
    }

    /// Reports that a token of tag `ttype` was wanted where `found` stands.
    fn report_mismatch(&mut self, ttype: TokenType, found: Option<&Token>)
        ensures
            final(self).same_input(old(self)),
            final(self).current == old(self).current,
            final(self).asts == old(self).asts,
            final(self).errors@ == old(self).errors@.push(
                ParserError {
                    error: SyntaxError::Expected {
                        expected: ttype,
                        found: match found {
                            Some(t) => t.ttype,
                            None => TokenType::Eof,
                        },
                    },
                    position: old(self).current,
                    span: match found {
                        Some(t) => t.span,
                        None => old(self).eof_token.span,
                    },
                },
            ),
    {
        let (found_type, span) = match found {
            Some(t) => (t.ttype, t.span),
            None => (TokenType::Eof, self.eof_token.span),
        };
        self.new_error(
            ParserError {
                error: SyntaxError::Expected { expected: ttype, found: found_type },
                position: self.current,
                span,
            },
        );
    }

    /// Reports that the token at the position begins nothing of what is
    /// wanted there.
    fn report_unexpected(&mut self)
        requires
            old(self).current < old(self).tokens@.len(),
        ensures
            final(self).same_input(old(self)),
            final(self).current == old(self).current,
            final(self).asts == old(self).asts,
            final(self).errors@ == old(self).errors@.push(
                unexpected(old(self).tokens@, old(self).eof_token, old(self).current as int),
            ),
    {
        let found = self.tokens[self.current];
        self.new_error(
            ParserError {
                error: SyntaxError::Unexpected { found: found.ttype },
                position: self.current,
                span: found.span,
            },
        );
    }

    /// The token at the position, if there is one.
    fn raw_peek(&self) -> (r: MaybeToken<'m>)
        requires
            self.current <= self.tokens@.len(),
        ensures
            self.current < self.tokens@.len() ==> r.0 == Some(&self.tokens@[self.current as int]),
            self.current >= self.tokens@.len() ==> r.0 is None,
    {
        let tokens: &'m [Token] = self.tokens;
        if self.current < tokens.len() {
            MaybeToken(Some(&tokens[self.current]))
        } else {
            MaybeToken(None)
        }
    }

    /// The token at the position, if there is one, which is then read.
    fn raw_next(&mut self) -> (r: MaybeToken<'m>)
        requires
            old(self).current <= old(self).tokens@.len(),
        ensures
            final(self).moved_from(old(self)),
            old(self).current < old(self).tokens@.len() ==> r.0 == Some(
                &old(self).tokens@[old(self).current as int],
            ) && final(self).current == old(self).current + 1,
            old(self).current >= old(self).tokens@.len() ==> r.0 is None && final(self).current
                == old(self).current,
    {
        let res = self.raw_peek();
        if self.current < self.tokens.len() {
            self.current += 1;
        }
        res
    }

    /// The token at the position, or the failure of having none.
    fn peek(&self) -> (r: Result<&'m Token, ()>)
        requires
            self.current <= self.tokens@.len(),
        ensures
            self.current < self.tokens@.len() ==> r == Ok::<&Token, ()>(
                &self.tokens@[self.current as int],
            ),
            self.current >= self.tokens@.len() ==> r is Err,
    {
        match self.raw_peek().expect() {
            Ok(t) => Ok(t),
            Err(_) => Err(()),
        }
    }

    /// The token at the position, which is then read, or the failure of
    /// having none.
    fn next(&mut self) -> (r: Result<&'m Token, ()>)
        requires
            old(self).current <= old(self).tokens@.len(),
        ensures
            final(self).moved_from(old(self)),
            old(self).current < old(self).tokens@.len() ==> r == Ok::<&Token, ()>(
                &old(self).tokens@[old(self).current as int],
            ) && final(self).current == old(self).current + 1,
            old(self).current >= old(self).tokens@.len() ==> r is Err && final(self).current
                == old(self).current,
    {
        match self.raw_next().expect() {
            Ok(t) => Ok(t),
            Err(_) => Err(()),
        }
    }

    /// Reads the token at the position, if there is one.
    fn skip(&mut self)
        requires
            old(self).current <= old(self).tokens@.len(),
        ensures
            final(self).moved_from(old(self)),
            final(self).current == if old(self).current < old(self).tokens@.len() {
                old(self).current + 1
            } else {
                old(self).current as int
            },
    {
        self.raw_next();
    }

    /// Reads the token at the position, which has the tag `ttype`.
    fn next_assert(&mut self, ttype: TokenType) -> (r: &'m Token)
        requires
            is_at(old(self).tokens@, old(self).current as int, ttype),
        ensures
            final(self).moved_from(old(self)),
            *r == old(self).tokens@[old(self).current as int],
            final(self).current == old(self).current + 1,
    {
        self.raw_next().assert_is(ttype)
    }

    /// The token at the position where it has the tag `ttype`; else the
    /// mismatch is reported.
    fn peek_expect(&mut self, ttype: TokenType) -> (r: Result<&'m Token, ()>)
        requires
            old(self).current <= old(self).tokens@.len(),
        ensures
            final(self).same_input(old(self)),
            final(self).current == old(self).current,
            final(self).asts == old(self).asts,
            is_at(old(self).tokens@, old(self).current as int, ttype) ==> r == Ok::<&Token, ()>(
                &old(self).tokens@[old(self).current as int],
            ) && final(self).errors == old(self).errors,
            !is_at(old(self).tokens@, old(self).current as int, ttype) ==> r is Err
                && final(self).errors@ == old(self).errors@.push(
                mismatch(
                    old(self).tokens@,
                    old(self).eof_token,
                    old(self).current as int,
                    old(self).current as int,
                    ttype,
                ),
            ),
    {
        match self.raw_peek().expect_is(ttype) {
            Ok(t) => Ok(t),
            Err(found) => {
                self.report_mismatch(ttype, found);
                Err(())
            },
        }
    }

    /// Reads the token at the position and returns it where it has the tag
    /// `ttype`; else the mismatch is reported.
    fn next_expect(&mut self, ttype: TokenType) -> (r: Result<&'m Token, ()>)
        requires
            old(self).current <= old(self).tokens@.len(),
        ensures
            final(self).same_input(old(self)),
            final(self).asts == old(self).asts,
            final(self).current == if old(self).current < old(self).tokens@.len() {
                old(self).current + 1
            } else {
                old(self).current as int
            },
            is_at(old(self).tokens@, old(self).current as int, ttype) ==> r == Ok::<&Token, ()>(
                &old(self).tokens@[old(self).current as int],
            ) && final(self).errors == old(self).errors,
            !is_at(old(self).tokens@, old(self).current as int, ttype) ==> r is Err
                && final(self).errors@ == old(self).errors@.push(
                mismatch(
                    old(self).tokens@,
                    old(self).eof_token,
                    old(self).current as int,
                    final(self).current as int,
                    ttype,
                ),
            ),
    {
        match self.raw_next().expect_is(ttype) {
            Ok(t) => Ok(t),
            Err(found) => {
                self.report_mismatch(ttype, found);
                Err(())
            },
        }
    }

    /// Whether a token of tag `ttype` stands at the position.
    fn peek_is(&self, ttype: TokenType) -> (r: bool)
        requires
            self.current <= self.tokens@.len(),
        ensures
            r == is_at(self.tokens@, self.current as int, ttype),
    {
        self.raw_peek().is(ttype)
    }

    /// Reads the token at the position if it has the tag `ttype`, and says
    /// whether it did.
    fn skip_if_is(&mut self, ttype: TokenType) -> (r: bool)
        requires
            old(self).current <= old(self).tokens@.len(),
        ensures
            final(self).moved_from(old(self)),
            r == is_at(old(self).tokens@, old(self).current as int, ttype),
            final(self).current == if r {
                old(self).current + 1
            } else {
                old(self).current as int
            },
    {
        if self.peek_is(ttype) {
            self.raw_next();
            true
        } else {
            false
        }
    }

    /// Reads the token at the position if it has the tag `ttype`; else
    /// reports the mismatch and reads nothing.
    fn expect_is_and_skip(&mut self, ttype: TokenType) -> (r: bool)
        requires
            old(self).current <= old(self).tokens@.len(),
        ensures
            final(self).same_input(old(self)),
            final(self).asts == old(self).asts,
            r == is_at(old(self).tokens@, old(self).current as int, ttype),
            final(self).current == old(self).current + sp_expect_and_skip(
                old(self).tokens@,
                old(self).eof_token,
                old(self).current as int,
                ttype,
            ).consumed,
            final(self).errors@ =~= old(self).errors@ + sp_expect_and_skip(
                old(self).tokens@,
                old(self).eof_token,
                old(self).current as int,
                ttype,
            ).errors,
    {
        if !self.skip_if_is(ttype) {
            let found = self.raw_peek();
            self.report_mismatch(ttype, found.0);
            false
        } else {
            true
        }
    }

    /// The node behind `id`.
    fn get(&self, id: AstId) -> (r: &Ast)
        requires
            id.0 < self.asts@.len(),
        ensures
            *r == self.asts@[id.0 as int],
    {
        self.asts.get(id)
    }

    /// Reads a name: a `Symbol` where it is used, an `Iden` where it is
    /// introduced. Another token is reported and gives an error node.
    fn iden(&mut self, is_symbol: bool) -> (r: ParserResult)
        requires
            old(self).wf(),
        ensures
            final(self).follows(
                old(self),
                sp_iden(
                    old(self).tokens@,
                    old(self).eof_token,
                    old(self).current as int,
                    old(self).asts@.len() as int,
                    is_symbol,
                ),
                r,
            ),
    {
        let n = match self.next() {
            Ok(n) => n,
            Err(_) => {
                return Err(());
            },
        };
        let s = n.span;
        if n.ttype == TokenType::Iden {
            if is_symbol {
                Ok(self.new_ast(AstType::Symbol, &s, &s))
            } else {
                Ok(self.new_ast(AstType::Iden, &s, &s))
            }
        } else {
            self.report_mismatch(TokenType::Iden, Some(n));
            Ok(self.new_ast(AstType::ErrorAst, &s, &s))
        }
    }

    /// Reads the parameters of a function, from the `(` at the position.
    fn function_params(&mut self) -> (r: ParserResult)
        requires
            old(self).wf(),
            is_at(old(self).tokens@, old(self).current as int, TokenType::OpenParen),
        ensures
            final(self).follows(
                old(self),
                sp_function_params(
                    old(self).tokens@,
                    old(self).eof_token,
                    old(self).current as int,
                    old(self).asts@.len() as int,
                ),
                r,
            ),
    {
        reveal(sp_function_params);
        let oparen = self.next_assert(TokenType::OpenParen);
        let start_span = oparen.span;
        let cparen = self.peek_expect(TokenType::CloseParen);
        let end_span = match cparen {
            Ok(t) => t.span,
            Err(_) => match self.peek() {
                Ok(t) => t.span,
                Err(_) => {
                    return Err(());
                },
            },
        };
        self.skip_if_is(TokenType::CloseParen);
        Ok(self.new_ast(AstType::FunctionParams, &start_span, &end_span))
    }

    /// Reads the type of a function, from the `fun` at the position.
    fn function_type(&mut self) -> (r: ParserResult)
        requires
            old(self).wf(),
            is_at(old(self).tokens@, old(self).current as int, TokenType::Fun),
        ensures
            final(self).follows(
                old(self),
                sp_function_type(
                    old(self).tokens@,
                    old(self).eof_token,
                    old(self).current as int,
                    old(self).asts@.len() as int,
                ),
                r,
            ),
    {
        reveal(sp_function_type);
        let fun = self.next_assert(TokenType::Fun);
        let fun_span = fun.span;
        if self.peek_expect(TokenType::Iden).is_err() {
            return Ok(self.new_error_ast());
        }
        let name = match self.iden(false) {
            Ok(name) => name,
            Err(_) => {
                return Err(());
            },
        };
        if self.peek_expect(TokenType::OpenParen).is_err() {
            return Ok(self.new_error_ast());
        }
        let params = match self.function_params() {
            Ok(params) => params,
            Err(_) => {
                return Err(());
            },
        };
        let end_span = self.get(params).span;
        proof {
            let base = old(self).asts@.len() as int;
            let read = sp_function_params(
                old(self).tokens@,
                old(self).eof_token,
                old(self).current + 2,
                base + 1,
            );
            assert(nodes_of(self.asts@)[params.0 as int] == read.nodes.last());
            assert(name == AstId::at(base));
            assert(params == read.last_id(base + 1));
        }
        Ok(
            self.new_ast(
                AstType::FunctionType { name, constant_params: AstId::unresolved(), params },
                &fun_span,
                &end_span,
            ),
        )
    }

    /// Reads an expression: `return` and an expression, or a value.
    fn expression(&mut self) -> (r: ParserResult)
        requires
            old(self).wf(),
        ensures
            final(self).follows(
                old(self),
                sp_expression(
                    old(self).tokens@,
                    old(self).eof_token,
                    old(self).current as int,
                    old(self).asts@.len() as int,
                ),
                r,
            ),
            r is Ok ==> final(self).current > old(self).current,
        decreases tokens_left(old(self).tokens@, old(self).current as int), 3nat,
    {
        let t = match self.peek() {
            Ok(t) => t,
            Err(_) => {
                return Err(());
            },
        };
        if t.is(TokenType::Return) {
            self.return_expression()
        } else {
            self.value_expression(0)
        }
    }

    /// Reads `return`, which stands at the position, and the expression
    /// behind it.
    fn return_expression(&mut self) -> (r: ParserResult)
        requires
            old(self).wf(),
            is_at(old(self).tokens@, old(self).current as int, TokenType::Return),
        ensures
            final(self).follows(
                old(self),
                sp_return_expression(
                    old(self).tokens@,
                    old(self).eof_token,
                    old(self).current as int,
                    old(self).asts@.len() as int,
                ),
                r,
            ),
            r is Ok ==> final(self).current > old(self).current,
        decreases tokens_left(old(self).tokens@, old(self).current as int), 2nat,
    {
        let ret = self.next_assert(TokenType::Return);
        let return_span = ret.span;
        let res = match self.expression() {
            Ok(res) => res,
            Err(_) => {
                return Err(());
            },
        };
        let res_span = self.get(res).span;
        proof {
            let base = old(self).asts@.len() as int;
            let value = sp_expression(
                old(self).tokens@,
                old(self).eof_token,
                old(self).current + 1,
                base,
            );
            assert(nodes_of(self.asts@)[res.0 as int] == value.nodes.last());
            assert(res == value.last_id(base));
        }
        Ok(self.new_ast(AstType::Return(res), &return_span, &res_span))
    }

    /// The binding strength of a token of tag `ttype` where it follows an
    /// expression.
    pub fn operator_precedence(ttype: TokenType) -> (r: usize)
        ensures
            r == spec_postfix_precedence(ttype),
    {
        match ttype {
            TokenType::Add => 30,
            TokenType::OpenParen => 50,
            _ => 0,
        }
    }

    /// Reads a value, and what follows it as long as it binds at least as
    /// strongly as `precedence`.
    fn value_expression(&mut self, precedence: usize) -> (r: ParserResult)
        requires
            old(self).wf(),
        ensures
            final(self).follows(
                old(self),
                sp_value_expression(
                    old(self).tokens@,
                    old(self).eof_token,
                    old(self).current as int,
                    old(self).asts@.len() as int,
                    precedence as nat,
                ),
                r,
            ),
            r is Ok ==> final(self).current > old(self).current,
        decreases tokens_left(old(self).tokens@, old(self).current as int), 1nat,
    {
        let ghost t = self.tokens@;
        let ghost eof = self.eof_token;
        let ghost from = self.current as int;
        let ghost base = self.asts@.len() as int;
        let ghost first = Step::empty().skip(1);
        let tok = match self.peek() {
            Ok(t) => t,
            Err(_) => {
                return Err(());
            },
        };
        let tok_span = tok.span;
        let ghost mut so_far: Step = first;
        let mut res: AstId;
        match tok.ttype {
            TokenType::OpenParen => {
                self.skip();
                let expr = match self.expression() {
                    Ok(expr) => expr,
                    Err(_) => {
                        return Err(());
                    },
                };
                let ghost inner = sp_expression(t, eof, from + 1, base);
                self.expect_is_and_skip(TokenType::CloseParen);
                res = expr;
                proof {
                    so_far = first.and_step(inner).and_step(
                        sp_expect_and_skip(
                            t,
                            eof,
                            from + 1 + inner.consumed,
                            TokenType::CloseParen,
                        ),
                    );
                }
            },
            TokenType::Integer => {
                self.skip();
                res = self.new_ast(AstType::NumberLiteral, &tok_span, &tok_span);
                proof {
                    so_far = first.and_node(
                        base,
                        AstKind::NumberLiteral,
                        tok_span.spec_to(tok_span),
                    );
                }
            },
            TokenType::Iden => {
                res = match self.iden(true) {
                    Ok(res) => res,
                    Err(_) => {
                        return Err(());
                    },
                };
                proof {
                    so_far = first.and_node(base, AstKind::Symbol, tok_span.spec_to(tok_span));
                }
            },
            _ => {
                self.report_unexpected();
                self.skip();
                res = self.new_ast(AstType::ErrorAst, &tok_span, &tok_span);
                proof {
                    so_far = first.and_error(unexpected(t, eof, from)).and_node(
                        base,
                        AstKind::ErrorAst,
                        tok_span.spec_to(tok_span),
                    );
                }
            },
        }
        loop
            invariant
                self.wf(),
                self.same_input(old(self)),
                t == self.tokens@,
                eof == self.eof_token,
                from == old(self).current,
                base == old(self).asts@.len(),
                so_far.ok,
                so_far.consumed >= 1,
                so_far.nodes.len() >= 1,
                res.0 == base + so_far.nodes.len() - 1,
                self.asts@.len() == base + so_far.nodes.len(),
                self.current == from + so_far.consumed,
                nodes_of(self.asts@) =~= nodes_of(old(self).asts@) + so_far.nodes,
                self.errors@ =~= old(self).errors@ + so_far.errors,
                sp_postfix(t, eof, from, base, precedence as nat, so_far) == sp_value_expression(
                    t,
                    eof,
                    from,
                    base,
                    precedence as nat,
                ),
            decreases tokens_left(t, self.current as int),
        {
            let tok = match self.peek() {
                Ok(t) => t,
                Err(_) => {
                    return Err(());
                },
            };
            let new_precedence = Self::operator_precedence(tok.ttype);
            if new_precedence < precedence {
                return Ok(res);
            }
            match tok.ttype {
                TokenType::OpenParen => {
                    let ghost pos = self.current as int;
                    self.skip();
                    let close = match self.peek() {
                        Ok(close) => close,
                        Err(_) => {
                            return Err(());
                        },
                    };
                    let close_span = close.span;
                    let res_span = self.get(res).span;
                    self.expect_is_and_skip(TokenType::CloseParen);
                    let function = res;
                    proof {
                        assert(nodes_of(self.asts@)[res.0 as int] == so_far.nodes.last());
                        assert(function == so_far.last_id(base));
                    }
                    res = self.new_ast(
                        AstType::FunctionCall { function, args: AstId::unresolved() },
                        &res_span,
                        &close_span,
                    );
                    proof {
                        so_far = so_far.skip(1).and_step(
                            sp_expect_and_skip(t, eof, pos + 1, TokenType::CloseParen),
                        ).and_node(
                            base,
                            AstKind::FunctionCall {
                                function: so_far.last_id(base),
                                args: AstId::spec_unresolved(),
                            },
                            so_far.last_span().spec_to(t[pos + 1].span),
                        );
                    }
                },
                TokenType::Add => {
                    let ghost pos = self.current as int;
                    self.skip();
                    let ghost rhs_step = sp_value_expression(
                        t,
                        eof,
                        pos + 1,
                        base + so_far.nodes.len(),
                        spec_postfix_precedence(TokenType::Add) + 1,
                    );
                    let rhs = match self.value_expression(new_precedence + 1) {
                        Ok(rhs) => rhs,
                        Err(_) => {
                            return Err(());
                        },
                    };
                    let start_span = self.get(res).span;
                    let end_span = self.get(rhs).span;
                    let left = res;
                    proof {
                        assert(nodes_of(self.asts@)[res.0 as int] == so_far.nodes.last());
                        assert(nodes_of(self.asts@)[rhs.0 as int] == rhs_step.nodes.last());
                        assert(left == so_far.last_id(base));
                        assert(rhs == rhs_step.last_id(base + so_far.nodes.len()));
                    }
                    res = self.new_ast(AstType::Add { left, right: rhs }, &start_span, &end_span);
                    proof {
                        so_far = so_far.skip(1).and_step(rhs_step).and_node(
                            base,
                            AstKind::Add {
                                left: so_far.last_id(base),
                                right: rhs_step.last_id(base + so_far.nodes.len()),
                            },
                            so_far.last_span().spec_to(rhs_step.last_span()),
                        );
                    }
                },
                _ => {
                    return Ok(res);
                },
            }
        }
    }

    /// Reads a statement inside a function: a definition, or an expression
    /// and its `;`.
    fn statement(&mut self) -> (r: ParserResult)
        requires
            old(self).wf(),
        ensures
            final(self).follows(
                old(self),
                sp_statement(
                    old(self).tokens@,
                    old(self).eof_token,
                    old(self).current as int,
                    old(self).asts@.len() as int,
                ),
                r,
            ),
            r is Ok ==> final(self).current > old(self).current,
        decreases tokens_left(old(self).tokens@, old(self).current as int), 10nat,
    {
        let t = match self.peek() {
            Ok(t) => t,
            Err(_) => {
                return Err(());
            },
        };
        match t.ttype {
            TokenType::Def => self.define(),
            _ => {
                let res = match self.expression() {
                    Ok(res) => res,
                    Err(_) => {
                        return Err(());
                    },
                };
                self.expect_is_and_skip(TokenType::Semicolon);
                Ok(res)
            },
        }
    }

    /// Reads the body of a function in braces, from the token at the
    /// position, which should be `{`.
    fn function_block(&mut self) -> (r: ParserResult)
        requires
            old(self).wf(),
        ensures
            final(self).follows(
                old(self),
                sp_function_block(
                    old(self).tokens@,
                    old(self).eof_token,
                    old(self).current as int,
                    old(self).asts@.len() as int,
                ),
                r,
            ),
        decreases tokens_left(old(self).tokens@, old(self).current as int), 12nat,
    {
        let ghost t = self.tokens@;
        let ghost eof = self.eof_token;
        let ghost from = self.current as int;
        let ghost base = self.asts@.len() as int;
        let mut asts: Vec<AstId> = Vec::new();
        let open = match self.next_expect(TokenType::OpenBrace) {
            Ok(open) => open,
            Err(_) => {
                return Ok(self.new_error_ast());
            },
        };
        let start = open.span;
        let ghost begin = Items { step: Step::empty().skip(1), ids: Seq::empty() };
        let ghost mut so_far = begin;
        loop
            invariant_except_break
                self.wf(),
                self.same_input(old(self)),
                t == self.tokens@,
                eof == self.eof_token,
                from == old(self).current,
                base == old(self).asts@.len(),
                is_at(t, from, TokenType::OpenBrace),
                begin == (Items { step: Step::empty().skip(1), ids: Seq::empty() }),
                so_far.step.ok,
                so_far.step.consumed >= 1,
                asts@ == so_far.ids,
                forall|k: int| 0 <= k < asts@.len() ==> (#[trigger] asts@[k]).0 < self.asts@.len(),
                self.asts@.len() == base + so_far.step.nodes.len(),
                self.current == from + so_far.step.consumed,
                nodes_of(self.asts@) =~= nodes_of(old(self).asts@) + so_far.step.nodes,
                self.errors@ =~= old(self).errors@ + so_far.step.errors,
                sp_statements(t, eof, from, base, so_far) == sp_statements(
                    t,
                    eof,
                    from,
                    base,
                    begin,
                ),
            ensures
                self.wf(),
                self.same_input(old(self)),
                so_far.step.ok,
                asts@ == so_far.ids,
                forall|k: int| 0 <= k < asts@.len() ==> (#[trigger] asts@[k]).0 < self.asts@.len(),
                self.asts@.len() == base + so_far.step.nodes.len(),
                self.current == from + so_far.step.consumed,
                nodes_of(self.asts@) =~= nodes_of(old(self).asts@) + so_far.step.nodes,
                self.errors@ =~= old(self).errors@ + so_far.step.errors,
                sp_statements(t, eof, from, base, begin) == so_far,
                is_at(t, self.current as int, TokenType::CloseBrace),
            decreases tokens_left(t, self.current as int),
        {
            let tok = match self.peek() {
                Ok(tok) => tok,
                Err(_) => {
                    assert(sp_statements(t, eof, from, base, so_far).step == so_far.step.failed());
                    return Err(());
                },
            };
            if tok.is(TokenType::CloseBrace) {
                break ;
            }
            let ghost one = sp_statement(t, eof, self.current as int, self.asts@.len() as int);
            let ast = match self.statement() {
                Ok(ast) => ast,
                Err(_) => {
                    assert(sp_statements(t, eof, from, base, so_far).step == so_far.step.and_step(
                        one,
                    ).failed());
                    return Err(());
                },
            };
            asts.push(ast);
            proof {
                let all = so_far.step.and_step(one);
                so_far = Items { step: all, ids: so_far.ids.push(all.last_id(base)) };
                assert(ast == all.last_id(base));
            }
        }
        let close_span = match self.peek() {
            Ok(tok) => tok.span,
            Err(_) => self.eof_token.span,
        };
        self.expect_is_and_skip(TokenType::CloseBrace);
        Ok(self.new_ast(AstType::FunctionBlock(asts), &start, &close_span))
    }

    /// Reads the body of a function: a block in braces, or `=>`, an
    /// expression and its `;`.
    fn function_body(&mut self) -> (r: ParserResult)
        requires
            old(self).wf(),
        ensures
            final(self).follows(
                old(self),
                sp_function_body(
                    old(self).tokens@,
                    old(self).eof_token,
                    old(self).current as int,
                    old(self).asts@.len() as int,
                ),
                r,
            ),
        decreases tokens_left(old(self).tokens@, old(self).current as int), 13nat,
    {
        let ghost t = self.tokens@;
        let ghost eof = self.eof_token;
        let ghost from = self.current as int;
        let ghost base = self.asts@.len() as int;
        let tok = match self.peek() {
            Ok(tok) => tok,
            Err(_) => {
                return Err(());
            },
        };
        let error_span = tok.span;
        match tok.ttype {
            TokenType::OpenBrace => self.function_block(),
            TokenType::StrongArrowRight => {
                let arrow = self.next_assert(TokenType::StrongArrowRight);
                let start_span = arrow.span;
                let ghost value = sp_expression(t, eof, from + 1, base);
                let expr = match self.expression() {
                    Ok(expr) => expr,
                    Err(_) => {
                        return Err(());
                    },
                };
                let expr_span = self.get(expr).span;
                proof {
                    assert(nodes_of(self.asts@)[expr.0 as int] == value.nodes.last());
                    assert(expr == value.last_id(base));
                }
                self.expect_is_and_skip(TokenType::Semicolon);
                let retexpr = self.new_ast(AstType::Return(expr), &expr_span, &expr_span);
                let mut stmts: Vec<AstId> = Vec::new();
                stmts.push(retexpr);
                proof {
                    let done = Step::empty().skip(1).and_step(value).and_step(
                        sp_expect_and_skip(t, eof, from + 1 + value.consumed, TokenType::Semicolon),
                    );
                    let returned = done.and_node(
                        base,
                        AstKind::Return(value.last_id(base)),
                        expr_span.spec_to(expr_span),
                    );
                    assert(retexpr == returned.last_id(base));
                    assert(stmts@ =~= seq![returned.last_id(base)]);
                }
                Ok(self.new_ast(AstType::FunctionBlock(stmts), &start_span, &expr_span))
            },
            _ => {
                self.report_unexpected();
                Ok(self.new_ast(AstType::ErrorAst, &error_span, &error_span))
            },
        }
    }

    /// Reads a definition, from the `def` at the position.
    fn define(&mut self) -> (r: ParserResult)
        requires
            old(self).wf(),
            is_at(old(self).tokens@, old(self).current as int, TokenType::Def),
        ensures
            final(self).follows(
                old(self),
                sp_define(
                    old(self).tokens@,
                    old(self).eof_token,
                    old(self).current as int,
                    old(self).asts@.len() as int,
                ),
                r,
            ),
            r is Ok ==> final(self).current > old(self).current,
        decreases tokens_left(old(self).tokens@, old(self).current as int), 9nat,
    {
        let ghost t = self.tokens@;
        let ghost eof = self.eof_token;
        let ghost from = self.current as int;
        let ghost base = self.asts@.len() as int;
        let def = self.next_assert(TokenType::Def);
        let tok = match self.peek() {
            Ok(tok) => tok,
            Err(_) => {
                return Err(());
            },
        };
        match tok.ttype {
            TokenType::Fun => {
                let ghost type_step = sp_function_type(t, eof, from + 1, base);
                let ftype = match self.function_type() {
                    Ok(ftype) => ftype,
                    Err(_) => {
                        return Err(());
                    },
                };
                let ghost body_step = sp_function_body(
                    t,
                    eof,
                    from + 1 + type_step.consumed,
                    base + type_step.nodes.len(),
                );
                let fbody = match self.function_body() {
                    Ok(fbody) => fbody,
                    Err(_) => {
                        return Err(());
                    },
                };
                let start_span = def.span;
                let end_span = self.get(fbody).span;
                proof {
                    let all = Step::empty().skip(1).and_step(type_step).and_step(body_step);
                    assert(nodes_of(self.asts@)[fbody.0 as int] == body_step.nodes.last());
                    assert(ftype == type_step.last_id(base));
                    assert(fbody == all.last_id(base));
                }
                Ok(
                    self.new_ast(
                        AstType::FunctionDefinition { ftype, body: fbody },
                        &start_span,
                        &end_span,
                    ),
                )
            },
            _ => {
                self.report_mismatch(TokenType::Fun, Some(tok));
                Ok(self.new_error_ast())
            },
        }
    }

    /// Reads a statement at the level of the file: a definition. Any other
    /// token is read and reported, and gives an error node.
    fn top_level_statement(&mut self) -> (r: ParserResult)
        requires
            old(self).wf(),
        ensures
            final(self).follows(
                old(self),
                sp_top_level_statement(
                    old(self).tokens@,
                    old(self).eof_token,
                    old(self).current as int,
                    old(self).asts@.len() as int,
                ),
                r,
            ),
            r is Ok ==> final(self).current > old(self).current,
    {
        let t = match self.peek() {
            Ok(t) => t,
            Err(_) => {
                return Err(());
            },
        };
        if t.is(TokenType::Def) {
            self.define()
        } else {
            let t_span = t.span;
            self.report_mismatch(TokenType::Def, Some(t));
            let r = self.new_ast(AstType::ErrorAst, &t_span, &t_span);
            self.skip();
            Ok(r)
        }
    }

    /// Reports that the input ended inside a construct.
    fn report_end(&mut self)
        requires
            old(self).current == old(self).tokens@.len(),
        ensures
            final(self).same_input(old(self)),
            final(self).current == old(self).current,
            final(self).asts == old(self).asts,
            final(self).errors@ == old(self).errors@.push(
                unexpected_end(old(self).tokens@, old(self).eof_token),
            ),
    {
        self.new_error(
            ParserError {
                error: SyntaxError::UnexpectedEnd,
                position: self.current,
                span: self.eof_token.span,
            },
        );
    }

    /// Reads the block of the file, from the token at the position to the end
    /// of the input. A statement that the end of the input cuts off is given
    /// up: the end is reported and an error node stands for the statement.
    fn top_block(&mut self) -> (r: AstId)
        requires
            old(self).wf(),
            old(self).current < old(self).tokens@.len(),
        ensures
            final(self).follows(
                old(self),
                sp_top_block(
                    old(self).tokens@,
                    old(self).eof_token,
                    old(self).current as int,
                    old(self).asts@.len() as int,
                ),
                Ok(r),
            ),
            final(self).current == final(self).tokens@.len(),
            nodes_of(final(self).asts@).last().kind is TopBlock,
    {
        let ghost t = self.tokens@;
        let ghost eof = self.eof_token;
        let ghost from = self.current as int;
        let ghost base = self.asts@.len() as int;
        let mut asts: Vec<AstId> = Vec::new();
        let first = self.raw_peek().assert_token();
        let start = first.span;
        let ghost begin = Items { step: Step::empty(), ids: Seq::empty() };
        let ghost mut so_far = begin;
        let ghost mut done = Step::empty();
        loop
            invariant_except_break
                self.wf(),
                self.same_input(old(self)),
                t == self.tokens@,
                eof == self.eof_token,
                from == old(self).current,
                base == old(self).asts@.len(),
                begin == (Items { step: Step::empty(), ids: Seq::empty() }),
                so_far.step.ok,
                asts@ == so_far.ids,
                forall|k: int| 0 <= k < asts@.len() ==> (#[trigger] asts@[k]).0 < self.asts@.len(),
                self.asts@.len() == base + so_far.step.nodes.len(),
                self.current == from + so_far.step.consumed,
                nodes_of(self.asts@) =~= nodes_of(old(self).asts@) + so_far.step.nodes,
                self.errors@ =~= old(self).errors@ + so_far.step.errors,
                sp_top_statements(t, eof, from, base, so_far) == sp_top_statements(
                    t,
                    eof,
                    from,
                    base,
                    begin,
                ),
            ensures
                self.wf(),
                self.same_input(old(self)),
                forall|k: int| 0 <= k < asts@.len() ==> (#[trigger] asts@[k]).0 < self.asts@.len(),
                self.asts@.len() == base + done.nodes.len(),
                nodes_of(self.asts@) =~= nodes_of(old(self).asts@) + done.nodes,
                self.errors@ =~= old(self).errors@ + done.errors,
                self.current == self.tokens@.len(),
                done.ok,
                done.and_node(
                    base,
                    AstKind::TopBlock(asts@),
                    span_at_token(t, eof, from).spec_to(eof.span),
                ) == sp_top_block(t, eof, from, base),
                done.consumed == self.current - from,
            decreases tokens_left(t, self.current as int),
        {
            if self.peek().is_err() {
                proof {
                    done = so_far.step;
                }
                break ;
            }
            let ghost one = sp_top_level_statement(
                t,
                eof,
                self.current as int,
                self.asts@.len() as int,
            );
            match self.top_level_statement() {
                Ok(ast) => {
                    asts.push(ast);
                    proof {
                        let all = so_far.step.and_step(one);
                        so_far = Items { step: all, ids: so_far.ids.push(all.last_id(base)) };
                        assert(ast == all.last_id(base));
                    }
                },
                Err(_) => {
                    let ghost failed = so_far.step.and_step(one).failed();
                    assert(sp_top_statements(t, eof, from, base, so_far) == (Items {
                        step: failed,
                        ids: so_far.ids,
                    }));
                    self.report_end();
                    let given_up = self.new_error_ast();
                    asts.push(given_up);
                    proof {
                        let read = Step { ok: true, consumed: tokens_left(t, from), ..failed };
                        done = read.and_error(unexpected_end(t, eof)).and_node(
                            base,
                            AstKind::ErrorAst,
                            eof.span,
                        );
                        assert(given_up == done.last_id(base));
                    }
                    break ;
                },
            }
        }
        let end = self.eof_token.span;
        self.new_ast(AstType::TopBlock(asts), &start, &end)
    }

    /// Reads the program: the block of the file, and the node that wraps it.
    fn program(&mut self) -> (r: AstId)
        requires
            old(self).wf(),
            old(self).current == 0,
            old(self).asts@.len() == 0,
        ensures
            final(self).follows(
                old(self),
                sp_program(old(self).tokens@, old(self).eof_token),
                Ok(r),
            ),
            final(self).current == final(self).tokens@.len(),
            r.0 >= 1,
            nodes_of(final(self).asts@)[r.0 - 1].kind is TopBlock,
            nodes_of(final(self).asts@)[r.0 as int].kind == AstKind::Program(AstId::at(r.0 - 1)),
    {
        let t = match self.peek() {
            Ok(t) => t,
            Err(_) => {
                let span = self.eof_token.span;
                let block = self.new_ast(AstType::TopBlock(Vec::new()), &span, &span);
                return self.new_ast(AstType::Program(block), &span, &span);
            },
        };
        let start = t.span;
        let ghost block_step = sp_top_block(self.tokens@, self.eof_token, 0, 0);
        let block = self.top_block();
        let end = self.get(block).span;
        proof {
            assert(nodes_of(self.asts@)[block.0 as int] == block_step.nodes.last());
            assert(block == block_step.last_id(0));
        }
        self.new_ast(AstType::Program(block), &start, &end)
    }

    /// Parses the tokens, all of them. Afterwards the arena holds the nodes
    /// and the errors of the whole parse. The arena is never empty: its last
    /// node is the program, which wraps the block of the file, and every node
    /// refers only to nodes before it. Where the tokens lie in a source, the
    /// nodes have their shape in it.
    pub fn parse(&mut self)
        requires
            old(self).wf(),
            old(self).current == 0,
            old(self).asts@.len() == 0,
            old(self).errors@.len() == 0,
        ensures
            final(self).same_input(old(self)),
            final(self).wf(),
            nodes_of(final(self).asts@) == sp_program(old(self).tokens@, old(self).eof_token).nodes,
            final(self).errors@ == sp_program(old(self).tokens@, old(self).eof_token).errors,
            well_formed(nodes_of(final(self).asts@)),
            final(self).asts@.len() >= 2,
            rooted(nodes_of(final(self).asts@)),
            final(self).current == final(self).tokens@.len(),
            forall|n: int|
                tokens_within(old(self).tokens@, old(self).eof_token, n)
                    ==> #[trigger] nodes_shaped(nodes_of(final(self).asts@), 0, n),
    {
        self.program();
        proof {
            let t = self.tokens@;
            let eof = self.eof_token;
            self.asts.lemma_len_fits();
            assert forall|n: int| tokens_within(t, eof, n) implies #[trigger] nodes_shaped(
                nodes_of(self.asts@),
                0,
                n,
            ) by {
                lemma_program_shaped(t, eof, n);
            }
        }
    }

    /// The arena and the errors of the parse.
    pub fn get_results(self) -> (r: (IndexedVec<AstTag, Ast>, Vec<ParserError>))
        ensures
            r.0 == self.asts,
            r.1 == self.errors,
    {
        (self.asts, self.errors)
    }
}

} // verus!
