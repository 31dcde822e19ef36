//! The grammar, as mathematics: what each production reads from a token
//! stream and what it appends to the arena and to the list of errors.
//!
//! A production starts at a position `pos` of the tokens `t`, with `base`
//! nodes in the arena, and yields a [`Step`]. `eof` is the token that stands
//! for the end of the input: it lends its span where a span is wanted and no
//! token is left.
use crate::frontend::lexer::token::{Token, TokenType};
use crate::frontend::module::span::Span;
use crate::frontend::parser::ast::{AstId, AstKind, AstNode};
use vstd::prelude::*;

verus! {

/// What went wrong at a place of the token stream.
#[derive(Copy, Clone, Debug, PartialEq, Eq, Structural)]
pub enum SyntaxError {
    /// A token of tag `expected` was wanted and one of tag `found` stood
    /// there (`Eof` where none was left).
    Expected { expected: TokenType, found: TokenType },
    /// A token of tag `found` stood where something begins that no such token
    /// begins: a value, or the body of a function.
    Unexpected { found: TokenType },
    /// The input ended inside a construct.
    UnexpectedEnd,
}

impl SyntaxError {
    /// The text of the diagnostic.
    pub fn message(&self) -> (r: &'static str)
        ensures
            r@ == match *self {
                SyntaxError::Expected { .. } => "expected another token"@,
                SyntaxError::Unexpected { .. } => "unexpected token"@,
                SyntaxError::UnexpectedEnd => "unexpected end of input"@,
            },
    {
        match self {
            SyntaxError::Expected { .. } => "expected another token",
            SyntaxError::Unexpected { .. } => "unexpected token",
            SyntaxError::UnexpectedEnd => "unexpected end of input",
        }
    }
}

/// An error of the parser: what went wrong, at which position of the token
/// stream, and the span of the token that stood there.
#[derive(Copy, Clone, Debug, PartialEq, Eq)]
pub struct ParserError {
    pub error: SyntaxError,
    pub position: usize,
    pub span: Span,
}

/// What a production does: the number of tokens it reads, the nodes and the
/// errors it appends, and whether it came to its end (`ok`) or ran out of
/// input on the way. A production that comes to its end returns the node it
/// appended last.
pub struct Step {
    pub consumed: nat,
    pub nodes: Seq<AstNode>,
    pub errors: Seq<ParserError>,
    pub ok: bool,
}

/// The statements of a block so far: what reading them did, and their nodes.
pub struct Items {
    pub step: Step,
    pub ids: Seq<AstId>,
}

/// The binding strength of the token `ttype` where it follows an expression:
/// 50 for the parenthesis of a call, 30 for `+`, 0 for what does not continue
/// an expression.
pub open spec fn spec_postfix_precedence(ttype: TokenType) -> nat {
    match ttype {
        TokenType::Add => 30,
        TokenType::OpenParen => 50,
        _ => 0,
    }
}

/// The number of tokens of `t` from position `pos` on.
pub open spec fn tokens_left(t: Seq<Token>, pos: int) -> nat {
    if pos < t.len() {
        (t.len() - pos) as nat
    } else {
        0
    }
}

/// The tag of the token at `pos`, or `Eof` where there is none.
pub open spec fn kind_at(t: Seq<Token>, pos: int) -> TokenType {
    if 0 <= pos < t.len() {
        t[pos].ttype
    } else {
        TokenType::Eof
    }
}

/// The span of the token at `pos`, or that of `eof` where there is none.
pub open spec fn span_at_token(t: Seq<Token>, eof: Token, pos: int) -> Span {
    if 0 <= pos < t.len() {
        t[pos].span
    } else {
        eof.span
    }
}

/// Whether a token of tag `ttype` stands at `pos`.
pub open spec fn is_at(t: Seq<Token>, pos: int, ttype: TokenType) -> bool {
    0 <= pos < t.len() && t[pos].ttype == ttype
}

/// The error of finding something else than `expected` at `look`, reported
/// at position `position`.
pub open spec fn mismatch(
    t: Seq<Token>,
    eof: Token,
    look: int,
    position: int,
    expected: TokenType,
) -> ParserError {
    ParserError {
        error: SyntaxError::Expected { expected, found: kind_at(t, look) },
        position: position as usize,
        span: span_at_token(t, eof, look),
    }
}

/// The error of finding at `pos` a token that begins nothing of what is
/// wanted there.
pub open spec fn unexpected(t: Seq<Token>, eof: Token, pos: int) -> ParserError {
    ParserError {
        error: SyntaxError::Unexpected { found: kind_at(t, pos) },
        position: pos as usize,
        span: span_at_token(t, eof, pos),
    }
}

impl Step {
    /// The step that does nothing.
    pub open spec fn empty() -> Step {
        Step { consumed: 0, nodes: Seq::empty(), errors: Seq::empty(), ok: true }
    }

    /// This step, ended by the end of the input.
    pub open spec fn failed(self) -> Step {
        Step { ok: false, ..self }
    }

    /// This step and then `next`.
    pub open spec fn and_step(self, next: Step) -> Step {
        Step {
            consumed: self.consumed + next.consumed,
            nodes: self.nodes + next.nodes,
            errors: self.errors + next.errors,
            ok: next.ok,
        }
    }

    /// This step and then the reading of `n` tokens.
    pub open spec fn skip(self, n: nat) -> Step {
        Step { consumed: self.consumed + n, ..self }
    }

    /// This step and then the error `e`.
    pub open spec fn and_error(self, e: ParserError) -> Step {
        Step { errors: self.errors.push(e), ..self }
    }

    /// This step and then a new node of kind `kind` with span `span`, in an
    /// arena that held `base` nodes before the step.
    pub open spec fn and_node(self, base: int, kind: AstKind, span: Span) -> Step {
        Step {
            nodes: self.nodes.push(
                AstNode { id: AstId::at(base + self.nodes.len()), kind, span },
            ),
            ..self
        }
    }

    /// The handle of the node that the step appended last, in an arena that
    /// held `base` nodes before the step.
    pub open spec fn last_id(self, base: int) -> AstId {
        AstId::at(base + self.nodes.len() - 1)
    }

    /// The span of the node that the step appended last.
    pub open spec fn last_span(self) -> Span {
        self.nodes.last().span
    }
}

/// Reads the token at `pos` if it has the tag `ttype`; else reports the
/// mismatch and reads nothing.
pub open spec fn sp_expect_and_skip(t: Seq<Token>, eof: Token, pos: int, ttype: TokenType) -> Step {
    if is_at(t, pos, ttype) {
        Step::empty().skip(1)
    } else {
        Step::empty().and_error(mismatch(t, eof, pos, pos, ttype))
    }
}

/// A node in place of what could not be read, with the span of the token at
/// `pos`.
pub open spec fn sp_error_node(t: Seq<Token>, eof: Token, pos: int, base: int) -> Step {
    Step::empty().and_node(base, AstKind::ErrorAst, span_at_token(t, eof, pos))
}

/// A name: a `Symbol` where it is used (`is_symbol`), an `Iden` where it is
/// introduced. Where the token is no identifier, the mismatch is reported and
/// an error node stands for the name.
pub open spec fn sp_iden(t: Seq<Token>, eof: Token, pos: int, base: int, is_symbol: bool) -> Step {
    if pos < 0 || pos >= t.len() {
        Step::empty().failed()
    } else {
        let s = t[pos].span;
        if t[pos].ttype == TokenType::Iden {
            Step::empty().skip(1).and_node(
                base,
                if is_symbol {
                    AstKind::Symbol
                } else {
                    AstKind::Iden
                },
                s.spec_to(s),
            )
        } else {
            Step::empty().skip(1).and_error(
                mismatch(t, eof, pos, pos + 1, TokenType::Iden),
            ).and_node(base, AstKind::ErrorAst, s.spec_to(s))
        }
    }
}

/// The parameters of a function, from the `(` at `pos`: so far only the
/// closing `)`, whose absence is reported.
#[verifier::opaque]
pub open spec fn sp_function_params(t: Seq<Token>, eof: Token, pos: int, base: int) -> Step {
    let open = Step::empty().skip(1);
    let looked = if is_at(t, pos + 1, TokenType::CloseParen) {
        open
    } else {
        open.and_error(mismatch(t, eof, pos + 1, pos + 1, TokenType::CloseParen))
    };
    if pos + 1 >= t.len() {
        looked.failed()
    } else {
        let closed = if is_at(t, pos + 1, TokenType::CloseParen) {
            looked.skip(1)
        } else {
            looked
        };
        closed.and_node(base, AstKind::FunctionParams, t[pos].span.spec_to(t[pos + 1].span))
    }
}

/// The type of a function, from the `fun` at `pos`: its name and its
/// parameters. A missing name or a missing `(` is reported and gives an error
/// node.
#[verifier::opaque]
pub open spec fn sp_function_type(t: Seq<Token>, eof: Token, pos: int, base: int) -> Step {
    let fun = Step::empty().skip(1);
    if !is_at(t, pos + 1, TokenType::Iden) {
        fun.and_error(mismatch(t, eof, pos + 1, pos + 1, TokenType::Iden)).and_step(
            sp_error_node(t, eof, pos + 1, base),
        )
    } else {
        let named = fun.and_step(sp_iden(t, eof, pos + 1, base, false));
        if !is_at(t, pos + 2, TokenType::OpenParen) {
            named.and_error(mismatch(t, eof, pos + 2, pos + 2, TokenType::OpenParen)).and_step(
                sp_error_node(t, eof, pos + 2, base + 1),
            )
        } else {
            let params = sp_function_params(t, eof, pos + 2, base + 1);
            let all = named.and_step(params);
            if !params.ok {
                all
            } else {
                all.and_node(
                    base,
                    AstKind::FunctionType {
                        name: AstId::at(base),
                        constant_params: AstId::spec_unresolved(),
                        params: params.last_id(base + 1),
                    },
                    t[pos].span.spec_to(params.last_span()),
                )
            }
        }
    }
}

/// An expression: `return` and an expression, or a value.
pub open spec fn sp_expression(t: Seq<Token>, eof: Token, pos: int, base: int) -> Step
    decreases tokens_left(t, pos), 3nat,
{
    if pos < 0 || pos >= t.len() {
        Step::empty().failed()
    } else if t[pos].ttype == TokenType::Return {
        sp_return_expression(t, eof, pos, base)
    } else {
        sp_value_expression(t, eof, pos, base, 0)
    }
}

/// `return` at `pos`, and the expression behind it.
pub open spec fn sp_return_expression(t: Seq<Token>, eof: Token, pos: int, base: int) -> Step
    decreases tokens_left(t, pos), 2nat,
{
    if pos < 0 || pos >= t.len() {
        Step::empty().failed()
    } else {
        let value = sp_expression(t, eof, pos + 1, base);
        let all = Step::empty().skip(1).and_step(value);
        if !value.ok {
            all
        } else {
            all.and_node(
                base,
                AstKind::Return(value.last_id(base)),
                t[pos].span.spec_to(value.last_span()),
            )
        }
    }
}

/// A value: an expression in parentheses, a number or a name; any other
/// token is read and reported, and gives an error node. Then comes what
/// follows the value, as long as it binds at least as strongly as
/// `precedence`.
pub open spec fn sp_value_expression(
    t: Seq<Token>,
    eof: Token,
    pos: int,
    base: int,
    precedence: nat,
) -> Step
    decreases tokens_left(t, pos), 1nat,
{
    if pos < 0 || pos >= t.len() {
        Step::empty().failed()
    } else {
        let s = t[pos].span;
        let first = Step::empty().skip(1);
        let atom = match t[pos].ttype {
            TokenType::OpenParen => {
                let inner = sp_expression(t, eof, pos + 1, base);
                if !inner.ok {
                    first.and_step(inner)
                } else {
                    first.and_step(inner).and_step(
                        sp_expect_and_skip(t, eof, pos + 1 + inner.consumed, TokenType::CloseParen),
                    )
                }
            },
            TokenType::Integer => first.and_node(base, AstKind::NumberLiteral, s.spec_to(s)),
            TokenType::Iden => first.and_node(base, AstKind::Symbol, s.spec_to(s)),
            _ => first.and_error(unexpected(t, eof, pos)).and_node(
                base,
                AstKind::ErrorAst,
                s.spec_to(s),
            ),
        };
        if !atom.ok {
            atom
        } else {
            sp_postfix(t, eof, pos, base, precedence, atom)
        }
    }
}

/// What follows the expression `so_far`, which was read from position `from`
/// on: calls and additions, for as long as the next token binds at least as
/// strongly as `precedence`. The right side of `+` takes only what binds
/// more strongly than `+`, so that sums group to the left: `1 + 2 + 3` is the
/// sum of `1 + 2` and `3`.
pub open spec fn sp_postfix(
    t: Seq<Token>,
    eof: Token,
    from: int,
    base: int,
    precedence: nat,
    so_far: Step,
) -> Step
    decreases tokens_left(t, from + so_far.consumed), 0nat,
{
    let pos = from + so_far.consumed;
    if pos < 0 || pos >= t.len() {
        so_far.failed()
    } else if spec_postfix_precedence(t[pos].ttype) < precedence {
        so_far
    } else if t[pos].ttype == TokenType::OpenParen {
        if pos + 1 >= t.len() {
            so_far.skip(1).failed()
        } else {
            let call = so_far.skip(1).and_step(
                sp_expect_and_skip(t, eof, pos + 1, TokenType::CloseParen),
            ).and_node(
                base,
                AstKind::FunctionCall {
                    function: so_far.last_id(base),
                    args: AstId::spec_unresolved(),
                },
                so_far.last_span().spec_to(t[pos + 1].span),
            );
            sp_postfix(t, eof, from, base, precedence, call)
        }
    } else if t[pos].ttype == TokenType::Add {
        let rhs = sp_value_expression(
            t,
            eof,
            pos + 1,
            base + so_far.nodes.len(),
            spec_postfix_precedence(TokenType::Add) + 1,
        );
        let both = so_far.skip(1).and_step(rhs);
        if !rhs.ok {
            both
        } else {
            let sum = both.and_node(
                base,
                AstKind::Add {
                    left: so_far.last_id(base),
                    right: rhs.last_id(base + so_far.nodes.len()),
                },
                so_far.last_span().spec_to(rhs.last_span()),
            );
            sp_postfix(t, eof, from, base, precedence, sum)
        }
    } else {
        so_far
    }
}

/// A statement inside a function: a definition, or an expression and its
/// `;`, whose absence is reported.
pub open spec fn sp_statement(t: Seq<Token>, eof: Token, pos: int, base: int) -> Step
    decreases tokens_left(t, pos), 10nat,
{
    if pos < 0 || pos >= t.len() {
        Step::empty().failed()
    } else if t[pos].ttype == TokenType::Def {
        sp_define(t, eof, pos, base)
    } else {
        let value = sp_expression(t, eof, pos, base);
        if !value.ok {
            value
        } else {
            value.and_step(sp_expect_and_skip(t, eof, pos + value.consumed, TokenType::Semicolon))
        }
    }
}

/// The statements of a block that follow `so_far`, up to the `}` that ends
/// the block, which is not read. The block was opened before position `from`
/// with `base` nodes in the arena. A statement reads at least one token; the
/// test for that makes the definition well-founded.
pub open spec fn sp_statements(
    t: Seq<Token>,
    eof: Token,
    from: int,
    base: int,
    so_far: Items,
) -> Items
    decreases tokens_left(t, from + so_far.step.consumed), 11nat,
{
    let pos = from + so_far.step.consumed;
    if pos < 0 || pos >= t.len() {
        Items { step: so_far.step.failed(), ids: so_far.ids }
    } else if t[pos].ttype == TokenType::CloseBrace {
        so_far
    } else {
        let one = sp_statement(t, eof, pos, base + so_far.step.nodes.len());
        let all = so_far.step.and_step(one);
        if !one.ok || one.consumed == 0 {
            Items { step: all.failed(), ids: so_far.ids }
        } else {
            sp_statements(
                t,
                eof,
                from,
                base,
                Items { step: all, ids: so_far.ids.push(all.last_id(base)) },
            )
        }
    }
}

/// The body of a function in braces, from the token at `pos`, which should be
/// `{`: the statements up to the closing `}`. Where another token stands
/// there, it is read, the mismatch is reported and an error node is the
/// result.
pub open spec fn sp_function_block(t: Seq<Token>, eof: Token, pos: int, base: int) -> Step
    decreases tokens_left(t, pos), 12nat,
{
    if pos < 0 || pos >= t.len() {
        Step::empty().and_error(mismatch(t, eof, pos, pos, TokenType::OpenBrace)).and_step(
            sp_error_node(t, eof, pos, base),
        )
    } else if t[pos].ttype != TokenType::OpenBrace {
        Step::empty().skip(1).and_error(
            mismatch(t, eof, pos, pos + 1, TokenType::OpenBrace),
        ).and_step(sp_error_node(t, eof, pos + 1, base))
    } else {
        let items = sp_statements(
            t,
            eof,
            pos,
            base,
            Items { step: Step::empty().skip(1), ids: Seq::empty() },
        );
        if !items.step.ok {
            items.step
        } else {
            let close = pos + items.step.consumed;
            items.step.skip(1).and_node(
                base,
                AstKind::FunctionBlock(items.ids),
                t[pos].span.spec_to(span_at_token(t, eof, close)),
            )
        }
    }
}

/// The body of a function: a block in braces, or `=>`, an expression and its
/// `;`, which stands for a block whose one statement returns the expression.
/// Any other token is reported, gives an error node and is not read.
pub open spec fn sp_function_body(t: Seq<Token>, eof: Token, pos: int, base: int) -> Step
    decreases tokens_left(t, pos), 13nat,
{
    if pos < 0 || pos >= t.len() {
        Step::empty().failed()
    } else if t[pos].ttype == TokenType::OpenBrace {
        sp_function_block(t, eof, pos, base)
    } else if t[pos].ttype == TokenType::StrongArrowRight {
        let value = sp_expression(t, eof, pos + 1, base);
        let read = Step::empty().skip(1).and_step(value);
        if !value.ok {
            read
        } else {
            let done = read.and_step(
                sp_expect_and_skip(t, eof, pos + 1 + value.consumed, TokenType::Semicolon),
            );
            let span = value.last_span();
            let returned = done.and_node(
                base,
                AstKind::Return(value.last_id(base)),
                span.spec_to(span),
            );
            returned.and_node(
                base,
                AstKind::FunctionBlock(seq![returned.last_id(base)]),
                t[pos].span.spec_to(span),
            )
        }
    } else {
        Step::empty().and_error(unexpected(t, eof, pos)).and_node(
            base,
            AstKind::ErrorAst,
            t[pos].span.spec_to(t[pos].span),
        )
    }
}

/// A definition, from the `def` at `pos`: `fun`, the type of the function and
/// its body. Any other token behind `def` is reported, gives an error node
/// and is not read.
pub open spec fn sp_define(t: Seq<Token>, eof: Token, pos: int, base: int) -> Step
    decreases tokens_left(t, pos), 9nat,
{
    let def = Step::empty().skip(1);
    if pos < 0 || pos + 1 >= t.len() {
        def.failed()
    } else if t[pos + 1].ttype != TokenType::Fun {
        def.and_error(mismatch(t, eof, pos + 1, pos + 1, TokenType::Fun)).and_step(
            sp_error_node(t, eof, pos + 1, base),
        )
    } else {
        let ftype = sp_function_type(t, eof, pos + 1, base);
        let typed = def.and_step(ftype);
        if !ftype.ok {
            typed
        } else {
            let body = sp_function_body(
                t,
                eof,
                pos + 1 + ftype.consumed,
                base + ftype.nodes.len(),
            );
            let all = typed.and_step(body);
            if !body.ok {
                all
            } else {
                all.and_node(
                    base,
                    AstKind::FunctionDefinition {
                        ftype: ftype.last_id(base),
                        body: all.last_id(base),
                    },
                    t[pos].span.spec_to(body.last_span()),
                )
            }
        }
    }
}

/// A statement at the level of the file: a definition. Any other token is
/// read and reported, and gives an error node.
pub open spec fn sp_top_level_statement(t: Seq<Token>, eof: Token, pos: int, base: int) -> Step {
    if pos < 0 || pos >= t.len() {
        Step::empty().failed()
    } else if t[pos].ttype == TokenType::Def {
        sp_define(t, eof, pos, base)
    } else {
        Step::empty().skip(1).and_error(mismatch(t, eof, pos, pos, TokenType::Def)).and_node(
            base,
            AstKind::ErrorAst,
            t[pos].span.spec_to(t[pos].span),
        )
    }
}

/// The statements of the file that follow `so_far`, up to the end of the
/// input. They were read from position `from` on, with `base` nodes in the
/// arena. A statement reads at least one token; the test for that makes the
/// definition well-founded.
pub open spec fn sp_top_statements(
    t: Seq<Token>,
    eof: Token,
    from: int,
    base: int,
    so_far: Items,
) -> Items
    decreases tokens_left(t, from + so_far.step.consumed),
{
    let pos = from + so_far.step.consumed;
    if pos < 0 || pos >= t.len() {
        so_far
    } else {
        let one = sp_top_level_statement(t, eof, pos, base + so_far.step.nodes.len());
        let all = so_far.step.and_step(one);
        if !one.ok || one.consumed == 0 {
            Items { step: all.failed(), ids: so_far.ids }
        } else {
            sp_top_statements(
                t,
                eof,
                from,
                base,
                Items { step: all, ids: so_far.ids.push(all.last_id(base)) },
            )
        }
    }
}

/// The error of the input ending inside a construct.
pub open spec fn unexpected_end(t: Seq<Token>, eof: Token) -> ParserError {
    ParserError { error: SyntaxError::UnexpectedEnd, position: t.len() as usize, span: eof.span }
}

/// The block of the file, from the token at `pos` to the end of the input.
/// Where the input ends inside a statement, the statement is given up: all
/// tokens are read, the unexpected end is reported, and an error node stands
/// in the block for the statement.
pub open spec fn sp_top_block(t: Seq<Token>, eof: Token, pos: int, base: int) -> Step {
    let items = sp_top_statements(
        t,
        eof,
        pos,
        base,
        Items { step: Step::empty(), ids: Seq::empty() },
    );
    let span = span_at_token(t, eof, pos).spec_to(eof.span);
    if items.step.ok {
        items.step.and_node(base, AstKind::TopBlock(items.ids), span)
    } else {
        let read = Step { ok: true, consumed: tokens_left(t, pos), ..items.step };
        let given_up = read.and_error(unexpected_end(t, eof)).and_node(
            base,
            AstKind::ErrorAst,
            eof.span,
        );
        given_up.and_node(
            base,
            AstKind::TopBlock(items.ids.push(given_up.last_id(base))),
            span,
        )
    }
}

/// The whole parse of `t`: the block of the file, and the program that wraps
/// it, which is the last node. Where there is no token at all, the block is
/// empty.
pub open spec fn sp_program(t: Seq<Token>, eof: Token) -> Step {
    if t.len() == 0 {
        let span = eof.span.spec_to(eof.span);
        Step::empty().and_node(0, AstKind::TopBlock(Seq::empty()), span).and_node(
            0,
            AstKind::Program(AstId::at(0)),
            span,
        )
    } else {
        let block = sp_top_block(t, eof, 0, 0);
        block.and_node(0, AstKind::Program(block.last_id(0)), t[0].span.spec_to(block.last_span()))
    }
}

/// What follows an expression reads on from where the expression ended: it
/// never gives back a token.
pub proof fn lemma_postfix_reads_on(
    t: Seq<Token>,
    eof: Token,
    from: int,
    base: int,
    precedence: nat,
    so_far: Step,
)
    ensures
        sp_postfix(t, eof, from, base, precedence, so_far).consumed >= so_far.consumed,
    decreases tokens_left(t, from + so_far.consumed),
{
    let pos = from + so_far.consumed;
    if 0 <= pos < t.len() && spec_postfix_precedence(t[pos].ttype) >= precedence {
        if t[pos].ttype == TokenType::OpenParen {
            if pos + 1 < t.len() {
                let call = so_far.skip(1).and_step(
                    sp_expect_and_skip(t, eof, pos + 1, TokenType::CloseParen),
                ).and_node(
                    base,
                    AstKind::FunctionCall {
                        function: so_far.last_id(base),
                        args: AstId::spec_unresolved(),
                    },
                    so_far.last_span().spec_to(t[pos + 1].span),
                );
                lemma_postfix_reads_on(t, eof, from, base, precedence, call);
            }
        } else if t[pos].ttype == TokenType::Add {
            let rhs = sp_value_expression(
                t,
                eof,
                pos + 1,
                base + so_far.nodes.len(),
                spec_postfix_precedence(TokenType::Add) + 1,
            );
            if rhs.ok {
                let sum = so_far.skip(1).and_step(rhs).and_node(
                    base,
                    AstKind::Add {
                        left: so_far.last_id(base),
                        right: rhs.last_id(base + so_far.nodes.len()),
                    },
                    so_far.last_span().spec_to(rhs.last_span()),
                );
                lemma_postfix_reads_on(t, eof, from, base, precedence, sum);
            }
        }
    }
}

/// An expression that comes to its end has read at least one token.
pub proof fn lemma_expression_reads(t: Seq<Token>, eof: Token, pos: int, base: int)
    ensures
        sp_expression(t, eof, pos, base).ok ==> sp_expression(t, eof, pos, base).consumed >= 1,
{
    if 0 <= pos < t.len() && t[pos].ttype != TokenType::Return {
        lemma_value_reads(t, eof, pos, base, 0);
    }
}

/// A value that comes to its end has read at least one token.
pub proof fn lemma_value_reads(t: Seq<Token>, eof: Token, pos: int, base: int, precedence: nat)
    ensures
        sp_value_expression(t, eof, pos, base, precedence).ok ==> sp_value_expression(
            t,
            eof,
            pos,
            base,
            precedence,
        ).consumed >= 1,
{
    if 0 <= pos < t.len() {
        let s = t[pos].span;
        let first = Step::empty().skip(1);
        let atom = match t[pos].ttype {
            TokenType::OpenParen => {
                let inner = sp_expression(t, eof, pos + 1, base);
                if !inner.ok {
                    first.and_step(inner)
                } else {
                    first.and_step(inner).and_step(
                        sp_expect_and_skip(t, eof, pos + 1 + inner.consumed, TokenType::CloseParen),
                    )
                }
            },
            TokenType::Integer => first.and_node(base, AstKind::NumberLiteral, s.spec_to(s)),
            TokenType::Iden => first.and_node(base, AstKind::Symbol, s.spec_to(s)),
            _ => first.and_error(unexpected(t, eof, pos)).and_node(
                base,
                AstKind::ErrorAst,
                s.spec_to(s),
            ),
        };
        if atom.ok {
            lemma_postfix_reads_on(t, eof, pos, base, precedence, atom);
        }
    }
}

/// A statement that comes to its end has read at least one token: the test
/// for that in the statements of a block and of the file never fails.
pub proof fn lemma_statement_reads(t: Seq<Token>, eof: Token, pos: int, base: int)
    ensures
        sp_statement(t, eof, pos, base).ok ==> sp_statement(t, eof, pos, base).consumed >= 1,
        sp_top_level_statement(t, eof, pos, base).ok ==> sp_top_level_statement(
            t,
            eof,
            pos,
            base,
        ).consumed >= 1,
{
    lemma_expression_reads(t, eof, pos, base);
}

} // verus!
