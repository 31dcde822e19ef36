//! What every tree of the parser looks like, whatever the tokens: the spans
//! of its nodes lie in the source, the type of a function names a name, and
//! the block of the file holds definitions of functions and error nodes
//! only.
use crate::frontend::lexer::token::{Token, TokenType};
use crate::frontend::module::span::Span;
use crate::frontend::parser::ast::{AstId, AstKind, AstNode};
use crate::frontend::parser::grammar::{
    is_at, mismatch, sp_define, sp_error_node, sp_expect_and_skip, sp_expression, sp_function_block,
    sp_function_body, sp_function_params, sp_function_type, sp_iden, sp_postfix, sp_program,
    sp_statement, sp_statements, sp_top_block, sp_top_level_statement, sp_top_statements,
    sp_value_expression, span_at_token, spec_postfix_precedence, tokens_left, unexpected,
    unexpected_end, Items, Step,
};
use vstd::prelude::*;

verus! {

/// Whether all of the tokens `t`, and the token `eof`, lie in a source of `n`
/// bytes.
pub open spec fn tokens_within(t: Seq<Token>, eof: Token, n: int) -> bool {
    &&& n <= usize::MAX
    &&& eof.span.within(n)
    &&& forall|i: int| 0 <= i < t.len() ==> (#[trigger] t[i]).span.within(n)
}

/// Whether a node of kind `kind` may stand in the block of the file.
pub open spec fn top_level(kind: AstKind) -> bool {
    kind is FunctionDefinition || kind is ErrorAst
}

/// Whether the node at position `j` of `nodes`, which stand in an arena from
/// handle `base` on, has its shape in a source of `n` bytes: its span lies in
/// the source, and where it is the type of a function or the block of the
/// file, it refers to nodes of `nodes` before it, to a name in the one case,
/// and to definitions of functions and error nodes in the other.
pub open spec fn node_shaped(nodes: Seq<AstNode>, base: int, j: int, n: int) -> bool {
    &&& nodes[j].span.within(n)
    &&& nodes[j].kind matches AstKind::FunctionType { name, .. } ==> {
        &&& base <= name.0 < base + j
        &&& nodes[name.0 - base].kind is Iden
    }
    &&& nodes[j].kind matches AstKind::TopBlock(v) ==> forall|k: int|
        0 <= k < v.len() ==> base <= (#[trigger] v[k]).0 < base + j && top_level(
            nodes[v[k].0 - base].kind,
        )
}

/// Whether every node of `nodes`, which stand in an arena from handle `base`
/// on, has its shape in a source of `n` bytes.
pub open spec fn nodes_shaped(nodes: Seq<AstNode>, base: int, n: int) -> bool {
    forall|j: int| 0 <= j < nodes.len() ==> #[trigger] node_shaped(nodes, base, j, n)
}

/// A span that is joined of two spans in the source lies in the source.
pub proof fn lemma_join_within(first: Span, last: Span, n: int)
    requires
        first.within(n),
        last.within(n),
        n <= usize::MAX,
    ensures
        first.spec_to(last).within(n),
{
}

/// Nodes that have their shape keep it when nodes that have theirs follow.
pub proof fn lemma_shaped_add(a: Seq<AstNode>, b: Seq<AstNode>, base: int, n: int)
    requires
        nodes_shaped(a, base, n),
        nodes_shaped(b, base + a.len(), n),
    ensures
        nodes_shaped(a + b, base, n),
{
    let all = a + b;
    assert forall|j: int| 0 <= j < all.len() implies #[trigger] node_shaped(all, base, j, n) by {
        if j < a.len() {
            assert(node_shaped(a, base, j, n));
            assert(all[j] == a[j]);
            match a[j].kind {
                AstKind::FunctionType { name, .. } => {
                    assert(all[name.0 - base] == a[name.0 - base]);
                },
                AstKind::TopBlock(v) => {
                    assert forall|k: int| 0 <= k < v.len() implies base <= (#[trigger] v[k]).0
                        < base + j && top_level(all[v[k].0 - base].kind) by {
                        assert(all[v[k].0 - base] == a[v[k].0 - base]);
                    }
                },
                _ => {},
            }
        } else {
            let i = j - a.len();
            assert(node_shaped(b, base + a.len(), i, n));
            assert(all[j] == b[i]);
            match b[i].kind {
                AstKind::FunctionType { name, .. } => {
                    assert(all[name.0 - base] == b[name.0 - base - a.len()]);
                },
                AstKind::TopBlock(v) => {
                    assert forall|k: int| 0 <= k < v.len() implies base <= (#[trigger] v[k]).0
                        < base + j && top_level(all[v[k].0 - base].kind) by {
                        assert(all[v[k].0 - base] == b[v[k].0 - base - a.len()]);
                    }
                },
                _ => {},
            }
        }
    }
}

/// Nodes that have their shape keep it when a node follows that lies in the
/// source and is neither the type of a function nor the block of the file.
pub proof fn lemma_shaped_push(a: Seq<AstNode>, node: AstNode, base: int, n: int)
    requires
        nodes_shaped(a, base, n),
        node.span.within(n),
        !(node.kind is FunctionType),
        !(node.kind is TopBlock),
    ensures
        nodes_shaped(a.push(node), base, n),
{
    let b = seq![node];
    assert(node_shaped(b, base + a.len(), 0, n));
    assert(nodes_shaped(b, base + a.len(), n));
    lemma_shaped_add(a, b, base, n);
    assert(a.push(node) =~= a + b);
}

/// A step that has its shape keeps it with a node more that lies in the
/// source and is neither the type of a function nor the block of the file.
pub proof fn lemma_and_node_shaped(step: Step, base: int, kind: AstKind, span: Span, n: int)
    requires
        nodes_shaped(step.nodes, base, n),
        span.within(n),
        !(kind is FunctionType),
        !(kind is TopBlock),
    ensures
        nodes_shaped(step.and_node(base, kind, span).nodes, base, n),
{
    lemma_shaped_push(
        step.nodes,
        AstNode { id: AstId::at(base + step.nodes.len()), kind, span },
        base,
        n,
    );
}

/// An error node has its shape.
pub proof fn lemma_error_node_shaped(t: Seq<Token>, eof: Token, pos: int, base: int, n: int)
    requires
        tokens_within(t, eof, n),
    ensures
        nodes_shaped(sp_error_node(t, eof, pos, base).nodes, base, n),
        sp_error_node(t, eof, pos, base).nodes.len() == 1,
        sp_error_node(t, eof, pos, base).nodes[0].kind is ErrorAst,
{
    lemma_and_node_shaped(Step::empty(), base, AstKind::ErrorAst, span_at_token(t, eof, pos), n);
}

/// What follows an expression has its shape where the expression has.
pub proof fn lemma_postfix_shaped(
    t: Seq<Token>,
    eof: Token,
    from: int,
    base: int,
    precedence: nat,
    so_far: Step,
    n: int,
)
    requires
        tokens_within(t, eof, n),
        0 <= from,
        nodes_shaped(so_far.nodes, base, n),
        so_far.nodes.len() >= 1,
    ensures
        nodes_shaped(sp_postfix(t, eof, from, base, precedence, so_far).nodes, base, n),
        sp_postfix(t, eof, from, base, precedence, so_far).nodes.len() >= 1,
    decreases tokens_left(t, from + so_far.consumed), 0nat,
{
    let pos = from + so_far.consumed;
    if 0 <= pos < t.len() && spec_postfix_precedence(t[pos].ttype) >= precedence {
        assert(node_shaped(so_far.nodes, base, so_far.nodes.len() - 1, n));
        if t[pos].ttype == TokenType::OpenParen {
            if pos + 1 < t.len() {
                let read = so_far.skip(1).and_step(
                    sp_expect_and_skip(t, eof, pos + 1, TokenType::CloseParen),
                );
                assert(read.nodes =~= so_far.nodes);
                let kind = AstKind::FunctionCall {
                    function: so_far.last_id(base),
                    args: AstId::spec_unresolved(),
                };
                let span = so_far.last_span().spec_to(t[pos + 1].span);
                lemma_join_within(so_far.last_span(), t[pos + 1].span, n);
                lemma_and_node_shaped(read, base, kind, span, n);
                lemma_postfix_shaped(
                    t,
                    eof,
                    from,
                    base,
                    precedence,
                    read.and_node(base, kind, span),
                    n,
                );
            }
        } else if t[pos].ttype == TokenType::Add {
            let rhs = sp_value_expression(
                t,
                eof,
                pos + 1,
                base + so_far.nodes.len(),
                spec_postfix_precedence(TokenType::Add) + 1,
            );
            lemma_value_shaped(
                t,
                eof,
                pos + 1,
                base + so_far.nodes.len(),
                spec_postfix_precedence(TokenType::Add) + 1,
                n,
            );
            let both = so_far.skip(1).and_step(rhs);
            lemma_shaped_add(so_far.nodes, rhs.nodes, base, n);
            if rhs.ok {
                assert(node_shaped(rhs.nodes, base + so_far.nodes.len(), rhs.nodes.len() - 1, n));
                let kind = AstKind::Add {
                    left: so_far.last_id(base),
                    right: rhs.last_id(base + so_far.nodes.len()),
                };
                let span = so_far.last_span().spec_to(rhs.last_span());
                lemma_join_within(so_far.last_span(), rhs.last_span(), n);
                lemma_and_node_shaped(both, base, kind, span, n);
                lemma_postfix_shaped(
                    t,
                    eof,
                    from,
                    base,
                    precedence,
                    both.and_node(base, kind, span),
                    n,
                );
            }
        }
    }
}

/// A value has its shape, and has a node where it comes to its end.
pub proof fn lemma_value_shaped(
    t: Seq<Token>,
    eof: Token,
    pos: int,
    base: int,
    precedence: nat,
    n: int,
)
    requires
        tokens_within(t, eof, n),
        0 <= pos,
    ensures
        nodes_shaped(sp_value_expression(t, eof, pos, base, precedence).nodes, base, n),
        sp_value_expression(t, eof, pos, base, precedence).ok ==> sp_value_expression(
            t,
            eof,
            pos,
            base,
            precedence,
        ).nodes.len() >= 1,
    decreases tokens_left(t, pos), 1nat,
{
    if pos < t.len() {
        let s = t[pos].span;
        let first = Step::empty().skip(1);
        lemma_join_within(s, s, n);
        let atom = match t[pos].ttype {
            TokenType::OpenParen => {
                let inner = sp_expression(t, eof, pos + 1, base);
                lemma_expression_shaped(t, eof, pos + 1, base, n);
                assert(first.and_step(inner).nodes =~= inner.nodes);
                if !inner.ok {
                    first.and_step(inner)
                } else {
                    let closed = first.and_step(inner).and_step(
                        sp_expect_and_skip(t, eof, pos + 1 + inner.consumed, TokenType::CloseParen),
                    );
                    assert(closed.nodes =~= inner.nodes);
                    closed
                }
            },
            TokenType::Integer => {
                lemma_and_node_shaped(first, base, AstKind::NumberLiteral, s.spec_to(s), n);
                first.and_node(base, AstKind::NumberLiteral, s.spec_to(s))
            },
            TokenType::Iden => {
                lemma_and_node_shaped(first, base, AstKind::Symbol, s.spec_to(s), n);
                first.and_node(base, AstKind::Symbol, s.spec_to(s))
            },
            _ => {
                let reported = first.and_error(unexpected(t, eof, pos));
                lemma_and_node_shaped(reported, base, AstKind::ErrorAst, s.spec_to(s), n);
                reported.and_node(base, AstKind::ErrorAst, s.spec_to(s))
            },
        };
        if atom.ok {
            lemma_postfix_shaped(t, eof, pos, base, precedence, atom, n);
        }
    }
}

/// An expression has its shape, and has a node where it comes to its end.
pub proof fn lemma_expression_shaped(t: Seq<Token>, eof: Token, pos: int, base: int, n: int)
    requires
        tokens_within(t, eof, n),
        0 <= pos,
    ensures
        nodes_shaped(sp_expression(t, eof, pos, base).nodes, base, n),
        sp_expression(t, eof, pos, base).ok ==> sp_expression(t, eof, pos, base).nodes.len() >= 1,
    decreases tokens_left(t, pos), 3nat,
{
    if pos < t.len() {
        if t[pos].ttype == TokenType::Return {
            let value = sp_expression(t, eof, pos + 1, base);
            lemma_expression_shaped(t, eof, pos + 1, base, n);
            let all = Step::empty().skip(1).and_step(value);
            assert(all.nodes =~= value.nodes);
            if value.ok {
                assert(node_shaped(value.nodes, base, value.nodes.len() - 1, n));
                lemma_join_within(t[pos].span, value.last_span(), n);
                lemma_and_node_shaped(
                    all,
                    base,
                    AstKind::Return(value.last_id(base)),
                    t[pos].span.spec_to(value.last_span()),
                    n,
                );
            }
        } else {
            lemma_value_shaped(t, eof, pos, base, 0, n);
        }
    }
}

/// The statements of a block never lose a node.
pub proof fn lemma_statements_grow(
    t: Seq<Token>,
    eof: Token,
    from: int,
    base: int,
    so_far: Items,
)
    ensures
        sp_statements(t, eof, from, base, so_far).step.nodes.len() >= so_far.step.nodes.len(),
    decreases tokens_left(t, from + so_far.step.consumed), 11nat,
{
    let pos = from + so_far.step.consumed;
    if 0 <= pos < t.len() && t[pos].ttype != TokenType::CloseBrace {
        let one = sp_statement(t, eof, pos, base + so_far.step.nodes.len());
        let all = so_far.step.and_step(one);
        if one.ok && one.consumed != 0 {
            lemma_statements_grow(
                t,
                eof,
                from,
                base,
                Items { step: all, ids: so_far.ids.push(all.last_id(base)) },
            );
        }
    }
}

/// The statements of the file never lose a node.
pub proof fn lemma_top_statements_grow(
    t: Seq<Token>,
    eof: Token,
    from: int,
    base: int,
    so_far: Items,
)
    ensures
        sp_top_statements(t, eof, from, base, so_far).step.nodes.len()
            >= so_far.step.nodes.len(),
    decreases tokens_left(t, from + so_far.step.consumed),
{
    let pos = from + so_far.step.consumed;
    if 0 <= pos < t.len() {
        let one = sp_top_level_statement(t, eof, pos, base + so_far.step.nodes.len());
        let all = so_far.step.and_step(one);
        if one.ok && one.consumed != 0 {
            lemma_top_statements_grow(
                t,
                eof,
                from,
                base,
                Items { step: all, ids: so_far.ids.push(all.last_id(base)) },
            );
        }
    }
}

/// The parameters of a function have their shape.
pub proof fn lemma_function_params_shaped(t: Seq<Token>, eof: Token, pos: int, base: int, n: int)
    requires
        tokens_within(t, eof, n),
        0 <= pos < t.len(),
    ensures
        nodes_shaped(sp_function_params(t, eof, pos, base).nodes, base, n),
        sp_function_params(t, eof, pos, base).ok ==> sp_function_params(
            t,
            eof,
            pos,
            base,
        ).nodes.len() == 1,
        !sp_function_params(t, eof, pos, base).ok ==> sp_function_params(
            t,
            eof,
            pos,
            base,
        ).nodes.len() == 0,
{
    reveal(sp_function_params);
    if pos + 1 < t.len() {
        lemma_join_within(t[pos].span, t[pos + 1].span, n);
        let open = Step::empty().skip(1);
        let looked = if is_at(t, pos + 1, TokenType::CloseParen) {
            open
        } else {
            open.and_error(mismatch(t, eof, pos + 1, pos + 1, TokenType::CloseParen))
        };
        let closed = if is_at(t, pos + 1, TokenType::CloseParen) {
            looked.skip(1)
        } else {
            looked
        };
        lemma_and_node_shaped(
            closed,
            base,
            AstKind::FunctionParams,
            t[pos].span.spec_to(t[pos + 1].span),
            n,
        );
    }
}

/// The type of a function has its shape: it names a name.
pub proof fn lemma_function_type_shaped(t: Seq<Token>, eof: Token, pos: int, base: int, n: int)
    requires
        tokens_within(t, eof, n),
        0 <= pos < t.len(),
        0 <= base,
        base + sp_function_type(t, eof, pos, base).nodes.len() <= usize::MAX,
    ensures
        nodes_shaped(sp_function_type(t, eof, pos, base).nodes, base, n),
        sp_function_type(t, eof, pos, base).ok ==> sp_function_type(t, eof, pos, base).nodes.len()
            >= 1,
{
    reveal(sp_function_type);
    let fun = Step::empty().skip(1);
    if !is_at(t, pos + 1, TokenType::Iden) {
        lemma_error_node_shaped(t, eof, pos + 1, base, n);
        assert(sp_function_type(t, eof, pos, base).nodes =~= sp_error_node(
            t,
            eof,
            pos + 1,
            base,
        ).nodes);
    } else {
        let s = t[pos + 1].span;
        lemma_join_within(s, s, n);
        let name = sp_iden(t, eof, pos + 1, base, false);
        lemma_and_node_shaped(Step::empty().skip(1), base, AstKind::Iden, s.spec_to(s), n);
        let named = fun.and_step(name);
        assert(named.nodes =~= name.nodes);
        if !is_at(t, pos + 2, TokenType::OpenParen) {
            lemma_error_node_shaped(t, eof, pos + 2, base + 1, n);
            lemma_shaped_add(named.nodes, sp_error_node(t, eof, pos + 2, base + 1).nodes, base, n);
        } else {
            let params = sp_function_params(t, eof, pos + 2, base + 1);
            lemma_function_params_shaped(t, eof, pos + 2, base + 1, n);
            let all = named.and_step(params);
            lemma_shaped_add(named.nodes, params.nodes, base, n);
            if params.ok {
                assert(node_shaped(params.nodes, base + 1, 0, n));
                let span = t[pos].span.spec_to(params.last_span());
                lemma_join_within(t[pos].span, params.last_span(), n);
                let node = AstNode {
                    id: AstId::at(base + all.nodes.len()),
                    kind: AstKind::FunctionType {
                        name: AstId::at(base),
                        constant_params: AstId::spec_unresolved(),
                        params: params.last_id(base + 1),
                    },
                    span,
                };
                let whole = all.nodes.push(node);
                assert forall|j: int| 0 <= j < whole.len() implies #[trigger] node_shaped(
                    whole,
                    base,
                    j,
                    n,
                ) by {
                    if j < all.nodes.len() {
                        assert(node_shaped(all.nodes, base, j, n));
                        assert(whole[j] == all.nodes[j]);
                        assert(j == 0 || j == 1);
                    } else {
                        assert(whole[0] == name.nodes[0]);
                    }
                }
            }
        }
    }
}

/// A statement has its shape, and has a node where it comes to its end.
pub proof fn lemma_statement_shaped(t: Seq<Token>, eof: Token, pos: int, base: int, n: int)
    requires
        tokens_within(t, eof, n),
        0 <= pos,
        0 <= base,
        base + sp_statement(t, eof, pos, base).nodes.len() <= usize::MAX,
    ensures
        nodes_shaped(sp_statement(t, eof, pos, base).nodes, base, n),
        sp_statement(t, eof, pos, base).ok ==> sp_statement(t, eof, pos, base).nodes.len() >= 1,
    decreases tokens_left(t, pos), 10nat,
{
    if pos < t.len() {
        if t[pos].ttype == TokenType::Def {
            lemma_define_shaped(t, eof, pos, base, n);
        } else {
            let value = sp_expression(t, eof, pos, base);
            lemma_expression_shaped(t, eof, pos, base, n);
            if value.ok {
                let all = value.and_step(
                    sp_expect_and_skip(t, eof, pos + value.consumed, TokenType::Semicolon),
                );
                assert(all.nodes =~= value.nodes);
            }
        }
    }
}

/// The statements of a block have their shape where those so far have.
pub proof fn lemma_statements_shaped(
    t: Seq<Token>,
    eof: Token,
    from: int,
    base: int,
    so_far: Items,
    n: int,
)
    requires
        tokens_within(t, eof, n),
        0 <= from,
        0 <= base,
        nodes_shaped(so_far.step.nodes, base, n),
        base + sp_statements(t, eof, from, base, so_far).step.nodes.len() <= usize::MAX,
    ensures
        nodes_shaped(sp_statements(t, eof, from, base, so_far).step.nodes, base, n),
    decreases tokens_left(t, from + so_far.step.consumed), 11nat,
{
    let pos = from + so_far.step.consumed;
    if 0 <= pos < t.len() && t[pos].ttype != TokenType::CloseBrace {
        let one = sp_statement(t, eof, pos, base + so_far.step.nodes.len());
        let all = so_far.step.and_step(one);
        let next = Items { step: all, ids: so_far.ids.push(all.last_id(base)) };
        if one.ok && one.consumed != 0 {
            lemma_statements_grow(t, eof, from, base, next);
        }
        lemma_statement_shaped(t, eof, pos, base + so_far.step.nodes.len(), n);
        lemma_shaped_add(so_far.step.nodes, one.nodes, base, n);
        if one.ok && one.consumed != 0 {
            lemma_statements_shaped(t, eof, from, base, next, n);
        }
    }
}

/// The body of a function in braces has its shape.
pub proof fn lemma_function_block_shaped(t: Seq<Token>, eof: Token, pos: int, base: int, n: int)
    requires
        tokens_within(t, eof, n),
        0 <= pos,
        0 <= base,
        base + sp_function_block(t, eof, pos, base).nodes.len() <= usize::MAX,
    ensures
        nodes_shaped(sp_function_block(t, eof, pos, base).nodes, base, n),
        sp_function_block(t, eof, pos, base).ok ==> sp_function_block(t, eof, pos, base).nodes.len()
            >= 1,
    decreases tokens_left(t, pos), 12nat,
{
    if pos >= t.len() {
        lemma_error_node_shaped(t, eof, pos, base, n);
        assert(sp_function_block(t, eof, pos, base).nodes =~= sp_error_node(
            t,
            eof,
            pos,
            base,
        ).nodes);
    } else if t[pos].ttype != TokenType::OpenBrace {
        lemma_error_node_shaped(t, eof, pos + 1, base, n);
        assert(sp_function_block(t, eof, pos, base).nodes =~= sp_error_node(
            t,
            eof,
            pos + 1,
            base,
        ).nodes);
    } else {
        let begin = Items { step: Step::empty().skip(1), ids: Seq::empty() };
        let items = sp_statements(t, eof, pos, base, begin);
        lemma_statements_shaped(t, eof, pos, base, begin, n);
        if items.step.ok {
            let close = pos + items.step.consumed;
            lemma_join_within(t[pos].span, span_at_token(t, eof, close), n);
            lemma_and_node_shaped(
                items.step.skip(1),
                base,
                AstKind::FunctionBlock(items.ids),
                t[pos].span.spec_to(span_at_token(t, eof, close)),
                n,
            );
        }
    }
}

/// The body of a function has its shape, and has a node where it comes to
/// its end.
pub proof fn lemma_function_body_shaped(t: Seq<Token>, eof: Token, pos: int, base: int, n: int)
    requires
        tokens_within(t, eof, n),
        0 <= pos,
        0 <= base,
        base + sp_function_body(t, eof, pos, base).nodes.len() <= usize::MAX,
    ensures
        nodes_shaped(sp_function_body(t, eof, pos, base).nodes, base, n),
        sp_function_body(t, eof, pos, base).ok ==> sp_function_body(t, eof, pos, base).nodes.len()
            >= 1,
    decreases tokens_left(t, pos), 13nat,
{
    if pos < t.len() {
        if t[pos].ttype == TokenType::OpenBrace {
            lemma_function_block_shaped(t, eof, pos, base, n);
        } else if t[pos].ttype == TokenType::StrongArrowRight {
            let value = sp_expression(t, eof, pos + 1, base);
            lemma_expression_shaped(t, eof, pos + 1, base, n);
            let read = Step::empty().skip(1).and_step(value);
            assert(read.nodes =~= value.nodes);
            if value.ok {
                let done = read.and_step(
                    sp_expect_and_skip(t, eof, pos + 1 + value.consumed, TokenType::Semicolon),
                );
                assert(done.nodes =~= value.nodes);
                assert(node_shaped(value.nodes, base, value.nodes.len() - 1, n));
                let span = value.last_span();
                lemma_join_within(span, span, n);
                lemma_join_within(t[pos].span, span, n);
                let returned = done.and_node(
                    base,
                    AstKind::Return(value.last_id(base)),
                    span.spec_to(span),
                );
                lemma_and_node_shaped(
                    done,
                    base,
                    AstKind::Return(value.last_id(base)),
                    span.spec_to(span),
                    n,
                );
                lemma_and_node_shaped(
                    returned,
                    base,
                    AstKind::FunctionBlock(seq![returned.last_id(base)]),
                    t[pos].span.spec_to(span),
                    n,
                );
            }
        } else {
            lemma_join_within(t[pos].span, t[pos].span, n);
            lemma_and_node_shaped(
                Step::empty().and_error(unexpected(t, eof, pos)),
                base,
                AstKind::ErrorAst,
                t[pos].span.spec_to(t[pos].span),
                n,
            );
        }
    }
}

/// A definition has its shape, and where it comes to its end, its last node
/// may stand in the block of the file.
pub proof fn lemma_define_shaped(t: Seq<Token>, eof: Token, pos: int, base: int, n: int)
    requires
        tokens_within(t, eof, n),
        0 <= pos,
        0 <= base,
        base + sp_define(t, eof, pos, base).nodes.len() <= usize::MAX,
    ensures
        nodes_shaped(sp_define(t, eof, pos, base).nodes, base, n),
        sp_define(t, eof, pos, base).ok ==> sp_define(t, eof, pos, base).nodes.len() >= 1
            && top_level(sp_define(t, eof, pos, base).nodes.last().kind),
    decreases tokens_left(t, pos), 9nat,
{
    let def = Step::empty().skip(1);
    if pos + 1 < t.len() {
        if t[pos + 1].ttype != TokenType::Fun {
            lemma_error_node_shaped(t, eof, pos + 1, base, n);
            assert(sp_define(t, eof, pos, base).nodes =~= sp_error_node(
                t,
                eof,
                pos + 1,
                base,
            ).nodes);
        } else {
            let ftype = sp_function_type(t, eof, pos + 1, base);
            let typed = def.and_step(ftype);
            assert(typed.nodes =~= ftype.nodes);
            if !ftype.ok {
                lemma_function_type_shaped(t, eof, pos + 1, base, n);
            } else {
                let body = sp_function_body(
                    t,
                    eof,
                    pos + 1 + ftype.consumed,
                    base + ftype.nodes.len(),
                );
                let all = typed.and_step(body);
                lemma_function_type_shaped(t, eof, pos + 1, base, n);
                lemma_function_body_shaped(
                    t,
                    eof,
                    pos + 1 + ftype.consumed,
                    base + ftype.nodes.len(),
                    n,
                );
                lemma_shaped_add(ftype.nodes, body.nodes, base, n);
                if body.ok {
                    assert(node_shaped(
                        body.nodes,
                        base + ftype.nodes.len(),
                        body.nodes.len() - 1,
                        n,
                    ));
                    lemma_join_within(t[pos].span, body.last_span(), n);
                    lemma_and_node_shaped(
                        all,
                        base,
                        AstKind::FunctionDefinition {
                            ftype: ftype.last_id(base),
                            body: all.last_id(base),
                        },
                        t[pos].span.spec_to(body.last_span()),
                        n,
                    );
                }
            }
        }
    }
}

/// Whether the statements `items`, whose nodes stand in an arena from handle
/// `base` on, may all stand in the block of the file.
pub open spec fn items_top_level(items: Items, base: int) -> bool {
    forall|k: int|
        0 <= k < items.ids.len() ==> base <= (#[trigger] items.ids[k]).0 < base
            + items.step.nodes.len() && top_level(items.step.nodes[items.ids[k].0 - base].kind)
}

/// A statement of the file has its shape, and where it comes to its end, its
/// last node may stand in the block of the file.
pub proof fn lemma_top_level_statement_shaped(
    t: Seq<Token>,
    eof: Token,
    pos: int,
    base: int,
    n: int,
)
    requires
        tokens_within(t, eof, n),
        0 <= pos,
        0 <= base,
        base + sp_top_level_statement(t, eof, pos, base).nodes.len() <= usize::MAX,
    ensures
        nodes_shaped(sp_top_level_statement(t, eof, pos, base).nodes, base, n),
        sp_top_level_statement(t, eof, pos, base).ok ==> sp_top_level_statement(
            t,
            eof,
            pos,
            base,
        ).nodes.len() >= 1 && top_level(
            sp_top_level_statement(t, eof, pos, base).nodes.last().kind,
        ),
{
    if pos < t.len() {
        if t[pos].ttype == TokenType::Def {
            lemma_define_shaped(t, eof, pos, base, n);
        } else {
            lemma_join_within(t[pos].span, t[pos].span, n);
            lemma_and_node_shaped(
                Step::empty().skip(1).and_error(mismatch(t, eof, pos, pos, TokenType::Def)),
                base,
                AstKind::ErrorAst,
                t[pos].span.spec_to(t[pos].span),
                n,
            );
        }
    }
}

/// The statements of the file have their shape and may stand in the block of
/// the file, where those so far have and may.
pub proof fn lemma_top_statements_shaped(
    t: Seq<Token>,
    eof: Token,
    from: int,
    base: int,
    so_far: Items,
    n: int,
)
    requires
        tokens_within(t, eof, n),
        0 <= from,
        0 <= base,
        nodes_shaped(so_far.step.nodes, base, n),
        items_top_level(so_far, base),
        base + sp_top_statements(t, eof, from, base, so_far).step.nodes.len() <= usize::MAX,
    ensures
        nodes_shaped(sp_top_statements(t, eof, from, base, so_far).step.nodes, base, n),
        items_top_level(sp_top_statements(t, eof, from, base, so_far), base),
    decreases tokens_left(t, from + so_far.step.consumed),
{
    let pos = from + so_far.step.consumed;
    if 0 <= pos < t.len() {
        let one = sp_top_level_statement(t, eof, pos, base + so_far.step.nodes.len());
        let all = so_far.step.and_step(one);
        let next = Items { step: all, ids: so_far.ids.push(all.last_id(base)) };
        if one.ok && one.consumed != 0 {
            lemma_top_statements_grow(t, eof, from, base, next);
        }
        lemma_top_level_statement_shaped(t, eof, pos, base + so_far.step.nodes.len(), n);
        lemma_shaped_add(so_far.step.nodes, one.nodes, base, n);
        assert forall|k: int| 0 <= k < so_far.ids.len() implies base <= (
        #[trigger] so_far.ids[k]).0 < base + all.nodes.len() && top_level(
            all.nodes[so_far.ids[k].0 - base].kind,
        ) by {
            assert(all.nodes[so_far.ids[k].0 - base] == so_far.step.nodes[so_far.ids[k].0 - base]);
        }
        if one.ok && one.consumed != 0 {
            assert(all.nodes[all.nodes.len() - 1] == one.nodes.last());
            assert forall|k: int| 0 <= k < next.ids.len() implies base <= (
            #[trigger] next.ids[k]).0 < base + all.nodes.len() && top_level(
                all.nodes[next.ids[k].0 - base].kind,
            ) by {
                if k < so_far.ids.len() {
                    assert(next.ids[k] == so_far.ids[k]);
                }
            }
            lemma_top_statements_shaped(t, eof, from, base, next, n);
        }
    }
}

/// The block of the file has its shape: it holds definitions of functions
/// and error nodes only, and it is the last of its nodes.
pub proof fn lemma_top_block_shaped(t: Seq<Token>, eof: Token, pos: int, base: int, n: int)
    requires
        tokens_within(t, eof, n),
        0 <= pos,
        0 <= base,
        base + sp_top_block(t, eof, pos, base).nodes.len() <= usize::MAX,
    ensures
        nodes_shaped(sp_top_block(t, eof, pos, base).nodes, base, n),
        sp_top_block(t, eof, pos, base).ok,
        sp_top_block(t, eof, pos, base).nodes.len() >= 1,
        sp_top_block(t, eof, pos, base).nodes.last().kind is TopBlock,
{
    let begin = Items { step: Step::empty(), ids: Seq::empty() };
    let items = sp_top_statements(t, eof, pos, base, begin);
    let span = span_at_token(t, eof, pos).spec_to(eof.span);
    lemma_join_within(span_at_token(t, eof, pos), eof.span, n);
    lemma_top_statements_shaped(t, eof, pos, base, begin, n);
    let (before, ids) = if items.step.ok {
        (items.step, items.ids)
    } else {
        let read = Step { ok: true, consumed: tokens_left(t, pos), ..items.step };
        let given_up = read.and_error(unexpected_end(t, eof)).and_node(
            base,
            AstKind::ErrorAst,
            eof.span,
        );
        lemma_and_node_shaped(
            read.and_error(unexpected_end(t, eof)),
            base,
            AstKind::ErrorAst,
            eof.span,
            n,
        );
        (given_up, items.ids.push(given_up.last_id(base)))
    };
    let whole = before.and_node(base, AstKind::TopBlock(ids), span).nodes;
    assert(whole == sp_top_block(t, eof, pos, base).nodes);
    assert forall|j: int| 0 <= j < whole.len() implies #[trigger] node_shaped(
        whole,
        base,
        j,
        n,
    ) by {
        if j < before.nodes.len() {
            assert(node_shaped(before.nodes, base, j, n));
            assert(whole[j] == before.nodes[j]);
            match before.nodes[j].kind {
                AstKind::FunctionType { name, .. } => {
                    assert(whole[name.0 - base] == before.nodes[name.0 - base]);
                },
                AstKind::TopBlock(v) => {
                    assert forall|k: int| 0 <= k < v.len() implies base <= (#[trigger] v[k]).0
                        < base + j && top_level(whole[v[k].0 - base].kind) by {
                        assert(whole[v[k].0 - base] == before.nodes[v[k].0 - base]);
                    }
                },
                _ => {},
            }
        } else {
            assert forall|k: int| 0 <= k < ids.len() implies base <= (#[trigger] ids[k]).0 < base
                + j && top_level(whole[ids[k].0 - base].kind) by {
                if k < items.ids.len() {
                    assert(ids[k] == items.ids[k]);
                    assert(whole[ids[k].0 - base] == items.step.nodes[ids[k].0 - base]);
                } else {
                    assert(whole[ids[k].0 - base] == before.nodes.last());
                }
            }
        }
    }
}

/// The law of the shape of the tree. Whatever the tokens, as long as they
/// lie in a source of `n` bytes, every node of the tree that the parser makes
/// of them has its span in the source, every type of a function names a
/// name, and the block of the file holds definitions of functions and error
/// nodes only.
pub proof fn lemma_program_shaped(t: Seq<Token>, eof: Token, n: int)
    requires
        tokens_within(t, eof, n),
        sp_program(t, eof).nodes.len() <= usize::MAX,
    ensures
        nodes_shaped(sp_program(t, eof).nodes, 0, n),
{
    if t.len() == 0 {
        let span = eof.span.spec_to(eof.span);
        lemma_join_within(eof.span, eof.span, n);
        let whole = sp_program(t, eof).nodes;
        assert(whole[0].kind == AstKind::TopBlock(Seq::empty()));
        assert(whole[1].kind == AstKind::Program(AstId::at(0)));
        assert(node_shaped(whole, 0, 0, n));
        assert(node_shaped(whole, 0, 1, n));
    } else {
        let block = sp_top_block(t, eof, 0, 0);
        lemma_top_block_shaped(t, eof, 0, 0, n);
        assert(node_shaped(block.nodes, 0, block.nodes.len() - 1, n));
        lemma_join_within(t[0].span, block.last_span(), n);
        lemma_and_node_shaped(
            block,
            0,
            AstKind::Program(block.last_id(0)),
            t[0].span.spec_to(block.last_span()),
            n,
        );
    }
}

} // verus!
