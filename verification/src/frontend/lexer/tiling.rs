//! The tokens of a source tile it: they stand in the order of the text, do
//! not overlap, and leave out nothing but spaces and tabs.
use crate::frontend::lexer::ascii::{BACKSLASH, LINE_FEED, QUOTE, SLASH, STAR};
use crate::frontend::lexer::lexeme::{
    block_tail, bytes_left, lexeme, line_tail, number_base, run_len, spec_is_blank, string_tail,
    tokens_from, ByteClass,
};
use crate::frontend::lexer::token::Token;
use crate::frontend::module::span::{col_of, lemma_line_col_bounds, line_of, ModuleId};
use vstd::prelude::*;

verus! {

/// Whether the byte at offset `p` belongs to one of `tokens`.
pub open spec fn covered(tokens: Seq<Token>, p: int) -> bool {
    exists|i: int|
        0 <= i < tokens.len() && (#[trigger] tokens[i]).span.start <= p < tokens[i].span.end()
}

/// Whether `tokens` lie between the offsets `from` and `to`, each with at
/// least one byte, one behind the other.
pub open spec fn in_order(tokens: Seq<Token>, from: int, to: int) -> bool {
    &&& forall|i: int|
        0 <= i < tokens.len() ==> from <= (#[trigger] tokens[i]).span.start && tokens[i].span.len
            >= 1 && tokens[i].span.end() <= to
    &&& forall|i: int, j: int|
        0 <= i < j < tokens.len() ==> (#[trigger] tokens[i]).span.end() <= (
        #[trigger] tokens[j]).span.start
}

/// Whether each of `tokens` is located in `src`, the text of module
/// `module_idx`: it carries that module, and the line and column of its
/// start.
pub open spec fn located(tokens: Seq<Token>, module_idx: ModuleId, src: Seq<u8>) -> bool {
    forall|i: int|
        0 <= i < tokens.len() ==> {
            let span = (#[trigger] tokens[i]).span;
            &&& span.module_idx == module_idx
            &&& span.line == line_of(src, span.start as int)
            &&& span.col == col_of(src, span.start as int)
        }
}

/// The text of `src` from offset `from` on, put together again from `tokens`:
/// before each token the text that lies between it and what came before, then
/// the text of the token, and at the end what follows the last token.
pub open spec fn rebuilt(src: Seq<u8>, tokens: Seq<Token>, from: int) -> Seq<u8>
    decreases tokens.len(),
{
    if tokens.len() == 0 {
        src.subrange(from, src.len() as int)
    } else {
        src.subrange(from, tokens[0].span.start as int) + tokens[0].span.text(src) + rebuilt(
            src,
            tokens.drop_first(),
            tokens[0].span.end(),
        )
    }
}

/// A run of bytes of one class ends inside the source.
pub proof fn lemma_run_fits(src: Seq<u8>, pos: int, class: ByteClass)
    requires
        0 <= pos <= src.len(),
    ensures
        pos + run_len(src, pos, class) <= src.len(),
    decreases src.len() - pos,
{
    if pos < src.len() && class.spec_contains(src[pos]) {
        lemma_run_fits(src, pos + 1, class);
    }
}

/// A string ends inside the source.
pub proof fn lemma_string_fits(src: Seq<u8>, pos: int)
    requires
        0 <= pos <= src.len(),
    ensures
        pos + string_tail(src, pos).len <= src.len(),
    decreases src.len() - pos,
{
    if pos < src.len() {
        if src[pos] == QUOTE {
        } else if src[pos] == BACKSLASH {
            if pos + 1 < src.len() {
                lemma_string_fits(src, pos + 2);
            }
        } else {
            lemma_string_fits(src, pos + 1);
        }
    }
}

/// A line comment ends inside the source.
pub proof fn lemma_line_fits(src: Seq<u8>, pos: int)
    requires
        0 <= pos <= src.len(),
    ensures
        pos + line_tail(src, pos) <= src.len(),
    decreases src.len() - pos,
{
    if pos < src.len() && src[pos] != LINE_FEED {
        lemma_line_fits(src, pos + 1);
    }
}

/// A block comment ends inside the source.
pub proof fn lemma_block_fits(src: Seq<u8>, pos: int)
    requires
        0 <= pos <= src.len(),
    ensures
        pos + block_tail(src, pos).len <= src.len(),
    decreases src.len() - pos,
{
    if pos < src.len() {
        if src[pos] == STAR && pos + 1 < src.len() && src[pos + 1] == SLASH {
        } else {
            lemma_block_fits(src, pos + 1);
        }
    }
}

/// Every lexeme has at least one byte and ends inside the source, and one
/// that yields no token is a single space or tab.
pub proof fn lemma_lexeme_fits(src: Seq<u8>, pos: int)
    requires
        0 <= pos < src.len(),
    ensures
        1 <= lexeme(src, pos).len,
        pos + lexeme(src, pos).len <= src.len(),
        lexeme(src, pos).kind is None ==> lexeme(src, pos).len == 1 && spec_is_blank(src[pos]),
{
    let b = src[pos];
    if pos + 1 <= src.len() {
        lemma_run_fits(src, pos + 1, ByteClass::Word);
        lemma_run_fits(src, pos + 1, ByteClass::Continuation);
        lemma_string_fits(src, pos + 1);
        let base = number_base(src, pos);
        lemma_run_fits(src, pos + 1, ByteClass::NumberBody { base });
    }
    if pos + 2 <= src.len() {
        lemma_line_fits(src, pos + 2);
        lemma_block_fits(src, pos + 2);
        let base = number_base(src, pos);
        lemma_run_fits(src, pos + 2, ByteClass::NumberBody { base });
    }
}

/// Tokens that stand in order give the text back: between and around them
/// lies the rest of the source.
pub proof fn lemma_rebuilt_is_source(src: Seq<u8>, tokens: Seq<Token>, from: int)
    requires
        0 <= from <= src.len(),
        in_order(tokens, from, src.len() as int),
    ensures
        rebuilt(src, tokens, from) == src.subrange(from, src.len() as int),
    decreases tokens.len(),
{
    if tokens.len() > 0 {
        let first = tokens[0];
        let rest = tokens.drop_first();
        assert forall|i: int| 0 <= i < rest.len() implies first.span.end() <= (
        #[trigger] rest[i]).span.start && rest[i].span.len >= 1 && rest[i].span.end()
            <= src.len() by {
            assert(rest[i] == tokens[i + 1]);
        }
        assert forall|i: int, j: int| 0 <= i < j < rest.len() implies (
        #[trigger] rest[i]).span.end() <= (#[trigger] rest[j]).span.start by {
            assert(rest[i] == tokens[i + 1]);
            assert(rest[j] == tokens[j + 1]);
        }
        lemma_rebuilt_is_source(src, rest, first.span.end());
        assert(src.subrange(from, first.span.start as int) + first.span.text(src) + src.subrange(
            first.span.end(),
            src.len() as int,
        ) =~= src.subrange(from, src.len() as int));
    }
}

/// The law of the lexer. The tokens of a source, from any offset on, stand in
/// the order of the text, each with at least one byte, without overlap and
/// inside the source; each carries the line and column of its start; every
/// byte that belongs to none of them is a space or a tab; and the texts of the
/// tokens, with the text between them, are the source again.
pub proof fn lemma_tokens_tile_source(module_idx: ModuleId, src: Seq<u8>, pos: int)
    requires
        0 <= pos <= src.len() <= usize::MAX,
    ensures
        in_order(tokens_from(module_idx, src, pos), pos, src.len() as int),
        located(tokens_from(module_idx, src, pos), module_idx, src),
        forall|p: int|
            pos <= p < src.len() ==> covered(tokens_from(module_idx, src, pos), p) || spec_is_blank(
                #[trigger] src[p],
            ),
        rebuilt(src, tokens_from(module_idx, src, pos), pos) == src.subrange(
            pos,
            src.len() as int,
        ),
    decreases bytes_left(src, pos),
{
    let tokens = tokens_from(module_idx, src, pos);
    if pos < src.len() {
        let lx = lexeme(src, pos);
        lemma_lexeme_fits(src, pos);
        lemma_line_col_in_range(src, pos);
        let next = pos + lx.len;
        let rest = tokens_from(module_idx, src, next);
        lemma_tokens_tile_source(module_idx, src, next);
        match lx.kind {
            None => {
                assert(tokens == rest);
                assert forall|p: int| pos <= p < src.len() implies covered(tokens, p)
                    || spec_is_blank(#[trigger] src[p]) by {
                    if p >= next {
                        assert(covered(rest, p) || spec_is_blank(src[p]));
                    }
                }
            },
            Some(ttype) => {
                let tok = tokens[0];
                assert(tokens =~= seq![tok] + rest);
                assert(tok.span.start == pos && tok.span.len == lx.len);
                assert forall|i: int| 0 <= i < tokens.len() implies pos <= (
                #[trigger] tokens[i]).span.start && tokens[i].span.len >= 1
                    && tokens[i].span.end() <= src.len() by {
                    if i > 0 {
                        assert(tokens[i] == rest[i - 1]);
                    }
                }
                assert forall|i: int, j: int| 0 <= i < j < tokens.len() implies (
                #[trigger] tokens[i]).span.end() <= (#[trigger] tokens[j]).span.start by {
                    assert(tokens[j] == rest[j - 1]);
                    if i > 0 {
                        assert(tokens[i] == rest[i - 1]);
                    }
                }
                assert forall|i: int| 0 <= i < tokens.len() implies {
                    let span = (#[trigger] tokens[i]).span;
                    &&& span.module_idx == module_idx
                    &&& span.line == line_of(src, span.start as int)
                    &&& span.col == col_of(src, span.start as int)
                } by {
                    if i > 0 {
                        assert(tokens[i] == rest[i - 1]);
                    }
                }
                assert forall|p: int| pos <= p < src.len() implies covered(tokens, p)
                    || spec_is_blank(#[trigger] src[p]) by {
                    if p < next {
                        assert(tokens[0].span.start <= p < tokens[0].span.end());
                    } else if covered(rest, p) {
                        let i = choose|i: int|
                            0 <= i < rest.len() && (#[trigger] rest[i]).span.start <= p
                                < rest[i].span.end();
                        assert(tokens[i + 1] == rest[i]);
                        assert(tokens[i + 1].span.start <= p < tokens[i + 1].span.end());
                    }
                }
            },
        }
        lemma_rebuilt_is_source(src, tokens, pos);
    } else {
        assert(tokens =~= Seq::<Token>::empty());
    }
}

/// The line and the column of an offset inside a source fit the machine word
/// that holds the offset.
pub proof fn lemma_line_col_in_range(src: Seq<u8>, pos: int)
    requires
        0 <= pos <= usize::MAX,
    ensures
        line_of(src, pos) <= usize::MAX,
        col_of(src, pos) <= usize::MAX,
{
    lemma_line_col_bounds(src, pos);
}

/// Every token of a source lies in the source.
pub proof fn lemma_tokens_within_source(module_idx: ModuleId, src: Seq<u8>, i: int)
    requires
        src.len() <= usize::MAX,
        0 <= i < tokens_from(module_idx, src, 0).len(),
    ensures
        tokens_from(module_idx, src, 0)[i].span.within(src.len() as int),
{
    lemma_tokens_tile_source(module_idx, src, 0);
}

} // verus!
