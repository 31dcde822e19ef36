//! The lexer: one forward pass over the source text of a module, which turns
//! it into tokens. Text that is no token of the language becomes an error
//! token in its place, so every source has a token stream.
pub mod ascii;
pub mod lexeme;
pub mod tiling;
pub mod token;

use crate::frontend::lexer::ascii::{
    BACKSLASH, CARRIAGE_RETURN, CLOSE_BRACE, CLOSE_PAREN, DIGIT_0, EQUALS, GREATER, LINE_FEED,
    LOWER_A, LOWER_B, LOWER_C, LOWER_D, LOWER_E, LOWER_F, LOWER_N, LOWER_O, LOWER_R, LOWER_S,
    LOWER_T, LOWER_U, LOWER_V, LOWER_X, OPEN_BRACE, OPEN_PAREN, PLUS, QUOTE, SEMICOLON, SLASH, STAR,
};
use crate::frontend::lexer::lexeme::{
    block_tail, count_of, is_blank, is_digit, is_string_literal, is_word_start, lexeme, line_tail,
    number_lexeme, run_len, slash_lexeme, spec_is_blank, spelled, spelling, string_lexeme,
    string_tail, tokens_from, tokens_of, unescape, word_kind, word_lexeme, Base, BlockTail,
    ByteClass, StringTail,
};
use crate::frontend::lexer::tiling::{
    covered, in_order, lemma_string_fits, lemma_tokens_tile_source, lemma_tokens_within_source,
    located, rebuilt,
};
use crate::frontend::lexer::token::{LexError, Token, TokenType};
use crate::frontend::module::span::{
    col_of, lemma_line_col_bounds, line_of, span_at, ModuleId, Span,
};
use vstd::prelude::*;

verus! {

/// The state of a scan: the source, the offset of the next byte to read, and
/// the line and column of that offset.
pub struct Lexer<'m> {
    pub module_idx: ModuleId,
    pub source: &'m [u8],
    pub current: usize,
    pub line: usize,
    pub col: usize,
}

/// Whether `text` and `word` hold the same bytes.
pub fn same_bytes(text: &[u8], word: &[u8]) -> (r: bool)
    ensures
        r == (text@ == word@),
{
    if text.len() != word.len() {
        return false;
    }
    let mut i: usize = 0;
    while i < text.len()
        invariant
            i <= text@.len(),
            text@.len() == word@.len(),
            forall|j: int| 0 <= j < i ==> text@[j] == word@[j],
        decreases text@.len() - i,
    {
        if text[i] != word[i] {
            return false;
        }
        i += 1;
    }
    assert(text@ =~= word@);
    true
}

/// The tag of the word `text`: that of the keyword it spells, else `Iden`.
pub fn keyword_or_iden(text: &[u8]) -> (r: TokenType)
    ensures
        r == word_kind(text@),
{
    let def: [u8; 3] = [LOWER_D, LOWER_E, LOWER_F];
    let fun: [u8; 3] = [LOWER_F, LOWER_U, LOWER_N];
    let var: [u8; 3] = [LOWER_V, LOWER_A, LOWER_R];
    let constant: [u8; 5] = [LOWER_C, LOWER_O, LOWER_N, LOWER_S, LOWER_T];
    let ret: [u8; 6] = [LOWER_R, LOWER_E, LOWER_T, LOWER_U, LOWER_R, LOWER_N];
    let structure: [u8; 6] = [LOWER_S, LOWER_T, LOWER_R, LOWER_U, LOWER_C, LOWER_T];
    proof {
        assert(def@ =~= spelling(TokenType::Def));
        assert(fun@ =~= spelling(TokenType::Fun));
        assert(var@ =~= spelling(TokenType::Var));
        assert(constant@ =~= spelling(TokenType::Const));
        assert(ret@ =~= spelling(TokenType::Return));
        assert(structure@ =~= spelling(TokenType::Struct));
    }
    if same_bytes(text, def.as_slice()) {
        TokenType::Def
    } else if same_bytes(text, fun.as_slice()) {
        TokenType::Fun
    } else if same_bytes(text, var.as_slice()) {
        TokenType::Var
    } else if same_bytes(text, constant.as_slice()) {
        TokenType::Const
    } else if same_bytes(text, ret.as_slice()) {
        TokenType::Return
    } else if same_bytes(text, structure.as_slice()) {
        TokenType::Struct
    } else {
        TokenType::Iden
    }
}

/// The number of bytes of `class` in `source` from `from` up to, and without,
/// `to`.
pub fn count_in(source: &[u8], from: usize, to: usize, class: ByteClass) -> (n: usize)
    requires
        from <= to <= source@.len(),
    ensures
        n == count_of(source@, from as int, to as int, class),
        n <= to - from,
{
    let mut n: usize = 0;
    let mut i: usize = from;
    while i < to
        invariant
            from <= i <= to <= source@.len(),
            n == count_of(source@, from as int, i as int, class),
            n <= i - from,
        decreases to - i,
    {
        if class.contains(source[i]) {
            n += 1;
        }
        i += 1;
    }
    n
}

/// The tokens that the parser reads: `tokens` without comments and line
/// breaks.
pub open spec fn sanitized(tokens: Seq<Token>) -> Seq<Token> {
    tokens.filter(parser_reads())
}

/// The test that a token passes which the parser reads.
pub open spec fn parser_reads() -> spec_fn(Token) -> bool {
    |t: Token| !t.ttype.spec_is_trivia()
}

/// The tokens that the parser reads of a source lie in the source.
pub proof fn lemma_sanitized_within(module_idx: ModuleId, src: Seq<u8>)
    requires
        src.len() <= usize::MAX,
    ensures
        forall|i: int|
            0 <= i < sanitized(tokens_of(module_idx, src)).len() ==> (#[trigger] sanitized(
                tokens_of(module_idx, src),
            )[i]).span.within(src.len() as int),
{
    let all = tokens_of(module_idx, src);
    let kept = sanitized(all);
    assert forall|i: int| 0 <= i < kept.len() implies (#[trigger] kept[i]).span.within(
        src.len() as int,
    ) by {
        assert(kept.contains(kept[i]));
        all.lemma_filter_contains_rev(parser_reads(), kept[i]);
        let j = choose|j: int| 0 <= j < all.len() && all[j] == kept[i];
        lemma_tokens_within_source(module_idx, src, j);
    }
}

/// Copies `tokens` without the comments and the line breaks, in their order.
pub fn sanitize(tokens: &[Token]) -> (res: Vec<Token>)
    ensures
        res@ == sanitized(tokens@),
{
    let mut res: Vec<Token> = Vec::new();
    let mut i: usize = 0;
    proof {
        reveal(Seq::filter);
        assert(tokens@.take(0) =~= Seq::<Token>::empty());
    }
    while i < tokens.len()
        invariant
            i <= tokens@.len(),
            res@ == tokens@.take(i as int).filter(parser_reads()),
        decreases tokens@.len() - i,
    {
        let tok = tokens[i];
        proof {
            let done = tokens@.take(i as int);
            assert(tokens@.take(i + 1) =~= done.push(tok));
            assert(parser_reads()(tok) == !tok.ttype.spec_is_trivia());
            done.lemma_filter_push(tok, parser_reads());
        }
        if !tok.ttype.is_trivia() {
            res.push(tok);
        }
        i += 1;
    }
    assert(tokens@.take(i as int) =~= tokens@);
    res
}

/// The content of the string literal `text`, which starts and ends with its
/// quotes: the bytes between them, with every escape replaced by the byte it
/// stands for. `None` where `text` is no string literal: it does not start
/// with a quote, is not closed by its last byte, or holds a bare line break.
pub fn string_value(text: &[u8]) -> (r: Option<Vec<u8>>)
    ensures
        r is Some == is_string_literal(text@),
        r matches Some(v) ==> v@ == spelled(text@.subrange(1, text@.len() - 1)),
{
    if text.len() == 0 || text[0] != QUOTE {
        return None;
    }
    let mut lexer = Lexer::new(ModuleId::from(0usize), text);
    let kind = lexer.string();
    if !(kind == TokenType::Str && lexer.current == text.len()) {
        return None;
    }
    proof {
        lemma_string_fits(text@, 1);
    }
    let body = vstd::slice::slice_subrange(text, 1, text.len() - 1);
    let mut out: Vec<u8> = Vec::new();
    let mut i: usize = 0;
    proof {
        assert(body@.skip(0) =~= body@);
        assert(out@ + spelled(body@) =~= spelled(body@));
    }
    while i < body.len()
        invariant
            i <= body@.len(),
            out@ + spelled(body@.skip(i as int)) == spelled(body@),
        decreases body@.len() - i,
    {
        let ghost rest = body@.skip(i as int);
        let ghost before = out@;
        let c = body[i];
        if c == BACKSLASH && i + 1 < body.len() {
            let e = unescape(body[i + 1]);
            out.push(e);
            proof {
                assert(rest.skip(2) =~= body@.skip(i + 2));
                assert(out@ + spelled(rest.skip(2)) =~= before + (seq![e] + spelled(rest.skip(2))));
            }
            i += 2;
        } else if c == BACKSLASH {
            proof {
                assert(rest.skip(1) =~= body@.skip(i + 1));
            }
            i += 1;
        } else {
            out.push(c);
            proof {
                assert(rest.skip(1) =~= body@.skip(i + 1));
                assert(out@ + spelled(rest.skip(1)) =~= before + (seq![c] + spelled(rest.skip(1))));
            }
            i += 1;
        }
    }
    proof {
        assert(spelled(body@.skip(i as int)) =~= Seq::<u8>::empty());
        assert(out@ + Seq::<u8>::empty() =~= out@);
    }
    Some(out)
}

impl<'m> Lexer<'m> {
    /// Whether the line and the column are those of the offset, and the offset
    /// lies in the source or at its end.
    pub open spec fn wf(&self) -> bool {
        &&& self.current <= self.source@.len()
        &&& self.line == line_of(self.source@, self.current as int)
        &&& self.col == col_of(self.source@, self.current as int)
    }

    /// Whether `self` scans the same source as `other`, for the same module.
    pub open spec fn same_input(&self, other: &Self) -> bool {
        &&& self.source == other.source
        &&& self.module_idx == other.module_idx
    }

    /// A lexer at the start of `source`, the text of module `module_idx`.
    pub fn new(module_idx: ModuleId, source: &'m [u8]) -> (r: Lexer<'m>)
        ensures
            r.wf(),
            r.current == 0,
            r.source == source,
            r.module_idx == module_idx,
    {
        Lexer { module_idx, source, current: 0, line: 0, col: 0 }
    }

    /// The byte at the offset, without reading it.
    fn peek(&self) -> (r: Option<u8>)
        requires
            self.wf(),
        ensures
            self.current < self.source@.len() ==> r == Some(self.source@[self.current as int]),
            self.current >= self.source@.len() ==> r is None,
    {
        if self.current < self.source.len() {
            Some(self.source[self.current])
        } else {
            None
        }
    }

    /// Reads the byte at the offset and moves on by one byte, keeping count of
    /// lines and columns. At the end of the source nothing changes.
    fn next(&mut self) -> (r: Option<u8>)
        requires
            old(self).wf(),
        ensures
            final(self).wf(),
            final(self).same_input(old(self)),
            old(self).current < old(self).source@.len() ==> r == Some(
                old(self).source@[old(self).current as int],
            ) && final(self).current == old(self).current + 1,
            old(self).current >= old(self).source@.len() ==> r is None && final(self).current
                == old(self).current,
    {
        let n = self.source.len();
        if self.current >= n {
            return None;
        }
        let b = self.source[self.current];
        let ends = b == LINE_FEED || (b == CARRIAGE_RETURN && !(self.current + 1 < n
            && self.source[self.current + 1] == LINE_FEED));
        proof {
            lemma_line_col_bounds(self.source@, self.current as int);
        }
        self.current += 1;
        if ends {
            self.line += 1;
            self.col = 0;
        } else {
            self.col += 1;
        }
        Some(b)
    }

    /// The token of tag `ttype` that starts at offset `start`, on line `line`
    /// at column `col`, and ends before the current offset.
    fn new_token(&self, ttype: TokenType, start: usize, line: usize, col: usize) -> (r: Token)
        requires
            start <= self.current,
        ensures
            r.ttype == ttype,
            r.span == (Span {
                module_idx: self.module_idx,
                start,
                len: (self.current - start) as usize,
                line,
                col,
            }),
    {
        Token {
            ttype,
            span: Span { module_idx: self.module_idx, start, len: self.current - start, line, col },
        }
    }

    /// Moves over the bytes of `class` that stand at the offset.
    fn skip_run(&mut self, class: ByteClass)
        requires
            old(self).wf(),
        ensures
            final(self).wf(),
            final(self).same_input(old(self)),
            final(self).current == old(self).current + run_len(
                old(self).source@,
                old(self).current as int,
                class,
            ),
    {
        let ghost start = self.current as int;
        let ghost src = self.source@;
        while self.current < self.source.len() && class.contains(self.source[self.current])
            invariant
                self.wf(),
                self.same_input(old(self)),
                src == self.source@,
                start == old(self).current,
                self.current + run_len(src, self.current as int, class) == start + run_len(
                    src,
                    start,
                    class,
                ),
            decreases self.source@.len() - self.current,
        {
            self.next();
        }
    }

    /// Reads the number at the offset, where a decimal digit stands.
    fn number(&mut self) -> (r: TokenType)
        requires
            old(self).wf(),
            old(self).current < old(self).source@.len(),
            is_digit(old(self).source@[old(self).current as int]),
        ensures
            final(self).wf(),
            final(self).same_input(old(self)),
            final(self).current == old(self).current + number_lexeme(
                old(self).source@,
                old(self).current as int,
            ).len,
            Some(r) == number_lexeme(old(self).source@, old(self).current as int).kind,
    {
        let first = self.source[self.current];
        self.next();
        let mut base = Base::Decimal;
        if first == DIGIT_0 {
            match self.peek() {
                Some(c) => {
                    if c == LOWER_X {
                        base = Base::Hex;
                    } else if c == LOWER_O {
                        base = Base::Octal;
                    } else if c == LOWER_B {
                        base = Base::Binary;
                    }
                },
                None => {},
            }
            if base != Base::Decimal {
                self.next();
            }
        }
        let body = self.current;
        self.skip_run(ByteClass::NumberBody { base });
        let end = self.current;
        let dots = count_in(self.source, body, end, ByteClass::Dot);
        let in_body = count_in(self.source, body, end, ByteClass::Digit { base });
        let no_digit = in_body == 0 && base != Base::Decimal;
        if dots > 1 || (dots > 0 && base != Base::Decimal) || no_digit {
            TokenType::ErrorToken { error: LexError::InvalidNumber }
        } else if dots == 1 {
            TokenType::Float
        } else {
            TokenType::Integer
        }
    }

    /// Reads the string at the offset, where a quote stands.
    fn string(&mut self) -> (r: TokenType)
        requires
            old(self).wf(),
            old(self).current < old(self).source@.len(),
            old(self).source@[old(self).current as int] == QUOTE,
        ensures
            final(self).wf(),
            final(self).same_input(old(self)),
            final(self).current == old(self).current + string_lexeme(
                old(self).source@,
                old(self).current as int,
            ).len,
            Some(r) == string_lexeme(old(self).source@, old(self).current as int).kind,
    {
        let ghost src = self.source@;
        self.next();
        let ghost start = self.current as int;
        let mut closed = false;
        let mut broken = false;
        while !closed && self.current < self.source.len()
            invariant
                self.wf(),
                self.same_input(old(self)),
                src == self.source@,
                start <= self.current,
                closed ==> string_tail(src, start) == (StringTail {
                    len: (self.current - start) as nat,
                    closed: true,
                    broken,
                }),
                !closed ==> string_tail(src, start) == (StringTail {
                    len: (self.current - start) as nat + string_tail(src, self.current as int).len,
                    closed: string_tail(src, self.current as int).closed,
                    broken: broken || string_tail(src, self.current as int).broken,
                }),
            decreases self.source@.len() - self.current, if closed { 0int } else { 1int },
        {
            let c = self.source[self.current];
            self.next();
            if c == QUOTE {
                closed = true;
            } else if c == BACKSLASH {
                self.next();
            } else if c == LINE_FEED || c == CARRIAGE_RETURN {
                broken = true;
            }
        }
        if !closed {
            TokenType::ErrorToken { error: LexError::UnterminatedString }
        } else if broken {
            TokenType::ErrorToken { error: LexError::InvalidString }
        } else {
            TokenType::Str
        }
    }

    /// Reads the word at the offset, where a letter or an underscore stands.
    fn word(&mut self) -> (r: TokenType)
        requires
            old(self).wf(),
            old(self).current < old(self).source@.len(),
            is_word_start(old(self).source@[old(self).current as int]),
        ensures
            final(self).wf(),
            final(self).same_input(old(self)),
            final(self).current == old(self).current + word_lexeme(
                old(self).source@,
                old(self).current as int,
            ).len,
            Some(r) == word_lexeme(old(self).source@, old(self).current as int).kind,
    {
        let start = self.current;
        self.next();
        self.skip_run(ByteClass::Word);
        keyword_or_iden(vstd::slice::slice_subrange(self.source, start, self.current))
    }

    /// Reads what starts with the slash at the offset: a comment, `/=` or `/`.
    fn slash(&mut self) -> (r: TokenType)
        requires
            old(self).wf(),
            old(self).current < old(self).source@.len(),
            old(self).source@[old(self).current as int] == SLASH,
        ensures
            final(self).wf(),
            final(self).same_input(old(self)),
            final(self).current == old(self).current + slash_lexeme(
                old(self).source@,
                old(self).current as int,
            ).len,
            Some(r) == slash_lexeme(old(self).source@, old(self).current as int).kind,
    {
        let ghost src = self.source@;
        self.next();
        let second = self.peek();
        if second == Some(SLASH) {
            self.next();
            let ghost start = self.current as int;
            let mut done = false;
            while !done && self.current < self.source.len()
                invariant
                    self.wf(),
                    self.same_input(old(self)),
                    src == self.source@,
                    start <= self.current,
                    done ==> line_tail(src, start) == self.current - start,
                    !done ==> line_tail(src, start) == self.current - start + line_tail(
                        src,
                        self.current as int,
                    ),
                decreases self.source@.len() - self.current, if done { 0int } else { 1int },
            {
                let c = self.source[self.current];
                self.next();
                if c == LINE_FEED {
                    done = true;
                }
            }
            TokenType::Comment { block: false }
        } else if second == Some(STAR) {
            self.next();
            let ghost start = self.current as int;
            let mut closed = false;
            while !closed && self.current < self.source.len()
                invariant
                    self.wf(),
                    self.same_input(old(self)),
                    src == self.source@,
                    start <= self.current,
                    closed ==> block_tail(src, start) == (BlockTail {
                        len: (self.current - start) as nat,
                        closed: true,
                    }),
                    !closed ==> block_tail(src, start) == (BlockTail {
                        len: (self.current - start) as nat + block_tail(
                            src,
                            self.current as int,
                        ).len,
                        closed: block_tail(src, self.current as int).closed,
                    }),
                decreases self.source@.len() - self.current, if closed { 0int } else { 1int },
            {
                let c = self.source[self.current];
                self.next();
                if c == STAR && self.peek() == Some(SLASH) {
                    self.next();
                    closed = true;
                }
            }
            if closed {
                TokenType::Comment { block: true }
            } else {
                TokenType::ErrorToken { error: LexError::UnterminatedComment }
            }
        } else if second == Some(EQUALS) {
            self.next();
            TokenType::DivAssign
        } else {
            TokenType::Div
        }
    }

    /// Reads the lexeme at the offset, which lies inside the source, and
    /// returns the tag of its token, or `None` for white space.
    fn scan(&mut self) -> (r: Option<TokenType>)
        requires
            old(self).wf(),
            old(self).current < old(self).source@.len(),
        ensures
            final(self).wf(),
            final(self).same_input(old(self)),
            final(self).current == old(self).current + lexeme(
                old(self).source@,
                old(self).current as int,
            ).len,
            r == lexeme(old(self).source@, old(self).current as int).kind,
    {
        let c = self.source[self.current];
        if is_digit(c) {
            Some(self.number())
        } else if c == QUOTE {
            Some(self.string())
        } else if is_word_start(c) {
            Some(self.word())
        } else if c == SLASH {
            Some(self.slash())
        } else if c == PLUS {
            self.next();
            Some(TokenType::Add)
        } else if c == SEMICOLON {
            self.next();
            Some(TokenType::Semicolon)
        } else if c == OPEN_PAREN {
            self.next();
            Some(TokenType::OpenParen)
        } else if c == CLOSE_PAREN {
            self.next();
            Some(TokenType::CloseParen)
        } else if c == OPEN_BRACE {
            self.next();
            Some(TokenType::OpenBrace)
        } else if c == CLOSE_BRACE {
            self.next();
            Some(TokenType::CloseBrace)
        } else if c == EQUALS && self.current + 1 < self.source.len() && self.source[self.current
            + 1] == GREATER {
            self.next();
            self.next();
            Some(TokenType::StrongArrowRight)
        } else if c == LINE_FEED {
            self.next();
            Some(TokenType::LineBreak)
        } else if c == CARRIAGE_RETURN {
            self.next();
            if self.peek() == Some(LINE_FEED) {
                self.next();
            }
            Some(TokenType::LineBreak)
        } else if is_blank(c) {
            self.next();
            None
        } else {
            self.next();
            self.skip_run(ByteClass::Continuation);
            Some(TokenType::ErrorToken { error: LexError::UnknownCharacter })
        }
    }

    /// Reads the source from the offset to its end and returns the tokens in
    /// the order of the text. Spaces and tabs yield no token; everything else
    /// does, and text that is no token of the language yields an error token,
    /// so the scan always reaches the end of the source. The tokens tile the
    /// text that was read: they stand one behind the other, each carries the
    /// line and the column of its start, every byte outside them is a space
    /// or a tab, and their texts, with what lies between them, are the text
    /// again.
    pub fn lex(self) -> (res: Vec<Token>)
        requires
            self.wf(),
        ensures
            res@ == tokens_from(self.module_idx, self.source@, self.current as int),
            self.current == 0 ==> res@ == tokens_of(self.module_idx, self.source@),
            in_order(res@, self.current as int, self.source@.len() as int),
            located(res@, self.module_idx, self.source@),
            forall|p: int|
                self.current <= p < self.source@.len() ==> covered(res@, p) || spec_is_blank(
                    #[trigger] self.source@[p],
                ),
            rebuilt(self.source@, res@, self.current as int) == self.source@.subrange(
                self.current as int,
                self.source@.len() as int,
            ),
    {
        proof {
            assert(self.source@.len() <= usize::MAX) by {
                vstd::slice::axiom_spec_len(self.source);
            }
            lemma_tokens_tile_source(self.module_idx, self.source@, self.current as int);
        }
        let mut lexer = self;
        let mut res: Vec<Token> = Vec::new();
        let ghost src = self.source@;
        let ghost module_idx = self.module_idx;
        let ghost all = tokens_from(module_idx, src, self.current as int);
        assert(res@ + all =~= all);
        while lexer.current < lexer.source.len()
            invariant
                lexer.wf(),
                src == lexer.source@,
                module_idx == lexer.module_idx,
                res@ + tokens_from(module_idx, src, lexer.current as int) == all,
            decreases lexer.source@.len() - lexer.current,
        {
            let start = lexer.current;
            let line = lexer.line;
            let col = lexer.col;
            let ghost before = res@;
            let ghost rest = tokens_from(module_idx, src, start + lexeme(src, start as int).len);
            match lexer.scan() {
                Some(ttype) => {
                    let tok = lexer.new_token(ttype, start, line, col);
                    assert(tok == Token {
                        span: span_at(
                            module_idx,
                            src,
                            start as int,
                            lexeme(src, start as int).len as int,
                        ),
                        ttype,
                    });
                    res.push(tok);
                    assert(res@ + rest =~= before + (seq![tok] + rest));
                },
                None => {},
            }
        }
        assert(tokens_from(module_idx, src, lexer.current as int) =~= Seq::<Token>::empty());
        assert(res@ + Seq::<Token>::empty() =~= res@);
        res
    }
}

} // verus!
