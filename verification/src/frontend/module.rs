//! A module: the text of one source file and what the stages make of it.
//!
//! The stages run in order: `lex`, `parse`, `gen_ir`, `prepare`. Each reads
//! what the stage before it left and replaces what it left itself, so a stage
//! may be run again.
pub mod span;

use crate::frontend::ir_gen::IrGenerator;
use crate::frontend::ir_gen::ir::{ir_well_formed, irs_of, Ir, IrTag};
use crate::frontend::ir_gen::lowering::{error_nodes, lw_convert, IrGeneratorError};
use crate::frontend::ir_gen::shape::ready;
use crate::frontend::lexer::{sanitize, sanitized, Lexer};
use crate::frontend::lexer::lexeme::tokens_of;
use crate::frontend::lexer::token::{Token, TokenType};
use crate::frontend::module::span::{col_of, line_col, line_of, ModuleId, Span};
use crate::frontend::parser::Parser;
use crate::frontend::parser::ast::{nodes_of, rooted, well_formed, Ast, AstTag};
use crate::frontend::parser::grammar::{sp_program, ParserError};
use crate::frontend::parser::shape::{nodes_shaped, tokens_within};
use crate::middleend::bytecode::{
    balanced, starts_once, Bytecode, BytecodeTag, FunctionTag, ScopeTag,
};
use crate::middleend::prepare::{Function, Prepare, PrepareError, Scope, Symbol, SymbolTag};
use crate::middleend::prepare::model::{prepare_fault, prepared, scopes_of, Tables};
use crate::util::indexed_vector::IndexedVec;
use vstd::prelude::*;
use vstd::utf8::encode_utf8;

verus! {

pub struct Module {
    pub id: ModuleId,
    pub source: String,
    pub tokens: Vec<Token>,
    pub eof_token: Token,
    pub ast_nodes: IndexedVec<AstTag, Ast>,
    pub parser_errors: Vec<ParserError>,
    pub ir: IndexedVec<IrTag, Ir>,
    pub ir_errors: Vec<IrGeneratorError>,
    pub functions: IndexedVec<FunctionTag, Function>,
    pub scopes: IndexedVec<ScopeTag, Scope>,
    pub code: IndexedVec<BytecodeTag, Bytecode>,
    pub symbols: IndexedVec<SymbolTag, Symbol>,
}

/// The token that stands for the end of a source `src` of module
/// `module_idx`: an empty span behind the last byte.
pub open spec fn eof_of(module_idx: ModuleId, src: Seq<u8>) -> Token {
    Token {
        ttype: TokenType::Eof,
        span: Span {
            module_idx,
            start: src.len() as usize,
            len: 0,
            line: line_of(src, src.len() as int) as usize,
            col: col_of(src, src.len() as int) as usize,
        },
    }
}

impl Module {
    /// The bytes of the source text.
    pub open spec fn bytes(&self) -> Seq<u8> {
        encode_utf8(self.source@)
    }

    /// The tables of the preparer as they are.
    pub open spec fn tables(&self) -> Tables {
        Tables {
            code: self.code@,
            functions: self.functions@,
            scopes: scopes_of(self.scopes@),
            symbols: self.symbols@,
        }
    }

    /// Whether `self` holds the same source as `old`, for the same module.
    pub open spec fn same_source(&self, old: &Self) -> bool {
        &&& self.id == old.id
        &&& self.source == old.source
        &&& self.eof_token == old.eof_token
    }

    /// The module `id` with the text `source`, on which no stage has run.
    pub fn new(id: ModuleId, source: String) -> (r: Module)
        ensures
            r.id == id,
            r.source == source,
            r.eof_token == eof_of(id, r.bytes()),
            r.tokens@.len() == 0,
            r.ast_nodes@.len() == 0,
            r.parser_errors@.len() == 0,
            r.ir@.len() == 0,
            r.ir_errors@.len() == 0,
            r.code@.len() == 0,
            r.functions@.len() == 0,
            r.scopes@.len() == 0,
            r.symbols@.len() == 0,
    {
        let bytes = source.as_str().as_bytes();
        let n = bytes.len();
        let (line, col) = line_col(bytes, n);
        let eof_token = Token {
            ttype: TokenType::Eof,
            span: Span { module_idx: id, start: n, len: 0, line, col },
        };
        Module {
            id,
            source,
            tokens: Vec::new(),
            eof_token,
            ast_nodes: IndexedVec::new(),
            parser_errors: Vec::new(),
            ir: IndexedVec::new(),
            ir_errors: Vec::new(),
            functions: IndexedVec::new(),
            scopes: IndexedVec::new(),
            code: IndexedVec::new(),
            symbols: IndexedVec::new(),
        }
    }

    /// The span of this module from byte offset `start` up to, and without,
    /// `end`, said to lie on line `line` at column `col`.
    pub fn new_span(&self, start: usize, end: usize, line: usize, col: usize) -> (r: Span)
        requires
            start <= end <= self.bytes().len(),
        ensures
            r == (Span { module_idx: self.id, start, len: (end - start) as usize, line, col }),
            r.within(self.bytes().len() as int),
    {
        Span { module_idx: self.id, start, len: end - start, line, col }
    }

    pub fn source(&self) -> (r: &str)
        ensures
            r@ == self.source@,
    {
        self.source.as_str()
    }

    /// The number of bytes of the source text.
    pub fn source_len(&self) -> (r: usize)
        ensures
            r == self.bytes().len(),
    {
        self.source.as_str().as_bytes().len()
    }

    pub fn tokens(&self) -> (r: &Vec<Token>)
        ensures
            r == &self.tokens,
    {
        &self.tokens
    }

    pub fn eof_token(&self) -> (r: &Token)
        ensures
            r == &self.eof_token,
    {
        &self.eof_token
    }

    pub fn ast_nodes(&self) -> (r: &IndexedVec<AstTag, Ast>)
        ensures
            r == &self.ast_nodes,
    {
        &self.ast_nodes
    }

    pub fn ir(&self) -> (r: &IndexedVec<IrTag, Ir>)
        ensures
            r == &self.ir,
    {
        &self.ir
    }

    /// Turns the source text into tokens.
    pub fn lex(&mut self)
        ensures
            final(self).same_source(old(self)),
            final(self).tokens@ == tokens_of(old(self).id, old(self).bytes()),
            final(self).ast_nodes == old(self).ast_nodes,
            final(self).parser_errors == old(self).parser_errors,
            final(self).ir == old(self).ir,
            final(self).ir_errors == old(self).ir_errors,
            final(self).tables() == old(self).tables(),
    {
        let tokens = {
            let lexer = Lexer::new(self.id, self.source.as_str().as_bytes());
            lexer.lex()
        };
        self.tokens = tokens;
    }

    /// Turns the tokens, without comments and line breaks, into syntax nodes
    /// and errors. The arena that results is never empty: its last node is
    /// the program, which wraps the block of the file, and every node refers
    /// only to nodes before it.
    pub fn parse(&mut self)
        ensures
            final(self).same_source(old(self)),
            final(self).tokens == old(self).tokens,
            nodes_of(final(self).ast_nodes@) == sp_program(
                sanitized(old(self).tokens@),
                old(self).eof_token,
            ).nodes,
            final(self).parser_errors@ == sp_program(
                sanitized(old(self).tokens@),
                old(self).eof_token,
            ).errors,
            well_formed(nodes_of(final(self).ast_nodes@)),
            rooted(nodes_of(final(self).ast_nodes@)),
            forall|n: int|
                tokens_within(sanitized(old(self).tokens@), old(self).eof_token, n)
                    ==> #[trigger] nodes_shaped(nodes_of(final(self).ast_nodes@), 0, n),
            final(self).ir == old(self).ir,
            final(self).ir_errors == old(self).ir_errors,
            final(self).tables() == old(self).tables(),
    {
        let (asts, errors) = {
            let toks = sanitize(self.tokens.as_slice());
            let mut parser = Parser::new(toks.as_slice(), self.eof_token);
            parser.parse();
            parser.get_results()
        };
        self.ast_nodes = asts;
        self.parser_errors = errors;
    }

    /// Lowers the syntax tree, which `parse` must have made, into the
    /// intermediate representation and its errors.
    pub fn gen_ir(&mut self)
        requires
            old(self).ast_nodes@.len() > 0,
        ensures
            final(self).same_source(old(self)),
            final(self).tokens == old(self).tokens,
            final(self).ast_nodes == old(self).ast_nodes,
            final(self).parser_errors == old(self).parser_errors,
            irs_of(final(self).ir@) == lw_convert(
                nodes_of(old(self).ast_nodes@),
                old(self).bytes(),
                old(self).ast_nodes@.len() - 1,
                0,
            ).nodes,
            final(self).ir_errors@ == lw_convert(
                nodes_of(old(self).ast_nodes@),
                old(self).bytes(),
                old(self).ast_nodes@.len() - 1,
                0,
            ).errors,
            final(self).ir@.len() >= 1,
            ir_well_formed(irs_of(final(self).ir@)),
            error_nodes(irs_of(final(self).ir@)) == final(self).ir_errors@.len(),
            rooted(nodes_of(old(self).ast_nodes@)) ==> irs_of(final(self).ir@)[0] is Block,
            well_formed(nodes_of(old(self).ast_nodes@)) && rooted(nodes_of(old(self).ast_nodes@))
                && nodes_shaped(nodes_of(old(self).ast_nodes@), 0, old(self).bytes().len() as int)
                ==> ready(irs_of(final(self).ir@)),
            final(self).tables() == old(self).tables(),
    {
        let (ir, errors) = {
            let mut ir_generator = IrGenerator::new(
                &self.ast_nodes,
                self.source.as_str().as_bytes(),
            );
            ir_generator.generate();
            ir_generator.get_results()
        };
        self.ir = ir;
        self.ir_errors = errors;
    }

    /// Fills the tables of functions, scopes, symbols and bytecode from the
    /// intermediate representation, or stops at its first fault, with
    /// nothing in the tables but what was made before the fault. The bytecode
    /// is nested and closed either way, and opens every scope and function
    /// once.
    pub fn prepare(&mut self) -> (r: Result<(), PrepareError>)
        ensures
            final(self).same_source(old(self)),
            final(self).tokens == old(self).tokens,
            final(self).ast_nodes == old(self).ast_nodes,
            final(self).parser_errors == old(self).parser_errors,
            final(self).ir == old(self).ir,
            final(self).ir_errors == old(self).ir_errors,
            balanced(final(self).code@),
            starts_once(final(self).code@),
            r == match prepare_fault(old(self).ir@) {
                Some(e) => Err::<(), PrepareError>(e),
                None => Ok(()),
            },
            final(self).tables().same_as(prepared(old(self).ir@)),
            ready(irs_of(old(self).ir@)) ==> r == Ok::<(), PrepareError>(()),
    {
        let (r, tables) = {
            let mut prepare = Prepare::new(&self.ir);
            let r = prepare.prepare();
            (r, prepare.get_results())
        };
        self.functions = tables.0;
        self.scopes = tables.1;
        self.code = tables.2;
        self.symbols = tables.3;
        r
    }
}

} // verus!
