//! Front end and early middle end of a compiler for a small C-like language:
//! source text to tokens, tokens to an arena of syntax nodes, syntax nodes to
//! a block-structured intermediate representation, and from there to scopes,
//! symbols and a skeleton of bytecode.
pub mod compiler;
pub mod frontend;
pub mod middleend;
pub mod util;

use crate::compiler::Compiler;
use crate::frontend::ir_gen::ir::irs_of;
use crate::frontend::ir_gen::lowering::lw_convert;
use crate::frontend::lexer::{lemma_sanitized_within, sanitized};
use crate::frontend::lexer::lexeme::tokens_of;
use crate::frontend::module::eof_of;
use crate::frontend::module::span::ModuleId;
use crate::frontend::parser::ast::nodes_of;
use crate::frontend::parser::grammar::sp_program;
use crate::frontend::parser::shape::tokens_within;
use crate::middleend::bytecode::{balanced, starts_once};
use crate::middleend::prepare::model::prepared;
use vstd::prelude::*;

verus! {

/// Compiles the source text `source` as far as this library goes: a compiler
/// with one module, on which the four stages have run in their order. The
/// stages never stop, whatever the text: what is wrong with it is in the
/// error tokens and in the errors of the parser and of the generator, and the
/// preparer, which stops only at faults of the stages before it, finds none.
pub fn compile(source: String) -> (c: Compiler)
    ensures
        c.modules@.len() == 1,
        c.modules@[0].id == ModuleId::at(0),
        c.modules@[0].source == source,
        c.modules@[0].eof_token == eof_of(ModuleId::at(0), c.modules@[0].bytes()),
        c.modules@[0].tokens@ == tokens_of(ModuleId::at(0), c.modules@[0].bytes()),
        nodes_of(c.modules@[0].ast_nodes@) == sp_program(
            sanitized(c.modules@[0].tokens@),
            c.modules@[0].eof_token,
        ).nodes,
        c.modules@[0].parser_errors@ == sp_program(
            sanitized(c.modules@[0].tokens@),
            c.modules@[0].eof_token,
        ).errors,
        irs_of(c.modules@[0].ir@) == lw_convert(
            nodes_of(c.modules@[0].ast_nodes@),
            c.modules@[0].bytes(),
            c.modules@[0].ast_nodes@.len() - 1,
            0,
        ).nodes,
        c.modules@[0].ir_errors@ == lw_convert(
            nodes_of(c.modules@[0].ast_nodes@),
            c.modules@[0].bytes(),
            c.modules@[0].ast_nodes@.len() - 1,
            0,
        ).errors,
        c.modules@[0].tables().same_as(prepared(c.modules@[0].ir@)),
        balanced(c.modules@[0].code@),
        starts_once(c.modules@[0].code@),
{
    let mut c = Compiler::new();
    let id = c.module_from_string(source);
    let module = c.modules.get_mut(id);
    let ghost bytes = module.bytes();
    let n = module.source_len();
    module.lex();
    proof {
        assert(bytes.len() == n);
        lemma_sanitized_within(module.id, bytes);
        assert(tokens_within(sanitized(module.tokens@), module.eof_token, bytes.len() as int));
    }
    module.parse();
    module.gen_ir();
    let prepared = module.prepare();
    assert(prepared is Ok);
    c
}

} // verus!
